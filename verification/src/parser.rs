//! The grammar and its parser.
//!
//! The grammar over the input text is
//!
//! ```text
//! sexpr   := list | quote | atom
//! list    := '(' (whitespace* sexpr)* whitespace* ')'
//! quote   := ( "'" | "quote" whitespace+ ) sexpr_noquote
//! atom    := symbol | string | bool | number
//! symbol  := alphabetic+
//! string  := '"' (any char but '"')* '"'
//! bool    := '#' ('t' | 'f')
//! number  := float | integer
//! integer := digit+
//! float   := digit+ '.' digit+
//! ```
//!
//! where `sexpr_noquote` is `sexpr` without the quote rule, at every depth of
//! the quoted form: quote sugar cannot be nested inside itself within the
//! same quoted form. Alternatives are tried in the order written; the first
//! that matches wins. When every alternative fails, the error that reached
//! the furthest position is reported.
//!
//! The whole grammar is first written down as spec functions, which are the
//! contract; the executable parser below is proved to return exactly what
//! the spec functions say, for every input.

use vstd::prelude::*;

use crate::ast::view_sexprs;
use crate::ast::SExpr;
use crate::ast::SpecSExpr;
use crate::ast::SpecToken;
use crate::ast::Token;

verus! {

// ---------------------------------------------------------------------------
// Character classes
// ---------------------------------------------------------------------------

/// Whitespace as the grammar knows it: space, newline and tab.
pub open spec fn is_ws_char(c: char) -> bool {
    c == ' ' || c == '\n' || c == '\t'
}

/// Decimal digits.
pub open spec fn is_digit_char(c: char) -> bool {
    48 <= c as u32 && c as u32 <= 57
}

/// Alphabetic characters, exactly as `char::is_alphabetic` decides them;
/// which characters those are depends on the character alone.
pub uninterp spec fn is_alphabetic_char(c: char) -> bool;

/// Relies on `char::is_alphabetic`: a pure classification of the character.
pub assume_specification[ char::is_alphabetic ](c: char) -> (r: bool)
    ensures
        r == is_alphabetic_char(c),
;

// ---------------------------------------------------------------------------
// Scanning runs of characters
// ---------------------------------------------------------------------------

/// How many consecutive whitespace characters stand at `pos`.
pub open spec fn ws_run(s: Seq<char>, pos: int) -> nat
    decreases s.len() - pos,
{
    if pos < s.len() && is_ws_char(s[pos]) {
        ws_run(s, pos + 1) + 1
    } else {
        0
    }
}

/// How many consecutive alphabetic characters stand at `pos`.
pub open spec fn alpha_run(s: Seq<char>, pos: int) -> nat
    decreases s.len() - pos,
{
    if pos < s.len() && is_alphabetic_char(s[pos]) {
        alpha_run(s, pos + 1) + 1
    } else {
        0
    }
}

/// How many consecutive digits stand at `pos`.
pub open spec fn digit_run(s: Seq<char>, pos: int) -> nat
    decreases s.len() - pos,
{
    if pos < s.len() && is_digit_char(s[pos]) {
        digit_run(s, pos + 1) + 1
    } else {
        0
    }
}

/// How many consecutive characters other than `"` stand at `pos`.
pub open spec fn string_body_run(s: Seq<char>, pos: int) -> nat
    decreases s.len() - pos,
{
    if pos < s.len() && s[pos] != '"' {
        string_body_run(s, pos + 1) + 1
    } else {
        0
    }
}

// ---------------------------------------------------------------------------
// Syntax errors
// ---------------------------------------------------------------------------

/// Why a rule did not match.
#[derive(Debug, Clone, PartialEq)]
pub enum ErrorReason {
    /// The parser met this character where the grammar allows none;
    /// `None` stands for the end of the input.
    Unexpected(Option<char>),
    /// A free-form diagnostic from a low-level lexical rule.
    Custom(String),
}

/// The mathematical value of an `ErrorReason`.
#[verifier::ext_equal]
pub enum SpecErrorReason {
    Unexpected(Option<char>),
    Custom(Seq<char>),
}

impl View for ErrorReason {
    type V = SpecErrorReason;

    open spec fn view(&self) -> SpecErrorReason {
        match self {
            ErrorReason::Unexpected(c) => SpecErrorReason::Unexpected(*c),
            ErrorReason::Custom(m) => SpecErrorReason::Custom(m@),
        }
    }
}

impl DeepView for ErrorReason {
    type V = SpecErrorReason;

    open spec fn deep_view(&self) -> SpecErrorReason {
        self.view()
    }
}

/// A syntax error: the span of input it points at, and the reason.
#[derive(Debug, Clone, PartialEq)]
pub struct SyntaxError {
    pub start: usize,
    pub end: usize,
    pub reason: ErrorReason,
}

/// The mathematical value of a `SyntaxError`.
#[verifier::ext_equal]
pub struct SpecSyntaxError {
    pub start: int,
    pub end: int,
    pub reason: SpecErrorReason,
}

impl View for SyntaxError {
    type V = SpecSyntaxError;

    open spec fn view(&self) -> SpecSyntaxError {
        SpecSyntaxError { start: self.start as int, end: self.end as int, reason: self.reason@ }
    }
}

impl DeepView for SyntaxError {
    type V = SpecSyntaxError;

    open spec fn deep_view(&self) -> SpecSyntaxError {
        self.view()
    }
}

/// The error for meeting the character at `pos` (or the end of the input)
/// where the grammar allows none.
pub open spec fn unexpected_at(s: Seq<char>, pos: int) -> SpecSyntaxError {
    if 0 <= pos && pos < s.len() {
        SpecSyntaxError { start: pos, end: pos + 1, reason: SpecErrorReason::Unexpected(Some(s[pos])) }
    } else {
        SpecSyntaxError {
            start: s.len() as int,
            end: s.len() as int,
            reason: SpecErrorReason::Unexpected(None),
        }
    }
}

/// Of the errors of two alternatives, the one that reached further into the
/// input; the earlier alternative wins a tie.
pub open spec fn pick_err(e1: SpecSyntaxError, e2: SpecSyntaxError) -> SpecSyntaxError {
    if e2.start > e1.start {
        e2
    } else {
        e1
    }
}

// ---------------------------------------------------------------------------
// The grammar as a mathematical function
// ---------------------------------------------------------------------------

/// What a grammar rule yields at a given position: the parsed value together
/// with how much input it consumed, or the error of the failed match. A rule
/// that matches always consumes at least one character; `more` counts the
/// characters consumed beyond the first, so the input after a match at `pos`
/// resumes at `pos + 1 + more`.
#[verifier::ext_equal]
pub enum SpecParse<T> {
    Found { v: T, more: nat },
    Fail { err: SpecSyntaxError },
}

/// The numeric value of a run of decimal digits (most significant first).
pub open spec fn digits_val(ds: Seq<char>) -> int
    decreases ds.len(),
{
    if ds.len() == 0 {
        0
    } else {
        digits_val(ds.drop_last()) * 10 + (ds.last() as u32 - 48)
    }
}

/// The `symbol` rule: one or more alphabetic characters.
pub open spec fn spec_symbol(s: Seq<char>, pos: int) -> SpecParse<SpecSExpr> {
    let n = alpha_run(s, pos);
    if n > 0 {
        SpecParse::Found {
            v: SpecSExpr::Atom(SpecToken::Symbol(s.subrange(pos, pos + n))),
            more: (n - 1) as nat,
        }
    } else {
        SpecParse::Fail { err: unexpected_at(s, pos) }
    }
}

/// The `string` rule: a `"`, any characters but `"`, and a closing `"`. The
/// captured value keeps the delimiting quotes. A string that the end of the
/// input cuts short is a custom diagnostic of the string-scanning rule.
pub open spec fn spec_string(s: Seq<char>, pos: int) -> SpecParse<SpecSExpr> {
    if 0 <= pos && pos < s.len() && s[pos] == '"' {
        let close = pos + 1 + string_body_run(s, pos + 1);
        if close < s.len() {
            SpecParse::Found {
                v: SpecSExpr::Atom(SpecToken::String(s.subrange(pos, close + 1))),
                more: (close - pos) as nat,
            }
        } else {
            SpecParse::Fail {
                err: SpecSyntaxError {
                    start: s.len() as int,
                    end: s.len() as int,
                    reason: SpecErrorReason::Custom("parsing strings"@),
                },
            }
        }
    } else {
        SpecParse::Fail { err: unexpected_at(s, pos) }
    }
}

/// The `bool` rule: `#t` or `#f`.
pub open spec fn spec_bool(s: Seq<char>, pos: int) -> SpecParse<SpecSExpr> {
    if 0 <= pos && pos < s.len() && s[pos] == '#' {
        if pos + 1 < s.len() && (s[pos + 1] == 't' || s[pos + 1] == 'f') {
            SpecParse::Found { v: SpecSExpr::Atom(SpecToken::Bool(s[pos + 1] == 't')), more: 1 }
        } else {
            SpecParse::Fail { err: unexpected_at(s, pos + 1) }
        }
    } else {
        SpecParse::Fail { err: unexpected_at(s, pos) }
    }
}

/// The `integer` rule: one or more digits, read as a 64-bit signed number.
/// A run of digits whose value does not fit is a custom diagnostic over the
/// span of the run.
pub open spec fn spec_integer(s: Seq<char>, pos: int) -> SpecParse<SpecSExpr> {
    let n = digit_run(s, pos);
    if n == 0 {
        SpecParse::Fail { err: unexpected_at(s, pos) }
    } else {
        let val = digits_val(s.subrange(pos, pos + n));
        if val > i64::MAX {
            SpecParse::Fail {
                err: SpecSyntaxError {
                    start: pos,
                    end: pos + n,
                    reason: SpecErrorReason::Custom("integer literal out of range"@),
                },
            }
        } else {
            SpecParse::Found { v: SpecSExpr::Atom(SpecToken::Integer(val)), more: (n - 1) as nat }
        }
    }
}

/// The `float` rule: digits, a dot, digits; the value is the literal text.
pub open spec fn spec_float(s: Seq<char>, pos: int) -> SpecParse<SpecSExpr> {
    let n1 = digit_run(s, pos);
    if n1 == 0 {
        SpecParse::Fail { err: unexpected_at(s, pos) }
    } else {
        let dot = pos + n1;
        if dot < s.len() && s[dot] == '.' {
            let n2 = digit_run(s, dot + 1);
            if n2 == 0 {
                SpecParse::Fail { err: unexpected_at(s, dot + 1) }
            } else {
                SpecParse::Found {
                    v: SpecSExpr::Atom(SpecToken::Float(s.subrange(pos, dot + 1 + n2))),
                    more: (n1 + n2) as nat,
                }
            }
        } else {
            SpecParse::Fail { err: unexpected_at(s, dot) }
        }
    }
}

/// The `number` rule: `float`, then `integer`.
pub open spec fn spec_number(s: Seq<char>, pos: int) -> SpecParse<SpecSExpr> {
    match spec_float(s, pos) {
        SpecParse::Found { v, more } => SpecParse::Found { v, more },
        SpecParse::Fail { err: e1 } => match spec_integer(s, pos) {
            SpecParse::Found { v, more } => SpecParse::Found { v, more },
            SpecParse::Fail { err: e2 } => SpecParse::Fail { err: pick_err(e1, e2) },
        },
    }
}

/// The `atom` rule: `symbol`, `string`, `bool`, then `number`.
pub open spec fn spec_atom(s: Seq<char>, pos: int) -> SpecParse<SpecSExpr> {
    match spec_symbol(s, pos) {
        SpecParse::Found { v, more } => SpecParse::Found { v, more },
        SpecParse::Fail { err: e1 } => match spec_string(s, pos) {
            SpecParse::Found { v, more } => SpecParse::Found { v, more },
            SpecParse::Fail { err: e2 } => match spec_bool(s, pos) {
                SpecParse::Found { v, more } => SpecParse::Found { v, more },
                SpecParse::Fail { err: e3 } => match spec_number(s, pos) {
                    SpecParse::Found { v, more } => SpecParse::Found { v, more },
                    SpecParse::Fail { err: e4 } => SpecParse::Fail {
                        err: pick_err(pick_err(pick_err(e1, e2), e3), e4),
                    },
                },
            },
        },
    }
}

/// Whether the keyword `quote` stands at `pos`.
pub open spec fn has_quote_keyword(s: Seq<char>, pos: int) -> bool {
    &&& 0 <= pos
    &&& pos + 5 <= s.len()
    &&& s[pos] == 'q'
    &&& s[pos + 1] == 'u'
    &&& s[pos + 2] == 'o'
    &&& s[pos + 3] == 't'
    &&& s[pos + 4] == 'e'
}

/// The `sexpr` rule: `list`, `quote` (where quote sugar is allowed), then
/// `atom`. A leading `(` commits to the `list` rule, whose error is always
/// the furthest of the three alternatives.
pub open spec fn spec_sexpr(s: Seq<char>, pos: int, quote_ok: bool) -> SpecParse<SpecSExpr>
    decreases (if pos < s.len() { s.len() - pos } else { 0 }), 2int,
{
    if 0 <= pos && pos < s.len() && s[pos] == '(' {
        match spec_list_rest(s, pos + 1, quote_ok) {
            SpecParse::Found { v, more } => SpecParse::Found { v: SpecSExpr::List(v), more: more + 1 },
            SpecParse::Fail { err } => SpecParse::Fail { err },
        }
    } else {
        let e1 = unexpected_at(s, pos);
        if quote_ok {
            match spec_quote(s, pos) {
                SpecParse::Found { v, more } => SpecParse::Found { v, more },
                SpecParse::Fail { err: e2 } => match spec_atom(s, pos) {
                    SpecParse::Found { v, more } => SpecParse::Found { v, more },
                    SpecParse::Fail { err: e3 } => SpecParse::Fail {
                        err: pick_err(pick_err(e1, e2), e3),
                    },
                },
            }
        } else {
            match spec_atom(s, pos) {
                SpecParse::Found { v, more } => SpecParse::Found { v, more },
                SpecParse::Fail { err: e3 } => SpecParse::Fail { err: pick_err(e1, e3) },
            }
        }
    }
}

/// The body of the `list` rule after its `(`: any number of
/// whitespace-padded elements, then the closing `)`. The value is the
/// sequence of elements, the consumed input runs up to and including the
/// `)`.
pub open spec fn spec_list_rest(s: Seq<char>, pos: int, quote_ok: bool) -> SpecParse<
    Seq<SpecSExpr>,
>
    decreases (if pos < s.len() { s.len() - pos } else { 0 }), 3int,
{
    let w = ws_run(s, pos);
    let p = pos + w;
    if p >= s.len() {
        SpecParse::Fail { err: unexpected_at(s, p) }
    } else if s[p] == ')' {
        SpecParse::Found { v: Seq::empty(), more: w }
    } else {
        match spec_sexpr(s, p, quote_ok) {
            SpecParse::Found { v: elem, more: m1 } => {
                match spec_list_rest(s, p + 1 + m1, quote_ok) {
                    SpecParse::Found { v: rest, more: m2 } => SpecParse::Found {
                        v: seq![elem] + rest,
                        more: w + m1 + m2 + 1,
                    },
                    SpecParse::Fail { err } => SpecParse::Fail { err },
                }
            },
            SpecParse::Fail { err } => SpecParse::Fail { err: pick_err(unexpected_at(s, p), err) },
        }
    }
}

/// The `quote` rule: a `'`, or the keyword `quote` followed by whitespace,
/// then a sub-expression in which quote sugar is not allowed again.
pub open spec fn spec_quote(s: Seq<char>, pos: int) -> SpecParse<SpecSExpr>
    decreases (if pos < s.len() { s.len() - pos } else { 0 }), 1int,
{
    if 0 <= pos && pos < s.len() && s[pos] == '\'' {
        match spec_sexpr(s, pos + 1, false) {
            SpecParse::Found { v, more } => SpecParse::Found {
                v: SpecSExpr::Quote(Box::new(v)),
                more: more + 1,
            },
            SpecParse::Fail { err } => SpecParse::Fail { err },
        }
    } else if has_quote_keyword(s, pos) && pos + 5 < s.len() && is_ws_char(s[pos + 5]) {
        let p = pos + 5 + ws_run(s, pos + 5);
        match spec_sexpr(s, p, false) {
            SpecParse::Found { v, more } => SpecParse::Found {
                v: SpecSExpr::Quote(Box::new(v)),
                more: (p + more - pos) as nat,
            },
            SpecParse::Fail { err } => SpecParse::Fail { err },
        }
    } else {
        SpecParse::Fail { err: unexpected_at(s, pos) }
    }
}

/// What parsing a whole input yields: the tree, if the input is exactly one
/// S-expression, and otherwise the error of the failed parse. The parser
/// never aborts: every failure is reported as a `SyntaxError` value.
pub open spec fn spec_parse(s: Seq<char>) -> (Option<SpecSExpr>, Seq<SpecSyntaxError>) {
    match spec_sexpr(s, 0, true) {
        SpecParse::Found { v, more } => {
            if 1 + more == s.len() {
                (Some(v), Seq::empty())
            } else {
                (None, seq![unexpected_at(s, 1 + more as int)])
            }
        },
        SpecParse::Fail { err } => (None, seq![err]),
    }
}

// ---------------------------------------------------------------------------
// The executable parser
// ---------------------------------------------------------------------------

/// Whitespace test for one character.
fn is_ws(c: char) -> (r: bool)
    ensures
        r == is_ws_char(c),
{
    c == ' ' || c == '\n' || c == '\t'
}

/// Digit test for one character.
fn is_digit(c: char) -> (r: bool)
    ensures
        r == is_digit_char(c),
{
    let u = c as u32;
    48 <= u && u <= 57
}

/// The position right after the whitespace run at `pos`.
fn scan_ws(s: &str, pos: usize) -> (r: usize)
    requires
        pos as int <= s@.len(),
    ensures
        r as int == pos + ws_run(s@, pos as int),
        pos <= r && r as int <= s@.len(),
    decreases s@.len() - pos,
{
    let n = s.unicode_len();
    if pos < n && is_ws(s.get_char(pos)) {
        scan_ws(s, pos + 1)
    } else {
        pos
    }
}

/// The position right after the alphabetic run at `pos`.
fn scan_alpha(s: &str, pos: usize) -> (r: usize)
    requires
        pos as int <= s@.len(),
    ensures
        r as int == pos + alpha_run(s@, pos as int),
        pos <= r && r as int <= s@.len(),
    decreases s@.len() - pos,
{
    let n = s.unicode_len();
    if pos < n && s.get_char(pos).is_alphabetic() {
        scan_alpha(s, pos + 1)
    } else {
        pos
    }
}

/// The position right after the digit run at `pos`.
pub(crate) fn scan_digits(s: &str, pos: usize) -> (r: usize)
    requires
        pos as int <= s@.len(),
    ensures
        r as int == pos + digit_run(s@, pos as int),
        pos <= r && r as int <= s@.len(),
    decreases s@.len() - pos,
{
    let n = s.unicode_len();
    if pos < n && is_digit(s.get_char(pos)) {
        scan_digits(s, pos + 1)
    } else {
        pos
    }
}

/// The position of the first `"` at or after `pos`, or the end of the input.
fn scan_string_body(s: &str, pos: usize) -> (r: usize)
    requires
        pos as int <= s@.len(),
    ensures
        r as int == pos + string_body_run(s@, pos as int),
        pos <= r && r as int <= s@.len(),
    decreases s@.len() - pos,
{
    let n = s.unicode_len();
    if pos < n && s.get_char(pos) != '"' {
        scan_string_body(s, pos + 1)
    } else {
        pos
    }
}

/// Builds the error for meeting the character at `pos` (or the end of the
/// input) where the grammar allows none.
fn unexpected_err(s: &str, pos: usize) -> (e: SyntaxError)
    ensures
        e@ == unexpected_at(s@, pos as int),
{
    let n = s.unicode_len();
    if pos < n {
        SyntaxError {
            start: pos,
            end: pos + 1,
            reason: ErrorReason::Unexpected(Some(s.get_char(pos))),
        }
    } else {
        SyntaxError { start: n, end: n, reason: ErrorReason::Unexpected(None) }
    }
}

/// Of the errors of two alternatives, keeps the one that reached further.
fn pick(e1: SyntaxError, e2: SyntaxError) -> (r: SyntaxError)
    ensures
        r@ == pick_err(e1@, e2@),
{
    if e2.start > e1.start {
        e2
    } else {
        e1
    }
}

/// Every character of the digit run at `pos` is a digit, and the character
/// right after the run (if the run stops short of the end) is not.
pub(crate) proof fn lemma_digit_run_chars(s: Seq<char>, pos: int)
    ensures
        forall|i: int| pos <= i < pos + digit_run(s, pos) ==> is_digit_char(#[trigger] s[i]),
        0 <= pos && pos + digit_run(s, pos) < s.len() ==> !is_digit_char(
            s[pos + digit_run(s, pos)],
        ),
        pos <= s.len() ==> pos + digit_run(s, pos) <= s.len(),
    decreases s.len() - pos,
{
    if pos < s.len() && is_digit_char(s[pos]) {
        lemma_digit_run_chars(s, pos + 1);
    }
}

/// A run of digits has a non-negative value.
pub(crate) proof fn lemma_digits_val_nonneg(s: Seq<char>, from: int, to: int)
    requires
        0 <= from <= to <= s.len(),
        forall|i: int| from <= i < to ==> is_digit_char(#[trigger] s[i]),
    ensures
        digits_val(s.subrange(from, to)) >= 0,
    decreases to - from,
{
    if from < to {
        assert(s.subrange(from, to).drop_last() =~= s.subrange(from, to - 1));
        assert(s.subrange(from, to).last() == s[to - 1]);
        lemma_digits_val_nonneg(s, from, to - 1);
    }
}

/// Reading more digits never shrinks the value.
pub(crate) proof fn lemma_digits_val_mono(s: Seq<char>, from: int, mid: int, to: int)
    requires
        0 <= from <= mid <= to <= s.len(),
        forall|i: int| from <= i < to ==> is_digit_char(#[trigger] s[i]),
    ensures
        digits_val(s.subrange(from, mid)) <= digits_val(s.subrange(from, to)),
    decreases to - mid,
{
    if mid < to {
        assert(s.subrange(from, mid + 1).drop_last() =~= s.subrange(from, mid));
        assert(s.subrange(from, mid + 1).last() == s[mid]);
        lemma_digits_val_nonneg(s, from, mid);
        lemma_digits_val_mono(s, from, mid + 1, to);
    }
}

/// Reads the digits of `s` between `from` and `to` as an `i64`, or reports
/// that their value does not fit in one.
#[verifier::loop_isolation(false)]
fn digits_to_i64(s: &str, from: usize, to: usize) -> (r: Option<i64>)
    requires
        from <= to,
        to as int <= s@.len(),
        forall|i: int| from <= i < to ==> is_digit_char(#[trigger] s@[i]),
    ensures
        (match r {
            Some(v) => v as int == digits_val(s@.subrange(from as int, to as int)),
            None => digits_val(s@.subrange(from as int, to as int)) > i64::MAX,
        }),
{
    let mut acc: i64 = 0;
    let mut i: usize = from;
    while i < to
        invariant
            from <= i <= to,
            0 <= acc,
            acc as int == digits_val(s@.subrange(from as int, i as int)),
        decreases to - i,
    {
        let c = s.get_char(i);
        let d: u32 = (c as u32) - 48;
        let d64: i64 = d as i64;
        proof {
            assert(s@.subrange(from as int, i as int + 1).drop_last() =~= s@.subrange(
                from as int,
                i as int,
            ));
            assert(s@.subrange(from as int, i as int + 1).last() == s@[i as int]);
        }
        if acc > 922_337_203_685_477_580i64 || (acc == 922_337_203_685_477_580i64 && d64 > 7) {
            proof {
                assert(digits_val(s@.subrange(from as int, i as int + 1)) > i64::MAX);
                lemma_digits_val_mono(s@, from as int, i as int + 1, to as int);
            }
            return None;
        }
        acc = acc * 10 + d64;
        i = i + 1;
    }
    proof {
        assert(s@.subrange(from as int, to as int) =~= s@.subrange(from as int, i as int));
    }
    Some(acc)
}

/// The `symbol` rule: one or more alphabetic characters.
fn parse_symbol(s: &str, pos: usize) -> (r: Result<(SExpr, usize), SyntaxError>)
    requires
        pos as int <= s@.len(),
    ensures
        (match r {
            Ok((v, next)) => pos < next && next as int <= s@.len() && spec_symbol(
                s@,
                pos as int,
            ) == (SpecParse::Found { v: v@, more: (next - pos - 1) as nat }),
            Err(e) => spec_symbol(s@, pos as int) == (SpecParse::<SpecSExpr>::Fail { err: e@ }),
        }),
{
    let end = scan_alpha(s, pos);
    if end > pos {
        let text = s.substring_char(pos, end).to_owned();
        Ok((SExpr::Atom(Token::Symbol(text)), end))
    } else {
        Err(unexpected_err(s, pos))
    }
}

/// The `string` rule: a quoted literal; the value keeps the quotes.
fn parse_string(s: &str, pos: usize) -> (r: Result<(SExpr, usize), SyntaxError>)
    requires
        pos as int <= s@.len(),
    ensures
        (match r {
            Ok((v, next)) => pos < next && next as int <= s@.len() && spec_string(
                s@,
                pos as int,
            ) == (SpecParse::Found { v: v@, more: (next - pos - 1) as nat }),
            Err(e) => spec_string(s@, pos as int) == (SpecParse::<SpecSExpr>::Fail { err: e@ }),
        }),
{
    let n = s.unicode_len();
    if pos < n && s.get_char(pos) == '"' {
        let close = scan_string_body(s, pos + 1);
        if close < n {
            let text = s.substring_char(pos, close + 1).to_owned();
            Ok((SExpr::Atom(Token::String(text)), close + 1))
        } else {
            Err(SyntaxError {
                start: n,
                end: n,
                reason: ErrorReason::Custom("parsing strings".to_owned()),
            })
        }
    } else {
        Err(unexpected_err(s, pos))
    }
}

/// The `bool` rule: `#t` or `#f`.
fn parse_bool(s: &str, pos: usize) -> (r: Result<(SExpr, usize), SyntaxError>)
    requires
        pos as int <= s@.len(),
    ensures
        (match r {
            Ok((v, next)) => pos < next && next as int <= s@.len() && spec_bool(
                s@,
                pos as int,
            ) == (SpecParse::Found { v: v@, more: (next - pos - 1) as nat }),
            Err(e) => spec_bool(s@, pos as int) == (SpecParse::<SpecSExpr>::Fail { err: e@ }),
        }),
{
    let n = s.unicode_len();
    if pos < n && s.get_char(pos) == '#' {
        if pos + 1 < n {
            let c = s.get_char(pos + 1);
            if c == 't' || c == 'f' {
                Ok((SExpr::Atom(Token::Bool(c == 't')), pos + 2))
            } else {
                Err(unexpected_err(s, pos + 1))
            }
        } else {
            Err(unexpected_err(s, pos + 1))
        }
    } else {
        Err(unexpected_err(s, pos))
    }
}

/// The `integer` rule: one or more digits, read as a 64-bit signed number.
fn parse_integer(s: &str, pos: usize) -> (r: Result<(SExpr, usize), SyntaxError>)
    requires
        pos as int <= s@.len(),
    ensures
        (match r {
            Ok((v, next)) => pos < next && next as int <= s@.len() && spec_integer(
                s@,
                pos as int,
            ) == (SpecParse::Found { v: v@, more: (next - pos - 1) as nat }),
            Err(e) => spec_integer(s@, pos as int) == (SpecParse::<SpecSExpr>::Fail { err: e@ }),
        }),
{
    let end = scan_digits(s, pos);
    if end == pos {
        Err(unexpected_err(s, pos))
    } else {
        proof {
            lemma_digit_run_chars(s@, pos as int);
        }
        match digits_to_i64(s, pos, end) {
            Some(v) => Ok((SExpr::Atom(Token::Integer(v)), end)),
            None => Err(
                SyntaxError {
                    start: pos,
                    end,
                    reason: ErrorReason::Custom("integer literal out of range".to_owned()),
                },
            ),
        }
    }
}

/// The `float` rule: digits, a dot, digits; the value is the literal text.
fn parse_float(s: &str, pos: usize) -> (r: Result<(SExpr, usize), SyntaxError>)
    requires
        pos as int <= s@.len(),
    ensures
        (match r {
            Ok((v, next)) => pos < next && next as int <= s@.len() && spec_float(
                s@,
                pos as int,
            ) == (SpecParse::Found { v: v@, more: (next - pos - 1) as nat }),
            Err(e) => spec_float(s@, pos as int) == (SpecParse::<SpecSExpr>::Fail { err: e@ }),
        }),
{
    let d1 = scan_digits(s, pos);
    if d1 == pos {
        return Err(unexpected_err(s, pos));
    }
    let n = s.unicode_len();
    if d1 < n && s.get_char(d1) == '.' {
        let d2 = scan_digits(s, d1 + 1);
        if d2 == d1 + 1 {
            Err(unexpected_err(s, d1 + 1))
        } else {
            let text = s.substring_char(pos, d2).to_owned();
            Ok((SExpr::Atom(Token::Float(text)), d2))
        }
    } else {
        Err(unexpected_err(s, d1))
    }
}

/// The `number` rule: `float`, then `integer`.
fn parse_num(s: &str, pos: usize) -> (r: Result<(SExpr, usize), SyntaxError>)
    requires
        pos as int <= s@.len(),
    ensures
        (match r {
            Ok((v, next)) => pos < next && next as int <= s@.len() && spec_number(
                s@,
                pos as int,
            ) == (SpecParse::Found { v: v@, more: (next - pos - 1) as nat }),
            Err(e) => spec_number(s@, pos as int) == (SpecParse::<SpecSExpr>::Fail { err: e@ }),
        }),
{
    match parse_float(s, pos) {
        Ok(hit) => Ok(hit),
        Err(e1) => match parse_integer(s, pos) {
            Ok(hit) => Ok(hit),
            Err(e2) => Err(pick(e1, e2)),
        },
    }
}

/// The `atom` rule: `symbol`, `string`, `bool`, then `number`.
fn parse_atom(s: &str, pos: usize) -> (r: Result<(SExpr, usize), SyntaxError>)
    requires
        pos as int <= s@.len(),
    ensures
        (match r {
            Ok((v, next)) => pos < next && next as int <= s@.len() && spec_atom(
                s@,
                pos as int,
            ) == (SpecParse::Found { v: v@, more: (next - pos - 1) as nat }),
            Err(e) => spec_atom(s@, pos as int) == (SpecParse::<SpecSExpr>::Fail { err: e@ }),
        }),
{
    match parse_symbol(s, pos) {
        Ok(hit) => Ok(hit),
        Err(e1) => match parse_string(s, pos) {
            Ok(hit) => Ok(hit),
            Err(e2) => match parse_bool(s, pos) {
                Ok(hit) => Ok(hit),
                Err(e3) => match parse_num(s, pos) {
                    Ok(hit) => Ok(hit),
                    Err(e4) => Err(pick(pick(pick(e1, e2), e3), e4)),
                },
            },
        },
    }
}

/// The `sexpr` rule: `list`, `quote` (where quote sugar is allowed), then
/// `atom`.
fn parse_sexpr(s: &str, pos: usize, quote_ok: bool) -> (r: Result<(SExpr, usize), SyntaxError>)
    requires
        pos as int <= s@.len(),
    ensures
        (match r {
            Ok((v, next)) => pos < next && next as int <= s@.len() && spec_sexpr(
                s@,
                pos as int,
                quote_ok,
            ) == (SpecParse::Found { v: v@, more: (next - pos - 1) as nat }),
            Err(e) => spec_sexpr(s@, pos as int, quote_ok) == (SpecParse::<SpecSExpr>::Fail {
                err: e@,
            }),
        }),
    decreases (if (pos as int) < s@.len() { s@.len() - pos } else { 0int }), 2int,
{
    let n = s.unicode_len();
    if pos < n && s.get_char(pos) == '(' {
        match parse_list_rest(s, pos + 1, quote_ok) {
            Ok((v, next)) => Ok((SExpr::List(v), next)),
            Err(e) => Err(e),
        }
    } else {
        let e1 = unexpected_err(s, pos);
        if quote_ok {
            match parse_quote(s, pos) {
                Ok(hit) => Ok(hit),
                Err(e2) => match parse_atom(s, pos) {
                    Ok(hit) => Ok(hit),
                    Err(e3) => Err(pick(pick(e1, e2), e3)),
                },
            }
        } else {
            match parse_atom(s, pos) {
                Ok(hit) => Ok(hit),
                Err(e3) => Err(pick(e1, e3)),
            }
        }
    }
}

/// The body of the `list` rule after its `(`: whitespace-padded elements up
/// to the closing `)`.
fn parse_list_rest(s: &str, pos: usize, quote_ok: bool) -> (r: Result<
    (Vec<SExpr>, usize),
    SyntaxError,
>)
    requires
        pos as int <= s@.len(),
    ensures
        (match r {
            Ok((v, next)) => pos < next && next as int <= s@.len() && spec_list_rest(
                s@,
                pos as int,
                quote_ok,
            ) == (SpecParse::Found { v: view_sexprs(v@), more: (next - pos - 1) as nat }),
            Err(e) => spec_list_rest(s@, pos as int, quote_ok) == (SpecParse::<
                Seq<SpecSExpr>,
            >::Fail { err: e@ }),
        }),
    decreases (if (pos as int) < s@.len() { s@.len() - pos } else { 0int }), 3int,
{
    let p = scan_ws(s, pos);
    let n = s.unicode_len();
    if p >= n {
        Err(unexpected_err(s, p))
    } else if s.get_char(p) == ')' {
        let out: Vec<SExpr> = Vec::new();
        proof {
            assert(view_sexprs(out@) =~= Seq::<SpecSExpr>::empty());
        }
        Ok((out, p + 1))
    } else {
        match parse_sexpr(s, p, quote_ok) {
            Ok((elem, next)) => match parse_list_rest(s, next, quote_ok) {
                Ok((mut rest, n2)) => {
                    let ghost rest0 = rest@;
                    rest.insert(0, elem);
                    proof {
                        rest0.insert_ensures(0, elem);
                        crate::ast::lemma_view_sexprs(rest@);
                        crate::ast::lemma_view_sexprs(rest0);
                        assert(view_sexprs(rest@) =~= seq![elem@] + view_sexprs(rest0));
                    }
                    Ok((rest, n2))
                },
                Err(e) => Err(e),
            },
            Err(e) => Err(pick(unexpected_err(s, p), e)),
        }
    }
}

/// The `quote` rule: a `'`, or the keyword `quote` followed by whitespace,
/// then a sub-expression in which quote sugar is not allowed again.
fn parse_quote(s: &str, pos: usize) -> (r: Result<(SExpr, usize), SyntaxError>)
    requires
        pos as int <= s@.len(),
    ensures
        (match r {
            Ok((v, next)) => pos < next && next as int <= s@.len() && spec_quote(
                s@,
                pos as int,
            ) == (SpecParse::Found { v: v@, more: (next - pos - 1) as nat }),
            Err(e) => spec_quote(s@, pos as int) == (SpecParse::<SpecSExpr>::Fail { err: e@ }),
        }),
    decreases (if (pos as int) < s@.len() { s@.len() - pos } else { 0int }), 1int,
{
    let n = s.unicode_len();
    if pos < n && s.get_char(pos) == '\'' {
        match parse_sexpr(s, pos + 1, false) {
            Ok((v, next)) => Ok((SExpr::Quote(Box::new(v)), next)),
            Err(e) => Err(e),
        }
    } else if n - pos >= 6 && s.get_char(pos) == 'q' && s.get_char(pos + 1) == 'u' && s.get_char(
        pos + 2,
    ) == 'o' && s.get_char(pos + 3) == 't' && s.get_char(pos + 4) == 'e' && is_ws(
        s.get_char(pos + 5),
    ) {
        let p = scan_ws(s, pos + 5);
        match parse_sexpr(s, p, false) {
            Ok((v, next)) => Ok((SExpr::Quote(Box::new(v)), next)),
            Err(e) => Err(e),
        }
    } else {
        Err(unexpected_err(s, pos))
    }
}

/// Parses a whole source text into at most one S-expression.
///
/// The first part of the result is the tree, present exactly when the whole
/// input is one S-expression of the grammar; the second is the list of
/// syntax errors, empty exactly when a tree came out. The parser never
/// panics: malformed input comes back as `SyntaxError` values.
pub fn parse(source: &str) -> (r: (Option<SExpr>, Vec<SyntaxError>))
    ensures
        r.0.deep_view() == spec_parse(source@).0,
        r.1.deep_view() == spec_parse(source@).1,
        (r.0 is Some) <==> r.1@.len() == 0,
{
    match parse_sexpr(source, 0, true) {
        Ok((v, next)) => {
            if next == source.unicode_len() {
                let errs: Vec<SyntaxError> = Vec::new();
                proof {
                    assert(errs.deep_view() =~= spec_parse(source@).1);
                }
                (Some(v), errs)
            } else {
                let mut errs: Vec<SyntaxError> = Vec::new();
                errs.push(unexpected_err(source, next));
                proof {
                    assert(errs.deep_view() =~= spec_parse(source@).1);
                }
                (None, errs)
            }
        },
        Err(e) => {
            let mut errs: Vec<SyntaxError> = Vec::new();
            errs.push(e);
            proof {
                assert(errs.deep_view() =~= spec_parse(source@).1);
            }
            (None, errs)
        },
    }
}

// ---------------------------------------------------------------------------
// The shape of parsed atoms
// ---------------------------------------------------------------------------

/// The texts of the `float` rule: digits, a dot, digits.
pub open spec fn is_float_text(cs: Seq<char>) -> bool {
    let k = digit_run(cs, 0) as int;
    &&& 1 <= k
    &&& k + 2 <= cs.len()
    &&& cs[k] == '.'
    &&& k + 1 + digit_run(cs, k + 1) == cs.len()
}

/// A token as the grammar shapes it: a symbol is one or more alphabetic
/// characters, a string keeps its two delimiting quotes around quote-free
/// text, an integer is unsigned and fits `i64`, a decimal literal reads
/// `digits '.' digits`.
pub open spec fn wf_token(t: SpecToken) -> bool {
    match t {
        SpecToken::Integer(v) => 0 <= v <= i64::MAX,
        SpecToken::Float(cs) => is_float_text(cs),
        SpecToken::Symbol(cs) => cs.len() >= 1 && (forall|i: int|
            0 <= i < cs.len() ==> is_alphabetic_char(#[trigger] cs[i])),
        SpecToken::String(cs) => cs.len() >= 2 && cs[0] == '"' && cs.last() == '"' && (forall|
            i: int,
        |
            0 < i < cs.len() - 1 ==> #[trigger] cs[i] != '"'),
        SpecToken::Bool(_) => true,
    }
}

/// Every atom of the tree is shaped as the grammar shapes it.
pub open spec fn wf_tree(e: SpecSExpr) -> bool
    decreases e, 1int,
{
    match e {
        SpecSExpr::Atom(t) => wf_token(t),
        SpecSExpr::List(children) => wf_trees(children),
        SpecSExpr::Quote(inner) => wf_tree(*inner),
    }
}

/// Every atom of every tree of the sequence is shaped as the grammar shapes
/// it.
pub open spec fn wf_trees(s: Seq<SpecSExpr>) -> bool
    decreases s, 0int,
{
    if s.len() == 0 {
        true
    } else {
        wf_tree(s[0]) && wf_trees(s.subrange(1, s.len() as int))
    }
}

/// Every character of the alphabetic run at `pos` is alphabetic.
proof fn lemma_alpha_run_chars(s: Seq<char>, pos: int)
    ensures
        forall|i: int| pos <= i < pos + alpha_run(s, pos) ==> is_alphabetic_char(
            #[trigger] s[i],
        ),
        pos <= s.len() ==> pos + alpha_run(s, pos) <= s.len(),
    decreases s.len() - pos,
{
    if pos < s.len() && is_alphabetic_char(s[pos]) {
        lemma_alpha_run_chars(s, pos + 1);
    }
}

/// Every character of the string-body run at `pos` is not a quote, and the
/// character that stops the run short of the end is one.
proof fn lemma_string_body_run_chars(s: Seq<char>, pos: int)
    ensures
        forall|i: int| pos <= i < pos + string_body_run(s, pos) ==> #[trigger] s[i] != '"',
        0 <= pos && pos + string_body_run(s, pos) < s.len() ==> s[pos + string_body_run(s, pos)]
            == '"',
        pos <= s.len() ==> pos + string_body_run(s, pos) <= s.len(),
    decreases s.len() - pos,
{
    if pos < s.len() && s[pos] != '"' {
        lemma_string_body_run_chars(s, pos + 1);
    }
}

/// A run of digits that stops at a non-digit or at the end is exactly the
/// `digit_run`.
proof fn lemma_digit_run_witness(s: Seq<char>, from: int, to: int)
    requires
        0 <= from <= to <= s.len(),
        forall|j: int| from <= j < to ==> is_digit_char(#[trigger] s[j]),
        to == s.len() || !is_digit_char(s[to]),
    ensures
        digit_run(s, from) == to - from,
    decreases to - from,
{
    if from < to {
        lemma_digit_run_witness(s, from + 1, to);
    }
}

/// The `symbol` rule yields a shaped token.
proof fn lemma_symbol_wf(s: Seq<char>, pos: int)
    requires
        0 <= pos,
    ensures
        (spec_symbol(s, pos) matches SpecParse::Found { v, more } ==> wf_tree(v)),
{
    lemma_alpha_run_chars(s, pos);
    let n = alpha_run(s, pos) as int;
    if n > 0 {
        assert forall|i: int| 0 <= i < n implies is_alphabetic_char(
            #[trigger] s.subrange(pos, pos + n)[i],
        ) by {
            assert(s.subrange(pos, pos + n)[i] == s[pos + i]);
        }
    }
}

/// The `string` rule yields a shaped token.
proof fn lemma_string_wf(s: Seq<char>, pos: int)
    requires
        0 <= pos,
    ensures
        (spec_string(s, pos) matches SpecParse::Found { v, more } ==> wf_tree(v)),
{
    if 0 <= pos && pos < s.len() && s[pos] == '"' {
        lemma_string_body_run_chars(s, pos + 1);
        let close = pos + 1 + string_body_run(s, pos + 1);
        if close < s.len() {
            let cs = s.subrange(pos, close + 1);
            assert(cs[0] == s[pos]);
            assert(cs.last() == s[close]);
            assert forall|i: int| 0 < i < cs.len() - 1 implies #[trigger] cs[i] != '"' by {
                assert(cs[i] == s[pos + i]);
            }
        }
    }
}

/// The `number` rule yields a shaped token.
proof fn lemma_number_wf(s: Seq<char>, pos: int)
    requires
        0 <= pos,
    ensures
        (spec_number(s, pos) matches SpecParse::Found { v, more } ==> wf_tree(v)),
{
    lemma_digit_run_chars(s, pos);
    let n1 = digit_run(s, pos) as int;
    // the float rule
    if n1 > 0 && pos + n1 < s.len() && s[pos + n1] == '.' {
        let dot = pos + n1;
        lemma_digit_run_chars(s, dot + 1);
        let n2 = digit_run(s, dot + 1) as int;
        if n2 > 0 {
            let cs = s.subrange(pos, dot + 1 + n2);
            assert forall|j: int| 0 <= j < n1 implies is_digit_char(#[trigger] cs[j]) by {
                assert(cs[j] == s[pos + j]);
            }
            assert(cs[n1] == s[dot]);
            assert(!is_digit_char(cs[n1]));
            lemma_digit_run_witness(cs, 0, n1);
            assert forall|j: int| n1 + 1 <= j < cs.len() implies is_digit_char(
                #[trigger] cs[j],
            ) by {
                assert(cs[j] == s[pos + j]);
            }
            lemma_digit_run_witness(cs, n1 + 1, cs.len() as int);
            assert(is_float_text(cs));
        }
    }
    // the integer rule
    if n1 > 0 {
        lemma_digits_val_nonneg(s, pos, pos + n1);
    }
}

/// The `atom` rule yields a shaped token.
proof fn lemma_atom_wf(s: Seq<char>, pos: int)
    requires
        0 <= pos,
    ensures
        (spec_atom(s, pos) matches SpecParse::Found { v, more } ==> wf_tree(v)),
{
    lemma_symbol_wf(s, pos);
    lemma_string_wf(s, pos);
    lemma_number_wf(s, pos);
}

/// Whatever tree the `sexpr` rule yields has only shaped atoms.
proof fn lemma_sexpr_wf(s: Seq<char>, pos: int, quote_ok: bool)
    requires
        0 <= pos,
    ensures
        (spec_sexpr(s, pos, quote_ok) matches SpecParse::Found { v, more } ==> wf_tree(v)),
    decreases (if pos < s.len() { s.len() - pos } else { 0int }), 2int,
{
    if 0 <= pos && pos < s.len() && s[pos] == '(' {
        lemma_list_rest_wf(s, pos + 1, quote_ok);
    } else {
        if quote_ok {
            lemma_quote_wf(s, pos);
        }
        lemma_atom_wf(s, pos);
    }
}

/// Whatever elements the list body yields have only shaped atoms.
proof fn lemma_list_rest_wf(s: Seq<char>, pos: int, quote_ok: bool)
    requires
        0 <= pos,
    ensures
        (spec_list_rest(s, pos, quote_ok) matches SpecParse::Found { v, more } ==> wf_trees(v)),
    decreases (if pos < s.len() { s.len() - pos } else { 0int }), 3int,
{
    let w = ws_run(s, pos);
    let p = pos + w;
    if p >= s.len() {
    } else if s[p] == ')' {
    } else {
        lemma_sexpr_wf(s, p, quote_ok);
        match spec_sexpr(s, p, quote_ok) {
            SpecParse::Found { v: elem, more: m1 } => {
                lemma_list_rest_wf(s, p + 1 + m1, quote_ok);
                match spec_list_rest(s, p + 1 + m1, quote_ok) {
                    SpecParse::Found { v: rest, more: m2 } => {
                        assert((seq![elem] + rest).subrange(1, (seq![elem] + rest).len() as int)
                            =~= rest);
                        assert((seq![elem] + rest)[0] == elem);
                    },
                    SpecParse::Fail { err } => {},
                }
            },
            SpecParse::Fail { err } => {},
        }
    }
}

/// Whatever tree the `quote` rule yields has only shaped atoms.
proof fn lemma_quote_wf(s: Seq<char>, pos: int)
    requires
        0 <= pos,
    ensures
        (spec_quote(s, pos) matches SpecParse::Found { v, more } ==> wf_tree(v)),
    decreases (if pos < s.len() { s.len() - pos } else { 0int }), 1int,
{
    if 0 <= pos && pos < s.len() && s[pos] == '\'' {
        lemma_sexpr_wf(s, pos + 1, false);
    } else if has_quote_keyword(s, pos) && pos + 5 < s.len() && is_ws_char(s[pos + 5]) {
        let p = pos + 5 + ws_run(s, pos + 5);
        lemma_sexpr_wf(s, p, false);
    }
}

/// Law: any tree that parsing yields has only grammar-shaped atoms — every
/// symbol is a run of alphabetic characters, every string literal keeps its
/// two delimiting quotes around quote-free text, every integer is unsigned
/// and fits a 64-bit signed number, and every decimal literal reads
/// `digits '.' digits`.
pub proof fn lemma_parse_yields_shaped_atoms(s: Seq<char>)
    ensures
        (spec_parse(s).0 matches Some(t) ==> wf_tree(t)),
{
    lemma_sexpr_wf(s, 0, true);
}

} // verus!
