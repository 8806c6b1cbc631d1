//! A small stand-alone tokenizer, an earlier generation of the front end: it
//! splits text into parentheses and crude symbol runs (everything up to the
//! next `)`), reading a run as a signed 64-bit integer where it is one.

use vstd::prelude::*;

use crate::parser::digit_run;
use crate::parser::digits_val;
use crate::parser::is_digit_char;
use crate::parser::is_ws_char;
use crate::parser::lemma_digit_run_chars;
use crate::parser::lemma_digits_val_mono;
use crate::parser::lemma_digits_val_nonneg;
use crate::parser::scan_digits;
use crate::parser::ws_run;
use crate::prelude::IteratorExt;

verus! {

/// A token of this tokenizer.
#[derive(Debug, PartialEq)]
pub enum Token {
    /// Represents numbers like `42`.
    Integer(i64),
    /// Represents `(`.
    LParen,
    /// Represents `)`.
    RParen,
    /// Represents a single other character.
    Atom(char),
    /// Represents symbols.
    Symbol(String),
}

/// The mathematical value of a `Token`.
#[verifier::ext_equal]
pub enum SpecToken {
    Integer(int),
    LParen,
    RParen,
    Atom(char),
    Symbol(Seq<char>),
}

impl View for Token {
    type V = SpecToken;

    open spec fn view(&self) -> SpecToken {
        match self {
            Token::Integer(i) => SpecToken::Integer(*i as int),
            Token::LParen => SpecToken::LParen,
            Token::RParen => SpecToken::RParen,
            Token::Atom(c) => SpecToken::Atom(*c),
            Token::Symbol(s) => SpecToken::Symbol(s@),
        }
    }
}

impl DeepView for Token {
    type V = SpecToken;

    open spec fn deep_view(&self) -> SpecToken {
        self.view()
    }
}

/// What `Token::new` makes of one consumed character.
pub open spec fn spec_new_token(c: char) -> SpecToken {
    if c == '(' {
        SpecToken::LParen
    } else if c == ')' {
        SpecToken::RParen
    } else {
        SpecToken::Atom(c)
    }
}

impl Token {
    /// The token for one consumed character.
    fn new(ch: char) -> (t: Token)
        ensures
            t@ == spec_new_token(ch),
    {
        match ch {
            '(' => Token::LParen,
            ')' => Token::RParen,
            x => Token::Atom(x),
        }
    }
}

// ---------------------------------------------------------------------------
// Reading a symbol run as a signed 64-bit integer
// ---------------------------------------------------------------------------

/// Every character is a decimal digit.
pub open spec fn all_digits(cs: Seq<char>) -> bool {
    forall|i: int| 0 <= i < cs.len() ==> is_digit_char(#[trigger] cs[i])
}

/// The texts that denote a signed 64-bit integer: an optional sign followed
/// by one or more digits.
pub open spec fn is_i64_text(cs: Seq<char>) -> bool {
    if cs.len() == 0 {
        false
    } else if cs[0] == '+' || cs[0] == '-' {
        cs.len() >= 2 && all_digits(cs.subrange(1, cs.len() as int))
    } else {
        all_digits(cs)
    }
}

/// The signed value such a text denotes.
pub open spec fn i64_text_val(cs: Seq<char>) -> int {
    if cs.len() > 0 && cs[0] == '-' {
        -digits_val(cs.subrange(1, cs.len() as int))
    } else if cs.len() > 0 && cs[0] == '+' {
        digits_val(cs.subrange(1, cs.len() as int))
    } else {
        digits_val(cs)
    }
}

/// What reading a text as an `i64` yields: its value, if the text denotes a
/// signed 64-bit integer and the value fits.
pub open spec fn spec_parse_i64(cs: Seq<char>) -> Option<int> {
    if is_i64_text(cs) && i64::MIN <= i64_text_val(cs) <= i64::MAX {
        Some(i64_text_val(cs))
    } else {
        None
    }
}

/// The token a symbol run turns into: the integer it denotes, where it
/// denotes one, and the run as a symbol everywhere else.
pub open spec fn spec_num_token(cs: Seq<char>) -> Option<SpecToken> {
    match spec_parse_i64(cs) {
        Some(v) => Some(SpecToken::Integer(v)),
        None => None,
    }
}

/// Reads the digits of `s` between `from` and `to` as a `u64`, or reports
/// that their value does not fit in one.
#[verifier::loop_isolation(false)]
fn digits_to_u64(s: &str, from: usize, to: usize) -> (r: Option<u64>)
    requires
        from <= to,
        to as int <= s@.len(),
        forall|i: int| from <= i < to ==> is_digit_char(#[trigger] s@[i]),
    ensures
        (match r {
            Some(v) => v as int == digits_val(s@.subrange(from as int, to as int)),
            None => digits_val(s@.subrange(from as int, to as int)) > u64::MAX,
        }),
{
    let mut acc: u64 = 0;
    let mut i: usize = from;
    while i < to
        invariant
            from <= i <= to,
            acc as int == digits_val(s@.subrange(from as int, i as int)),
        decreases to - i,
    {
        let c = s.get_char(i);
        let d: u32 = (c as u32) - 48;
        let d64: u64 = d as u64;
        proof {
            assert(s@.subrange(from as int, i as int + 1).drop_last() =~= s@.subrange(
                from as int,
                i as int,
            ));
            assert(s@.subrange(from as int, i as int + 1).last() == s@[i as int]);
        }
        if acc > 1_844_674_407_370_955_161u64 || (acc == 1_844_674_407_370_955_161u64 && d64 > 5) {
            proof {
                assert(digits_val(s@.subrange(from as int, i as int + 1)) > u64::MAX);
                lemma_digits_val_mono(s@, from as int, i as int + 1, to as int);
            }
            return None;
        }
        acc = acc * 10 + d64;
        i = i + 1;
    }
    proof {
        assert(s@.subrange(from as int, to as int) =~= s@.subrange(from as int, i as int));
    }
    Some(acc)
}

/// Reads a whole text as an integer token, as `str::parse::<i64>` would:
/// `None` wherever the text is not a signed 64-bit integer.
fn consume_number(value: &str) -> (r: Option<Token>)
    ensures
        (match r {
            Some(t) => spec_num_token(value@) == Some(t@),
            None => spec_num_token(value@) is None,
        }),
{
    let n = value.unicode_len();
    if n == 0 {
        return None;
    }
    let c0 = value.get_char(0);
    let mut start: usize = 0;
    let mut neg: bool = false;
    if c0 == '-' {
        neg = true;
        start = 1;
    } else if c0 == '+' {
        start = 1;
    }
    if start >= n {
        // a bare sign has no digits
        return None;
    }
    let end = scan_digits(value, start);
    proof {
        lemma_digit_run_chars(value@, start as int);
    }
    if end < n {
        proof {
            assert(value@.subrange(start as int, n as int)[end - start] == value@[end as int]);
            assert(!all_digits(value@.subrange(start as int, n as int)));
            assert(!all_digits(value@)) by {
                if start == 0 {
                    assert(value@.subrange(0, n as int) =~= value@);
                }
            }
        }
        return None;
    }
    proof {
        assert(value@.subrange(start as int, n as int) =~= value@.subrange(
            start as int,
            start as int + digit_run(value@, start as int),
        ));
        if start == 0 {
            assert(value@.subrange(0, n as int) =~= value@);
        }
        lemma_digits_val_nonneg(value@, start as int, n as int);
    }
    match digits_to_u64(value, start, n) {
        None => {
            // the magnitude exceeds even u64; no sign brings it in range
            None
        },
        Some(mag) => {
            if neg {
                if mag <= 9_223_372_036_854_775_807u64 {
                    Some(Token::Integer(-(mag as i64)))
                } else if mag == 9_223_372_036_854_775_808u64 {
                    Some(Token::Integer(i64::MIN))
                } else {
                    None
                }
            } else {
                if mag <= 9_223_372_036_854_775_807u64 {
                    Some(Token::Integer(mag as i64))
                } else {
                    None
                }
            }
        },
    }
}

// ---------------------------------------------------------------------------
// The character stream
// ---------------------------------------------------------------------------

/// A peekable stream over the characters of a text.
pub struct CharStream {
    pub text: String,
    pub pos: usize,
}

impl CharStream {
    /// The cursor never leaves the text.
    pub open spec fn wf(&self) -> bool {
        self.pos as int <= self.text@.len()
    }

    /// A stream over the characters of `source`, at its start.
    pub fn new(source: &str) -> (r: CharStream)
        ensures
            r.wf(),
            r.text@ == source@,
            r.pos == 0,
    {
        CharStream { text: source.to_owned(), pos: 0 }
    }

    /// The next character, not consumed.
    pub fn peek(&self) -> (r: Option<char>)
        ensures
            r == (if self.pos < self.text@.len() {
                Some(self.text@[self.pos as int])
            } else {
                Option::<char>::None
            }),
    {
        if self.pos < self.text.as_str().unicode_len() {
            Some(self.text.as_str().get_char(self.pos))
        } else {
            None
        }
    }

    /// The next character, consumed.
    pub fn next(&mut self) -> (r: Option<char>)
        ensures
            final(self).text@ == old(self).text@,
            (match r {
                Some(c) => old(self).pos < old(self).text@.len() && c == old(self).text@[old(
                    self,
                ).pos as int] && final(self).pos == old(self).pos + 1,
                None => old(self).pos >= old(self).text@.len() && final(self).pos == old(
                    self,
                ).pos,
            }),
    {
        if self.pos < self.text.as_str().unicode_len() {
            let c = self.text.as_str().get_char(self.pos);
            self.pos = self.pos + 1;
            Some(c)
        } else {
            None
        }
    }
}

impl IteratorExt for CharStream {
    open spec fn stream_text(&self) -> Seq<char> {
        self.text@
    }

    open spec fn stream_cursor(&self) -> int {
        self.pos as int
    }

    fn take_while<F: Fn(char) -> bool>(&mut self, predicate: F) -> (r: String) {
        let n = self.text.as_str().unicode_len();
        let start = self.pos;
        loop
            invariant_except_break
                self.text@ == old(self).text@,
                start <= self.pos <= n,
                n == self.text@.len(),
                forall|c: char| #![auto] call_requires(predicate, (c,)),
                forall|j: int|
                    start <= j < self.pos ==> call_ensures(predicate, (self.text@[j],), true),
            ensures
                self.text@ == old(self).text@,
                start <= self.pos <= n,
                forall|j: int|
                    start <= j < self.pos ==> call_ensures(predicate, (self.text@[j],), true),
                self.pos < n ==> call_ensures(predicate, (self.text@[self.pos as int],), false),
            decreases n - self.pos,
        {
            if self.pos >= n {
                break;
            }
            let c = self.text.as_str().get_char(self.pos);
            if predicate(c) {
                self.pos = self.pos + 1;
            } else {
                break;
            }
        }
        self.text.as_str().substring_char(start, self.pos).to_owned()
    }
}

// ---------------------------------------------------------------------------
// The tokenizer
// ---------------------------------------------------------------------------

/// How many consecutive characters other than `)` stand at `pos`.
pub open spec fn non_rparen_run(s: Seq<char>, pos: int) -> nat
    decreases s.len() - pos,
{
    if pos < s.len() && s[pos] != ')' {
        non_rparen_run(s, pos + 1) + 1
    } else {
        0
    }
}

/// A run of characters other than `)` that stops at `)` or at the end is
/// exactly the `non_rparen_run`.
proof fn lemma_non_rparen_run_witness(s: Seq<char>, from: int, to: int)
    requires
        0 <= from <= to <= s.len(),
        forall|j: int| from <= j < to ==> s[j] != ')',
        to == s.len() || s[to] == ')',
    ensures
        non_rparen_run(s, from) == to - from,
    decreases to - from,
{
    if from < to {
        lemma_non_rparen_run_witness(s, from + 1, to);
    }
}

/// The token a symbol run at `pos` turns into.
pub open spec fn symbol_token_of(s: Seq<char>, pos: int) -> SpecToken {
    let cs = s.subrange(pos, pos + non_rparen_run(s, pos));
    match spec_num_token(cs) {
        Some(t) => t,
        None => SpecToken::Symbol(cs),
    }
}

/// The tokens of the text from `pos` on: parentheses one character at a
/// time, anything else as a run up to the next `)`.
pub open spec fn spec_tokens(s: Seq<char>, pos: int) -> Seq<SpecToken>
    decreases (if pos < s.len() { s.len() - pos } else { 0int }),
{
    if !(0 <= pos && pos < s.len()) {
        Seq::empty()
    } else if s[pos] == '(' {
        seq![SpecToken::LParen] + spec_tokens(s, pos + 1)
    } else if s[pos] == ')' {
        seq![SpecToken::RParen] + spec_tokens(s, pos + 1)
    } else {
        seq![symbol_token_of(s, pos)] + spec_tokens(s, pos + non_rparen_run(s, pos))
    }
}

/// What `tokenize` yields from `pos` on: leading whitespace is skipped, then
/// the whole rest of the text is read as tokens.
pub open spec fn spec_tokenize(s: Seq<char>, pos: int) -> Seq<SpecToken> {
    spec_tokens(s, pos + ws_run(s, pos))
}

/// Whether the stream stands on `op`; looks, never consumes.
pub fn is_expected(stream: &CharStream, op: char) -> (r: bool)
    ensures
        r == (stream.pos < stream.text@.len() && stream.text@[stream.pos as int] == op),
{
    if let Some(x) = stream.peek() {
        x == op
    } else {
        false
    }
}

/// Consumes one whitespace character (space, newline or tab) if the stream
/// stands on one.
pub fn consume_whitespace(stream: &mut CharStream) -> (r: bool)
    requires
        old(stream).wf(),
    ensures
        final(stream).wf(),
        final(stream).text@ == old(stream).text@,
        r == (old(stream).pos < old(stream).text@.len() && is_ws_char(
            old(stream).text@[old(stream).pos as int],
        )),
        final(stream).pos == (if r {
            old(stream).pos + 1
        } else {
            old(stream).pos as int
        }),
{
    if is_expected(stream, ' ') || is_expected(stream, '\n') || is_expected(stream, '\t') {
        stream.next();
        true
    } else {
        false
    }
}

/// Consumes `op` and yields its token, if the stream stands on `op`.
fn consume(stream: &mut CharStream, op: char) -> (r: Option<Token>)
    requires
        old(stream).wf(),
    ensures
        final(stream).wf(),
        final(stream).text@ == old(stream).text@,
        (match r {
            Some(t) => old(stream).pos < old(stream).text@.len() && old(stream).text@[old(
                stream,
            ).pos as int] == op && final(stream).pos == old(stream).pos + 1 && t@
                == spec_new_token(op),
            None => final(stream).pos == old(stream).pos && !(old(stream).pos < old(
                stream,
            ).text@.len() && old(stream).text@[old(stream).pos as int] == op),
        }),
{
    if !is_expected(stream, op) {
        return None;
    }
    stream.next();
    Some(Token::new(op))
}

/// Consumes a `(`, if the stream stands on one.
fn consume_lparen(stream: &mut CharStream) -> (r: Option<Token>)
    requires
        old(stream).wf(),
    ensures
        final(stream).wf(),
        final(stream).text@ == old(stream).text@,
        (match r {
            Some(t) => old(stream).pos < old(stream).text@.len() && old(stream).text@[old(
                stream,
            ).pos as int] == '(' && final(stream).pos == old(stream).pos + 1 && t@ == SpecToken::LParen,
            None => final(stream).pos == old(stream).pos && !(old(stream).pos < old(
                stream,
            ).text@.len() && old(stream).text@[old(stream).pos as int] == '('),
        }),
{
    consume(stream, '(')
}

/// Consumes a `)`, if the stream stands on one.
fn consume_rparen(stream: &mut CharStream) -> (r: Option<Token>)
    requires
        old(stream).wf(),
    ensures
        final(stream).wf(),
        final(stream).text@ == old(stream).text@,
        (match r {
            Some(t) => old(stream).pos < old(stream).text@.len() && old(stream).text@[old(
                stream,
            ).pos as int] == ')' && final(stream).pos == old(stream).pos + 1 && t@ == SpecToken::RParen,
            None => final(stream).pos == old(stream).pos && !(old(stream).pos < old(
                stream,
            ).text@.len() && old(stream).text@[old(stream).pos as int] == ')'),
        }),
{
    consume(stream, ')')
}

/// The predicate that ends a symbol run.
fn not_rparen(c: char) -> (b: bool)
    ensures
        b == (c != ')'),
{
    c != ')'
}

/// Consumes the run up to the next `)` and reads it as an integer where it
/// is one, as a symbol everywhere else. Yields `None` only at the end of the
/// input.
fn consume_symbol(stream: &mut CharStream) -> (r: Option<Token>)
    requires
        old(stream).wf(),
    ensures
        final(stream).wf(),
        final(stream).text@ == old(stream).text@,
        (match r {
            Some(t) => old(stream).pos < old(stream).text@.len() && final(stream).pos as int
                == old(stream).pos + non_rparen_run(old(stream).text@, old(stream).pos as int)
                && t@ == symbol_token_of(old(stream).text@, old(stream).pos as int),
            None => final(stream).pos == old(stream).pos && old(stream).pos >= old(
                stream,
            ).text@.len(),
        }),
{
    if stream.peek().is_none() {
        return None;
    }
    let ghost p0 = stream.pos as int;
    let value = stream.take_while(not_rparen);
    proof {
        assert forall|j: int| p0 <= j < stream.pos implies stream.text@[j] != ')' by {
            assert(call_ensures(not_rparen, (stream.text@[j],), true));
        }
        if (stream.pos as int) < stream.text@.len() {
            assert(call_ensures(not_rparen, (stream.text@[stream.pos as int],), false));
        }
        lemma_non_rparen_run_witness(stream.text@, p0, stream.pos as int);
        assert(value@ == stream.text@.subrange(
            p0,
            p0 + non_rparen_run(stream.text@, p0),
        ));
    }
    match consume_number(value.as_str()) {
        Some(t) => Some(t),
        None => Some(Token::Symbol(value)),
    }
}

/// Consumes one token: a parenthesis, or a symbol run; `None` at the end of
/// the input.
fn proceed_one(stream: &mut CharStream) -> (r: Option<Token>)
    requires
        old(stream).wf(),
    ensures
        final(stream).wf(),
        final(stream).text@ == old(stream).text@,
        (match r {
            Some(t) => old(stream).pos < final(stream).pos && final(stream).pos as int <= final(stream).text@.len() && spec_tokens(final(stream).text@, old(stream).pos as int) == seq![t@]
                + spec_tokens(final(stream).text@, final(stream).pos as int),
            None => final(stream).pos == old(stream).pos && old(stream).pos >= final(stream).text@.len(),
        }),
{
    match consume_lparen(stream) {
        Some(t) => Some(t),
        None => match consume_rparen(stream) {
            Some(t) => Some(t),
            None => consume_symbol(stream),
        },
    }
}

/// Splits the whole remaining input into tokens: leading whitespace is
/// dropped, then parentheses and symbol runs follow one another to the end
/// of the text.
pub fn tokenize(stream: &mut CharStream) -> (r: Vec<Token>)
    requires
        old(stream).wf(),
    ensures
        final(stream).wf(),
        final(stream).text@ == old(stream).text@,
        final(stream).pos as int == final(stream).text@.len(),
        r.deep_view() == spec_tokenize(old(stream).text@, old(stream).pos as int),
{
    let ghost s = stream.text@;
    let ghost p0 = stream.pos as int;
    loop
        invariant_except_break
            stream.wf(),
            stream.text@ == old(stream).text@,
            s == stream.text@,
            p0 <= stream.pos as int <= s.len(),
            stream.pos + ws_run(s, stream.pos as int) == p0 + ws_run(s, p0),
        ensures
            stream.wf(),
            stream.text@ == old(stream).text@,
            s == stream.text@,
            stream.pos as int == p0 + ws_run(s, p0),
        decreases s.len() - stream.pos,
    {
        if !consume_whitespace(stream) {
            break;
        }
    }
    let ghost pw = stream.pos as int;
    let mut tokens: Vec<Token> = Vec::new();
    proof {
        assert(tokens.deep_view() =~= Seq::<SpecToken>::empty());
    }
    loop
        invariant_except_break
            stream.wf(),
            stream.text@ == old(stream).text@,
            s == stream.text@,
            pw <= stream.pos as int <= s.len(),
            tokens.deep_view() + spec_tokens(s, stream.pos as int) == spec_tokens(s, pw),
        ensures
            stream.wf(),
            stream.text@ == old(stream).text@,
            s == stream.text@,
            stream.pos as int == s.len(),
            tokens.deep_view() == spec_tokens(s, pw),
        decreases s.len() - stream.pos,
    {
        let ghost tokens0 = tokens.deep_view();
        let ghost posb = stream.pos as int;
        match proceed_one(stream) {
            Some(token) => {
                tokens.push(token);
                proof {
                    assert(tokens.deep_view() =~= tokens0.push(token@));
                    assert(tokens0.push(token@) + spec_tokens(s, stream.pos as int) =~= tokens0 + (
                    seq![token@] + spec_tokens(s, stream.pos as int)));
                }
            },
            None => {
                proof {
                    assert(tokens.deep_view() + spec_tokens(s, stream.pos as int)
                        =~= tokens.deep_view());
                }
                break;
            },
        }
    }
    tokens
}

} // verus!
