//! The syntax-tree model: atoms (`Token`) and S-expressions (`SExpr`),
//! together with their mathematical views.

use vstd::prelude::*;

verus! {

/// Inner data structure to represent an atom.
///
/// Decimal literals such as `3.14` are kept as their source digits (the
/// `Float` variant holds the literal text `digits '.' digits`), so that the
/// tree stays exact; turning the text into a machine float is left to the
/// consumer of the tree.
#[derive(Debug, Clone, PartialEq)]
pub enum Token {
    /// Represents numbers like `42`.
    Integer(i64),
    /// Represents decimal literals like `3.14`, as their literal text.
    Float(String),
    /// Represents symbols.
    Symbol(String),
    /// Represents string literals; the value keeps the delimiting quotes.
    String(String),
    /// Represents booleans.
    Bool(bool),
}

/// The mathematical value of a `Token`.
#[verifier::ext_equal]
pub enum SpecToken {
    Integer(int),
    Float(Seq<char>),
    Symbol(Seq<char>),
    String(Seq<char>),
    Bool(bool),
}

impl View for Token {
    type V = SpecToken;

    open spec fn view(&self) -> SpecToken {
        match self {
            Token::Integer(i) => SpecToken::Integer(*i as int),
            Token::Float(s) => SpecToken::Float(s@),
            Token::Symbol(s) => SpecToken::Symbol(s@),
            Token::String(s) => SpecToken::String(s@),
            Token::Bool(b) => SpecToken::Bool(*b),
        }
    }
}

impl DeepView for Token {
    type V = SpecToken;

    open spec fn deep_view(&self) -> SpecToken {
        self.view()
    }
}

/// Represents an S-expression.
#[derive(Debug, PartialEq)]
pub enum SExpr {
    Atom(Token),
    List(Vec<SExpr>),
    Quote(Box<SExpr>),
}

/// The mathematical value of an `SExpr`: a finite tree of atoms, lists and
/// quoted sub-trees.
#[verifier::ext_equal]
pub enum SpecSExpr {
    Atom(SpecToken),
    List(Seq<SpecSExpr>),
    Quote(Box<SpecSExpr>),
}

/// The mathematical value of a sequence of trees, elementwise.
pub open spec fn view_sexprs(s: Seq<SExpr>) -> Seq<SpecSExpr>
    decreases s, 0int,
{
    if s.len() == 0 {
        Seq::empty()
    } else {
        seq![view_sexpr(s[0])] + view_sexprs(s.subrange(1, s.len() as int))
    }
}

/// The mathematical value of a single tree.
pub open spec fn view_sexpr(e: SExpr) -> SpecSExpr
    decreases e, 1int,
{
    match e {
        SExpr::Atom(t) => SpecSExpr::Atom(t@),
        SExpr::List(v) => SpecSExpr::List(view_sexprs(v@)),
        SExpr::Quote(b) => SpecSExpr::Quote(Box::new(view_sexpr(*b))),
    }
}

/// `view_sexprs` is the elementwise `view_sexpr`.
pub proof fn lemma_view_sexprs(s: Seq<SExpr>)
    ensures
        view_sexprs(s).len() == s.len(),
        forall|i: int| 0 <= i < s.len() ==> view_sexprs(s)[i] == view_sexpr(s[i]),
    decreases s,
{
    if s.len() > 0 {
        lemma_view_sexprs(s.subrange(1, s.len() as int));
    }
}

impl View for SExpr {
    type V = SpecSExpr;

    open spec fn view(&self) -> SpecSExpr {
        view_sexpr(*self)
    }
}

impl DeepView for SExpr {
    type V = SpecSExpr;

    open spec fn deep_view(&self) -> SpecSExpr {
        self.view()
    }
}

impl SExpr {
    /// Convenient constructor for `SExpr::Atom(Token::Symbol)`.
    pub fn symbol(op: String) -> (r: SExpr)
        ensures
            r == (SExpr::Atom(Token::Symbol(op))),
            r@ == SpecSExpr::Atom(SpecToken::Symbol(op@)),
    {
        SExpr::Atom(Token::Symbol(op))
    }

    /// Convenient constructor for `SExpr::Atom(Token::String)`.
    pub fn string(op: String) -> (r: SExpr)
        ensures
            r == (SExpr::Atom(Token::String(op))),
            r@ == SpecSExpr::Atom(SpecToken::String(op@)),
    {
        SExpr::Atom(Token::String(op))
    }

    /// Convenient constructor for `SExpr::Atom(Token::Integer)`.
    pub fn integer(op: i64) -> (r: SExpr)
        ensures
            r == (SExpr::Atom(Token::Integer(op))),
            r@ == SpecSExpr::Atom(SpecToken::Integer(op as int)),
    {
        SExpr::Atom(Token::Integer(op))
    }

    /// Convenient constructor for `SExpr::Atom(Token::Float)`; the argument is
    /// the literal text of the decimal number.
    pub fn float(op: String) -> (r: SExpr)
        ensures
            r == (SExpr::Atom(Token::Float(op))),
            r@ == SpecSExpr::Atom(SpecToken::Float(op@)),
    {
        SExpr::Atom(Token::Float(op))
    }

    /// Convenient constructor for `SExpr::Atom(Token::Bool)`.
    pub fn bool(op: char) -> (r: SExpr)
        ensures
            r == (SExpr::Atom(Token::Bool(op == 't'))),
            r@ == SpecSExpr::Atom(SpecToken::Bool(op == 't')),
    {
        SExpr::Atom(Token::Bool(op == 't'))
    }
}

} // verus!
