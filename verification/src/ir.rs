//! IR lowering: flattening a syntax tree into an ordered sequence of
//! stack-machine instructions that ends in a single `Stop`.

use vstd::prelude::*;

use crate::ast::lemma_view_sexprs;
use crate::ast::view_sexpr;
use crate::ast::view_sexprs;
use crate::ast::SExpr;
use crate::ast::SpecSExpr;
use crate::ast::SpecToken;
use crate::ast::Token;

verus! {

/// Represents instructions for the virtual machine.
/// Each instruction can conduct changing the state of the VM; the machine
/// itself lives outside this crate, so the instruction stream is inert data.
#[derive(Debug, PartialEq)]
pub enum Inst {
    /// Represents the `ldc` instruction. This piles a quoted or
    /// self-evaluated form on the stack.
    Ldc(Ldc),
    /// Represents the `ldg` instruction. This piles the value of a global
    /// variable symbol on the stack.
    Ldg(Ldg),
    /// Stop the execution and return the value on top of the stack.
    Stop,
}

#[derive(Debug, PartialEq)]
pub struct Ldc {
    pub expr: Box<SExpr>,
}

#[derive(Debug, PartialEq)]
pub struct Ldg {
    pub expr: Token,
}

/// The mathematical value of an `Inst`.
pub enum SpecInst {
    Ldc(SpecSExpr),
    Ldg(SpecToken),
    Stop,
}

impl View for Inst {
    type V = SpecInst;

    open spec fn view(&self) -> SpecInst {
        match self {
            Inst::Ldc(ldc) => SpecInst::Ldc(ldc.expr@),
            Inst::Ldg(ldg) => SpecInst::Ldg(ldg.expr@),
            Inst::Stop => SpecInst::Stop,
        }
    }
}

impl DeepView for Inst {
    type V = SpecInst;

    open spec fn deep_view(&self) -> SpecInst {
        self.view()
    }
}

/// The instructions that a single tree contributes, without the trailing
/// `Stop`: a bare symbol becomes a global load, any other atom and any quoted
/// sub-tree become a constant load, and a list contributes the concatenation
/// of its children's instructions, in order, with nothing of its own.
pub open spec fn lower(e: SpecSExpr) -> Seq<SpecInst>
    decreases e,
{
    match e {
        SpecSExpr::Quote(inner) => seq![SpecInst::Ldc(*inner)],
        SpecSExpr::Atom(SpecToken::Symbol(s)) => seq![SpecInst::Ldg(SpecToken::Symbol(s))],
        SpecSExpr::Atom(t) => seq![SpecInst::Ldc(SpecSExpr::Atom(t))],
        SpecSExpr::List(children) => lower_seq(children),
    }
}

/// The concatenation of `lower` over a sequence of trees, in order.
pub open spec fn lower_seq(children: Seq<SpecSExpr>) -> Seq<SpecInst>
    decreases children,
{
    if children.len() == 0 {
        Seq::empty()
    } else {
        lower(children[0]) + lower_seq(children.subrange(1, children.len() as int))
    }
}

/// The complete output of lowering a tree: its instructions followed by
/// exactly one `Stop`.
pub open spec fn lower_program(e: SpecSExpr) -> Seq<SpecInst> {
    lower(e).push(SpecInst::Stop)
}

/// The number of `Atom` and `Quote` nodes of a tree; `List` nodes count for
/// nothing of their own.
pub open spec fn load_count(e: SpecSExpr) -> nat
    decreases e,
{
    match e {
        SpecSExpr::Atom(_) => 1,
        SpecSExpr::Quote(_) => 1,
        SpecSExpr::List(children) => load_count_seq(children),
    }
}

/// The sum of `load_count` over a sequence of trees.
pub open spec fn load_count_seq(children: Seq<SpecSExpr>) -> nat
    decreases children,
{
    if children.len() == 0 {
        0
    } else {
        load_count(children[0]) + load_count_seq(children.subrange(1, children.len() as int))
    }
}

/// Law: lowering a tree yields one instruction per `Atom` or `Quote` node,
/// none of which is `Stop`; so the complete program of `lower_program` ends
/// in exactly one `Stop`, at the very last position.
pub proof fn lemma_lower_shape(e: SpecSExpr)
    ensures
        lower(e).len() == load_count(e),
        forall|i: int| 0 <= i < lower(e).len() ==> lower(e)[i] != SpecInst::Stop,
        lower_program(e).len() == load_count(e) + 1,
        lower_program(e).last() == SpecInst::Stop,
        forall|i: int|
            0 <= i < lower_program(e).len() && lower_program(e)[i] == SpecInst::Stop ==> i
                == lower_program(e).len() - 1,
    decreases e,
{
    match e {
        SpecSExpr::List(children) => {
            lemma_lower_seq_shape(children);
        },
        _ => {},
    }
}

/// Law: the instructions of a sequence of trees number exactly the `Atom` and
/// `Quote` nodes of those trees, and none of them is `Stop`.
pub proof fn lemma_lower_seq_shape(children: Seq<SpecSExpr>)
    ensures
        lower_seq(children).len() == load_count_seq(children),
        forall|i: int| 0 <= i < lower_seq(children).len() ==> lower_seq(children)[i]
            != SpecInst::Stop,
    decreases children,
{
    if children.len() > 0 {
        lemma_lower_shape(children[0]);
        lemma_lower_seq_shape(children.subrange(1, children.len() as int));
    }
}

/// Extending a sequence of trees by one extends its instructions by those of
/// the new tree.
proof fn lemma_lower_seq_snoc(children: Seq<SpecSExpr>, e: SpecSExpr)
    ensures
        lower_seq(children.push(e)) == lower_seq(children) + lower(e),
    decreases children,
{
    if children.len() == 0 {
        let p = children.push(e);
        assert(p.len() == 1);
        assert(p[0] == e);
        assert(p.subrange(1, 1) =~= Seq::<SpecSExpr>::empty());
        assert(lower_seq(p.subrange(1, 1)) == Seq::<SpecInst>::empty());
        assert(lower_seq(p) == lower(e) + Seq::<SpecInst>::empty());
        assert(lower(e) + Seq::<SpecInst>::empty() =~= Seq::<SpecInst>::empty() + lower(e));
        assert(lower_seq(children) == Seq::<SpecInst>::empty());
        assert(lower_seq(children.push(e)) == lower_seq(children) + lower(e));
    } else {
        let tail = children.subrange(1, children.len() as int);
        lemma_lower_seq_snoc(tail, e);
        assert(children.push(e)[0] == children[0]);
        assert(children.push(e).subrange(1, children.len() as int + 1) =~= tail.push(e));
        assert((lower(children[0]) + lower_seq(tail)) + lower(e) =~= lower(children[0]) + (
        lower_seq(tail) + lower(e)));
        assert(lower_seq(children.push(e)) == lower_seq(children) + lower(e));
    }
}

/// Rebuilds a token; the copy has the same mathematical value.
fn copy_token(t: &Token) -> (r: Token)
    ensures
        r@ == t@,
{
    match t {
        Token::Integer(i) => Token::Integer(*i),
        Token::Float(s) => Token::Float(s.clone()),
        Token::Symbol(s) => Token::Symbol(s.clone()),
        Token::String(s) => Token::String(s.clone()),
        Token::Bool(b) => Token::Bool(*b),
    }
}

/// Rebuilds a tree; the copy has the same mathematical value.
#[verifier::loop_isolation(false)]
fn copy_sexpr(e: &SExpr) -> (r: SExpr)
    ensures
        r@ == e@,
    decreases e,
{
    match e {
        SExpr::Atom(t) => SExpr::Atom(copy_token(t)),
        SExpr::List(v) => {
            let mut out: Vec<SExpr> = Vec::new();
            let mut i: usize = 0;
            while i < v.len()
                invariant
                    i <= v.len(),
                    out@.len() == i,
                    forall|j: int| 0 <= j < i ==> out@[j]@ == v@[j]@,
                decreases v.len() - i,
            {
                proof {
                    assert(decreases_to!(e => v));
                    assert(decreases_to!(v => v@));
                    assert(decreases_to!(v@ => v@[i as int]));
                }
                out.push(copy_sexpr(&v[i]));
                i = i + 1;
            }
            let r = SExpr::List(out);
            proof {
                lemma_view_sexprs(out@);
                lemma_view_sexprs(v@);
                assert(view_sexprs(out@) =~= view_sexprs(v@));
                assert(r@ == e@);
            }
            r
        },
        SExpr::Quote(b) => SExpr::Quote(Box::new(copy_sexpr(&**b))),
    }
}

/// Generates IR for micro Scheme: the instructions of the whole tree,
/// followed by exactly one trailing `Stop`.
pub fn ir_codegen(expr: SExpr) -> (r: Vec<Inst>)
    ensures
        r.deep_view() == lower_program(expr@),
{
    let mut ir_generated = Vec::new();
    eval(&expr, &mut ir_generated);
    ir_generated.push(Inst::Stop);
    proof {
        assert(ir_generated.deep_view() =~= (Seq::<SpecInst>::empty() + lower(expr@)).push(
            SpecInst::Stop,
        ));
        assert((Seq::<SpecInst>::empty() + lower(expr@)).push(SpecInst::Stop) =~= lower_program(
            expr@,
        ));
    }
    ir_generated
}

/// Appends the instructions of one tree to the stream built so far.
#[verifier::loop_isolation(false)]
fn eval(expr: &SExpr, ir_generated: &mut Vec<Inst>)
    ensures
        final(ir_generated).deep_view() == old(ir_generated).deep_view() + lower(expr@),
    decreases expr,
{
    match expr {
        SExpr::Quote(inner) => {
            ir_generated.push(Inst::Ldc(Ldc { expr: Box::new(copy_sexpr(&**inner)) }));
            proof {
                assert(ir_generated.deep_view() =~= old(ir_generated).deep_view() + lower(
                    expr@,
                ));
            }
        },
        SExpr::Atom(Token::Symbol(s)) => {
            ir_generated.push(Inst::Ldg(Ldg { expr: Token::Symbol(s.clone()) }));
            proof {
                assert(ir_generated.deep_view() =~= old(ir_generated).deep_view() + lower(
                    expr@,
                ));
            }
        },
        SExpr::Atom(t) => {
            ir_generated.push(Inst::Ldc(Ldc { expr: Box::new(SExpr::Atom(copy_token(t))) }));
            proof {
                assert(ir_generated.deep_view() =~= old(ir_generated).deep_view() + lower(
                    expr@,
                ));
            }
        },
        SExpr::List(v) => {
            proof {
                lemma_view_sexprs(v@);
            }
            let ghost vs = view_sexprs(v@);
            let mut i: usize = 0;
            while i < v.len()
                invariant
                    i <= v.len(),
                    vs == view_sexprs(v@),
                    vs.len() == v@.len(),
                    forall|j: int| 0 <= j < v@.len() ==> vs[j] == view_sexpr(v@[j]),
                    ir_generated.deep_view() == old(ir_generated).deep_view() + lower_seq(
                        vs.subrange(0, i as int),
                    ),
                decreases v.len() - i,
            {
                proof {
                    assert(decreases_to!(expr => v));
                    assert(decreases_to!(v => v@));
                    assert(decreases_to!(v@ => v@[i as int]));
                }
                eval(&v[i], ir_generated);
                proof {
                    assert(vs.subrange(0, i as int + 1) =~= vs.subrange(0, i as int).push(
                        view_sexpr(v@[i as int]),
                    ));
                    lemma_lower_seq_snoc(vs.subrange(0, i as int), view_sexpr(v@[i as int]));
                }
                i = i + 1;
            }
            proof {
                assert(vs.subrange(0, v@.len() as int) =~= vs);
                assert(expr@ == SpecSExpr::List(vs));
                assert(ir_generated.deep_view() == old(ir_generated).deep_view() + lower(expr@));
            }
        },
    }
}

} // verus!
