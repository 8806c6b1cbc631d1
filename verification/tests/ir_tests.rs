use micro_scheme::ast::{SExpr, Token};
use micro_scheme::ir::{ir_codegen, Inst, Ldc, Ldg};

#[test]
fn stack_self_evaluation_form_as_ldc() {
    let expr = SExpr::integer(1);
    let ir = ir_codegen(expr);
    assert_eq!(
        ir,
        vec![
            Inst::Ldc(Ldc {
                expr: Box::new(SExpr::integer(1))
            }),
            Inst::Stop
        ]
    );
}

#[test]
fn stack_simple_quote_as_ldc() {
    let expr = SExpr::Quote(Box::new(SExpr::symbol("a".to_string())));
    let ir = ir_codegen(expr);
    assert_eq!(
        ir,
        vec![
            Inst::Ldc(Ldc {
                expr: Box::new(SExpr::symbol("a".to_string()))
            }),
            Inst::Stop
        ]
    );
}

#[test]
fn stack_symbol_as_ldg() {
    let expr = SExpr::symbol("a".to_string());
    let ir = ir_codegen(expr);
    assert_eq!(
        ir,
        vec![
            Inst::Ldg(Ldg {
                expr: Token::Symbol("a".to_string())
            }),
            Inst::Stop
        ]
    );
}

#[test]
fn stack_list_flattens_children_in_order() {
    // (a 42 'b) — one instruction per atom or quote node, then one Stop
    let expr = SExpr::List(vec![
        SExpr::symbol("a".to_string()),
        SExpr::integer(42),
        SExpr::Quote(Box::new(SExpr::symbol("b".to_string()))),
    ]);
    let ir = ir_codegen(expr);
    assert_eq!(
        ir,
        vec![
            Inst::Ldg(Ldg {
                expr: Token::Symbol("a".to_string())
            }),
            Inst::Ldc(Ldc {
                expr: Box::new(SExpr::integer(42))
            }),
            Inst::Ldc(Ldc {
                expr: Box::new(SExpr::symbol("b".to_string()))
            }),
            Inst::Stop
        ]
    );
}

#[test]
fn stack_nested_lists_contribute_nothing() {
    // ((1 (2)) 3) — list nodes add no instruction of their own
    let expr = SExpr::List(vec![
        SExpr::List(vec![
            SExpr::integer(1),
            SExpr::List(vec![SExpr::integer(2)]),
        ]),
        SExpr::integer(3),
    ]);
    let ir = ir_codegen(expr);
    assert_eq!(ir.len(), 4);
    assert_eq!(*ir.last().unwrap(), Inst::Stop);
    assert_eq!(
        ir.iter().filter(|i| matches!(i, Inst::Stop)).count(),
        1
    );
}

#[test]
fn stack_quoted_list_stays_inert() {
    // '(a b): the quoted list is one constant, its symbols are not resolved
    let inner = SExpr::List(vec![
        SExpr::symbol("a".to_string()),
        SExpr::symbol("b".to_string()),
    ]);
    let expr = SExpr::Quote(Box::new(inner));
    let ir = ir_codegen(expr);
    assert_eq!(ir.len(), 2);
    assert!(matches!(ir[0], Inst::Ldc(_)));
    assert_eq!(ir[1], Inst::Stop);
}

#[test]
fn stack_empty_list_is_just_stop() {
    let ir = ir_codegen(SExpr::List(vec![]));
    assert_eq!(ir, vec![Inst::Stop]);
}

#[test]
fn parse_then_lower() {
    let (tree, errors) = micro_scheme::parser::parse("(a 1)");
    assert!(errors.is_empty());
    let ir = ir_codegen(tree.unwrap());
    assert_eq!(
        ir,
        vec![
            Inst::Ldg(Ldg {
                expr: Token::Symbol("a".to_string())
            }),
            Inst::Ldc(Ldc {
                expr: Box::new(SExpr::integer(1))
            }),
            Inst::Stop
        ]
    );
}
