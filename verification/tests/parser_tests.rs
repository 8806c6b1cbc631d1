use micro_scheme::ast::{SExpr, Token};
use micro_scheme::parser::{parse, ErrorReason};

#[test]
fn parser_empty_paren() {
    let (tree, errors) = parse("()");
    assert_eq!(tree.unwrap(), SExpr::List(vec![]));
    assert!(errors.is_empty());
}

#[test]
fn parser_nested_paren() {
    let (tree, errors) = parse("((42))");
    assert_eq!(
        tree.unwrap(),
        SExpr::List(vec![SExpr::List(vec![SExpr::Atom(Token::Integer(42))])])
    );
    assert!(errors.is_empty());
}

#[test]
fn parser_simple_numbers() {
    assert_eq!(parse("42").0.unwrap(), SExpr::Atom(Token::Integer(42)));
    assert_eq!(
        parse("(42)").0.unwrap(),
        SExpr::List(vec![SExpr::Atom(Token::Integer(42))])
    );
    assert_eq!(
        parse("(3.14)").0.unwrap(),
        SExpr::List(vec![SExpr::Atom(Token::Float("3.14".to_string()))])
    );
}

#[test]
fn parser_strings() {
    assert_eq!(
        parse(r#"("aiueo")"#).0.unwrap(),
        SExpr::List(vec![SExpr::Atom(Token::String("\"aiueo\"".to_string()))])
    );
}

#[test]
fn parser_symbols() {
    assert_eq!(
        parse("(a)").0.unwrap(),
        SExpr::List(vec![SExpr::Atom(Token::Symbol("a".to_string()))])
    );
}

#[test]
fn parser_compound_symbols() {
    assert_eq!(
        parse("(a 42 b \"foo\")").0.unwrap(),
        SExpr::List(vec![
            SExpr::Atom(Token::Symbol("a".to_string())),
            SExpr::Atom(Token::Integer(42)),
            SExpr::Atom(Token::Symbol("b".to_string())),
            SExpr::Atom(Token::String("\"foo\"".to_string())),
        ])
    );
}

#[test]
fn parser_bool() {
    assert_eq!(
        parse("(#t #f)").0.unwrap(),
        SExpr::List(vec![
            SExpr::Atom(Token::Bool(true)),
            SExpr::Atom(Token::Bool(false)),
        ])
    );
}

#[test]
fn parser_quote() {
    assert_eq!(
        parse("'(a b c)").0.unwrap(),
        SExpr::Quote(Box::new(SExpr::List(vec![
            SExpr::Atom(Token::Symbol("a".to_string())),
            SExpr::Atom(Token::Symbol("b".to_string())),
            SExpr::Atom(Token::Symbol("c".to_string())),
        ])))
    );
}

#[test]
fn parser_quote_keyword() {
    assert_eq!(
        parse("(quote a)").0.unwrap(),
        SExpr::List(vec![SExpr::Quote(Box::new(SExpr::Atom(Token::Symbol(
            "a".to_string()
        ))))])
    );
}

#[test]
fn parser_quote_keyword_needs_whitespace() {
    // without whitespace after it, `quote` is an ordinary symbol
    assert_eq!(
        parse("quote").0.unwrap(),
        SExpr::Atom(Token::Symbol("quote".to_string()))
    );
}

#[test]
fn parser_quoted_atom() {
    assert_eq!(
        parse("'a").0.unwrap(),
        SExpr::Quote(Box::new(SExpr::Atom(Token::Symbol("a".to_string()))))
    );
}

#[test]
fn parser_whitespace_inside_list() {
    assert_eq!(
        parse("( \n\ta\t42 )").0.unwrap(),
        SExpr::List(vec![
            SExpr::Atom(Token::Symbol("a".to_string())),
            SExpr::Atom(Token::Integer(42)),
        ])
    );
}

#[test]
fn parser_unbalanced_paren_reports_eof() {
    let (tree, errors) = parse("(1 2");
    assert!(tree.is_none());
    assert_eq!(errors.len(), 1);
    assert_eq!(errors[0].start, 4);
    assert_eq!(errors[0].end, 4);
    assert_eq!(errors[0].reason, ErrorReason::Unexpected(None));
}

#[test]
fn parser_empty_input_reports_eof() {
    let (tree, errors) = parse("");
    assert!(tree.is_none());
    assert_eq!(errors.len(), 1);
    assert_eq!(errors[0].start, 0);
    assert_eq!(errors[0].end, 0);
    assert_eq!(errors[0].reason, ErrorReason::Unexpected(None));
}

#[test]
fn parser_unterminated_string() {
    let (tree, errors) = parse("(\"ab");
    assert!(tree.is_none());
    assert_eq!(errors.len(), 1);
    assert_eq!(errors[0].start, 4);
    assert_eq!(errors[0].end, 4);
    assert_eq!(
        errors[0].reason,
        ErrorReason::Custom("parsing strings".to_string())
    );
}

#[test]
fn parser_trailing_input_is_an_error() {
    let (tree, errors) = parse("42 ");
    assert!(tree.is_none());
    assert_eq!(errors.len(), 1);
    assert_eq!(errors[0].start, 2);
    assert_eq!(errors[0].end, 3);
    assert_eq!(errors[0].reason, ErrorReason::Unexpected(Some(' ')));
}

#[test]
fn parser_huge_integer_is_an_error() {
    let (tree, errors) = parse("(99999999999999999999)");
    assert!(tree.is_none());
    assert_eq!(errors.len(), 1);
}

#[test]
fn parser_no_nested_quote_sugar() {
    // quote sugar cannot appear again inside the same quoted form
    let (tree, errors) = parse("'(a 'b)");
    assert!(tree.is_none());
    assert_eq!(errors.len(), 1);
    assert_eq!(errors[0].start, 4);
    assert_eq!(errors[0].reason, ErrorReason::Unexpected(Some('\'')));
}

#[test]
fn parser_stray_character() {
    let (tree, errors) = parse("@");
    assert!(tree.is_none());
    assert_eq!(errors.len(), 1);
    assert_eq!(errors[0].start, 0);
    assert_eq!(errors[0].end, 1);
    assert_eq!(errors[0].reason, ErrorReason::Unexpected(Some('@')));
}

#[test]
fn parser_integer_bounds() {
    assert_eq!(
        parse("9223372036854775807").0.unwrap(),
        SExpr::Atom(Token::Integer(i64::MAX))
    );
    let (tree, errors) = parse("9223372036854775808");
    assert!(tree.is_none());
    assert_eq!(errors.len(), 1);
}
