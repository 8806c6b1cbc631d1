use micro_scheme::lexer::{tokenize, CharStream, Token};
use micro_scheme::prelude::IteratorExt;

#[test]
fn lexer_empty_paren() {
    let mut stream = CharStream::new("()");
    assert_eq!(tokenize(&mut stream), vec![Token::LParen, Token::RParen]);
}

#[test]
fn lexer_nested_paren() {
    let mut stream = CharStream::new("((42))");
    assert_eq!(
        tokenize(&mut stream),
        vec![
            Token::LParen,
            Token::LParen,
            Token::Integer(42),
            Token::RParen,
            Token::RParen
        ]
    );
}

#[test]
fn return_42() {
    let mut stream = CharStream::new("42");
    assert_eq!(tokenize(&mut stream), vec![Token::Integer(42)]);
    let mut stream = CharStream::new("(42)");
    assert_eq!(
        tokenize(&mut stream),
        vec![Token::LParen, Token::Integer(42), Token::RParen]
    );
}

#[test]
fn return_symbols() {
    let mut stream = CharStream::new("(a)");
    assert_eq!(
        tokenize(&mut stream),
        vec![Token::LParen, Token::Symbol("a".to_string()), Token::RParen]
    );
}

#[test]
fn lexer_skips_leading_whitespace() {
    let mut stream = CharStream::new(" \t\n(42)");
    assert_eq!(
        tokenize(&mut stream),
        vec![Token::LParen, Token::Integer(42), Token::RParen]
    );
}

#[test]
fn lexer_symbol_runs_to_rparen() {
    // a symbol run swallows everything up to the next `)`
    let mut stream = CharStream::new("(a b)");
    assert_eq!(
        tokenize(&mut stream),
        vec![
            Token::LParen,
            Token::Symbol("a b".to_string()),
            Token::RParen
        ]
    );
}

#[test]
fn lexer_negative_number() {
    let mut stream = CharStream::new("(-42)");
    assert_eq!(
        tokenize(&mut stream),
        vec![Token::LParen, Token::Integer(-42), Token::RParen]
    );
}

#[test]
fn lexer_integer_bounds() {
    let mut stream = CharStream::new("(-9223372036854775808)");
    assert_eq!(
        tokenize(&mut stream),
        vec![Token::LParen, Token::Integer(i64::MIN), Token::RParen]
    );
    let mut stream = CharStream::new("(9223372036854775808)");
    assert_eq!(
        tokenize(&mut stream),
        vec![
            Token::LParen,
            Token::Symbol("9223372036854775808".to_string()),
            Token::RParen
        ]
    );
}

#[test]
fn lexer_bare_sign_is_a_symbol() {
    let mut stream = CharStream::new("(-)");
    assert_eq!(
        tokenize(&mut stream),
        vec![Token::LParen, Token::Symbol("-".to_string()), Token::RParen]
    );
}

#[test]
fn charstream_peek_and_next() {
    let mut stream = CharStream::new("ab");
    assert_eq!(stream.peek(), Some('a'));
    assert_eq!(stream.next(), Some('a'));
    assert_eq!(stream.next(), Some('b'));
    assert_eq!(stream.peek(), None);
    assert_eq!(stream.next(), None);
}

#[test]
fn take_while_leaves_the_refused_character() {
    let mut stream = CharStream::new("ab)c");
    let taken = stream.take_while(|c: char| c != ')');
    assert_eq!(taken, "ab".to_string());
    assert_eq!(stream.peek(), Some(')'));
}
