use microlisp::lexer::TokenKind;
use microlisp::object::Object;
use microlisp::object::Object::{Float, List, Symbol};
use microlisp::parser::parse;

fn bits(x: f64) -> u64 {
    x.to_bits()
}

#[test]
fn test_parser() {
    assert_eq!(
        parse(&mut vec![
            TokenKind::RParen,
            TokenKind::RParen,
            TokenKind::Float(bits(2.0)),
            TokenKind::Float(bits(1.0)),
            TokenKind::Symbol("+".to_string()),
            TokenKind::LParen,
            TokenKind::Float(bits(3.5)),
            TokenKind::Symbol("*".to_string()),
            TokenKind::LParen,
        ])
        .unwrap(),
        List(vec![
            Symbol("*".to_string()),
            Float(bits(3.5)),
            List(vec![Symbol("+".to_string()), Float(bits(1.0)), Float(bits(2.0)),])
        ])
    )
}

#[test]
fn parser_leaves_the_closing_parenthesis() {
    let mut tokens = vec![
        TokenKind::Symbol("after".to_string()),
        TokenKind::RParen,
        TokenKind::Symbol("x".to_string()),
        TokenKind::LParen,
    ];
    let form = parse(&mut tokens).unwrap();
    assert_eq!(form, List(vec![Symbol("x".to_string())]));
    assert_eq!(tokens, vec![TokenKind::Symbol("after".to_string()), TokenKind::RParen]);
}

#[test]
fn parser_reads_to_the_end_without_a_closing_parenthesis() {
    let mut tokens = vec![TokenKind::Float(bits(1.0)), TokenKind::Symbol("x".to_string()), TokenKind::LParen];
    let form = parse(&mut tokens).unwrap();
    assert_eq!(form, List(vec![Symbol("x".to_string()), Float(bits(1.0))]));
    assert!(tokens.is_empty());

    let mut single = vec![TokenKind::LParen];
    assert_eq!(parse(&mut single).unwrap(), List(vec![]));
    assert!(single.is_empty());
}

#[test]
fn parser_opens_on_any_token() {
    let mut tokens = vec![TokenKind::RParen, TokenKind::Symbol("y".to_string()), TokenKind::Symbol("x".to_string())];
    assert_eq!(parse(&mut tokens).unwrap(), List(vec![Symbol("y".to_string())]));
    assert_eq!(tokens, vec![TokenKind::RParen]);
}

#[test]
fn parser_nests() {
    let mut tokens = vec![
        TokenKind::RParen,
        TokenKind::Symbol("c".to_string()),
        TokenKind::RParen,
        TokenKind::RParen,
        TokenKind::Symbol("b".to_string()),
        TokenKind::LParen,
        TokenKind::LParen,
        TokenKind::Symbol("a".to_string()),
        TokenKind::LParen,
    ];
    let form: Object = parse(&mut tokens).unwrap();
    assert_eq!(
        form,
        List(vec![
            Symbol("a".to_string()),
            List(vec![List(vec![Symbol("b".to_string())])]),
            Symbol("c".to_string()),
        ])
    );
    assert_eq!(tokens, vec![TokenKind::RParen]);
}
