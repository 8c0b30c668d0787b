use microlisp::lexer::TokenKind::{Float, LParen, RParen, Symbol};
use microlisp::lexer::{is_space_char, lex, lex_single_token, tokenize};

#[test]
fn test_tokenizer() {
    assert_eq!(
        tokenize("(+ (- 2 4) (* 7 5))"),
        ["(", "+", "(", "-", "2", "4", ")", "(", "*", "7", "5", ")", ")"],
    )
}

#[test]
fn tokenizer_edge_cases() {
    assert_eq!(tokenize(""), Vec::<String>::new());
    assert_eq!(tokenize("   \n\t "), Vec::<String>::new());
    assert_eq!(tokenize("abc"), ["abc"]);
    assert_eq!(tokenize("()"), ["(", ")"]);
    assert_eq!(tokenize("(define x\n\t3.5)rest"), ["(", "define", "x", "3.5", ")", "rest"]);
    assert_eq!(tokenize("a\u{a0}b\u{3000}c\u{200b}d"), ["a", "b", "c\u{200b}d"]);
    assert_eq!(tokenize("  x!=y  (("), ["x!=y", "(", "("]);
    assert_eq!(tokenize("\u{3bb}x(\u{e9})"), ["\u{3bb}x", "(", "\u{e9}", ")"]);
}

#[test]
fn tokenizer_agrees_with_split_whitespace() {
    for text in ["(+ 1 2)", " a  b\tc\r\nd ", "(if (< a b)\u{2003}a\u{85}b)", "x\u{1680}y\u{feff}z"] {
        let spaced = text.replace('(', " ( ").replace(')', " ) ");
        let expected: Vec<String> = spaced.split_whitespace().map(|x| x.to_string()).collect();
        assert_eq!(tokenize(text), expected);
    }
}

#[test]
fn white_space_agrees_with_the_standard_library() {
    let mut n: u32 = 0;
    while n <= 0x11000 {
        if let Some(c) = char::from_u32(n) {
            assert_eq!(is_space_char(c), c.is_whitespace(), "U+{n:04X}");
        }
        n += 1;
    }
}

fn read_numbers(tokens: &[String]) -> Vec<Option<u64>> {
    tokens.iter().map(|t| t.parse::<f64>().ok().map(f64::to_bits)).collect()
}

#[test]
fn test_lexer() {
    let tokens = ["(", "+", "2", "3.4", ")"].map(|i| i.to_string());
    let numbers = read_numbers(&tokens);
    assert_eq!(
        lex(&tokens, &numbers),
        [
            LParen,
            Symbol("+".to_string()),
            Float(2.0f64.to_bits()),
            Float(3.4f64.to_bits()),
            RParen,
        ]
    )
}

#[test]
fn lexer_prefers_parentheses_and_numbers() {
    assert_eq!(lex_single_token("(", None), LParen);
    assert_eq!(lex_single_token(")", None), RParen);
    assert_eq!(lex_single_token("(", Some(7)), LParen);
    assert_eq!(lex_single_token(")", Some(7)), RParen);
    assert_eq!(lex_single_token("1e3", Some(1000.0f64.to_bits())), Float(1000.0f64.to_bits()));
    assert_eq!(lex_single_token("define", None), Symbol("define".to_string()));
    assert_eq!(lex_single_token("", None), Symbol("".to_string()));
    assert_eq!(lex_single_token("((", None), Symbol("((".to_string()));
}

#[test]
fn lexer_without_numbers_reads_symbols() {
    let tokens = ["(", "2", "x"].map(|i| i.to_string());
    assert_eq!(
        lex(&tokens, &[]),
        [LParen, Symbol("2".to_string()), Symbol("x".to_string())]
    );
    assert_eq!(
        lex(&tokens, &[None, Some(2.0f64.to_bits())]),
        [LParen, Float(2.0f64.to_bits()), Symbol("x".to_string())]
    );
    assert_eq!(lex(&[], &[Some(1)]), []);
}
