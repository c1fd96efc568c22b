use mest::lexer::{int_literals_fit, tokenize};
use mest::token::Token;

#[test]
fn lex_inline() {
    let (tokens, errors) = tokenize("1 + 2");
    assert!(errors.is_empty());
    let kinds: Vec<Token> = tokens.iter().map(|(t, _)| t.clone()).collect();
    assert_eq!(kinds, vec![Token::Int(1), Token::Plus, Token::Int(2)]);
    assert_eq!(format!("{:?}", tokens[0].0), "Int(1)");
    assert_eq!(format!("{:?}", tokens[1].0), "Plus");
    assert_eq!(format!("{:?}", tokens[2].0), "Int(2)");
    assert_eq!(tokens[0].0.to_text(), "1");
    assert_eq!(tokens[1].0.to_text(), "+");
}

#[test]
fn lex_spans_are_byte_offsets() {
    let (tokens, errors) = tokenize("let x = 10 in x");
    assert!(errors.is_empty());
    let spans: Vec<(usize, usize)> = tokens.iter().map(|(_, s)| (s.start, s.end)).collect();
    assert_eq!(spans, vec![(0, 3), (4, 5), (6, 7), (8, 10), (11, 13), (14, 15)]);
    assert_eq!(tokens[0].0, Token::Let);
    assert_eq!(tokens[1].0, Token::Ident("x".to_string()));
    assert_eq!(tokens[3].0, Token::Int(10));
    assert_eq!(tokens[4].0, Token::In);
}

#[test]
fn lex_unexpected_character() {
    let (tokens, errors) = tokenize("1 @ 2");
    assert_eq!(tokens.len(), 2);
    assert_eq!(errors.len(), 1);
    assert_eq!(errors[0].span, 2..3);
    assert_eq!(errors[0].message.as_deref(), Some("unexpected character `@`"));
}

#[test]
fn lex_multibyte_offsets() {
    let (tokens, errors) = tokenize("é x");
    assert_eq!(errors.len(), 1);
    assert_eq!(errors[0].span, 0..2);
    assert_eq!(tokens.len(), 1);
    assert_eq!(tokens[0].1, 3..4);
}

#[test]
fn lex_operators_and_floats() {
    let (tokens, errors) = tokenize("a <= 1.5 && b != 2 => |x|");
    assert!(errors.is_empty());
    let kinds: Vec<Token> = tokens.iter().map(|(t, _)| t.clone()).collect();
    assert_eq!(
        kinds,
        vec![
            Token::Ident("a".to_string()),
            Token::LtEq,
            Token::Float("1.5".to_string()),
            Token::AndAnd,
            Token::Ident("b".to_string()),
            Token::BangEq,
            Token::Int(2),
            Token::StrongArrow,
            Token::Pipe,
            Token::Ident("x".to_string()),
            Token::Pipe,
        ]
    );
}

#[test]
fn lex_int_literal_bounds() {
    assert!(int_literals_fit("9223372036854775807"));
    assert!(!int_literals_fit("9223372036854775808"));
    assert!(int_literals_fit("1 + 2"));
}

#[test]
fn float_literals_are_written_as_numbers() {
    let (tokens, errors) = tokenize("1.50 007.0 0.25 10.010");
    assert!(errors.is_empty());
    let texts: Vec<Token> = tokens.into_iter().map(|(t, _)| t).collect();
    assert_eq!(
        texts,
        vec![
            Token::Float("1.5".to_string()),
            Token::Float("7".to_string()),
            Token::Float("0.25".to_string()),
            Token::Float("10.01".to_string()),
        ]
    );
}
