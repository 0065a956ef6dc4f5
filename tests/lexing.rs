use exprlang::literal::{Literal, Num};
use exprlang::token::{tokenify, LexError, LexErrorKind, Token};

fn num(s: &str) -> Token {
    Token::Literal(Literal::Number(Num::Lit(s.to_string())))
}

fn ident(s: &str) -> Token {
    Token::Identifier(s.to_string())
}

#[test]
fn tokens_in_reading_order() {
    let toks = tokenify("1 + 2.5 * abc".to_string()).unwrap();
    assert_eq!(toks, vec![num("1"), Token::Add, num("2.5"), Token::Multiply, ident("abc")]);
}

#[test]
fn definition_tokens() {
    let toks = tokenify("fn f a_b => a_b / 2 % 3".to_string()).unwrap();
    assert_eq!(
        toks,
        vec![
            Token::Fn,
            ident("f"),
            ident("a_b"),
            Token::FnAssign,
            ident("a_b"),
            Token::Divide,
            num("2"),
            Token::Remainder,
            num("3")
        ]
    );
}

#[test]
fn quoted_text_and_brackets() {
    let toks = tokenify("(\"hi there\") - ( )".to_string()).unwrap();
    assert_eq!(
        toks,
        vec![
            Token::LeftBracket,
            Token::Literal(Literal::Text("hi there".to_string())),
            Token::RightBracket,
            Token::Hyphen,
            Token::Literal(Literal::Unit)
        ]
    );
}

#[test]
fn lone_equals_and_whitespace() {
    let toks = tokenify("\ta =\n b ".to_string()).unwrap();
    assert_eq!(toks, vec![ident("a"), Token::Equals, ident("b")]);
    assert_eq!(tokenify("".to_string()).unwrap(), vec![]);
}

#[test]
fn malformed_numbers() {
    assert_eq!(
        tokenify("1.2.3 + 1".to_string()),
        Err(LexError { kind: LexErrorKind::MalformedNumber, offset: 5 })
    );
    assert_eq!(
        tokenify("2 + .".to_string()),
        Err(LexError { kind: LexErrorKind::MalformedNumber, offset: 5 })
    );
    assert_eq!(tokenify(".5 + 1.".to_string()).unwrap(), vec![num(".5"), Token::Add, num("1.")]);
}

#[test]
fn unterminated_text() {
    assert_eq!(
        tokenify("\"abc".to_string()),
        Err(LexError { kind: LexErrorKind::UnterminatedString, offset: 4 })
    );
}

#[test]
fn stray_characters() {
    assert_eq!(
        tokenify("a > b".to_string()),
        Err(LexError { kind: LexErrorKind::MalformedArrow, offset: 2 })
    );
    assert_eq!(
        tokenify("1 # 2".to_string()),
        Err(LexError { kind: LexErrorKind::UnexpectedCharacter, offset: 2 })
    );
}
