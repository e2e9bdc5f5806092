use hdc::tokenizer::{Tokenizer, TokenizationErrorKind};
use hdc::tokens::{Operator, Token, TokenKind};

fn kinds(src: &str) -> Vec<TokenKind> {
    let mut v = Vec::new();
    let mut q = Tokenizer::new(src.to_string()).gen().expect("tokenizes");
    while let Some(t) = q.pop_front() {
        v.push(t.kind);
    }
    v
}

#[test]
fn int_run_is_kept_verbatim() {
    assert_eq!(kinds("123"), vec![TokenKind::IntLit("123".to_string())]);
    assert_eq!(kinds("0"), vec![TokenKind::IntLit("0".to_string())]);
}

#[test]
fn float_run_is_kept_verbatim() {
    assert_eq!(kinds("1.5"), vec![TokenKind::FloatLit("1.5".to_string())]);
    assert_eq!(kinds("10."), vec![TokenKind::FloatLit("10.".to_string())]);
}

#[test]
fn two_dots_fail_invalid_digit_after_full_run() {
    let err = Tokenizer::new("1.2.3".to_string()).gen().unwrap_err();
    match err.kind {
        TokenizationErrorKind::InvalidDigit(s) => assert_eq!(s, "1.2.3"),
        other => panic!("expected InvalidDigit, got {other:?}"),
    }
}

#[test]
fn unexpected_char_is_fatal() {
    let err = Tokenizer::new("let @".to_string()).gen().unwrap_err();
    match err.kind {
        TokenizationErrorKind::UnexpectedChar(c) => assert_eq!(c, '@'),
        other => panic!("expected UnexpectedChar, got {other:?}"),
    }
}

#[test]
fn keywords_and_identifiers() {
    assert_eq!(
        kinds("let func letx"),
        vec![
            TokenKind::Let,
            TokenKind::Func,
            TokenKind::Identifier("letx".to_string()),
        ]
    );
}

#[test]
fn punctuation_and_operators() {
    assert_eq!(
        kinds("(){};:=+-*/"),
        vec![
            TokenKind::OpenParen,
            TokenKind::CloseParen,
            TokenKind::OpenBrace,
            TokenKind::CloseBrace,
            TokenKind::SemiColon,
            TokenKind::Colon,
            TokenKind::Operator(Operator::Eq),
            TokenKind::Operator(Operator::Plus),
            TokenKind::Operator(Operator::Minus),
            TokenKind::Operator(Operator::Star),
            TokenKind::Operator(Operator::Bar),
        ]
    );
}

#[test]
fn empty_input_gives_no_tokens() {
    assert_eq!(kinds(""), Vec::<TokenKind>::new());
}

#[test]
fn run_at_end_of_input_is_accepted() {
    // the end of the buffer terminates a run like any non-continuing character
    assert_eq!(kinds("abc"), vec![TokenKind::Identifier("abc".to_string())]);
    assert_eq!(kinds("42"), vec![TokenKind::IntLit("42".to_string())]);
}

#[test]
fn newline_advances_line_and_resets_column() {
    let mut q = Tokenizer::new("a\nb".to_string()).gen().expect("tokenizes");
    let a: Token = q.pop_front().unwrap();
    let b: Token = q.pop_front().unwrap();
    assert_eq!(a.line, 1);
    assert_eq!(b.line, 2);
    assert_eq!(b.column, 0);
}

#[test]
fn round_trip_reconstructs_non_whitespace_text() {
    // concatenating the tokens' source texts gives the source without spaces
    let src = "let x = 12 + 3.5;\nfunc f(a: int32): int32 = a;";
    let mut q = Tokenizer::new(src.to_string()).gen().expect("tokenizes");
    let mut rebuilt = String::new();
    while let Some(t) = q.pop_front() {
        match t.kind {
            TokenKind::Let => rebuilt.push_str("let"),
            TokenKind::Func => rebuilt.push_str("func"),
            TokenKind::Identifier(s) | TokenKind::IntLit(s) | TokenKind::FloatLit(s) => {
                rebuilt.push_str(&s)
            }
            TokenKind::OpenParen => rebuilt.push('('),
            TokenKind::CloseParen => rebuilt.push(')'),
            TokenKind::OpenBrace => rebuilt.push('{'),
            TokenKind::CloseBrace => rebuilt.push('}'),
            TokenKind::SemiColon => rebuilt.push(';'),
            TokenKind::Colon => rebuilt.push(':'),
            TokenKind::Operator(Operator::Eq) => rebuilt.push('='),
            TokenKind::Operator(Operator::Plus) => rebuilt.push('+'),
            TokenKind::Operator(Operator::Minus) => rebuilt.push('-'),
            TokenKind::Operator(Operator::Star) => rebuilt.push('*'),
            TokenKind::Operator(Operator::Bar) => rebuilt.push('/'),
            TokenKind::Eof => {}
        }
    }
    let expected: String = src.chars().filter(|c| !c.is_whitespace()).collect();
    assert_eq!(rebuilt, expected);
}
