use hdc::ast::Expression;
use hdc::parser::{Parser, ParsingError};
use hdc::tokenizer::Tokenizer;
use hdc::tokens::{Operator, TokenKind};

fn parse_src(src: &str) -> Result<Expression, ParsingError> {
    let mut tokens = Tokenizer::new(src.to_string()).gen().expect("tokenizes");
    let mut parser = Parser::new();
    parser.parse_tokens(&mut tokens)
}

fn program_items(e: Expression) -> Vec<Expression> {
    match e {
        Expression::Program(es) => es,
        other => panic!("expected a program, got {other:?}"),
    }
}

#[test]
fn let_statement_parses() {
    let items = program_items(parse_src("let x = 1;").expect("parses"));
    assert_eq!(items.len(), 1);
    match &items[0] {
        Expression::LetDecl { varname, expr, .. } => {
            assert_eq!(varname, "x");
            match &**expr {
                Expression::IntLit(s) => assert_eq!(s, "1"),
                other => panic!("expected int literal, got {other:?}"),
            }
        }
        other => panic!("expected let declaration, got {other:?}"),
    }
}

#[test]
fn wrong_token_in_let_keeps_backtrace() {
    let mut tokens = Tokenizer::new("let 5 = 5;".to_string()).gen().expect("tokenizes");
    let mut parser = Parser::new();
    let err = parser.parse_tokens(&mut tokens).unwrap_err();
    match err {
        ParsingError::WrongToken { expected, received, .. } => {
            assert_eq!(expected, TokenKind::Identifier(String::new()));
            assert_eq!(received, TokenKind::IntLit("5".to_string()));
        }
        other => panic!("expected WrongToken, got {other:?}"),
    }
    // the backtrace of the failing statement is kept, ending in the steps of
    // the let-statement parse
    assert!(parser.backtrace.len() > 0);
    assert!(parser.backtrace.iter().any(|s| s.fname == "parse_let_expr"));
}

#[test]
fn precedence_binds_multiplication_tighter() {
    let items = program_items(parse_src("1 + 2 * 3;").expect("parses"));
    match &items[0] {
        Expression::BinExpr { lhs, rhs, op } => {
            assert_eq!(*op, Operator::Plus);
            assert!(matches!(&**lhs, Expression::IntLit(_)));
            match &**rhs {
                Expression::BinExpr { op, .. } => assert_eq!(*op, Operator::Star),
                other => panic!("expected nested product, got {other:?}"),
            }
        }
        other => panic!("expected sum, got {other:?}"),
    }
}

#[test]
fn arrow_function_declaration() {
    let items = program_items(parse_src("func f(a: int32): int32 = a;").expect("parses"));
    match &items[0] {
        Expression::FuncDecl { identifier, params, rtype, block } => {
            assert_eq!(identifier, "f");
            assert_eq!(params.len(), 1);
            assert_eq!(params[0].name, "a");
            assert_eq!(params[0].kind, "int32");
            assert_eq!(rtype.as_deref(), Some("int32"));
            assert!(matches!(&**block, Expression::Identifier(_)));
        }
        other => panic!("expected function declaration, got {other:?}"),
    }
}

#[test]
fn block_function_needs_no_semicolon() {
    let items = program_items(parse_src("func g() { 1; } let y = 2;").expect("parses"));
    assert_eq!(items.len(), 2);
}

#[test]
fn empty_block_body_parses() {
    let items = program_items(parse_src("func g(): int32 { }").expect("parses"));
    match &items[0] {
        Expression::FuncDecl { block, .. } => match &**block {
            Expression::Block(es) => assert_eq!(es.len(), 0),
            other => panic!("expected block body, got {other:?}"),
        },
        other => panic!("expected function declaration, got {other:?}"),
    }
}

#[test]
fn non_block_body_without_arrow_is_refused() {
    let err = parse_src("func f(): int32 5;").unwrap_err();
    assert!(matches!(err, ParsingError::ExpectedBlock(_)));
}

#[test]
fn running_out_of_tokens_is_reported() {
    let err = parse_src("let x =").unwrap_err();
    assert!(matches!(err, ParsingError::EndedTokens));
}

#[test]
fn a_parser_is_single_use_while_tokens_remain() {
    let mut stale = Tokenizer::new("1;".to_string()).gen().expect("tokenizes");
    let mut parser = Parser::new();
    // a parser whose queue already holds tokens refuses a second parse
    parser.tokens.push_back(hdc::tokens::Token {
        line: 1,
        column: 0,
        kind: TokenKind::SemiColon,
    });
    let err = parser.parse_tokens(&mut stale).unwrap_err();
    assert!(matches!(err, ParsingError::InQueueParsing));
}

#[test]
fn parenthesized_grouping() {
    let items = program_items(parse_src("3 * (1 + 2);").expect("parses"));
    match &items[0] {
        Expression::BinExpr { op, rhs, .. } => {
            assert_eq!(*op, Operator::Star);
            assert!(matches!(&**rhs, Expression::BinExpr { .. }));
        }
        other => panic!("expected product, got {other:?}"),
    }
}

#[test]
fn unary_minus_and_double_negation_shape() {
    let items = program_items(parse_src("-1; --2;").expect("parses"));
    assert!(matches!(&items[0], Expression::Negative(_)));
    match &items[1] {
        Expression::Negative(inner) => assert!(matches!(&**inner, Expression::Negative(_))),
        other => panic!("expected nested negation, got {other:?}"),
    }
}

#[test]
fn semicolon_separated_parameters() {
    let items = program_items(parse_src("func h(a: int32; b: f32) { }").expect("parses"));
    match &items[0] {
        Expression::FuncDecl { params, .. } => {
            assert_eq!(params.len(), 2);
            assert_eq!(params[1].name, "b");
            assert_eq!(params[1].kind, "f32");
        }
        other => panic!("expected function declaration, got {other:?}"),
    }
}
