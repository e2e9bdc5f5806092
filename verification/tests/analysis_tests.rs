use hdc::analysis::{SemanticAnalayzer, SemanticError, SemanticType};
use hdc::ast::Expression;
use hdc::parser::Parser;
use hdc::tokenizer::Tokenizer;

fn parse_items(src: &str) -> Vec<Expression> {
    let mut tokens = Tokenizer::new(src.to_string()).gen().expect("tokenizes");
    let mut parser = Parser::new();
    match parser.parse_tokens(&mut tokens).expect("parses") {
        Expression::Program(es) => es,
        other => panic!("expected a program, got {other:?}"),
    }
}

#[test]
fn literals_type_as_int32_and_float32() {
    let mut a = SemanticAnalayzer::new();
    let t = a.analyze_expr(&Expression::IntLit("1".to_string())).expect("types");
    assert!(t.same_type(&SemanticType::Int32));
    let t = a.analyze_expr(&Expression::FloatLit("2.0".to_string())).expect("types");
    assert!(t.same_type(&SemanticType::Float32));
}

#[test]
fn let_binds_and_identifier_reads_back() {
    let mut a = SemanticAnalayzer::new();
    for item in parse_items("let x = 1; x;") {
        let t = a.analyze_expr(&item).expect("types");
        assert!(t.same_type(&SemanticType::Int32));
    }
}

#[test]
fn mixed_operands_fail_invalid_bin_expr() {
    let mut a = SemanticAnalayzer::new();
    let items = parse_items("let x = 1; let y = 2.0; x + y;");
    a.analyze_expr(&items[0]).expect("types");
    a.analyze_expr(&items[1]).expect("types");
    match a.analyze_expr(&items[2]).unwrap_err() {
        SemanticError::InvalidBinExpr { lhs_type, rhs_type } => {
            assert!(lhs_type.same_type(&SemanticType::Int32));
            assert!(rhs_type.same_type(&SemanticType::Float32));
        }
        other => panic!("expected InvalidBinExpr, got {other:?}"),
    }
}

#[test]
fn function_declaration_gets_function_type() {
    let mut a = SemanticAnalayzer::new();
    let items = parse_items("func f(a: int32): int32 = a;");
    let t = a.analyze_expr(&items[0]).expect("types");
    let expected = SemanticType::FnType {
        params: vec![SemanticType::Int32],
        rtype: Box::new(SemanticType::Int32),
    };
    assert!(t.same_type(&expected));
}

#[test]
fn second_declaration_of_same_function_fails() {
    let mut a = SemanticAnalayzer::new();
    let items = parse_items("func f(a: int32): int32 = a; func f(): int32 { 1; }");
    a.analyze_expr(&items[0]).expect("types");
    match a.analyze_expr(&items[1]).unwrap_err() {
        SemanticError::FunctionRedeclare(name) => assert_eq!(name, "f"),
        other => panic!("expected FunctionRedeclare, got {other:?}"),
    }
}

#[test]
fn empty_block_types_as_int32() {
    let mut a = SemanticAnalayzer::new();
    let items = parse_items("func g(): int32 { }");
    let t = a.analyze_expr(&items[0]).expect("types");
    let expected = SemanticType::FnType {
        params: vec![],
        rtype: Box::new(SemanticType::Int32),
    };
    assert!(t.same_type(&expected));
}

#[test]
fn empty_block_against_void_return_fails() {
    let mut a = SemanticAnalayzer::new();
    let items = parse_items("func g(): void { }");
    match a.analyze_expr(&items[0]).unwrap_err() {
        SemanticError::InvalidFnType { return_type, block_type } => {
            assert!(return_type.same_type(&SemanticType::Void));
            assert!(block_type.same_type(&SemanticType::Int32));
        }
        other => panic!("expected InvalidFnType, got {other:?}"),
    }
}

#[test]
fn undeclared_variable_is_reported() {
    let mut a = SemanticAnalayzer::new();
    match a.analyze_expr(&Expression::Identifier("nope".to_string())).unwrap_err() {
        SemanticError::UndeclaredVariable(name) => assert_eq!(name, "nope"),
        other => panic!("expected UndeclaredVariable, got {other:?}"),
    }
}

#[test]
fn unrecognized_type_name_is_reported() {
    match SemanticAnalayzer::get_type(Some("quux")).unwrap_err() {
        SemanticError::UnrecognizedType(name) => assert_eq!(name, "quux"),
        other => panic!("expected UnrecognizedType, got {other:?}"),
    }
    assert!(SemanticAnalayzer::get_type(None).unwrap().same_type(&SemanticType::Void));
    assert!(SemanticAnalayzer::get_type(Some("int32")).unwrap().same_type(&SemanticType::Int32));
    assert!(SemanticAnalayzer::get_type(Some("f32")).unwrap().same_type(&SemanticType::Float32));
    assert!(SemanticAnalayzer::get_type(Some("void")).unwrap().same_type(&SemanticType::Void));
}

#[test]
fn program_node_is_never_analyzable() {
    let mut a = SemanticAnalayzer::new();
    match a.analyze_expr(&Expression::Program(vec![])).unwrap_err() {
        SemanticError::ProgramAnalysis => {}
        other => panic!("expected ProgramAnalysis, got {other:?}"),
    }
}

#[test]
fn let_overwrites_prior_binding() {
    let mut a = SemanticAnalayzer::new();
    let items = parse_items("let x = 1; let x = 2.0; x;");
    a.analyze_expr(&items[0]).expect("types");
    a.analyze_expr(&items[1]).expect("types");
    let t = a.analyze_expr(&items[2]).expect("types");
    assert!(t.same_type(&SemanticType::Float32));
}

#[test]
fn negation_keeps_the_inner_type() {
    let mut a = SemanticAnalayzer::new();
    let items = parse_items("-2.5;");
    let t = a.analyze_expr(&items[0]).expect("types");
    assert!(t.same_type(&SemanticType::Float32));
}
