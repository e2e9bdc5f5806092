use hdc::analysis::{SemanticError, SemanticType};
use hdc::ast::Expression;
use hdc::codegen::{
    CodeGenType, CodeGenerator, CompilationError, IrBasicType, IrInst, IrValue, LitParseError,
};

#[test]
fn let_then_read_compiles_to_constant_one() {
    let mut g = CodeGenerator::new();
    let r = g.compile_source("let x = 1; x;".to_string()).expect("compiles");
    // the module holds the slot, the stored constant 1, and the read back
    let insts = g.instructions();
    assert_eq!(insts.len(), 3);
    assert!(matches!(&insts[0], IrInst::Alloca { .. }));
    match &insts[1] {
        IrInst::Store { slot, value } => {
            assert_eq!(*slot, 0);
            assert!(matches!(value, IrValue::IntConst(1)));
        }
        other => panic!("expected a store, got {other:?}"),
    }
    assert!(matches!(&insts[2], IrInst::Load { slot: 0 }));
    assert!(matches!(r, Some(IrValue::Inst(2))));
}

#[test]
fn mixed_addition_fails_in_the_analyzer() {
    let mut g = CodeGenerator::new();
    let err = g.compile_source("let x = 1; let y = 2.0; x + y;".to_string()).unwrap_err();
    match err {
        CompilationError::TypeError(SemanticError::InvalidBinExpr { lhs_type, rhs_type }) => {
            assert!(lhs_type.same_type(&SemanticType::Int32));
            assert!(rhs_type.same_type(&SemanticType::Float32));
        }
        other => panic!("expected InvalidBinExpr, got {other:?}"),
    }
}

#[test]
fn arithmetic_selects_instructions_by_type() {
    let mut g = CodeGenerator::new();
    g.compile_source("1 + 2; 3.0 * 4.0; 5 / 6; 7.5 - 1.5;".to_string()).expect("compiles");
    let insts = g.instructions();
    assert!(matches!(&insts[0], IrInst::IntAdd { .. }));
    assert!(matches!(&insts[1], IrInst::FloatMul { .. }));
    assert!(matches!(&insts[2], IrInst::IntDiv { .. }));
    assert!(matches!(&insts[3], IrInst::FloatSub { .. }));
}

#[test]
fn negation_matches_the_value_kind() {
    let mut g = CodeGenerator::new();
    g.compile_source("-1; -2.5;".to_string()).expect("compiles");
    let insts = g.instructions();
    assert!(matches!(&insts[0], IrInst::IntNeg { value: IrValue::IntConst(1) }));
    assert!(matches!(&insts[1], IrInst::FloatNeg { value: IrValue::FloatConst(_) }));
}

#[test]
fn double_negation_collapses_without_instruction() {
    let mut g = CodeGenerator::new();
    let r = g.compile_source("--7;".to_string()).expect("compiles");
    assert_eq!(g.instructions().len(), 0);
    assert!(matches!(r, Some(IrValue::IntConst(7))));
}

#[test]
fn negating_a_void_value_is_refused() {
    let mut g = CodeGenerator::new();
    let err = g.compile_source("-{};".to_string()).unwrap_err();
    assert!(matches!(err, CompilationError::InvalidNegation(_)));
}

#[test]
fn function_declaration_emits_entry_and_return() {
    let mut g = CodeGenerator::new();
    g.compile_source("func f(a: int32): int32 = 1;".to_string()).expect("compiles");
    let insts = g.instructions();
    match &insts[0] {
        IrInst::FunctionEntry { name, ftype } => {
            assert_eq!(name, "f");
            assert_eq!(ftype.params.len(), 1);
            assert!(matches!(ftype.params[0], IrBasicType::I32));
            assert!(matches!(ftype.ret, Some(IrBasicType::I32)));
        }
        other => panic!("expected a function entry, got {other:?}"),
    }
    match &insts[1] {
        IrInst::Return { value } => assert!(matches!(value, Some(IrValue::IntConst(1)))),
        other => panic!("expected a return, got {other:?}"),
    }
}

#[test]
fn undeclared_name_fails_at_the_ir_level() {
    let mut g = CodeGenerator::new();
    let err = g.compile_ast(&Expression::Identifier("y".to_string())).unwrap_err();
    match err {
        CompilationError::UndeclaredVariable(name) => assert_eq!(name, "y"),
        other => panic!("expected UndeclaredVariable, got {other:?}"),
    }
}

#[test]
fn malformed_int_literal_fails_lit_parse() {
    let mut g = CodeGenerator::new();
    let err = g
        .compile_ast(&Expression::IntLit("99999999999999999999999999".to_string()))
        .unwrap_err();
    assert!(matches!(
        err,
        CompilationError::LitParseError(LitParseError::Int(_))
    ));
    let err = g.compile_ast(&Expression::FloatLit("1.2.3".to_string())).unwrap_err();
    assert!(matches!(
        err,
        CompilationError::LitParseError(LitParseError::Float(_))
    ));
}

#[test]
fn void_initializer_rolls_back_the_type_but_keeps_the_slot() {
    // the type-table entry is removed again, the storage binding stays: a
    // later read of the name still lowers through the slot
    let mut g = CodeGenerator::new();
    let r = g.compile_source("let x = { }; x;".to_string()).expect("compiles");
    let insts = g.instructions();
    assert!(matches!(&insts[0], IrInst::Alloca { .. }));
    assert!(matches!(&insts[1], IrInst::Load { slot: 0 }));
    assert!(matches!(r, Some(IrValue::Inst(1))));
}

#[test]
fn rolled_back_name_still_blocks_a_function_at_the_ir_level() {
    // the asymmetry of the rollback: the analyzer forgot the name, the IR
    // binding table did not, so the declaration fails `InvalidRedeclare`
    let mut g = CodeGenerator::new();
    let err = g.compile_source("let f = { }; func f(): int32 { 1; }".to_string()).unwrap_err();
    match err {
        CompilationError::InvalidRedeclare(name) => assert_eq!(name, "f"),
        other => panic!("expected InvalidRedeclare, got {other:?}"),
    }
}

#[test]
fn function_types_lower_with_void_params_dropped() {
    let g = CodeGenerator::new();
    let stype = SemanticType::FnType {
        params: vec![SemanticType::Void, SemanticType::Int32, SemanticType::Float32],
        rtype: Box::new(SemanticType::Void),
    };
    match g.type_from_stype(&stype) {
        Some(CodeGenType::Fn(f)) => {
            assert_eq!(f.params.len(), 2);
            assert!(matches!(f.params[0], IrBasicType::I32));
            assert!(matches!(f.params[1], IrBasicType::F32));
            assert!(f.ret.is_none());
        }
        other => panic!("expected a function signature, got {other:?}"),
    }
    assert!(g.type_from_stype(&SemanticType::Void).is_none());
}

#[test]
fn tokenization_and_parsing_errors_surface() {
    let mut g = CodeGenerator::new();
    assert!(matches!(
        g.compile_source("let x = 1.2.3;".to_string()).unwrap_err(),
        CompilationError::Tokenization(_)
    ));
    let mut g = CodeGenerator::new();
    match g.compile_source("let 5 = 5;".to_string()).unwrap_err() {
        CompilationError::Parsing(_, backtrace) => assert!(backtrace.len() > 0),
        other => panic!("expected a parsing error, got {other:?}"),
    }
}

#[test]
fn block_value_is_its_last_element() {
    let mut g = CodeGenerator::new();
    let r = g.compile_source("{ 1; 2.5 };".to_string()).expect("compiles");
    assert!(matches!(r, Some(IrValue::FloatConst(_))));
}
