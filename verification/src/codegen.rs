//! Code generation: lowers AST nodes to typed IR values and instructions,
//! re-invoking the semantic analyzer node by node rather than consuming a
//! pre-annotated tree.
//!
//! The emitted module is modelled as a linear log of instructions: creating a
//! function appends an entry marker and positions emission there, so later
//! instructions belong to the most recently created function. `cg_expr` is
//! the mathematical description of generation; the generator's methods are
//! proved to follow it.

use std::collections::VecDeque;
use vstd::prelude::*;
use vstd::string::StrSliceExecFns;

use crate::analysis::{sa_binexpr, sa_expr, SemErrV, SemanticAnalayzer, SemanticError,
    SemanticType, STy, TypeTable, stypes_view};
use crate::ast::{exprs_view, ExprV, Expression, LetDeclKind};
use crate::chars::{digit_char, is_digit_char};
use crate::parser::{ParseStep, ParseStepV, Parser, ParsingError, PErrV};
use crate::table::SymbolTable;
use crate::tokenizer::{dot_count, spec_scan, TokErrV, TokenizationError, Tokenizer};
use crate::tokens::{tokens_view, Operator, Token, TokenV};

verus! {

broadcast use crate::ast::group_exprs_view;

/// A numeric literal whose raw text cannot be lowered to a constant.
#[derive(Debug)]
pub enum LitParseError {
    Int(String),
    Float(String),
}

/// Mathematical value of a `LitParseError`.
pub enum LitErrV {
    Int(Seq<char>),
    Float(Seq<char>),
}

impl View for LitParseError {
    type V = LitErrV;

    open spec fn view(&self) -> LitErrV {
        match self {
            LitParseError::Int(s) => LitErrV::Int(s@),
            LitParseError::Float(s) => LitErrV::Float(s@),
        }
    }
}

/// Any failure of the whole compilation, from tokenization to generation.
#[derive(Debug)]
pub enum CompilationError {
    Tokenization(TokenizationError),
    Parsing(ParsingError, VecDeque<ParseStep>),
    TypeError(SemanticError),
    LitParseError(LitParseError),
    UndeclaredVariable(String),
    InvalidNegation(Expression),
    InvalidRedeclare(String),
    TryingAssignVoid,
}

/// Mathematical value of a `CompilationError`.
#[verifier::ext_equal]
pub enum CompErrV {
    Tokenization(TokErrV),
    Parsing(PErrV, Seq<ParseStepV>),
    TypeError(SemErrV),
    LitParseError(LitErrV),
    UndeclaredVariable(Seq<char>),
    InvalidNegation(ExprV),
    InvalidRedeclare(Seq<char>),
    TryingAssignVoid,
}

impl View for CompilationError {
    type V = CompErrV;

    open spec fn view(&self) -> CompErrV {
        match self {
            CompilationError::Tokenization(e) => CompErrV::Tokenization(e@),
            CompilationError::Parsing(e, bt) => CompErrV::Parsing(
                e@,
                bt@.map_values(|s: ParseStep| s@),
            ),
            CompilationError::TypeError(e) => CompErrV::TypeError(e@),
            CompilationError::LitParseError(e) => CompErrV::LitParseError(e@),
            CompilationError::UndeclaredVariable(s) => CompErrV::UndeclaredVariable(s@),
            CompilationError::InvalidNegation(e) => CompErrV::InvalidNegation(e@),
            CompilationError::InvalidRedeclare(s) => CompErrV::InvalidRedeclare(s@),
            CompilationError::TryingAssignVoid => CompErrV::TryingAssignVoid,
        }
    }
}

/// A basic IR type: a 32-bit integer, a 32-bit float, or a pointer to a
/// function of some signature.
#[derive(Debug)]
pub enum IrBasicType {
    I32,
    F32,
    FnPtr(Box<IrFnType>),
}

/// An IR function signature; `None` as return collapses to void.
#[derive(Debug)]
pub struct IrFnType {
    pub params: Vec<IrBasicType>,
    pub ret: Option<IrBasicType>,
}

/// Mathematical value of an `IrBasicType`.
#[verifier::ext_equal]
pub enum IrBasicTypeV {
    I32,
    F32,
    FnPtr(Box<IrFnTypeV>),
}

/// Mathematical value of an `IrFnType`.
#[verifier::ext_equal]
pub struct IrFnTypeV {
    pub params: Seq<IrBasicTypeV>,
    pub ret: Option<IrBasicTypeV>,
}

pub open spec fn ir_basic_view(t: IrBasicType) -> IrBasicTypeV
    decreases t, 0int,
{
    match t {
        IrBasicType::I32 => IrBasicTypeV::I32,
        IrBasicType::F32 => IrBasicTypeV::F32,
        IrBasicType::FnPtr(f) => IrBasicTypeV::FnPtr(Box::new(ir_fn_view(*f))),
    }
}

pub open spec fn ir_fn_view(f: IrFnType) -> IrFnTypeV
    decreases f, 1int,
{
    IrFnTypeV {
        params: ir_basics_view(f.params@),
        ret: match f.ret {
            Some(t) => Some(ir_basic_view(t)),
            None => None,
        },
    }
}

pub open spec fn ir_basics_view(ts: Seq<IrBasicType>) -> Seq<IrBasicTypeV>
    decreases ts, ts.len(),
{
    if ts.len() == 0 {
        Seq::empty()
    } else {
        ir_basics_view(ts.drop_last()).push(ir_basic_view(ts.last()))
    }
}

impl View for IrBasicType {
    type V = IrBasicTypeV;

    open spec fn view(&self) -> IrBasicTypeV {
        ir_basic_view(*self)
    }
}

impl View for IrFnType {
    type V = IrFnTypeV;

    open spec fn view(&self) -> IrFnTypeV {
        ir_fn_view(*self)
    }
}

pub broadcast proof fn lemma_ir_basics_view_len(ts: Seq<IrBasicType>)
    ensures
        (#[trigger] ir_basics_view(ts)).len() == ts.len(),
    decreases ts.len(),
{
    if ts.len() > 0 {
        lemma_ir_basics_view_len(ts.drop_last());
    }
}

pub broadcast proof fn lemma_ir_basics_view_index(ts: Seq<IrBasicType>, i: int)
    requires
        0 <= i < ts.len(),
    ensures
        #[trigger] ir_basics_view(ts)[i] == ts[i]@,
    decreases ts.len(),
{
    lemma_ir_basics_view_len(ts);
    if ts.len() > 0 {
        if i == ts.len() - 1 {
            lemma_ir_basics_view_len(ts.drop_last());
        } else {
            lemma_ir_basics_view_index(ts.drop_last(), i);
        }
    }
}

/// The broadcast facts about `ir_basics_view`: its length and elements.
pub broadcast group group_ir_basics_view {
    lemma_ir_basics_view_len,
    lemma_ir_basics_view_index,
}

/// What a semantic type lowers to: a primitive type or a function signature.
#[derive(Debug)]
pub enum CodeGenType {
    Primitive(IrBasicType),
    Fn(IrFnType),
}

/// Mathematical value of a `CodeGenType`.
#[verifier::ext_equal]
pub enum CodeGenTypeV {
    Primitive(IrBasicTypeV),
    Fn(IrFnTypeV),
}

impl View for CodeGenType {
    type V = CodeGenTypeV;

    open spec fn view(&self) -> CodeGenTypeV {
        match self {
            CodeGenType::Primitive(t) => CodeGenTypeV::Primitive(ir_basic_view(*t)),
            CodeGenType::Fn(f) => CodeGenTypeV::Fn(ir_fn_view(*f)),
        }
    }
}

/// An IR value: a constant, the result of an instruction, or the address
/// held in a named slot's instruction.
#[derive(Debug)]
pub enum IrValue {
    /// An integer constant, as handed to the back end.
    IntConst(u64),
    /// A float constant, carried as its raw digits for the back end to read.
    FloatConst(String),
    /// The value produced by the instruction at this index of the log.
    Inst(usize),
    /// The address of the slot or function created by the instruction at
    /// this index of the log.
    Ptr(usize),
}

/// Mathematical value of an `IrValue`.
#[verifier::ext_equal]
pub enum IrValueV {
    IntConst(u64),
    FloatConst(Seq<char>),
    Inst(int),
    Ptr(int),
}

impl View for IrValue {
    type V = IrValueV;

    open spec fn view(&self) -> IrValueV {
        match self {
            IrValue::IntConst(v) => IrValueV::IntConst(*v),
            IrValue::FloatConst(s) => IrValueV::FloatConst(s@),
            IrValue::Inst(i) => IrValueV::Inst(*i as int),
            IrValue::Ptr(i) => IrValueV::Ptr(*i as int),
        }
    }
}

/// One emitted instruction of the module log.
#[derive(Debug)]
pub enum IrInst {
    /// A function was created with an entry block, and emission moved there.
    FunctionEntry { name: String, ftype: IrFnType },
    /// A typed stack slot.
    Alloca { name: String, ty: IrBasicType },
    /// Loads the current value of the slot at `slot`.
    Load { slot: usize },
    /// Stores `value` into the slot at `slot`.
    Store { slot: usize, value: IrValue },
    IntAdd { lhs: IrValue, rhs: IrValue },
    IntSub { lhs: IrValue, rhs: IrValue },
    IntMul { lhs: IrValue, rhs: IrValue },
    IntDiv { lhs: IrValue, rhs: IrValue },
    FloatAdd { lhs: IrValue, rhs: IrValue },
    FloatSub { lhs: IrValue, rhs: IrValue },
    FloatMul { lhs: IrValue, rhs: IrValue },
    FloatDiv { lhs: IrValue, rhs: IrValue },
    IntNeg { value: IrValue },
    FloatNeg { value: IrValue },
    Return { value: Option<IrValue> },
}

/// Mathematical value of an `IrInst`.
#[verifier::ext_equal]
pub enum IrInstV {
    FunctionEntry { name: Seq<char>, ftype: IrFnTypeV },
    Alloca { name: Seq<char>, ty: IrBasicTypeV },
    Load { slot: int },
    Store { slot: int, value: IrValueV },
    IntAdd { lhs: IrValueV, rhs: IrValueV },
    IntSub { lhs: IrValueV, rhs: IrValueV },
    IntMul { lhs: IrValueV, rhs: IrValueV },
    IntDiv { lhs: IrValueV, rhs: IrValueV },
    FloatAdd { lhs: IrValueV, rhs: IrValueV },
    FloatSub { lhs: IrValueV, rhs: IrValueV },
    FloatMul { lhs: IrValueV, rhs: IrValueV },
    FloatDiv { lhs: IrValueV, rhs: IrValueV },
    IntNeg { value: IrValueV },
    FloatNeg { value: IrValueV },
    Return { value: Option<IrValueV> },
}

impl View for IrInst {
    type V = IrInstV;

    open spec fn view(&self) -> IrInstV {
        match self {
            IrInst::FunctionEntry { name, ftype } => IrInstV::FunctionEntry {
                name: name@,
                ftype: ir_fn_view(*ftype),
            },
            IrInst::Alloca { name, ty } => IrInstV::Alloca {
                name: name@,
                ty: ir_basic_view(*ty),
            },
            IrInst::Load { slot } => IrInstV::Load { slot: *slot as int },
            IrInst::Store { slot, value } => IrInstV::Store { slot: *slot as int, value: value@ },
            IrInst::IntAdd { lhs, rhs } => IrInstV::IntAdd { lhs: lhs@, rhs: rhs@ },
            IrInst::IntSub { lhs, rhs } => IrInstV::IntSub { lhs: lhs@, rhs: rhs@ },
            IrInst::IntMul { lhs, rhs } => IrInstV::IntMul { lhs: lhs@, rhs: rhs@ },
            IrInst::IntDiv { lhs, rhs } => IrInstV::IntDiv { lhs: lhs@, rhs: rhs@ },
            IrInst::FloatAdd { lhs, rhs } => IrInstV::FloatAdd { lhs: lhs@, rhs: rhs@ },
            IrInst::FloatSub { lhs, rhs } => IrInstV::FloatSub { lhs: lhs@, rhs: rhs@ },
            IrInst::FloatMul { lhs, rhs } => IrInstV::FloatMul { lhs: lhs@, rhs: rhs@ },
            IrInst::FloatDiv { lhs, rhs } => IrInstV::FloatDiv { lhs: lhs@, rhs: rhs@ },
            IrInst::IntNeg { value } => IrInstV::IntNeg { value: value@ },
            IrInst::FloatNeg { value } => IrInstV::FloatNeg { value: value@ },
            IrInst::Return { value } => IrInstV::Return {
                value: match value {
                    Some(v) => Some(v@),
                    None => None,
                },
            },
        }
    }
}

/// The views of the instruction log.
pub open spec fn insts_view(is: Seq<IrInst>) -> Seq<IrInstV> {
    is.map_values(|i: IrInst| i@)
}

/// A storage handle: the index of the instruction that created the slot or
/// function a name is bound to.
#[derive(Debug)]
pub struct Slot {
    pub idx: usize,
}

impl View for Slot {
    type V = int;

    open spec fn view(&self) -> int {
        self.idx as int
    }
}

/// What a semantic type lowers to: primitives for the numeric types, `None`
/// for `Void`, and a function signature whose `Void` parameters are omitted
/// and whose function-typed parameters and results become pointers.
pub open spec fn map_stype(st: STy) -> Option<CodeGenTypeV>
    decreases st, 1int,
{
    match st {
        STy::Int32 => Some(CodeGenTypeV::Primitive(IrBasicTypeV::I32)),
        STy::Float32 => Some(CodeGenTypeV::Primitive(IrBasicTypeV::F32)),
        STy::Void => None,
        STy::FnType { params, rtype } => {
            let ps = map_params(params, 0);
            let ret = match map_stype(*rtype) {
                None => None,
                Some(CodeGenTypeV::Primitive(b)) => Some(b),
                Some(CodeGenTypeV::Fn(f)) => Some(IrBasicTypeV::FnPtr(Box::new(f))),
            };
            Some(CodeGenTypeV::Fn(IrFnTypeV { params: ps, ret }))
        },
    }
}

/// The lowered parameter list from `i` on: `Void` parameters are dropped,
/// function-typed ones become pointers.
pub open spec fn map_params(ps: Seq<STy>, i: int) -> Seq<IrBasicTypeV>
    decreases ps, ps.len() - i, 2int,
{
    if i < 0 || i >= ps.len() {
        Seq::empty()
    } else {
        let rest = map_params(ps, i + 1);
        match map_stype(ps[i]) {
            None => rest,
            Some(CodeGenTypeV::Primitive(b)) => seq![b] + rest,
            Some(CodeGenTypeV::Fn(f)) => seq![IrBasicTypeV::FnPtr(Box::new(f))] + rest,
        }
    }
}

/// The numeric value of a digit string.
pub open spec fn digits_val(s: Seq<char>) -> nat
    decreases s.len(),
{
    if s.len() == 0 {
        0
    } else {
        (digits_val(s.drop_last()) * 10 + (s.last() as u32 - 48)) as nat
    }
}

/// A valid integer literal: one or more digits.
pub open spec fn int_digits(s: Seq<char>) -> bool {
    s.len() > 0 && forall|i: int| 0 <= i < s.len() ==> is_digit_char(s[i])
}

/// A valid float literal for the generator: digits with at most one dot and
/// at least one digit.
pub open spec fn float_digits(s: Seq<char>) -> bool {
    &&& s.len() > 0
    &&& forall|i: int| 0 <= i < s.len() ==> (is_digit_char(s[i]) || s[i] == '.')
    &&& dot_count(s) <= 1
    &&& exists|i: int| 0 <= i < s.len() && is_digit_char(s[i])
}

/// The generator's state: the analyzer's type table, the IR binding table
/// from names to storage handles, and the emitted instruction log.
#[verifier::ext_equal]
pub struct CgSt {
    pub tbl: TypeTable,
    pub slots: Map<Seq<char>, int>,
    pub insts: Seq<IrInstV>,
}

/// The runtime kind of an IR value, as far as the log shows it.
#[derive(Debug, Clone, Copy, PartialEq, Eq, Structural)]
pub enum ValKind {
    Int,
    Float,
    Other,
}

/// What kind of runtime value `v` is under the log `insts`: constants carry
/// their kind; an instruction result has the kind its instruction produces;
/// a load has the kind of the slot it reads; addresses are neither numeric
/// kind.
pub open spec fn val_kind(insts: Seq<IrInstV>, v: IrValueV) -> ValKind {
    match v {
        IrValueV::IntConst(_) => ValKind::Int,
        IrValueV::FloatConst(_) => ValKind::Float,
        IrValueV::Ptr(_) => ValKind::Other,
        IrValueV::Inst(i) => if 0 <= i < insts.len() {
            match insts[i] {
                IrInstV::IntAdd { .. } => ValKind::Int,
                IrInstV::IntSub { .. } => ValKind::Int,
                IrInstV::IntMul { .. } => ValKind::Int,
                IrInstV::IntDiv { .. } => ValKind::Int,
                IrInstV::IntNeg { .. } => ValKind::Int,
                IrInstV::FloatAdd { .. } => ValKind::Float,
                IrInstV::FloatSub { .. } => ValKind::Float,
                IrInstV::FloatMul { .. } => ValKind::Float,
                IrInstV::FloatDiv { .. } => ValKind::Float,
                IrInstV::FloatNeg { .. } => ValKind::Float,
                IrInstV::Load { slot } => if 0 <= slot < insts.len() {
                    match insts[slot] {
                        IrInstV::Alloca { ty, .. } => match ty {
                            IrBasicTypeV::I32 => ValKind::Int,
                            IrBasicTypeV::F32 => ValKind::Float,
                            IrBasicTypeV::FnPtr(_) => ValKind::Other,
                        },
                        _ => ValKind::Other,
                    }
                } else {
                    ValKind::Other
                },
                _ => ValKind::Other,
            }
        } else {
            ValKind::Other
        },
    }
}

/// The lowered alloca type of a slot of the given lowered type.
pub open spec fn slot_ty(cgt: CodeGenTypeV) -> IrBasicTypeV {
    match cgt {
        CodeGenTypeV::Primitive(b) => b,
        CodeGenTypeV::Fn(f) => IrBasicTypeV::FnPtr(Box::new(f)),
    }
}

/// One generation step: the optional value a node compiles to — `None`
/// denotes a void result — and the state it leaves. The analyzer is invoked
/// node by node, exactly as generation reaches it.
pub open spec fn cg_expr(st: CgSt, e: ExprV) -> (Result<Option<IrValueV>, CompErrV>, CgSt)
    decreases e, 0int,
{
    match e {
        ExprV::IntLit(s) => if int_digits(s) && digits_val(s) <= u64::MAX {
            (Ok(Some(IrValueV::IntConst(digits_val(s) as u64))), st)
        } else {
            (Err(CompErrV::LitParseError(LitErrV::Int(s))), st)
        },
        ExprV::FloatLit(s) => if float_digits(s) {
            (Ok(Some(IrValueV::FloatConst(s))), st)
        } else {
            (Err(CompErrV::LitParseError(LitErrV::Float(s))), st)
        },
        ExprV::Identifier(s) => if st.slots.dom().contains(s) {
            (
                Ok(Some(IrValueV::Inst(st.insts.len() as int))),
                CgSt { insts: st.insts.push(IrInstV::Load { slot: st.slots[s] }), ..st },
            )
        } else {
            (Err(CompErrV::UndeclaredVariable(s)), st)
        },
        ExprV::Program(es) => cg_list(st, es, 0),
        ExprV::Block(es) => cg_list(st, es, 0),
        ExprV::Negative(inner) => {
            match *inner {
                ExprV::Negative(nn) => cg_expr(st, *nn),
                _ => {
                    let (r, st2) = cg_expr(st, *inner);
                    match r {
                        Err(er) => (Err(er), st2),
                        Ok(None) => (Err(CompErrV::InvalidNegation(*inner)), st2),
                        Ok(Some(v)) => {
                            match val_kind(st2.insts, v) {
                                ValKind::Int => (
                                    Ok(Some(IrValueV::Inst(st2.insts.len() as int))),
                                    CgSt {
                                        insts: st2.insts.push(IrInstV::IntNeg { value: v }),
                                        ..st2
                                    },
                                ),
                                ValKind::Float => (
                                    Ok(Some(IrValueV::Inst(st2.insts.len() as int))),
                                    CgSt {
                                        insts: st2.insts.push(IrInstV::FloatNeg { value: v }),
                                        ..st2
                                    },
                                ),
                                ValKind::Other => (Err(CompErrV::InvalidNegation(*inner)), st2),
                            }
                        },
                    }
                },
            }
        },
        ExprV::BinExpr { lhs, rhs, op } => {
            let (ar, t2) = sa_binexpr(st.tbl, *lhs, *rhs);
            let st2 = CgSt { tbl: t2, ..st };
            match ar {
                Err(er) => (Err(CompErrV::TypeError(er)), st2),
                Ok(sty) => {
                    let (lr, st3) = cg_expr(st2, *lhs);
                    match lr {
                        Err(er) => (Err(er), st3),
                        Ok(lv) => {
                            let (rr, st4) = cg_expr(st3, *rhs);
                            match rr {
                                Err(er) => (Err(er), st4),
                                Ok(rv) => match (lv, rv) {
                                    (Some(l), Some(r)) => cg_emit_binop(st4, l, r, op, sty),
                                    _ => (
                                        Err(
                                            CompErrV::TypeError(
                                                SemErrV::InvalidBinExpr {
                                                    lhs_type: sty,
                                                    rhs_type: sty,
                                                },
                                            ),
                                        ),
                                        st4,
                                    ),
                                },
                            }
                        },
                    }
                },
            }
        },
        ExprV::LetDecl { varname, expr, .. } => {
            let (ar, t2) = sa_expr(st.tbl, *expr);
            match ar {
                Err(er) => (Err(CompErrV::TypeError(er)), CgSt { tbl: t2, ..st }),
                Ok(sty) => match map_stype(sty) {
                    None => (Err(CompErrV::TryingAssignVoid), CgSt { tbl: t2, ..st }),
                    Some(cgt) => {
                        let aidx = st.insts.len() as int;
                        let insts1 = st.insts.push(
                            IrInstV::Alloca { name: varname, ty: slot_ty(cgt) },
                        );
                        let (ar2, t3) = sa_expr(t2, *expr);
                        match ar2 {
                            Err(er) => (
                                Err(CompErrV::TypeError(er)),
                                CgSt { tbl: t3, insts: insts1, ..st },
                            ),
                            Ok(sty2) => {
                                let tbl3 = t3.insert(varname, sty2);
                                let (cr, st4) = cg_expr(
                                    CgSt { tbl: tbl3, slots: st.slots, insts: insts1 },
                                    *expr,
                                );
                                match cr {
                                    Err(er) => (Err(er), st4),
                                    Ok(Some(v)) => (
                                        Ok(Some(IrValueV::Ptr(aidx))),
                                        CgSt {
                                            insts: st4.insts.push(
                                                IrInstV::Store { slot: aidx, value: v },
                                            ),
                                            slots: st4.slots.insert(varname, aidx),
                                            tbl: st4.tbl,
                                        },
                                    ),
                                    Ok(None) => (
                                        Ok(Some(IrValueV::Ptr(aidx))),
                                        CgSt {
                                            insts: st4.insts,
                                            slots: st4.slots.insert(varname, aidx),
                                            tbl: st4.tbl.remove(varname),
                                        },
                                    ),
                                }
                            },
                        }
                    },
                },
            }
        },
        ExprV::FuncDecl { identifier, block, .. } => {
            let (ar, t2) = sa_expr(st.tbl, e);
            let st2 = CgSt { tbl: t2, ..st };
            match ar {
                Err(er) => (Err(CompErrV::TypeError(er)), st2),
                Ok(sty) => {
                    let (ar2, t3) = sa_expr(st2.tbl, *block);
                    let st3 = CgSt { tbl: t3, ..st2 };
                    match ar2 {
                        Err(er) => (Err(CompErrV::TypeError(er)), st3),
                        Ok(bt) => {
                            let tbl2 = t3.insert(identifier, bt);
                            let ftype = match map_stype(sty) {
                                Some(CodeGenTypeV::Fn(f)) => f,
                                _ => IrFnTypeV { params: Seq::empty(), ret: None },
                            };
                            let fidx = st3.insts.len() as int;
                            let insts1 = st3.insts.push(
                                IrInstV::FunctionEntry { name: identifier, ftype },
                            );
                            let st4 = CgSt { tbl: tbl2, slots: st3.slots, insts: insts1 };
                            if st3.slots.dom().contains(identifier) {
                                (Err(CompErrV::InvalidRedeclare(identifier)), st4)
                            } else {
                                let st5 = CgSt {
                                    slots: st4.slots.insert(identifier, fidx),
                                    ..st4
                                };
                                let (br, st6) = match *block {
                                    ExprV::Block(es) => cg_list(st5, es, 0),
                                    _ => cg_expr(st5, *block),
                                };
                                match br {
                                    Err(er) => (Err(er), st6),
                                    Ok(None) => (Ok(Some(IrValueV::Ptr(fidx))), st6),
                                    Ok(Some(v)) => (
                                        Ok(Some(IrValueV::Ptr(fidx))),
                                        CgSt {
                                            insts: st6.insts.push(
                                                IrInstV::Return { value: Some(v) },
                                            ),
                                            ..st6
                                        },
                                    ),
                                }
                            }
                        },
                    }
                },
            }
        },
    }
}

/// Generation of a list of nodes from `i` on, in order, for their side
/// effects; the value is the last node's, or `None` for an empty list.
pub open spec fn cg_list(st: CgSt, es: Seq<ExprV>, i: int) -> (
    Result<Option<IrValueV>, CompErrV>,
    CgSt,
)
    decreases es, es.len() - i,
{
    if i < 0 || i >= es.len() {
        (Ok(None), st)
    } else if i == es.len() - 1 {
        cg_expr(st, es[i])
    } else {
        let (r, st2) = cg_expr(st, es[i]);
        match r {
            Err(er) => (Err(er), st2),
            Ok(_) => cg_list(st2, es, i + 1),
        }
    }
}

/// The `(type, operator)` instruction table: the type-appropriate add, sub,
/// mul or div instruction for the numeric types; any other operand type is a
/// generation-time `InvalidBinExpr`.
pub open spec fn cg_emit_binop(st: CgSt, l: IrValueV, r: IrValueV, op: Operator, sty: STy) -> (
    Result<Option<IrValueV>, CompErrV>,
    CgSt,
) {
    match sty {
        STy::Int32 => {
            let inst = match op {
                Operator::Plus => IrInstV::IntAdd { lhs: l, rhs: r },
                Operator::Minus => IrInstV::IntSub { lhs: l, rhs: r },
                Operator::Star => IrInstV::IntMul { lhs: l, rhs: r },
                Operator::Bar => IrInstV::IntDiv { lhs: l, rhs: r },
                Operator::Eq => IrInstV::IntAdd { lhs: l, rhs: r },
            };
            if op == Operator::Eq {
                // `=` is no arithmetic operator; the parser never builds it
                (
                    Err(CompErrV::TypeError(SemErrV::InvalidBinExpr { lhs_type: sty, rhs_type: sty })),
                    st,
                )
            } else {
                (
                    Ok(Some(IrValueV::Inst(st.insts.len() as int))),
                    CgSt { insts: st.insts.push(inst), ..st },
                )
            }
        },
        STy::Float32 => {
            let inst = match op {
                Operator::Plus => IrInstV::FloatAdd { lhs: l, rhs: r },
                Operator::Minus => IrInstV::FloatSub { lhs: l, rhs: r },
                Operator::Star => IrInstV::FloatMul { lhs: l, rhs: r },
                Operator::Bar => IrInstV::FloatDiv { lhs: l, rhs: r },
                Operator::Eq => IrInstV::FloatAdd { lhs: l, rhs: r },
            };
            if op == Operator::Eq {
                (
                    Err(CompErrV::TypeError(SemErrV::InvalidBinExpr { lhs_type: sty, rhs_type: sty })),
                    st,
                )
            } else {
                (
                    Ok(Some(IrValueV::Inst(st.insts.len() as int))),
                    CgSt { insts: st.insts.push(inst), ..st },
                )
            }
        },
        _ => (
            Err(CompErrV::TypeError(SemErrV::InvalidBinExpr { lhs_type: sty, rhs_type: sty })),
            st,
        ),
    }
}

/// The steps of generating a `let` declaration: the initializer's type is
/// derived, a typed slot is allocated unless the type is `Void`, the name is
/// bound in the analyzer, the initializer compiles, and its value is stored.
/// A void initializer's type binding is rolled back, though the storage
/// binding is still made: the declaration's value is the slot's address
/// either way.
pub open spec fn cg_vardecl_steps(st: CgSt, varname: Seq<char>, init: ExprV) -> (
    Result<Option<IrValueV>, CompErrV>,
    CgSt,
) {
    let (ar, t2) = sa_expr(st.tbl, init);
    match ar {
        Err(er) => (Err(CompErrV::TypeError(er)), CgSt { tbl: t2, ..st }),
        Ok(sty) => match map_stype(sty) {
            None => (Err(CompErrV::TryingAssignVoid), CgSt { tbl: t2, ..st }),
            Some(cgt) => {
                let aidx = st.insts.len() as int;
                let insts1 = st.insts.push(IrInstV::Alloca { name: varname, ty: slot_ty(cgt) });
                let (ar2, t3) = sa_expr(t2, init);
                match ar2 {
                    Err(er) => (Err(CompErrV::TypeError(er)), CgSt { tbl: t3, insts: insts1, ..st }),
                    Ok(sty2) => {
                        let tbl3 = t3.insert(varname, sty2);
                        let (cr, st4) = cg_expr(
                            CgSt { tbl: tbl3, slots: st.slots, insts: insts1 },
                            init,
                        );
                        match cr {
                            Err(er) => (Err(er), st4),
                            Ok(Some(v)) => (
                                Ok(Some(IrValueV::Ptr(aidx))),
                                CgSt {
                                    insts: st4.insts.push(IrInstV::Store { slot: aidx, value: v }),
                                    slots: st4.slots.insert(varname, aidx),
                                    tbl: st4.tbl,
                                },
                            ),
                            Ok(None) => (
                                Ok(Some(IrValueV::Ptr(aidx))),
                                CgSt {
                                    insts: st4.insts,
                                    slots: st4.slots.insert(varname, aidx),
                                    tbl: st4.tbl.remove(varname),
                                },
                            ),
                        }
                    },
                }
            },
        },
    }
}

/// The steps of generating a function declaration whose `Function` type the
/// analyzer has already derived: the analyzer re-analyzes the body and binds
/// the function's name to the body's type, the function object and entry are
/// created, the name is bound to the function at the IR level — refusing a
/// second binding — and the body compiles with a return emitted only for a
/// non-void result. The declaration's value is the function's address.
pub open spec fn cg_funcdecl_steps(st: CgSt, identifier: Seq<char>, block: ExprV, sty: STy) -> (
    Result<IrValueV, CompErrV>,
    CgSt,
) {
    let (ar, t2) = sa_expr(st.tbl, block);
    let st1 = CgSt { tbl: t2, ..st };
    match ar {
        Err(er) => (Err(CompErrV::TypeError(er)), st1),
        Ok(bt) => {
            let tbl2 = t2.insert(identifier, bt);
            let ftype = match map_stype(sty) {
                Some(CodeGenTypeV::Fn(f)) => f,
                _ => IrFnTypeV { params: Seq::empty(), ret: None },
            };
            let fidx = st.insts.len() as int;
            let insts1 = st.insts.push(IrInstV::FunctionEntry { name: identifier, ftype });
            let st2 = CgSt { tbl: tbl2, slots: st.slots, insts: insts1 };
            if st.slots.dom().contains(identifier) {
                (Err(CompErrV::InvalidRedeclare(identifier)), st2)
            } else {
                let st3 = CgSt { slots: st2.slots.insert(identifier, fidx), ..st2 };
                let (br, st4) = match block {
                    ExprV::Block(es) => cg_list(st3, es, 0),
                    _ => cg_expr(st3, block),
                };
                match br {
                    Err(er) => (Err(er), st4),
                    Ok(None) => (Ok(IrValueV::Ptr(fidx)), st4),
                    Ok(Some(v)) => (
                        Ok(IrValueV::Ptr(fidx)),
                        CgSt {
                            insts: st4.insts.push(IrInstV::Return { value: Some(v) }),
                            ..st4
                        },
                    ),
                }
            }
        },
    }
}

/// View of a generation outcome.
pub open spec fn cg_res_view(r: Result<Option<IrValue>, CompilationError>) -> Result<
    Option<IrValueV>,
    CompErrV,
> {
    match r {
        Ok(Some(v)) => Ok(Some(v@)),
        Ok(None) => Ok(None),
        Err(e) => Err(e@),
    }
}

/// View of an optional lowered type.
pub open spec fn cgt_opt_view(r: Option<CodeGenType>) -> Option<CodeGenTypeV> {
    match r {
        Some(t) => Some(t@),
        None => None,
    }
}

pub broadcast proof fn lemma_insts_view_push(is: Seq<IrInst>, x: IrInst)
    ensures
        #[trigger] insts_view(is.push(x)) == insts_view(is).push(x@),
{
    assert(insts_view(is.push(x)) =~= insts_view(is).push(x@));
}

pub broadcast proof fn lemma_insts_view_len(is: Seq<IrInst>)
    ensures
        (#[trigger] insts_view(is)).len() == is.len(),
{
}

/// The broadcast facts about `insts_view`.
pub broadcast group group_insts_view {
    lemma_insts_view_push,
    lemma_insts_view_len,
}

/// The numeric value of a digit string, read left to right with checked
/// arithmetic.
fn parse_u64_digits(s: &str) -> (r: Option<u64>)
    ensures
        match r {
            Some(v) => int_digits(s@) && digits_val(s@) <= u64::MAX && v == digits_val(s@),
            None => !(int_digits(s@) && digits_val(s@) <= u64::MAX),
        },
{
    let n = s.unicode_len();
    if n == 0 {
        return None;
    }
    let mut acc: u64 = 0;
    let mut i: usize = 0;
    while i < n
        invariant
            n == s@.len(),
            i <= n,
            forall|k: int| 0 <= k < i ==> is_digit_char(s@[k]),
            acc == digits_val(s@.subrange(0, i as int)),
        decreases n - i,
    {
        let c = s.get_char(i);
        if !digit_char(c) {
            return None;
        }
        let d = (c as u32) - 48;
        proof {
            if int_digits(s@) {
                assert(s@.subrange(0, i as int + 1).drop_last() =~= s@.subrange(0, i as int));
                lemma_digits_val_grows(s@, i as int);
            }
        }
        let m = match acc.checked_mul(10) {
            Some(m) => m,
            None => {
                return None;
            },
        };
        let a = match m.checked_add(d as u64) {
            Some(a) => a,
            None => {
                return None;
            },
        };
        acc = a;
        i = i + 1;
        proof {
            assert(s@.subrange(0, i as int).drop_last() =~= s@.subrange(0, i as int - 1));
        }
    }
    proof {
        assert(s@.subrange(0, n as int) =~= s@);
    }
    Some(acc)
}

/// A digit string's value only grows as it is extended at the right.
proof fn lemma_digits_val_grows(s: Seq<char>, i: int)
    requires
        0 <= i < s.len(),
        forall|k: int| 0 <= k < s.len() ==> is_digit_char(s[k]),
    ensures
        digits_val(s) >= digits_val(s.subrange(0, i + 1)),
    decreases s.len() - i,
{
    if i + 1 == s.len() {
        assert(s.subrange(0, i + 1) =~= s);
    } else {
        lemma_digits_val_grows(s, i + 1);
        assert(s.subrange(0, i + 2).drop_last() =~= s.subrange(0, i + 1));
        assert(digits_val(s.subrange(0, i + 2)) >= digits_val(s.subrange(0, i + 1)));
    }
}

/// Whether the raw text is a float literal the generator accepts: digits
/// with at most one dot and at least one digit.
fn check_float_digits(s: &str) -> (r: bool)
    ensures
        r == float_digits(s@),
{
    let n = s.unicode_len();
    if n == 0 {
        return false;
    }
    let mut dots: u64 = 0;
    let mut digits: u64 = 0;
    let mut i: usize = 0;
    while i < n
        invariant
            n == s@.len(),
            i <= n,
            forall|k: int| 0 <= k < i ==> (is_digit_char(s@[k]) || s@[k] == '.'),
            dots == dot_count(s@.subrange(0, i as int)),
            dots <= i,
            digits <= i,
            (digits > 0) == (exists|k: int| 0 <= k < i && is_digit_char(s@[k])),
        decreases n - i,
    {
        let c = s.get_char(i);
        if digit_char(c) {
            digits = digits + 1;
            proof {
                assert(is_digit_char(s@[i as int]));
            }
        } else if c == '.' {
            dots = dots + 1;
        } else {
            proof {
                assert(!(is_digit_char(s@[i as int]) || s@[i as int] == '.'));
            }
            return false;
        }
        i = i + 1;
        proof {
            assert(s@.subrange(0, i as int).drop_last() =~= s@.subrange(0, i as int - 1));
        }
    }
    proof {
        assert(s@.subrange(0, n as int) =~= s@);
    }
    dots <= 1 && digits > 0
}

/// The code generator: owns the analyzer it drives, the IR binding table,
/// and the module's instruction log.
pub struct CodeGenerator {
    analyzer: SemanticAnalayzer,
    variables: SymbolTable<Slot>,
    insts: Vec<IrInst>,
}

impl View for CodeGenerator {
    type V = CgSt;

    closed spec fn view(&self) -> CgSt {
        CgSt { tbl: self.analyzer@, slots: self.variables@, insts: insts_view(self.insts@) }
    }
}

impl CodeGenerator {
    /// Both tables hold their invariants.
    pub closed spec fn wf(&self) -> bool {
        self.analyzer.wf() && self.variables.wf()
    }

    pub fn new() -> (g: Self)
        ensures
            g.wf(),
            g@ == (CgSt {
                tbl: Map::<Seq<char>, STy>::empty(),
                slots: Map::<Seq<char>, int>::empty(),
                insts: Seq::<IrInstV>::empty(),
            }),
    {
        let g = CodeGenerator {
            analyzer: SemanticAnalayzer::new(),
            variables: SymbolTable::new(),
            insts: Vec::new(),
        };
        proof {
            assert(insts_view(g.insts@) =~= Seq::<IrInstV>::empty());
        }
        g
    }

    /// The 32-bit integer type of the target.
    pub fn int32(&self) -> (t: IrBasicType)
        ensures
            t@ == IrBasicTypeV::I32,
    {
        IrBasicType::I32
    }

    /// The 32-bit float type of the target.
    pub fn float32(&self) -> (t: IrBasicType)
        ensures
            t@ == IrBasicTypeV::F32,
    {
        IrBasicType::F32
    }

    /// The void return: no basic type at all.
    pub fn void(&self) -> (t: Option<IrBasicType>)
        ensures
            t is None,
    {
        None
    }

    /// The emitted module: the instruction log, in emission order.
    pub fn instructions(&self) -> (r: &Vec<IrInst>)
        ensures
            insts_view(r@) == self@.insts,
    {
        &self.insts
    }

    /// Loads the current value of a bound name's slot; an unbound name is an
    /// IR-level `UndeclaredVariable`, independent of the analyzer's check.
    fn load(&mut self, vname: &String) -> (r: Result<IrValue, CompilationError>)
        requires
            old(self).wf(),
        ensures
            final(self).wf(),
            match r {
                Ok(v) => old(self)@.slots.dom().contains(vname@) && v@ == IrValueV::Inst(
                    old(self)@.insts.len() as int,
                ) && final(self)@ == (CgSt {
                    insts: old(self)@.insts.push(
                        IrInstV::Load { slot: old(self)@.slots[vname@] },
                    ),
                    ..old(self)@
                }),
                Err(e) => !old(self)@.slots.dom().contains(vname@) && e@
                    == CompErrV::UndeclaredVariable(vname@) && final(self)@ == old(self)@,
            },
    {
        broadcast use group_insts_view;

        let slot = match self.variables.get(vname) {
            Some(s) => s.idx,
            None => {
                return Err(CompilationError::UndeclaredVariable(vname.clone()));
            },
        };
        let idx = self.insts.len();
        self.insts.push(IrInst::Load { slot });
        Ok(IrValue::Inst(idx))
    }

    /// Lowers a semantic type: `Void` vanishes, the numeric types map to
    /// primitives, and a `Function` type maps to a signature whose `Void`
    /// parameters are omitted and whose function-typed parameters and
    /// results become pointers.
    pub fn type_from_stype(&self, stype: &SemanticType) -> (r: Option<CodeGenType>)
        ensures
            cgt_opt_view(r) == map_stype(stype@),
        decreases stype, 2int,
    {
        broadcast use group_ir_basics_view;

        match stype {
            SemanticType::Int32 => Some(CodeGenType::Primitive(IrBasicType::I32)),
            SemanticType::Float32 => Some(CodeGenType::Primitive(IrBasicType::F32)),
            SemanticType::Void => None,
            SemanticType::FnType { params, rtype } => {
                let ghost psv = stypes_view(params@);
                proof {
                    broadcast use crate::analysis::group_stypes_view;

                    assert(psv.len() == params@.len());
                }
                let mut lowered: Vec<IrBasicType> = Vec::new();
                proof {
                    assert(ir_basics_view(lowered@) =~= Seq::<IrBasicTypeV>::empty());
                    assert(ir_basics_view(lowered@) + map_params(psv, 0) =~= map_params(psv, 0));
                }
                let mut i: usize = 0;
                while i < params.len()
                    invariant
                        *stype is FnType,
                        (*stype)->FnType_params@ == params@,
                        psv == stypes_view(params@),
                        psv.len() == params@.len(),
                        i <= params@.len(),
                        ir_basics_view(lowered@) + map_params(psv, i as int) == map_params(psv, 0),
                    decreases params@.len() - i,
                {
                    proof {
                        broadcast use crate::analysis::group_stypes_view;

                        assert(decreases_to!(*stype => (*stype)->FnType_params));
                        assert(decreases_to!((*stype)->FnType_params => (*stype)->FnType_params@));
                        assert(decreases_to!((*stype)->FnType_params@ => (*stype)->FnType_params@[i as int]));
                        assert(psv[i as int] == params@[i as int]@);
                    }
                    let ghost low0 = lowered@;
                    let ghost iold = i as int;
                    let sub = self.type_from_stype(&params[i]);
                    match sub {
                        None => {
                            proof {
                                assert(map_params(psv, iold) == map_params(psv, iold + 1));
                            }
                        },
                        Some(CodeGenType::Primitive(b)) => {
                            let ghost bv = b@;
                            lowered.push(b);
                            proof {
                                assert(lowered@.drop_last() =~= low0);
                                assert(ir_basics_view(lowered@) == ir_basics_view(low0).push(bv));
                                assert(map_params(psv, iold) == seq![bv] + map_params(
                                    psv,
                                    iold + 1,
                                ));
                                assert(ir_basics_view(low0).push(bv) + map_params(psv, iold + 1)
                                    =~= ir_basics_view(low0) + (seq![bv] + map_params(
                                    psv,
                                    iold + 1,
                                )));
                            }
                        },
                        Some(CodeGenType::Fn(f)) => {
                            let wrapped = IrBasicType::FnPtr(Box::new(f));
                            let ghost bv = wrapped@;
                            lowered.push(wrapped);
                            proof {
                                assert(lowered@.drop_last() =~= low0);
                                assert(ir_basics_view(lowered@) == ir_basics_view(low0).push(bv));
                                assert(map_params(psv, iold) == seq![bv] + map_params(
                                    psv,
                                    iold + 1,
                                ));
                                assert(ir_basics_view(low0).push(bv) + map_params(psv, iold + 1)
                                    =~= ir_basics_view(low0) + (seq![bv] + map_params(
                                    psv,
                                    iold + 1,
                                )));
                            }
                        },
                    }
                    i = i + 1;
                }
                proof {
                    assert(ir_basics_view(lowered@) + map_params(psv, psv.len() as int)
                        =~= ir_basics_view(lowered@));
                }
                let ret = match self.type_from_stype(&**rtype) {
                    None => None,
                    Some(CodeGenType::Primitive(b)) => Some(b),
                    Some(CodeGenType::Fn(f)) => Some(IrBasicType::FnPtr(Box::new(f))),
                };
                let result = CodeGenType::Fn(IrFnType { params: lowered, ret });
                proof {
                    assert(cgt_opt_view(Some(result)) =~~= map_stype(stype@));
                }
                Some(result)
            },
        }
    }

    /// Derives a node's type through the analyzer — with the analyzer's side
    /// effects on the table — and lowers it.
    pub fn type_based_on_semantics(&mut self, expr: &Expression) -> (r: Result<
        Option<CodeGenType>,
        CompilationError,
    >)
        requires
            old(self).wf(),
        ensures
            final(self).wf(),
            ({
                let (ar, t2) = sa_expr(old(self)@.tbl, expr@);
                &&& final(self)@ == (CgSt { tbl: t2, ..old(self)@ })
                &&& match r {
                    Ok(opt) => ar is Ok && cgt_opt_view(opt) == map_stype(ar->Ok_0),
                    Err(e) => ar is Err && e@ == CompErrV::TypeError(ar->Err_0),
                }
            }),
    {
        let stype = match self.analyzer.analyze_expr(expr) {
            Ok(t) => t,
            Err(e) => {
                return Err(CompilationError::TypeError(e));
            },
        };
        Ok(self.type_from_stype(&stype))
    }

    /// The runtime kind of a value under the current log.
    fn value_kind(&self, v: &IrValue) -> (k: ValKind)
        ensures
            k == val_kind(self@.insts, v@),
    {
        broadcast use group_insts_view;

        match v {
            IrValue::IntConst(_) => ValKind::Int,
            IrValue::FloatConst(_) => ValKind::Float,
            IrValue::Ptr(_) => ValKind::Other,
            IrValue::Inst(i) => {
                if *i < self.insts.len() {
                    match &self.insts[*i] {
                        IrInst::IntAdd { .. } => ValKind::Int,
                        IrInst::IntSub { .. } => ValKind::Int,
                        IrInst::IntMul { .. } => ValKind::Int,
                        IrInst::IntDiv { .. } => ValKind::Int,
                        IrInst::IntNeg { .. } => ValKind::Int,
                        IrInst::FloatAdd { .. } => ValKind::Float,
                        IrInst::FloatSub { .. } => ValKind::Float,
                        IrInst::FloatMul { .. } => ValKind::Float,
                        IrInst::FloatDiv { .. } => ValKind::Float,
                        IrInst::FloatNeg { .. } => ValKind::Float,
                        IrInst::Load { slot } => {
                            if *slot < self.insts.len() {
                                match &self.insts[*slot] {
                                    IrInst::Alloca { ty, .. } => match ty {
                                        IrBasicType::I32 => ValKind::Int,
                                        IrBasicType::F32 => ValKind::Float,
                                        IrBasicType::FnPtr(_) => ValKind::Other,
                                    },
                                    _ => ValKind::Other,
                                }
                            } else {
                                ValKind::Other
                            }
                        },
                        _ => ValKind::Other,
                    }
                } else {
                    ValKind::Other
                }
            },
        }
    }

    /// Emits the instruction the `(type, operator)` table selects.
    fn emit_binop(
        &mut self,
        l: IrValue,
        r: IrValue,
        op: Operator,
        stype: &SemanticType,
    ) -> (res: Result<IrValue, CompilationError>)
        requires
            old(self).wf(),
        ensures
            final(self).wf(),
            ({
                let (cr, st2) = cg_emit_binop(old(self)@, l@, r@, op, stype@);
                &&& final(self)@ == st2
                &&& match (res, cr) {
                    (Ok(v), Ok(Some(w))) => v@ == w,
                    (Err(e), Err(e2)) => e@ == e2,
                    _ => false,
                }
            }),
    {
        broadcast use group_insts_view;

        match stype {
            SemanticType::Int32 => {
                let inst = match op {
                    Operator::Plus => IrInst::IntAdd { lhs: l, rhs: r },
                    Operator::Minus => IrInst::IntSub { lhs: l, rhs: r },
                    Operator::Star => IrInst::IntMul { lhs: l, rhs: r },
                    Operator::Bar => IrInst::IntDiv { lhs: l, rhs: r },
                    Operator::Eq => {
                        return Err(
                            CompilationError::TypeError(
                                SemanticError::InvalidBinExpr {
                                    lhs_type: SemanticType::Int32,
                                    rhs_type: SemanticType::Int32,
                                },
                            ),
                        );
                    },
                };
                let idx = self.insts.len();
                self.insts.push(inst);
                Ok(IrValue::Inst(idx))
            },
            SemanticType::Float32 => {
                let inst = match op {
                    Operator::Plus => IrInst::FloatAdd { lhs: l, rhs: r },
                    Operator::Minus => IrInst::FloatSub { lhs: l, rhs: r },
                    Operator::Star => IrInst::FloatMul { lhs: l, rhs: r },
                    Operator::Bar => IrInst::FloatDiv { lhs: l, rhs: r },
                    Operator::Eq => {
                        return Err(
                            CompilationError::TypeError(
                                SemanticError::InvalidBinExpr {
                                    lhs_type: SemanticType::Float32,
                                    rhs_type: SemanticType::Float32,
                                },
                            ),
                        );
                    },
                };
                let idx = self.insts.len();
                self.insts.push(inst);
                Ok(IrValue::Inst(idx))
            },
            _ => Err(
                CompilationError::TypeError(
                    SemanticError::InvalidBinExpr {
                        lhs_type: stype.duplicate(),
                        rhs_type: stype.duplicate(),
                    },
                ),
            ),
        }
    }

    /// Lowers one node to its optional IR value: exactly what `cg_expr`
    /// says, interleaving the analyzer as generation reaches each node.
    #[verifier::rlimit(100)]
    #[verifier::spinoff_prover]
    pub fn compile_ast(&mut self, expr: &Expression) -> (r: Result<
        Option<IrValue>,
        CompilationError,
    >)
        requires
            old(self).wf(),
        ensures
            final(self).wf(),
            (cg_res_view(r), final(self)@) == cg_expr(old(self)@, expr@),
        decreases expr, 0int,
    {
        broadcast use group_insts_view;

        match expr {
            Expression::IntLit(s) => {
                match parse_u64_digits(s.as_str()) {
                    Some(v) => Ok(Some(IrValue::IntConst(v))),
                    None => Err(CompilationError::LitParseError(LitParseError::Int(s.clone()))),
                }
            },
            Expression::FloatLit(s) => {
                if check_float_digits(s.as_str()) {
                    Ok(Some(IrValue::FloatConst(s.clone())))
                } else {
                    Err(CompilationError::LitParseError(LitParseError::Float(s.clone())))
                }
            },
            Expression::Identifier(s) => {
                match self.load(s) {
                    Ok(v) => Ok(Some(v)),
                    Err(e) => Err(e),
                }
            },
            Expression::LetDecl { varname, expr: init, .. } => {
                proof {
                    assert(decreases_to!(*expr => (*expr)->LetDecl_expr));
                }
                match self.compile_vardecl(LetDeclKind::Normal, varname.as_str(), &**init) {
                    Ok(v) => Ok(Some(v)),
                    Err(e) => Err(e),
                }
            },
            Expression::Program(es) => {
                proof {
                    assert(decreases_to!(*expr => (*expr)->Program_0));
                    assert(decreases_to!((*expr)->Program_0 => (*expr)->Program_0@));
                    assert((*expr)->Program_0@ == es@);
                }
                self.compile_block(es)
            },
            Expression::Block(es) => {
                proof {
                    assert(decreases_to!(*expr => (*expr)->Block_0));
                    assert(decreases_to!((*expr)->Block_0 => (*expr)->Block_0@));
                    assert((*expr)->Block_0@ == es@);
                }
                self.compile_block(es)
            },
            Expression::Negative(inner) => {
                proof {
                    assert(decreases_to!(*expr => (*expr)->Negative_0));
                }
                self.compile_negative(&**inner)
            },
            Expression::BinExpr { lhs, rhs, op } => {
                let stype = match self.analyzer.analyze_binexpr(&**lhs, &**rhs) {
                    Ok(t) => t,
                    Err(e) => {
                        return Err(CompilationError::TypeError(e));
                    },
                };
                let lv = match self.compile_ast(&**lhs) {
                    Ok(v) => v,
                    Err(e) => {
                        return Err(e);
                    },
                };
                let rv = match self.compile_ast(&**rhs) {
                    Ok(v) => v,
                    Err(e) => {
                        return Err(e);
                    },
                };
                match (lv, rv) {
                    (Some(l), Some(r)) => {
                        match self.emit_binop(l, r, *op, &stype) {
                            Ok(v) => Ok(Some(v)),
                            Err(e) => Err(e),
                        }
                    },
                    _ => Err(
                        CompilationError::TypeError(
                            SemanticError::InvalidBinExpr {
                                lhs_type: stype.duplicate(),
                                rhs_type: stype,
                            },
                        ),
                    ),
                }
            },
            Expression::FuncDecl { identifier, block, .. } => {
                let stype = match self.analyzer.analyze_expr(expr) {
                    Ok(t) => t,
                    Err(e) => {
                        return Err(CompilationError::TypeError(e));
                    },
                };
                proof {
                    assert(decreases_to!(*expr => (*expr)->FuncDecl_block));
                }
                match self.compile_func_decl(identifier.clone(), &**block, stype) {
                    Ok(v) => Ok(Some(v)),
                    Err(e) => Err(e),
                }
            },
        }
    }

    /// Lowers a function declaration whose `Function` type the analyzer has
    /// already derived.
    #[verifier::rlimit(100)]
    #[verifier::spinoff_prover]
    fn compile_func_decl(
        &mut self,
        identifier: String,
        block: &Expression,
        stype: SemanticType,
    ) -> (r: Result<IrValue, CompilationError>)
        requires
            old(self).wf(),
        ensures
            final(self).wf(),
            ({
                let (cr, st2) = cg_funcdecl_steps(old(self)@, identifier@, block@, stype@);
                &&& final(self)@ == st2
                &&& match (r, cr) {
                    (Ok(v), Ok(w)) => v@ == w,
                    (Err(e), Err(e2)) => e@ == e2,
                    _ => false,
                }
            }),
        decreases block, 1int,
    {
        broadcast use group_insts_view;

        match self.analyzer.create_var(&identifier, block) {
            Ok(_) => {},
            Err(e) => {
                return Err(CompilationError::TypeError(e));
            },
        }
        let ftype = match self.type_from_stype(&stype) {
            Some(CodeGenType::Fn(f)) => f,
            _ => {
                let dummy = IrFnType { params: Vec::new(), ret: None };
                proof {
                    assert(ir_basics_view(dummy.params@) =~= Seq::<IrBasicTypeV>::empty());
                }
                dummy
            },
        };
        let fidx = self.insts.len();
        self.insts.push(IrInst::FunctionEntry { name: identifier.clone(), ftype });
        if self.variables.contains(&identifier) {
            return Err(CompilationError::InvalidRedeclare(identifier));
        }
        self.variables.set(&identifier, Slot { idx: fidx });
        let body = match block {
            Expression::Block(es) => {
                proof {
                    assert(decreases_to!(*block => (*block)->Block_0));
                    assert(decreases_to!((*block)->Block_0 => (*block)->Block_0@));
                    assert((*block)->Block_0@ == es@);
                    assert(block@ == ExprV::Block(exprs_view(es@)));
                }
                self.compile_block(es)
            },
            _ => {
                proof {
                    crate::parser::lemma_expr_variant(*block);
                }
                self.compile_ast(block)
            },
        };
        let v = match body {
            Ok(v) => v,
            Err(e) => {
                return Err(e);
            },
        };
        if let Some(val) = v {
            self.insts.push(IrInst::Return { value: Some(val) });
        }
        Ok(IrValue::Ptr(fidx))
    }

    /// Lowers a sequence of nodes in order for their side effects; the value
    /// is the last node's, or `None` for an empty sequence.
    #[verifier::rlimit(100)]
    #[verifier::spinoff_prover]
    fn compile_block(&mut self, exprs: &Vec<Expression>) -> (r: Result<
        Option<IrValue>,
        CompilationError,
    >)
        requires
            old(self).wf(),
        ensures
            final(self).wf(),
            ({
                let (cr, st2) = cg_list(old(self)@, exprs_view(exprs@), 0);
                final(self)@ == st2 && cg_res_view(r) == cr
            }),
        decreases exprs@, 0int,
    {
        let ghost st0 = self@;
        let ghost esv = exprs_view(exprs@);
        let mut result: Option<IrValue> = None;
        let mut i: usize = 0;
        while i < exprs.len()
            invariant
                st0 == old(self)@,
                old(self).wf(),
                self.wf(),
                i <= exprs@.len(),
                esv == exprs_view(exprs@),
                esv.len() == exprs@.len(),
                cg_list(st0, esv, 0) == if i < esv.len() {
                    cg_list(self@, esv, i as int)
                } else {
                    (Ok::<Option<IrValueV>, CompErrV>(opt_val_view(result)), self@)
                },
            decreases exprs@.len() - i,
        {
            proof {
                assert(decreases_to!(exprs@ => exprs@[i as int]));
                assert(exprs_view(exprs@)[i as int] == exprs@[i as int]@);
            }
            let ghost cur = self@;
            let r = self.compile_ast(&exprs[i]);
            match r {
                Ok(v) => {
                    result = v;
                    proof {
                        assert(cg_expr(cur, esv[i as int]) == (
                            Ok::<Option<IrValueV>, CompErrV>(opt_val_view(result)),
                            self@,
                        ));
                        if i as int == esv.len() - 1 {
                            assert(cg_list(cur, esv, i as int) == (
                                Ok::<Option<IrValueV>, CompErrV>(opt_val_view(result)),
                                self@,
                            ));
                        } else {
                            assert(cg_list(cur, esv, i as int) == cg_list(
                                self@,
                                esv,
                                i as int + 1,
                            ));
                        }
                    }
                },
                Err(e) => {
                    proof {
                        assert(cg_expr(cur, esv[i as int]) == (
                            Err::<Option<IrValueV>, CompErrV>(e@),
                            self@,
                        ));
                        assert(cg_list(cur, esv, i as int) == (
                            Err::<Option<IrValueV>, CompErrV>(e@),
                            self@,
                        ));
                    }
                    return Err(e);
                },
            }
            i = i + 1;
        }
        Ok(result)
    }

    /// Lowers a negation: double negation collapses without an instruction;
    /// otherwise the inner value is negated by its runtime kind, and a
    /// non-numeric operand is refused.
    #[verifier::rlimit(100)]
    #[verifier::spinoff_prover]
    fn compile_negative(&mut self, expr: &Expression) -> (r: Result<
        Option<IrValue>,
        CompilationError,
    >)
        requires
            old(self).wf(),
        ensures
            final(self).wf(),
            (cg_res_view(r), final(self)@) == cg_expr(
                old(self)@,
                ExprV::Negative(Box::new(expr@)),
            ),
        decreases expr, 1int,
    {
        broadcast use group_insts_view;

        match expr {
            Expression::Negative(neg) => {
                proof {
                    assert(decreases_to!(*expr => (*expr)->Negative_0));
                }
                return self.compile_ast(&**neg);
            },
            _ => {},
        }
        proof {
            crate::parser::lemma_expr_variant(*expr);
        }
        let val = match self.compile_ast(expr) {
            Ok(v) => v,
            Err(e) => {
                return Err(e);
            },
        };
        let v = match val {
            Some(v) => v,
            None => {
                return Err(CompilationError::InvalidNegation(expr.duplicate()));
            },
        };
        match self.value_kind(&v) {
            ValKind::Int => {
                let idx = self.insts.len();
                self.insts.push(IrInst::IntNeg { value: v });
                Ok(Some(IrValue::Inst(idx)))
            },
            ValKind::Float => {
                let idx = self.insts.len();
                self.insts.push(IrInst::FloatNeg { value: v });
                Ok(Some(IrValue::Inst(idx)))
            },
            ValKind::Other => Err(CompilationError::InvalidNegation(expr.duplicate())),
        }
    }

    /// Lowers a `let` declaration: derives the initializer's type, allocates
    /// a typed slot unless it is `Void`, registers the binding with the
    /// analyzer, compiles the initializer and stores its value; a void
    /// initializer's type binding is rolled back though the storage binding
    /// is kept. The declaration's value is the slot's address.
    #[verifier::rlimit(100)]
    #[verifier::spinoff_prover]
    fn compile_vardecl(
        &mut self,
        _kind: LetDeclKind,
        varname: &str,
        init: &Expression,
    ) -> (r: Result<IrValue, CompilationError>)
        requires
            old(self).wf(),
        ensures
            final(self).wf(),
            ({
                let (cr, st2) = cg_vardecl_steps(old(self)@, varname@, init@);
                &&& final(self)@ == st2
                &&& match (r, cr) {
                    (Ok(v), Ok(Some(w))) => v@ == w,
                    (Err(e), Err(e2)) => e@ == e2,
                    _ => false,
                }
            }),
        decreases init, 1int,
    {
        broadcast use group_insts_view;

        let stype_opt = match self.type_based_on_semantics(init) {
            Ok(o) => o,
            Err(e) => {
                return Err(e);
            },
        };
        let cgt = match stype_opt {
            Some(t) => t,
            None => {
                return Err(CompilationError::TryingAssignVoid);
            },
        };
        let ty = match cgt {
            CodeGenType::Fn(f) => IrBasicType::FnPtr(Box::new(f)),
            CodeGenType::Primitive(b) => b,
        };
        let aidx = self.insts.len();
        let variable = varname.to_owned();
        self.insts.push(IrInst::Alloca { name: variable.clone(), ty });
        match self.analyzer.create_var(&variable, init) {
            Ok(_) => {},
            Err(e) => {
                return Err(CompilationError::TypeError(e));
            },
        }
        let val = match self.compile_ast(init) {
            Ok(v) => v,
            Err(e) => {
                return Err(e);
            },
        };
        match val {
            Some(v) => {
                self.insts.push(IrInst::Store { slot: aidx, value: v });
            },
            None => {
                self.analyzer.delete_var(&variable);
            },
        }
        self.variables.set(&variable, Slot { idx: aidx });
        Ok(IrValue::Ptr(aidx))
    }

    /// The whole pipeline on one source text: scan, parse, then lower the
    /// program, with the analyzer driven node by node during lowering. The
    /// first error of any stage aborts the compilation.
    #[verifier::rlimit(100)]
    #[verifier::spinoff_prover]
    pub fn compile_source(&mut self, source: String) -> (r: Result<
        Option<IrValue>,
        CompilationError,
    >)
        requires
            old(self).wf(),
            source@.len() < usize::MAX,
        ensures
            final(self).wf(),
            ({
                match spec_scan(source@, 0, 1, 0) {
                    Err(te) => (match r {
                        Err(ce) => ce@ == CompErrV::Tokenization(te),
                        Ok(_) => false,
                    }) && final(self)@ == old(self)@,
                    Ok(toks) => {
                        let (pr, n) = crate::parser::sp_program_items(toks);
                        match pr {
                            Err(pe) => (match r {
                                Err(ce) => ce@ is Parsing && ce@->Parsing_0 == pe,
                                Ok(_) => false,
                            }) && final(self)@ == old(self)@,
                            Ok(items) => (cg_res_view(r), final(self)@) == cg_expr(
                                old(self)@,
                                ExprV::Program(items),
                            ),
                        }
                    },
                }
            }),
    {
        let tokenizer = Tokenizer::new(source);
        let mut tokens = match tokenizer.gen() {
            Ok(t) => t,
            Err(e) => {
                return Err(CompilationError::Tokenization(e));
            },
        };
        let mut parser = Parser::new();
        let ast = match parser.parse_tokens(&mut tokens) {
            Ok(a) => a,
            Err(e) => {
                return Err(CompilationError::Parsing(e, parser.backtrace));
            },
        };
        self.compile_ast(&ast)
    }
}

/// View of an optional value result.
pub open spec fn opt_val_view(r: Option<IrValue>) -> Option<IrValueV> {
    match r {
        Some(v) => Some(v@),
        None => None,
    }
}

} // verus!
