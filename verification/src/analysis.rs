//! Semantic analysis: assigns and checks types over AST nodes, maintaining a
//! flat name-to-type table shared across the whole compilation.
//!
//! `sa_expr` is the mathematical description of the analysis — what type a
//! node gets and how the table changes; the analyzer's methods are proved to
//! follow it exactly.

use vstd::prelude::*;
use vstd::string::StrSliceExecFns;

use crate::ast::{exprs_view, params_view, ExprV, Expression, ParamV};
use crate::strutil::str_eq_chars;
use crate::table::SymbolTable;

verus! {

broadcast use crate::ast::group_exprs_view;

/// The closed set of types of the language. Equality is structural.
#[derive(Debug, PartialEq, Eq)]
pub enum SemanticType {
    Int32,
    Float32,
    Void,
    FnType { params: Vec<SemanticType>, rtype: Box<SemanticType> },
}

/// Mathematical value of a `SemanticType`.
#[verifier::ext_equal]
pub enum STy {
    Int32,
    Float32,
    Void,
    FnType { params: Seq<STy>, rtype: Box<STy> },
}

/// Mathematical value of a `SemanticType`.
pub open spec fn stype_view(t: SemanticType) -> STy
    decreases t, 0int,
{
    match t {
        SemanticType::Int32 => STy::Int32,
        SemanticType::Float32 => STy::Float32,
        SemanticType::Void => STy::Void,
        SemanticType::FnType { params, rtype } => STy::FnType {
            params: stypes_view(params@),
            rtype: Box::new(stype_view(*rtype)),
        },
    }
}

/// The views of a sequence of types.
pub open spec fn stypes_view(ts: Seq<SemanticType>) -> Seq<STy>
    decreases ts, ts.len(),
{
    if ts.len() == 0 {
        Seq::empty()
    } else {
        stypes_view(ts.drop_last()).push(stype_view(ts.last()))
    }
}

impl View for SemanticType {
    type V = STy;

    open spec fn view(&self) -> STy {
        stype_view(*self)
    }
}

pub broadcast proof fn lemma_stypes_view_len(ts: Seq<SemanticType>)
    ensures
        (#[trigger] stypes_view(ts)).len() == ts.len(),
    decreases ts.len(),
{
    if ts.len() > 0 {
        lemma_stypes_view_len(ts.drop_last());
    }
}

pub broadcast proof fn lemma_stypes_view_index(ts: Seq<SemanticType>, i: int)
    requires
        0 <= i < ts.len(),
    ensures
        #[trigger] stypes_view(ts)[i] == ts[i]@,
    decreases ts.len(),
{
    lemma_stypes_view_len(ts);
    if ts.len() > 0 {
        if i == ts.len() - 1 {
            lemma_stypes_view_len(ts.drop_last());
        } else {
            lemma_stypes_view_index(ts.drop_last(), i);
        }
    }
}

/// The broadcast facts about `stypes_view`: its length and elements.
pub broadcast group group_stypes_view {
    lemma_stypes_view_len,
    lemma_stypes_view_index,
}

impl SemanticType {
    /// A structural copy.
    pub fn duplicate(&self) -> (r: SemanticType)
        ensures
            r@ == self@,
        decreases self,
    {
        match self {
            SemanticType::Int32 => SemanticType::Int32,
            SemanticType::Float32 => SemanticType::Float32,
            SemanticType::Void => SemanticType::Void,
            SemanticType::FnType { params, rtype } => {
                let mut ps: Vec<SemanticType> = Vec::new();
                let mut i: usize = 0;
                while i < params.len()
                    invariant
                        *self is FnType,
                        (*self)->FnType_params@ == params@,
                        i <= params@.len(),
                        ps@.len() == i,
                        forall|k: int| 0 <= k < i ==> ps@[k]@ == params@[k]@,
                    decreases params@.len() - i,
                {
                    proof {
                        assert(decreases_to!(*self => (*self)->FnType_params));
                        assert(decreases_to!((*self)->FnType_params => (*self)->FnType_params@));
                        assert(decreases_to!((*self)->FnType_params@ => (*self)->FnType_params@[i as int]));
                    }
                    let p = params[i].duplicate();
                    ps.push(p);
                    i = i + 1;
                }
                let rt = (**rtype).duplicate();
                let result = SemanticType::FnType { params: ps, rtype: Box::new(rt) };
                proof {
                    broadcast use group_stypes_view;

                    assert(*self is FnType);
                    assert(self@ is FnType);
                    assert((*self)->FnType_params@ == params@);
                    assert(self@->FnType_params == stypes_view(params@));
                    assert(result@ is FnType);
                    assert(result@->FnType_params == stypes_view(ps@));
                    assert(stypes_view(ps@).len() == ps@.len());
                    assert(stypes_view(ps@) =~= stypes_view(params@));
                    assert(result@->FnType_rtype == Box::new(rt@));
                    assert(self@->FnType_rtype == Box::new((**rtype)@));
                    assert(result@ =~~= self@);
                }
                result
            },
        }
    }

    /// Structural equality, decided by the code itself.
    pub fn same_type(&self, other: &SemanticType) -> (r: bool)
        ensures
            r == (self@ == other@),
        decreases self,
    {
        match (self, other) {
            (SemanticType::Int32, SemanticType::Int32) => true,
            (SemanticType::Float32, SemanticType::Float32) => true,
            (SemanticType::Void, SemanticType::Void) => true,
            (
                SemanticType::FnType { params: ap, rtype: ar },
                SemanticType::FnType { params: bp, rtype: br },
            ) => {
                if ap.len() != bp.len() {
                    proof {
                        broadcast use group_stypes_view;

                        assert(self@->FnType_params == stypes_view(ap@));
                        assert(other@->FnType_params == stypes_view(bp@));
                        assert(stypes_view(ap@).len() == ap@.len());
                        assert(stypes_view(bp@).len() == bp@.len());
                    }
                    return false;
                }
                let mut i: usize = 0;
                while i < ap.len()
                    invariant
                        *self is FnType,
                        (*self)->FnType_params@ == ap@,
                        *other is FnType,
                        (*other)->FnType_params@ == bp@,
                        ap@.len() == bp@.len(),
                        i <= ap@.len(),
                        forall|k: int| 0 <= k < i ==> ap@[k]@ == bp@[k]@,
                    decreases ap@.len() - i,
                {
                    proof {
                        assert(decreases_to!(*self => (*self)->FnType_params));
                        assert(decreases_to!((*self)->FnType_params => (*self)->FnType_params@));
                        assert(decreases_to!((*self)->FnType_params@ => (*self)->FnType_params@[i as int]));
                    }
                    let same = ap[i].same_type(&bp[i]);
                    if !same {
                        proof {
                            broadcast use group_stypes_view;

                            assert(self@->FnType_params == stypes_view(ap@));
                            assert(other@->FnType_params == stypes_view(bp@));
                            assert(stypes_view(ap@)[i as int] == ap@[i as int]@);
                            assert(stypes_view(bp@)[i as int] == bp@[i as int]@);
                        }
                        return false;
                    }
                    i = i + 1;
                }
                let r = (**ar).same_type(&**br);
                proof {
                    broadcast use group_stypes_view;

                    assert(self@->FnType_params == stypes_view(ap@));
                    assert(other@->FnType_params == stypes_view(bp@));
                    assert(self@->FnType_rtype == Box::new((**ar)@));
                    assert(other@->FnType_rtype == Box::new((**br)@));
                    if r {
                        assert(stypes_view(ap@).len() == ap@.len());
                        assert(stypes_view(bp@).len() == bp@.len());
                        assert(stypes_view(ap@) =~= stypes_view(bp@));
                        assert(self@ =~~= other@);
                    }
                }
                r
            },
            _ => false,
        }
    }
}

/// The errors semantic analysis can raise.
#[derive(Debug)]
pub enum SemanticError {
    UndeclaredVariable(String),
    UnrecognizedType(String),
    FunctionRedeclare(String),
    ProgramAnalysis,
    InvalidBinExpr { lhs_type: SemanticType, rhs_type: SemanticType },
    InvalidFnType { return_type: SemanticType, block_type: SemanticType },
}

/// Mathematical value of a `SemanticError`.
#[verifier::ext_equal]
pub enum SemErrV {
    UndeclaredVariable(Seq<char>),
    UnrecognizedType(Seq<char>),
    FunctionRedeclare(Seq<char>),
    ProgramAnalysis,
    InvalidBinExpr { lhs_type: STy, rhs_type: STy },
    InvalidFnType { return_type: STy, block_type: STy },
}

impl View for SemanticError {
    type V = SemErrV;

    open spec fn view(&self) -> SemErrV {
        match self {
            SemanticError::UndeclaredVariable(s) => SemErrV::UndeclaredVariable(s@),
            SemanticError::UnrecognizedType(s) => SemErrV::UnrecognizedType(s@),
            SemanticError::FunctionRedeclare(s) => SemErrV::FunctionRedeclare(s@),
            SemanticError::ProgramAnalysis => SemErrV::ProgramAnalysis,
            SemanticError::InvalidBinExpr { lhs_type, rhs_type } => SemErrV::InvalidBinExpr {
                lhs_type: lhs_type@,
                rhs_type: rhs_type@,
            },
            SemanticError::InvalidFnType { return_type, block_type } => SemErrV::InvalidFnType {
                return_type: return_type@,
                block_type: block_type@,
            },
        }
    }
}

/// View of an analysis outcome.
pub open spec fn res_view(r: Result<SemanticType, SemanticError>) -> Result<STy, SemErrV> {
    match r {
        Ok(t) => Ok(t@),
        Err(e) => Err(e@),
    }
}

pub open spec fn kw_int32() -> Seq<char> {
    seq!['i', 'n', 't', '3', '2']
}

pub open spec fn kw_f32() -> Seq<char> {
    seq!['f', '3', '2']
}

pub open spec fn kw_void() -> Seq<char> {
    seq!['v', 'o', 'i', 'd']
}

/// Name-based type resolution: the fixed vocabulary of declared types, with
/// an absent annotation meaning `Void`.
pub open spec fn resolve_type_name(s: Option<Seq<char>>) -> Result<STy, SemErrV> {
    match s {
        None => Ok(STy::Void),
        Some(n) => if n == kw_int32() {
            Ok(STy::Int32)
        } else if n == kw_f32() {
            Ok(STy::Float32)
        } else if n == kw_void() {
            Ok(STy::Void)
        } else {
            Err(SemErrV::UnrecognizedType(n))
        },
    }
}

/// Resolves the declared parameter types from `i` on, in order, stopping at
/// the first unknown name; each resolved parameter is bound in the flat
/// table as it is resolved, so the function's body sees its parameters.
pub open spec fn sa_params_bind(tbl: TypeTable, ps: Seq<ParamV>, i: int) -> (
    Result<Seq<STy>, SemErrV>,
    TypeTable,
)
    decreases ps.len() - i,
{
    if i < 0 || i >= ps.len() {
        (Ok(Seq::empty()), tbl)
    } else {
        match resolve_type_name(Some(ps[i].kind)) {
            Err(e) => (Err(e), tbl),
            Ok(t) => {
                let (r, t2) = sa_params_bind(tbl.insert(ps[i].name, t), ps, i + 1);
                match r {
                    Err(e) => (Err(e), t2),
                    Ok(rest) => (Ok(seq![t] + rest), t2),
                }
            },
        }
    }
}

/// The type table: a mathematical map from names to types.
pub type TypeTable = Map<Seq<char>, STy>;

/// The analysis of one node: the type it gets (or the error raised) and the
/// table it leaves behind. The table threads left to right through children;
/// a failed analysis still keeps the table changes made before the failure.
pub open spec fn sa_expr(tbl: TypeTable, e: ExprV) -> (Result<STy, SemErrV>, TypeTable)
    decreases e, 0int,
{
    match e {
        ExprV::IntLit(_) => (Ok(STy::Int32), tbl),
        ExprV::FloatLit(_) => (Ok(STy::Float32), tbl),
        ExprV::LetDecl { varname, expr, .. } => {
            let (r, t2) = sa_expr(tbl, *expr);
            match r {
                Ok(st) => (Ok(st), t2.insert(varname, st)),
                Err(er) => (Err(er), t2),
            }
        },
        ExprV::Identifier(s) => if tbl.dom().contains(s) {
            (Ok(tbl[s]), tbl)
        } else {
            (Err(SemErrV::UndeclaredVariable(s)), tbl)
        },
        ExprV::Program(_) => (Err(SemErrV::ProgramAnalysis), tbl),
        ExprV::BinExpr { lhs, rhs, .. } => {
            let (lr, t2) = sa_expr(tbl, *lhs);
            match lr {
                Err(er) => (Err(er), t2),
                Ok(lt) => {
                    let (rr, t3) = sa_expr(t2, *rhs);
                    match rr {
                        Err(er) => (Err(er), t3),
                        Ok(rt) => if lt == rt {
                            (Ok(lt), t3)
                        } else {
                            (Err(SemErrV::InvalidBinExpr { lhs_type: lt, rhs_type: rt }), t3)
                        },
                    }
                },
            }
        },
        ExprV::Negative(inner) => sa_expr(tbl, *inner),
        ExprV::Block(es) => sa_block(tbl, es, 0),
        ExprV::FuncDecl { identifier, params, rtype, block } => {
            match resolve_type_name(rtype) {
                Err(er) => (Err(er), tbl),
                Ok(rt) => {
                    let (pr, tblb) = sa_params_bind(tbl, params, 0);
                    match pr {
                        Err(er) => (Err(er), tblb),
                        Ok(ps) => {
                            let (br, t2) = sa_expr(tblb, *block);
                            match br {
                                Err(er) => (Err(er), t2),
                                Ok(bt) => if bt == rt {
                                    let ft = STy::FnType { params: ps, rtype: Box::new(rt) };
                                    if t2.dom().contains(identifier) {
                                        (
                                            Err(SemErrV::FunctionRedeclare(identifier)),
                                            t2.insert(identifier, ft),
                                        )
                                    } else {
                                        (Ok(ft), t2.insert(identifier, ft))
                                    }
                                } else {
                                    (
                                        Err(
                                            SemErrV::InvalidFnType {
                                                return_type: rt,
                                                block_type: bt,
                                            },
                                        ),
                                        t2,
                                    )
                                },
                            }
                        },
                    }
                },
            }
        },
    }
}

/// The analysis of the elements of a block from `i` on: every element is
/// analyzed for its side effects; the block's type is the last element's, or
/// `Int32` for an empty block.
pub open spec fn sa_block(tbl: TypeTable, es: Seq<ExprV>, i: int) -> (
    Result<STy, SemErrV>,
    TypeTable,
)
    decreases es, es.len() - i,
{
    if i < 0 || i >= es.len() {
        (Ok(STy::Int32), tbl)
    } else if i == es.len() - 1 {
        sa_expr(tbl, es[i])
    } else {
        let (r, t2) = sa_expr(tbl, es[i]);
        match r {
            Ok(_) => sa_block(t2, es, i + 1),
            Err(er) => (Err(er), t2),
        }
    }
}

/// The analysis of a binary expression: both operands are analyzed left to
/// right; their types must be structurally equal, and that type is the
/// result. There is no implicit numeric promotion.
pub open spec fn sa_binexpr(tbl: TypeTable, lhs: ExprV, rhs: ExprV) -> (
    Result<STy, SemErrV>,
    TypeTable,
) {
    let (lr, t2) = sa_expr(tbl, lhs);
    match lr {
        Err(er) => (Err(er), t2),
        Ok(lt) => {
            let (rr, t3) = sa_expr(t2, rhs);
            match rr {
                Err(er) => (Err(er), t3),
                Ok(rt) => if lt == rt {
                    (Ok(lt), t3)
                } else {
                    (Err(SemErrV::InvalidBinExpr { lhs_type: lt, rhs_type: rt }), t3)
                },
            }
        },
    }
}

pub open spec fn opt_str_view(s: Option<&str>) -> Option<Seq<char>> {
    match s {
        Some(x) => Some(x@),
        None => None,
    }
}

/// The semantic analyzer: owns the compilation's only type table.
pub struct SemanticAnalayzer {
    variables: SymbolTable<SemanticType>,
}

impl View for SemanticAnalayzer {
    type V = TypeTable;

    closed spec fn view(&self) -> TypeTable {
        self.variables@
    }
}

impl SemanticAnalayzer {
    /// The table's own invariant holds.
    pub closed spec fn wf(&self) -> bool {
        self.variables.wf()
    }

    pub fn new() -> (a: Self)
        ensures
            a.wf(),
            a@ == Map::<Seq<char>, STy>::empty(),
    {
        SemanticAnalayzer { variables: SymbolTable::new() }
    }

    /// Resolves a declared type name against the fixed vocabulary; an absent
    /// name means `Void`.
    pub fn get_type(s: Option<&str>) -> (r: Result<SemanticType, SemanticError>)
        ensures
            match r {
                Ok(t) => resolve_type_name(opt_str_view(s)) == Ok::<STy, SemErrV>(t@),
                Err(e) => resolve_type_name(opt_str_view(s)) == Err::<STy, SemErrV>(e@),
            },
    {
        proof {
            reveal_strlit("int32");
            reveal_strlit("f32");
            reveal_strlit("void");
            assert("int32"@ =~= kw_int32());
            assert("f32"@ =~= kw_f32());
            assert("void"@ =~= kw_void());
        }
        match s {
            None => Ok(SemanticType::Void),
            Some(st) => {
                if str_eq_chars(st, "int32") {
                    Ok(SemanticType::Int32)
                } else if str_eq_chars(st, "f32") {
                    Ok(SemanticType::Float32)
                } else if str_eq_chars(st, "void") {
                    Ok(SemanticType::Void)
                } else {
                    Err(SemanticError::UnrecognizedType(st.to_owned()))
                }
            },
        }
    }

    /// Unbinds a name, handing back the type it had.
    pub fn delete_var(&mut self, varname: &String) -> (r: Option<SemanticType>)
        requires
            old(self).wf(),
        ensures
            final(self).wf(),
            final(self)@ == old(self)@.remove(varname@),
            match r {
                Some(prev) => old(self)@.dom().contains(varname@) && prev@ == old(self)@[varname@],
                None => !old(self)@.dom().contains(varname@) && final(self)@ == old(self)@,
            },
    {
        self.variables.remove(varname)
    }

    /// Analyzes the initializer, then binds the name to its type,
    /// overwriting any prior binding; hands back the type and the binding it
    /// replaced.
    pub fn create_var(&mut self, varname: &String, expr: &Expression) -> (r: Result<
        (SemanticType, Option<SemanticType>),
        SemanticError,
    >)
        requires
            old(self).wf(),
        ensures
            final(self).wf(),
            ({
                let (r0, t2) = sa_expr(old(self)@, expr@);
                match r {
                    Ok((t, prev)) => {
                        &&& r0 == Ok::<STy, SemErrV>(t@)
                        &&& final(self)@ == t2.insert(varname@, t@)
                        &&& match prev {
                            Some(p) => t2.dom().contains(varname@) && p@ == t2[varname@],
                            None => !t2.dom().contains(varname@),
                        }
                    },
                    Err(e) => r0 == Err::<STy, SemErrV>(e@) && final(self)@ == t2,
                }
            }),
    {
        let stype = match self.analyze_expr(expr) {
            Ok(t) => t,
            Err(e) => {
                return Err(e);
            },
        };
        let copy = stype.duplicate();
        let prev = self.variables.set(varname, copy);
        Ok((stype, prev))
    }

    /// Looks a name up in the table.
    pub fn analyze_var(&self, varname: &String) -> (r: Result<&SemanticType, SemanticError>)
        requires
            self.wf(),
        ensures
            match r {
                Ok(t) => self@.dom().contains(varname@) && t@ == self@[varname@],
                Err(e) => !self@.dom().contains(varname@) && e@ == SemErrV::UndeclaredVariable(
                    varname@,
                ),
            },
    {
        match self.variables.get(varname) {
            Some(t) => Ok(t),
            None => Err(SemanticError::UndeclaredVariable(varname.clone())),
        }
    }

    /// Analyzes both operands and demands structurally equal types.
    pub fn analyze_binexpr(&mut self, lhs: &Expression, rhs: &Expression) -> (r: Result<
        SemanticType,
        SemanticError,
    >)
        requires
            old(self).wf(),
        ensures
            final(self).wf(),
            sa_binexpr(old(self)@, lhs@, rhs@) == (res_view(r), final(self)@),
    {
        let lt = match self.analyze_expr(lhs) {
            Ok(t) => t,
            Err(e) => {
                return Err(e);
            },
        };
        let rt = match self.analyze_expr(rhs) {
            Ok(t) => t,
            Err(e) => {
                return Err(e);
            },
        };
        if lt.same_type(&rt) {
            Ok(lt)
        } else {
            Err(SemanticError::InvalidBinExpr { lhs_type: lt, rhs_type: rt })
        }
    }

    /// Analyzes one node: returns exactly the type `sa_expr` gives it and
    /// leaves the table exactly as `sa_expr` says.
    pub fn analyze_expr(&mut self, expr: &Expression) -> (r: Result<SemanticType, SemanticError>)
        requires
            old(self).wf(),
        ensures
            final(self).wf(),
            sa_expr(old(self)@, expr@) == (res_view(r), final(self)@),
        decreases expr,
    {
        match expr {
            Expression::IntLit(_) => Ok(SemanticType::Int32),
            Expression::FloatLit(_) => Ok(SemanticType::Float32),
            Expression::LetDecl { varname, expr: init, .. } => {
                let stype = match self.analyze_expr(&**init) {
                    Ok(t) => t,
                    Err(e) => {
                        return Err(e);
                    },
                };
                let copy = stype.duplicate();
                self.variables.set(varname, copy);
                Ok(stype)
            },
            Expression::Identifier(s) => {
                match self.analyze_var(s) {
                    Ok(t) => Ok(t.duplicate()),
                    Err(e) => Err(e),
                }
            },
            Expression::Program(_) => Err(SemanticError::ProgramAnalysis),
            Expression::BinExpr { lhs, rhs, .. } => {
                let lt = match self.analyze_expr(&**lhs) {
                    Ok(t) => t,
                    Err(e) => {
                        return Err(e);
                    },
                };
                let rt = match self.analyze_expr(&**rhs) {
                    Ok(t) => t,
                    Err(e) => {
                        return Err(e);
                    },
                };
                if lt.same_type(&rt) {
                    Ok(lt)
                } else {
                    Err(SemanticError::InvalidBinExpr { lhs_type: lt, rhs_type: rt })
                }
            },
            Expression::Negative(inner) => self.analyze_expr(&**inner),
            Expression::Block(es) => {
                let ghost tbl0 = self@;
                let ghost esv = exprs_view(es@);
                proof {
                    assert(expr@ == ExprV::Block(esv));
                }
                let mut result = SemanticType::Int32;
                let mut i: usize = 0;
                while i < es.len()
                    invariant
                        old(self)@ == tbl0,
                        old(self).wf(),
                        *expr is Block,
                        (*expr)->Block_0@ == es@,
                        self.wf(),
                        i <= es@.len(),
                        esv == exprs_view(es@),
                        esv.len() == es@.len(),
                        sa_block(tbl0, esv, 0) == if i < esv.len() {
                            sa_block(self@, esv, i as int)
                        } else {
                            (Ok::<STy, SemErrV>(result@), self@)
                        },
                    decreases es@.len() - i,
                {
                    proof {
                        assert(decreases_to!(*expr => (*expr)->Block_0));
                        assert(decreases_to!((*expr)->Block_0 => (*expr)->Block_0@));
                        assert(decreases_to!((*expr)->Block_0@ => (*expr)->Block_0@[i as int]));
                        assert((*expr)->Block_0@ == es@);
                        assert(exprs_view(es@)[i as int] == es@[i as int]@);
                    }
                    let ghost cur = self@;
                    let r = self.analyze_expr(&es[i]);
                    match r {
                        Ok(t) => {
                            result = t;
                        },
                        Err(e) => {
                            proof {
                                assert(sa_expr(cur, esv[i as int]) == (
                                    Err::<STy, SemErrV>(e@),
                                    self@,
                                ));
                                assert(sa_block(cur, esv, i as int) == (
                                    Err::<STy, SemErrV>(e@),
                                    self@,
                                ));
                                assert(sa_expr(tbl0, expr@) == (Err::<STy, SemErrV>(e@), self@));
                                assert(tbl0 == old(self)@);
                                assert(res_view(Err::<SemanticType, SemanticError>(e)) == Err::<
                                    STy,
                                    SemErrV,
                                >(e@));
                            }
                            return Err(e);
                        },
                    }
                    i = i + 1;
                }
                Ok(result)
            },
            Expression::FuncDecl { identifier, params, rtype, block } => {
                let ghost psv = params_view(params@);
                let ghost tbl1 = self@;
                let rt = match Self::get_type(
                    match rtype {
                        Some(s) => Some(s.as_str()),
                        None => None,
                    },
                ) {
                    Ok(t) => t,
                    Err(e) => {
                        return Err(e);
                    },
                };
                let mut parameters: Vec<SemanticType> = Vec::new();
                let mut i: usize = 0;
                while i < params.len()
                    invariant
                        old(self).wf(),
                        tbl1 == old(self)@,
                        self.wf(),
                        expr@ is FuncDecl,
                        expr@->FuncDecl_identifier == identifier@,
                        expr@->FuncDecl_params == psv,
                        resolve_type_name(expr@->FuncDecl_rtype) == Ok::<STy, SemErrV>(rt@),
                        psv == params_view(params@),
                        psv.len() == params@.len(),
                        i <= params@.len(),
                        parameters@.len() == i,
                        ({
                            let (r0, tb0) = sa_params_bind(tbl1, psv, 0);
                            let (ri, tbi) = sa_params_bind(self@, psv, i as int);
                            &&& tb0 == tbi
                            &&& match (r0, ri) {
                                (Ok(all), Ok(rest)) => all == stypes_view(parameters@) + rest,
                                (Err(a), Err(b)) => a == b,
                                _ => false,
                            }
                        }),
                    decreases params@.len() - i,
                {
                    proof {
                        broadcast use group_stypes_view;

                        assert(psv[i as int] == params@[i as int]@);
                    }
                    let pt = match Self::get_type(Some(params[i].kind.as_str())) {
                        Ok(t) => t,
                        Err(e) => {
                            return Err(e);
                        },
                    };
                    let copy = pt.duplicate();
                    self.variables.set(&params[i].name, copy);
                    let ghost pv0 = parameters@;
                    parameters.push(pt);
                    i = i + 1;
                    proof {
                        broadcast use group_stypes_view;

                        assert(stypes_view(parameters@) =~= stypes_view(pv0).push(
                            parameters@.last()@,
                        )) by {
                            assert(parameters@.drop_last() =~= pv0);
                        }
                        let (r0, tb0) = sa_params_bind(tbl1, psv, 0);
                        let (ri, tbi) = sa_params_bind(self@, psv, i as int);
                        match (r0, ri) {
                            (Ok(all), Ok(rest)) => {
                                assert(stypes_view(pv0) + (seq![parameters@.last()@] + rest)
                                    =~= stypes_view(parameters@) + rest);
                            },
                            _ => {},
                        }
                    }
                }
                proof {
                    broadcast use group_stypes_view;

                    assert(stypes_view(parameters@) + Seq::<STy>::empty() =~= stypes_view(
                        parameters@,
                    ));
                }
                let bt = match self.analyze_expr(&**block) {
                    Ok(t) => t,
                    Err(e) => {
                        return Err(e);
                    },
                };
                if bt.same_type(&rt) {
                    let ftype = SemanticType::FnType { params: parameters, rtype: Box::new(rt) };
                    let copy = ftype.duplicate();
                    if let Some(_) = self.variables.set(identifier, copy) {
                        return Err(SemanticError::FunctionRedeclare(identifier.clone()));
                    }
                    Ok(ftype)
                } else {
                    Err(SemanticError::InvalidFnType { return_type: rt, block_type: bt })
                }
            },
        }
    }
}

/// Analysis only ever adds or overwrites bindings: a name bound before a
/// node is analyzed is still bound afterwards.
pub proof fn lemma_sa_table_grows(tbl: TypeTable, e: ExprV, k: Seq<char>)
    requires
        tbl.dom().contains(k),
    ensures
        sa_expr(tbl, e).1.dom().contains(k),
    decreases e, 0int,
{
    match e {
        ExprV::LetDecl { varname, expr, .. } => {
            lemma_sa_table_grows(tbl, *expr, k);
        },
        ExprV::BinExpr { lhs, rhs, .. } => {
            lemma_sa_table_grows(tbl, *lhs, k);
            let (lr, t2) = sa_expr(tbl, *lhs);
            if lr is Ok {
                lemma_sa_table_grows(t2, *rhs, k);
            }
        },
        ExprV::Negative(inner) => {
            lemma_sa_table_grows(tbl, *inner, k);
        },
        ExprV::Block(es) => {
            lemma_sa_block_table_grows(tbl, es, 0, k);
        },
        ExprV::FuncDecl { params, block, .. } => {
            lemma_sa_params_bind_grows(tbl, params, 0, k);
            let (pr, tblb) = sa_params_bind(tbl, params, 0);
            if pr is Ok {
                lemma_sa_table_grows(tblb, *block, k);
            }
        },
        _ => {},
    }
}

proof fn lemma_sa_block_table_grows(tbl: TypeTable, es: Seq<ExprV>, i: int, k: Seq<char>)
    requires
        tbl.dom().contains(k),
    ensures
        sa_block(tbl, es, i).1.dom().contains(k),
    decreases es, es.len() - i,
{
    if 0 <= i < es.len() {
        lemma_sa_table_grows(tbl, es[i], k);
        if i < es.len() - 1 {
            let (r, t2) = sa_expr(tbl, es[i]);
            if r is Ok {
                lemma_sa_block_table_grows(t2, es, i + 1, k);
            }
        }
    }
}

proof fn lemma_sa_params_bind_grows(tbl: TypeTable, ps: Seq<ParamV>, i: int, k: Seq<char>)
    requires
        tbl.dom().contains(k),
    ensures
        sa_params_bind(tbl, ps, i).1.dom().contains(k),
    decreases ps.len() - i,
{
    if 0 <= i < ps.len() {
        match resolve_type_name(Some(ps[i].kind)) {
            Err(_) => {},
            Ok(t) => {
                lemma_sa_params_bind_grows(tbl.insert(ps[i].name, t), ps, i + 1, k);
            },
        }
    }
}

/// Declaring a function under a name that is already bound never succeeds:
/// the declaration's analysis yields an error, and when everything else
/// about the declaration is well-formed — its return type and parameter
/// types resolve and its body's type matches the declared return type — that
/// error is `FunctionRedeclare` with the function's name.
pub proof fn lemma_function_redeclare(
    tbl: TypeTable,
    identifier: Seq<char>,
    params: Seq<ParamV>,
    rtype: Option<Seq<char>>,
    block: Box<ExprV>,
)
    requires
        tbl.dom().contains(identifier),
    ensures
        sa_expr(tbl, ExprV::FuncDecl { identifier, params, rtype, block }).0 is Err,
        ({
            let rt = resolve_type_name(rtype);
            let (pr, tblb) = sa_params_bind(tbl, params, 0);
            let br = sa_expr(tblb, *block).0;
            (rt is Ok && pr is Ok && br is Ok && br->Ok_0 == rt->Ok_0)
                ==> sa_expr(tbl, ExprV::FuncDecl { identifier, params, rtype, block }).0 == Err::<
                STy,
                SemErrV,
            >(SemErrV::FunctionRedeclare(identifier))
        }),
{
    match resolve_type_name(rtype) {
        Err(_) => {},
        Ok(rt) => {
            lemma_sa_params_bind_grows(tbl, params, 0, identifier);
            let (pr, tblb) = sa_params_bind(tbl, params, 0);
            if pr is Ok {
                lemma_sa_table_grows(tblb, *block, identifier);
            }
        },
    }
}

} // verus!

