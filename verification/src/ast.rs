//! The abstract syntax tree produced by the parser: a recursive tagged union
//! owning its children.

use vstd::prelude::*;
use crate::tokens::Operator;

verus! {

/// A declared function parameter: its name and the name of its type.
#[derive(Debug, Clone, PartialEq, Eq)]
pub struct Param {
    pub name: String,
    pub kind: String,
}

/// Mathematical value of a `Param`.
#[verifier::ext_equal]
pub struct ParamV {
    pub name: Seq<char>,
    pub kind: Seq<char>,
}

impl View for Param {
    type V = ParamV;

    open spec fn view(&self) -> ParamV {
        ParamV { name: self.name@, kind: self.kind@ }
    }
}

#[derive(Debug, Clone)]
pub enum LetDeclKind {
    Normal,
}

/// Mathematical value of a `LetDeclKind`.
pub enum LetDeclKindV {
    Normal,
}

impl View for LetDeclKind {
    type V = LetDeclKindV;

    open spec fn view(&self) -> LetDeclKindV {
        LetDeclKindV::Normal
    }
}

#[derive(Debug)]
pub enum Expression {
    /// The root of a parse; never legal as a sub-expression.
    Program(Vec<Expression>),
    /// A brace-delimited sequence; its value is the last element's.
    Block(Vec<Expression>),
    FuncDecl {
        identifier: String,
        params: Vec<Param>,
        rtype: Option<String>,
        block: Box<Expression>,
    },
    LetDecl {
        kind: LetDeclKind,
        varname: String,
        expr: Box<Expression>,
    },
    BinExpr {
        lhs: Box<Expression>,
        rhs: Box<Expression>,
        op: Operator,
    },
    Negative(Box<Expression>),
    Identifier(String),
    IntLit(String),
    FloatLit(String),
}

/// Mathematical value of an `Expression`.
#[verifier::ext_equal]
pub enum ExprV {
    Program(Seq<ExprV>),
    Block(Seq<ExprV>),
    FuncDecl {
        identifier: Seq<char>,
        params: Seq<ParamV>,
        rtype: Option<Seq<char>>,
        block: Box<ExprV>,
    },
    LetDecl {
        kind: LetDeclKindV,
        varname: Seq<char>,
        expr: Box<ExprV>,
    },
    BinExpr {
        lhs: Box<ExprV>,
        rhs: Box<ExprV>,
        op: Operator,
    },
    Negative(Box<ExprV>),
    Identifier(Seq<char>),
    IntLit(Seq<char>),
    FloatLit(Seq<char>),
}

/// The views of a sequence of parameters.
pub open spec fn params_view(ps: Seq<Param>) -> Seq<ParamV> {
    Seq::new(ps.len(), |i: int| ps[i]@)
}

impl Expression {
    /// A structural copy.
    pub fn duplicate(&self) -> (r: Expression)
        ensures
            r@ == self@,
        decreases self,
    {
        match self {
            Expression::Program(es) => Expression::Program(duplicate_exprs(es)),
            Expression::Block(es) => Expression::Block(duplicate_exprs(es)),
            Expression::FuncDecl { identifier, params, rtype, block } => {
                let mut ps: Vec<Param> = Vec::new();
                let mut i: usize = 0;
                while i < params.len()
                    invariant
                        i <= params@.len(),
                        ps@.len() == i,
                        forall|k: int| 0 <= k < i ==> ps@[k]@ == params@[k]@,
                    decreases params@.len() - i,
                {
                    ps.push(
                        Param { name: params[i].name.clone(), kind: params[i].kind.clone() },
                    );
                    i = i + 1;
                }
                let r = Expression::FuncDecl {
                    identifier: identifier.clone(),
                    params: ps,
                    rtype: match rtype {
                        Some(s) => Some(s.clone()),
                        None => None,
                    },
                    block: Box::new((**block).duplicate()),
                };
                proof {
                    assert(r@ =~~= self@) by {
                        assert(params_view(r->FuncDecl_params@) =~= params_view(params@));
                    }
                }
                r
            },
            Expression::LetDecl { varname, expr, .. } => Expression::LetDecl {
                kind: LetDeclKind::Normal,
                varname: varname.clone(),
                expr: Box::new((**expr).duplicate()),
            },
            Expression::BinExpr { lhs, rhs, op } => Expression::BinExpr {
                lhs: Box::new((**lhs).duplicate()),
                rhs: Box::new((**rhs).duplicate()),
                op: *op,
            },
            Expression::Negative(inner) => Expression::Negative(Box::new((**inner).duplicate())),
            Expression::Identifier(s) => Expression::Identifier(s.clone()),
            Expression::IntLit(s) => Expression::IntLit(s.clone()),
            Expression::FloatLit(s) => Expression::FloatLit(s.clone()),
        }
    }
}

/// A structural copy of a list of expressions.
fn duplicate_exprs(es: &Vec<Expression>) -> (r: Vec<Expression>)
    ensures
        exprs_view(r@) == exprs_view(es@),
    decreases es@,
{
    broadcast use group_exprs_view;

    let mut out: Vec<Expression> = Vec::new();
    let mut i: usize = 0;
    while i < es.len()
        invariant
            i <= es@.len(),
            out@.len() == i,
            forall|k: int| 0 <= k < i ==> out@[k]@ == es@[k]@,
        decreases es@.len() - i,
    {
        proof {
            assert(decreases_to!(es@ => es@[i as int]));
        }
        out.push(es[i].duplicate());
        i = i + 1;
    }
    proof {
        assert(exprs_view(out@) =~= exprs_view(es@));
    }
    out
}

/// Mathematical value of an `Expression`.
pub open spec fn expr_view(e: Expression) -> ExprV
    decreases e, 0int,
{
    match e {
        Expression::Program(es) => ExprV::Program(exprs_view(es@)),
        Expression::Block(es) => ExprV::Block(exprs_view(es@)),
        Expression::FuncDecl { identifier, params, rtype, block } => ExprV::FuncDecl {
            identifier: identifier@,
            params: params_view(params@),
            rtype: match rtype {
                Some(r) => Some(r@),
                None => None,
            },
            block: Box::new(expr_view(*block)),
        },
        Expression::LetDecl { kind, varname, expr } => ExprV::LetDecl {
            kind: kind@,
            varname: varname@,
            expr: Box::new(expr_view(*expr)),
        },
        Expression::BinExpr { lhs, rhs, op } => ExprV::BinExpr {
            lhs: Box::new(expr_view(*lhs)),
            rhs: Box::new(expr_view(*rhs)),
            op,
        },
        Expression::Negative(inner) => ExprV::Negative(Box::new(expr_view(*inner))),
        Expression::Identifier(s) => ExprV::Identifier(s@),
        Expression::IntLit(s) => ExprV::IntLit(s@),
        Expression::FloatLit(s) => ExprV::FloatLit(s@),
    }
}

/// The views of a sequence of expressions.
pub open spec fn exprs_view(es: Seq<Expression>) -> Seq<ExprV>
    decreases es, es.len(),
{
    if es.len() == 0 {
        Seq::empty()
    } else {
        exprs_view(es.drop_last()).push(expr_view(es.last()))
    }
}

impl View for Expression {
    type V = ExprV;

    open spec fn view(&self) -> ExprV {
        expr_view(*self)
    }
}

pub broadcast proof fn lemma_exprs_view_len(es: Seq<Expression>)
    ensures
        (#[trigger] exprs_view(es)).len() == es.len(),
    decreases es.len(),
{
    if es.len() > 0 {
        lemma_exprs_view_len(es.drop_last());
    }
}

pub broadcast proof fn lemma_exprs_view_index(es: Seq<Expression>, i: int)
    requires
        0 <= i < es.len(),
    ensures
        #[trigger] exprs_view(es)[i] == es[i]@,
    decreases es.len(),
{
    lemma_exprs_view_len(es);
    if es.len() > 0 {
        if i == es.len() - 1 {
            lemma_exprs_view_len(es.drop_last());
        } else {
            lemma_exprs_view_index(es.drop_last(), i);
        }
    }
}

/// The broadcast facts about `exprs_view`: its length and elements.
pub broadcast group group_exprs_view {
    lemma_exprs_view_len,
    lemma_exprs_view_index,
}

} // verus!
