//! Recursive-descent parsing with precedence climbing: consumes the token
//! queue and produces the AST, logging each consumed token in a diagnostic
//! backtrace.
//!
//! The `sp_*` functions are the mathematical description of the parse: each
//! takes the remaining tokens and gives the parsed result together with how
//! many tokens were consumed; the parser's methods are proved to follow them.

use std::collections::VecDeque;
use vstd::prelude::*;
use vstd::string::StringExecFns;

use crate::ast::{exprs_view, ExprV, Expression, LetDeclKind, LetDeclKindV, Param, ParamV};
use crate::strutil::str_eq_chars;
use crate::tokens::{tokens_view, Operator, Token, TokenKind, TokenKindV, TokenV};

verus! {

broadcast use vstd::std_specs::vecdeque::group_vec_dequeue_axioms;

/// One parse step of the diagnostic backtrace: the producing function, the
/// token consumed and its source position.
#[derive(Debug, Clone)]
pub struct ParseStep {
    pub line: usize,
    pub column: usize,
    pub fname: String,
    pub token: Token,
}

/// Mathematical value of a `ParseStep`.
pub struct ParseStepV {
    pub line: nat,
    pub column: nat,
    pub fname: Seq<char>,
    pub token: TokenV,
}

impl View for ParseStep {
    type V = ParseStepV;

    open spec fn view(&self) -> ParseStepV {
        ParseStepV {
            line: self.line as nat,
            column: self.column as nat,
            fname: self.fname@,
            token: self.token@,
        }
    }
}

/// The errors parsing can raise.
#[derive(Debug)]
pub enum ParsingError {
    /// The parser still holds tokens: a `Parser` is single-use.
    InQueueParsing,
    /// Ran out of tokens where one was required.
    EndedTokens,
    /// A token that starts no rule.
    UnexpectedToken(Token),
    /// A specific token kind was required.
    WrongToken { expected: TokenKind, received: TokenKind, token: Token },
    /// A non-arrow function declaration's body did not parse to a block.
    ExpectedBlock(Box<Expression>),
}

/// Mathematical value of a `ParsingError`.
#[verifier::ext_equal]
pub enum PErrV {
    InQueueParsing,
    EndedTokens,
    UnexpectedToken(TokenV),
    WrongToken { expected: TokenKindV, received: TokenKindV, token: TokenV },
    ExpectedBlock(Box<ExprV>),
}

impl View for ParsingError {
    type V = PErrV;

    open spec fn view(&self) -> PErrV {
        match self {
            ParsingError::InQueueParsing => PErrV::InQueueParsing,
            ParsingError::EndedTokens => PErrV::EndedTokens,
            ParsingError::UnexpectedToken(t) => PErrV::UnexpectedToken(t@),
            ParsingError::WrongToken { expected, received, token } => PErrV::WrongToken {
                expected: expected@,
                received: received@,
                token: token@,
            },
            ParsingError::ExpectedBlock(e) => PErrV::ExpectedBlock(Box::new((**e)@)),
        }
    }
}

/// Consumed-token counts are clamped to the tokens that exist.
pub open spec fn capped(k: int, ts: Seq<TokenV>) -> nat {
    if k < 0 {
        0
    } else if k > ts.len() {
        ts.len() as nat
    } else {
        k as nat
    }
}

/// As `capped`, but at least one token: a successful statement always
/// consumes something.
pub open spec fn cap1(k: int, ts: Seq<TokenV>) -> nat {
    let c = capped(k, ts);
    if c < 1 {
        1nat
    } else {
        c
    }
}

/// Whether two token kinds are the same variant, payloads ignored.
pub open spec fn kindv_same_variant(a: TokenKindV, b: TokenKindV) -> bool {
    match a {
        TokenKindV::Let => b is Let,
        TokenKindV::Func => b is Func,
        TokenKindV::Identifier(_) => b is Identifier,
        TokenKindV::IntLit(_) => b is IntLit,
        TokenKindV::FloatLit(_) => b is FloatLit,
        TokenKindV::OpenParen => b is OpenParen,
        TokenKindV::CloseParen => b is CloseParen,
        TokenKindV::OpenBrace => b is OpenBrace,
        TokenKindV::CloseBrace => b is CloseBrace,
        TokenKindV::SemiColon => b is SemiColon,
        TokenKindV::Colon => b is Colon,
        TokenKindV::Operator(_) => b is Operator,
        TokenKindV::Eof => b is Eof,
    }
}

/// One statement: a `let` declaration, a function declaration, or an
/// expression, dispatched on the first token.
pub open spec fn sp_parse(ts: Seq<TokenV>) -> (Result<ExprV, PErrV>, nat)
    decreases ts.len(), 0int,
{
    if ts.len() == 0 {
        (Err(PErrV::EndedTokens), 0)
    } else {
        let tk = ts[0];
        match tk.kind {
            TokenKindV::Let => {
                let (r, n) = sp_let(ts.skip(1));
                (r, capped(1 as int + n as int, ts))
            },
            TokenKindV::Func => {
                let (r, n) = sp_func(ts.skip(1));
                (r, capped(1 as int + n as int, ts))
            },
            TokenKindV::IntLit(_) => {
                let (r, n) = sp_secondary(tk, ts.skip(1));
                (r, capped(1 as int + n as int, ts))
            },
            TokenKindV::FloatLit(_) => {
                let (r, n) = sp_secondary(tk, ts.skip(1));
                (r, capped(1 as int + n as int, ts))
            },
            TokenKindV::Identifier(_) => {
                let (r, n) = sp_secondary(tk, ts.skip(1));
                (r, capped(1 as int + n as int, ts))
            },
            _ => {
                let (r, n) = sp_primary(tk, ts.skip(1));
                (r, capped(1 as int + n as int, ts))
            },
        }
    }
}

/// A `let` declaration after its keyword: `IDENT "=" expr`.
#[verifier::opaque]
pub open spec fn sp_let(ts: Seq<TokenV>) -> (Result<ExprV, PErrV>, nat)
    decreases ts.len(), 1int,
{
    if ts.len() == 0 {
        (Err(PErrV::EndedTokens), 0)
    } else if !(ts[0].kind is Identifier) {
        (
            Err(
                PErrV::WrongToken {
                    expected: TokenKindV::Identifier(Seq::empty()),
                    received: ts[0].kind,
                    token: ts[0],
                },
            ),
            0,
        )
    } else if ts.len() < 2 {
        (Err(PErrV::EndedTokens), 0)
    } else if !(ts[1].kind is Operator && ts[1].kind->Operator_0 == Operator::Eq) {
        (
            Err(
                PErrV::WrongToken {
                    expected: TokenKindV::Operator(Operator::Eq),
                    received: ts[1].kind,
                    token: ts[1],
                },
            ),
            0,
        )
    } else {
        let (r, n) = sp_parse(ts.skip(2));
        match r {
            Err(e) => (Err(e), 0),
            Ok(e) => (
                Ok(
                    ExprV::LetDecl {
                        kind: LetDeclKindV::Normal,
                        varname: ts[0].kind->Identifier_0,
                        expr: Box::new(e),
                    },
                ),
                capped(2 as int + n as int, ts),
            ),
        }
    }
}

/// The parameter list after `(`: `(IDENT ":" IDENT)` separated by `;`,
/// closed by `)`.
#[verifier::opaque]
pub open spec fn sp_params(ts: Seq<TokenV>) -> (Result<Seq<ParamV>, PErrV>, nat)
    decreases ts.len(), 0int,
{
    if ts.len() == 0 {
        (Err(PErrV::EndedTokens), 0)
    } else if ts[0].kind is CloseParen {
        (Ok(Seq::empty()), 1)
    } else if !(ts[0].kind is Identifier) {
        (
            Err(
                PErrV::WrongToken {
                    expected: TokenKindV::Identifier(Seq::empty()),
                    received: ts[0].kind,
                    token: ts[0],
                },
            ),
            0,
        )
    } else if ts.len() < 2 {
        (Err(PErrV::EndedTokens), 0)
    } else if !(ts[1].kind is Colon) {
        (
            Err(
                PErrV::WrongToken { expected: TokenKindV::Colon, received: ts[1].kind, token: ts[1] },
            ),
            0,
        )
    } else if ts.len() < 3 {
        (Err(PErrV::EndedTokens), 0)
    } else if !(ts[2].kind is Identifier) {
        (
            Err(
                PErrV::WrongToken {
                    expected: TokenKindV::Identifier(Seq::empty()),
                    received: ts[2].kind,
                    token: ts[2],
                },
            ),
            0,
        )
    } else {
        let p = ParamV { name: ts[0].kind->Identifier_0, kind: ts[2].kind->Identifier_0 };
        if ts.len() < 4 {
            (Err(PErrV::EndedTokens), 0)
        } else if ts[3].kind is CloseParen {
            (Ok(seq![p]), 4)
        } else if ts[3].kind is SemiColon {
            let (r, n) = sp_params(ts.skip(4));
            match r {
                Err(e) => (Err(e), 0),
                Ok(rest) => (Ok(seq![p] + rest), capped(4 as int + n as int, ts)),
            }
        } else {
            (
                Err(
                    PErrV::WrongToken {
                        expected: TokenKindV::SemiColon,
                        received: ts[3].kind,
                        token: ts[3],
                    },
                ),
                0,
            )
        }
    }
}

/// A function declaration after its keyword: name, parameter list, then
/// either a declared return type, an arrow body introduced by `=`, or a
/// brace-delimited block body.
#[verifier::opaque]
pub open spec fn sp_func(ts: Seq<TokenV>) -> (Result<ExprV, PErrV>, nat)
    decreases ts.len(), 1int,
{
    if ts.len() == 0 {
        (Err(PErrV::EndedTokens), 0)
    } else if !(ts[0].kind is Identifier) {
        (
            Err(
                PErrV::WrongToken {
                    expected: TokenKindV::Identifier(Seq::empty()),
                    received: ts[0].kind,
                    token: ts[0],
                },
            ),
            0,
        )
    } else if ts.len() < 2 {
        (Err(PErrV::EndedTokens), 0)
    } else if !(ts[1].kind is OpenParen) {
        (
            Err(
                PErrV::WrongToken {
                    expected: TokenKindV::OpenParen,
                    received: ts[1].kind,
                    token: ts[1],
                },
            ),
            0,
        )
    } else {
        let fname = ts[0].kind->Identifier_0;
        let (pr, np) = sp_params(ts.skip(2));
        match pr {
            Err(e) => (Err(e), 0),
            Ok(params) => {
                let c2 = capped(2 as int + np as int, ts);
                let rest = ts.skip(c2 as int);
                if rest.len() == 0 {
                    (Err(PErrV::EndedTokens), 0)
                } else if rest[0].kind is Colon {
                    if rest.len() < 2 {
                        (Err(PErrV::EndedTokens), 0)
                    } else if !(rest[1].kind is Identifier) {
                        (
                            Err(
                                PErrV::WrongToken {
                                    expected: TokenKindV::Identifier(Seq::empty()),
                                    received: rest[1].kind,
                                    token: rest[1],
                                },
                            ),
                            0,
                        )
                    } else {
                        let rtype = Some(rest[1].kind->Identifier_0);
                        if rest.len() >= 3 && rest[2].kind is Operator && rest[2].kind->Operator_0
                            == Operator::Eq {
                            sp_func_body(ts, fname, params, rtype, capped(c2 as int + 3 as int, ts), false)
                        } else {
                            sp_func_body(ts, fname, params, rtype, capped(c2 as int + 2 as int, ts), true)
                        }
                    }
                } else if rest[0].kind is Operator && rest[0].kind->Operator_0 == Operator::Eq {
                    sp_func_body(ts, fname, params, None, capped(c2 as int + 1 as int, ts), false)
                } else if rest[0].kind is OpenBrace {
                    sp_func_body(ts, fname, params, None, c2, true)
                } else {
                    (Err(PErrV::UnexpectedToken(rest[0])), 0)
                }
            },
        }
    }
}

/// The body of a function declaration, parsed from offset `pre` of the
/// declaration's tokens; a non-arrow declaration demands a block.
#[verifier::opaque]
pub open spec fn sp_func_body(
    ts: Seq<TokenV>,
    fname: Seq<char>,
    params: Seq<ParamV>,
    rtype: Option<Seq<char>>,
    pre: nat,
    expect_block: bool,
) -> (Result<ExprV, PErrV>, nat)
    decreases ts.len(), 0int,
{
    if pre < 2 || pre > ts.len() {
        // a body is only ever parsed after the name and parameter list
        (Err(PErrV::EndedTokens), 0)
    } else {
        let (br, nb) = sp_parse(ts.skip(pre as int));
        match br {
            Err(e) => (Err(e), 0),
            Ok(b) => if expect_block && !(b is Block) {
                (Err(PErrV::ExpectedBlock(Box::new(b))), 0)
            } else {
                (
                    Ok(
                        ExprV::FuncDecl {
                            identifier: fname,
                            params,
                            rtype,
                            block: Box::new(b),
                        },
                    ),
                    capped(pre as int + nb as int, ts),
                )
            },
        }
    }
}

/// An expression statement: precedence climbing starts at the additive
/// level.
pub open spec fn sp_secondary(tk: TokenV, ts: Seq<TokenV>) -> (Result<ExprV, PErrV>, nat)
    decreases ts.len(), 8int,
{
    sp_additive(tk, ts)
}

/// An additive chain: multiplicative operands joined by `+` or `-`.
pub open spec fn sp_additive(tk: TokenV, ts: Seq<TokenV>) -> (Result<ExprV, PErrV>, nat)
    decreases ts.len(), 7int,
{
    let (r, n) = sp_multiplicative(tk, ts);
    match r {
        Err(e) => (Err(e), 0),
        Ok(left) => {
            let c = capped(n as int, ts);
            let (r2, n2) = sp_add_rest(left, ts.skip(c as int));
            match r2 {
                Err(e) => (Err(e), 0),
                Ok(e) => (Ok(e), capped(c as int + n2 as int, ts)),
            }
        },
    }
}

/// The remaining `("+"|"-") multiplicative` steps of an additive chain,
/// folded to the left onto `lhs`.
pub open spec fn sp_add_rest(lhs: ExprV, ts: Seq<TokenV>) -> (Result<ExprV, PErrV>, nat)
    decreases ts.len(), 6int,
{
    if ts.len() == 0 {
        (Ok(lhs), 0)
    } else {
        match ts[0].kind {
            TokenKindV::Operator(op) => if op == Operator::Plus || op == Operator::Minus {
                if ts.len() < 2 {
                    (Err(PErrV::EndedTokens), 0)
                } else {
                    let (r, n) = sp_multiplicative(ts[1], ts.skip(2));
                    match r {
                        Err(e) => (Err(e), 0),
                        Ok(rhs) => {
                            let lhs2 = ExprV::BinExpr {
                                lhs: Box::new(lhs),
                                rhs: Box::new(rhs),
                                op,
                            };
                            let c = capped(2 as int + n as int, ts);
                            let (r2, n2) = sp_add_rest(lhs2, ts.skip(c as int));
                            match r2 {
                                Err(e) => (Err(e), 0),
                                Ok(e) => (Ok(e), capped(c as int + n2 as int, ts)),
                            }
                        },
                    }
                }
            } else {
                (Ok(lhs), 0)
            },
            _ => (Ok(lhs), 0),
        }
    }
}

/// A multiplicative chain: primary operands joined by `*` or `/`.
pub open spec fn sp_multiplicative(tk: TokenV, ts: Seq<TokenV>) -> (Result<ExprV, PErrV>, nat)
    decreases ts.len(), 5int,
{
    let (r, n) = sp_primary(tk, ts);
    match r {
        Err(e) => (Err(e), 0),
        Ok(left) => {
            let c = capped(n as int, ts);
            let (r2, n2) = sp_mul_rest(left, ts.skip(c as int));
            match r2 {
                Err(e) => (Err(e), 0),
                Ok(e) => (Ok(e), capped(c as int + n2 as int, ts)),
            }
        },
    }
}

/// The remaining `("*"|"/") primary` steps of a multiplicative chain,
/// folded to the left onto `lhs`.
pub open spec fn sp_mul_rest(lhs: ExprV, ts: Seq<TokenV>) -> (Result<ExprV, PErrV>, nat)
    decreases ts.len(), 4int,
{
    if ts.len() == 0 {
        (Ok(lhs), 0)
    } else {
        match ts[0].kind {
            TokenKindV::Operator(op) => if op == Operator::Star || op == Operator::Bar {
                if ts.len() < 2 {
                    (Err(PErrV::EndedTokens), 0)
                } else {
                    let (r, n) = sp_primary(ts[1], ts.skip(2));
                    match r {
                        Err(e) => (Err(e), 0),
                        Ok(rhs) => {
                            let lhs2 = ExprV::BinExpr {
                                lhs: Box::new(lhs),
                                rhs: Box::new(rhs),
                                op,
                            };
                            let c = capped(2 as int + n as int, ts);
                            let (r2, n2) = sp_mul_rest(lhs2, ts.skip(c as int));
                            match r2 {
                                Err(e) => (Err(e), 0),
                                Ok(e) => (Ok(e), capped(c as int + n2 as int, ts)),
                            }
                        },
                    }
                }
            } else {
                (Ok(lhs), 0)
            },
            _ => (Ok(lhs), 0),
        }
    }
}

/// A primary expression: a literal or identifier (already consumed as `tk`),
/// a unary minus, a parenthesized expression, or a block.
pub open spec fn sp_primary(tk: TokenV, ts: Seq<TokenV>) -> (Result<ExprV, PErrV>, nat)
    decreases ts.len(), 3int,
{
    match tk.kind {
        TokenKindV::Identifier(v) => (Ok(ExprV::Identifier(v)), 0),
        TokenKindV::IntLit(l) => (Ok(ExprV::IntLit(l)), 0),
        TokenKindV::FloatLit(f) => (Ok(ExprV::FloatLit(f)), 0),
        TokenKindV::Operator(op) => if op == Operator::Minus {
            let (r, n) = sp_parse(ts);
            match r {
                Err(e) => (Err(e), 0),
                Ok(e) => (Ok(ExprV::Negative(Box::new(e))), n),
            }
        } else {
            (Err(PErrV::UnexpectedToken(tk)), 0)
        },
        TokenKindV::OpenParen => {
            let (r, n) = sp_parse(ts);
            match r {
                Err(e) => (Err(e), 0),
                Ok(e) => {
                    let c = capped(n as int, ts);
                    let rest = ts.skip(c as int);
                    if rest.len() == 0 {
                        (Err(PErrV::EndedTokens), 0)
                    } else if rest[0].kind is CloseParen {
                        (Ok(e), capped(c as int + 1 as int, ts))
                    } else {
                        (
                            Err(
                                PErrV::WrongToken {
                                    expected: TokenKindV::CloseParen,
                                    received: rest[0].kind,
                                    token: rest[0],
                                },
                            ),
                            0,
                        )
                    }
                },
            }
        },
        TokenKindV::OpenBrace => sp_block(ts),
        _ => (Err(PErrV::UnexpectedToken(tk)), 0),
    }
}

/// A block after `{`: statements separated by `;`, closed by `}`; the
/// closing brace may directly follow a statement.
pub open spec fn sp_block(ts: Seq<TokenV>) -> (Result<ExprV, PErrV>, nat)
    decreases ts.len(), 2int,
{
    if ts.len() == 0 {
        (Err(PErrV::EndedTokens), 0)
    } else if ts[0].kind is CloseBrace {
        (Ok(ExprV::Block(Seq::empty())), 1)
    } else {
        let (r, n) = sp_block_items(ts);
        match r {
            Err(e) => (Err(e), 0),
            Ok(es) => (Ok(ExprV::Block(es)), n),
        }
    }
}

/// The statements of a non-empty block, with their separators.
#[verifier::opaque]
pub open spec fn sp_block_items(ts: Seq<TokenV>) -> (Result<Seq<ExprV>, PErrV>, nat)
    decreases ts.len(), 1int,
{
    if ts.len() == 0 {
        (Err(PErrV::EndedTokens), 0)
    } else {
        let (r, n) = sp_parse(ts);
        match r {
            Err(e) => (Err(e), 0),
            Ok(e) => {
                let c = cap1(n as int, ts);
                let rest = ts.skip(c as int);
                if rest.len() == 0 {
                    (Err(PErrV::EndedTokens), 0)
                } else if rest[0].kind is SemiColon {
                    let c2 = capped(c as int + 1 as int, ts);
                    let rest2 = ts.skip(c2 as int);
                    if rest2.len() > 0 && rest2[0].kind is CloseBrace {
                        (Ok(seq![e]), capped(c2 as int + 1 as int, ts))
                    } else {
                        let (r2, n2) = sp_block_items(ts.skip(c2 as int));
                        match r2 {
                            Err(e2) => (Err(e2), 0),
                            Ok(es) => (Ok(seq![e] + es), capped(c2 as int + n2 as int, ts)),
                        }
                    }
                } else if rest[0].kind is CloseBrace {
                    (Ok(seq![e]), capped(c as int + 1 as int, ts))
                } else {
                    (
                        Err(
                            PErrV::WrongToken {
                                expected: TokenKindV::SemiColon,
                                received: rest[0].kind,
                                token: rest[0],
                            },
                        ),
                        0,
                    )
                }
            },
        }
    }
}

/// The top-level statements: one after another, each terminated by `;`
/// unless it is a function declaration with a block body, until the queue is
/// exhausted or an end-of-input marker is reached.
#[verifier::opaque]
pub open spec fn sp_program_items(ts: Seq<TokenV>) -> (Result<Seq<ExprV>, PErrV>, nat)
    decreases ts.len(), 1int,
{
    if ts.len() == 0 {
        (Ok(Seq::empty()), 0)
    } else if ts[0].kind is Eof {
        (Ok(Seq::empty()), 0)
    } else {
        let (r, n) = sp_parse(ts);
        match r {
            Err(e) => (Err(e), 0),
            Ok(e) => {
                let c = cap1(n as int, ts);
                let self_terminated = e is FuncDecl && (*e->FuncDecl_block) is Block;
                if self_terminated {
                    let (r2, n2) = sp_program_items(ts.skip(c as int));
                    match r2 {
                        Err(e2) => (Err(e2), 0),
                        Ok(es) => (Ok(seq![e] + es), capped(c as int + n2 as int, ts)),
                    }
                } else {
                    let rest = ts.skip(c as int);
                    if rest.len() == 0 {
                        (Err(PErrV::EndedTokens), 0)
                    } else if rest[0].kind is SemiColon {
                        let c2 = capped(c as int + 1 as int, ts);
                        let (r2, n2) = sp_program_items(ts.skip(c2 as int));
                        match r2 {
                            Err(e2) => (Err(e2), 0),
                            Ok(es) => (Ok(seq![e] + es), capped(c2 as int + n2 as int, ts)),
                        }
                    } else {
                        (
                            Err(
                                PErrV::WrongToken {
                                    expected: TokenKindV::SemiColon,
                                    received: rest[0].kind,
                                    token: rest[0],
                                },
                            ),
                            0,
                        )
                    }
                }
            },
        }
    }
}

/// What a parsing method did: its result matches the specified one, and on
/// success the queue lost exactly the specified tokens.
pub open spec fn parse_post(
    ts0: Seq<Token>,
    sp: (Result<ExprV, PErrV>, nat),
    r: Result<Expression, ParsingError>,
    ts1: Seq<Token>,
) -> bool {
    match r {
        Ok(e) => sp.0 == Ok::<ExprV, PErrV>(e@) && sp.1 <= ts0.len() && ts1 == ts0.skip(
            sp.1 as int,
        ),
        Err(pe) => sp.0 == Err::<ExprV, PErrV>(pe@),
    }
}

/// The one-step unfolding of `sp_program_items`, packaged so callers need
/// not unfold the definition in a large context.
proof fn lemma_sp_program_items_unfold(ts: Seq<TokenV>)
    ensures
        sp_program_items(ts) == (if ts.len() == 0 {
            (Ok::<Seq<ExprV>, PErrV>(Seq::empty()), 0nat)
        } else if ts[0].kind is Eof {
            (Ok::<Seq<ExprV>, PErrV>(Seq::empty()), 0nat)
        } else {
            let (r, n) = sp_parse(ts);
            match r {
                Err(e) => (Err::<Seq<ExprV>, PErrV>(e), 0nat),
                Ok(e) => {
                    let c = cap1(n as int, ts);
                    let self_terminated = e is FuncDecl && (*e->FuncDecl_block) is Block;
                    if self_terminated {
                        let (r2, n2) = sp_program_items(ts.skip(c as int));
                        match r2 {
                            Err(e2) => (Err::<Seq<ExprV>, PErrV>(e2), 0nat),
                            Ok(es) => (Ok::<Seq<ExprV>, PErrV>(seq![e] + es), capped(
                                c as int + n2 as int,
                                ts,
                            )),
                        }
                    } else {
                        let rest = ts.skip(c as int);
                        if rest.len() == 0 {
                            (Err::<Seq<ExprV>, PErrV>(PErrV::EndedTokens), 0nat)
                        } else if rest[0].kind is SemiColon {
                            let c2 = capped(c as int + 1, ts);
                            let (r2, n2) = sp_program_items(ts.skip(c2 as int));
                            match r2 {
                                Err(e2) => (Err::<Seq<ExprV>, PErrV>(e2), 0nat),
                                Ok(es) => (Ok::<Seq<ExprV>, PErrV>(seq![e] + es), capped(
                                    c2 as int + n2 as int,
                                    ts,
                                )),
                            }
                        } else {
                            (
                                Err::<Seq<ExprV>, PErrV>(
                                    PErrV::WrongToken {
                                        expected: TokenKindV::SemiColon,
                                        received: rest[0].kind,
                                        token: rest[0],
                                    },
                                ),
                                0nat,
                            )
                        }
                    }
                },
            }
        }),
{
    reveal(sp_program_items);
}

/// The unfolding of `sp_func`, packaged the same way.
#[verifier::rlimit(100)]
#[verifier::spinoff_prover]
proof fn lemma_sp_func_unfold(ts: Seq<TokenV>)
    ensures
        sp_func(ts) == (if ts.len() == 0 {
            (Err::<ExprV, PErrV>(PErrV::EndedTokens), 0nat)
        } else if !(ts[0].kind is Identifier) {
            (
                Err::<ExprV, PErrV>(
                    PErrV::WrongToken {
                        expected: TokenKindV::Identifier(Seq::empty()),
                        received: ts[0].kind,
                        token: ts[0],
                    },
                ),
                0nat,
            )
        } else if ts.len() < 2 {
            (Err::<ExprV, PErrV>(PErrV::EndedTokens), 0nat)
        } else if !(ts[1].kind is OpenParen) {
            (
                Err::<ExprV, PErrV>(
                    PErrV::WrongToken {
                        expected: TokenKindV::OpenParen,
                        received: ts[1].kind,
                        token: ts[1],
                    },
                ),
                0nat,
            )
        } else {
            let fname = ts[0].kind->Identifier_0;
            let (pr, np) = sp_params(ts.skip(2));
            match pr {
                Err(e) => (Err::<ExprV, PErrV>(e), 0nat),
                Ok(params) => {
                    let c2 = capped(2 + np as int, ts);
                    let rest = ts.skip(c2 as int);
                    if rest.len() == 0 {
                        (Err::<ExprV, PErrV>(PErrV::EndedTokens), 0nat)
                    } else if rest[0].kind is Colon {
                        if rest.len() < 2 {
                            (Err::<ExprV, PErrV>(PErrV::EndedTokens), 0nat)
                        } else if !(rest[1].kind is Identifier) {
                            (
                                Err::<ExprV, PErrV>(
                                    PErrV::WrongToken {
                                        expected: TokenKindV::Identifier(Seq::empty()),
                                        received: rest[1].kind,
                                        token: rest[1],
                                    },
                                ),
                                0nat,
                            )
                        } else {
                            let rtype = Some(rest[1].kind->Identifier_0);
                            if rest.len() >= 3 && rest[2].kind is Operator
                                && rest[2].kind->Operator_0 == Operator::Eq {
                                sp_func_body(ts, fname, params, rtype, capped(c2 as int + 3, ts), false)
                            } else {
                                sp_func_body(ts, fname, params, rtype, capped(c2 as int + 2, ts), true)
                            }
                        }
                    } else if rest[0].kind is Operator && rest[0].kind->Operator_0 == Operator::Eq {
                        sp_func_body(ts, fname, params, None, capped(c2 as int + 1, ts), false)
                    } else if rest[0].kind is OpenBrace {
                        sp_func_body(ts, fname, params, None, c2, true)
                    } else {
                        (Err::<ExprV, PErrV>(PErrV::UnexpectedToken(rest[0])), 0nat)
                    }
                },
            }
        }),
{
    reveal(sp_func);
}

/// The unfolding of `sp_func_body`, packaged the same way.
proof fn lemma_sp_func_body_unfold(
    ts: Seq<TokenV>,
    fname: Seq<char>,
    params: Seq<ParamV>,
    rtype: Option<Seq<char>>,
    pre: nat,
    expect_block: bool,
)
    requires
        2 <= pre <= ts.len(),
    ensures
        sp_func_body(ts, fname, params, rtype, pre, expect_block) == ({
            let (br, nb) = sp_parse(ts.skip(pre as int));
            match br {
                Err(e) => (Err::<ExprV, PErrV>(e), 0nat),
                Ok(b) => if expect_block && !(b is Block) {
                    (Err::<ExprV, PErrV>(PErrV::ExpectedBlock(Box::new(b))), 0nat)
                } else {
                    (
                        Ok::<ExprV, PErrV>(
                            ExprV::FuncDecl { identifier: fname, params, rtype, block: Box::new(b) },
                        ),
                        capped(pre as int + nb as int, ts),
                    )
                },
            }
        }),
{
    reveal(sp_func_body);
}

/// An expression's view is the same variant as the expression.
pub proof fn lemma_expr_variant(e: Expression)
    ensures
        e@ is Program <==> e is Program,
        e@ is Block <==> e is Block,
        e@ is FuncDecl <==> e is FuncDecl,
        e@ is LetDecl <==> e is LetDecl,
        e@ is BinExpr <==> e is BinExpr,
        e@ is Negative <==> e is Negative,
        e@ is Identifier <==> e is Identifier,
        e@ is IntLit <==> e is IntLit,
        e@ is FloatLit <==> e is FloatLit,
{
    match e {
        Expression::Program(_) => {},
        Expression::Block(_) => {},
        Expression::FuncDecl { .. } => {},
        Expression::LetDecl { .. } => {},
        Expression::BinExpr { .. } => {},
        Expression::Negative(_) => {},
        Expression::Identifier(_) => {},
        Expression::IntLit(_) => {},
        Expression::FloatLit(_) => {},
    }
}

/// A token kind's view is the same variant as the kind.
proof fn lemma_kind_variant(k: TokenKind)
    ensures
        k@ is Let <==> k is Let,
        k@ is Func <==> k is Func,
        k@ is Identifier <==> k is Identifier,
        k@ is IntLit <==> k is IntLit,
        k@ is FloatLit <==> k is FloatLit,
        k@ is OpenParen <==> k is OpenParen,
        k@ is CloseParen <==> k is CloseParen,
        k@ is OpenBrace <==> k is OpenBrace,
        k@ is CloseBrace <==> k is CloseBrace,
        k@ is SemiColon <==> k is SemiColon,
        k@ is Colon <==> k is Colon,
        k@ is Operator <==> k is Operator,
        k@ is Eof <==> k is Eof,
{
    match k {
        TokenKind::Let => {},
        TokenKind::Func => {},
        TokenKind::Identifier(_) => {},
        TokenKind::IntLit(_) => {},
        TokenKind::FloatLit(_) => {},
        TokenKind::OpenParen => {},
        TokenKind::CloseParen => {},
        TokenKind::OpenBrace => {},
        TokenKind::CloseBrace => {},
        TokenKind::SemiColon => {},
        TokenKind::Colon => {},
        TokenKind::Operator(_) => {},
        TokenKind::Eof => {},
    }
}

fn kind_same_variant(a: &TokenKind, b: &TokenKind) -> (r: bool)
    ensures
        r == kindv_same_variant(a@, b@),
{
    match (a, b) {
        (TokenKind::Let, TokenKind::Let) => true,
        (TokenKind::Func, TokenKind::Func) => true,
        (TokenKind::Identifier(_), TokenKind::Identifier(_)) => true,
        (TokenKind::IntLit(_), TokenKind::IntLit(_)) => true,
        (TokenKind::FloatLit(_), TokenKind::FloatLit(_)) => true,
        (TokenKind::OpenParen, TokenKind::OpenParen) => true,
        (TokenKind::CloseParen, TokenKind::CloseParen) => true,
        (TokenKind::OpenBrace, TokenKind::OpenBrace) => true,
        (TokenKind::CloseBrace, TokenKind::CloseBrace) => true,
        (TokenKind::SemiColon, TokenKind::SemiColon) => true,
        (TokenKind::Colon, TokenKind::Colon) => true,
        (TokenKind::Operator(_), TokenKind::Operator(_)) => true,
        (TokenKind::Eof, TokenKind::Eof) => true,
        _ => false,
    }
}

fn dup_kind(k: &TokenKind) -> (r: TokenKind)
    ensures
        r == *k,
{
    match k {
        TokenKind::Let => TokenKind::Let,
        TokenKind::Func => TokenKind::Func,
        TokenKind::Identifier(s) => TokenKind::Identifier(s.clone()),
        TokenKind::IntLit(s) => TokenKind::IntLit(s.clone()),
        TokenKind::FloatLit(s) => TokenKind::FloatLit(s.clone()),
        TokenKind::OpenParen => TokenKind::OpenParen,
        TokenKind::CloseParen => TokenKind::CloseParen,
        TokenKind::OpenBrace => TokenKind::OpenBrace,
        TokenKind::CloseBrace => TokenKind::CloseBrace,
        TokenKind::SemiColon => TokenKind::SemiColon,
        TokenKind::Colon => TokenKind::Colon,
        TokenKind::Operator(op) => TokenKind::Operator(*op),
        TokenKind::Eof => TokenKind::Eof,
    }
}

fn kind_eq(a: &TokenKind, b: &TokenKind) -> (r: bool)
    ensures
        r == (a@ == b@),
{
    match (a, b) {
        (TokenKind::Let, TokenKind::Let) => true,
        (TokenKind::Func, TokenKind::Func) => true,
        (TokenKind::Identifier(x), TokenKind::Identifier(y)) => str_eq_chars(
            x.as_str(),
            y.as_str(),
        ),
        (TokenKind::IntLit(x), TokenKind::IntLit(y)) => str_eq_chars(x.as_str(), y.as_str()),
        (TokenKind::FloatLit(x), TokenKind::FloatLit(y)) => str_eq_chars(x.as_str(), y.as_str()),
        (TokenKind::OpenParen, TokenKind::OpenParen) => true,
        (TokenKind::CloseParen, TokenKind::CloseParen) => true,
        (TokenKind::OpenBrace, TokenKind::OpenBrace) => true,
        (TokenKind::CloseBrace, TokenKind::CloseBrace) => true,
        (TokenKind::SemiColon, TokenKind::SemiColon) => true,
        (TokenKind::Colon, TokenKind::Colon) => true,
        (TokenKind::Operator(x), TokenKind::Operator(y)) => *x == *y,
        (TokenKind::Eof, TokenKind::Eof) => true,
        _ => false,
    }
}

/// The parser: owns the token queue being consumed and the diagnostic
/// backtrace of the statement currently being parsed. A `Parser` is
/// single-use: a second parse on the same instance is refused while tokens
/// remain queued.
pub struct Parser {
    pub tokens: VecDeque<Token>,
    pub backtrace: VecDeque<ParseStep>,
}

impl Parser {
    pub fn new() -> (p: Parser)
        ensures
            p.tokens@.len() == 0,
            p.backtrace@.len() == 0,
    {
        Parser { tokens: VecDeque::new(), backtrace: VecDeque::new() }
    }

    /// Appends one step to the diagnostic backtrace: the producing function,
    /// the consumed token and its position.
    fn create_step(&mut self, token: Token, fname: &str)
        ensures
            final(self).tokens@ == old(self).tokens@,
            final(self).backtrace@.len() == old(self).backtrace@.len() + 1,
    {
        let line = token.line();
        let column = token.column();
        self.backtrace.push_back(
            ParseStep { line, column, token, fname: String::from_str(fname) },
        );
    }

    fn peek(&self) -> (r: Option<&Token>)
        ensures
            match r {
                Some(t) => self.tokens@.len() > 0 && *t == self.tokens@[0],
                None => self.tokens@.len() == 0,
            },
    {
        if self.tokens.len() > 0 {
            Some(&self.tokens[0])
        } else {
            None
        }
    }

    fn eat(&mut self) -> (r: Result<Token, ParsingError>)
        ensures
            final(self).backtrace@ == old(self).backtrace@,
            old(self).tokens@.len() == 0 ==> final(self).tokens@ == old(self).tokens@ && (match r {
                Err(pe) => pe@ == PErrV::EndedTokens,
                Ok(_) => false,
            }),
            old(self).tokens@.len() > 0 ==> final(self).tokens@ == old(self).tokens@.skip(1)
                && (match r {
                Ok(t) => t == old(self).tokens@[0],
                Err(_) => false,
            }),
    {
        match self.tokens.pop_front() {
            Some(t) => {
                proof {
                    assert(final(self).tokens@ =~= old(self).tokens@.skip(1));
                }
                Ok(t)
            },
            None => Err(ParsingError::EndedTokens),
        }
    }

    /// Demands the exact next token, payload included.
    fn expect_exact(&mut self, tk: TokenKind) -> (r: Result<Token, ParsingError>)
        ensures
            old(self).tokens@.len() == 0 ==> final(self).tokens@ == old(self).tokens@ && (match r {
                Err(pe) => pe@ == PErrV::EndedTokens,
                Ok(_) => false,
            }),
            old(self).tokens@.len() > 0 ==> final(self).tokens@ == old(self).tokens@.skip(1)
                && (match r {
                Ok(t) => t == old(self).tokens@[0] && old(self).tokens@[0]@.kind == tk@,
                Err(pe) => old(self).tokens@[0]@.kind != tk@ && pe@ == (PErrV::WrongToken {
                    expected: tk@,
                    received: old(self).tokens@[0]@.kind,
                    token: old(self).tokens@[0]@,
                }),
            }),
    {
        let token = match self.tokens.pop_front() {
            Some(t) => t,
            None => {
                return Err(ParsingError::EndedTokens);
            },
        };
        proof {
            assert(self.tokens@ =~= old(self).tokens@.skip(1));
        }
        self.create_step(token.clone(), "expect_exact");
        if kind_eq(&token.kind, &tk) {
            Ok(token)
        } else {
            let received = dup_kind(&token.kind);
            Err(ParsingError::WrongToken { expected: tk, received, token })
        }
    }

    /// Demands the next token to be of the given kind, payloads ignored.
    fn expect(&mut self, tk: TokenKind) -> (r: Result<Token, ParsingError>)
        ensures
            old(self).tokens@.len() == 0 ==> final(self).tokens@ == old(self).tokens@ && (match r {
                Err(pe) => pe@ == PErrV::EndedTokens,
                Ok(_) => false,
            }),
            old(self).tokens@.len() > 0 ==> final(self).tokens@ == old(self).tokens@.skip(1)
                && (match r {
                Ok(t) => t == old(self).tokens@[0] && kindv_same_variant(
                    old(self).tokens@[0]@.kind,
                    tk@,
                ),
                Err(pe) => !kindv_same_variant(old(self).tokens@[0]@.kind, tk@) && pe@ == (
                PErrV::WrongToken {
                    expected: tk@,
                    received: old(self).tokens@[0]@.kind,
                    token: old(self).tokens@[0]@,
                }),
            }),
    {
        let token = match self.tokens.pop_front() {
            Some(t) => t,
            None => {
                return Err(ParsingError::EndedTokens);
            },
        };
        proof {
            assert(self.tokens@ =~= old(self).tokens@.skip(1));
        }
        self.create_step(token.clone(), "expect");
        if kind_same_variant(&token.kind, &tk) {
            Ok(token)
        } else {
            let received = dup_kind(&token.kind);
            Err(ParsingError::WrongToken { expected: tk, received, token })
        }
    }

    /// Parses the handed-over token queue into a `Program`: exactly the
    /// statements of `sp_program_items`. A parser whose queue is not empty
    /// refuses with `InQueueParsing`; on success the statement backtrace has
    /// been discarded.
    pub fn parse_tokens(&mut self, tokens: &mut VecDeque<Token>) -> (r: Result<
        Expression,
        ParsingError,
    >)
        ensures
            old(self).tokens@.len() > 0 ==> final(self).tokens@ == old(self).tokens@ && final(self).backtrace@ == old(self).backtrace@ && final(tokens)@ == old(tokens)@ && (match r {
                Err(pe) => pe@ == PErrV::InQueueParsing,
                Ok(_) => false,
            }),
            old(self).tokens@.len() == 0 ==> ({
                let sp = sp_program_items(tokens_view(old(tokens)@));
                match r {
                    Ok(p) => (match sp.0 {
                        Ok(items) => p@ == ExprV::Program(items),
                        Err(_) => false,
                    }) && final(tokens)@.len() == 0 && final(self).tokens@ == old(tokens)@.skip(
                        sp.1 as int,
                    ) && (final(self).backtrace@ == old(self).backtrace@ || final(self).backtrace@.len() == 0),
                    Err(pe) => sp.0 == Err::<Seq<ExprV>, PErrV>(pe@),
                }
            }),
    {
        if self.tokens.len() > 0 {
            return Err(ParsingError::InQueueParsing);
        }
        self.tokens.append(tokens);
        proof {
            assert(self.tokens@ =~= old(tokens)@);
        }
        let mut expressions: Vec<Expression> = Vec::new();
        let ghost empty_exprs = expressions@;
        match self.parse_stmts(&mut expressions) {
            Ok(_) => {
                proof {
                    broadcast use crate::ast::group_exprs_view;

                    assert(exprs_view(empty_exprs) =~= Seq::<ExprV>::empty());
                    match sp_program_items(tokens_view(old(tokens)@)).0 {
                        Ok(items) => {
                            assert(exprs_view(expressions@) =~= Seq::<ExprV>::empty() + items);
                        },
                        Err(_) => {},
                    }
                }
                Ok(Expression::Program(expressions))
            },
            Err(e) => Err(e),
        }
    }

    /// Parses top-level statements one after another, appending them to
    /// `expressions`; each statement demands a terminating `;` unless it is
    /// a function declaration with a block body. The backtrace is discarded
    /// after each completed statement.
    #[verifier::rlimit(100)]
    #[verifier::spinoff_prover]
    fn parse_stmts(&mut self, expressions: &mut Vec<Expression>) -> (r: Result<(), ParsingError>)
        ensures
            ({
                let ts = tokens_view(old(self).tokens@);
                let sp = sp_program_items(ts);
                match r {
                    Ok(_) => (match sp.0 {
                        Ok(items) => exprs_view(final(expressions)@) == exprs_view(
                            old(expressions)@,
                        ) + items,
                        Err(_) => false,
                    }) && sp.1 <= ts.len() && final(self).tokens@ == old(self).tokens@.skip(
                        sp.1 as int,
                    ) && (final(self).backtrace@ == old(self).backtrace@ || final(self).backtrace@.len() == 0),
                    Err(pe) => sp.0 == Err::<Seq<ExprV>, PErrV>(pe@),
                }
            }),
        decreases self.tokens@.len(),
    {
        reveal(sp_program_items);
        broadcast use crate::tokens::group_tokens_view, crate::ast::group_exprs_view;

        let ghost ts0 = self.tokens@;
        let ghost tsv = tokens_view(ts0);
        proof {
            lemma_sp_program_items_unfold(tsv);
        }
        if self.tokens.len() == 0 {
            proof {
                assert(ts0.skip(0) =~= ts0);
                assert(exprs_view(expressions@) =~= exprs_view(expressions@) + Seq::<
                    ExprV,
                >::empty());
            }
            return Ok(());
        }
        proof {
            if self.tokens@.len() > 0 {
                lemma_kind_variant(self.tokens@[0].kind);
            }
        }
        let stop = match self.peek() {
            Some(t) => match t.refkind() {
                TokenKind::Eof => true,
                _ => false,
            },
            None => true,
        };
        if stop {
            proof {
                assert(ts0.skip(0) =~= ts0);
                assert(exprs_view(expressions@) =~= exprs_view(expressions@) + Seq::<
                    ExprV,
                >::empty());
            }
            return Ok(());
        }
        let expr = match self.parse() {
            Ok(e) => e,
            Err(e) => {
                return Err(e);
            },
        };
        let ghost n1 = sp_parse(tsv).1;
        proof {
            assert(cap1(n1 as int, tsv) == n1);
        }
        let self_terminated = match &expr {
            Expression::FuncDecl { block, .. } => {
                proof {
                    lemma_expr_variant(expr);
                    lemma_expr_variant(**block);
                }
                match &**block {
                    Expression::Block(_) => true,
                    _ => false,
                }
            },
            _ => {
                proof {
                    lemma_expr_variant(expr);
                }
                false
            },
        };
        proof {
            assert(self_terminated == (expr@ is FuncDecl && (*expr@->FuncDecl_block) is Block));
        }
        expressions.push(expr);
        let ghost mid_exprs = expressions@;
        if !self_terminated {
            match self.expect(TokenKind::SemiColon) {
                Ok(_) => {},
                Err(e) => {
                    return Err(e);
                },
            }
        }
        self.backtrace.clear();
        let ghost ts_rest = self.tokens@;
        proof {
            crate::tokens::lemma_tokens_view_skip(ts0, n1 as int);
            if n1 as int + 1 <= ts0.len() {
                crate::tokens::lemma_tokens_view_skip(ts0, n1 as int + 1);
                assert(ts0.skip(n1 as int).skip(1) =~= ts0.skip(n1 as int + 1));
            }
        }
        let r2 = self.parse_stmts(expressions);
        match r2 {
            Ok(_) => {
                proof {
                    crate::tokens::lemma_tokens_view_skip(ts0, n1 as int);
                    if n1 as int + 1 <= ts0.len() {
                        crate::tokens::lemma_tokens_view_skip(ts0, n1 as int + 1);
                    }
                    if n1 as int + 1 <= ts0.len() {
                        assert(ts0.skip(n1 as int).skip(1) =~= ts0.skip(n1 as int + 1));
                    }
                    let sp = sp_program_items(tsv);
                    let sprest = sp_program_items(tokens_view(ts_rest));
                    match (sp.0, sprest.0) {
                        (Ok(items), Ok(rest_items)) => {
                            assert(exprs_view(mid_exprs) =~= exprs_view(old(expressions)@).push(
                                mid_exprs.last()@,
                            ));
                            assert(items == seq![mid_exprs.last()@] + rest_items);
                            assert(exprs_view(expressions@) =~= exprs_view(mid_exprs)
                                + rest_items);
                            assert(exprs_view(old(expressions)@).push(mid_exprs.last()@)
                                + rest_items =~= exprs_view(old(expressions)@) + (seq![
                                mid_exprs.last()@,
                            ] + rest_items));
                            assert(exprs_view(expressions@) =~= exprs_view(
                                old(expressions)@,
                            ) + items);
                            if n1 as int + sprest.1 as int <= ts0.len() {
                                assert(ts0.skip(n1 as int).skip(sprest.1 as int) =~= ts0.skip(
                                    n1 as int + sprest.1 as int,
                                ));
                            }
                            if n1 as int + 1 + sprest.1 as int <= ts0.len() {
                                assert(ts0.skip(n1 as int + 1).skip(sprest.1 as int) =~= ts0.skip(
                                    n1 as int + 1 + sprest.1 as int,
                                ));
                            }
                        },
                        _ => {},
                    }
                }
                Ok(())
            },
            Err(e) => Err(e),
        }
    }

    /// One statement, dispatched on its first token.
    #[verifier::rlimit(100)]
    #[verifier::spinoff_prover]
    fn parse(&mut self) -> (r: Result<Expression, ParsingError>)
        ensures
            parse_post(
                old(self).tokens@,
                sp_parse(tokens_view(old(self).tokens@)),
                r,
                final(self).tokens@,
            ),
            r is Ok ==> final(self).tokens@.len() < old(self).tokens@.len(),
        decreases self.tokens@.len(), 0int,
    {
        broadcast use crate::tokens::group_tokens_view;

        let ghost ts0 = self.tokens@;
        let ghost tsv = tokens_view(ts0);
        let tk = match self.eat() {
            Ok(t) => t,
            Err(e) => {
                return Err(e);
            },
        };
        self.create_step(tk.clone(), "parse");
        proof {
            lemma_kind_variant(tk.kind);
            assert(tk@ == tsv[0]);
            crate::tokens::lemma_tokens_view_skip(ts0, 1);
        }
        let r = match tk.kind {
            TokenKind::Let => self.parse_let_expr(),
            TokenKind::Func => self.parse_func(tk),
            TokenKind::IntLit(_) => self.parse_secondary(tk),
            TokenKind::FloatLit(_) => self.parse_secondary(tk),
            TokenKind::Identifier(_) => self.parse_secondary(tk),
            _ => self.parse_primary(tk),
        };
        proof {
            if r is Ok {
                assert(ts0.skip(1).skip(sp_parse(tsv).1 as int - 1) =~= ts0.skip(
                    sp_parse(tsv).1 as int,
                ));
            }
        }
        r
    }

    /// A function declaration after its `func` keyword.
    #[verifier::rlimit(100)]
    #[verifier::spinoff_prover]
    fn parse_func(&mut self, tk: Token) -> (r: Result<Expression, ParsingError>)
        ensures
            parse_post(
                old(self).tokens@,
                sp_func(tokens_view(old(self).tokens@)),
                r,
                final(self).tokens@,
            ),
        decreases self.tokens@.len(), 2int,
    {
        reveal(sp_func);
        broadcast use crate::tokens::group_tokens_view;

        let ghost ts0 = self.tokens@;
        let ghost tsv = tokens_view(ts0);
        self.create_step(tk, "parse_func");
        let ftoken = match self.expect(TokenKind::Identifier(String::new())) {
            Ok(t) => t,
            Err(e) => {
                return Err(e);
            },
        };
        let fname = match ftoken.kind {
            TokenKind::Identifier(s) => s,
            _ => {
                proof {
                    assert(false);
                }
                return Err(ParsingError::EndedTokens);
            },
        };
        match self.expect(TokenKind::OpenParen) {
            Ok(_) => {},
            Err(e) => {
                return Err(e);
            },
        }
        proof {
            assert(ts0.skip(1).skip(1) =~= ts0.skip(2));
            crate::tokens::lemma_tokens_view_skip(ts0, 1);
            crate::tokens::lemma_tokens_view_skip(ts0, 2);
        }
        let params = match self.parse_params() {
            Ok(ps) => ps,
            Err(e) => {
                return Err(e);
            },
        };
        let ghost np = sp_params(tsv.skip(2)).1;
        let ghost c2 = capped(2 + np as int, tsv);
        proof {
            assert(c2 == 2 + np);
            assert(ts0.skip(2).skip(np as int) =~= ts0.skip(c2 as int));
            crate::tokens::lemma_tokens_view_skip(ts0, c2 as int);
        }
        // return-type disambiguation
        proof {
            if self.tokens@.len() > 0 {
                lemma_kind_variant(self.tokens@[0].kind);
            }
        }
        let next_kind: u8 = match self.peek() {
            Some(t) => match t.refkind() {
                TokenKind::Colon => 0,
                TokenKind::Operator(Operator::Eq) => 1,
                TokenKind::OpenBrace => 2,
                _ => 3,
            },
            None => 4,
        };
        if next_kind == 4 {
            return Err(ParsingError::EndedTokens);
        }
        if next_kind == 3 {
            let t = match self.eat() {
                Ok(t) => t,
                Err(e) => {
                    proof {
                        assert(false);
                    }
                    return Err(e);
                },
            };
            return Err(ParsingError::UnexpectedToken(t));
        }
        let mut expect_block = true;
        let mut rtype: Option<String> = None;
        let ghost mut pre: nat = c2;
        if next_kind == 0 {
            match self.eat() {
                Ok(_) => {},
                Err(e) => {
                    proof {
                        assert(false);
                    }
                    return Err(e);
                },
            }
            let rtoken = match self.expect(TokenKind::Identifier(String::new())) {
                Ok(t) => t,
                Err(e) => {
                    return Err(e);
                },
            };
            let rname = match rtoken.kind {
                TokenKind::Identifier(s) => s,
                _ => {
                    proof {
                        assert(false);
                    }
                    return Err(ParsingError::EndedTokens);
                },
            };
            rtype = Some(rname);
            proof {
                pre = capped(c2 as int + 2, tsv);
                assert(ts0.skip(c2 as int).skip(2) =~= ts0.skip(c2 as int + 2));
                crate::tokens::lemma_tokens_view_skip(ts0, c2 as int + 2);
            }
            proof {
                if self.tokens@.len() > 0 {
                    lemma_kind_variant(self.tokens@[0].kind);
                }
            }
            let arrow = match self.peek() {
                Some(t) => match t.refkind() {
                    TokenKind::Operator(Operator::Eq) => true,
                    _ => false,
                },
                None => false,
            };
            if arrow {
                expect_block = false;
                match self.eat() {
                    Ok(_) => {},
                    Err(e) => {
                        proof {
                            assert(false);
                        }
                        return Err(e);
                    },
                }
                proof {
                    pre = capped(c2 as int + 3, tsv);
                    assert(ts0.skip(c2 as int + 2).skip(1) =~= ts0.skip(c2 as int + 3));
                    crate::tokens::lemma_tokens_view_skip(ts0, c2 as int + 3);
                }
            }
        } else if next_kind == 1 {
            expect_block = false;
            match self.eat() {
                Ok(_) => {},
                Err(e) => {
                    proof {
                        assert(false);
                    }
                    return Err(e);
                },
            }
            proof {
                pre = capped(c2 as int + 1, tsv);
                assert(ts0.skip(c2 as int).skip(1) =~= ts0.skip(c2 as int + 1));
                crate::tokens::lemma_tokens_view_skip(ts0, c2 as int + 1);
            }
        }
        proof {
            assert(2 <= pre);
            assert(pre <= ts0.len());
            assert(self.tokens@ == ts0.skip(pre as int));
        }
        self.parse_func_tail(fname, params, rtype, expect_block, Ghost(ts0), Ghost(pre))
    }

    /// The body of a function declaration: parses it and demands a block
    /// unless the declaration is in arrow form.
    #[verifier::rlimit(100)]
    #[verifier::spinoff_prover]
    fn parse_func_tail(
        &mut self,
        fname: String,
        params: Vec<Param>,
        rtype: Option<String>,
        expect_block: bool,
        Ghost(ts_full): Ghost<Seq<Token>>,
        Ghost(pre): Ghost<nat>,
    ) -> (r: Result<Expression, ParsingError>)
        requires
            2 <= pre <= ts_full.len(),
            old(self).tokens@ == ts_full.skip(pre as int),
        ensures
            ({
                let sp = sp_func_body(
                    tokens_view(ts_full),
                    fname@,
                    crate::ast::params_view(params@),
                    (match rtype {
                        Some(s) => Some(s@),
                        None => None,
                    }),
                    pre,
                    expect_block,
                );
                match r {
                    Ok(e) => sp.0 == Ok::<ExprV, PErrV>(e@) && sp.1 <= ts_full.len()
                        && final(self).tokens@ == ts_full.skip(sp.1 as int),
                    Err(pe) => sp.0 == Err::<ExprV, PErrV>(pe@),
                }
            }),
        decreases self.tokens@.len(), 3int,
    {
        let ghost tsv = tokens_view(ts_full);
        let ghost fnamev = fname@;
        let ghost psv2 = crate::ast::params_view(params@);
        let ghost rtv: Option<Seq<char>> = match rtype {
            Some(ref sr) => Some(sr@),
            None => None,
        };
        proof {
            lemma_sp_func_body_unfold(tsv, fnamev, psv2, rtv, pre, expect_block);
            crate::tokens::lemma_tokens_view_skip(ts_full, pre as int);
            crate::tokens::lemma_tokens_view_len(ts_full);
        }
        let ghost ts_body = self.tokens@;
        let block = match self.parse() {
            Ok(b) => b,
            Err(e) => {
                return Err(e);
            },
        };
        proof {
            lemma_expr_variant(block);
        }
        if expect_block {
            let is_block = match &block {
                Expression::Block(_) => true,
                _ => false,
            };
            if !is_block {
                return Err(ParsingError::ExpectedBlock(Box::new(block)));
            }
        }
        proof {
            let nb = sp_parse(tokens_view(ts_body)).1;
            assert(ts_body.skip(nb as int) =~= ts_full.skip(pre as int + nb as int));
            assert(capped(pre as int + nb as int, tsv) == pre + nb);
        }
        Ok(Expression::FuncDecl { identifier: fname, params, rtype, block: Box::new(block) })
    }

    /// The parameter list after `(`.
    fn parse_params(&mut self) -> (r: Result<Vec<Param>, ParsingError>)
        ensures
            ({
                let ts = tokens_view(old(self).tokens@);
                let sp = sp_params(ts);
                match r {
                    Ok(ps) => (match sp.0 {
                        Ok(items) => crate::ast::params_view(ps@) == items,
                        Err(_) => false,
                    }) && sp.1 <= ts.len() && final(self).tokens@ == old(self).tokens@.skip(
                        sp.1 as int,
                    ),
                    Err(pe) => sp.0 == Err::<Seq<ParamV>, PErrV>(pe@),
                }
            }),
        decreases self.tokens@.len(), 0int,
    {
        reveal(sp_params);
        broadcast use crate::tokens::group_tokens_view;

        let ghost ts0 = self.tokens@;
        let ghost tsv = tokens_view(ts0);
        proof {
            if self.tokens@.len() > 0 {
                lemma_kind_variant(self.tokens@[0].kind);
            }
        }
        let closing = match self.peek() {
            Some(t) => match t.refkind() {
                TokenKind::CloseParen => true,
                _ => false,
            },
            None => false,
        };
        if closing {
            match self.eat() {
                Ok(_) => {},
                Err(e) => {
                    proof {
                        assert(false);
                    }
                    return Err(e);
                },
            }
            let empty: Vec<Param> = Vec::new();
            proof {
                assert(crate::ast::params_view(empty@) =~= Seq::<ParamV>::empty());
            }
            return Ok(empty);
        }
        let ntoken = match self.expect(TokenKind::Identifier(String::new())) {
            Ok(t) => t,
            Err(e) => {
                return Err(e);
            },
        };
        let name = match ntoken.kind {
            TokenKind::Identifier(s) => s,
            _ => {
                proof {
                    assert(false);
                }
                return Err(ParsingError::EndedTokens);
            },
        };
        match self.expect(TokenKind::Colon) {
            Ok(_) => {},
            Err(e) => {
                return Err(e);
            },
        }
        let ktoken = match self.expect(TokenKind::Identifier(String::new())) {
            Ok(t) => t,
            Err(e) => {
                return Err(e);
            },
        };
        let kind = match ktoken.kind {
            TokenKind::Identifier(s) => s,
            _ => {
                proof {
                    assert(false);
                }
                return Err(ParsingError::EndedTokens);
            },
        };
        let param = Param { name, kind };
        proof {
            assert(ts0.skip(1).skip(1) =~= ts0.skip(2));
            assert(ts0.skip(2).skip(1) =~= ts0.skip(3));
            crate::tokens::lemma_tokens_view_skip(ts0, 1);
            crate::tokens::lemma_tokens_view_skip(ts0, 2);
            crate::tokens::lemma_tokens_view_skip(ts0, 3);
        }
        proof {
            if self.tokens@.len() > 0 {
                lemma_kind_variant(self.tokens@[0].kind);
            }
        }
        let closing2 = match self.peek() {
            Some(t) => match t.refkind() {
                TokenKind::CloseParen => true,
                _ => false,
            },
            None => false,
        };
        if closing2 {
            match self.eat() {
                Ok(_) => {},
                Err(e) => {
                    proof {
                        assert(false);
                    }
                    return Err(e);
                },
            }
            proof {
                assert(ts0.skip(3).skip(1) =~= ts0.skip(4));
            }
            let mut one: Vec<Param> = Vec::new();
            one.push(param);
            proof {
                assert(crate::ast::params_view(one@) =~= seq![param@]);
            }
            return Ok(one);
        }
        match self.expect(TokenKind::SemiColon) {
            Ok(_) => {},
            Err(e) => {
                return Err(e);
            },
        }
        proof {
            assert(ts0.skip(3).skip(1) =~= ts0.skip(4));
            crate::tokens::lemma_tokens_view_skip(ts0, 4);
        }
        let mut rest = match self.parse_params() {
            Ok(ps) => ps,
            Err(e) => {
                return Err(e);
            },
        };
        let ghost rest0 = rest@;
        rest.insert(0, param);
        proof {
            let nrest = sp_params(tsv.skip(4)).1;
            assert(ts0.skip(4).skip(nrest as int) =~= ts0.skip(4 + nrest as int));
            assert(crate::ast::params_view(rest@) =~= seq![param@] + crate::ast::params_view(
                rest0,
            ));
        }
        Ok(rest)
    }

    /// An expression statement.
    fn parse_secondary(&mut self, tk: Token) -> (r: Result<Expression, ParsingError>)
        ensures
            parse_post(
                old(self).tokens@,
                sp_secondary(tk@, tokens_view(old(self).tokens@)),
                r,
                final(self).tokens@,
            ),
        decreases self.tokens@.len(), 8int,
    {
        self.create_step(tk.clone(), "parse_secondary");
        self.parse_additive(tk)
    }

    /// A block after `{`.
    #[verifier::rlimit(100)]
    #[verifier::spinoff_prover]
    fn parse_block(&mut self) -> (r: Result<Expression, ParsingError>)
        ensures
            parse_post(
                old(self).tokens@,
                sp_block(tokens_view(old(self).tokens@)),
                r,
                final(self).tokens@,
            ),
        decreases self.tokens@.len(), 2int,
    {
        broadcast use crate::tokens::group_tokens_view, crate::ast::group_exprs_view;

        let ghost ts0 = self.tokens@;
        let first = match self.peek() {
            Some(t) => t.clone(),
            None => {
                return Err(ParsingError::EndedTokens);
            },
        };
        self.create_step(first, "parse_block");
        proof {
            if self.tokens@.len() > 0 {
                lemma_kind_variant(self.tokens@[0].kind);
            }
        }
        let closing = match self.peek() {
            Some(t) => match t.refkind() {
                TokenKind::CloseBrace => true,
                _ => false,
            },
            None => false,
        };
        if closing {
            match self.eat() {
                Ok(_) => {},
                Err(e) => {
                    proof {
                        assert(false);
                    }
                    return Err(e);
                },
            }
            let empty: Vec<Expression> = Vec::new();
            let result = Expression::Block(empty);
            proof {
                assert(exprs_view(Seq::<Expression>::empty()) =~= Seq::<ExprV>::empty());
                assert(result@ == ExprV::Block(exprs_view(Seq::<Expression>::empty())));
                assert(ts0.skip(1) == final(self).tokens@) by {
                    assert(self.tokens@ == ts0.skip(1));
                }
            }
            return Ok(result);
        }
        match self.parse_block_items() {
            Ok(es) => Ok(Expression::Block(es)),
            Err(e) => Err(e),
        }
    }

    /// The statements of a non-empty block.
    fn parse_block_items(&mut self) -> (r: Result<Vec<Expression>, ParsingError>)
        ensures
            ({
                let ts = tokens_view(old(self).tokens@);
                let sp = sp_block_items(ts);
                match r {
                    Ok(es) => (match sp.0 {
                        Ok(items) => exprs_view(es@) == items,
                        Err(_) => false,
                    }) && sp.1 <= ts.len() && final(self).tokens@ == old(self).tokens@.skip(
                        sp.1 as int,
                    ),
                    Err(pe) => sp.0 == Err::<Seq<ExprV>, PErrV>(pe@),
                }
            }),
        decreases self.tokens@.len(), 1int,
    {
        reveal(sp_block_items);
        broadcast use crate::tokens::group_tokens_view, crate::ast::group_exprs_view;

        let ghost ts0 = self.tokens@;
        let ghost tsv = tokens_view(ts0);
        if self.tokens.len() == 0 {
            return Err(ParsingError::EndedTokens);
        }
        let e = match self.parse() {
            Ok(e) => e,
            Err(err) => {
                return Err(err);
            },
        };
        let ghost n1 = sp_parse(tsv).1;
        proof {
            assert(cap1(n1 as int, tsv) == n1);
        }
        match self.expect(TokenKind::SemiColon) {
            Ok(_) => {
                proof {
                    assert(ts0.skip(n1 as int).skip(1) =~= ts0.skip(n1 as int + 1));
                    crate::tokens::lemma_tokens_view_skip(ts0, n1 as int + 1);
                }
                let ghost c2 = capped(n1 as int + 1, tsv);
                proof {
            if self.tokens@.len() > 0 {
                lemma_kind_variant(self.tokens@[0].kind);
            }
        }
        let closing = match self.peek() {
                    Some(t) => match t.refkind() {
                        TokenKind::CloseBrace => true,
                        _ => false,
                    },
                    None => false,
                };
                if closing {
                    match self.eat() {
                        Ok(_) => {},
                        Err(err) => {
                            proof {
                                assert(false);
                            }
                            return Err(err);
                        },
                    }
                    proof {
                        assert(ts0.skip(c2 as int).skip(1) =~= ts0.skip(c2 as int + 1));
                    }
                    let mut one: Vec<Expression> = Vec::new();
                    one.push(e);
                    proof {
                        assert(exprs_view(one@) =~= seq![one@[0]@]);
                    }
                    return Ok(one);
                }
                let mut rest = match self.parse_block_items() {
                    Ok(es) => es,
                    Err(err) => {
                        return Err(err);
                    },
                };
                let ghost rest0 = rest@;
                rest.insert(0, e);
                proof {
                    let nrest = sp_block_items(tokens_view(ts0.skip(c2 as int))).1;
                    assert(ts0.skip(c2 as int).skip(nrest as int) =~= ts0.skip(
                        c2 as int + nrest as int,
                    ));
                    assert(exprs_view(rest@) =~= seq![rest@[0]@] + exprs_view(rest0));
                }
                Ok(rest)
            },
            Err(err) => {
                match err {
                    ParsingError::WrongToken { expected, received, token } => {
                        proof {
                            lemma_kind_variant(token.kind);
                        }
                        let brace = match &token.kind {
                            TokenKind::CloseBrace => true,
                            _ => false,
                        };
                        if brace {
                            proof {
                                assert(ts0.skip(n1 as int).skip(1) =~= ts0.skip(n1 as int + 1));
                            }
                            let mut one: Vec<Expression> = Vec::new();
                            one.push(e);
                            proof {
                                assert(exprs_view(one@) =~= seq![one@[0]@]);
                            }
                            Ok(one)
                        } else {
                            Err(ParsingError::WrongToken { expected, received, token })
                        }
                    },
                    other => Err(other),
                }
            },
        }
    }

    /// An additive chain.
    #[verifier::rlimit(100)]
    #[verifier::spinoff_prover]
    fn parse_additive(&mut self, tk: Token) -> (r: Result<Expression, ParsingError>)
        ensures
            parse_post(
                old(self).tokens@,
                sp_additive(tk@, tokens_view(old(self).tokens@)),
                r,
                final(self).tokens@,
            ),
        decreases self.tokens@.len(), 7int,
    {
        broadcast use crate::tokens::group_tokens_view;

        let ghost ts0 = self.tokens@;
        let ghost tsv = tokens_view(ts0);
        self.create_step(tk.clone(), "parse_additive");
        let left = match self.parse_multiplicative(tk) {
            Ok(e) => e,
            Err(e) => {
                return Err(e);
            },
        };
        let ghost n1 = sp_multiplicative(tk@, tsv).1;
        proof {
            assert(capped(n1 as int, tsv) == n1);
            crate::tokens::lemma_tokens_view_skip(ts0, n1 as int);
        }
        let r = self.parse_add_rest(left);
        proof {
            if r is Ok {
                let n2 = sp_add_rest(
                    sp_multiplicative(tk@, tsv).0->Ok_0,
                    tsv.skip(n1 as int),
                ).1;
                assert(ts0.skip(n1 as int).skip(n2 as int) =~= ts0.skip(n1 as int + n2 as int));
            }
        }
        r
    }

    /// The remaining steps of an additive chain.
    #[verifier::rlimit(100)]
    #[verifier::spinoff_prover]
    fn parse_add_rest(&mut self, lhs: Expression) -> (r: Result<Expression, ParsingError>)
        ensures
            parse_post(
                old(self).tokens@,
                sp_add_rest(lhs@, tokens_view(old(self).tokens@)),
                r,
                final(self).tokens@,
            ),
        decreases self.tokens@.len(), 6int,
    {
        broadcast use crate::tokens::group_tokens_view;

        let ghost ts0 = self.tokens@;
        let ghost tsv = tokens_view(ts0);
        proof {
            if self.tokens@.len() > 0 {
                lemma_kind_variant(self.tokens@[0].kind);
            }
        }
        let addop: Option<Operator> = match self.peek() {
            Some(t) => match t.refkind() {
                TokenKind::Operator(op) => {
                    if (*op == Operator::Plus) || (*op == Operator::Minus) {
                        Some(*op)
                    } else {
                        None
                    }
                },
                _ => None,
            },
            None => None,
        };
        let op = match addop {
            Some(op) => op,
            None => {
                proof {
                    assert(ts0.skip(0) =~= ts0);
                }
                return Ok(lhs);
            },
        };
        match self.eat() {
            Ok(_) => {},
            Err(e) => {
                proof {
                    assert(false);
                }
                return Err(e);
            },
        }
        let tk2 = match self.eat() {
            Ok(t) => t,
            Err(e) => {
                return Err(e);
            },
        };
        proof {
            assert(ts0.skip(1).skip(1) =~= ts0.skip(2));
            assert(tk2@ == tsv[1]);
            crate::tokens::lemma_tokens_view_skip(ts0, 2);
        }
        let rhs = match self.parse_multiplicative(tk2) {
            Ok(e) => e,
            Err(e) => {
                return Err(e);
            },
        };
        let lhs2 = Expression::BinExpr { lhs: Box::new(lhs), rhs: Box::new(rhs), op };
        let ghost n1 = sp_multiplicative(tk2@, tsv.skip(2)).1;
        let ghost c = capped(2 + n1 as int, tsv);
        proof {
            assert(c == 2 + n1);
            assert(ts0.skip(2).skip(n1 as int) =~= ts0.skip(c as int));
            crate::tokens::lemma_tokens_view_skip(ts0, c as int);
        }
        let r = self.parse_add_rest(lhs2);
        proof {
            if r is Ok {
                let n2 = sp_add_rest(lhs2@, tsv.skip(c as int)).1;
                assert(ts0.skip(c as int).skip(n2 as int) =~= ts0.skip(c as int + n2 as int));
            }
        }
        r
    }

    /// A multiplicative chain.
    #[verifier::rlimit(100)]
    #[verifier::spinoff_prover]
    fn parse_multiplicative(&mut self, tk: Token) -> (r: Result<Expression, ParsingError>)
        ensures
            parse_post(
                old(self).tokens@,
                sp_multiplicative(tk@, tokens_view(old(self).tokens@)),
                r,
                final(self).tokens@,
            ),
        decreases self.tokens@.len(), 5int,
    {
        broadcast use crate::tokens::group_tokens_view;

        let ghost ts0 = self.tokens@;
        let ghost tsv = tokens_view(ts0);
        self.create_step(tk.clone(), "parse_multiplicative");
        let left = match self.parse_primary(tk) {
            Ok(e) => e,
            Err(e) => {
                return Err(e);
            },
        };
        let ghost n1 = sp_primary(tk@, tsv).1;
        proof {
            assert(capped(n1 as int, tsv) == n1);
            crate::tokens::lemma_tokens_view_skip(ts0, n1 as int);
        }
        let r = self.parse_mul_rest(left);
        proof {
            if r is Ok {
                let n2 = sp_mul_rest(sp_primary(tk@, tsv).0->Ok_0, tsv.skip(n1 as int)).1;
                assert(ts0.skip(n1 as int).skip(n2 as int) =~= ts0.skip(n1 as int + n2 as int));
            }
        }
        r
    }

    /// The remaining steps of a multiplicative chain.
    #[verifier::rlimit(100)]
    #[verifier::spinoff_prover]
    fn parse_mul_rest(&mut self, lhs: Expression) -> (r: Result<Expression, ParsingError>)
        ensures
            parse_post(
                old(self).tokens@,
                sp_mul_rest(lhs@, tokens_view(old(self).tokens@)),
                r,
                final(self).tokens@,
            ),
        decreases self.tokens@.len(), 4int,
    {
        broadcast use crate::tokens::group_tokens_view;

        let ghost ts0 = self.tokens@;
        let ghost tsv = tokens_view(ts0);
        proof {
            if self.tokens@.len() > 0 {
                lemma_kind_variant(self.tokens@[0].kind);
            }
        }
        let mulop: Option<Operator> = match self.peek() {
            Some(t) => match t.refkind() {
                TokenKind::Operator(op) => {
                    if (*op == Operator::Star) || (*op == Operator::Bar) {
                        Some(*op)
                    } else {
                        None
                    }
                },
                _ => None,
            },
            None => None,
        };
        let op = match mulop {
            Some(op) => op,
            None => {
                proof {
                    assert(ts0.skip(0) =~= ts0);
                }
                return Ok(lhs);
            },
        };
        match self.eat() {
            Ok(_) => {},
            Err(e) => {
                proof {
                    assert(false);
                }
                return Err(e);
            },
        }
        let tk2 = match self.eat() {
            Ok(t) => t,
            Err(e) => {
                return Err(e);
            },
        };
        proof {
            assert(ts0.skip(1).skip(1) =~= ts0.skip(2));
            assert(tk2@ == tsv[1]);
            crate::tokens::lemma_tokens_view_skip(ts0, 2);
        }
        let rhs = match self.parse_primary(tk2) {
            Ok(e) => e,
            Err(e) => {
                return Err(e);
            },
        };
        let lhs2 = Expression::BinExpr { lhs: Box::new(lhs), rhs: Box::new(rhs), op };
        let ghost n1 = sp_primary(tk2@, tsv.skip(2)).1;
        let ghost c = capped(2 + n1 as int, tsv);
        proof {
            assert(c == 2 + n1);
            assert(ts0.skip(2).skip(n1 as int) =~= ts0.skip(c as int));
            crate::tokens::lemma_tokens_view_skip(ts0, c as int);
        }
        let r = self.parse_mul_rest(lhs2);
        proof {
            if r is Ok {
                let n2 = sp_mul_rest(lhs2@, tsv.skip(c as int)).1;
                assert(ts0.skip(c as int).skip(n2 as int) =~= ts0.skip(c as int + n2 as int));
            }
        }
        r
    }

    /// A `let` declaration after its keyword.
    fn parse_let_expr(&mut self) -> (r: Result<Expression, ParsingError>)
        ensures
            parse_post(
                old(self).tokens@,
                sp_let(tokens_view(old(self).tokens@)),
                r,
                final(self).tokens@,
            ),
        decreases self.tokens@.len(), 2int,
    {
        reveal(sp_let);
        broadcast use crate::tokens::group_tokens_view;

        let ghost ts0 = self.tokens@;
        let first = match self.peek() {
            Some(t) => t.clone(),
            None => {
                return Err(ParsingError::EndedTokens);
            },
        };
        self.create_step(first, "parse_let_expr");
        let vtoken = match self.expect(TokenKind::Identifier(String::new())) {
            Ok(t) => t,
            Err(e) => {
                return Err(e);
            },
        };
        let varname = match vtoken.kind {
            TokenKind::Identifier(s) => s,
            _ => {
                proof {
                    assert(false);
                }
                return Err(ParsingError::EndedTokens);
            },
        };
        match self.expect_exact(TokenKind::Operator(Operator::Eq)) {
            Ok(_) => {},
            Err(e) => {
                return Err(e);
            },
        }
        proof {
            assert(ts0.skip(1).skip(1) =~= ts0.skip(2));
            crate::tokens::lemma_tokens_view_skip(ts0, 2);
        }
        let e = match self.parse() {
            Ok(e) => e,
            Err(e) => {
                return Err(e);
            },
        };
        proof {
            let n = sp_parse(tokens_view(ts0.skip(2))).1;
            assert(ts0.skip(2).skip(n as int) =~= ts0.skip(2 + n as int));
        }
        Ok(
            Expression::LetDecl {
                kind: LetDeclKind::Normal,
                varname,
                expr: Box::new(e),
            },
        )
    }

    /// A primary expression: literal, identifier, unary minus, parentheses
    /// or block.
    fn parse_primary(&mut self, token: Token) -> (r: Result<Expression, ParsingError>)
        ensures
            parse_post(
                old(self).tokens@,
                sp_primary(token@, tokens_view(old(self).tokens@)),
                r,
                final(self).tokens@,
            ),
        decreases self.tokens@.len(), 3int,
    {
        broadcast use crate::tokens::group_tokens_view;

        let ghost ts0 = self.tokens@;
        let ghost tsv = tokens_view(ts0);
        self.create_step(token.clone(), "parse_primary");
        proof {
            lemma_kind_variant(token.kind);
        }
        match token.kind {
            TokenKind::Identifier(vname) => {
                proof {
                    assert(ts0.skip(0) =~= ts0);
                }
                Ok(Expression::Identifier(vname))
            },
            TokenKind::IntLit(lit) => {
                proof {
                    assert(ts0.skip(0) =~= ts0);
                }
                Ok(Expression::IntLit(lit))
            },
            TokenKind::FloatLit(f) => {
                proof {
                    assert(ts0.skip(0) =~= ts0);
                }
                Ok(Expression::FloatLit(f))
            },
            TokenKind::Operator(op) => {
                if op == Operator::Minus {
                    match self.parse() {
                        Ok(e) => Ok(Expression::Negative(Box::new(e))),
                        Err(e) => Err(e),
                    }
                } else {
                    Err(ParsingError::UnexpectedToken(token))
                }
            },
            TokenKind::OpenParen => {
                let e = match self.parse() {
                    Ok(e) => e,
                    Err(e) => {
                        return Err(e);
                    },
                };
                let ghost n = sp_parse(tsv).1;
                proof {
                    assert(capped(n as int, tsv) == n);
                }
                match self.expect(TokenKind::CloseParen) {
                    Ok(_) => {
                        proof {
                            assert(ts0.skip(n as int).skip(1) =~= ts0.skip(n as int + 1));
                        }
                        Ok(e)
                    },
                    Err(err) => Err(err),
                }
            },
            TokenKind::OpenBrace => self.parse_block(),
            _ => Err(ParsingError::UnexpectedToken(token)),
        }
    }
}

} // verus!
