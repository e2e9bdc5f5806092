//! Lexical analysis: a single left-to-right scan turning source text into a
//! queue of positioned tokens.
//!
//! `spec_scan` is the mathematical description of the scan; `Tokenizer::gen`
//! is proved to return exactly what `spec_scan` says.

use std::collections::VecDeque;
use vstd::prelude::*;
use vstd::string::StrSliceExecFns;

use crate::chars::{digit_char, is_alnum_char, is_alpha_char, is_digit_char, is_white_char,
    white_char};
use crate::cursor::Cursor;
use crate::strutil::str_eq_chars;
use crate::tokens::{tokens_view, Operator, Token, TokenKind, TokenKindV, TokenV};

verus! {

broadcast use vstd::std_specs::vecdeque::group_vec_dequeue_axioms;

#[derive(Debug, Clone)]
pub enum TokenizationErrorKind {
    FoundUnexpectedEof,
    UnexpectedChar(char),
    InvalidDigit(String),
}

/// Mathematical value of a `TokenizationErrorKind`.
pub enum TokErrKindV {
    FoundUnexpectedEof,
    UnexpectedChar(char),
    InvalidDigit(Seq<char>),
}

impl View for TokenizationErrorKind {
    type V = TokErrKindV;

    open spec fn view(&self) -> TokErrKindV {
        match self {
            TokenizationErrorKind::FoundUnexpectedEof => TokErrKindV::FoundUnexpectedEof,
            TokenizationErrorKind::UnexpectedChar(c) => TokErrKindV::UnexpectedChar(*c),
            TokenizationErrorKind::InvalidDigit(s) => TokErrKindV::InvalidDigit(s@),
        }
    }
}

/// A fatal lexical error, carrying the position it was raised at.
#[derive(Debug, Clone)]
pub struct TokenizationError {
    pub line: usize,
    pub column: usize,
    pub kind: TokenizationErrorKind,
}

/// Mathematical value of a `TokenizationError`.
pub struct TokErrV {
    pub line: nat,
    pub column: nat,
    pub kind: TokErrKindV,
}

impl View for TokenizationError {
    type V = TokErrV;

    open spec fn view(&self) -> TokErrV {
        TokErrV { line: self.line as nat, column: self.column as nat, kind: self.kind@ }
    }
}

impl TokenizationError {
    pub fn unexpected_char(chr: char, cursor: &Cursor) -> (e: Self)
        ensures
            e@ == (TokErrV {
                line: cursor.line as nat,
                column: cursor.column as nat,
                kind: TokErrKindV::UnexpectedChar(chr),
            }),
    {
        Self::new(TokenizationErrorKind::UnexpectedChar(chr), cursor)
    }

    pub fn invalid_digit(buf: String, cursor: &Cursor) -> (e: Self)
        ensures
            e@ == (TokErrV {
                line: cursor.line as nat,
                column: cursor.column as nat,
                kind: TokErrKindV::InvalidDigit(buf@),
            }),
    {
        Self::new(TokenizationErrorKind::InvalidDigit(buf), cursor)
    }

    pub fn unexpected_eof(cursor: &Cursor) -> (e: Self)
        ensures
            e@ == (TokErrV {
                line: cursor.line as nat,
                column: cursor.column as nat,
                kind: TokErrKindV::FoundUnexpectedEof,
            }),
    {
        Self::new(TokenizationErrorKind::FoundUnexpectedEof, cursor)
    }

    pub fn new(kind: TokenizationErrorKind, cursor: &Cursor) -> (e: Self)
        ensures
            e@ == (TokErrV {
                line: cursor.line as nat,
                column: cursor.column as nat,
                kind: kind@,
            }),
    {
        TokenizationError { kind, line: cursor.line(), column: cursor.column() }
    }
}

/// Continuation test for a greedy run: digit runs keep taking digits and dots,
/// identifier runs keep taking alphanumeric characters.
pub open spec fn run_cont(c: char, digits: bool) -> bool {
    if digits {
        is_digit_char(c) || c == '.'
    } else {
        is_alnum_char(c) && !is_white_char(c)
    }
}

/// Length of the greedy run continuing at `j`.
pub open spec fn run_len(cs: Seq<char>, j: int, digits: bool) -> nat
    decreases cs.len() - j,
{
    if j < 0 || j >= cs.len() {
        0
    } else if run_cont(cs[j], digits) {
        (1 + run_len(cs, j + 1, digits)) as nat
    } else {
        0
    }
}

pub proof fn lemma_run_len_bound(cs: Seq<char>, j: int, digits: bool)
    requires
        0 <= j <= cs.len(),
    ensures
        run_len(cs, j, digits) <= cs.len() - j,
    decreases cs.len() - j,
{
    if j < cs.len() && run_cont(cs[j], digits) {
        lemma_run_len_bound(cs, j + 1, digits);
    }
}

pub proof fn lemma_run_len_exact(cs: Seq<char>, j: int, m: int, digits: bool)
    requires
        0 <= j <= m <= cs.len(),
        forall|k: int| j <= k < m ==> run_cont(cs[k], digits),
        m == cs.len() || !run_cont(cs[m], digits),
    ensures
        run_len(cs, j, digits) == m - j,
    decreases m - j,
{
    if j < m {
        lemma_run_len_exact(cs, j + 1, m, digits);
    }
}

/// How many `.` characters a run holds.
pub open spec fn dot_count(s: Seq<char>) -> nat
    decreases s.len(),
{
    if s.len() == 0 {
        0
    } else {
        (dot_count(s.drop_last()) + if s.last() == '.' {
            1nat
        } else {
            0nat
        }) as nat
    }
}

pub open spec fn kw_let() -> Seq<char> {
    seq!['l', 'e', 't']
}

pub open spec fn kw_func() -> Seq<char> {
    seq!['f', 'u', 'n', 'c']
}

/// An alphabetic run is a keyword token if it matches the fixed keyword set,
/// an identifier otherwise.
pub open spec fn keyword_or_ident(run: Seq<char>) -> TokenKindV {
    if run == kw_let() {
        TokenKindV::Let
    } else if run == kw_func() {
        TokenKindV::Func
    } else {
        TokenKindV::Identifier(run)
    }
}

/// The token kind of a single punctuation or operator character.
pub open spec fn punct_kind(c: char) -> Option<TokenKindV> {
    if c == ';' {
        Some(TokenKindV::SemiColon)
    } else if c == ':' {
        Some(TokenKindV::Colon)
    } else if c == '=' {
        Some(TokenKindV::Operator(Operator::Eq))
    } else if c == '+' {
        Some(TokenKindV::Operator(Operator::Plus))
    } else if c == '-' {
        Some(TokenKindV::Operator(Operator::Minus))
    } else if c == '*' {
        Some(TokenKindV::Operator(Operator::Star))
    } else if c == '/' {
        Some(TokenKindV::Operator(Operator::Bar))
    } else if c == '(' {
        Some(TokenKindV::OpenParen)
    } else if c == ')' {
        Some(TokenKindV::CloseParen)
    } else if c == '{' {
        Some(TokenKindV::OpenBrace)
    } else if c == '}' {
        Some(TokenKindV::CloseBrace)
    } else {
        None
    }
}

/// Prepends a token to the outcome of scanning the rest of the input.
pub open spec fn scan_cons(t: TokenV, rest: Result<Seq<TokenV>, TokErrV>) -> Result<
    Seq<TokenV>,
    TokErrV,
> {
    match rest {
        Ok(ts) => Ok(seq![t] + ts),
        Err(e) => Err(e),
    }
}

/// Prepends already-scanned tokens to the outcome of scanning the rest.
pub open spec fn scan_app(acc: Seq<TokenV>, rest: Result<Seq<TokenV>, TokErrV>) -> Result<
    Seq<TokenV>,
    TokErrV,
> {
    match rest {
        Ok(ts) => Ok(acc + ts),
        Err(e) => Err(e),
    }
}

/// The scan of `cs` from offset `i`, at position `line`/`col`: the token
/// sequence the lexer produces, or the first lexical error.
///
/// Single characters map directly to punctuation and operator tokens; a digit
/// run is consumed greedily to its end and rejected there if it holds more
/// than one dot; an alphabetic run is consumed greedily and checked against
/// the keyword set; white space is skipped; anything else is an error. A
/// multi-character token records the position of its last character; the end
/// of the input terminates a run as any non-continuing character would.
pub open spec fn spec_scan(cs: Seq<char>, i: int, line: nat, col: nat) -> Result<
    Seq<TokenV>,
    TokErrV,
>
    decreases cs.len() - i,
    via spec_scan_decreases
{
    if i < 0 || i >= cs.len() {
        Ok(Seq::empty())
    } else {
        let c = cs[i];
        if punct_kind(c) is Some {
            scan_cons(
                TokenV { line, column: col, kind: punct_kind(c)->Some_0 },
                spec_scan(cs, i + 1, line, col + 1),
            )
        } else if c == '\n' {
            spec_scan(cs, i + 1, line + 1, 0)
        } else if is_white_char(c) {
            spec_scan(cs, i + 1, line, col + 1)
        } else if is_digit_char(c) {
            let end = i + 1 + run_len(cs, i + 1, true);
            let run = cs.subrange(i, end);
            if dot_count(run) >= 2 {
                Err(
                    TokErrV {
                        line,
                        column: (col + (end - i)) as nat,
                        kind: TokErrKindV::InvalidDigit(run),
                    },
                )
            } else {
                scan_cons(
                    TokenV {
                        line,
                        column: (col + (end - i) - 1) as nat,
                        kind: if dot_count(run) >= 1 {
                            TokenKindV::FloatLit(run)
                        } else {
                            TokenKindV::IntLit(run)
                        },
                    },
                    spec_scan(cs, end, line, (col + (end - i)) as nat),
                )
            }
        } else if is_alpha_char(c) {
            let end = i + 1 + run_len(cs, i + 1, false);
            let run = cs.subrange(i, end);
            scan_cons(
                TokenV {
                    line,
                    column: (col + (end - i) - 1) as nat,
                    kind: keyword_or_ident(run),
                },
                spec_scan(cs, end, line, (col + (end - i)) as nat),
            )
        } else {
            Err(TokErrV { line, column: col, kind: TokErrKindV::UnexpectedChar(c) })
        }
    }
}

#[via_fn]
proof fn spec_scan_decreases(cs: Seq<char>, i: int, line: nat, col: nat) {
    if 0 <= i && i < cs.len() {
        lemma_run_len_bound(cs, i + 1, true);
        lemma_run_len_bound(cs, i + 1, false);
    }
}

proof fn lemma_scan_push(acc: Seq<Token>, t: Token, rest: Result<Seq<TokenV>, TokErrV>)
    ensures
        scan_app(tokens_view(acc), scan_cons(t@, rest)) == scan_app(tokens_view(acc.push(t)), rest),
{
    assert(tokens_view(acc.push(t)) =~= tokens_view(acc).push(t@));
    match rest {
        Ok(ts) => {
            assert(tokens_view(acc) + (seq![t@] + ts) =~= tokens_view(acc).push(t@) + ts);
        },
        Err(_) => {},
    }
}

/// Outcome of scanning one digit run: the cursor rests on the last consumed
/// position (on success) or just past the run (on a malformed literal), and
/// the token or error carries the run's text verbatim.
pub open spec fn digit_lit_post(
    c0: Cursor,
    cs: Seq<char>,
    c1: Cursor,
    r: Result<Token, TokenizationError>,
) -> bool {
    let i = c0.idx as int;
    let end = i + 1 + run_len(cs, i + 1, true);
    let run = cs.subrange(i, end);
    &&& c1.line == c0.line
    &&& match r {
        Ok(t) => {
            &&& dot_count(run) < 2
            &&& t@ == (TokenV {
                line: c0.line as nat,
                column: (c0.column + (end - i) - 1) as nat,
                kind: if dot_count(run) >= 1 {
                    TokenKindV::FloatLit(run)
                } else {
                    TokenKindV::IntLit(run)
                },
            })
            &&& c1.idx == end - 1
            &&& c1.column == c0.column + (end - i) - 1
        },
        Err(e) => {
            &&& dot_count(run) >= 2
            &&& e@ == (TokErrV {
                line: c0.line as nat,
                column: (c0.column + (end - i)) as nat,
                kind: TokErrKindV::InvalidDigit(run),
            })
            &&& c1.idx == end
            &&& c1.column == c0.column + (end - i)
        },
    }
}

/// Outcome of scanning one identifier run: always a token, with the run's
/// text checked against the keyword set.
pub open spec fn ident_post(
    c0: Cursor,
    cs: Seq<char>,
    c1: Cursor,
    r: Result<Token, TokenizationError>,
) -> bool {
    let i = c0.idx as int;
    let end = i + 1 + run_len(cs, i + 1, false);
    let run = cs.subrange(i, end);
    &&& c1.line == c0.line
    &&& match r {
        Ok(t) => {
            &&& t@ == (TokenV {
                line: c0.line as nat,
                column: (c0.column + (end - i) - 1) as nat,
                kind: keyword_or_ident(run),
            })
            &&& c1.idx == end - 1
            &&& c1.column == c0.column + (end - i) - 1
        },
        Err(_) => false,
    }
}

/// The lexer: owns the source text for the lifetime of one scan.
pub struct Tokenizer {
    content: String,
}

impl View for Tokenizer {
    type V = Seq<char>;

    closed spec fn view(&self) -> Seq<char> {
        self.content@
    }
}

impl Tokenizer {
    /// Reads the character under the cursor, or reports that the input is
    /// exhausted; either way the cursor advances if `advance` is set.
    pub fn get_char(cursor: &mut Cursor, chars: &Vec<char>, advance: bool) -> (r: Result<
        char,
        TokenizationError,
    >)
        requires
            advance ==> old(cursor).idx < usize::MAX && old(cursor).column < usize::MAX,
        ensures
            advance ==> final(cursor).idx == old(cursor).idx + 1 && final(cursor).column == old(
                cursor,
            ).column + 1 && final(cursor).line == old(cursor).line,
            !advance ==> *final(cursor) == *old(cursor),
            match r {
                Ok(c) => old(cursor).idx < chars@.len() && c == chars@[old(cursor).idx as int],
                Err(e) => old(cursor).idx >= chars@.len() && e@ == (TokErrV {
                    line: old(cursor).line as nat,
                    column: old(cursor).column as nat,
                    kind: TokErrKindV::FoundUnexpectedEof,
                }),
            },
    {
        let r = if cursor.index() < chars.len() {
            Ok(chars[cursor.index()])
        } else {
            Err(TokenizationError::unexpected_eof(cursor))
        };
        if advance {
            cursor.advance();
        }
        r
    }

    /// Turns a finished alphabetic run into its token: a keyword of the fixed
    /// set, or an identifier.
    pub fn check_for_reserved(buf: String, cursor: &Cursor) -> (t: Token)
        ensures
            t@ == (TokenV {
                line: cursor.line as nat,
                column: cursor.column as nat,
                kind: keyword_or_ident(buf@),
            }),
    {
        proof {
            reveal_strlit("let");
            reveal_strlit("func");
            assert("let"@ =~= kw_let());
            assert("func"@ =~= kw_func());
        }
        if str_eq_chars(buf.as_str(), "let") {
            Token::let_token(cursor)
        } else if str_eq_chars(buf.as_str(), "func") {
            Token::func(cursor)
        } else {
            Token::identifier(buf, cursor)
        }
    }

    pub fn new(content: String) -> (t: Self)
        ensures
            t@ == content@,
    {
        Tokenizer { content }
    }

    /// Scans one greedy digit run (digits and dots), starting at the cursor.
    /// The whole run is consumed before a malformed literal is rejected.
    pub fn get_digit_lit(cursor: &mut Cursor, chars: &Vec<char>) -> (r: Result<
        Token,
        TokenizationError,
    >)
        requires
            chars@.len() < usize::MAX,
            old(cursor).idx < chars@.len(),
            is_digit_char(chars@[old(cursor).idx as int]),
            old(cursor).column <= old(cursor).idx,
        ensures
            digit_lit_post(*old(cursor), chars@, *final(cursor), r),
    {
        let ghost cs = chars@;
        let ghost i0 = old(cursor).idx as int;
        let ghost line0 = old(cursor).line;
        let ghost col0 = old(cursor).column as int;
        let mut buf = String::new();
        let mut hasdot = false;
        let mut rnormal = true;
        loop
            invariant_except_break
                cs == chars@,
                cs.len() < usize::MAX,
                0 <= i0 < cs.len(),
                is_digit_char(cs[i0]),
                i0 <= cursor.idx <= cs.len(),
                forall|k: int| i0 <= k < cursor.idx ==> run_cont(cs[k], true),
                cursor.line == line0,
                cursor.column == col0 + (cursor.idx - i0),
                col0 <= i0,
                buf@ == cs.subrange(i0, cursor.idx as int),
                hasdot == (dot_count(buf@) >= 1),
                rnormal == (dot_count(buf@) <= 1),
            ensures
                cs == chars@,
                i0 < cursor.idx <= cs.len(),
                forall|k: int| i0 <= k < cursor.idx ==> run_cont(cs[k], true),
                cursor.idx == cs.len() || !run_cont(cs[cursor.idx as int], true),
                cursor.line == line0,
                cursor.column == col0 + (cursor.idx - i0),
                col0 <= i0,
                buf@ == cs.subrange(i0, cursor.idx as int),
                hasdot == (dot_count(buf@) >= 1),
                rnormal == (dot_count(buf@) <= 1),
            decreases cs.len() - cursor.idx,
        {
            let ghost p = cursor.idx as int;
            let ghost prev = buf@;
            match Self::get_char(cursor, chars, true) {
                Ok(chr) => {
                    if digit_char(chr) || chr == '.' {
                        if hasdot && rnormal && chr == '.' {
                            rnormal = false;
                        }
                        if chr == '.' {
                            hasdot = true;
                        }
                        buf.push(chr);
                        proof {
                            assert(buf@ =~= cs.subrange(i0, p + 1));
                            assert(buf@.drop_last() =~= prev);
                        }
                    } else {
                        cursor.backward();
                        proof {
                            assert(cursor.idx > i0) by {
                                assert(run_cont(cs[i0], true));
                            }
                        }
                        break ;
                    }
                },
                Err(_) => {
                    // the end of the input terminates the run
                    cursor.backward();
                    break ;
                },
            }
        }
        let ghost m = cursor.idx as int;
        proof {
            lemma_run_len_exact(cs, i0 + 1, m, true);
        }
        if !rnormal {
            return Err(TokenizationError::invalid_digit(buf, &cursor));
        }
        cursor.backward();
        if hasdot {
            Ok(Token::float_lit(buf, &cursor))
        } else {
            Ok(Token::int_lit(buf, &cursor))
        }
    }

    /// Scans one greedy alphabetic run (alphanumeric continuation), starting
    /// at the cursor.
    pub fn get_identifier(cursor: &mut Cursor, chars: &Vec<char>) -> (r: Result<
        Token,
        TokenizationError,
    >)
        requires
            chars@.len() < usize::MAX,
            old(cursor).idx < chars@.len(),
            is_alpha_char(chars@[old(cursor).idx as int]),
            old(cursor).column <= old(cursor).idx,
        ensures
            ident_post(*old(cursor), chars@, *final(cursor), r),
    {
        let ghost cs = chars@;
        let ghost i0 = old(cursor).idx as int;
        let ghost line0 = old(cursor).line;
        let ghost col0 = old(cursor).column as int;
        let mut buf = String::new();
        loop
            invariant_except_break
                cs == chars@,
                cs.len() < usize::MAX,
                0 <= i0 < cs.len(),
                is_alpha_char(cs[i0]),
                i0 <= cursor.idx <= cs.len(),
                forall|k: int| i0 <= k < cursor.idx ==> run_cont(cs[k], false),
                cursor.line == line0,
                cursor.column == col0 + (cursor.idx - i0),
                col0 <= i0,
                buf@ == cs.subrange(i0, cursor.idx as int),
            ensures
                cs == chars@,
                i0 < cursor.idx <= cs.len(),
                forall|k: int| i0 <= k < cursor.idx ==> run_cont(cs[k], false),
                cursor.idx == cs.len() || !run_cont(cs[cursor.idx as int], false),
                cursor.line == line0,
                cursor.column == col0 + (cursor.idx - i0),
                col0 <= i0,
                buf@ == cs.subrange(i0, cursor.idx as int),
            decreases cs.len() - cursor.idx,
        {
            let ghost p = cursor.idx as int;
            match Self::get_char(cursor, chars, true) {
                Ok(chr) => {
                    if chr.is_alphanumeric() {
                        buf.push(chr);
                        proof {
                            assert(buf@ =~= cs.subrange(i0, p + 1));
                        }
                    } else {
                        cursor.backward();
                        proof {
                            assert(cursor.idx > i0) by {
                                assert(run_cont(cs[i0], false));
                            }
                        }
                        break ;
                    }
                },
                Err(_) => {
                    // the end of the input terminates the run
                    cursor.backward();
                    break ;
                },
            }
        }
        proof {
            lemma_run_len_exact(cs, i0 + 1, cursor.idx as int, false);
        }
        cursor.backward();
        Ok(Self::check_for_reserved(buf, cursor))
    }

    /// Scans the whole source: returns exactly the tokens of `spec_scan`,
    /// or its first error.
    pub fn gen(&self) -> (r: Result<VecDeque<Token>, TokenizationError>)
        requires
            self@.len() < usize::MAX,
        ensures
            match r {
                Ok(v) => spec_scan(self@, 0, 1, 0) == Ok::<Seq<TokenV>, TokErrV>(tokens_view(v@)),
                Err(e) => spec_scan(self@, 0, 1, 0) == Err::<Seq<TokenV>, TokErrV>(e@),
            },
    {
        let ghost cs = self@;
        let n = self.content.as_str().unicode_len();
        let mut chars: Vec<char> = Vec::new();
        let mut k: usize = 0;
        while k < n
            invariant
                n == cs.len(),
                cs == self@,
                k <= n,
                chars@.len() == k,
                forall|j: int| 0 <= j < k ==> chars@[j] == cs[j],
            decreases n - k,
        {
            let c = self.content.as_str().get_char(k);
            chars.push(c);
            k = k + 1;
        }
        proof {
            assert(chars@ =~= cs);
        }
        let mut vec: VecDeque<Token> = VecDeque::new();
        let mut cursor = Cursor::new();
        proof {
            assert(tokens_view(vec@) =~= Seq::<TokenV>::empty());
            assert(scan_app(tokens_view(vec@), spec_scan(cs, 0, 1, 0)) == spec_scan(cs, 0, 1, 0))
                by {
                match spec_scan(cs, 0, 1, 0) {
                    Ok(ts) => {
                        assert(tokens_view(vec@) + ts =~= ts);
                    },
                    Err(_) => {},
                }
            }
        }
        while cursor.index() < chars.len()
            invariant
                cs == self@,
                chars@ == cs,
                cs.len() < usize::MAX,
                cursor.idx <= cs.len(),
                cursor.column <= cursor.idx,
                cursor.line <= cursor.idx + 1,
                scan_app(
                    tokens_view(vec@),
                    spec_scan(cs, cursor.idx as int, cursor.line as nat, cursor.column as nat),
                ) == spec_scan(cs, 0, 1, 0),
            decreases cs.len() - cursor.idx,
        {
            let chr = chars[cursor.index()];
            let ghost p = cursor.idx as int;
            let ghost l0 = cursor.line as nat;
            let ghost c0 = cursor.column as nat;
            let ghost acc0 = vec@;
            if let Some(kind) = Self::punct_token_kind(chr) {
                let t = Token::new(kind, &cursor);
                vec.push_back(t);
                cursor.advance();
                proof {
                    lemma_scan_push(acc0, t, spec_scan(cs, p + 1, l0, c0 + 1));
                }
            } else if chr == '\n' {
                cursor.advance_line();
            } else if white_char(chr) {
                cursor.advance();
            } else if digit_char(chr) {
                let t = match Self::get_digit_lit(&mut cursor, &chars) {
                    Ok(t) => t,
                    Err(e) => {
                        return Err(e);
                    },
                };
                let ghost end = p + 1 + run_len(cs, p + 1, true);
                proof {
                    lemma_run_len_bound(cs, p + 1, true);
                }
                vec.push_back(t);
                cursor.advance();
                proof {
                    lemma_scan_push(
                        acc0,
                        t,
                        spec_scan(cs, end, l0, (c0 + (end - p)) as nat),
                    );
                }
            } else if chr.is_alphabetic() {
                let t = match Self::get_identifier(&mut cursor, &chars) {
                    Ok(t) => t,
                    Err(e) => {
                        return Err(e);
                    },
                };
                let ghost end = p + 1 + run_len(cs, p + 1, false);
                proof {
                    lemma_run_len_bound(cs, p + 1, false);
                }
                vec.push_back(t);
                cursor.advance();
                proof {
                    lemma_scan_push(
                        acc0,
                        t,
                        spec_scan(cs, end, l0, (c0 + (end - p)) as nat),
                    );
                }
            } else {
                return Err(TokenizationError::unexpected_char(chr, &cursor));
            }
        }
        proof {
            assert(spec_scan(cs, cursor.idx as int, cursor.line as nat, cursor.column as nat)
                == Ok::<Seq<TokenV>, TokErrV>(Seq::empty()));
            match spec_scan(cs, 0, 1, 0) {
                Ok(ts) => {
                    assert(tokens_view(vec@) + Seq::<TokenV>::empty() =~= tokens_view(vec@));
                },
                Err(_) => {},
            }
        }
        Ok(vec)
    }

    /// Maps one punctuation or operator character to its token kind.
    pub fn punct_token_kind(c: char) -> (r: Option<TokenKind>)
        ensures
            match r {
                Some(k) => punct_kind(c) == Some(k@),
                None => punct_kind(c) is None,
            },
    {
        match c {
            ';' => Some(TokenKind::SemiColon),
            ':' => Some(TokenKind::Colon),
            '=' => Some(TokenKind::Operator(Operator::Eq)),
            '+' => Some(TokenKind::Operator(Operator::Plus)),
            '-' => Some(TokenKind::Operator(Operator::Minus)),
            '*' => Some(TokenKind::Operator(Operator::Star)),
            '/' => Some(TokenKind::Operator(Operator::Bar)),
            '(' => Some(TokenKind::OpenParen),
            ')' => Some(TokenKind::CloseParen),
            '{' => Some(TokenKind::OpenBrace),
            '}' => Some(TokenKind::CloseBrace),
            _ => None,
        }
    }
}

/// The source character an operator token was scanned from.
pub open spec fn op_char(op: Operator) -> char {
    match op {
        Operator::Eq => '=',
        Operator::Plus => '+',
        Operator::Minus => '-',
        Operator::Star => '*',
        Operator::Bar => '/',
    }
}

/// The source text a token stands for.
pub open spec fn token_text(t: TokenV) -> Seq<char> {
    match t.kind {
        TokenKindV::Let => kw_let(),
        TokenKindV::Func => kw_func(),
        TokenKindV::Identifier(s) => s,
        TokenKindV::IntLit(s) => s,
        TokenKindV::FloatLit(s) => s,
        TokenKindV::OpenParen => seq!['('],
        TokenKindV::CloseParen => seq![')'],
        TokenKindV::OpenBrace => seq!['{'],
        TokenKindV::CloseBrace => seq!['}'],
        TokenKindV::SemiColon => seq![';'],
        TokenKindV::Colon => seq![':'],
        TokenKindV::Operator(op) => seq![op_char(op)],
        TokenKindV::Eof => Seq::empty(),
    }
}

/// The source texts of a token sequence, concatenated in order.
pub open spec fn texts_concat(ts: Seq<TokenV>) -> Seq<char>
    decreases ts.len(),
{
    if ts.len() == 0 {
        Seq::empty()
    } else {
        token_text(ts[0]) + texts_concat(ts.drop_first())
    }
}

/// The characters of `cs` that are not white space, in order.
pub open spec fn non_white(cs: Seq<char>) -> Seq<char> {
    cs.filter(|c: char| !is_white_char(c))
}

proof fn lemma_texts_cons(t: TokenV, ts: Seq<TokenV>)
    ensures
        texts_concat(seq![t] + ts) == token_text(t) + texts_concat(ts),
{
    let whole = seq![t] + ts;
    assert(whole[0] == t);
    assert(whole.drop_first() =~= ts);
}

proof fn lemma_non_white_one(c: char)
    ensures
        is_white_char(c) ==> non_white(seq![c]) == Seq::<char>::empty(),
        !is_white_char(c) ==> non_white(seq![c]) == seq![c],
{
    reveal_with_fuel(Seq::filter, 3);
    let s = seq![c];
    assert(s.drop_last() =~= Seq::<char>::empty());
    assert(s.last() == c);
    if !is_white_char(c) {
        assert(non_white(s) =~= seq![c]);
    }
}

proof fn lemma_non_white_all(s: Seq<char>)
    requires
        forall|k: int| 0 <= k < s.len() ==> !is_white_char(s[k]),
    ensures
        non_white(s) == s,
    decreases s.len(),
{
    reveal_with_fuel(Seq::filter, 2);
    if s.len() > 0 {
        lemma_non_white_all(s.drop_last());
        assert(non_white(s) =~= s);
    } else {
        assert(non_white(s) =~= s);
    }
}

#[verifier::rlimit(80)]
proof fn lemma_scan_round_trip_from(cs: Seq<char>, i: int, line: nat, col: nat)
    requires
        0 <= i <= cs.len(),
        spec_scan(cs, i, line, col) is Ok,
    ensures
        texts_concat(spec_scan(cs, i, line, col)->Ok_0) == non_white(cs.skip(i)),
    decreases cs.len() - i,
{
    broadcast use Seq::filter_distributes_over_add;

    if i == cs.len() {
        assert(cs.skip(i) =~= Seq::<char>::empty());
        reveal_with_fuel(Seq::filter, 2);
        assert(non_white(cs.skip(i)) =~= Seq::<char>::empty());
    } else {
        let c = cs[i];
        if punct_kind(c) is Some {
            let t = TokenV { line, column: col, kind: punct_kind(c)->Some_0 };
            let rest = spec_scan(cs, i + 1, line, col + 1);
            lemma_scan_round_trip_from(cs, i + 1, line, col + 1);
            lemma_texts_cons(t, rest->Ok_0);
            lemma_non_white_one(c);
            assert(token_text(t) =~= seq![c]);
            assert(cs.skip(i) =~= seq![c] + cs.skip(i + 1));
            assert(texts_concat(spec_scan(cs, i, line, col)->Ok_0) =~= non_white(cs.skip(i)));
        } else if c == '\n' {
            lemma_scan_round_trip_from(cs, i + 1, line + 1, 0);
            lemma_non_white_one(c);
            assert(cs.skip(i) =~= seq![c] + cs.skip(i + 1));
            assert(texts_concat(spec_scan(cs, i, line, col)->Ok_0) =~= non_white(cs.skip(i)));
        } else if is_white_char(c) {
            lemma_scan_round_trip_from(cs, i + 1, line, col + 1);
            lemma_non_white_one(c);
            assert(cs.skip(i) =~= seq![c] + cs.skip(i + 1));
            assert(texts_concat(spec_scan(cs, i, line, col)->Ok_0) =~= non_white(cs.skip(i)));
        } else if is_digit_char(c) {
            let end = i + 1 + run_len(cs, i + 1, true);
            let run = cs.subrange(i, end);
            lemma_run_len_bound(cs, i + 1, true);
            lemma_run_all_cont(cs, i + 1, true);
            let t = TokenV {
                line,
                column: (col + (end - i) - 1) as nat,
                kind: if dot_count(run) >= 1 {
                    TokenKindV::FloatLit(run)
                } else {
                    TokenKindV::IntLit(run)
                },
            };
            let rest = spec_scan(cs, end, line, (col + (end - i)) as nat);
            lemma_scan_round_trip_from(cs, end, line, (col + (end - i)) as nat);
            lemma_texts_cons(t, rest->Ok_0);
            assert(forall|k: int| 0 <= k < run.len() ==> !is_white_char(run[k]));
            lemma_non_white_all(run);
            assert(cs.skip(i) =~= run + cs.skip(end));
            assert(texts_concat(spec_scan(cs, i, line, col)->Ok_0) =~= non_white(cs.skip(i)));
        } else if is_alpha_char(c) {
            let end = i + 1 + run_len(cs, i + 1, false);
            let run = cs.subrange(i, end);
            lemma_run_len_bound(cs, i + 1, false);
            lemma_run_all_cont(cs, i + 1, false);
            let t = TokenV {
                line,
                column: (col + (end - i) - 1) as nat,
                kind: keyword_or_ident(run),
            };
            let rest = spec_scan(cs, end, line, (col + (end - i)) as nat);
            lemma_scan_round_trip_from(cs, end, line, (col + (end - i)) as nat);
            lemma_texts_cons(t, rest->Ok_0);
            assert(forall|k: int| 0 <= k < run.len() ==> !is_white_char(run[k]));
            lemma_non_white_all(run);
            assert(token_text(t) == run);
            assert(cs.skip(i) =~= run + cs.skip(end));
            assert(texts_concat(spec_scan(cs, i, line, col)->Ok_0) =~= non_white(cs.skip(i)));
        }
    }
}

/// Every character of a greedy run satisfies the run's continuation test
/// (the run's first character is covered by the scanner's branch tests).
proof fn lemma_run_all_cont(cs: Seq<char>, j: int, digits: bool)
    requires
        0 <= j <= cs.len(),
    ensures
        forall|k: int| j <= k < j + run_len(cs, j, digits) ==> run_cont(cs[k], digits),
    decreases cs.len() - j,
{
    if j < cs.len() && run_cont(cs[j], digits) {
        lemma_run_all_cont(cs, j + 1, digits);
    }
}

/// Round trip of the lexer: wherever scanning succeeds, concatenating the
/// tokens' source texts reconstructs exactly the non-white-space characters
/// of the source, in order.
pub proof fn lemma_tokenize_round_trip(cs: Seq<char>)
    requires
        spec_scan(cs, 0, 1, 0) is Ok,
    ensures
        texts_concat(spec_scan(cs, 0, 1, 0)->Ok_0) == non_white(cs),
{
    lemma_scan_round_trip_from(cs, 0, 1, 0);
    assert(cs.skip(0) =~= cs);
}

/// Scanning a lone digit run: a run that starts with a digit and goes on in
/// digits and dots to the end of the input is accepted verbatim as one
/// literal token when it holds at most one dot — a float literal with a dot,
/// an integer literal without — and is rejected as `InvalidDigit`, again
/// verbatim, when it holds two or more.
pub proof fn lemma_digit_run_scan(cs: Seq<char>)
    requires
        cs.len() > 0,
        is_digit_char(cs[0]),
        forall|k: int| 0 <= k < cs.len() ==> run_cont(cs[k], true),
    ensures
        dot_count(cs) < 2 ==> spec_scan(cs, 0, 1, 0) == Ok::<Seq<TokenV>, TokErrV>(
            seq![
                TokenV {
                    line: 1,
                    column: (cs.len() - 1) as nat,
                    kind: if dot_count(cs) >= 1 {
                        TokenKindV::FloatLit(cs)
                    } else {
                        TokenKindV::IntLit(cs)
                    },
                },
            ],
        ),
        dot_count(cs) >= 2 ==> spec_scan(cs, 0, 1, 0) == Err::<Seq<TokenV>, TokErrV>(
            TokErrV { line: 1, column: cs.len() as nat, kind: TokErrKindV::InvalidDigit(cs) },
        ),
{
    let c = cs[0];
    assert(punct_kind(c) is None);
    assert(c != '\n');
    assert(!is_white_char(c));
    lemma_run_len_exact(cs, 1, cs.len() as int, true);
    let end: int = 1 + run_len(cs, 1, true) as int;
    assert(end == cs.len());
    let run = cs.subrange(0, end);
    assert(run =~= cs);
    if dot_count(cs) < 2 {
        let t = TokenV {
            line: 1,
            column: (cs.len() - 1) as nat,
            kind: if dot_count(cs) >= 1 {
                TokenKindV::FloatLit(cs)
            } else {
                TokenKindV::IntLit(cs)
            },
        };
        assert(spec_scan(cs, end, 1, cs.len() as nat) == Ok::<Seq<TokenV>, TokErrV>(
            Seq::empty(),
        ));
        assert(seq![t] + Seq::<TokenV>::empty() =~= seq![t]);
    }
}

} // verus!
