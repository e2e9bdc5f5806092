//! Tokens produced by the lexer: immutable value objects carrying their kind
//! and the position they were scanned at.

use vstd::prelude::*;
use crate::cursor::Cursor;

verus! {

#[derive(Debug, Clone, Copy, PartialEq, Eq, Structural)]
pub enum Operator {
    Eq,
    Plus,
    Minus,
    Star,
    Bar,
}

#[derive(Debug, Clone, PartialEq, Eq)]
pub enum TokenKind {
    Let,
    Func,
    Identifier(String),
    IntLit(String),
    FloatLit(String),
    OpenParen,
    CloseParen,
    OpenBrace,
    CloseBrace,
    SemiColon,
    Colon,
    Operator(Operator),
    Eof,
}

/// Mathematical value of a `TokenKind`: payloads as character sequences.
pub enum TokenKindV {
    Let,
    Func,
    Identifier(Seq<char>),
    IntLit(Seq<char>),
    FloatLit(Seq<char>),
    OpenParen,
    CloseParen,
    OpenBrace,
    CloseBrace,
    SemiColon,
    Colon,
    Operator(Operator),
    Eof,
}

impl View for TokenKind {
    type V = TokenKindV;

    open spec fn view(&self) -> TokenKindV {
        match self {
            TokenKind::Let => TokenKindV::Let,
            TokenKind::Func => TokenKindV::Func,
            TokenKind::Identifier(s) => TokenKindV::Identifier(s@),
            TokenKind::IntLit(s) => TokenKindV::IntLit(s@),
            TokenKind::FloatLit(s) => TokenKindV::FloatLit(s@),
            TokenKind::OpenParen => TokenKindV::OpenParen,
            TokenKind::CloseParen => TokenKindV::CloseParen,
            TokenKind::OpenBrace => TokenKindV::OpenBrace,
            TokenKind::CloseBrace => TokenKindV::CloseBrace,
            TokenKind::SemiColon => TokenKindV::SemiColon,
            TokenKind::Colon => TokenKindV::Colon,
            TokenKind::Operator(op) => TokenKindV::Operator(*op),
            TokenKind::Eof => TokenKindV::Eof,
        }
    }
}

/// Mathematical value of a `Token`.
pub struct TokenV {
    pub line: nat,
    pub column: nat,
    pub kind: TokenKindV,
}

#[derive(Debug, Clone, PartialEq, Eq)]
pub struct Token {
    pub line: usize,
    pub column: usize,
    pub kind: TokenKind,
}

impl View for Token {
    type V = TokenV;

    open spec fn view(&self) -> TokenV {
        TokenV { line: self.line as nat, column: self.column as nat, kind: self.kind@ }
    }
}

impl Token {
    pub fn func(cursor: &Cursor) -> (t: Token)
        ensures
            t@ == (TokenV {
                line: cursor.line as nat,
                column: cursor.column as nat,
                kind: TokenKindV::Func,
            }),
    {
        Self::new(TokenKind::Func, cursor)
    }

    pub fn identifier(buf: String, cursor: &Cursor) -> (t: Token)
        ensures
            t@ == (TokenV {
                line: cursor.line as nat,
                column: cursor.column as nat,
                kind: TokenKindV::Identifier(buf@),
            }),
    {
        Self::new(TokenKind::Identifier(buf), cursor)
    }

    pub fn let_token(cursor: &Cursor) -> (t: Token)
        ensures
            t@ == (TokenV {
                line: cursor.line as nat,
                column: cursor.column as nat,
                kind: TokenKindV::Let,
            }),
    {
        Self::new(TokenKind::Let, cursor)
    }

    pub fn float_lit(buf: String, cursor: &Cursor) -> (t: Token)
        ensures
            t@ == (TokenV {
                line: cursor.line as nat,
                column: cursor.column as nat,
                kind: TokenKindV::FloatLit(buf@),
            }),
    {
        Self::new(TokenKind::FloatLit(buf), cursor)
    }

    pub fn int_lit(buf: String, cursor: &Cursor) -> (t: Token)
        ensures
            t@ == (TokenV {
                line: cursor.line as nat,
                column: cursor.column as nat,
                kind: TokenKindV::IntLit(buf@),
            }),
    {
        Self::new(TokenKind::IntLit(buf), cursor)
    }

    pub fn new(kind: TokenKind, cursor: &Cursor) -> (t: Token)
        ensures
            t@ == (TokenV {
                line: cursor.line as nat,
                column: cursor.column as nat,
                kind: kind@,
            }),
    {
        Token { kind, line: cursor.line(), column: cursor.column() }
    }

    pub fn refkind(&self) -> (k: &TokenKind)
        ensures
            k@ == self@.kind,
    {
        &self.kind
    }

    pub fn line(&self) -> (l: usize)
        ensures
            l == self.line,
    {
        self.line
    }

    pub fn column(&self) -> (c: usize)
        ensures
            c == self.column,
    {
        self.column
    }
}

/// The views of a sequence of tokens.
pub open spec fn tokens_view(ts: Seq<Token>) -> Seq<TokenV> {
    ts.map_values(|t: Token| t@)
}

pub broadcast proof fn lemma_tokens_view_len(ts: Seq<Token>)
    ensures
        (#[trigger] tokens_view(ts)).len() == ts.len(),
{
}

pub broadcast proof fn lemma_tokens_view_index(ts: Seq<Token>, i: int)
    requires
        0 <= i < ts.len(),
    ensures
        #[trigger] tokens_view(ts)[i] == ts[i]@,
{
}

pub broadcast proof fn lemma_tokens_view_skip(ts: Seq<Token>, k: int)
    requires
        0 <= k <= ts.len(),
    ensures
        #[trigger] tokens_view(ts.skip(k)) == tokens_view(ts).skip(k),
{
    assert(tokens_view(ts.skip(k)) =~= tokens_view(ts).skip(k));
}

/// The broadcast facts about `tokens_view`: its length and elements.
pub broadcast group group_tokens_view {
    lemma_tokens_view_len,
    lemma_tokens_view_index,
}

} // verus!
