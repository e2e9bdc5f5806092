//! Front end and lowering pipeline of a small statically-typed expression
//! language: lexical analysis, recursive-descent parsing, type-checking
//! semantic analysis, and code generation into a low-level intermediate
//! representation.

pub mod analysis;
pub mod ast;
pub mod chars;
pub mod codegen;
pub mod parser;
pub mod strutil;
pub mod table;
pub mod tokenizer;
pub mod cursor;
pub mod tokens;

pub use cursor::Cursor;
pub use tokens::{Operator, Token, TokenKind};
