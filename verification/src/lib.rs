//! A compiler from a small indentation-sensitive language to WebAssembly text.
//!
//! Source text is cut into tokens by the [`Lexer`], the tokens are arranged
//! into a [`Program`] by the [`Parser`], and the [`CodeGenerator`] lowers the
//! program to a [`Wexp`], the parenthesised tree whose rendering is the
//! module text.  Every stage is specified by a mathematical function over
//! sequences, and every executable function is proved to compute it.
pub mod codegen;
pub mod compile;
pub mod error;
pub mod lexer;
pub mod parser;
pub mod program;
pub mod text;
pub mod token;
pub mod wexp;

pub use codegen::CodeGenerator;
pub use compile::{compile, try_compile};
pub use error::Error;
pub use lexer::Lexer;
pub use parser::{Failure, Parser};
pub use program::{Body, Expression, Program, Statement, Value};
pub use token::{Token, TokenKind};
pub use wexp::Wexp;
