//! Compiler error types.

use crate::asn1::util::push_str;
use vstd::prelude::*;

verus! {

/// Errors produced while lexing, parsing, or generating code from a
/// `.tpt-asn1` schema.
#[derive(Debug, Clone, PartialEq, Eq)]
pub enum CompilerError {
    /// The lexer encountered an unexpected byte.
    LexError(String),
    /// The parser encountered an unexpected token or structure.
    ParseError(String),
    /// Code generation failed (e.g. an unresolved type reference).
    CodegenError(String),
}

impl CompilerError {
    /// Construct a lex error.
    pub fn lex(msg: &str) -> (e: Self)
        ensures
            e matches CompilerError::LexError(m) && m@ == msg@,
    {
        CompilerError::LexError(String::from_str(msg))
    }

    /// Construct a parse error.
    pub fn parse(msg: &str) -> (e: Self)
        ensures
            e matches CompilerError::ParseError(m) && m@ == msg@,
    {
        CompilerError::ParseError(String::from_str(msg))
    }

    /// Construct a codegen error.
    pub fn codegen(msg: &str) -> (e: Self)
        ensures
            e matches CompilerError::CodegenError(m) && m@ == msg@,
    {
        CompilerError::CodegenError(String::from_str(msg))
    }

    /// The human-readable rendering: the stage, a colon, and the message.
    pub fn to_string(&self) -> (s: String)
        ensures
            s@ == match self {
                CompilerError::LexError(m) => "lex error: "@ + m@,
                CompilerError::ParseError(m) => "parse error: "@ + m@,
                CompilerError::CodegenError(m) => "codegen error: "@ + m@,
            },
    {
        let (mut out, m) = match self {
            CompilerError::LexError(m) => (String::from_str("lex error: "), m),
            CompilerError::ParseError(m) => (String::from_str("parse error: "), m),
            CompilerError::CodegenError(m) => (String::from_str("codegen error: "), m),
        };
        push_str(&mut out, m.as_str());
        out
    }
}

/// Result alias used throughout the compiler.
pub type Result<T> = core::result::Result<T, CompilerError>;

} // verus!
