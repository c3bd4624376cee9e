//! The `.tpt-asn1` schema language front end: a hand-written lexer and a
//! recursive-descent parser producing a [`Schema`](ast::Schema) AST.

pub mod ast;
pub mod error;
pub mod lexer;
pub mod parser;

use crate::compiler::ast::Schema;
use crate::compiler::error::CompilerError;
use crate::compiler::lexer::{
    digits_end, ident_end, lemma_digits_end, lemma_ident_end, lemma_line_end, lex_failure_message,
    lex_from, line_end, spec_lex, tokens_model, TokenModel,
};
use crate::compiler::parser::{error_agrees, spec_parse, spec_upto_eof, well_formed};
use vstd::prelude::*;
use vstd::string::StringSliceAdditionalSpecFns;

verus! {

/// Every token list the lexer produces ends in `Eof`, its only `Eof`.
pub proof fn lemma_lex_well_formed(b: Seq<u8>, i: int)
    requires
        0 <= i,
    ensures
        lex_from(b, i) matches Ok(s) ==> well_formed(s) && forall|k: int| 0 <= k < s.len() - 1 ==> s[k] != TokenModel::Eof,
    decreases b.len() - i,
{
    if i < b.len() {
        let c = b[i];
        if c == 0x2d && i + 1 < b.len() && (b[i + 1] == 0x2d || b[i + 1] == 0x2f) {
            lemma_line_end(b, i + 1);
            lemma_lex_well_formed(b, line_end(b, i + 1));
        } else if c == 0x2f && i + 1 < b.len() && b[i + 1] == 0x2f {
            lemma_line_end(b, i + 1);
            lemma_lex_well_formed(b, line_end(b, i + 1));
        } else if c == 0x2d && i + 1 < b.len() && 0x30 <= b[i + 1] <= 0x39 {
            lemma_digits_end(b, i + 1);
            lemma_lex_well_formed(b, digits_end(b, i + 1));
        } else if c == 0x2d || (0x41 <= c <= 0x5a) || (0x61 <= c <= 0x7a) || c == 0x5f {
            lemma_ident_end(b, i);
            lemma_lex_well_formed(b, ident_end(b, i));
        } else if 0x30 <= c <= 0x39 {
            lemma_digits_end(b, i);
            lemma_lex_well_formed(b, digits_end(b, i));
        } else {
            lemma_lex_well_formed(b, i + 1);
        }
    }
}

/// Parse `.tpt-asn1` source into a [`Schema`] AST: lex, then parse.
pub fn parse(src: &str) -> (res: Result<Schema, CompilerError>)
    ensures
        match spec_lex(src.spec_bytes()) {
            Err(f) => res matches Err(CompilerError::LexError(m)) && m@ == lex_failure_message(f),
            Ok(ts) => match spec_parse(ts) {
                Ok(m) => res matches Ok(s) && s@ == m,
                Err(f) => res matches Err(e) && error_agrees(e, f),
            },
        },
{
    let tokens = match lexer::lex(src) {
        Ok(t) => t,
        Err(e) => return Err(e),
    };
    proof {
        lemma_lex_well_formed(src.spec_bytes(), 0);
        let ts = tokens_model(tokens@);
        assert(ts[ts.len() - 1] == tokens@[ts.len() - 1]@);
        crate::compiler::parser::lemma_first_eof(ts, 0, ts.len() - 1);
        assert(spec_upto_eof(ts) =~= ts);
    }
    parser::parse(tokens.as_slice())
}

} // verus!
