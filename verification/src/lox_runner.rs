//! The front half of the pipeline: source text to syntax tree. Scanning
//! and parsing each keep their own diagnostic family; this function only
//! carries whichever list stopped the pipeline, it never merges them.

use crate::ast::{view_stmts, Stmt};
use crate::lox_error::Errors;
use crate::parser::{sp_parse, view_perrs, Parser, ParserError};
use crate::scanner::{spec_scan_source, Scanner};
use crate::token::TokenizationError;
use vstd::prelude::*;
use vstd::string::StringSliceAdditionalSpecFns;

verus! {

/// What stopped the pipeline: the scanner's diagnostics, or the
/// parser's.
#[derive(Debug)]
pub enum CodeError {
    Scan(Errors<TokenizationError>),
    Parse(Errors<ParserError>),
}

/// Scans and parses a source text: the statement list when both passes
/// are clean, the complete diagnostic list of the pass that failed
/// otherwise — exactly what the specification scanner and parser say of
/// the source bytes.
pub fn code_to_stblock(code: &str) -> (r: Result<Vec<Stmt>, CodeError>)
    ensures
        ({
            let sc = spec_scan_source(code.spec_bytes());
            match r {
                Ok(stmts) => sc.errs.len() == 0 && sp_parse(sc.tokens).errs.len() == 0
                    && view_stmts(stmts@) == sp_parse(sc.tokens).stmts,
                Err(CodeError::Scan(e)) => e.items@ == sc.errs && sc.errs.len() > 0,
                Err(CodeError::Parse(e)) => sc.errs.len() == 0 && view_perrs(e.items@) == sp_parse(
                    sc.tokens,
                ).errs && sp_parse(sc.tokens).errs.len() > 0,
            }
        }),
{
    let bytes: Vec<u8> = vstd::slice::slice_to_vec(code.as_bytes());
    proof {
        assert(bytes@ == code.spec_bytes());
    }
    let tokens = match Scanner::new(bytes).scan_tokens() {
        Ok(t) => t,
        Err(e) => {
            return Err(CodeError::Scan(e));
        },
    };
    let mut parser = Parser::new(tokens);
    match parser.parse() {
        Ok(stmts) => Ok(stmts),
        Err(e) => Err(CodeError::Parse(e)),
    }
}

} // verus!
