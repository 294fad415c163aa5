//! The filter language: a small boolean expression language over test
//! names, packages, binaries, kinds and flaky / quarantined status.
pub mod lexer;
pub mod ast;
pub mod parser;
pub mod eval;
pub mod laws;

use vstd::prelude::*;

use crate::error::NinetyNineError;
use crate::filter::ast::{shape, FilterExpr};
use crate::filter::lexer::{lex, tokens_view};
use crate::filter::parser::parse_tokens;

verus! {

/// The expression a filter string denotes, if it compiles.
pub open spec fn compile_spec(s: Seq<char>) -> Option<crate::filter::ast::SpecExpr> {
    match lex(s) {
        Ok(t) => parse_tokens(t),
        Err(_) => None,
    }
}

/// Compiles a filter expression string into a `FilterExpr`.
///
/// Succeeds exactly when the string tokenizes and the tokens parse; every
/// failure is a `FilterParse` error.
pub fn compile_filter(input: &str) -> (r: Result<FilterExpr, NinetyNineError>)
    ensures
        r is Ok <==> compile_spec(input@) is Some,
        r matches Ok(e) ==> compile_spec(input@) == Some(shape(e)),
        r matches Err(e) ==> e is FilterParse,
{
    let tokens = lexer::tokenize(input)?;
    parser::parse(tokens)
}

} // verus!
