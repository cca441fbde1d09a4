//! A parser for a JSON-flavoured document language.
//!
//! Documents are parsed into an owned [`Value`] tree. The grammar follows
//! JSON with three deliberate restrictions and one extension: numbers are
//! signed 64-bit integers only, object keys are identifier-shaped bare words,
//! the document root must be an object or an array, and a backslash followed
//! by whitespace inside a string discards the whole whitespace run.

use vstd::prelude::*;

pub mod ast;
mod chars;
pub mod err;
pub mod grammar;
pub mod laws;
pub mod parser;

pub use ast::SpecValue;
pub use ast::Value;
pub use err::ContextFrame;
pub use err::ErrorKind;
pub use err::ParseError;
pub use err::RuleLabel;
pub use err::SpecError;
pub use err::SpecFrame;

verus! {

/// The default bound on the nesting depth of values inside a document,
/// which keeps the parser's recursion depth proportional to it.
pub const DEFAULT_MAX_DEPTH: u32 = 128;

/// Parses a document whose root is an object or an array, with the default
/// nesting-depth bound. On success the returned tree is exactly the value
/// the grammar derives at the root, and every object in it has distinct
/// keys; on failure the returned error is exactly the failure the grammar
/// reports. Input after the root value is ignored.
pub fn parse(data: &str) -> (r: Result<Value, ParseError>)
    ensures
        match r {
            Ok(v) => (grammar::sp_root(data@, DEFAULT_MAX_DEPTH as nat)
                matches grammar::SpecParsed::Found { v: sv, .. } && sv == v@) && v.wf(),
            Err(e) => grammar::sp_root(data@, DEFAULT_MAX_DEPTH as nat)
                == (grammar::SpecParsed::<SpecValue>::Fail { err: e@ }),
        },
{
    parse_with_depth(data, DEFAULT_MAX_DEPTH)
}

/// [`parse`], with the nesting-depth bound chosen by the caller.
pub fn parse_with_depth(data: &str, max_depth: u32) -> (r: Result<Value, ParseError>)
    ensures
        match r {
            Ok(v) => (grammar::sp_root(data@, max_depth as nat)
                matches grammar::SpecParsed::Found { v: sv, .. } && sv == v@) && v.wf(),
            Err(e) => grammar::sp_root(data@, max_depth as nat)
                == (grammar::SpecParsed::<SpecValue>::Fail { err: e@ }),
        },
{
    let cs = chars::text_chars(data);
    match parser::root(&cs, max_depth) {
        Ok((v, _next)) => Ok(v),
        Err(e) => Err(e),
    }
}

} // verus!
