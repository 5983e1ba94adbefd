//! The parser's error surface. Every grammar error carries the offending
//! token, and with it the file and line it came from.

use vstd::prelude::*;

use crate::helper::thread_pool::ThreadPoolError;
use crate::parser::parser_struct::{WisphaExpectOption, WisphaToken};

verus! {

#[derive(Debug)]
pub enum ParserError {
    /// A type property named none of the known entry types; carries the
    /// offending content token.
    UnrecognizedEntryFileType(WisphaToken),
    /// A document file could not be read; carries its path.
    FileCannotRead(String),
    /// A token was not among the expected ones; carries the offending
    /// token and the patterns that were expected in its place.
    UnexpectedToken(WisphaToken, Option<Vec<(WisphaToken, Vec<WisphaExpectOption>)>>),
    /// A single-value property had no content line; carries its header.
    EmptyBody(WisphaToken),
    /// A path used the root-directory marker while no root directory was
    /// established.
    EnvNotFound,
    ThreadPoolError(ThreadPoolError),
    /// A linked document does not exist or could not be parsed.
    DependencyNotFound(String),
    Unexpected,
}

impl From<ThreadPoolError> for ParserError {
    fn from(err: ThreadPoolError) -> (r: Self) {
        ParserError::ThreadPoolError(err)
    }
}

impl vstd::std_specs::convert::FromSpecImpl<ThreadPoolError> for ParserError {
    open spec fn obeys_from_spec() -> bool {
        true
    }

    open spec fn from_spec(err: ThreadPoolError) -> ParserError {
        ParserError::ThreadPoolError(err)
    }
}

} // verus!
