//! What can go wrong while producing documents, and the declarations the
//! library needs to hold an error of the ignore-pattern crate.

use vstd::prelude::*;

use crate::helper::thread_pool::ThreadPoolError;

verus! {

/// Declares the error type of the `ignore` crate, so that values of it can
/// be carried through the library. The library never looks inside one.
#[verifier::external_type_specification]
#[verifier::external_body]
pub struct ExIgnoreCrateError(ignore::Error);

#[derive(Debug)]
pub enum GeneratorError {
    DirCannotRead(String),
    PathIsNotDir(String),
    /// The entry's name could not be read off its path.
    NameNotDetermined(String),
    NameNotValid(String),
    /// Building the ignore patterns failed; carries the pattern crate's
    /// own error.
    IgnoreError(ignore::Error),
    FileCannotWrite(String),
    ThreadPoolError(ThreadPoolError),
    Unexpected,
}

impl From<ThreadPoolError> for GeneratorError {
    fn from(err: ThreadPoolError) -> (r: Self) {
        GeneratorError::ThreadPoolError(err)
    }
}

impl vstd::std_specs::convert::FromSpecImpl<ThreadPoolError> for GeneratorError {
    open spec fn obeys_from_spec() -> bool {
        true
    }

    open spec fn from_spec(err: ThreadPoolError) -> GeneratorError {
        GeneratorError::ThreadPoolError(err)
    }
}

} // verus!
