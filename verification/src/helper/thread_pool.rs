//! The error surface of the worker pool. The pool itself spawns operating
//! system threads and so lives outside the verified library; resolution in
//! this library is a state machine whose pending units the pool executes.

use vstd::prelude::*;

verus! {

#[derive(Debug, Clone, Copy, PartialEq, Eq, Structural)]
pub enum ThreadPoolError {
    /// A background worker could not be started.
    NoEnoughThread,
}

impl ThreadPoolError {
    /// The message shown to the user for this error.
    pub fn message(&self) -> (r: String)
        ensures
            r@ == "No enough thread."@,
    {
        "No enough thread.".to_owned()
    }
}

} // verus!
