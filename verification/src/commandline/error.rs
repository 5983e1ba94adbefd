//! The catch-all error of the command layer.

use vstd::prelude::*;

verus! {

#[derive(Debug, Clone, Copy, PartialEq, Eq, Structural)]
pub enum CommandlineError {
    Unexpected,
}

} // verus!
