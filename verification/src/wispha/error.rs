//! The catch-all error of the document model.

use vstd::prelude::*;

verus! {

#[derive(Debug, Clone, Copy, PartialEq, Eq, Structural)]
pub enum WisphaError {
    Unexpect,
}

} // verus!
