//! What can go wrong while matching ignore patterns.

use vstd::prelude::*;

verus! {

#[derive(Debug, Clone, Copy, PartialEq, Eq, Structural)]
pub enum IgnoreError {
    Syntax,
    Unexpect,
}

} // verus!
