//! What can go wrong while serializing a resolved tree.

use vstd::prelude::*;

verus! {

#[derive(Debug, Clone, Copy, PartialEq, Eq, Structural)]
pub enum SerializerError {
    SerializeError,
}

} // verus!
