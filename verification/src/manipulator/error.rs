//! What can go wrong while navigating the resolved tree.

use vstd::prelude::*;

verus! {

#[derive(Debug)]
pub enum ManipulatorError {
    /// The index holds no entry under this file-system path.
    PathNotEntry(String),
    PathNotExist,
    AbsolutePathNotSupported,
    /// A `..` stepped above the root of the described tree.
    BeyondDomain,
    /// A name along the walked path names no child; carries the path
    /// walked up to and including that name.
    EntryNotFound(String),
    /// A path used the root-directory marker while no root directory was
    /// established.
    EnvNotFound,
    PropertyNotFound,
    Unexpected,
}

} // verus!
