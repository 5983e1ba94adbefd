//! The document model: entry types and properties, the intermediate
//! tree produced by parsing (which may still contain links to other
//! documents), and the resolved tree that the rest of the library consumes.

use vstd::prelude::*;

pub mod common;
pub mod properties;
pub mod error;
pub mod intermediate;
