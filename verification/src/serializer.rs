//! Turning a resolved tree into an interchange language. The encoding
//! itself runs through serde outside the library; here live the choice of
//! language and its error surface.

use vstd::prelude::*;

pub mod error;
pub mod options;
