//! Small shared pieces: character and string helpers used by the tokenizer
//! and the parser, and the error type of the worker pool that executes
//! background resolution units.

use vstd::prelude::*;

pub mod path;
pub mod text;
pub mod thread_pool;
