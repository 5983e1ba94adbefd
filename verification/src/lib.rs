//! A verified library for building and querying a linked, human-editable
//! description of a file-system subtree: a tree of entries (directories,
//! files, program units) written in a small depth-marked document grammar,
//! split across documents that reference one another.
//!
//! The library covers the document model, the tokenizer, the structural
//! parser, and the resolution engine that splices referenced documents into
//! the tree while preserving sibling order. File and terminal I/O, the
//! worker threads that fetch referenced documents, and serde-based
//! serialization live outside the library, which only computes.

use vstd::prelude::*;

pub mod commandline;
pub mod config_reader;
pub mod generator;
pub mod helper;
pub mod ignorer;
pub mod manipulator;
pub mod parser;
pub mod serializer;
pub mod stator;
pub mod strings;
pub mod wispha;
