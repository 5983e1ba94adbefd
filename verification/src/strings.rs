//! The fixed pieces of the document grammar: the depth marker, the
//! recognized header labels, the entry-type names, and the defaults used
//! when a field is absent.

use vstd::prelude::*;

verus! {

/// The character whose repetition encodes a header's nesting depth,
/// written once.
pub const BEGIN_MARK: &'static str = "+";

pub const LINE_SEPARATOR: &'static str = "\n";

pub const DEFAULT_NAME: &'static str = "default name";

pub const DEFAULT_PATH: &'static str = "default path";

pub const DEFAULT_FILE_PATH: &'static str = "default file path";

pub const DEFAULT_FILE_NAME_STR: &'static str = "LOOKME.wispha";

pub const DIRECTORY_TYPE: &'static str = "directory";

pub const FILE_TYPE: &'static str = "file";

pub const PROGRAM_ENTRY_TYPE: &'static str = "program entry";

pub const ABSOLUTE_PATH_HEADER: &'static str = "file path";

pub const NAME_HEADER: &'static str = "name";

pub const ENTRY_TYPE_HEADER: &'static str = "entry type";

pub const DESCRIPTION_HEADER: &'static str = "description";

pub const ENTRY_FILE_PATH_HEADER: &'static str = "entry file path";

pub const SUB_ENTRIES_HEADER: &'static str = "subentry";

/// The marker that path values use to name the root directory of the
/// resolution that is underway.
pub const ROOT_DIR: &'static str = "$ROOT_DIR";

pub const CONFIG_FILE_NAME: &'static str = ".wispharc";

pub const DEFAULT_THREADS: usize = 4;

} // verus!
