//! The commands a user can give, as plain values. Reading them from the
//! actual command line, and the interactive loop around the resolved tree,
//! live outside the library.

use vstd::prelude::*;

pub mod error;
pub mod input_parser;

use crate::parser::option::ParserOptions;

verus! {

pub struct WisphaCommand {
    pub subcommand: Subcommand,
}

pub enum Subcommand {
    Generate(Generate),
    Look(Look),
    State(State),
    Convert(Convert),
}

/// Produce documents describing a directory tree.
pub struct Generate {
    pub flat: bool,
    pub recursively: bool,
    pub all: bool,
    pub threads: Option<usize>,
    pub path: Option<String>,
}

/// Resolve a document tree and browse it interactively.
pub struct Look {
    pub threads: Option<usize>,
    pub path: String,
}

/// Report files not recorded in the document tree.
pub struct State {
    pub git: bool,
    pub threads: Option<usize>,
    pub path: String,
}

/// Resolve a document tree and serialize it.
pub struct Convert {
    pub threads: Option<usize>,
    pub output: Option<String>,
    pub language: Option<String>,
    pub path: String,
}

impl Convert {
    pub fn update_parser_options(&self, options: &mut ParserOptions)
        ensures
            final(options).threads == match self.threads {
                Some(t) => t,
                None => old(options).threads,
            },
            final(options).properties == old(options).properties,
    {
        if let Some(threads) = &self.threads {
            options.threads = *threads;
        }
    }
}

/// One command of the interactive browsing session.
pub struct LookCommand {
    pub subcommand: LookSubcommand,
}

pub enum LookSubcommand {
    Cd(Cd),
    Ls(Ls),
    Info(Info),
    Quit,
}

/// Move to another entry.
pub struct Cd {
    pub local: bool,
    pub path: String,
}

/// List an entry's children.
pub struct Ls {
    pub local: bool,
    pub path: Option<String>,
}

/// Show one property of the current entry.
pub struct Info {
    pub name: String,
}

} // verus!
