//! What a caller can configure about reporting unrecorded files.

use vstd::prelude::*;

use crate::commandline::State;
use crate::config_reader::{clone_strings, Config};
use crate::parser::option::ParserOptions;
use crate::strings::DEFAULT_THREADS;

verus! {

pub struct StatorOptions {
    pub ignored_files: Vec<String>,
    pub allow_hidden_files: bool,
    /// Whether paths the version-control index knows count as recorded.
    pub git: bool,
    pub threads: usize,
}

impl StatorOptions {
    pub fn default() -> (r: StatorOptions)
        ensures
            r.ignored_files@ == Seq::<String>::empty(),
            !r.allow_hidden_files,
            !r.git,
            r.threads == DEFAULT_THREADS,
    {
        StatorOptions {
            ignored_files: Vec::new(),
            allow_hidden_files: false,
            git: false,
            threads: DEFAULT_THREADS,
        }
    }

    pub fn update_from_config(&mut self, config: &Config)
        ensures
            final(self).git == old(self).git,
            final(self).threads == old(self).threads,
            match config.generate {
                Some(g) => ({
                    &&& final(self).allow_hidden_files == match g.allow_hidden_files {
                        Some(a) => a,
                        None => old(self).allow_hidden_files,
                    }
                    &&& match g.ignored_files {
                        Some(fs) => final(self).ignored_files@ == fs@,
                        None => final(self).ignored_files == old(self).ignored_files,
                    }
                }),
                None => *final(self) == *old(self),
            },
    {
        if let Some(generate) = &config.generate {
            if let Some(ignored_files) = &generate.ignored_files {
                self.ignored_files = clone_strings(ignored_files);
            }
            if let Some(allow_hidden_files) = &generate.allow_hidden_files {
                self.allow_hidden_files = *allow_hidden_files;
            }
        }
    }

    pub fn update_from_commandline(&mut self, state: &State)
        ensures
            final(self).git == state.git,
            final(self).threads == match state.threads {
                Some(t) => t,
                None => old(self).threads,
            },
            final(self).ignored_files == old(self).ignored_files,
            final(self).allow_hidden_files == old(self).allow_hidden_files,
    {
        self.git = state.git;
        if let Some(threads) = state.threads {
            self.threads = threads;
        }
    }

    pub fn update_parser_options(&self, parser_options: &mut ParserOptions)
        ensures
            final(parser_options).threads == self.threads,
            final(parser_options).properties == old(parser_options).properties,
    {
        parser_options.threads = self.threads;
    }
}

} // verus!
