//! What a caller can configure about parsing: the user-defined property
//! names to recognize, and how many background workers resolution may use.

use vstd::prelude::*;

use crate::config_reader::{Config, PropertyConfig};
use crate::commandline::Look;
use crate::strings::DEFAULT_THREADS;

verus! {

pub struct ParserOptions {
    /// The user-defined properties to recognize, by name.
    pub properties: Vec<PropertyConfig>,
    /// The number of background workers resolution may use.
    pub threads: usize,
}

impl Clone for ParserOptions {
    /// Options with the same properties and worker count.
    fn clone(&self) -> (r: Self)
        ensures
            r.properties@ == self.properties@,
            r.threads == self.threads,
    {
        ParserOptions {
            properties: crate::config_reader::clone_property_configs(&self.properties),
            threads: self.threads,
        }
    }
}

impl ParserOptions {
    pub fn default() -> (r: ParserOptions)
        ensures
            r.properties@ == Seq::<PropertyConfig>::empty(),
            r.threads == DEFAULT_THREADS,
    {
        ParserOptions { properties: Vec::new(), threads: DEFAULT_THREADS }
    }

    pub fn update_from_commandline(&mut self, look: &Look)
        ensures
            final(self).threads == match look.threads {
                Some(t) => t,
                None => old(self).threads,
            },
            final(self).properties == old(self).properties,
    {
        if let Some(threads) = look.threads {
            self.threads = threads;
        }
    }

    pub fn update_from_config(&mut self, config: &Config) -> (r: Result<(), ParserOptionError>)
        ensures
            r is Ok,
            final(self).threads == old(self).threads,
            match config.properties {
                Some(ps) => final(self).properties@ == ps@,
                None => final(self).properties == old(self).properties,
            },
    {
        if let Some(properties) = &config.properties {
            self.properties = crate::config_reader::clone_property_configs(properties);
        }
        Ok(())
    }
}

/// No way of updating parser options can fail at present; this type keeps
/// the error position in the signatures that report one.
#[derive(Debug, Clone, Copy, PartialEq, Eq, Structural)]
pub struct ParserOptionError {
}

} // verus!
