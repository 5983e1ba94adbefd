//! Configuration values read from a configuration file. Reading and
//! deserializing the file happens outside the library; these are the plain
//! values the library consumes.

use vstd::prelude::*;

verus! {

/// The configuration file's contents.
pub struct Config {
    pub generate: Option<GenerateConfig>,
    pub properties: Option<Vec<PropertyConfig>>,
}

/// Settings for generating documents from a directory tree.
pub struct GenerateConfig {
    pub allow_hidden_files: Option<bool>,
    pub ignored_files: Option<Vec<String>>,
    pub wispha_name: Option<String>,
}

/// One user-defined property: its name, and the value a generated entry
/// starts with, if any.
pub struct PropertyConfig {
    pub name: String,
    pub default_value: Option<String>,
}

impl Clone for PropertyConfig {
    /// An equal property declaration.
    fn clone(&self) -> (r: Self)
        ensures
            r == *self,
    {
        PropertyConfig {
            name: self.name.clone(),
            default_value: match &self.default_value {
                Some(v) => Some(v.clone()),
                None => None,
            },
        }
    }
}

/// Copies a list of property declarations; the copy holds equal values.
pub fn clone_property_configs(v: &Vec<PropertyConfig>) -> (r: Vec<PropertyConfig>)
    ensures
        r@ == v@,
{
    let n = v.len();
    let mut r: Vec<PropertyConfig> = Vec::new();
    let mut i: usize = 0;
    while i < n
        invariant
            i <= n,
            n == v@.len(),
            r@ == v@.take(i as int),
        decreases n - i,
    {
        r.push(v[i].clone());
        i = i + 1;
        proof {
            assert(r@ =~= v@.take(i as int));
        }
    }
    proof {
        assert(v@.take(n as int) =~= v@);
    }
    r
}

/// Copies a list of strings; the copy holds equal values.
pub fn clone_strings(v: &Vec<String>) -> (r: Vec<String>)
    ensures
        r@ == v@,
{
    let n = v.len();
    let mut r: Vec<String> = Vec::new();
    let mut i: usize = 0;
    while i < n
        invariant
            i <= n,
            n == v@.len(),
            r@ == v@.take(i as int),
        decreases n - i,
    {
        r.push(v[i].clone());
        i = i + 1;
        proof {
            assert(r@ =~= v@.take(i as int));
        }
    }
    proof {
        assert(v@.take(n as int) =~= v@);
    }
    r
}

} // verus!
