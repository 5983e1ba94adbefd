//! What a caller can configure about producing documents.

use vstd::prelude::*;

use crate::commandline::Generate;
use crate::config_reader::{clone_property_configs, clone_strings, Config, PropertyConfig};
use crate::strings::DEFAULT_FILE_NAME_STR;

verus! {

/// Whether every directory gets a document of its own, or one document
/// holds the whole tree.
#[derive(Clone, Copy, PartialEq, Eq, Structural, Debug)]
pub enum GenerateLayer {
    Flat,
    Recursive,
}

pub struct GeneratorOptions {
    pub layer: GenerateLayer,
    pub allow_hidden_files: bool,
    pub properties: Vec<PropertyConfig>,
    pub ignored_files: Vec<String>,
    /// The file name a generated document is written under.
    pub wispha_name: String,
}

impl Clone for GeneratorOptions {
    /// Options with the same settings.
    fn clone(&self) -> (r: Self)
        ensures
            r.layer == self.layer,
            r.allow_hidden_files == self.allow_hidden_files,
            r.properties@ == self.properties@,
            r.ignored_files@ == self.ignored_files@,
            r.wispha_name@ == self.wispha_name@,
    {
        GeneratorOptions {
            layer: self.layer,
            allow_hidden_files: self.allow_hidden_files,
            properties: clone_property_configs(&self.properties),
            ignored_files: clone_strings(&self.ignored_files),
            wispha_name: self.wispha_name.clone(),
        }
    }
}

impl GeneratorOptions {
    pub fn default() -> (r: GeneratorOptions)
        ensures
            r.layer is Flat,
            !r.allow_hidden_files,
            r.properties@ == Seq::<PropertyConfig>::empty(),
            r.ignored_files@ == Seq::<String>::empty(),
            r.wispha_name@ == "LOOKME.wispha"@,
    {
        GeneratorOptions {
            layer: GenerateLayer::Flat,
            allow_hidden_files: false,
            properties: Vec::new(),
            ignored_files: Vec::new(),
            wispha_name: DEFAULT_FILE_NAME_STR.to_owned(),
        }
    }

    pub fn update_from_commandline(&mut self, generate: &Generate) -> (r: Result<
        (),
        GeneratorOptionError,
    >)
        ensures
            generate.flat && generate.recursively ==> (r matches Err(e) && e is FlatAndRecursive
                && *final(self) == *old(self)),
            !(generate.flat && generate.recursively) ==> (r is Ok && final(self).layer == (
            if generate.recursively {
                GenerateLayer::Recursive
            } else if generate.flat {
                GenerateLayer::Flat
            } else {
                old(self).layer
            }) && final(self).allow_hidden_files == (generate.all
                || old(self).allow_hidden_files) && final(self).properties == old(self).properties
                && final(self).ignored_files == old(self).ignored_files && final(self).wispha_name
                == old(self).wispha_name),
    {
        if let Err(e) = self.validate_commandline(generate) {
            return Err(e);
        }
        if generate.recursively {
            self.layer = GenerateLayer::Recursive;
        }
        if generate.flat {
            self.layer = GenerateLayer::Flat;
        }
        if generate.all {
            self.allow_hidden_files = true;
        }
        Ok(())
    }

    pub fn update_from_config(&mut self, config: &Config) -> (r: Result<(), GeneratorOptionError>)
        ensures
            r is Ok,
            final(self).layer == old(self).layer,
    {
        if let Some(generate_config) = &config.generate {
            if let Some(allow_hidden_file) = generate_config.allow_hidden_files {
                self.allow_hidden_files = allow_hidden_file;
            }
            if let Some(ignored_files) = &generate_config.ignored_files {
                self.ignored_files = clone_strings(ignored_files);
            }
            if let Some(wispha_name) = &generate_config.wispha_name {
                self.wispha_name = wispha_name.clone();
            }
        }
        if let Some(properties) = &config.properties {
            self.properties = clone_property_configs(properties);
        }
        Ok(())
    }

    /// Asking for both layers at once is contradictory.
    fn validate_commandline(&self, generate: &Generate) -> (r: Result<(), GeneratorOptionError>)
        ensures
            r is Err <==> generate.flat && generate.recursively,
            r matches Err(e) ==> e is FlatAndRecursive,
    {
        if generate.flat && generate.recursively {
            return Err(GeneratorOptionError::FlatAndRecursive);
        }
        Ok(())
    }
}

#[derive(Debug, Clone, Copy, PartialEq, Eq, Structural)]
pub enum GeneratorOptionError {
    FlatAndRecursive,
}

} // verus!
