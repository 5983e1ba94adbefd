//! What a caller can configure about serializing, and the languages a
//! tree can be written in.

use vstd::prelude::*;

use crate::commandline::Convert;
use crate::helper::text::string_eq_str;

verus! {

#[derive(Clone, Copy, PartialEq, Eq, Structural, Debug)]
pub enum Language {
    JSON,
    TOML,
}

#[derive(Clone, Copy)]
pub struct SerializerOptions {
    pub language: Language,
}

impl SerializerOptions {
    pub fn default() -> (r: SerializerOptions)
        ensures
            r.language is JSON,
    {
        SerializerOptions { language: Language::JSON }
    }

    pub fn update_from_commandline(&mut self, convert: &Convert) -> (r: Result<
        (),
        SerializerOptionError,
    >)
        ensures
            match convert.language {
                Some(l) => match Language::spec_from(l@) {
                    Some(lang) => r is Ok && final(self).language == lang,
                    None => r matches Err(e) && (e matches
                    SerializerOptionError::LanguageNotSupport(n) && n@ == l@) && *final(self)
                        == *old(self),
                },
                None => r is Ok && *final(self) == *old(self),
            },
    {
        if let Some(language_str) = &convert.language {
            match Language::from(language_str.as_str()) {
                Ok(language) => {
                    self.language = language;
                },
                Err(e) => {
                    return Err(e);
                },
            }
        }
        Ok(())
    }
}

impl Language {
    /// The language a name denotes, if any.
    pub open spec fn spec_from(s: Seq<char>) -> Option<Language> {
        if s == "JSON"@ {
            Some(Language::JSON)
        } else if s == "TOML"@ {
            Some(Language::TOML)
        } else {
            None
        }
    }

    pub fn from(language_str: &str) -> (r: Result<Language, SerializerOptionError>)
        ensures
            match Language::spec_from(language_str@) {
                Some(lang) => r matches Ok(l) && l == lang,
                None => r matches Err(e) && (e matches SerializerOptionError::LanguageNotSupport(
                    n,
                ) && n@ == language_str@),
            },
    {
        proof {
            lemma_language_names_distinct();
        }
        let owned = language_str.to_owned();
        if string_eq_str(&owned, "JSON") {
            Ok(Language::JSON)
        } else if string_eq_str(&owned, "TOML") {
            Ok(Language::TOML)
        } else {
            Err(SerializerOptionError::LanguageNotSupport(owned))
        }
    }

    /// The file extension the language is written under.
    pub fn to_extension(&self) -> (r: String)
        ensures
            self is JSON ==> r@ == "json"@,
            self is TOML ==> r@ == "toml"@,
    {
        match &self {
            Language::JSON => "json".to_owned(),
            Language::TOML => "toml".to_owned(),
        }
    }
}

/// The two language names differ.
proof fn lemma_language_names_distinct()
    ensures
        "JSON"@ != "TOML"@,
{
    reveal_strlit("JSON");
    reveal_strlit("TOML");
    assert("JSON"@[0] != "TOML"@[0]);
}

#[derive(Debug)]
pub enum SerializerOptionError {
    CurrentDirNotDetermined,
    LanguageNotSupport(String),
}

} // verus!
