//! The kind of an entry and the properties every resolved entry carries.

use vstd::prelude::*;

use crate::strings::{DIRECTORY_TYPE, FILE_TYPE, PROGRAM_ENTRY_TYPE};

verus! {

/// What an entry denotes on the file system.
#[derive(Copy, Clone, PartialEq, Eq, Structural, Debug)]
pub enum WisphaEntryType {
    /// The entry is a directory.
    Directory,
    /// The entry is a file in a directory.
    File,
    /// The entry is a programmatic unit inside a file.
    ProgramEntry,
}

impl WisphaEntryType {
    /// The name under which this type is written in a document.
    pub open spec fn spec_str(self) -> Seq<char> {
        match self {
            WisphaEntryType::Directory => "directory"@,
            WisphaEntryType::File => "file"@,
            WisphaEntryType::ProgramEntry => "program entry"@,
        }
    }

    /// The type a document names with the given string, if any.
    pub open spec fn spec_from(s: Seq<char>) -> Option<WisphaEntryType> {
        if s == "directory"@ {
            Some(WisphaEntryType::Directory)
        } else if s == "file"@ {
            Some(WisphaEntryType::File)
        } else if s == "program entry"@ {
            Some(WisphaEntryType::ProgramEntry)
        } else {
            None
        }
    }

    pub fn to_str(&self) -> (r: &'static str)
        ensures
            r@ == self.spec_str(),
    {
        match self {
            WisphaEntryType::Directory => DIRECTORY_TYPE,
            WisphaEntryType::File => FILE_TYPE,
            WisphaEntryType::ProgramEntry => PROGRAM_ENTRY_TYPE,
        }
    }

    pub fn from(string: String) -> (r: Option<WisphaEntryType>)
        ensures
            r == Self::spec_from(string@),
    {
        proof {
            lemma_entry_type_names_distinct();
        }
        if crate::helper::text::string_eq_str(&string, DIRECTORY_TYPE) {
            Some(WisphaEntryType::Directory)
        } else if crate::helper::text::string_eq_str(&string, FILE_TYPE) {
            Some(WisphaEntryType::File)
        } else if crate::helper::text::string_eq_str(&string, PROGRAM_ENTRY_TYPE) {
            Some(WisphaEntryType::ProgramEntry)
        } else {
            None
        }
    }
}

/// The three type names are pairwise distinct, so reading a type back from
/// its written name is unambiguous.
pub proof fn lemma_entry_type_names_distinct()
    ensures
        "directory"@ != "file"@,
        "directory"@ != "program entry"@,
        "file"@ != "program entry"@,
{
    reveal_strlit("directory");
    reveal_strlit("file");
    reveal_strlit("program entry");
    assert("directory"@.len() != "file"@.len());
    assert("directory"@.len() != "program entry"@.len());
    assert("file"@.len() != "program entry"@.len());
}

/// The fields every resolved entry carries.
///
/// Paths are held as plain strings: a path is absolute in memory and is
/// written relative to the root-directory marker when saved.
#[derive(Debug)]
pub struct WisphaEntryProperties {
    pub entry_type: WisphaEntryType,
    /// The entry's display name.
    pub name: String,
    /// An optional multi-line description; line breaks are preserved.
    pub description: Option<String>,
    /// The file-system path the entry denotes.
    pub absolute_path: String,
    /// The document file that literally contains this entry's properties.
    /// Not inherited through links, and not written back to documents.
    pub file_path: String,
    /// User-defined properties, as name/value pairs in insertion order.
    pub customized: Vec<(String, String)>,
}

/// The character-sequence values of a list of name/value pairs.
pub open spec fn pair_views(pairs: Seq<(String, String)>) -> Seq<(Seq<char>, Seq<char>)> {
    pairs.map_values(|p: (String, String)| (p.0@, p.1@))
}

/// The mathematical value of an entry's properties: every string replaced
/// by its character sequence.
#[verifier::ext_equal]
pub struct PropertiesView {
    pub entry_type: WisphaEntryType,
    pub name: Seq<char>,
    pub description: Option<Seq<char>>,
    pub absolute_path: Seq<char>,
    pub file_path: Seq<char>,
    pub customized: Seq<(Seq<char>, Seq<char>)>,
}

impl View for WisphaEntryProperties {
    type V = PropertiesView;

    open spec fn view(&self) -> PropertiesView {
        PropertiesView {
            entry_type: self.entry_type,
            name: self.name@,
            description: match self.description {
                Some(d) => Some(d@),
                None => None,
            },
            absolute_path: self.absolute_path@,
            file_path: self.file_path@,
            customized: pair_views(self.customized@),
        }
    }
}

impl Clone for WisphaEntryProperties {
    /// A copy with the same mathematical value.
    fn clone(&self) -> (r: Self)
        ensures
            r@ == self@,
    {
        let mut customized: Vec<(String, String)> = Vec::new();
        let n = self.customized.len();
        let mut i: usize = 0;
        while i < n
            invariant
                i <= n,
                n == self.customized@.len(),
                customized@.len() == i,
                forall|j: int|
                    0 <= j < i ==> (#[trigger] customized@[j]).0@ == self.customized@[j].0@
                        && customized@[j].1@ == self.customized@[j].1@,
            decreases n - i,
        {
            let name_copy = self.customized[i].0.clone();
            let value_copy = self.customized[i].1.clone();
            customized.push((name_copy, value_copy));
            i = i + 1;
        }
        proof {
            assert(pair_views(customized@) =~= pair_views(self.customized@));
        }
        let r = WisphaEntryProperties {
            entry_type: self.entry_type,
            name: self.name.clone(),
            description: match &self.description {
                Some(d) => Some(d.clone()),
                None => None,
            },
            absolute_path: self.absolute_path.clone(),
            file_path: self.file_path.clone(),
            customized,
        };
        r
    }
}

impl WisphaEntryProperties {
    /// Looks up a user-defined property by name; the latest insertion wins.
    pub fn get_customized(&self, name: &String) -> (r: Option<&String>)
        ensures
            match r {
                Some(v) => exists|i: int|
                    {
                        &&& 0 <= i < self.customized@.len()
                        &&& (#[trigger] self.customized@[i].0@) == name@
                        &&& self.customized@[i].1 == v
                        &&& forall|j: int|
                            i < j < self.customized@.len() ==> (
                            #[trigger] self.customized@[j].0@) != name@
                    },
                None => forall|i: int|
                    0 <= i < self.customized@.len() ==> (#[trigger] self.customized@[i].0@)
                        != name@,
            },
    {
        let n = self.customized.len();
        let mut k = n;
        while k > 0
            invariant
                k <= n,
                n == self.customized@.len(),
                forall|j: int| k <= j < n ==> (#[trigger] self.customized@[j].0@) != name@,
            decreases k,
        {
            k = k - 1;
            if self.customized[k].0.eq(name) {
                return Some(&self.customized[k].1);
            }
        }
        None
    }

    /// Appends a user-defined property, so that it shadows earlier pairs
    /// with the same name.
    pub fn insert_customized(&mut self, name: String, value: String)
        ensures
            final(self).customized@ == old(self).customized@.push((name, value)),
            final(self).entry_type == old(self).entry_type,
            final(self).name == old(self).name,
            final(self).description == old(self).description,
            final(self).absolute_path == old(self).absolute_path,
            final(self).file_path == old(self).file_path,
    {
        self.customized.push((name, value));
    }
}

} // verus!
