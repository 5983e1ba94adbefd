//! Producing documents from a directory tree. Walking the real file
//! system and writing files happen outside the library; here live the
//! decisions: which entries to include, what an entry looks like before
//! its children are known, and the document text a tree is written as.

use vstd::prelude::*;

pub mod converter;
pub mod error;
pub mod option;

use crate::config_reader::PropertyConfig;
use crate::generator::error::GeneratorError;
use crate::generator::option::GeneratorOptions;
use crate::helper::path::last_separator;
use crate::helper::text::{chars_of, string_from_chars};
use crate::strings::{DEFAULT_FILE_PATH, DEFAULT_NAME, DEFAULT_PATH};
use crate::wispha::intermediate::WisphaDirectEntry;
use crate::wispha::properties::{PropertiesView, WisphaEntryProperties, WisphaEntryType};

verus! {

/// The name a path denotes: what stands behind its last separator; the
/// whole path if it has none. Empty for a path that ends in a separator.
pub open spec fn spec_file_name(p: Seq<char>) -> Seq<char> {
    if !p.contains('/') {
        p
    } else {
        p.skip(last_separator(p) + 1)
    }
}

/// The name a path denotes.
pub fn file_name_of_path(p: &String) -> (r: String)
    ensures
        r@ == spec_file_name(p@),
{
    let chars = chars_of(p.as_str());
    let n = chars.len();
    let mut j: usize = n;
    while j > 0 && chars[j - 1] != '/'
        invariant
            0 <= j <= n,
            n == p@.len(),
            chars@ == p@,
            forall|k: int| j <= k < n ==> p@[k] != '/',
        decreases j,
    {
        j = j - 1;
    }
    proof {
        if j == 0 {
            if p@.contains('/') {
                let w = choose|w: int| 0 <= w < p@.len() && p@[w] == '/';
                assert(false);
            }
        } else {
            assert(p@.contains('/')) by {
                assert(p@[j as int - 1] == '/');
            }
            crate::helper::path::lemma_last_separator(p@);
            assert(last_separator(p@) == j as int - 1);
        }
    }
    let mut out: Vec<char> = Vec::new();
    let mut i: usize = j;
    while i < n
        invariant
            j <= i <= n,
            n == p@.len(),
            chars@ == p@,
            out@ == p@.subrange(j as int, i as int),
        decreases n - i,
    {
        out.push(chars[i]);
        i = i + 1;
        proof {
            assert(out@ =~= p@.subrange(j as int, i as int));
        }
    }
    proof {
        if j == 0 {
            assert(out@ =~= p@);
        } else {
            assert(out@ =~= p@.skip(j as int));
        }
    }
    string_from_chars(&out)
}

/// What the entry for one file-system path holds before its children and
/// parent are known: the path's own name, the path, a directory or file
/// type, and the configured user-defined properties that declare a
/// starting value.
pub open spec fn spec_file_entry(
    path: Seq<char>,
    is_dir: bool,
    opts: Seq<PropertyConfig>,
) -> Result<PropertiesView, ()> {
    if spec_file_name(path).len() == 0 {
        Err(())
    } else {
        Ok(
            PropertiesView {
                entry_type: if is_dir {
                    WisphaEntryType::Directory
                } else {
                    WisphaEntryType::File
                },
                name: spec_file_name(path),
                description: None,
                absolute_path: path,
                file_path: "default file path"@,
                customized: default_customized(opts),
            },
        )
    }
}

/// The starting user-defined properties: each configured property with a
/// declared starting value, in configuration order.
pub open spec fn default_customized(opts: Seq<PropertyConfig>) -> Seq<(Seq<char>, Seq<char>)>
    decreases opts.len(),
{
    if opts.len() == 0 {
        Seq::empty()
    } else {
        let rest = default_customized(opts.drop_last());
        match opts.last().default_value {
            Some(v) => rest.push((opts.last().name@, v@)),
            None => rest,
        }
    }
}

/// Builds the entry for one file-system path, before its children and
/// parent are known. The path must denote a nameable file or directory.
pub fn generate_file_at_path_without_sub_and_sup(
    path: &String,
    is_dir: bool,
    options: &GeneratorOptions,
) -> (r: Result<WisphaDirectEntry, GeneratorError>)
    ensures
        match r {
            Ok(entry) => {
                &&& spec_file_entry(path@, is_dir, options.properties@) matches Ok(v)
                &&& entry.properties@ == v
                &&& entry.sub_entries@ == Seq::<
                    crate::wispha::intermediate::WisphaIntermediateEntry,
                >::empty()
            },
            Err(e) => {
                &&& spec_file_entry(path@, is_dir, options.properties@) is Err
                &&& e matches GeneratorError::NameNotDetermined(p) && p@ == path@
            },
        },
{
    let mut wispha_entry = WisphaDirectEntry::default();
    let name = file_name_of_path(path);
    if name.as_str().unicode_len() == 0 {
        return Err(GeneratorError::NameNotDetermined(path.clone()));
    }
    wispha_entry.properties.name = name;
    wispha_entry.properties.absolute_path = path.clone();
    wispha_entry.properties.entry_type = if is_dir {
        WisphaEntryType::Directory
    } else {
        WisphaEntryType::File
    };
    let n = options.properties.len();
    let mut i: usize = 0;
    while i < n
        invariant
            0 <= i <= n,
            n == options.properties@.len(),
            crate::wispha::properties::pair_views(wispha_entry.properties.customized@)
                == default_customized(options.properties@.take(i as int)),
            wispha_entry.properties.name@ == spec_file_name(path@),
            wispha_entry.properties.absolute_path@ == path@,
            wispha_entry.properties.entry_type == (if is_dir {
                WisphaEntryType::Directory
            } else {
                WisphaEntryType::File
            }),
            wispha_entry.properties.description is None,
            wispha_entry.properties.file_path@ == "default file path"@,
            wispha_entry.sub_entries@.len() == 0,
        decreases n - i,
    {
        let ghost before = wispha_entry.properties.customized@;
        if let Some(default_value) = &options.properties[i].default_value {
            wispha_entry.properties.insert_customized(
                options.properties[i].name.clone(),
                default_value.clone(),
            );
        }
        i = i + 1;
        proof {
            assert(options.properties@.take(i as int).drop_last() =~= options.properties@.take(
                i as int - 1,
            ));
            assert(options.properties@.take(i as int).last() == options.properties@[i - 1]);
            assert(crate::wispha::properties::pair_views(wispha_entry.properties.customized@)
                =~= default_customized(options.properties@.take(i as int)));
        }
    }
    proof {
        assert(options.properties@.take(n as int) =~= options.properties@);
        assert(spec_file_entry(path@, is_dir, options.properties@) matches Ok(v)
            && wispha_entry.properties@ =~= v);
    }
    Ok(wispha_entry)
}

/// Declares the compiled ignore-pattern matcher of the `ignore` crate.
/// Its values are opaque to the library, which passes them between the
/// wrappers below.
#[verifier::external_type_specification]
#[verifier::external_body]
pub struct ExGitignore(ignore::gitignore::Gitignore);

/// Declares the builder for the compiled ignore-pattern matcher.
#[verifier::external_type_specification]
#[verifier::external_body]
pub struct ExGitignoreBuilder(ignore::gitignore::GitignoreBuilder);

/// Relies on `ignore::gitignore::GitignoreBuilder::new`: a builder whose
/// patterns are matched relative to the given root directory.
#[verifier::external_body]
fn gitignore_builder_new(root_dir: &String) -> ignore::gitignore::GitignoreBuilder {
    ignore::gitignore::GitignoreBuilder::new(root_dir)
}

/// Relies on `ignore::gitignore::GitignoreBuilder::add_line`: adds one
/// pattern line to the builder, and errs when the line is no glob.
#[verifier::external_body]
fn gitignore_add_line(
    builder: &mut ignore::gitignore::GitignoreBuilder,
    line: &String,
) -> Result<(), ignore::Error> {
    match builder.add_line(None, line) {
        Ok(_) => Ok(()),
        Err(e) => Err(e),
    }
}

/// Relies on `ignore::gitignore::GitignoreBuilder::build`: compiles the
/// added patterns into a matcher.
#[verifier::external_body]
fn gitignore_build(
    builder: &ignore::gitignore::GitignoreBuilder,
) -> Result<ignore::gitignore::Gitignore, ignore::Error> {
    builder.build()
}

/// Relies on `ignore::gitignore::Gitignore::matched` and
/// `ignore::Match::is_ignore`: whether the patterns ignore the path. The
/// verdict depends on the compiled patterns, which the library does not
/// look into; its callers state what holds of either answer.
#[verifier::external_body]
pub(crate) fn gitignore_is_ignored(
    wispha_ignore: &ignore::gitignore::Gitignore,
    path: &String,
    is_dir: bool,
) -> bool {
    wispha_ignore.matched(path, is_dir).is_ignore()
}

/// Compiles the configured ignore patterns into a matcher rooted at the
/// root directory. Fails exactly where the pattern crate rejects a line or
/// the build, carrying its error.
pub fn get_ignored_files_from_root(root_dir: &String, ignored_files: &Vec<String>) -> (r: Result<
    ignore::gitignore::Gitignore,
    GeneratorError,
>)
    ensures
        r matches Err(e) ==> e is IgnoreError,
{
    let mut ignore_builder = gitignore_builder_new(root_dir);
    let n = ignored_files.len();
    let mut i: usize = 0;
    while i < n
        invariant
            0 <= i <= n,
            n == ignored_files@.len(),
        decreases n - i,
    {
        if let Err(error) = gitignore_add_line(&mut ignore_builder, &ignored_files[i]) {
            return Err(GeneratorError::IgnoreError(error));
        }
        i = i + 1;
    }
    match gitignore_build(&ignore_builder) {
        Ok(wispha_ignore) => Ok(wispha_ignore),
        Err(error) => Err(GeneratorError::IgnoreError(error)),
    }
}

/// Whether a directory walk takes this entry along: an ignored entry never
/// is; a hidden entry — its name opens with a dot — only when the options
/// allow hidden files; every other entry is.
pub open spec fn spec_should_include(ignored: bool, name: Seq<char>, allow_hidden: bool) -> bool {
    if ignored {
        false
    } else if name.len() > 0 && name[0] == '.' {
        allow_hidden
    } else {
        true
    }
}

/// Whether a directory walk takes this entry along: the ignore patterns
/// are asked about the entry's path, and the rest of the decision is a
/// function of the verdict, the entry's name and the options.
pub fn should_include_entry(
    wispha_ignore: &ignore::gitignore::Gitignore,
    path: &String,
    is_dir: bool,
    file_name: &String,
    options: &GeneratorOptions,
) -> (r: bool)
    ensures
        exists|ignored: bool|
            r == spec_should_include(ignored, file_name@, options.allow_hidden_files),
        (file_name@.len() > 0 && file_name@[0] == '.' && !options.allow_hidden_files) ==> !r,
        r ==> spec_should_include(false, file_name@, options.allow_hidden_files),
{
    let ignored = gitignore_is_ignored(wispha_ignore, path, is_dir);
    let r = if ignored {
        false
    } else {
        let chars = chars_of(file_name.as_str());
        if chars.len() > 0 && chars[0] == '.' {
            options.allow_hidden_files
        } else {
            true
        }
    };
    proof {
        assert(r == spec_should_include(ignored, file_name@, options.allow_hidden_files));
    }
    r
}

} // verus!
