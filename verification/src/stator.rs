//! Reporting which files of a directory tree the documents do not record.
//! Walking the file system and reading the version-control index happen
//! outside the library; here live the decisions: which paths count as
//! recorded, and whether a path is reported.

use vstd::prelude::*;

pub mod option;

use crate::generator::{file_name_of_path, spec_file_name};
use crate::helper::text::chars_of;
use crate::stator::option::StatorOptions;
use crate::wispha::common::{WisphaEntry, WisphaTree};

verus! {

/// The file-system paths a tree records, in depth-first document order:
/// each entry's path, then its children's.
pub open spec fn recorded_paths(nodes: Seq<WisphaEntry>, i: int) -> Seq<Seq<char>>
    decreases nodes.len() - i, nodes[i].sub_entries@.len(), 1int,
    when 0 <= i < nodes.len() && crate::wispha::common::nodes_ordered(nodes)
{
    seq![nodes[i].properties.absolute_path@] + recorded_paths_of_children(
        nodes,
        nodes[i].sub_entries@,
        i,
    )
}

pub open spec fn recorded_paths_of_children(
    nodes: Seq<WisphaEntry>,
    subs: Seq<usize>,
    i: int,
) -> Seq<Seq<char>>
    decreases nodes.len() - i, subs.len(), 0int,
    when 0 <= i < nodes.len() && crate::wispha::common::nodes_ordered(nodes) && (forall|k: int|
        0 <= k < subs.len() ==> i < #[trigger] subs[k] < nodes.len())
{
    if subs.len() == 0 {
        Seq::empty()
    } else {
        recorded_paths(nodes, subs[0] as int) + recorded_paths_of_children(
            nodes,
            subs.drop_first(),
            i,
        )
    }
}

/// Collects the paths a tree records, in depth-first document order.
pub fn get_recorded_files_from_root(
    tree: &WisphaTree,
    entry: usize,
    recorded: &mut Vec<String>,
) -> (r: ())
    requires
        tree.wf(),
        entry < tree.nodes@.len(),
    ensures
        crate::helper::text::string_views(final(recorded)@) == crate::helper::text::string_views(
            old(recorded)@,
        ) + recorded_paths(tree.nodes@, entry as int),
    decreases tree.nodes@.len() - entry,
{
    recorded.push(tree.node(entry).properties.absolute_path.clone());
    let ghost after_self = crate::helper::text::string_views(recorded@);
    proof {
        assert(after_self =~= crate::helper::text::string_views(old(recorded)@).push(
            tree.nodes@[entry as int].properties.absolute_path@,
        ));
    }
    let ghost subs = tree.nodes@[entry as int].sub_entries@;
    let n = tree.node(entry).sub_entries.len();
    let mut m: usize = 0;
    proof {
        assert(subs.skip(0) =~= subs);
    }
    while m < n
        invariant
            tree.wf(),
            entry < tree.nodes@.len(),
            0 <= m <= n,
            n == subs.len(),
            subs == tree.nodes@[entry as int].sub_entries@,
            crate::helper::text::string_views(recorded@) + recorded_paths_of_children(
                tree.nodes@,
                subs.skip(m as int),
                entry as int,
            ) == crate::helper::text::string_views(old(recorded)@) + recorded_paths(
                tree.nodes@,
                entry as int,
            ),
        decreases n - m,
    {
        let child = tree.node(entry).sub_entries[m];
        get_recorded_files_from_root(tree, child, recorded);
        m = m + 1;
        proof {
            assert(subs.skip(m as int - 1)[0] == subs[m as int - 1]);
            assert(subs.skip(m as int - 1).drop_first() =~= subs.skip(m as int));
            assert(crate::helper::text::string_views(recorded@) + recorded_paths_of_children(
                tree.nodes@,
                subs.skip(m as int),
                entry as int,
            ) =~= crate::helper::text::string_views(old(recorded)@) + recorded_paths(
                tree.nodes@,
                entry as int,
            ));
        }
    }
    proof {
        assert(subs.skip(n as int) =~= Seq::<usize>::empty());
        assert(crate::helper::text::string_views(recorded@) + Seq::<Seq<char>>::empty()
            =~= crate::helper::text::string_views(recorded@));
    }
}

/// Whether a sequence of paths holds one equal to `p`.
pub open spec fn seq_contains_string(paths: Seq<String>, p: Seq<char>) -> bool {
    exists|i: int| 0 <= i < paths.len() && (#[trigger] paths[i])@ == p
}

/// Whether a list of paths holds one equal to `p`.
pub fn contains_path(paths: &Vec<String>, p: &String) -> (r: bool)
    ensures
        r == seq_contains_string(paths@, p@),
{
    let n = paths.len();
    let mut i: usize = 0;
    while i < n
        invariant
            0 <= i <= n,
            n == paths@.len(),
            forall|j: int| 0 <= j < i ==> (#[trigger] paths@[j])@ != p@,
        decreases n - i,
    {
        if paths[i].eq(p) {
            proof {
                assert((paths@[i as int])@ == p@);
            }
            return true;
        }
        i = i + 1;
    }
    false
}

/// Whether a path is reported as unrecorded: an ignored path never is, a
/// recorded path never is, a path the version-control index knows never
/// is when the index is consulted, and a hidden path — its name opens
/// with a dot — only when hidden files are allowed.
pub open spec fn spec_is_path_unrecorded(
    path: Seq<char>,
    ignored: bool,
    recorded: Seq<String>,
    git_files: Seq<String>,
    git: bool,
    allow_hidden: bool,
) -> bool {
    if ignored {
        false
    } else if seq_contains_string(recorded, path) {
        false
    } else if git && seq_contains_string(git_files, path) {
        false
    } else if spec_file_name(path).len() > 0 && spec_file_name(path)[0] == '.' {
        allow_hidden
    } else {
        true
    }
}

/// Whether a path is reported as unrecorded: the ignore patterns are
/// asked about the path, and the rest of the decision is a function of
/// the verdict, the recorded paths, the version-control index's files and
/// the options.
pub fn is_path_unrecorded(
    path: &String,
    is_dir: bool,
    wispha_ignore: &ignore::gitignore::Gitignore,
    recorded: &Vec<String>,
    git_files: &Vec<String>,
    options: &StatorOptions,
) -> (r: bool)
    ensures
        exists|ignored: bool|
            r == spec_is_path_unrecorded(
                path@,
                ignored,
                recorded@,
                git_files@,
                options.git,
                options.allow_hidden_files,
            ),
        r ==> spec_is_path_unrecorded(
            path@,
            false,
            recorded@,
            git_files@,
            options.git,
            options.allow_hidden_files,
        ),
        seq_contains_string(recorded@, path@) ==> !r,
{
    let ignored = crate::generator::gitignore_is_ignored(wispha_ignore, path, is_dir);
    let r = if ignored {
        false
    } else if contains_path(recorded, path) {
        false
    } else if options.git && contains_path(git_files, path) {
        false
    } else {
        let name = file_name_of_path(path);
        let name_chars = chars_of(name.as_str());
        if name_chars.len() > 0 && name_chars[0] == '.' {
            options.allow_hidden_files
        } else {
            true
        }
    };
    proof {
        assert(r == spec_is_path_unrecorded(
            path@,
            ignored,
            recorded@,
            git_files@,
            options.git,
            options.allow_hidden_files,
        ));
    }
    r
}

} // verus!
