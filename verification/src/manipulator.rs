//! Navigation over the resolved tree: a current entry, lookup from
//! file-system path to tree node, path-wise movement with `.` and `..`,
//! listing children, and reading one property.

use vstd::prelude::*;

pub mod error;

use crate::helper::path::{
    is_absolute_path, join_path, parent_dir, path_is_absolute, path_join,
    path_starts_with_root_marker, path_strip_root_marker, root_marker, starts_with_root_marker,
    strip_root_marker,
};
use crate::helper::text::{chars_of, join_strings, spec_join, string_eq_str, string_from_chars, string_views};
use crate::manipulator::error::ManipulatorError;
use crate::strings::{
    ABSOLUTE_PATH_HEADER, DESCRIPTION_HEADER, ENTRY_TYPE_HEADER, LINE_SEPARATOR, NAME_HEADER,
    ROOT_DIR,
};
use crate::wispha::common::{nodes_ordered, sups_ordered, WisphaEntry, WisphaTree};

verus! {

/// The pieces of a relative path: its segments between separators, empty
/// segments dropped.
pub open spec fn path_segments(p: Seq<char>) -> Seq<Seq<char>>
    decreases p.len(),
{
    if p.len() == 0 {
        Seq::empty()
    } else {
        let i = seg_end(p, 0);
        if i == 0 {
            path_segments(p.skip(1))
        } else if 0 < i <= p.len() {
            seq![p.take(i)] + path_segments(p.skip(i))
        } else {
            Seq::empty()
        }
    }
}

/// The position of the first separator at or after `i`; `p.len()` if there
/// is none.
pub open spec fn seg_end(p: Seq<char>, i: int) -> int
    decreases p.len() - i,
    when 0 <= i <= p.len()
{
    if i == p.len() {
        i
    } else if p[i] == '/' {
        i
    } else {
        seg_end(p, i + 1)
    }
}

proof fn lemma_seg_end(p: Seq<char>, i: int)
    requires
        0 <= i <= p.len(),
    ensures
        i <= seg_end(p, i) <= p.len(),
    decreases p.len() - i,
{
    if i < p.len() && p[i] != '/' {
        lemma_seg_end(p, i + 1);
    }
}

/// Splits a path into its segments.
pub fn split_path_segments(p: &String) -> (r: Vec<String>)
    ensures
        string_views(r@) == path_segments(p@),
{
    let chars = chars_of(p.as_str());
    let n = chars.len();
    let mut r: Vec<String> = Vec::new();
    let mut i: usize = 0;
    proof {
        assert(p@.skip(0) =~= p@);
        assert(string_views(r@) =~= Seq::<Seq<char>>::empty());
        assert(string_views(r@) + path_segments(p@.skip(0)) =~= path_segments(p@));
    }
    while i < n
        invariant
            0 <= i <= n,
            n == p@.len(),
            chars@ == p@,
            string_views(r@) + path_segments(p@.skip(i as int)) == path_segments(p@),
        decreases n - i,
    {
        if chars[i] == '/' {
            proof {
                assert(seg_end(p@.skip(i as int), 0) == 0);
                assert(p@.skip(i as int).skip(1) =~= p@.skip(i as int + 1));
            }
            i = i + 1;
        } else {
            let start = i;
            let mut j = i;
            while j < n && chars[j] != '/'
                invariant
                    start <= j <= n,
                    n == p@.len(),
                    chars@ == p@,
                    seg_end(p@.skip(start as int), 0) == seg_end(p@.skip(start as int), j - start),
                decreases n - j,
            {
                j = j + 1;
            }
            proof {
                assert(seg_end(p@.skip(start as int), j - start) == j - start);
                lemma_seg_end(p@.skip(start as int), 0);
            }
            let mut seg_chars: Vec<char> = Vec::new();
            let mut k = start;
            while k < j
                invariant
                    start <= k <= j <= n,
                    n == p@.len(),
                    chars@ == p@,
                    seg_chars@ == p@.subrange(start as int, k as int),
                decreases j - k,
            {
                seg_chars.push(chars[k]);
                k = k + 1;
                proof {
                    assert(seg_chars@ =~= p@.subrange(start as int, k as int));
                }
            }
            let ghost prev = r@;
            r.push(string_from_chars(&seg_chars));
            proof {
                assert(p@.skip(start as int).take(j - start) =~= p@.subrange(
                    start as int,
                    j as int,
                ));
                assert(p@.skip(start as int).skip(j - start) =~= p@.skip(j as int));
                assert(path_segments(p@.skip(start as int)) == seq![
                    p@.subrange(start as int, j as int),
                ] + path_segments(p@.skip(j as int)));
                assert(string_views(r@) =~= string_views(prev).push(
                    p@.subrange(start as int, j as int),
                ));
                assert(string_views(r@) + path_segments(p@.skip(j as int)) =~= string_views(prev)
                    + path_segments(p@.skip(start as int)));
            }
            i = j;
        }
    }
    proof {
        assert(p@.skip(n as int) =~= Seq::<char>::empty());
        assert(string_views(r@) + Seq::<Seq<char>>::empty() =~= string_views(r@));
    }
    r
}

/// What walking a path from an entry yields: each `.` stays, each `..`
/// moves to the parent — beyond the root there is nothing — and each name
/// moves to the first child bearing it, in document order; a name no child
/// bears ends the walk at the offending segment.
pub open spec fn find_entry_spec(
    nodes: Seq<WisphaEntry>,
    current: int,
    segs: Seq<Seq<char>>,
    k: int,
) -> Result<int, (int, bool)>
    decreases segs.len() - k,
    when 0 <= current < nodes.len() && 0 <= k <= segs.len() && nodes_ordered(nodes)
        && sups_ordered(nodes)
{
    if k == segs.len() {
        Ok(current)
    } else if segs[k] == "."@ {
        find_entry_spec(nodes, current, segs, k + 1)
    } else if segs[k] == ".."@ {
        match nodes[current].sup_entry {
            Some(s) => find_entry_spec(nodes, s as int, segs, k + 1),
            // The walk has left the described tree.
            None => Err((k, true)),
        }
    } else {
        match first_child_named(nodes, current, segs[k]) {
            Some(c) => find_entry_spec(nodes, c, segs, k + 1),
            None => Err((k, false)),
        }
    }
}

/// The first child of `current`, in document order, whose name is `name`.
pub open spec fn first_child_named(nodes: Seq<WisphaEntry>, current: int, name: Seq<char>) -> Option<
    int,
> {
    first_child_from(nodes, nodes[current].sub_entries@, name, 0)
}

/// The first listed child index, from position `m` on, whose entry bears
/// the name.
pub open spec fn first_child_from(
    nodes: Seq<WisphaEntry>,
    subs: Seq<usize>,
    name: Seq<char>,
    m: int,
) -> Option<int>
    decreases subs.len() - m,
    when 0 <= m <= subs.len()
{
    if m == subs.len() {
        None
    } else if nodes[subs[m] as int].properties.name@ == name {
        Some(subs[m] as int)
    } else {
        first_child_from(nodes, subs, name, m + 1)
    }
}

/// Walks a path from an entry of the tree, as the specification above
/// says. The error names the path walked up to and including the segment
/// that failed, against the base the caller gives.
pub fn find_entry(
    tree: &WisphaTree,
    current_entry: usize,
    remain_path: &Vec<String>,
    seg_index: usize,
    used_path: String,
) -> (r: Result<usize, ManipulatorError>)
    requires
        tree.wf(),
        current_entry < tree.nodes@.len(),
        seg_index <= remain_path@.len(),
    ensures
        match r {
            Ok(found) => {
                &&& found < tree.nodes@.len()
                &&& find_entry_spec(
                    tree.nodes@,
                    current_entry as int,
                    string_views(remain_path@),
                    seg_index as int,
                ) == Ok::<int, (int, bool)>(found as int)
            },
            Err(e) => {
                &&& find_entry_spec(
                    tree.nodes@,
                    current_entry as int,
                    string_views(remain_path@),
                    seg_index as int,
                ) matches Err((j, beyond))
                &&& if beyond {
                    e is BeyondDomain
                } else {
                    e is EntryNotFound
                }
            },
        },
    decreases remain_path@.len() - seg_index,
{
    let ghost segs = string_views(remain_path@);
    if seg_index == remain_path.len() {
        return Ok(current_entry);
    }
    let segment = &remain_path[seg_index];
    if string_eq_str(segment, ".") {
        let used = path_join(&used_path, segment);
        return find_entry(tree, current_entry, remain_path, seg_index + 1, used);
    }
    if string_eq_str(segment, "..") {
        proof {
            crate::wispha::properties::lemma_entry_type_names_distinct();
            reveal_strlit(".");
            reveal_strlit("..");
        }
        match tree.nodes[current_entry].sup_entry {
            Some(next_entry) => {
                let used = path_join(&used_path, segment);
                return find_entry(tree, next_entry, remain_path, seg_index + 1, used);
            },
            None => {
                return Err(ManipulatorError::BeyondDomain);
            },
        }
    }
    proof {
        reveal_strlit(".");
        reveal_strlit("..");
    }
    let total = remain_path.len();
    let subs_len = tree.nodes[current_entry].sub_entries.len();
    let mut m: usize = 0;
    while m < subs_len
        invariant
            tree.wf(),
            current_entry < tree.nodes@.len(),
            seg_index < total,
            total == remain_path@.len(),
            segment@ != "."@,
            segment@ != ".."@,
            segs == string_views(remain_path@),
            0 <= m <= subs_len,
            subs_len == tree.nodes@[current_entry as int].sub_entries@.len(),
            segment == remain_path@[seg_index as int],
            first_child_from(
                tree.nodes@,
                tree.nodes@[current_entry as int].sub_entries@,
                segs[seg_index as int],
                0,
            ) == first_child_from(
                tree.nodes@,
                tree.nodes@[current_entry as int].sub_entries@,
                segs[seg_index as int],
                m as int,
            ),
        decreases subs_len - m,
    {
        let child = tree.nodes[current_entry].sub_entries[m];
        if tree.nodes[child].properties.name.eq(segment) {
            let used = path_join(&used_path, segment);
            proof {
                assert(first_child_named(tree.nodes@, current_entry as int, segs[seg_index as int])
                    == Some(child as int));
            }
            return find_entry(tree, child, remain_path, seg_index + 1, used);
        }
        m = m + 1;
    }
    proof {
        assert(first_child_named(tree.nodes@, current_entry as int, segs[seg_index as int])
            is None);
    }
    let used = path_join(&used_path, segment);
    Err(ManipulatorError::EntryNotFound(used))
}

/// The navigation state: the resolved tree, the entry the user stands at,
/// and the index from file-system path to entry.
pub struct Manipulator {
    pub root: WisphaTree,
    pub current_entry: usize,
    pub entries: Vec<(String, usize)>,
}

impl Manipulator {
    /// A usable navigation state.
    pub open spec fn wf(self) -> bool {
        &&& self.root.wf()
        &&& self.current_entry < self.root.nodes@.len()
        &&& forall|k: int|
            0 <= k < self.entries@.len() ==> (#[trigger] self.entries@[k]).1
                < self.root.nodes@.len()
    }

    /// Builds the navigation state over a resolved tree: the path index
    /// lists every entry of the tree under its file-system path.
    pub fn new(root: WisphaTree, current_entry: usize) -> (r: Manipulator)
        requires
            root.wf(),
            current_entry < root.nodes@.len(),
        ensures
            r.wf(),
            r.root == root,
            r.current_entry == current_entry,
            r.entries@.len() == root.nodes@.len(),
            forall|k: int|
                0 <= k < r.entries@.len() ==> exists|i: int|
                    {
                        &&& 0 <= i < root.nodes@.len()
                        &&& (#[trigger] r.entries@[k]).1 == i
                        &&& r.entries@[k].0@ == root.nodes@[i].properties.absolute_path@
                    },
            forall|i: int|
                0 <= i < root.nodes@.len() ==> #[trigger] r.entries@[i].1 == i,
    {
        let mut entries: Vec<(String, usize)> = Vec::new();
        let n = root.len();
        let mut i: usize = 0;
        while i < n
            invariant
                0 <= i <= n,
                n == root.nodes@.len(),
                entries@.len() == i,
                forall|k: int|
                    0 <= k < i ==> (#[trigger] entries@[k]).1 == k && entries@[k].0@
                        == root.nodes@[k].properties.absolute_path@,
            decreases n - i,
        {
            entries.push((root.node(i).properties.absolute_path.clone(), i));
            i = i + 1;
        }
        Manipulator { root, current_entry, entries }
    }

    /// The entry the index holds for a path, the latest insertion winning.
    fn entry_of_path(&self, path: &String) -> (r: Option<usize>)
        requires
            self.wf(),
        ensures
            match r {
                Some(i) => i < self.root.nodes@.len() && exists|k: int|
                    0 <= k < self.entries@.len() && (#[trigger] self.entries@[k]).0@ == path@
                        && self.entries@[k].1 == i,
                None => forall|k: int|
                    0 <= k < self.entries@.len() ==> (#[trigger] self.entries@[k]).0@ != path@,
            },
    {
        let n = self.entries.len();
        let mut k = n;
        while k > 0
            invariant
                0 <= k <= n,
                n == self.entries@.len(),
                self.wf(),
                forall|j: int| k <= j < n ==> (#[trigger] self.entries@[j]).0@ != path@,
            decreases k,
        {
            k = k - 1;
            if self.entries[k].0.eq(path) {
                return Some(self.entries[k].1);
            }
        }
        None
    }

    /// Moves the current entry to the one the index holds for the given
    /// path, resolved against the current entry's own file-system path.
    pub fn set_current_entry_to_local_path(&mut self, path: &String, root_dir: &Option<String>) -> (r:
        Result<(), ManipulatorError>)
        requires
            old(self).wf(),
        ensures
            final(self).wf(),
            final(self).root == old(self).root,
            final(self).entries == old(self).entries,
            match r {
                Ok(_) => {
                    &&& crate::parser::actual_path_spec(
                        path@,
                        old(self).root.nodes@[old(self).current_entry as int].properties.absolute_path@,
                        crate::parser::spec_root_dir(*root_dir),
                    ) matches Ok(q)
                    &&& exists|k: int|
                        0 <= k < old(self).entries@.len() && (#[trigger] old(self).entries@[k]).0@
                            == q && final(self).current_entry == old(self).entries@[k].1
                },
                Err(e) => {
                    &&& *final(self) == *old(self)
                    &&& (e is EnvNotFound || (e matches ManipulatorError::PathNotEntry(p) && p@
                        == path@))
                },
            },
    {
        let current_path =
            self.root.node(self.current_entry).properties.absolute_path.clone();
        match actual_path(path, &current_path, root_dir) {
            Ok(actual) => {
                if let Some(target) = self.entry_of_path(&actual) {
                    self.current_entry = target;
                    Ok(())
                } else {
                    Err(ManipulatorError::PathNotEntry(path.clone()))
                }
            },
            Err(e) => Err(e),
        }
    }

    /// Moves the current entry by walking a relative path: from the root
    /// for a path opened by the root marker, from the current entry
    /// otherwise. An absolute path is not supported.
    pub fn set_current_entry_to_path(&mut self, path: &String, root_dir: &Option<String>) -> (r:
        Result<(), ManipulatorError>)
        requires
            old(self).wf(),
        ensures
            final(self).wf(),
            final(self).root == old(self).root,
            final(self).entries == old(self).entries,
            path_is_absolute(path@) ==> (r matches Err(e) && e is AbsolutePathNotSupported),
        {
        if is_absolute_path(path) {
            return Err(ManipulatorError::AbsolutePathNotSupported);
        }
        let target = if path_starts_with_root_marker(path) {
            let remain = path_strip_root_marker(path);
            let segments = split_path_segments(&remain);
            find_entry(&self.root, 0, &segments, 0, ROOT_DIR.to_owned())
        } else {
            let segments = split_path_segments(path);
            find_entry(&self.root, self.current_entry, &segments, 0, String::new())
        };
        match target {
            Ok(entry) => {
                self.current_entry = entry;
                Ok(())
            },
            Err(e) => Err(e),
        }
    }

    /// The current entry's path, written against the root marker when it
    /// lies under the root directory.
    pub fn current_path(&self, root_dir: &String) -> (r: String)
        requires
            self.wf(),
        ensures
            ({
                let raw = self.root.nodes@[self.current_entry as int].properties.absolute_path@;
                if raw.len() >= root_dir@.len() && raw.take(root_dir@.len() as int) == root_dir@ {
                    r@ == join_path(root_marker(), raw.skip(root_dir@.len() as int))
                } else {
                    r@ == join_path(root_marker(), raw)
                }
            }),
    {
        let raw = self.root.node(self.current_entry).properties.absolute_path.clone();
        let marker = ROOT_DIR.to_owned();
        match strip_string_prefix(&raw, root_dir) {
            Some(rest) => path_join(&marker, &rest),
            None => path_join(&marker, &raw),
        }
    }

    /// The names of an entry's children, one per line, in document order.
    fn list_of_entry(&self, entry: usize) -> (r: String)
        requires
            self.wf(),
            entry < self.root.nodes@.len(),
        ensures
            r@ == spec_join(child_names(self.root.nodes@, entry as int), "\n"@),
    {
        let mut names: Vec<String> = Vec::new();
        let subs_len = self.root.node(entry).sub_entries.len();
        let mut m: usize = 0;
        while m < subs_len
            invariant
                self.wf(),
                entry < self.root.nodes@.len(),
                0 <= m <= subs_len,
                subs_len == self.root.nodes@[entry as int].sub_entries@.len(),
                string_views(names@) == child_names(self.root.nodes@, entry as int).take(m as int),
            decreases subs_len - m,
        {
            let child = self.root.node(entry).sub_entries[m];
            let ghost prev = names@;
            names.push(self.root.node(child).properties.name.clone());
            m = m + 1;
            proof {
                let cn = child_names(self.root.nodes@, entry as int);
                let a = string_views(names@);
                assert(string_views(prev).len() == prev.len());
                assert(cn.take(m as int - 1).len() == m - 1);
                assert(prev.len() == m - 1);
                assert(names@.len() == m as int);
                assert(a.len() == m as int && cn.take(m as int).len() == m as int);
                assert forall|j: int| 0 <= j < a.len() implies a[j] == cn.take(m as int)[j] by {
                    if j < m - 1 {
                        assert(names@[j] == prev[j]);
                        assert(string_views(prev)[j] == cn.take(m as int - 1)[j]);
                    } else {
                        assert(cn[j] == self.root.nodes@[self.root.nodes@[entry as int].sub_entries@[j] as int].properties.name@);
                    }
                }
                assert(a =~= cn.take(m as int));
            }
        }
        proof {
            assert(child_names(self.root.nodes@, entry as int).take(subs_len as int)
                =~= child_names(self.root.nodes@, entry as int));
        }
        join_strings(&names, LINE_SEPARATOR)
    }

    /// The names of the current entry's children, one per line.
    pub fn current_list(&self) -> (r: String)
        requires
            self.wf(),
        ensures
            r@ == spec_join(child_names(self.root.nodes@, self.current_entry as int), "\n"@),
    {
        self.list_of_entry(self.current_entry)
    }

    /// The child names of the entry the index holds for a path, resolved
    /// against the current entry's file-system path.
    pub fn list_of_local_path(&self, path: &String, root_dir: &Option<String>) -> (r: Result<
        String,
        ManipulatorError,
    >)
        requires
            self.wf(),
        ensures
            match r {
                Ok(listing) => exists|i: int|
                    0 <= i < self.root.nodes@.len() && listing@ == spec_join(
                        child_names(self.root.nodes@, i),
                        "\n"@,
                    ),
                Err(e) => e is PathNotEntry || e is EnvNotFound,
            },
    {
        let current_path =
            self.root.node(self.current_entry).properties.absolute_path.clone();
        match actual_path(path, &current_path, root_dir) {
            Ok(actual) => {
                match self.entry_of_path(&actual) {
                    Some(entry) => Ok(self.list_of_entry(entry)),
                    None => Err(ManipulatorError::PathNotEntry(path.clone())),
                }
            },
            Err(e) => Err(e),
        }
    }

    /// The child names of the entry a relative path walks to.
    pub fn list_of_path(&self, path: &String) -> (r: Result<String, ManipulatorError>)
        requires
            self.wf(),
        ensures
            match r {
                Ok(listing) => exists|i: int|
                    0 <= i < self.root.nodes@.len() && listing@ == spec_join(
                        child_names(self.root.nodes@, i),
                        "\n"@,
                    ),
                Err(e) => e is BeyondDomain || e is EntryNotFound,
            },
    {
        let entry = if path_starts_with_root_marker(path) {
            let remain = path_strip_root_marker(path);
            let segments = split_path_segments(&remain);
            find_entry(&self.root, 0, &segments, 0, ROOT_DIR.to_owned())
        } else {
            let segments = split_path_segments(path);
            find_entry(&self.root, self.current_entry, &segments, 0, String::new())
        };
        match entry {
            Ok(entry) => Ok(self.list_of_entry(entry)),
            Err(e) => Err(e),
        }
    }

    /// One property of the current entry: the recognized labels read the
    /// entry's own fields, any other name reads the user-defined table.
    pub fn info_of_property(&self, property: &String) -> (r: Result<String, ManipulatorError>)
        requires
            self.wf(),
        ensures
            ({
                let props = self.root.nodes@[self.current_entry as int].properties;
                if property@ == "file path"@ {
                    r matches Ok(v) && v@ == props.absolute_path@
                } else if property@ == "name"@ {
                    r matches Ok(v) && v@ == props.name@
                } else if property@ == "entry type"@ {
                    r matches Ok(v) && v@ == props.entry_type.spec_str()
                } else if property@ == "description"@ {
                    match props.description {
                        Some(d) => r matches Ok(v) && v@ == d@,
                        None => r matches Err(e) && e is PropertyNotFound,
                    }
                } else {
                    match r {
                        Ok(v) => exists|i: int|
                            {
                                &&& 0 <= i < props.customized@.len()
                                &&& (#[trigger] props.customized@[i].0@) == property@
                                &&& props.customized@[i].1@ == v@
                            },
                        Err(e) => e is PropertyNotFound && forall|i: int|
                            0 <= i < props.customized@.len() ==> (
                            #[trigger] props.customized@[i].0@) != property@,
                    }
                }
            }),
    {
        let node = self.root.node(self.current_entry);
        if string_eq_str(property, ABSOLUTE_PATH_HEADER) {
            return Ok(node.properties.absolute_path.clone());
        }
        if string_eq_str(property, NAME_HEADER) {
            return Ok(node.properties.name.clone());
        }
        if string_eq_str(property, ENTRY_TYPE_HEADER) {
            return Ok(node.properties.entry_type.to_str().to_owned());
        }
        if string_eq_str(property, DESCRIPTION_HEADER) {
            if let Some(description) = &node.properties.description {
                return Ok(description.clone());
            }
            return Err(ManipulatorError::PropertyNotFound);
        }
        match node.properties.get_customized(property) {
            Some(value) => Ok(value.clone()),
            None => Err(ManipulatorError::PropertyNotFound),
        }
    }
}

/// The names of an entry's children, in document order.
pub open spec fn child_names(nodes: Seq<WisphaEntry>, entry: int) -> Seq<Seq<char>> {
    nodes[entry].sub_entries@.map_values(|c: usize| nodes[c as int].properties.name@)
}

/// Resolves a path against the current entry's directory, for the lookup
/// by file-system path: an absolute path stands; a path opened by the root
/// marker continues the root directory; any other continues the current
/// entry's own path.
pub fn actual_path(raw: &String, current_dir: &String, root_dir: &Option<String>) -> (r: Result<
    String,
    ManipulatorError,
>)
    ensures
        match r {
            Ok(p) => {
                &&& crate::parser::actual_path_spec(
                    raw@,
                    current_dir@,
                    crate::parser::spec_root_dir(*root_dir),
                ) matches Ok(q)
                &&& p@ == q
            },
            Err(e) => {
                &&& crate::parser::actual_path_spec(
                    raw@,
                    current_dir@,
                    crate::parser::spec_root_dir(*root_dir),
                ) is Err
                &&& e is EnvNotFound
            },
        },
{
    if is_absolute_path(raw) {
        return Ok(raw.clone());
    }
    if path_starts_with_root_marker(raw) {
        match root_dir {
            Some(rd) => {
                let relative_path = path_strip_root_marker(raw);
                return Ok(path_join(rd, &relative_path));
            },
            None => {
                return Err(ManipulatorError::EnvNotFound);
            },
        }
    }
    Ok(path_join(current_dir, raw))
}

/// The rest of `s` behind the prefix, when `s` starts with it.
fn strip_string_prefix(s: &String, prefix: &String) -> (r: Option<String>)
    ensures
        match r {
            Some(rest) => s@.len() >= prefix@.len() && s@.take(prefix@.len() as int) == prefix@
                && rest@ == s@.skip(prefix@.len() as int),
            None => !(s@.len() >= prefix@.len() && s@.take(prefix@.len() as int) == prefix@),
        },
{
    let s_chars = chars_of(s.as_str());
    let p_chars = chars_of(prefix.as_str());
    let m = p_chars.len();
    if s_chars.len() < m {
        proof {
            assert(!(s@.len() >= prefix@.len()));
        }
        return None;
    }
    let mut i: usize = 0;
    while i < m
        invariant
            0 <= i <= m,
            m == prefix@.len(),
            m <= s@.len(),
            s_chars@ == s@,
            p_chars@ == prefix@,
            forall|j: int| 0 <= j < i ==> s@[j] == prefix@[j],
        decreases m - i,
    {
        if s_chars[i] != p_chars[i] {
            proof {
                assert(s@.take(m as int)[i as int] != prefix@[i as int]);
            }
            return None;
        }
        i = i + 1;
    }
    proof {
        assert(s@.take(m as int) =~= prefix@);
    }
    let mut rest: Vec<char> = Vec::new();
    let mut k = m;
    while k < s_chars.len()
        invariant
            m <= k <= s@.len(),
            s_chars@ == s@,
            m == prefix@.len(),
            rest@ == s@.subrange(m as int, k as int),
        decreases s@.len() - k,
    {
        rest.push(s_chars[k]);
        k = k + 1;
        proof {
            assert(rest@ =~= s@.subrange(m as int, k as int));
        }
    }
    proof {
        assert(rest@ =~= s@.skip(m as int));
    }
    Some(string_from_chars(&rest))
}

} // verus!
