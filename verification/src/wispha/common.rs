//! The resolved tree. Nodes live in an arena and address one another by
//! index: children hold owning indices, and each node records its parent's
//! index as an advisory back-reference, so parent traversal needs no
//! reference counting and no cycles arise.

use vstd::prelude::*;

use crate::strings::{DEFAULT_FILE_PATH, DEFAULT_NAME, DEFAULT_PATH};
use crate::wispha::intermediate::default_properties_view;
use crate::wispha::properties::{PropertiesView, WisphaEntryProperties, WisphaEntryType};

verus! {

/// One node of the resolved tree.
#[derive(Debug)]
pub struct WisphaEntry {
    pub properties: WisphaEntryProperties,
    /// The arena index of the parent; `None` for the root. Advisory only:
    /// ownership runs from parent to child through `sub_entries`.
    pub sup_entry: Option<usize>,
    /// The arena indices of the children, in document order.
    pub sub_entries: Vec<usize>,
    /// Arena indices of entries this one depends on.
    pub dependencies: Vec<usize>,
    /// Paths of documents this entry depends on.
    pub dependency_path_bufs: Vec<String>,
}

impl WisphaEntry {
    pub fn default() -> (r: WisphaEntry)
        ensures
            r.properties@ == default_properties_view(),
            r.sup_entry is None,
            r.sub_entries@ == Seq::<usize>::empty(),
            r.dependencies@ == Seq::<usize>::empty(),
            r.dependency_path_bufs@ == Seq::<String>::empty(),
    {
        let properties = WisphaEntryProperties {
            entry_type: WisphaEntryType::File,
            name: DEFAULT_NAME.to_owned(),
            description: None,
            absolute_path: DEFAULT_PATH.to_owned(),
            file_path: DEFAULT_FILE_PATH.to_owned(),
            customized: Vec::new(),
        };
        let r = WisphaEntry {
            properties,
            sup_entry: None,
            sub_entries: Vec::new(),
            dependencies: Vec::new(),
            dependency_path_bufs: Vec::new(),
        };
        proof {
            assert(r.properties@.customized =~= default_properties_view().customized);
        }
        r
    }
}

/// A resolved tree: an arena of nodes whose root is index `0`.
#[derive(Debug)]
pub struct WisphaTree {
    pub nodes: Vec<WisphaEntry>,
}

/// Every child index points forward in the arena and stays in bounds. This
/// holds of every tree the resolver builds, because a child's slot is
/// always reserved after its parent's, and it rules out cycles: following
/// children only increases the index.
pub open spec fn nodes_ordered(nodes: Seq<WisphaEntry>) -> bool {
    forall|i: int, k: int|
        0 <= i < nodes.len() && 0 <= k < nodes[i].sub_entries@.len() ==> i < (
        #[trigger] nodes[i].sub_entries@[k]) < nodes.len()
}

/// Every parent back-reference points backward in the arena: a parent's
/// slot is always reserved before its children's.
pub open spec fn sups_ordered(nodes: Seq<WisphaEntry>) -> bool {
    forall|i: int|
        0 <= i < nodes.len() ==> ((#[trigger] nodes[i].sup_entry) matches Some(s) ==> s < i)
}

/// The mathematical value of one arena node on its own: its properties,
/// its parent index, and its child indices.
#[verifier::ext_equal]
pub struct NodeView {
    pub properties: PropertiesView,
    pub sup: Option<int>,
    pub children: Seq<int>,
}

/// The value of one node.
pub open spec fn node_view(e: WisphaEntry) -> NodeView {
    NodeView {
        properties: e.properties@,
        sup: match e.sup_entry {
            Some(i) => Some(i as int),
            None => None,
        },
        children: e.sub_entries@.map_values(|c: usize| c as int),
    }
}

/// The values of all nodes of an arena.
pub open spec fn arena_view(nodes: Seq<WisphaEntry>) -> Seq<NodeView> {
    nodes.map_values(|e: WisphaEntry| node_view(e))
}

/// The mathematical value of one resolved entry: its properties and the
/// values of its children, in document order.
#[verifier::ext_equal]
pub struct EntryView {
    pub properties: PropertiesView,
    pub children: Seq<EntryView>,
}

/// The value of the subtree rooted at arena index `i`.
pub open spec fn entry_view_at(nodes: Seq<WisphaEntry>, i: int) -> EntryView
    decreases nodes.len() - i, nodes[i].sub_entries@.len(), 1int,
    when 0 <= i < nodes.len() && nodes_ordered(nodes)
{
    EntryView {
        properties: nodes[i].properties@,
        children: child_views_at(nodes, nodes[i].sub_entries@, i),
    }
}

/// The values of the subtrees rooted at the child indices `subs`, all of
/// which lie strictly beyond `i` in the arena.
pub open spec fn child_views_at(nodes: Seq<WisphaEntry>, subs: Seq<usize>, i: int) -> Seq<EntryView>
    decreases nodes.len() - i, subs.len(), 0int,
    when 0 <= i < nodes.len() && nodes_ordered(nodes) && (forall|k: int|
        0 <= k < subs.len() ==> i < #[trigger] subs[k] < nodes.len())
{
    if subs.len() == 0 {
        Seq::empty()
    } else {
        seq![entry_view_at(nodes, subs[0] as int)] + child_views_at(nodes, subs.drop_first(), i)
    }
}

impl WisphaTree {
    /// A tree is well formed when it has a root, its child indices run
    /// forward, and parent back-references agree with the children lists.
    pub open spec fn wf(self) -> bool {
        &&& self.nodes@.len() > 0
        &&& nodes_ordered(self.nodes@)
        &&& forall|i: int, k: int|
            0 <= i < self.nodes@.len() && 0 <= k < self.nodes@[i].sub_entries@.len()
                ==> self.nodes@[(#[trigger] self.nodes@[i].sub_entries@[k]) as int].sup_entry
                == Some(i as usize)
        &&& self.nodes@[0].sup_entry is None
        &&& sups_ordered(self.nodes@)
    }

    /// The value of the whole tree, from the root.
    pub open spec fn view(self) -> EntryView {
        entry_view_at(self.nodes@, 0)
    }

    /// The number of nodes in the arena.
    pub fn len(&self) -> (r: usize)
        ensures
            r == self.nodes@.len(),
    {
        self.nodes.len()
    }

    /// The node at an arena index.
    pub fn node(&self, i: usize) -> (r: &WisphaEntry)
        requires
            i < self.nodes@.len(),
        ensures
            *r == self.nodes@[i as int],
    {
        &self.nodes[i]
    }
}

} // verus!
