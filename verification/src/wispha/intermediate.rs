//! The two-phase entry type produced by the structural parser: a `Direct`
//! entry holds its properties and children in this document, a `Link` entry
//! names another document whose parsed root replaces it during resolution.
//! Keeping links as their own variant lets the type system show that the
//! resolved tree holds no link a consumer could observe.

use vstd::prelude::*;

use crate::strings::{DEFAULT_FILE_PATH, DEFAULT_NAME, DEFAULT_PATH};
use crate::wispha::common::{arena_view, NodeView, WisphaEntry, WisphaTree};
use crate::wispha::properties::{PropertiesView, WisphaEntryProperties, WisphaEntryType};

verus! {

/// One parsed entry: fully given here, or a link to another document.
pub enum WisphaIntermediateEntry {
    Link(WisphaLinkEntry),
    Direct(WisphaDirectEntry),
}

/// A placeholder entry that names the document holding the real one.
pub struct WisphaLinkEntry {
    /// Where to find the entry: absolute, root-marker-relative, or relative
    /// to the directory of the document that declares the link.
    pub entry_file_path: String,
}

/// An entry whose properties and children are given in this document. The
/// children may themselves be links.
pub struct WisphaDirectEntry {
    pub properties: WisphaEntryProperties,
    pub sub_entries: Vec<WisphaIntermediateEntry>,
    pub dependency_path_bufs: Vec<String>,
}

/// The mathematical value of an intermediate entry.
#[verifier::ext_equal]
pub enum IntermediateView {
    Link(Seq<char>),
    Direct(DirectView),
}

/// The mathematical value of a direct entry: its properties and the values
/// of its children, in document order.
#[verifier::ext_equal]
pub struct DirectView {
    pub properties: PropertiesView,
    pub children: Seq<IntermediateView>,
}

impl WisphaIntermediateEntry {
    pub open spec fn view(self) -> IntermediateView
        decreases self,
    {
        match self {
            WisphaIntermediateEntry::Link(link) => IntermediateView::Link(link.entry_file_path@),
            WisphaIntermediateEntry::Direct(direct) => IntermediateView::Direct(
                DirectView {
                    properties: direct.properties@,
                    children: Self::views_of(direct.sub_entries@),
                },
            ),
        }
    }

    /// The values of a sequence of entries, in order.
    pub open spec fn views_of(entries: Seq<WisphaIntermediateEntry>) -> Seq<IntermediateView>
        decreases entries,
    {
        if entries.len() == 0 {
            Seq::empty()
        } else {
            seq![entries[0].view()] + Self::views_of(entries.drop_first())
        }
    }

    /// The values of a sequence of entries line up with the entries.
    pub proof fn lemma_views_of(entries: Seq<WisphaIntermediateEntry>)
        ensures
            Self::views_of(entries).len() == entries.len(),
            forall|k: int|
                0 <= k < entries.len() ==> Self::views_of(entries)[k] == (
                #[trigger] entries[k]).view(),
        decreases entries.len(),
    {
        if entries.len() > 0 {
            Self::lemma_views_of(entries.drop_first());
            assert forall|k: int|
                0 <= k < entries.len() implies Self::views_of(entries)[k] == (
            #[trigger] entries[k]).view() by {
                if k > 0 {
                    assert(entries.drop_first()[k - 1] == entries[k]);
                }
            }
        }
    }

    /// How many links the entry holds, itself and all its descendants
    /// together: the number of background units its resolution dispatches.
    pub open spec fn spec_link_count(self) -> nat {
        link_count_of(self.view())
    }
}

/// How many links an entry value holds, itself and all its descendants
/// together: the number of background units its resolution dispatches.
pub open spec fn link_count_of(v: IntermediateView) -> nat
    decreases v,
{
    match v {
        IntermediateView::Link(_) => 1,
        IntermediateView::Direct(d) => seq_link_count(d.children),
    }
}

/// The links held by a sequence of entry values together.
pub open spec fn seq_link_count(children: Seq<IntermediateView>) -> nat
    decreases children,
{
    if children.len() == 0 {
        0
    } else {
        link_count_of(children[0]) + seq_link_count(children.drop_first())
    }
}

impl Clone for WisphaLinkEntry {
    /// A copy that names the same document.
    fn clone(&self) -> (r: Self)
        ensures
            r.entry_file_path@ == self.entry_file_path@,
    {
        WisphaLinkEntry { entry_file_path: self.entry_file_path.clone() }
    }
}

impl WisphaLinkEntry {
    pub fn default() -> (r: WisphaLinkEntry)
        ensures
            r.entry_file_path@ == Seq::<char>::empty(),
    {
        WisphaLinkEntry { entry_file_path: String::new() }
    }
}

impl WisphaDirectEntry {
    /// The view this entry has as an intermediate entry.
    pub open spec fn direct_view(self) -> DirectView {
        DirectView {
            properties: self.properties@,
            children: WisphaIntermediateEntry::views_of(self.sub_entries@),
        }
    }

    pub fn default() -> (r: WisphaDirectEntry)
        ensures
            r.direct_view() == default_direct_view(),
    {
        let properties = WisphaEntryProperties {
            entry_type: WisphaEntryType::File,
            name: DEFAULT_NAME.to_owned(),
            description: None,
            absolute_path: DEFAULT_PATH.to_owned(),
            file_path: DEFAULT_FILE_PATH.to_owned(),
            customized: Vec::new(),
        };
        let r = WisphaDirectEntry {
            properties,
            sub_entries: Vec::new(),
            dependency_path_bufs: Vec::new(),
        };
        proof {
            assert(r.direct_view().children =~= default_direct_view().children);
            assert(r.direct_view().properties.customized
                =~= default_direct_view().properties.customized);
        }
        r
    }
}

/// The value of a freshly made direct entry, before any property is read
/// into it.
pub open spec fn default_properties_view() -> PropertiesView {
    PropertiesView {
        entry_type: WisphaEntryType::File,
        name: "default name"@,
        description: None,
        absolute_path: "default path"@,
        file_path: "default file path"@,
        customized: Seq::empty(),
    }
}

pub open spec fn default_direct_view() -> DirectView {
    DirectView { properties: default_properties_view(), children: Seq::empty() }
}

impl WisphaIntermediateEntry {
    /// An entry of the same variant with default contents.
    pub fn get_type(&self) -> (r: WisphaIntermediateEntry)
        ensures
            self is Link ==> r@ == IntermediateView::Link(Seq::<char>::empty()),
            self is Direct ==> r@ == IntermediateView::Direct(default_direct_view()),
    {
        match self {
            WisphaIntermediateEntry::Direct(_) => {
                let d = WisphaDirectEntry::default();
                WisphaIntermediateEntry::Direct(d)
            },
            WisphaIntermediateEntry::Link(_) => {
                WisphaIntermediateEntry::Link(WisphaLinkEntry::default())
            },
        }
    }

    pub fn get_direct_entry(&self) -> (r: Option<&WisphaDirectEntry>)
        ensures
            match r {
                Some(direct) => *self == WisphaIntermediateEntry::Direct(*direct),
                None => self is Link,
            },
    {
        if let WisphaIntermediateEntry::Direct(entry) = &self {
            return Some(entry);
        }
        None
    }

    pub fn get_direct_entry_mut(&mut self) -> (r: Option<&mut WisphaDirectEntry>)
        ensures
            match r {
                Some(direct) => *old(self) == WisphaIntermediateEntry::Direct(*direct)
                    && *final(self) == WisphaIntermediateEntry::Direct(*final(direct)),
                None => *old(self) is Link && *final(self) == *old(self),
            },
    {
        if let WisphaIntermediateEntry::Direct(entry) = self {
            return Some(entry);
        }
        None
    }

    pub fn get_link_entry(&self) -> (r: Option<&WisphaLinkEntry>)
        ensures
            match r {
                Some(link) => *self == WisphaIntermediateEntry::Link(*link),
                None => self is Direct,
            },
    {
        if let WisphaIntermediateEntry::Link(entry) = &self {
            return Some(entry);
        }
        None
    }

    pub fn get_link_entry_mut(&mut self) -> (r: Option<&mut WisphaLinkEntry>)
        ensures
            match r {
                Some(link) => *old(self) == WisphaIntermediateEntry::Link(*link) && *final(self)
                    == WisphaIntermediateEntry::Link(*final(link)),
                None => *old(self) is Direct && *final(self) == *old(self),
            },
    {
        if let WisphaIntermediateEntry::Link(entry) = self {
            return Some(entry);
        }
        None
    }
}

impl WisphaIntermediateEntry {
    /// Turns a fully resolved intermediate entry into the resolved tree.
    /// An entry that still holds a link anywhere — one whose resolution
    /// would still dispatch work — has no resolved form yet and yields
    /// `None`.
    pub fn to_common(&self) -> (r: Option<WisphaTree>)
        ensures
            match r {
                Some(tree) => {
                    &&& link_count_of(self@) == 0
                    &&& tree.wf()
                    &&& arena_view(tree.nodes@) == crate::parser::splice(
                        seq![
                            NodeView {
                                properties: default_properties_view(),
                                sup: None::<int>,
                                children: Seq::<int>::empty(),
                            },
                        ],
                        Seq::<(int, Seq<char>)>::empty(),
                        0,
                        self@,
                    ).0
                },
                None => link_count_of(self@) > 0,
            },
    {
        let mut nodes: Vec<WisphaEntry> = Vec::new();
        nodes.push(WisphaEntry::default());
        let pending: Vec<crate::parser::PendingLink> = Vec::new();
        let mut state = crate::parser::ResolveState { nodes, pending };
        proof {
            assert(arena_view(state.nodes@) =~~= seq![
                NodeView {
                    properties: default_properties_view(),
                    sup: None::<int>,
                    children: Seq::<int>::empty(),
                },
            ]);
            assert(crate::parser::pending_views(state.pending@) =~= Seq::<
                (int, Seq<char>),
            >::empty());
        }
        let outcome = crate::parser::resolve(&mut state, self, 0);
        proof {
            assert(outcome is Ok);
            crate::parser::lemma_splice_dispatch_count(
                seq![
                    NodeView {
                        properties: default_properties_view(),
                        sup: None::<int>,
                        children: Seq::<int>::empty(),
                    },
                ],
                Seq::<(int, Seq<char>)>::empty(),
                0,
                self@,
            );
        }
        if state.pending.len() == 0 {
            proof {
                assert(crate::parser::pending_views(state.pending@).len() == 0);
            }
            Some(WisphaTree { nodes: state.nodes })
        } else {
            proof {
                assert(crate::parser::pending_views(state.pending@).len() == state.pending@.len());
            }
            None
        }
    }
}

/// Copies the properties of `victim` onto `entry` when both are direct
/// entries; children and parent of `entry` are untouched.
pub fn take_properties(entry: &mut WisphaIntermediateEntry, victim: &WisphaIntermediateEntry)
    ensures
        match (*old(entry), *victim) {
            (WisphaIntermediateEntry::Direct(d), WisphaIntermediateEntry::Direct(v)) => {
                &&& *final(entry) is Direct
                &&& final(entry)->Direct_0.properties@ == v.properties@
                &&& final(entry)->Direct_0.sub_entries == d.sub_entries
                &&& final(entry)->Direct_0.dependency_path_bufs == d.dependency_path_bufs
            },
            _ => *final(entry) == *old(entry),
        },
{
    if let WisphaIntermediateEntry::Direct(direct_entry) = entry {
        if let WisphaIntermediateEntry::Direct(direct_victim) = victim {
            direct_entry.properties = direct_victim.properties.clone();
        }
    }
}

} // verus!
