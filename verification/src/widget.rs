//! Widgets as the layers see them: who they are, where they hang in the widget
//! tree and where they were last laid out.
use crate::geometry::Rect;
use vstd::prelude::*;

verus! {

/// The identity of a widget.
#[derive(Clone, Copy, Debug, PartialEq, Eq, Structural)]
pub struct WidgetId(pub u64);

/// A widget that may not be part of the widget tree yet.
#[derive(Clone, Copy, Debug, PartialEq, Eq, Structural)]
pub enum WidgetRef {
    /// The widget has not been mounted.
    Unmounted(WidgetId),
    /// The widget is part of the widget tree.
    Mounted(WidgetId),
}

impl WidgetRef {
    /// The widget's identity.
    pub open spec fn spec_id(self) -> WidgetId {
        match self {
            WidgetRef::Unmounted(id) => id,
            WidgetRef::Mounted(id) => id,
        }
    }

    /// Returns the widget's identity.
    pub fn id(&self) -> (id: WidgetId)
        ensures
            id == self.spec_id(),
    {
        match self {
            WidgetRef::Unmounted(id) => *id,
            WidgetRef::Mounted(id) => *id,
        }
    }
}

/// A callback that is to be invoked once. It stands for what its owner has
/// registered under `key`; the owner invokes it when the overlay that it was given
/// to hands it back.
#[derive(Debug, PartialEq, Eq)]
pub struct OnceCallback {
    /// The number under which the callback is registered with its owner.
    pub key: u64,
}

/// What the widget tree knows about one mounted widget.
#[derive(Debug)]
pub struct TreeNode {
    /// The widget.
    pub id: WidgetId,
    /// Every widget that this one is a child of, directly or not.
    pub child_of: Vec<WidgetId>,
    /// Where the widget was laid out last, if it has been.
    pub last_layout: Option<Rect<i32>>,
}

/// The widget tree, as far as it is asked about.
#[derive(Debug)]
pub struct WidgetTree {
    /// The mounted widgets.
    pub nodes: Vec<TreeNode>,
}

/// The first node of `nodes` for the widget `id`, if there is one.
pub open spec fn node_of(nodes: Seq<TreeNode>, id: WidgetId) -> Option<TreeNode>
    decreases nodes.len(),
{
    if nodes.len() == 0 {
        None
    } else if nodes[0].id == id {
        Some(nodes[0])
    } else {
        node_of(nodes.skip(1), id)
    }
}

impl TreeNode {
    /// Returns whether this widget is a child of `other`.
    pub fn is_child_of(&self, other: WidgetId) -> (child: bool)
        ensures
            child == self.child_of@.contains(other),
    {
        let mut i: usize = 0;
        while i < self.child_of.len()
            invariant
                i <= self.child_of.len(),
                forall|j: int| 0 <= j < i ==> self.child_of@[j] != other,
            decreases self.child_of.len() - i,
        {
            if self.child_of[i] == other {
                return true;
            }
            i += 1;
        }
        false
    }
}

impl WidgetTree {
    /// The node of the widget `id`, if it is mounted.
    pub open spec fn node(self, id: WidgetId) -> Option<TreeNode> {
        node_of(self.nodes@, id)
    }

    /// Where the widget `id` was laid out last, if it is mounted and has been.
    pub open spec fn layout_of(self, id: WidgetId) -> Option<Rect<i32>> {
        match self.node(id) {
            Some(node) => node.last_layout,
            None => None,
        }
    }

    /// The widget `id` is mounted and is a child of `other`.
    pub open spec fn is_child(self, id: WidgetId, other: WidgetId) -> bool {
        match self.node(id) {
            Some(node) => node.child_of@.contains(other),
            None => false,
        }
    }

    /// Returns what is known about the widget `id`, or `None` if it is not
    /// mounted.
    pub fn for_other(&self, id: WidgetId) -> (node: Option<&TreeNode>)
        ensures
            match node {
                Some(node) => self.node(id) == Some(*node),
                None => self.node(id) is None,
            },
    {
        let mut i: usize = 0;
        assert(self.nodes@.skip(0) =~= self.nodes@);
        while i < self.nodes.len()
            invariant
                i <= self.nodes.len(),
                node_of(self.nodes@, id) == node_of(self.nodes@.skip(i as int), id),
            decreases self.nodes.len() - i,
        {
            assert(self.nodes@.skip(i as int)[0] == self.nodes@[i as int]);
            assert(self.nodes@.skip(i as int).skip(1) =~= self.nodes@.skip(i + 1));
            if self.nodes[i].id == id {
                return Some(&self.nodes[i]);
            }
            i += 1;
        }
        None
    }

    /// Returns where the widget `id` was laid out last.
    pub fn last_layout(&self, id: WidgetId) -> (layout: Option<Rect<i32>>)
        ensures
            layout == self.layout_of(id),
    {
        match self.for_other(id) {
            Some(node) => node.last_layout,
            None => None,
        }
    }
}

/// A widget is who it is, mounted or not.
pub proof fn law_mounting_keeps_the_id(id: WidgetId)
    ensures
        WidgetRef::Unmounted(id).spec_id() == id,
        WidgetRef::Mounted(id).spec_id() == id,
{
}

/// What is known about a widget is what the first node with its id says, and
/// nothing is known exactly if there is no such node.
pub proof fn law_known_by_the_first_node(tree: WidgetTree, id: WidgetId)
    ensures
        match tree.node(id) {
            Some(node) => exists|i: int|
                0 <= i < tree.nodes@.len() && #[trigger] tree.nodes@[i] == node && node.id == id
                    && forall|j: int| 0 <= j < i ==> (#[trigger] tree.nodes@[j]).id != id,
            None => forall|i: int| 0 <= i < tree.nodes@.len() ==> (#[trigger] tree.nodes@[i]).id != id,
        },
{
    lemma_node_of(tree.nodes@, id);
}

/// The first node with an id is found.
proof fn lemma_node_of(nodes: Seq<TreeNode>, id: WidgetId)
    ensures
        match node_of(nodes, id) {
            Some(node) => exists|i: int|
                0 <= i < nodes.len() && #[trigger] nodes[i] == node && node.id == id && forall|j: int|
                    0 <= j < i ==> (#[trigger] nodes[j]).id != id,
            None => forall|i: int| 0 <= i < nodes.len() ==> (#[trigger] nodes[i]).id != id,
        },
    decreases nodes.len(),
{
    if nodes.len() > 0 && nodes[0].id != id {
        let rest = nodes.skip(1);
        lemma_node_of(rest, id);
        match node_of(rest, id) {
            Some(node) => {
                let i = choose|i: int|
                    0 <= i < rest.len() && #[trigger] rest[i] == node && node.id == id && forall|j: int|
                        0 <= j < i ==> (#[trigger] rest[j]).id != id;
                assert(nodes[i + 1] == node);
                assert forall|j: int| 0 <= j < i + 1 implies (#[trigger] nodes[j]).id != id by {
                    if j > 0 {
                        assert(rest[j - 1] == nodes[j]);
                    }
                }
            },
            None => {
                assert forall|i: int| 0 <= i < nodes.len() implies (#[trigger] nodes[i]).id != id by {
                    if i > 0 {
                        assert(rest[i - 1] == nodes[i]);
                    }
                }
            },
        }
    } else if nodes.len() > 0 {
        assert(nodes[0] == node_of(nodes, id)->0);
    }
}

/// Where a widget was laid out and what it is a child of is what its node says. A
/// widget without a node has been laid out nowhere, and is a child of nothing.
pub proof fn law_asked_of_the_node(tree: WidgetTree, id: WidgetId, other: WidgetId)
    ensures
        match tree.node(id) {
            Some(node) => {
                &&& tree.layout_of(id) == node.last_layout
                &&& tree.is_child(id, other) <==> exists|i: int|
                    0 <= i < node.child_of@.len() && #[trigger] node.child_of@[i] == other
            },
            None => tree.layout_of(id) is None && !tree.is_child(id, other),
        },
{
}

} // verus!
