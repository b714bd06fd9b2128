//! The mathematical model of a layout tree, and what each operation does to
//! it.
use vstd::prelude::*;
use crate::error::LayoutError;
use crate::forest::{
    acyclic, ancestor, descends, in_pass, lemma_attach_keeps_acyclic, lemma_grow_keeps_acyclic,
    links_in_range,
};
use crate::geometry::Layout;
use crate::style::{Display, StyleView};

verus! {

/// The identity of a node: the tag of the tree that made it, and its place
/// in that tree. A node carries nothing else, and only a tree makes one.
#[derive(Clone, Copy, Debug, PartialEq, Eq, Hash, Structural)]
pub struct Node {
    tree: u64,
    index: usize,
}

impl Node {
    /// The tag of the tree that made the node.
    pub closed spec fn origin(self) -> u64 {
        self.tree
    }

    /// The place of the node in its tree: the number of nodes that the tree
    /// had made before it.
    pub closed spec fn place(self) -> int {
        self.index as int
    }

    /// The node with the given origin and place.
    pub closed spec fn at(origin: u64, place: int) -> Node {
        Node { tree: origin, index: place as usize }
    }

    /// The tag of the tree that made the node.
    pub fn tag(&self) -> (r: u64)
        ensures
            r == self.origin(),
    {
        self.tree
    }

    /// The place of the node in its tree.
    pub fn index(&self) -> (r: usize)
        ensures
            r == self.place(),
    {
        self.index
    }

    pub(crate) fn assemble(origin: u64, index: usize) -> (r: Node)
        ensures
            r == Node::at(origin, index as int),
            r.origin() == origin,
            r.place() == index,
    {
        Node { tree: origin, index }
    }

    /// A node is its origin and its place, and nothing else: the place fits
    /// a machine word, and two nodes that agree in both are one node.
    pub proof fn lemma_identity(self, other: Node)
        ensures
            0 <= self.place() <= usize::MAX,
            self == Node::at(self.origin(), self.place()),
            self.origin() == other.origin() && self.place() == other.place() ==> self == other,
    {
    }

    /// The node at a place has that origin and that place.
    pub proof fn lemma_at(origin: u64, place: int)
        requires
            0 <= place <= usize::MAX,
        ensures
            Node::at(origin, place).origin() == origin,
            Node::at(origin, place).place() == place,
    {
    }
}

/// What a tree knows of one node.
pub struct NodeModel {
    /// The style the node was made with.
    pub style: StyleView,
    /// The children, in the order in which they were attached.
    pub children: Seq<int>,
    /// The parent, once the node has been attached.
    pub parent: Option<int>,
    /// The result of the last layout pass that visited the node.
    pub layout: Option<Layout>,
}

/// A tree as a value: its tag and its nodes, by index.
pub struct TreeModel {
    pub tag: u64,
    pub nodes: Seq<NodeModel>,
}

impl TreeModel {
    /// The parent links, by index.
    pub open spec fn parents(self) -> Seq<Option<int>> {
        Seq::new(self.nodes.len(), |i: int| self.nodes[i].parent)
    }

    /// For each node, whether its style takes it out of the layout.
    pub open spec fn hidden(self) -> Seq<bool> {
        Seq::new(self.nodes.len(), |i: int| self.nodes[i].style.display == Display::Hidden)
    }

    /// The node was made by this tree.
    pub open spec fn contains(self, node: Node) -> bool {
        node.origin() == self.tag && 0 <= node.place() < self.nodes.len()
    }

    /// Child lists and parent links say the same thing: a node stands in the
    /// child list of its parent, once, and in no other.
    pub open spec fn links_match(self) -> bool {
        &&& forall|p: int, j: int|
            0 <= p < self.nodes.len() && 0 <= j < self.nodes[p].children.len() ==> 0
                <= #[trigger] self.nodes[p].children[j] < self.nodes.len()
                && self.nodes[self.nodes[p].children[j]].parent == Some(p)
        &&& forall|c: int|
            0 <= c < self.nodes.len() ==> (#[trigger] self.nodes[c].parent matches Some(p) ==> 0
                <= p < self.nodes.len() && self.nodes[p].children.contains(c))
        &&& forall|p: int|
            0 <= p < self.nodes.len() ==> (#[trigger] self.nodes[p].children).no_duplicates()
    }

    /// The invariant of a tree: valid styles, a parent/child relation that is
    /// a forest, and cached layouts without degenerate numbers.
    pub open spec fn wf(self) -> bool {
        &&& forall|i: int| 0 <= i < self.nodes.len() ==> (#[trigger] self.nodes[i]).style.valid()
        &&& self.links_match()
        &&& acyclic(self.parents())
        &&& forall|i: int|
            0 <= i < self.nodes.len() ==> ((#[trigger] self.nodes[i]).layout matches Some(l)
                ==> l.is_settled())
    }

    /// The tree without nodes.
    pub open spec fn empty(tag: u64) -> TreeModel {
        TreeModel { tag, nodes: Seq::empty() }
    }

    /// The tree with one more node: a root without children and without a
    /// layout, at the next free index.
    pub open spec fn with_leaf(self, style: StyleView) -> TreeModel {
        TreeModel {
            tag: self.tag,
            nodes: self.nodes.push(
                NodeModel { style, children: Seq::empty(), parent: None, layout: None },
            ),
        }
    }

    /// The number of children of a node.
    pub open spec fn child_count_of(self, node: Node) -> Result<nat, LayoutError> {
        if self.contains(node) {
            Ok(self.nodes[node.place()].children.len())
        } else {
            Err(LayoutError::UnknownNode)
        }
    }

    /// The children of a node, in the order in which they were attached.
    pub open spec fn children_of(self, node: Node) -> Result<Seq<Node>, LayoutError> {
        if self.contains(node) {
            let children = self.nodes[node.place()].children;
            Ok(
                Seq::new(
                    children.len(),
                    |j: int| Node::at(self.tag, children[j]),
                ),
            )
        } else {
            Err(LayoutError::UnknownNode)
        }
    }

    /// Attaching `child` below `parent` would close a circle: both belong to
    /// the tree, and `child` is `parent` or one of its ancestors.
    pub open spec fn closes_cycle(self, parent: Node, child: Node) -> bool {
        &&& self.contains(parent)
        &&& self.contains(child)
        &&& descends(self.parents(), parent.place(), child.place())
    }

    /// The tree after `child` has been attached below `parent` as its last
    /// child; `UnknownNode` where either is foreign, `DuplicateAttachment`
    /// where `child` already has a parent.
    pub open spec fn attach(self, parent: Node, child: Node) -> Result<TreeModel, LayoutError> {
        if !self.contains(parent) || !self.contains(child) {
            Err(LayoutError::UnknownNode)
        } else if self.nodes[child.place()].parent is Some {
            Err(LayoutError::DuplicateAttachment)
        } else {
            Ok(
                TreeModel {
                    tag: self.tag,
                    nodes: Seq::new(
                        self.nodes.len(),
                        |i: int|
                            NodeModel {
                                children: if i == parent.place() {
                                    self.nodes[i].children.push(child.place())
                                } else {
                                    self.nodes[i].children
                                },
                                parent: if i == child.place() {
                                    Some(parent.place())
                                } else {
                                    self.nodes[i].parent
                                },
                                ..self.nodes[i]
                            },
                    ),
                },
            )
        }
    }

    /// A layout pass from `root` visits node `i`.
    pub open spec fn visits(self, root: int, i: int) -> bool {
        in_pass(self.parents(), self.hidden(), i, root)
    }

    /// The layout that a pass leaves on a node it visits: nothing but zeros
    /// for a hidden node, and for every other node what was measured for it,
    /// with degenerate numbers clamped to zero.
    pub open spec fn pass_layout(self, i: int, measured: Seq<Layout>) -> Layout {
        if self.nodes[i].style.display == Display::Hidden {
            Layout::zero_spec()
        } else {
            measured[i].settled()
        }
    }

    /// The tree after a layout pass from `root`, given what was measured for
    /// each node, by index.
    ///
    /// The pass fails with `UnknownNode` where `root` is foreign, and with
    /// `InvalidOption` where the table is malformed: it does not hold one
    /// measurement for each node. Otherwise every node it visits gets its
    /// layout, and no other node changes.
    pub open spec fn pass(self, root: Node, measured: Seq<Layout>) -> Result<
        TreeModel,
        LayoutError,
    > {
        if !self.contains(root) {
            Err(LayoutError::UnknownNode)
        } else if measured.len() != self.nodes.len() {
            Err(LayoutError::InvalidOption)
        } else {
            Ok(
                TreeModel {
                    tag: self.tag,
                    nodes: Seq::new(
                        self.nodes.len(),
                        |i: int|
                            if self.visits(root.place(), i) {
                                NodeModel {
                                    layout: Some(self.pass_layout(i, measured)),
                                    ..self.nodes[i]
                                }
                            } else {
                                self.nodes[i]
                            },
                    ),
                },
            )
        }
    }

    /// The cached layout of a node; `UnknownNode` for a foreign node,
    /// `NotYetComputed` for one that no pass has visited.
    pub open spec fn layout_of(self, node: Node) -> Result<Layout, LayoutError> {
        if !self.contains(node) {
            Err(LayoutError::UnknownNode)
        } else {
            match self.nodes[node.place()].layout {
                Some(l) => Ok(l),
                None => Err(LayoutError::NotYetComputed),
            }
        }
    }

    /// The parent links of a well-formed tree stay inside it.
    pub proof fn lemma_links_in_range(self)
        requires
            self.links_match(),
        ensures
            links_in_range(self.parents()),
    {
        assert forall|i: int| 0 <= i < self.parents().len() implies (
        #[trigger] self.parents()[i] matches Some(p) ==> 0 <= p < self.parents().len()) by {
            assert(self.parents()[i] == self.nodes[i].parent);
        }
    }

    /// A new leaf keeps the tree well formed.
    pub proof fn lemma_with_leaf_wf(self, style: StyleView)
        requires
            self.wf(),
            style.valid(),
        ensures
            self.with_leaf(style).wf(),
    {
        let after = self.with_leaf(style);
        self.lemma_links_in_range();
        lemma_grow_keeps_acyclic(self.parents());
        assert(after.parents() =~= self.parents().push(None));
        assert forall|c: int| 0 <= c < after.nodes.len() implies (
        #[trigger] after.nodes[c].parent matches Some(p) ==> 0 <= p < after.nodes.len()
            && after.nodes[p].children.contains(c)) by {
            if c < self.nodes.len() {
                assert(after.nodes[c] == self.nodes[c]);
            }
        }
    }

    /// Attaching a root below a node that does not hang from it keeps the
    /// tree well formed.
    pub proof fn lemma_attach_wf(self, parent: Node, child: Node)
        requires
            self.wf(),
            !self.closes_cycle(parent, child),
        ensures
            self.attach(parent, child) matches Ok(after) ==> after.wf(),
    {
        if let Ok(after) = self.attach(parent, child) {
            let p = parent.place();
            let c = child.place();
            self.lemma_links_in_range();
            lemma_attach_keeps_acyclic(self.parents(), c, p);
            assert(after.parents() =~= self.parents().update(c, Some(p)));
            assert(descends(self.parents(), p, p)) by {
                assert(ancestor(self.parents(), p, 0) == Some(p));
            }
            assert(p != c);
            let old_children = self.nodes[p].children;
            assert(!old_children.contains(c)) by {
                if old_children.contains(c) {
                    let j = choose|j: int| 0 <= j < old_children.len() && old_children[j] == c;
                    assert(self.nodes[self.nodes[p].children[j]].parent == Some(p));
                }
            }
            assert forall|q: int, j: int|
                0 <= q < after.nodes.len() && 0 <= j < after.nodes[q].children.len() implies 0
                <= #[trigger] after.nodes[q].children[j] < after.nodes.len()
                && after.nodes[after.nodes[q].children[j]].parent == Some(q) by {
                if q == p && j == old_children.len() {
                } else {
                    let x = self.nodes[q].children[j];
                    assert(self.nodes[x].parent == Some(q));
                }
            }
            assert forall|x: int| 0 <= x < after.nodes.len() implies (
            #[trigger] after.nodes[x].parent matches Some(q) ==> 0 <= q < after.nodes.len()
                && after.nodes[q].children.contains(x)) by {
                if x == c {
                    assert(after.nodes[p].children[old_children.len() as int] == c);
                } else if let Some(q) = self.nodes[x].parent {
                    assert(self.nodes[q].children.contains(x));
                    let j = choose|j: int|
                        0 <= j < self.nodes[q].children.len() && self.nodes[q].children[j] == x;
                    assert(after.nodes[q].children[j] == x);
                }
            }
            assert forall|q: int| 0 <= q < after.nodes.len() implies (
            #[trigger] after.nodes[q].children).no_duplicates() by {
                assert(self.nodes[q].children.no_duplicates());
            }
            assert forall|i: int| 0 <= i < after.nodes.len() implies (
            #[trigger] after.nodes[i]).style.valid() by {
                assert(self.nodes[i].style.valid());
            }
            assert forall|i: int| 0 <= i < after.nodes.len() implies ((
            #[trigger] after.nodes[i]).layout matches Some(l) ==> l.is_settled()) by {
                assert(self.nodes[i].layout == after.nodes[i].layout);
            }
        }
    }

    /// A layout pass keeps the tree well formed.
    pub proof fn lemma_pass_wf(self, root: Node, measured: Seq<Layout>)
        requires
            self.wf(),
        ensures
            self.pass(root, measured) matches Ok(after) ==> after.wf() && after.parents()
                == self.parents() && after.hidden() == self.hidden(),
    {
        if let Ok(after) = self.pass(root, measured) {
            assert(after.parents() =~= self.parents());
            assert(after.hidden() =~= self.hidden());
            assert forall|i: int| 0 <= i < after.nodes.len() implies (
            #[trigger] after.nodes[i]).style.valid() by {
                assert(self.nodes[i].style.valid());
            }
            assert forall|i: int| 0 <= i < after.nodes.len() implies ((
            #[trigger] after.nodes[i]).layout matches Some(l) ==> l.is_settled()) by {
                assert(self.nodes[i].layout matches Some(l) ==> l.is_settled());
            }
            assert forall|p: int, j: int|
                0 <= p < after.nodes.len() && 0 <= j < after.nodes[p].children.len() implies 0
                <= #[trigger] after.nodes[p].children[j] < after.nodes.len()
                && after.nodes[after.nodes[p].children[j]].parent == Some(p) by {
                let x = self.nodes[p].children[j];
                assert(self.nodes[x].parent == Some(p));
            }
            assert forall|c: int| 0 <= c < after.nodes.len() implies (
            #[trigger] after.nodes[c].parent matches Some(p) ==> 0 <= p < after.nodes.len()
                && after.nodes[p].children.contains(c)) by {
                if let Some(p) = self.nodes[c].parent {
                    assert(self.nodes[p].children.contains(c));
                    assert(after.nodes[p].children == self.nodes[p].children);
                }
            }
            assert forall|p: int| 0 <= p < after.nodes.len() implies (
            #[trigger] after.nodes[p].children).no_duplicates() by {
                assert(self.nodes[p].children.no_duplicates());
            }
        }
    }
}

} // verus!
