//! The arena: nodes, their parent/child relation, and the layouts that the
//! last pass left on them.
use vstd::prelude::*;
use crate::error::LayoutError;
use crate::forest::{
    ancestor, descends, lemma_ancestor_ends, lemma_ancestor_in_range, lemma_in_pass_unfolds,
    rooted,
};
use crate::geometry::Layout;
use crate::model::{Node, NodeModel, TreeModel};
use crate::style::{Display, Style};

verus! {

struct Record {
    style: Style,
    children: Vec<usize>,
    parent: Option<usize>,
    layout: Option<Layout>,
}

impl Record {
    spec fn model(&self) -> NodeModel {
        NodeModel {
            style: self.style@,
            children: Seq::new(self.children@.len(), |j: int| self.children@[j] as int),
            parent: match self.parent {
                Some(p) => Some(p as int),
                None => None,
            },
            layout: self.layout,
        }
    }
}

/// A tree of styled boxes.
///
/// The tree owns its nodes. A node is made as a leaf, attached below a
/// parent at most once, and never removed; the layout of a node is written
/// by layout passes only.
pub struct LayoutTree {
    tag: u64,
    records: Vec<Record>,
}

impl View for LayoutTree {
    type V = TreeModel;

    closed spec fn view(&self) -> TreeModel {
        TreeModel {
            tag: self.tag,
            nodes: Seq::new(self.records@.len(), |i: int| self.records@[i].model()),
        }
    }
}

impl LayoutTree {
    /// An empty tree with the given tag. Only a `TreeSource` makes trees, so
    /// that no two trees of one source share a tag.
    pub(crate) fn with_tag(tag: u64) -> (r: LayoutTree)
        ensures
            r@ == TreeModel::empty(tag),
            r@.wf(),
    {
        let r = LayoutTree { tag, records: Vec::new() };
        assert(r@.nodes =~= Seq::<NodeModel>::empty());
        r
    }

    /// The tag of this tree.
    pub fn tag(&self) -> (r: u64)
        ensures
            r == self@.tag,
    {
        self.tag
    }

    /// The number of nodes made so far.
    pub fn node_count(&self) -> (r: usize)
        ensures
            r == self@.nodes.len(),
    {
        self.records.len()
    }

    /// Whether a node was made by this tree.
    pub fn contains(&self, node: Node) -> (r: bool)
        ensures
            r == self@.contains(node),
    {
        node.tag() == self.tag && node.index() < self.records.len()
    }

    /// The node at a place, if the tree has made that many nodes.
    pub fn node_at(&self, index: usize) -> (r: Option<Node>)
        ensures
            match r {
                Some(node) => index < self@.nodes.len() && node == Node::at(self@.tag, index as int)
                    && self@.contains(node) && node.place() == index,
                None => index >= self@.nodes.len(),
            },
    {
        if index < self.records.len() {
            Some(Node::assemble(self.tag, index))
        } else {
            None
        }
    }

    /// Makes a node with the given style, no parent, no children and no
    /// layout, and returns its identity.
    pub fn new_leaf(&mut self, style: Style) -> (r: Node)
        requires
            old(self)@.wf(),
        ensures
            final(self)@ == old(self)@.with_leaf(style@),
            final(self)@.wf(),
            r == Node::at(old(self)@.tag, old(self)@.nodes.len() as int),
            r.origin() == old(self)@.tag,
            r.place() == old(self)@.nodes.len(),
            final(self)@.contains(r),
            !old(self)@.contains(r),
    {
        let index = self.records.len();
        // Reading the growth factor brings the validity of the style into
        // scope.
        let _ = style.flex_grow();
        self.records.push(Record { style, children: Vec::new(), parent: None, layout: None });
        proof {
            assert(self.records@[index as int].model().children =~= Seq::<int>::empty());
            assert(self@.nodes =~= old(self)@.with_leaf(style@).nodes);
            old(self)@.lemma_with_leaf_wf(style@);
        }
        Node::assemble(self.tag, index)
    }

    /// The number of children of a node.
    pub fn child_count(&self, node: Node) -> (r: Result<usize, LayoutError>)
        ensures
            match r {
                Ok(n) => self@.child_count_of(node) == Ok::<nat, LayoutError>(n as nat),
                Err(e) => self@.child_count_of(node) == Err::<nat, LayoutError>(e),
            },
    {
        if !self.contains(node) {
            return Err(LayoutError::UnknownNode);
        }
        Ok(self.records[node.index()].children.len())
    }

    /// The children of a node, in the order in which they were attached.
    pub fn children(&self, node: Node) -> (r: Result<Vec<Node>, LayoutError>)
        ensures
            match r {
                Ok(v) => self@.children_of(node) == Ok::<Seq<Node>, LayoutError>(v@),
                Err(e) => self@.children_of(node) == Err::<Seq<Node>, LayoutError>(e),
            },
    {
        if !self.contains(node) {
            return Err(LayoutError::UnknownNode);
        }
        let list = &self.records[node.index()].children;
        let ghost wanted = self@.children_of(node)->Ok_0;
        let mut out: Vec<Node> = Vec::new();
        let mut j: usize = 0;
        while j < list.len()
            invariant
                j <= list.len(),
                self@.contains(node),
                list == &self.records@[node.place()].children,
                wanted == self@.children_of(node)->Ok_0,
                out@.len() == j,
                forall|t: int| 0 <= t < j ==> out@[t] == wanted[t],
            decreases list.len() - j,
        {
            assert(self@.nodes[node.place()].children[j as int] == list@[j as int]);
            out.push(Node::assemble(self.tag, list[j]));
            j = j + 1;
        }
        assert(out@ =~= wanted);
        Ok(out)
    }

    /// The parent of a node, if it has been attached.
    pub fn parent(&self, node: Node) -> (r: Result<Option<Node>, LayoutError>)
        ensures
            match r {
                Ok(p) => self@.contains(node) && match p {
                    Some(n) => n.origin() == self@.tag && self@.nodes[node.place()].parent
                        == Some(n.place()),
                    None => self@.nodes[node.place()].parent is None,
                },
                Err(e) => !self@.contains(node) && e == LayoutError::UnknownNode,
            },
    {
        if !self.contains(node) {
            return Err(LayoutError::UnknownNode);
        }
        match self.records[node.index()].parent {
            Some(p) => Ok(Some(Node::assemble(self.tag, p))),
            None => Ok(None),
        }
    }

    /// The style of a node.
    pub fn style(&self, node: Node) -> (r: Result<Style, LayoutError>)
        ensures
            match r {
                Ok(s) => self@.contains(node) && s@ == self@.nodes[node.place()].style,
                Err(e) => !self@.contains(node) && e == LayoutError::UnknownNode,
            },
    {
        if !self.contains(node) {
            return Err(LayoutError::UnknownNode);
        }
        Ok(self.records[node.index()].style)
    }

    /// The cached layout of a node.
    pub fn layout(&self, node: Node) -> (r: Result<Layout, LayoutError>)
        ensures
            r == self@.layout_of(node),
    {
        if !self.contains(node) {
            return Err(LayoutError::UnknownNode);
        }
        match self.records[node.index()].layout {
            Some(l) => Ok(l),
            None => Err(LayoutError::NotYetComputed),
        }
    }

    /// Tests whether attaching `child` below `parent` would close a circle,
    /// by walking from `parent` up to its root. Fails with `UnknownNode`
    /// where either node is foreign.
    pub fn closes_cycle(&self, parent: Node, child: Node) -> (r: Result<bool, LayoutError>)
        requires
            self@.wf(),
        ensures
            match r {
                Ok(b) => self@.contains(parent) && self@.contains(child) && b
                    == self@.closes_cycle(parent, child),
                Err(e) => !(self@.contains(parent) && self@.contains(child)) && e
                    == LayoutError::UnknownNode,
            },
    {
        if !self.contains(parent) || !self.contains(child) {
            return Err(LayoutError::UnknownNode);
        }
        let ghost parents = self@.parents();
        let ghost start = parent.place();
        let ghost end = 0nat;
        proof {
            self@.lemma_links_in_range();
            assert(rooted(parents, start));
            end = choose|e: nat| ancestor(parents, start, e) is None;
        }
        let mut current: usize = parent.index();
        let ghost steps = 0nat;
        loop
            invariant
                self@.wf(),
                parents == self@.parents(),
                start == parent.place(),
                self@.contains(parent),
                self@.contains(child),
                current < self.records@.len(),
                ancestor(parents, start, steps) == Some(current as int),
                ancestor(parents, start, end) is None,
                forall|t: nat|
                    t < steps ==> ancestor(parents, start, t) != Some(child.place()),
            decreases end - steps,
        {
            if current == child.index() {
                assert(descends(parents, start, child.place()));
                return Ok(true);
            }
            proof {
                if end <= steps {
                    lemma_ancestor_ends(parents, start, end, steps);
                }
                assert(parents[current as int] == self@.nodes[current as int].parent);
                assert(ancestor(parents, start, steps + 1) == parents[current as int]);
            }
            match self.records[current].parent {
                None => {
                    proof {
                        assert forall|k: nat| ancestor(parents, start, k) != Some(
                            child.place(),
                        ) by {
                            if k > steps {
                                lemma_ancestor_ends(parents, start, steps + 1, k);
                            }
                        }
                    }
                    return Ok(false);
                },
                Some(p) => {
                    proof {
                        self@.lemma_links_in_range();
                        lemma_ancestor_in_range(parents, start, steps + 1);
                        steps = steps + 1;
                    }
                    current = p;
                },
            }
        }
    }

    /// Attaches `child` below `parent`, after the children that `parent`
    /// already has.
    ///
    /// Fails with `UnknownNode` where either node is foreign and with
    /// `DuplicateAttachment` where `child` already has a parent; the tree is
    /// then unchanged. The caller sees to it that no circle is closed:
    /// `child` is neither `parent` nor one of its ancestors.
    pub fn add_child(&mut self, parent: Node, child: Node) -> (r: Result<(), LayoutError>)
        requires
            old(self)@.wf(),
            !old(self)@.closes_cycle(parent, child),
        ensures
            final(self)@.wf(),
            match r {
                Ok(_) => old(self)@.attach(parent, child) == Ok::<TreeModel, LayoutError>(
                    final(self)@,
                ),
                Err(e) => old(self)@.attach(parent, child) == Err::<TreeModel, LayoutError>(e)
                    && final(self)@ == old(self)@,
            },
    {
        if !self.contains(parent) || !self.contains(child) {
            return Err(LayoutError::UnknownNode);
        }
        if self.records[child.index()].parent.is_some() {
            return Err(LayoutError::DuplicateAttachment);
        }
        proof {
            assert(descends(self@.parents(), parent.place(), parent.place())) by {
                assert(ancestor(self@.parents(), parent.place(), 0) == Some(
                    parent.place(),
                ));
            }
            assert(parent.place() != child.place());
        }
        self.records[parent.index()].children.push(child.index());
        self.records[child.index()].parent = Some(parent.index());
        proof {
            let after = old(self)@.attach(parent, child)->Ok_0;
            assert forall|i: int| 0 <= i < self@.nodes.len() implies self@.nodes[i]
                == after.nodes[i] by {
                if i == parent.place() {
                    assert(self@.nodes[i].children =~= after.nodes[i].children);
                } else if i == child.place() {
                    assert(self@.nodes[i].children =~= after.nodes[i].children);
                } else {
                    assert(self.records@[i] == old(self).records@[i]);
                }
            }
            assert(self@.nodes =~= after.nodes);
            old(self)@.lemma_attach_wf(parent, child);
        }
        Ok(())
    }

    /// Tests whether a layout pass from `root` visits `node`, by walking from
    /// `node` up until it meets `root`, a hidden parent, or the top. Fails
    /// with `UnknownNode` where either node is foreign.
    pub fn visits(&self, root: Node, node: Node) -> (r: Result<bool, LayoutError>)
        requires
            self@.wf(),
        ensures
            match r {
                Ok(b) => self@.contains(root) && self@.contains(node) && b == self@.visits(
                    root.place(),
                    node.place(),
                ),
                Err(e) => !(self@.contains(root) && self@.contains(node)) && e
                    == LayoutError::UnknownNode,
            },
    {
        if !self.contains(root) || !self.contains(node) {
            return Err(LayoutError::UnknownNode);
        }
        let nothing: Vec<Option<bool>> = Vec::new();
        let (_, _, verdict) = self.climb(root.index(), node.index(), &nothing);
        Ok(verdict)
    }

    /// What is known so far about a pass from `root`: each verdict that has
    /// been written down is the right one.
    spec fn sound(&self, root: int, known: Seq<Option<bool>>) -> bool {
        &&& known.len() <= self@.nodes.len()
        &&& forall|j: int|
            0 <= j < known.len() ==> (#[trigger] known[j] matches Some(b) ==> b == self@.visits(
                root,
                j,
            ))
    }

    /// Walks from `start` up to the first node of which it is known, or can
    /// be told at once, whether a pass from `root` visits it. Returns the
    /// nodes passed on the way, that node, and the verdict, which holds of
    /// all of them.
    fn climb(&self, root: usize, start: usize, known: &Vec<Option<bool>>) -> (r: (
        Vec<usize>,
        usize,
        bool,
    ))
        requires
            self@.wf(),
            root < self@.nodes.len(),
            start < self@.nodes.len(),
            self.sound(root as int, known@),
        ensures
            r.1 < self@.nodes.len(),
            r.2 == self@.visits(root as int, r.1 as int),
            r.0@.len() == 0 ==> r.1 == start,
            r.0@.len() > 0 ==> r.0@[0] == start,
            forall|t: int|
                0 <= t < r.0@.len() ==> (#[trigger] r.0@[t]) < self@.nodes.len() && self@.visits(
                    root as int,
                    r.0@[t] as int,
                ) == r.2,
    {
        let ghost parents = self@.parents();
        let ghost hidden = self@.hidden();
        let ghost end = 0nat;
        proof {
            self@.lemma_links_in_range();
            assert(rooted(parents, start as int));
            end = choose|e: nat| ancestor(parents, start as int, e) is None;
        }
        let mut path: Vec<usize> = Vec::new();
        let mut current: usize = start;
        let ghost steps = 0nat;
        loop
            invariant
                self@.wf(),
                parents == self@.parents(),
                hidden == self@.hidden(),
                root < self@.nodes.len(),
                start < self@.nodes.len(),
                current < self.records@.len(),
                self.sound(root as int, known@),
                ancestor(parents, start as int, steps) == Some(current as int),
                ancestor(parents, start as int, end) is None,
                path@.len() == 0 ==> current == start,
                path@.len() > 0 ==> path@[0] == start,
                forall|t: int|
                    0 <= t < path@.len() ==> (#[trigger] path@[t]) < self.records@.len()
                        && self@.visits(root as int, path@[t] as int) == self@.visits(
                        root as int,
                        current as int,
                    ),
            decreases end - steps,
        {
            proof {
                if end <= steps {
                    lemma_ancestor_ends(parents, start as int, end, steps);
                }
                lemma_in_pass_unfolds(parents, hidden, current as int, root as int);
                assert(parents[current as int] == self@.nodes[current as int].parent);
                assert(ancestor(parents, start as int, steps + 1) == parents[current as int]);
            }
            if current < known.len() {
                if let Some(verdict) = known[current] {
                    return (path, current, verdict);
                }
            }
            if current == root {
                return (path, current, true);
            }
            match self.records[current].parent {
                None => {
                    return (path, current, false);
                },
                Some(above) => {
                    proof {
                        lemma_ancestor_in_range(parents, start as int, steps + 1);
                        assert(hidden[above as int] == (self@.nodes[above as int].style.display
                            == Display::Hidden));
                    }
                    if self.records[above].style.display() == Display::Hidden {
                        return (path, current, false);
                    }
                    path.push(current);
                    proof {
                        steps = steps + 1;
                    }
                    current = above;
                },
            }
        }
    }

    /// Finds out whether a pass from `root` visits `start`, and writes the
    /// verdict down for `start` and for every node passed on the way up.
    fn settle_chain(&self, root: usize, start: usize, known: &mut Vec<Option<bool>>)
        requires
            self@.wf(),
            root < self@.nodes.len(),
            start < self@.nodes.len(),
            old(known)@.len() == self@.nodes.len(),
            self.sound(root as int, old(known)@),
        ensures
            final(known)@.len() == self@.nodes.len(),
            self.sound(root as int, final(known)@),
            final(known)@[start as int] is Some,
    {
        let (path, top, verdict) = self.climb(root, start, known);
        LayoutTree::write_verdict(known, &path, top, verdict);
        proof {
            assert forall|j: int| 0 <= j < known@.len() implies (#[trigger] known@[j] matches Some(
                b,
            ) ==> b == self@.visits(root as int, j)) by {
                if known@[j] != old(known)@[j] && j != top {
                    let t = choose|t: int| 0 <= t < path@.len() && path@[t] == j;
                    assert(self@.visits(root as int, path@[t] as int) == verdict);
                }
            }
            if path@.len() > 0 {
                assert(known@[path@[0] as int] == Some(verdict));
            }
        }
    }

    /// Writes one verdict down for `top` and for every node of `path`.
    fn write_verdict(known: &mut Vec<Option<bool>>, path: &Vec<usize>, top: usize, verdict: bool)
        requires
            top < old(known)@.len(),
            forall|t: int| 0 <= t < path@.len() ==> (#[trigger] path@[t]) < old(known)@.len(),
        ensures
            final(known)@.len() == old(known)@.len(),
            final(known)@[top as int] == Some(verdict),
            forall|t: int|
                0 <= t < path@.len() ==> final(known)@[(#[trigger] path@[t]) as int] == Some(
                    verdict,
                ),
            forall|j: int|
                0 <= j < old(known)@.len() ==> #[trigger] final(known)@[j] == old(known)@[j]
                    || final(known)@[j] == Some(verdict) && (j == top || exists|t: int|
                    0 <= t < path@.len() && path@[t] == j),
    {
        known[top] = Some(verdict);
        let mut t: usize = 0;
        while t < path.len()
            invariant
                t <= path@.len(),
                known@.len() == old(known)@.len(),
                top < known@.len(),
                known@[top as int] == Some(verdict),
                forall|u: int| 0 <= u < path@.len() ==> (#[trigger] path@[u]) < known@.len(),
                forall|u: int| 0 <= u < t ==> known@[(#[trigger] path@[u]) as int] == Some(verdict),
                forall|j: int|
                    0 <= j < old(known)@.len() ==> #[trigger] known@[j] == old(known)@[j]
                        || known@[j] == Some(verdict) && (j == top || exists|u: int|
                        0 <= u < path@.len() && path@[u] == j),
            decreases path@.len() - t,
        {
            let node = path[t];
            known[node] = Some(verdict);
            t = t + 1;
        }
    }

    /// For each node, whether a pass from `root` visits it. Every node is
    /// walked over once.
    fn pass_members(&self, root: usize) -> (members: Vec<bool>)
        requires
            self@.wf(),
            root < self@.nodes.len(),
        ensures
            members@.len() == self@.nodes.len(),
            forall|j: int|
                0 <= j < members@.len() ==> members@[j] == self@.visits(root as int, j),
    {
        let count = self.records.len();
        let mut known: Vec<Option<bool>> = Vec::new();
        let mut i: usize = 0;
        while i < count
            invariant
                i <= count,
                known@.len() == i,
                forall|j: int| 0 <= j < i ==> known@[j] is None,
            decreases count - i,
        {
            known.push(None);
            i = i + 1;
        }
        let mut members: Vec<bool> = Vec::new();
        let mut i: usize = 0;
        while i < count
            invariant
                i <= count,
                count == self@.nodes.len(),
                self@.wf(),
                root < count,
                known@.len() == count,
                self.sound(root as int, known@),
                members@.len() == i,
                forall|j: int| 0 <= j < i ==> members@[j] == self@.visits(root as int, j),
            decreases count - i,
        {
            self.settle_chain(root, i, &mut known);
            let verdict = match known[i] {
                Some(v) => v,
                None => false,
            };
            members.push(verdict);
            i = i + 1;
        }
        members
    }

    /// Runs a layout pass from `root` over what the solver measured.
    ///
    /// `measured` holds one layout for each node of the tree, by index. The
    /// pass visits `root` and what lies below it, but nothing below a hidden
    /// node. Each visited node gets its measured layout, with degenerate
    /// numbers clamped to zero, or the zero layout where the node is hidden;
    /// an earlier layout of that node is overwritten. No other node changes.
    ///
    /// Fails with `UnknownNode` where `root` is foreign, and with
    /// `InvalidOption` where `measured` does not hold one layout for each
    /// node; the tree is then unchanged.
    pub fn compute_layout(&mut self, root: Node, measured: &Vec<Layout>) -> (r: Result<
        (),
        LayoutError,
    >)
        requires
            old(self)@.wf(),
        ensures
            final(self)@.wf(),
            match r {
                Ok(_) => old(self)@.pass(root, measured@) == Ok::<TreeModel, LayoutError>(
                    final(self)@,
                ),
                Err(e) => old(self)@.pass(root, measured@) == Err::<TreeModel, LayoutError>(e)
                    && final(self)@ == old(self)@,
            },
    {
        if !self.contains(root) {
            return Err(LayoutError::UnknownNode);
        }
        let count = self.records.len();
        if measured.len() != count {
            return Err(LayoutError::InvalidOption);
        }
        let ghost before = self@;
        let ghost after = before.pass(root, measured@)->Ok_0;
        let members = self.pass_members(root.index());
        let mut i: usize = 0;
        while i < count
            invariant
                i <= count,
                count == self.records@.len(),
                count == before.nodes.len(),
                count == measured@.len(),
                self.tag == before.tag,
                members@.len() == count,
                forall|j: int|
                    0 <= j < count ==> members@[j] == before.visits(root.place(), j),
                after == before.pass(root, measured@)->Ok_0,
                before.pass(root, measured@) is Ok,
                forall|j: int| 0 <= j < i ==> self@.nodes[j] == after.nodes[j],
                forall|j: int| i <= j < count ==> self@.nodes[j] == before.nodes[j],
            decreases count - i,
        {
            if members[i] {
                let hidden = self.records[i].style.display() == Display::Hidden;
                let layout = if hidden {
                    Layout::zero()
                } else {
                    measured[i].settle()
                };
                let ghost previous = self@;
                self.records[i].layout = Some(layout);
                proof {
                    assert forall|j: int| 0 <= j < count && j != i implies self@.nodes[j]
                        == previous.nodes[j] by {}
                    assert(self@.nodes[i as int].children =~= previous.nodes[i as int].children);
                }
            }
            i = i + 1;
        }
        proof {
            assert(self@.nodes =~= after.nodes);
            before.lemma_pass_wf(root, measured@);
        }
        Ok(())
    }
}

} // verus!
