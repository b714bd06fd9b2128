//! What holds of every tree, stated over the model and proved.
use vstd::prelude::*;
use crate::error::LayoutError;
use crate::forest::{
    ancestor, clear_path, descends, lemma_ancestor_compose, lemma_in_pass_unfolds,
    lemma_no_self_ancestor, reaches, rooted,
};
use crate::geometry::Layout;
use crate::model::{Node, TreeModel};
use crate::source::TreeSource;
use crate::style::{Display, StyleView};

verus! {

/// Attaching a child adds one to the number of children of its parent and
/// puts the child behind those that were there.
pub proof fn lemma_attach_appends(m: TreeModel, parent: Node, child: Node)
    requires
        m.attach(parent, child) is Ok,
    ensures
        ({
            let after = m.attach(parent, child)->Ok_0;
            &&& after.child_count_of(parent) == Ok::<nat, LayoutError>(
                m.child_count_of(parent)->Ok_0 + 1,
            )
            &&& after.children_of(parent)->Ok_0 == m.children_of(parent)->Ok_0.push(child)
        }),
{
    let after = m.attach(parent, child)->Ok_0;
    child.lemma_identity(child);
    assert(after.children_of(parent)->Ok_0 =~= m.children_of(parent)->Ok_0.push(child));
}

/// Attaching a child leaves the children of every node but the parent as
/// they were.
pub proof fn lemma_attach_keeps_others(m: TreeModel, parent: Node, child: Node, other: Node)
    requires
        m.attach(parent, child) is Ok,
        other != parent,
    ensures
        m.attach(parent, child)->Ok_0.children_of(other) == m.children_of(other),
        m.attach(parent, child)->Ok_0.child_count_of(other) == m.child_count_of(other),
{
    let after = m.attach(parent, child)->Ok_0;
    if m.contains(other) {
        other.lemma_identity(parent);
        assert(after.children_of(other)->Ok_0 =~= m.children_of(other)->Ok_0);
    }
}

/// Children stand in the order in which they were attached: after two
/// attachments below one parent, the first child comes right before the
/// second, at the end of the list.
pub proof fn lemma_attach_order(m: TreeModel, parent: Node, first: Node, second: Node)
    requires
        m.attach(parent, first) is Ok,
        m.attach(parent, first)->Ok_0.attach(parent, second) is Ok,
    ensures
        m.attach(parent, first)->Ok_0.attach(parent, second)->Ok_0.children_of(parent)->Ok_0
            == m.children_of(parent)->Ok_0.push(first).push(second),
{
    let middle = m.attach(parent, first)->Ok_0;
    lemma_attach_appends(m, parent, first);
    lemma_attach_appends(middle, parent, second);
}

/// A node of another tree is unknown to every operation.
pub proof fn lemma_foreign_node_unknown(
    m: TreeModel,
    foreign: Node,
    other: Node,
    measured: Seq<Layout>,
)
    requires
        foreign.origin() != m.tag,
    ensures
        !m.contains(foreign),
        m.child_count_of(foreign) == Err::<nat, LayoutError>(LayoutError::UnknownNode),
        m.children_of(foreign) == Err::<Seq<Node>, LayoutError>(LayoutError::UnknownNode),
        m.layout_of(foreign) == Err::<Layout, LayoutError>(LayoutError::UnknownNode),
        m.attach(foreign, other) == Err::<TreeModel, LayoutError>(LayoutError::UnknownNode),
        m.attach(other, foreign) == Err::<TreeModel, LayoutError>(LayoutError::UnknownNode),
        m.pass(foreign, measured) == Err::<TreeModel, LayoutError>(LayoutError::UnknownNode),
{
}

/// A node of one tree is unknown to every other tree of the same source,
/// whatever has been done to either tree since it was made.
pub proof fn lemma_other_tree_unknown(
    source: TreeSource,
    earlier: nat,
    later: nat,
    one: TreeModel,
    other: TreeModel,
    node: Node,
    partner: Node,
    measured: Seq<Layout>,
)
    requires
        earlier != later,
        source.next_tag() + earlier < u64::MAX,
        source.next_tag() + later < u64::MAX,
        one.tag == source.after(earlier).made().tag,
        other.tag == source.after(later).made().tag,
        other.contains(node),
    ensures
        one.tag != other.tag,
        !one.contains(node),
        one.child_count_of(node) == Err::<nat, LayoutError>(LayoutError::UnknownNode),
        one.children_of(node) == Err::<Seq<Node>, LayoutError>(LayoutError::UnknownNode),
        one.layout_of(node) == Err::<Layout, LayoutError>(LayoutError::UnknownNode),
        one.attach(node, partner) == Err::<TreeModel, LayoutError>(LayoutError::UnknownNode),
        one.attach(partner, node) == Err::<TreeModel, LayoutError>(LayoutError::UnknownNode),
        one.pass(node, measured) == Err::<TreeModel, LayoutError>(LayoutError::UnknownNode),
{
    if earlier < later {
        source.lemma_tags_differ(earlier, later);
    } else {
        source.lemma_tags_differ(later, earlier);
    }
    lemma_foreign_node_unknown(one, node, partner, measured);
}

/// No operation changes the tag of a tree.
pub proof fn lemma_replay_keeps_tag(tag: u64, steps: Seq<Step>)
    ensures
        replay(tag, steps).tag == tag,
    decreases steps.len(),
{
    if steps.len() > 0 {
        lemma_replay_keeps_tag(tag, steps.drop_last());
    }
}

/// A node that one tree has made is foreign to every tree with another tag.
pub proof fn lemma_leaf_is_foreign_elsewhere(m: TreeModel, elsewhere: TreeModel, style: StyleView)
    requires
        m.tag != elsewhere.tag,
        m.nodes.len() <= usize::MAX,
    ensures
        ({
            let made = Node::at(m.tag, m.nodes.len() as int);
            &&& m.with_leaf(style).contains(made)
            &&& !elsewhere.contains(made)
        }),
{
    Node::lemma_at(m.tag, m.nodes.len() as int);
}

/// A new node has no parent, no children and no layout, and making it
/// changes nothing about the nodes that were there.
pub proof fn lemma_leaf_is_bare(m: TreeModel, style: StyleView, older: Node)
    requires
        m.nodes.len() <= usize::MAX,
        m.contains(older),
    ensures
        ({
            let made = Node::at(m.tag, m.nodes.len() as int);
            let after = m.with_leaf(style);
            &&& after.layout_of(made) == Err::<Layout, LayoutError>(LayoutError::NotYetComputed)
            &&& after.child_count_of(made) == Ok::<nat, LayoutError>(0)
            &&& after.nodes[made.place()].parent is None
            &&& after.nodes[made.place()].style == style
            &&& after.layout_of(older) == m.layout_of(older)
            &&& after.children_of(older) == m.children_of(older)
        }),
{
    let after = m.with_leaf(style);
    Node::lemma_at(m.tag, m.nodes.len() as int);
    assert(after.children_of(older)->Ok_0 =~= m.children_of(older)->Ok_0);
}

/// Attaching a node changes no layout.
pub proof fn lemma_attach_keeps_layouts(m: TreeModel, parent: Node, child: Node, node: Node)
    requires
        m.attach(parent, child) is Ok,
    ensures
        m.attach(parent, child)->Ok_0.layout_of(node) == m.layout_of(node),
{
}

/// A pass gives every node it visits its layout: zeros for a hidden node,
/// the settled measurement for any other.
pub proof fn lemma_pass_writes_visited(m: TreeModel, root: Node, measured: Seq<Layout>, node: Node)
    requires
        m.pass(root, measured) is Ok,
        m.contains(node),
        m.visits(root.place(), node.place()),
    ensures
        m.pass(root, measured)->Ok_0.layout_of(node) == Ok::<Layout, LayoutError>(
            m.pass_layout(node.place(), measured),
        ),
        m.nodes[node.place()].style.display == Display::Hidden ==> m.pass(
            root,
            measured,
        )->Ok_0.layout_of(node) == Ok::<Layout, LayoutError>(Layout::zero_spec()),
        m.pass(root, measured)->Ok_0.layout_of(node)->Ok_0.is_settled(),
{
}

/// A pass visits a node exactly when the node is where the pass starts, or
/// when the pass visits its parent and the parent is not hidden.
pub proof fn lemma_visits_unfolds(m: TreeModel, root: Node, node: Node)
    requires
        m.wf(),
        m.contains(root),
        m.contains(node),
    ensures
        m.visits(root.place(), node.place()) <==> (node == root || (
        m.nodes[node.place()].parent matches Some(p) && m.nodes[p].style.display
            != Display::Hidden && m.visits(root.place(), p))),
{
    m.lemma_links_in_range();
    node.lemma_identity(root);
    lemma_in_pass_unfolds(m.parents(), m.hidden(), node.place(), root.place());
    assert(m.parents()[node.place()] == m.nodes[node.place()].parent);
}

/// A pass always visits the node it starts from.
pub proof fn lemma_pass_visits_root(m: TreeModel, root: Node)
    requires
        m.contains(root),
    ensures
        m.visits(root.place(), root.place()),
{
    assert(reaches(m.parents(), m.hidden(), root.place(), root.place(), 0));
}

/// A pass leaves a node it does not visit as it was: a stale layout stays,
/// and a node without a layout stays without one.
pub proof fn lemma_pass_keeps_unvisited(
    m: TreeModel,
    root: Node,
    measured: Seq<Layout>,
    node: Node,
)
    requires
        m.pass(root, measured) is Ok,
        m.contains(node),
        !m.visits(root.place(), node.place()),
    ensures
        m.pass(root, measured)->Ok_0.layout_of(node) == m.layout_of(node),
        m.pass(root, measured)->Ok_0.nodes[node.place()] == m.nodes[node.place()],
{
}

/// A pass changes neither the shape of the tree nor a style.
pub proof fn lemma_pass_keeps_shape(m: TreeModel, root: Node, measured: Seq<Layout>, node: Node)
    requires
        m.pass(root, measured) is Ok,
        m.contains(node),
    ensures
        ({
            let after = m.pass(root, measured)->Ok_0;
            &&& after.tag == m.tag
            &&& after.nodes.len() == m.nodes.len()
            &&& after.nodes[node.place()].style == m.nodes[node.place()].style
            &&& after.nodes[node.place()].parent == m.nodes[node.place()].parent
            &&& after.nodes[node.place()].children == m.nodes[node.place()].children
            &&& after.parents() == m.parents()
            &&& after.hidden() == m.hidden()
        }),
{
    let after = m.pass(root, measured)->Ok_0;
    assert(after.parents() =~= m.parents());
    assert(after.hidden() =~= m.hidden());
}

/// Running the same pass twice in a row, over the same measurements, gives
/// the tree that the first run gave.
pub proof fn lemma_pass_idempotent(m: TreeModel, root: Node, measured: Seq<Layout>)
    requires
        m.pass(root, measured) is Ok,
    ensures
        m.pass(root, measured)->Ok_0.pass(root, measured) == m.pass(root, measured),
{
    let once = m.pass(root, measured)->Ok_0;
    assert(once.parents() =~= m.parents());
    assert(once.hidden() =~= m.hidden());
    let twice = once.pass(root, measured)->Ok_0;
    assert(twice.nodes =~= once.nodes);
}

/// Nothing below a hidden node is visited by a pass that starts at that
/// node or above it.
pub proof fn lemma_below_hidden_not_visited(
    m: TreeModel,
    root: Node,
    hidden: int,
    below: int,
    distance: nat,
)
    requires
        m.wf(),
        m.contains(root),
        0 <= below < m.nodes.len(),
        distance >= 1,
        ancestor(m.parents(), below, distance) == Some(hidden),
        0 <= hidden < m.nodes.len(),
        m.nodes[hidden].style.display == Display::Hidden,
        descends(m.parents(), hidden, root.place()),
    ensures
        !m.visits(root.place(), below),
{
    let parents = m.parents();
    let flags = m.hidden();
    let goal = root.place();
    m.lemma_links_in_range();
    assert forall|k: nat| !reaches(parents, flags, below, goal, k) by {
        if reaches(parents, flags, below, goal, k) {
            if k >= distance {
                assert(ancestor(parents, below, distance) == Some(hidden));
                assert(flags[hidden]);
                assert(!clear_path(parents, flags, below, k));
            } else {
                // The start of the pass would lie strictly between the two
                // nodes, and above the hidden one as well: a circle.
                let up = choose|u: nat| ancestor(parents, hidden, u) == Some(goal);
                lemma_ancestor_compose(parents, below, k, (distance - k) as nat);
                assert(k + (distance - k) as nat == distance);
                assert(ancestor(parents, goal, (distance - k) as nat) == Some(hidden));
                lemma_ancestor_compose(parents, goal, (distance - k) as nat, up);
                assert(rooted(parents, goal));
                lemma_no_self_ancestor(parents, goal, (distance - k) as nat + up);
            }
        }
    }
}

/// A pass gives a hidden node it visits the zero layout and leaves every
/// node below it as it was.
pub proof fn lemma_hidden_subtree_skipped(
    m: TreeModel,
    root: Node,
    measured: Seq<Layout>,
    hidden: Node,
    below: Node,
    distance: nat,
)
    requires
        m.wf(),
        m.pass(root, measured) is Ok,
        m.contains(hidden),
        m.contains(below),
        m.nodes[hidden.place()].style.display == Display::Hidden,
        m.visits(root.place(), hidden.place()),
        distance >= 1,
        ancestor(m.parents(), below.place(), distance) == Some(hidden.place()),
    ensures
        m.pass(root, measured)->Ok_0.layout_of(hidden) == Ok::<Layout, LayoutError>(
            Layout::zero_spec(),
        ),
        m.pass(root, measured)->Ok_0.layout_of(below) == m.layout_of(below),
{
    let k = choose|k: nat|
        reaches(m.parents(), m.hidden(), hidden.place(), root.place(), k);
    assert(descends(m.parents(), hidden.place(), root.place()));
    lemma_below_hidden_not_visited(m, root, hidden.place(), below.place(), distance);
}

/// The parent/child relation is a forest: a node stands in the child list of
/// at most one node, and no node is its own ancestor.
pub proof fn lemma_forest(m: TreeModel, first: int, second: int, child: int, node: int, k: nat)
    requires
        m.wf(),
        0 <= first < m.nodes.len(),
        0 <= second < m.nodes.len(),
        0 <= node < m.nodes.len(),
        k >= 1,
    ensures
        m.nodes[first].children.contains(child) && m.nodes[second].children.contains(child)
            ==> first == second,
        ancestor(m.parents(), node, k) != Some(node),
{
    if m.nodes[first].children.contains(child) && m.nodes[second].children.contains(child) {
        let a = choose|j: int|
            0 <= j < m.nodes[first].children.len() && m.nodes[first].children[j] == child;
        let b = choose|j: int|
            0 <= j < m.nodes[second].children.len() && m.nodes[second].children[j] == child;
        assert(m.nodes[m.nodes[first].children[a]].parent == Some(first));
        assert(m.nodes[m.nodes[second].children[b]].parent == Some(second));
    }
    assert(rooted(m.parents(), node));
    lemma_no_self_ancestor(m.parents(), node, k);
}

/// One operation on a tree.
pub enum Step {
    /// Make a leaf with this style.
    Leaf(StyleView),
    /// Attach the second node below the first.
    Attach(Node, Node),
    /// Run a layout pass from this node over these measurements.
    Pass(Node, Seq<Layout>),
}

/// The tree after one operation; an operation that fails leaves it as it
/// was.
pub open spec fn apply(m: TreeModel, step: Step) -> TreeModel {
    match step {
        Step::Leaf(style) => m.with_leaf(style),
        Step::Attach(parent, child) => match m.attach(parent, child) {
            Ok(after) => after,
            Err(_) => m,
        },
        Step::Pass(root, measured) => match m.pass(root, measured) {
            Ok(after) => after,
            Err(_) => m,
        },
    }
}

/// The tree that a sequence of operations builds from the empty tree.
pub open spec fn replay(tag: u64, steps: Seq<Step>) -> TreeModel
    decreases steps.len(),
{
    if steps.len() == 0 {
        TreeModel::empty(tag)
    } else {
        apply(replay(tag, steps.drop_last()), steps.last())
    }
}

/// The operation is one that the tree allows on `m`: a leaf has a valid
/// style, and an attachment closes no circle.
pub open spec fn allowed(m: TreeModel, step: Step) -> bool {
    match step {
        Step::Leaf(style) => style.valid(),
        Step::Attach(parent, child) => !m.closes_cycle(parent, child),
        Step::Pass(_, _) => true,
    }
}

/// Each operation of the sequence is allowed on the tree that the
/// operations before it have built.
pub open spec fn all_allowed(tag: u64, steps: Seq<Step>) -> bool {
    forall|i: int| 0 <= i < steps.len() ==> allowed(replay(tag, steps.take(i)), #[trigger] steps[i])
}

/// The operation is a layout pass that succeeds on `m` and visits `node`.
pub open spec fn pass_visits(m: TreeModel, step: Step, node: Node) -> bool {
    step matches Step::Pass(root, measured) && m.pass(root, measured) is Ok && m.contains(node)
        && m.visits(root.place(), node.place())
}

/// Some layout pass among the operations visited `node`.
pub open spec fn visited_in(tag: u64, steps: Seq<Step>, node: Node) -> bool {
    exists|i: int|
        0 <= i < steps.len() && pass_visits(replay(tag, steps.take(i)), #[trigger] steps[i], node)
}

/// The invariant holds of every tree that allowed operations build: styles
/// are valid, the parent/child relation is a forest, and no cached layout
/// holds a degenerate number.
pub proof fn lemma_replay_wf(tag: u64, steps: Seq<Step>)
    requires
        all_allowed(tag, steps),
    ensures
        replay(tag, steps).wf(),
    decreases steps.len(),
{
    if steps.len() > 0 {
        let earlier = steps.drop_last();
        let before = replay(tag, earlier);
        assert(steps.take(steps.len() - 1) =~= earlier);
        assert(allowed(before, steps[steps.len() - 1]));
        assert forall|i: int| 0 <= i < earlier.len() implies allowed(
            replay(tag, earlier.take(i)),
            #[trigger] earlier[i],
        ) by {
            assert(earlier.take(i) =~= steps.take(i));
            assert(allowed(replay(tag, steps.take(i)), steps[i]));
        }
        lemma_replay_wf(tag, earlier);
        match steps.last() {
            Step::Leaf(style) => {
                before.lemma_with_leaf_wf(style);
            },
            Step::Attach(parent, child) => {
                before.lemma_attach_wf(parent, child);
            },
            Step::Pass(root, measured) => {
                before.lemma_pass_wf(root, measured);
            },
        }
    }
}

/// Whatever the operations were, a node that no layout pass has visited has
/// no layout.
pub proof fn lemma_never_visited_not_computed(tag: u64, steps: Seq<Step>, node: Node)
    requires
        replay(tag, steps).contains(node),
        !visited_in(tag, steps, node),
    ensures
        replay(tag, steps).layout_of(node) == Err::<Layout, LayoutError>(
            LayoutError::NotYetComputed,
        ),
    decreases steps.len(),
{
    if steps.len() > 0 {
        let earlier = steps.drop_last();
        let before = replay(tag, earlier);
        let last = steps.last();
        assert(steps.take(steps.len() - 1) =~= earlier);
        assert(!pass_visits(before, steps[steps.len() - 1], node));
        if before.contains(node) {
            assert(!visited_in(tag, earlier, node)) by {
                if visited_in(tag, earlier, node) {
                    let i = choose|i: int|
                        0 <= i < earlier.len() && pass_visits(
                            replay(tag, earlier.take(i)),
                            #[trigger] earlier[i],
                            node,
                        );
                    assert(earlier.take(i) =~= steps.take(i));
                    assert(pass_visits(replay(tag, steps.take(i)), steps[i], node));
                }
            }
            lemma_never_visited_not_computed(tag, earlier, node);
        }
    }
}

} // verus!
