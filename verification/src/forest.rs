//! Parent links and the chains they form.
//!
//! A forest over the indices `0..n` is given by a sequence of parent links:
//! entry `i` is the index of the parent of node `i`, or nothing for a root.
//! Nothing here is executable; the arena in `tree` is described in these
//! terms.
use vstd::prelude::*;

verus! {

/// The node reached from `i` after following `k` parent links, or nothing
/// where the chain has ended before that.
pub open spec fn ancestor(parents: Seq<Option<int>>, i: int, k: nat) -> Option<int>
    decreases k,
{
    if k == 0 {
        Some(i)
    } else {
        match ancestor(parents, i, (k - 1) as nat) {
            Some(a) => if 0 <= a < parents.len() {
                parents[a]
            } else {
                None
            },
            None => None,
        }
    }
}

/// Every link points into the sequence.
pub open spec fn links_in_range(parents: Seq<Option<int>>) -> bool {
    forall|i: int|
        0 <= i < parents.len() ==> (#[trigger] parents[i] matches Some(p) ==> 0 <= p
            < parents.len())
}

/// The chain that starts at `i` ends: some number of links leads out of the
/// forest through a root.
pub open spec fn rooted(parents: Seq<Option<int>>, i: int) -> bool {
    exists|k: nat| ancestor(parents, i, k) is None
}

/// No chain runs in a circle: every chain ends.
pub open spec fn acyclic(parents: Seq<Option<int>>) -> bool {
    forall|i: int| 0 <= i < parents.len() ==> #[trigger] rooted(parents, i)
}

/// `a` lies on the chain that starts at `i`: it is `i` itself or one of its
/// ancestors.
pub open spec fn descends(parents: Seq<Option<int>>, i: int, a: int) -> bool {
    exists|k: nat| ancestor(parents, i, k) == Some(a)
}

/// Each of the first `k` ancestors of `i` exists and is not hidden.
pub open spec fn clear_path(parents: Seq<Option<int>>, hidden: Seq<bool>, i: int, k: nat) -> bool {
    forall|j: nat|
        1 <= j <= k ==> (#[trigger] ancestor(parents, i, j) matches Some(a) && 0 <= a
            < hidden.len() && !hidden[a])
}

/// `root` is the `k`-th ancestor of `i`, and no node on the way from the
/// parent of `i` up to `root` is hidden.
pub open spec fn reaches(
    parents: Seq<Option<int>>,
    hidden: Seq<bool>,
    i: int,
    root: int,
    k: nat,
) -> bool {
    ancestor(parents, i, k) == Some(root) && clear_path(parents, hidden, i, k)
}

/// A layout pass that starts at `root` visits `i`: `i` is `root` or lies
/// below it, and nothing hidden stands between them, `root` included. A
/// hidden node is itself visited; what hangs below it is not.
pub open spec fn in_pass(parents: Seq<Option<int>>, hidden: Seq<bool>, i: int, root: int) -> bool {
    exists|k: nat| reaches(parents, hidden, i, root, k)
}

/// A chain that starts inside the forest stays inside it.
pub proof fn lemma_ancestor_in_range(parents: Seq<Option<int>>, i: int, k: nat)
    requires
        links_in_range(parents),
        0 <= i < parents.len(),
    ensures
        ancestor(parents, i, k) matches Some(a) ==> 0 <= a < parents.len(),
    decreases k,
{
    if k > 0 {
        lemma_ancestor_in_range(parents, i, (k - 1) as nat);
    }
}

/// A chain that has ended does not start again.
pub proof fn lemma_ancestor_ends(parents: Seq<Option<int>>, i: int, k: nat, later: nat)
    requires
        ancestor(parents, i, k) is None,
        k <= later,
    ensures
        ancestor(parents, i, later) is None,
    decreases later,
{
    if later > k {
        lemma_ancestor_ends(parents, i, k, (later - 1) as nat);
    }
}

/// Following `j` links and then `k` more is following `j + k` links.
pub proof fn lemma_ancestor_compose(parents: Seq<Option<int>>, i: int, j: nat, k: nat)
    requires
        ancestor(parents, i, j) is Some,
    ensures
        ancestor(parents, i, j + k) == ancestor(parents, ancestor(parents, i, j)->0, k),
    decreases k,
{
    if k > 0 {
        lemma_ancestor_compose(parents, i, j, (k - 1) as nat);
        assert((j + k - 1) as nat == j + (k - 1) as nat);
    }
}

/// A chain that comes back to its start after `k` links does so again after
/// any multiple of `k`.
proof fn lemma_cycle_repeats(parents: Seq<Option<int>>, i: int, k: nat, times: nat)
    requires
        ancestor(parents, i, k) == Some(i),
    ensures
        ancestor(parents, i, times * k) == Some(i),
    decreases times,
{
    if times > 0 {
        lemma_cycle_repeats(parents, i, k, (times - 1) as nat);
        let before = ((times - 1) * k) as nat;
        assert(before + k == times * k) by (nonlinear_arith)
            requires
                times >= 1,
                before == (times - 1) * k,
        ;
        lemma_ancestor_compose(parents, i, before, k);
    } else {
        assert(times * k == 0) by (nonlinear_arith)
            requires
                times == 0,
        ;
    }
}

/// In a chain that ends, no node is its own ancestor.
pub proof fn lemma_no_self_ancestor(parents: Seq<Option<int>>, i: int, k: nat)
    requires
        rooted(parents, i),
        k >= 1,
    ensures
        ancestor(parents, i, k) != Some(i),
{
    if ancestor(parents, i, k) == Some(i) {
        let end = choose|e: nat| ancestor(parents, i, e) is None;
        lemma_cycle_repeats(parents, i, k, end);
        assert(end * k >= end) by (nonlinear_arith)
            requires
                k >= 1,
        ;
        lemma_ancestor_ends(parents, i, end, end * k);
    }
}

/// A pass visits a node exactly when the node is where the pass starts, or
/// when the pass visits its parent and the parent is not hidden.
pub proof fn lemma_in_pass_unfolds(
    parents: Seq<Option<int>>,
    hidden: Seq<bool>,
    i: int,
    root: int,
)
    requires
        0 <= i < parents.len(),
    ensures
        in_pass(parents, hidden, i, root) <==> (i == root || (parents[i] matches Some(p) && 0 <= p
            < hidden.len() && !hidden[p] && in_pass(parents, hidden, p, root))),
{
    assert(ancestor(parents, i, 1) == parents[i]) by {
        assert(ancestor(parents, i, 0) == Some(i));
    }
    if in_pass(parents, hidden, i, root) && i != root {
        let k = choose|k: nat| reaches(parents, hidden, i, root, k);
        assert(k >= 1);
        assert(ancestor(parents, i, 1) matches Some(a) && 0 <= a < hidden.len() && !hidden[a]);
        let p = parents[i]->0;
        let rest = (k - 1) as nat;
        lemma_ancestor_compose(parents, i, 1, rest);
        assert(1 + rest == k);
        assert forall|j: nat| 1 <= j <= rest implies (
        #[trigger] ancestor(parents, p, j) matches Some(a) && 0 <= a < hidden.len()
            && !hidden[a]) by {
            lemma_ancestor_compose(parents, i, 1, j);
            assert(ancestor(parents, i, 1 + j) matches Some(a) && 0 <= a < hidden.len()
                && !hidden[a]);
        }
        assert(reaches(parents, hidden, p, root, rest));
    }
    if i == root {
        assert(reaches(parents, hidden, i, root, 0));
    }
    if let Some(p) = parents[i] {
        if 0 <= p < hidden.len() && !hidden[p] && in_pass(parents, hidden, p, root) {
            let rest = choose|k: nat| reaches(parents, hidden, p, root, k);
            lemma_ancestor_compose(parents, i, 1, rest);
            assert forall|j: nat| 1 <= j <= 1 + rest implies (
            #[trigger] ancestor(parents, i, j) matches Some(a) && 0 <= a < hidden.len()
                && !hidden[a]) by {
                if j > 1 {
                    let before = (j - 1) as nat;
                    lemma_ancestor_compose(parents, i, 1, before);
                    assert(1 + before == j);
                    assert(ancestor(parents, p, before) matches Some(a) && 0 <= a < hidden.len()
                        && !hidden[a]);
                }
            }
            assert(reaches(parents, hidden, i, root, 1 + rest));
        }
    }
}

/// Giving a parent to `child` changes no chain before the point where it
/// passes through `child`.
pub proof fn lemma_attach_keeps_prefix(
    parents: Seq<Option<int>>,
    child: int,
    parent: int,
    i: int,
    k: nat,
)
    requires
        0 <= child < parents.len(),
        forall|t: nat| t < k ==> ancestor(parents, i, t) != Some(child),
    ensures
        ancestor(parents.update(child, Some(parent)), i, k) == ancestor(parents, i, k),
    decreases k,
{
    if k > 0 {
        lemma_attach_keeps_prefix(parents, child, parent, i, (k - 1) as nat);
        assert(ancestor(parents, i, (k - 1) as nat) != Some(child));
    }
}

/// Giving a parent to a root keeps the forest free of cycles, provided the
/// root is not on the chain of its new parent.
pub proof fn lemma_attach_keeps_acyclic(parents: Seq<Option<int>>, child: int, parent: int)
    requires
        links_in_range(parents),
        acyclic(parents),
        0 <= child < parents.len(),
        0 <= parent < parents.len(),
        parents[child] is None,
        !descends(parents, parent, child),
    ensures
        links_in_range(parents.update(child, Some(parent))),
        acyclic(parents.update(child, Some(parent))),
{
    let after = parents.update(child, Some(parent));
    assert(links_in_range(after));
    // The chain of the new parent does not pass through `child`, so it is
    // the chain it was, and ends where it ended.
    assert(rooted(parents, parent));
    let parent_end = choose|e: nat| ancestor(parents, parent, e) is None;
    assert forall|t: nat| ancestor(parents, parent, t) != Some(child) by {
        if ancestor(parents, parent, t) == Some(child) {
            assert(descends(parents, parent, child));
        }
    }
    lemma_attach_keeps_prefix(parents, child, parent, parent, parent_end);
    assert(ancestor(after, parent, parent_end) is None);
    assert forall|i: int| 0 <= i < after.len() implies #[trigger] rooted(after, i) by {
        assert(rooted(parents, i));
        let end = choose|e: nat| ancestor(parents, i, e) is None;
        if forall|t: nat| t < end ==> ancestor(parents, i, t) != Some(child) {
            lemma_attach_keeps_prefix(parents, child, parent, i, end);
            assert(ancestor(after, i, end) is None);
        } else {
            let hit = choose|t: nat| t < end && ancestor(parents, i, t) == Some(child);
            // `child` was a root, so the old chain ended right behind it and
            // cannot have met it earlier.
            assert forall|t: nat| t < hit implies ancestor(parents, i, t) != Some(child) by {
                if ancestor(parents, i, t) == Some(child) {
                    assert(ancestor(parents, i, t + 1) is None);
                    lemma_ancestor_ends(parents, i, t + 1, hit);
                }
            }
            lemma_attach_keeps_prefix(parents, child, parent, i, hit);
            assert(ancestor(after, i, hit) == Some(child));
            assert(ancestor(after, i, hit + 1) == Some(parent));
            lemma_ancestor_compose(after, i, hit + 1, parent_end);
            assert(ancestor(after, i, hit + 1 + parent_end) is None);
        }
    }
}

/// Adding a root at the end changes no chain that starts at an older node.
pub proof fn lemma_grow_keeps_chains(parents: Seq<Option<int>>, i: int, k: nat)
    requires
        links_in_range(parents),
        0 <= i < parents.len(),
    ensures
        ancestor(parents.push(None), i, k) == ancestor(parents, i, k),
    decreases k,
{
    if k > 0 {
        lemma_grow_keeps_chains(parents, i, (k - 1) as nat);
        lemma_ancestor_in_range(parents, i, (k - 1) as nat);
    }
}

/// Adding a root at the end keeps the forest free of cycles.
pub proof fn lemma_grow_keeps_acyclic(parents: Seq<Option<int>>)
    requires
        links_in_range(parents),
        acyclic(parents),
    ensures
        links_in_range(parents.push(None)),
        acyclic(parents.push(None)),
{
    let after = parents.push(None);
    assert forall|i: int| 0 <= i < after.len() implies #[trigger] rooted(after, i) by {
        if i < parents.len() {
            assert(rooted(parents, i));
            let end = choose|e: nat| ancestor(parents, i, e) is None;
            lemma_grow_keeps_chains(parents, i, end);
            assert(ancestor(after, i, end) is None);
        } else {
            assert(ancestor(after, i, 0) == Some(i));
            assert(ancestor(after, i, 1) is None);
        }
    }
}

} // verus!
