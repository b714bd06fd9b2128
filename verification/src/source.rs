//! Where trees come from.
use vstd::prelude::*;
use crate::model::TreeModel;
use crate::tree::LayoutTree;

verus! {

/// A source of empty trees. Each tree it makes gets a tag that no other
/// tree of this source has, so the nodes of one are foreign to every other.
///
/// A source cannot be copied. Trees of two different sources are not told
/// apart, so a program keeps one source for all its trees.
pub struct TreeSource {
    next: u64,
}

impl TreeSource {
    /// The tag that the next tree gets.
    pub closed spec fn next_tag(self) -> int {
        self.next as int
    }

    /// The source as it stands after `count` more trees have been made.
    pub closed spec fn after(self, count: nat) -> TreeSource {
        TreeSource { next: (self.next + count) as u64 }
    }

    /// The tree that the source makes next.
    pub open spec fn made(self) -> TreeModel {
        TreeModel::empty(self.next_tag() as u64)
    }

    /// A source that has made no tree yet.
    pub fn new() -> (r: TreeSource)
        ensures
            r.next_tag() == 0,
    {
        TreeSource { next: 0 }
    }

    /// Makes an empty tree with the next tag. Returns nothing, and stays as
    /// it is, once the tags are used up.
    pub fn make(&mut self) -> (r: Option<LayoutTree>)
        ensures
            match r {
                Some(tree) => old(self).next_tag() < u64::MAX && tree@ == old(self).made()
                    && tree@.wf() && *final(self) == old(self).after(1) && final(self).next_tag()
                    == old(self).next_tag() + 1,
                None => old(self).next_tag() == u64::MAX && *final(self) == *old(self),
            },
    {
        if self.next == u64::MAX {
            return None;
        }
        let tree = LayoutTree::with_tag(self.next);
        self.next = self.next + 1;
        Some(tree)
    }

    /// Making trees one after another adds up, and each tree made moves the
    /// next tag on by one.
    pub proof fn lemma_after(self, first: nat, then: nat)
        requires
            self.next_tag() + first + then <= u64::MAX,
        ensures
            0 <= self.next_tag() <= u64::MAX,
            self.after(0) == self,
            self.after(first).after(then) == self.after(first + then),
            self.after(first).next_tag() == self.next_tag() + first,
    {
    }

    /// Two trees that one source makes have different tags.
    pub proof fn lemma_tags_differ(self, earlier: nat, later: nat)
        requires
            earlier < later,
            self.next_tag() + later < u64::MAX,
        ensures
            self.after(earlier).made().tag != self.after(later).made().tag,
    {
    }
}

} // verus!
