//! The registry of inodes that a scan has already counted.

use std::collections::HashSet;
use vstd::prelude::*;

verus! {

/// The inodes seen so far in one scan. Workers that share one registry call
/// `mark_and_check` with the registry borrowed exclusively, so that the test
/// and the insertion are one step.
pub struct InodeSet {
    seen: HashSet<u64>,
}

impl View for InodeSet {
    type V = Set<u64>;

    closed spec fn view(&self) -> Set<u64> {
        self.seen@
    }
}

impl InodeSet {
    /// A registry that has seen nothing.
    pub fn new() -> (set: InodeSet)
        ensures
            set@ == Set::<u64>::empty(),
    {
        InodeSet { seen: HashSet::new() }
    }

    /// Records `inode` and says whether it had been recorded before: `true`
    /// means that the caller must not count the file again.
    pub fn mark_and_check(&mut self, inode: u64) -> (seen_before: bool)
        ensures
            seen_before == old(self)@.contains(inode),
            final(self)@ == old(self)@.insert(inode),
    {
        broadcast use vstd::std_specs::hash::group_hash_axioms;

        !self.seen.insert(inode)
    }

    /// Whether `inode` has been recorded.
    pub fn contains(&self, inode: u64) -> (seen: bool)
        ensures
            seen == self@.contains(inode),
    {
        broadcast use vstd::std_specs::hash::group_hash_axioms;

        self.seen.contains(&inode)
    }

    /// The number of inodes recorded.
    pub fn len(&self) -> (count: usize)
        ensures
            count == self@.len(),
    {
        broadcast use vstd::std_specs::hash::group_hash_axioms;

        self.seen.len()
    }
}

} // verus!
