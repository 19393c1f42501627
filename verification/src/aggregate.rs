//! Size aggregation: the true on-disk size of the files of a subtree, each
//! inode counted once.

use crate::filter::FilterPolicy;
use crate::inode::InodeSet;
use vstd::prelude::*;
use vstd::utf8::encode_utf8;

verus! {

/// The deepest level of a subtree that is counted; the root is level 0.
pub const MAX_DEPTH: usize = 10;

/// What a directory entry is, links not followed.
#[derive(Clone, Copy, Debug, PartialEq, Eq, Structural)]
pub enum EntryKind {
    File,
    Directory,
    Symlink,
    Other,
}

/// What the file system says of a file.
#[derive(Clone, Copy, Debug, PartialEq, Eq, Structural)]
pub struct FileMeta {
    pub inode: u64,
    /// The number of blocks allocated to the file.
    pub blocks: u64,
    /// The size of one such block, in bytes.
    pub block_size: u64,
    /// The logical length of the file, in bytes.
    pub len: u64,
    /// When the file was last modified, in seconds since the epoch.
    pub modified: u64,
}

/// One entry met on a walk of a subtree.
#[derive(Debug)]
pub struct WalkEntry {
    /// The last component of the path.
    pub name: String,
    pub path: String,
    /// The level of the entry below the root of the walk.
    pub depth: usize,
    pub kind: EntryKind,
    /// `None` where the metadata could not be read.
    pub meta: Option<FileMeta>,
}

/// The space allocated to a file: blocks times block size, and `u64::MAX`
/// where that does not fit.
pub open spec fn allocated(meta: FileMeta) -> nat {
    if meta.blocks * meta.block_size > u64::MAX {
        u64::MAX as nat
    } else {
        (meta.blocks * meta.block_size) as nat
    }
}

/// Whether `entry` is a file that the walk counts: a regular file within the
/// depth bound whose metadata was read and which the policy does not leave
/// out.
pub open spec fn is_counted(entry: WalkEntry, policy: FilterPolicy) -> bool {
    &&& entry.kind == EntryKind::File
    &&& entry.depth <= MAX_DEPTH
    &&& entry.meta is Some
    &&& !policy.skips(encode_utf8(entry.path@))
}

/// What `entry` adds to the total when the inodes of `seen` are counted
/// already.
pub open spec fn contribution(entry: WalkEntry, policy: FilterPolicy, seen: Set<u64>) -> nat {
    if is_counted(entry, policy) && !seen.contains(entry.meta->0.inode) {
        allocated(entry.meta->0)
    } else {
        0
    }
}

/// The registry after `entry`, when it held `seen` before.
pub open spec fn seen_with(entry: WalkEntry, policy: FilterPolicy, seen: Set<u64>) -> Set<u64> {
    if is_counted(entry, policy) {
        seen.insert(entry.meta->0.inode)
    } else {
        seen
    }
}

/// The registry after a walk over `entries` that began with `seen`.
pub open spec fn seen_after(entries: Seq<WalkEntry>, policy: FilterPolicy, seen: Set<u64>) -> Set<
    u64,
>
    decreases entries.len(),
{
    if entries.len() == 0 {
        seen
    } else {
        seen_with(entries.last(), policy, seen_after(entries.drop_last(), policy, seen))
    }
}

/// The total of a walk over `entries` that began with the registry `seen`.
pub open spec fn total_of(entries: Seq<WalkEntry>, policy: FilterPolicy, seen: Set<u64>) -> nat
    decreases entries.len(),
{
    if entries.len() == 0 {
        0
    } else {
        total_of(entries.drop_last(), policy, seen) + contribution(
            entries.last(),
            policy,
            seen_after(entries.drop_last(), policy, seen),
        )
    }
}

/// `total` as a `u64`, and `u64::MAX` where it does not fit.
pub open spec fn clamp_u64(total: nat) -> u64 {
    if total > u64::MAX {
        u64::MAX
    } else {
        total as u64
    }
}

/// The space allocated to a file.
pub fn allocation(meta: &FileMeta) -> (bytes: u64)
    ensures
        bytes == allocated(*meta),
{
    match meta.blocks.checked_mul(meta.block_size) {
        Some(bytes) => bytes,
        None => u64::MAX,
    }
}

/// The running total of one walk.
pub struct SizeAggregator {
    policy: FilterPolicy,
    total: u64,
    exact: Ghost<nat>,
}

impl SizeAggregator {
    /// The policy that the walk applies.
    pub closed spec fn policy(&self) -> FilterPolicy {
        self.policy
    }

    /// The sum of what the entries added so far, as a mathematical integer.
    pub closed spec fn exact_total(&self) -> nat {
        self.exact@
    }

    /// The total that is kept is the exact total, clamped.
    #[verifier::type_invariant]
    spec fn kept_total_is_clamped(self) -> bool {
        self.total == clamp_u64(self.exact@)
    }

    /// A walk that has met nothing yet.
    pub fn new(policy: FilterPolicy) -> (walk: SizeAggregator)
        ensures
            walk.policy() == policy,
            walk.exact_total() == 0,
    {
        SizeAggregator { policy, total: 0, exact: Ghost(0) }
    }

    /// Takes one entry into the total. A file that the policy leaves out, or
    /// whose metadata is missing, is passed over without touching the
    /// registry; a counted file is recorded in it, and adds its allocation
    /// unless its inode was recorded before.
    pub fn add(&mut self, entry: &WalkEntry, inodes: &mut InodeSet)
        ensures
            final(self).policy() == old(self).policy(),
            final(self).exact_total() == old(self).exact_total() + contribution(
                *entry,
                old(self).policy(),
                old(inodes)@,
            ),
            final(inodes)@ == seen_with(*entry, old(self).policy(), old(inodes)@),
    {
        match entry.kind {
            EntryKind::File => {},
            _ => {
                return ;
            },
        }
        if entry.depth > MAX_DEPTH {
            return ;
        }
        if self.policy.should_skip(entry.path.as_str()) {
            return ;
        }
        if let Some(meta) = &entry.meta {
            if !inodes.mark_and_check(meta.inode) {
                let bytes = allocation(meta);
                proof {
                    use_type_invariant(&*self);
                }
                *self = SizeAggregator {
                    policy: self.policy,
                    total: self.total.saturating_add(bytes),
                    exact: Ghost((self.exact@ + bytes) as nat),
                };
            }
        }
    }

    /// The total so far, `u64::MAX` where it does not fit.
    pub fn total(&self) -> (bytes: u64)
        ensures
            bytes == clamp_u64(self.exact_total()),
    {
        proof {
            use_type_invariant(self);
        }
        self.total
    }
}

/// The true on-disk size of the files among `entries`, the entries of one
/// walk in the order in which they were met. A file is counted when it is a
/// regular file within the depth bound, its metadata was read and the policy
/// does not leave it out; it adds its allocation unless `inodes` held its
/// inode already, and is recorded in `inodes`.
pub fn aggregate(entries: &Vec<WalkEntry>, policy: FilterPolicy, inodes: &mut InodeSet) -> (bytes:
    u64)
    ensures
        bytes == clamp_u64(total_of(entries@, policy, old(inodes)@)),
        final(inodes)@ == seen_after(entries@, policy, old(inodes)@),
{
    let ghost start = inodes@;
    let mut walk = SizeAggregator::new(policy);
    let mut i: usize = 0;
    while i < entries.len()
        invariant
            i <= entries.len(),
            walk.policy() == policy,
            walk.exact_total() == total_of(entries@.subrange(0, i as int), policy, start),
            inodes@ == seen_after(entries@.subrange(0, i as int), policy, start),
        decreases entries.len() - i,
    {
        proof {
            let next = entries@.subrange(0, i + 1);
            assert(next.drop_last() =~= entries@.subrange(0, i as int));
            assert(next.last() == entries@[i as int]);
        }
        walk.add(&entries[i], inodes);
        i += 1;
    }
    proof {
        assert(entries@.subrange(0, entries@.len() as int) =~= entries@);
    }
    walk.total()
}

/// Whether `entry` is a counted file with inode `inode`: a link to it.
pub open spec fn links_to(entry: WalkEntry, policy: FilterPolicy, inode: u64) -> bool {
    is_counted(entry, policy) && entry.meta->0.inode == inode
}

/// Whether some entry of `entries` links to `inode`.
pub open spec fn has_link(entries: Seq<WalkEntry>, policy: FilterPolicy, inode: u64) -> bool {
    exists|i: int| 0 <= i < entries.len() && links_to(#[trigger] entries[i], policy, inode)
}

/// The entries that do not link to `inode`.
pub open spec fn not_link(policy: FilterPolicy, inode: u64) -> spec_fn(WalkEntry) -> bool {
    |entry: WalkEntry| !links_to(entry, policy, inode)
}

/// Hard links count once. Where the links to an inode that the registry has
/// not seen all report one allocation, a walk that meets any number of them,
/// at least one, totals what the walk without them totals, plus that one
/// allocation; and it leaves the registry as the walk without them does, with
/// the inode added.
pub proof fn lemma_hard_links_count_once(
    entries: Seq<WalkEntry>,
    policy: FilterPolicy,
    seen: Set<u64>,
    inode: u64,
    size: nat,
)
    requires
        !seen.contains(inode),
        forall|i: int|
            0 <= i < entries.len() && links_to(#[trigger] entries[i], policy, inode) ==> allocated(
                entries[i].meta->0,
            ) == size,
    ensures
        total_of(entries, policy, seen) == total_of(
            entries.filter(not_link(policy, inode)),
            policy,
            seen,
        ) + if has_link(entries, policy, inode) {
            size
        } else {
            0
        },
        seen_after(entries, policy, seen) == if has_link(entries, policy, inode) {
            seen_after(entries.filter(not_link(policy, inode)), policy, seen).insert(inode)
        } else {
            seen_after(entries.filter(not_link(policy, inode)), policy, seen)
        },
        !seen_after(entries.filter(not_link(policy, inode)), policy, seen).contains(inode),
    decreases entries.len(),
{
    reveal(Seq::filter);
    let keep = not_link(policy, inode);
    if entries.len() > 0 {
        let front = entries.drop_last();
        let last = entries.last();
        assert forall|i: int|
            0 <= i < front.len() && links_to(#[trigger] front[i], policy, inode) implies allocated(
            front[i].meta->0,
        ) == size by {
            assert(front[i] == entries[i]);
        }
        lemma_hard_links_count_once(front, policy, seen, inode, size);
        let others = front.filter(keep);
        let before = seen_after(others, policy, seen);
        if has_link(front, policy, inode) {
            let i = choose|i: int| 0 <= i < front.len() && links_to(#[trigger] front[i], policy, inode);
            assert(entries[i] == front[i]);
        }
        if links_to(last, policy, inode) {
            assert(entries[entries.len() - 1] == last);
            assert(entries.filter(keep) == others);
        } else {
            assert(entries.filter(keep) == others.push(last));
            assert(others.push(last).drop_last() =~= others);
            assert(others.push(last).last() == last);
            if has_link(entries, policy, inode) {
                let i = choose|i: int|
                    0 <= i < entries.len() && links_to(#[trigger] entries[i], policy, inode);
                assert(front[i] == entries[i]);
            }
            if is_counted(last, policy) {
                assert(before.insert(inode).insert(last.meta->0.inode) =~= before.insert(
                    last.meta->0.inode,
                ).insert(inode));
            }
        }
    } else {
        assert(entries.filter(keep) =~= entries);
    }
}

/// A further link to an inode that the registry holds adds nothing.
pub proof fn lemma_seen_inode_adds_nothing(entry: WalkEntry, policy: FilterPolicy, seen: Set<u64>)
    requires
        entry.meta is Some,
        seen.contains(entry.meta->0.inode),
    ensures
        contribution(entry, policy, seen) == 0,
        seen_with(entry, policy, seen) == seen,
{
    assert(seen.insert(entry.meta->0.inode) =~= seen);
}

/// `entries` with the entries at `k` and `k + 1` in each other's place.
pub open spec fn with_neighbours_swapped(entries: Seq<WalkEntry>, k: int) -> Seq<WalkEntry> {
    entries.update(k, entries[k + 1]).update(k + 1, entries[k])
}

/// The order in which two neighbours are met changes neither the total nor
/// the registry, as long as they report one allocation where they link to one
/// inode.
pub proof fn lemma_neighbours_commute(
    entries: Seq<WalkEntry>,
    policy: FilterPolicy,
    seen: Set<u64>,
    k: int,
)
    requires
        0 <= k,
        k + 1 < entries.len(),
        is_counted(entries[k], policy) && is_counted(entries[k + 1], policy)
            && entries[k].meta->0.inode == entries[k + 1].meta->0.inode ==> allocated(
            entries[k].meta->0,
        ) == allocated(entries[k + 1].meta->0),
    ensures
        total_of(with_neighbours_swapped(entries, k), policy, seen) == total_of(
            entries,
            policy,
            seen,
        ),
        seen_after(with_neighbours_swapped(entries, k), policy, seen) == seen_after(
            entries,
            policy,
            seen,
        ),
    decreases entries.len(),
{
    let swapped = with_neighbours_swapped(entries, k);
    assert(swapped.len() == entries.len());
    if k + 2 == entries.len() {
        let first = entries[k];
        let second = entries[k + 1];
        let met = entries.drop_last();
        let met_swapped = swapped.drop_last();
        let rest = met.drop_last();
        assert(met_swapped.drop_last() =~= rest);
        assert(met.last() == first && met_swapped.last() == second);
        assert(entries.last() == second && swapped.last() == first);
        let before = seen_after(rest, policy, seen);
        let sum = total_of(rest, policy, seen);
        assert(seen_after(met, policy, seen) == seen_with(first, policy, before));
        assert(seen_after(met_swapped, policy, seen) == seen_with(second, policy, before));
        assert(total_of(met, policy, seen) == sum + contribution(first, policy, before));
        assert(total_of(met_swapped, policy, seen) == sum + contribution(second, policy, before));
        assert(total_of(entries, policy, seen) == total_of(met, policy, seen) + contribution(
            second,
            policy,
            seen_with(first, policy, before),
        ));
        assert(total_of(swapped, policy, seen) == total_of(met_swapped, policy, seen)
            + contribution(first, policy, seen_with(second, policy, before)));
        assert(seen_with(second, policy, seen_with(first, policy, before)) =~= seen_with(
            first,
            policy,
            seen_with(second, policy, before),
        ));
    } else {
        let met = entries.drop_last();
        lemma_neighbours_commute(met, policy, seen, k);
        assert(swapped.drop_last() =~= with_neighbours_swapped(met, k));
        assert(swapped.last() == entries.last());
        assert(total_of(swapped, policy, seen) == total_of(swapped.drop_last(), policy, seen)
            + contribution(swapped.last(), policy, seen_after(swapped.drop_last(), policy, seen)));
    }
}

/// Whether the links to any one inode among `entries` report one allocation,
/// as the links to one file do.
pub open spec fn links_agree(entries: Seq<WalkEntry>, policy: FilterPolicy) -> bool {
    forall|i: int, j: int|
        0 <= i < entries.len() && 0 <= j < entries.len() && is_counted(
            #[trigger] entries[i],
            policy,
        ) && is_counted(#[trigger] entries[j], policy) && entries[i].meta->0.inode
            == entries[j].meta->0.inode ==> allocated(entries[i].meta->0) == allocated(
            entries[j].meta->0,
        )
}

proof fn lemma_move_to_end(entries: Seq<WalkEntry>, policy: FilterPolicy, seen: Set<u64>, k: int)
    requires
        0 <= k < entries.len(),
        links_agree(entries, policy),
    ensures
        total_of(entries.remove(k).push(entries[k]), policy, seen) == total_of(
            entries,
            policy,
            seen,
        ),
        seen_after(entries.remove(k).push(entries[k]), policy, seen) == seen_after(
            entries,
            policy,
            seen,
        ),
    decreases entries.len() - k,
{
    if k == entries.len() - 1 {
        assert(entries.remove(k).push(entries[k]) =~= entries);
    } else {
        let swapped = with_neighbours_swapped(entries, k);
        assert(is_counted(entries[k], policy) && is_counted(entries[k + 1], policy)
            && entries[k].meta->0.inode == entries[k + 1].meta->0.inode ==> allocated(
            entries[k].meta->0,
        ) == allocated(entries[k + 1].meta->0));
        lemma_neighbours_commute(entries, policy, seen, k);
        assert forall|i: int, j: int|
            0 <= i < swapped.len() && 0 <= j < swapped.len() && is_counted(
                #[trigger] swapped[i],
                policy,
            ) && is_counted(#[trigger] swapped[j], policy) && swapped[i].meta->0.inode
                == swapped[j].meta->0.inode implies allocated(swapped[i].meta->0) == allocated(
            swapped[j].meta->0,
        ) by {
            let from = |at: int|
                if at == k {
                    k + 1
                } else if at == k + 1 {
                    k
                } else {
                    at
                };
            assert(swapped[i] == entries[from(i)]);
            assert(swapped[j] == entries[from(j)]);
        }
        lemma_move_to_end(swapped, policy, seen, k + 1);
        assert(swapped.remove(k + 1).push(swapped[k + 1]) =~= entries.remove(k).push(entries[k]));
    }
}

/// The order in which the entries are met is immaterial. Two walks that meet
/// the same entries, each as often as the other, in whatever order, reach one
/// total and one registry, as long as the links to one inode report one
/// allocation. So the total of a scan does not depend on how many workers
/// share the registry, nor on which comes first.
pub proof fn lemma_order_is_immaterial(
    first: Seq<WalkEntry>,
    second: Seq<WalkEntry>,
    policy: FilterPolicy,
    seen: Set<u64>,
)
    requires
        first.to_multiset() == second.to_multiset(),
        links_agree(first, policy),
    ensures
        total_of(first, policy, seen) == total_of(second, policy, seen),
        seen_after(first, policy, seen) == seen_after(second, policy, seen),
    decreases first.len(),
{
    first.to_multiset_ensures();
    second.to_multiset_ensures();
    if first.len() == 0 {
        assert(second.len() == 0);
        assert(first =~= second);
    } else {
        let last = first.last();
        assert(first[first.len() - 1] == last);
        assert(first.contains(last));
        assert(second.to_multiset().count(last) > 0);
        assert(second.contains(last));
        let k = choose|k: int| 0 <= k < second.len() && second[k] == last;
        let front = first.drop_last();
        let others = second.remove(k);
        assert(front =~= first.remove(first.len() - 1));
        assert(first.remove(first.len() - 1).to_multiset() =~= first.to_multiset().remove(last));
        assert(others.to_multiset() =~= second.to_multiset().remove(last));
        assert(front.to_multiset() == others.to_multiset());
        assert forall|i: int, j: int|
            0 <= i < front.len() && 0 <= j < front.len() && is_counted(
                #[trigger] front[i],
                policy,
            ) && is_counted(#[trigger] front[j], policy) && front[i].meta->0.inode
                == front[j].meta->0.inode implies allocated(front[i].meta->0) == allocated(
            front[j].meta->0,
        ) by {
            assert(front[i] == first[i] && front[j] == first[j]);
        }
        assert forall|i: int, j: int|
            0 <= i < second.len() && 0 <= j < second.len() && is_counted(
                #[trigger] second[i],
                policy,
            ) && is_counted(#[trigger] second[j], policy) && second[i].meta->0.inode
                == second[j].meta->0.inode implies allocated(second[i].meta->0) == allocated(
            second[j].meta->0,
        ) by {
            assert(second.contains(second[i]) && second.contains(second[j]));
            assert(first.to_multiset().count(second[i]) > 0);
            assert(first.to_multiset().count(second[j]) > 0);
            assert(first.contains(second[i]) && first.contains(second[j]));
            let a = choose|a: int| 0 <= a < first.len() && first[a] == second[i];
            let b = choose|b: int| 0 <= b < first.len() && first[b] == second[j];
            assert(allocated(first[a].meta->0) == allocated(first[b].meta->0));
        }
        lemma_order_is_immaterial(front, others, policy, seen);
        lemma_move_to_end(second, policy, seen, k);
        let moved = others.push(last);
        assert(moved.drop_last() =~= others);
        assert(moved.last() == last);
    }
}

} // verus!
