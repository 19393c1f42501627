//! Duplicate detection: files of one length whose fingerprints agree.
//!
//! The files come from a walk of the whole subtree. They are grouped by
//! length first, so that only files that share their length with another need
//! to be opened; those are fingerprinted, and reported where length and
//! fingerprint both agree with another file's.

use crate::files::{file_item, make_file_item, FileRecord};
use crate::fingerprint::fingerprint_of;
use crate::groups::{contents, group_by_key, is_class, is_grouping};
use crate::item::DiskItem;
use vstd::prelude::*;

verus! {

/// What a detection reports.
#[derive(Debug)]
pub struct DuplicateReport {
    /// The groups of probable duplicates, each as indices into the files.
    pub groups: Vec<Vec<usize>>,
    /// One entry for each member of each group, group by group, with the
    /// length that the group shares for a size.
    pub items: Vec<DiskItem>,
}

/// The key under which files of length `len` and fingerprint `print` meet.
pub open spec fn duplicate_key(len: u64, print: u64) -> u128 {
    (len * 0x1_0000_0000_0000_0000 + print) as u128
}

/// For each file its length as a key.
pub open spec fn size_keys(files: Seq<FileRecord>) -> Seq<Option<u128>> {
    Seq::new(files.len(), |i: int| Some(files[i].len as u128))
}

/// For each file its key: length and fingerprint, where `prints` holds a
/// fingerprint for it, and none otherwise.
pub open spec fn duplicate_keys(files: Seq<FileRecord>, prints: Seq<Option<u64>>) -> Seq<
    Option<u128>,
> {
    Seq::new(
        files.len(),
        |i: int|
            if i < prints.len() && prints[i] is Some {
                Some(duplicate_key(files[i].len, prints[i]->0))
            } else {
                None
            },
    )
}

/// The members of the groups, group by group.
pub open spec fn members_of(groups: Seq<Seq<usize>>) -> Seq<usize>
    decreases groups.len(),
{
    if groups.len() == 0 {
        Seq::empty()
    } else {
        members_of(groups.drop_last()) + groups.last()
    }
}

/// The entries for the members of `groups`, group by group.
pub open spec fn duplicate_items(files: Seq<FileRecord>, groups: Seq<Seq<usize>>) -> Seq<DiskItem> {
    members_of(groups).map_values(|i: usize| file_item(files[i as int]))
}

/// Two keys are one only where lengths and fingerprints are.
pub proof fn lemma_duplicate_key_injective(len: u64, print: u64, other_len: u64, other_print: u64)
    requires
        duplicate_key(len, print) == duplicate_key(other_len, other_print),
    ensures
        len == other_len,
        print == other_print,
{
}

/// No group has one member alone: every group of a report holds two files or
/// more, and every member has the length and the fingerprint of the group's
/// first.
pub proof fn lemma_groups_share_length_and_fingerprint(
    files: Seq<FileRecord>,
    prints: Seq<Option<u64>>,
    groups: Seq<Seq<usize>>,
    g: int,
    m: int,
)
    requires
        is_grouping(duplicate_keys(files, prints), groups),
        0 <= g < groups.len(),
        0 <= m < groups[g].len(),
    ensures
        groups[g].len() >= 2,
        groups[g][m] < files.len(),
        groups[g][m] < prints.len(),
        files[groups[g][m] as int].len == files[groups[g][0] as int].len,
        prints[groups[g][m] as int] is Some,
        prints[groups[g][m] as int] == prints[groups[g][0] as int],
{
    let keys = duplicate_keys(files, prints);
    let group = groups[g];
    assert(is_class(keys, group, keys.len() as int));
    let first = group[0] as int;
    let member = group[m] as int;
    assert(keys[member] == keys[first]);
    lemma_duplicate_key_injective(
        files[member].len,
        prints[member]->0,
        files[first].len,
        prints[first]->0,
    );
}

/// Where every fingerprint at hand is that of its file's content, the members
/// of a group agree in length and in the two windows' hash: the report never
/// pairs files that differ in either.
pub proof fn lemma_groups_share_window_hash(
    files: Seq<FileRecord>,
    contents_of: Seq<Seq<u8>>,
    prints: Seq<Option<u64>>,
    groups: Seq<Seq<usize>>,
    g: int,
    m: int,
)
    requires
        is_grouping(duplicate_keys(files, prints), groups),
        contents_of.len() == files.len(),
        forall|i: int|
            0 <= i < files.len() && i < prints.len() && (#[trigger] prints[i]) is Some
                ==> prints[i]->0 == fingerprint_of(contents_of[i]),
        0 <= g < groups.len(),
        0 <= m < groups[g].len(),
    ensures
        groups[g].len() >= 2,
        files[groups[g][m] as int].len == files[groups[g][0] as int].len,
        fingerprint_of(contents_of[groups[g][m] as int]) == fingerprint_of(
            contents_of[groups[g][0] as int],
        ),
{
    lemma_groups_share_length_and_fingerprint(files, prints, groups, g, m);
    lemma_groups_share_length_and_fingerprint(files, prints, groups, g, 0);
}

/// The groups of files that share their length with another: the files to
/// fingerprint. A file alone in its length is in no group.
pub fn size_groups(files: &Vec<FileRecord>) -> (groups: Vec<Vec<usize>>)
    ensures
        is_grouping(size_keys(files@), contents(groups@)),
{
    let mut keys: Vec<Option<u128>> = Vec::new();
    let mut i: usize = 0;
    while i < files.len()
        invariant
            i <= files.len(),
            keys@ == size_keys(files@.subrange(0, i as int)),
        decreases files.len() - i,
    {
        keys.push(Some(files[i].len as u128));
        assert(keys@ =~= size_keys(files@.subrange(0, i + 1)));
        i += 1;
    }
    assert(files@.subrange(0, files@.len() as int) =~= files@);
    group_by_key(&keys)
}

/// The probable duplicates among `files`, where `prints` holds for each file
/// that was fingerprinted its fingerprint, at the file's index. Files are
/// grouped where both length and fingerprint agree; a file without a
/// fingerprint, or alone with its length and fingerprint, is not reported.
pub fn find_duplicates(files: &Vec<FileRecord>, prints: &Vec<Option<u64>>) -> (report:
    DuplicateReport)
    ensures
        is_grouping(duplicate_keys(files@, prints@), contents(report.groups@)),
        report.items@ == duplicate_items(files@, contents(report.groups@)),
{
    let mut keys: Vec<Option<u128>> = Vec::new();
    let mut i: usize = 0;
    while i < files.len()
        invariant
            i <= files.len(),
            keys@ == duplicate_keys(files@.subrange(0, i as int), prints@),
        decreases files.len() - i,
    {
        let key: Option<u128> = if i < prints.len() {
            match prints[i] {
                Some(print) => Some(((files[i].len as u128) << 64) | (print as u128)),
                None => None,
            }
        } else {
            None
        };
        proof {
            if i < prints.len() && prints[i as int] is Some {
                let len = files[i as int].len;
                let print = prints[i as int]->0;
                assert(((len as u128) << 64) | (print as u128) == (len
                    * 0x1_0000_0000_0000_0000 + print) as u128) by (bit_vector);
            }
        }
        keys.push(key);
        assert(keys@ =~= duplicate_keys(files@.subrange(0, i + 1), prints@));
        i += 1;
    }
    assert(files@.subrange(0, files@.len() as int) =~= files@);
    let groups = group_by_key(&keys);
    let mut items: Vec<DiskItem> = Vec::new();
    let mut g: usize = 0;
    proof {
        assert(contents(groups@).subrange(0, 0) =~= Seq::<Seq<usize>>::empty());
    }
    while g < groups.len()
        invariant
            g <= groups.len(),
            keys@.len() == files@.len(),
            is_grouping(keys@, contents(groups@)),
            items@ == duplicate_items(files@, contents(groups@).subrange(0, g as int)),
        decreases groups.len() - g,
    {
        let group = &groups[g];
        let ghost before = items@;
        let ghost earlier = contents(groups@).subrange(0, g as int);
        proof {
            assert(contents(groups@)[g as int] == group@);
            assert(is_class(keys@, group@, keys@.len() as int));
        }
        let mut m: usize = 0;
        while m < group.len()
            invariant
                m <= group.len(),
                forall|n: int| 0 <= n < group@.len() ==> (#[trigger] group@[n]) < files@.len(),
                items@ == before + group@.subrange(0, m as int).map_values(
                    |i: usize| file_item(files@[i as int]),
                ),
            decreases group.len() - m,
        {
            items.push(make_file_item(&files[group[m]]));
            assert(items@ =~= before + group@.subrange(0, m + 1).map_values(
                |i: usize| file_item(files@[i as int]),
            ));
            m += 1;
        }
        proof {
            let next = contents(groups@).subrange(0, g + 1);
            assert(next.drop_last() =~= earlier);
            assert(next.last() == group@);
            assert(group@.subrange(0, group@.len() as int) =~= group@);
            assert(items@ =~= duplicate_items(files@, next));
        }
        g += 1;
    }
    assert(contents(groups@).subrange(0, groups@.len() as int) =~= contents(groups@));
    DuplicateReport { groups, items }
}

} // verus!
