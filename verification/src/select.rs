//! The scans that pick single files: the large ones, and the old ones.
//! Both go by the logical length of a file, and rank what they pick.

use crate::files::{file_item, make_file_item, FileRecord};
use crate::item::{DiskItem, ScanResult};
use crate::rank::{is_ranking_of, rank};
use vstd::prelude::*;

verus! {

/// The number of bytes in a megabyte.
pub const MEGABYTE: u64 = 1_048_576;

/// The number of seconds in a day.
pub const DAY: u64 = 86_400;

/// Whether `file` holds more than `threshold_mb` megabytes.
pub open spec fn is_large(file: FileRecord, threshold_mb: u64) -> bool {
    file.len > threshold_mb * MEGABYTE
}

/// Whether `file` was last modified more than `days` days before `now`, a
/// time in seconds since the epoch.
pub open spec fn is_old(file: FileRecord, now: u64, days: u64) -> bool {
    file.modified + days * DAY < now
}

/// The files of more than `threshold_mb` megabytes.
pub open spec fn larger_than(threshold_mb: u64) -> spec_fn(FileRecord) -> bool {
    |file: FileRecord| is_large(file, threshold_mb)
}

/// The files last modified more than `days` days before `now`.
pub open spec fn older_than(now: u64, days: u64) -> spec_fn(FileRecord) -> bool {
    |file: FileRecord| is_old(file, now, days)
}

/// The entries for the files of `files` that `picked` holds of, in their
/// order.
pub open spec fn picked_items(files: Seq<FileRecord>, picked: spec_fn(FileRecord) -> bool) -> Seq<
    DiskItem,
> {
    files.filter(picked).map_values(|file: FileRecord| file_item(file))
}

proof fn lemma_pick_next(files: Seq<FileRecord>, picked: spec_fn(FileRecord) -> bool, i: int)
    requires
        0 <= i < files.len(),
    ensures
        picked_items(files.subrange(0, i + 1), picked) == if picked(files[i]) {
            picked_items(files.subrange(0, i), picked).push(file_item(files[i]))
        } else {
            picked_items(files.subrange(0, i), picked)
        },
{
    reveal(Seq::filter);
    let before = files.subrange(0, i);
    let next = files.subrange(0, i + 1);
    assert(next.drop_last() =~= before);
    assert(next.last() == files[i]);
    if picked(files[i]) {
        assert(next.filter(picked) == before.filter(picked).push(files[i]));
        assert(picked_items(next, picked) =~= picked_items(before, picked).push(
            file_item(files[i]),
        ));
    } else {
        assert(next.filter(picked) == before.filter(picked));
    }
}

/// Whether `file` holds more than `threshold_mb` megabytes.
pub fn large(file: &FileRecord, threshold_mb: u64) -> (over: bool)
    ensures
        over == is_large(*file, threshold_mb),
{
    let threshold: u128 = (threshold_mb as u128) * 1_048_576;
    (file.len as u128) > threshold
}

/// Whether `file` was last modified more than `days` days before `now`.
pub fn stale(file: &FileRecord, now: u64, days: u64) -> (stale: bool)
    ensures
        stale == is_old(*file, now, days),
{
    let age: u128 = (days as u128) * 86_400;
    (file.modified as u128) + age < (now as u128)
}

/// The files of `files` that hold more than `threshold_mb` megabytes, ranked.
pub fn large_files(files: &Vec<FileRecord>, threshold_mb: u64) -> (result: ScanResult)
    ensures
        is_ranking_of(result.items@, picked_items(files@, larger_than(threshold_mb))),
{
    let mut items: Vec<DiskItem> = Vec::new();
    let mut i: usize = 0;
    proof {
        reveal(Seq::filter);
        assert(files@.subrange(0, 0) =~= Seq::<FileRecord>::empty());
        assert(items@ =~= picked_items(files@.subrange(0, 0), larger_than(threshold_mb)));
    }
    while i < files.len()
        invariant
            i <= files.len(),
            items@ == picked_items(files@.subrange(0, i as int), larger_than(threshold_mb)),
        decreases files.len() - i,
    {
        proof {
            lemma_pick_next(files@, larger_than(threshold_mb), i as int);
        }
        if large(&files[i], threshold_mb) {
            items.push(make_file_item(&files[i]));
        }
        i += 1;
    }
    proof {
        assert(files@.subrange(0, files@.len() as int) =~= files@);
    }
    ScanResult { items: rank(items) }
}

/// The files of `files` last modified more than `days` days before `now`,
/// ranked.
pub fn old_files(files: &Vec<FileRecord>, now: u64, days: u64) -> (result: ScanResult)
    ensures
        is_ranking_of(result.items@, picked_items(files@, older_than(now, days))),
{
    let mut items: Vec<DiskItem> = Vec::new();
    let mut i: usize = 0;
    proof {
        reveal(Seq::filter);
        assert(files@.subrange(0, 0) =~= Seq::<FileRecord>::empty());
        assert(items@ =~= picked_items(files@.subrange(0, 0), older_than(now, days)));
    }
    while i < files.len()
        invariant
            i <= files.len(),
            items@ == picked_items(files@.subrange(0, i as int), older_than(now, days)),
        decreases files.len() - i,
    {
        proof {
            lemma_pick_next(files@, older_than(now, days), i as int);
        }
        if stale(&files[i], now, days) {
            items.push(make_file_item(&files[i]));
        }
        i += 1;
    }
    proof {
        assert(files@.subrange(0, files@.len() as int) =~= files@);
    }
    ScanResult { items: rank(items) }
}

} // verus!
