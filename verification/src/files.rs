//! The files that a walk of a whole subtree hands to the scans that look at
//! single files: by logical length, not by allocation.

use crate::aggregate::{EntryKind, WalkEntry};
use crate::classify::{classify, file_type_of};
use crate::item::DiskItem;
use vstd::prelude::*;
use vstd::utf8::encode_utf8;

verus! {

/// One regular file met on the walk.
#[derive(Debug)]
pub struct FileRecord {
    pub name: String,
    pub path: String,
    /// The logical length of the file, in bytes.
    pub len: u64,
    /// When the file was last modified, in seconds since the epoch.
    pub modified: u64,
}

/// Whether `entry` is a regular file whose metadata was read.
pub open spec fn is_regular(entry: WalkEntry) -> bool {
    entry.kind == EntryKind::File && entry.meta is Some
}

/// The record of the regular file `entry`.
pub open spec fn record_of(entry: WalkEntry) -> FileRecord {
    FileRecord {
        name: entry.name,
        path: entry.path,
        len: entry.meta->0.len,
        modified: entry.meta->0.modified,
    }
}

/// The records of the regular files among `entries`, in their order.
pub open spec fn records_of(entries: Seq<WalkEntry>) -> Seq<FileRecord> {
    entries.filter(|entry: WalkEntry| is_regular(entry)).map_values(
        |entry: WalkEntry| record_of(entry),
    )
}

/// The entry that reports `file`: its logical length for a size, and its
/// type by its name.
pub open spec fn file_item(file: FileRecord) -> DiskItem {
    DiskItem {
        name: file.name,
        path: file.path,
        size: file.len,
        is_directory: false,
        item_count: 0,
        file_type: Some(file_type_of(encode_utf8(file.path@))),
        error: None,
    }
}

/// The entry that reports `file`.
pub fn make_file_item(file: &FileRecord) -> (item: DiskItem)
    ensures
        item == file_item(*file),
{
    DiskItem {
        name: file.name.clone(),
        path: file.path.clone(),
        size: file.len,
        is_directory: false,
        item_count: 0,
        file_type: Some(classify(file.path.as_str())),
        error: None,
    }
}

/// The records of the regular files among the entries of a walk. Whatever is
/// no regular file, or could not be read, is left out.
pub fn file_records(entries: &Vec<WalkEntry>) -> (files: Vec<FileRecord>)
    ensures
        files@ == records_of(entries@),
{
    let mut files: Vec<FileRecord> = Vec::new();
    let mut i: usize = 0;
    proof {
        reveal(Seq::filter);
        assert(entries@.subrange(0, 0) =~= Seq::<WalkEntry>::empty());
        assert(files@ =~= records_of(entries@.subrange(0, 0)));
    }
    while i < entries.len()
        invariant
            i <= entries.len(),
            files@ == records_of(entries@.subrange(0, i as int)),
        decreases entries.len() - i,
    {
        let entry = &entries[i];
        proof {
            reveal(Seq::filter);
            let regular = |entry: WalkEntry| is_regular(entry);
            let before = entries@.subrange(0, i as int);
            let next = entries@.subrange(0, i + 1);
            assert(next.drop_last() =~= before);
            assert(next.last() == *entry);
            if is_regular(*entry) {
                assert(next.filter(regular) == before.filter(regular).push(*entry));
                assert(records_of(next) =~= records_of(before).push(record_of(*entry)));
            } else {
                assert(next.filter(regular) == before.filter(regular));
            }
        }
        match entry.kind {
            EntryKind::File => {
                if let Some(meta) = &entry.meta {
                    files.push(
                        FileRecord {
                            name: entry.name.clone(),
                            path: entry.path.clone(),
                            len: meta.len,
                            modified: meta.modified,
                        },
                    );
                }
            },
            _ => {},
        }
        i += 1;
    }
    proof {
        assert(entries@.subrange(0, entries@.len() as int) =~= entries@);
    }
    files
}

} // verus!
