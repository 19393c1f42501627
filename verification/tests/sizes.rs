use disk_scan::aggregate::{
    aggregate, allocation, EntryKind, FileMeta, SizeAggregator, WalkEntry, MAX_DEPTH,
};
use disk_scan::filter::FilterPolicy;
use disk_scan::inode::InodeSet;
use disk_scan::progress::{
    batch_event, batch_percent, complete_event, estimate_remaining, scan_percent,
};

fn file(path: &str, inode: u64, blocks: u64, block_size: u64) -> WalkEntry {
    WalkEntry {
        name: path.rsplit('/').next().unwrap().to_string(),
        path: path.to_string(),
        depth: 1,
        kind: EntryKind::File,
        meta: Some(FileMeta { inode, blocks, block_size, len: blocks.wrapping_mul(block_size), modified: 0 }),
    }
}

#[test]
fn an_inode_is_new_once() {
    let mut set = InodeSet::new();
    assert_eq!(set.len(), 0);
    assert!(!set.contains(7));
    assert!(!set.mark_and_check(7));
    assert!(set.contains(7));
    assert!(set.mark_and_check(7));
    assert!(set.mark_and_check(7));
    assert!(!set.mark_and_check(8));
    assert_eq!(set.len(), 2);
}

#[test]
fn allocation_is_blocks_times_block_size() {
    let meta = FileMeta { inode: 1, blocks: 8, block_size: 512, len: 100, modified: 0 };
    assert_eq!(allocation(&meta), 4096);
    let sparse = FileMeta { inode: 1, blocks: 0, block_size: 512, len: 1 << 30, modified: 0 };
    assert_eq!(allocation(&sparse), 0);
    let huge = FileMeta { inode: 1, blocks: u64::MAX, block_size: 512, len: 0, modified: 0 };
    assert_eq!(allocation(&huge), u64::MAX);
}

#[test]
fn hard_links_are_counted_once() {
    let policy = FilterPolicy::new(true);
    for links in 1..6usize {
        let mut entries = vec![file("/r/other", 1, 3, 512)];
        for n in 0..links {
            entries.push(file(&format!("/r/link{}", n), 42, 8, 512));
        }
        let mut inodes = InodeSet::new();
        assert_eq!(aggregate(&entries, policy, &mut inodes), 3 * 512 + 8 * 512);
        assert_eq!(inodes.len(), 2);
    }
}

#[test]
fn hard_links_across_directories_are_counted_once_per_scan() {
    let policy = FilterPolicy::new(true);
    let first = vec![file("/r/a/x", 5, 2, 512), file("/r/a/y", 6, 2, 512)];
    let second = vec![file("/r/b/x", 5, 2, 512), file("/r/b/z", 7, 4, 512)];
    let mut shared = InodeSet::new();
    let a = aggregate(&first, policy, &mut shared);
    let b = aggregate(&second, policy, &mut shared);
    assert_eq!(a, 2048);
    assert_eq!(b, 2048);
    let mut other_order = InodeSet::new();
    let b_first = aggregate(&second, policy, &mut other_order);
    let a_second = aggregate(&first, policy, &mut other_order);
    assert_eq!(b_first, 3072);
    assert_eq!(a_second, 1024);
    assert_eq!(a + b, b_first + a_second);
}

#[test]
fn filtered_files_add_nothing_and_are_not_recorded() {
    let entries = vec![
        file("/r/node_modules/pkg/index.js", 1, 10, 512),
        file("/r/src/main.rs", 2, 1, 512),
    ];
    let mut inodes = InodeSet::new();
    assert_eq!(aggregate(&entries, FilterPolicy::new(true), &mut inodes), 512);
    assert!(!inodes.contains(1));
    assert!(inodes.contains(2));
    let mut unfiltered = InodeSet::new();
    assert_eq!(aggregate(&entries, FilterPolicy::new(false), &mut unfiltered), 11 * 512);
}

#[test]
fn only_regular_files_with_metadata_within_the_depth_bound_count() {
    assert_eq!(MAX_DEPTH, 10);
    let mut deep = file("/r/a/deep", 1, 1, 512);
    deep.depth = 11;
    let mut edge = file("/r/a/edge", 2, 1, 512);
    edge.depth = 10;
    let mut dir = file("/r/a", 3, 1, 512);
    dir.kind = EntryKind::Directory;
    let mut link = file("/r/l", 4, 1, 512);
    link.kind = EntryKind::Symlink;
    let mut socket = file("/r/s", 5, 1, 512);
    socket.kind = EntryKind::Other;
    let mut unreadable = file("/r/u", 6, 1, 512);
    unreadable.meta = None;
    let entries = vec![deep, edge, dir, link, socket, unreadable];
    let mut inodes = InodeSet::new();
    assert_eq!(aggregate(&entries, FilterPolicy::new(true), &mut inodes), 512);
    assert_eq!(inodes.len(), 1);
    assert!(inodes.contains(2));
}

#[test]
fn the_total_saturates() {
    let entries = vec![file("/r/a", 1, u64::MAX, 1), file("/r/b", 2, 5, 1)];
    let mut inodes = InodeSet::new();
    assert_eq!(aggregate(&entries, FilterPolicy::new(true), &mut inodes), u64::MAX);
}

#[test]
fn an_empty_walk_totals_zero() {
    let mut inodes = InodeSet::new();
    assert_eq!(aggregate(&Vec::new(), FilterPolicy::new(true), &mut inodes), 0);
    assert_eq!(inodes.len(), 0);
}

#[test]
fn entries_can_be_added_one_by_one() {
    let mut walk = SizeAggregator::new(FilterPolicy::new(true));
    let mut inodes = InodeSet::new();
    assert_eq!(walk.total(), 0);
    walk.add(&file("/r/a", 1, 2, 512), &mut inodes);
    assert_eq!(walk.total(), 1024);
    walk.add(&file("/r/b", 1, 2, 512), &mut inodes);
    assert_eq!(walk.total(), 1024);
    walk.add(&file("/r/.git/c", 2, 2, 512), &mut inodes);
    assert_eq!(walk.total(), 1024);
    walk.add(&file("/r/d", 3, 1, 512), &mut inodes);
    assert_eq!(walk.total(), 1536);
}

#[test]
fn scan_percent_runs_from_20_to_95() {
    assert_eq!(scan_percent(0, 4), 20);
    assert_eq!(scan_percent(1, 4), 38);
    assert_eq!(scan_percent(2, 4), 57);
    assert_eq!(scan_percent(3, 4), 76);
    assert_eq!(scan_percent(4, 4), 95);
    assert_eq!(scan_percent(1, 3), 45);
    assert_eq!(scan_percent(2, 3), 70);
    assert_eq!(scan_percent(9, 4), 95);
    assert_eq!(scan_percent(usize::MAX, 1), 95);
}

#[test]
fn no_directories_count_as_one() {
    assert_eq!(scan_percent(0, 0), 20);
    assert_eq!(scan_percent(1, 0), 95);
}

#[test]
fn batch_percent_is_the_share_done() {
    assert_eq!(batch_percent(0, 3), 0);
    assert_eq!(batch_percent(1, 3), 33);
    assert_eq!(batch_percent(2, 3), 66);
    assert_eq!(batch_percent(3, 3), 100);
    assert_eq!(batch_percent(4, 3), 100);
    assert_eq!(batch_percent(0, 0), 100);
    assert_eq!(batch_percent(usize::MAX - 1, usize::MAX), 99);
}

#[test]
fn the_estimate_extrapolates_the_rate_so_far() {
    assert_eq!(estimate_remaining(1, 4, 1000), 3000);
    assert_eq!(estimate_remaining(2, 4, 1000), 1000);
    assert_eq!(estimate_remaining(3, 4, 1000), 333);
    assert_eq!(estimate_remaining(4, 4, 1000), 0);
    assert_eq!(estimate_remaining(0, 4, 1000), 0);
    assert_eq!(estimate_remaining(5, 4, 1000), 0);
    assert_eq!(estimate_remaining(1, 4, 0), 0);
    assert_eq!(estimate_remaining(1, 3, u64::MAX), u64::MAX);
}

#[test]
fn events_carry_their_figures() {
    let event = batch_event(1, 4, "group".to_string(), 500);
    assert_eq!(event.percent, 25);
    assert_eq!(event.current, 1);
    assert_eq!(event.total, 4);
    assert_eq!(event.label, "group");
    assert_eq!(event.elapsed_ms, 500);
    assert_eq!(event.remaining_ms, 1500);
    let end = complete_event(4, 900);
    assert_eq!(end.percent, 100);
    assert_eq!(end.current, 4);
    assert_eq!(end.total, 4);
    assert_eq!(end.label, "complete");
    assert_eq!(end.elapsed_ms, 900);
    assert_eq!(end.remaining_ms, 0);
}
