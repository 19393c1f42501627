use disk_scan::aggregate::{aggregate, EntryKind, FileMeta, WalkEntry};
use disk_scan::engine::{Phase, ScanEngine};
use disk_scan::filter::FilterPolicy;
use disk_scan::inode::InodeSet;
use disk_scan::item::{DiskItem, ErrorTag, FileType};
use disk_scan::listing::{hidden, list_children, make_item, ChildEntry, ChildMeta};
use disk_scan::rank::rank;

fn meta(inode: u64, bytes: u64) -> FileMeta {
    FileMeta { inode, blocks: bytes / 100, block_size: 100, len: bytes, modified: 0 }
}

fn child_dir(root: &str, name: &str, inode: u64) -> ChildEntry {
    ChildEntry {
        name: name.to_string(),
        path: format!("{}/{}", root, name),
        meta: Ok(ChildMeta { is_directory: true, file: meta(inode, 0) }),
    }
}

fn child_file(root: &str, name: &str, inode: u64, bytes: u64) -> ChildEntry {
    ChildEntry {
        name: name.to_string(),
        path: format!("{}/{}", root, name),
        meta: Ok(ChildMeta { is_directory: false, file: meta(inode, bytes) }),
    }
}

fn walked(path: &str, inode: u64, bytes: u64) -> WalkEntry {
    WalkEntry {
        name: path.rsplit('/').next().unwrap().to_string(),
        path: path.to_string(),
        depth: 1,
        kind: EntryKind::File,
        meta: Some(meta(inode, bytes)),
    }
}

fn item(path: &str, size: u64) -> DiskItem {
    DiskItem {
        name: path.rsplit('/').next().unwrap().to_string(),
        path: path.to_string(),
        size,
        is_directory: true,
        item_count: 0,
        file_type: None,
        error: None,
    }
}

fn paths(items: &[DiskItem]) -> Vec<String> {
    items.iter().map(|i| i.path.clone()).collect()
}

#[test]
fn names_that_begin_with_a_dot_are_hidden() {
    assert!(hidden(".git"));
    assert!(hidden("."));
    assert!(!hidden("git"));
    assert!(!hidden("a.b"));
    assert!(!hidden(""));
}

#[test]
fn the_listing_leaves_out_hidden_and_noise_children() {
    let children = vec![
        child_dir("/r", ".config", 1),
        child_dir("/r", "node_modules", 2),
        child_dir("/r", "src", 3),
        child_file("/r", "notes.txt", 4, 4200),
        child_file("/r", ".hidden.txt", 5, 100),
    ];
    let items = list_children(&children, FilterPolicy::new(true));
    assert_eq!(paths(&items), vec!["/r/src", "/r/notes.txt"]);
    let unfiltered = list_children(&children, FilterPolicy::new(false));
    assert_eq!(paths(&unfiltered), vec!["/r/node_modules", "/r/src", "/r/notes.txt"]);
}

#[test]
fn a_listed_file_has_its_allocation_and_type_and_a_directory_waits() {
    let file = make_item(&child_file("/r", "clip.mov", 9, 12300));
    assert_eq!(file.name, "clip.mov");
    assert_eq!(file.path, "/r/clip.mov");
    assert_eq!(file.size, 12300);
    assert!(!file.is_directory);
    assert_eq!(file.item_count, 0);
    assert_eq!(file.file_type, Some(FileType::Video));
    assert_eq!(file.error, None);
    let dir = make_item(&child_dir("/r", "Music", 10));
    assert_eq!(dir.size, 0);
    assert!(dir.is_directory);
    assert_eq!(dir.file_type, None);
    assert_eq!(dir.error, None);
}

#[test]
fn a_child_without_metadata_is_listed_with_its_error() {
    for tag in [ErrorTag::PermissionDenied, ErrorTag::NotFound, ErrorTag::Io] {
        let child = ChildEntry { name: "locked".to_string(), path: "/r/locked".to_string(), meta: Err(tag) };
        let items = list_children(&vec![child], FilterPolicy::new(true));
        assert_eq!(items.len(), 1);
        assert_eq!(items[0].error, Some(tag));
        assert_eq!(items[0].size, 0);
        assert!(!items[0].is_directory);
        assert_eq!(items[0].file_type, None);
    }
}

#[test]
fn ranking_is_by_weight_then_size_and_stable() {
    let items = vec![
        item("/r/small", 10),
        item("/r/big", 900),
        item("/r/Documents", 5),
        item("/r/twin_a", 50),
        item("/r/Downloads", 70),
        item("/r/twin_b", 50),
        item("/r/Desktop", 5),
    ];
    let ranked = rank(items);
    assert_eq!(
        paths(&ranked),
        vec!["/r/Downloads", "/r/Documents", "/r/Desktop", "/r/big", "/r/twin_a", "/r/twin_b", "/r/small"]
    );
}

#[test]
fn ranking_nothing_gives_nothing() {
    assert_eq!(rank(Vec::new()).len(), 0);
    let one = rank(vec![item("/r/a", 1)]);
    assert_eq!(paths(&one), vec!["/r/a"]);
}

#[test]
fn a_ranking_never_puts_a_lighter_or_smaller_item_first() {
    let mut items = Vec::new();
    let names = ["Downloads", "a", "b", "Music", "c", "d", "Pictures", "e"];
    for (n, name) in names.iter().enumerate() {
        items.push(item(&format!("/r/{}{}", name, n), ((n * 37) % 11) as u64));
    }
    let ranked = rank(items);
    assert_eq!(ranked.len(), names.len());
    for pair in ranked.windows(2) {
        let (first, second) = (&pair[0], &pair[1]);
        let (wf, ws) = (disk_scan::filter::priority(&first.path), disk_scan::filter::priority(&second.path));
        assert!(wf >= ws);
        if wf == ws {
            assert!(first.size >= second.size);
        }
    }
}

#[test]
fn downloads_is_aggregated_and_ranked_first_and_node_modules_left_out() {
    let children = vec![
        child_dir("/root", "node_modules", 1),
        child_dir("/root", "projects", 2),
        child_dir("/root", "Downloads", 3),
        child_dir("/root", "tiny", 4),
    ];
    let mut engine = ScanEngine::new(FilterPolicy::new(true));
    assert!(engine.begin().is_some());
    let listed = engine.listing_read(&children, 3).unwrap();
    assert_eq!(listed.total, 3);
    assert_eq!(engine.task_count(), 3);
    let mut inodes = InodeSet::new();
    let policy = FilterPolicy::new(true);
    let downloads = vec![walked("/root/Downloads/a.iso", 11, 5000), walked("/root/Downloads/b.iso", 12, 100000)];
    let projects = vec![walked("/root/projects/x", 13, 105000)];
    let tiny = vec![walked("/root/tiny/y", 14, 300)];
    assert_eq!(engine.task_path(0).unwrap(), "/root/projects");
    assert_eq!(engine.task_path(1).unwrap(), "/root/Downloads");
    assert_eq!(engine.task_path(2).unwrap(), "/root/tiny");
    let size = aggregate(&downloads, policy, &mut inodes);
    assert_eq!(size, 105000);
    assert!(engine.child_done(1, size, 10).is_some());
    assert!(engine.child_done(2, aggregate(&tiny, policy, &mut inodes), 11).is_some());
    assert!(engine.child_done(0, aggregate(&projects, policy, &mut inodes), 12).is_some());
    let end = engine.finish(13).unwrap();
    let items = end.result.items;
    assert_eq!(paths(&items), vec!["/root/Downloads", "/root/projects", "/root/tiny"]);
    assert_eq!(items[0].size, 105000);
    assert_eq!(items[0].name, "Downloads");
    assert!(items.iter().all(|i| !i.path.contains("node_modules")));
}

#[test]
fn the_percents_of_a_scan_never_fall_and_end_at_100() {
    for dirs in 0..9usize {
        let mut children = Vec::new();
        for n in 0..dirs {
            children.push(child_dir("/r", &format!("d{}", n), n as u64));
        }
        children.push(child_file("/r", "f", 99, 100));
        let mut engine = ScanEngine::new(FilterPolicy::default());
        let mut percents = vec![engine.begin().unwrap().percent];
        percents.push(engine.listing_read(&children, 1).unwrap().percent);
        for n in (0..dirs).rev() {
            percents.push(engine.child_done(n, 10, 2).unwrap().percent);
        }
        let end = engine.finish(3).unwrap();
        percents.push(end.event.percent);
        assert_eq!(percents[0], 0);
        assert_eq!(percents[1], 20);
        assert_eq!(percents.len(), dirs + 3);
        assert!(percents.windows(2).all(|w| w[0] <= w[1]));
        assert!(percents[..percents.len() - 1].iter().all(|p| *p <= 95));
        assert_eq!(*percents.last().unwrap(), 100);
        assert_eq!(engine.current_phase(), Phase::Done);
    }
}

#[test]
fn the_scan_reports_progress_with_counts_label_and_estimate() {
    let children = vec![child_dir("/r", "a", 1), child_dir("/r", "b", 2), child_dir("/r", "c", 3), child_dir("/r", "d", 4)];
    let mut engine = ScanEngine::new(FilterPolicy::default());
    let start = engine.begin().unwrap();
    assert_eq!((start.percent, start.current, start.total), (0, 0, 0));
    assert_eq!(start.label, "listing");
    let listed = engine.listing_read(&children, 40).unwrap();
    assert_eq!((listed.percent, listed.current, listed.total), (20, 0, 4));
    assert_eq!(listed.label, "listed");
    assert_eq!(listed.elapsed_ms, 40);
    let first = engine.child_done(2, 77, 1000).unwrap();
    assert_eq!((first.percent, first.current, first.total), (38, 1, 4));
    assert_eq!(first.label, "c");
    assert_eq!(first.elapsed_ms, 1000);
    assert_eq!(first.remaining_ms, 3000);
    let second = engine.child_done(0, 5, 1500).unwrap();
    assert_eq!((second.percent, second.current, second.remaining_ms), (57, 2, 1500));
    assert_eq!(engine.child_done(1, 5, 1600).unwrap().percent, 76);
    assert_eq!(engine.current_phase(), Phase::AggregatingChildren);
    let last = engine.child_done(3, 5, 1700).unwrap();
    assert_eq!((last.percent, last.current, last.remaining_ms), (95, 4, 0));
    assert_eq!(engine.current_phase(), Phase::Ranking);
    let end = engine.finish(1800).unwrap();
    assert_eq!((end.event.percent, end.event.current, end.event.total), (100, 4, 4));
    assert_eq!(end.event.label, "complete");
    assert_eq!(end.event.elapsed_ms, 1800);
    let sizes: Vec<u64> = end.result.items.iter().map(|i| i.size).collect();
    assert_eq!(sizes, vec![77, 5, 5, 5]);
    assert_eq!(paths(&end.result.items), vec!["/r/c", "/r/a", "/r/b", "/r/d"]);
}

#[test]
fn an_empty_root_is_ranked_at_once() {
    let mut engine = ScanEngine::new(FilterPolicy::default());
    assert_eq!(engine.current_phase(), Phase::Idle);
    engine.begin().unwrap();
    assert_eq!(engine.current_phase(), Phase::ListingTopLevel);
    let listed = engine.listing_read(&Vec::new(), 0).unwrap();
    assert_eq!(listed.percent, 20);
    assert_eq!(listed.total, 0);
    assert_eq!(engine.current_phase(), Phase::Ranking);
    assert_eq!(engine.task_count(), 0);
    let end = engine.finish(1).unwrap();
    assert_eq!(end.result.items.len(), 0);
    assert_eq!(end.event.percent, 100);
    assert_eq!(engine.current_phase(), Phase::Done);
}

#[test]
fn a_root_that_cannot_be_listed_fails_the_scan() {
    let mut engine = ScanEngine::new(FilterPolicy::default());
    assert!(engine.listing_failed(ErrorTag::NotFound, "early").is_none());
    engine.begin().unwrap();
    let failure = engine.listing_failed(ErrorTag::PermissionDenied, "permission denied (os error 13)").unwrap();
    assert_eq!(failure.tag, ErrorTag::PermissionDenied);
    assert_eq!(failure.message, "读取目录失败: permission denied (os error 13)");
    assert_eq!(engine.current_phase(), Phase::Failed);
    assert!(engine.begin().is_none());
    assert!(engine.listing_read(&Vec::new(), 0).is_none());
    assert!(engine.child_done(0, 1, 1).is_none());
    assert!(engine.finish(1).is_none());
    assert!(engine.listing_failed(ErrorTag::Io, "again").is_none());
    assert_eq!(engine.current_phase(), Phase::Failed);
}

#[test]
fn reports_out_of_turn_change_nothing() {
    let children = vec![child_dir("/r", "a", 1), child_dir("/r", "b", 2)];
    let mut engine = ScanEngine::new(FilterPolicy::default());
    assert!(engine.finish(0).is_none());
    assert!(engine.child_done(0, 1, 1).is_none());
    assert!(engine.listing_read(&children, 0).is_none());
    assert!(engine.task_path(0).is_none());
    assert_eq!(engine.current_phase(), Phase::Idle);
    engine.begin().unwrap();
    assert!(engine.begin().is_none());
    engine.listing_read(&children, 0).unwrap();
    assert!(engine.finish(0).is_none());
    assert!(engine.child_done(2, 1, 1).is_none());
    assert!(engine.task_path(2).is_none());
    assert_eq!(engine.child_done(1, 500, 1).unwrap().percent, 57);
    assert!(engine.child_done(1, 900, 2).is_none());
    assert!(engine.task_path(1).is_none());
    assert_eq!(engine.task_path(0).unwrap(), "/r/a");
    engine.child_done(0, 1, 3).unwrap();
    assert!(engine.child_done(0, 1, 4).is_none());
    let end = engine.finish(5).unwrap();
    assert_eq!(end.result.items[0].size, 500);
    assert!(engine.finish(6).is_none());
    assert!(engine.begin().is_none());
}
