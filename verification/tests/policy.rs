use disk_scan::classify::{classify, classify_extension};
use disk_scan::filter::{
    matches_noise, noise_table, priority, FilterPolicy, PatternKind, PRIORITY_BASELINE,
    PRIORITY_ELEVATED,
};
use disk_scan::item::FileType;
use disk_scan::lexical::{contains, has_suffix, last_component_index, lower_byte, matches_at, find_from};
use disk_scan::pool::{assumed_medium, concurrency_on, optimal_concurrency, StorageMedium};

#[test]
fn concurrency_is_one_and_a_half_per_core_and_at_least_four() {
    assert_eq!(optimal_concurrency(0), 4);
    assert_eq!(optimal_concurrency(1), 4);
    assert_eq!(optimal_concurrency(2), 4);
    assert_eq!(optimal_concurrency(3), 4);
    assert_eq!(optimal_concurrency(4), 6);
    assert_eq!(optimal_concurrency(5), 7);
    assert_eq!(optimal_concurrency(8), 12);
    assert_eq!(optimal_concurrency(64), 96);
}

#[test]
fn concurrency_saturates_where_the_count_does_not_fit() {
    assert_eq!(optimal_concurrency(usize::MAX), usize::MAX);
    assert_eq!(concurrency_on(usize::MAX, StorageMedium::Rotational), usize::MAX / 2);
}

#[test]
fn rotational_storage_gets_half_a_worker_per_core_and_at_least_two() {
    assert_eq!(concurrency_on(0, StorageMedium::Rotational), 2);
    assert_eq!(concurrency_on(1, StorageMedium::Rotational), 2);
    assert_eq!(concurrency_on(4, StorageMedium::Rotational), 2);
    assert_eq!(concurrency_on(5, StorageMedium::Rotational), 2);
    assert_eq!(concurrency_on(6, StorageMedium::Rotational), 3);
    assert_eq!(concurrency_on(16, StorageMedium::Rotational), 8);
}

#[test]
fn scans_assume_solid_state_storage() {
    assert_eq!(assumed_medium(), StorageMedium::SolidState);
    assert_eq!(concurrency_on(8, assumed_medium()), optimal_concurrency(8));
}

#[test]
fn bytes_are_found_where_they_stand() {
    assert!(contains(b"/home/user/project", b"user"));
    assert!(contains(b"abc", b""));
    assert!(contains(b"", b""));
    assert!(!contains(b"", b"a"));
    assert!(!contains(b"abc", b"abcd"));
    assert!(!contains(b"/home/user", b"User"));
    assert!(has_suffix(b"/a/b/target", b"/target"));
    assert!(!has_suffix(b"/a/b/target/x", b"/target"));
    assert!(!has_suffix(b"et", b"/target"));
    assert!(matches_at(b"xxabc", b"abc", 2, false));
    assert!(!matches_at(b"xxabc", b"abc", 3, false));
    assert!(!matches_at(b"xxabc", b"abc", 9, false));
}

#[test]
fn folding_lowers_ascii_letters_only() {
    assert_eq!(lower_byte(b'A'), b'a');
    assert_eq!(lower_byte(b'Z'), b'z');
    assert_eq!(lower_byte(b'a'), b'a');
    assert_eq!(lower_byte(b'@'), b'@');
    assert_eq!(lower_byte(b'['), b'[');
    assert_eq!(lower_byte(0xC9), 0xC9);
    assert!(matches_at(b"DownLoads", b"downloads", 0, true));
    assert!(!matches_at(b"DownLoads", b"downloads", 0, false));
    assert!(find_from(b"My DOCUMENTS", b"documents", 0, true));
    assert!(!find_from(b"My DOCUMENTS", b"documents", 4, true));
    assert!(!find_from(b"abc", b"b", 7, false));
}

#[test]
fn the_last_component_follows_the_last_separator() {
    assert_eq!(last_component_index(b"/home/user/file.txt"), 11);
    assert_eq!(last_component_index(b"file.txt"), 0);
    assert_eq!(last_component_index(b"/home/user/"), 11);
    assert_eq!(last_component_index(b""), 0);
    assert_eq!(last_component_index(b"/"), 1);
}

#[test]
fn noise_directories_are_skipped() {
    let policy = FilterPolicy::new(true);
    assert!(policy.should_skip("/home/user/app/node_modules"));
    assert!(policy.should_skip("/home/user/app/node_modules/left-pad/index.js"));
    assert!(policy.should_skip("/repo/.git"));
    assert!(policy.should_skip("/repo/.git/objects/ab/cdef"));
    assert!(policy.should_skip("/py/__pycache__/m.pyc"));
    assert!(policy.should_skip("/proj/.idea/workspace.xml"));
    assert!(policy.should_skip("/proj/target/debug/app"));
    assert!(policy.should_skip("/proj/dist"));
    assert!(!policy.should_skip("/home/user/Documents/report.pdf"));
    assert!(!policy.should_skip("/home/user/node_modules_backup/x"));
    assert!(!policy.should_skip("/home/user/rebuild/x"));
    assert!(!policy.should_skip("node_modules"));
}

#[test]
fn a_file_whose_name_matches_is_skipped_like_a_directory() {
    let policy = FilterPolicy::new(true);
    assert!(policy.should_skip("/home/user/notes/build"));
    assert!(policy.should_skip("/home/user/build/notes.txt"));
    assert!(matches_noise("/home/user/notes/build"));
}

#[test]
fn a_disabled_policy_skips_nothing() {
    let policy = FilterPolicy::new(false);
    assert!(!policy.should_skip("/home/user/app/node_modules"));
    assert!(!policy.should_skip("/repo/.git/config"));
    assert!(matches_noise("/repo/.git/config"));
}

#[test]
fn filtering_is_on_by_default() {
    let policy = FilterPolicy::default();
    assert!(policy.enabled);
    assert!(policy.should_skip("/a/node_modules"));
}

#[test]
fn should_skip_gives_the_same_answer_twice() {
    let policy = FilterPolicy::new(true);
    for path in ["/a/node_modules/b", "/a/b/c", "", "/", "/x/.cache", "/x/cache"] {
        let first = policy.should_skip(path);
        let second = policy.should_skip(path);
        assert_eq!(first, second);
    }
    let off = FilterPolicy::new(false);
    assert_eq!(off.should_skip("/a/node_modules/b"), off.should_skip("/a/node_modules/b"));
}

#[test]
fn the_noise_table_pairs_a_suffix_with_a_substring() {
    let table = noise_table();
    assert_eq!(table.len(), 26);
    assert_eq!(table[0].kind, PatternKind::Suffix);
    assert_eq!(table[0].text, "/node_modules");
    assert_eq!(table[1].kind, PatternKind::Substring);
    assert_eq!(table[1].text, "/node_modules/");
    assert_eq!(table[25].text, "/dist/");
}

#[test]
fn user_content_weighs_more() {
    assert_eq!(PRIORITY_ELEVATED, 10);
    assert_eq!(PRIORITY_BASELINE, 1);
    assert_eq!(priority("/home/user/Downloads"), 10);
    assert_eq!(priority("/home/user/downloads"), 10);
    assert_eq!(priority("/home/user/My Documents"), 10);
    assert_eq!(priority("/Users/u/Desktop"), 10);
    assert_eq!(priority("/Users/u/Pictures"), 10);
    assert_eq!(priority("/Users/u/Movies"), 10);
    assert_eq!(priority("/Users/u/Music"), 10);
    assert_eq!(priority("/Users/u/Videos"), 10);
    assert_eq!(priority("/Users/u/Library"), 1);
    assert_eq!(priority("/Users/u/Downloads/file.bin"), 1);
    assert_eq!(priority("/Users/u/Downloads/"), 1);
    assert_eq!(priority(""), 1);
}

#[test]
fn extensions_map_to_types() {
    assert_eq!(classify("movie.mp4"), FileType::Video);
    assert_eq!(classify("MOVIE.MP4"), FileType::Video);
    assert_eq!(classify("song.flac"), FileType::Audio);
    assert_eq!(classify("photo.JPeG"), FileType::Image);
    assert_eq!(classify("report.pdf"), FileType::Document);
    assert_eq!(classify("backup.tar.gz"), FileType::Archive);
    assert_eq!(classify("setup.exe"), FileType::Application);
    assert_eq!(classify("session.tmp"), FileType::Cache);
    assert_eq!(classify("/home/user/docs/notes.md"), FileType::Document);
}

#[test]
fn unknown_or_missing_extensions_are_other() {
    assert_eq!(classify("README"), FileType::Other);
    assert_eq!(classify("data.xyz"), FileType::Other);
    assert_eq!(classify(".zip"), FileType::Other);
    assert_eq!(classify("trailing."), FileType::Other);
    assert_eq!(classify(""), FileType::Other);
    assert_eq!(classify("/home/user.mp4/file"), FileType::Other);
    assert_eq!(classify_extension(b""), FileType::Other);
    assert_eq!(classify_extension(b"mp44"), FileType::Other);
    assert_eq!(classify_extension(b"Zip"), FileType::Archive);
}
