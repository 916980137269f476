use everyfile::path_table::{PathTable, DELETED_PATH_ID, ROOT_PATH_ID};
use everyfile::mft_scan::{ScanOutput, ScanProgress, ScanResult};
use everyfile::record_paths::{paths_end, resolve_paths};

#[test]
fn test_intern_and_resolve() {
    let mut table = PathTable::new();

    let id1 = table.intern("C:\\");
    let id2 = table.intern("C:\\Windows");
    let id3 = table.intern("C:\\Windows\\System32");

    assert_eq!(table.resolve_path(id1), "C:\\");
    assert_eq!(table.resolve_path(id2), "C:\\Windows");
    assert_eq!(table.resolve_path(id3), "C:\\Windows\\System32");
}

#[test]
fn test_dedup() {
    let mut table = PathTable::new();

    let id1 = table.intern("C:\\Windows\\System32");
    let id2 = table.intern("C:\\Windows\\System32");

    assert_eq!(id1, id2);
}

#[test]
fn test_shared_parent() {
    let mut table = PathTable::new();

    let id1 = table.intern("C:\\Windows\\System32\\file1.dll");
    let id2 = table.intern("C:\\Windows\\System32\\file2.dll");
    let id3 = table.intern("C:\\Windows\\System32\\subdir");

    let parent1 = table.entries[id1 as usize].parent_id;
    let parent2 = table.entries[id2 as usize].parent_id;
    let parent3 = table.entries[id3 as usize].parent_id;

    assert_eq!(parent1, parent2);
    assert_eq!(parent2, parent3);
}

#[test]
fn test_empty_path() {
    let mut table = PathTable::new();
    let id = table.intern("");
    assert_eq!(id, DELETED_PATH_ID);
}

#[test]
fn test_deep_path() {
    let mut table = PathTable::new();
    let deep_path = "C:\\a\\b\\c\\d\\e\\f\\g\\h\\i\\j\\file.txt";
    let id = table.intern(deep_path);
    assert_eq!(table.resolve_path(id), deep_path);
}

#[test]
fn file_paths_join_directory_and_name() {
    let mut table = PathTable::new();
    let id = table.intern("D:\\Work");
    assert_eq!(table.resolve_file_path(id, "a.txt"), "D:\\Work\\a.txt");
    let root = table.intern("D:\\");
    assert_eq!(table.resolve_file_path(root, "a.txt"), "D:\\a.txt");
    assert_eq!(table.resolve_file_path(ROOT_PATH_ID, "a.txt"), "a.txt");
}

#[test]
fn ordinals_follow_the_paths() {
    let mut table = PathTable::new();
    let b = table.intern("C:\\b");
    let a = table.intern("C:\\a");
    let deep = table.intern("C:\\a\\z");
    table.compute_ordinals();
    assert!(table.is_ordinal_computed(a));
    assert!(table.get_ordinal(a) < table.get_ordinal(deep));
    assert!(table.get_ordinal(deep) < table.get_ordinal(b));
    assert_eq!(table.len(), 4);
    assert!(!table.is_empty());
    assert!(PathTable::is_deleted(PathTable::deleted_id()));
}

#[test]
fn interning_more_keeps_earlier_paths() {
    let mut table = PathTable::new();
    let a = table.intern("C:\\one\\two");
    table.intern("C:\\one\\three");
    table.clear_dedup_map();
    table.intern("C:\\one");
    assert_eq!(table.resolve_path(a), "C:\\one\\two");
}

fn record(record_number: u64, parent_record: u64, name: &str) -> ScanResult {
    ScanResult {
        record_number,
        parent_record,
        is_directory: false,
        name: name.to_string(),
        size: 0,
        mtime: Some(116444736000000000),
        ctime: None,
        atime: None,
        attributes: 0,
    }
}

#[test]
fn record_paths_lead_to_the_root() {
    let records = vec![
        record(30, 5, "dir"),
        record(31, 30, "file"),
        record(32, 99, "lost"),
        record(33, 0, "top"),
    ];
    let output = ScanOutput::new(records, ScanProgress::new().stats);
    let paths = resolve_paths(&output, 10);
    assert_eq!(paths.len(), 4);
    assert_eq!(paths[0].0, "\\dir");
    assert_eq!(paths[1].0, "\\dir\\file");
    assert_eq!(paths[2].0, "<99>\\lost");
    assert_eq!(paths[3].0, "\\top");
    assert_eq!(paths[0].1, "1970/01/01 00:00:00");
    assert_eq!(resolve_paths(&output, 2).len(), 2);
}

#[test]
fn files_read_back_under_their_paths() {
    let mut table = PathTable::new();
    for (path, is_directory, name) in [
        ("C:\\a.txt", false, "a.txt"),
        ("C:\\docs", true, "docs"),
        ("C:\\docs\\deep\\b.txt", false, "b.txt"),
        ("D:\\docs\\c", true, "c"),
    ] {
        let id = everyfile::changes::register_path(&mut table, path, is_directory);
        assert_eq!(table.resolve_file_path(id, name), path);
    }
}

#[test]
fn parents_that_lead_in_a_circle_have_no_paths() {
    let straight = vec![record(30, 5, "dir"), record(31, 30, "file")];
    assert!(paths_end(&ScanOutput::new(straight, ScanProgress::new().stats), 10));
    let round = vec![record(30, 31, "a"), record(31, 30, "b"), record(32, 5, "c")];
    let output = ScanOutput::new(round, ScanProgress::new().stats);
    assert!(!paths_end(&output, 10));
    assert!(paths_end(&output, 0));
}
