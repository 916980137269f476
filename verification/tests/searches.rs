use everyfile::commands_search::{
    all_results_on, drive_letter_of, get_records_range_on, parse_sort_by, parse_sort_direction,
    range_response, search_files, search_files_on, SearchParams,
};
use everyfile::path_table::PathTable;
use everyfile::search::{FileEntry, SearchOptions, SearchResult, SortBy, SortDirection};
use everyfile::volume_manager::VolumeManager;

const TODAY: i32 = 738886;

/// The files of a volume with their directories.
fn volume(drive: &str, names: &[(&str, u64, i64, bool)], first_id: u32) -> (Vec<FileEntry>, PathTable) {
    let mut table = PathTable::new();
    let root = table.intern(&format!("{}\\", drive));
    let mut files = Vec::new();
    for (i, (name, size, time, dir)) in names.iter().enumerate() {
        files.push(FileEntry::new(
            name.to_string(),
            root,
            *size,
            *time,
            first_id + i as u32,
            *dir,
        ));
    }
    (files, table)
}

fn manager() -> VolumeManager {
    let mut vm = VolumeManager::new();
    assert!(vm.add_volume("C:", true, false, false).is_ok());
    assert!(vm.add_volume("D:", true, false, false).is_ok());
    let (files, table) = volume(
        "C:",
        &[
            ("beta.txt", 30, 300, false),
            ("alpha.txt", 10, 100, false),
            ("docs", 0, 50, true),
        ],
        1,
    );
    vm.apply_full_scan("C:", files, table);
    let (files, table) = volume("D:", &[("gamma.txt", 20, 200, false)], 101);
    vm.apply_full_scan("D:", files, table);
    vm
}

fn options(sort_by: SortBy, sort_direction: SortDirection) -> SearchOptions {
    SearchOptions { sort_by, sort_direction, files_only: true, ..SearchOptions::default() }
}

fn names(results: &[SearchResult]) -> Vec<String> {
    results.iter().map(|r| r.name.clone()).collect()
}

fn result(file_id: u32, path: &str, size: u64) -> SearchResult {
    SearchResult {
        file_id,
        name: path.rsplit('\\').next().unwrap().to_string(),
        path: path.to_string(),
        size,
        modified_time: 400,
        is_directory: false,
    }
}

#[test]
fn search_finds_what_matches() {
    let mut vm = manager();
    let (found, total) =
        vm.search_on("txt", &options(SortBy::Name, SortDirection::Ascending), 0, TODAY);
    assert_eq!(total, 3);
    assert_eq!(names(&found), vec!["alpha.txt", "beta.txt", "gamma.txt"]);
    assert_eq!(found[2].path, "D:\\gamma.txt");
    let (none, total) =
        vm.search_on("nothing", &options(SortBy::Name, SortDirection::Ascending), 0, TODAY);
    assert!(none.is_empty());
    assert_eq!(total, 0);
}

#[test]
fn results_are_sorted_by_every_key() {
    let mut vm = manager();
    let up = SortDirection::Ascending;
    let (r, _) = vm.search_on("", &options(SortBy::Size, up), 0, TODAY);
    assert_eq!(names(&r), vec!["alpha.txt", "gamma.txt", "beta.txt"]);
    let (r, _) = vm.search_on("", &options(SortBy::ModifiedTime, up), 0, TODAY);
    assert_eq!(names(&r), vec!["alpha.txt", "gamma.txt", "beta.txt"]);
    let (r, _) = vm.search_on("", &options(SortBy::Path, up), 0, TODAY);
    assert_eq!(names(&r), vec!["alpha.txt", "beta.txt", "gamma.txt"]);
    let (r, _) = vm.search_on("", &options(SortBy::Size, SortDirection::Descending), 0, TODAY);
    assert_eq!(names(&r), vec!["beta.txt", "gamma.txt", "alpha.txt"]);
}

#[test]
fn kinds_are_told_apart() {
    let mut vm = manager();
    let mut o = options(SortBy::Name, SortDirection::Ascending);
    o.files_only = false;
    o.directories_only = true;
    let (r, total) = vm.search_on("", &o, 0, TODAY);
    assert_eq!((names(&r), total), (vec!["docs".to_string()], 1));
    let (r, _) = vm.search_on(
        ":folder",
        &options(SortBy::Name, SortDirection::Ascending),
        0,
        TODAY,
    );
    assert_eq!(names(&r), vec!["docs"]);
}

#[test]
fn pages_make_up_the_list() {
    let mut vm = manager();
    vm.search_on("txt", &options(SortBy::Name, SortDirection::Ascending), 0, TODAY);
    for direction in [SortDirection::Ascending, SortDirection::Descending] {
        let (whole, total) = vm
            .get_cached_slice_at(SortBy::Name, direction, 0, 10, 0, TODAY)
            .unwrap();
        let (mut first, _) = vm
            .get_cached_slice_at(SortBy::Name, direction, 0, 2, 0, TODAY)
            .unwrap();
        let (second, _) = vm
            .get_cached_slice_at(SortBy::Name, direction, 2, 10, 0, TODAY)
            .unwrap();
        first.extend(second);
        assert_eq!(names(&whole), names(&first));
        assert_eq!(total, 3);
    }
}

#[test]
fn old_searches_cannot_be_read() {
    let mut vm = manager();
    assert!(vm.get_cached_slice_at(SortBy::Name, SortDirection::Ascending, 0, 5, 0, TODAY).is_none());
    vm.search_on("txt", &options(SortBy::Name, SortDirection::Ascending), 0, TODAY);
    assert!(vm
        .get_cached_slice_at(SortBy::Name, SortDirection::Ascending, 0, 5, 100_000, TODAY)
        .is_none());
    let r = get_records_range_on(&mut vm, 0, 5, "name", "asc", 100_000, TODAY);
    assert_eq!(r.err().unwrap(), "Cache expired or empty. Please search again.");
    let r = get_records_range_on(&mut vm, 0, 2, "name", "asc", 0, TODAY).unwrap();
    assert_eq!((r.start, r.end, r.total), (0, 2, 3));
    assert_eq!(names(&r.results), vec!["alpha.txt", "beta.txt"]);
    assert!(range_response(None, 0, 1).is_err());
}

#[test]
fn changes_show_at_once() {
    let mut vm = manager();
    let o = options(SortBy::Name, SortDirection::Ascending);
    vm.search_on("txt", &o, 0, TODAY);
    vm.apply_incremental_usn(
        "C:",
        vec![result(7, "C:\\delta.txt", 5)],
        vec![(2, "C:\\alpha.txt".to_string())],
        vec![(1, result(1, "C:\\beta.txt", 99))],
    );
    let (r, total) = vm
        .get_cached_slice_at(SortBy::Name, SortDirection::Ascending, 0, 10, 0, TODAY)
        .unwrap();
    assert_eq!(names(&r), vec!["beta.txt", "delta.txt", "gamma.txt"]);
    assert_eq!(total, 3);
    assert_eq!(r[0].size, 99);
    assert_eq!(vm.delta_count(), 1);
}

#[test]
fn renamed_files_show_under_their_new_names() {
    let mut vm = manager();
    vm.search_on("txt", &options(SortBy::Name, SortDirection::Ascending), 0, TODAY);
    vm.apply_incremental_usn(
        "C:",
        vec![result(2, "C:\\omega.txt", 10)],
        vec![(2, "C:\\alpha.txt".to_string())],
        vec![],
    );
    let (r, _) = vm
        .get_cached_slice_at(SortBy::Name, SortDirection::Ascending, 0, 10, 0, TODAY)
        .unwrap();
    assert_eq!(names(&r), vec!["beta.txt", "gamma.txt", "omega.txt"]);
}

#[test]
fn idle_memory_is_released_and_changes_stay() {
    let mut vm = manager();
    vm.search_on("", &options(SortBy::Name, SortDirection::Ascending), 0, TODAY);
    vm.apply_incremental_usn(
        "C:",
        vec![result(7, "C:\\delta.txt", 5)],
        vec![(2, "C:\\alpha.txt".to_string())],
        vec![],
    );
    vm.release_idle_memory();
    assert!(vm.search_cache.is_none());
    assert_eq!(vm.delta_count(), 1);
    assert_eq!(vm.get_file_count("C:"), 3);
    assert!(vm.get_monitor("C:").unwrap().fid_index.is_none());
    let (r, total) =
        vm.search_on("", &options(SortBy::Name, SortDirection::Ascending), 0, TODAY);
    assert_eq!(names(&r), vec!["beta.txt", "delta.txt", "gamma.txt"]);
    assert_eq!(total, 3);
}

#[test]
fn changes_are_found_by_later_searches() {
    let mut vm = manager();
    let o = options(SortBy::Name, SortDirection::Ascending);
    vm.search_on("foo", &o, 0, TODAY);
    vm.apply_incremental_usn("C:", vec![result(9, "C:\\bar.txt", 1)], vec![], vec![]);
    let (r, total) = vm.search_on("bar", &o, 0, TODAY);
    assert_eq!(total, 1);
    assert_eq!((r[0].file_id, r[0].path.as_str()), (9, "C:\\bar.txt"));
    let (r, _) = vm.search_on("txt", &o, 0, TODAY);
    assert_eq!(names(&r), vec!["alpha.txt", "bar.txt", "beta.txt", "gamma.txt"]);
}

#[test]
fn changes_are_taken_up_without_a_search() {
    let mut vm = manager();
    let o = options(SortBy::Name, SortDirection::Ascending);
    vm.apply_incremental_usn(
        "C:",
        vec![result(9, "C:\\bar.txt", 1)],
        vec![(2, "C:\\alpha.txt".to_string())],
        vec![(1, result(1, "C:\\beta.txt", 99))],
    );
    assert_eq!(vm.delta_count(), 1);
    let (r, total) = vm.search_on("txt", &o, 0, TODAY);
    assert_eq!(names(&r), vec!["bar.txt", "beta.txt", "gamma.txt"]);
    assert_eq!(total, 3);
    assert_eq!(r[1].size, 99);
}

#[test]
fn volumes_keep_their_changes_apart() {
    let mut vm = VolumeManager::new();
    for drive in ["C:", "D:"] {
        assert!(vm.add_volume(drive, true, false, false).is_ok());
        let (files, table) = volume(drive, &[("same.txt", 1, 1, false)], 100);
        vm.apply_full_scan(drive, files, table);
    }
    let o = options(SortBy::Path, SortDirection::Ascending);
    let (_, total) = vm.search_on("txt", &o, 0, TODAY);
    assert_eq!(total, 2);
    vm.get_cached_slice_at(SortBy::Path, SortDirection::Ascending, 0, 9, 0, TODAY);
    vm.apply_incremental_usn("C:", vec![], vec![(100, "C:\\same.txt".to_string())], vec![]);
    let (r, total) = vm
        .get_cached_slice_at(SortBy::Path, SortDirection::Ascending, 0, 9, 0, TODAY)
        .unwrap();
    assert_eq!(total, 1);
    assert_eq!(r[0].path, "D:\\same.txt");
    vm.apply_incremental_usn("D:", vec![], vec![(100, "D:\\same.txt".to_string())], vec![]);
    let (_, total) = vm
        .get_cached_slice_at(SortBy::Path, SortDirection::Ascending, 0, 9, 0, TODAY)
        .unwrap();
    assert_eq!(total, 0);
}

#[test]
fn a_scan_forgets_the_changes_of_its_volume_only() {
    let mut vm = manager();
    let o = options(SortBy::Name, SortDirection::Ascending);
    vm.apply_incremental_usn("C:", vec![result(9, "C:\\new_c.txt", 1)], vec![], vec![]);
    vm.apply_incremental_usn("D:", vec![result(109, "D:\\new_d.txt", 1)], vec![], vec![]);
    assert_eq!(vm.delta_count(), 2);
    let (files, table) = volume("C:", &[("fresh.txt", 1, 1, false)], 1);
    vm.apply_full_scan("C:", files, table);
    assert_eq!(vm.delta_count(), 1);
    let (r, _) = vm.search_on("txt", &o, 0, TODAY);
    assert_eq!(names(&r), vec!["fresh.txt", "gamma.txt", "new_d.txt"]);
    vm.remove_volume("D:");
    assert_eq!(vm.delta_count(), 0);
}

#[test]
fn merging_leaves_the_rows() {
    let mut vm = manager();
    let o = options(SortBy::Name, SortDirection::Ascending);
    vm.search_on("a.txt", &o, 0, TODAY);
    let mut added = vec![result(7, "C:\\delta.txt", 5), result(8, "C:\\other.dat", 5)];
    added.extend((0..1000).map(|i| result(1000 + i, &format!("C:\\f{}.bin", i), 1)));
    vm.apply_incremental_usn(
        "C:",
        added,
        vec![(2, "C:\\alpha.txt".to_string())],
        vec![(1, result(1, "C:\\beta.txt", 99))],
    );
    let up = SortDirection::Ascending;
    let (before, total) = vm.get_cached_slice_at(SortBy::Name, up, 0, 10, 0, TODAY).unwrap();
    assert_eq!(names(&before), vec!["beta.txt", "delta.txt", "gamma.txt"]);
    vm.merge_if_needed_on(TODAY);
    assert_eq!(vm.delta_count(), 0);
    assert_eq!(vm.get_file_count("C:"), 1004);
    let (after, now) = vm.get_cached_slice_at(SortBy::Name, up, 0, 10, 0, TODAY).unwrap();
    assert_eq!(names(&after), names(&before));
    assert_eq!(after[0].size, 99);
    assert_eq!(now, total);
}

#[test]
fn merging_does_not_bring_removed_files_back() {
    let mut vm = manager();
    let o = options(SortBy::Name, SortDirection::Ascending);
    vm.search_on("txt", &o, 0, TODAY);
    let added = (0..1001).map(|i| result(1000 + i, &format!("C:\\f{}.bin", i), 1)).collect();
    vm.apply_incremental_usn("C:", added, vec![], vec![]);
    vm.apply_incremental_usn("C:", vec![result(7, "C:\\delta.txt", 5)], vec![], vec![]);
    vm.apply_incremental_usn("C:", vec![], vec![(7, "C:\\delta.txt".to_string())], vec![]);
    vm.merge_if_needed();
    let (r, _) = vm.search_on("delta", &o, 0, TODAY);
    assert!(r.is_empty());
}

#[test]
fn descending_is_the_reverse() {
    let mut vm = manager();
    vm.search_on("", &options(SortBy::Name, SortDirection::Ascending), 0, TODAY);
    vm.apply_incremental_usn("C:", vec![result(7, "C:\\delta.txt", 20)], vec![], vec![]);
    for key in [SortBy::Name, SortBy::Path, SortBy::Size, SortBy::ModifiedTime, SortBy::Score] {
        let (up, n) = vm
            .get_cached_slice_at(key, SortDirection::Ascending, 0, 9, 0, TODAY)
            .unwrap();
        let (down, m) = vm
            .get_cached_slice_at(key, SortDirection::Descending, 0, 9, 0, TODAY)
            .unwrap();
        let mut turned = names(&down);
        turned.reverse();
        assert_eq!(names(&up), turned);
        assert_eq!((n, m), (4, 4));
        let (none, k) = vm
            .get_cached_slice_at(key, SortDirection::Descending, 3, 1, 0, TODAY)
            .unwrap();
        assert!(none.is_empty());
        assert_eq!(k, 4);
    }
}

#[test]
fn renaming_leaves_one_row() {
    let mut vm = manager();
    let mut o = options(SortBy::Name, SortDirection::Ascending);
    o.files_only = false;
    let (_, before) = vm.search_on("", &o, 0, TODAY);
    vm.apply_incremental_usn(
        "C:",
        vec![result(2, "C:\\docs\\omega.txt", 10)],
        vec![(2, "C:\\alpha.txt".to_string())],
        vec![],
    );
    let (r, total) = vm
        .get_cached_slice_at(SortBy::Name, SortDirection::Ascending, 0, 10, 0, TODAY)
        .unwrap();
    assert_eq!(total, before);
    let rows: Vec<&SearchResult> = r.iter().filter(|x| x.file_id == 2).collect();
    assert_eq!(rows.len(), 1);
    assert_eq!(rows[0].path, "C:\\docs\\omega.txt");
    assert_eq!(rows[0].name, "omega.txt");
}

#[test]
fn new_directories_show_where_directories_are_sought() {
    let mut vm = manager();
    let o = options(SortBy::Name, SortDirection::Ascending);
    vm.search_on(":folder", &o, 0, TODAY);
    let mut dir = result(7, "C:\\fresh", 0);
    dir.is_directory = true;
    vm.apply_incremental_usn("C:", vec![dir], vec![], vec![]);
    let (r, total) = vm
        .get_cached_slice_at(SortBy::Name, SortDirection::Ascending, 0, 10, 0, TODAY)
        .unwrap();
    assert_eq!((names(&r), total), (vec!["docs".to_string(), "fresh".to_string()], 2));
}

#[test]
fn added_files_can_be_removed() {
    let mut vm = manager();
    let o = options(SortBy::Name, SortDirection::Ascending);
    vm.search_on("txt", &o, 0, TODAY);
    vm.apply_incremental_usn("C:", vec![result(7, "C:\\delta.txt", 5)], vec![], vec![]);
    vm.remove_file_on("C:\\delta.txt", TODAY);
    assert_eq!(vm.delta_count(), 0);
    let (r, _) = vm.search_on("txt", &o, 0, TODAY);
    assert_eq!(names(&r), vec!["alpha.txt", "beta.txt", "gamma.txt"]);
}

#[test]
fn removed_files_are_gone() {
    let mut vm = manager();
    vm.search_on("txt", &options(SortBy::Name, SortDirection::Ascending), 0, TODAY);
    vm.remove_file("C:\\alpha.txt");
    let (r, _) =
        vm.search_on("txt", &options(SortBy::Name, SortDirection::Ascending), 0, TODAY);
    assert_eq!(names(&r), vec!["beta.txt", "gamma.txt"]);
}

#[test]
fn volumes_come_and_go() {
    let mut vm = manager();
    assert_eq!(vm.volumes(), vec!["C:", "D:"]);
    assert_eq!(vm.total_file_count(), 4);
    assert_eq!(vm.get_file_count("C:"), 3);
    assert_eq!(vm.get_file_count("E:"), 0);
    vm.remove_volume("C:");
    assert_eq!(vm.volumes(), vec!["D:"]);
    let (r, _) = vm.search_on("", &options(SortBy::Name, SortDirection::Ascending), 0, TODAY);
    assert_eq!(names(&r), vec!["gamma.txt"]);
    let taken = vm.take_monitor("D:").unwrap();
    assert!(vm.get_monitor("D:").is_none());
    vm.return_monitor("D:", taken);
    assert!(vm.get_monitor("D:").is_some());
    vm.update_all_settings(true, true);
    assert!(vm.get_monitor("D:").unwrap().include_hidden_files);
}

#[test]
fn requests_are_read() {
    assert_eq!(parse_sort_by("name"), SortBy::Name);
    assert_eq!(parse_sort_by("path"), SortBy::Path);
    assert_eq!(parse_sort_by("size"), SortBy::Size);
    assert_eq!(parse_sort_by("modified"), SortBy::ModifiedTime);
    assert_eq!(parse_sort_by("modified_time"), SortBy::ModifiedTime);
    assert_eq!(parse_sort_by("x"), SortBy::Score);
    assert_eq!(parse_sort_direction("asc"), SortDirection::Ascending);
    assert_eq!(parse_sort_direction("x"), SortDirection::Descending);
    assert_eq!(drive_letter_of("D:"), 'D');
    assert_eq!(drive_letter_of(""), 'C');
    let params = SearchParams {
        query: "txt".to_string(),
        sort_by: Some("name".to_string()),
        sort_direction: Some("asc".to_string()),
        files_only: None,
        directories_only: None,
        min_size: None,
        max_size: None,
    };
    assert!(params.options().files_only);
    assert!(!params.options().directories_only);
    let mut vm = manager();
    let r = search_files_on(&mut vm, &params, 0, TODAY);
    assert_eq!(r.total, 3);
    let r = search_files(&mut vm, &params);
    assert_eq!(names(&r.results), vec!["alpha.txt", "beta.txt", "gamma.txt"]);
}

#[test]
fn export_takes_every_result() {
    let mut vm = VolumeManager::new();
    assert!(vm.add_volume("C:", true, false, false).is_ok());
    let names: Vec<String> = (0..120).map(|i| format!("f{:03}.txt", i)).collect();
    let list: Vec<(&str, u64, i64, bool)> =
        names.iter().map(|n| (n.as_str(), 1, 1, false)).collect();
    let (files, table) = volume("C:", &list, 1);
    vm.apply_full_scan("C:", files, table);
    let (first, total) =
        vm.search_on("txt", &options(SortBy::Name, SortDirection::Ascending), 0, TODAY);
    assert_eq!((first.len(), total), (50, 120));
    let all = all_results_on(&mut vm, "txt", true, false, 0, TODAY);
    assert_eq!(all.len(), 120);
}

#[test]
fn scan_errors_are_kept() {
    let mut vm = manager();
    vm.set_scan_error("C:", "broken".to_string());
    assert_eq!(vm.scan_errors.get("C:"), Some(&"broken".to_string()));
    vm.clear_scan_error("C:");
    assert_eq!(vm.scan_errors.get("C:"), None);
    vm.invalidate_search_cache();
    assert!(vm.search_cache.is_none());
}

#[test]
fn counts_stay_right_from_batch_to_batch() {
    let mut vm = manager();
    vm.search_on("txt", &options(SortBy::Name, SortDirection::Ascending), 0, TODAY);
    let up = SortDirection::Ascending;
    let gone = vec![(2, "C:\\alpha.txt".to_string())];
    vm.apply_incremental_usn("C:", vec![], gone, vec![]);
    let (_, total) = vm.get_cached_slice_at(SortBy::Name, up, 0, 10, 0, TODAY).unwrap();
    assert_eq!(total, 2);
    let gone = vec![(1, "C:\\beta.txt".to_string()), (1, "C:\\beta.txt".to_string())];
    vm.apply_incremental_usn("C:", vec![], gone, vec![]);
    let (r, total) = vm.get_cached_slice_at(SortBy::Name, up, 0, 10, 0, TODAY).unwrap();
    assert_eq!((names(&r), total), (vec!["gamma.txt".to_string()], 1));
    let back = vec![result(2, "C:\\alpha.txt", 10)];
    vm.apply_incremental_usn("C:", back, vec![], vec![]);
    let (r, total) = vm.get_cached_slice_at(SortBy::Name, up, 0, 10, 0, TODAY).unwrap();
    assert_eq!(names(&r), vec!["alpha.txt", "gamma.txt"]);
    assert_eq!(total, 2);
}

#[test]
fn what_came_and_went_is_not_shown() {
    let mut vm = manager();
    vm.search_on("txt", &options(SortBy::Name, SortDirection::Ascending), 0, TODAY);
    vm.apply_incremental_usn(
        "C:",
        vec![result(9, "C:\\Temp.txt", 1)],
        vec![(9, "c:\\temp.txt".to_string())],
        vec![],
    );
    let (r, total) = vm
        .get_cached_slice_at(SortBy::Name, SortDirection::Ascending, 0, 10, 0, TODAY)
        .unwrap();
    assert_eq!(names(&r), vec!["alpha.txt", "beta.txt", "gamma.txt"]);
    assert_eq!(total, 3);
}

#[test]
fn refreshing_notes_the_moment() {
    let mut cache =
        everyfile::search_cache::SearchCache::new(
            "txt",
            true,
            false,
            vec![1, 2],
            3,
            everyfile::search_cache::DeltaCache::new(),
        );
    let later = cache.created_at + std::time::Duration::from_secs(1000);
    cache.refresh_at(later);
    assert_eq!(cache.created_at, later);
    assert_eq!(cache.base.matched, vec![1, 2]);
    cache.refresh();
    assert!(cache.created_at < later);
    assert!(cache.is_valid());
}

/// The page of a search from its first row on.
fn page(vm: &mut VolumeManager) -> (Vec<SearchResult>, usize) {
    vm.get_cached_slice_at(SortBy::Name, SortDirection::Ascending, 0, 10, 0, TODAY).unwrap()
}

#[test]
fn changes_after_a_rename_show_and_last() {
    let mut vm = manager();
    let o = options(SortBy::Name, SortDirection::Ascending);
    vm.search_on("txt", &o, 0, TODAY);
    vm.apply_incremental_usn(
        "C:",
        vec![result(2, "C:\\omega.txt", 10)],
        vec![(2, "C:\\alpha.txt".to_string())],
        vec![],
    );
    vm.apply_incremental_usn("C:", vec![], vec![], vec![(2, result(2, "C:\\omega.txt", 77))]);
    let (r, total) = page(&mut vm);
    assert_eq!(names(&r), vec!["beta.txt", "gamma.txt", "omega.txt"]);
    assert_eq!((r[2].size, total), (77, 3));
    let more = (0..1001).map(|i| result(1000 + i, &format!("C:\\f{}.bin", i), 1)).collect();
    vm.apply_incremental_usn("C:", more, vec![], vec![]);
    vm.merge_if_needed_on(TODAY);
    assert_eq!(vm.delta_count(), 0);
    let (r, total) = page(&mut vm);
    assert_eq!(names(&r), vec!["beta.txt", "gamma.txt", "omega.txt"]);
    assert_eq!((r[2].size, total), (77, 3));
}

#[test]
fn changes_of_added_files_show() {
    let mut vm = manager();
    vm.search_on("txt", &options(SortBy::Name, SortDirection::Ascending), 0, TODAY);
    vm.apply_incremental_usn("C:", vec![result(7, "C:\\delta.txt", 5)], vec![], vec![]);
    vm.apply_incremental_usn("C:", vec![], vec![], vec![(7, result(7, "C:\\delta.txt", 6))]);
    let (r, total) = page(&mut vm);
    assert_eq!(names(&r), vec!["alpha.txt", "beta.txt", "delta.txt", "gamma.txt"]);
    assert_eq!((r[2].size, total), (6, 4));
    vm.apply_incremental_usn("C:", vec![], vec![], vec![(8, result(8, "C:\\unknown.txt", 6))]);
    assert_eq!(page(&mut vm).1, 4);
}

#[test]
fn listed_files_that_are_added_again_show_once() {
    let mut vm = manager();
    vm.search_on("txt", &options(SortBy::Name, SortDirection::Ascending), 0, TODAY);
    vm.apply_incremental_usn("C:", vec![result(2, "C:\\alpha.txt", 44)], vec![], vec![]);
    let (r, total) = page(&mut vm);
    assert_eq!(names(&r), vec!["alpha.txt", "beta.txt", "gamma.txt"]);
    assert_eq!((r[0].size, total), (44, 3));
}

#[test]
fn files_come_go_and_come_again() {
    let mut vm = manager();
    vm.search_on("txt", &options(SortBy::Name, SortDirection::Ascending), 0, TODAY);
    vm.apply_incremental_usn("C:", vec![result(7, "C:\\delta.txt", 5)], vec![], vec![]);
    vm.apply_incremental_usn("C:", vec![], vec![(7, "C:\\delta.txt".to_string())], vec![]);
    assert_eq!(page(&mut vm).1, 3);
    vm.apply_incremental_usn("C:", vec![result(7, "C:\\epsilon.txt", 6)], vec![], vec![]);
    let (r, total) = page(&mut vm);
    assert_eq!(names(&r), vec!["alpha.txt", "beta.txt", "epsilon.txt", "gamma.txt"]);
    assert_eq!((r[2].size, total), (6, 4));
    vm.apply_incremental_usn(
        "C:",
        vec![result(7, "C:\\first.txt", 1), result(7, "C:\\last.txt", 2)],
        vec![],
        vec![],
    );
    let (r, total) = page(&mut vm);
    assert_eq!(names(&r), vec!["alpha.txt", "beta.txt", "gamma.txt", "last.txt"]);
    assert_eq!(total, 4);
}

#[test]
fn totals_follow_the_query() {
    let mut vm = manager();
    vm.search_on("alpha", &options(SortBy::Name, SortDirection::Ascending), 0, TODAY);
    vm.apply_incremental_usn("C:", vec![], vec![(1, "C:\\beta.txt".to_string())], vec![]);
    assert_eq!(page(&mut vm).1, 1);
    vm.apply_incremental_usn(
        "C:",
        vec![result(2, "C:\\omega.txt", 10)],
        vec![(2, "C:\\alpha.txt".to_string())],
        vec![],
    );
    assert_eq!(page(&mut vm).1, 0);
    vm.apply_incremental_usn(
        "C:",
        vec![result(2, "C:\\alphabet.txt", 10)],
        vec![(2, "C:\\omega.txt".to_string())],
        vec![],
    );
    let (r, total) = page(&mut vm);
    assert_eq!((names(&r), total), (vec!["alphabet.txt".to_string()], 1));
}

#[test]
fn new_volumes_leave_the_changes_of_the_others() {
    let mut vm = manager();
    vm.apply_incremental_usn("C:", vec![result(9, "C:\\new_c.txt", 1)], vec![], vec![]);
    let r = everyfile::volumes::register_volume(
        &mut vm,
        "E:",
        true,
        "NTFS".to_string(),
        false,
        false,
    );
    assert!(r.is_ok());
    assert_eq!(vm.delta_count(), 1);
    let info = everyfile::volumes::VolumeInfo {
        drive_letter: "F:".to_string(),
        volume_name: String::new(),
        file_system: "NTFS".to_string(),
        total_size: 0,
        free_space: 0,
    };
    everyfile::volumes::refresh_volumes(&mut vm, vec![info], true, false, false);
    assert_eq!(vm.delta_count(), 1);
    assert_eq!(vm.volumes(), vec!["C:", "D:", "E:", "F:"]);
    let o = options(SortBy::Name, SortDirection::Ascending);
    let (r, _) = vm.search_on("new", &o, 0, TODAY);
    assert_eq!(r[0].path, "C:\\new_c.txt");
    assert!(vm.add_volume("C:", true, false, false).is_ok());
    assert_eq!(vm.delta_count(), 0);
}

#[test]
fn volumes_that_are_given_back_are_searched() {
    let mut vm = manager();
    let o = options(SortBy::Name, SortDirection::Ascending);
    vm.search_on("txt", &o, 0, TODAY);
    let taken = vm.take_monitor("C:").unwrap();
    vm.return_monitor("C:", taken);
    let (r, total) = page(&mut vm);
    assert_eq!(names(&r), vec!["alpha.txt", "beta.txt", "gamma.txt"]);
    assert_eq!(total, 3);
}
