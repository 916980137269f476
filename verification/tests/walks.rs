use everyfile::remapping::IncrementalResult;
use everyfile::volume_monitor::VolumeMonitor;
use everyfile::walking::{
    enters_name, reports_progress, should_skip_by_attr, Walked, WalkedMetadata,
};

fn entry(path: &str, size: u64, attributes: u32, is_directory: bool) -> Walked {
    Walked {
        name: path.rsplit('\\').next().unwrap().to_string(),
        path: path.to_string(),
        metadata: Some(WalkedMetadata { attributes, size, is_directory, modified: Some(9) }),
    }
}

fn paths(m: &VolumeMonitor) -> Vec<String> {
    m.files.iter().map(|f| m.path_table.resolve_file_path(f.path_id, &f.name)).collect()
}

#[test]
fn walk_takes_what_it_meets() {
    let mut m = VolumeMonitor::new("C:".to_string(), false, false);
    assert_eq!(m.walk_root(), "C:\\");
    let entries = vec![
        entry("C:\\dir", 0, 0x10, true),
        entry("C:\\dir\\a.txt", 5, 0, false),
        entry("C:\\dir\\hidden.txt", 5, 0x2, false),
        entry("C:\\dir\\system.txt", 5, 0x4, false),
        Walked { name: "x".to_string(), path: "C:\\x".to_string(), metadata: None },
    ];
    assert_eq!(m.scan(&entries, 77), 3);
    assert_eq!(paths(&m), vec!["C:\\dir", "C:\\dir\\a.txt", "C:\\x"]);
    assert_eq!(m.files[1].size, 5);
    assert_eq!(m.files[1].modified_time, 9);
    assert_eq!(m.files[2].size, 0);
}

#[test]
fn walk_passes_over_system_places() {
    assert!(!enters_name(true, true, "$RECYCLE.BIN"));
    assert!(!enters_name(true, false, "System Volume Information"));
    assert!(enters_name(true, true, "System Volume Information"));
    assert!(!enters_name(false, false, ".git"));
    assert!(enters_name(true, false, ".git"));
    assert!(should_skip_by_attr(false, false, 0x2));
    assert!(!should_skip_by_attr(true, true, 0x6));
    assert!(reports_progress(5000));
    assert!(!reports_progress(0));
    assert!(!reports_progress(5001));
}

#[test]
fn second_walk_tells_what_changed() {
    let mut m = VolumeMonitor::new("C:".to_string(), false, false);
    m.scan(
        &vec![
            entry("C:\\a.txt", 1, 0, false),
            entry("C:\\b.txt", 2, 0, false),
            entry("C:\\c.txt", 3, 0, false),
        ],
        77,
    );
    let r: IncrementalResult = m.scan_incremental(
        &vec![
            entry("C:\\c.txt", 3, 0, false),
            entry("C:\\a.txt", 10, 0, false),
            entry("C:\\d.txt", 4, 0, false),
        ],
        78,
    );
    assert_eq!((r.added, r.updated, r.removed, r.total), (1, 1, 1, 3));
    assert_eq!(r.index_map.len(), 4);
    assert_eq!(r.index_map[1], None);
    assert_eq!(r.new_file_indices.len(), 1);
    let new_place = r.new_file_indices[0];
    assert_eq!(m.files[new_place].name, "d.txt");
    let a = r.index_map[0].unwrap();
    assert_eq!((m.files[a].name.as_str(), m.files[a].size), ("a.txt", 10));
    let c = r.index_map[2].unwrap();
    assert_eq!(m.files[c].name, "c.txt");
}

#[test]
fn every_volume_is_walked() {
    let mut vm = everyfile::volume_manager::VolumeManager::new();
    assert!(vm.add_volume("C:", false, false, false).is_ok());
    assert!(vm.add_volume("D:", false, false, false).is_ok());
    let walks = vec![
        vec![entry("C:\\a.txt", 1, 0, false), entry("C:\\b.txt", 2, 0x2, false)],
        vec![entry("D:\\c", 0, 0x10, true), entry("D:\\c\\d.txt", 3, 0, false)],
    ];
    assert_eq!(vm.scan_all(&walks, 77), 3);
    assert_eq!(paths(vm.get_monitor("C:").unwrap()), vec!["C:\\a.txt"]);
    assert_eq!(paths(vm.get_monitor("D:").unwrap()), vec!["D:\\c", "D:\\c\\d.txt"]);
    assert!(vm.search_cache.is_none());
}
