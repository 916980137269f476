use everyfile::full_scan::{should_skip_path, FullScan, ScanRules};
use everyfile::legacy_scan::{
    list_files, listed_metadata, metadata_from, resolve_entries, LegacyEntry,
};
use everyfile::mft_scan::ScanResult;
use everyfile::polling::{
    after_create, after_first_query, after_second_query, metadata_or_default, place_after,
    poll_response, poll_start, read_batch, resolve_path_from_batch, save_due, worker_failure,
    FileMetadata, JournalStage, JournalStep, PollBatch, WorkerFailure,
};
use everyfile::usn_records::{
    is_end_of_enumeration, is_end_of_journal, mft_enumeration_goes_on, parse_mft_buffer,
    parse_usn_buffer, usn_read_goes_on, MftEntryWithTimestamp, RawUsnRecord,
};
use everyfile::usn_types::{UsnResponse, UsnState, VolumeState};
use std::collections::HashMap;

#[test]
fn test_usn_state_default() {
    let state = UsnState::default();
    assert!(state.volumes.is_empty());
}

#[test]
fn usn_state_keeps_places_by_drive() {
    let mut state = UsnState::default();
    state.note_usn("C", 200);
    state.note_usn("D", 400);
    state.note_usn("C", 300);
    assert_eq!(state.volumes.len(), 2);
    assert_eq!(state.last_usn("C"), Some(300));
    assert_eq!(state.last_usn("D"), Some(400));
    assert_eq!(state.last_usn("E"), None);
    assert_eq!(state.volumes[0].1, VolumeState { last_usn: 300 });
}

fn rules() -> ScanRules {
    ScanRules { drive_letter: 'C', include_hidden_files: false, include_system_files: false }
}

fn change(fid: u64, parent_fid: u64, reason: u32, name: &str) -> RawUsnRecord {
    RawUsnRecord {
        usn: 1,
        fid,
        parent_fid,
        reason,
        file_attributes: 0,
        file_name: name.to_string(),
    }
}

fn meta(size: u64) -> FileMetadata {
    FileMetadata { size, modified_time: 11, is_directory: false }
}

#[test]
fn paths_come_from_the_batch() {
    let mut parents: HashMap<u64, u64> = HashMap::new();
    let mut names: HashMap<u64, String> = HashMap::new();
    parents.insert(10, 9);
    names.insert(10, "a.txt".to_string());
    parents.insert(9, 5);
    names.insert(9, "dir".to_string());
    names.insert(5, ".".to_string());
    parents.insert(5, 5);
    assert_eq!(
        resolve_path_from_batch(10, &parents, &names, 'C'),
        Some("C:\\dir\\a.txt".to_string())
    );
    assert_eq!(resolve_path_from_batch(77, &parents, &names, 'C'), None);
    names.insert(8, "$Extend".to_string());
    assert_eq!(resolve_path_from_batch(8, &parents, &names, 'C'), None);
}

#[test]
fn batch_sorts_changes_out() {
    let records = vec![
        change(1, 5, 0x100, "new.txt"),
        change(1, 5, 0x100, "new.txt"),
        change(2, 5, 0x200, "gone.txt"),
        change(2, 5, 0x200, "gone.txt"),
        change(3, 5, 0x01, "changed.txt"),
        change(4, 5, 0x100, "$hidden"),
        change(6, 5, 0x100, "bin.txt"),
        change(7, 5, 0x10, "other"),
    ];
    let resolved = vec![
        Some("C:\\new.txt".to_string()),
        Some("C:\\new.txt".to_string()),
        None,
        None,
        Some("C:\\changed.txt".to_string()),
        Some("C:\\$hidden".to_string()),
        Some("C:\\$Recycle.Bin\\bin.txt".to_string()),
        None,
    ];
    let metas = vec![meta(5); 8];
    let batch = read_batch(rules(), &records, resolved, &metas);
    assert_eq!(batch.added.len(), 1);
    assert_eq!(batch.added[0].path, "C:\\new.txt");
    assert_eq!(batch.added[0].size, 5);
    assert_eq!(batch.removed, vec![(2, "C:\\gone.txt".to_string())]);
    assert_eq!(batch.updated.len(), 1);
    assert_eq!(batch.updated[0].0, 3);
    match poll_response(batch, 99) {
        Some(UsnResponse::IncrementalResult { drive_letter, last_usn, .. }) => {
            assert_eq!(drive_letter, 'C');
            assert_eq!(last_usn, 99);
        }
        _ => panic!("no response"),
    }
}

#[test]
fn polls_leave_out_what_scans_leave_out() {
    let mut system = change(1, 5, 0x100, "system.txt");
    system.file_attributes = 0x04;
    let mut hidden = change(2, 5, 0x100, "hidden.txt");
    hidden.file_attributes = 0x02;
    let records = vec![system, hidden, change(3, 5, 0x100, "plain.txt")];
    let resolved: Vec<Option<String>> = records
        .iter()
        .map(|r| Some(format!("C:\\{}", r.file_name)))
        .collect();
    let batch = read_batch(rules(), &records, resolved, &vec![meta(1); 3]);
    assert_eq!(batch.added.len(), 1);
    assert_eq!(batch.added[0].file_id, 3);
}

#[test]
fn renamed_file_goes_and_comes() {
    let records = vec![change(1, 5, 0x1000, "old.txt"), change(1, 5, 0x2000, "new.txt")];
    let batch = read_batch(
        rules(),
        &records,
        vec![Some("C:\\old.txt".to_string()), Some("C:\\new.txt".to_string())],
        &vec![meta(1), meta(2)],
    );
    assert_eq!(batch.removed, vec![(1, "C:\\old.txt".to_string())]);
    assert_eq!(batch.added[0].path, "C:\\new.txt");
}

#[test]
fn batch_asks_only_for_what_it_needs() {
    let records = vec![change(1, 5, 0x100, "new.txt")];
    let batch = PollBatch::new(rules(), &records);
    assert!(PollBatch::needs_path(0x100));
    assert!(!PollBatch::needs_path(0x10));
    assert!(batch.wants_metadata(&records[0], &Some("C:\\new.txt".to_string())));
    assert!(!batch.wants_metadata(&records[0], &None));
    assert!(batch.is_empty());
    assert!(poll_response(batch, 1).is_none());
}

#[test]
fn polls_start_within_the_journal() {
    assert_eq!(poll_start(5, 10, 20), Some(10));
    assert_eq!(poll_start(15, 10, 20), Some(15));
    assert_eq!(poll_start(25, 10, 20), None);
    assert_eq!(place_after(5, 9), 9);
    assert_eq!(place_after(9, 5), 9);
    assert!(save_due(9, 5, 3600));
    assert!(!save_due(9, 5, 3599));
    assert!(!save_due(5, 5, 9999));
}

#[test]
fn journals_are_made_ready() {
    assert_eq!(
        after_first_query(Some((100, 7)), 50),
        (JournalStage::Asked, JournalStep::Done(7))
    );
    let (stage, step) = after_first_query(Some((10, 7)), 50);
    assert_eq!(step, JournalStep::CreateOrUpdate);
    assert_eq!(after_create(stage, false), JournalStep::Query);
    assert_eq!(after_second_query(stage, Some(9)), JournalStep::Done(9));
    assert_eq!(after_second_query(stage, None), JournalStep::Done(7));
    let (stage, step) = after_first_query(None, 50);
    assert_eq!(step, JournalStep::CreateOrUpdate);
    assert_eq!(after_create(stage, false), JournalStep::CreateFailed);
    assert_eq!(after_create(stage, true), JournalStep::Query);
    assert_eq!(after_second_query(stage, None), JournalStep::QueryFailed);
}

#[test]
fn failures_name_the_drive() {
    assert_eq!(
        worker_failure(WorkerFailure::NoVolume, 'C', ""),
        "No volume handle for drive C"
    );
    assert_eq!(
        worker_failure(WorkerFailure::NoPlace, 'C', ""),
        "No last USN recorded for drive C"
    );
    assert_eq!(
        worker_failure(WorkerFailure::QueryJournal, 'C', "x"),
        "Failed to query journal for C: x"
    );
    assert_eq!(
        worker_failure(WorkerFailure::OpenHandle, 'C', ""),
        "Failed to open volume handle for drive C"
    );
    assert_eq!(
        worker_failure(WorkerFailure::ReadJournal, 'C', "x"),
        "Failed to read journal for C: x"
    );
    assert_eq!(
        worker_failure(WorkerFailure::OpenForJournal, 'C', "x"),
        "Failed to open volume C for journal: x"
    );
    assert_eq!(
        worker_failure(WorkerFailure::OpenVolume, 'C', "x"),
        "Failed to open volume C: x"
    );
    assert_eq!(
        worker_failure(WorkerFailure::CreateJournal, 'C', "x"),
        "Journal create failed for C: x"
    );
    assert_eq!(
        worker_failure(WorkerFailure::CreateAndQuery, 'C', "x"),
        "Journal create+query failed for C: x"
    );
}

#[test]
fn metadata_has_defaults() {
    let none = metadata_or_default(false, Some(meta(3)), true);
    assert_eq!((none.size, none.modified_time, none.is_directory), (0, 0, true));
    let gone = metadata_or_default(true, None, true);
    assert!(!gone.is_directory);
    assert_eq!(metadata_or_default(true, Some(meta(3)), true).size, 3);
    assert_eq!(listed_metadata(true, Some((5, 6))), (0, 6));
    assert_eq!(listed_metadata(false, Some((5, 6))), (5, 6));
    assert_eq!(listed_metadata(false, None), (0, 0));
    let t: u64 = 125_911_584_000_000_000;
    assert_eq!(metadata_from(1, 2, (t >> 32) as u32, t as u32), (0x1_0000_0002, 946684800));
}

/// A change record as the journal holds it.
fn usn_record(fid: u64, parent: u64, reason: u32, attributes: u32, name: &str) -> Vec<u8> {
    let units: Vec<u16> = name.encode_utf16().collect();
    let len = (60 + units.len() * 2 + 7) / 8 * 8;
    let mut r = vec![0u8; len];
    r[0..4].copy_from_slice(&(len as u32).to_le_bytes());
    r[4..6].copy_from_slice(&2u16.to_le_bytes());
    r[8..16].copy_from_slice(&fid.to_le_bytes());
    r[16..24].copy_from_slice(&parent.to_le_bytes());
    r[32..40].copy_from_slice(&116444736010000000i64.to_le_bytes());
    r[40..44].copy_from_slice(&reason.to_le_bytes());
    r[52..56].copy_from_slice(&attributes.to_le_bytes());
    r[56..58].copy_from_slice(&((units.len() * 2) as u16).to_le_bytes());
    r[58..60].copy_from_slice(&60u16.to_le_bytes());
    for (i, u) in units.iter().enumerate() {
        r[60 + i * 2..62 + i * 2].copy_from_slice(&u.to_le_bytes());
    }
    r
}

#[test]
fn journal_buffers_are_read() {
    let mut buffer = 777i64.to_le_bytes().to_vec();
    buffer.extend(usn_record(1, 5, 0x100, 0x10, "dir"));
    buffer.extend(usn_record(2, 1, 0x200, 0x02, "名.txt"));
    let (records, next) = parse_usn_buffer(&buffer, buffer.len()).unwrap();
    assert_eq!(next, 777);
    assert_eq!(records.len(), 2);
    assert_eq!(records[0].file_name, "dir");
    assert!(records[0].is_dir());
    assert_eq!(records[1].file_name, "名.txt");
    assert!(records[1].is_hidden());
    assert_eq!(records[1].reason, 0x200);
    assert!(parse_usn_buffer(&buffer, 4).is_none());
    assert!(usn_read_goes_on(32768));
    assert!(!usn_read_goes_on(32767));
    assert!(is_end_of_journal(38));
    assert!(!is_end_of_journal(5));
}

#[test]
fn enumeration_buffers_are_read() {
    let mut buffer = 55u64.to_le_bytes().to_vec();
    buffer.extend(usn_record(1, 5, 0, 0x10, "dir"));
    let (entries, next) = parse_mft_buffer(&buffer, buffer.len()).unwrap();
    assert_eq!(next, 55);
    assert_eq!(entries.len(), 1);
    assert_eq!(entries[0].file_name, "dir");
    assert_eq!(entries[0].timestamp, 116444736010000000);
    assert!(mft_enumeration_goes_on(1, 2));
    assert!(is_end_of_enumeration(38));
}

fn scanned(record_number: u64, parent: u64, name: &str, dir: bool, attributes: u32) -> ScanResult {
    ScanResult {
        record_number,
        parent_record: parent,
        is_directory: dir,
        name: name.to_string(),
        size: 0,
        mtime: Some(116444736010000000),
        ctime: None,
        atime: None,
        attributes,
    }
}

#[test]
fn full_scan_builds_files_and_paths() {
    let mut scan = FullScan::new(rules());
    scan.take_record(&scanned(2, 5, "$LogFile", false, 0));
    scan.take_record(&scanned(5, 5, ".", true, 0));
    scan.take_record(&scanned(41, 40, "early.txt", false, 0));
    scan.take_record(&scanned(40, 5, "dir", true, 0));
    scan.take_record(&scanned(42, 40, "a.txt", false, 0));
    scan.take_record(&scanned(43, 40, "secret.txt", false, 0x02));
    scan.take_record(&scanned(44, 40, "system.txt", false, 0x04));
    scan.take_record(&scanned(45, 999, "orphan.txt", false, 0));
    let mut sizes: HashMap<u64, u64> = HashMap::new();
    sizes.insert(42, 77);
    let (files, table) = scan.finish(&sizes);
    let mut paths: Vec<String> = files
        .iter()
        .map(|f| table.resolve_file_path(f.path_id, &f.name))
        .collect();
    paths.sort();
    assert_eq!(paths, vec!["C:\\dir", "C:\\dir\\a.txt", "C:\\dir\\early.txt"]);
    let a = files.iter().find(|f| f.name == "a.txt").unwrap();
    assert_eq!(a.size, 77);
    assert_eq!(a.modified_time, 1);
    assert_eq!(a.file_id, 42);
}

#[test]
fn excluded_paths_are_skipped() {
    assert!(should_skip_path("C:\\$RECYCLE.BIN\\x", true));
    assert!(should_skip_path("C:\\System Volume Information\\x", false));
    assert!(!should_skip_path("C:\\System Volume Information\\x", true));
    assert!(!should_skip_path("C:\\Users\\x", false));
}

fn listed(fid: u64, parent_fid: u64, name: &str, attributes: u32) -> MftEntryWithTimestamp {
    MftEntryWithTimestamp {
        fid,
        parent_fid,
        file_name: name.to_string(),
        file_attributes: attributes,
        timestamp: 116444736030000000,
    }
}

#[test]
fn legacy_scan_lists_files() {
    let raw = vec![
        listed(5, 5, ".", 0x10),
        listed(40, 5, "dir", 0x10),
        listed(41, 40, "a.txt", 0),
        listed(42, 40, "hidden.txt", 0x02),
        listed(43, 40, "$special", 0),
    ];
    let entries: Vec<LegacyEntry> = resolve_entries(&raw, rules());
    let metadata = vec![(9u64, 8i64); entries.len()];
    let (files, table) = list_files(&entries, &metadata);
    let mut paths: Vec<String> = files
        .iter()
        .map(|f| table.resolve_file_path(f.path_id, &f.name))
        .collect();
    paths.sort();
    assert!(paths.contains(&"C:\\dir\\a.txt".to_string()));
    assert!(!paths.iter().any(|p| p.contains("hidden")));
    assert!(!paths.iter().any(|p| p.contains("special")));
    assert!(files.iter().all(|f| f.modified_time == 3));
}

#[test]
fn writing_more_or_less_counts_as_a_change() {
    for reason in [0x1u32, 0x2, 0x4] {
        assert!(PollBatch::needs_path(reason));
        let records = vec![change(7, 5, reason, "grows.txt")];
        let path = vec![Some("C:\\grows.txt".to_string())];
        let batch = read_batch(rules(), &records, path, &vec![meta(9)]);
        assert_eq!(batch.updated.len(), 1);
        assert_eq!((batch.updated[0].0, batch.updated[0].1.size), (7, 9));
    }
}
