use everyfile::attributes::{
    count_ads, count_hard_links, extract_atime, extract_attributes, extract_ctime,
    extract_data_size_from_bytes, extract_mtime, extract_parent_record, extract_si_time,
    ATTR_ATTRIBUTE_LIST, ATTR_DATA, ATTR_END, ATTR_FILE_NAME, ATTR_STANDARD_INFO,
};
use everyfile::bytes::{read_signed_le, read_u16, read_u32, read_u64, read_unsigned_le};
use everyfile::data_runs::{check_runs, parse_data_runs, record_disk_offset, DataRun};
use everyfile::fixup::apply_fixup;
use everyfile::mft_scan::{
    extract_data_size, fill_sizes, real_sizes, MftScanner, ScanProgress, ScanResult, ScanStep,
};
use everyfile::ntfs_time::{
    filetime_to_unix, format_ntfs_time, is_leap_year, ntfs_time_to_unix, usn_timestamp_to_unix,
};
use everyfile::record_details::{
    compare_timestamps, extract_attribute_list, extract_data_extension_records, extract_name,
    format_attributes, well_known_name,
};
use everyfile::scan_modes::collect_scan;
use std::collections::HashMap;

#[test]
fn test_format_ntfs_time_epoch() {
    let result = format_ntfs_time(Some(116444736000000000));
    assert_eq!(result, "1970/01/01 00:00:00");
}

#[test]
fn test_format_ntfs_time_zero() {
    assert_eq!(format_ntfs_time(Some(0)), "N/A");
    assert_eq!(format_ntfs_time(None), "N/A");
}

#[test]
fn test_format_ntfs_time_y2k() {
    let result = format_ntfs_time(Some(125_911_584_000_000_000));
    assert_eq!(result, "2000/01/01 00:00:00");
}

#[test]
fn test_is_leap_year() {
    assert!(is_leap_year(2000));
    assert!(!is_leap_year(1900));
    assert!(is_leap_year(2004));
    assert!(!is_leap_year(2001));
}

#[test]
fn parse_data_runs_empty() {
    let runs = parse_data_runs(&[0]);
    assert!(runs.is_empty());
}

#[test]
fn parse_data_runs_single() {
    let runs = parse_data_runs(&[0x21, 0x04, 0x08, 0x00]);
    assert_eq!(runs.len(), 1);
    assert!(!runs[0].is_sparse);
    assert_eq!(runs[0].lcn, 8);
    assert_eq!(runs[0].length, 4);
}

#[test]
fn parse_data_runs_sparse() {
    let runs = parse_data_runs(&[0x21, 0x04, 0x00, 0x00]);
    assert_eq!(runs.len(), 1);
    assert!(runs[0].is_sparse);
    assert_eq!(runs[0].length, 4);
}

#[test]
fn parse_data_runs_multiple() {
    let data = [0x21, 0x04, 0x08, 0x00, 0x11, 0x02, 0x03, 0x00];
    let runs = parse_data_runs(&data);
    assert_eq!(runs.len(), 2);
    assert_eq!(runs[0].lcn, 8);
    assert_eq!(runs[0].length, 4);
    assert_eq!(runs[1].lcn, 11);
    assert_eq!(runs[1].length, 2);
}

#[test]
fn scanner_parse_data_runs_empty() {
    let runs = parse_data_runs(&[0]);
    assert!(runs.is_empty());
}

#[test]
fn scanner_parse_data_runs_single() {
    let runs = parse_data_runs(&[0x21, 0x04, 0x08, 0x00]);
    assert_eq!(runs.len(), 1);
    assert!(!runs[0].is_sparse);
    assert_eq!(runs[0].lcn, 8);
    assert_eq!(runs[0].length, 4);
}

#[test]
fn scanner_parse_data_runs_sparse() {
    let runs = parse_data_runs(&[0x21, 0x04, 0x00, 0x00]);
    assert_eq!(runs.len(), 1);
    assert!(runs[0].is_sparse);
    assert_eq!(runs[0].length, 4);
}

#[test]
fn scanner_parse_data_runs_multiple() {
    let data = [0x21, 0x04, 0x08, 0x00, 0x11, 0x02, 0x03, 0x00];
    let runs = parse_data_runs(&data);
    assert_eq!(runs.len(), 2);
    assert_eq!(runs[0].lcn, 8);
    assert_eq!(runs[0].length, 4);
    assert_eq!(runs[1].lcn, 11);
    assert_eq!(runs[1].length, 2);
}

#[test]
fn signed_le_positive() {
    assert_eq!(read_signed_le(&[0x01]), 1);
    assert_eq!(read_signed_le(&[0x08, 0x00]), 8);
}

#[test]
fn signed_le_negative() {
    assert_eq!(read_signed_le(&[0xFF]), -1);
    assert_eq!(read_signed_le(&[0xFE, 0xFF]), -2);
}

#[test]
fn scanner_signed_le_positive() {
    assert_eq!(read_signed_le(&[0x01]), 1);
    assert_eq!(read_signed_le(&[0x08, 0x00]), 8);
}

#[test]
fn scanner_signed_le_negative() {
    assert_eq!(read_signed_le(&[0xFF]), -1);
    assert_eq!(read_signed_le(&[0xFE, 0xFF]), -2);
}

/// A record of 1024 bytes with standard information and a file name, whose times stand
/// where they belong.
fn build_fake_record(
    si_ctime: u64,
    si_mtime: u64,
    si_atime: u64,
    si_attrs: u32,
    fn_mtime: u64,
) -> Vec<u8> {
    let record_size = 1024usize;
    let mut record = vec![0u8; record_size];

    record[0..4].copy_from_slice(b"FILE");
    let usn_offset: u16 = 0x30;
    record[4..6].copy_from_slice(&usn_offset.to_le_bytes());
    record[6..8].copy_from_slice(&3u16.to_le_bytes());
    let first_attr_offset: u16 = 0x40;
    record[20..22].copy_from_slice(&first_attr_offset.to_le_bytes());
    record[22..24].copy_from_slice(&0x03u16.to_le_bytes());

    record[0x30] = 0x01;
    record[0x31] = 0x00;
    record[0x32] = 0x01;
    record[0x33] = 0x00;
    record[0x34] = 0x02;
    record[0x35] = 0x00;

    record[510] = 0x01;
    record[511] = 0x00;
    record[1022] = 0x01;
    record[1023] = 0x00;

    let si_off = first_attr_offset as usize;
    record[si_off..si_off + 4].copy_from_slice(&ATTR_STANDARD_INFO.to_le_bytes());
    let si_len: u32 = 96;
    record[si_off + 4..si_off + 8].copy_from_slice(&si_len.to_le_bytes());
    record[si_off + 8] = 0;
    record[si_off + 20..si_off + 22].copy_from_slice(&0x18u16.to_le_bytes());
    record[si_off + 16..si_off + 20].copy_from_slice(&48u32.to_le_bytes());

    let val = si_off + 0x18;
    record[val..val + 8].copy_from_slice(&si_ctime.to_le_bytes());
    record[val + 8..val + 16].copy_from_slice(&si_mtime.to_le_bytes());
    record[val + 16..val + 24].copy_from_slice(&0u64.to_le_bytes());
    record[val + 24..val + 32].copy_from_slice(&si_atime.to_le_bytes());
    record[val + 32..val + 36].copy_from_slice(&si_attrs.to_le_bytes());

    let fn_off = si_off + si_len as usize;
    record[fn_off..fn_off + 4].copy_from_slice(&ATTR_FILE_NAME.to_le_bytes());
    let fn_len: u32 = 128;
    record[fn_off + 4..fn_off + 8].copy_from_slice(&fn_len.to_le_bytes());
    record[fn_off + 8] = 0;
    record[fn_off + 20..fn_off + 22].copy_from_slice(&0x18u16.to_le_bytes());
    record[fn_off + 16..fn_off + 20].copy_from_slice(&80u32.to_le_bytes());

    let fval = fn_off + 0x18;
    record[fval..fval + 8].copy_from_slice(&5u64.to_le_bytes());
    record[fval + 16..fval + 24].copy_from_slice(&fn_mtime.to_le_bytes());
    record[fval + 64] = 4;
    record[fval + 65] = 0;
    let name_bytes = "test".encode_utf16().collect::<Vec<u16>>();
    for (i, ch) in name_bytes.iter().enumerate() {
        record[fval + 66 + i * 2..fval + 68 + i * 2].copy_from_slice(&ch.to_le_bytes());
    }

    let end_off = fn_off + fn_len as usize;
    record[end_off..end_off + 4].copy_from_slice(&ATTR_END.to_le_bytes());

    record
}

#[test]
fn extract_si_timestamps_from_fake_record() {
    let ctime: u64 = 131_000_000_000_000_000;
    let mtime: u64 = 132_000_000_000_000_000;
    let atime: u64 = 133_000_000_000_000_000;
    let attrs: u32 = 0x20;

    let record = build_fake_record(ctime, mtime, atime, attrs, 0);

    assert_eq!(extract_ctime(&record, 1024), Some(ctime));
    assert_eq!(extract_mtime(&record, 1024), Some(mtime));
    assert_eq!(extract_atime(&record, 1024), Some(atime));
    assert_eq!(extract_attributes(&record, 1024), attrs);
}

#[test]
fn extract_fn_mtime_from_fake_record() {
    let fn_mtime: u64 = 134_000_000_000_000_000;
    let record = build_fake_record(0, 0, 0, 0, fn_mtime);

    let ts = compare_timestamps(&record);
    assert_eq!(ts.si_mtime, Some(0));
    assert_eq!(ts.fn_mtime, Some(fn_mtime));
}

#[test]
fn compare_timestamps_returns_both_sources() {
    let c1: u64 = 100;
    let m1: u64 = 200;
    let a1: u64 = 300;
    let m2: u64 = 400;
    let record = build_fake_record(c1, m1, a1, 0, m2);

    let ts = compare_timestamps(&record);
    assert_eq!(ts.si_ctime, Some(c1));
    assert_eq!(ts.si_mtime, Some(m1));
    assert_eq!(ts.si_atime, Some(a1));
    assert_eq!(ts.fn_ctime, Some(0));
    assert_eq!(ts.fn_mtime, Some(m2));
    assert_eq!(ts.fn_atime, Some(0));
}

fn build_list_record() -> Vec<u8> {
    let record_size = 1024usize;
    let mut record = vec![0u8; record_size];
    record[0..4].copy_from_slice(b"FILE");
    let first_attr_offset: u16 = 0x40;
    record[20..22].copy_from_slice(&first_attr_offset.to_le_bytes());
    let usn_offset: u16 = 0x30;
    record[4..6].copy_from_slice(&usn_offset.to_le_bytes());
    record[6..8].copy_from_slice(&3u16.to_le_bytes());
    record[0x30] = 0x01;
    record[0x31] = 0x00;
    record[0x32] = 0x01;
    record[0x33] = 0x00;
    record[0x34] = 0x02;
    record[0x35] = 0x00;
    record[510] = 0x01;
    record[511] = 0x00;
    record[1022] = 0x01;
    record[1023] = 0x00;

    let attr_off = first_attr_offset as usize;
    record[attr_off..attr_off + 4].copy_from_slice(&ATTR_ATTRIBUTE_LIST.to_le_bytes());
    let attr_len: u32 = 128;
    record[attr_off + 4..attr_off + 8].copy_from_slice(&attr_len.to_le_bytes());
    record[attr_off + 8] = 0;
    record[attr_off + 16..attr_off + 20].copy_from_slice(&96u32.to_le_bytes());
    record[attr_off + 20..attr_off + 22].copy_from_slice(&0x18u16.to_le_bytes());

    let val = attr_off + 0x18;

    let e = val;
    record[e..e + 4].copy_from_slice(&ATTR_STANDARD_INFO.to_le_bytes());
    record[e + 4..e + 6].copy_from_slice(&32u16.to_le_bytes());
    record[e + 16..e + 24].copy_from_slice(&100u64.to_le_bytes());

    let e = val + 32;
    record[e..e + 4].copy_from_slice(&ATTR_DATA.to_le_bytes());
    record[e + 4..e + 6].copy_from_slice(&32u16.to_le_bytes());
    record[e + 16..e + 24].copy_from_slice(&200u64.to_le_bytes());

    let e = val + 64;
    record[e..e + 4].copy_from_slice(&ATTR_DATA.to_le_bytes());
    record[e + 4..e + 6].copy_from_slice(&32u16.to_le_bytes());
    record[e + 16..e + 24].copy_from_slice(&300u64.to_le_bytes());
    record
}

#[test]
fn extract_attribute_list_parses_entries() {
    let record = build_list_record();
    let entries = extract_attribute_list(&record, 1024);
    assert_eq!(entries.len(), 3);
    assert_eq!(entries[0], (ATTR_STANDARD_INFO, 100));
    assert_eq!(entries[1], (ATTR_DATA, 200));
    assert_eq!(entries[2], (ATTR_DATA, 300));
}

#[test]
fn extension_records_are_those_with_data() {
    let record = build_list_record();
    assert_eq!(extract_data_extension_records(&record, 1024), vec![200, 300]);
}

#[test]
fn extract_data_size_returns_zero_without_data() {
    let record = build_fake_record(100, 200, 300, 0x20, 400);
    let size = extract_data_size(&record, 1024, None);
    assert_eq!(size, 0);
}

#[test]
fn numbers_are_read_from_bytes() {
    let data = [0x01, 0x02, 0x03, 0x04, 0x05, 0x06, 0x07, 0x08];
    assert_eq!(read_u16(&data, 1), 0x0302);
    assert_eq!(read_u32(&data, 0), 0x0403_0201);
    assert_eq!(read_u64(&data, 0), 0x0807_0605_0403_0201);
    assert_eq!(read_unsigned_le(&[0xFF, 0x00]), 255);
    assert_eq!(read_signed_le(&[0xFF; 8]), -1);
}

#[test]
fn record_tells_name_parent_and_links() {
    let record = build_fake_record(1, 2, 3, 0x22, 4);
    assert_eq!(extract_name(&record, 1024), "test");
    assert_eq!(extract_parent_record(&record, 1024), 5);
    assert_eq!(count_hard_links(&record, 1024), 1);
    assert_eq!(count_ads(&record, 1024), 0);
    assert_eq!(extract_data_size_from_bytes(&record, 1024), 0);
}

#[test]
fn record_cut_short_has_no_value() {
    let record = build_fake_record(1, 2, 3, 0x22, 4);
    let short = &record[..0x50];
    assert_eq!(extract_mtime(short, 0x50), None);
    assert_eq!(extract_attributes(short, 0x50), 0);
}

#[test]
fn fixup_puts_sector_ends_back() {
    let mut record = build_fake_record(1, 2, 3, 0, 4);
    assert!(apply_fixup(&mut record, 9, 1024).is_ok());
    assert_eq!(record[510], 0x01);
    assert_eq!(record[1022], 0x02);
}

#[test]
fn fixup_refuses_other_sequence_number() {
    let mut record = build_fake_record(1, 2, 3, 0, 4);
    record[1022] = 0x77;
    let e = apply_fixup(&mut record, 9, 1024);
    assert!(e.is_err());
    assert!(e.err().unwrap().message().contains("Record 9"));
}

#[test]
fn fixup_refuses_other_count() {
    let mut record = build_fake_record(1, 2, 3, 0, 4);
    record[6] = 5;
    assert!(apply_fixup(&mut record, 9, 1024).is_err());
}

#[test]
fn attributes_have_letters() {
    assert_eq!(format_attributes(0), "-");
    assert!(format_attributes(0x01).contains('R'));
    assert_eq!(well_known_name(0), Some("$MFT"));
    assert_eq!(well_known_name(99), None);
}

#[test]
fn times_count_from_1970() {
    assert_eq!(ntfs_time_to_unix(Some(116444736000000000)), 0);
    assert_eq!(ntfs_time_to_unix(Some(116444736010000000)), 1);
    assert_eq!(ntfs_time_to_unix(Some(0)), 0);
    assert_eq!(ntfs_time_to_unix(None), 0);
    assert_eq!(usn_timestamp_to_unix(116444736000000000), 0);
    let t: u64 = 125_911_584_000_000_000;
    assert_eq!(filetime_to_unix((t >> 32) as u32, t as u32), 946684800);
}

#[test]
fn disk_offsets_follow_the_runs() {
    let runs = vec![
        DataRun { lcn: 8, length: 4, is_sparse: false },
        DataRun { lcn: 0, length: 2, is_sparse: true },
        DataRun { lcn: 100, length: 1, is_sparse: false },
    ];
    assert!(check_runs(&runs, 1024, 4096));
    assert_eq!(record_disk_offset(&runs, 1024, 4096, 0), Some(8 * 4096));
    assert_eq!(record_disk_offset(&runs, 1024, 4096, 5), Some(8 * 4096 + 5 * 1024));
    assert_eq!(record_disk_offset(&runs, 1024, 4096, 24), Some(100 * 4096));
    assert_eq!(record_disk_offset(&runs, 1024, 4096, 28), None);
}

#[test]
fn scanner_needs_a_record_with_runs() {
    let record = build_fake_record(1, 2, 3, 0, 4);
    assert!(MftScanner::from_first_record(record, 4096, 1024).is_err());
    let blank = vec![0u8; 1024];
    let e = MftScanner::from_first_record(blank, 4096, 1024);
    assert!(!e.err().unwrap().message().is_empty());
}

/// The first record of a table that lies in four clusters from the eighth on.
fn build_table_record() -> Vec<u8> {
    let mut record = build_fake_record(1, 2, 3, 0, 4);
    let at = 0x40 + 96 + 128;
    record[at..at + 4].copy_from_slice(&ATTR_DATA.to_le_bytes());
    record[at + 4..at + 8].copy_from_slice(&72u32.to_le_bytes());
    record[at + 8] = 1;
    record[at + 32..at + 34].copy_from_slice(&64u16.to_le_bytes());
    record[at + 48..at + 56].copy_from_slice(&16384u64.to_le_bytes());
    record[at + 64..at + 69].copy_from_slice(&[0x21, 0x04, 0x08, 0x00, 0x00]);
    record[at + 72..at + 76].copy_from_slice(&ATTR_END.to_le_bytes());
    record
}

#[test]
fn scanner_steps_through_the_table() {
    let scanner = match MftScanner::from_first_record(build_table_record(), 4096, 1024) {
        Ok(s) => s,
        Err(e) => panic!("{}", e.message()),
    };
    let mut p = ScanProgress::new();
    let step = scanner.next_step(&mut p, u64::MAX);
    assert!(matches!(step, ScanStep::Seek(32768)));
    scanner.seek_done(&mut p, true);
    let step = scanner.next_step(&mut p, u64::MAX);
    assert!(matches!(step, ScanStep::Read));
    let mut record = build_fake_record(1, 2, 3, 0x20, 4);
    let r = scanner.take_record(&mut p, &mut record).unwrap();
    assert_eq!(r.name, "test");
    assert_eq!(r.record_number, 0);
    assert!(r.is_directory);
    let mut blank = vec![0u8; 1024];
    assert!(matches!(scanner.next_step(&mut p, u64::MAX), ScanStep::Read));
    assert!(scanner.take_record(&mut p, &mut blank).is_none());
    assert!(matches!(scanner.next_step(&mut p, 2), ScanStep::Done));
}

#[test]
fn sizes_come_from_extensions() {
    let mut found: HashMap<u64, u64> = HashMap::new();
    found.insert(200, 7);
    let pending = vec![(3u64, vec![200u64, 300u64]), (4u64, vec![300u64])];
    let sizes = real_sizes(&pending, &found);
    assert_eq!(sizes.get(&3), Some(&7));
    assert_eq!(sizes.get(&4), None);
    let mut none = Vec::new();
    fill_sizes(&mut none, &sizes);
    assert!(none.is_empty());
}

/// The record of a file without contents of its own.
fn build_file_record() -> Vec<u8> {
    let mut record = build_fake_record(1, 2, 3, 0, 4);
    record[22] = 0x01;
    record
}

/// Reads the records of a table, and gives those that describe files and what was counted.
fn read_table(scanner: &MftScanner, table: &[Vec<u8>]) -> (Vec<ScanResult>, ScanProgress) {
    let mut p = ScanProgress::new();
    let mut found = Vec::new();
    let mut next = 0;
    loop {
        match scanner.next_step(&mut p, u64::MAX) {
            ScanStep::Seek(_) => scanner.seek_done(&mut p, true),
            ScanStep::Read => {
                if next < table.len() {
                    let mut record = table[next].clone();
                    if let Some(r) = scanner.take_record(&mut p, &mut record) {
                        found.push(r);
                    }
                } else {
                    scanner.read_failed(&mut p);
                }
                next += 1;
            }
            ScanStep::Done => return (found, p),
        }
    }
}

#[test]
fn both_ways_to_scan_tell_the_same() {
    let scanner = match MftScanner::from_first_record(build_table_record(), 4096, 1024) {
        Ok(s) => s,
        Err(e) => panic!("{}", e.message()),
    };
    let table = vec![build_file_record(), vec![0u8; 1024], build_file_record()];
    let (streamed, p) = read_table(&scanner, &table);
    let (records, q) = read_table(&scanner, &table);
    assert_eq!(p.stats, q.stats);
    assert_eq!((p.stats.files, p.stats.skip_no_signature, p.stats.total_records), (2, 1, 16));
    let mut sizes: HashMap<u64, u64> = HashMap::new();
    sizes.insert(2, 77);
    let collected = collect_scan(records, q.stats, &sizes);
    assert_eq!(collected.all_records.len(), streamed.len());
    for (a, b) in collected.all_records.iter().zip(&streamed) {
        assert_eq!(a.record_number, b.record_number);
        assert_eq!(a.name, b.name);
        assert_eq!(a.size, sizes.get(&b.record_number).copied().unwrap_or(b.size));
    }
    assert_eq!(collected.all_records[1].size, 77);
    assert_eq!((collected.files, collected.total_records), (2, 16));
}

#[test]
fn times_beyond_the_value_are_not_there() {
    let record = build_fake_record(1, 2, 3, 0x22, 4);
    assert_eq!(extract_si_time(&record, 1024, 1000), None);
    assert_eq!(extract_si_time(&record, 1024, usize::MAX), None);
}
