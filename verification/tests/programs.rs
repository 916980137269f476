use everyfile::aligned_reader::{AlignedReader, FillStep, ReadOutcome, SeekTo};
use everyfile::config::{
    scan_kinds, Config, ConfigResponse, IndexSettings, SaveConfigParams,
};
use everyfile::database::{search_pattern, usn_state_of, FileRow};
use everyfile::error::AppError;
use everyfile::export::{csv_escape, csv_line, csv_text, parse_format, txt_line, txt_text, ExportFormat};
use everyfile::file_logger::{
    backup_name, expired_logs, is_full, is_log_name, log_dir_path, log_file_name, DualLogger,
    LogLevel,
};
use everyfile::icon::{encode_bmp, icon_key, icon_key_for, icon_probe, icon_url};
use everyfile::mft_error::MftError;
use everyfile::named_order::sort_by_name;
use everyfile::search::SearchResult;
use everyfile::shell_menu::{
    action_for, after_step, command_offset, delete_question, failure_text, fallback_menu,
    select_arguments, BuildOutcome, FallbackCommand, MenuAction, MenuMessage, MenuReply, MenuRoute,
    MenuSession, MenuStep, MessageReply, SessionState,
};
use everyfile::startup::{
    all_ready, any_walked, changed_fids, count_change, instance_step,
    must_write_startup, parse_arguments, poll_step, relaunch_parameters, relaunch_result,
    start_volumes, startup_command, walk_step, wants_elevation, InstanceStep, PollStep, WalkStep,
};
use everyfile::volume_manager::VolumeManager;
use everyfile::volumes::{
    add_name, drives_from, drop_name, get_index_status, get_monitored_volumes, get_volumes,
    has_name, refresh_volumes, register_volume, root_path, uses_journal, volume_info, VolumeInfo,
    VolumeState,
};
use everyfile::wide::{text_before_zero, text_in_buffer, to_wide};

fn result() -> SearchResult {
    SearchResult {
        file_id: 1,
        name: "a,b.txt".to_string(),
        path: "C:\\a,b.txt".to_string(),
        size: 1536,
        modified_time: 0,
        is_directory: false,
    }
}

#[test]
fn csv_fields_are_quoted() {
    assert_eq!(csv_escape("plain"), "plain");
    assert_eq!(csv_escape("a,b"), "\"a,b\"");
    assert_eq!(csv_escape("say \"hi\""), "\"say \"\"hi\"\"\"");
    assert_eq!(csv_escape("two\nlines"), "\"two\nlines\"");
}

#[test]
fn results_are_written() {
    let r = result();
    assert_eq!(
        csv_line(&r),
        "\"a,b.txt\",\"C:\\a,b.txt\",1536,1970/01/01 00:00:00,false"
    );
    assert_eq!(txt_line(&r), "a,b.txt\tC:\\a,b.txt\t1.5 KB\t1970/01/01 00:00:00\tfalse");
    let all = vec![r];
    assert_eq!(
        csv_text(&all),
        "Name,Path,Size,Modified,IsDirectory\n\"a,b.txt\",\"C:\\a,b.txt\",1536,1970/01/01 00:00:00,false\n"
    );
    assert_eq!(
        txt_text(&all),
        "a,b.txt\tC:\\a,b.txt\t1.5 KB\t1970/01/01 00:00:00\tfalse\n"
    );
    assert_eq!(parse_format("csv"), Ok(ExportFormat::Csv));
    assert_eq!(parse_format("txt"), Ok(ExportFormat::Txt));
    assert_eq!(parse_format("json"), Ok(ExportFormat::Json));
    assert_eq!(parse_format("xml"), Err("Invalid format".to_string()));
}

fn float_size(size: u64) -> String {
    const KILOBYTE: u64 = 1024;
    const MEGABYTE: u64 = KILOBYTE * 1024;
    const GIGABYTE: u64 = MEGABYTE * 1024;
    match size {
        s if s >= GIGABYTE => format!("{:.1} GB", s as f64 / GIGABYTE as f64),
        s if s >= MEGABYTE => format!("{:.1} MB", s as f64 / MEGABYTE as f64),
        s if s >= KILOBYTE => format!("{:.1} KB", s as f64 / KILOBYTE as f64),
        s => format!("{} B", s),
    }
}

#[test]
fn sizes_are_rounded_as_doubles_are() {
    assert_eq!(SearchResult::format_size_static(0), "0 B");
    assert_eq!(SearchResult::format_size_static(1023), "1023 B");
    assert_eq!(SearchResult::format_size_static(1024), "1.0 KB");
    assert_eq!(SearchResult::format_size_static(1280), "1.2 KB");
    let mut x: u64 = 1;
    for i in 0..40000u64 {
        x = x.wrapping_mul(6364136223846793005).wrapping_add(1442695040888963407);
        let size = x >> (i % 64);
        assert_eq!(SearchResult::format_size_static(size), float_size(size));
    }
    for size in 1024..6000u64 {
        assert_eq!(SearchResult::format_size_static(size), float_size(size));
    }
    for size in [u64::MAX, u64::MAX - 1, 1 << 53, (1 << 53) + 1, (1 << 60) + 128] {
        assert_eq!(SearchResult::format_size_static(size), float_size(size));
    }
}

#[test]
fn times_are_written_in_utc() {
    assert_eq!(SearchResult::format_time_static(1704067200), "2024/01/01 00:00:00");
    assert_eq!(SearchResult::format_time_static(i64::MAX), "1970/01/01 00:00:00");
    assert_eq!(result().formatted_modified_time(), "1970/01/01 00:00:00");
}

#[test]
fn images_tell_their_size() {
    let pixels: Vec<u8> = (0..16).collect();
    let data = encode_bmp(&pixels, 2, 2).unwrap();
    assert_eq!(data.len(), 54 + 16);
    assert_eq!(&data[0..2], b"BM");
    assert_eq!(&data[2..6], &70u32.to_le_bytes());
    assert_eq!(&data[18..22], &2u32.to_le_bytes());
    assert_eq!(&data[54..62], &[8, 9, 10, 11, 12, 13, 14, 15]);
    assert_eq!(&data[62..70], &[0, 1, 2, 3, 4, 5, 6, 7]);
    assert_eq!(encode_bmp(&pixels, 3, 2), Err("Pixel data too short".to_string()));
    let url = icon_url(&vec![0, 0, 0, 0], 1, 1).unwrap();
    assert!(url.starts_with("data:image/bmp;base64,Qk06"));
    assert!(icon_url(&vec![0], 1, 1).is_err());
}

#[test]
fn icons_are_kept_by_extension() {
    assert_eq!(icon_key(true, &Some("TXT".to_string())), "__directory__");
    assert_eq!(icon_key(false, &Some("TXT".to_string())), ".txt");
    assert_eq!(icon_key(false, &None), "__noext__");
    assert_eq!(icon_key_for("png".to_string()), ".png");
    assert_eq!(icon_probe(".txt", false), "file.txt");
    assert_eq!(icon_probe("x", true), "__folder__");
}

#[test]
fn settings_have_defaults_and_migrate() {
    let mut c = Config::default();
    assert_eq!(c.default_volume, "D:");
    assert_eq!(c.max_cache_items, 50);
    assert_eq!(c.max_history_items, 20);
    assert_eq!(c.monitored_volumes, vec!["D:"]);
    assert_eq!(c.index_settings, IndexSettings::default());
    assert!(!c.migrate());
    c.index_settings.update_interval = 2;
    assert!(c.migrate());
    assert_eq!(c.index_settings.update_interval, 5);
    for interval in [0, 3, 10, 60] {
        c.index_settings.update_interval = interval;
        assert!(!c.migrate());
        assert_eq!(c.index_settings.update_interval, interval);
    }
    c.index_settings.update_interval = 5;
    assert!(c.add_monitored("C:"));
    assert!(!c.add_monitored("C:"));
    c.remove_monitored("D:");
    assert_eq!(c.monitored_volumes, vec!["C:"]);
    assert_eq!(scan_kinds(&None), (false, false));
    c.index_settings.include_hidden_files = true;
    let shown = ConfigResponse::of_config(c, true);
    assert!(shown.startup && shown.include_hidden_files);
    let params = SaveConfigParams {
        scan_all_volumes: true,
        default_volume: "E:".to_string(),
        max_cache_items: 1,
        max_history_items: 2,
        enable_usn_journal: false,
        include_hidden_files: true,
        include_system_files: true,
        update_interval: 9,
        monitored_volumes: vec![],
        startup: true,
    };
    let c = params.into_config();
    assert_eq!(c.index_settings.update_interval, 9);
    assert!(c.scan_all_volumes);
    assert_eq!(scan_kinds(&Some(c)), (true, true));
}

#[test]
fn menus_fall_back_while_hung() {
    let mut m = MenuSession::new();
    assert_eq!(m.open(1000), MenuRoute::Shell);
    assert_eq!(m.state, SessionState::Building);
    assert_eq!(m.on_outcome(BuildOutcome::TimedOut, 1000), MenuReply::Fallback);
    assert_eq!(m.open(1300), MenuRoute::Fallback);
    m.on_closed(0);
    assert_eq!(m.state, SessionState::Hung);
    assert_eq!(m.open(1301), MenuRoute::Shell);
    assert_eq!(m.on_outcome(BuildOutcome::Ready, 1301), MenuReply::Shown);
    m.on_ready();
    assert_eq!(m.state, SessionState::Tracking);
    assert_eq!(m.take_over(7), None);
    assert_eq!(m.take_over(8), Some(7));
    m.on_closed(7);
    assert_eq!((m.owner, m.state), (8, SessionState::Idle));
    assert_eq!(m.on_outcome(BuildOutcome::Failed, 1), MenuReply::Refused);
    assert_eq!(m.on_outcome(BuildOutcome::Lost, 1), MenuReply::TaskFailed);
}

#[test]
fn menu_messages_select_commands() {
    let mut m = MenuSession::new();
    assert_eq!(m.on_message(MenuMessage::Highlighted { word: 5 }), MessageReply::Default);
    assert_eq!(m.selected, 5);
    m.on_message(MenuMessage::Highlighted { word: 6 | (0x10 << 16) });
    m.on_message(MenuMessage::Highlighted { word: 0xFFFF });
    assert_eq!(m.selected, 5);
    assert_eq!(m.on_message(MenuMessage::Command { word: 9 }), MessageReply::Done);
    assert_eq!(m.selected, 9);
    m.on_message(MenuMessage::Command { word: 0 });
    assert_eq!(m.selected, 9);
    assert_eq!(m.on_message(MenuMessage::Drawing), MessageReply::Forward);
    assert_eq!(m.on_message(MenuMessage::Other), MessageReply::Default);
    assert_eq!(command_offset(1), Some(0));
    assert_eq!(command_offset(0), None);
    assert_eq!(action_for(&Some("Properties".to_string())), MenuAction::Properties);
    assert_eq!(action_for(&Some("DELETE".to_string())), MenuAction::Delete);
    assert_eq!(action_for(&Some("open".to_string())), MenuAction::Invoke);
    assert_eq!(action_for(&None), MenuAction::Invoke);
}

#[test]
fn menu_steps_free_their_lists() {
    assert_eq!(
        after_step(MenuStep::ParseParent, true),
        (false, false, Some(MenuStep::BindParent))
    );
    assert_eq!(after_step(MenuStep::BindParent, false), (true, false, None));
    assert_eq!(after_step(MenuStep::GetMenu, false), (true, true, None));
    assert_eq!(after_step(MenuStep::GetMenu, true), (true, true, Some(MenuStep::CastMenu)));
    assert_eq!(after_step(MenuStep::QueryMenu, false), (false, false, None));
    let steps = [
        (MenuStep::CheckPath, "Path does not exist: p"),
        (MenuStep::GetDesktop, "Failed to get desktop folder: e"),
        (MenuStep::ParseParent, "Failed to parse parent path: e"),
        (MenuStep::BindParent, "Failed to bind parent: e"),
        (MenuStep::NameFile, "Invalid file name: p"),
        (MenuStep::ParseFile, "Failed to parse file name: e"),
        (MenuStep::GetMenu, "Failed to get IContextMenu: e"),
        (MenuStep::CastMenu, "Failed to get IContextMenu2: e"),
        (MenuStep::CreatePopup, "Failed to create popup menu: e"),
        (MenuStep::QueryMenu, "Failed to query context menu: e"),
        (MenuStep::Invoke, "Failed to invoke command: e"),
    ];
    for (step, text) in steps {
        assert_eq!(failure_text(step, "p", "e"), text);
    }
}

#[test]
fn built_in_menu_has_five_commands() {
    let menu = fallback_menu();
    assert_eq!(menu.len(), 6);
    assert_eq!(menu[2], None);
    for command in menu.into_iter().flatten() {
        assert_eq!(FallbackCommand::of_id(command.id()), Some(command));
        assert!(!command.label().is_empty());
    }
    assert_eq!(FallbackCommand::of_id(0), None);
    assert_eq!(FallbackCommand::of_id(6), None);
    assert_eq!(select_arguments("C:\\a"), "/select,\"C:\\a\"");
    assert!(delete_question("C:\\a").ends_with("\n\nC:\\a"));
}

#[test]
fn wide_texts_end_with_zero() {
    assert_eq!(to_wide("aé"), vec![0x61, 0xE9, 0]);
    let text = "x\u{1F600}y";
    let mut expected: Vec<u16> = text.encode_utf16().collect();
    expected.push(0);
    assert_eq!(to_wide(text), expected);
    assert_eq!(text_before_zero(&expected), text);
    assert_eq!(text_before_zero(&vec![0x61, 0x62]), "ab");
    assert_eq!(text_in_buffer(&vec![0x61, 0x62]), "");
    assert_eq!(text_in_buffer(&vec![0x61, 0, 0x62]), "a");
}

fn info(letter: &str, file_system: &str) -> VolumeInfo {
    VolumeInfo {
        drive_letter: letter.to_string(),
        volume_name: "v".to_string(),
        file_system: file_system.to_string(),
        total_size: 2,
        free_space: 1,
    }
}

#[test]
fn drives_come_from_bits() {
    assert_eq!(drives_from(0b1101, 0).unwrap(), vec!["A:", "C:", "D:"]);
    assert!(matches!(drives_from(0, 5), Err(AppError::WindowsApi(5))));
    assert_eq!(root_path("C:"), "C:\\");
    let v = volume_info("C:", &vec![0x41, 0], &vec![0x4E, 0x54, 0], 5, 6);
    assert_eq!((v.volume_name.as_str(), v.file_system.as_str()), ("A", "NT"));
    let list = get_volumes(vec![info("D:", "NTFS"), info("C:", "FAT32")]);
    assert_eq!(list[0].drive_letter, "C:");
    assert_eq!(list[1].file_count, 0);
    assert!(uses_journal(true, "ntfs"));
    assert!(!uses_journal(true, "FAT32"));
    assert!(!uses_journal(false, "NTFS"));
    assert_eq!(
        sort_by_name(vec!["b".to_string(), "a".to_string(), "c".to_string()]),
        vec!["a", "b", "c"]
    );
}

#[test]
fn names_are_added_once() {
    let mut names = vec!["C:".to_string()];
    assert!(!add_name(&mut names, "C:"));
    assert!(add_name(&mut names, "D:"));
    assert!(has_name(&names, "D:"));
    assert_eq!(drop_name(&names, "D:"), vec!["C:"]);
}

#[test]
fn index_status_tells_of_volumes() {
    let mut vm = VolumeManager::new();
    let s = get_index_status(&vm, &vec![]);
    assert_eq!((s.status.as_str(), s.message.as_str()), ("ready", "等待扫描..."));
    assert!(register_volume(&mut vm, "D:", true, "NTFS".to_string(), false, true).is_ok());
    assert!(register_volume(&mut vm, "C:", true, "FAT32".to_string(), false, true).is_ok());
    assert!(vm.get_monitor("D:").unwrap().use_usn);
    assert!(!vm.get_monitor("C:").unwrap().use_usn);
    let s = get_index_status(&vm, &vec!["D:".to_string()]);
    assert_eq!((s.status.as_str(), s.message.as_str()), ("scanning", "D: 加载中..."));
    assert_eq!(s.volumes, vec!["C:", "D:"]);
    assert!(matches!(s.volume_statuses[1].state, VolumeState::Loading));
    vm.set_scan_error("C:", "bad".to_string());
    let s = get_index_status(&vm, &vec![]);
    assert_eq!(s.message, "就绪");
    assert!(matches!(s.volume_statuses[0].state, VolumeState::Error { .. }));
    assert!(matches!(s.volume_statuses[1].state, VolumeState::Ready { file_count: 0 }));
    let list = get_monitored_volumes(&vm);
    assert_eq!(list[0].file_system, "FAT32");
    assert_eq!(list[1].drive_letter, "D:");
    let all = refresh_volumes(&mut vm, vec![info("E:", "NTFS"), info("D:", "NTFS")], true, false, false);
    assert_eq!(all.len(), 2);
    assert_eq!(vm.volumes(), vec!["D:", "C:", "E:"]);
    assert!(any_walked(&vm, &vm.volumes()));
    assert!(!all_ready(&vm, &vm.volumes()));
    assert!(all_ready(&vm, &vec![]));
}

#[test]
fn arguments_are_read() {
    let args = |list: &[&str]| list.iter().map(|s| s.to_string()).collect::<Vec<String>>();
    let flags = parse_arguments(&args(&["x", "-S"]));
    assert!(flags.silent && !flags.elevated);
    let flags = parse_arguments(&args(&["x", "--elevated"]));
    assert!(!flags.silent && flags.elevated);
    assert!(!wants_elevation(false, flags, &Some(Config::default())));
    let plain = parse_arguments(&args(&["x"]));
    assert!(wants_elevation(false, plain, &Some(Config::default())));
    assert!(!wants_elevation(true, plain, &Some(Config::default())));
    assert!(!wants_elevation(false, plain, &None));
    assert_eq!(relaunch_parameters(&args(&[])), "--elevated");
    assert_eq!(relaunch_parameters(&args(&["a", "b"])), "a b --elevated");
    assert_eq!(relaunch_result(33), Ok(()));
    assert_eq!(relaunch_result(5), Err(5));
    assert_eq!(startup_command("C:\\e.exe"), "\"C:\\e.exe\" -s");
    assert!(must_write_startup(&None, "x"));
    assert!(!must_write_startup(&Some("x".to_string()), "x"));
    assert_eq!(instance_step(false, false, false), InstanceStep::Run);
    assert_eq!(instance_step(true, true, false), InstanceStep::Wait);
    assert_eq!(instance_step(true, true, true), InstanceStep::GiveWay);
    assert_eq!(instance_step(true, false, false), InstanceStep::GiveWay);
}

#[test]
fn program_starts_with_its_volumes() {
    let v = start_volumes(&Some(Config::default()), true, &vec![]);
    assert_eq!((v[0].name.as_str(), v[0].journal), ("D:", true));
    let present = vec![info("C:", "NTFS"), info("F:", "FAT32")];
    let v = start_volumes(&None, true, &present);
    assert_eq!((v[0].journal, v[1].journal), (true, false));
    let v = start_volumes(&None, false, &present);
    assert_eq!((v.len(), v[0].name.as_str()), (1, "C:"));
}

#[test]
fn tasks_keep_their_intervals() {
    assert_eq!(poll_step(&None, false), PollStep::Poll(30));
    assert_eq!(poll_step(&Some(Config::default()), false), PollStep::Poll(5));
    assert_eq!(poll_step(&Some(Config::default()), true), PollStep::Sleep(5));
    let mut c = Config::default();
    c.index_settings.update_interval = 0;
    assert_eq!(poll_step(&Some(c), false), PollStep::Sleep(60));
    assert_eq!(walk_step(&None, true, false), WalkStep::Walk(300));
    assert_eq!(walk_step(&Some(Config::default()), true, false), WalkStep::Walk(300));
    assert_eq!(walk_step(&None, false, false), WalkStep::Skip { forget: false });
    assert_eq!(walk_step(&None, true, true), WalkStep::Skip { forget: false });
    let mut c = Config::default();
    c.index_settings.update_interval = 0;
    assert_eq!(walk_step(&Some(c), true, false), WalkStep::Skip { forget: true });
    assert_eq!(count_change(5, 8), (3, 0));
    assert_eq!(count_change(8, 5), (0, 3));
    let ids = changed_fids(
        &vec![result()],
        &vec![(0x1_0000_0002, String::new())],
        &vec![(3, result())],
    );
    assert_eq!(ids, vec![1, 2, 3]);
}

#[test]
fn logs_are_named_and_removed() {
    assert_eq!(log_file_name("2024-01-01"), "everyFile-2024-01-01.log");
    assert_eq!(backup_name("2024-01-01", "x"), "everyFile-2024-01-01.x.log.bak");
    assert!(is_log_name("everyFile-2024-01-01.log"));
    assert!(is_log_name("everyFile-2024-01-01.x.log.bak"));
    assert!(!is_log_name("everyFile-2024-01-01.txt"));
    assert!(!is_log_name("other-2024-01-01.log"));
    assert!(is_full(Some(5 * 1024 * 1024)));
    assert!(!is_full(Some(5 * 1024 * 1024 - 1)));
    assert!(!is_full(None));
    assert_eq!(
        log_dir_path(Some("C:\\Data".to_string()), None),
        Some("C:\\Data\\everyFile\\logs".to_string())
    );
    assert_eq!(
        log_dir_path(None, Some("C:\\Users\\u".to_string())),
        Some("C:\\Users\\u\\AppData\\Roaming\\everyFile\\logs".to_string())
    );
    assert_eq!(log_dir_path(None, None), None);
    let times = vec![Some(5), None, Some(9), Some(1), Some(8), Some(7), Some(6), Some(4), Some(3)];
    assert_eq!(expired_logs(&times), vec![3, 1]);
    assert!(expired_logs(&vec![None; 7]).is_empty());
}

#[test]
fn log_lines_are_filtered() {
    let logger = DualLogger;
    assert!(logger.enabled(LogLevel::Info));
    assert!(!logger.enabled(LogLevel::Debug));
    assert!(logger.takes(LogLevel::Warn, "everyfile::main"));
    assert!(!logger.takes(LogLevel::Error, "everyfile::index::usn_worker"));
    assert_eq!(logger.line("t", LogLevel::Info, "main", "hello"), "t INFO  [main] hello");
}

#[test]
fn errors_have_texts() {
    assert_eq!(AppError::WindowsApi(5).message(), "Windows API error: 5");
    assert_eq!(AppError::Io("x".to_string()).message(), "IO error: x");
    assert_eq!(AppError::Regex("x".to_string()).message(), "Regex error: x");
    assert_eq!(MftError::of_io(false, "x".to_string()).message(), "I/O error: x");
    assert_eq!(MftError::NtfsParse("x".to_string()).message(), "NTFS parse error: x");
    assert_eq!(MftError::of_panic(None).message(), "NTFS parser panicked: unknown panic");
    assert_eq!(
        MftError::of_open("\\\\.\\C:", true, String::new()).message(),
        "Permission denied opening '\\\\.\\C:'. On Windows, raw volume access (\\\\.\\C:) requires Administrator privileges. Run as Administrator or provide an NTFS image file path."
    );
    assert!(matches!(
        MftError::of_io(true, String::new()),
        MftError::PermissionDenied { .. }
    ));
}

#[test]
fn reader_gives_the_volume() {
    let volume: Vec<u8> = (0..200u8).collect();
    let mut reader = AlignedReader::new(16, 200);
    assert_eq!(reader.capacity(), 4 * 1024 * 1024);
    assert_eq!(reader.seek(SeekTo::Start(37)), 37);
    assert_eq!(reader.fill_from(4), Some(32));
    reader.fill(32, volume[32..64].to_vec());
    assert_eq!(reader.fill_from(4), None);
    assert_eq!(reader.read(4), vec![37, 38, 39, 40]);
    assert_eq!(reader.pos, 41);
    assert_eq!(reader.read(100), volume[41..64].to_vec());
    assert!(reader.read(1).is_empty());
    assert_eq!(reader.seek(SeekTo::End(-10)), 190);
    assert_eq!(reader.seek(SeekTo::Current(5)), 195);
    assert_eq!(AlignedReader::fill_step(0, 10, ReadOutcome::Got(4)), FillStep::Read(4));
    assert_eq!(AlignedReader::fill_step(4, 10, ReadOutcome::Got(6)), FillStep::Done(10));
    assert_eq!(AlignedReader::fill_step(4, 10, ReadOutcome::End), FillStep::Done(4));
    assert_eq!(AlignedReader::fill_step(4, 10, ReadOutcome::Interrupted), FillStep::Read(4));
    assert_eq!(AlignedReader::fill_step(4, 10, ReadOutcome::Failed), FillStep::Fail);
}

#[test]
fn rows_become_results() {
    assert_eq!(search_pattern("a"), "%a%");
    let row = |time: Option<&str>| FileRow {
        file_id: 3,
        name: "n".to_string(),
        path: "p".to_string(),
        size: 4,
        modified_time: time.map(|t| t.to_string()),
        is_directory: 1,
    };
    assert_eq!(row(Some("2024-01-01 00:00:01")).into_result().modified_time, 1704067201);
    assert_eq!(row(Some("bad")).into_result().modified_time, 0);
    let r = row(None).into_result();
    assert_eq!((r.modified_time, r.is_directory, r.file_id), (0, true, 3));
    assert_eq!(row(None).with_time(Some(8)).modified_time, 8);
    assert_eq!(usn_state_of(None), (0, 0));
    assert_eq!(usn_state_of(Some((5, -1))), (5, 0));
    assert_eq!(usn_state_of(Some((5, 7))), (5, 7));
}
