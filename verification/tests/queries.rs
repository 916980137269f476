use everyfile::query::{
    DateOperator, DateType, SearchQuery, SizeFilter, SizeOperator,
};
use everyfile::search::{FileEntry, SearchResult};

#[test]
fn test_folder_modifier_standalone() {
    let q = SearchQuery::parse(":folder");
    assert!(q.path_filter_dir_only);
    assert!(q.keywords.is_empty());

    let q = SearchQuery::parse(":folders");
    assert!(q.path_filter_dir_only);
    assert!(q.keywords.is_empty());
}

#[test]
fn test_folder_modifier_after_path() {
    let q = SearchQuery::parse("path:C:\\Users :folder");
    assert!(q.path_filter_dir_only);
    assert_eq!(q.path_filter, Some("C:\\Users".into()));
    assert!(q.keywords.is_empty());
}

#[test]
fn test_folder_modifier_before_path() {
    let q = SearchQuery::parse(":folder path:C:\\Users");
    assert!(q.path_filter_dir_only);
    assert_eq!(q.path_filter, Some("C:\\Users".into()));
    assert!(q.keywords.is_empty());
}

#[test]
fn test_folder_modifier_with_keyword() {
    let q = SearchQuery::parse("local :folder path:C:\\Users");
    assert!(q.path_filter_dir_only);
    assert_eq!(q.path_filter, Some("C:\\Users".into()));
    assert_eq!(q.keywords, vec!["local"]);
}

#[test]
fn test_bare_folders_is_keyword() {
    let q = SearchQuery::parse("folders");
    assert!(!q.path_filter_dir_only);
    assert_eq!(q.keywords, vec!["folders"]);
}

#[test]
fn test_folder_modifier_matches_directory() {
    let q = SearchQuery::parse(":folder");
    assert!(q.matches(&SearchResult {
        file_id: 1,
        name: "test".into(),
        path: "C:\\Users\\test".into(),
        size: 0,
        modified_time: 0,
        is_directory: true,
    }));
    assert!(!q.matches(&SearchResult {
        file_id: 2,
        name: "file.txt".into(),
        path: "C:\\Users\\file.txt".into(),
        size: 100,
        modified_time: 0,
        is_directory: false,
    }));
}

#[test]
fn test_keyword_name_only_not_path() {
    let q = SearchQuery::parse("local");
    assert!(!q.matches(&SearchResult {
        file_id: 1,
        name: "EBWebView".into(),
        path: "C:\\Users\\lht\\AppData\\Local\\EBWebView".into(),
        size: 0,
        modified_time: 0,
        is_directory: true,
    }));
    assert!(q.matches(&SearchResult {
        file_id: 2,
        name: "local".into(),
        path: "C:\\Somewhere".into(),
        size: 0,
        modified_time: 0,
        is_directory: true,
    }));
}

#[test]
fn test_folder_modifier_matches_name_and_path_filter() {
    let q = SearchQuery::parse("EBWebView :folder path:C:\\Users");
    assert!(q.matches(&SearchResult {
        file_id: 1,
        name: "EBWebView".into(),
        path: "C:\\Users\\lht\\AppData\\Local\\EBWebView".into(),
        size: 0,
        modified_time: 0,
        is_directory: true,
    }));
    assert!(!q.matches(&SearchResult {
        file_id: 2,
        name: "EBWebView".into(),
        path: "C:\\Users\\lht\\AppData\\Local\\EBWebView".into(),
        size: 0,
        modified_time: 0,
        is_directory: false,
    }));
}

fn file(name: &str, path: &str, size: u64, modified_time: i64) -> SearchResult {
    SearchResult {
        file_id: 1,
        name: name.to_string(),
        path: path.to_string(),
        size,
        modified_time,
        is_directory: false,
    }
}

/// The day 2024-01-01, counted from the first of January of the year 1 as day 1, and its
/// first second.
const DAY: i32 = 738886;
const DAY_START: i64 = 1704067200;

#[test]
fn keywords_are_sought_in_either_case() {
    let q = SearchQuery::parse("REPORT");
    assert!(q.matches(&file("my_report.txt", "C:\\my_report.txt", 0, 0)));
    let upper = SearchQuery::parse("ÄRGER");
    assert!(upper.matches(&file("ärger", "C:\\ärger", 0, 0)));
    assert_eq!(upper.keywords_lower, vec!["ärger"]);
}

#[test]
fn every_word_counts() {
    let q = SearchQuery::parse("report path:D:\\Work size:>1MB");
    let good = file("Report.pdf", "D:\\work\\Report.pdf", 2 * 1024 * 1024, 0);
    assert!(q.matches(&good));
    assert!(!q.matches(&file("other.pdf", "D:\\work\\other.pdf", 2 * 1024 * 1024, 0)));
    assert!(!q.matches(&file("Report.pdf", "C:\\Report.pdf", 2 * 1024 * 1024, 0)));
    assert!(!q.matches(&file("Report.pdf", "D:\\work\\Report.pdf", 1024 * 1024, 0)));
}

#[test]
fn blank_query_takes_everything() {
    let q = SearchQuery::parse("   ");
    assert!(q.matches(&file("a", "C:\\a", 0, 0)));
}

#[test]
fn globs_match_whole_names() {
    let q = SearchQuery::parse("*.pdf");
    assert_eq!(q.glob_patterns.len(), 1);
    assert!(q.matches(&file("a.pdf", "C:\\a.pdf", 0, 0)));
    assert!(!q.matches(&file("a.pdf.txt", "C:\\a.pdf.txt", 0, 0)));
    let broken = SearchQuery::parse("a[");
    assert_eq!(broken.glob_patterns.len(), 0);
    assert_eq!(broken.keywords, vec!["a["]);
}

#[test]
fn regular_expressions_match_names() {
    let q = SearchQuery::parse("regex:^report_\\d+");
    assert!(q.matches(&file("report_12.txt", "C:\\x", 0, 0)));
    assert!(!q.matches(&file("my_report_12.txt", "C:\\x", 0, 0)));
    let broken = SearchQuery::parse("regex:(");
    assert!(broken.regex_pattern.is_none());
    assert!(broken.matches(&file("a", "C:\\a", 0, 0)));
}

#[test]
fn sizes_have_units_and_signs() {
    let q = SearchQuery::parse("size:<1KB");
    assert_eq!(
        q.size_filter,
        Some(SizeFilter { operator: SizeOperator::LessThan, value: 1024 })
    );
    let bare = SearchQuery::parse("size:2gb");
    assert_eq!(
        bare.size_filter,
        Some(SizeFilter { operator: SizeOperator::GreaterOrEqual, value: 2 * 1024 * 1024 * 1024 })
    );
    assert!(SearchQuery::parse("size:many").size_filter.is_none());
    let equal = SizeFilter { operator: SizeOperator::Equal, value: 7 };
    assert!(equal.matches(7));
    assert!(!equal.matches(8));
    let at_most = SizeFilter { operator: SizeOperator::LessOrEqual, value: 7 };
    assert!(at_most.matches(7) && at_most.matches(6) && !at_most.matches(8));
}

#[test]
fn days_are_whole_days() {
    let q = SearchQuery::parse_on("dm:2024-01-01", DAY);
    let f = q.date_filter.unwrap();
    assert_eq!(f.date_type, DateType::Modified);
    assert_eq!(f.operator, DateOperator::Equal);
    assert_eq!(f.date, Some(DAY_START));
    assert!(f.matches(DAY_START));
    assert!(f.matches(DAY_START + 86399));
    assert!(!f.matches(DAY_START + 86400));
    assert!(!f.matches(DAY_START - 1));
    let after = SearchQuery::parse_on("dm:>2024-01-01", DAY).date_filter.unwrap();
    assert!(after.matches(DAY_START + 86400));
    assert!(!after.matches(DAY_START + 86399));
}

#[test]
fn today_and_yesterday_are_days() {
    let today = SearchQuery::parse_on("datemodified:today", DAY).date_filter.unwrap();
    assert_eq!(today.date, Some(DAY_START));
    let yesterday = SearchQuery::parse_on("dc:yesterday", DAY).date_filter.unwrap();
    assert_eq!(yesterday.date, Some(DAY_START - 86400));
    assert_eq!(yesterday.date_type, DateType::Created);
    let unknown = SearchQuery::parse_on("da:sometime", DAY).date_filter.unwrap();
    assert_eq!(unknown.date, None);
    assert!(unknown.matches(5));
}

#[test]
fn dates_have_three_forms() {
    for form in ["dm:20240101", "dm:2024-01-01", "dm:2024/01/01"] {
        let f = SearchQuery::parse_on(form, DAY).date_filter.unwrap();
        assert_eq!(f.date, Some(DAY_START));
    }
}

#[test]
fn stored_files_match_as_results_do() {
    let q = SearchQuery::parse("note path:docs");
    let entry = FileEntry::new("Note.txt".to_string(), 1, 5, 0, 9, false);
    assert!(q.matches_entry(&entry, "C:\\Docs\\Note.txt"));
    assert!(q.matches(&entry.to_search_result("C:\\Docs\\Note.txt".to_string())));
    assert!(!q.matches_entry(&entry, "C:\\Other\\Note.txt"));
}

#[test]
fn backslashes_separate_names_in_globs() {
    let q = SearchQuery::parse("**\\notes.*");
    assert_eq!(q.glob_patterns.len(), 1);
    assert!(q.matches(&file("notes.txt", "C:\\notes.txt", 0, 0)));
    assert!(!q.matches(&file("footnotes.txt", "C:\\footnotes.txt", 0, 0)));
    let q = SearchQuery::parse("work\\*.txt");
    assert!(!q.matches(&file("work.txt", "C:\\work.txt", 0, 0)));
}

#[test]
fn keywords_find_letters_beyond_ascii() {
    let q = SearchQuery::parse("É");
    assert!(q.matches_entry(&FileEntry::new("É.txt".to_string(), 0, 1, 0, 1, false), ""));
    assert!(q.matches_entry(&FileEntry::new("é.txt".to_string(), 0, 1, 0, 1, false), ""));
    assert!(!q.matches_entry(&FileEntry::new("e.txt".to_string(), 0, 1, 0, 1, false), ""));
    let q = SearchQuery::parse("ΑΣ");
    assert!(q.matches_entry(&FileEntry::new("ΑΣΑ.txt".to_string(), 0, 1, 0, 1, false), ""));
    let q = SearchQuery::parse("path:É");
    let f = FileEntry::new("x.txt".to_string(), 0, 1, 0, 1, false);
    assert!(q.matches_entry(&f, "C:\\É\\x.txt"));
    assert!(!q.matches_entry(&f, "C:\\e\\x.txt"));
}

#[test]
fn huge_sizes_stay_huge() {
    let q = SearchQuery::parse("size:>99999999999gb");
    assert_eq!(
        q.size_filter,
        Some(SizeFilter { operator: SizeOperator::GreaterThan, value: u64::MAX })
    );
    assert!(!q.matches(&file("a", "C:\\a", u64::MAX, 0)));
}

#[test]
fn backslashes_in_brackets_begin_no_range_of_slashes() {
    let q = SearchQuery::parse("x[\\-a]");
    assert_eq!(q.glob_patterns.len(), 1);
    assert!(q.matches(&file("xa", "C:\\xa", 0, 0)));
    assert!(q.matches(&file("x_", "C:\\x_", 0, 0)));
    assert!(!q.matches(&file("xA", "C:\\xA", 0, 0)));
    assert!(!q.matches(&file("x9", "C:\\x9", 0, 0)));
}
