use excel_engine::cache::missing_columns;
use excel_engine::models::FileStatus;
use excel_engine::pipeline::{needs_parsing, parsed_message, FileOutcome, RunProgress};
use excel_engine::scanner::is_excel_extension;

#[test]
fn status_labels_round_trip() {
    for s in [FileStatus::Pending, FileStatus::Processed, FileStatus::Failed, FileStatus::Skipped] {
        assert_eq!(FileStatus::from_label(s.label()), s);
    }
    assert_eq!(FileStatus::Processed.label(), "Processed");
    assert_eq!(FileStatus::from_label("processed"), FileStatus::Pending);
    assert_eq!(FileStatus::from_label("Skipped"), FileStatus::Skipped);
}

#[test]
fn parsing_needed_unless_cached_unchanged() {
    assert!(needs_parsing(None, 10, false));
    assert!(needs_parsing(Some(9), 10, false));
    assert!(!needs_parsing(Some(10), 10, false));
    assert!(needs_parsing(Some(10), 10, true));
}

#[test]
fn progress_counts_every_ended_file() {
    let mut p = RunProgress::new(3);
    assert!(!p.is_complete());
    assert!(!p.is_empty_run());
    assert_eq!(p.record(FileOutcome::Cached), 1);
    assert_eq!(p.record(FileOutcome::Failed), 2);
    assert_eq!(p.failed(), 1);
    assert!(!p.is_complete());
    assert_eq!(p.record(FileOutcome::Parsed), 3);
    assert!(p.is_complete());
    assert_eq!(p.processed(), 3);
    assert_eq!(p.total(), 3);
    assert_eq!(p.failed(), 1);
    assert!(RunProgress::new(0).is_complete());
    assert!(RunProgress::new(0).is_empty_run());
}

#[test]
fn run_with_failed_files_completes() {
    let mut p = RunProgress::new(2);
    p.record(FileOutcome::Failed);
    p.record(FileOutcome::Failed);
    assert!(p.is_complete());
    assert_eq!(p.failed(), 2);
}

#[test]
fn parsed_file_message() {
    assert_eq!(parsed_message(0, "No header found"), "No header found");
    assert_eq!(parsed_message(3, "No header found"), "");
}

#[test]
fn schema_columns_to_add() {
    let existing = vec!["id".to_string(), "file_path".to_string(), "stt".to_string()];
    let missing = missing_columns(&existing, &vec!["stt", "source_sheet"]);
    assert_eq!(missing, vec!["source_sheet".to_string()]);
    let none: Vec<String> = vec![];
    assert_eq!(missing_columns(&none, &vec!["analysis"]), vec!["analysis".to_string()]);
}

#[test]
fn excel_extensions() {
    assert!(is_excel_extension("xlsx"));
    assert!(is_excel_extension("xls"));
    assert!(!is_excel_extension("XLSX"));
    assert!(is_excel_extension("xlsm"));
    assert!(!is_excel_extension("XLSM"));
    assert!(!is_excel_extension("csv"));
}
