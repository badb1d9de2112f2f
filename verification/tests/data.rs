use data_dict::data::{
    format_rows, normalize_dict_type, types_compatible, ColumnIssue, DataReport, IssueKind,
};

#[test]
fn data_number_measures_normalize() {
    assert_eq!(normalize_dict_type("number(quantity)"), "number");
    assert_eq!(normalize_dict_type("number(id)"), "number");
    assert_eq!(normalize_dict_type("number"), "number");
    assert_eq!(normalize_dict_type("string"), "string");
}

#[test]
fn data_row_formatting() {
    assert_eq!(format_rows(&[2], 1), "rows: 2");
    assert_eq!(format_rows(&[2, 5, 9], 3), "rows: 2, 5, 9");
    // More nulls than the recorded sample gets an ellipsis.
    assert_eq!(format_rows(&[1, 2, 3, 4, 5], 8), "rows: 1, 2, 3, 4, 5, …");
}

#[test]
fn data_compatibility() {
    assert!(types_compatible("number(quantity)", "number"));
    assert!(types_compatible("string", "string"));
    assert!(types_compatible("enum", "string"));
    assert!(types_compatible("enum", "number"));
    assert!(types_compatible("enum", "enum"));
    assert!(!types_compatible("number", "string"));
    assert!(!types_compatible("date", "datetime"));
    assert!(!types_compatible("boolean", "number"));
}

fn issue_report() -> DataReport {
    DataReport {
        table: "food".to_string(),
        issues: vec![
            ColumnIssue::error(
                "weight".to_string(),
                IssueKind::TypeMismatch { declared: "string".to_string(), actual: "number".to_string() },
            ),
            ColumnIssue::warning("notes".to_string(), IssueKind::ExtraInData { actual: "string".to_string() }),
            ColumnIssue::error("id".to_string(), IssueKind::MissingInData),
            ColumnIssue::error("name".to_string(), IssueKind::NullsInRequired { count: 1, rows: vec![4] }),
        ],
    }
}

#[test]
fn a_report_renders_one_line_per_issue_under_its_table() {
    let report = issue_report();
    assert_eq!(
        report.to_text(),
        "data does not match table \"food\":\n\
         \x20 error: column \"weight\": declared string, data is number\n\
         \x20 warning: column \"notes\": present in data (string) but not in dictionary\n\
         \x20 error: column \"id\": described in dictionary but missing from data\n\
         \x20 error: column \"name\": required but has 1 null value (rows: 4)\n"
    );
}

#[test]
fn a_clean_report_renders_nothing() {
    let report = DataReport { table: "food".to_string(), issues: vec![] };
    assert!(report.is_clean());
    assert!(!report.has_errors());
    assert_eq!(report.to_text(), "");
}

#[test]
fn warnings_alone_do_not_fail_a_report() {
    let report = DataReport {
        table: "t".to_string(),
        issues: vec![ColumnIssue::warning("x".to_string(), IssueKind::ExtraInData { actual: "date".to_string() })],
    };
    assert!(!report.is_clean());
    assert!(!report.has_errors());
    assert!(issue_report().has_errors());
}

#[test]
fn a_skipped_report_is_clean() {
    let report = DataReport::skipped();
    assert!(report.is_clean());
    assert_eq!(report.table, "");
}

#[test]
fn several_nulls_are_plural() {
    let issue = ColumnIssue::error("a".to_string(), IssueKind::NullsInRequired { count: 3, rows: vec![1, 2, 3] });
    assert_eq!(issue.body(), "column \"a\": required but has 3 null values (rows: 1, 2, 3)");
}
