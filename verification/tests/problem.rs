use data_dict::problem::{format_rows, join_rows, location_from, Problem, ProblemKind, ProblemSet, Severity, Status};
use data_dict::Level;
use quarto_source_map::{FileId, SourceContext, SourceInfo};

#[test]
fn codes_and_levels() {
    assert_eq!(ProblemKind::MissingInData.code(), Some("M02"));
    assert_eq!(ProblemKind::MissingInData.level(), Some(Level::Meta));
    assert_eq!(ProblemKind::NullsInRequired { count: 1, rows: vec![2] }.level(), Some(Level::Data));
    assert_eq!(ProblemKind::Io.code(), None);
    assert_eq!(ProblemKind::Io.level(), None);
}

#[test]
fn problem_row_formatting() {
    assert_eq!(format_rows(&[2], 1), "row: 2");
    assert_eq!(format_rows(&[2, 5, 9], 3), "rows: 2, 5, 9");
    assert_eq!(format_rows(&[1, 2, 3, 4, 5], 8), "rows: 1, 2, 3, 4, 5, …");
}

#[test]
fn every_coded_kind_belongs_to_the_level_its_letter_names() {
    let kinds = [
        ProblemKind::TypeMismatch { declared: String::new(), actual: String::new() },
        ProblemKind::MissingInData,
        ProblemKind::ExtraInData { actual: String::new() },
        ProblemKind::MissingSource,
        ProblemKind::UnreadableSource,
        ProblemKind::NullsInRequired { count: 0, rows: vec![] },
    ];
    for kind in &kinds {
        let code = kind.code().expect("a coded kind");
        let level = kind.level().expect("a coded kind has a level");
        match &code[..1] {
            "M" => assert_eq!(level, Level::Meta),
            "D" => assert_eq!(level, Level::Data),
            other => panic!("unexpected letter {other}"),
        }
    }
    assert_eq!(ProblemKind::Spec.code(), None);
    assert_eq!(ProblemKind::Spec.level(), Some(Level::Spec));
}

#[test]
fn plain_problem_renders_expected_then_found() {
    let p = Problem::undocumented_column("notes", "string".to_string());
    assert_eq!(
        p.render_plain(),
        "warning [M03]: Every column in the data should be described in the dictionary.\n  \
         `notes` is in the data (`string`) but not the dictionary",
    );
}

#[test]
fn a_preflight_problem_has_no_code_and_renders_its_message() {
    let p = Problem::preflight(
        ProblemKind::TableNotFound { available: vec!["a".into(), "b".into()] },
        "table \"x\" is not in the data dictionary".to_string(),
    );
    assert_eq!(p.code, None);
    assert_eq!(p.severity, Severity::Error);
    assert_eq!(p.render_plain(), "table \"x\" is not in the data dictionary");
}

#[test]
fn status_is_the_worst_severity_present() {
    let mut set = ProblemSet::new(SourceContext::new());
    assert_eq!(set.status(), Status::Clean);
    assert!(!set.status().failed());
    set.push(Problem::undocumented_column("n", "string".to_string()));
    assert_eq!(set.status(), Status::Warning);
    assert!(!set.status().failed());
    set.push(Problem::preflight(ProblemKind::Io, "unreadable".to_string()));
    assert_eq!(set.status(), Status::Error);
    assert!(set.status().failed());
    set.push(Problem::undocumented_column("m", "string".to_string()));
    assert_eq!(set.status(), Status::Error);
}

#[test]
fn rows_are_joined_with_commas() {
    assert_eq!(join_rows(&[]), "");
    assert_eq!(join_rows(&[7]), "7");
    assert_eq!(join_rows(&[10, 200]), "10, 200");
}

#[test]
fn problems_sort_into_source_order_stably_with_unlocated_ones_last() {
    let at = |file: usize, start: usize| vec![SourceInfo::original(FileId(file), start, start + 1)];
    let mut set = ProblemSet::new(SourceContext::new());
    set.items.push(Problem::preflight(ProblemKind::MissingInData, "unlocated".to_string()));
    set.push_spec_error("S01", "rule".to_string(), "second file".to_string(), at(1, 0));
    set.push_spec_error("S02", "rule".to_string(), "late".to_string(), at(0, 40));
    set.push_spec_error("S03", "rule".to_string(), "early".to_string(), at(0, 5));
    set.push_spec_error("S04", "rule".to_string(), "early too".to_string(), at(0, 5));
    set.sort();
    let order: Vec<&str> = set.items.iter().map(|p| p.message.as_str()).collect();
    assert_eq!(order, ["early", "early too", "late", "second file", "unlocated"]);
}

#[test]
fn a_preflight_set_holds_the_one_failure() {
    let set = ProblemSet::from_preflight(ProblemKind::Parse, "bad yaml".to_string());
    assert_eq!(set.items.len(), 1);
    assert_eq!(set.items[0].code, None);
    assert_eq!(set.items[0].severity, Severity::Error);
    assert_eq!(set.items[0].message, "bad yaml");
    assert!(matches!(set.items[0].kind, ProblemKind::Parse));
    assert_eq!(set.status(), Status::Error);
}

#[test]
fn a_span_is_located_by_where_its_ends_fall() {
    let mut ctx = SourceContext::new();
    let file = ctx.add_file("d.yaml".to_string(), Some("name: x\ntables:\n  - name: t\n".to_string()));
    let span = SourceInfo::original(file, 26, 27);
    let at = |offset: usize| span.map_offset(offset, &ctx).map(|m| (m.location.row, m.location.column));
    let loc = location_from(at(0), at(span.length())).expect("the span maps into the file");
    assert_eq!((loc.start_line, loc.start_column, loc.end_line, loc.end_column), (2, 10, 2, 11));
    let l = location_from(Some((1, 2)), Some((3, 4))).unwrap();
    assert_eq!((l.start_line, l.start_column, l.end_line, l.end_column), (1, 2, 3, 4));
    assert!(location_from(Some((1, 2)), None).is_none());
    assert!(location_from(None, Some((1, 2))).is_none());
}
