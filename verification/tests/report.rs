use data_dict::problem::Severity;
use data_dict::report::{checks, Run, StepOutcome};
use data_dict::Level;

const CATALOGUE: &str = "# Checks\n\
\n\
| Code | Name | Sev | Description |\n\
|------|------|-----|-------------|\n\
| S07 | Unknown column | E | A `join` names a column the table lacks. |\n\
| M01 | Type mismatch | E | The declared type and the data disagree. |\r\n\
| M03 | Undocumented column | W | The data has a column the dictionary lacks. |\n\
| D02 | Duplicate values | E | A `unique` column repeats a value. |\n\
| X99 | Not a check | E | ignored |\n\
| D04 | Odd | I | not a severity |\n\
| D07 |  Failed   assertion  | E |   An assert expression is false.   | extra |\n";

#[test]
fn the_catalogue_is_read_in_code_order() {
    let entries = checks(CATALOGUE);
    let codes: Vec<&str> = entries.iter().map(|(c, _)| c.as_str()).collect();
    assert_eq!(codes, ["D02", "D07", "M01", "M03", "S07"]);
    let d02 = &entries[0].1;
    assert_eq!(d02.name, "Duplicate values");
    assert_eq!(d02.severity, Severity::Error);
    assert!(d02.description.contains("unique"));
    let m03 = &entries[3].1;
    assert_eq!(m03.severity, Severity::Warning);
    // Cells are trimmed; the description is the fourth cell alone.
    let d07 = &entries[1].1;
    assert_eq!(d07.name, "Failed   assertion");
    assert_eq!(d07.description, "An assert expression is false.");
    // A `\r` before the line ending is not part of the row.
    assert_eq!(entries[2].1.description, "The declared type and the data disagree. |");
}

#[test]
fn a_later_row_replaces_an_earlier_one() {
    let entries = checks("| S01 | First | E | one |\n| S01 | Second | W | two |\n");
    assert_eq!(entries.len(), 1);
    assert_eq!(entries[0].1.name, "Second");
    assert_eq!(entries[0].1.severity, Severity::Warning);
}

#[test]
fn text_without_rows_names_no_checks() {
    assert!(checks("").is_empty());
    assert!(checks("no table here\n|S01 | x | E | y |\n").is_empty());
    assert!(checks("| S01 | x | E").is_empty());
}

#[test]
fn a_run_records_what_it_was_asked() {
    let stamp = chrono::Utc::now().to_rfc3339_opts(chrono::SecondsFormat::Secs, true);
    let run = Run::new("dicts/food.yaml", Level::Data, Some("food"), &stamp);
    assert_eq!(run.dictionary, "dicts/food.yaml");
    assert_eq!(run.level, Level::Data);
    assert_eq!(run.table.as_deref(), Some("food"));
    assert!(run.generated_at.ends_with('Z'));
    assert_eq!(run.tool.name, "data-dict");
    assert!(run.tool.version.is_some());
    assert_eq!(run.generated_at, stamp);
    assert_ne!(StepOutcome::Pass, StepOutcome::Unevaluated);
}
