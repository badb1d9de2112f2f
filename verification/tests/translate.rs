use data_dict::translate::{eq_ignore_case, resolve_target, Options};

const AVAILABLE: [&str; 1] = ["SQL(duckdb)"];

#[test]
fn a_bare_family_resolves_to_its_default() {
    // The default is named even when it isn't built yet, so the message
    // says what is missing rather than that the family is unknown.
    let err = resolve_target("SQL", &AVAILABLE).unwrap_err();
    assert!(err.contains("SQL(ANSI)"), "{err}");
    assert!(err.contains("not available yet"), "{err}");
    assert_eq!(err, "`SQL` means `SQL(ANSI)`, which is not available yet; available: SQL(duckdb)");
    assert_eq!(resolve_target("sql(duckdb)", &AVAILABLE), Ok(0), "matching ignores case");
}

#[test]
fn an_unknown_target_lists_the_available_ones() {
    let err = resolve_target("Klingon", &["SQL(duckdb)", "R(tidyverse)"]).unwrap_err();
    assert_eq!(err, "unknown target `Klingon`; available: SQL(duckdb), R(tidyverse)");
}

#[test]
fn every_registered_target_resolves_by_its_own_name() {
    let available = ["SQL(duckdb)", "R(tidyverse)", "R(base)"];
    for (i, name) in available.iter().enumerate() {
        assert_eq!(resolve_target(name, &available), Ok(i));
    }
    // `r` means R(base), wherever it stands in the list.
    assert_eq!(resolve_target("R", &available), Ok(2));
}

#[test]
fn case_is_ignored_for_ascii_letters_only() {
    assert!(eq_ignore_case("Python(Polars)", "python(polars)"));
    assert!(!eq_ignore_case("É", "é"));
    assert!(!eq_ignore_case("ab", "abc"));
}

#[test]
fn default_options_ask_for_everything() {
    let o = Options::default();
    assert!(o.targets.is_empty());
    assert!(o.table.is_none() && o.expr.is_none());
}
