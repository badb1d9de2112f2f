use data_dict::assert_expr::ParseError;
use data_dict::parse::{
    classify, default_language, eq_ignore_ascii_case, has_top_level_alternation, languages, resolve, unanchor,
    untranslatable,
};

#[test]
fn every_language_resolves_by_its_own_name() {
    for language in languages() {
        assert_eq!(resolve(language.name).map(|l| l.name), Ok(language.name));
    }
    assert!(resolve("R").is_ok(), "matching ignores case");
}

#[test]
fn an_unknown_language_lists_the_readable_ones() {
    let Err(err) = resolve("perl") else {
        panic!("no such language")
    };
    assert!(err.contains("unknown expression language"), "{err}");
    assert!(err.contains("sql, r"), "{err}");
}

#[test]
fn the_default_is_the_language_itself() {
    assert_eq!(default_language().name, "sql");
    // Reading it is just parsing it, so it never has anything to warn about.
    let parsed = default_language().read("qty > 0").expect("parses");
    assert!(parsed.notes.is_empty());
}

#[test]
fn resolving_ignores_ascii_case_only() {
    assert_eq!(resolve("PyThOn").map(|l| l.name), Ok("python"));
    assert_eq!(resolve("SQL").map(|l| l.name), Ok("sql"));
    assert_eq!(
        resolve("sq").map(|l| l.name),
        Err("unknown expression language `sq`; available: sql, r, python".to_string())
    );
    assert!(eq_ignore_ascii_case("Straße", "STRAßE"));
    assert!(!eq_ignore_ascii_case("ß", "SS"));
    assert!(!eq_ignore_ascii_case("r", "rr"));
}

#[test]
fn reading_the_default_language_reports_its_parse_errors() {
    assert!(default_language().read("qty >").is_err());
}

#[test]
fn unanchor_removes_the_anchors_the_emitters_write() {
    assert_eq!(unanchor("^(?:a|b)$"), "a|b");
    assert_eq!(unanchor("^abc$"), "abc");
    assert_eq!(unanchor("^$"), "");
    // A top-level alternation would regroup without its anchors.
    assert_eq!(unanchor("^a|b$"), ".*(?:^a|b$).*");
    assert_eq!(unanchor("abc"), ".*(?:abc).*");
    assert_eq!(unanchor("a|b"), ".*(?:a|b).*");
}

#[test]
fn alternation_counts_only_outside_groups_and_classes() {
    assert!(has_top_level_alternation("a|b"));
    assert!(!has_top_level_alternation("(a|b)"));
    assert!(!has_top_level_alternation("[|]"));
    assert!(!has_top_level_alternation(r"a\|b"));
    assert!(has_top_level_alternation("(a)|b"));
    assert!(has_top_level_alternation(")|b"));
    assert!(!has_top_level_alternation(r"ab\"));
}

#[test]
fn an_untranslatable_error_is_told_apart_from_a_syntax_error() {
    let e = untranslatable("`%%`", "no equivalent operator", 3);
    assert_eq!(e.at, 3);
    let (message, untranslatable) = classify(&e);
    assert!(untranslatable);
    assert_eq!(message, "`%%` \u{2014} no equivalent operator");
    let plain = ParseError { message: "expected a value".to_string(), at: 0 };
    assert_eq!(classify(&plain), ("expected a value".to_string(), false));
}
