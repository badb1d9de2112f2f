use data_dict::assert_expr::IntervalUnit;
use data_dict::emit::{is_reserved, needs_parens, Canonical, RTidyverse, Side, PREC_ADD, PREC_AND, PREC_ATOM, PREC_DELIMITED, PREC_MUL, PREC_OR};

#[test]
fn a_name_is_quoted_when_a_bare_one_would_not_read_back() {
    assert_eq!(Canonical::name("qty"), "qty");
    assert_eq!(Canonical::name("_leading"), "_leading");
    assert_eq!(Canonical::name("q3"), "q3");
    // Not an IDENT.
    assert_eq!(Canonical::name("odd name"), "`odd name`");
    assert_eq!(Canonical::name("3rd"), "`3rd`");
    assert_eq!(Canonical::name(""), "``");
    assert_eq!(Canonical::name("a-b"), "`a-b`");
    // An IDENT, but reserved, so bare it would read as a keyword or a
    // literal. Case-insensitively, as the keywords are.
    assert_eq!(Canonical::name("inf"), "`inf`");
    assert_eq!(Canonical::name("NaN"), "`NaN`");
    assert_eq!(Canonical::name("case"), "`case`");
    // A backtick inside a name is doubled, as the grammar escapes it.
    assert_eq!(Canonical::name("a`b"), "`a``b`");
}

#[test]
fn reserved_words_ignore_ascii_case_only() {
    assert!(is_reserved("AND"));
    assert!(is_reserved("Between"));
    assert!(!is_reserved("andante"));
    assert!(!is_reserved("qty"));
}

#[test]
fn a_string_literal_doubles_its_quotes() {
    assert_eq!(Canonical::quote("it's"), "'it''s'");
    assert_eq!(Canonical::quote(""), "''");
}

#[test]
fn r_names_and_strings() {
    assert_eq!(RTidyverse::name("qty"), "qty");
    assert_eq!(RTidyverse::name(".hidden"), ".hidden");
    assert_eq!(RTidyverse::name("_x"), "`_x`");
    assert_eq!(RTidyverse::name("odd name"), "`odd name`");
    assert_eq!(RTidyverse::name("a`b"), "`a\\`b`");
    assert_eq!(RTidyverse::string("say \"hi\" \\ bye"), "\"say \\\"hi\\\" \\\\ bye\"");
    assert_eq!(RTidyverse::units(IntervalUnit::Seconds), "secs");
    assert_eq!(RTidyverse::units(IntervalUnit::Minutes), "mins");
    assert_eq!(RTidyverse::units(IntervalUnit::Weeks), "weeks");
}

#[test]
fn target_names() {
    assert_eq!(Canonical.target_name(), "SQL(data-dict)");
    assert_eq!(RTidyverse.target_name(), "R(tidyverse)");
}

#[test]
fn parentheses_appear_only_where_they_change_the_reading() {
    // A tighter-binding child needs none.
    assert!(!needs_parens(PREC_MUL, PREC_ADD, Side::Left));
    // A looser-binding child does.
    assert!(needs_parens(PREC_OR, PREC_AND, Side::Right));
    // Equal precedence: only on the right, which associativity doesn't favour.
    assert!(!needs_parens(PREC_ADD, PREC_ADD, Side::Left));
    assert!(needs_parens(PREC_ADD, PREC_ADD, Side::Right));
    // A delimited position never wraps.
    assert!(!needs_parens(PREC_OR, PREC_DELIMITED, Side::Free));
    assert!(!needs_parens(PREC_ATOM, PREC_MUL, Side::Right));
}
