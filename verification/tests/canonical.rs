use data_dict::assert_expr::{check_root, lower, AssertExpr, CheckEnv, ColumnKind, Root};
use data_dict::emit::canonical::un_like_regex;
use data_dict::emit::{emit, Canonical};

fn test_env() -> CheckEnv {
    let columns = [
        ("n", ColumnKind::Number),
        ("qty", ColumnKind::Number),
        ("s", ColumnKind::String),
        ("postcode", ColumnKind::String),
        ("flag", ColumnKind::Bool),
        ("q3", ColumnKind::Bool),
        ("q4", ColumnKind::Bool),
        ("d", ColumnKind::Date),
        ("start_date", ColumnKind::Date),
        ("end_date", ColumnKind::Date),
        ("ts", ColumnKind::Datetime),
        ("u", ColumnKind::Untyped),
        ("addr", ColumnKind::Struct),
        ("tags", ColumnKind::List),
    ];
    let fields = [
        ("addr.zip", ColumnKind::String),
        ("addr.geo", ColumnKind::Struct),
        ("addr.geo.lat", ColumnKind::Number),
        ("addr.nick names", ColumnKind::String),
        ("addr.untyped", ColumnKind::Untyped),
    ];
    CheckEnv {
        columns: columns.iter().map(|(n, k)| (n.to_string(), *k)).collect(),
        fields: fields
            .iter()
            .map(|(p, k)| (p.split('.').map(|x| x.to_string()).collect(), *k))
            .collect(),
    }
}

/// Print `source` in the language it is already written in.
fn dd(source: &str) -> String {
    let expr = AssertExpr::parse(source).expect("parses");
    let env = test_env();
    let findings = check_root(&expr, &env, Root::Any);
    assert!(findings.is_empty(), "{source:?}: {findings:?}");
    let ir = lower(&expr, &env).expect("lowers");
    emit(&Canonical, &ir).expect("emits").code
}

fn identity(source: &str) {
    assert_eq!(dd(source), source);
}

#[test]
fn predicates_print_themselves() {
    identity("qty IN (1, 2, 3)");
    identity("qty NOT IN (1, 2, 3)");
    identity("qty BETWEEN 0 AND 100");
    identity("qty NOT BETWEEN 0 AND 100");
    identity("s LIKE 'NZ-%'");
    identity("s LIKE '%.nz'");
    identity("s LIKE 'exact'");
    identity("s NOT LIKE 'NZ-%'");
    identity("s SIMILAR TO '[a-z]+'");
    identity("s NOT SIMILAR TO '[a-z]+'");
    identity("CASE WHEN flag THEN qty > 1 ELSE qty > 10 END");
    identity("CASE WHEN flag THEN qty > 1 END");
}

#[test]
fn a_like_pattern_is_rebuilt_from_its_pieces() {
    identity("s LIKE 'a%b'");
    identity("s LIKE 'a_b'");
    identity("s LIKE 'a%b_c'");
    identity("s LIKE 'a.b%c'");
    identity("s LIKE LOWER(postcode)");
}

#[test]
fn aggregates_print_their_own_names() {
    identity("SUM(qty) > 0");
    identity("AVG(qty) > 0");
    identity("MIN(qty) > 0");
    identity("MAX(qty) > 0");
    identity("COUNT(s) > 0");
    identity("ROW_COUNT() > 0");
    identity("COUNT_DISTINCT(s) <= 16");
    identity("ANY(flag)");
    identity("ALL(flag)");
    identity("qty <= 2 * MIN(qty)");
}

#[test]
fn time_prints_itself() {
    identity("ts >= NOW() - interval(2, weeks)");
    identity("ts >= NOW() - interval(n, days)");
    identity("d >= '2000-01-01'");
    identity("ts >= '2024-01-31T09:30:00Z'");
    identity("d + interval(12, hours) < NOW()");
}

#[test]
fn a_selection_stays_a_selection() {
    identity("COLUMNS('q[34]') IS NOT NULL");
    identity("COLUMNS(*) IS NOT NULL");
    identity("COLUMNS([q3, q4]) IS NOT NULL");
    identity("COLUMNS('q[34]') IS NULL OR flag");
}

#[test]
fn struct_fields_print_as_paths() {
    identity("LENGTH(addr.zip) > 0");
    identity("addr IS NOT NULL");
}

#[test]
fn parentheses_come_back_only_where_they_are_needed() {
    identity("NOT (q3 OR q4)");
    identity("(n + 1) * 2 > 0");
    identity("n - (1 - 2) > 0");
    assert_eq!(dd("NOT NOT flag"), "NOT (NOT flag)");
    assert_eq!(dd("- -n > 0"), "-(-n) > 0");
    assert_eq!(dd("(qty) > (0)"), "qty > 0");
    assert_eq!(dd("(qty > 0) AND flag"), "qty > 0 AND flag");
}

#[test]
fn the_printer_never_diverges() {
    for source in ["qty > 0", "MOD(n, qty) = 0", "SUM(qty) > 0", "ANY(flag)"] {
        let expr = AssertExpr::parse(source).expect("parses");
        let ir = lower(&expr, &test_env()).expect("lowers");
        assert!(emit(&Canonical, &ir).expect("emits").notes.is_empty());
    }
}

// Of my own.

#[test]
fn the_operators_and_literals_the_parser_reads_print_themselves() {
    identity("qty > 0");
    identity("qty = 42");
    identity("qty = 42.0");
    identity("qty = 0.5");
    identity("s = 'it''s'");
    identity("flag = TRUE");
    identity("qty IS NULL");
    identity("qty IS NOT NULL");
    identity("n + 1 > 0");
    identity("n - 1 - 2 > 0");
    identity("n / qty > 1");
    identity("NOT flag");
    identity("q3 AND q4");
    identity("q3 OR q4");
}

#[test]
fn the_functions_the_checker_knows_print_their_own_names() {
    identity("LENGTH(postcode) <= 10");
    identity("LOWER(s) = 'a'");
    identity("UPPER(s) = 'A'");
    identity("TRIM(s) = 'a'");
    identity("STARTS_WITH(s, 'NZ-')");
    identity("ENDS_WITH(s, '.nz')");
    identity("ABS(n) > 0");
    identity("FLOOR(qty) > 0");
    identity("CEIL(qty) > 0");
    identity("ROUND(qty) > 0");
    identity("ROUND(qty, 2) > 0");
    identity("MOD(n, 3) = 0");
}

#[test]
fn names_and_temporal_spellings_are_normalised() {
    assert_eq!(dd("length(s) > 0"), "LENGTH(s) > 0");
    assert_eq!(dd("ts >= interval(2, WEEKS) + NOW()"), "ts >= interval(2, weeks) + NOW()");
    assert_eq!(dd("ts >= '2024-01-31T09:30:00+05:30'"), "ts >= '2024-01-31T09:30:00+05:30'");
    assert_eq!(dd("ts >= '2024-01-31T09:30:00'"), "ts >= '2024-01-31T09:30:00'");
    assert_eq!(dd("`addr`.`nick names` = 'x'"), "addr.`nick names` = 'x'");
}

#[test]
fn un_like_regex_inverts_the_lowered_form() {
    assert_eq!(un_like_regex("^a.*b.c$").as_deref(), Some("a%b_c"));
    assert_eq!(un_like_regex(r"^a\.b.*c$").as_deref(), Some("a.b%c"));
    assert_eq!(un_like_regex("^[a-z]+$"), None);
    assert_eq!(un_like_regex("a.*b"), None);
}
