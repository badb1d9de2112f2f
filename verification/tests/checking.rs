use data_dict::assert_expr::{
    check, AssertExpr, CheckEnv, ColumnKind, Finding, FindingSeverity,
};

fn parse(s: &str) -> AssertExpr {
    AssertExpr::parse(s).unwrap_or_else(|e| panic!("parse({s:?}) failed: {} at {}", e.message, e.at))
}

/// The table every check below runs against.
fn test_env() -> CheckEnv {
    let columns = [
        ("n", ColumnKind::Number),
        ("qty", ColumnKind::Number),
        ("s", ColumnKind::String),
        ("postcode", ColumnKind::String),
        ("flag", ColumnKind::Bool),
        ("q3", ColumnKind::Bool),
        ("q4", ColumnKind::Bool),
        ("d", ColumnKind::Date),
        ("start_date", ColumnKind::Date),
        ("end_date", ColumnKind::Date),
        ("ts", ColumnKind::Datetime),
        ("u", ColumnKind::Untyped),
        ("addr", ColumnKind::Struct),
        ("tags", ColumnKind::List),
    ];
    let fields = [
        ("addr.zip", ColumnKind::String),
        ("addr.geo", ColumnKind::Struct),
        ("addr.geo.lat", ColumnKind::Number),
        ("addr.nick names", ColumnKind::String),
        ("addr.untyped", ColumnKind::Untyped),
    ];
    CheckEnv {
        columns: columns.iter().map(|(n, k)| (n.to_string(), *k)).collect(),
        fields: fields
            .iter()
            .map(|(p, k)| (p.split('.').map(|x| x.to_string()).collect(), *k))
            .collect(),
    }
}

fn check_str(s: &str) -> Vec<Finding> {
    check(&parse(s), &test_env())
}

#[test]
fn clean_expressions_have_no_findings() {
    assert!(check_str("qty > 0").is_empty());
    assert!(check_str("LENGTH(postcode) <= 10").is_empty());
    assert!(check_str("end_date >= start_date").is_empty());
    assert!(check_str("COLUMNS(*) IS NOT NULL").is_empty());
    assert!(check_str("NOT(q3) OR q4 IS NOT NULL").is_empty());
    assert!(check_str("d >= NOW() - interval(2, weeks)").is_empty());
    assert!(check_str("d >= '2000-01-01'").is_empty());
}

#[test]
fn unknown_column_is_s20() {
    let f = check_str("missing > 0");
    assert_eq!(f.len(), 1);
    assert_eq!(f[0].code, "S20");
}

#[test]
fn non_boolean_top_level_is_s21() {
    let f = check_str("qty");
    assert_eq!(f.len(), 1);
    assert_eq!(f[0].code, "S21");
    assert!(f[0].message.contains("boolean"));
}

#[test]
fn type_mismatch_in_function_is_s21() {
    let f = check_str("LENGTH(qty) <= 10");
    assert_eq!(f.len(), 1);
    assert_eq!(f[0].code, "S21");
}

#[test]
fn comparing_incompatible_types_is_s21() {
    let f = check_str("qty = s");
    assert_eq!(f.len(), 1);
    assert_eq!(f[0].code, "S21");
}

#[test]
fn wrong_arity_is_s21() {
    let f = check_str("ROUND(qty, 2, 3) > 0");
    assert!(f.iter().any(|f| f.code == "S21" && f.message.contains("argument")));
}

#[test]
fn unknown_function_is_s21() {
    let f = check_str("SQRT(qty) > 0");
    assert!(f.iter().any(|f| f.code == "S21" && f.message.contains("unknown function")));
}

#[test]
fn two_columns_expressions_is_s21() {
    let f = check_str("COLUMNS(*) IS NOT NULL AND COLUMNS('x') IS NOT NULL");
    assert!(f.iter().any(|f| f.message.contains("at most one")));
}

#[test]
fn bad_regex_is_s21() {
    let f = check_str("s SIMILAR TO '('");
    assert!(f.iter().any(|f| f.code == "S21" && f.message.contains("regular expression")));
}

#[test]
fn columns_list_unknown_name_is_s20() {
    let f = check_str("COLUMNS([qty, nope]) IS NOT NULL");
    assert!(f.iter().any(|f| f.code == "S20" && f.message.contains("nope")));
}

#[test]
fn bad_interval_unit_is_s21() {
    let f = check_str("d >= NOW() - interval(2, fortnights)");
    assert!(f.iter().any(|f| f.code == "S21" && f.message.contains("interval unit")));
}

#[test]
fn a_date_shifted_by_an_interval_is_a_datetime() {
    for expr in [
        "d - interval(2, hours) < NOW()",
        "d + interval(90, minutes) < NOW()",
        "interval(30, seconds) + d < NOW()",
        "d - interval(2, days) < NOW()",
        "d + interval(1, weeks) < NOW()",
    ] {
        assert!(check_str(expr).is_empty(), "{expr} should be clean");
    }
}

#[test]
fn a_shifted_date_still_compares_with_a_date() {
    assert!(check_str("d + interval(2, days) >= start_date").is_empty());
    assert!(check_str("ts >= d - interval(12, hours)").is_empty());
}

#[test]
fn untyped_column_where_a_type_matters_is_s23() {
    for expr in ["u > 5", "u", "LENGTH(u)", "u AND flag", "u + 1 > 0"] {
        let f = check_str(expr);
        assert!(
            f.iter().any(|f| f.code == "S23" && f.message.contains("`u`")),
            "expected S23 for `{expr}`, got {f:?}"
        );
    }
}

#[test]
fn untyped_column_is_fine_where_no_type_is_needed() {
    assert!(check_str("u IS NOT NULL").is_empty());
    assert!(check_str("NOT(q3) OR u IS NULL").is_empty());
}

#[test]
fn untyped_column_is_reported_once() {
    let f = check_str("u + 1 > 0");
    assert_eq!(f.iter().filter(|f| f.code == "S23").count(), 1);
}

#[test]
fn columns_star_reports_untyped_columns_only_when_typed() {
    assert!(check_str("COLUMNS(*) IS NOT NULL").is_empty());
    let f = check_str("COLUMNS(*)");
    assert!(f.iter().any(|f| f.code == "S23" && f.message.contains("`u`")), "got {f:?}");
}

#[test]
fn columns_regex_matching_nothing_is_s22_warning() {
    let f = check_str("COLUMNS('zzz_nope') IS NOT NULL");
    assert_eq!(f.len(), 1);
    assert_eq!(f[0].code, "S22");
    assert_eq!(f[0].severity, FindingSeverity::Warning);
}

#[test]
fn columns_regex_matching_something_is_clean() {
    assert!(check_str("COLUMNS('q') IS NOT NULL").is_empty());
}

#[test]
fn columns_star_is_never_a_zero_match_warning() {
    assert!(check_str("COLUMNS(*) IS NOT NULL").is_empty());
}

#[test]
fn columns_type_checked_against_matched_columns() {
    let f = check_str("LENGTH(COLUMNS('q[34]')) > 0");
    assert!(f.iter().any(|f| f.code == "S21" && f.message.contains("`q3`")));
}

#[test]
fn columns_type_ok_when_all_matches_fit() {
    assert!(check_str("COLUMNS('_date') >= '2000-01-01'").is_empty());
}

#[test]
fn columns_comparison_against_wrong_type_is_s21() {
    let f = check_str("COLUMNS('_date') > 0");
    assert!(f.iter().any(|f| f.code == "S21" && f.message.contains("start_date")));
}

#[test]
fn bare_columns_must_be_boolean_per_column() {
    let f = check_str("COLUMNS('qty')");
    assert!(f.iter().any(|f| f.code == "S21" && f.message.contains("qty")));
    assert!(check_str("COLUMNS([q3, q4])").is_empty());
}

#[test]
fn field_segments_quote_independently() {
    let e = parse("LENGTH(`addr`.`nick names`) > 0 AND LENGTH(addr.`nick names`) > 0");
    assert!(check(&e, &test_env()).is_empty());
}

#[test]
fn field_access_typechecks_as_field_type() {
    assert!(check_str("LENGTH(addr.zip) <= 10").is_empty());
    assert!(check_str("addr.geo.lat BETWEEN -90 AND 90").is_empty());
    let f = check_str("addr.zip > 0");
    assert!(f.iter().any(|f| f.code == "S21"));
}

#[test]
fn unknown_field_is_s20() {
    let f = check_str("addr.zpi IS NOT NULL");
    assert!(f.iter().any(|f| f.code == "S20" && f.message.contains("no field `zpi`")));
}

#[test]
fn field_access_through_non_struct_is_s21() {
    let f = check_str("postcode.x = 'a'");
    assert!(f.iter().any(|f| f.code == "S21" && f.message.contains("not a struct")));
    let f = check_str("tags.x = 'a'");
    assert!(f.iter().any(|f| f.code == "S21" && f.message.contains("list")));
}

#[test]
fn untyped_field_is_s23_where_type_matters() {
    assert!(check_str("addr.untyped IS NOT NULL").is_empty());
    let f = check_str("LENGTH(addr.untyped) > 0");
    assert!(f.iter().any(|f| f.code == "S23" && f.message.contains("addr.untyped")));
}

#[test]
fn bare_struct_and_list_take_only_is_null() {
    assert!(check_str("addr IS NOT NULL").is_empty());
    assert!(check_str("tags IS NULL OR flag").is_empty());
    let f = check_str("addr = addr");
    assert!(f.iter().any(|f| f.code == "S21" && f.message.contains("struct")));
    let f = check_str("tags");
    assert!(f.iter().any(|f| f.code == "S21" && f.message.contains("a list, not a boolean")));
}

#[test]
fn aggregate_expressions_are_clean() {
    for s in [
        "COUNT(postcode) >= 0.9 * ROW_COUNT()",
        "COUNT_DISTINCT(s) <= 16",
        "AVG(n) BETWEEN 0 AND 100",
        "SUM(qty) > 0",
        "MIN(d) >= '2000-01-01'",
        "MAX(ts) <= NOW()",
        "ANY(flag)",
        "ALL(q3 OR q4)",
        "ROW_COUNT() > 0",
    ] {
        assert!(check_str(s).is_empty(), "{s}: {:?}", check_str(s));
    }
}

#[test]
fn aggregate_names_are_case_insensitive() {
    assert!(check_str("min(n) <= max(n)").is_empty());
}

#[test]
fn mixing_row_and_aggregate_grains_is_allowed() {
    assert!(check_str("qty <= 2 * MIN(qty)").is_empty());
    assert!(check_str("n <= MAX(n)").is_empty());
}

#[test]
fn nested_aggregate_is_s30() {
    let src = "AVG(MIN(n)) > 0";
    let f = check_str(src);
    assert_eq!(f.len(), 1, "{f:?}");
    assert_eq!(f[0].code, "S30");
    assert!(f[0].message.contains("`AVG`"), "{:?}", f[0].message);
    assert_eq!(&src[f[0].start..f[0].end], "MIN(n)");
}

#[test]
fn aggregate_nested_below_an_operator_is_still_s30() {
    let src = "SUM(MAX(n) + 1) > 0";
    let f = check_str(src);
    assert_eq!(f.len(), 1, "{f:?}");
    assert_eq!(f[0].code, "S30");
    assert_eq!(&src[f[0].start..f[0].end], "MAX(n) + 1");
}

#[test]
fn an_aggregate_of_a_scalar_function_is_fine() {
    assert!(check_str("MAX(LENGTH(postcode)) <= 10").is_empty());
}

#[test]
fn a_scalar_function_of_an_aggregate_is_fine() {
    assert!(check_str("ABS(AVG(n)) < 1").is_empty());
}

#[test]
fn min_max_return_their_argument_type() {
    assert!(check_str("MIN(d) >= '2000-01-01'").is_empty());
    let f = check_str("MIN(s) >= 3");
    assert!(f.iter().any(|f| f.code == "S21" && f.message.contains("cannot compare")), "{f:?}");
}

#[test]
fn min_of_an_unordered_type_is_s21() {
    let f = check_str("MIN(flag)");
    assert!(
        f.iter().any(|f| f.code == "S21"
            && f.message.contains("`MIN` expects a number, a string, a date, or a datetime")),
        "{f:?}"
    );
}

#[test]
fn sum_and_avg_reject_non_numbers() {
    for s in ["SUM(s) > 0", "AVG(d) > 0"] {
        let f = check_str(s);
        assert!(
            f.iter().any(|f| f.code == "S21" && f.message.contains("expects a number")),
            "{s}: {f:?}"
        );
    }
}

#[test]
fn any_and_all_require_a_boolean() {
    let f = check_str("ANY(n)");
    assert!(f.iter().any(|f| f.code == "S21" && f.message.contains("expects a boolean")), "{f:?}");
}

#[test]
fn row_count_takes_no_arguments() {
    let f = check_str("ROW_COUNT(n) > 0");
    assert!(
        f.iter().any(|f| f.code == "S21" && f.message.contains("takes 0 argument(s), found 1")),
        "{f:?}"
    );
}

#[test]
fn count_accepts_anything_including_untyped_and_composite() {
    for s in ["COUNT(u) >= 1", "COUNT(addr) >= 1", "COUNT(tags) >= 1", "COUNT(n) = ROW_COUNT()"] {
        assert!(check_str(s).is_empty(), "{s}: {:?}", check_str(s));
    }
}

#[test]
fn count_distinct_still_needs_a_declared_ordered_type() {
    let f = check_str("COUNT_DISTINCT(u) <= 4");
    assert!(f.iter().any(|f| f.code == "S23"), "{f:?}");
    let f = check_str("COUNT_DISTINCT(flag) <= 4");
    assert!(f.iter().any(|f| f.code == "S21"), "{f:?}");
}

#[test]
fn a_bare_aggregate_must_still_be_boolean() {
    let f = check_str("SUM(n)");
    assert!(f.iter().any(|f| f.code == "S21" && f.message.contains("not a boolean")), "{f:?}");
    assert!(check_str("ANY(flag)").is_empty());
}

#[test]
fn an_aggregate_over_columns_distributes_over_the_selection() {
    assert!(check_str("MAX(COLUMNS([n, qty])) > 0").is_empty());
    let f = check_str("SUM(COLUMNS('q[34]')) > 0");
    assert!(
        f.iter().any(|f| f.code == "S21" && f.message.contains("column `q3` is a boolean")),
        "{f:?}"
    );
}

// Of my own: exact findings, in source order, with spans.

#[test]
fn findings_come_in_source_order_with_exact_text() {
    let src = "missing > 0 AND LENGTH(qty) <= 10";
    let f = check_str(src);
    assert_eq!(f.len(), 2, "{f:?}");
    assert_eq!(f[0].code, "S20");
    assert_eq!(&src[f[0].start..f[0].end], "missing");
    assert_eq!(f[1].code, "S21");
    assert!(f[0].start <= f[1].start);
    assert_eq!(f[0].severity, FindingSeverity::Error);
}

#[test]
fn a_second_columns_selection_is_pointed_at() {
    let src = "COLUMNS(*) IS NOT NULL AND COLUMNS('q') IS NOT NULL";
    let f = check_str(src);
    assert_eq!(f.len(), 1, "{f:?}");
    assert_eq!(f[0].code, "S21");
    assert_eq!(f[0].message, "an assertion may use at most one `COLUMNS(...)`");
    assert_eq!(&src[f[0].start..f[0].end], "COLUMNS('q')");
}

#[test]
fn a_date_literal_that_does_not_read_as_a_date_is_s21() {
    let f = check_str("d >= '2000-13-45'");
    assert!(f.iter().any(|f| f.code == "S21"), "{f:?}");
    assert!(check_str("ts >= '2000-01-01T00:00:00Z'").is_empty());
    assert!(check_str("ts >= '2000-01-01T00:00:00'").is_empty());
}

#[test]
fn env_lookups_find_the_first_entry() {
    let env = test_env();
    assert_eq!(env.column("qty"), Some(ColumnKind::Number));
    assert_eq!(env.column("nope"), None);
    let p: Vec<String> = vec!["addr".to_string(), "geo".to_string(), "lat".to_string()];
    assert_eq!(env.field(&p), Some(ColumnKind::Number));
    let q: Vec<String> = vec!["addr".to_string()];
    assert_eq!(env.field(&q), None);
}
