use data_dict::assert_expr::{ArithOp, AssertExpr, CmpOp, ColumnsSelector, ExprKind, NumLit};

fn parse(s: &str) -> AssertExpr {
    AssertExpr::parse(s).unwrap_or_else(|e| panic!("parse({s:?}) failed: {} at {}", e.message, e.at))
}

#[test]
fn simple_comparison() {
    let e = parse("qty > 0");
    assert!(matches!(e.root.kind, ExprKind::Compare { op: CmpOp::Gt, .. }));
}

#[test]
fn precedence_or_binds_loosest() {
    // a AND b OR c  =>  (a AND b) OR c
    let e = parse("q3 AND q4 OR flag");
    assert!(matches!(e.root.kind, ExprKind::Or(..)));
}

#[test]
fn precedence_arithmetic_tighter_than_comparison() {
    let e = parse("n + 1 <= 10");
    let ExprKind::Compare { lhs, .. } = &e.root.kind else {
        panic!("expected comparison at the root");
    };
    assert!(matches!(lhs.kind, ExprKind::Arith { op: ArithOp::Add, .. }));
}

#[test]
fn not_applies_to_comparison() {
    // NOT a = b  =>  NOT (a = b)
    let e = parse("NOT qty = 0");
    assert!(matches!(e.root.kind, ExprKind::Not(_)));
}

#[test]
fn not_paren_form() {
    let e = parse("NOT(q3)");
    let ExprKind::Not(inner) = &e.root.kind else {
        panic!("expected NOT");
    };
    assert!(matches!(inner.kind, ExprKind::Column(_)));
}

#[test]
fn between_and_not_stolen_by_top_level_and() {
    // The AND inside BETWEEN must not terminate the predicate early.
    let e = parse("n BETWEEN 1 AND 10 AND flag");
    assert!(matches!(e.root.kind, ExprKind::And(..)));
    let ExprKind::And(l, _) = &e.root.kind else { unreachable!() };
    assert!(matches!(l.kind, ExprKind::Between { .. }));
}

#[test]
fn is_null_and_is_not_null() {
    assert!(matches!(parse("s IS NULL").root.kind, ExprKind::IsNull { negated: false, .. }));
    assert!(matches!(parse("s IS NOT NULL").root.kind, ExprKind::IsNull { negated: true, .. }));
}

#[test]
fn in_list_and_not_in() {
    assert!(matches!(parse("n IN (1, 2, 3)").root.kind, ExprKind::In { negated: false, .. }));
    assert!(matches!(parse("n NOT IN (1, 2)").root.kind, ExprKind::In { negated: true, .. }));
}

#[test]
fn like_and_similar_to() {
    assert!(matches!(parse("s LIKE 'a%'").root.kind, ExprKind::Like { negated: false, .. }));
    assert!(matches!(parse("s NOT SIMILAR TO 'a.*'").root.kind, ExprKind::SimilarTo { negated: true, .. }));
}

#[test]
fn string_with_doubled_quote() {
    let e = parse("s = 'O''Brien'");
    let ExprKind::Compare { rhs, .. } = &e.root.kind else { panic!() };
    assert!(matches!(&rhs.kind, ExprKind::Str(v) if v == "O'Brien"));
}

#[test]
fn functions_now_and_interval() {
    let e = parse("d >= NOW() - interval(2, weeks)");
    let ExprKind::Compare { rhs, .. } = &e.root.kind else { panic!() };
    let ExprKind::Arith { lhs, rhs, .. } = &rhs.kind else { panic!("expected arithmetic") };
    assert!(matches!(lhs.kind, ExprKind::Now));
    assert!(matches!(rhs.kind, ExprKind::Interval { .. }));
}

#[test]
fn case_expression() {
    let e = parse("CASE WHEN q3 THEN qty ELSE 0 END > 5");
    assert!(matches!(e.root.kind, ExprKind::Compare { .. }));
}

#[test]
fn columns_forms() {
    assert!(matches!(parse("COLUMNS(*) IS NOT NULL").root.kind, ExprKind::IsNull { .. }));
    parse("COLUMNS('q[4-8]') IS NOT NULL");
    parse("COLUMNS([a, b, c]) IS NOT NULL");
}

#[test]
fn quoted_column_names() {
    let e = parse("`creation date` IS NOT NULL");
    let ExprKind::IsNull { operand, .. } = &e.root.kind else { panic!() };
    assert!(matches!(&operand.kind, ExprKind::Column(c) if c[..] == ["creation date"]));
}

#[test]
fn quoted_column_name_may_be_a_reserved_word() {
    let e = parse("`end` >= `start`");
    let ExprKind::Compare { lhs, rhs, .. } = &e.root.kind else { panic!() };
    assert!(matches!(&lhs.kind, ExprKind::Column(c) if c[..] == ["end"]));
    assert!(matches!(&rhs.kind, ExprKind::Column(c) if c[..] == ["start"]));
}

#[test]
fn quoted_column_name_holds_any_character() {
    for (src, name) in [
        ("`a``b` IS NULL", "a`b"),
        ("`a.b` IS NULL", "a.b"),
        ("`café` IS NULL", "café"),
        ("`LENGTH(x)` IS NULL", "LENGTH(x)"),
    ] {
        let e = parse(src);
        let ExprKind::IsNull { operand, .. } = &e.root.kind else { panic!("{src}") };
        assert!(matches!(&operand.kind, ExprKind::Column(c) if c[..] == [name]), "{src}");
    }
}

#[test]
fn quoted_column_span_covers_the_backticks() {
    let src = "`a b` IS NULL";
    let e = parse(src);
    let ExprKind::IsNull { operand, .. } = &e.root.kind else { panic!() };
    assert_eq!(&src[operand.start..operand.end], "`a b`");
}

#[test]
fn quoted_column_in_columns_list() {
    let e = parse("COLUMNS([`creation date`, b]) IS NOT NULL");
    let ExprKind::IsNull { operand, .. } = &e.root.kind else { panic!() };
    let ExprKind::Columns(ColumnsSelector::List(names)) = &operand.kind else {
        panic!("expected a list selector")
    };
    assert_eq!(names.iter().map(|n| n.name.as_str()).collect::<Vec<_>>(), ["creation date", "b"]);
}

#[test]
fn rejects_unterminated_quoted_name() {
    let err = AssertExpr::parse("`a b IS NULL").unwrap_err();
    assert!(err.message.contains("unterminated"));
    assert_eq!(err.at, 0);
}

#[test]
fn rejects_empty_quoted_name() {
    let err = AssertExpr::parse("`` IS NULL").unwrap_err();
    assert!(err.message.contains("empty"));
}

#[test]
fn keyword_case_insensitive() {
    parse("qty > 0 and s is not null");
}

#[test]
fn interval_word_boundary() {
    // A column named after a keyword prefix is still a column.
    let e = parse("intervals > 0");
    let ExprKind::Compare { lhs, .. } = &e.root.kind else { panic!() };
    assert!(matches!(&lhs.kind, ExprKind::Column(c) if c[..] == ["intervals"]));
}

#[test]
fn spans_point_at_tokens() {
    let s = "qty > 0";
    let e = AssertExpr::parse(s).unwrap();
    let ExprKind::Compare { lhs, rhs, .. } = &e.root.kind else { panic!() };
    assert_eq!(&s[lhs.start..lhs.end], "qty");
    assert_eq!(&s[rhs.start..rhs.end], "0");
}

#[test]
fn rejects_empty() {
    assert!(AssertExpr::parse("").is_err());
}

#[test]
fn rejects_trailing_input() {
    assert!(AssertExpr::parse("qty > 0 garbage").is_err());
}

#[test]
fn rejects_unterminated_string() {
    let err = AssertExpr::parse("s = 'abc").unwrap_err();
    assert!(err.message.contains("unterminated"));
}

#[test]
fn rejects_bare_keyword_as_operand() {
    assert!(AssertExpr::parse("qty > AND").is_err());
}

/// The value a numeric literal on the right of a comparison holds.
fn number_literal(s: &str) -> NumLit {
    let e = AssertExpr::parse(s).unwrap();
    let ExprKind::Compare { rhs, .. } = e.root.kind else { panic!("expected a comparison") };
    match rhs.kind {
        ExprKind::Number(n) => n,
        ref other => panic!("expected a number, got {other:?}"),
    }
}

/// A float literal's value, read from the digits it keeps.
fn float_value(n: &NumLit) -> f64 {
    match n {
        NumLit::Float(text) => text.parse::<f64>().unwrap(),
        NumLit::Int(_) => panic!("expected a float"),
    }
}

#[test]
fn number_literals_carry_their_value() {
    assert_eq!(number_literal("qty > 42"), NumLit::Int(42));
    assert_eq!(number_literal("qty > 0"), NumLit::Int(0));
    assert_eq!(float_value(&number_literal("qty > 0.5")), 0.5);
    assert_eq!(float_value(&number_literal("qty > 12.75")), 12.75);
    assert_eq!(float_value(&number_literal("qty > 42.0")), 42.0);
    // The largest i64: one more is rejected below.
    assert_eq!(number_literal("qty > 9223372036854775807"), NumLit::Int(i64::MAX));
}

#[test]
fn a_leading_minus_is_not_part_of_the_literal() {
    let e = AssertExpr::parse("qty > -1").unwrap();
    let ExprKind::Compare { rhs, .. } = &e.root.kind else { panic!() };
    let ExprKind::Neg(inner) = &rhs.kind else { panic!("expected unary minus") };
    assert!(matches!(inner.kind, ExprKind::Number(NumLit::Int(1))));
}

#[test]
fn rejects_integer_literal_too_large() {
    let err = AssertExpr::parse("qty > 9223372036854775808").unwrap_err();
    assert!(err.message.contains("too large for a 64-bit integer"));
    assert_eq!(err.at, 6, "the span points at the literal, not past it");
}

#[test]
fn rejects_float_literal_too_large() {
    let huge = format!("qty > {}.0", "9".repeat(400));
    let err = AssertExpr::parse(&huge).unwrap_err();
    assert!(err.message.contains("too large for a number"));
}

#[test]
fn field_access_parses_to_path() {
    let e = parse("addr.geo.lat > 0");
    let ExprKind::Compare { lhs, .. } = &e.root.kind else { panic!("expected comparison at the root") };
    assert!(matches!(&lhs.kind, ExprKind::Column(c) if c[..] == ["addr", "geo", "lat"]));
}

#[test]
fn dot_needs_a_field_name() {
    let err = AssertExpr::parse("addr. > 0").unwrap_err();
    assert!(err.message.contains("field name"));
    let err = AssertExpr::parse("addr.end IS NULL").unwrap_err();
    assert!(err.message.contains("keyword"));
}

// --- Further cases ---------------------------------------------

#[test]
fn the_float_limit_is_exactly_where_rounding_overflows() {
    // 2^1024 - 2^970 rounds to infinity; one less rounds to the largest finite f64.
    let limit = "179769313486231580793728971405303415079934132710037826936173778980444968292764750946649017977587207096330286416692887910946555547851940402630657488671505820681908902000708383676273854845817711531764475730270069855571366959622842914819860834936475292719074168444365510704342711559699508093042880177904174497792";
    let below = "179769313486231580793728971405303415079934132710037826936173778980444968292764750946649017977587207096330286416692887910946555547851940402630657488671505820681908902000708383676273854845817711531764475730270069855571366959622842914819860834936475292719074168444365510704342711559699508093042880177904174497791";
    assert!(format!("{limit}.0").parse::<f64>().unwrap().is_infinite());
    assert!(format!("{below}.9").parse::<f64>().unwrap().is_finite());
    assert!(AssertExpr::parse(&format!("qty > {limit}.0")).is_err());
    assert!(AssertExpr::parse(&format!("qty > {below}.9")).is_ok());
    // Leading zeros do not count.
    assert!(AssertExpr::parse(&format!("qty > 000{below}.5")).is_ok());
}

#[test]
fn error_messages_name_what_was_expected() {
    let err = AssertExpr::parse("n NOT 3").unwrap_err();
    assert_eq!(err.message, "expected `BETWEEN`, `IN`, `LIKE`, or `SIMILAR TO` after `NOT`");
    assert_eq!(err.at, 5);
    let err = AssertExpr::parse("n IS 3").unwrap_err();
    assert_eq!(err.message, "expected `NULL`");
    let err = AssertExpr::parse("qty > AND").unwrap_err();
    assert_eq!(err.message, "unexpected keyword `AND`");
    assert_eq!(err.at, 6);
    let err = AssertExpr::parse("CASE END").unwrap_err();
    assert_eq!(err.message, "`CASE` needs at least one `WHEN ... THEN ...`");
    let err = AssertExpr::parse("interval(1, 2)").unwrap_err();
    assert_eq!(err.message, "expected an interval unit");
    let err = AssertExpr::parse("COLUMNS(1)").unwrap_err();
    assert_eq!(err.message, "expected `*`, a regex string, or `[names]`");
    let err = AssertExpr::parse("qty > 0 garbage").unwrap_err();
    assert_eq!(err.message, "unexpected trailing input");
    assert_eq!(err.at, 8);
}

#[test]
fn spans_are_byte_offsets_past_multibyte_text() {
    let src = "'é' = x";
    let e = parse(src);
    let ExprKind::Compare { lhs, rhs, .. } = &e.root.kind else { panic!() };
    assert_eq!(&src[lhs.start..lhs.end], "'é'");
    assert_eq!(&src[rhs.start..rhs.end], "x");
    let err = AssertExpr::parse("'é' = ").unwrap_err();
    assert_eq!(err.at, 7);
}

#[test]
fn calls_interval_and_columns_keep_their_parts() {
    let e = parse("LENGTH(s, 2) > interval(n, Days)");
    let ExprKind::Compare { lhs, rhs, .. } = &e.root.kind else { panic!() };
    let ExprKind::Call { name, args } = &lhs.kind else { panic!() };
    assert_eq!(name, "LENGTH");
    assert_eq!(args.len(), 2);
    let ExprKind::Interval { unit, unit_start, unit_end, .. } = &rhs.kind else { panic!() };
    assert_eq!(unit, "Days");
    assert_eq!((*unit_start, *unit_end), (27, 31));
    let e = parse("COLUMNS('q[0-9]') IS NULL");
    let ExprKind::IsNull { operand, .. } = &e.root.kind else { panic!() };
    let ExprKind::Columns(ColumnsSelector::Regex { pattern, start, end }) = &operand.kind else { panic!() };
    assert_eq!(pattern, "q[0-9]");
    assert_eq!((*start, *end), (8, 16));
    let e = parse("f() IS NULL");
    let ExprKind::IsNull { operand, .. } = &e.root.kind else { panic!() };
    assert!(matches!(&operand.kind, ExprKind::Call { args, .. } if args.is_empty()));
}
