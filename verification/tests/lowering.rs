use chrono::{NaiveDate, TimeZone};
use data_dict::assert_expr::{
    check, lower, AssertExpr, CheckEnv, ColumnKind, DatetimeConst, IntervalUnit, LikePattern,
    NodeKind, SelectorForm, Shape, TypedAssertion, TypedExpr,
};

fn test_env() -> CheckEnv {
    let columns = [
        ("n", ColumnKind::Number),
        ("qty", ColumnKind::Number),
        ("s", ColumnKind::String),
        ("postcode", ColumnKind::String),
        ("flag", ColumnKind::Bool),
        ("q3", ColumnKind::Bool),
        ("q4", ColumnKind::Bool),
        ("d", ColumnKind::Date),
        ("start_date", ColumnKind::Date),
        ("end_date", ColumnKind::Date),
        ("ts", ColumnKind::Datetime),
        ("u", ColumnKind::Untyped),
        ("addr", ColumnKind::Struct),
        ("tags", ColumnKind::List),
    ];
    let fields = [
        ("addr.zip", ColumnKind::String),
        ("addr.geo", ColumnKind::Struct),
        ("addr.geo.lat", ColumnKind::Number),
        ("addr.nick names", ColumnKind::String),
        ("addr.untyped", ColumnKind::Untyped),
    ];
    CheckEnv {
        columns: columns.iter().map(|(n, k)| (n.to_string(), *k)).collect(),
        fields: fields
            .iter()
            .map(|(p, k)| (p.split('.').map(|x| x.to_string()).collect(), *k))
            .collect(),
    }
}

fn ir(s: &str) -> TypedAssertion {
    let expr = AssertExpr::parse(s).unwrap_or_else(|e| panic!("parse({s:?}): {}", e.message));
    let env = test_env();
    let findings = check(&expr, &env);
    assert!(findings.is_empty(), "{s:?} should check clean: {findings:?}");
    lower(&expr, &env).unwrap_or_else(|| panic!("lower({s:?}) returned None"))
}

fn date_text(y: i32, m: u32, d: u32) -> NaiveDate {
    NaiveDate::from_ymd_opt(y, m, d).expect("a real date")
}

/// A one-line rendering of the tree, so a test can assert on its shape
/// without matching a dozen nested patterns.
fn render(e: &TypedExpr) -> String {
    let ty = format!("{:?}", e.ty).to_lowercase();
    let inner = match &e.kind {
        NodeKind::Int(n) => format!("{n}"),
        NodeKind::Float(x) => format!("{x}f"),
        NodeKind::Str(s) => format!("{s:?}"),
        NodeKind::Bool(b) => format!("{b}"),
        NodeKind::Null => "null".to_string(),
        NodeKind::Date(d) => format!("date({})", date_text(d.year, d.month, d.day)),
        NodeKind::Datetime(t) => match t {
            DatetimeConst::Offset { local, offset_seconds } => {
                let naive = date_text(local.date.year, local.date.month, local.date.day)
                    .and_hms_nano_opt(local.hour, local.minute, local.second, local.nanosecond)
                    .expect("a real time");
                let zone = chrono::FixedOffset::east_opt(*offset_seconds).expect("an offset");
                let t = zone.from_local_datetime(&naive).single().expect("one instant");
                format!("datetime({})", t.to_rfc3339())
            }
            DatetimeConst::Naive(local) => {
                let naive = date_text(local.date.year, local.date.month, local.date.day)
                    .and_hms_nano_opt(local.hour, local.minute, local.second, local.nanosecond)
                    .expect("a real time");
                format!("datetime({naive})")
            }
        },
        NodeKind::Column(c) => format!("col({})", c.path.join(".")),
        NodeKind::Selected => "selected".to_string(),
        NodeKind::Neg(x) => format!("neg({})", render(x)),
        NodeKind::Not(x) => format!("not({})", render(x)),
        NodeKind::Arith { op, lhs, rhs } => format!("{op:?}({}, {})", render(lhs), render(rhs)),
        NodeKind::Compare { op, lhs, rhs } => format!("{op:?}({}, {})", render(lhs), render(rhs)),
        NodeKind::And(l, r) => format!("and({}, {})", render(l), render(r)),
        NodeKind::Or(l, r) => format!("or({}, {})", render(l), render(r)),
        NodeKind::IsNull { operand, negated } => format!("isnull{}({})", neg(*negated), render(operand)),
        NodeKind::Between { operand, lo, hi, negated } => format!(
            "between{}({}, {}, {})",
            neg(*negated),
            render(operand),
            render(lo),
            render(hi)
        ),
        NodeKind::In { operand, list, negated } => {
            let items: Vec<String> = list.iter().map(render).collect();
            format!("in{}({}, [{}])", neg(*negated), render(operand), items.join(", "))
        }
        NodeKind::Like { operand, pattern, negated } => format!(
            "like{}({}, {})",
            neg(*negated),
            render(operand),
            match pattern {
                LikePattern::Exact(p) => format!("exact {p:?}"),
                LikePattern::Prefix(p) => format!("prefix {p:?}"),
                LikePattern::Suffix(p) => format!("suffix {p:?}"),
                LikePattern::Regex(p) => format!("regex {p:?}"),
                LikePattern::Dynamic(e) => format!("dynamic {}", render(e)),
            }
        ),
        NodeKind::SimilarTo { operand, pattern, negated } => {
            format!("similar{}({}, {})", neg(*negated), render(operand), render(pattern))
        }
        NodeKind::Func { op, args } => {
            let args: Vec<String> = args.iter().map(render).collect();
            format!("{op:?}({})", args.join(", "))
        }
        NodeKind::Now => "now".to_string(),
        NodeKind::Interval { n, unit } => format!("interval({}, {unit:?})", render(n)),
        NodeKind::Case { whens, els } => {
            let mut parts: Vec<String> = whens
                .iter()
                .map(|(c, r)| format!("when {} then {}", render(c), render(r)))
                .collect();
            if let Some(e) = els {
                parts.push(format!("else {}", render(e)));
            }
            format!("case({})", parts.join(", "))
        }
    };
    format!("{inner}:{ty}")
}

fn neg(negated: bool) -> &'static str {
    if negated { "!" } else { "" }
}

fn rendered(s: &str) -> String {
    render(&ir(s).root)
}

#[test]
fn every_node_carries_its_type() {
    assert_eq!(rendered("qty > 0"), "Gt(col(qty):number, 0:number):bool");
    assert_eq!(
        rendered("LENGTH(postcode) <= 10"),
        "Le(Length(col(postcode):string):number, 10:number):bool"
    );
    assert_eq!(rendered("flag"), "col(flag):bool");
    assert_eq!(
        rendered("qty / 2 > 0.5"),
        "Gt(Div(col(qty):number, 2:number):number, 0.5f:number):bool"
    );
}

#[test]
fn a_function_name_becomes_one_op() {
    for spelling in ["LENGTH(s)", "length(s)", "LeNgTh(s)"] {
        let expr = format!("{spelling} > 0");
        assert!(rendered(&expr).starts_with("Gt(Length("), "{expr}");
    }
}

#[test]
fn a_temporal_string_literal_becomes_a_constant() {
    assert_eq!(rendered("d >= '2000-01-01'"), "Ge(col(d):date, date(2000-01-01):date):bool");
    assert_eq!(rendered("'2000-01-01' <= d"), "Le(date(2000-01-01):date, col(d):date):bool");
    assert!(rendered("d BETWEEN '2000-01-01' AND '2030-01-01'").contains("date(2030-01-01)"));
    assert!(rendered("d IN ('2000-01-01')").contains("date(2000-01-01)"));
}

#[test]
fn a_string_that_is_not_a_date_stays_a_string() {
    assert_eq!(rendered("s = 'not a date'"), "Eq(col(s):string, \"not a date\":string):bool");
}

#[test]
fn a_datetime_literal_keeps_its_spelling() {
    assert!(rendered("ts >= '2024-01-31T09:30:00Z'").contains("datetime(2024-01-31T09:30:00+00:00)"));
    assert!(rendered("ts >= '2024-01-31T09:30:00'").contains("datetime(2024-01-31 09:30:00)"));
}

#[test]
fn like_patterns_are_taken_apart() {
    assert!(rendered("s LIKE 'NZ-%'").contains("prefix \"NZ-\""));
    assert!(rendered("s LIKE '%.nz'").contains("suffix \".nz\""));
    assert!(rendered("s LIKE 'exact'").contains("exact \"exact\""));
    assert!(rendered("s LIKE 'a%b_c'").contains(r#"regex "^a.*b.c$""#));
    assert!(rendered("s LIKE 'a.b%c'").contains(r#"regex "^a\\.b.*c$""#));
    assert!(rendered("s LIKE LOWER(postcode)").contains("dynamic"));
}

#[test]
fn shapes_come_out_of_the_walk() {
    assert_eq!(ir("qty > 0").root.shape, Shape::Row);
    assert_eq!(ir("SUM(qty) > 0").root.shape, Shape::Agg);
    assert_eq!(ir("ROW_COUNT() > 0").root.shape, Shape::Agg);
    assert_eq!(ir("qty <= 2 * MIN(qty)").root.shape, Shape::Row);
    assert_eq!(ir("1 > 0").root.shape, Shape::Const);
}

#[test]
fn min_returns_its_argument_type() {
    assert_eq!(rendered("d >= MIN(d)"), "Ge(col(d):date, Min(col(d):date):date):bool");
}

#[test]
fn a_shifted_date_is_a_datetime() {
    assert_eq!(
        rendered("d + interval(12, hours) < NOW()"),
        "Lt(Add(col(d):date, interval(12:number, Hours):interval):datetime, now:datetime):bool"
    );
}

#[test]
fn columns_stays_symbolic_with_its_resolution() {
    let ir = ir("COLUMNS('q[34]') IS NOT NULL");
    let selection = ir.selection.as_ref().expect("a selection");
    assert!(matches!(selection.form, SelectorForm::Regex(ref p) if p == "q[34]"));
    let names: Vec<&str> = selection.columns.iter().map(|c| c.path[0].as_str()).collect();
    assert_eq!(names, ["q3", "q4"]);
    assert_eq!(render(&ir.root), "isnull!(selected:any):bool");
}

#[test]
fn columns_star_resolves_to_every_column() {
    let ir = ir("COLUMNS(*) IS NOT NULL");
    let selection = ir.selection.expect("a selection");
    assert!(matches!(selection.form, SelectorForm::All));
    assert_eq!(selection.columns.len(), test_env().columns.len());
}

#[test]
fn a_field_reference_resolves_to_the_fields_type() {
    assert_eq!(
        rendered("LENGTH(addr.zip) > 0"),
        "Gt(Length(col(addr.zip):string):number, 0:number):bool"
    );
}

#[test]
fn null_is_typeless() {
    assert_eq!(rendered("qty = NULL"), "Eq(col(qty):number, null:any):bool");
}

#[test]
fn interval_units_are_resolved() {
    for (unit, expected) in [
        ("seconds", IntervalUnit::Seconds),
        ("minutes", IntervalUnit::Minutes),
        ("hours", IntervalUnit::Hours),
        ("days", IntervalUnit::Days),
        ("weeks", IntervalUnit::Weeks),
    ] {
        let ir = ir(&format!("ts >= NOW() - interval(1, {unit})"));
        let rendered = render(&ir.root);
        assert!(rendered.contains(&format!("{expected:?}")), "{unit}");
    }
    assert_eq!(IntervalUnit::Weeks.seconds(), 7 * 24 * 3600);
}

// Of my own.

#[test]
fn an_unresolved_column_does_not_lower() {
    let expr = AssertExpr::parse("missing > 0").expect("parses");
    assert!(lower(&expr, &test_env()).is_none());
    let expr = AssertExpr::parse("COLUMNS([qty, nope]) IS NOT NULL").expect("parses");
    assert!(lower(&expr, &test_env()).is_none());
    let expr = AssertExpr::parse("SQRT(qty) > 0").expect("parses");
    assert!(lower(&expr, &test_env()).is_none());
    let expr = AssertExpr::parse("s SIMILAR TO '(' AND COLUMNS('(') IS NULL").expect("parses");
    assert!(lower(&expr, &test_env()).is_none());
}

#[test]
fn a_listed_selection_keeps_its_order() {
    let ir = ir("COLUMNS([q4, q3]) IS NOT NULL");
    let selection = ir.selection.expect("a selection");
    assert!(matches!(selection.form, SelectorForm::List));
    let names: Vec<&str> = selection.columns.iter().map(|c| c.path[0].as_str()).collect();
    assert_eq!(names, ["q4", "q3"]);
}

#[test]
fn case_and_in_lower_in_order() {
    assert_eq!(
        rendered("CASE WHEN flag THEN 1 ELSE 2 END > 0"),
        "Gt(case(when col(flag):bool then 1:number, else 2:number):number, 0:number):bool"
    );
    assert_eq!(
        rendered("CASE WHEN flag THEN 1 ELSE 'a' END IS NULL"),
        "isnull(case(when col(flag):bool then 1:number, else \"a\":string):any):bool"
    );
    assert_eq!(
        rendered("'2000-01-01' IN (start_date, end_date)"),
        "in(date(2000-01-01):date, [col(start_date):date, col(end_date):date]):bool"
    );
}

#[test]
fn like_pattern_edges() {
    assert!(matches!(data_dict::assert_expr::like_pattern_of("%"), LikePattern::Prefix(ref p) if p.is_empty()));
    assert!(matches!(data_dict::assert_expr::like_pattern_of("_"), LikePattern::Regex(ref p) if p == "^.$"));
    assert!(matches!(data_dict::assert_expr::like_pattern_of("%a%"), LikePattern::Regex(ref p) if p == "^.*a.*$"));
    assert!(matches!(data_dict::assert_expr::like_pattern_of("a+(b)_"), LikePattern::Regex(ref p) if p == r"^a\+\(b\).$"));
}

#[test]
fn columns_lists_each_column_once_in_order() {
    let ir = ir("qty > 0 AND LENGTH(s) > qty AND addr.zip IS NULL");
    let names: Vec<String> = ir.columns().iter().map(|c| c.path.join(".")).collect();
    assert_eq!(names, ["qty", "s", "addr.zip"]);
    let ir = self::ir("COLUMNS('q[34]') IS NOT NULL OR q3");
    let names: Vec<String> = ir.columns().iter().map(|c| c.path.join(".")).collect();
    assert_eq!(names, ["q3", "q4"]);
}

#[test]
fn children_come_in_written_order() {
    let ir = ir("n BETWEEN 1 AND 10");
    let kids: Vec<String> = ir.root.children().iter().map(|c| render(c)).collect();
    assert_eq!(kids, ["col(n):number", "1:number", "10:number"]);
    let ir = self::ir("CASE WHEN flag THEN 1 ELSE 2 END > 0");
    let case = &ir.root.children()[0].children();
    assert_eq!(case.len(), 3);
    assert_eq!(ir.root.children()[1].children().len(), 0);
}
