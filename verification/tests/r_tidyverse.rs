use data_dict::assert_expr::{check_root, lower, AssertExpr, CheckEnv, ColumnKind, Root};
use data_dict::emit::r_tidyverse::{DIVISION, EMPTY_FOLD, MODULO_ZERO, OVERFLOW, REGEX, ROUNDING};
use data_dict::emit::{emit_r, Emitted, RTidyverse, Unsupported};

fn test_env() -> CheckEnv {
    let columns = [
        ("n", ColumnKind::Number),
        ("qty", ColumnKind::Number),
        ("s", ColumnKind::String),
        ("postcode", ColumnKind::String),
        ("flag", ColumnKind::Bool),
        ("q3", ColumnKind::Bool),
        ("q4", ColumnKind::Bool),
        ("d", ColumnKind::Date),
        ("ts", ColumnKind::Datetime),
        ("u", ColumnKind::Untyped),
        ("addr", ColumnKind::Struct),
    ];
    let fields = [("addr.zip", ColumnKind::String), ("addr.nick names", ColumnKind::String)];
    CheckEnv {
        columns: columns.iter().map(|(n, k)| (n.to_string(), *k)).collect(),
        fields: fields
            .iter()
            .map(|(p, k)| (p.split('.').map(|x| x.to_string()).collect(), *k))
            .collect(),
    }
}

fn translate(source: &str) -> Result<Emitted, Unsupported> {
    let expr = AssertExpr::parse(source).expect("parses");
    let env = test_env();
    let findings = check_root(&expr, &env, Root::Any);
    assert!(findings.is_empty(), "{source:?}: {findings:?}");
    let ir = lower(&expr, &env).expect("lowers");
    emit_r(&RTidyverse, &ir)
}

fn r(source: &str) -> String {
    translate(source).expect("emits").code
}

fn notes(source: &str) -> Vec<String> {
    translate(source).expect("emits").notes
}

#[test]
fn literals_and_columns_take_r_spellings() {
    assert_eq!(r("qty > 0"), "qty > 0L");
    assert_eq!(r("qty = 42.0"), "qty == 42.0");
    assert_eq!(r("qty = 0.5"), "qty == 0.5");
    assert_eq!(r("s = 'say \"hi\"'"), r#"s == "say \"hi\"""#);
    assert_eq!(r("flag = TRUE"), "flag == TRUE");
    assert_eq!(r("addr.zip = 'x'"), r#"addr$zip == "x""#);
    assert_eq!(r("addr.`nick names` = 'x'"), r#"addr$`nick names` == "x""#);
    assert_eq!(r("u IS NULL"), "is.na(u)");
    assert_eq!(r("u IS NOT NULL"), "!is.na(u)");
}

#[test]
fn precedence_is_r_precedence() {
    assert_eq!(r("NOT flag OR q3 AND q4"), "!flag | q3 & q4");
    assert_eq!(r("(q3 OR q4) AND flag"), "(q3 | q4) & flag");
    assert_eq!(r("n - (n - 1) > 0"), "n - (n - 1L) > 0L");
    assert_eq!(r("NOT NOT flag"), "!(!flag)");
    assert_eq!(r("- -n > 0"), "-(-n) > 0L");
}

#[test]
fn membership_and_patterns_are_guarded_or_translated() {
    assert_eq!(r("qty IN (1, 2)"), "is.na(qty) | (qty %in% c(1L, 2L))");
    assert_eq!(r("qty NOT IN (1)"), "is.na(qty) | !(qty %in% c(1L))");
    assert_eq!(r("qty BETWEEN 0 AND 100"), "between(qty, 0L, 100L)");
    assert_eq!(r("qty NOT BETWEEN 0 AND 100"), "!between(qty, 0L, 100L)");
    assert_eq!(r("s LIKE 'NZ-%'"), r#"str_starts(s, fixed("NZ-"))"#);
    assert_eq!(r("s NOT LIKE '%.nz'"), r#"!str_ends(s, fixed(".nz"))"#);
    assert_eq!(r("s LIKE 'exact'"), r#"s == "exact""#);
    assert_eq!(r("s LIKE 'a%b'"), r#"str_detect(s, "^a.*b$")"#);
    assert_eq!(r("s SIMILAR TO 'a|b'"), r#"str_detect(s, "^(?:a|b)$")"#);
    assert_eq!(notes("s LIKE 'a%b'"), [REGEX]);
    assert_eq!(notes("s LIKE 'a%'"), Vec::<String>::new());
    let refused = translate("s LIKE LOWER(postcode)").unwrap_err();
    assert_eq!(refused.what, "`LIKE` with a computed pattern");
}

#[test]
fn functions_and_their_notes() {
    assert_eq!(r("MOD(n, 3) = 0"), "n - 3L * trunc(n / 3L) == 0L");
    assert_eq!(notes("MOD(n, 3) = 0"), [MODULO_ZERO]);
    assert_eq!(r("ROUND(n) = 1"), "round(n) == 1L");
    assert_eq!(notes("ROUND(n) = 1"), [ROUNDING]);
    assert_eq!(r("SUM(qty) > 0"), "sum(qty, na.rm = TRUE) > 0L");
    assert_eq!(notes("SUM(qty) > 0"), [EMPTY_FOLD, OVERFLOW]);
    assert_eq!(r("COUNT(s) > 0"), "sum(!is.na(s)) > 0L");
    assert_eq!(r("ROW_COUNT() > 0"), "n() > 0L");
    assert_eq!(r("COUNT_DISTINCT(s) <= 16"), "n_distinct(s, na.rm = TRUE) <= 16L");
    assert_eq!(r("ANY(flag)"), "any(flag, na.rm = TRUE)");
    assert_eq!(r("LENGTH(addr.zip) > 0"), "str_length(addr$zip) > 0L");
    assert_eq!(notes("n / qty > 1 AND SUM(qty) > 0 AND s SIMILAR TO 'x'"), [EMPTY_FOLD, OVERFLOW, DIVISION, REGEX]);
}

#[test]
fn temporal_values_are_constructed() {
    assert_eq!(r("d >= '2000-01-01'"), r#"d >= as.Date("2000-01-01")"#);
    assert_eq!(r("ts >= '2024-01-31T09:30:00+02:00'"), r#"ts >= as.POSIXct("2024-01-31 07:30:00", tz = "UTC")"#);
    assert_eq!(r("ts >= '2024-01-01T01:00:00.5+02:00'"), r#"ts >= as.POSIXct("2023-12-31 23:00:00.500", tz = "UTC")"#);
    assert_eq!(r("ts >= '2024-01-31T09:30:00'"), r#"ts >= as.POSIXct("2024-01-31 09:30:00", tz = "UTC")"#);
    assert_eq!(r("ts >= NOW() - interval(2, weeks)"), r#"ts >= Sys.time() - as.difftime(2L, units = "weeks")"#);
    assert_eq!(
        r("d + interval(12, hours) < NOW()"),
        r#"as.POSIXct(d, tz = "UTC") + as.difftime(12L, units = "hours") < Sys.time()"#
    );
}

#[test]
fn case_and_selections() {
    assert_eq!(r("CASE WHEN flag THEN qty > 1 ELSE qty > 10 END"), "case_when(flag ~ qty > 1L, .default = qty > 10L)");
    assert_eq!(r("CASE WHEN flag THEN qty > 1 END"), "case_when(flag ~ qty > 1L, .default = NA)");
    assert_eq!(r("COLUMNS([q3, q4]) IS NOT NULL"), "!is.na(q3) & !is.na(q4)");
    assert_eq!(r("COLUMNS([q3, q4]) OR flag"), "(q3 | flag) & (q4 | flag)");
}
