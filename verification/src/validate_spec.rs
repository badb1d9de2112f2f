//! The spec checks: the rules a dictionary must meet before any data is read.
//! Column checks look at one column on its own: whether its `type` is known
//! (S28), whether it carries the data representation its type asks for (S07),
//! whether `units` (S08) and `time_zone` (S14, S15) sit on a column whose type
//! gives them meaning, whether key constraints suit it (S29), and whether a
//! `foreign_key` has a relationship to a `primary_key` (S01). Relationship
//! checks look at the `join`s (S02 to S06, S25 to S27); the checks on names
//! and notes stand in `dictionary`, and `check_spec` runs them all over a
//! dictionary in order. Each check is proved to report exactly the problems
//! its rule states, in the order stated, after the ones already reported.

use vstd::prelude::*;

use quarto_source_map::SourceInfo;

use crate::join_expr::{dedup, push_unique, qcol_seq, table_names, ConjSpec, JoinConjunct, JoinExpr, QCol, QColSpec};
use crate::model::{
    first_match, foreign_key_target, innermost_type, Alias, Cardinality, Column, Constraint, DataDict, Relationship,
    Spanned, Table,
};
use crate::problem::{Problem, ProblemSet, Severity};
use crate::text::{chars_of, decimal, decimal_string, innermost, list_element, list_elem, str_eq};

mod dictionary;
mod run;
mod version;

pub use dictionary::{
    fmt_backtick_list, validate_s10_unique_name, validate_s10_unique_table_name, validate_s11_column_name,
    validate_enum_values, validate_s11_table_name, validate_s16_single_table_description, validate_s31_todos,
};
pub use run::{check_spec, validate_and_lower, validate_spec_str};
pub use version::{
    check_spec_version, check_version_field, is_version_number, parse_version_core, FIRST_SPEC_VERSION,
    LEARN_MORE_URL, SPEC_VERSION,
};

verus! {

// --- Reporting ---------------------------------------------------------------------------

/// A spec problem as the rules state it: its code, the rule it breaks, and
/// what was found.
pub struct Found {
    pub code: Seq<char>,
    pub severity: Severity,
    pub expected: Seq<char>,
    pub actual: Seq<char>,
}

/// An error-severity spec problem.
pub open spec fn found(code: Seq<char>, expected: Seq<char>, actual: Seq<char>) -> Found {
    Found { code, severity: Severity::Error, expected, actual }
}

/// A warning-severity spec problem.
pub open spec fn warned(code: Seq<char>, expected: Seq<char>, actual: Seq<char>) -> Found {
    Found { code, severity: Severity::Warning, expected, actual }
}

/// Whether `p` is the spec problem `f`.
pub open spec fn is_found(p: Problem, f: Found) -> bool {
    &&& p.code matches Some(c) && c@ == f.code
    &&& p.severity == f.severity
    &&& p.expected matches Some(e) && e@ == f.expected
    &&& p.message@ == f.actual
    &&& p.kind is Spec
    &&& p.column is None
    &&& p.context@.len() > 0
}

/// Whether `after` is `before` followed by exactly the problems `want`.
pub open spec fn reports(before: Seq<Problem>, after: Seq<Problem>, want: Seq<Found>) -> bool {
    &&& after.len() == before.len() + want.len()
    &&& after.take(before.len() as int) == before
    &&& forall|i: int| 0 <= i < want.len() ==> is_found(#[trigger] after[before.len() + i], want[i])
}

pub proof fn lemma_reports_none(s: Seq<Problem>)
    ensures
        reports(s, s, seq![]),
{
    assert(s.take(s.len() as int) =~= s);
}

pub proof fn lemma_reports_chain(a: Seq<Problem>, b: Seq<Problem>, c: Seq<Problem>, w1: Seq<Found>, w2: Seq<Found>)
    requires
        reports(a, b, w1),
        reports(b, c, w2),
    ensures
        reports(a, c, w1 + w2),
{
    assert(c.take(a.len() as int) =~= b.take(a.len() as int)) by {
        assert forall|i: int| 0 <= i < a.len() implies c[i] == b[i] by {
            assert(c.take(b.len() as int)[i] == b[i]);
        }
    }
    assert forall|i: int| 0 <= i < (w1 + w2).len() implies is_found(#[trigger] c[a.len() + i], (w1 + w2)[i]) by {
        if i < w1.len() {
            assert(c.take(b.len() as int)[a.len() + i] == b[a.len() + i]);
            assert(is_found(b[a.len() + i], w1[i]));
        } else {
            let j = i - w1.len();
            assert(c[b.len() + j] == c[a.len() + i]);
            assert(is_found(c[b.len() + j], w2[j]));
        }
    }
}

/// Report an error-severity spec problem located by `spans`.
fn report(out: &mut ProblemSet, code: &'static str, expected: String, actual: String, spans: Vec<SourceInfo>)
    requires
        spans@.len() > 0,
    ensures
        final(out).source == old(out).source,
        reports(old(out).items@, final(out).items@, seq![found(code@, expected@, actual@)]),
{
    out.push_spec_error(code, expected, actual, spans);
    let ghost after = out.items@;
    proof {
        let before = old(out).items@;
        assert(after[before.len() as int] == after.last());
    }
}

/// Report a warning-severity spec problem located by `spans`.
fn report_warning(out: &mut ProblemSet, code: &'static str, expected: String, actual: String, spans: Vec<SourceInfo>)
    requires
        spans@.len() > 0,
    ensures
        final(out).source == old(out).source,
        reports(old(out).items@, final(out).items@, seq![warned(code@, expected@, actual@)]),
{
    out.push_spec_warning(code, expected, actual, spans);
    let ghost after = out.items@;
    proof {
        let before = old(out).items@;
        assert(after[before.len() as int] == after.last());
    }
}

/// The table, the column, then `span`: where a finding about one of the
/// column's keys is shown.
fn at(table: &Table, col: &Column, span: &SourceInfo) -> (r: Vec<SourceInfo>)
    ensures
        r@.len() == 3,
{
    let mut v: Vec<SourceInfo> = Vec::new();
    v.push(table.name.span.clone());
    v.push(col.name.span.clone());
    v.push(span.clone());
    v
}

// --- Types ----------------------------------------------------------------------------

pub open spec fn known_type(t: Seq<char>) -> bool {
    ||| t == "string"@ ||| t == "number"@ ||| t == "number(id)"@ ||| t == "number(ordinal)"@
    ||| t == "number(quantity)"@ ||| t == "boolean"@ ||| t == "date"@ ||| t == "datetime"@
    ||| t == "enum"@ ||| t == "struct"@
}

/// Whether a type string is a known type: a fixed scalar, `struct`, or
/// `list(...)` around one of those, to any depth.
pub open spec fn valid_type(t: Seq<char>) -> bool {
    known_type(innermost(t))
}

fn is_known_type(t: &str) -> (r: bool)
    ensures
        r == known_type(t@),
{
    str_eq(t, "string") || str_eq(t, "number") || str_eq(t, "number(id)") || str_eq(t, "number(ordinal)")
        || str_eq(t, "number(quantity)") || str_eq(t, "boolean") || str_eq(t, "date") || str_eq(t, "datetime")
        || str_eq(t, "enum") || str_eq(t, "struct")
}

/// The column types the dictionary format documents.
pub open spec fn documented_types() -> Seq<Seq<char>> {
    seq![
        "string"@,
        "number"@,
        "number(id)"@,
        "number(ordinal)"@,
        "number(quantity)"@,
        "boolean"@,
        "date"@,
        "datetime"@,
        "enum"@,
        "struct"@,
    ]
}

proof fn lemma_documented_not_lists(i: int)
    requires
        0 <= i < 10,
    ensures
        list_elem(documented_types()[i]) is None,
        innermost(documented_types()[i]) == documented_types()[i],
{
    reveal_strlit("string");
    reveal_strlit("number");
    reveal_strlit("number(id)");
    reveal_strlit("number(ordinal)");
    reveal_strlit("number(quantity)");
    reveal_strlit("boolean");
    reveal_strlit("date");
    reveal_strlit("datetime");
    reveal_strlit("enum");
    reveal_strlit("struct");
    reveal_strlit("list(");
    let t = documented_types()[i];
    if t.len() >= 6 && t.take(5) == "list("@ {
        assert(t.take(5)[0] == "list("@[0]);
        assert(t[0] == 'l');
    }
}

/// A type is recognised exactly when, stripped of any `list(...)` wrappers,
/// it is one of the documented column types; so each documented type, alone
/// or as a list's element, is recognised (`number(ordinal)` and
/// `list(number(ordinal))` among them).
pub proof fn law_recognised_types_are_the_documented_ones(t: Seq<char>)
    ensures
        valid_type(t) <==> documented_types().contains(innermost(t)),
        forall|i: int|
            0 <= i < documented_types().len() ==> valid_type(#[trigger] documented_types()[i]) && valid_type(
                "list("@ + documented_types()[i] + ")"@,
            ),
{
    reveal_strlit("list(");
    reveal_strlit(")");
    let d = documented_types();
    let u = innermost(t);
    if known_type(u) {
        let k: int = if u == "string"@ {
            0
        } else if u == "number"@ {
            1
        } else if u == "number(id)"@ {
            2
        } else if u == "number(ordinal)"@ {
            3
        } else if u == "number(quantity)"@ {
            4
        } else if u == "boolean"@ {
            5
        } else if u == "date"@ {
            6
        } else if u == "datetime"@ {
            7
        } else if u == "enum"@ {
            8
        } else {
            9
        };
        assert(d[k] == u);
    }
    if d.contains(u) {
        let k = choose|k: int| 0 <= k < d.len() && d[k] == u;
        assert(known_type(d[k]));
    }
    assert forall|i: int| 0 <= i < d.len() implies valid_type(#[trigger] d[i]) && valid_type(
        "list("@ + d[i] + ")"@,
    ) by {
        lemma_documented_not_lists(i);
        let l = "list("@ + d[i] + ")"@;
        assert(l.take(5) =~= "list("@);
        assert(l.last() == ')');
        assert(l.subrange(5, l.len() - 1) =~= d[i]);
        assert(list_elem(l) == Some(d[i]));
        assert(innermost(l) == innermost(d[i]));
    }
}

/// Whether `ty` is a recognised type string.
pub fn is_valid_type(ty: &str) -> (r: bool)
    ensures
        r == valid_type(ty@),
{
    is_known_type(innermost_type(ty))
}

// --- S28 ----------------------------------------------------------------------------------

/// What S28 reports for a column.
pub open spec fn s28_findings(col: Column) -> Seq<Found> {
    match col.col_type {
        None => seq![],
        Some(t) => if valid_type(t.value@) {
            seq![]
        } else {
            let inner = innermost(t.value@);
            seq![found(
                "S28"@,
                "A column's `type` must be a known type."@,
                if inner == t.value@ {
                    "`"@ + inner + "` is not a recognised type"@
                } else {
                    "`"@ + inner + "` is not a recognised list element type"@
                },
            )]
        },
    }
}

/// S28: a column's `type`, when it has one, must be a known type. `true`
/// when it is absent or known, so later checks can rely on it.
pub fn validate_s28_type(table: &Table, col: &Column, out: &mut ProblemSet) -> (r: bool)
    ensures
        final(out).source == old(out).source,
        reports(old(out).items@, final(out).items@, s28_findings(*col)),
        r == (s28_findings(*col).len() == 0),
{
    let col_type = match &col.col_type {
        None => {
            proof {
                lemma_reports_none(out.items@);
            }
            return true;
        },
        Some(t) => t,
    };
    if is_valid_type(col_type.value.as_str()) {
        proof {
            lemma_reports_none(out.items@);
        }
        return true;
    }
    let inner = innermost_type(col_type.value.as_str());
    let mut message = String::from_str("`");
    message.append(inner);
    if str_eq(inner, col_type.value.as_str()) {
        message.append("` is not a recognised type");
    } else {
        message.append("` is not a recognised list element type");
    }
    report(
        out,
        "S28",
        String::from_str("A column's `type` must be a known type."),
        message,
        at(table, col, &col_type.span),
    );
    false
}

// --- S08, S14 ---------------------------------------------------------------------------

/// How a finding names the column's type: `type `t`` or `no type`.
pub open spec fn type_desc(col: Column) -> Seq<char> {
    match col.col_type {
        None => "no type"@,
        Some(t) => "type `"@ + t.value@ + "`"@,
    }
}

fn type_desc_of(col: &Column) -> (r: String)
    ensures
        r@ == type_desc(*col),
{
    match &col.col_type {
        None => String::from_str("no type"),
        Some(t) => {
            let mut out = String::from_str("type `");
            out.append(t.value.as_str());
            out.append("`");
            out
        },
    }
}

/// Whether the column's type, list wrappers removed, is `want`.
pub open spec fn innermost_is(col: Column, want: Seq<char>) -> bool {
    col.col_type matches Some(t) && innermost(t.value@) == want
}

fn innermost_is_of(col: &Column, want: &str) -> (r: bool)
    ensures
        r == innermost_is(*col, want@),
{
    match &col.col_type {
        None => false,
        Some(t) => str_eq(innermost_type(t.value.as_str()), want),
    }
}

/// What S08 reports for a column.
pub open spec fn s08_findings(col: Column) -> Seq<Found> {
    if col.units is Some && !innermost_is(col, "number(quantity)"@) {
        seq![found(
            "S08"@,
            "A column with `units` must have type `number(quantity)`."@,
            "has `units` but has "@ + type_desc(col),
        )]
    } else {
        seq![]
    }
}

/// S08: `units` only on a `number(quantity)` column (or a list of them).
pub fn validate_s08_units(table: &Table, col: &Column, out: &mut ProblemSet)
    ensures
        final(out).source == old(out).source,
        reports(old(out).items@, final(out).items@, s08_findings(*col)),
{
    let units = match &col.units {
        None => {
            proof {
                lemma_reports_none(out.items@);
            }
            return;
        },
        Some(u) => u,
    };
    if innermost_is_of(col, "number(quantity)") {
        proof {
            lemma_reports_none(out.items@);
        }
        return;
    }
    let mut actual = String::from_str("has `units` but has ");
    let d = type_desc_of(col);
    actual.append(d.as_str());
    report(
        out,
        "S08",
        String::from_str("A column with `units` must have type `number(quantity)`."),
        actual,
        at(table, col, &units.span),
    );
}

/// The table, the column, its type when it has one, then `span`.
fn at_typed(table: &Table, col: &Column, span: &SourceInfo) -> (r: Vec<SourceInfo>)
    ensures
        r@.len() >= 3,
{
    let mut v: Vec<SourceInfo> = Vec::new();
    v.push(table.name.span.clone());
    v.push(col.name.span.clone());
    if let Some(t) = &col.col_type {
        v.push(t.span.clone());
    }
    v.push(span.clone());
    v
}

/// What S14 reports for a column.
pub open spec fn s14_findings(col: Column) -> Seq<Found> {
    if col.time_zone is Some && !innermost_is(col, "datetime"@) {
        seq![found(
            "S14"@,
            "A column with `time_zone` must have type `datetime`."@,
            "has `time_zone` but has "@ + type_desc(col),
        )]
    } else {
        seq![]
    }
}

/// S14: `time_zone` only on a `datetime` column (or a list of them).
pub fn validate_s14_time_zone(table: &Table, col: &Column, out: &mut ProblemSet)
    ensures
        final(out).source == old(out).source,
        reports(old(out).items@, final(out).items@, s14_findings(*col)),
{
    let time_zone = match &col.time_zone {
        None => {
            proof {
                lemma_reports_none(out.items@);
            }
            return;
        },
        Some(z) => z,
    };
    if innermost_is_of(col, "datetime") {
        proof {
            lemma_reports_none(out.items@);
        }
        return;
    }
    let mut actual = String::from_str("has `time_zone` but has ");
    let d = type_desc_of(col);
    actual.append(d.as_str());
    report(
        out,
        "S14",
        String::from_str("A column with `time_zone` must have type `datetime`."),
        actual,
        at_typed(table, col, &time_zone.span),
    );
}

// --- S15 ------------------------------------------------------------------------------------

/// The IANA areas the `Area/Location` form accepts: the continents and oceans
/// plus `Etc`.
pub open spec fn tz_area(a: Seq<char>) -> bool {
    ||| a == "Africa"@ ||| a == "America"@ ||| a == "Antarctica"@ ||| a == "Arctic"@ ||| a == "Asia"@
    ||| a == "Atlantic"@ ||| a == "Australia"@ ||| a == "Europe"@ ||| a == "Indian"@ ||| a == "Pacific"@
    ||| a == "Etc"@
}

pub open spec fn tz_char(c: char) -> bool {
    ('a' <= c && c <= 'z') || ('A' <= c && c <= 'Z') || ('0' <= c && c <= '9') || c == '_' || c == '+'
        || c == '-' || c == '/'
}

/// Whether `tz` has the accepted shape: `naive`, `UTC`, or `Area/Location`
/// with a known area and a location of letters, digits, `_`, `+`, `-`, `/`.
pub open spec fn tz_well_formed(tz: Seq<char>) -> bool {
    ||| tz == "naive"@
    ||| tz == "UTC"@
    ||| exists|k: int| {
        &&& 0 <= k < tz.len()
        &&& tz[k] == '/'
        &&& forall|j: int| 0 <= j < k ==> tz[j] != '/'
        &&& tz_area(tz.take(k))
        &&& k + 1 < tz.len()
        &&& forall|j: int| k + 1 <= j < tz.len() ==> tz_char(#[trigger] tz[j])
    }
}

fn is_tz_area(a: &str) -> (r: bool)
    ensures
        r == tz_area(a@),
{
    str_eq(a, "Africa") || str_eq(a, "America") || str_eq(a, "Antarctica") || str_eq(a, "Arctic") || str_eq(
        a,
        "Asia",
    ) || str_eq(a, "Atlantic") || str_eq(a, "Australia") || str_eq(a, "Europe") || str_eq(a, "Indian")
        || str_eq(a, "Pacific") || str_eq(a, "Etc")
}

/// Whether `tz` has the accepted `time_zone` shape.
pub fn time_zone_well_formed(tz: &str) -> (r: bool)
    ensures
        r == tz_well_formed(tz@),
{
    if str_eq(tz, "naive") || str_eq(tz, "UTC") {
        return true;
    }
    let cs = chars_of(tz);
    let n = cs.len();
    let mut k: usize = 0;
    while k < n && cs[k] != '/'
        invariant
            k <= n,
            n == cs@.len(),
            forall|j: int| 0 <= j < k ==> cs@[j] != '/',
        decreases n - k,
    {
        k = k + 1;
    }
    if k == n {
        proof {
            assert forall|m: int| !(0 <= m < tz@.len() && tz@[m] == '/') by {
                if 0 <= m < tz@.len() && tz@[m] == '/' {
                    assert(cs@[m] != '/');
                }
            }
        }
        return false;
    }
    let area = crate::text::string_of(&cs, 0, k);
    let area_ok = is_tz_area(area.as_str());
    assert(area@ =~= cs@.take(k as int));
    let mut ok = area_ok && k + 1 < n;
    let mut j: usize = k + 1;
    while j < n
        invariant
            k < n,
            n == cs@.len(),
            cs@ == tz@,
            cs@[k as int] == '/',
            forall|i: int| 0 <= i < k ==> cs@[i] != '/',
            area_ok == tz_area(cs@.take(k as int)),
            ok ==> area_ok && k + 1 < n,
            k + 1 <= j <= n || j == k + 1,
            ok ==> forall|m: int| k + 1 <= m < j ==> tz_char(#[trigger] cs@[m]),
            !ok ==> !(area_ok && k + 1 < n && forall|m: int| k + 1 <= m < n ==> tz_char(#[trigger] cs@[m])),
        decreases n - j,
    {
        let c = cs[j];
        let good = ('a' <= c && c <= 'z') || ('A' <= c && c <= 'Z') || ('0' <= c && c <= '9') || c == '_' || c == '+'
            || c == '-' || c == '/';
        if !good {
            assert(!tz_char(cs@[j as int]));
            ok = false;
        }
        j = j + 1;
    }
    proof {
        assert(area@ =~= cs@.take(k as int));
        assert(cs@ == tz@);
        if ok {
            assert(tz_well_formed(tz@)) by {
                let w = k as int;
                assert(0 <= w < tz@.len() && tz@[w] == '/' && (forall|i: int| 0 <= i < w ==> tz@[i] != '/')
                    && tz_area(tz@.take(w)) && w + 1 < tz@.len() && forall|i: int| w + 1 <= i < tz@.len() ==> tz_char(#[trigger] tz@[i]));
            }
        } else {
            assert forall|w: int| !({
                &&& 0 <= w < tz@.len()
                &&& tz@[w] == '/'
                &&& forall|i: int| 0 <= i < w ==> tz@[i] != '/'
                &&& tz_area(tz@.take(w))
                &&& w + 1 < tz@.len()
                &&& forall|i: int| w + 1 <= i < tz@.len() ==> tz_char(#[trigger] tz@[i])
            }) by {
                if 0 <= w < tz@.len() && tz@[w] == '/' && (forall|i: int| 0 <= i < w ==> tz@[i] != '/') {
                    if w < k {
                        assert(cs@[w] != '/');
                    } else if w > k {
                        assert(tz@[k as int] == '/');
                    }
                }
            }
        }
    }
    ok
}

/// What S15 reports for a column.
pub open spec fn s15_findings(col: Column) -> Seq<Found> {
    match col.time_zone {
        Some(z) => if tz_well_formed(z.value@) {
            seq![]
        } else {
            seq![found(
                "S15"@,
                "A `time_zone` must be `naive`, `UTC`, or an IANA `Area/Location` name."@,
                "is not a valid time zone"@,
            )]
        },
        None => seq![],
    }
}

/// S15: a `time_zone` is `naive`, `UTC`, or an `Area/Location` name.
pub fn validate_s15_time_zone_format(table: &Table, col: &Column, out: &mut ProblemSet)
    ensures
        final(out).source == old(out).source,
        reports(old(out).items@, final(out).items@, s15_findings(*col)),
{
    let time_zone = match &col.time_zone {
        None => {
            proof {
                lemma_reports_none(out.items@);
            }
            return;
        },
        Some(z) => z,
    };
    if time_zone_well_formed(time_zone.value.as_str()) {
        proof {
            lemma_reports_none(out.items@);
        }
        return;
    }
    report(
        out,
        "S15",
        String::from_str("A `time_zone` must be `naive`, `UTC`, or an IANA `Area/Location` name."),
        String::from_str("is not a valid time zone"),
        at_typed(table, col, &time_zone.span),
    );
}

// --- S07 ------------------------------------------------------------------------------------

pub open spec fn is_vowel(c: char) -> bool {
    c == 'a' || c == 'e' || c == 'i' || c == 'o' || c == 'u' || c == 'A' || c == 'E' || c == 'I' || c == 'O'
        || c == 'U'
}

/// "An" before a type name that starts with a vowel, "A" otherwise.
pub open spec fn article_text(t: Seq<char>) -> Seq<char> {
    if t.len() > 0 && is_vowel(t[0]) {
        "An"@
    } else {
        "A"@
    }
}

/// The types whose representation key is `range`.
pub open spec fn range_type(t: Seq<char>) -> bool {
    t == "number(ordinal)"@ || t == "number(quantity)"@ || t == "date"@ || t == "datetime"@
}

/// Whether a type may carry a `range` at all: the types that require one,
/// and the two numeric types that may pair one with their `examples`.
pub open spec fn allows_range(t: Seq<char>) -> bool {
    range_type(t) || t == "number"@ || t == "number(id)"@
}

pub open spec fn rule(art: Seq<char>, t: Seq<char>, tail: Seq<char>) -> Seq<char> {
    art + " `"@ + t + "` column "@ + tail
}

pub open spec fn uses(t: Seq<char>, key: Seq<char>) -> Seq<char> {
    "has type `"@ + t + "` but uses `"@ + key + "`"@
}

pub open spec fn lacks(t: Seq<char>, key: Seq<char>) -> Seq<char> {
    "has type `"@ + t + "` but is missing `"@ + key + "`"@
}

pub open spec fn opt_found(cond: bool, f: Found) -> Seq<Found> {
    if cond {
        seq![f]
    } else {
        seq![]
    }
}

pub open spec fn s07(expected: Seq<char>, actual: Seq<char>) -> Found {
    found("S07"@, expected, actual)
}

/// What S07 reports for a column of type `t` (list wrappers removed: `eff`).
pub open spec fn s07_main(col: Column, t: Seq<char>, eff: Seq<char>) -> Seq<Found> {
    let a = article_text(t);
    if eff == "struct"@ {
        opt_found(col.fields is None, s07(rule(a, t, "must document its fields with `fields`."@), lacks(t, "fields"@)))
            + opt_found(col.values is Some, s07(rule(a, t, "must not use `values`."@), uses(t, "values"@)))
            + opt_found(col.range is Some, s07(rule(a, t, "must not use `range`."@), uses(t, "range"@)))
            + opt_found(col.examples is Some, s07(rule(a, t, "must not use `examples`."@), uses(t, "examples"@)))
    } else if eff == "enum"@ {
        opt_found(col.values is None, s07(rule(a, t, "must list its categories with `values`."@), lacks(t, "values"@)))
            + opt_found(col.range is Some, s07(rule(a, t, "must use `values`, not `range`."@), uses(t, "range"@)))
            + opt_found(col.examples is Some, s07(rule(a, t, "must use `values`, not `examples`."@), uses(t, "examples"@)))
    } else if range_type(eff) {
        opt_found(col.range is None, s07(rule(a, t, "must describe its bounds with `range`."@), lacks(t, "range"@)))
            + opt_found(col.values is Some, s07(rule(a, t, "must use `range`, not `values`."@), uses(t, "values"@)))
    } else if eff == "boolean"@ {
        let e = "A `boolean` column must not have `values`, `range`, or `examples`."@;
        opt_found(col.values is Some, s07(e, uses(t, "values"@))) + opt_found(col.range is Some, s07(e, uses(t, "range"@)))
            + opt_found(col.examples is Some, s07(e, uses(t, "examples"@)))
    } else {
        opt_found(col.examples is None, s07(rule(a, t, "must describe its data with `examples`."@), lacks(t, "examples"@)))
            + opt_found(col.values is Some, s07(rule(a, t, "must not use `values`."@), uses(t, "values"@)))
            + opt_found(col.range is Some && !allows_range(eff), s07(rule(a, t, "must not use `range`."@), uses(t, "range"@)))
    }
}

/// Whether the column lists at least one field.
pub open spec fn has_fields(col: Column) -> bool {
    col.fields matches Some(f) && f@.len() > 0
}

/// What S07 reports for a column: the representation its type requires and
/// none its type disallows, and `fields` only on a struct.
pub open spec fn s07_findings(col: Column) -> Seq<Found> {
    match col.col_type {
        None => seq![],
        Some(tt) => {
            let t = tt.value@;
            let eff = innermost(t);
            s07_main(col, t, eff) + opt_found(
                eff != "struct"@ && has_fields(col),
                s07(rule(article_text(t), t, "must not use `fields`."@), uses(t, "fields"@)),
            )
        },
    }
}

fn article_of(t: &str) -> (r: &'static str)
    ensures
        r@ == article_text(t@),
{
    let cs = chars_of(t);
    if cs.len() > 0 {
        let c = cs[0];
        if c == 'a' || c == 'e' || c == 'i' || c == 'o' || c == 'u' || c == 'A' || c == 'E' || c == 'I' || c
            == 'O' || c == 'U' {
            return "An";
        }
    }
    "A"
}

fn is_range_type(t: &str) -> (r: bool)
    ensures
        r == range_type(t@),
{
    str_eq(t, "number(ordinal)") || str_eq(t, "number(quantity)") || str_eq(t, "date") || str_eq(t, "datetime")
}

fn rule_string(art: &str, t: &str, tail: &str) -> (r: String)
    ensures
        r@ == rule(art@, t@, tail@),
{
    let mut out = String::from_str(art);
    out.append(" `");
    out.append(t);
    out.append("` column ");
    out.append(tail);
    out
}

fn uses_string(t: &str, key: &str) -> (r: String)
    ensures
        r@ == uses(t@, key@),
{
    let mut out = String::from_str("has type `");
    out.append(t);
    out.append("` but uses `");
    out.append(key);
    out.append("`");
    out
}

fn lacks_string(t: &str, key: &str) -> (r: String)
    ensures
        r@ == lacks(t@, key@),
{
    let mut out = String::from_str("has type `");
    out.append(t);
    out.append("` but is missing `");
    out.append(key);
    out.append("`");
    out
}

/// Report the S07 finding `expected`/`actual` when `span` is there, and
/// nothing when it is not.
fn s07_if(out: &mut ProblemSet, table: &Table, col: &Column, span: Option<&SourceInfo>, expected: String, actual: String)
    ensures
        final(out).source == old(out).source,
        reports(old(out).items@, final(out).items@, opt_found(span is Some, s07(expected@, actual@))),
{
    match span {
        Some(sp) => report(out, "S07", expected, actual, at(table, col, sp)),
        None => {
            proof {
                lemma_reports_none(out.items@);
            }
        },
    }
}

/// S07: the column carries the representation its type requires and none its
/// type disallows. `true` when nothing was reported, so checking the values
/// of those representations makes sense.
#[verifier::rlimit(60)]
pub fn validate_s07_representation(table: &Table, col: &Column, out: &mut ProblemSet) -> (r: bool)
    ensures
        final(out).source == old(out).source,
        reports(old(out).items@, final(out).items@, s07_findings(*col)),
        r == (s07_findings(*col).len() == 0),
{
    let col_type = match &col.col_type {
        None => {
            proof {
                lemma_reports_none(out.items@);
            }
            return true;
        },
        Some(t) => t,
    };
    let t = col_type.value.as_str();
    let eff = innermost_type(t);
    let art = article_of(t);
    let before = out.items.len();
    let ghost base = out.items@;
    let ghost tv = t@;
    let ghost ev = eff@;
    proof {
        lemma_reports_none(out.items@);
    }
    let ghost mut acc: Seq<Found> = seq![];
    let values_span = match &col.values {
        Some(v) => Some(&v.span),
        None => None,
    };
    let range_span = match &col.range {
        Some(v) => Some(&v.span),
        None => None,
    };
    let examples_span = match &col.examples {
        Some(v) => Some(&v.span),
        None => None,
    };
    let type_span = Some(&col_type.span);
    if str_eq(eff, "struct") {
        let ghost m0 = out.items@;
        s07_if(out, table, col, if col.fields.is_none() { type_span } else { None },
            rule_string(art, t, "must document its fields with `fields`."), lacks_string(t, "fields"));
        proof { let st = opt_found(col.fields is None, s07(rule(art@, tv, "must document its fields with `fields`."@), lacks(tv, "fields"@))); lemma_reports_chain(base, m0, out.items@, acc, st); acc = acc + st; }
        let ghost m1 = out.items@;
        s07_if(out, table, col, values_span, rule_string(art, t, "must not use `values`."), uses_string(t, "values"));
        proof { let st = opt_found(col.values is Some, s07(rule(art@, tv, "must not use `values`."@), uses(tv, "values"@))); lemma_reports_chain(base, m1, out.items@, acc, st); acc = acc + st; }
        let ghost m2 = out.items@;
        s07_if(out, table, col, range_span, rule_string(art, t, "must not use `range`."), uses_string(t, "range"));
        proof { let st = opt_found(col.range is Some, s07(rule(art@, tv, "must not use `range`."@), uses(tv, "range"@))); lemma_reports_chain(base, m2, out.items@, acc, st); acc = acc + st; }
        let ghost m3 = out.items@;
        s07_if(out, table, col, examples_span, rule_string(art, t, "must not use `examples`."), uses_string(t, "examples"));
        proof { let st = opt_found(col.examples is Some, s07(rule(art@, tv, "must not use `examples`."@), uses(tv, "examples"@))); lemma_reports_chain(base, m3, out.items@, acc, st); acc = acc + st; }
    } else if str_eq(eff, "enum") {
        let ghost m0 = out.items@;
        s07_if(out, table, col, if col.values.is_none() { type_span } else { None },
            rule_string(art, t, "must list its categories with `values`."), lacks_string(t, "values"));
        proof { let st = opt_found(col.values is None, s07(rule(art@, tv, "must list its categories with `values`."@), lacks(tv, "values"@))); lemma_reports_chain(base, m0, out.items@, acc, st); acc = acc + st; }
        let ghost m1 = out.items@;
        s07_if(out, table, col, range_span, rule_string(art, t, "must use `values`, not `range`."), uses_string(t, "range"));
        proof { let st = opt_found(col.range is Some, s07(rule(art@, tv, "must use `values`, not `range`."@), uses(tv, "range"@))); lemma_reports_chain(base, m1, out.items@, acc, st); acc = acc + st; }
        let ghost m2 = out.items@;
        s07_if(out, table, col, examples_span, rule_string(art, t, "must use `values`, not `examples`."), uses_string(t, "examples"));
        proof { let st = opt_found(col.examples is Some, s07(rule(art@, tv, "must use `values`, not `examples`."@), uses(tv, "examples"@))); lemma_reports_chain(base, m2, out.items@, acc, st); acc = acc + st; }
    } else if is_range_type(eff) {
        let ghost m0 = out.items@;
        s07_if(out, table, col, if col.range.is_none() { type_span } else { None },
            rule_string(art, t, "must describe its bounds with `range`."), lacks_string(t, "range"));
        proof { let st = opt_found(col.range is None, s07(rule(art@, tv, "must describe its bounds with `range`."@), lacks(tv, "range"@))); lemma_reports_chain(base, m0, out.items@, acc, st); acc = acc + st; }
        let ghost m1 = out.items@;
        s07_if(out, table, col, values_span, rule_string(art, t, "must use `range`, not `values`."), uses_string(t, "values"));
        proof { let st = opt_found(col.values is Some, s07(rule(art@, tv, "must use `range`, not `values`."@), uses(tv, "values"@))); lemma_reports_chain(base, m1, out.items@, acc, st); acc = acc + st; }
    } else if str_eq(eff, "boolean") {
        let ghost e = "A `boolean` column must not have `values`, `range`, or `examples`."@;
        let ghost m0 = out.items@;
        s07_if(out, table, col, values_span, String::from_str("A `boolean` column must not have `values`, `range`, or `examples`."), uses_string(t, "values"));
        proof { let st = opt_found(col.values is Some, s07(e, uses(tv, "values"@))); lemma_reports_chain(base, m0, out.items@, acc, st); acc = acc + st; }
        let ghost m1 = out.items@;
        s07_if(out, table, col, range_span, String::from_str("A `boolean` column must not have `values`, `range`, or `examples`."), uses_string(t, "range"));
        proof { let st = opt_found(col.range is Some, s07(e, uses(tv, "range"@))); lemma_reports_chain(base, m1, out.items@, acc, st); acc = acc + st; }
        let ghost m2 = out.items@;
        s07_if(out, table, col, examples_span, String::from_str("A `boolean` column must not have `values`, `range`, or `examples`."), uses_string(t, "examples"));
        proof { let st = opt_found(col.examples is Some, s07(e, uses(tv, "examples"@))); lemma_reports_chain(base, m2, out.items@, acc, st); acc = acc + st; }
    } else {
        let ghost m0 = out.items@;
        s07_if(out, table, col, if col.examples.is_none() { type_span } else { None },
            rule_string(art, t, "must describe its data with `examples`."), lacks_string(t, "examples"));
        proof { let st = opt_found(col.examples is None, s07(rule(art@, tv, "must describe its data with `examples`."@), lacks(tv, "examples"@))); lemma_reports_chain(base, m0, out.items@, acc, st); acc = acc + st; }
        let ghost m1 = out.items@;
        s07_if(out, table, col, values_span, rule_string(art, t, "must not use `values`."), uses_string(t, "values"));
        proof { let st = opt_found(col.values is Some, s07(rule(art@, tv, "must not use `values`."@), uses(tv, "values"@))); lemma_reports_chain(base, m1, out.items@, acc, st); acc = acc + st; }
        let allowed = is_range_type(eff) || str_eq(eff, "number") || str_eq(eff, "number(id)");
        let ghost m2 = out.items@;
        s07_if(out, table, col, if allowed { None } else { range_span }, rule_string(art, t, "must not use `range`."), uses_string(t, "range"));
        proof { let st = opt_found(col.range is Some && !allows_range(ev), s07(rule(art@, tv, "must not use `range`."@), uses(tv, "range"@))); lemma_reports_chain(base, m2, out.items@, acc, st); acc = acc + st; }
    }
    proof {
        assert(acc =~= s07_main(*col, tv, ev));
    }
    let fields_span = if str_eq(eff, "struct") {
        None
    } else {
        match &col.fields {
            Some(f) => if f.len() > 0 {
                Some(&f[0].name.span)
            } else {
                None
            },
            None => None,
        }
    };
    let ghost mf = out.items@;
    s07_if(out, table, col, fields_span, rule_string(art, t, "must not use `fields`."), uses_string(t, "fields"));
    proof {
        let st = opt_found(ev != "struct"@ && has_fields(*col), s07(rule(art@, tv, "must not use `fields`."@), uses(tv, "fields"@)));
        lemma_reports_chain(base, mf, out.items@, acc, st);
        acc = acc + st;
        assert(acc =~= s07_findings(*col));
    }
    out.items.len() == before
}

// --- S29 -------------------------------------------------------------------------------------

/// The word a key constraint is written with; `required` is no key.
pub open spec fn key_word(c: Constraint) -> Option<Seq<char>> {
    match c {
        Constraint::PrimaryKey => Some("primary_key"@),
        Constraint::ForeignKey => Some("foreign_key"@),
        Constraint::Unique => Some("unique"@),
        Constraint::Required => None,
    }
}

/// The column's type string, or the empty string when it has none.
pub open spec fn type_or_empty(col: Column) -> Seq<char> {
    match col.col_type {
        Some(t) => t.value@,
        None => seq![],
    }
}

/// One S29 finding per key constraint among `cs`, in order.
pub open spec fn s29_over(cs: Seq<Spanned<Constraint>>, t: Seq<char>) -> Seq<Found>
    decreases cs.len(),
{
    if cs.len() == 0 {
        seq![]
    } else {
        s29_over(cs.drop_last(), t) + match key_word(cs.last().value) {
            Some(w) => seq![found("S29"@, "`"@ + w + "` is not valid on `"@ + t + "` columns."@, "has `"@ + w + "`"@)],
            None => seq![],
        }
    }
}

/// What S29 reports: each key constraint on a `list` or `struct` column.
pub open spec fn s29_findings(col: Column) -> Seq<Found> {
    let t = type_or_empty(col);
    if list_elem(t) is None && t != "struct"@ {
        seq![]
    } else {
        s29_over(col.constraints@, t)
    }
}

fn key_word_of(c: Constraint) -> (r: Option<&'static str>)
    ensures
        match r {
            Some(w) => key_word(c) == Some(w@),
            None => key_word(c) is None,
        },
{
    match c {
        Constraint::PrimaryKey => Some("primary_key"),
        Constraint::ForeignKey => Some("foreign_key"),
        Constraint::Unique => Some("unique"),
        Constraint::Required => None,
    }
}

/// S29: `primary_key`, `foreign_key` and `unique` are not valid on a `list`
/// or `struct` column.
pub fn validate_s29_key_constraints(table: &Table, col: &Column, out: &mut ProblemSet)
    ensures
        final(out).source == old(out).source,
        reports(old(out).items@, final(out).items@, s29_findings(*col)),
{
    let t: &str = match &col.col_type {
        Some(ct) => ct.value.as_str(),
        None => "",
    };
    proof {
        reveal_strlit("");
    }
    if list_element(t).is_none() && !str_eq(t, "struct") {
        proof {
            lemma_reports_none(out.items@);
        }
        return;
    }
    let ghost base = out.items@;
    proof {
        lemma_reports_none(out.items@);
        assert(col.constraints@.take(0) =~= Seq::<Spanned<Constraint>>::empty());
    }
    let cs = &col.constraints;
    let mut i: usize = 0;
    while i < cs.len()
        invariant
            i <= cs@.len(),
            cs == &col.constraints,
            t@ == type_or_empty(*col),
            out.source == old(out).source,
            base == old(out).items@,
            reports(base, out.items@, s29_over(cs@.take(i as int), t@)),
        decreases cs@.len() - i,
    {
        let ghost mid = out.items@;
        proof {
            let tk = cs@.take(i + 1);
            assert(tk.drop_last() =~= cs@.take(i as int));
            assert(tk.last() == cs@[i as int]);
        }
        match key_word_of(cs[i].value) {
            Some(w) => {
                let mut expected = String::from_str("`");
                expected.append(w);
                expected.append("` is not valid on `");
                expected.append(t);
                expected.append("` columns.");
                let mut actual = String::from_str("has `");
                actual.append(w);
                actual.append("`");
                report(out, "S29", expected, actual, at(table, col, &cs[i].span));
                proof {
                    lemma_reports_chain(base, mid, out.items@, s29_over(cs@.take(i as int), t@), seq![
                        found("S29"@, "`"@ + w@ + "` is not valid on `"@ + t@ + "` columns."@, "has `"@ + w@ + "`"@)
                    ]);
                }
            },
            None => {
                assert(s29_over(cs@.take(i + 1), t@) =~= s29_over(cs@.take(i as int), t@));
            },
        }
        i = i + 1;
    }
    assert(cs@.take(i as int) =~= cs@);
}

// --- Relationships ------------------------------------------------------------------------

/// `SourceInfo::substring`: the part `start..end` of `parent`. Nothing is
/// claimed of the span it gives, since no proof here looks into a span.
#[verifier::external_body]
fn substring(parent: &SourceInfo, start: usize, end: usize) -> (r: SourceInfo) {
    SourceInfo::substring(parent.clone(), start, end)
}

/// The sub-span `start..end` of `parent`, or `parent` itself when it does not
/// resolve to a single stretch of a file.
fn subspan_or_whole(parent: &SourceInfo, start: usize, end: usize) -> (r: Vec<SourceInfo>)
    ensures
        r@.len() == 1,
{
    let mut v: Vec<SourceInfo> = Vec::new();
    if crate::problem::byte_range(parent).is_some() {
        v.push(substring(parent, start, end));
    } else {
        v.push(parent.clone());
    }
    v
}

/// The sub-span `start..end` of `parent`, or `parent` itself when it does not
/// resolve to a single stretch of a file.
pub(crate) fn sub_or_whole(parent: &SourceInfo, start: usize, end: usize) -> (r: SourceInfo) {
    if crate::problem::byte_range(parent).is_some() {
        substring(parent, start, end)
    } else {
        parent.clone()
    }
}

/// The findings of a rule that looks at one relationship at a time, over
/// every relationship in order.
pub open spec fn over_rels(rels: Seq<Relationship>, f: spec_fn(Relationship) -> Seq<Found>) -> Seq<Found>
    decreases rels.len(),
{
    if rels.len() == 0 {
        seq![]
    } else {
        over_rels(rels.drop_last(), f) + f(rels.last())
    }
}

pub proof fn lemma_over_rels_step(rels: Seq<Relationship>, f: spec_fn(Relationship) -> Seq<Found>, i: int)
    requires
        0 <= i < rels.len(),
    ensures
        over_rels(rels.take(i + 1), f) == over_rels(rels.take(i), f) + f(rels[i]),
{
    let t = rels.take(i + 1);
    assert(t.drop_last() =~= rels.take(i));
    assert(t.last() == rels[i]);
}

/// Whether the dictionary has a table called `name`.
pub open spec fn is_table(dict: DataDict, name: Seq<char>) -> bool {
    first_match(dict.table_names(), name) is Some
}

/// The distinct tables a parsed `join` names.
pub open spec fn join_tables(rel: Relationship) -> Seq<Seq<char>> {
    match rel.join {
        Some(j) => dedup(table_names(j@)),
        None => seq![],
    }
}

// S04

pub open spec fn s04_rel(rel: Relationship) -> Seq<Found> {
    if rel.join is Some && join_tables(rel).len() > 2 {
        seq![found(
            "S04"@,
            "A `join` must reference exactly two tables."@,
            "this `join` references "@ + decimal(join_tables(rel).len()) + " tables"@,
        )]
    } else {
        seq![]
    }
}

/// S04: a `join` that parsed references at most two tables.
pub fn validate_s04_join_table_count(dict: &DataDict, out: &mut ProblemSet)
    ensures
        final(out).source == old(out).source,
        reports(old(out).items@, final(out).items@, over_rels(dict.relationships@, |rel: Relationship| s04_rel(rel))),
{
    let ghost f = |rel: Relationship| s04_rel(rel);
    let ghost base = out.items@;
    let rels = &dict.relationships;
    proof {
        lemma_reports_none(out.items@);
        assert(rels@.take(0) =~= Seq::<Relationship>::empty());
    }
    let mut i: usize = 0;
    while i < rels.len()
        invariant
            i <= rels@.len(),
            rels == &dict.relationships,
            f == (|rel: Relationship| s04_rel(rel)),
            out.source == old(out).source,
            base == old(out).items@,
            reports(base, out.items@, over_rels(rels@.take(i as int), f)),
        decreases rels@.len() - i,
    {
        let ghost mid = out.items@;
        proof {
            lemma_over_rels_step(rels@, f, i as int);
        }
        let rel = &rels[i];
        match &rel.join {
            Some(join) => {
                let names = join.tables();
                assert(names@.map_values(|x: &str| x@).len() == names@.len());
                if names.len() > 2 {
                    let mut actual = String::from_str("this `join` references ");
                    let n = decimal_string(names.len());
                    actual.append(n.as_str());
                    actual.append(" tables");
                    let mut spans: Vec<SourceInfo> = Vec::new();
                    spans.push(rel.join_text.span.clone());
                    report(out, "S04", String::from_str("A `join` must reference exactly two tables."), actual, spans);
                    proof {
                        lemma_reports_chain(base, mid, out.items@, over_rels(rels@.take(i as int), f), f(rels@[i as int]));
                    }
                } else {
                    proof {
                        assert(f(rels@[i as int]) =~= Seq::<Found>::empty());
                        assert(over_rels(rels@.take(i as int), f) + f(rels@[i as int]) =~= over_rels(rels@.take(i as int), f));
                    }
                }
            },
            None => {
                proof {
                    assert(f(rels@[i as int]) =~= Seq::<Found>::empty());
                    assert(over_rels(rels@.take(i as int), f) + f(rels@[i as int]) =~= over_rels(rels@.take(i as int), f));
                }
            },
        }
        i = i + 1;
    }
    assert(rels@.take(i as int) =~= rels@);
}

// S26

pub open spec fn s26_aliases(dict: DataDict, aliases: Seq<Alias>) -> Seq<Found>
    decreases aliases.len(),
{
    if aliases.len() == 0 {
        seq![]
    } else {
        let a = aliases.last();
        s26_aliases(dict, aliases.drop_last()) + if is_table(dict, a.name.value@) {
            seq![found(
                "S26"@,
                "An alias must not have the same name as a table."@,
                "`"@ + a.name.value@ + "` is already a table in this dictionary"@,
            )]
        } else {
            seq![]
        }
    }
}

/// S26 for one relationship.
fn s26_rel(dict: &DataDict, rel: &Relationship, out: &mut ProblemSet)
    ensures
        final(out).source == old(out).source,
        reports(old(out).items@, final(out).items@, s26_aliases(*dict, rel.aliases@)),
{
    let ghost base = out.items@;
    let aliases = &rel.aliases;
    proof {
        lemma_reports_none(out.items@);
        assert(aliases@.take(0) =~= Seq::<Alias>::empty());
    }
    let mut i: usize = 0;
    while i < aliases.len()
        invariant
            i <= aliases@.len(),
            aliases == &rel.aliases,
            out.source == old(out).source,
            base == old(out).items@,
            reports(base, out.items@, s26_aliases(*dict, aliases@.take(i as int))),
        decreases aliases@.len() - i,
    {
        let ghost mid = out.items@;
        let a = &aliases[i];
        proof {
            let t = aliases@.take(i + 1);
            assert(t.drop_last() =~= aliases@.take(i as int));
            assert(t.last() == aliases@[i as int]);
        }
        if dict.table(a.name.value.as_str()).is_some() {
            let mut actual = String::from_str("`");
            actual.append(a.name.value.as_str());
            actual.append("` is already a table in this dictionary");
            let mut spans: Vec<SourceInfo> = Vec::new();
            spans.push(rel.join_text.span.clone());
            spans.push(a.name.span.clone());
            report(out, "S26", String::from_str("An alias must not have the same name as a table."), actual, spans);
            proof {
                lemma_reports_chain(base, mid, out.items@, s26_aliases(*dict, aliases@.take(i as int)), seq![found(
                    "S26"@,
                    "An alias must not have the same name as a table."@,
                    "`"@ + a.name.value@ + "` is already a table in this dictionary"@,
                )]);
            }
        } else {
            assert(s26_aliases(*dict, aliases@.take(i + 1)) =~= s26_aliases(*dict, aliases@.take(i as int)));
        }
        i = i + 1;
    }
    assert(aliases@.take(i as int) =~= aliases@);
}

/// S26: an alias does not share its name with a table.
pub fn validate_s26_alias_shadows_table(dict: &DataDict, out: &mut ProblemSet)
    ensures
        final(out).source == old(out).source,
        reports(old(out).items@, final(out).items@, over_rels(dict.relationships@, |rel: Relationship| s26_aliases(*dict, rel.aliases@))),
{
    let ghost f = |rel: Relationship| s26_aliases(*dict, rel.aliases@);
    let ghost base = out.items@;
    let rels = &dict.relationships;
    proof {
        lemma_reports_none(out.items@);
        assert(rels@.take(0) =~= Seq::<Relationship>::empty());
    }
    let mut i: usize = 0;
    while i < rels.len()
        invariant
            i <= rels@.len(),
            rels == &dict.relationships,
            f == (|rel: Relationship| s26_aliases(*dict, rel.aliases@)),
            out.source == old(out).source,
            base == old(out).items@,
            reports(base, out.items@, over_rels(rels@.take(i as int), f)),
        decreases rels@.len() - i,
    {
        let ghost mid = out.items@;
        proof {
            lemma_over_rels_step(rels@, f, i as int);
        }
        s26_rel(dict, &rels[i], out);
        proof {
            lemma_reports_chain(base, mid, out.items@, over_rels(rels@.take(i as int), f), f(rels@[i as int]));
        }
        i = i + 1;
    }
    assert(rels@.take(i as int) =~= rels@);
}

// S27

pub open spec fn s27_aliases(names: Seq<Seq<char>>, aliases: Seq<Alias>) -> Seq<Found>
    decreases aliases.len(),
{
    if aliases.len() == 0 {
        seq![]
    } else {
        let a = aliases.last();
        s27_aliases(names, aliases.drop_last()) + if !names.contains(a.name.value@) {
            seq![warned(
                "S27"@,
                "Every alias should be used by its relationship's `join`."@,
                "alias `"@ + a.name.value@ + "` is never used"@,
            )]
        } else {
            seq![]
        }
    }
}

pub open spec fn s27_rel(rel: Relationship) -> Seq<Found> {
    if rel.join is Some {
        s27_aliases(join_tables(rel), rel.aliases@)
    } else {
        seq![]
    }
}

/// Whether `name` is among `names`.
fn contains_name(names: &Vec<&str>, name: &str) -> (r: bool)
    ensures
        r == names@.map_values(|x: &str| x@).contains(name@),
{
    let ghost v = names@.map_values(|x: &str| x@);
    let mut i: usize = 0;
    while i < names.len()
        invariant
            i <= names@.len(),
            v == names@.map_values(|x: &str| x@),
            forall|k: int| 0 <= k < i ==> v[k] != name@,
        decreases names@.len() - i,
    {
        if str_eq(names[i], name) {
            assert(v[i as int] == name@);
            return true;
        }
        i = i + 1;
    }
    false
}

fn s27_one(rel: &Relationship, out: &mut ProblemSet)
    ensures
        final(out).source == old(out).source,
        reports(old(out).items@, final(out).items@, s27_rel(*rel)),
{
    let join = match &rel.join {
        Some(j) => j,
        None => {
            proof {
                lemma_reports_none(out.items@);
            }
            return;
        },
    };
    let names = join.tables();
    let ghost nv = names@.map_values(|x: &str| x@);
    let ghost base = out.items@;
    let aliases = &rel.aliases;
    proof {
        lemma_reports_none(out.items@);
        assert(aliases@.take(0) =~= Seq::<Alias>::empty());
    }
    let mut i: usize = 0;
    while i < aliases.len()
        invariant
            i <= aliases@.len(),
            aliases == &rel.aliases,
            nv == names@.map_values(|x: &str| x@),
            nv == join_tables(*rel),
            out.source == old(out).source,
            base == old(out).items@,
            reports(base, out.items@, s27_aliases(nv, aliases@.take(i as int))),
        decreases aliases@.len() - i,
    {
        let ghost mid = out.items@;
        let a = &aliases[i];
        proof {
            let t = aliases@.take(i + 1);
            assert(t.drop_last() =~= aliases@.take(i as int));
            assert(t.last() == aliases@[i as int]);
        }
        if !contains_name(&names, a.name.value.as_str()) {
            let mut actual = String::from_str("alias `");
            actual.append(a.name.value.as_str());
            actual.append("` is never used");
            let mut spans: Vec<SourceInfo> = Vec::new();
            spans.push(rel.join_text.span.clone());
            spans.push(a.name.span.clone());
            report_warning(out, "S27", String::from_str("Every alias should be used by its relationship's `join`."), actual, spans);
            proof {
                lemma_reports_chain(base, mid, out.items@, s27_aliases(nv, aliases@.take(i as int)), seq![warned(
                    "S27"@,
                    "Every alias should be used by its relationship's `join`."@,
                    "alias `"@ + a.name.value@ + "` is never used"@,
                )]);
            }
        } else {
            assert(s27_aliases(nv, aliases@.take(i + 1)) =~= s27_aliases(nv, aliases@.take(i as int)));
        }
        i = i + 1;
    }
    assert(aliases@.take(i as int) =~= aliases@);
}

/// S27 (a warning): every alias is used by its relationship's `join`.
pub fn validate_s27_unused_alias(dict: &DataDict, out: &mut ProblemSet)
    ensures
        final(out).source == old(out).source,
        reports(old(out).items@, final(out).items@, over_rels(dict.relationships@, |rel: Relationship| s27_rel(rel))),
{
    let ghost f = |rel: Relationship| s27_rel(rel);
    let ghost base = out.items@;
    let rels = &dict.relationships;
    proof {
        lemma_reports_none(out.items@);
        assert(rels@.take(0) =~= Seq::<Relationship>::empty());
    }
    let mut i: usize = 0;
    while i < rels.len()
        invariant
            i <= rels@.len(),
            rels == &dict.relationships,
            f == (|rel: Relationship| s27_rel(rel)),
            out.source == old(out).source,
            base == old(out).items@,
            reports(base, out.items@, over_rels(rels@.take(i as int), f)),
        decreases rels@.len() - i,
    {
        let ghost mid = out.items@;
        proof {
            lemma_over_rels_step(rels@, f, i as int);
        }
        s27_one(&rels[i], out);
        proof {
            lemma_reports_chain(base, mid, out.items@, over_rels(rels@.take(i as int), f), f(rels@[i as int]));
        }
        i = i + 1;
    }
    assert(rels@.take(i as int) =~= rels@);
}

// S02, S03

pub open spec fn s02_aliases(dict: DataDict, aliases: Seq<Alias>) -> Seq<Found>
    decreases aliases.len(),
{
    if aliases.len() == 0 {
        seq![]
    } else {
        let a = aliases.last();
        s02_aliases(dict, aliases.drop_last()) + if !is_table(dict, a.table.value@) {
            seq![found("S02"@, "An alias must name a known table."@, "table `"@ + a.table.value@ + "` is not defined"@)]
        } else {
            seq![]
        }
    }
}

pub open spec fn s02_qcols(dict: DataDict, rel: Relationship, qs: Seq<QColSpec>) -> Seq<Found>
    decreases qs.len(),
{
    if qs.len() == 0 {
        seq![]
    } else {
        let q = qs.last();
        s02_qcols(dict, rel, qs.drop_last()) + if first_match(rel.alias_names(), q.table) is None && !is_table(
            dict,
            q.table,
        ) {
            seq![found(
                "S02"@,
                "A `join` must refer to known tables or aliases."@,
                "`"@ + q.table + "` is neither a table nor an alias"@,
            )]
        } else {
            seq![]
        }
    }
}

pub open spec fn rel_qcols(rel: Relationship) -> Seq<QColSpec> {
    match rel.join {
        Some(j) => qcol_seq(j@),
        None => seq![],
    }
}

/// What S02 reports for one relationship: aliases of unknown tables, then
/// names in the `join` that are neither a table nor an alias.
pub open spec fn s02_rel(dict: DataDict, rel: Relationship) -> Seq<Found> {
    s02_aliases(dict, rel.aliases@) + s02_qcols(dict, rel, rel_qcols(rel))
}

pub open spec fn s03_qcols(dict: DataDict, rel: Relationship, qs: Seq<QColSpec>) -> Seq<Found>
    decreases qs.len(),
{
    if qs.len() == 0 {
        seq![]
    } else {
        let q = qs.last();
        let tn = rel.spec_resolve(q.table);
        s03_qcols(dict, rel, qs.drop_last()) + match first_match(dict.table_names(), tn) {
            Some(k) => if first_match(dict.tables@[k].column_names(), q.column) is None {
                seq![found(
                    "S03"@,
                    "A `join` must refer to known columns."@,
                    "table `"@ + tn + "` has no column `"@ + q.column + "`"@,
                )]
            } else {
                seq![]
            },
            None => seq![],
        }
    }
}

/// The qualified columns of a relationship's `join`, in order.
fn qcols_of(rel: &Relationship) -> (r: Vec<&QCol>)
    ensures
        r@.map_values(|q: &QCol| q@) == rel_qcols(*rel),
{
    match &rel.join {
        Some(j) => j.qcols(),
        None => {
            let v: Vec<&QCol> = Vec::new();
            assert(v@.map_values(|q: &QCol| q@) =~= Seq::<QColSpec>::empty());
            v
        },
    }
}

fn s02_one(dict: &DataDict, rel: &Relationship, out: &mut ProblemSet)
    ensures
        final(out).source == old(out).source,
        reports(old(out).items@, final(out).items@, s02_rel(*dict, *rel)),
{
    let ghost base = out.items@;
    let aliases = &rel.aliases;
    proof {
        lemma_reports_none(out.items@);
        assert(aliases@.take(0) =~= Seq::<Alias>::empty());
    }
    let mut i: usize = 0;
    while i < aliases.len()
        invariant
            i <= aliases@.len(),
            aliases == &rel.aliases,
            out.source == old(out).source,
            base == old(out).items@,
            reports(base, out.items@, s02_aliases(*dict, aliases@.take(i as int))),
        decreases aliases@.len() - i,
    {
        let ghost mid = out.items@;
        let a = &aliases[i];
        proof {
            let t = aliases@.take(i + 1);
            assert(t.drop_last() =~= aliases@.take(i as int));
            assert(t.last() == aliases@[i as int]);
        }
        if dict.table(a.table.value.as_str()).is_none() {
            let mut actual = String::from_str("table `");
            actual.append(a.table.value.as_str());
            actual.append("` is not defined");
            let mut spans: Vec<SourceInfo> = Vec::new();
            spans.push(rel.join_text.span.clone());
            spans.push(a.name.span.clone());
            spans.push(a.table.span.clone());
            report(out, "S02", String::from_str("An alias must name a known table."), actual, spans);
            proof {
                lemma_reports_chain(base, mid, out.items@, s02_aliases(*dict, aliases@.take(i as int)), seq![found(
                    "S02"@,
                    "An alias must name a known table."@,
                    "table `"@ + a.table.value@ + "` is not defined"@,
                )]);
            }
        } else {
            assert(s02_aliases(*dict, aliases@.take(i + 1)) =~= s02_aliases(*dict, aliases@.take(i as int)));
        }
        i = i + 1;
    }
    assert(aliases@.take(i as int) =~= aliases@);
    let ghost mid0 = out.items@;
    let qs = qcols_of(rel);
    let ghost qv = qs@.map_values(|q: &QCol| q@);
    proof {
        lemma_reports_none(out.items@);
        assert(qv.take(0) =~= Seq::<QColSpec>::empty());
    }
    let mut j: usize = 0;
    while j < qs.len()
        invariant
            j <= qs@.len(),
            qv == qs@.map_values(|q: &QCol| q@),
            qv == rel_qcols(*rel),
            out.source == old(out).source,
            reports(mid0, out.items@, s02_qcols(*dict, *rel, qv.take(j as int))),
        decreases qs@.len() - j,
    {
        let ghost mid = out.items@;
        let q = qs[j];
        proof {
            let t = qv.take(j + 1);
            assert(t.drop_last() =~= qv.take(j as int));
            assert(t.last() == q@);
        }
        if rel.alias(q.table.as_str()).is_none() && dict.table(q.table.as_str()).is_none() {
            let mut actual = String::from_str("`");
            actual.append(q.table.as_str());
            actual.append("` is neither a table nor an alias");
            let spans = subspan_or_whole(&rel.join_text.span, q.start, q.end);
            report(out, "S02", String::from_str("A `join` must refer to known tables or aliases."), actual, spans);
            proof {
                lemma_reports_chain(mid0, mid, out.items@, s02_qcols(*dict, *rel, qv.take(j as int)), seq![found(
                    "S02"@,
                    "A `join` must refer to known tables or aliases."@,
                    "`"@ + q.table@ + "` is neither a table nor an alias"@,
                )]);
            }
        } else {
            assert(s02_qcols(*dict, *rel, qv.take(j + 1)) =~= s02_qcols(*dict, *rel, qv.take(j as int)));
        }
        j = j + 1;
    }
    assert(qv.take(j as int) =~= qv);
    proof {
        lemma_reports_chain(base, mid0, out.items@, s02_aliases(*dict, rel.aliases@), s02_qcols(*dict, *rel, qv));
    }
}

/// S02: aliases name known tables, and a `join` names only tables and
/// aliases.
pub fn validate_s02_relationship_table_refs(dict: &DataDict, out: &mut ProblemSet)
    ensures
        final(out).source == old(out).source,
        reports(old(out).items@, final(out).items@, over_rels(dict.relationships@, |rel: Relationship| s02_rel(*dict, rel))),
{
    let ghost f = |rel: Relationship| s02_rel(*dict, rel);
    let ghost base = out.items@;
    let rels = &dict.relationships;
    proof {
        lemma_reports_none(out.items@);
        assert(rels@.take(0) =~= Seq::<Relationship>::empty());
    }
    let mut i: usize = 0;
    while i < rels.len()
        invariant
            i <= rels@.len(),
            rels == &dict.relationships,
            f == (|rel: Relationship| s02_rel(*dict, rel)),
            out.source == old(out).source,
            base == old(out).items@,
            reports(base, out.items@, over_rels(rels@.take(i as int), f)),
        decreases rels@.len() - i,
    {
        let ghost mid = out.items@;
        proof {
            lemma_over_rels_step(rels@, f, i as int);
        }
        s02_one(dict, &rels[i], out);
        proof {
            lemma_reports_chain(base, mid, out.items@, over_rels(rels@.take(i as int), f), f(rels@[i as int]));
        }
        i = i + 1;
    }
    assert(rels@.take(i as int) =~= rels@);
}

fn s03_one(dict: &DataDict, rel: &Relationship, out: &mut ProblemSet)
    ensures
        final(out).source == old(out).source,
        reports(old(out).items@, final(out).items@, s03_qcols(*dict, *rel, rel_qcols(*rel))),
{
    let ghost base = out.items@;
    let qs = qcols_of(rel);
    let ghost qv = qs@.map_values(|q: &QCol| q@);
    proof {
        lemma_reports_none(out.items@);
        assert(qv.take(0) =~= Seq::<QColSpec>::empty());
    }
    let mut j: usize = 0;
    while j < qs.len()
        invariant
            j <= qs@.len(),
            qv == qs@.map_values(|q: &QCol| q@),
            qv == rel_qcols(*rel),
            out.source == old(out).source,
            base == old(out).items@,
            reports(base, out.items@, s03_qcols(*dict, *rel, qv.take(j as int))),
        decreases qs@.len() - j,
    {
        let ghost mid = out.items@;
        let q = qs[j];
        proof {
            let t = qv.take(j + 1);
            assert(t.drop_last() =~= qv.take(j as int));
            assert(t.last() == q@);
        }
        let tn = rel.resolve(q.table.as_str());
        match dict.table(tn) {
            Some(table) => {
                if table.column(q.column.as_str()).is_none() {
                    let mut actual = String::from_str("table `");
                    actual.append(tn);
                    actual.append("` has no column `");
                    actual.append(q.column.as_str());
                    actual.append("`");
                    let spans = subspan_or_whole(&rel.join_text.span, q.start, q.end);
                    report(out, "S03", String::from_str("A `join` must refer to known columns."), actual, spans);
                    proof {
                        lemma_reports_chain(base, mid, out.items@, s03_qcols(*dict, *rel, qv.take(j as int)), seq![found(
                            "S03"@,
                            "A `join` must refer to known columns."@,
                            "table `"@ + tn@ + "` has no column `"@ + q.column@ + "`"@,
                        )]);
                    }
                } else {
                    assert(s03_qcols(*dict, *rel, qv.take(j + 1)) =~= s03_qcols(*dict, *rel, qv.take(j as int)));
                }
            },
            None => {
                assert(s03_qcols(*dict, *rel, qv.take(j + 1)) =~= s03_qcols(*dict, *rel, qv.take(j as int)));
            },
        }
        j = j + 1;
    }
    assert(qv.take(j as int) =~= qv);
}

/// S03: every qualified column in a `join` names a column of its table (a
/// table that does not exist is S02's to report).
pub fn validate_s03_relationship_column_refs(dict: &DataDict, out: &mut ProblemSet)
    ensures
        final(out).source == old(out).source,
        reports(
            old(out).items@,
            final(out).items@,
            over_rels(dict.relationships@, |rel: Relationship| s03_qcols(*dict, rel, rel_qcols(rel))),
        ),
{
    let ghost f = |rel: Relationship| s03_qcols(*dict, rel, rel_qcols(rel));
    let ghost base = out.items@;
    let rels = &dict.relationships;
    proof {
        lemma_reports_none(out.items@);
        assert(rels@.take(0) =~= Seq::<Relationship>::empty());
    }
    let mut i: usize = 0;
    while i < rels.len()
        invariant
            i <= rels@.len(),
            rels == &dict.relationships,
            f == (|rel: Relationship| s03_qcols(*dict, rel, rel_qcols(rel))),
            out.source == old(out).source,
            base == old(out).items@,
            reports(base, out.items@, over_rels(rels@.take(i as int), f)),
        decreases rels@.len() - i,
    {
        let ghost mid = out.items@;
        proof {
            lemma_over_rels_step(rels@, f, i as int);
        }
        s03_one(dict, &rels[i], out);
        proof {
            lemma_reports_chain(base, mid, out.items@, over_rels(rels@.take(i as int), f), f(rels@[i as int]));
        }
        i = i + 1;
    }
    assert(rels@.take(i as int) =~= rels@);
}

// S06

/// The table a name in a relationship's `join` stands for, when the
/// dictionary has it.
pub open spec fn side_table(dict: DataDict, rel: Relationship, name: Seq<char>) -> Option<Table> {
    match first_match(dict.table_names(), rel.spec_resolve(name)) {
        Some(k) => Some(dict.tables@[k]),
        None => None,
    }
}

/// Whether a qualified column names a column of a table the dictionary has.
pub open spec fn resolves_col(dict: DataDict, rel: Relationship, q: QColSpec) -> bool {
    match side_table(dict, rel, q.table) {
        Some(t) => first_match(t.column_names(), q.column) is Some,
        None => false,
    }
}

/// The columns a side's qualified columns name, conjunct by conjunct.
pub open spec fn side_cols(cs: Seq<ConjSpec>, side: Seq<char>, use_lhs: bool) -> Seq<Seq<char>>
    decreases cs.len(),
{
    if cs.len() == 0 {
        seq![]
    } else {
        let q = if use_lhs { cs.last().lhs } else { cs.last().rhs };
        side_cols(cs.drop_last(), side, use_lhs) + if q.table == side {
            seq![q.column]
        } else {
            seq![]
        }
    }
}

/// The names of a table's `primary_key` columns, in order.
pub open spec fn pk_names(cols: Seq<Column>) -> Seq<Seq<char>>
    decreases cols.len(),
{
    if cols.len() == 0 {
        seq![]
    } else {
        pk_names(cols.drop_last()) + if cols.last().spec_has(Constraint::PrimaryKey) {
            seq![cols.last().name.value@]
        } else {
            seq![]
        }
    }
}

/// Whether the column called `name`, if the table has it, is `unique`.
pub open spec fn unique_col(t: Table, name: Seq<char>) -> bool {
    match first_match(t.column_names(), name) {
        Some(m) => t.columns@[m].spec_has(Constraint::Unique),
        None => false,
    }
}

/// Whether a side's join columns pin down at most one row: one of them is
/// `unique`, or together they cover the table's whole primary key.
pub open spec fn side_unique(dict: DataDict, rel: Relationship, side: Seq<char>, cs: Seq<ConjSpec>, use_lhs: bool) -> bool {
    match side_table(dict, rel, side) {
        None => false,
        Some(t) => {
            let cols = side_cols(cs, side, use_lhs);
            let pk = pk_names(t.columns@);
            (exists|i: int| 0 <= i < cols.len() && unique_col(t, #[trigger] cols[i]))
                || (pk.len() > 0 && forall|i: int| 0 <= i < pk.len() ==> cols.contains(#[trigger] pk[i]))
        },
    }
}

pub open spec fn quoted(t: Seq<char>) -> Seq<char> {
    "`"@ + t + "`"@
}

/// What S06 reports for one relationship.
pub open spec fn s06_rel(dict: DataDict, rel: Relationship) -> Seq<Found> {
    match rel.join {
        None => seq![],
        Some(j) => {
            let cs = j@;
            if !(forall|i: int| 0 <= i < qcol_seq(cs).len() ==> resolves_col(dict, rel, #[trigger] qcol_seq(cs)[i]))
                || cs.len() == 0 {
                seq![]
            } else {
                let l = cs[0].lhs.table;
                let r = cs[0].rhs.table;
                let lu = side_unique(dict, rel, l, cs, true);
                let ru = side_unique(dict, rel, r, cs, false);
                match rel.cardinality.value {
                    Cardinality::OneToOne => if !lu || !ru {
                        let bad = if !lu && !ru {
                            quoted(l) + " and "@ + quoted(r)
                        } else if !lu {
                            quoted(l)
                        } else {
                            quoted(r)
                        };
                        seq![found(
                            "S06"@,
                            "A `one-to-one` join must have join columns that uniquely identify a row on both sides: a `unique` column or the full primary key."@,
                            "the join columns on "@ + bad + " do not uniquely identify a row"@,
                        )]
                    } else {
                        seq![]
                    },
                    Cardinality::OneToMany => if !lu {
                        seq![found(
                            "S06"@,
                            "A `one-to-many` join must have join columns that uniquely identify a row on its left (\"one\") side: a `unique` column or the full primary key."@,
                            "the left-side join columns on `"@ + l + "` do not uniquely identify a row"@,
                        )]
                    } else {
                        seq![]
                    },
                    Cardinality::ManyToOne => if !ru {
                        seq![found(
                            "S06"@,
                            "A `many-to-one` join must have join columns that uniquely identify a row on its right (\"one\") side: a `unique` column or the full primary key."@,
                            "the right-side join columns on `"@ + r + "` do not uniquely identify a row"@,
                        )]
                    } else {
                        seq![]
                    },
                }
            }
        },
    }
}

/// Whether every qualified column of the `join` names a column of a table
/// the dictionary has.
fn all_cols_resolve(dict: &DataDict, rel: &Relationship, join: &JoinExpr) -> (r: bool)
    ensures
        r == forall|i: int| 0 <= i < qcol_seq(join@).len() ==> resolves_col(*dict, *rel, #[trigger] qcol_seq(join@)[i]),
{
    let qs = join.qcols();
    let ghost qv = qs@.map_values(|q: &QCol| q@);
    let mut j: usize = 0;
    while j < qs.len()
        invariant
            j <= qs@.len(),
            qv == qs@.map_values(|q: &QCol| q@),
            qv == qcol_seq(join@),
            forall|i: int| 0 <= i < j ==> resolves_col(*dict, *rel, #[trigger] qv[i]),
        decreases qs@.len() - j,
    {
        let q = qs[j];
        assert(qv[j as int] == q@);
        let ok = match dict.table(rel.resolve(q.table.as_str())) {
            Some(t) => t.column(q.column.as_str()).is_some(),
            None => false,
        };
        if !ok {
            return false;
        }
        j = j + 1;
    }
    true
}

/// Whether a side's join columns pin down at most one row. `side` is the
/// name as the `join` writes it, so the two sides of a self-join stay apart.
fn side_has_unique_implied(dict: &DataDict, rel: &Relationship, side: &str, join: &JoinExpr, use_lhs: bool) -> (r: bool)
    ensures
        r == side_unique(*dict, *rel, side@, join@, use_lhs),
{
    let table = match dict.table(rel.resolve(side)) {
        Some(t) => t,
        None => {
            return false;
        },
    };
    assert(side_table(*dict, *rel, side@) == Some(*table));
    let cs = &join.conjuncts;
    let ghost cv = join@;
    let mut cols: Vec<&str> = Vec::new();
    let mut i: usize = 0;
    while i < cs.len()
        invariant
            i <= cs@.len(),
            cs == &join.conjuncts,
            cv == join@,
            cols@.map_values(|x: &str| x@) == side_cols(cv.take(i as int), side@, use_lhs),
        decreases cs@.len() - i,
    {
        proof {
            let t = cv.take(i + 1);
            assert(t.drop_last() =~= cv.take(i as int));
            assert(t.last() == cs@[i as int]@);
        }
        let q = if use_lhs {
            &cs[i].lhs
        } else {
            &cs[i].rhs
        };
        let ghost before = cols@;
        if str_eq(q.table.as_str(), side) {
            cols.push(q.column.as_str());
            assert(cols@.map_values(|x: &str| x@) =~= before.map_values(|x: &str| x@).push(q.column@));
        }
        i = i + 1;
    }
    assert(cv.take(i as int) =~= cv);
    let ghost colv = cols@.map_values(|x: &str| x@);
    assert(colv == side_cols(join@, side@, use_lhs));
    let mut k: usize = 0;
    while k < cols.len()
        invariant
            k <= cols@.len(),
            colv == cols@.map_values(|x: &str| x@),
            colv == side_cols(join@, side@, use_lhs),
            side_table(*dict, *rel, side@) == Some(*table),
            forall|m: int| 0 <= m < k ==> !unique_col(*table, #[trigger] colv[m]),
        decreases cols@.len() - k,
    {
        match table.column(cols[k]) {
            Some(c) => {
                if c.has(Constraint::Unique) {
                    assert(unique_col(*table, colv[k as int]));
                    assert(unique_col(*table, side_cols(join@, side@, use_lhs)[k as int]));
                    return true;
                }
            },
            None => {},
        }
        assert(!unique_col(*table, colv[k as int]));
        k = k + 1;
    }
    let columns = &table.columns;
    let mut pk: Vec<&str> = Vec::new();
    let mut m: usize = 0;
    while m < columns.len()
        invariant
            m <= columns@.len(),
            columns == &table.columns,
            pk@.map_values(|x: &str| x@) == pk_names(columns@.take(m as int)),
        decreases columns@.len() - m,
    {
        proof {
            let t = columns@.take(m + 1);
            assert(t.drop_last() =~= columns@.take(m as int));
            assert(t.last() == columns@[m as int]);
        }
        let ghost before = pk@;
        if columns[m].has(Constraint::PrimaryKey) {
            pk.push(columns[m].name.value.as_str());
            assert(pk@.map_values(|x: &str| x@) =~= before.map_values(|x: &str| x@).push(columns@[m as int].name.value@));
        }
        m = m + 1;
    }
    assert(columns@.take(m as int) =~= columns@);
    let ghost pkv = pk@.map_values(|x: &str| x@);
    if pk.len() == 0 {
        return false;
    }
    let mut p: usize = 0;
    while p < pk.len()
        invariant
            p <= pk@.len(),
            pkv == pk@.map_values(|x: &str| x@),
            colv == cols@.map_values(|x: &str| x@),
            colv == side_cols(join@, side@, use_lhs),
            pkv == pk_names(table.columns@),
            side_table(*dict, *rel, side@) == Some(*table),
            forall|m: int| 0 <= m < colv.len() ==> !unique_col(*table, #[trigger] colv[m]),
            forall|a: int| 0 <= a < p ==> colv.contains(#[trigger] pkv[a]),
        decreases pk@.len() - p,
    {
        let mut found_it = false;
        let mut q: usize = 0;
        while q < cols.len()
            invariant
                q <= cols@.len(),
                p < pk@.len(),
                pkv == pk@.map_values(|x: &str| x@),
                colv == cols@.map_values(|x: &str| x@),
                found_it ==> colv.contains(pkv[p as int]),
                !found_it ==> forall|b: int| 0 <= b < q ==> colv[b] != pkv[p as int],
            decreases cols@.len() - q,
        {
            if str_eq(cols[q], pk[p]) {
                assert(colv[q as int] == pkv[p as int]);
                found_it = true;
            }
            q = q + 1;
        }
        if !found_it {
            assert(!colv.contains(pkv[p as int]));
            assert(pkv == pk_names(table.columns@));
            assert(!side_cols(join@, side@, use_lhs).contains(pk_names(table.columns@)[p as int]));
            return false;
        }
        p = p + 1;
    }
    true
}

fn s06_one(dict: &DataDict, rel: &Relationship, out: &mut ProblemSet)
    ensures
        final(out).source == old(out).source,
        reports(old(out).items@, final(out).items@, s06_rel(*dict, *rel)),
{
    let join = match &rel.join {
        Some(j) => j,
        None => {
            proof {
                lemma_reports_none(out.items@);
            }
            return;
        },
    };
    if !all_cols_resolve(dict, rel, join) || join.conjuncts.len() == 0 {
        proof {
            lemma_reports_none(out.items@);
        }
        return;
    }
    let l = join.conjuncts[0].lhs.table.as_str();
    let r = join.conjuncts[0].rhs.table.as_str();
    let lu = side_has_unique_implied(dict, rel, l, join, true);
    let ru = side_has_unique_implied(dict, rel, r, join, false);
    let mut spans: Vec<SourceInfo> = Vec::new();
    spans.push(rel.join_text.span.clone());
    spans.push(rel.cardinality.span.clone());
    match rel.cardinality.value {
        Cardinality::OneToOne => {
            if !lu || !ru {
                let mut actual = String::from_str("the join columns on ");
                if !lu {
                    actual.append("`");
                    actual.append(l);
                    actual.append("`");
                }
                if !lu && !ru {
                    actual.append(" and ");
                }
                if !ru {
                    actual.append("`");
                    actual.append(r);
                    actual.append("`");
                }
                actual.append(" do not uniquely identify a row");
                proof {
                    let bad = if !lu && !ru {
                        quoted(l@) + " and "@ + quoted(r@)
                    } else if !lu {
                        quoted(l@)
                    } else {
                        quoted(r@)
                    };
                    assert(actual@ =~= "the join columns on "@ + bad + " do not uniquely identify a row"@);
                }
                report(
                    out,
                    "S06",
                    String::from_str(
                        "A `one-to-one` join must have join columns that uniquely identify a row on both sides: a `unique` column or the full primary key.",
                    ),
                    actual,
                    spans,
                );
            } else {
                proof {
                    lemma_reports_none(out.items@);
                }
            }
        },
        Cardinality::OneToMany => {
            if !lu {
                let mut actual = String::from_str("the left-side join columns on `");
                actual.append(l);
                actual.append("` do not uniquely identify a row");
                report(
                    out,
                    "S06",
                    String::from_str(
                        "A `one-to-many` join must have join columns that uniquely identify a row on its left (\"one\") side: a `unique` column or the full primary key.",
                    ),
                    actual,
                    spans,
                );
            } else {
                proof {
                    lemma_reports_none(out.items@);
                }
            }
        },
        Cardinality::ManyToOne => {
            if !ru {
                let mut actual = String::from_str("the right-side join columns on `");
                actual.append(r);
                actual.append("` do not uniquely identify a row");
                report(
                    out,
                    "S06",
                    String::from_str(
                        "A `many-to-one` join must have join columns that uniquely identify a row on its right (\"one\") side: a `unique` column or the full primary key.",
                    ),
                    actual,
                    spans,
                );
            } else {
                proof {
                    lemma_reports_none(out.items@);
                }
            }
        },
    }
}

/// S06: a relationship's cardinality agrees with the constraints on its join
/// columns: each "one" side's join columns pin down a single row.
pub fn validate_s06_cardinality_consistency(dict: &DataDict, out: &mut ProblemSet)
    ensures
        final(out).source == old(out).source,
        reports(old(out).items@, final(out).items@, over_rels(dict.relationships@, |rel: Relationship| s06_rel(*dict, rel))),
{
    let ghost f = |rel: Relationship| s06_rel(*dict, rel);
    let ghost base = out.items@;
    let rels = &dict.relationships;
    proof {
        lemma_reports_none(out.items@);
        assert(rels@.take(0) =~= Seq::<Relationship>::empty());
    }
    let mut i: usize = 0;
    while i < rels.len()
        invariant
            i <= rels@.len(),
            rels == &dict.relationships,
            f == (|rel: Relationship| s06_rel(*dict, rel)),
            out.source == old(out).source,
            base == old(out).items@,
            reports(base, out.items@, over_rels(rels@.take(i as int), f)),
        decreases rels@.len() - i,
    {
        let ghost mid = out.items@;
        proof {
            lemma_over_rels_step(rels@, f, i as int);
        }
        s06_one(dict, &rels[i], out);
        proof {
            lemma_reports_chain(base, mid, out.items@, over_rels(rels@.take(i as int), f), f(rels@[i as int]));
        }
        i = i + 1;
    }
    assert(rels@.take(i as int) =~= rels@);
}


// S25

/// Whether the relationship declares an alias called `name`.
pub open spec fn is_alias(rel: Relationship, name: Seq<char>) -> bool {
    first_match(rel.alias_names(), name) is Some
}

/// What S25 reports for one relationship: a `join` whose two sides are one
/// table without an alias apiece.
pub open spec fn s25_rel(rel: Relationship) -> Seq<Found> {
    let names = join_tables(rel);
    if rel.join is None {
        seq![]
    } else if names.len() == 1 {
        seq![found(
            "S25"@,
            "A self-join must give both sides their own aliases."@,
            "`"@ + names[0] + "` is on both sides of the join"@,
        )]
    } else if names.len() == 2 && rel.spec_resolve(names[0]) == rel.spec_resolve(names[1])
        && !(is_alias(rel, names[0]) && is_alias(rel, names[1])) {
        seq![found(
            "S25"@,
            "A self-join must give both sides their own aliases."@,
            "`"@ + names[0] + "` and `"@ + names[1] + "` both refer to table `"@ + rel.spec_resolve(names[0]) + "`"@,
        )]
    } else {
        seq![]
    }
}

fn s25_one(rel: &Relationship, out: &mut ProblemSet)
    ensures
        final(out).source == old(out).source,
        reports(old(out).items@, final(out).items@, s25_rel(*rel)),
{
    let join = match &rel.join {
        Some(j) => j,
        None => {
            proof {
                lemma_reports_none(out.items@);
            }
            return;
        },
    };
    let names = join.tables();
    let ghost nv = names@.map_values(|x: &str| x@);
    assert(nv.len() == names@.len());
    let mut spans: Vec<SourceInfo> = Vec::new();
    spans.push(rel.join_text.span.clone());
    let expected = String::from_str("A self-join must give both sides their own aliases.");
    if names.len() == 1 {
        let mut actual = String::from_str("`");
        actual.append(names[0]);
        actual.append("` is on both sides of the join");
        assert(nv[0] == names@[0]@);
        report(out, "S25", expected, actual, spans);
    } else if names.len() == 2 {
        let a = names[0];
        let b = names[1];
        assert(nv[0] == a@ && nv[1] == b@);
        let table = rel.resolve(a);
        let tb = rel.resolve(b);
        if !str_eq(table, tb) || (rel.alias(a).is_some() && rel.alias(b).is_some()) {
            proof {
                lemma_reports_none(out.items@);
            }
            return;
        }
        let mut actual = String::from_str("`");
        actual.append(a);
        actual.append("` and `");
        actual.append(b);
        actual.append("` both refer to table `");
        actual.append(table);
        actual.append("`");
        report(out, "S25", expected, actual, spans);
    } else {
        proof {
            lemma_reports_none(out.items@);
        }
    }
}

/// S25: a join of a table with itself names each side by its own alias.
pub fn validate_s25_unaliased_self_join(dict: &DataDict, out: &mut ProblemSet)
    ensures
        final(out).source == old(out).source,
        reports(old(out).items@, final(out).items@, over_rels(dict.relationships@, |rel: Relationship| s25_rel(rel))),
{
    let ghost f = |rel: Relationship| s25_rel(rel);
    let ghost base = out.items@;
    let rels = &dict.relationships;
    proof {
        lemma_reports_none(out.items@);
        assert(rels@.take(0) =~= Seq::<Relationship>::empty());
    }
    let mut i: usize = 0;
    while i < rels.len()
        invariant
            i <= rels@.len(),
            rels == &dict.relationships,
            f == (|rel: Relationship| s25_rel(rel)),
            out.source == old(out).source,
            base == old(out).items@,
            reports(base, out.items@, over_rels(rels@.take(i as int), f)),
        decreases rels@.len() - i,
    {
        let ghost mid = out.items@;
        proof {
            lemma_over_rels_step(rels@, f, i as int);
        }
        s25_one(&rels[i], out);
        proof {
            lemma_reports_chain(base, mid, out.items@, over_rels(rels@.take(i as int), f), f(rels@[i as int]));
        }
        i = i + 1;
    }
    assert(rels@.take(i as int) =~= rels@);
}


// S05

/// The distinct tables a relationship's `join` stands for, aliases resolved:
/// two aliases of one table are that one table.
pub open spec fn resolved_tables(rel: Relationship) -> Seq<Seq<char>> {
    dedup(join_tables(rel).map_values(|n: Seq<char>| rel.spec_resolve(n)))
}

/// Whether the dictionary has a table called `t` and it has no column `col`.
pub open spec fn lacks_column(dict: DataDict, t: Seq<char>, col: Seq<char>) -> bool {
    match first_match(dict.table_names(), t) {
        Some(k) => first_match(dict.tables@[k].column_names(), col) is None,
        None => false,
    }
}

/// The tables among `tables` that the dictionary has and that lack `col`.
pub open spec fn missing_from(dict: DataDict, tables: Seq<Seq<char>>, col: Seq<char>) -> Seq<Seq<char>>
    decreases tables.len(),
{
    if tables.len() == 0 {
        seq![]
    } else {
        missing_from(dict, tables.drop_last(), col) + if lacks_column(dict, tables.last(), col) {
            seq![tables.last()]
        } else {
            seq![]
        }
    }
}

/// The items, each in backticks, separated by `, `.
pub open spec fn comma_list(items: Seq<Seq<char>>) -> Seq<char>
    decreases items.len(),
{
    if items.len() == 0 {
        seq![]
    } else if items.len() == 1 {
        quoted(items[0])
    } else {
        comma_list(items.drop_last()) + ", "@ + quoted(items.last())
    }
}

/// The items, each in backticks, as an English list: `a`, `b` and `c`.
pub open spec fn and_list(items: Seq<Seq<char>>) -> Seq<char> {
    if items.len() <= 1 {
        comma_list(items)
    } else {
        comma_list(items.drop_last()) + " and "@ + quoted(items.last())
    }
}

/// `items`, each in backticks, joined as an English list.
pub fn join_with_commas(items: &[&str]) -> (r: String)
    ensures
        r@ == and_list(items@.map_values(|x: &str| x@)),
{
    let ghost v = items@.map_values(|x: &str| x@);
    let mut out = String::new();
    if items.len() == 0 {
        assert(out@ =~= and_list(v));
        return out;
    }
    let n = items.len() - 1;
    let mut i: usize = 0;
    while i < n
        invariant
            n == items@.len() - 1,
            i <= n,
            v == items@.map_values(|x: &str| x@),
            out@ == comma_list(v.take(i as int)),
        decreases n - i,
    {
        proof {
            let t = v.take(i + 1);
            assert(t.drop_last() =~= v.take(i as int));
            assert(t.last() == items@[i as int]@);
            if i == 0 {
                assert(t.len() == 1);
            }
        }
        if i > 0 {
            out.append(", ");
        }
        out.append("`");
        out.append(items[i]);
        out.append("`");
        proof {
            let t = v.take(i + 1);
            if i == 0 {
                assert(out@ =~= quoted(t[0]));
            } else {
                assert(out@ =~= comma_list(t.drop_last()) + ", "@ + quoted(t.last()));
            }
        }
        i = i + 1;
    }
    let ghost init = out@;
    if n > 0 {
        out.append(" and ");
    }
    out.append("`");
    out.append(items[n]);
    out.append("`");
    proof {
        assert(v.drop_last() =~= v.take(n as int));
        assert(v.last() == items@[n as int]@);
        if n == 0 {
            assert(init.len() == 0);
            assert(out@ =~= quoted(v[0]));
        } else {
            assert(out@ =~= comma_list(v.drop_last()) + " and "@ + quoted(v.last()));
        }
    }
    out
}

/// What S05 reports for the `conflicts` entries `cs`.
pub open spec fn s05_conflicts(dict: DataDict, tables: Seq<Seq<char>>, cs: Seq<Spanned<String>>) -> Seq<Found>
    decreases cs.len(),
{
    if cs.len() == 0 {
        seq![]
    } else {
        let c = cs.last().value@;
        let m = missing_from(dict, tables, c);
        s05_conflicts(dict, tables, cs.drop_last()) + if m.len() > 0 {
            seq![found(
                "S05"@,
                "A `conflicts` entry must name a column on both sides of the join."@,
                "`"@ + c + "` is not a column of "@ + and_list(m),
            )]
        } else {
            seq![]
        }
    }
}

/// What S05 reports for one relationship.
pub open spec fn s05_rel(dict: DataDict, rel: Relationship) -> Seq<Found> {
    if rel.join is Some {
        s05_conflicts(dict, resolved_tables(rel), rel.conflicts@)
    } else {
        seq![]
    }
}

/// The tables of `names` that the dictionary has and that lack `col`.
fn missing_tables<'a>(dict: &DataDict, tables: &Vec<&'a str>, col: &str) -> (r: Vec<&'a str>)
    ensures
        r@.map_values(|x: &str| x@) == missing_from(*dict, tables@.map_values(|x: &str| x@), col@),
{
    let ghost tv = tables@.map_values(|x: &str| x@);
    let mut out: Vec<&str> = Vec::new();
    let mut i: usize = 0;
    assert(tv.take(0) =~= Seq::<Seq<char>>::empty());
    while i < tables.len()
        invariant
            i <= tables@.len(),
            tv == tables@.map_values(|x: &str| x@),
            out@.map_values(|x: &str| x@) == missing_from(*dict, tv.take(i as int), col@),
        decreases tables@.len() - i,
    {
        proof {
            let t = tv.take(i + 1);
            assert(t.drop_last() =~= tv.take(i as int));
            assert(t.last() == tables@[i as int]@);
        }
        let ghost before = out@.map_values(|x: &str| x@);
        match dict.table(tables[i]) {
            Some(table) => {
                if table.column(col).is_none() {
                    out.push(tables[i]);
                    assert(out@.map_values(|x: &str| x@) =~= before.push(tables@[i as int]@));
                }
            },
            None => {},
        }
        i = i + 1;
    }
    assert(tv.take(i as int) =~= tv);
    out
}

fn s05_one(dict: &DataDict, rel: &Relationship, out: &mut ProblemSet)
    ensures
        final(out).source == old(out).source,
        reports(old(out).items@, final(out).items@, s05_rel(*dict, *rel)),
{
    let join = match &rel.join {
        Some(j) => j,
        None => {
            proof {
                lemma_reports_none(out.items@);
            }
            return;
        },
    };
    let names = join.tables();
    let ghost nv = names@.map_values(|x: &str| x@);
    let ghost rv = nv.map_values(|n: Seq<char>| rel.spec_resolve(n));
    let mut tables: Vec<&str> = Vec::new();
    let mut i: usize = 0;
    assert(rv.take(0) =~= Seq::<Seq<char>>::empty());
    while i < names.len()
        invariant
            i <= names@.len(),
            nv == names@.map_values(|x: &str| x@),
            rv == nv.map_values(|n: Seq<char>| rel.spec_resolve(n)),
            tables@.map_values(|x: &str| x@) == dedup(rv.take(i as int)),
        decreases names@.len() - i,
    {
        proof {
            let t = rv.take(i + 1);
            assert(t.drop_last() =~= rv.take(i as int));
            assert(t.last() == rel.spec_resolve(names@[i as int]@));
        }
        let resolved = rel.resolve(names[i]);
        push_unique(&mut tables, resolved);
        i = i + 1;
    }
    assert(rv.take(i as int) =~= rv);
    let ghost tv = tables@.map_values(|x: &str| x@);
    assert(tv == resolved_tables(*rel));
    let ghost base = out.items@;
    let cs = &rel.conflicts;
    proof {
        lemma_reports_none(out.items@);
        assert(cs@.take(0) =~= Seq::<Spanned<String>>::empty());
    }
    let mut k: usize = 0;
    while k < cs.len()
        invariant
            k <= cs@.len(),
            cs == &rel.conflicts,
            tv == tables@.map_values(|x: &str| x@),
            tv == resolved_tables(*rel),
            rel.join is Some,
            out.source == old(out).source,
            base == old(out).items@,
            reports(base, out.items@, s05_conflicts(*dict, tv, cs@.take(k as int))),
        decreases cs@.len() - k,
    {
        let ghost mid = out.items@;
        proof {
            let t = cs@.take(k + 1);
            assert(t.drop_last() =~= cs@.take(k as int));
            assert(t.last() == cs@[k as int]);
        }
        let c = &cs[k];
        let missing = missing_tables(dict, &tables, c.value.as_str());
        let ghost mv = missing@.map_values(|x: &str| x@);
        assert(mv.len() == missing@.len());
        if missing.len() > 0 {
            let mut actual = String::from_str("`");
            actual.append(c.value.as_str());
            actual.append("` is not a column of ");
            let list = join_with_commas(missing.as_slice());
            actual.append(list.as_str());
            let mut spans: Vec<SourceInfo> = Vec::new();
            spans.push(rel.join_text.span.clone());
            spans.push(c.span.clone());
            report(
                out,
                "S05",
                String::from_str("A `conflicts` entry must name a column on both sides of the join."),
                actual,
                spans,
            );
            proof {
                lemma_reports_chain(base, mid, out.items@, s05_conflicts(*dict, tv, cs@.take(k as int)), seq![found(
                    "S05"@,
                    "A `conflicts` entry must name a column on both sides of the join."@,
                    "`"@ + c.value@ + "` is not a column of "@ + and_list(mv),
                )]);
            }
        } else {
            assert(s05_conflicts(*dict, tv, cs@.take(k + 1)) =~= s05_conflicts(*dict, tv, cs@.take(k as int)));
        }
        k = k + 1;
    }
    assert(cs@.take(k as int) =~= cs@);
}

/// S05: every `conflicts` entry names a column of each table on the join.
pub fn validate_s05_conflicts_present_on_both_sides(dict: &DataDict, out: &mut ProblemSet)
    ensures
        final(out).source == old(out).source,
        reports(old(out).items@, final(out).items@, over_rels(dict.relationships@, |rel: Relationship| s05_rel(*dict, rel))),
{
    let ghost f = |rel: Relationship| s05_rel(*dict, rel);
    let ghost base = out.items@;
    let rels = &dict.relationships;
    proof {
        lemma_reports_none(out.items@);
        assert(rels@.take(0) =~= Seq::<Relationship>::empty());
    }
    let mut i: usize = 0;
    while i < rels.len()
        invariant
            i <= rels@.len(),
            rels == &dict.relationships,
            f == (|rel: Relationship| s05_rel(*dict, rel)),
            out.source == old(out).source,
            base == old(out).items@,
            reports(base, out.items@, over_rels(rels@.take(i as int), f)),
        decreases rels@.len() - i,
    {
        let ghost mid = out.items@;
        proof {
            lemma_over_rels_step(rels@, f, i as int);
        }
        s05_one(dict, &rels[i], out);
        proof {
            lemma_reports_chain(base, mid, out.items@, over_rels(rels@.take(i as int), f), f(rels@[i as int]));
        }
        i = i + 1;
    }
    assert(rels@.take(i as int) =~= rels@);
}


// S01

/// What S01 reports for a column: a `foreign_key` that no relationship points
/// at a `primary_key`.
pub open spec fn s01_findings(dict: DataDict, table: Table, col: Column) -> Seq<Found> {
    if col.spec_has(Constraint::ForeignKey) && foreign_key_target(dict, table, col) is None {
        seq![found(
            "S01"@,
            "Every `foreign_key` column must have a matching relationship to a `primary_key`."@,
            "is `foreign_key` but no relationship points it at a `primary_key`"@,
        )]
    } else {
        seq![]
    }
}

/// The span of a column's first `foreign_key` constraint, or of its name
/// when it has none.
fn fk_span(col: &Column) -> (r: SourceInfo) {
    let mut i: usize = 0;
    while i < col.constraints.len()
        invariant
            i <= col.constraints@.len(),
        decreases col.constraints@.len() - i,
    {
        if col.constraints[i].value == Constraint::ForeignKey {
            return col.constraints[i].span.clone();
        }
        i = i + 1;
    }
    col.name.span.clone()
}

/// S01: every `foreign_key` column is the foreign-key side of a relationship
/// whose other side is a `primary_key`.
pub fn validate_s01_foreign_key(dict: &DataDict, table: &Table, col: &Column, out: &mut ProblemSet)
    ensures
        final(out).source == old(out).source,
        reports(old(out).items@, final(out).items@, s01_findings(*dict, *table, *col)),
{
    if !col.has(Constraint::ForeignKey) || dict.resolve_foreign_key(table, col).is_some() {
        proof {
            lemma_reports_none(out.items@);
        }
        return;
    }
    let mut spans: Vec<SourceInfo> = Vec::new();
    spans.push(table.name.span.clone());
    spans.push(col.name.span.clone());
    spans.push(fk_span(col));
    report(
        out,
        "S01",
        String::from_str("Every `foreign_key` column must have a matching relationship to a `primary_key`."),
        String::from_str("is `foreign_key` but no relationship points it at a `primary_key`"),
        spans,
    );
}

} // verus!
