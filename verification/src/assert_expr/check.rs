//! The semantic checker for parsed assertions: column resolution, type
//! checking and the shape check, proved to find exactly what the rules of
//! [`super::rules`] say.

use vstd::prelude::*;

use super::grammar::{lower, lowered, upper, uppered, ExprV, KindV, NamedV, SelV};
use super::parse::{view_expr, view_kind, view_list, view_named, view_names, view_path, view_sel, view_whens};
use super::rules::{
    chrono_date, chrono_naive_datetime, chrono_rfc3339, civil_date_time, date_literal,
    datetime_literal, env_column, env_column_from, env_field,
    env_field_from, reads_as, regex_compile_error, regex_finds, regex_columns, listed_columns,
    matched_columns, first_line_or, regex_message, CkState, EnvV, FindingV, push_finding, report,
    unknown_message, report_unknown, dotted, missing_names, validate_selector, require_each,
    require_columns, is_temporal, date_literal_ok, types_comparable, compare_each, SigV, signature,
    ordered_types, arity_text, is_unit, size, sizes_from, pair_sizes_from, opt_size, lemma_size_pos,
    lemma_sizes_step, lemma_pair_sizes_step, infer, require, infer_arith, infer_column_path,
    path_walk, check_comparable, compare_columns, in_items, infer_call, call_args, infer_all,
    infer_case, case_conds, merge, case_branches, shape, shape2, shape_items, shape_whens, shape_args,
    key_le, insert_sorted, sorted_findings, dedup, extra_selections, check_findings, paths_named,
    all_named, whens_named,
};
use super::ir::{CivilDate, CivilDateTime, DatetimeConst};
use super::{
    nouns_text, spec_kind_to_ty, spec_max_shape, ty_noun, join_nouns, kind_to_ty, max_shape, ArithOp,
    AssertExpr, ColumnKind, ColumnsSelector, Expr, ExprKind, Finding, FindingSeverity, Named, Root,
    Shape, Ty,
};
use crate::text::{chars_of, decimal_string, str_eq, string_push};

use chrono::{Datelike, Timelike};

verus! {

// --- Outside calls ---------------------------------------------------------------

/// `regex::Regex::new(pattern)`: the text of its error when the pattern does
/// not compile. The library states nothing of which patterns compile.
#[verifier::external_body]
pub(crate) fn regex_error(pattern: &str) -> (r: Option<String>)
    ensures
        match r {
            Some(t) => regex_compile_error(pattern@) == Some(t@),
            None => regex_compile_error(pattern@) is None,
        },
{
    match regex::Regex::new(pattern) {
        Ok(_) => None,
        Err(e) => Some(e.to_string()),
    }
}

/// `regex::Regex::new(pattern)` then `is_match(hay)`: whether the compiled
/// pattern matches somewhere in `hay`.
#[verifier::external_body]
fn regex_is_match(pattern: &str, hay: &str) -> (r: bool)
    requires
        regex_compile_error(pattern@) is None,
    ensures
        r == regex_finds(pattern@, hay@),
{
    match regex::Regex::new(pattern) {
        Ok(re) => re.is_match(hay),
        Err(_) => false,
    }
}

/// `s.parse::<chrono::NaiveDate>()`: the year, month and day it reads.
#[verifier::external_body]
pub(crate) fn parse_date(s: &str) -> (r: Option<(i32, u32, u32)>)
    ensures
        r == chrono_date(s@),
{
    match s.parse::<chrono::NaiveDate>() {
        Ok(d) => Some((d.year(), d.month(), d.day())),
        Err(_) => None,
    }
}

/// `chrono::DateTime::parse_from_rfc3339(s)`: the local date and time it
/// reads, and its offset east of UTC in seconds.
#[verifier::external_body]
fn parse_rfc3339(s: &str) -> (r: Option<(i32, u32, u32, u32, u32, u32, u32, i32)>)
    ensures
        r == chrono_rfc3339(s@),
{
    match chrono::DateTime::parse_from_rfc3339(s) {
        Ok(t) => {
            let n = t.naive_local();
            let off = t.offset().local_minus_utc();
            Some((n.year(), n.month(), n.day(), n.hour(), n.minute(), n.second(), n.nanosecond(), off))
        },
        Err(_) => None,
    }
}

/// `s.parse::<chrono::NaiveDateTime>()`: the date and time it reads.
#[verifier::external_body]
fn parse_naive_datetime(s: &str) -> (r: Option<(i32, u32, u32, u32, u32, u32, u32)>)
    ensures
        r == chrono_naive_datetime(s@),
{
    match s.parse::<chrono::NaiveDateTime>() {
        Ok(n) => Some((n.year(), n.month(), n.day(), n.hour(), n.minute(), n.second(), n.nanosecond())),
        Err(_) => None,
    }
}

fn civil_date_time_of(p: (i32, u32, u32, u32, u32, u32, u32)) -> (r: CivilDateTime)
    ensures
        r == civil_date_time(p),
{
    CivilDateTime {
        date: CivilDate { year: p.0, month: p.1, day: p.2 },
        hour: p.3,
        minute: p.4,
        second: p.5,
        nanosecond: p.6,
    }
}

/// The date a string literal spells, if it spells one.
pub fn date_literal_of(s: &str) -> (r: Option<CivilDate>)
    ensures
        r == date_literal(s@),
{
    match parse_date(s) {
        Some((year, month, day)) => Some(CivilDate { year, month, day }),
        None => None,
    }
}

/// The datetime a string literal spells, if it spells one: with its offset
/// when it is RFC 3339, else zoneless.
pub fn datetime_literal_of(s: &str) -> (r: Option<DatetimeConst>)
    ensures
        r == datetime_literal(s@),
{
    match parse_rfc3339(s) {
        Some(p) => Some(DatetimeConst::Offset {
            local: civil_date_time_of((p.0, p.1, p.2, p.3, p.4, p.5, p.6)),
            offset_seconds: p.7,
        }),
        None => match parse_naive_datetime(s) {
            Some(p) => Some(DatetimeConst::Naive(civil_date_time_of(p))),
            None => None,
        },
    }
}

// --- The table ----------------------------------------------------------------------

/// What the checker knows of the table an assertion runs against: its
/// columns in declaration order, and the field paths its struct columns
/// reach, each with its kind.
pub struct CheckEnv {
    pub columns: Vec<(String, ColumnKind)>,
    pub fields: Vec<(Vec<String>, ColumnKind)>,
}

pub open spec fn cols_view(s: Seq<(String, ColumnKind)>) -> Seq<(Seq<char>, ColumnKind)> {
    s.map_values(|c: (String, ColumnKind)| (c.0@, c.1))
}

pub open spec fn fields_view(s: Seq<(Vec<String>, ColumnKind)>) -> Seq<(Seq<Seq<char>>, ColumnKind)> {
    s.map_values(|f: (Vec<String>, ColumnKind)| (view_path(f.0@), f.1))
}

/// Whether two paths name the same segments.
pub(crate) fn same_path(a: &Vec<String>, b: &[String]) -> (r: bool)
    ensures
        r == (view_path(a@) == view_path(b@)),
{
    if a.len() != b.len() {
        proof {
            if view_path(a@) == view_path(b@) {
                assert(view_path(a@).len() == a@.len());
            }
        }
        return false;
    }
    let mut i: usize = 0;
    while i < a.len()
        invariant
            a@.len() == b@.len(),
            i <= a@.len(),
            forall|k: int| 0 <= k < i ==> (#[trigger] a@[k])@ == b@[k]@,
        decreases a@.len() - i,
    {
        if !str_eq(a[i].as_str(), b[i].as_str()) {
            assert(view_path(a@)[i as int] != view_path(b@)[i as int]);
            return false;
        }
        i = i + 1;
    }
    assert(view_path(a@) =~= view_path(b@));
    true
}

impl CheckEnv {
    pub open spec fn view(&self) -> EnvV {
        EnvV { columns: cols_view(self.columns@), fields: fields_view(self.fields@) }
    }

    /// The kind of the first column called `name`.
    pub fn column(&self, name: &str) -> (r: Option<ColumnKind>)
        ensures
            r == env_column(self.view(), name@),
    {
        let mut i: usize = 0;
        while i < self.columns.len()
            invariant
                i <= self.columns@.len(),
                env_column(self.view(), name@) == env_column_from(cols_view(self.columns@), name@, i as int),
            decreases self.columns@.len() - i,
        {
            if str_eq(self.columns[i].0.as_str(), name) {
                return Some(self.columns[i].1);
            }
            i = i + 1;
        }
        None
    }

    /// The kind of the first field reached by `path`.
    pub fn field(&self, path: &[String]) -> (r: Option<ColumnKind>)
        ensures
            r == env_field(self.view(), view_path(path@)),
    {
        let mut i: usize = 0;
        while i < self.fields.len()
            invariant
                i <= self.fields@.len(),
                env_field(self.view(), view_path(path@)) == env_field_from(fields_view(self.fields@), view_path(path@), i as int),
            decreases self.fields@.len() - i,
        {
            if same_path(&self.fields[i].0, path) {
                return Some(self.fields[i].1);
            }
            i = i + 1;
        }
        None
    }

    /// The columns the compiled `pattern` matches, in order.
    pub fn regex_matches(&self, pattern: &str) -> (r: Vec<(String, ColumnKind)>)
        requires
            regex_compile_error(pattern@) is None,
        ensures
            cols_view(r@) == regex_columns(pattern@, self.view().columns),
    {
        let cols = &self.columns;
        let mut out: Vec<(String, ColumnKind)> = Vec::new();
        let mut i: usize = 0;
        while i < cols.len()
            invariant
                cols == &self.columns,
                regex_compile_error(pattern@) is None,
                i <= cols@.len(),
                cols_view(out@) == regex_columns(pattern@, cols_view(cols@).take(i as int)),
            decreases cols@.len() - i,
        {
            proof {
                let t = cols_view(cols@).take(i + 1);
                assert(t.drop_last() =~= cols_view(cols@).take(i as int));
                assert(t.last() == (cols@[i as int].0@, cols@[i as int].1));
            }
            if regex_is_match(pattern, cols[i].0.as_str()) {
                let ghost before = out@;
                out.push((cols[i].0.clone(), cols[i].1));
                assert(cols_view(out@) =~= cols_view(before).push((cols@[i as int].0@, cols@[i as int].1)));
            }
            i = i + 1;
        }
        assert(cols_view(cols@).take(i as int) =~= cols_view(cols@));
        out
    }

    /// The columns a selection picks, with their kinds.
    pub fn matched_columns(&self, sel: &ColumnsSelector) -> (r: Vec<(String, ColumnKind)>)
        ensures
            cols_view(r@) == matched_columns(self.view(), view_sel(*sel)),
    {
        match sel {
            ColumnsSelector::All => {
                let cols = &self.columns;
                let mut out: Vec<(String, ColumnKind)> = Vec::new();
                let mut i: usize = 0;
                while i < cols.len()
                    invariant
                        i <= cols@.len(),
                        cols_view(out@) == cols_view(cols@).take(i as int),
                    decreases cols@.len() - i,
                {
                    let ghost before = out@;
                    out.push((cols[i].0.clone(), cols[i].1));
                    assert(cols_view(out@) =~= cols_view(before).push((cols@[i as int].0@, cols@[i as int].1)));
                    assert(cols_view(cols@).take(i + 1) =~= cols_view(cols@).take(i as int).push((cols@[i as int].0@, cols@[i as int].1)));
                    i = i + 1;
                }
                assert(cols_view(cols@).take(i as int) =~= cols_view(cols@));
                out
            },
            ColumnsSelector::Regex { pattern, .. } => {
                if regex_error(pattern.as_str()).is_some() {
                    assert(cols_view(Seq::<(String, ColumnKind)>::empty()) =~= seq![]);
                    Vec::new()
                } else {
                    self.regex_matches(pattern.as_str())
                }
            },
            ColumnsSelector::List(names) => {
                let mut out: Vec<(String, ColumnKind)> = Vec::new();
                let mut i: usize = 0;
                while i < names.len()
                    invariant
                        i <= names@.len(),
                        cols_view(out@) == listed_columns(self.view(), view_names(names@).take(i as int)),
                    decreases names@.len() - i,
                {
                    proof {
                        let t = view_names(names@).take(i + 1);
                        assert(t.drop_last() =~= view_names(names@).take(i as int));
                        assert(t.last() == view_named(names@[i as int]));
                    }
                    match self.column(names[i].name.as_str()) {
                        Some(k) => {
                            let ghost before = out@;
                            out.push((names[i].name.clone(), k));
                            assert(cols_view(out@) =~= cols_view(before).push((names@[i as int].name@, k)));
                        },
                        None => {},
                    }
                    i = i + 1;
                }
                assert(view_names(names@).take(i as int) =~= view_names(names@));
                out
            },
        }
    }
}

/// Whether the text `s` reads as a value of type `ty` (a date or datetime).
fn literal_reads_as(s: &str, ty: Ty) -> (r: bool)
    ensures
        r == reads_as(s@, ty),
{
    match ty {
        Ty::Date => date_literal_of(s).is_some(),
        Ty::Datetime => datetime_literal_of(s).is_some(),
        _ => false,
    }
}

// --- Findings ------------------------------------------------------------------------

pub open spec fn view_finding(f: Finding) -> FindingV {
    FindingV { code: f.code@, severity: f.severity, message: f.message@, start: f.start as int, end: f.end as int }
}

pub open spec fn findings_view(s: Seq<Finding>) -> Seq<FindingV> {
    s.map_values(|f: Finding| view_finding(f))
}

pub open spec fn spans_view(s: Seq<(usize, usize)>) -> Seq<(int, int)> {
    s.map_values(|p: (usize, usize)| (p.0 as int, p.1 as int))
}

/// `path[..n]` joined with `.`.
fn dotted_text(path: &Vec<String>, n: usize) -> (r: String)
    requires
        n <= path@.len(),
    ensures
        r@ == dotted(view_path(path@).take(n as int)),
{
    let mut out = String::new();
    let mut i: usize = 0;
    while i < n
        invariant
            n <= path@.len(),
            i <= n,
            out@ == dotted(view_path(path@).take(i as int)),
        decreases n - i,
    {
        proof {
            let t = view_path(path@).take(i + 1);
            assert(t.drop_last() =~= view_path(path@).take(i as int));
            assert(t.last() == path@[i as int]@);
        }
        if i > 0 {
            out.append(".");
        }
        out.append(path[i].as_str());
        i = i + 1;
    }
    out
}

/// The first line of an error's text; `invalid regex` when it has none.
fn first_line_text(t: &str) -> (r: String)
    ensures
        r@ == first_line_or(t@),
{
    let cs = chars_of(t);
    let n = cs.len();
    if n == 0 {
        return String::from_str("invalid regex");
    }
    let mut i: usize = 0;
    while i < n && cs[i] != '\n'
        invariant
            n == cs@.len(),
            cs@ == t@,
            i <= n,
            crate::report::index_from(t@, '\n', 0) == crate::report::index_from(t@, '\n', i as int),
        decreases n - i,
    {
        i = i + 1;
    }
    let end = if i < n && i > 0 && cs[i - 1] == '\r' {
        i - 1
    } else {
        i
    };
    proof {
        assert(t@.take(end as int) =~= cs@.subrange(0, end as int));
        if i >= n {
            assert(t@ =~= cs@.subrange(0, end as int));
        }
    }
    crate::text::string_of(cs.as_slice(), 0, end)
}

/// Whether `t` is one of `allowed`.
fn ty_in(allowed: &[Ty], t: Ty) -> (r: bool)
    ensures
        r == allowed@.contains(t),
{
    let mut i: usize = 0;
    while i < allowed.len()
        invariant
            i <= allowed@.len(),
            forall|k: int| 0 <= k < i ==> allowed@[k] != t,
        decreases allowed@.len() - i,
    {
        if allowed[i] == t {
            assert(allowed@[i as int] == t);
            return true;
        }
        i = i + 1;
    }
    false
}

/// The one-type list `[t]`.
fn only(t: Ty) -> (r: Vec<Ty>)
    ensures
        r@ == seq![t],
{
    let mut v: Vec<Ty> = Vec::new();
    v.push(t);
    assert(v@ =~= seq![t]);
    v
}

/// The types `MIN`, `MAX` and `COUNT_DISTINCT` order.
fn ordered() -> (r: Vec<Ty>)
    ensures
        r@ == ordered_types(),
{
    let mut v: Vec<Ty> = Vec::new();
    v.push(Ty::Number);
    v.push(Ty::String);
    v.push(Ty::Date);
    v.push(Ty::Datetime);
    assert(v@ =~= ordered_types());
    v
}

/// A function's signature.
pub struct Sig {
    pub lo: usize,
    pub hi: usize,
    pub arg: Option<Vec<Ty>>,
    pub ret: Option<Ty>,
    pub aggregate: bool,
}

impl Sig {
    pub open spec fn view(&self) -> SigV {
        SigV {
            lo: self.lo as nat,
            hi: self.hi as nat,
            arg: match self.arg {
                Some(v) => Some(v@),
                None => None,
            },
            ret: self.ret,
            aggregate: self.aggregate,
        }
    }

    fn scalar(lo: usize, hi: usize, arg: Vec<Ty>, ret: Ty) -> (r: Sig)
        ensures
            r.view() == (SigV { lo: lo as nat, hi: hi as nat, arg: Some(arg@), ret: Some(ret), aggregate: false }),
    {
        Sig { lo, hi, arg: Some(arg), ret: Some(ret), aggregate: false }
    }

    fn agg(arg: Option<Vec<Ty>>, lo: usize, ret: Option<Ty>) -> (r: Sig)
        ensures
            r.view() == (SigV {
                lo: lo as nat,
                hi: lo as nat,
                arg: match arg {
                    Some(v) => Some(v@),
                    None => None,
                },
                ret,
                aggregate: true,
            }),
    {
        Sig { lo, hi: lo, arg, ret, aggregate: true }
    }
}

/// The signature of the function with the lower-cased name `l`.
pub(crate) fn signature_of(l: &str) -> (r: Option<Sig>)
    ensures
        match r {
            Some(sig) => signature(l@) == Some(sig.view()),
            None => signature(l@) is None,
        },
{
    if str_eq(l, "length") {
        Some(Sig::scalar(1, 1, only(Ty::String), Ty::Number))
    } else if str_eq(l, "lower") || str_eq(l, "upper") || str_eq(l, "trim") {
        Some(Sig::scalar(1, 1, only(Ty::String), Ty::String))
    } else if str_eq(l, "starts_with") || str_eq(l, "ends_with") {
        Some(Sig::scalar(2, 2, only(Ty::String), Ty::Bool))
    } else if str_eq(l, "abs") || str_eq(l, "floor") || str_eq(l, "ceil") {
        Some(Sig::scalar(1, 1, only(Ty::Number), Ty::Number))
    } else if str_eq(l, "round") {
        Some(Sig::scalar(1, 2, only(Ty::Number), Ty::Number))
    } else if str_eq(l, "mod") {
        Some(Sig::scalar(2, 2, only(Ty::Number), Ty::Number))
    } else if str_eq(l, "min") || str_eq(l, "max") {
        Some(Sig::agg(Some(ordered()), 1, None))
    } else if str_eq(l, "sum") || str_eq(l, "avg") {
        Some(Sig::agg(Some(only(Ty::Number)), 1, Some(Ty::Number)))
    } else if str_eq(l, "count_distinct") {
        Some(Sig::agg(Some(ordered()), 1, Some(Ty::Number)))
    } else if str_eq(l, "any") || str_eq(l, "all") {
        Some(Sig::agg(Some(only(Ty::Bool)), 1, Some(Ty::Bool)))
    } else if str_eq(l, "count") {
        Some(Sig::agg(None, 1, Some(Ty::Number)))
    } else if str_eq(l, "row_count") {
        Some(Sig::agg(None, 0, Some(Ty::Number)))
    } else {
        None
    }
}

/// `w` in ASCII lower case.
pub(crate) fn lowercase_text(w: &str) -> (r: String)
    ensures
        r@ == lowered(w@),
{
    let cs = chars_of(w);
    let mut out = String::new();
    let mut i: usize = 0;
    while i < cs.len()
        invariant
            cs@ == w@,
            i <= cs@.len(),
            out@ == lowered(cs@.take(i as int)),
        decreases cs@.len() - i,
    {
        let c = cs[i];
        let l = if 'A' <= c && c <= 'Z' {
            ((c as u8) + 32) as char
        } else {
            c
        };
        assert(l == lower(c));
        string_push(&mut out, l);
        assert(lowered(cs@.take(i + 1)) =~= lowered(cs@.take(i as int)).push(lower(cs@[i as int])));
        i = i + 1;
    }
    assert(cs@.take(i as int) =~= w@);
    out
}

/// Append `w` in ASCII upper case.
fn append_upper(out: &mut String, w: &str)
    ensures
        final(out)@ == old(out)@ + uppered(w@),
{
    let cs = chars_of(w);
    let ghost base = out@;
    let mut i: usize = 0;
    while i < cs.len()
        invariant
            cs@ == w@,
            i <= cs@.len(),
            out@ == base + uppered(cs@.take(i as int)),
        decreases cs@.len() - i,
    {
        let c = cs[i];
        let u = if 'a' <= c && c <= 'z' {
            ((c as u8) - 32) as char
        } else {
            c
        };
        assert(u == upper(c));
        string_push(out, u);
        assert(uppered(cs@.take(i + 1)) =~= uppered(cs@.take(i as int)).push(upper(cs@[i as int])));
        i = i + 1;
    }
    assert(cs@.take(i as int) =~= w@);
}

/// The checker's walk: the table it checks against, the findings so far, and
/// the span of each `COLUMNS(...)` it has visited.
pub struct Checker<'a> {
    pub env: &'a CheckEnv,
    pub findings: Vec<Finding>,
    pub spans: Vec<(usize, usize)>,
}

impl<'a> Checker<'a> {
    pub open spec fn st(&self) -> CkState {
        CkState { findings: findings_view(self.findings@), spans: spans_view(self.spans@) }
    }

    pub open spec fn ev(&self) -> EnvV {
        self.env.view()
    }

    fn push(&mut self, code: &'static str, severity: FindingSeverity, message: String, start: usize, end: usize)
        ensures
            final(self).env == old(self).env,
            final(self).st() == push_finding(old(self).st(), code@, severity, message@, start as int, end as int),
    {
        let f = Finding { code, severity, message, start, end };
        let ghost fv = view_finding(f);
        self.findings.push(f);
        assert(findings_view(self.findings@) =~= findings_view(old(self).findings@).push(fv));
    }

    /// An error finding against `e`.
    fn report(&mut self, code: &'static str, message: String, e: &Expr)
        ensures
            final(self).env == old(self).env,
            final(self).st() == report(old(self).st(), code@, message@, view_expr(*e)),
    {
        self.push(code, FindingSeverity::Error, message, e.start, e.end);
    }

    /// The S23 for a value used where its type matters but isn't known.
    fn report_unknown(&mut self, e: &Expr)
        requires
            e.kind matches ExprKind::Column(p) ==> p@.len() > 0,
        ensures
            final(self).env == old(self).env,
            final(self).st() == report_unknown(old(self).st(), view_expr(*e)),
    {
        let message = match &e.kind {
            ExprKind::Column(path) => {
                if path.len() > 1 {
                    let mut m = String::from_str("field `");
                    let d = dotted_text(path, path.len());
                    m.append(d.as_str());
                    m.append("` has no declared type");
                    assert(view_path(path@).take(path@.len() as int) =~= view_path(path@));
                    m
                } else {
                    let mut m = String::from_str("column `");
                    m.append(path[0].as_str());
                    m.append("` has no declared type");
                    m
                }
            },
            _ => String::from_str("this value's type is unknown"),
        };
        self.report("S23", message, e);
    }


    /// A `COLUMNS(...)` selector checked on its own.
    fn validate_selector(&mut self, sel: &ColumnsSelector, cols: &Expr)
        ensures
            final(self).env == old(self).env,
            final(self).st() == validate_selector(old(self).ev(), old(self).st(), view_sel(*sel), view_expr(*cols)),
    {
        match sel {
            ColumnsSelector::All => {},
            ColumnsSelector::Regex { pattern, start, end } => {
                match regex_error(pattern.as_str()) {
                    Some(detail) => {
                        let mut m = String::from_str("invalid regular expression: ");
                        let line = first_line_text(detail.as_str());
                        m.append(line.as_str());
                        self.push("S21", FindingSeverity::Error, m, *start, *end);
                    },
                    None => {
                        let found = self.env.regex_matches(pattern.as_str());
                        if found.len() == 0 {
                            let mut m = String::from_str("`COLUMNS('");
                            m.append(pattern.as_str());
                            m.append("')` matches no columns on this table");
                            self.push("S22", FindingSeverity::Warning, m, cols.start, cols.end);
                        }
                    },
                }
            },
            ColumnsSelector::List(names) => {
                let mut i: usize = 0;
                let ghost st0 = self.st();
                while i < names.len()
                    invariant
                        self.env == old(self).env,
                        i <= names@.len(),
                        self.st() == missing_names(self.ev(), st0, view_names(names@).take(i as int)),
                    decreases names@.len() - i,
                {
                    proof {
                        let t = view_names(names@).take(i + 1);
                        assert(t.drop_last() =~= view_names(names@).take(i as int));
                        assert(t.last() == view_named(names@[i as int]));
                    }
                    if self.env.column(names[i].name.as_str()).is_none() {
                        let mut m = String::from_str("column `");
                        m.append(names[i].name.as_str());
                        m.append("` is not on this table");
                        self.push("S20", FindingSeverity::Error, m, names[i].start, names[i].end);
                    }
                    i = i + 1;
                }
                assert(view_names(names@).take(i as int) =~= view_names(names@));
            },
        }
    }

    /// Every column a selection picks must have a type in `allowed`.
    fn require_columns(&mut self, cols: &Expr, sel: &ColumnsSelector, allowed: &[Ty], ctx: &str)
        ensures
            final(self).env == old(self).env,
            final(self).st() == require_columns(old(self).ev(), old(self).st(), view_expr(*cols), view_sel(*sel), allowed@, ctx@),
    {
        let m = self.env.matched_columns(sel);
        let ghost st0 = self.st();
        let mut i: usize = 0;
        while i < m.len()
            invariant
                self.env == old(self).env,
                i <= m@.len(),
                self.st() == require_each(st0, view_expr(*cols), cols_view(m@).take(i as int), allowed@, ctx@),
            decreases m@.len() - i,
        {
            proof {
                let t = cols_view(m@).take(i + 1);
                assert(t.drop_last() =~= cols_view(m@).take(i as int));
                assert(t.last() == (m@[i as int].0@, m@[i as int].1));
            }
            let ty = kind_to_ty(m[i].1);
            if ty == Ty::Unknown {
                let mut msg = String::from_str("column `");
                msg.append(m[i].0.as_str());
                msg.append("` has no declared type");
                self.report("S23", msg, cols);
            } else if ty != Ty::Any && !ty_in(allowed, ty) {
                let mut msg = String::from_str(ctx);
                msg.append(" expects ");
                let nouns = join_nouns(allowed);
                msg.append(nouns.as_str());
                msg.append(", but column `");
                msg.append(m[i].0.as_str());
                msg.append("` is ");
                msg.append(ty.noun());
                self.report("S21", msg, cols);
            }
            i = i + 1;
        }
        assert(cols_view(m@).take(i as int) =~= cols_view(m@));
    }

    /// Whether a literal on one side reads as the date or datetime the other
    /// side is.
    fn date_literal_ok(&self, lit: &Expr, lit_ty: Ty, other_ty: Ty) -> (r: bool)
        ensures
            r == date_literal_ok(view_expr(*lit), lit_ty, other_ty),
    {
        if lit_ty != Ty::String {
            return false;
        }
        match &lit.kind {
            ExprKind::Str(s) => literal_reads_as(s.as_str(), other_ty),
            _ => false,
        }
    }

    /// Whether values of these types may be compared.
    fn types_comparable(&self, at: Ty, a: &Expr, bt: Ty, b: &Expr) -> (r: bool)
        ensures
            r == types_comparable(at, view_expr(*a), bt, view_expr(*b)),
    {
        if at == Ty::Struct || at == Ty::List || bt == Ty::Struct || bt == Ty::List {
            return false;
        }
        at == Ty::Any || bt == Ty::Any || at == bt || ((at == Ty::Date || at == Ty::Datetime) && (bt
            == Ty::Date || bt == Ty::Datetime)) || self.date_literal_ok(a, at, bt) || self.date_literal_ok(
            b,
            bt,
            at,
        )
    }

    /// A column or field path.
    fn infer_column_path(&mut self, path: &Vec<String>, e: &Expr) -> (r: Ty)
        requires
            path@.len() > 0,
        ensures
            final(self).env == old(self).env,
            (final(self).st(), r) == infer_column_path(old(self).ev(), old(self).st(), view_path(path@), view_expr(*e)),
    {
        let mut kind = match self.env.column(path[0].as_str()) {
            Some(k) => k,
            None => {
                let mut m = String::from_str("column `");
                m.append(path[0].as_str());
                m.append("` is not on this table");
                self.report("S20", m, e);
                return Ty::Any;
            },
        };
        let ghost pv = view_path(path@);
        let ghost st0 = self.st();
        let n = path.len();
        let mut i: usize = 1;
        while i < n
            invariant
                n == path@.len(),
                self.env == old(self).env,
                st0 == old(self).st(),
                self.st() == st0,
                1 <= i <= path@.len(),
                pv == view_path(path@),
                infer_column_path(self.ev(), st0, pv, view_expr(*e)) == path_walk(self.ev(), st0, pv, i as int, kind, view_expr(*e)),
            decreases path@.len() - i,
        {
            let prefix = dotted_text(path, i);
            match kind {
                ColumnKind::Struct => {
                    let mut sub: Vec<String> = Vec::new();
                    let mut k: usize = 0;
                    while k <= i
                        invariant
                            n == path@.len(),
                            i < path@.len(),
                            k <= i + 1,
                            view_path(sub@) == view_path(path@).take(k as int),
                        decreases i + 1 - k,
                    {
                        let ghost before = sub@;
                        sub.push(path[k].clone());
                        assert(view_path(sub@) =~= view_path(before).push(path@[k as int]@));
                        assert(view_path(path@).take(k + 1) =~= view_path(path@).take(k as int).push(path@[k as int]@));
                        k = k + 1;
                    }
                    match self.env.field(sub.as_slice()) {
                        Some(k2) => {
                            kind = k2;
                        },
                        None => {
                            let mut m = String::from_str("struct `");
                            m.append(prefix.as_str());
                            m.append("` has no field `");
                            m.append(path[i].as_str());
                            m.append("`");
                            self.report("S20", m, e);
                            return Ty::Any;
                        },
                    }
                },
                ColumnKind::List => {
                    let mut m = String::from_str("`");
                    m.append(prefix.as_str());
                    m.append("` is a list, and a list's elements can't be reached");
                    self.report("S21", m, e);
                    return Ty::Any;
                },
                _ => {
                    let mut m = String::from_str("`");
                    m.append(prefix.as_str());
                    m.append("` is ");
                    m.append(kind_to_ty(kind).noun());
                    m.append(", not a struct");
                    self.report("S21", m, e);
                    return Ty::Any;
                },
            }
            i = i + 1;
        }
        kind_to_ty(kind)
    }
}

// --- Lists of trees ---------------------------------------------------------------

pub(crate) proof fn lemma_view_list(s: Seq<Expr>)
    ensures
        view_list(s).len() == s.len(),
        forall|i: int| 0 <= i < s.len() ==> #[trigger] view_list(s)[i] == view_expr(s[i]),
    decreases s.len(),
{
    if s.len() > 0 {
        lemma_view_list(s.drop_last());
    }
}

pub(crate) proof fn lemma_view_whens(s: Seq<(Expr, Expr)>)
    ensures
        view_whens(s).len() == s.len(),
        forall|i: int|
            0 <= i < s.len() ==> #[trigger] view_whens(s)[i] == (view_expr(s[i].0), view_expr(s[i].1)),
    decreases s.len(),
{
    if s.len() > 0 {
        lemma_view_whens(s.drop_last());
    }
}

pub(crate) proof fn lemma_sizes_ge(s: Seq<ExprV>, j: int, i: int)
    requires
        0 <= j <= i < s.len(),
    ensures
        sizes_from(s, j) >= size(s[i]) + sizes_from(s, i + 1),
    decreases i - j,
{
    if j < i {
        lemma_sizes_ge(s, j + 1, i);
    }
}

pub(crate) proof fn lemma_pair_sizes_ge(s: Seq<(ExprV, ExprV)>, j: int, i: int)
    requires
        0 <= j <= i < s.len(),
    ensures
        pair_sizes_from(s, j) >= size(s[i].0) + size(s[i].1) + pair_sizes_from(s, i + 1),
    decreases i - j,
{
    if j < i {
        lemma_pair_sizes_ge(s, j + 1, i);
    }
}

proof fn lemma_all_named(s: Seq<ExprV>, j: int, i: int)
    requires
        0 <= j <= i < s.len(),
        all_named(s, j),
    ensures
        paths_named(s[i]),
        all_named(s, i + 1),
    decreases i - j,
{
    if j < i {
        lemma_all_named(s, j + 1, i);
    }
}

proof fn lemma_whens_named(s: Seq<(ExprV, ExprV)>, j: int, i: int)
    requires
        0 <= j <= i < s.len(),
        whens_named(s, j),
    ensures
        paths_named(s[i].0),
        paths_named(s[i].1),
    decreases i - j,
{
    if j < i {
        lemma_whens_named(s, j + 1, i);
    }
}

/// Whether every column reference in `e` names at least a column, as the
/// parser always makes them.
pub fn paths_are_named(e: &Expr) -> (r: bool)
    ensures
        r == paths_named(view_expr(*e)),
    decreases size(view_expr(*e)),
{
    match &e.kind {
        ExprKind::Column(path) => path.len() > 0,
        ExprKind::Neg(x) => paths_are_named(x),
        ExprKind::Not(x) => paths_are_named(x),
        ExprKind::Arith { lhs, rhs, .. } => paths_are_named(lhs) && paths_are_named(rhs),
        ExprKind::Compare { lhs, rhs, .. } => paths_are_named(lhs) && paths_are_named(rhs),
        ExprKind::And(l, r) => paths_are_named(l) && paths_are_named(r),
        ExprKind::Or(l, r) => paths_are_named(l) && paths_are_named(r),
        ExprKind::IsNull { operand, .. } => paths_are_named(operand),
        ExprKind::Between { operand, lo, hi, .. } => paths_are_named(operand) && paths_are_named(lo)
            && paths_are_named(hi),
        ExprKind::In { operand, list, .. } => paths_are_named(operand) && list_named(list, e),
        ExprKind::Like { operand, pattern, .. } => paths_are_named(operand) && paths_are_named(pattern),
        ExprKind::SimilarTo { operand, pattern, .. } => paths_are_named(operand) && paths_are_named(
            pattern,
        ),
        ExprKind::Call { args, .. } => list_named(args, e),
        ExprKind::Interval { n, .. } => paths_are_named(n),
        ExprKind::Case { whens, els } => {
            let ghost wv = view_whens(whens@);
            proof {
                lemma_view_whens(whens@);
            }
            let mut i: usize = 0;
            while i < whens.len()
                invariant
                    i <= whens@.len(),
                    wv == view_whens(whens@),
                    wv.len() == whens@.len(),
                    forall|k: int| 0 <= k < whens@.len() ==> #[trigger] wv[k] == (view_expr(whens@[k].0), view_expr(whens@[k].1)),
                    size(view_expr(*e)) > pair_sizes_from(wv, 0),
                    paths_named(view_expr(*e)) ==> whens_named(wv, 0),
                    whens_named(wv, 0) == whens_named(wv, i as int),
                decreases whens@.len() - i,
            {
                proof {
                    lemma_pair_sizes_ge(wv, 0, i as int);
                }
                if !(paths_are_named(&whens[i].0) && paths_are_named(&whens[i].1)) {
                    return false;
                }
                i = i + 1;
            }
            match els {
                Some(x) => paths_are_named(x),
                None => true,
            }
        },
        _ => true,
    }
}

/// Whether every tree in `list`, a part of `parent`, has named paths.
fn list_named(list: &Vec<Expr>, parent: &Expr) -> (r: bool)
    requires
        size(view_expr(*parent)) > sizes_from(view_list(list@), 0),
    ensures
        r == all_named(view_list(list@), 0),
    decreases size(view_expr(*parent)), 0int,
{
    let ghost lv = view_list(list@);
    proof {
        lemma_view_list(list@);
    }
    let mut i: usize = 0;
    while i < list.len()
        invariant
            i <= list@.len(),
            lv == view_list(list@),
            lv.len() == list@.len(),
            forall|k: int| 0 <= k < list@.len() ==> #[trigger] lv[k] == view_expr(list@[k]),
            size(view_expr(*parent)) > sizes_from(lv, 0),
            all_named(lv, 0) == all_named(lv, i as int),
        decreases list@.len() - i,
    {
        proof {
            lemma_sizes_ge(lv, 0, i as int);
        }
        if !paths_are_named(&list[i]) {
            return false;
        }
        i = i + 1;
    }
    true
}

impl<'a> Checker<'a> {
    /// The type of `e`, recording what inferring it finds.
    fn infer(&mut self, e: &Expr) -> (r: Ty)
        requires
            paths_named(view_expr(*e)),
        ensures
            final(self).env == old(self).env,
            (final(self).st(), r) == infer(old(self).ev(), old(self).st(), view_expr(*e)),
        decreases size(view_expr(*e)), 10int,
    {
        match &e.kind {
            ExprKind::Number(_) => Ty::Number,
            ExprKind::Str(_) => Ty::String,
            ExprKind::Bool(_) => Ty::Bool,
            ExprKind::Null => Ty::Any,
            ExprKind::Column(path) => self.infer_column_path(path, e),
            ExprKind::Neg(x) => {
                self.require(x, only(Ty::Number).as_slice(), "negation");
                Ty::Number
            },
            ExprKind::Not(x) => {
                self.require(x, only(Ty::Bool).as_slice(), "`NOT`");
                Ty::Bool
            },
            ExprKind::And(l, r) => {
                self.require(l, only(Ty::Bool).as_slice(), "a logical operator");
                self.require(r, only(Ty::Bool).as_slice(), "a logical operator");
                Ty::Bool
            },
            ExprKind::Or(l, r) => {
                self.require(l, only(Ty::Bool).as_slice(), "a logical operator");
                self.require(r, only(Ty::Bool).as_slice(), "a logical operator");
                Ty::Bool
            },
            ExprKind::Arith { op, lhs, rhs } => self.infer_arith(*op, lhs, rhs),
            ExprKind::Compare { lhs, rhs, .. } => {
                self.check_comparable(lhs, rhs);
                Ty::Bool
            },
            ExprKind::IsNull { operand, .. } => {
                self.infer(operand);
                Ty::Bool
            },
            ExprKind::Between { operand, lo, hi, .. } => {
                self.check_comparable(operand, lo);
                self.check_comparable(operand, hi);
                Ty::Bool
            },
            ExprKind::In { operand, list, .. } => {
                let ghost lv = view_list(list@);
                let ghost ov = view_expr(**operand);
                let ghost st0 = self.st();
                proof {
                    lemma_view_list(list@);
                }
                let mut i: usize = 0;
                while i < list.len()
                    invariant
                        self.env == old(self).env,
                        i <= list@.len(),
                        lv == view_list(list@),
                        lv.len() == list@.len(),
                        forall|k: int| 0 <= k < list@.len() ==> #[trigger] lv[k] == view_expr(list@[k]),
                        ov == view_expr(**operand),
                        paths_named(ov),
                        all_named(lv, 0),
                        size(view_expr(*e)) == 1 + size(ov) + sizes_from(lv, 0),
                        in_items(self.ev(), st0, ov, lv, 0) == in_items(self.ev(), self.st(), ov, lv, i as int),
                    decreases list@.len() - i,
                {
                    proof {
                        lemma_sizes_ge(lv, 0, i as int);
                        lemma_all_named(lv, 0, i as int);
                    }
                    self.check_comparable(operand, &list[i]);
                    i = i + 1;
                }
                Ty::Bool
            },
            ExprKind::Like { operand, pattern, .. } => {
                self.require(operand, only(Ty::String).as_slice(), "`LIKE`");
                self.require(pattern, only(Ty::String).as_slice(), "a `LIKE` pattern");
                Ty::Bool
            },
            ExprKind::SimilarTo { operand, pattern, .. } => {
                self.require(operand, only(Ty::String).as_slice(), "`SIMILAR TO`");
                self.require(pattern, only(Ty::String).as_slice(), "a `SIMILAR TO` pattern");
                match &pattern.kind {
                    ExprKind::Str(pat) => {
                        match regex_error(pat.as_str()) {
                            Some(detail) => {
                                let mut m = String::from_str("invalid regular expression: ");
                                let line = first_line_text(detail.as_str());
                                m.append(line.as_str());
                                self.report("S21", m, pattern);
                            },
                            None => {},
                        }
                    },
                    _ => {},
                }
                Ty::Bool
            },
            ExprKind::Now => Ty::Datetime,
            ExprKind::Interval { n, unit, unit_start, unit_end } => {
                self.require(n, only(Ty::Number).as_slice(), "`interval`");
                let l = lowercase_text(unit.as_str());
                let lw = l.as_str();
                if !(str_eq(lw, "seconds") || str_eq(lw, "minutes") || str_eq(lw, "hours") || str_eq(
                    lw,
                    "days",
                ) || str_eq(lw, "weeks")) {
                    let mut m = String::from_str("`");
                    m.append(unit.as_str());
                    m.append("` is not an interval unit (use seconds, minutes, hours, days, or weeks)");
                    self.push("S21", FindingSeverity::Error, m, *unit_start, *unit_end);
                }
                Ty::Interval
            },
            ExprKind::Call { name, args } => self.infer_call(name, args, e),
            ExprKind::Case { whens, els } => self.infer_case(whens, els, e),
            ExprKind::Columns(sel) => {
                let ghost before = self.spans@;
                self.spans.push((e.start, e.end));
                assert(spans_view(self.spans@) =~= spans_view(before).push((e.start as int, e.end as int)));
                self.validate_selector(sel, e);
                Ty::Any
            },
        }
    }

    /// Require `e` to have a type in `allowed`; gives its type.
    fn require(&mut self, e: &Expr, allowed: &[Ty], ctx: &str) -> (r: Ty)
        requires
            paths_named(view_expr(*e)),
        ensures
            final(self).env == old(self).env,
            (final(self).st(), r) == require(old(self).ev(), old(self).st(), view_expr(*e), allowed@, ctx@),
        decreases size(view_expr(*e)), 11int,
    {
        let ty = self.infer(e);
        match &e.kind {
            ExprKind::Columns(sel) => {
                self.require_columns(e, sel, allowed, ctx);
            },
            _ => {
                if ty == Ty::Unknown {
                    self.report_unknown(e);
                } else if ty != Ty::Any && !ty_in(allowed, ty) {
                    let mut m = String::from_str(ctx);
                    m.append(" expects ");
                    let nouns = join_nouns(allowed);
                    m.append(nouns.as_str());
                    m.append(", found ");
                    m.append(ty.noun());
                    self.report("S21", m, e);
                }
            },
        }
        ty
    }

    /// Arithmetic over `lhs` and `rhs`.
    fn infer_arith(&mut self, op: ArithOp, lhs: &Expr, rhs: &Expr) -> (r: Ty)
        requires
            paths_named(view_expr(*lhs)),
            paths_named(view_expr(*rhs)),
        ensures
            final(self).env == old(self).env,
            (final(self).st(), r) == infer_arith(old(self).ev(), old(self).st(), op, view_expr(*lhs), view_expr(*rhs)),
        decreases size(view_expr(*lhs)) + size(view_expr(*rhs)), 9int,
    {
        proof {
            lemma_size_pos(view_expr(*lhs));
            lemma_size_pos(view_expr(*rhs));
        }
        let lt = self.infer(lhs);
        let rt = self.infer(rhs);
        if lt == Ty::Unknown || rt == Ty::Unknown {
            if lt == Ty::Unknown {
                self.report_unknown(lhs);
            }
            if rt == Ty::Unknown {
                self.report_unknown(rhs);
            }
            return Ty::Any;
        }
        if (op == ArithOp::Add || op == ArithOp::Sub) && (((lt == Ty::Date || lt == Ty::Datetime) && (
        rt == Ty::Interval || rt == Ty::Any)) || ((rt == Ty::Date || rt == Ty::Datetime) && (lt
            == Ty::Interval || lt == Ty::Any))) {
            return Ty::Datetime;
        }
        self.require(lhs, only(Ty::Number).as_slice(), "arithmetic");
        self.require(rhs, only(Ty::Number).as_slice(), "arithmetic");
        Ty::Number
    }

    /// `a` and `b` must be comparable.
    fn check_comparable(&mut self, a: &Expr, b: &Expr)
        requires
            paths_named(view_expr(*a)),
            paths_named(view_expr(*b)),
        ensures
            final(self).env == old(self).env,
            final(self).st() == check_comparable(old(self).ev(), old(self).st(), view_expr(*a), view_expr(*b)),
        decreases size(view_expr(*a)) + size(view_expr(*b)), 9int,
    {
        proof {
            lemma_size_pos(view_expr(*a));
            lemma_size_pos(view_expr(*b));
        }
        if let ExprKind::Columns(sel) = &a.kind {
            self.infer(a);
            self.compare_columns(a, sel, b);
            return;
        }
        if let ExprKind::Columns(sel) = &b.kind {
            self.infer(b);
            self.compare_columns(b, sel, a);
            return;
        }
        let at = self.infer(a);
        let bt = self.infer(b);
        if at == Ty::Unknown || bt == Ty::Unknown {
            if at == Ty::Unknown {
                self.report_unknown(a);
            }
            if bt == Ty::Unknown {
                self.report_unknown(b);
            }
            return;
        }
        if !self.types_comparable(at, a, bt, b) {
            let mut m = String::from_str("cannot compare ");
            m.append(at.noun());
            m.append(" with ");
            m.append(bt.noun());
            self.report("S21", m, b);
        }
    }

    /// Each column `cols` selects must be comparable with `other`.
    fn compare_columns(&mut self, cols: &Expr, sel: &ColumnsSelector, other: &Expr)
        requires
            paths_named(view_expr(*other)),
            view_expr(*cols).kind == KindV::Columns(view_sel(*sel)),
        ensures
            final(self).env == old(self).env,
            final(self).st() == compare_columns(old(self).ev(), old(self).st(), view_expr(*cols), view_sel(*sel), view_expr(*other)),
        decreases size(view_expr(*cols)) + size(view_expr(*other)), 8int,
    {
        proof {
            lemma_size_pos(view_expr(*cols));
        }
        let ot = self.infer(other);
        if ot == Ty::Unknown {
            self.report_unknown(other);
            return;
        }
        let m = self.env.matched_columns(sel);
        let ghost st0 = self.st();
        let mut i: usize = 0;
        while i < m.len()
            invariant
                self.env == old(self).env,
                ot != Ty::Unknown,
                i <= m@.len(),
                self.st() == compare_each(st0, view_expr(*cols), cols_view(m@).take(i as int), ot, view_expr(*other)),
            decreases m@.len() - i,
        {
            proof {
                let t = cols_view(m@).take(i + 1);
                assert(t.drop_last() =~= cols_view(m@).take(i as int));
                assert(t.last() == (m@[i as int].0@, m@[i as int].1));
            }
            let ct = kind_to_ty(m[i].1);
            if ct == Ty::Unknown {
                let mut msg = String::from_str("column `");
                msg.append(m[i].0.as_str());
                msg.append("` has no declared type");
                self.report("S23", msg, cols);
            } else if !self.types_comparable(ct, cols, ot, other) {
                let mut msg = String::from_str("column `");
                msg.append(m[i].0.as_str());
                msg.append("` (");
                msg.append(ct.noun());
                msg.append(") cannot be compared with ");
                msg.append(ot.noun());
                self.report("S21", msg, cols);
            }
            i = i + 1;
        }
        assert(cols_view(m@).take(i as int) =~= cols_view(m@));
    }

    /// A call: the function must exist and take this many arguments, each of
    /// a type its signature allows.
    fn infer_call(&mut self, name: &String, args: &Vec<Expr>, e: &Expr) -> (r: Ty)
        requires
            all_named(view_list(args@), 0),
        ensures
            final(self).env == old(self).env,
            (final(self).st(), r) == infer_call(old(self).ev(), old(self).st(), name@, view_list(args@), view_expr(*e)),
        decreases sizes_from(view_list(args@), 0), 13int,
    {
        let ghost lv = view_list(args@);
        proof {
            lemma_view_list(args@);
        }
        let l = lowercase_text(name.as_str());
        match signature_of(l.as_str()) {
            None => {
                let mut m = String::from_str("unknown function `");
                m.append(name.as_str());
                m.append("`");
                self.report("S21", m, e);
                let ghost st1 = self.st();
                let mut i: usize = 0;
                while i < args.len()
                    invariant
                        self.env == old(self).env,
                        i <= args@.len(),
                        lv == view_list(args@),
                        lv.len() == args@.len(),
                        forall|k: int| 0 <= k < args@.len() ==> #[trigger] lv[k] == view_expr(args@[k]),
                        all_named(lv, 0),
                        infer_all(self.ev(), st1, lv, 0) == infer_all(self.ev(), self.st(), lv, i as int),
                    decreases args@.len() - i,
                {
                    proof {
                        lemma_sizes_ge(lv, 0, i as int);
                        lemma_all_named(lv, 0, i as int);
                    }
                    self.infer(&args[i]);
                    i = i + 1;
                }
                Ty::Any
            },
            Some(sig) => {
                let n = args.len();
                if !(sig.lo <= n && n <= sig.hi) {
                    let mut m = String::from_str("`");
                    append_upper(&mut m, l.as_str());
                    m.append("` takes ");
                    let lo_text = decimal_string(sig.lo);
                    m.append(lo_text.as_str());
                    if sig.lo != sig.hi {
                        m.append(" or ");
                        let hi_text = decimal_string(sig.hi);
                        m.append(hi_text.as_str());
                    }
                    m.append(" argument(s), found ");
                    let n_text = decimal_string(n);
                    m.append(n_text.as_str());
                    assert(m@ =~= "`"@ + uppered(l@) + "` takes "@ + arity_text(sig.view()) + " argument(s), found "@ + super::rules::decimal(args@.len()));
                    self.report("S21", m, e);
                }
                let mut ctx = String::from_str("`");
                append_upper(&mut ctx, l.as_str());
                ctx.append("`");
                assert(ctx@ =~= "`"@ + uppered(l@) + "`"@);
                let ghost st1 = self.st();
                let mut first: Option<Ty> = None;
                let mut i: usize = 0;
                while i < args.len()
                    invariant
                        self.env == old(self).env,
                        i <= args@.len(),
                        lv == view_list(args@),
                        lv.len() == args@.len(),
                        forall|k: int| 0 <= k < args@.len() ==> #[trigger] lv[k] == view_expr(args@[k]),
                        all_named(lv, 0),
                        call_args(self.ev(), st1, sig.view(), ctx@, lv, 0, None) == call_args(
                            self.ev(),
                            self.st(),
                            sig.view(),
                            ctx@,
                            lv,
                            i as int,
                            first,
                        ),
                    decreases args@.len() - i,
                {
                    proof {
                        lemma_sizes_ge(lv, 0, i as int);
                        lemma_all_named(lv, 0, i as int);
                    }
                    let ty = match &sig.arg {
                        Some(allowed) => self.require(&args[i], allowed.as_slice(), ctx.as_str()),
                        None => self.infer(&args[i]),
                    };
                    if i == 0 {
                        first = Some(ty);
                    }
                    i = i + 1;
                }
                match sig.ret {
                    Some(t) => t,
                    None => match (first, &sig.arg) {
                        (Some(t), Some(allowed)) => if ty_in(allowed.as_slice(), t) {
                            t
                        } else {
                            Ty::Any
                        },
                        _ => Ty::Any,
                    },
                }
            },
        }
    }

    /// `CASE`: boolean conditions, and the branches' common type.
    fn infer_case(&mut self, whens: &Vec<(Expr, Expr)>, els: &Option<Box<Expr>>, e: &Expr) -> (r: Ty)
        requires
            whens_named(view_whens(whens@), 0),
            els matches Some(x) ==> paths_named(view_expr(**x)),
        ensures
            final(self).env == old(self).env,
            (final(self).st(), r) == infer_case(
                old(self).ev(),
                old(self).st(),
                view_whens(whens@),
                match els {
                    Some(x) => Some(Box::new(view_expr(**x))),
                    None => None,
                },
            ),
        decreases pair_sizes_from(view_whens(whens@), 0) + opt_size(
            match els {
                Some(x) => Some(Box::new(view_expr(**x))),
                None => None,
            },
        ),
            13int,
    {
        let ghost wv = view_whens(whens@);
        let ghost elsv = match els {
            Some(x) => Some(Box::new(view_expr(**x))),
            None => None,
        };
        proof {
            lemma_view_whens(whens@);
        }
        let ghost st0 = self.st();
        let mut i: usize = 0;
        while i < whens.len()
            invariant
                self.env == old(self).env,
                i <= whens@.len(),
                wv == view_whens(whens@),
                wv.len() == whens@.len(),
                forall|k: int| 0 <= k < whens@.len() ==> #[trigger] wv[k] == (view_expr(whens@[k].0), view_expr(whens@[k].1)),
                whens_named(wv, 0),
                case_conds(self.ev(), st0, wv, elsv, 0) == case_conds(self.ev(), self.st(), wv, elsv, i as int),
            decreases whens@.len() - i,
        {
            proof {
                lemma_pair_sizes_ge(wv, 0, i as int);
                lemma_whens_named(wv, 0, i as int);
            }
            self.require(&whens[i].0, only(Ty::Bool).as_slice(), "a `CASE` condition");
            i = i + 1;
        }
        let ghost st1 = self.st();
        let mut result: Option<Ty> = None;
        let mut unknown = false;
        let mut j: usize = 0;
        while j < whens.len()
            invariant
                self.env == old(self).env,
                j <= whens@.len(),
                wv == view_whens(whens@),
                wv.len() == whens@.len(),
                forall|k: int| 0 <= k < whens@.len() ==> #[trigger] wv[k] == (view_expr(whens@[k].0), view_expr(whens@[k].1)),
                whens_named(wv, 0),
                case_branches(self.ev(), st1, wv, elsv, 0, None, false) == case_branches(
                    self.ev(),
                    self.st(),
                    wv,
                    elsv,
                    j as int,
                    result,
                    unknown,
                ),
            decreases whens@.len() - j,
        {
            proof {
                lemma_pair_sizes_ge(wv, 0, j as int);
                lemma_whens_named(wv, 0, j as int);
            }
            let t = self.infer(&whens[j].1);
            if t == Ty::Unknown {
                unknown = true;
            } else {
                result = merge_ty(result, t);
            }
            j = j + 1;
        }
        match els {
            Some(x) => {
                let t = self.infer(x);
                if t == Ty::Unknown {
                    unknown = true;
                } else {
                    result = merge_ty(result, t);
                }
            },
            None => {},
        }
        if unknown {
            Ty::Unknown
        } else {
            match result {
                Some(t) => t,
                None => Ty::Any,
            }
        }
    }
}

/// The common type so far, folding in branch `t`.
fn merge_ty(result: Option<Ty>, t: Ty) -> (r: Option<Ty>)
    ensures
        r == merge(result, t),
{
    match result {
        None => Some(t),
        Some(prev) => if prev == t || t == Ty::Any {
            Some(prev)
        } else if prev == Ty::Any {
            Some(t)
        } else {
            Some(Ty::Any)
        },
    }
}

impl<'a> Checker<'a> {
    /// The shape of `e`, recording an S30 for each aggregate of an aggregate.
    fn shape(&mut self, e: &Expr) -> (r: Shape)
        ensures
            final(self).env == old(self).env,
            (final(self).st(), r) == shape(old(self).st(), view_expr(*e)),
        decreases size(view_expr(*e)), 2int,
    {
        match &e.kind {
            ExprKind::Number(_) | ExprKind::Str(_) | ExprKind::Bool(_) | ExprKind::Null | ExprKind::Now => Shape::Const,
            ExprKind::Column(_) | ExprKind::Columns(_) => Shape::Row,
            ExprKind::Neg(x) => self.shape(x),
            ExprKind::Not(x) => self.shape(x),
            ExprKind::IsNull { operand, .. } => self.shape(operand),
            ExprKind::Interval { n, .. } => self.shape(n),
            ExprKind::Arith { lhs, rhs, .. } => self.shape_pair(lhs, rhs),
            ExprKind::Compare { lhs, rhs, .. } => self.shape_pair(lhs, rhs),
            ExprKind::And(l, r) => self.shape_pair(l, r),
            ExprKind::Or(l, r) => self.shape_pair(l, r),
            ExprKind::Like { operand, pattern, .. } => self.shape_pair(operand, pattern),
            ExprKind::SimilarTo { operand, pattern, .. } => self.shape_pair(operand, pattern),
            ExprKind::Between { operand, lo, hi, .. } => {
                let s1 = self.shape(operand);
                let s2 = self.shape(lo);
                let s3 = self.shape(hi);
                max_shape(max_shape(s1, s2), s3)
            },
            ExprKind::In { operand, list, .. } => {
                let mut acc = self.shape(operand);
                let ghost lv = view_list(list@);
                let ghost st0 = self.st();
                let ghost acc0 = acc;
                proof {
                    lemma_view_list(list@);
                }
                let mut i: usize = 0;
                while i < list.len()
                    invariant
                        self.env == old(self).env,
                        i <= list@.len(),
                        lv == view_list(list@),
                        lv.len() == list@.len(),
                        forall|k: int| 0 <= k < list@.len() ==> #[trigger] lv[k] == view_expr(list@[k]),
                        size(view_expr(*e)) > sizes_from(lv, 0),
                        shape_items(st0, lv, 0, acc0) == shape_items(self.st(), lv, i as int, acc),
                    decreases list@.len() - i,
                {
                    proof {
                        lemma_sizes_ge(lv, 0, i as int);
                    }
                    let s = self.shape(&list[i]);
                    acc = max_shape(acc, s);
                    i = i + 1;
                }
                acc
            },
            ExprKind::Case { whens, els } => {
                let ghost wv = view_whens(whens@);
                let ghost st0 = self.st();
                proof {
                    lemma_view_whens(whens@);
                }
                let mut acc = Shape::Const;
                let mut i: usize = 0;
                while i < whens.len()
                    invariant
                        self.env == old(self).env,
                        i <= whens@.len(),
                        wv == view_whens(whens@),
                        wv.len() == whens@.len(),
                        forall|k: int| 0 <= k < whens@.len() ==> #[trigger] wv[k] == (view_expr(whens@[k].0), view_expr(whens@[k].1)),
                        size(view_expr(*e)) > pair_sizes_from(wv, 0),
                        shape_whens(st0, wv, 0, Shape::Const, match els {
                            Some(x) => Some(Box::new(view_expr(**x))),
                            None => None,
                        }) == shape_whens(self.st(), wv, i as int, acc, match els {
                            Some(x) => Some(Box::new(view_expr(**x))),
                            None => None,
                        }),
                    decreases whens@.len() - i,
                {
                    proof {
                        lemma_pair_sizes_ge(wv, 0, i as int);
                    }
                    let s1 = self.shape(&whens[i].0);
                    let s2 = self.shape(&whens[i].1);
                    acc = max_shape(max_shape(acc, s1), s2);
                    i = i + 1;
                }
                match els {
                    Some(x) => {
                        let s = self.shape(x);
                        max_shape(acc, s)
                    },
                    None => acc,
                }
            },
            ExprKind::Call { name, args } => {
                let l = lowercase_text(name.as_str());
                let aggregate = match signature_of(l.as_str()) {
                    Some(sig) => sig.aggregate,
                    None => false,
                };
                let ghost lv = view_list(args@);
                let ghost st0 = self.st();
                proof {
                    lemma_view_list(args@);
                }
                let mut widest = Shape::Const;
                let mut i: usize = 0;
                while i < args.len()
                    invariant
                        self.env == old(self).env,
                        i <= args@.len(),
                        lv == view_list(args@),
                        lv.len() == args@.len(),
                        forall|k: int| 0 <= k < args@.len() ==> #[trigger] lv[k] == view_expr(args@[k]),
                        size(view_expr(*e)) > sizes_from(lv, 0),
                        shape_args(st0, name@, aggregate, lv, 0, Shape::Const) == shape_args(self.st(), name@, aggregate, lv, i as int, widest),
                    decreases args@.len() - i,
                {
                    proof {
                        lemma_sizes_ge(lv, 0, i as int);
                    }
                    let s = self.shape(&args[i]);
                    if aggregate && s == Shape::Agg {
                        let mut m = String::from_str("this argument of `");
                        append_upper(&mut m, name.as_str());
                        m.append("` is already an aggregate");
                        self.report("S30", m, &args[i]);
                    }
                    widest = max_shape(widest, s);
                    i = i + 1;
                }
                if aggregate {
                    Shape::Agg
                } else {
                    widest
                }
            },
        }
    }

    /// The larger shape of two operands.
    fn shape_pair(&mut self, a: &Expr, b: &Expr) -> (r: Shape)
        ensures
            final(self).env == old(self).env,
            (final(self).st(), r) == shape2(old(self).st(), view_expr(*a), view_expr(*b)),
        decreases size(view_expr(*a)) + size(view_expr(*b)), 1int,
    {
        proof {
            lemma_size_pos(view_expr(*a));
            lemma_size_pos(view_expr(*b));
        }
        let s1 = self.shape(a);
        let s2 = self.shape(b);
        max_shape(s1, s2)
    }
}

/// Whether two findings say the same thing at the same place.
fn same_finding(a: &Finding, b: &Finding) -> (r: bool)
    ensures
        r == (view_finding(*a) == view_finding(*b)),
{
    str_eq(a.code, b.code) && a.severity == b.severity && str_eq(a.message.as_str(), b.message.as_str())
        && a.start == b.start && a.end == b.end
}

/// Whether `a`'s key is at or before `b`'s.
fn key_at_or_before(a: &Finding, b: &Finding) -> (r: bool)
    ensures
        r == key_le(view_finding(*a), view_finding(*b)),
{
    a.start < b.start || (a.start == b.start && a.end <= b.end)
}

proof fn lemma_insert_sorted(s: Seq<FindingV>, x: FindingV, j: int)
    requires
        0 <= j <= s.len(),
        j == 0 || key_le(s[j - 1], x),
        forall|k: int| j <= k < s.len() ==> !key_le(#[trigger] s[k], x),
    ensures
        insert_sorted(s, x) == s.insert(j, x),
    decreases s.len(),
{
    if s.len() == 0 {
        assert(s.insert(j, x) =~= seq![x]);
    } else if key_le(s.last(), x) {
        assert(j == s.len());
        assert(s.insert(j, x) =~= s.push(x));
    } else {
        lemma_insert_sorted(s.drop_last(), x, j);
        assert(s.insert(j, x) =~= s.drop_last().insert(j, x).push(s.last()));
    }
}

/// Put `f` after every finding whose key is at or before its own.
fn insert_finding(out: &mut Vec<Finding>, f: Finding)
    ensures
        findings_view(final(out)@) == insert_sorted(findings_view(old(out)@), view_finding(f)),
{
    let mut j = out.len();
    while j > 0 && !key_at_or_before(&out[j - 1], &f)
        invariant
            j <= out@.len(),
            forall|k: int| j <= k < out@.len() ==> !key_le(#[trigger] view_finding(out@[k]), view_finding(f)),
        decreases j,
    {
        j = j - 1;
    }
    let ghost before = findings_view(out@);
    proof {
        assert forall|k: int| j <= k < before.len() implies !key_le(#[trigger] before[k], view_finding(f)) by {
            assert(before[k] == view_finding(out@[k]));
        }
        lemma_insert_sorted(before, view_finding(f), j as int);
    }
    let ghost fv = view_finding(f);
    out.insert(j, f);
    assert(findings_view(out@) =~= before.insert(j as int, fv));
}

/// `v` sorted by `(start, end)`, keeping the order of equal keys.
fn sort_findings(v: Vec<Finding>) -> (r: Vec<Finding>)
    ensures
        findings_view(r@) == sorted_findings(findings_view(v@)),
{
    let ghost orig = findings_view(v@);
    let mut rest = v;
    let mut out: Vec<Finding> = Vec::new();
    let mut k: usize = 0;
    let n0 = rest.len();
    proof {
        assert(orig.take(0) =~= Seq::<FindingV>::empty());
        assert(findings_view(rest@) =~= orig.skip(0));
        assert(orig.len() == n0);
    }
    while rest.len() > 0
        invariant
            k <= orig.len(),
            orig.len() <= usize::MAX,
            findings_view(rest@) == orig.skip(k as int),
            findings_view(out@) == sorted_findings(orig.take(k as int)),
        decreases rest@.len(),
    {
        let ghost rv = findings_view(rest@);
        let f = rest.remove(0);
        proof {
            assert(rv[0] == view_finding(f));
            assert(findings_view(rest@) =~= rv.drop_first());
            assert(orig.skip(k as int).drop_first() =~= orig.skip(k + 1));
            assert(orig.take(k + 1).drop_last() =~= orig.take(k as int));
            assert(orig.take(k + 1).last() == orig[k as int]);
            assert(orig[k as int] == rv[0]);
        }
        insert_finding(&mut out, f);
        k = k + 1;
    }
    assert(orig.take(k as int) =~= orig);
    out
}

proof fn lemma_dedup_last(s: Seq<FindingV>)
    requires
        s.len() >= 1,
    ensures
        dedup(s).len() >= 1,
        dedup(s).last() == s.last(),
    decreases s.len(),
{
    if s.len() > 1 {
        lemma_dedup_last(s.drop_last());
    }
}

/// `v` without consecutive repeats.
fn dedup_findings(v: Vec<Finding>) -> (r: Vec<Finding>)
    ensures
        findings_view(r@) == dedup(findings_view(v@)),
{
    let ghost orig = findings_view(v@);
    let mut rest = v;
    let mut out: Vec<Finding> = Vec::new();
    let mut k: usize = 0;
    let n0 = rest.len();
    proof {
        assert(orig.take(0) =~= Seq::<FindingV>::empty());
        assert(findings_view(rest@) =~= orig.skip(0));
        assert(orig.len() == n0);
    }
    while rest.len() > 0
        invariant
            k <= orig.len(),
            orig.len() <= usize::MAX,
            findings_view(rest@) == orig.skip(k as int),
            findings_view(out@) == dedup(orig.take(k as int)),
        decreases rest@.len(),
    {
        let ghost rv = findings_view(rest@);
        let f = rest.remove(0);
        proof {
            assert(rv[0] == view_finding(f));
            assert(findings_view(rest@) =~= rv.drop_first());
            assert(orig.skip(k as int).drop_first() =~= orig.skip(k + 1));
            assert(orig[k as int] == rv[0]);
            let t = orig.take(k + 1);
            assert(t.drop_last() =~= orig.take(k as int));
            assert(t.last() == orig[k as int]);
            if k >= 1 {
                lemma_dedup_last(orig.take(k as int));
                assert(t[t.len() - 2] == orig.take(k as int).last());
            }
        }
        let n = out.len();
        if n == 0 {
            out.push(f);
            proof {
                assert(orig.take(k + 1) =~= seq![orig[k as int]]);
                assert(findings_view(out@) =~= seq![orig[k as int]]);
            }
        } else if !same_finding(&out[n - 1], &f) {
            let ghost before = findings_view(out@);
            out.push(f);
            assert(findings_view(out@) =~= before.push(orig[k as int]));
        }
        k = k + 1;
    }
    assert(orig.take(k as int) =~= orig);
    out
}

/// Check a parsed assertion against `env`, every finding in source order.
/// With [`Root::Boolean`] the assertion as a whole must be a boolean (each
/// selected column must be, for a bare `COLUMNS(...)`); at most one
/// `COLUMNS(...)` may appear; and every operand whose type matters must have
/// a known one.
pub fn check_root(expr: &AssertExpr, env: &CheckEnv, root: Root) -> (r: Vec<Finding>)
    requires
        paths_named(view_expr(expr.root)),
    ensures
        findings_view(r@) == check_findings(env.view(), view_expr(expr.root), root),
{
    let mut cx = Checker { env, findings: Vec::new(), spans: Vec::new() };
    proof {
        assert(cx.st() == (CkState { findings: seq![], spans: seq![] })) by {
            assert(findings_view(cx.findings@) =~= Seq::<FindingV>::empty());
            assert(spans_view(cx.spans@) =~= Seq::<(int, int)>::empty());
        }
    }
    let ty = cx.infer(&expr.root);
    cx.shape(&expr.root);
    if root == Root::Boolean {
        if let ExprKind::Columns(sel) = &expr.root.kind {
            cx.require_columns(&expr.root, sel, only(Ty::Bool).as_slice(), "an assertion");
        } else if ty == Ty::Unknown {
            cx.report_unknown(&expr.root);
        } else if ty != Ty::Bool && ty != Ty::Any {
            let mut m = String::from_str("this assertion is ");
            m.append(ty.noun());
            m.append(", not a boolean");
            cx.report("S21", m, &expr.root);
        }
    } else if ty == Ty::Unknown {
        cx.report_unknown(&expr.root);
    }
    let ghost st3 = cx.st();
    let mut i: usize = 1;
    while i < cx.spans.len()
        invariant
            1 <= i,
            cx.st().spans == st3.spans,
            extra_selections(st3, 1) == extra_selections(cx.st(), i as int),
        decreases cx.spans@.len() - i,
    {
        let (start, end) = cx.spans[i];
        cx.push(
            "S21",
            FindingSeverity::Error,
            String::from_str("an assertion may use at most one `COLUMNS(...)`"),
            start,
            end,
        );
        i = i + 1;
    }
    let sorted = sort_findings(cx.findings);
    dedup_findings(sorted)
}

/// [`check_root`] for an assertion, which must be a boolean.
pub fn check(expr: &AssertExpr, env: &CheckEnv) -> (r: Vec<Finding>)
    requires
        paths_named(view_expr(expr.root)),
    ensures
        findings_view(r@) == check_findings(env.view(), view_expr(expr.root), Root::Boolean),
{
    check_root(expr, env, Root::Boolean)
}

} // verus!
