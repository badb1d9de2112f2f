//! The checker's rules, read as mathematics: what checking a parsed assertion
//! against a table finds. The walk is stated as it runs — each visit may
//! record findings, in the order it makes them — and the findings are then
//! put in source order with repeats dropped.

use vstd::prelude::*;

use super::grammar::{lowered, uppered, ExprV, KindV, NamedV, SelV};
use super::ir::{op_named, spec_is_aggregate, CivilDate, CivilDateTime, DatetimeConst};
use super::{
    nouns_text, spec_kind_to_ty, spec_max_shape, ty_noun, ArithOp, ColumnKind, FindingSeverity, Root,
    Shape, Ty,
};

verus! {

/// A finding, as text and offsets.
pub struct FindingV {
    pub code: Seq<char>,
    pub severity: FindingSeverity,
    pub message: Seq<char>,
    pub start: int,
    pub end: int,
}

/// What the walk has gathered: the findings so far, and the span of each
/// `COLUMNS(...)` it has visited.
pub struct CkState {
    pub findings: Seq<FindingV>,
    pub spans: Seq<(int, int)>,
}

/// The table an assertion is checked against: its columns in declaration
/// order, and the field paths its struct columns reach, each with its kind.
pub struct EnvV {
    pub columns: Seq<(Seq<char>, ColumnKind)>,
    pub fields: Seq<(Seq<Seq<char>>, ColumnKind)>,
}

// --- What outside code decides ----------------------------------------------

/// The text of the error `regex::Regex::new` reports for `pattern`, if it
/// does not compile.
pub uninterp spec fn regex_compile_error(pattern: Seq<char>) -> Option<Seq<char>>;

/// Whether the compiled `pattern` matches somewhere in `hay`.
pub uninterp spec fn regex_finds(pattern: Seq<char>, hay: Seq<char>) -> bool;

/// What `chrono` reads `s` as when it parses it as a `NaiveDate`: its year,
/// month and day.
pub uninterp spec fn chrono_date(s: Seq<char>) -> Option<(i32, u32, u32)>;

/// What `chrono` reads `s` as when it parses it as an RFC 3339 datetime: the
/// local year, month, day, hour, minute, second and nanosecond, and the
/// offset east of UTC in seconds.
pub uninterp spec fn chrono_rfc3339(s: Seq<char>) -> Option<(i32, u32, u32, u32, u32, u32, u32, i32)>;

/// What `chrono` reads `s` as when it parses it as a `NaiveDateTime`: its
/// year, month, day, hour, minute, second and nanosecond.
pub uninterp spec fn chrono_naive_datetime(s: Seq<char>) -> Option<(i32, u32, u32, u32, u32, u32, u32)>;

pub open spec fn civil_date(p: (i32, u32, u32)) -> CivilDate {
    CivilDate { year: p.0, month: p.1, day: p.2 }
}

pub open spec fn civil_date_time(p: (i32, u32, u32, u32, u32, u32, u32)) -> CivilDateTime {
    CivilDateTime {
        date: CivilDate { year: p.0, month: p.1, day: p.2 },
        hour: p.3,
        minute: p.4,
        second: p.5,
        nanosecond: p.6,
    }
}

/// The date a string literal spells, if it spells one.
pub open spec fn date_literal(s: Seq<char>) -> Option<CivilDate> {
    match chrono_date(s) {
        Some(p) => Some(civil_date(p)),
        None => None,
    }
}

/// The datetime a string literal spells, if it spells one: with its offset
/// when it is RFC 3339, else zoneless.
pub open spec fn datetime_literal(s: Seq<char>) -> Option<DatetimeConst> {
    match chrono_rfc3339(s) {
        Some(p) => Some(DatetimeConst::Offset {
            local: civil_date_time((p.0, p.1, p.2, p.3, p.4, p.5, p.6)),
            offset_seconds: p.7,
        }),
        None => match chrono_naive_datetime(s) {
            Some(p) => Some(DatetimeConst::Naive(civil_date_time(p))),
            None => None,
        },
    }
}

// --- The table ---------------------------------------------------------------

/// The kind of the first column called `name`.
pub open spec fn env_column(env: EnvV, name: Seq<char>) -> Option<ColumnKind> {
    env_column_from(env.columns, name, 0)
}

pub open spec fn env_column_from(cols: Seq<(Seq<char>, ColumnKind)>, name: Seq<char>, i: int) -> Option<ColumnKind>
    decreases cols.len() - i,
{
    if i < 0 || i >= cols.len() {
        None
    } else if cols[i].0 == name {
        Some(cols[i].1)
    } else {
        env_column_from(cols, name, i + 1)
    }
}

/// The kind of the first field reached by `path`.
pub open spec fn env_field(env: EnvV, path: Seq<Seq<char>>) -> Option<ColumnKind> {
    env_field_from(env.fields, path, 0)
}

pub open spec fn env_field_from(fields: Seq<(Seq<Seq<char>>, ColumnKind)>, path: Seq<Seq<char>>, i: int) -> Option<ColumnKind>
    decreases fields.len() - i,
{
    if i < 0 || i >= fields.len() {
        None
    } else if fields[i].0 == path {
        Some(fields[i].1)
    } else {
        env_field_from(fields, path, i + 1)
    }
}

/// Whether a date or datetime literal `s` reads as a value of type `ty`.
pub open spec fn reads_as(s: Seq<char>, ty: Ty) -> bool {
    match ty {
        Ty::Date => date_literal(s) is Some,
        Ty::Datetime => datetime_literal(s) is Some,
        _ => false,
    }
}

// --- Sizes, for termination ----------------------------------------------------

pub open spec fn size(e: ExprV) -> nat
    decreases e, 1int,
{
    1 + match e.kind {
        KindV::Neg(x) => size(*x),
        KindV::Not(x) => size(*x),
        KindV::Arith { lhs, rhs, .. } => size(*lhs) + size(*rhs),
        KindV::Compare { lhs, rhs, .. } => size(*lhs) + size(*rhs),
        KindV::And(l, r) => size(*l) + size(*r),
        KindV::Or(l, r) => size(*l) + size(*r),
        KindV::IsNull { operand, .. } => size(*operand),
        KindV::Between { operand, lo, hi, .. } => size(*operand) + size(*lo) + size(*hi),
        KindV::In { operand, list, .. } => size(*operand) + sizes_from(list, 0),
        KindV::Like { operand, pattern, .. } => size(*operand) + size(*pattern),
        KindV::SimilarTo { operand, pattern, .. } => size(*operand) + size(*pattern),
        KindV::Call { args, .. } => sizes_from(args, 0),
        KindV::Interval { n, .. } => size(*n),
        KindV::Case { whens, els } => pair_sizes_from(whens, 0) + match els {
            Some(x) => size(*x),
            None => 0,
        },
        _ => 0,
    }
}

pub proof fn lemma_size_pos(e: ExprV)
    ensures
        size(e) >= 1,
{
}

pub proof fn lemma_sizes_step(s: Seq<ExprV>, i: int)
    requires
        0 <= i < s.len(),
    ensures
        sizes_from(s, i) == size(s[i]) + sizes_from(s, i + 1),
        sizes_from(s, i + 1) < sizes_from(s, i),
{
    lemma_size_pos(s[i]);
}

pub proof fn lemma_pair_sizes_step(s: Seq<(ExprV, ExprV)>, i: int)
    requires
        0 <= i < s.len(),
    ensures
        pair_sizes_from(s, i) == size(s[i].0) + size(s[i].1) + pair_sizes_from(s, i + 1),
        pair_sizes_from(s, i + 1) + size(s[i].1) < pair_sizes_from(s, i),
        pair_sizes_from(s, i + 1) + size(s[i].0) < pair_sizes_from(s, i),
{
    lemma_size_pos(s[i].0);
    lemma_size_pos(s[i].1);
}

pub open spec fn sizes_from(s: Seq<ExprV>, i: int) -> nat
    decreases s, s.len() - i,
{
    if 0 <= i < s.len() {
        size(s[i]) + sizes_from(s, i + 1)
    } else {
        0
    }
}

pub open spec fn pair_sizes_from(s: Seq<(ExprV, ExprV)>, i: int) -> nat
    decreases s, s.len() - i,
{
    if 0 <= i < s.len() {
        size(s[i].0) + size(s[i].1) + pair_sizes_from(s, i + 1)
    } else {
        0
    }
}

pub open spec fn opt_size(e: Option<Box<ExprV>>) -> nat {
    match e {
        Some(x) => size(*x),
        None => 0,
    }
}

// --- Recording ---------------------------------------------------------------

pub open spec fn push_finding(st: CkState, code: Seq<char>, severity: FindingSeverity, message: Seq<char>, start: int, end: int) -> CkState {
    CkState {
        findings: st.findings.push(FindingV { code, severity, message, start, end }),
        spans: st.spans,
    }
}

/// An error finding against `e`.
pub open spec fn report(st: CkState, code: Seq<char>, message: Seq<char>, e: ExprV) -> CkState {
    push_finding(st, code, FindingSeverity::Error, message, e.start, e.end)
}

/// `path` joined with `.`.
pub open spec fn dotted(path: Seq<Seq<char>>) -> Seq<char>
    decreases path.len(),
{
    if path.len() == 0 {
        seq![]
    } else if path.len() == 1 {
        path[0]
    } else {
        dotted(path.drop_last()) + "."@ + path.last()
    }
}

/// What the S23 for `e` says.
pub open spec fn unknown_message(e: ExprV) -> Seq<char> {
    match e.kind {
        KindV::Column(path) => if path.len() > 1 {
            "field `"@ + dotted(path) + "` has no declared type"@
        } else {
            "column `"@ + path[0] + "` has no declared type"@
        },
        _ => "this value's type is unknown"@,
    }
}

/// The S23 for a value whose type matters but is not known.
pub open spec fn report_unknown(st: CkState, e: ExprV) -> CkState {
    report(st, "S23"@, unknown_message(e), e)
}

/// The first line of an error's text, as `str::lines` gives it; `invalid
/// regex` when there is none.
pub open spec fn first_line_or(t: Seq<char>) -> Seq<char> {
    if t.len() == 0 {
        "invalid regex"@
    } else {
        crate::report::first_line(t).0
    }
}

pub open spec fn regex_message(pattern: Seq<char>) -> Seq<char> {
    "invalid regular expression: "@ + match regex_compile_error(pattern) {
        Some(t) => first_line_or(t),
        None => first_line_or(seq![]),
    }
}

/// The columns whose names the compiled `pattern` matches, in order.
pub open spec fn regex_columns(pattern: Seq<char>, cols: Seq<(Seq<char>, ColumnKind)>) -> Seq<(Seq<char>, ColumnKind)>
    decreases cols.len(),
{
    if cols.len() == 0 {
        seq![]
    } else {
        let r = regex_columns(pattern, cols.drop_last());
        if regex_finds(pattern, cols.last().0) {
            r.push(cols.last())
        } else {
            r
        }
    }
}

// --- Selections ----------------------------------------------------------------

/// The columns a `COLUMNS(...)` selects, with their kinds: every column, those
/// a compiling regex matches, or the listed names that exist.
pub open spec fn matched_columns(env: EnvV, sel: SelV) -> Seq<(Seq<char>, ColumnKind)> {
    match sel {
        SelV::All => env.columns,
        SelV::Regex { pattern, .. } => if regex_compile_error(pattern) is Some {
            seq![]
        } else {
            regex_columns(pattern, env.columns)
        },
        SelV::List(names) => listed_columns(env, names),
    }
}

pub open spec fn listed_columns(env: EnvV, names: Seq<NamedV>) -> Seq<(Seq<char>, ColumnKind)>
    decreases names.len(),
{
    if names.len() == 0 {
        seq![]
    } else {
        let rest = listed_columns(env, names.drop_last());
        match env_column(env, names.last().name) {
            Some(k) => rest.push((names.last().name, k)),
            None => rest,
        }
    }
}

/// What a `COLUMNS(...)` selector is, checked on its own: a regex must
/// compile and should match something, and listed names must exist.
pub open spec fn validate_selector(env: EnvV, st: CkState, sel: SelV, cols: ExprV) -> CkState {
    match sel {
        SelV::All => st,
        SelV::Regex { pattern, start, end } => if regex_compile_error(pattern) is Some {
            push_finding(st, "S21"@, FindingSeverity::Error, regex_message(pattern), start, end)
        } else if regex_columns(pattern, env.columns).len() == 0 {
            push_finding(
                st,
                "S22"@,
                FindingSeverity::Warning,
                "`COLUMNS('"@ + pattern + "')` matches no columns on this table"@,
                cols.start,
                cols.end,
            )
        } else {
            st
        },
        SelV::List(names) => missing_names(env, st, names),
    }
}

pub open spec fn missing_names(env: EnvV, st: CkState, names: Seq<NamedV>) -> CkState
    decreases names.len(),
{
    if names.len() == 0 {
        st
    } else {
        let st1 = missing_names(env, st, names.drop_last());
        let n = names.last();
        if env_column(env, n.name) is None {
            push_finding(st1, "S20"@, FindingSeverity::Error, "column `"@ + n.name + "` is not on this table"@, n.start, n.end)
        } else {
            st1
        }
    }
}

/// Every column a selection picks must have a type in `allowed`.
pub open spec fn require_columns(env: EnvV, st: CkState, cols: ExprV, sel: SelV, allowed: Seq<Ty>, ctx: Seq<char>) -> CkState {
    require_each(st, cols, matched_columns(env, sel), allowed, ctx)
}

pub open spec fn require_each(st: CkState, cols: ExprV, m: Seq<(Seq<char>, ColumnKind)>, allowed: Seq<Ty>, ctx: Seq<char>) -> CkState
    decreases m.len(),
{
    if m.len() == 0 {
        st
    } else {
        let st1 = require_each(st, cols, m.drop_last(), allowed, ctx);
        let (name, kind) = m.last();
        let ty = spec_kind_to_ty(kind);
        if ty == Ty::Unknown {
            report(st1, "S23"@, "column `"@ + name + "` has no declared type"@, cols)
        } else if ty != Ty::Any && !allowed.contains(ty) {
            report(
                st1,
                "S21"@,
                ctx + " expects "@ + nouns_text(allowed) + ", but column `"@ + name + "` is "@ + ty_noun(ty),
                cols,
            )
        } else {
            st1
        }
    }
}

// --- Types -------------------------------------------------------------------------

pub open spec fn is_temporal(t: Ty) -> bool {
    t == Ty::Date || t == Ty::Datetime
}

/// Whether `lit` is a string literal that reads as the date or datetime the
/// other side is.
pub open spec fn date_literal_ok(lit: ExprV, lit_ty: Ty, other_ty: Ty) -> bool {
    lit_ty == Ty::String && match lit.kind {
        KindV::Str(s) => reads_as(s, other_ty),
        _ => false,
    }
}

/// Whether values of these types may be compared.
pub open spec fn types_comparable(at: Ty, a: ExprV, bt: Ty, b: ExprV) -> bool {
    if at == Ty::Struct || at == Ty::List || bt == Ty::Struct || bt == Ty::List {
        false
    } else {
        at == Ty::Any || bt == Ty::Any || at == bt || (is_temporal(at) && is_temporal(bt))
            || date_literal_ok(a, at, bt) || date_literal_ok(b, bt, at)
    }
}

/// A function's signature.
pub struct SigV {
    pub lo: nat,
    pub hi: nat,
    /// The types its arguments may take; `None` when any will do.
    pub arg: Option<Seq<Ty>>,
    /// The type it returns; `None` when it returns its first argument's.
    pub ret: Option<Ty>,
    pub aggregate: bool,
}

pub open spec fn ordered_types() -> Seq<Ty> {
    seq![Ty::Number, Ty::String, Ty::Date, Ty::Datetime]
}

/// The signature of the function with the lower-cased name `l`.
pub open spec fn signature(l: Seq<char>) -> Option<SigV> {
    if l == "length"@ {
        Some(SigV { lo: 1, hi: 1, arg: Some(seq![Ty::String]), ret: Some(Ty::Number), aggregate: false })
    } else if l == "lower"@ || l == "upper"@ || l == "trim"@ {
        Some(SigV { lo: 1, hi: 1, arg: Some(seq![Ty::String]), ret: Some(Ty::String), aggregate: false })
    } else if l == "starts_with"@ || l == "ends_with"@ {
        Some(SigV { lo: 2, hi: 2, arg: Some(seq![Ty::String]), ret: Some(Ty::Bool), aggregate: false })
    } else if l == "abs"@ || l == "floor"@ || l == "ceil"@ {
        Some(SigV { lo: 1, hi: 1, arg: Some(seq![Ty::Number]), ret: Some(Ty::Number), aggregate: false })
    } else if l == "round"@ {
        Some(SigV { lo: 1, hi: 2, arg: Some(seq![Ty::Number]), ret: Some(Ty::Number), aggregate: false })
    } else if l == "mod"@ {
        Some(SigV { lo: 2, hi: 2, arg: Some(seq![Ty::Number]), ret: Some(Ty::Number), aggregate: false })
    } else if l == "min"@ || l == "max"@ {
        Some(SigV { lo: 1, hi: 1, arg: Some(ordered_types()), ret: None, aggregate: true })
    } else if l == "sum"@ || l == "avg"@ {
        Some(SigV { lo: 1, hi: 1, arg: Some(seq![Ty::Number]), ret: Some(Ty::Number), aggregate: true })
    } else if l == "count_distinct"@ {
        Some(SigV { lo: 1, hi: 1, arg: Some(ordered_types()), ret: Some(Ty::Number), aggregate: true })
    } else if l == "any"@ || l == "all"@ {
        Some(SigV { lo: 1, hi: 1, arg: Some(seq![Ty::Bool]), ret: Some(Ty::Bool), aggregate: true })
    } else if l == "count"@ {
        Some(SigV { lo: 1, hi: 1, arg: None, ret: Some(Ty::Number), aggregate: true })
    } else if l == "row_count"@ {
        Some(SigV { lo: 0, hi: 0, arg: None, ret: Some(Ty::Number), aggregate: true })
    } else {
        None
    }
}

pub open spec fn decimal(n: nat) -> Seq<char> {
    crate::text::decimal(n)
}

/// The arities a signature takes, in words: `1`, or `1 or 2`.
pub open spec fn arity_text(sig: SigV) -> Seq<char> {
    if sig.lo == sig.hi {
        decimal(sig.lo)
    } else {
        decimal(sig.lo) + " or "@ + decimal(sig.hi)
    }
}

pub open spec fn is_unit(l: Seq<char>) -> bool {
    l == "seconds"@ || l == "minutes"@ || l == "hours"@ || l == "days"@ || l == "weeks"@
}

// --- The walk ----------------------------------------------------------------------

/// The type of `e`, and what inferring it records.
pub open spec fn infer(env: EnvV, st: CkState, e: ExprV) -> (CkState, Ty)
    decreases size(e), 10int,
{
    match e.kind {
        KindV::Number(_) => (st, Ty::Number),
        KindV::Str(_) => (st, Ty::String),
        KindV::Bool(_) => (st, Ty::Bool),
        KindV::Null => (st, Ty::Any),
        KindV::Column(path) => infer_column_path(env, st, path, e),
        KindV::Neg(x) => (require(env, st, *x, seq![Ty::Number], "negation"@).0, Ty::Number),
        KindV::Not(x) => (require(env, st, *x, seq![Ty::Bool], "`NOT`"@).0, Ty::Bool),
        KindV::And(l, r) => {
            let st1 = require(env, st, *l, seq![Ty::Bool], "a logical operator"@).0;
            (require(env, st1, *r, seq![Ty::Bool], "a logical operator"@).0, Ty::Bool)
        },
        KindV::Or(l, r) => {
            let st1 = require(env, st, *l, seq![Ty::Bool], "a logical operator"@).0;
            (require(env, st1, *r, seq![Ty::Bool], "a logical operator"@).0, Ty::Bool)
        },
        KindV::Arith { op, lhs, rhs } => infer_arith(env, st, op, *lhs, *rhs),
        KindV::Compare { lhs, rhs, .. } => (check_comparable(env, st, *lhs, *rhs), Ty::Bool),
        KindV::IsNull { operand, .. } => (infer(env, st, *operand).0, Ty::Bool),
        KindV::Between { operand, lo, hi, .. } => {
            let st1 = check_comparable(env, st, *operand, *lo);
            (check_comparable(env, st1, *operand, *hi), Ty::Bool)
        },
        KindV::In { operand, list, .. } => (in_items(env, st, *operand, list, 0), Ty::Bool),
        KindV::Like { operand, pattern, .. } => {
            let st1 = require(env, st, *operand, seq![Ty::String], "`LIKE`"@).0;
            (require(env, st1, *pattern, seq![Ty::String], "a `LIKE` pattern"@).0, Ty::Bool)
        },
        KindV::SimilarTo { operand, pattern, .. } => {
            let st1 = require(env, st, *operand, seq![Ty::String], "`SIMILAR TO`"@).0;
            let st2 = require(env, st1, *pattern, seq![Ty::String], "a `SIMILAR TO` pattern"@).0;
            match pattern.kind {
                KindV::Str(pat) => if regex_compile_error(pat) is Some {
                    (report(st2, "S21"@, regex_message(pat), *pattern), Ty::Bool)
                } else {
                    (st2, Ty::Bool)
                },
                _ => (st2, Ty::Bool),
            }
        },
        KindV::Now => (st, Ty::Datetime),
        KindV::Interval { n, unit, unit_start, unit_end } => {
            let st1 = require(env, st, *n, seq![Ty::Number], "`interval`"@).0;
            if is_unit(lowered(unit)) {
                (st1, Ty::Interval)
            } else {
                (
                    push_finding(
                        st1,
                        "S21"@,
                        FindingSeverity::Error,
                        "`"@ + unit + "` is not an interval unit (use seconds, minutes, hours, days, or weeks)"@,
                        unit_start,
                        unit_end,
                    ),
                    Ty::Interval,
                )
            }
        },
        KindV::Call { name, args } => infer_call(env, st, name, args, e),
        KindV::Case { whens, els } => infer_case(env, st, whens, els),
        KindV::Columns(sel) => {
            let st1 = CkState { findings: st.findings, spans: st.spans.push((e.start, e.end)) };
            (validate_selector(env, st1, sel, e), Ty::Any)
        },
    }
}

/// Require `e` to have a type in `allowed`; `Any` always passes. A
/// `COLUMNS(...)` is required per selected column. Gives `e`'s type.
pub open spec fn require(env: EnvV, st: CkState, e: ExprV, allowed: Seq<Ty>, ctx: Seq<char>) -> (CkState, Ty)
    decreases size(e), 11int,
{
    let (st1, ty) = infer(env, st, e);
    match e.kind {
        KindV::Columns(sel) => (require_columns(env, st1, e, sel, allowed, ctx), ty),
        _ => if ty == Ty::Unknown {
            (report_unknown(st1, e), ty)
        } else if ty != Ty::Any && !allowed.contains(ty) {
            (report(st1, "S21"@, ctx + " expects "@ + nouns_text(allowed) + ", found "@ + ty_noun(ty), e), ty)
        } else {
            (st1, ty)
        },
    }
}

/// Arithmetic: an unknown operand decides nothing, a date or datetime shifted
/// by an interval is a datetime, and otherwise both sides must be numbers.
pub open spec fn infer_arith(env: EnvV, st: CkState, op: ArithOp, lhs: ExprV, rhs: ExprV) -> (CkState, Ty)
    decreases size(lhs) + size(rhs), 9int,
{
    let (st1, lt) = infer(env, st, lhs);
    let (st2, rt) = infer(env, st1, rhs);
    if lt == Ty::Unknown || rt == Ty::Unknown {
        let st3 = if lt == Ty::Unknown {
            report_unknown(st2, lhs)
        } else {
            st2
        };
        (if rt == Ty::Unknown {
            report_unknown(st3, rhs)
        } else {
            st3
        }, Ty::Any)
    } else if (op == ArithOp::Add || op == ArithOp::Sub) && ((is_temporal(lt) && (rt == Ty::Interval
        || rt == Ty::Any)) || (is_temporal(rt) && (lt == Ty::Interval || lt == Ty::Any))) {
        (st2, Ty::Datetime)
    } else {
        let st3 = require(env, st2, lhs, seq![Ty::Number], "arithmetic"@).0;
        (require(env, st3, rhs, seq![Ty::Number], "arithmetic"@).0, Ty::Number)
    }
}

/// A column or field path: the column must exist, every step but the last
/// must be a struct, and each field must exist.
pub open spec fn infer_column_path(env: EnvV, st: CkState, path: Seq<Seq<char>>, e: ExprV) -> (CkState, Ty) {
    match env_column(env, path[0]) {
        None => (report(st, "S20"@, "column `"@ + path[0] + "` is not on this table"@, e), Ty::Any),
        Some(k) => path_walk(env, st, path, 1, k, e),
    }
}

pub open spec fn path_walk(env: EnvV, st: CkState, path: Seq<Seq<char>>, i: int, kind: ColumnKind, e: ExprV) -> (CkState, Ty)
    decreases path.len() - i,
{
    if i < 1 || i >= path.len() {
        (st, spec_kind_to_ty(kind))
    } else {
        let prefix = dotted(path.take(i));
        match kind {
            ColumnKind::Struct => match env_field(env, path.take(i + 1)) {
                None => (report(st, "S20"@, "struct `"@ + prefix + "` has no field `"@ + path[i] + "`"@, e), Ty::Any),
                Some(k) => path_walk(env, st, path, i + 1, k, e),
            },
            ColumnKind::List => (
                report(st, "S21"@, "`"@ + prefix + "` is a list, and a list's elements can't be reached"@, e),
                Ty::Any,
            ),
            _ => (report(st, "S21"@, "`"@ + prefix + "` is "@ + ty_noun(spec_kind_to_ty(kind)) + ", not a struct"@, e), Ty::Any),
        }
    }
}

/// `a` and `b` must be comparable; against a `COLUMNS(...)` each selected
/// column must be.
pub open spec fn check_comparable(env: EnvV, st: CkState, a: ExprV, b: ExprV) -> CkState
    decreases size(a) + size(b), 9int,
{
    match a.kind {
        KindV::Columns(sel) => compare_columns(env, infer(env, st, a).0, a, sel, b),
        _ => match b.kind {
            KindV::Columns(sel) => compare_columns(env, infer(env, st, b).0, b, sel, a),
            _ => {
                let (st1, at) = infer(env, st, a);
                let (st2, bt) = infer(env, st1, b);
                if at == Ty::Unknown || bt == Ty::Unknown {
                    let st3 = if at == Ty::Unknown {
                        report_unknown(st2, a)
                    } else {
                        st2
                    };
                    if bt == Ty::Unknown {
                        report_unknown(st3, b)
                    } else {
                        st3
                    }
                } else if !types_comparable(at, a, bt, b) {
                    report(st2, "S21"@, "cannot compare "@ + ty_noun(at) + " with "@ + ty_noun(bt), b)
                } else {
                    st2
                }
            },
        },
    }
}

/// Each column `cols` selects must be comparable with `other`.
pub open spec fn compare_columns(env: EnvV, st: CkState, cols: ExprV, sel: SelV, other: ExprV) -> CkState
    decreases size(cols) + size(other), 8int,
{
    let (st1, ot) = infer(env, st, other);
    if ot == Ty::Unknown {
        report_unknown(st1, other)
    } else {
        compare_each(st1, cols, matched_columns(env, sel), ot, other)
    }
}

pub open spec fn compare_each(st: CkState, cols: ExprV, m: Seq<(Seq<char>, ColumnKind)>, ot: Ty, other: ExprV) -> CkState
    decreases m.len(),
{
    if m.len() == 0 {
        st
    } else {
        let st1 = compare_each(st, cols, m.drop_last(), ot, other);
        let (name, kind) = m.last();
        let ct = spec_kind_to_ty(kind);
        if ct == Ty::Unknown {
            report(st1, "S23"@, "column `"@ + name + "` has no declared type"@, cols)
        } else if !types_comparable(ct, cols, ot, other) {
            report(
                st1,
                "S21"@,
                "column `"@ + name + "` ("@ + ty_noun(ct) + ") cannot be compared with "@ + ty_noun(ot),
                cols,
            )
        } else {
            st1
        }
    }
}

/// `operand` against each item of an `IN` list from the `i`th.
pub open spec fn in_items(env: EnvV, st: CkState, operand: ExprV, list: Seq<ExprV>, i: int) -> CkState
    decreases size(operand) + sizes_from(list, i), 10int,
{
    if 0 <= i < list.len() {
        proof {
            lemma_sizes_step(list, i);
        }
        in_items(env, check_comparable(env, st, operand, list[i]), operand, list, i + 1)
    } else {
        st
    }
}

/// A call: the function must exist and take this many arguments, and each
/// argument must have a type its signature allows.
pub open spec fn infer_call(env: EnvV, st: CkState, name: Seq<char>, args: Seq<ExprV>, e: ExprV) -> (CkState, Ty)
    decreases sizes_from(args, 0), 13int,
{
    let l = lowered(name);
    match signature(l) {
        None => (infer_all(env, report(st, "S21"@, "unknown function `"@ + name + "`"@, e), args, 0), Ty::Any),
        Some(sig) => {
            let st1 = if sig.lo <= args.len() <= sig.hi {
                st
            } else {
                report(
                    st,
                    "S21"@,
                    "`"@ + uppered(l) + "` takes "@ + arity_text(sig) + " argument(s), found "@ + decimal(args.len()),
                    e,
                )
            };
            let ctx = "`"@ + uppered(l) + "`"@;
            let (st2, first) = call_args(env, st1, sig, ctx, args, 0, None);
            (st2, match sig.ret {
                Some(t) => t,
                None => match (first, sig.arg) {
                    (Some(t), Some(allowed)) => if allowed.contains(t) {
                        t
                    } else {
                        Ty::Any
                    },
                    _ => Ty::Any,
                },
            })
        },
    }
}

/// Each argument from the `i`th, required or inferred as the signature says;
/// also gives the first argument's type.
pub open spec fn call_args(env: EnvV, st: CkState, sig: SigV, ctx: Seq<char>, args: Seq<ExprV>, i: int, first: Option<Ty>) -> (CkState, Option<Ty>)
    decreases sizes_from(args, i), 12int,
{
    if 0 <= i < args.len() {
        let (st1, ty) = match sig.arg {
            Some(allowed) => require(env, st, args[i], allowed, ctx),
            None => infer(env, st, args[i]),
        };
        proof {
            lemma_sizes_step(args, i);
        }
        call_args(env, st1, sig, ctx, args, i + 1, if i == 0 {
            Some(ty)
        } else {
            first
        })
    } else {
        (st, first)
    }
}

/// Each argument from the `i`th, inferred.
pub open spec fn infer_all(env: EnvV, st: CkState, args: Seq<ExprV>, i: int) -> CkState
    decreases sizes_from(args, i), 12int,
{
    if 0 <= i < args.len() {
        proof {
            lemma_sizes_step(args, i);
        }
        infer_all(env, infer(env, st, args[i]).0, args, i + 1)
    } else {
        st
    }
}

/// `CASE`: every condition must be boolean; the result is the branches'
/// common type, `Any` when they differ, and unknown when any branch is.
pub open spec fn infer_case(env: EnvV, st: CkState, whens: Seq<(ExprV, ExprV)>, els: Option<Box<ExprV>>) -> (CkState, Ty)
    decreases pair_sizes_from(whens, 0) + opt_size(els), 13int,
{
    let st1 = case_conds(env, st, whens, els, 0);
    let (st2, result, unknown) = case_branches(env, st1, whens, els, 0, None, false);
    (st2, if unknown {
        Ty::Unknown
    } else {
        match result {
            Some(t) => t,
            None => Ty::Any,
        }
    })
}

pub open spec fn case_conds(env: EnvV, st: CkState, whens: Seq<(ExprV, ExprV)>, els: Option<Box<ExprV>>, i: int) -> CkState
    decreases pair_sizes_from(whens, i) + opt_size(els), 12int,
{
    if 0 <= i < whens.len() {
        proof {
            lemma_pair_sizes_step(whens, i);
        }
        case_conds(env, require(env, st, whens[i].0, seq![Ty::Bool], "a `CASE` condition"@).0, whens, els, i + 1)
    } else {
        st
    }
}

/// The common type so far, folding in branch `t`.
pub open spec fn merge(result: Option<Ty>, t: Ty) -> Option<Ty> {
    match result {
        None => Some(t),
        Some(prev) => if prev == t || t == Ty::Any {
            Some(prev)
        } else if prev == Ty::Any {
            Some(t)
        } else {
            Some(Ty::Any)
        },
    }
}

/// The branches from the `i`th: each `THEN` result, then the `ELSE`.
pub open spec fn case_branches(env: EnvV, st: CkState, whens: Seq<(ExprV, ExprV)>, els: Option<Box<ExprV>>, i: int, result: Option<Ty>, unknown: bool) -> (CkState, Option<Ty>, bool)
    decreases pair_sizes_from(whens, i) + opt_size(els), 12int,
{
    if 0 <= i < whens.len() {
        let (st1, t) = infer(env, st, whens[i].1);
        if t == Ty::Unknown {
            case_branches(env, st1, whens, els, i + 1, result, true)
        } else {
            case_branches(env, st1, whens, els, i + 1, merge(result, t), unknown)
        }
    } else {
        match els {
            Some(x) => {
                let (st1, t) = infer(env, st, *x);
                if t == Ty::Unknown {
                    (st1, result, true)
                } else {
                    (st1, merge(result, t), unknown)
                }
            },
            None => (st, result, unknown),
        }
    }
}

// --- Shapes ----------------------------------------------------------------------

/// The shape of `e`, and the S30 findings for an aggregate of an aggregate.
pub open spec fn shape(st: CkState, e: ExprV) -> (CkState, Shape)
    decreases size(e), 2int,
{
    match e.kind {
        KindV::Number(_) | KindV::Str(_) | KindV::Bool(_) | KindV::Null | KindV::Now => (st, Shape::Const),
        KindV::Column(_) | KindV::Columns(_) => (st, Shape::Row),
        KindV::Neg(x) => shape(st, *x),
        KindV::Not(x) => shape(st, *x),
        KindV::IsNull { operand, .. } => shape(st, *operand),
        KindV::Interval { n, .. } => shape(st, *n),
        KindV::Arith { lhs, rhs, .. } => shape2(st, *lhs, *rhs),
        KindV::Compare { lhs, rhs, .. } => shape2(st, *lhs, *rhs),
        KindV::And(l, r) => shape2(st, *l, *r),
        KindV::Or(l, r) => shape2(st, *l, *r),
        KindV::Like { operand, pattern, .. } => shape2(st, *operand, *pattern),
        KindV::SimilarTo { operand, pattern, .. } => shape2(st, *operand, *pattern),
        KindV::Between { operand, lo, hi, .. } => {
            let (st1, s1) = shape(st, *operand);
            let (st2, s2) = shape(st1, *lo);
            let (st3, s3) = shape(st2, *hi);
            (st3, spec_max_shape(spec_max_shape(s1, s2), s3))
        },
        KindV::In { operand, list, .. } => {
            let (st1, s) = shape(st, *operand);
            shape_items(st1, list, 0, s)
        },
        KindV::Case { whens, els } => {
            let (st1, s) = shape_whens(st, whens, 0, Shape::Const, els);
            match els {
                Some(x) => {
                    let (st2, s2) = shape(st1, *x);
                    (st2, spec_max_shape(s, s2))
                },
                None => (st1, s),
            }
        },
        KindV::Call { name, args } => {
            let aggregate = match signature(lowered(name)) {
                Some(sig) => sig.aggregate,
                None => false,
            };
            let (st1, widest) = shape_args(st, name, aggregate, args, 0, Shape::Const);
            (st1, if aggregate {
                Shape::Agg
            } else {
                widest
            })
        },
    }
}

pub open spec fn shape2(st: CkState, a: ExprV, b: ExprV) -> (CkState, Shape)
    decreases size(a) + size(b), 1int,
{
    let (st1, s1) = shape(st, a);
    let (st2, s2) = shape(st1, b);
    (st2, spec_max_shape(s1, s2))
}

pub open spec fn shape_items(st: CkState, list: Seq<ExprV>, i: int, acc: Shape) -> (CkState, Shape)
    decreases sizes_from(list, i), 3int,
{
    if 0 <= i < list.len() {
        let (st1, s) = shape(st, list[i]);
        proof {
            lemma_sizes_step(list, i);
        }
        shape_items(st1, list, i + 1, spec_max_shape(acc, s))
    } else {
        (st, acc)
    }
}

pub open spec fn shape_whens(st: CkState, whens: Seq<(ExprV, ExprV)>, i: int, acc: Shape, els: Option<Box<ExprV>>) -> (CkState, Shape)
    decreases pair_sizes_from(whens, i), 3int,
{
    if 0 <= i < whens.len() {
        let (st1, s1) = shape(st, whens[i].0);
        let (st2, s2) = shape(st1, whens[i].1);
        proof {
            lemma_pair_sizes_step(whens, i);
        }
        shape_whens(st2, whens, i + 1, spec_max_shape(spec_max_shape(acc, s1), s2), els)
    } else {
        (st, acc)
    }
}

pub open spec fn shape_args(st: CkState, name: Seq<char>, aggregate: bool, args: Seq<ExprV>, i: int, acc: Shape) -> (CkState, Shape)
    decreases sizes_from(args, i), 3int,
{
    if 0 <= i < args.len() {
        let (st1, s) = shape(st, args[i]);
        let st2 = if aggregate && s == Shape::Agg {
            report(st1, "S30"@, "this argument of `"@ + uppered(name) + "` is already an aggregate"@, args[i])
        } else {
            st1
        };
        proof {
            lemma_sizes_step(args, i);
        }
        shape_args(st2, name, aggregate, args, i + 1, spec_max_shape(acc, s))
    } else {
        (st, acc)
    }
}

// --- The whole check -----------------------------------------------------------------

/// Whether `a`'s key `(start, end)` is at or before `b`'s.
pub open spec fn key_le(a: FindingV, b: FindingV) -> bool {
    a.start < b.start || (a.start == b.start && a.end <= b.end)
}

/// `x` placed after every finding whose key is at or before its own.
pub open spec fn insert_sorted(s: Seq<FindingV>, x: FindingV) -> Seq<FindingV>
    decreases s.len(),
{
    if s.len() == 0 {
        seq![x]
    } else if key_le(s.last(), x) {
        s.push(x)
    } else {
        insert_sorted(s.drop_last(), x).push(s.last())
    }
}

/// `s` sorted by `(start, end)`, findings with equal keys in their first
/// order (a stable sort).
pub open spec fn sorted_findings(s: Seq<FindingV>) -> Seq<FindingV>
    decreases s.len(),
{
    if s.len() == 0 {
        s
    } else {
        insert_sorted(sorted_findings(s.drop_last()), s.last())
    }
}

/// `s` without consecutive repeats.
pub open spec fn dedup(s: Seq<FindingV>) -> Seq<FindingV>
    decreases s.len(),
{
    if s.len() <= 1 {
        s
    } else if s.last() == s[s.len() - 2] {
        dedup(s.drop_last())
    } else {
        dedup(s.drop_last()).push(s.last())
    }
}

/// The S21 for each `COLUMNS(...)` past the first, from the `i`th span.
pub open spec fn extra_selections(st: CkState, i: int) -> CkState
    decreases st.spans.len() - i,
{
    if 1 <= i < st.spans.len() {
        extra_selections(
            push_finding(
                st,
                "S21"@,
                FindingSeverity::Error,
                "an assertion may use at most one `COLUMNS(...)`"@,
                st.spans[i].0,
                st.spans[i].1,
            ),
            i + 1,
        )
    } else {
        st
    }
}

/// What checking `root` against `env` finds, in source order.
pub open spec fn check_findings(env: EnvV, root: ExprV, want: Root) -> Seq<FindingV> {
    let st0 = CkState { findings: seq![], spans: seq![] };
    let (st1, ty) = infer(env, st0, root);
    let (st2, _) = shape(st1, root);
    let st3 = if want == Root::Boolean {
        match root.kind {
            KindV::Columns(sel) => require_columns(env, st2, root, sel, seq![Ty::Bool], "an assertion"@),
            _ => if ty == Ty::Unknown {
                report_unknown(st2, root)
            } else if ty != Ty::Bool && ty != Ty::Any {
                report(st2, "S21"@, "this assertion is "@ + ty_noun(ty) + ", not a boolean"@, root)
            } else {
                st2
            },
        }
    } else if ty == Ty::Unknown {
        report_unknown(st2, root)
    } else {
        st2
    };
    dedup(sorted_findings(extra_selections(st3, 1).findings))
}

/// Every column reference in `e` names at least a column.
pub open spec fn paths_named(e: ExprV) -> bool
    decreases size(e), 0int,
{
    match e.kind {
        KindV::Column(path) => path.len() > 0,
        KindV::Neg(x) => paths_named(*x),
        KindV::Not(x) => paths_named(*x),
        KindV::Arith { lhs, rhs, .. } => paths_named(*lhs) && paths_named(*rhs),
        KindV::Compare { lhs, rhs, .. } => paths_named(*lhs) && paths_named(*rhs),
        KindV::And(l, r) => paths_named(*l) && paths_named(*r),
        KindV::Or(l, r) => paths_named(*l) && paths_named(*r),
        KindV::IsNull { operand, .. } => paths_named(*operand),
        KindV::Between { operand, lo, hi, .. } => paths_named(*operand) && paths_named(*lo) && paths_named(*hi),
        KindV::In { operand, list, .. } => paths_named(*operand) && all_named(list, 0),
        KindV::Like { operand, pattern, .. } => paths_named(*operand) && paths_named(*pattern),
        KindV::SimilarTo { operand, pattern, .. } => paths_named(*operand) && paths_named(*pattern),
        KindV::Call { args, .. } => all_named(args, 0),
        KindV::Interval { n, .. } => paths_named(*n),
        KindV::Case { whens, els } => whens_named(whens, 0) && match els {
            Some(x) => paths_named(*x),
            None => true,
        },
        _ => true,
    }
}

pub open spec fn all_named(s: Seq<ExprV>, i: int) -> bool
    decreases sizes_from(s, i), 1int,
{
    if 0 <= i < s.len() {
        proof {
            lemma_sizes_step(s, i);
        }
        paths_named(s[i]) && all_named(s, i + 1)
    } else {
        true
    }
}

pub open spec fn whens_named(s: Seq<(ExprV, ExprV)>, i: int) -> bool
    decreases pair_sizes_from(s, i), 1int,
{
    if 0 <= i < s.len() {
        proof {
            lemma_pair_sizes_step(s, i);
        }
        paths_named(s[i].0) && paths_named(s[i].1) && whens_named(s, i + 1)
    } else {
        true
    }
}


// --- Laws --------------------------------------------------------------------

/// Every function the intermediate form has an operator for is one the checker
/// has a signature for, and the two agree on which of them are aggregates.
pub proof fn law_aggregates_agree_with_signatures(name: Seq<char>)
    requires
        op_named(name) is Some,
    ensures
        signature(name) is Some,
        spec_is_aggregate(op_named(name)->0) == signature(name)->0.aggregate,
{
}

/// `s` is in source order: each finding's span is at or before every later one's.
pub open spec fn in_source_order(s: Seq<FindingV>) -> bool {
    forall|i: int, j: int| 0 <= i < j < s.len() ==> key_le(#[trigger] s[i], #[trigger] s[j])
}

/// No finding of `s` is followed directly by an equal one.
pub open spec fn no_repeats(s: Seq<FindingV>) -> bool {
    forall|i: int, j: int| 0 <= i && j == i + 1 && j < s.len() ==> #[trigger] s[i] != #[trigger] s[j]
}

proof fn lemma_insert_bounded(s: Seq<FindingV>, x: FindingV, b: FindingV)
    requires
        forall|i: int| 0 <= i < s.len() ==> key_le(#[trigger] s[i], b),
        key_le(x, b),
    ensures
        forall|i: int| 0 <= i < insert_sorted(s, x).len() ==> key_le(#[trigger] insert_sorted(s, x)[i], b),
        insert_sorted(s, x).len() == s.len() + 1,
    decreases s.len(),
{
    if s.len() > 0 && !key_le(s.last(), x) {
        lemma_insert_bounded(s.drop_last(), x, b);
        let t = insert_sorted(s.drop_last(), x);
        assert forall|i: int| 0 <= i < t.push(s.last()).len() implies key_le(#[trigger] t.push(s.last())[i], b) by {
            if i < t.len() {
                assert(t.push(s.last())[i] == t[i]);
            }
        }
    }
}

proof fn lemma_insert_sorted(s: Seq<FindingV>, x: FindingV)
    requires
        in_source_order(s),
    ensures
        in_source_order(insert_sorted(s, x)),
        insert_sorted(s, x).len() == s.len() + 1,
    decreases s.len(),
{
    if s.len() == 0 {
    } else if key_le(s.last(), x) {
        let r = s.push(x);
        assert forall|i: int, j: int| 0 <= i < j < r.len() implies key_le(#[trigger] r[i], #[trigger] r[j]) by {
            if j == s.len() {
                assert(key_le(s[i], s[s.len() - 1]));
            } else {
                assert(r[i] == s[i] && r[j] == s[j]);
            }
        }
    } else {
        let d = s.drop_last();
        assert(in_source_order(d)) by {
            assert forall|i: int, j: int| 0 <= i < j < d.len() implies key_le(#[trigger] d[i], #[trigger] d[j]) by {
                assert(d[i] == s[i] && d[j] == s[j]);
            }
        }
        lemma_insert_sorted(d, x);
        let t = insert_sorted(d, x);
        assert forall|i: int| 0 <= i < d.len() implies key_le(#[trigger] d[i], s.last()) by {
            assert(d[i] == s[i]);
            assert(key_le(s[i], s[s.len() - 1]));
        }
        lemma_insert_bounded(d, x, s.last());
        let r = t.push(s.last());
        assert forall|i: int, j: int| 0 <= i < j < r.len() implies key_le(#[trigger] r[i], #[trigger] r[j]) by {
            if j == t.len() {
                assert(r[i] == t[i]);
                assert(key_le(t[i], s.last()));
            } else {
                assert(r[i] == t[i] && r[j] == t[j]);
            }
        }
    }
}

proof fn lemma_sorted_findings(s: Seq<FindingV>)
    ensures
        in_source_order(sorted_findings(s)),
    decreases s.len(),
{
    if s.len() > 0 {
        lemma_sorted_findings(s.drop_last());
        lemma_insert_sorted(sorted_findings(s.drop_last()), s.last());
    }
}

proof fn lemma_dedup(s: Seq<FindingV>, b: FindingV)
    requires
        in_source_order(s),
    ensures
        in_source_order(dedup(s)),
        no_repeats(dedup(s)),
        s.len() > 0 ==> dedup(s).len() > 0 && dedup(s).last() == s.last(),
        (forall|i: int| 0 <= i < s.len() ==> key_le(#[trigger] s[i], b)) ==> forall|i: int|
            0 <= i < dedup(s).len() ==> key_le(#[trigger] dedup(s)[i], b),
    decreases s.len(),
{
    if s.len() > 1 {
        let d = s.drop_last();
        assert(in_source_order(d)) by {
            assert forall|i: int, j: int| 0 <= i < j < d.len() implies key_le(#[trigger] d[i], #[trigger] d[j]) by {
                assert(d[i] == s[i] && d[j] == s[j]);
            }
        }
        lemma_dedup(d, b);
        lemma_dedup(d, s.last());
        assert(d.last() == s[s.len() - 2]);
        assert forall|i: int| 0 <= i < d.len() implies key_le(#[trigger] d[i], s.last()) by {
            assert(d[i] == s[i]);
            assert(key_le(s[i], s[s.len() - 1]));
        }
        if (forall|i: int| 0 <= i < s.len() ==> key_le(#[trigger] s[i], b)) {
            assert forall|i: int| 0 <= i < d.len() implies key_le(#[trigger] d[i], b) by {
                assert(d[i] == s[i]);
            }
        }
        if s.last() != s[s.len() - 2] {
            let e = dedup(d);
            let r = e.push(s.last());
            assert forall|i: int, j: int| 0 <= i < j < r.len() implies key_le(#[trigger] r[i], #[trigger] r[j]) by {
                if j == e.len() {
                    assert(r[i] == e[i]);
                } else {
                    assert(r[i] == e[i] && r[j] == e[j]);
                }
            }
            assert forall|i: int, j: int| 0 <= i && j == i + 1 && j < r.len() implies #[trigger] r[i] != #[trigger] r[j] by {
                if j == e.len() {
                    assert(r[i] == e.last());
                } else {
                    assert(r[i] == e[i] && r[j] == e[j]);
                }
            }
            if (forall|i: int| 0 <= i < s.len() ==> key_le(#[trigger] s[i], b)) {
                assert forall|i: int| 0 <= i < r.len() implies key_le(#[trigger] r[i], b) by {
                    if i == e.len() {
                        assert(key_le(s[s.len() - 1], b));
                    } else {
                        assert(r[i] == e[i]);
                    }
                }
            }
        }
    } else if s.len() == 1 {
        assert(s.last() == s[0]);
    }
}

/// What the checker reports comes in source order, with no finding repeated
/// back to back.
pub proof fn law_findings_in_source_order(env: EnvV, root: ExprV, want: Root)
    ensures
        in_source_order(check_findings(env, root, want)),
        no_repeats(check_findings(env, root, want)),
{
    let st0 = CkState { findings: seq![], spans: seq![] };
    let (st1, ty) = infer(env, st0, root);
    let (st2, _) = shape(st1, root);
    let st3 = if want == Root::Boolean {
        match root.kind {
            KindV::Columns(sel) => require_columns(env, st2, root, sel, seq![Ty::Bool], "an assertion"@),
            _ => if ty == Ty::Unknown {
                report_unknown(st2, root)
            } else if ty != Ty::Bool && ty != Ty::Any {
                report(st2, "S21"@, "this assertion is "@ + ty_noun(ty) + ", not a boolean"@, root)
            } else {
                st2
            },
        }
    } else if ty == Ty::Unknown {
        report_unknown(st2, root)
    } else {
        st2
    };
    let fs = extra_selections(st3, 1).findings;
    lemma_sorted_findings(fs);
    lemma_dedup(sorted_findings(fs), fs[0]);
}

} // verus!
