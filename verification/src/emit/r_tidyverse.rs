//! `R(tidyverse)`: dplyr and stringr.
//!
//! R's `&`, `|` and `!` are already three-valued over `NA`, so the logic needs
//! nothing. Three things do need work: `%in%` answers `FALSE` for an `NA`
//! subject where the language says null, `%%` takes its sign from the divisor
//! where the language takes it from the dividend, and adding a duration to a
//! `Date` keeps it a `Date` where the language produces a datetime. Each is
//! guarded, so those three are exact rather than approximate. Where R agrees
//! only up to a documented edge, the construct attaches its note by being
//! used.

use vstd::prelude::*;

use super::canonical::{mentions_selected, clock_string, clock_text, date_string, date_text, signed_string, signed_text};
use super::{needs_parens, r_name, r_string, r_unit, wraps, Emitted, RTidyverse, Side, Unsupported};
use crate::assert_expr::ir::{
    lemma_view_tlist, lemma_view_twhens, view_colref, view_colrefs, view_like, view_selection, view_opt_selection, view_texpr, view_tkind,
    op_name, view_tlist, view_twhens, LikePattern, NodeKind, Selection, TypedAssertion, TypedExpr,
};
use crate::assert_expr::lowering::{ColRefV, LikeV, SelectionV, TExprV, TKindV};
use crate::assert_expr::parse::view_path;
use crate::assert_expr::{ArithOp, CivilDate, CivilDateTime, CmpOp, DatetimeConst, Op, Type};
use crate::text::{decimal, decimal_u64};
use vstd::string::StringSliceAdditionalSpecFns;
use chrono::{Datelike, Timelike};

verus! {

// R's precedence, which differs from SQL's in one place that matters: an
// infix `%…%` operator binds tighter than `*` and `/`, so `%in%` has a level
// of its own above them.
pub const R_OR: u8 = 1;
pub const R_AND: u8 = 2;
pub const R_NOT: u8 = 3;
pub const R_CMP: u8 = 4;
pub const R_ADD: u8 = 5;
pub const R_MUL: u8 = 6;
pub const R_SPECIAL: u8 = 7;
pub const R_NEG: u8 = 8;
pub const R_ATOM: u8 = 9;
/// A position that delimits its own contents.
pub const R_DELIMITED: u8 = 0;

// --- Notes ---------------------------------------------------------------------------

pub const DIVISION: &'static str = "R yields Inf when dividing by zero, where data-dict reports it (D10).";
pub const MODULO_ZERO: &'static str = "R yields NaN for a zero modulus, where data-dict reports it (D10).";
pub const ROUNDING: &'static str = "R rounds halves to even, where data-dict rounds them away from zero, so results differ on an exact half.";
pub const REGEX: &'static str = "stringr matches with ICU regular expressions, where data-dict uses RE2; the syntaxes differ in corners.";
pub const EMPTY_FOLD: &'static str = "R folds an empty or all-null column to the identity (0, FALSE, TRUE, Inf) where data-dict returns null, so an aggregate assertion differs on such a column.";
pub const OVERFLOW: &'static str = "R has no 64-bit integers, so arithmetic data-dict reports as an overflow (D09) yields a double here.";

/// Which of the divergence notes a translation has used.
#[derive(Debug, Clone, Copy, PartialEq, Eq, Structural)]
pub struct Used {
    pub empty_fold: bool,
    pub overflow: bool,
    pub rounding: bool,
    pub division: bool,
    pub modulo_zero: bool,
    pub regex: bool,
}

pub open spec fn none_used() -> Used {
    Used { empty_fold: false, overflow: false, rounding: false, division: false, modulo_zero: false, regex: false }
}

pub open spec fn just(
    empty_fold: bool,
    overflow: bool,
    rounding: bool,
    division: bool,
    modulo_zero: bool,
    regex: bool,
) -> Used {
    Used { empty_fold, overflow, rounding, division, modulo_zero, regex }
}

pub open spec fn either(a: Used, b: Used) -> Used {
    Used {
        empty_fold: a.empty_fold || b.empty_fold,
        overflow: a.overflow || b.overflow,
        rounding: a.rounding || b.rounding,
        division: a.division || b.division,
        modulo_zero: a.modulo_zero || b.modulo_zero,
        regex: a.regex || b.regex,
    }
}

/// The notes a node attaches by itself.
pub open spec fn node_notes(t: TExprV) -> Used {
    match t.kind {
        TKindV::Arith { op: ArithOp::Div, .. } => just(false, false, false, true, false, false),
        TKindV::Like { pattern: LikeV::Regex(_), .. } => just(false, false, false, false, false, true),
        TKindV::SimilarTo { .. } => just(false, false, false, false, false, true),
        TKindV::Func { op, .. } => match op {
            Op::Round => just(false, false, true, false, false, false),
            Op::Mod => just(false, false, false, false, true, false),
            Op::Sum => just(true, true, false, false, false, false),
            Op::Min | Op::Max | Op::Avg | Op::Any | Op::All => just(true, false, false, false, false, false),
            _ => none_used(),
        },
        _ => none_used(),
    }
}

/// The notes in the order they are listed: ordered as their texts are.
pub open spec fn listed_notes(u: Used) -> Seq<Seq<char>> {
    (if u.empty_fold { seq![EMPTY_FOLD@] } else { seq![] }) + (if u.overflow { seq![OVERFLOW@] } else { seq![] })
        + (if u.rounding { seq![ROUNDING@] } else { seq![] }) + (if u.division { seq![DIVISION@] } else { seq![] })
        + (if u.modulo_zero { seq![MODULO_ZERO@] } else { seq![] }) + (if u.regex { seq![REGEX@] } else { seq![] })
}

// --- What a tree needs ------------------------------------------------------------------

/// A chrono name for the UTC date and time of a local one at an offset east
/// of UTC, as `NaiveDateTime::checked_sub_offset` computes it; `None` when
/// chrono has no such date and time.
pub uninterp spec fn chrono_naive_utc(
    year: i32,
    month: u32,
    day: u32,
    hour: u32,
    minute: u32,
    second: u32,
    nanosecond: u32,
    offset_seconds: i32,
) -> Option<(i32, u32, u32, u32, u32, u32, u32)>;

pub open spec fn utc_of(local: CivilDateTime, offset_seconds: i32) -> Option<(i32, u32, u32, u32, u32, u32, u32)> {
    chrono_naive_utc(
        local.date.year,
        local.date.month,
        local.date.day,
        local.hour,
        local.minute,
        local.second,
        local.nanosecond,
        offset_seconds,
    )
}

/// `NaiveDateTime::checked_sub_offset`: the UTC date and time of a local
/// one at `offset_seconds` east of UTC, built from its parts by chrono;
/// `None` when chrono has no such date, time or offset, or the result leaves
/// its range. The contract names chrono's answer and claims nothing of it.
#[verifier::external_body]
fn naive_utc(local: CivilDateTime, offset_seconds: i32) -> (r: Option<(i32, u32, u32, u32, u32, u32, u32)>)
    ensures
        r == chrono_naive_utc(
            local.date.year,
            local.date.month,
            local.date.day,
            local.hour,
            local.minute,
            local.second,
            local.nanosecond,
            offset_seconds,
        ),
{
    let d = chrono::NaiveDate::from_ymd_opt(local.date.year, local.date.month, local.date.day)?;
    let t = d.and_hms_nano_opt(local.hour, local.minute, local.second, local.nanosecond)?;
    let u = t.checked_sub_offset(chrono::FixedOffset::east_opt(offset_seconds)?)?;
    Some((u.year(), u.month(), u.day(), u.hour(), u.minute(), u.second(), u.nanosecond()))
}

pub open spec fn civil_of(p: (i32, u32, u32, u32, u32, u32, u32)) -> CivilDateTime {
    CivilDateTime { date: CivilDate { year: p.0, month: p.1, day: p.2 }, hour: p.3, minute: p.4, second: p.5, nanosecond: p.6 }
}

/// Whether R can write the node itself: a `LIKE` pattern must be a literal,
/// and an offset datetime must have a UTC time.
pub open spec fn node_writable(t: TExprV) -> bool {
    match t.kind {
        TKindV::Like { pattern: LikeV::Dynamic(_), .. } => false,
        TKindV::Datetime(DatetimeConst::Offset { local, offset_seconds }) => utc_of(local, offset_seconds) is Some,
        _ => true,
    }
}

/// Whether a function node has the arguments its spelling reads.
pub open spec fn node_shaped(t: TExprV) -> bool {
    match t.kind {
        TKindV::Func { op, args } => match op {
            Op::StartsWith | Op::EndsWith | Op::Mod => args.len() >= 2,
            Op::Min | Op::Max | Op::Sum | Op::Avg | Op::Any | Op::All | Op::Count | Op::CountDistinct => args.len()
                >= 1,
            _ => true,
        },
        _ => true,
    }
}

/// A fact of every node of a tree that is written.
pub open spec fn r_all(t: TExprV, shaped: bool) -> bool
    decreases t, 1int,
{
    (if shaped { node_shaped(t) } else { node_writable(t) }) && match t.kind {
        TKindV::Neg(x) => r_all(*x, shaped),
        TKindV::Not(x) => r_all(*x, shaped),
        TKindV::Arith { lhs, rhs, .. } => r_all(*lhs, shaped) && r_all(*rhs, shaped),
        TKindV::Compare { lhs, rhs, .. } => r_all(*lhs, shaped) && r_all(*rhs, shaped),
        TKindV::And(l, r) => r_all(*l, shaped) && r_all(*r, shaped),
        TKindV::Or(l, r) => r_all(*l, shaped) && r_all(*r, shaped),
        TKindV::IsNull { operand, .. } => r_all(*operand, shaped),
        TKindV::Between { operand, lo, hi, .. } => r_all(*operand, shaped) && r_all(*lo, shaped) && r_all(*hi, shaped),
        TKindV::In { operand, list, .. } => r_all(*operand, shaped) && r_all_list(list, shaped),
        TKindV::Like { operand, pattern, .. } => r_all(*operand, shaped),
        TKindV::SimilarTo { operand, pattern, .. } => r_all(*operand, shaped) && r_all(*pattern, shaped),
        TKindV::Interval { n, .. } => r_all(*n, shaped),
        TKindV::Func { op, args } => match op {
            Op::StartsWith | Op::EndsWith | Op::Mod => (args.len() > 0 ==> r_all(args[0], shaped)) && (args.len() > 1
                ==> r_all(args[1], shaped)),
            Op::Min | Op::Max | Op::Sum | Op::Avg | Op::Any | Op::All | Op::Count | Op::CountDistinct => args.len() > 0
                ==> r_all(args[0], shaped),
            Op::RowCount => true,
            _ => r_all_list(args, shaped),
        },
        TKindV::Case { whens, els } => r_all_whens(whens, shaped) && match els {
            Some(x) => r_all(*x, shaped),
            None => true,
        },
        _ => true,
    }
}

pub open spec fn r_all_list(s: Seq<TExprV>, shaped: bool) -> bool
    decreases s, 0int,
{
    if s.len() == 0 {
        true
    } else {
        r_all_list(s.drop_last(), shaped) && r_all(s.last(), shaped)
    }
}

pub open spec fn r_all_whens(s: Seq<(TExprV, TExprV)>, shaped: bool) -> bool
    decreases s, 0int,
{
    if s.len() == 0 {
        true
    } else {
        r_all_whens(s.drop_last(), shaped) && r_all(s.last().0, shaped) && r_all(s.last().1, shaped)
    }
}

/// Every function of the tree has the arguments its spelling reads.
pub open spec fn r_shaped(t: TExprV) -> bool {
    r_all(t, true)
}

/// R can write every node of the tree.
pub open spec fn r_writable(t: TExprV) -> bool {
    r_all(t, false)
}

/// The notes the nodes of a tree attach.
pub open spec fn r_notes(t: TExprV) -> Used
    decreases t, 1int,
{
    either(node_notes(t), match t.kind {
        TKindV::Neg(x) => r_notes(*x),
        TKindV::Not(x) => r_notes(*x),
        TKindV::Arith { lhs, rhs, .. } => either(r_notes(*lhs), r_notes(*rhs)),
        TKindV::Compare { lhs, rhs, .. } => either(r_notes(*lhs), r_notes(*rhs)),
        TKindV::And(l, r) => either(r_notes(*l), r_notes(*r)),
        TKindV::Or(l, r) => either(r_notes(*l), r_notes(*r)),
        TKindV::IsNull { operand, .. } => r_notes(*operand),
        TKindV::Between { operand, lo, hi, .. } => either(either(r_notes(*operand), r_notes(*lo)), r_notes(*hi)),
        TKindV::In { operand, list, .. } => either(r_notes(*operand), r_notes_list(list)),
        TKindV::Like { operand, .. } => r_notes(*operand),
        TKindV::SimilarTo { operand, pattern, .. } => either(r_notes(*operand), r_notes(*pattern)),
        TKindV::Interval { n, .. } => r_notes(*n),
        TKindV::Func { op, args } => match op {
            Op::StartsWith | Op::EndsWith | Op::Mod => either(
                if args.len() > 0 { r_notes(args[0]) } else { none_used() },
                if args.len() > 1 { r_notes(args[1]) } else { none_used() },
            ),
            Op::Min | Op::Max | Op::Sum | Op::Avg | Op::Any | Op::All | Op::Count | Op::CountDistinct => if args.len()
                > 0 {
                r_notes(args[0])
            } else {
                none_used()
            },
            Op::RowCount => none_used(),
            _ => r_notes_list(args),
        },
        TKindV::Case { whens, els } => either(r_notes_whens(whens), match els {
            Some(x) => r_notes(*x),
            None => none_used(),
        }),
        _ => none_used(),
    })
}

pub open spec fn r_notes_list(s: Seq<TExprV>) -> Used
    decreases s, 0int,
{
    if s.len() == 0 {
        none_used()
    } else {
        either(r_notes_list(s.drop_last()), r_notes(s.last()))
    }
}

pub open spec fn r_notes_whens(s: Seq<(TExprV, TExprV)>) -> Used
    decreases s, 0int,
{
    if s.len() == 0 {
        none_used()
    } else {
        either(either(r_notes_whens(s.drop_last()), r_notes(s.last().0)), r_notes(s.last().1))
    }
}

// --- Spelling the leaves -------------------------------------------------------------

/// `n` in decimal, zero-padded to `w` digits.
pub open spec fn padded(n: nat, w: nat) -> Seq<char> {
    let d = decimal(n);
    if d.len() >= w {
        d
    } else {
        Seq::new((w - d.len()) as nat, |i: int| '0') + d
    }
}

/// The fraction of a second `chrono` shows: none, or three, six or nine
/// digits, the fewest that hold it. A leap second's nanoseconds count past
/// one second.
pub open spec fn fraction_text(nanosecond: u32) -> Seq<char> {
    let nano = if nanosecond >= 1_000_000_000 { nanosecond - 1_000_000_000 } else { nanosecond as int };
    if nano == 0 {
        seq![]
    } else if nano % 1_000_000 == 0 {
        "."@ + padded((nano / 1_000_000) as nat, 3)
    } else if nano % 1000 == 0 {
        "."@ + padded((nano / 1000) as nat, 6)
    } else {
        "."@ + padded(nano as nat, 9)
    }
}

/// How `chrono` displays a date and time without a zone.
pub open spec fn naive_text(t: CivilDateTime) -> Seq<char> {
    date_text(t.date) + " "@ + clock_text(t) + fraction_text(t.nanosecond)
}

/// The UTC date and time R is given for a datetime.
pub open spec fn r_datetime_text(d: DatetimeConst) -> Seq<char> {
    match d {
        DatetimeConst::Offset { local, offset_seconds } => naive_text(civil_of(utc_of(local, offset_seconds)->0)),
        DatetimeConst::Naive(local) => naive_text(local),
    }
}

/// A number as written, with `.0` added when it would otherwise read as an
/// integer.
pub open spec fn r_float_text(text: Seq<char>) -> Seq<char> {
    if exists|i: int| 0 <= i < text.len() && (text[i] == '.' || text[i] == 'e' || text[i] == 'E' || text[i] == 'n' || text[i] == 'i') {
        text
    } else {
        text + ".0"@
    }
}

/// A column or field path: each segment a name, joined by `$`.
pub open spec fn r_column(path: Seq<Seq<char>>) -> Seq<char>
    decreases path.len(),
{
    if path.len() == 0 {
        seq![]
    } else if path.len() == 1 {
        r_name(path[0])
    } else {
        r_column(path.drop_last()) + "$"@ + r_name(path.last())
    }
}

// --- The tree -------------------------------------------------------------------------

/// The precedence a node is written at. A guarded `IN` is an `|` and a
/// guarded modulus a subtraction: both sit where their written form sits.
pub open spec fn r_prec(t: TExprV) -> u8 {
    match t.kind {
        TKindV::Or(..) => R_OR,
        TKindV::In { .. } => R_OR,
        TKindV::Func { op: Op::Mod, .. } => R_ADD,
        TKindV::And(..) => R_AND,
        TKindV::Not(_) => R_NOT,
        TKindV::Compare { .. } | TKindV::Between { .. } => R_CMP,
        TKindV::Arith { op, .. } => match op {
            ArithOp::Add | ArithOp::Sub => R_ADD,
            ArithOp::Mul | ArithOp::Div => R_MUL,
        },
        TKindV::Neg(_) => R_NEG,
        _ => R_ATOM,
    }
}

pub open spec fn r_comparison(op: CmpOp) -> Seq<char> {
    match op {
        CmpOp::Eq => "=="@,
        CmpOp::Ne => "!="@,
        CmpOp::Lt => "<"@,
        CmpOp::Le => "<="@,
        CmpOp::Gt => ">"@,
        CmpOp::Ge => ">="@,
    }
}

pub open spec fn r_arith(op: ArithOp) -> Seq<char> {
    match op {
        ArithOp::Add => "+"@,
        ArithOp::Sub => "-"@,
        ArithOp::Mul => "*"@,
        ArithOp::Div => "/"@,
    }
}

pub open spec fn r_arith_level(op: ArithOp) -> u8 {
    match op {
        ArithOp::Add | ArithOp::Sub => R_ADD,
        ArithOp::Mul | ArithOp::Div => R_MUL,
    }
}

pub open spec fn bang(negated: bool) -> Seq<char> {
    if negated { "!"@ } else { seq![] }
}

/// What each function is called in R when it is a plain call.
pub open spec fn r_call_name(op: Op) -> Seq<char> {
    match op {
        Op::Length => "str_length"@,
        Op::Lower => "str_to_lower"@,
        Op::Upper => "str_to_upper"@,
        Op::Trim => "str_trim"@,
        Op::StartsWith => "str_starts"@,
        Op::EndsWith => "str_ends"@,
        Op::Abs => "abs"@,
        Op::Floor => "floor"@,
        Op::Ceil => "ceiling"@,
        Op::Round => "round"@,
        Op::Min => "min"@,
        Op::Max => "max"@,
        Op::Sum => "sum"@,
        Op::Avg => "mean"@,
        Op::Any => "any"@,
        Op::All => "all"@,
        Op::CountDistinct => "n_distinct"@,
        Op::Count => "sum"@,
        Op::Mod => seq![],
        Op::RowCount => "n"@,
    }
}

/// `t` as an operand of an operator at `parent`, in parentheses where R would
/// otherwise regroup it. `sel` is what a selected column is written as.
pub open spec fn r_child(parent: u8, side: Side, t: TExprV, sel: Seq<char>) -> Seq<char>
    decreases t, 2int,
{
    if wraps(r_prec(t), parent, side) {
        "("@ + r_text(t, sel) + ")"@
    } else {
        r_text(t, sel)
    }
}

/// A `SIMILAR TO` pattern, anchored, since `str_detect` matches anywhere.
pub open spec fn r_anchored(pattern: TExprV, sel: Seq<char>) -> Seq<char>
    decreases pattern, 3int,
{
    match pattern.kind {
        TKindV::Str(text) => r_string("^(?:"@ + text + ")$"@),
        _ => "paste0(\"^(?:\", "@ + r_child(R_DELIMITED, Side::Free, pattern, sel) + ", \")$\")"@,
    }
}

/// A sum or difference with a duration. A `Date` base is promoted to a
/// datetime first, as the language makes the result one.
pub open spec fn r_shift(t: TExprV, sel: Seq<char>) -> Seq<char>
    decreases t, 0int,
{
    match t.kind {
        TKindV::Arith { op, lhs, rhs } => {
            let base = if lhs.ty == Type::Interval { *rhs } else { *lhs };
            let duration = if lhs.ty == Type::Interval { *lhs } else { *rhs };
            (if base.ty == Type::Date {
                "as.POSIXct("@ + r_child(R_DELIMITED, Side::Free, base, sel) + ", tz = \"UTC\")"@
            } else {
                r_child(R_ADD, Side::Left, base, sel)
            }) + (if op == ArithOp::Sub { " - "@ } else { " + "@ }) + r_child(R_ADD, Side::Right, duration, sel)
        },
        _ => seq![],
    }
}

/// A node written by itself.
pub open spec fn r_text(t: TExprV, sel: Seq<char>) -> Seq<char>
    decreases t, 1int,
{
    match t.kind {
        TKindV::Int(n) => signed_text(n as int) + "L"@,
        TKindV::Float(text) => r_float_text(text),
        TKindV::Str(s) => r_string(s),
        TKindV::Bool(b) => if b { "TRUE"@ } else { "FALSE"@ },
        TKindV::Null => "NA"@,
        TKindV::Date(d) => "as.Date(\""@ + date_text(d) + "\")"@,
        TKindV::Datetime(x) => "as.POSIXct(\""@ + r_datetime_text(x) + "\", tz = \"UTC\")"@,
        TKindV::Now => "Sys.time()"@,
        TKindV::Column(c) => r_column(c.path),
        TKindV::Selected => sel,
        TKindV::Neg(x) => "-"@ + r_child(R_NEG, Side::Right, *x, sel),
        TKindV::Not(x) => "!"@ + r_child(R_NOT, Side::Right, *x, sel),
        TKindV::And(l, r) => r_child(R_AND, Side::Left, *l, sel) + " & "@ + r_child(R_AND, Side::Right, *r, sel),
        TKindV::Or(l, r) => r_child(R_OR, Side::Left, *l, sel) + " | "@ + r_child(R_OR, Side::Right, *r, sel),
        TKindV::Arith { op, lhs, rhs } => if lhs.ty == Type::Interval || rhs.ty == Type::Interval {
            r_shift(t, sel)
        } else {
            r_child(r_arith_level(op), Side::Left, *lhs, sel) + " "@ + r_arith(op) + " "@ + r_child(
                r_arith_level(op),
                Side::Right,
                *rhs,
                sel,
            )
        },
        TKindV::Compare { op, lhs, rhs } => r_child(R_CMP, Side::Left, *lhs, sel) + " "@ + r_comparison(op) + " "@
            + r_child(R_CMP, Side::Right, *rhs, sel),
        TKindV::IsNull { operand, negated } => bang(negated) + "is.na("@ + r_child(R_DELIMITED, Side::Free, *operand, sel)
            + ")"@,
        TKindV::Between { operand, lo, hi, negated } => bang(negated) + "between("@ + r_child(
            R_DELIMITED,
            Side::Free,
            *operand,
            sel,
        ) + ", "@ + r_child(R_DELIMITED, Side::Free, *lo, sel) + ", "@ + r_child(R_DELIMITED, Side::Free, *hi, sel)
            + ")"@,
        TKindV::In { operand, list, negated } => "is.na("@ + r_child(R_DELIMITED, Side::Free, *operand, sel) + ") | "@
            + bang(negated) + "("@ + r_child(R_SPECIAL, Side::Left, *operand, sel) + " %in% c("@ + r_list(list, sel)
            + "))"@,
        TKindV::Like { operand, pattern, negated } => match pattern {
            LikeV::Exact(text) => r_child(R_CMP, Side::Left, *operand, sel) + (if negated { " != "@ } else { " == "@ })
                + r_string(text),
            LikeV::Prefix(text) => bang(negated) + "str_starts("@ + r_child(R_DELIMITED, Side::Free, *operand, sel)
                + ", fixed("@ + r_string(text) + "))"@,
            LikeV::Suffix(text) => bang(negated) + "str_ends("@ + r_child(R_DELIMITED, Side::Free, *operand, sel)
                + ", fixed("@ + r_string(text) + "))"@,
            LikeV::Regex(re) => bang(negated) + "str_detect("@ + r_child(R_DELIMITED, Side::Free, *operand, sel) + ", "@
                + r_string(re) + ")"@,
            LikeV::Dynamic(_) => seq![],
        },
        TKindV::SimilarTo { operand, pattern, negated } => bang(negated) + "str_detect("@ + r_child(
            R_DELIMITED,
            Side::Free,
            *operand,
            sel,
        ) + ", "@ + r_anchored(*pattern, sel) + ")"@,
        TKindV::Interval { n, unit } => "as.difftime("@ + r_child(R_DELIMITED, Side::Free, *n, sel) + ", units = \""@
            + r_unit(unit) + "\")"@,
        TKindV::Case { whens, els } => "case_when("@ + r_whens(whens, sel) + match els {
            Some(x) => ".default = "@ + r_child(R_DELIMITED, Side::Free, *x, sel),
            None => ".default = NA"@,
        } + ")"@,
        TKindV::Func { op, args } => r_func(op, args, sel),
    }
}

/// A function call as R spells it.
pub open spec fn r_func(op: Op, args: Seq<TExprV>, sel: Seq<char>) -> Seq<char>
    decreases args, 1int,
{
    match op {
        Op::StartsWith | Op::EndsWith => if args.len() >= 2 {
            r_call_name(op) + "("@ + r_child(R_DELIMITED, Side::Free, args[0], sel) + ", fixed("@ + r_child(
                R_DELIMITED,
                Side::Free,
                args[1],
                sel,
            ) + "))"@
        } else {
            seq![]
        },
        Op::Mod => if args.len() >= 2 {
            r_child(R_ADD, Side::Left, args[0], sel) + " - "@ + r_child(R_MUL, Side::Right, args[1], sel)
                + " * trunc("@ + r_child(R_DELIMITED, Side::Free, args[0], sel) + " / "@ + r_child(
                R_DELIMITED,
                Side::Free,
                args[1],
                sel,
            ) + ")"@
        } else {
            seq![]
        },
        Op::Min | Op::Max | Op::Sum | Op::Avg | Op::Any | Op::All | Op::CountDistinct => if args.len() >= 1 {
            r_call_name(op) + "("@ + r_child(R_DELIMITED, Side::Free, args[0], sel) + ", na.rm = TRUE)"@
        } else {
            seq![]
        },
        Op::Count => if args.len() >= 1 {
            "sum(!is.na("@ + r_child(R_DELIMITED, Side::Free, args[0], sel) + "))"@
        } else {
            seq![]
        },
        Op::RowCount => "n()"@,
        _ => r_call_name(op) + "("@ + r_list(args, sel) + ")"@,
    }
}

/// Items in delimited positions, joined by commas.
pub open spec fn r_list(s: Seq<TExprV>, sel: Seq<char>) -> Seq<char>
    decreases s, 0int,
{
    if s.len() == 0 {
        seq![]
    } else if s.len() == 1 {
        r_child(R_DELIMITED, Side::Free, s[0], sel)
    } else {
        r_list(s.drop_last(), sel) + ", "@ + r_child(R_DELIMITED, Side::Free, s.last(), sel)
    }
}

/// The `condition ~ result, ` arms of a `case_when`.
pub open spec fn r_whens(s: Seq<(TExprV, TExprV)>, sel: Seq<char>) -> Seq<char>
    decreases s, 0int,
{
    if s.len() == 0 {
        seq![]
    } else {
        r_whens(s.drop_last(), sel) + r_child(R_DELIMITED, Side::Free, s.last().0, sel) + " ~ "@ + r_child(
            R_DELIMITED,
            Side::Free,
            s.last().1,
            sel,
        ) + ", "@
    }
}

/// The columns of a selection, each written as R names it, and the
/// assertion written once for each, joined by `&`.
pub open spec fn r_expanded(root: TExprV, cols: Seq<ColRefV>) -> Seq<char>
    decreases cols.len(),
{
    if cols.len() == 0 {
        seq![]
    } else {
        r_expanded(root, cols.drop_last()) + (if cols.len() > 1 { " & "@ } else { seq![] }) + r_child(
            R_AND,
            Side::Free,
            root,
            r_column(cols.last().path),
        )
    }
}

/// What R is given for an assertion: the tree, or, for a selection, the tree
/// once for each column it resolved to.
pub open spec fn r_assertion_text(root: TExprV, sel: Option<SelectionV>) -> Seq<char> {
    match sel {
        Some(x) => r_expanded(root, x.columns),
        None => r_text(root, seq![]),
    }
}

/// Whether the tree is written at all: not for a selection that resolved to
/// no column.
pub open spec fn r_written(sel: Option<SelectionV>) -> bool {
    !(sel matches Some(x) && x.columns.len() == 0)
}

/// The notes an assertion's translation attaches.
pub open spec fn r_assertion_notes(root: TExprV, sel: Option<SelectionV>) -> Seq<Seq<char>> {
    listed_notes(if r_written(sel) { r_notes(root) } else { none_used() })
}

// --- Writing the leaves ----------------------------------------------------------------

/// `n` in decimal, zero-padded to `w` digits.
fn padded_string(n: u64, w: usize) -> (r: String)
    ensures
        r@ == padded(n as nat, w as nat),
{
    let d = decimal_u64(n);
    if d.as_str().unicode_len() >= w {
        return d;
    }
    let k = w - d.as_str().unicode_len();
    let mut out = String::new();
    let mut i: usize = 0;
    while i < k
        invariant
            i <= k,
            out@ == Seq::new(i as nat, |j: int| '0'),
        decreases k - i,
    {
        out.append("0");
        proof {
            reveal_strlit("0");
        }
        assert(out@ =~= Seq::new((i + 1) as nat, |j: int| '0'));
        i = i + 1;
    }
    out.append(d.as_str());
    out
}

/// The fraction of a second as `chrono` shows it.
fn fraction_string(nanosecond: u32) -> (r: String)
    ensures
        r@ == fraction_text(nanosecond),
{
    let nano: u32 = if nanosecond >= 1_000_000_000 {
        nanosecond - 1_000_000_000
    } else {
        nanosecond
    };
    if nano == 0 {
        return String::new();
    }
    let mut out = String::from_str(".");
    let digits = if nano % 1_000_000 == 0 {
        padded_string((nano / 1_000_000) as u64, 3)
    } else if nano % 1000 == 0 {
        padded_string((nano / 1000) as u64, 6)
    } else {
        padded_string(nano as u64, 9)
    };
    out.append(digits.as_str());
    out
}

/// A date and time as `chrono` displays one without a zone.
fn naive_string(t: CivilDateTime) -> (r: String)
    ensures
        r@ == naive_text(t),
{
    let mut out = date_string(t.date);
    out.append(" ");
    let c = clock_string(t);
    out.append(c.as_str());
    let f = fraction_string(t.nanosecond);
    out.append(f.as_str());
    out
}

/// The UTC date and time R is given for a datetime, when chrono has one.
fn datetime_text_of(d: DatetimeConst) -> (r: Option<String>)
    ensures
        match d {
            DatetimeConst::Offset { local, offset_seconds } => utc_of(local, offset_seconds) is Some <==> r is Some,
            DatetimeConst::Naive(_) => r is Some,
        },
        r matches Some(s) ==> s@ == r_datetime_text(d),
{
    match d {
        DatetimeConst::Offset { local, offset_seconds } => match naive_utc(local, offset_seconds) {
            Some(p) => {
                let u = CivilDateTime {
                    date: CivilDate { year: p.0, month: p.1, day: p.2 },
                    hour: p.3,
                    minute: p.4,
                    second: p.5,
                    nanosecond: p.6,
                };
                assert(u == civil_of(p));
                Some(naive_string(u))
            },
            None => None,
        },
        DatetimeConst::Naive(local) => Some(naive_string(local)),
    }
}

/// A number as written, with `.0` added when it would otherwise read as an
/// integer.
fn float_string(text: &str) -> (r: String)
    ensures
        r@ == r_float_text(text@),
{
    let cs = crate::text::chars_of(text);
    let mut i: usize = 0;
    while i < cs.len()
        invariant
            i <= cs@.len(),
            cs@ == text@,
            forall|j: int| 0 <= j < i ==> !(cs@[j] == '.' || cs@[j] == 'e' || cs@[j] == 'E' || cs@[j] == 'n' || cs@[j] == 'i'),
        decreases cs@.len() - i,
    {
        let c = cs[i];
        if c == '.' || c == 'e' || c == 'E' || c == 'n' || c == 'i' {
            return text.to_owned();
        }
        i = i + 1;
    }
    let mut out = text.to_owned();
    out.append(".0");
    out
}

/// A column or field path, each segment a name, joined by `$`.
fn column_string(path: &Vec<String>) -> (r: String)
    ensures
        r@ == r_column(view_path(path@)),
{
    let ghost v = view_path(path@);
    let mut out = String::new();
    let mut i: usize = 0;
    while i < path.len()
        invariant
            i <= path@.len(),
            v == view_path(path@),
            out@ == r_column(v.take(i as int)),
        decreases path@.len() - i,
    {
        proof {
            let t = v.take(i + 1);
            assert(t.drop_last() =~= v.take(i as int));
            assert(t.last() == path@[i as int]@);
            if i == 0 {
                assert(t =~= seq![path@[0]@]);
                assert(v.take(0) =~= Seq::<Seq<char>>::empty());
            }
        }
        let n = RTidyverse::name(path[i].as_str());
        if i > 0 {
            out.append("$");
        }
        out.append(n.as_str());
        i = i + 1;
    }
    assert(v.take(i as int) =~= v);
    out
}

fn merge(a: Used, b: Used) -> (r: Used)
    ensures
        r == either(a, b),
{
    Used {
        empty_fold: a.empty_fold || b.empty_fold,
        overflow: a.overflow || b.overflow,
        rounding: a.rounding || b.rounding,
        division: a.division || b.division,
        modulo_zero: a.modulo_zero || b.modulo_zero,
        regex: a.regex || b.regex,
    }
}

/// The notes a node attaches by itself.
fn node_notes_of(e: &TypedExpr) -> (r: Used)
    ensures
        r == node_notes(view_texpr(*e)),
{
    let none = Used {
        empty_fold: false,
        overflow: false,
        rounding: false,
        division: false,
        modulo_zero: false,
        regex: false,
    };
    assert(view_texpr(*e).kind == view_tkind(e.kind));
    match &e.kind {
        NodeKind::Arith { op: ArithOp::Div, .. } => Used { division: true, ..none },
        NodeKind::Like { pattern: LikePattern::Regex(_), .. } => Used { regex: true, ..none },
        NodeKind::SimilarTo { .. } => Used { regex: true, ..none },
        NodeKind::Func { op, .. } => match op {
            Op::Round => Used { rounding: true, ..none },
            Op::Mod => Used { modulo_zero: true, ..none },
            Op::Sum => Used { empty_fold: true, overflow: true, ..none },
            Op::Min | Op::Max | Op::Avg | Op::Any | Op::All => Used { empty_fold: true, ..none },
            _ => none,
        },
        _ => none,
    }
}

/// The notes as they are listed, in the order of their texts.
fn listed(u: Used) -> (r: Vec<String>)
    ensures
        r@.map_values(|s: String| s@) == listed_notes(u),
{
    let mut v: Vec<String> = Vec::new();
    if u.empty_fold {
        v.push(String::from_str(EMPTY_FOLD));
    }
    if u.overflow {
        v.push(String::from_str(OVERFLOW));
    }
    if u.rounding {
        v.push(String::from_str(ROUNDING));
    }
    if u.division {
        v.push(String::from_str(DIVISION));
    }
    if u.modulo_zero {
        v.push(String::from_str(MODULO_ZERO));
    }
    if u.regex {
        v.push(String::from_str(REGEX));
    }
    assert(v@.map_values(|s: String| s@) =~= listed_notes(u));
    v
}

// --- Writing the tree -------------------------------------------------------------------

struct RPrinter {
    out: String,
    /// What a selected column is written as.
    sel: String,
    used: Used,
}

fn unsupported(what: &str, why: &str) -> (r: Unsupported) {
    Unsupported { what: what.to_owned(), why: why.to_owned() }
}

impl RPrinter {
    fn push(&mut self, s: &str)
        ensures
            final(self).out@ == old(self).out@ + s@,
            final(self).sel == old(self).sel,
            final(self).used == old(self).used,
    {
        self.out.append(s);
    }

    fn note(&mut self, u: Used)
        ensures
            final(self).out == old(self).out,
            final(self).sel == old(self).sel,
            final(self).used == either(old(self).used, u),
    {
        self.used = merge(self.used, u);
    }

    fn child(&mut self, parent: u8, side: Side, e: &TypedExpr) -> (r: Result<(), Unsupported>)
        requires
            r_shaped(view_texpr(*e)),
        ensures
            final(self).sel == old(self).sel,
            r is Ok <==> r_writable(view_texpr(*e)),
            r is Ok ==> final(self).out@ == old(self).out@ + r_child(parent, side, view_texpr(*e), old(self).sel@)
                && final(self).used == either(old(self).used, r_notes(view_texpr(*e))),
        decreases e, 2int,
    {
        let wrap = needs_parens(r_prec_of(e), parent, side);
        let ghost before = self.out@;
        if wrap {
            self.push("(");
        }
        self.write(e)?;
        if wrap {
            self.push(")");
            assert(self.out@ =~= before + ("("@ + r_text(view_texpr(*e), self.sel@) + ")"@));
        }
        Ok(())
    }

    /// Items in delimited positions, joined by commas.
    #[verifier::spinoff_prover]
    #[verifier::rlimit(40)]
    fn list(&mut self, s: &Vec<TypedExpr>) -> (r: Result<(), Unsupported>)
        requires
            r_all_list(view_tlist(s@), true),
        ensures
            final(self).sel == old(self).sel,
            r is Ok <==> r_all_list(view_tlist(s@), false),
            r is Ok ==> final(self).out@ == old(self).out@ + r_list(view_tlist(s@), old(self).sel@)
                && final(self).used == either(old(self).used, r_notes_list(view_tlist(s@))),
        decreases s, 0int,
    {
        proof {
            lemma_view_tlist(s@);
        }
        let ghost v = view_tlist(s@);
        let ghost base = self.out@;
        let ghost u0 = self.used;
        let mut i: usize = 0;
        assert(v.take(0) =~= Seq::<TExprV>::empty());
        while i < s.len()
            invariant
                i <= s@.len(),
                v == view_tlist(s@),
                v.len() == s@.len(),
                forall|k: int| 0 <= k < s@.len() ==> #[trigger] v[k] == view_texpr(s@[k]),
                r_all_list(v, true),
                self.sel == old(self).sel,
                base == old(self).out@,
                u0 == old(self).used,
                r_all_list(v.take(i as int), false),
                self.out@ == base + r_list(v.take(i as int), self.sel@),
                self.used == either(u0, r_notes_list(v.take(i as int))),
            decreases s@.len() - i,
        {
            proof {
                lemma_all_list_prefix(v, i as int + 1, true);
                lemma_all_list_member_holds(v, i as int, true);
            }
            let ghost t = v.take(i + 1);
            assert(t.drop_last() =~= v.take(i as int));
            assert(t.last() == v[i as int]);
            if i > 0 {
                self.push(", ");
            }
            match self.child(R_DELIMITED, Side::Free, &s[i]) {
                Ok(()) => {},
                Err(x) => {
                    proof {
                        lemma_all_list_member(v, i as int, false);
                    }
                    return Err(x);
                },
            }
            proof {
                if i == 0 {
                    assert(t.len() == 1);
                    assert(t[0] == v[0]);
                }
                assert(self.out@ =~= base + r_list(t, self.sel@));
            }
            i = i + 1;
        }
        assert(v.take(i as int) =~= v);
        Ok(())
    }

    /// The `condition ~ result, ` arms of a `case_when`.
    #[verifier::spinoff_prover]
    #[verifier::rlimit(40)]
    fn whens(&mut self, s: &Vec<(TypedExpr, TypedExpr)>) -> (r: Result<(), Unsupported>)
        requires
            r_all_whens(view_twhens(s@), true),
        ensures
            final(self).sel == old(self).sel,
            r is Ok <==> r_all_whens(view_twhens(s@), false),
            r is Ok ==> final(self).out@ == old(self).out@ + r_whens(view_twhens(s@), old(self).sel@)
                && final(self).used == either(old(self).used, r_notes_whens(view_twhens(s@))),
        decreases s, 0int,
    {
        proof {
            lemma_view_twhens(s@);
        }
        let ghost v = view_twhens(s@);
        let ghost base = self.out@;
        let ghost u0 = self.used;
        let mut i: usize = 0;
        assert(v.take(0) =~= Seq::<(TExprV, TExprV)>::empty());
        assert(self.out@ =~= base + r_whens(v.take(0), self.sel@));
        while i < s.len()
            invariant
                i <= s@.len(),
                v == view_twhens(s@),
                v.len() == s@.len(),
                forall|k: int| 0 <= k < s@.len() ==> #[trigger] v[k] == (view_texpr(s@[k].0), view_texpr(s@[k].1)),
                r_all_whens(v, true),
                self.sel == old(self).sel,
                base == old(self).out@,
                u0 == old(self).used,
                r_all_whens(v.take(i as int), false),
                self.out@ == base + r_whens(v.take(i as int), self.sel@),
                self.used == either(u0, r_notes_whens(v.take(i as int))),
            decreases s@.len() - i,
        {
            proof {
                lemma_all_whens_prefix(v, i as int + 1, true);
                lemma_all_whens_member_holds(v, i as int, true);
            }
            let ghost t = v.take(i + 1);
            assert(t.drop_last() =~= v.take(i as int));
            assert(t.last() == v[i as int]);
            match self.child(R_DELIMITED, Side::Free, &s[i].0) {
                Ok(()) => {},
                Err(x) => {
                    proof {
                        lemma_all_whens_member(v, i as int, false);
                    }
                    return Err(x);
                },
            }
            self.push(" ~ ");
            match self.child(R_DELIMITED, Side::Free, &s[i].1) {
                Ok(()) => {},
                Err(x) => {
                    proof {
                        lemma_all_whens_member(v, i as int, false);
                    }
                    return Err(x);
                },
            }
            self.push(", ");
            proof {
                assert(self.out@ =~= base + r_whens(t, self.sel@));
            }
            i = i + 1;
        }
        assert(v.take(i as int) =~= v);
        Ok(())
    }
}

proof fn lemma_all_list_prefix(v: Seq<TExprV>, n: int, shaped: bool)
    requires
        0 <= n <= v.len(),
        r_all_list(v, shaped),
    ensures
        r_all_list(v.take(n), shaped),
    decreases v.len(),
{
    if n < v.len() {
        assert(v.drop_last().take(n) =~= v.take(n));
        lemma_all_list_prefix(v.drop_last(), n, shaped);
    } else {
        assert(v.take(n) =~= v);
    }
}

proof fn lemma_all_list_member_holds(v: Seq<TExprV>, i: int, shaped: bool)
    requires
        0 <= i < v.len(),
        r_all_list(v, shaped),
    ensures
        r_all(v[i], shaped),
    decreases v.len(),
{
    if i < v.len() - 1 {
        assert(v.drop_last()[i] == v[i]);
        lemma_all_list_member_holds(v.drop_last(), i, shaped);
    }
}

proof fn lemma_all_list_member(v: Seq<TExprV>, i: int, shaped: bool)
    requires
        0 <= i < v.len(),
        !r_all(v[i], shaped),
    ensures
        !r_all_list(v, shaped),
    decreases v.len(),
{
    if i < v.len() - 1 {
        assert(v.drop_last()[i] == v[i]);
        lemma_all_list_member(v.drop_last(), i, shaped);
    }
}

proof fn lemma_all_whens_prefix(v: Seq<(TExprV, TExprV)>, n: int, shaped: bool)
    requires
        0 <= n <= v.len(),
        r_all_whens(v, shaped),
    ensures
        r_all_whens(v.take(n), shaped),
    decreases v.len(),
{
    if n < v.len() {
        assert(v.drop_last().take(n) =~= v.take(n));
        lemma_all_whens_prefix(v.drop_last(), n, shaped);
    } else {
        assert(v.take(n) =~= v);
    }
}

proof fn lemma_all_whens_member_holds(v: Seq<(TExprV, TExprV)>, i: int, shaped: bool)
    requires
        0 <= i < v.len(),
        r_all_whens(v, shaped),
    ensures
        r_all(v[i].0, shaped) && r_all(v[i].1, shaped),
    decreases v.len(),
{
    if i < v.len() - 1 {
        assert(v.drop_last()[i] == v[i]);
        lemma_all_whens_member_holds(v.drop_last(), i, shaped);
    }
}

proof fn lemma_all_whens_member(v: Seq<(TExprV, TExprV)>, i: int, shaped: bool)
    requires
        0 <= i < v.len(),
        !(r_all(v[i].0, shaped) && r_all(v[i].1, shaped)),
    ensures
        !r_all_whens(v, shaped),
    decreases v.len(),
{
    if i < v.len() - 1 {
        assert(v.drop_last()[i] == v[i]);
        lemma_all_whens_member(v.drop_last(), i, shaped);
    }
}

/// The precedence a node is written at.
fn r_prec_of(e: &TypedExpr) -> (r: u8)
    ensures
        r == r_prec(view_texpr(*e)),
{
    assert(view_texpr(*e).kind == view_tkind(e.kind));
    match &e.kind {
        NodeKind::Or(..) => R_OR,
        NodeKind::In { .. } => R_OR,
        NodeKind::Func { op: Op::Mod, .. } => R_ADD,
        NodeKind::And(..) => R_AND,
        NodeKind::Not(_) => R_NOT,
        NodeKind::Compare { .. } | NodeKind::Between { .. } => R_CMP,
        NodeKind::Arith { op, .. } => match op {
            ArithOp::Add | ArithOp::Sub => R_ADD,
            ArithOp::Mul | ArithOp::Div => R_MUL,
        },
        NodeKind::Neg(_) => R_NEG,
        _ => R_ATOM,
    }
}

impl RPrinter {
    fn write(&mut self, e: &TypedExpr) -> (r: Result<(), Unsupported>)
        requires
            r_shaped(view_texpr(*e)),
        ensures
            final(self).sel == old(self).sel,
            r is Ok <==> r_writable(view_texpr(*e)),
            r is Ok ==> final(self).out@ == old(self).out@ + r_text(view_texpr(*e), old(self).sel@)
                && final(self).used == either(old(self).used, r_notes(view_texpr(*e))),
        decreases e, 1int,
    {
        match &e.kind {
            NodeKind::Neg(_) | NodeKind::Not(_) => self.unary(e),
            NodeKind::And(..) | NodeKind::Or(..) | NodeKind::Compare { .. } => self.binary(e),
            NodeKind::IsNull { .. } | NodeKind::Between { .. } | NodeKind::Interval { .. } => self.predicate(e),
            NodeKind::Arith { .. } => self.arith(e),
            NodeKind::In { .. } => self.in_list(e),
            NodeKind::Like { .. } => self.like(e),
            NodeKind::SimilarTo { .. } => self.similar(e),
            NodeKind::Case { .. } => self.case_when(e),
            NodeKind::Func { .. } => self.func(e),
            _ => self.leaf(e),
        }
    }

    /// A node with no children.
    fn leaf(&mut self, e: &TypedExpr) -> (r: Result<(), Unsupported>)
        requires
            r_shaped(view_texpr(*e)),
            !(e.kind is Neg || e.kind is Not || e.kind is And || e.kind is Or || e.kind is Compare || e.kind is IsNull
                || e.kind is Between || e.kind is Interval || e.kind is Arith || e.kind is In || e.kind is Like
                || e.kind is SimilarTo || e.kind is Case || e.kind is Func),
        ensures
            final(self).sel == old(self).sel,
            r is Ok <==> r_writable(view_texpr(*e)),
            r is Ok ==> final(self).out@ == old(self).out@ + r_text(view_texpr(*e), old(self).sel@)
                && final(self).used == either(old(self).used, r_notes(view_texpr(*e))),
        decreases e, 0int,
    {
        let ghost before = self.out@;
        let ghost sel = self.sel@;
        assert(view_texpr(*e).kind == view_tkind(e.kind));
        match &e.kind {
            NodeKind::Int(n) => {
                let t = signed_string(*n);
                self.push(t.as_str());
                self.push("L");
            },
            NodeKind::Float(text) => {
                let t = float_string(text.as_str());
                self.push(t.as_str());
            },
            NodeKind::Str(s) => {
                let q = RTidyverse::string(s.as_str());
                self.push(q.as_str());
            },
            NodeKind::Bool(b) => self.push(if *b { "TRUE" } else { "FALSE" }),
            NodeKind::Null => self.push("NA"),
            NodeKind::Date(d) => {
                self.push("as.Date(\"");
                let t = date_string(*d);
                self.push(t.as_str());
                self.push("\")");
            },
            NodeKind::Datetime(x) => match datetime_text_of(*x) {
                Some(t) => {
                    self.push("as.POSIXct(\"");
                    self.push(t.as_str());
                    self.push("\", tz = \"UTC\")");
                },
                None => {
                    return Err(unsupported("a datetime chrono cannot place in UTC", "its date, time or offset is out of range"));
                },
            },
            NodeKind::Now => self.push("Sys.time()"),
            NodeKind::Column(c) => {
                let t = column_string(&c.path);
                self.push(t.as_str());
            },
            NodeKind::Selected => {
                let t = self.sel.clone();
                self.push(t.as_str());
            },
            _ => {},
        }
        assert(self.out@ =~= before + r_text(view_texpr(*e), sel));
        Ok(())
    }

    fn unary(&mut self, e: &TypedExpr) -> (r: Result<(), Unsupported>)
        requires
            r_shaped(view_texpr(*e)),
            e.kind is Neg || e.kind is Not,
        ensures
            final(self).sel == old(self).sel,
            r is Ok <==> r_writable(view_texpr(*e)),
            r is Ok ==> final(self).out@ == old(self).out@ + r_text(view_texpr(*e), old(self).sel@)
                && final(self).used == either(old(self).used, r_notes(view_texpr(*e))),
        decreases e, 0int,
    {
        let ghost before = self.out@;
        let ghost sel = self.sel@;
        assert(view_texpr(*e).kind == view_tkind(e.kind));
        match &e.kind {
            NodeKind::Neg(x) => {
                self.push("-");
                self.child(R_NEG, Side::Right, x)?;
            },
            NodeKind::Not(x) => {
                self.push("!");
                self.child(R_NOT, Side::Right, x)?;
            },
            _ => {},
        }
        assert(self.out@ =~= before + r_text(view_texpr(*e), sel));
        Ok(())
    }

    fn binary(&mut self, e: &TypedExpr) -> (r: Result<(), Unsupported>)
        requires
            r_shaped(view_texpr(*e)),
            e.kind is And || e.kind is Or || e.kind is Compare,
        ensures
            final(self).sel == old(self).sel,
            r is Ok <==> r_writable(view_texpr(*e)),
            r is Ok ==> final(self).out@ == old(self).out@ + r_text(view_texpr(*e), old(self).sel@)
                && final(self).used == either(old(self).used, r_notes(view_texpr(*e))),
        decreases e, 0int,
    {
        let ghost before = self.out@;
        let ghost sel = self.sel@;
        assert(view_texpr(*e).kind == view_tkind(e.kind));
        match &e.kind {
            NodeKind::And(l, r) => {
                self.child(R_AND, Side::Left, l)?;
                self.push(" & ");
                self.child(R_AND, Side::Right, r)?;
            },
            NodeKind::Or(l, r) => {
                self.child(R_OR, Side::Left, l)?;
                self.push(" | ");
                self.child(R_OR, Side::Right, r)?;
            },
            NodeKind::Compare { op, lhs, rhs } => {
                self.child(R_CMP, Side::Left, lhs)?;
                self.push(" ");
                self.push(comparison_word(*op));
                self.push(" ");
                self.child(R_CMP, Side::Right, rhs)?;
            },
            _ => {},
        }
        assert(self.out@ =~= before + r_text(view_texpr(*e), sel));
        Ok(())
    }

    fn predicate(&mut self, e: &TypedExpr) -> (r: Result<(), Unsupported>)
        requires
            r_shaped(view_texpr(*e)),
            e.kind is IsNull || e.kind is Between || e.kind is Interval,
        ensures
            final(self).sel == old(self).sel,
            r is Ok <==> r_writable(view_texpr(*e)),
            r is Ok ==> final(self).out@ == old(self).out@ + r_text(view_texpr(*e), old(self).sel@)
                && final(self).used == either(old(self).used, r_notes(view_texpr(*e))),
        decreases e, 0int,
    {
        let ghost before = self.out@;
        let ghost sel = self.sel@;
        assert(view_texpr(*e).kind == view_tkind(e.kind));
        match &e.kind {
            NodeKind::IsNull { operand, negated } => {
                if *negated {
                    self.push("!");
                }
                self.push("is.na(");
                self.child(R_DELIMITED, Side::Free, operand)?;
                self.push(")");
            },
            NodeKind::Between { operand, lo, hi, negated } => {
                if *negated {
                    self.push("!");
                }
                self.push("between(");
                self.child(R_DELIMITED, Side::Free, operand)?;
                self.push(", ");
                self.child(R_DELIMITED, Side::Free, lo)?;
                self.push(", ");
                self.child(R_DELIMITED, Side::Free, hi)?;
                self.push(")");
            },
            NodeKind::Interval { n, unit } => {
                self.push("as.difftime(");
                self.child(R_DELIMITED, Side::Free, n)?;
                self.push(", units = \"");
                self.push(RTidyverse::units(*unit));
                self.push("\")");
            },
            _ => {},
        }
        assert(self.out@ =~= before + r_text(view_texpr(*e), sel));
        Ok(())
    }

    fn arith(&mut self, e: &TypedExpr) -> (r: Result<(), Unsupported>)
        requires
            e.kind is Arith,
            r_shaped(view_texpr(*e)),
        ensures
            final(self).sel == old(self).sel,
            r is Ok <==> r_writable(view_texpr(*e)),
            r is Ok ==> final(self).out@ == old(self).out@ + r_text(view_texpr(*e), old(self).sel@)
                && final(self).used == either(old(self).used, r_notes(view_texpr(*e))),
        decreases e, 0int,
    {
        let ghost before = self.out@;
        let ghost sel = self.sel@;
        assert(view_texpr(*e).kind == view_tkind(e.kind));
        let n = node_notes_of(e);
        self.note(n);
        match &e.kind {
            NodeKind::Arith { op, lhs, rhs } => {
                if lhs.ty == Type::Interval || rhs.ty == Type::Interval {
                    let base: &TypedExpr = if lhs.ty == Type::Interval { rhs } else { lhs };
                    let duration: &TypedExpr = if lhs.ty == Type::Interval { lhs } else { rhs };
                    if base.ty == Type::Date {
                        self.push("as.POSIXct(");
                        self.child(R_DELIMITED, Side::Free, base)?;
                        self.push(", tz = \"UTC\")");
                    } else {
                        self.child(R_ADD, Side::Left, base)?;
                    }
                    self.push(if *op == ArithOp::Sub { " - " } else { " + " });
                    self.child(R_ADD, Side::Right, duration)?;
                    assert(self.out@ =~= before + r_shift(view_texpr(*e), sel));
                } else {
                    let (symbol, level) = arith_word(*op);
                    self.child(level, Side::Left, lhs)?;
                    self.push(" ");
                    self.push(symbol);
                    self.push(" ");
                    self.child(level, Side::Right, rhs)?;
                }
            },
            _ => {},
        }
        assert(self.out@ =~= before + r_text(view_texpr(*e), sel));
        Ok(())
    }

    fn in_list(&mut self, e: &TypedExpr) -> (r: Result<(), Unsupported>)
        requires
            e.kind is In,
            r_shaped(view_texpr(*e)),
        ensures
            final(self).sel == old(self).sel,
            r is Ok <==> r_writable(view_texpr(*e)),
            r is Ok ==> final(self).out@ == old(self).out@ + r_text(view_texpr(*e), old(self).sel@)
                && final(self).used == either(old(self).used, r_notes(view_texpr(*e))),
        decreases e, 0int,
    {
        let ghost before = self.out@;
        let ghost sel = self.sel@;
        assert(view_texpr(*e).kind == view_tkind(e.kind));
        match &e.kind {
            NodeKind::In { operand, list, negated } => {
                self.push("is.na(");
                self.child(R_DELIMITED, Side::Free, operand)?;
                self.push(") | ");
                if *negated {
                    self.push("!");
                }
                self.push("(");
                self.child(R_SPECIAL, Side::Left, operand)?;
                self.push(" %in% c(");
                self.list(list)?;
                self.push("))");
            },
            _ => {},
        }
        assert(self.out@ =~= before + r_text(view_texpr(*e), sel));
        Ok(())
    }

    fn like(&mut self, e: &TypedExpr) -> (r: Result<(), Unsupported>)
        requires
            e.kind is Like,
            r_shaped(view_texpr(*e)),
        ensures
            final(self).sel == old(self).sel,
            r is Ok <==> r_writable(view_texpr(*e)),
            r is Ok ==> final(self).out@ == old(self).out@ + r_text(view_texpr(*e), old(self).sel@)
                && final(self).used == either(old(self).used, r_notes(view_texpr(*e))),
        decreases e, 0int,
    {
        let ghost before = self.out@;
        let ghost sel = self.sel@;
        assert(view_texpr(*e).kind == view_tkind(e.kind));
        let n = node_notes_of(e);
        self.note(n);
        match &e.kind {
            NodeKind::Like { operand, pattern, negated } => {
                assert(view_texpr(*e).kind == TKindV::Like {
                    operand: Box::new(view_texpr(**operand)),
                    pattern: view_like(*pattern),
                    negated: *negated,
                });
                match pattern {
                    LikePattern::Exact(text) => {
                        self.child(R_CMP, Side::Left, operand)?;
                        self.push(if *negated { " != " } else { " == " });
                        let q = RTidyverse::string(text.as_str());
                        self.push(q.as_str());
                    },
                    LikePattern::Prefix(text) => {
                        if *negated {
                            self.push("!");
                        }
                        self.push("str_starts(");
                        self.child(R_DELIMITED, Side::Free, operand)?;
                        self.push(", fixed(");
                        let q = RTidyverse::string(text.as_str());
                        self.push(q.as_str());
                        self.push("))");
                    },
                    LikePattern::Suffix(text) => {
                        if *negated {
                            self.push("!");
                        }
                        self.push("str_ends(");
                        self.child(R_DELIMITED, Side::Free, operand)?;
                        self.push(", fixed(");
                        let q = RTidyverse::string(text.as_str());
                        self.push(q.as_str());
                        self.push("))");
                    },
                    LikePattern::Regex(re) => {
                        if *negated {
                            self.push("!");
                        }
                        self.push("str_detect(");
                        self.child(R_DELIMITED, Side::Free, operand)?;
                        self.push(", ");
                        let q = RTidyverse::string(re.as_str());
                        self.push(q.as_str());
                        self.push(")");
                    },
                    LikePattern::Dynamic(_) => {
                        return Err(unsupported(
                            "`LIKE` with a computed pattern",
                            "the pattern must be a literal so its wildcards can be translated; R has no run-time equivalent",
                        ));
                    },
                }
            },
            _ => {},
        }
        assert(self.out@ =~= before + r_text(view_texpr(*e), sel));
        Ok(())
    }

    /// A `SIMILAR TO` pattern, anchored.
    fn anchored(&mut self, pattern: &TypedExpr) -> (r: Result<(), Unsupported>)
        requires
            r_shaped(view_texpr(*pattern)),
        ensures
            final(self).sel == old(self).sel,
            r is Ok <==> r_writable(view_texpr(*pattern)),
            r is Ok ==> final(self).out@ == old(self).out@ + r_anchored(view_texpr(*pattern), old(self).sel@)
                && final(self).used == either(old(self).used, r_notes(view_texpr(*pattern))),
        decreases pattern, 3int,
    {
        let ghost before = self.out@;
        assert(view_texpr(*pattern).kind == view_tkind(pattern.kind));
        match &pattern.kind {
            NodeKind::Str(text) => {
                let mut t = String::from_str("^(?:");
                t.append(text.as_str());
                t.append(")$");
                let q = RTidyverse::string(t.as_str());
                self.push(q.as_str());
                Ok(())
            },
            _ => {
                self.push("paste0(\"^(?:\", ");
                self.child(R_DELIMITED, Side::Free, pattern)?;
                self.push(", \")$\")");
                Ok(())
            },
        }
    }

    fn similar(&mut self, e: &TypedExpr) -> (r: Result<(), Unsupported>)
        requires
            e.kind is SimilarTo,
            r_shaped(view_texpr(*e)),
        ensures
            final(self).sel == old(self).sel,
            r is Ok <==> r_writable(view_texpr(*e)),
            r is Ok ==> final(self).out@ == old(self).out@ + r_text(view_texpr(*e), old(self).sel@)
                && final(self).used == either(old(self).used, r_notes(view_texpr(*e))),
        decreases e, 0int,
    {
        let ghost before = self.out@;
        let ghost sel = self.sel@;
        assert(view_texpr(*e).kind == view_tkind(e.kind));
        let n = node_notes_of(e);
        self.note(n);
        match &e.kind {
            NodeKind::SimilarTo { operand, pattern, negated } => {
                if *negated {
                    self.push("!");
                }
                self.push("str_detect(");
                self.child(R_DELIMITED, Side::Free, operand)?;
                self.push(", ");
                self.anchored(pattern)?;
                self.push(")");
            },
            _ => {},
        }
        assert(self.out@ =~= before + r_text(view_texpr(*e), sel));
        Ok(())
    }

    fn case_when(&mut self, e: &TypedExpr) -> (r: Result<(), Unsupported>)
        requires
            e.kind is Case,
            r_shaped(view_texpr(*e)),
        ensures
            final(self).sel == old(self).sel,
            r is Ok <==> r_writable(view_texpr(*e)),
            r is Ok ==> final(self).out@ == old(self).out@ + r_text(view_texpr(*e), old(self).sel@)
                && final(self).used == either(old(self).used, r_notes(view_texpr(*e))),
        decreases e, 0int,
    {
        let ghost before = self.out@;
        let ghost sel = self.sel@;
        assert(view_texpr(*e).kind == view_tkind(e.kind));
        match &e.kind {
            NodeKind::Case { whens, els } => {
                self.push("case_when(");
                self.whens(whens)?;
                match els {
                    Some(x) => {
                        self.push(".default = ");
                        self.child(R_DELIMITED, Side::Free, x)?;
                    },
                    None => self.push(".default = NA"),
                }
                self.push(")");
            },
            _ => {},
        }
        assert(self.out@ =~= before + r_text(view_texpr(*e), sel));
        Ok(())
    }

    #[verifier::rlimit(40)]
    fn func(&mut self, e: &TypedExpr) -> (r: Result<(), Unsupported>)
        requires
            e.kind is Func,
            r_shaped(view_texpr(*e)),
        ensures
            final(self).sel == old(self).sel,
            r is Ok <==> r_writable(view_texpr(*e)),
            r is Ok ==> final(self).out@ == old(self).out@ + r_text(view_texpr(*e), old(self).sel@)
                && final(self).used == either(old(self).used, r_notes(view_texpr(*e))),
        decreases e, 0int,
    {
        let ghost before = self.out@;
        let ghost sel = self.sel@;
        assert(view_texpr(*e).kind == view_tkind(e.kind));
        let n = node_notes_of(e);
        self.note(n);
        match &e.kind {
            NodeKind::Func { op, args } => {
                proof {
                    lemma_view_tlist(args@);
                }
                match op {
                    Op::StartsWith | Op::EndsWith => {
                        self.push(if *op == Op::StartsWith { "str_starts" } else { "str_ends" });
                        self.push("(");
                        self.child(R_DELIMITED, Side::Free, &args[0])?;
                        self.push(", fixed(");
                        self.child(R_DELIMITED, Side::Free, &args[1])?;
                        self.push("))");
                    },
                    Op::Mod => {
                        self.child(R_ADD, Side::Left, &args[0])?;
                        self.push(" - ");
                        self.child(R_MUL, Side::Right, &args[1])?;
                        self.push(" * trunc(");
                        self.child(R_DELIMITED, Side::Free, &args[0])?;
                        self.push(" / ");
                        self.child(R_DELIMITED, Side::Free, &args[1])?;
                        self.push(")");
                    },
                    Op::Min | Op::Max | Op::Sum | Op::Avg | Op::Any | Op::All | Op::CountDistinct => {
                        self.push(call_name(*op));
                        self.push("(");
                        self.child(R_DELIMITED, Side::Free, &args[0])?;
                        self.push(", na.rm = TRUE)");
                    },
                    Op::Count => {
                        self.push("sum(!is.na(");
                        self.child(R_DELIMITED, Side::Free, &args[0])?;
                        self.push("))");
                    },
                    Op::RowCount => self.push("n()"),
                    _ => {
                        self.push(call_name(*op));
                        self.push("(");
                        self.list(args)?;
                        self.push(")");
                    },
                }
            },
            _ => {},
        }
        assert(self.out@ =~= before + r_text(view_texpr(*e), sel));
        Ok(())
    }
}

fn comparison_word(op: CmpOp) -> (r: &'static str)
    ensures
        r@ == r_comparison(op),
{
    match op {
        CmpOp::Eq => "==",
        CmpOp::Ne => "!=",
        CmpOp::Lt => "<",
        CmpOp::Le => "<=",
        CmpOp::Gt => ">",
        CmpOp::Ge => ">=",
    }
}

fn arith_word(op: ArithOp) -> (r: (&'static str, u8))
    ensures
        r.0@ == r_arith(op),
        r.1 == r_arith_level(op),
{
    match op {
        ArithOp::Add => ("+", R_ADD),
        ArithOp::Sub => ("-", R_ADD),
        ArithOp::Mul => ("*", R_MUL),
        ArithOp::Div => ("/", R_MUL),
    }
}

fn call_name(op: Op) -> (r: &'static str)
    ensures
        r@ == r_call_name(op),
{
    proof {
        reveal_strlit("");
    }
    match op {
        Op::Length => "str_length",
        Op::Lower => "str_to_lower",
        Op::Upper => "str_to_upper",
        Op::Trim => "str_trim",
        Op::StartsWith => "str_starts",
        Op::EndsWith => "str_ends",
        Op::Abs => "abs",
        Op::Floor => "floor",
        Op::Ceil => "ceiling",
        Op::Round => "round",
        Op::Min => "min",
        Op::Max => "max",
        Op::Sum => "sum",
        Op::Avg => "mean",
        Op::Any => "any",
        Op::All => "all",
        Op::CountDistinct => "n_distinct",
        Op::Count => "sum",
        Op::Mod => "",
        Op::RowCount => "n",
    }
}

// --- The assertion ---------------------------------------------------------------------

/// Write `assertion` for dplyr: the tree, or, for a `COLUMNS(...)`, the tree
/// once for each column the selection resolved to, joined by `&`. The notes
/// of the divergent constructs it used come with it, each once, in the order
/// of their texts. A `LIKE` with a computed pattern is refused, as is a
/// datetime chrono cannot place in UTC.
pub fn emit_r(target: &RTidyverse, assertion: &TypedAssertion) -> (r: Result<Emitted, Unsupported>)
    requires
        r_shaped(view_texpr(assertion.root)),
        assertion.selection is None ==> !mentions_selected(view_texpr(assertion.root)),
    ensures
        match r {
            Ok(x) => (r_written(view_opt_selection(assertion.selection)) ==> r_writable(view_texpr(assertion.root)))
                && x.code@ == r_assertion_text(view_texpr(assertion.root), view_opt_selection(assertion.selection))
                && x.notes@.map_values(|s: String| s@) == r_assertion_notes(
                view_texpr(assertion.root),
                view_opt_selection(assertion.selection),
            ),
            Err(_) => r_written(view_opt_selection(assertion.selection)) && !r_writable(view_texpr(assertion.root)),
        },
{
    let none = Used {
        empty_fold: false,
        overflow: false,
        rounding: false,
        division: false,
        modulo_zero: false,
        regex: false,
    };
    let mut p = RPrinter { out: String::new(), sel: String::new(), used: none };
    let ghost root = view_texpr(assertion.root);
    match &assertion.selection {
        None => {
            p.write(&assertion.root)?;
            assert(p.out@ =~= r_text(root, seq![]));
        },
        Some(x) => {
            let cols = &x.columns;
            let ghost v = view_colrefs(cols@);
            let mut i: usize = 0;
            assert(v.take(0) =~= Seq::<ColRefV>::empty());
            while i < cols.len()
                invariant
                    i <= cols@.len(),
                    v == view_colrefs(cols@),
                    cols == &x.columns,
                    assertion.selection == Some(*x),
                    root == view_texpr(assertion.root),
                    r_shaped(root),
                    p.out@ == r_expanded(root, v.take(i as int)),
                    i > 0 ==> p.used == r_notes(root) && r_writable(root),
                    i == 0 ==> p.used == none_used(),
                decreases cols@.len() - i,
            {
                proof {
                    let t = v.take(i + 1);
                    assert(t.drop_last() =~= v.take(i as int));
                    assert(t.last() == view_colref(cols@[i as int]));
                }
                if i > 0 {
                    p.push(" & ");
                }
                p.sel = column_string(&cols[i].path);
                match p.child(R_AND, Side::Free, &assertion.root) {
                    Ok(()) => {},
                    Err(u) => {
                        assert(view_opt_selection(assertion.selection) == Some(view_selection(*x)));
                        assert(view_selection(*x).columns.len() == cols@.len());
                        return Err(u);
                    },
                }
                i = i + 1;
            }
            assert(v.take(i as int) =~= v);
        },
    }
    let notes = listed(p.used);
    Ok(Emitted { code: p.out, notes })
}


// --- The R functions that stand for the language's ---------------------------------------

/// The functions R (with stringr and dplyr) calls by another name than the
/// expression language: each language name with the R function that computes it.
pub open spec fn r_renames() -> Seq<(Seq<char>, Seq<char>)> {
    seq![
        ("length"@, "str_length"@),
        ("lower"@, "str_to_lower"@),
        ("upper"@, "str_to_upper"@),
        ("trim"@, "str_trim"@),
        ("starts_with"@, "str_starts"@),
        ("ends_with"@, "str_ends"@),
        ("ceil"@, "ceiling"@),
        ("avg"@, "mean"@),
        ("count"@, "sum"@),
        ("count_distinct"@, "n_distinct"@),
        ("row_count"@, "n"@),
    ]
}

/// Each function is called in R by its own name or by the R function that
/// computes it (`ceil` by `ceiling`, `avg` by `mean`, …); `mod` is the `%%`
/// operator, not a call. Apart from `count`, which R writes as a sum of the
/// values present, no two functions share an R name, so no function is
/// written as another: `ceil` never as `floor`, `min` never as `max`.
pub proof fn law_r_names_compute_their_functions(op: Op, other: Op)
    ensures
        op != Op::Mod ==> (r_call_name(op) == op_name(op) || r_renames().contains((op_name(op), r_call_name(op)))),
        op != other && op != Op::Mod && other != Op::Mod && op != Op::Count && other != Op::Count ==> r_call_name(op)
            != r_call_name(other),
{
    reveal_strlit("length");
    reveal_strlit("lower");
    reveal_strlit("upper");
    reveal_strlit("trim");
    reveal_strlit("starts_with");
    reveal_strlit("ends_with");
    reveal_strlit("abs");
    reveal_strlit("floor");
    reveal_strlit("ceil");
    reveal_strlit("round");
    reveal_strlit("mod");
    reveal_strlit("min");
    reveal_strlit("max");
    reveal_strlit("sum");
    reveal_strlit("avg");
    reveal_strlit("count");
    reveal_strlit("row_count");
    reveal_strlit("count_distinct");
    reveal_strlit("any");
    reveal_strlit("all");
    reveal_strlit("str_length");
    reveal_strlit("str_to_lower");
    reveal_strlit("str_to_upper");
    reveal_strlit("str_trim");
    reveal_strlit("str_starts");
    reveal_strlit("str_ends");
    reveal_strlit("ceiling");
    reveal_strlit("mean");
    reveal_strlit("n_distinct");
    reveal_strlit("n");
    let rn = r_renames();
    let k: int = match op {
        Op::Length => 0,
        Op::Lower => 1,
        Op::Upper => 2,
        Op::Trim => 3,
        Op::StartsWith => 4,
        Op::EndsWith => 5,
        Op::Ceil => 6,
        Op::Avg => 7,
        Op::Count => 8,
        Op::CountDistinct => 9,
        Op::RowCount => 10,
        _ => -1,
    };
    if 0 <= k {
        assert(rn[k] == (op_name(op), r_call_name(op)));
    }
    let a = r_call_name(op);
    let b = r_call_name(other);
    if op != other && op != Op::Mod && other != Op::Mod && op != Op::Count && other != Op::Count && a == b {
        assert(a.len() == b.len());
        assert(a[0] == b[0]);
        if a.len() > 1 {
            assert(a[1] == b[1]);
        }
        if a.len() > 2 {
            assert(a[2] == b[2]);
        }
        if a.len() > 4 {
            assert(a[4] == b[4]);
        }
        if a.len() > 7 {
            assert(a[7] == b[7]);
        }
    }
}

} // verus!
