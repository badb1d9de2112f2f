//! The vocabulary of the typed form an assertion takes once checked: the
//! language's types, one operator per function, the interval units, and how a
//! `COLUMNS(...)` selection resolved.

use vstd::prelude::*;

use super::check::same_path;
use super::lower::copy_path;
use super::lowering::{
    children_v, columns_read, flat_whens, lemma_once_all_concat, once_all, push_once, refs_in,
    refs_list, refs_whens, ColRefV, FormV, LikeV, SelectionV, TExprV, TKindV,
};
use super::parse::view_path;
use super::{ArithOp, CmpOp, Shape, Ty};
use crate::text::str_eq;

verus! {

/// A resolved `COLUMNS(...)`: how it was written, and what it picked out.
#[derive(Debug, Clone)]
pub struct Selection {
    pub form: SelectorForm,
    pub columns: Vec<ColumnRef>,
}

#[derive(Debug, Clone)]
pub enum SelectorForm {
    All,
    /// The regex as written, matched unanchored.
    Regex(String),
    List,
}

/// A node's type: the language's six types plus `Any` for the things that
/// genuinely have none.
#[derive(Debug, Clone, Copy, PartialEq, Eq, Structural)]
pub enum Type {
    Number,
    String,
    Bool,
    Date,
    Datetime,
    Interval,
    Any,
}

pub open spec fn type_name_text(t: Type) -> Seq<char> {
    match t {
        Type::Number => "number"@,
        Type::String => "string"@,
        Type::Bool => "boolean"@,
        Type::Date => "date"@,
        Type::Datetime => "datetime"@,
        Type::Interval => "interval"@,
        Type::Any => "any"@,
    }
}

impl Type {
    /// The language's name for this type, for reporting.
    pub fn name(self) -> (r: &'static str)
        ensures
            r@ == type_name_text(self),
    {
        match self {
            Type::Number => "number",
            Type::String => "string",
            Type::Bool => "boolean",
            Type::Date => "date",
            Type::Datetime => "datetime",
            Type::Interval => "interval",
            Type::Any => "any",
        }
    }
}

/// A calendar date: its year, month (1 to 12) and day of the month.
#[derive(Debug, Clone, Copy, PartialEq, Eq, Structural)]
pub struct CivilDate {
    pub year: i32,
    pub month: u32,
    pub day: u32,
}

/// A date and a time of day, to the nanosecond.
#[derive(Debug, Clone, Copy, PartialEq, Eq, Structural)]
pub struct CivilDateTime {
    pub date: CivilDate,
    pub hour: u32,
    pub minute: u32,
    pub second: u32,
    pub nanosecond: u32,
}

/// A datetime literal, in whichever of the two spellings the language accepts.
#[derive(Debug, Clone, Copy, PartialEq, Eq, Structural)]
pub enum DatetimeConst {
    /// An RFC 3339 datetime: its local date and time, and its offset east of
    /// UTC in seconds.
    Offset { local: CivilDateTime, offset_seconds: i32 },
    /// A zoneless datetime.
    Naive(CivilDateTime),
}

/// A column or struct field, with the type the dictionary declares for it.
#[derive(Debug, Clone)]
pub struct ColumnRef {
    /// The column name, then one field name per dot: `address.zip`.
    pub path: Vec<String>,
    pub ty: Type,
}

/// One variant per function in the language.
#[derive(Debug, Clone, Copy, PartialEq, Eq, Structural)]
pub enum Op {
    Length,
    Lower,
    Upper,
    Trim,
    StartsWith,
    EndsWith,
    Abs,
    Floor,
    Ceil,
    Round,
    Mod,
    Min,
    Max,
    Sum,
    Avg,
    Count,
    RowCount,
    CountDistinct,
    Any,
    All,
}

/// The lower-case name the language spells each function with.
pub open spec fn op_name(op: Op) -> Seq<char> {
    match op {
        Op::Length => "length"@,
        Op::Lower => "lower"@,
        Op::Upper => "upper"@,
        Op::Trim => "trim"@,
        Op::StartsWith => "starts_with"@,
        Op::EndsWith => "ends_with"@,
        Op::Abs => "abs"@,
        Op::Floor => "floor"@,
        Op::Ceil => "ceil"@,
        Op::Round => "round"@,
        Op::Mod => "mod"@,
        Op::Min => "min"@,
        Op::Max => "max"@,
        Op::Sum => "sum"@,
        Op::Avg => "avg"@,
        Op::Count => "count"@,
        Op::RowCount => "row_count"@,
        Op::CountDistinct => "count_distinct"@,
        Op::Any => "any"@,
        Op::All => "all"@,
    }
}

pub open spec fn spec_is_aggregate(op: Op) -> bool {
    match op {
        Op::Min | Op::Max | Op::Sum | Op::Avg | Op::Count | Op::RowCount | Op::CountDistinct
        | Op::Any | Op::All => true,
        _ => false,
    }
}

/// The function a lower-cased name spells, if any.
pub open spec fn op_named(l: Seq<char>) -> Option<Op> {
    if l == "length"@ {
        Some(Op::Length)
    } else if l == "lower"@ {
        Some(Op::Lower)
    } else if l == "upper"@ {
        Some(Op::Upper)
    } else if l == "trim"@ {
        Some(Op::Trim)
    } else if l == "starts_with"@ {
        Some(Op::StartsWith)
    } else if l == "ends_with"@ {
        Some(Op::EndsWith)
    } else if l == "abs"@ {
        Some(Op::Abs)
    } else if l == "floor"@ {
        Some(Op::Floor)
    } else if l == "ceil"@ {
        Some(Op::Ceil)
    } else if l == "round"@ {
        Some(Op::Round)
    } else if l == "mod"@ {
        Some(Op::Mod)
    } else if l == "min"@ {
        Some(Op::Min)
    } else if l == "max"@ {
        Some(Op::Max)
    } else if l == "sum"@ {
        Some(Op::Sum)
    } else if l == "avg"@ {
        Some(Op::Avg)
    } else if l == "count"@ {
        Some(Op::Count)
    } else if l == "row_count"@ {
        Some(Op::RowCount)
    } else if l == "count_distinct"@ {
        Some(Op::CountDistinct)
    } else if l == "any"@ {
        Some(Op::Any)
    } else if l == "all"@ {
        Some(Op::All)
    } else {
        None
    }
}

impl Op {
    /// The function a lower-cased name spells, if any.
    pub fn from_name(lowercased: &str) -> (r: Option<Op>)
        ensures
            r == op_named(lowercased@),
    {
        if str_eq(lowercased, "length") {
            Some(Op::Length)
        } else if str_eq(lowercased, "lower") {
            Some(Op::Lower)
        } else if str_eq(lowercased, "upper") {
            Some(Op::Upper)
        } else if str_eq(lowercased, "trim") {
            Some(Op::Trim)
        } else if str_eq(lowercased, "starts_with") {
            Some(Op::StartsWith)
        } else if str_eq(lowercased, "ends_with") {
            Some(Op::EndsWith)
        } else if str_eq(lowercased, "abs") {
            Some(Op::Abs)
        } else if str_eq(lowercased, "floor") {
            Some(Op::Floor)
        } else if str_eq(lowercased, "ceil") {
            Some(Op::Ceil)
        } else if str_eq(lowercased, "round") {
            Some(Op::Round)
        } else if str_eq(lowercased, "mod") {
            Some(Op::Mod)
        } else if str_eq(lowercased, "min") {
            Some(Op::Min)
        } else if str_eq(lowercased, "max") {
            Some(Op::Max)
        } else if str_eq(lowercased, "sum") {
            Some(Op::Sum)
        } else if str_eq(lowercased, "avg") {
            Some(Op::Avg)
        } else if str_eq(lowercased, "count") {
            Some(Op::Count)
        } else if str_eq(lowercased, "row_count") {
            Some(Op::RowCount)
        } else if str_eq(lowercased, "count_distinct") {
            Some(Op::CountDistinct)
        } else if str_eq(lowercased, "any") {
            Some(Op::Any)
        } else if str_eq(lowercased, "all") {
            Some(Op::All)
        } else {
            None
        }
    }

    /// Whether this folds a column into one value, which decides the node's
    /// shape and, for the whole expression, whether a violation can name a row.
    pub fn is_aggregate(self) -> (r: bool)
        ensures
            r == spec_is_aggregate(self),
    {
        match self {
            Op::Min | Op::Max | Op::Sum | Op::Avg | Op::Count | Op::RowCount | Op::CountDistinct
            | Op::Any | Op::All => true,
            _ => false,
        }
    }
}

/// The five fixed-length interval units.
#[derive(Debug, Clone, Copy, PartialEq, Eq, Structural)]
pub enum IntervalUnit {
    Seconds,
    Minutes,
    Hours,
    Days,
    Weeks,
}

pub open spec fn unit_name(u: IntervalUnit) -> Seq<char> {
    match u {
        IntervalUnit::Seconds => "seconds"@,
        IntervalUnit::Minutes => "minutes"@,
        IntervalUnit::Hours => "hours"@,
        IntervalUnit::Days => "days"@,
        IntervalUnit::Weeks => "weeks"@,
    }
}

pub open spec fn unit_seconds(u: IntervalUnit) -> int {
    match u {
        IntervalUnit::Seconds => 1int,
        IntervalUnit::Minutes => 60int,
        IntervalUnit::Hours => 3600int,
        IntervalUnit::Days => 86400int,
        IntervalUnit::Weeks => 604800int,
    }
}

/// The unit a lower-cased name spells, if any.
pub open spec fn unit_named(l: Seq<char>) -> Option<IntervalUnit> {
    if l == "seconds"@ {
        Some(IntervalUnit::Seconds)
    } else if l == "minutes"@ {
        Some(IntervalUnit::Minutes)
    } else if l == "hours"@ {
        Some(IntervalUnit::Hours)
    } else if l == "days"@ {
        Some(IntervalUnit::Days)
    } else if l == "weeks"@ {
        Some(IntervalUnit::Weeks)
    } else {
        None
    }
}

impl IntervalUnit {
    /// The unit a lower-cased name spells, if any.
    pub fn from_name(lowercased: &str) -> (r: Option<IntervalUnit>)
        ensures
            r == unit_named(lowercased@),
    {
        if str_eq(lowercased, "seconds") {
            Some(IntervalUnit::Seconds)
        } else if str_eq(lowercased, "minutes") {
            Some(IntervalUnit::Minutes)
        } else if str_eq(lowercased, "hours") {
            Some(IntervalUnit::Hours)
        } else if str_eq(lowercased, "days") {
            Some(IntervalUnit::Days)
        } else if str_eq(lowercased, "weeks") {
            Some(IntervalUnit::Weeks)
        } else {
            None
        }
    }

    /// How many seconds one of these lasts. All five are fixed-length, which
    /// is why the calendar units are excluded from the language.
    pub fn seconds(self) -> (r: i64)
        ensures
            r == unit_seconds(self),
    {
        match self {
            IntervalUnit::Seconds => 1,
            IntervalUnit::Minutes => 60,
            IntervalUnit::Hours => 3600,
            IntervalUnit::Days => 86_400,
            IntervalUnit::Weeks => 604_800,
        }
    }
}

/// Each unit is a whole number of the one below it, so every interval is a
/// whole number of seconds and the units are strictly increasing.
pub proof fn law_units_nest()
    ensures
        unit_seconds(IntervalUnit::Minutes) == 60 * unit_seconds(IntervalUnit::Seconds),
        unit_seconds(IntervalUnit::Hours) == 60 * unit_seconds(IntervalUnit::Minutes),
        unit_seconds(IntervalUnit::Days) == 24 * unit_seconds(IntervalUnit::Hours),
        unit_seconds(IntervalUnit::Weeks) == 7 * unit_seconds(IntervalUnit::Days),
{
}

pub open spec fn spec_to_type(ty: Ty) -> Type {
    match ty {
        Ty::Number => Type::Number,
        Ty::String => Type::String,
        Ty::Bool => Type::Bool,
        Ty::Date => Type::Date,
        Ty::Datetime => Type::Datetime,
        Ty::Interval => Type::Interval,
        Ty::Struct | Ty::List | Ty::Any | Ty::Unknown => Type::Any,
    }
}

/// The IR type of a checked subexpression's inferred type. A struct, a list,
/// or an untyped column can only reach here through an expression that failed
/// to check, so they become `Any`.
pub fn to_type(ty: Ty) -> (r: Type)
    ensures
        r == spec_to_type(ty),
{
    match ty {
        Ty::Number => Type::Number,
        Ty::String => Type::String,
        Ty::Bool => Type::Bool,
        Ty::Date => Type::Date,
        Ty::Datetime => Type::Datetime,
        Ty::Interval => Type::Interval,
        Ty::Struct | Ty::List | Ty::Any | Ty::Unknown => Type::Any,
    }
}

// --- The typed tree ------------------------------------------------------------

/// A checked assertion, ready to evaluate or translate.
#[derive(Debug)]
pub struct TypedAssertion {
    /// The expression's one `COLUMNS(...)`, if it has one. The selection stays
    /// symbolic: `root` holds [`NodeKind::Selected`] where it appeared.
    pub selection: Option<Selection>,
    pub root: TypedExpr,
}

#[derive(Debug)]
pub struct TypedExpr {
    pub kind: NodeKind,
    pub ty: Type,
    pub shape: Shape,
    /// Byte offsets in the assertion text, for diagnostics that point into it.
    pub span: (usize, usize),
}

#[derive(Debug)]
pub enum NodeKind {
    Int(i64),
    /// A number with a fractional part, as the digits it was written with.
    Float(String),
    Str(String),
    Bool(bool),
    Null,
    /// A string literal that met a `date` and reads as one.
    Date(CivilDate),
    /// A string literal that met a `datetime` and reads as one.
    Datetime(DatetimeConst),
    Column(ColumnRef),
    /// Stands for the column a [`Selection`] currently supplies.
    Selected,
    Neg(Box<TypedExpr>),
    Not(Box<TypedExpr>),
    Arith { op: ArithOp, lhs: Box<TypedExpr>, rhs: Box<TypedExpr> },
    Compare { op: CmpOp, lhs: Box<TypedExpr>, rhs: Box<TypedExpr> },
    And(Box<TypedExpr>, Box<TypedExpr>),
    Or(Box<TypedExpr>, Box<TypedExpr>),
    IsNull { operand: Box<TypedExpr>, negated: bool },
    Between { operand: Box<TypedExpr>, lo: Box<TypedExpr>, hi: Box<TypedExpr>, negated: bool },
    In { operand: Box<TypedExpr>, list: Vec<TypedExpr>, negated: bool },
    Like { operand: Box<TypedExpr>, pattern: LikePattern, negated: bool },
    SimilarTo { operand: Box<TypedExpr>, pattern: Box<TypedExpr>, negated: bool },
    Func { op: Op, args: Vec<TypedExpr> },
    Now,
    Interval { n: Box<TypedExpr>, unit: IntervalUnit },
    Case { whens: Vec<(TypedExpr, TypedExpr)>, els: Option<Box<TypedExpr>> },
}

/// A `LIKE` pattern, taken apart once so every backend agrees about it.
#[derive(Debug)]
pub enum LikePattern {
    /// `'abc'`: no wildcards, so plain equality.
    Exact(String),
    /// `'abc%'`
    Prefix(String),
    /// `'%abc'`
    Suffix(String),
    /// Anything else, as an anchored regex.
    Regex(String),
    /// A computed pattern.
    Dynamic(Box<TypedExpr>),
}

// --- Views ------------------------------------------------------------------------

pub open spec fn view_colref(c: ColumnRef) -> ColRefV {
    ColRefV { path: view_path(c.path@), ty: c.ty }
}

pub open spec fn view_colrefs(s: Seq<ColumnRef>) -> Seq<ColRefV> {
    s.map_values(|c: ColumnRef| view_colref(c))
}

pub open spec fn view_form(f: SelectorForm) -> FormV {
    match f {
        SelectorForm::All => FormV::All,
        SelectorForm::Regex(p) => FormV::Regex(p@),
        SelectorForm::List => FormV::List,
    }
}

pub open spec fn view_selection(s: Selection) -> SelectionV {
    SelectionV { form: view_form(s.form), columns: view_colrefs(s.columns@) }
}

pub open spec fn view_opt_selection(s: Option<Selection>) -> Option<SelectionV> {
    match s {
        Some(x) => Some(view_selection(x)),
        None => None,
    }
}

pub open spec fn view_texpr(t: TypedExpr) -> TExprV
    decreases t,
{
    TExprV {
        kind: view_tkind(t.kind),
        ty: t.ty,
        shape: t.shape,
        start: t.span.0 as int,
        end: t.span.1 as int,
    }
}

pub open spec fn view_like(p: LikePattern) -> LikeV
    decreases p,
{
    match p {
        LikePattern::Exact(s) => LikeV::Exact(s@),
        LikePattern::Prefix(s) => LikeV::Prefix(s@),
        LikePattern::Suffix(s) => LikeV::Suffix(s@),
        LikePattern::Regex(s) => LikeV::Regex(s@),
        LikePattern::Dynamic(x) => LikeV::Dynamic(Box::new(view_texpr(*x))),
    }
}

pub open spec fn view_tkind(k: NodeKind) -> TKindV
    decreases k,
{
    match k {
        NodeKind::Int(n) => TKindV::Int(n),
        NodeKind::Float(s) => TKindV::Float(s@),
        NodeKind::Str(s) => TKindV::Str(s@),
        NodeKind::Bool(b) => TKindV::Bool(b),
        NodeKind::Null => TKindV::Null,
        NodeKind::Date(d) => TKindV::Date(d),
        NodeKind::Datetime(t) => TKindV::Datetime(t),
        NodeKind::Column(c) => TKindV::Column(view_colref(c)),
        NodeKind::Selected => TKindV::Selected,
        NodeKind::Neg(x) => TKindV::Neg(Box::new(view_texpr(*x))),
        NodeKind::Not(x) => TKindV::Not(Box::new(view_texpr(*x))),
        NodeKind::Arith { op, lhs, rhs } => TKindV::Arith {
            op,
            lhs: Box::new(view_texpr(*lhs)),
            rhs: Box::new(view_texpr(*rhs)),
        },
        NodeKind::Compare { op, lhs, rhs } => TKindV::Compare {
            op,
            lhs: Box::new(view_texpr(*lhs)),
            rhs: Box::new(view_texpr(*rhs)),
        },
        NodeKind::And(l, r) => TKindV::And(Box::new(view_texpr(*l)), Box::new(view_texpr(*r))),
        NodeKind::Or(l, r) => TKindV::Or(Box::new(view_texpr(*l)), Box::new(view_texpr(*r))),
        NodeKind::IsNull { operand, negated } => TKindV::IsNull {
            operand: Box::new(view_texpr(*operand)),
            negated,
        },
        NodeKind::Between { operand, lo, hi, negated } => TKindV::Between {
            operand: Box::new(view_texpr(*operand)),
            lo: Box::new(view_texpr(*lo)),
            hi: Box::new(view_texpr(*hi)),
            negated,
        },
        NodeKind::In { operand, list, negated } => TKindV::In {
            operand: Box::new(view_texpr(*operand)),
            list: view_tlist(list@),
            negated,
        },
        NodeKind::Like { operand, pattern, negated } => TKindV::Like {
            operand: Box::new(view_texpr(*operand)),
            pattern: view_like(pattern),
            negated,
        },
        NodeKind::SimilarTo { operand, pattern, negated } => TKindV::SimilarTo {
            operand: Box::new(view_texpr(*operand)),
            pattern: Box::new(view_texpr(*pattern)),
            negated,
        },
        NodeKind::Func { op, args } => TKindV::Func { op, args: view_tlist(args@) },
        NodeKind::Now => TKindV::Now,
        NodeKind::Interval { n, unit } => TKindV::Interval { n: Box::new(view_texpr(*n)), unit },
        NodeKind::Case { whens, els } => TKindV::Case {
            whens: view_twhens(whens@),
            els: match els {
                Some(x) => Some(Box::new(view_texpr(*x))),
                None => None,
            },
        },
    }
}

pub open spec fn view_tlist(s: Seq<TypedExpr>) -> Seq<TExprV>
    decreases s,
{
    if s.len() == 0 {
        seq![]
    } else {
        view_tlist(s.drop_last()).push(view_texpr(s.last()))
    }
}

pub open spec fn view_twhens(s: Seq<(TypedExpr, TypedExpr)>) -> Seq<(TExprV, TExprV)>
    decreases s,
{
    if s.len() == 0 {
        seq![]
    } else {
        view_twhens(s.drop_last()).push((view_texpr(s.last().0), view_texpr(s.last().1)))
    }
}

pub proof fn lemma_view_tlist(s: Seq<TypedExpr>)
    ensures
        view_tlist(s).len() == s.len(),
        forall|i: int| 0 <= i < s.len() ==> #[trigger] view_tlist(s)[i] == view_texpr(s[i]),
    decreases s.len(),
{
    if s.len() > 0 {
        lemma_view_tlist(s.drop_last());
    }
}

pub proof fn lemma_view_twhens(s: Seq<(TypedExpr, TypedExpr)>)
    ensures
        view_twhens(s).len() == s.len(),
        forall|i: int|
            0 <= i < s.len() ==> #[trigger] view_twhens(s)[i] == (view_texpr(s[i].0), view_texpr(s[i].1)),
    decreases s.len(),
{
    if s.len() > 0 {
        lemma_view_twhens(s.drop_last());
    }
}

// --- Reading the typed tree ---------------------------------------------------------

pub open spec fn view_refs(s: Seq<&TypedExpr>) -> Seq<TExprV> {
    s.map_values(|x: &TypedExpr| view_texpr(*x))
}

impl TypedExpr {
    /// This node's operands, in the order they are written, for a walk over
    /// the tree.
    pub fn children(&self) -> (r: Vec<&TypedExpr>)
        ensures
            view_refs(r@) == children_v(view_texpr(*self)),
    {
        let mut out: Vec<&TypedExpr> = Vec::new();
        match &self.kind {
            NodeKind::Neg(x) => out.push(&**x),
            NodeKind::Not(x) => out.push(&**x),
            NodeKind::Arith { lhs, rhs, .. } => {
                out.push(&**lhs);
                out.push(&**rhs);
            },
            NodeKind::Compare { lhs, rhs, .. } => {
                out.push(&**lhs);
                out.push(&**rhs);
            },
            NodeKind::And(l, r) => {
                out.push(&**l);
                out.push(&**r);
            },
            NodeKind::Or(l, r) => {
                out.push(&**l);
                out.push(&**r);
            },
            NodeKind::IsNull { operand, .. } => out.push(&**operand),
            NodeKind::Between { operand, lo, hi, .. } => {
                out.push(&**operand);
                out.push(&**lo);
                out.push(&**hi);
            },
            NodeKind::In { operand, list, .. } => {
                out.push(&**operand);
                push_all(&mut out, list);
            },
            NodeKind::Like { operand, pattern, .. } => {
                out.push(&**operand);
                assert(view_texpr(*self).kind == view_tkind(self.kind));
                if let LikePattern::Dynamic(p) = pattern {
                    out.push(&**p);
                    assert(view_like(*pattern) == LikeV::Dynamic(Box::new(view_texpr(**p))));
                    assert(view_refs(out@) =~= children_v(view_texpr(*self)));
                } else {
                    assert(view_like(*pattern) !is Dynamic);
                    assert(view_refs(out@) =~= children_v(view_texpr(*self)));
                }
            },
            NodeKind::SimilarTo { operand, pattern, .. } => {
                out.push(&**operand);
                out.push(&**pattern);
            },
            NodeKind::Func { args, .. } => {
                assert(view_refs(out@) =~= Seq::<TExprV>::empty());
                push_all(&mut out, args);
                assert(Seq::<TExprV>::empty() + view_tlist(args@) =~= view_tlist(args@));
            },
            NodeKind::Interval { n, .. } => out.push(&**n),
            NodeKind::Case { whens, els } => {
                let ghost before = view_refs(out@);
                assert(before =~= Seq::<TExprV>::empty());
                proof {
                    lemma_view_twhens(whens@);
                }
                let ghost wv = view_twhens(whens@);
                let mut i: usize = 0;
                while i < whens.len()
                    invariant
                        i <= whens@.len(),
                        wv == view_twhens(whens@),
                        wv.len() == whens@.len(),
                        forall|k: int| 0 <= k < whens@.len() ==> #[trigger] wv[k] == (view_texpr(whens@[k].0), view_texpr(whens@[k].1)),
                        view_refs(out@) == before + flat_whens(wv.take(i as int)),
                    decreases whens@.len() - i,
                {
                    let ghost prev = view_refs(out@);
                    out.push(&whens[i].0);
                    out.push(&whens[i].1);
                    proof {
                        let t = wv.take(i + 1);
                        assert(t.drop_last() =~= wv.take(i as int));
                        assert(t.last() == wv[i as int]);
                        assert(view_refs(out@) =~= prev + seq![wv[i as int].0, wv[i as int].1]);
                    }
                    i = i + 1;
                }
                assert(wv.take(i as int) =~= wv);
                if let Some(x) = els {
                    out.push(&**x);
                }
            },
            _ => {},
        }
        proof {
            let v = view_texpr(*self);
            match &self.kind {
                NodeKind::In { list, .. } => {
                    assert(view_refs(out@) =~= children_v(v));
                },
                NodeKind::Func { args, .. } => {
                    assert(view_refs(out@) =~= children_v(v));
                },
                NodeKind::Case { whens, els } => {
                    assert(view_refs(out@) =~= children_v(v));
                },
                _ => {
                    assert(view_refs(out@) =~= children_v(v));
                },
            }
        }
        out
    }
}

/// `out` followed by a reference to each item of `items`.
fn push_all<'b>(out: &mut Vec<&'b TypedExpr>, items: &'b Vec<TypedExpr>)
    ensures
        view_refs(final(out)@) == view_refs(old(out)@) + view_tlist(items@),
{
    proof {
        lemma_view_tlist(items@);
    }
    let ghost before = view_refs(out@);
    let ghost v = view_tlist(items@);
    let mut i: usize = 0;
    while i < items.len()
        invariant
            i <= items@.len(),
            v == view_tlist(items@),
            v.len() == items@.len(),
            forall|k: int| 0 <= k < items@.len() ==> #[trigger] v[k] == view_texpr(items@[k]),
            view_refs(out@) == before + v.take(i as int),
        decreases items@.len() - i,
    {
        let ghost prev = view_refs(out@);
        out.push(&items[i]);
        proof {
            assert(view_refs(out@) =~= prev.push(v[i as int]));
            assert(v.take(i + 1) =~= v.take(i as int).push(v[i as int]));
        }
        i = i + 1;
    }
    assert(v.take(i as int) =~= v);
}

/// `c` added to `out` unless a column with its path is already there.
fn push_once_ref(out: &mut Vec<ColumnRef>, c: &ColumnRef)
    ensures
        view_colrefs(final(out)@) == push_once(view_colrefs(old(out)@), view_colref(*c)),
{
    let ghost ov = view_colrefs(out@);
    let mut i: usize = 0;
    while i < out.len()
        invariant
            i <= out@.len(),
            ov == view_colrefs(out@),
            forall|k: int| 0 <= k < i ==> (#[trigger] ov[k]).path != view_path(c.path@),
        decreases out@.len() - i,
    {
        if same_path(&out[i].path, c.path.as_slice()) {
            assert(ov[i as int].path == view_colref(*c).path);
            return;
        }
        i = i + 1;
    }
    let ghost before = out@;
    out.push(ColumnRef { path: copy_path(&c.path), ty: c.ty });
    assert(view_colrefs(out@) =~= view_colrefs(before).push(view_colref(*c)));
}

#[verifier::rlimit(60)]
#[verifier::spinoff_prover]
fn collect(e: &TypedExpr, out: &mut Vec<ColumnRef>)
    ensures
        view_colrefs(final(out)@) == once_all(view_colrefs(old(out)@), refs_in(view_texpr(*e))),
    decreases e,
{
    let ghost o0 = view_colrefs(out@);
    assert(view_texpr(*e).kind == view_tkind(e.kind));
    let ghost own = match view_texpr(*e).kind {
        TKindV::Column(c) => seq![c],
        _ => Seq::<ColRefV>::empty(),
    };
    if let NodeKind::Column(c) = &e.kind {
        push_once_ref(out, c);
        proof {
            assert(own == seq![view_colref(*c)]);
            assert(own.drop_last() =~= Seq::<ColRefV>::empty());
            assert(own.last() == view_colref(*c));
            assert(once_all(o0, own.drop_last()) == o0);
        }
    } else {
        assert(own =~= Seq::<ColRefV>::empty());
    }
    let ghost o1 = view_colrefs(out@);
    assert(o1 == once_all(o0, own));
    match &e.kind {
        NodeKind::Neg(x) => collect(x, out),
        NodeKind::Not(x) => collect(x, out),
        NodeKind::Arith { lhs, rhs, .. } => {
            collect(lhs, out);
            collect(rhs, out);
            proof { lemma_once_all_concat(o1, refs_in(view_texpr(**lhs)), refs_in(view_texpr(**rhs))); }
        },
        NodeKind::Compare { lhs, rhs, .. } => {
            collect(lhs, out);
            collect(rhs, out);
            proof { lemma_once_all_concat(o1, refs_in(view_texpr(**lhs)), refs_in(view_texpr(**rhs))); }
        },
        NodeKind::And(l, r) => {
            collect(l, out);
            collect(r, out);
            proof { lemma_once_all_concat(o1, refs_in(view_texpr(**l)), refs_in(view_texpr(**r))); }
        },
        NodeKind::Or(l, r) => {
            collect(l, out);
            collect(r, out);
            proof { lemma_once_all_concat(o1, refs_in(view_texpr(**l)), refs_in(view_texpr(**r))); }
        },
        NodeKind::IsNull { operand, .. } => collect(operand, out),
        NodeKind::Between { operand, lo, hi, .. } => {
            collect(operand, out);
            collect(lo, out);
            collect(hi, out);
            proof {
                let a = refs_in(view_texpr(**operand));
                let b = refs_in(view_texpr(**lo));
                let c = refs_in(view_texpr(**hi));
                lemma_once_all_concat(o1, a, b);
                lemma_once_all_concat(o1, a + b, c);
            }
        },
        NodeKind::In { operand, list, .. } => {
            collect(operand, out);
            collect_list(list, out);
            proof { lemma_once_all_concat(o1, refs_in(view_texpr(**operand)), refs_list(view_tlist(list@))); }
        },
        NodeKind::Like { operand, pattern, .. } => {
            collect(operand, out);
            if let LikePattern::Dynamic(p) = pattern {
                collect(p, out);
                assert(view_like(*pattern) == LikeV::Dynamic(Box::new(view_texpr(**p))));
                proof { lemma_once_all_concat(o1, refs_in(view_texpr(**operand)), refs_in(view_texpr(**p))); }
            } else {
                assert(view_like(*pattern) !is Dynamic);
                assert(refs_in(view_texpr(**operand)) + seq![] =~= refs_in(view_texpr(**operand)));
            }
        },
        NodeKind::SimilarTo { operand, pattern, .. } => {
            collect(operand, out);
            collect(pattern, out);
            proof { lemma_once_all_concat(o1, refs_in(view_texpr(**operand)), refs_in(view_texpr(**pattern))); }
        },
        NodeKind::Func { args, .. } => collect_list(args, out),
        NodeKind::Interval { n, .. } => collect(n, out),
        NodeKind::Case { whens, els } => {
            collect_whens(whens, out);
            match els {
                Some(x) => {
                    collect(x, out);
                    proof { lemma_once_all_concat(o1, refs_whens(view_twhens(whens@)), refs_in(view_texpr(**x))); }
                },
                None => {
                    assert(refs_whens(view_twhens(whens@)) + seq![] =~= refs_whens(view_twhens(whens@)));
                },
            }
        },
        _ => {
            assert(once_all(o1, seq![]) == o1);
        },
    }
    proof {
        let rest = refs_in(view_texpr(*e)).skip(own.len() as int);
        assert(refs_in(view_texpr(*e)) =~= own + rest);
        lemma_once_all_concat(o0, own, rest);
    }
}

fn collect_list(s: &Vec<TypedExpr>, out: &mut Vec<ColumnRef>)
    ensures
        view_colrefs(final(out)@) == once_all(view_colrefs(old(out)@), refs_list(view_tlist(s@))),
    decreases s,
{
    proof {
        lemma_view_tlist(s@);
    }
    let ghost o0 = view_colrefs(out@);
    let ghost v = view_tlist(s@);
    let mut i: usize = 0;
    while i < s.len()
        invariant
            i <= s@.len(),
            v == view_tlist(s@),
            v.len() == s@.len(),
            forall|k: int| 0 <= k < s@.len() ==> #[trigger] v[k] == view_texpr(s@[k]),
            view_colrefs(out@) == once_all(o0, refs_list(v.take(i as int))),
        decreases s@.len() - i,
    {
        let ghost before = view_colrefs(out@);
        collect(&s[i], out);
        proof {
            let t = v.take(i + 1);
            assert(t.drop_last() =~= v.take(i as int));
            assert(t.last() == v[i as int]);
            lemma_once_all_concat(o0, refs_list(v.take(i as int)), refs_in(v[i as int]));
        }
        i = i + 1;
    }
    assert(v.take(i as int) =~= v);
}

fn collect_whens(s: &Vec<(TypedExpr, TypedExpr)>, out: &mut Vec<ColumnRef>)
    ensures
        view_colrefs(final(out)@) == once_all(view_colrefs(old(out)@), refs_whens(view_twhens(s@))),
    decreases s,
{
    proof {
        lemma_view_twhens(s@);
    }
    let ghost o0 = view_colrefs(out@);
    let ghost v = view_twhens(s@);
    let mut i: usize = 0;
    while i < s.len()
        invariant
            i <= s@.len(),
            v == view_twhens(s@),
            v.len() == s@.len(),
            forall|k: int| 0 <= k < s@.len() ==> #[trigger] v[k] == (view_texpr(s@[k].0), view_texpr(s@[k].1)),
            view_colrefs(out@) == once_all(o0, refs_whens(v.take(i as int))),
        decreases s@.len() - i,
    {
        collect(&s[i].0, out);
        collect(&s[i].1, out);
        proof {
            let t = v.take(i + 1);
            assert(t.drop_last() =~= v.take(i as int));
            assert(t.last() == v[i as int]);
            let a = refs_whens(v.take(i as int));
            let b = refs_in(v[i as int].0);
            let c = refs_in(v[i as int].1);
            lemma_once_all_concat(o0, a, b);
            lemma_once_all_concat(o0, a + b, c);
        }
        i = i + 1;
    }
    assert(v.take(i as int) =~= v);
}

impl TypedAssertion {
    /// Every column the expression reads, each once, in the order it first
    /// names them, then the ones a `COLUMNS(...)` resolved to. A caller knows
    /// from this which columns to select or load before evaluating.
    pub fn columns(&self) -> (r: Vec<ColumnRef>)
        ensures
            view_colrefs(r@) == columns_read(view_texpr(self.root), view_opt_selection(self.selection)),
    {
        let mut out: Vec<ColumnRef> = Vec::new();
        assert(view_colrefs(out@) =~= Seq::<ColRefV>::empty());
        collect(&self.root, &mut out);
        if let Some(selection) = &self.selection {
            let ghost named = view_colrefs(out@);
            let cols = &selection.columns;
            let mut i: usize = 0;
            while i < cols.len()
                invariant
                    i <= cols@.len(),
                    view_colrefs(out@) == once_all(named, view_colrefs(cols@).take(i as int)),
                decreases cols@.len() - i,
            {
                push_once_ref(&mut out, &cols[i]);
                proof {
                    let t = view_colrefs(cols@).take(i + 1);
                    assert(t.drop_last() =~= view_colrefs(cols@).take(i as int));
                }
                i = i + 1;
            }
            assert(view_colrefs(cols@).take(i as int) =~= view_colrefs(cols@));
        }
        out
    }
}

} // verus!
