//! What lowering a checked assertion gives, read as mathematics: the typed
//! tree, node by node, and the `COLUMNS(...)` selection the walk records.
//! The walk runs left to right and stops at the first thing that does not
//! resolve.

use vstd::prelude::*;

use super::grammar::{lowered, ExprV, KindV, NamedV, NumV, SelV};
use super::ir::{
    op_named, spec_to_type, unit_named, CivilDate, DatetimeConst, IntervalUnit, Op, Type,
};
use super::rules::{
    date_literal, datetime_literal, env_column, env_field, lemma_pair_sizes_step, lemma_size_pos,
    lemma_sizes_step, pair_sizes_from, regex_columns, regex_compile_error, signature, size,
    sizes_from, EnvV,
};
use super::{spec_kind_to_ty, spec_max_shape, ArithOp, CmpOp, ColumnKind, Shape};

verus! {

// --- Trees -------------------------------------------------------------------

/// A column or a struct field, with the type the dictionary gives it.
pub struct ColRefV {
    pub path: Seq<Seq<char>>,
    pub ty: Type,
}

pub enum FormV {
    All,
    Regex(Seq<char>),
    List,
}

/// A resolved `COLUMNS(...)`: how it was written, and the columns it picks.
pub struct SelectionV {
    pub form: FormV,
    pub columns: Seq<ColRefV>,
}

pub enum LikeV {
    Exact(Seq<char>),
    Prefix(Seq<char>),
    Suffix(Seq<char>),
    Regex(Seq<char>),
    Dynamic(Box<TExprV>),
}

pub enum TKindV {
    Int(i64),
    Float(Seq<char>),
    Str(Seq<char>),
    Bool(bool),
    Null,
    Date(CivilDate),
    Datetime(DatetimeConst),
    Column(ColRefV),
    Selected,
    Neg(Box<TExprV>),
    Not(Box<TExprV>),
    Arith { op: ArithOp, lhs: Box<TExprV>, rhs: Box<TExprV> },
    Compare { op: CmpOp, lhs: Box<TExprV>, rhs: Box<TExprV> },
    And(Box<TExprV>, Box<TExprV>),
    Or(Box<TExprV>, Box<TExprV>),
    IsNull { operand: Box<TExprV>, negated: bool },
    Between { operand: Box<TExprV>, lo: Box<TExprV>, hi: Box<TExprV>, negated: bool },
    In { operand: Box<TExprV>, list: Seq<TExprV>, negated: bool },
    Like { operand: Box<TExprV>, pattern: LikeV, negated: bool },
    SimilarTo { operand: Box<TExprV>, pattern: Box<TExprV>, negated: bool },
    Func { op: Op, args: Seq<TExprV> },
    Now,
    Interval { n: Box<TExprV>, unit: IntervalUnit },
    Case { whens: Seq<(TExprV, TExprV)>, els: Option<Box<TExprV>> },
}

/// A typed node: what it is, its type, its shape, and the byte offsets it
/// spans in the assertion.
pub struct TExprV {
    pub kind: TKindV,
    pub ty: Type,
    pub shape: Shape,
    pub start: int,
    pub end: int,
}

/// What lowering from a point gives: a value and the selection recorded so
/// far, or nothing when something does not resolve.
pub type Lo<A> = Option<(A, Option<SelectionV>)>;

// --- Leaves --------------------------------------------------------------------

pub open spec fn node(kind: TKindV, ty: Type, shape: Shape, e: ExprV) -> TExprV {
    TExprV { kind, ty, shape, start: e.start, end: e.end }
}

pub open spec fn column_ty(kind: ColumnKind) -> Type {
    spec_to_type(spec_kind_to_ty(kind))
}

/// A column (one segment) or a field (more), resolved against the table.
pub open spec fn column_ref(env: EnvV, path: Seq<Seq<char>>) -> Option<ColRefV> {
    let kind = if path.len() == 1 {
        env_column(env, path[0])
    } else {
        env_field(env, path)
    };
    match kind {
        Some(k) => Some(ColRefV { path, ty: column_ty(k) }),
        None => None,
    }
}

pub open spec fn refs_of(cols: Seq<(Seq<char>, ColumnKind)>) -> Seq<ColRefV> {
    cols.map_values(|c: (Seq<char>, ColumnKind)| ColRefV { path: seq![c.0], ty: column_ty(c.1) })
}

/// The listed names as columns, each of which must exist.
pub open spec fn listed_refs(env: EnvV, names: Seq<NamedV>) -> Option<Seq<ColRefV>>
    decreases names.len(),
{
    if names.len() == 0 {
        Some(seq![])
    } else {
        match (listed_refs(env, names.drop_last()), env_column(env, names.last().name)) {
            (Some(rest), Some(k)) => Some(rest.push(ColRefV { path: seq![names.last().name], ty: column_ty(k) })),
            _ => None,
        }
    }
}

/// What a `COLUMNS(...)` resolves to.
pub open spec fn resolve_selection(env: EnvV, sel: SelV) -> Option<SelectionV> {
    match sel {
        SelV::All => Some(SelectionV { form: FormV::All, columns: refs_of(env.columns) }),
        SelV::Regex { pattern, .. } => if regex_compile_error(pattern) is Some {
            None
        } else {
            Some(SelectionV { form: FormV::Regex(pattern), columns: refs_of(regex_columns(pattern, env.columns)) })
        },
        SelV::List(names) => match listed_refs(env, names) {
            Some(cols) => Some(SelectionV { form: FormV::List, columns: cols }),
            None => None,
        },
    }
}

/// A string literal that meets a date or a datetime becomes one, when it
/// reads as one; anything else stays as it is.
pub open spec fn coerce(t: TExprV, target: Type) -> TExprV {
    match t.kind {
        TKindV::Str(s) => if target == Type::Date && date_literal(s) is Some {
            TExprV { kind: TKindV::Date(date_literal(s)->0), ty: Type::Date, ..t }
        } else if target == Type::Datetime && datetime_literal(s) is Some {
            TExprV { kind: TKindV::Datetime(datetime_literal(s)->0), ty: Type::Datetime, ..t }
        } else {
            t
        },
        _ => t,
    }
}

pub open spec fn is_temporal_type(t: Type) -> bool {
    t == Type::Date || t == Type::Datetime
}

/// A shifted date or datetime is a datetime; any other arithmetic is a number.
pub open spec fn arith_type(l: Type, r: Type) -> Type {
    if (is_temporal_type(l) || is_temporal_type(r)) && (l == Type::Interval || r == Type::Interval) {
        Type::Datetime
    } else {
        Type::Number
    }
}

// --- LIKE patterns -------------------------------------------------------------

pub open spec fn is_wild(c: char) -> bool {
    c == '%' || c == '_'
}

pub open spec fn wild_count(p: Seq<char>) -> nat
    decreases p.len(),
{
    if p.len() == 0 {
        0
    } else {
        wild_count(p.drop_last()) + if is_wild(p.last()) { 1nat } else { 0nat }
    }
}

/// `regex_syntax::is_meta_character`.
pub open spec fn is_meta(c: char) -> bool {
    c == '\\' || c == '.' || c == '+' || c == '*' || c == '?' || c == '(' || c == ')' || c == '|'
        || c == '[' || c == ']' || c == '{' || c == '}' || c == '^' || c == '$' || c == '#'
        || c == '&' || c == '-' || c == '~'
}

/// `regex::escape`: each meta character preceded by a backslash.
pub open spec fn escaped(s: Seq<char>) -> Seq<char>
    decreases s.len(),
{
    if s.len() == 0 {
        seq![]
    } else {
        escaped(s.drop_last()) + if is_meta(s.last()) {
            seq!['\\', s.last()]
        } else {
            seq![s.last()]
        }
    }
}

pub open spec fn like_piece(c: char) -> Seq<char> {
    if c == '%' {
        ".*"@
    } else if c == '_' {
        "."@
    } else {
        escaped(seq![c])
    }
}

pub open spec fn like_body(p: Seq<char>) -> Seq<char>
    decreases p.len(),
{
    if p.len() == 0 {
        seq![]
    } else {
        like_body(p.drop_last()) + like_piece(p.last())
    }
}

/// A literal `LIKE` pattern taken apart: no wildcard is equality, one `%` at
/// either end is a prefix or a suffix test, and anything else an anchored
/// regex in which every other character is literal.
pub open spec fn like_pattern(p: Seq<char>) -> LikeV {
    if wild_count(p) == 0 {
        LikeV::Exact(p)
    } else if wild_count(p) == 1 && p.len() > 0 && p.last() == '%' {
        LikeV::Prefix(p.drop_last())
    } else if wild_count(p) == 1 && p.len() > 0 && p[0] == '%' {
        LikeV::Suffix(p.drop_first())
    } else {
        LikeV::Regex("^"@ + like_body(p) + "$"@)
    }
}

// --- Folds over operands --------------------------------------------------------

pub open spec fn max_shapes(start: Shape, s: Seq<TExprV>) -> Shape
    decreases s.len(),
{
    if s.len() == 0 {
        start
    } else {
        spec_max_shape(max_shapes(start, s.drop_last()), s.last().shape)
    }
}

pub open spec fn when_shapes(start: Shape, s: Seq<(TExprV, TExprV)>) -> Shape
    decreases s.len(),
{
    if s.len() == 0 {
        start
    } else {
        spec_max_shape(spec_max_shape(when_shapes(start, s.drop_last()), s.last().0.shape), s.last().1.shape)
    }
}

/// One more branch type into a `CASE`'s type so far.
pub open spec fn merge_type(acc: Option<Type>, t: Type) -> Option<Type> {
    match acc {
        None => Some(t),
        Some(prev) => if prev == t || t == Type::Any {
            Some(prev)
        } else if prev == Type::Any {
            Some(t)
        } else {
            Some(Type::Any)
        },
    }
}

pub open spec fn when_types(s: Seq<(TExprV, TExprV)>) -> Option<Type>
    decreases s.len(),
{
    if s.len() == 0 {
        None
    } else {
        merge_type(when_types(s.drop_last()), s.last().1.ty)
    }
}

/// A `CASE`'s type: its branches' common type, or `Any` when they disagree.
pub open spec fn case_type(whens: Seq<(TExprV, TExprV)>, els: Option<Box<TExprV>>) -> Type {
    let acc = match els {
        Some(x) => merge_type(when_types(whens), x.ty),
        None => when_types(whens),
    };
    match acc {
        Some(t) => t,
        None => Type::Any,
    }
}

// --- The walk ---------------------------------------------------------------------

pub open spec fn boxed(t: TExprV) -> Box<TExprV> {
    Box::new(t)
}

/// Lower `e`, with `sel` the selection recorded so far.
pub open spec fn lower_e(env: EnvV, e: ExprV, sel: Option<SelectionV>) -> Lo<TExprV>
    decreases size(e), 0int,
{
    proof {
        lemma_size_pos(e);
    }
    match e.kind {
        KindV::Number(NumV::Int(n)) => Some((node(TKindV::Int(n), Type::Number, Shape::Const, e), sel)),
        KindV::Number(NumV::Float(t)) => Some((node(TKindV::Float(t), Type::Number, Shape::Const, e), sel)),
        KindV::Str(s) => Some((node(TKindV::Str(s), Type::String, Shape::Const, e), sel)),
        KindV::Bool(b) => Some((node(TKindV::Bool(b), Type::Bool, Shape::Const, e), sel)),
        KindV::Null => Some((node(TKindV::Null, Type::Any, Shape::Const, e), sel)),
        KindV::Now => Some((node(TKindV::Now, Type::Datetime, Shape::Const, e), sel)),
        KindV::Column(path) => match column_ref(env, path) {
            Some(c) => Some((node(TKindV::Column(c), c.ty, Shape::Row, e), sel)),
            None => None,
        },
        KindV::Columns(s) => match resolve_selection(env, s) {
            Some(x) => Some((node(TKindV::Selected, Type::Any, Shape::Row, e), Some(x))),
            None => None,
        },
        KindV::Neg(x) => match lower_e(env, *x, sel) {
            Some((a, s1)) => Some((node(TKindV::Neg(boxed(a)), Type::Number, a.shape, e), s1)),
            None => None,
        },
        KindV::Not(x) => match lower_e(env, *x, sel) {
            Some((a, s1)) => Some((node(TKindV::Not(boxed(a)), Type::Bool, a.shape, e), s1)),
            None => None,
        },
        KindV::And(l, r) => match lower_e(env, *l, sel) {
            Some((a, s1)) => match lower_e(env, *r, s1) {
                Some((b, s2)) => Some((
                    node(TKindV::And(boxed(a), boxed(b)), Type::Bool, spec_max_shape(a.shape, b.shape), e),
                    s2,
                )),
                None => None,
            },
            None => None,
        },
        KindV::Or(l, r) => match lower_e(env, *l, sel) {
            Some((a, s1)) => match lower_e(env, *r, s1) {
                Some((b, s2)) => Some((
                    node(TKindV::Or(boxed(a), boxed(b)), Type::Bool, spec_max_shape(a.shape, b.shape), e),
                    s2,
                )),
                None => None,
            },
            None => None,
        },
        KindV::Arith { op, lhs, rhs } => match lower_e(env, *lhs, sel) {
            Some((a, s1)) => match lower_e(env, *rhs, s1) {
                Some((b, s2)) => Some((
                    node(
                        TKindV::Arith { op, lhs: boxed(a), rhs: boxed(b) },
                        arith_type(a.ty, b.ty),
                        spec_max_shape(a.shape, b.shape),
                        e,
                    ),
                    s2,
                )),
                None => None,
            },
            None => None,
        },
        KindV::Compare { op, lhs, rhs } => match lower_e(env, *lhs, sel) {
            Some((a, s1)) => match lower_e(env, *rhs, s1) {
                Some((b, s2)) => Some((
                    node(
                        TKindV::Compare { op, lhs: boxed(coerce(a, b.ty)), rhs: boxed(coerce(b, a.ty)) },
                        Type::Bool,
                        spec_max_shape(a.shape, b.shape),
                        e,
                    ),
                    s2,
                )),
                None => None,
            },
            None => None,
        },
        KindV::IsNull { operand, negated } => match lower_e(env, *operand, sel) {
            Some((a, s1)) => Some((
                node(TKindV::IsNull { operand: boxed(a), negated }, Type::Bool, a.shape, e),
                s1,
            )),
            None => None,
        },
        KindV::Between { operand, lo, hi, negated } => match lower_e(env, *operand, sel) {
            Some((a, s1)) => match lower_e(env, *lo, s1) {
                Some((l, s2)) => match lower_e(env, *hi, s2) {
                    Some((h, s3)) => {
                        let a1 = coerce(a, l.ty);
                        let l1 = coerce(l, a.ty);
                        let a2 = coerce(a1, h.ty);
                        let h1 = coerce(h, a1.ty);
                        Some((
                            node(
                                TKindV::Between { operand: boxed(a2), lo: boxed(l1), hi: boxed(h1), negated },
                                Type::Bool,
                                spec_max_shape(spec_max_shape(a.shape, l.shape), h.shape),
                                e,
                            ),
                            s3,
                        ))
                    },
                    None => None,
                },
                None => None,
            },
            None => None,
        },
        KindV::In { operand, list, negated } => match lower_e(env, *operand, sel) {
            Some((a, s1)) => match lower_items(env, list, 0, s1, a.ty) {
                Some((items, s2)) => {
                    let a1 = if items.len() > 0 { coerce(a, items[0].ty) } else { a };
                    Some((
                        node(TKindV::In { operand: boxed(a1), list: items, negated }, Type::Bool, max_shapes(a.shape, items), e),
                        s2,
                    ))
                },
                None => None,
            },
            None => None,
        },
        KindV::Like { operand, pattern, negated } => match lower_e(env, *operand, sel) {
            Some((a, s1)) => match pattern.kind {
                KindV::Str(p) => Some((
                    node(TKindV::Like { operand: boxed(a), pattern: like_pattern(p), negated }, Type::Bool, a.shape, e),
                    s1,
                )),
                _ => match lower_e(env, *pattern, s1) {
                    Some((p, s2)) => Some((
                        node(
                            TKindV::Like { operand: boxed(a), pattern: LikeV::Dynamic(boxed(p)), negated },
                            Type::Bool,
                            a.shape,
                            e,
                        ),
                        s2,
                    )),
                    None => None,
                },
            },
            None => None,
        },
        KindV::SimilarTo { operand, pattern, negated } => match lower_e(env, *operand, sel) {
            Some((a, s1)) => match lower_e(env, *pattern, s1) {
                Some((p, s2)) => Some((
                    node(
                        TKindV::SimilarTo { operand: boxed(a), pattern: boxed(p), negated },
                        Type::Bool,
                        spec_max_shape(a.shape, p.shape),
                        e,
                    ),
                    s2,
                )),
                None => None,
            },
            None => None,
        },
        KindV::Interval { n, unit, .. } => match lower_e(env, *n, sel) {
            Some((a, s1)) => match unit_named(lowered(unit)) {
                Some(u) => Some((node(TKindV::Interval { n: boxed(a), unit: u }, Type::Interval, a.shape, e), s1)),
                None => None,
            },
            None => None,
        },
        KindV::Call { name, args } => match (op_named(lowered(name)), signature(lowered(name))) {
            (Some(op), Some(sig)) => match lower_list(env, args, 0, sel) {
                Some((xs, s1)) => {
                    let ty = match sig.ret {
                        Some(t) => spec_to_type(t),
                        None => if xs.len() > 0 { xs[0].ty } else { Type::Any },
                    };
                    let shape = if sig.aggregate { Shape::Agg } else { max_shapes(Shape::Const, xs) };
                    Some((node(TKindV::Func { op, args: xs }, ty, shape, e), s1))
                },
                None => None,
            },
            _ => None,
        },
        KindV::Case { whens, els } => match lower_whens(env, whens, 0, sel) {
            Some((ws, s1)) => match els {
                Some(x) => match lower_e(env, *x, s1) {
                    Some((b, s2)) => Some((
                        node(
                            TKindV::Case { whens: ws, els: Some(boxed(b)) },
                            case_type(ws, Some(boxed(b))),
                            spec_max_shape(when_shapes(Shape::Const, ws), b.shape),
                            e,
                        ),
                        s2,
                    )),
                    None => None,
                },
                None => Some((
                    node(TKindV::Case { whens: ws, els: None }, case_type(ws, None), when_shapes(Shape::Const, ws), e),
                    s1,
                )),
            },
            None => None,
        },
    }
}

/// `s[i..]` lowered in turn.
pub open spec fn lower_list(env: EnvV, s: Seq<ExprV>, i: int, sel: Option<SelectionV>) -> Lo<Seq<TExprV>>
    decreases sizes_from(s, i), 1int,
{
    if 0 <= i < s.len() {
        proof {
            lemma_sizes_step(s, i);
        }
        match lower_e(env, s[i], sel) {
            Some((t, s1)) => match lower_list(env, s, i + 1, s1) {
                Some((ts, s2)) => Some((seq![t] + ts, s2)),
                None => None,
            },
            None => None,
        }
    } else {
        Some((seq![], sel))
    }
}

/// `s[i..]` lowered in turn, each made to meet a value of type `target`.
pub open spec fn lower_items(env: EnvV, s: Seq<ExprV>, i: int, sel: Option<SelectionV>, target: Type) -> Lo<Seq<TExprV>>
    decreases sizes_from(s, i), 1int,
{
    if 0 <= i < s.len() {
        proof {
            lemma_sizes_step(s, i);
        }
        match lower_e(env, s[i], sel) {
            Some((t, s1)) => match lower_items(env, s, i + 1, s1, target) {
                Some((ts, s2)) => Some((seq![coerce(t, target)] + ts, s2)),
                None => None,
            },
            None => None,
        }
    } else {
        Some((seq![], sel))
    }
}

/// The `WHEN ... THEN ...` pairs `s[i..]` lowered in turn.
pub open spec fn lower_whens(env: EnvV, s: Seq<(ExprV, ExprV)>, i: int, sel: Option<SelectionV>) -> Lo<Seq<(TExprV, TExprV)>>
    decreases pair_sizes_from(s, i), 1int,
{
    if 0 <= i < s.len() {
        proof {
            lemma_pair_sizes_step(s, i);
        }
        match lower_e(env, s[i].0, sel) {
            Some((c, s1)) => match lower_e(env, s[i].1, s1) {
                Some((r, s2)) => match lower_whens(env, s, i + 1, s2) {
                    Some((ws, s3)) => Some((seq![(c, r)] + ws, s3)),
                    None => None,
                },
                None => None,
            },
            None => None,
        }
    } else {
        Some((seq![], sel))
    }
}

/// A checked assertion's typed tree, and the selection its `COLUMNS(...)`
/// resolved to, if it has one.
pub open spec fn lower_assertion(env: EnvV, e: ExprV) -> Option<(TExprV, Option<SelectionV>)> {
    lower_e(env, e, None)
}

// --- Reading the typed tree ---------------------------------------------------------

/// The `WHEN` conditions and results, in order.
pub open spec fn flat_whens(s: Seq<(TExprV, TExprV)>) -> Seq<TExprV>
    decreases s.len(),
{
    if s.len() == 0 {
        seq![]
    } else {
        flat_whens(s.drop_last()) + seq![s.last().0, s.last().1]
    }
}

/// A node's operands, in the order they are written.
pub open spec fn children_v(t: TExprV) -> Seq<TExprV> {
    match t.kind {
        TKindV::Neg(x) => seq![*x],
        TKindV::Not(x) => seq![*x],
        TKindV::Arith { lhs, rhs, .. } => seq![*lhs, *rhs],
        TKindV::Compare { lhs, rhs, .. } => seq![*lhs, *rhs],
        TKindV::And(l, r) => seq![*l, *r],
        TKindV::Or(l, r) => seq![*l, *r],
        TKindV::IsNull { operand, .. } => seq![*operand],
        TKindV::Between { operand, lo, hi, .. } => seq![*operand, *lo, *hi],
        TKindV::In { operand, list, .. } => seq![*operand] + list,
        TKindV::Like { operand, pattern, .. } => match pattern {
            LikeV::Dynamic(p) => seq![*operand, *p],
            _ => seq![*operand],
        },
        TKindV::SimilarTo { operand, pattern, .. } => seq![*operand, *pattern],
        TKindV::Func { args, .. } => args,
        TKindV::Interval { n, .. } => seq![*n],
        TKindV::Case { whens, els } => flat_whens(whens) + match els {
            Some(x) => seq![*x],
            None => seq![],
        },
        _ => seq![],
    }
}

/// Every column reference in the tree, in the order a walk that visits a
/// node before its operands meets them.
pub open spec fn refs_in(t: TExprV) -> Seq<ColRefV>
    decreases t,
{
    let own = match t.kind {
        TKindV::Column(c) => seq![c],
        _ => seq![],
    };
    own + match t.kind {
        TKindV::Neg(x) => refs_in(*x),
        TKindV::Not(x) => refs_in(*x),
        TKindV::Arith { lhs, rhs, .. } => refs_in(*lhs) + refs_in(*rhs),
        TKindV::Compare { lhs, rhs, .. } => refs_in(*lhs) + refs_in(*rhs),
        TKindV::And(l, r) => refs_in(*l) + refs_in(*r),
        TKindV::Or(l, r) => refs_in(*l) + refs_in(*r),
        TKindV::IsNull { operand, .. } => refs_in(*operand),
        TKindV::Between { operand, lo, hi, .. } => refs_in(*operand) + refs_in(*lo) + refs_in(*hi),
        TKindV::In { operand, list, .. } => refs_in(*operand) + refs_list(list),
        TKindV::Like { operand, pattern, .. } => refs_in(*operand) + match pattern {
            LikeV::Dynamic(p) => refs_in(*p),
            _ => seq![],
        },
        TKindV::SimilarTo { operand, pattern, .. } => refs_in(*operand) + refs_in(*pattern),
        TKindV::Func { args, .. } => refs_list(args),
        TKindV::Interval { n, .. } => refs_in(*n),
        TKindV::Case { whens, els } => refs_whens(whens) + match els {
            Some(x) => refs_in(*x),
            None => seq![],
        },
        _ => seq![],
    }
}

pub open spec fn refs_list(s: Seq<TExprV>) -> Seq<ColRefV>
    decreases s,
{
    if s.len() == 0 {
        seq![]
    } else {
        refs_list(s.drop_last()) + refs_in(s.last())
    }
}

pub open spec fn refs_whens(s: Seq<(TExprV, TExprV)>) -> Seq<ColRefV>
    decreases s,
{
    if s.len() == 0 {
        seq![]
    } else {
        refs_whens(s.drop_last()) + refs_in(s.last().0) + refs_in(s.last().1)
    }
}

/// `c` added to `out` unless a column with its path is already there.
pub open spec fn push_once(out: Seq<ColRefV>, c: ColRefV) -> Seq<ColRefV> {
    if exists|k: int| 0 <= k < out.len() && out[k].path == c.path {
        out
    } else {
        out.push(c)
    }
}

pub open spec fn once_all(out: Seq<ColRefV>, s: Seq<ColRefV>) -> Seq<ColRefV>
    decreases s.len(),
{
    if s.len() == 0 {
        out
    } else {
        push_once(once_all(out, s.drop_last()), s.last())
    }
}

/// Every column an assertion reads, each once, in the order it first names
/// them, then the ones its selection resolved to.
pub open spec fn columns_read(root: TExprV, sel: Option<SelectionV>) -> Seq<ColRefV> {
    let named = once_all(seq![], refs_in(root));
    match sel {
        Some(x) => once_all(named, x.columns),
        None => named,
    }
}

/// Adding a run of columns one by one is adding its two halves in turn.
pub proof fn lemma_once_all_concat(out: Seq<ColRefV>, a: Seq<ColRefV>, b: Seq<ColRefV>)
    ensures
        once_all(out, a + b) == once_all(once_all(out, a), b),
    decreases b.len(),
{
    if b.len() == 0 {
        assert(a + b =~= a);
    } else {
        assert((a + b).drop_last() =~= a + b.drop_last());
        assert((a + b).last() == b.last());
        lemma_once_all_concat(out, a, b.drop_last());
    }
}

/// No two columns of `s` have the same path.
pub open spec fn paths_distinct(s: Seq<ColRefV>) -> bool {
    forall|i: int, j: int| 0 <= i < j < s.len() ==> (#[trigger] s[i]).path != (#[trigger] s[j]).path
}

/// Some column of `s` has the path `p`.
pub open spec fn has_path(s: Seq<ColRefV>, p: Seq<Seq<char>>) -> bool {
    exists|k: int| 0 <= k < s.len() && (#[trigger] s[k]).path == p
}

proof fn lemma_once_all(out: Seq<ColRefV>, s: Seq<ColRefV>)
    requires
        paths_distinct(out),
    ensures
        paths_distinct(once_all(out, s)),
        once_all(out, s).len() >= out.len(),
        once_all(out, s).take(out.len() as int) == out,
        forall|p: Seq<Seq<char>>| has_path(once_all(out, s), p) <==> (has_path(out, p) || has_path(s, p)),
    decreases s.len(),
{
    if s.len() == 0 {
        assert(out.take(out.len() as int) =~= out);
    } else {
        let d = s.drop_last();
        lemma_once_all(out, d);
        let o = once_all(out, d);
        let c = s.last();
        if exists|k: int| 0 <= k < o.len() && o[k].path == c.path {
        } else {
            let r = o.push(c);
            assert forall|i: int, j: int| 0 <= i < j < r.len() implies (#[trigger] r[i]).path != (#[trigger] r[j]).path by {
                if j < o.len() {
                    assert(r[i] == o[i] && r[j] == o[j]);
                } else {
                    assert(r[i] == o[i]);
                }
            }
            assert(r.take(out.len() as int) =~= o.take(out.len() as int));
            assert forall|p: Seq<Seq<char>>| has_path(r, p) <==> has_path(o, p) || p == c.path by {
                if has_path(o, p) {
                    let k = choose|k: int| 0 <= k < o.len() && (#[trigger] o[k]).path == p;
                    assert(r[k] == o[k]);
                }
                if p == c.path {
                    assert(r[o.len() as int] == c);
                }
                if has_path(r, p) {
                    let k = choose|k: int| 0 <= k < r.len() && (#[trigger] r[k]).path == p;
                    if k < o.len() {
                        assert(r[k] == o[k]);
                    }
                }
            }
        }
        assert forall|p: Seq<Seq<char>>| has_path(s, p) <==> has_path(d, p) || p == c.path by {
            if has_path(d, p) {
                let k = choose|k: int| 0 <= k < d.len() && (#[trigger] d[k]).path == p;
                assert(s[k] == d[k]);
            }
            if p == c.path {
                assert(s[s.len() - 1] == c);
            }
            if has_path(s, p) {
                let k = choose|k: int| 0 <= k < s.len() && (#[trigger] s[k]).path == p;
                if k < d.len() {
                    assert(s[k] == d[k]);
                }
            }
        }
        assert forall|p: Seq<Seq<char>>| has_path(once_all(out, s), p) <==> (has_path(out, p) || has_path(s, p)) by {
            if p == c.path && exists|k: int| 0 <= k < o.len() && o[k].path == c.path {
                let k = choose|k: int| 0 <= k < o.len() && o[k].path == c.path;
                assert(o[k].path == p);
            }
        }
    }
}

/// The columns an assertion reads name each path once; the paths are exactly
/// those its expression names and those its selection resolved to; and the
/// ones its expression names come first, in the order it first names them.
pub proof fn law_columns_read_once_each(root: TExprV, sel: Option<SelectionV>)
    ensures
        paths_distinct(columns_read(root, sel)),
        forall|p: Seq<Seq<char>>|
            has_path(columns_read(root, sel), p) <==> (has_path(refs_in(root), p) || (sel matches Some(x)
                && has_path(x.columns, p))),
        columns_read(root, sel).take(once_all(seq![], refs_in(root)).len() as int) == once_all(
            seq![],
            refs_in(root),
        ),
{
    let e = Seq::<ColRefV>::empty();
    assert(paths_distinct(e));
    assert forall|p: Seq<Seq<char>>| !has_path(e, p) by {}
    lemma_once_all(e, refs_in(root));
    let named = once_all(e, refs_in(root));
    if let Some(x) = sel {
        lemma_once_all(named, x.columns);
    } else {
        assert(named.take(named.len() as int) =~= named);
    }
}

} // verus!
