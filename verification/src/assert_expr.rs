//! Recursive-descent parser for the `assert` expression mini-language used in
//! column and table `constraints`, and the vocabulary its checker speaks.
//!
//! Grammar (precedence loosest to tightest, following standard SQL):
//!
//! ```text
//! expr        := or_expr
//! or_expr     := and_expr ("OR" and_expr)*
//! and_expr    := not_expr ("AND" not_expr)*
//! not_expr    := "NOT" not_expr | predicate
//! predicate   := additive ( cmp additive
//!                          | "IS" ["NOT"] "NULL"
//!                          | ["NOT"] "BETWEEN" additive "AND" additive
//!                          | ["NOT"] "IN" "(" expr ("," expr)* ")"
//!                          | ["NOT"] "LIKE" additive
//!                          | ["NOT"] "SIMILAR" "TO" additive )?
//! additive    := multiplicative (("+" | "-") multiplicative)*
//! multiplicative := unary (("*" | "/") unary)*
//! unary       := "-" unary | primary
//! primary     := literal | column | funcall | columns | case | "(" expr ")"
//! cmp         := "=" | "!=" | "<>" | "<" | "<=" | ">" | ">="
//! literal     := number | string | "TRUE" | "FALSE" | "NULL"
//! funcall     := IDENT "(" (expr ("," expr)*)? ")"   // incl. NOW(), interval(n, unit)
//! columns     := "COLUMNS" "(" ("*" | string | "[" column ("," column)* "]") ")"
//! case        := "CASE" ("WHEN" expr "THEN" expr)+ ("ELSE" expr)? "END"
//! column      := IDENT | QUOTED
//! IDENT       := [A-Za-z_][A-Za-z0-9_]*
//! QUOTED      := "`" ( [^`] | "``" )+ "`"
//! ```
//!
//! Keywords and function names are matched case-insensitively; column
//! identifiers are preserved verbatim. Every node records the byte offsets it
//! spans within the input so diagnostics can point at the failing token.

use vstd::prelude::*;

pub mod grammar;
pub mod ir;
mod lower;
pub mod lowering;
pub mod parse;
pub mod rules;
pub mod check;

pub use check::{CheckEnv, check, check_root};
pub use lower::{like_pattern_of, lower};

pub use ir::{
    LikePattern, NodeKind, TypedAssertion, TypedExpr, CivilDate, CivilDateTime, DatetimeConst, ColumnRef, IntervalUnit, Op, Selection, SelectorForm, Type, op_name, op_named, spec_is_aggregate,
    spec_to_type, to_type, type_name_text, unit_name, unit_named, unit_seconds,
};

verus! {

/// A parsed assertion expression: the root node of the tree.
#[derive(Debug)]
pub struct AssertExpr {
    pub root: Expr,
}

#[derive(Debug)]
pub struct Expr {
    pub kind: ExprKind,
    /// Byte offsets of this node within the assertion string.
    pub start: usize,
    pub end: usize,
}

#[derive(Debug)]
pub enum ExprKind {
    Number(NumLit),
    Str(String),
    Bool(bool),
    Null,
    /// A column reference, or a field of a `struct` column reached with dots:
    /// one segment per name, so `address.zip` is `["address", "zip"]`.
    Column(Vec<String>),
    Neg(Box<Expr>),
    Not(Box<Expr>),
    Arith { op: ArithOp, lhs: Box<Expr>, rhs: Box<Expr> },
    Compare { op: CmpOp, lhs: Box<Expr>, rhs: Box<Expr> },
    And(Box<Expr>, Box<Expr>),
    Or(Box<Expr>, Box<Expr>),
    IsNull { operand: Box<Expr>, negated: bool },
    Between { operand: Box<Expr>, lo: Box<Expr>, hi: Box<Expr>, negated: bool },
    In { operand: Box<Expr>, list: Vec<Expr>, negated: bool },
    Like { operand: Box<Expr>, pattern: Box<Expr>, negated: bool },
    SimilarTo { operand: Box<Expr>, pattern: Box<Expr>, negated: bool },
    /// A named function call other than `NOW`/`interval`; the name is
    /// preserved verbatim.
    Call { name: String, args: Vec<Expr> },
    Now,
    Interval { n: Box<Expr>, unit: String, unit_start: usize, unit_end: usize },
    Case { whens: Vec<(Expr, Expr)>, els: Option<Box<Expr>> },
    Columns(ColumnsSelector),
}

#[derive(Debug, Clone)]
pub enum ColumnsSelector {
    All,
    /// A regex string with its byte span (for a regex-compile diagnostic).
    Regex { pattern: String, start: usize, end: usize },
    /// An explicit list of column names, each with its byte span.
    List(Vec<Named>),
}

#[derive(Debug, Clone)]
pub struct Named {
    pub name: String,
    pub start: usize,
    pub end: usize,
}

/// A numeric literal. The language has one `number` type; these are the two
/// representations it is held in. A literal with a fractional part is kept as
/// the digits it was written with, so nothing here goes through a float.
#[derive(Debug, Clone, PartialEq)]
pub enum NumLit {
    Int(i64),
    Float(String),
}

#[derive(Debug, Clone, Copy, PartialEq, Eq, Structural)]
pub enum ArithOp {
    Add,
    Sub,
    Mul,
    Div,
}

#[derive(Debug, Clone, Copy, PartialEq, Eq, Structural)]
pub enum CmpOp {
    Eq,
    Ne,
    Lt,
    Le,
    Gt,
    Ge,
}

/// A failure to parse, with the byte offset of the failing token.
#[derive(Debug, Clone)]
pub struct ParseError {
    pub message: String,
    pub at: usize,
}

// --- The checker's vocabulary ---------------------------------------------

/// The kind a column resolves to for type checking. An `enum` resolves to the
/// kind of its values; `Untyped` is a column the dictionary says nothing about,
/// which can't be used where a type matters (S23).
#[derive(Debug, Clone, Copy, PartialEq, Eq, Structural)]
pub enum ColumnKind {
    Number,
    String,
    Bool,
    Date,
    Datetime,
    /// A `struct` column or field: no scalar value of its own, but its fields
    /// are reachable with dot access.
    Struct,
    /// A `list(...)` column or field: no scalar value, and its elements can't
    /// be reached in a per-row expression.
    List,
    Untyped,
}

/// One problem found in an assertion, with its byte span in the source
/// expression. `code` is `"S20"` (unknown column), `"S21"` (ill-typed), `"S22"`
/// (empty column selection, a warning), `"S23"` (untyped column), or `"S30"`
/// (nested aggregate).
#[derive(Debug, Clone)]
pub struct Finding {
    pub code: &'static str,
    pub severity: FindingSeverity,
    pub message: String,
    pub start: usize,
    pub end: usize,
}

#[derive(Debug, Clone, Copy, PartialEq, Eq, Structural)]
pub enum FindingSeverity {
    Error,
    Warning,
}

/// The inferred type of a subexpression. `Any` is the permissive top (`NULL`,
/// or a subexpression already reported as wrong) and is compatible with
/// everything; `Unknown` is a column with no declared `type`, and is
/// compatible with nothing.
#[derive(Debug, Clone, Copy, PartialEq, Eq, Structural)]
pub enum Ty {
    Number,
    String,
    Bool,
    Date,
    Datetime,
    Interval,
    /// A `struct` or `list` column has no scalar value.
    Struct,
    List,
    Any,
    Unknown,
}

pub open spec fn ty_noun(t: Ty) -> Seq<char> {
    match t {
        Ty::Number => "a number"@,
        Ty::String => "a string"@,
        Ty::Bool => "a boolean"@,
        Ty::Date => "a date"@,
        Ty::Datetime => "a datetime"@,
        Ty::Interval => "an interval"@,
        Ty::Struct => "a struct"@,
        Ty::List => "a list"@,
        Ty::Any => "a value"@,
        Ty::Unknown => "a value of unknown type"@,
    }
}

impl Ty {
    pub fn noun(self) -> (r: &'static str)
        ensures
            r@ == ty_noun(self),
    {
        match self {
            Ty::Number => "a number",
            Ty::String => "a string",
            Ty::Bool => "a boolean",
            Ty::Date => "a date",
            Ty::Datetime => "a datetime",
            Ty::Interval => "an interval",
            Ty::Struct => "a struct",
            Ty::List => "a list",
            Ty::Any => "a value",
            Ty::Unknown => "a value of unknown type",
        }
    }
}

pub open spec fn spec_kind_to_ty(kind: ColumnKind) -> Ty {
    match kind {
        ColumnKind::Number => Ty::Number,
        ColumnKind::String => Ty::String,
        ColumnKind::Bool => Ty::Bool,
        ColumnKind::Date => Ty::Date,
        ColumnKind::Datetime => Ty::Datetime,
        ColumnKind::Struct => Ty::Struct,
        ColumnKind::List => Ty::List,
        ColumnKind::Untyped => Ty::Unknown,
    }
}

pub fn kind_to_ty(kind: ColumnKind) -> (r: Ty)
    ensures
        r == spec_kind_to_ty(kind),
{
    match kind {
        ColumnKind::Number => Ty::Number,
        ColumnKind::String => Ty::String,
        ColumnKind::Bool => Ty::Bool,
        ColumnKind::Date => Ty::Date,
        ColumnKind::Datetime => Ty::Datetime,
        ColumnKind::Struct => Ty::Struct,
        ColumnKind::List => Ty::List,
        ColumnKind::Untyped => Ty::Unknown,
    }
}

/// Distinct column kinds stay distinct as types: no two kinds are confused.
pub proof fn law_kind_to_ty_injective(a: ColumnKind, b: ColumnKind)
    ensures
        spec_kind_to_ty(a) == spec_kind_to_ty(b) ==> a == b,
{
}

/// The nouns of `types` as a prose list: "a number", "a number or a string",
/// "a number, a string, or a date".
pub open spec fn nouns_text(types: Seq<Ty>) -> Seq<char> {
    if types.len() == 0 {
        seq![]
    } else if types.len() == 1 {
        ty_noun(types[0])
    } else if types.len() == 2 {
        ty_noun(types[0]) + " or "@ + ty_noun(types[1])
    } else {
        comma_nouns(types.drop_last()) + ", or "@ + ty_noun(types.last())
    }
}

/// The nouns of `types` joined by `, `.
pub open spec fn comma_nouns(types: Seq<Ty>) -> Seq<char>
    decreases types.len(),
{
    if types.len() == 0 {
        seq![]
    } else if types.len() == 1 {
        ty_noun(types[0])
    } else {
        comma_nouns(types.drop_last()) + ", "@ + ty_noun(types.last())
    }
}

pub fn join_nouns(types: &[Ty]) -> (r: String)
    ensures
        r@ == nouns_text(types@),
{
    let n = types.len();
    if n == 0 {
        return String::new();
    }
    if n == 1 {
        return String::from_str(types[0].noun());
    }
    if n == 2 {
        let mut out = String::from_str(types[0].noun());
        out.append(" or ");
        out.append(types[1].noun());
        return out;
    }
    let mut out = String::from_str(types[0].noun());
    let mut i: usize = 1;
    proof {
        assert(types@.take(1) =~= seq![types@[0]]);
    }
    while i < n - 1
        invariant
            n == types@.len(),
            n >= 3,
            1 <= i <= n - 1,
            out@ == comma_nouns(types@.take(i as int)),
        decreases n - i,
    {
        proof {
            assert(types@.take(i + 1).drop_last() =~= types@.take(i as int));
        }
        out.append(", ");
        out.append(types[i].noun());
        i = i + 1;
    }
    proof {
        assert(types@.drop_last() =~= types@.take(n - 1));
    }
    out.append(", or ");
    out.append(types[n - 1].noun());
    out
}

/// How many values an expression stands for. The variants are ordered so that
/// the largest implements the rule that an operator takes the largest shape
/// among its operands: `Const` is the identity, and `Row` absorbs `Agg`.
#[derive(Debug, Clone, Copy, PartialEq, Eq, PartialOrd, Ord, Structural)]
pub enum Shape {
    Const,
    Agg,
    Row,
}

pub open spec fn shape_rank(s: Shape) -> int {
    match s {
        Shape::Const => 0,
        Shape::Agg => 1,
        Shape::Row => 2,
    }
}

/// The larger of two shapes, in the order `Const < Agg < Row`.
pub open spec fn spec_max_shape(a: Shape, b: Shape) -> Shape {
    if shape_rank(a) >= shape_rank(b) {
        a
    } else {
        b
    }
}

/// The shape an operator takes from its operands.
pub fn max_shape(a: Shape, b: Shape) -> (r: Shape)
    ensures
        r == spec_max_shape(a, b),
{
    let ra: u8 = match a {
        Shape::Const => 0,
        Shape::Agg => 1,
        Shape::Row => 2,
    };
    let rb: u8 = match b {
        Shape::Const => 0,
        Shape::Agg => 1,
        Shape::Row => 2,
    };
    if ra >= rb {
        a
    } else {
        b
    }
}

/// Combining shapes is associative and commutative, `Const` is its identity
/// and `Row` absorbs everything, so an operator's shape does not depend on the
/// order its operands are read.
pub proof fn law_shape_combination(a: Shape, b: Shape, c: Shape)
    ensures
        spec_max_shape(a, b) == spec_max_shape(b, a),
        spec_max_shape(spec_max_shape(a, b), c) == spec_max_shape(a, spec_max_shape(b, c)),
        spec_max_shape(Shape::Const, a) == a,
        spec_max_shape(Shape::Row, a) == Shape::Row,
{
}

/// What the expression as a whole is allowed to be.
#[derive(Debug, Clone, Copy, PartialEq, Eq, Structural)]
pub enum Root {
    /// An assertion states a rule, so it must be a truth value.
    Boolean,
    /// Any type will do.
    Any,
}

} // verus!
