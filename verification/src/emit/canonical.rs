//! `SQL(data-dict)`: the language writing itself back out.
//!
//! Every construct has itself as its spelling, so this is the one target that
//! never refuses and never attaches a note. A `COLUMNS(...)` selection stays
//! symbolic rather than being expanded, and a `LIKE` pattern is put back
//! together from the pieces lowering took it apart into.

use vstd::prelude::*;

use super::{
    canonical_name, canonical_string, needs_parens, wraps, Canonical, Emitted, Side, Unsupported,
    PREC_ADD, PREC_AND, PREC_ATOM, PREC_CMP, PREC_DELIMITED, PREC_MUL, PREC_NEG, PREC_NOT, PREC_OR,
};
use crate::assert_expr::grammar::{comparison_at, uppered};
use crate::assert_expr::lowering::{
    escaped, is_meta, like_body, like_pattern, like_piece, wild_count, ColRefV, FormV, LikeV, SelectionV,
    TExprV, TKindV,
};
use crate::assert_expr::{
    op_name, unit_name, ArithOp, CivilDate, CivilDateTime, CmpOp, DatetimeConst, IntervalUnit, Op,
};
use crate::assert_expr::ir::{
    lemma_view_tlist, lemma_view_twhens, view_colref, view_colrefs, view_like, view_opt_selection,
    view_selection, view_texpr, view_tkind, view_tlist, view_twhens, LikePattern, NodeKind,
    Selection, SelectorForm, TypedAssertion, TypedExpr,
};
use crate::assert_expr::parse::view_path;
use crate::text::{chars_of, decimal, decimal_u64, string_push};

verus! {

// --- Spelling the leaves -------------------------------------------------------------

/// `n.to_string()` for a signed integer.
pub open spec fn signed_text(n: int) -> Seq<char> {
    if n < 0 {
        "-"@ + decimal((-n) as nat)
    } else {
        decimal(n as nat)
    }
}

/// At least two digits, zero-padded.
pub open spec fn pad2(n: nat) -> Seq<char> {
    if n < 10 {
        "0"@ + decimal(n)
    } else {
        decimal(n)
    }
}

/// At least four digits, zero-padded.
pub open spec fn pad4(n: nat) -> Seq<char> {
    if n < 10 {
        "000"@ + decimal(n)
    } else if n < 100 {
        "00"@ + decimal(n)
    } else if n < 1000 {
        "0"@ + decimal(n)
    } else {
        decimal(n)
    }
}

/// How `chrono` writes a year: four digits within `0..=9999`, and otherwise
/// with an explicit sign.
pub open spec fn year_text(y: int) -> Seq<char> {
    if 0 <= y <= 9999 {
        pad4(y as nat)
    } else if y < 0 {
        "-"@ + pad4((-y) as nat)
    } else {
        "+"@ + pad4(y as nat)
    }
}

/// How `chrono` displays a date: `YYYY-MM-DD`.
pub open spec fn date_text(d: CivilDate) -> Seq<char> {
    year_text(d.year as int) + "-"@ + pad2(d.month as nat) + "-"@ + pad2(d.day as nat)
}

/// The second `chrono` shows: a leap second is held as a nanosecond count
/// past one second, and shows as the sixtieth.
pub open spec fn shown_second(t: CivilDateTime) -> nat {
    t.second as nat + t.nanosecond as nat / 1_000_000_000
}

pub open spec fn clock_text(t: CivilDateTime) -> Seq<char> {
    pad2(t.hour as nat) + ":"@ + pad2(t.minute as nat) + ":"@ + pad2(shown_second(t))
}

/// An offset as RFC 3339 writes it to the minute: `Z` for none, else a sign,
/// hours and minutes, rounded to the nearest minute.
pub open spec fn offset_text(off: int) -> Seq<char> {
    if off == 0 {
        "Z"@
    } else {
        let a = if off < 0 { -off } else { off };
        let minutes = (a + 30) / 60;
        (if off < 0 { "-"@ } else { "+"@ }) + pad2((minutes / 60) as nat) + ":"@ + pad2((minutes % 60) as nat)
    }
}

/// A datetime as ISO 8601 with the `T` separator, to the second, and with its
/// offset when it has one, so the string reads back as a datetime.
pub open spec fn datetime_text(t: DatetimeConst) -> Seq<char> {
    match t {
        DatetimeConst::Offset { local, offset_seconds } => date_text(local.date) + "T"@ + clock_text(local)
            + offset_text(offset_seconds as int),
        DatetimeConst::Naive(local) => date_text(local.date) + "T"@ + clock_text(local),
    }
}

/// A column or field path, each segment spelled as a name, joined by dots.
pub open spec fn column_text(path: Seq<Seq<char>>) -> Seq<char>
    decreases path.len(),
{
    if path.len() == 0 {
        seq![]
    } else if path.len() == 1 {
        canonical_name(path[0])
    } else {
        column_text(path.drop_last()) + "."@ + canonical_name(path.last())
    }
}

/// The columns of a listed selection, joined by commas.
pub open spec fn columns_text(cols: Seq<ColRefV>) -> Seq<char>
    decreases cols.len(),
{
    if cols.len() == 0 {
        seq![]
    } else if cols.len() == 1 {
        column_text(cols[0].path)
    } else {
        columns_text(cols.drop_last()) + ", "@ + column_text(cols.last().path)
    }
}

/// How a resolved selection is written.
pub open spec fn selector_text(x: SelectionV) -> Seq<char> {
    match x.form {
        FormV::All => "COLUMNS(*)"@,
        FormV::Regex(p) => "COLUMNS("@ + canonical_string(p) + ")"@,
        FormV::List => "COLUMNS(["@ + columns_text(x.columns) + "])"@,
    }
}

// --- LIKE patterns ----------------------------------------------------------------

pub open spec fn prepend(c: char, r: Option<Seq<char>>) -> Option<Seq<char>> {
    match r {
        Some(t) => Some(seq![c] + t),
        None => None,
    }
}

/// The `LIKE` pattern a regex body was built from: `.*` is `%`, `.` is `_`,
/// an escaped meta character is itself, and an unescaped one means the regex
/// came from somewhere else.
pub open spec fn like_decode(b: Seq<char>) -> Option<Seq<char>>
    decreases b.len(),
{
    if b.len() == 0 {
        Some(seq![])
    } else if b.len() >= 2 && b[0] == '.' && b[1] == '*' {
        prepend('%', like_decode(b.skip(2)))
    } else if b[0] == '.' {
        prepend('_', like_decode(b.skip(1)))
    } else if b.len() >= 2 && b[0] == '\\' && is_meta(b[1]) {
        prepend(b[1], like_decode(b.skip(2)))
    } else if is_meta(b[0]) {
        None
    } else {
        prepend(b[0], like_decode(b.skip(1)))
    }
}

/// The `LIKE` pattern an anchored regex spells, if it spells one.
pub open spec fn un_like(re: Seq<char>) -> Option<Seq<char>> {
    if re.len() >= 2 && re[0] == '^' && re.last() == '$' {
        like_decode(re.subrange(1, re.len() - 1))
    } else {
        None
    }
}

/// The literal `LIKE` pattern a taken-apart one is rebuilt into.
pub open spec fn like_literal(p: LikeV) -> Option<Seq<char>> {
    match p {
        LikeV::Exact(t) => Some(t),
        LikeV::Prefix(t) => Some(t + "%"@),
        LikeV::Suffix(t) => Some("%"@ + t),
        LikeV::Regex(re) => un_like(re),
        LikeV::Dynamic(_) => None,
    }
}

// --- The tree -------------------------------------------------------------------------

/// The precedence a node is written at.
pub open spec fn c_prec(t: TExprV) -> u8 {
    match t.kind {
        TKindV::Or(..) => PREC_OR,
        TKindV::And(..) => PREC_AND,
        TKindV::Not(_) => PREC_NOT,
        TKindV::Compare { .. } | TKindV::IsNull { .. } | TKindV::Between { .. } | TKindV::In { .. }
        | TKindV::Like { .. } | TKindV::SimilarTo { .. } => PREC_CMP,
        TKindV::Arith { op, .. } => match op {
            ArithOp::Add | ArithOp::Sub => PREC_ADD,
            ArithOp::Mul | ArithOp::Div => PREC_MUL,
        },
        TKindV::Neg(_) => PREC_NEG,
        _ => PREC_ATOM,
    }
}

pub open spec fn comparison_symbol(op: CmpOp) -> Seq<char> {
    match op {
        CmpOp::Eq => "="@,
        CmpOp::Ne => "!="@,
        CmpOp::Lt => "<"@,
        CmpOp::Le => "<="@,
        CmpOp::Gt => ">"@,
        CmpOp::Ge => ">="@,
    }
}

pub open spec fn arith_symbol(op: ArithOp) -> Seq<char> {
    match op {
        ArithOp::Add => "+"@,
        ArithOp::Sub => "-"@,
        ArithOp::Mul => "*"@,
        ArithOp::Div => "/"@,
    }
}

pub open spec fn arith_level(op: ArithOp) -> u8 {
    match op {
        ArithOp::Add | ArithOp::Sub => PREC_ADD,
        ArithOp::Mul | ArithOp::Div => PREC_MUL,
    }
}

pub open spec fn neg_word(negated: bool, yes: Seq<char>, no: Seq<char>) -> Seq<char> {
    if negated { yes } else { no }
}

/// `t` written as an operand of an operator at `parent`, wrapped in
/// parentheses where it would otherwise be read differently. `sel` is what a
/// selected column is written as.
pub open spec fn c_child(parent: u8, side: Side, t: TExprV, sel: Seq<char>) -> Seq<char>
    decreases t, 2int,
{
    if wraps(c_prec(t), parent, side) {
        "("@ + c_text(t, sel) + ")"@
    } else {
        c_text(t, sel)
    }
}

/// `t` written by itself.
pub open spec fn c_text(t: TExprV, sel: Seq<char>) -> Seq<char>
    decreases t, 1int,
{
    match t.kind {
        TKindV::Int(n) => signed_text(n as int),
        TKindV::Float(text) => text,
        TKindV::Str(s) => canonical_string(s),
        TKindV::Bool(b) => if b { "TRUE"@ } else { "FALSE"@ },
        TKindV::Null => "NULL"@,
        TKindV::Date(d) => canonical_string(date_text(d)),
        TKindV::Datetime(x) => canonical_string(datetime_text(x)),
        TKindV::Now => "NOW()"@,
        TKindV::Column(c) => column_text(c.path),
        TKindV::Selected => sel,
        TKindV::Neg(x) => "-"@ + c_child(PREC_NEG, Side::Right, *x, sel),
        TKindV::Not(x) => "NOT "@ + c_child(PREC_NOT, Side::Right, *x, sel),
        TKindV::And(l, r) => c_child(PREC_AND, Side::Left, *l, sel) + " AND "@ + c_child(PREC_AND, Side::Right, *r, sel),
        TKindV::Or(l, r) => c_child(PREC_OR, Side::Left, *l, sel) + " OR "@ + c_child(PREC_OR, Side::Right, *r, sel),
        TKindV::Arith { op, lhs, rhs } => c_child(arith_level(op), Side::Left, *lhs, sel) + " "@ + arith_symbol(op)
            + " "@ + c_child(arith_level(op), Side::Right, *rhs, sel),
        TKindV::Compare { op, lhs, rhs } => c_child(PREC_CMP, Side::Left, *lhs, sel) + " "@ + comparison_symbol(op) + " "@
            + c_child(PREC_CMP, Side::Right, *rhs, sel),
        TKindV::IsNull { operand, negated } => c_child(PREC_CMP, Side::Left, *operand, sel)
            + neg_word(negated, " IS NOT NULL"@, " IS NULL"@),
        TKindV::Between { operand, lo, hi, negated } => c_child(PREC_CMP, Side::Left, *operand, sel)
            + neg_word(negated, " NOT BETWEEN "@, " BETWEEN "@) + c_child(PREC_CMP, Side::Right, *lo, sel) + " AND "@
            + c_child(PREC_CMP, Side::Right, *hi, sel),
        TKindV::In { operand, list, negated } => c_child(PREC_CMP, Side::Left, *operand, sel)
            + neg_word(negated, " NOT IN ("@, " IN ("@) + c_list(list, sel) + ")"@,
        TKindV::Like { operand, pattern, negated } => c_child(PREC_CMP, Side::Left, *operand, sel) + match like_literal(
            pattern,
        ) {
            Some(text) => neg_word(negated, " NOT LIKE "@, " LIKE "@) + canonical_string(text),
            None => match pattern {
                LikeV::Dynamic(x) => neg_word(negated, " NOT LIKE "@, " LIKE "@) + c_child(PREC_CMP, Side::Right, *x, sel),
                LikeV::Regex(re) => neg_word(negated, " NOT SIMILAR TO "@, " SIMILAR TO "@) + canonical_string(re),
                _ => seq![],
            },
        },
        TKindV::SimilarTo { operand, pattern, negated } => c_child(PREC_CMP, Side::Left, *operand, sel)
            + neg_word(negated, " NOT SIMILAR TO "@, " SIMILAR TO "@) + c_child(PREC_CMP, Side::Right, *pattern, sel),
        TKindV::Interval { n, unit } => "interval("@ + c_child(PREC_DELIMITED, Side::Free, *n, sel) + ", "@
            + unit_name(unit) + ")"@,
        TKindV::Func { op, args } => uppered(op_name(op)) + "("@ + c_list(args, sel) + ")"@,
        TKindV::Case { whens, els } => "CASE"@ + c_whens(whens, sel) + match els {
            Some(x) => " ELSE "@ + c_child(PREC_DELIMITED, Side::Free, *x, sel),
            None => seq![],
        } + " END"@,
    }
}

/// Items in delimited positions, joined by commas.
pub open spec fn c_list(s: Seq<TExprV>, sel: Seq<char>) -> Seq<char>
    decreases s, 0int,
{
    if s.len() == 0 {
        seq![]
    } else if s.len() == 1 {
        c_child(PREC_DELIMITED, Side::Free, s[0], sel)
    } else {
        c_list(s.drop_last(), sel) + ", "@ + c_child(PREC_DELIMITED, Side::Free, s.last(), sel)
    }
}

/// The `WHEN ... THEN ...` clauses of a `CASE`.
pub open spec fn c_whens(s: Seq<(TExprV, TExprV)>, sel: Seq<char>) -> Seq<char>
    decreases s, 0int,
{
    if s.len() == 0 {
        seq![]
    } else {
        c_whens(s.drop_last(), sel) + " WHEN "@ + c_child(PREC_DELIMITED, Side::Free, s.last().0, sel) + " THEN "@
            + c_child(PREC_DELIMITED, Side::Free, s.last().1, sel)
    }
}

/// Whether a selected column appears anywhere in the tree.
pub open spec fn mentions_selected(t: TExprV) -> bool
    decreases t,
{
    match t.kind {
        TKindV::Selected => true,
        TKindV::Neg(x) => mentions_selected(*x),
        TKindV::Not(x) => mentions_selected(*x),
        TKindV::Arith { lhs, rhs, .. } => mentions_selected(*lhs) || mentions_selected(*rhs),
        TKindV::Compare { lhs, rhs, .. } => mentions_selected(*lhs) || mentions_selected(*rhs),
        TKindV::And(l, r) => mentions_selected(*l) || mentions_selected(*r),
        TKindV::Or(l, r) => mentions_selected(*l) || mentions_selected(*r),
        TKindV::IsNull { operand, .. } => mentions_selected(*operand),
        TKindV::Between { operand, lo, hi, .. } => mentions_selected(*operand) || mentions_selected(*lo)
            || mentions_selected(*hi),
        TKindV::In { operand, list, .. } => mentions_selected(*operand) || exists|i: int|
            0 <= i < list.len() && mentions_selected(#[trigger] list[i]),
        TKindV::Like { operand, pattern, .. } => mentions_selected(*operand) || match pattern {
            LikeV::Dynamic(x) => mentions_selected(*x),
            _ => false,
        },
        TKindV::SimilarTo { operand, pattern, .. } => mentions_selected(*operand) || mentions_selected(*pattern),
        TKindV::Interval { n, .. } => mentions_selected(*n),
        TKindV::Func { args, .. } => exists|i: int| 0 <= i < args.len() && mentions_selected(#[trigger] args[i]),
        TKindV::Case { whens, els } => (exists|i: int|
            0 <= i < whens.len() && (mentions_selected(#[trigger] whens[i].0) || mentions_selected(whens[i].1)))
            || match els {
            Some(x) => mentions_selected(*x),
            None => false,
        },
        _ => false,
    }
}

/// What the language's own printer writes for an assertion: the tree, with
/// the selection, if there is one, kept as the `COLUMNS(...)` it was written
/// as.
pub open spec fn canonical_text(root: TExprV, sel: Option<SelectionV>) -> Seq<char> {
    match sel {
        Some(x) => c_child(PREC_DELIMITED, Side::Free, root, selector_text(x)),
        None => c_text(root, seq![]),
    }
}

// --- Writing the leaves ----------------------------------------------------------------

pub(crate) fn signed_string(n: i64) -> (r: String)
    ensures
        r@ == signed_text(n as int),
{
    if n < 0 {
        let m: u64 = if n == i64::MIN {
            9223372036854775808u64
        } else {
            (-n) as u64
        };
        let mut out = String::from_str("-");
        let d = decimal_u64(m);
        out.append(d.as_str());
        out
    } else {
        decimal_u64(n as u64)
    }
}

pub(crate) fn pad2_string(n: u64) -> (r: String)
    ensures
        r@ == pad2(n as nat),
{
    let d = decimal_u64(n);
    if n < 10 {
        let mut out = String::from_str("0");
        out.append(d.as_str());
        out
    } else {
        d
    }
}

fn pad4_string(n: u64) -> (r: String)
    ensures
        r@ == pad4(n as nat),
{
    let d = decimal_u64(n);
    let mut out = if n < 10 {
        String::from_str("000")
    } else if n < 100 {
        String::from_str("00")
    } else if n < 1000 {
        String::from_str("0")
    } else {
        String::new()
    };
    out.append(d.as_str());
    out
}

fn year_string(y: i32) -> (r: String)
    ensures
        r@ == year_text(y as int),
{
    if 0 <= y && y <= 9999 {
        pad4_string(y as u64)
    } else if y < 0 {
        let a: i64 = -(y as i64);
        let mut out = String::from_str("-");
        let p = pad4_string(a as u64);
        out.append(p.as_str());
        out
    } else {
        let mut out = String::from_str("+");
        let p = pad4_string(y as u64);
        out.append(p.as_str());
        out
    }
}

/// A date as `chrono` displays it: `YYYY-MM-DD`.
pub fn date_string(d: CivilDate) -> (r: String)
    ensures
        r@ == date_text(d),
{
    let mut out = year_string(d.year);
    out.append("-");
    let m = pad2_string(d.month as u64);
    out.append(m.as_str());
    out.append("-");
    let dd = pad2_string(d.day as u64);
    out.append(dd.as_str());
    out
}

pub(crate) fn clock_string(t: CivilDateTime) -> (r: String)
    ensures
        r@ == clock_text(t),
{
    let mut out = pad2_string(t.hour as u64);
    out.append(":");
    let m = pad2_string(t.minute as u64);
    out.append(m.as_str());
    out.append(":");
    let sec: u64 = t.second as u64 + (t.nanosecond / 1_000_000_000) as u64;
    let s = pad2_string(sec);
    out.append(s.as_str());
    out
}

fn offset_string(off: i32) -> (r: String)
    ensures
        r@ == offset_text(off as int),
{
    if off == 0 {
        return String::from_str("Z");
    }
    let a: i64 = if off < 0 {
        -(off as i64)
    } else {
        off as i64
    };
    let minutes: i64 = (a + 30) / 60;
    let mut out = if off < 0 {
        String::from_str("-")
    } else {
        String::from_str("+")
    };
    let h = pad2_string((minutes / 60) as u64);
    out.append(h.as_str());
    out.append(":");
    let m = pad2_string((minutes % 60) as u64);
    out.append(m.as_str());
    out
}

/// A datetime as ISO 8601 with the `T` separator, and its offset when it has
/// one.
pub fn datetime_string(t: DatetimeConst) -> (r: String)
    ensures
        r@ == datetime_text(t),
{
    match t {
        DatetimeConst::Offset { local, offset_seconds } => {
            let mut out = date_string(local.date);
            out.append("T");
            let c = clock_string(local);
            out.append(c.as_str());
            let o = offset_string(offset_seconds);
            out.append(o.as_str());
            out
        },
        DatetimeConst::Naive(local) => {
            let mut out = date_string(local.date);
            out.append("T");
            let c = clock_string(local);
            out.append(c.as_str());
            out
        },
    }
}

/// A column or field path, each segment a name, joined by dots.
fn column_string(path: &Vec<String>) -> (r: String)
    ensures
        r@ == column_text(view_path(path@)),
{
    let ghost v = view_path(path@);
    let mut out = String::new();
    let mut i: usize = 0;
    while i < path.len()
        invariant
            i <= path@.len(),
            v == view_path(path@),
            out@ == column_text(v.take(i as int)),
        decreases path@.len() - i,
    {
        proof {
            let t = v.take(i + 1);
            assert(t.drop_last() =~= v.take(i as int));
            assert(t.last() == path@[i as int]@);
            if i == 0 {
                assert(t =~= seq![path@[0]@]);
                assert(v.take(0) =~= Seq::<Seq<char>>::empty());
            }
        }
        let n = Canonical::name(path[i].as_str());
        if i > 0 {
            out.append(".");
        }
        out.append(n.as_str());
        i = i + 1;
    }
    assert(v.take(i as int) =~= v);
    out
}

/// How a resolved selection is written.
fn selector_string(x: &Selection) -> (r: String)
    ensures
        r@ == selector_text(view_selection(*x)),
{
    match &x.form {
        SelectorForm::All => String::from_str("COLUMNS(*)"),
        SelectorForm::Regex(p) => {
            let mut out = String::from_str("COLUMNS(");
            let q = Canonical::quote(p.as_str());
            out.append(q.as_str());
            out.append(")");
            out
        },
        SelectorForm::List => {
            let cols = &x.columns;
            let ghost v = view_colrefs(cols@);
            let mut body = String::new();
            let mut i: usize = 0;
            while i < cols.len()
                invariant
                    i <= cols@.len(),
                    v == view_colrefs(cols@),
                    body@ == columns_text(v.take(i as int)),
                decreases cols@.len() - i,
            {
                proof {
                    let t = v.take(i + 1);
                    assert(t.drop_last() =~= v.take(i as int));
                    assert(t.last() == view_colref(cols@[i as int]));
                    if i == 0 {
                        assert(t =~= seq![view_colref(cols@[0])]);
                    }
                }
                let c = column_string(&cols[i].path);
                if i > 0 {
                    body.append(", ");
                }
                body.append(c.as_str());
                i = i + 1;
            }
            assert(v.take(i as int) =~= v);
            let mut out = String::from_str("COLUMNS([");
            out.append(body.as_str());
            out.append("])");
            out
        },
    }
}

/// The `LIKE` pattern an anchored regex spells, if it spells one: the
/// inverse of how lowering writes a pattern with a wildcard in the middle.
pub fn un_like_regex(re: &str) -> (r: Option<String>)
    ensures
        match un_like(re@) {
            Some(t) => r is Some && r->0@ == t,
            None => r is None,
        },
{
    let cs = chars_of(re);
    let n = cs.len();
    if !(n >= 2 && cs[0] == '^' && cs[n - 1] == '$') {
        return None;
    }
    let ghost b = cs@.subrange(1, n - 1);
    let mut out = String::new();
    let mut j: usize = 1;
    proof {
        assert(b.skip(0) =~= b);
        match like_decode(b) {
            Some(t) => {
                assert(out@ + t =~= t);
            },
            None => {},
        }
    }
    while j < n - 1
        invariant
            n == cs@.len(),
            cs@ == re@,
            n >= 2,
            1 <= j <= n - 1,
            b == cs@.subrange(1, n - 1),
            like_decode(b) == prepend_all(out@, like_decode(b.skip(j - 1))),
        decreases n - j,
    {
        let ghost rest = b.skip(j - 1);
        assert(rest[0] == cs@[j as int]);
        assert(rest.len() == n - 1 - j);
        if j + 1 < n - 1 {
            assert(rest[1] == cs@[j + 1]);
        }
        let c = cs[j];
        if c == '.' && j + 1 < n - 1 && cs[j + 1] == '*' {
            assert(rest[1] == cs@[j + 1]);
            assert(rest.skip(2) =~= b.skip(j + 1));
            string_push(&mut out, '%');
            j = j + 2;
        } else if c == '.' {
            assert(rest.skip(1) =~= b.skip(j as int));
            string_push(&mut out, '_');
            j = j + 1;
        } else if c == '\\' && j + 1 < n - 1 && is_meta_char(cs[j + 1]) {
            assert(rest[1] == cs@[j + 1]);
            assert(rest.skip(2) =~= b.skip(j + 1));
            string_push(&mut out, cs[j + 1]);
            j = j + 2;
        } else if is_meta_char(c) {
            assert(like_decode(rest) is None);
            assert(cs@ == re@);
            return None;
        } else {
            assert(rest.skip(1) =~= b.skip(j as int));
            string_push(&mut out, c);
            j = j + 1;
        }
    }
    assert(b.skip(j - 1) =~= Seq::<char>::empty());
    assert(out@ + Seq::<char>::empty() =~= out@);
    Some(out)
}

/// `prefix` put in front of what decoding the rest gives.
pub open spec fn prepend_all(prefix: Seq<char>, r: Option<Seq<char>>) -> Option<Seq<char>> {
    match r {
        Some(t) => Some(prefix + t),
        None => None,
    }
}

fn is_meta_char(c: char) -> (r: bool)
    ensures
        r == is_meta(c),
{
    c == '\\' || c == '.' || c == '+' || c == '*' || c == '?' || c == '(' || c == ')' || c == '|' || c == '['
        || c == ']' || c == '{' || c == '}' || c == '^' || c == '$' || c == '#' || c == '&' || c == '-' || c == '~'
}

// --- Writing the tree ---------------------------------------------------------------------

/// The precedence a node is written at.
fn prec_of(e: &TypedExpr) -> (r: u8)
    ensures
        r == c_prec(view_texpr(*e)),
{
    match &e.kind {
        NodeKind::Or(..) => PREC_OR,
        NodeKind::And(..) => PREC_AND,
        NodeKind::Not(_) => PREC_NOT,
        NodeKind::Compare { .. } | NodeKind::IsNull { .. } | NodeKind::Between { .. } | NodeKind::In { .. }
        | NodeKind::Like { .. } | NodeKind::SimilarTo { .. } => PREC_CMP,
        NodeKind::Arith { op, .. } => match op {
            ArithOp::Add | ArithOp::Sub => PREC_ADD,
            ArithOp::Mul | ArithOp::Div => PREC_MUL,
        },
        NodeKind::Neg(_) => PREC_NEG,
        _ => PREC_ATOM,
    }
}

fn comparison_word(op: CmpOp) -> (r: &'static str)
    ensures
        r@ == comparison_symbol(op),
{
    match op {
        CmpOp::Eq => "=",
        CmpOp::Ne => "!=",
        CmpOp::Lt => "<",
        CmpOp::Le => "<=",
        CmpOp::Gt => ">",
        CmpOp::Ge => ">=",
    }
}

fn arith_word(op: ArithOp) -> (r: (&'static str, u8))
    ensures
        r.0@ == arith_symbol(op),
        r.1 == arith_level(op),
{
    match op {
        ArithOp::Add => ("+", PREC_ADD),
        ArithOp::Sub => ("-", PREC_ADD),
        ArithOp::Mul => ("*", PREC_MUL),
        ArithOp::Div => ("/", PREC_MUL),
    }
}

/// The upper-case name a function is written with.
fn op_upper(op: Op) -> (r: &'static str)
    ensures
        r@ == uppered(op_name(op)),
{
    let r = match op {
        Op::Length => "LENGTH",
        Op::Lower => "LOWER",
        Op::Upper => "UPPER",
        Op::Trim => "TRIM",
        Op::StartsWith => "STARTS_WITH",
        Op::EndsWith => "ENDS_WITH",
        Op::Abs => "ABS",
        Op::Floor => "FLOOR",
        Op::Ceil => "CEIL",
        Op::Round => "ROUND",
        Op::Mod => "MOD",
        Op::Min => "MIN",
        Op::Max => "MAX",
        Op::Sum => "SUM",
        Op::Avg => "AVG",
        Op::Count => "COUNT",
        Op::RowCount => "ROW_COUNT",
        Op::CountDistinct => "COUNT_DISTINCT",
        Op::Any => "ANY",
        Op::All => "ALL",
    };
    proof {
        reveal_strlit("length");
        reveal_strlit("LENGTH");
        reveal_strlit("lower");
        reveal_strlit("LOWER");
        reveal_strlit("upper");
        reveal_strlit("UPPER");
        reveal_strlit("trim");
        reveal_strlit("TRIM");
        reveal_strlit("starts_with");
        reveal_strlit("STARTS_WITH");
        reveal_strlit("ends_with");
        reveal_strlit("ENDS_WITH");
        reveal_strlit("abs");
        reveal_strlit("ABS");
        reveal_strlit("floor");
        reveal_strlit("FLOOR");
        reveal_strlit("ceil");
        reveal_strlit("CEIL");
        reveal_strlit("round");
        reveal_strlit("ROUND");
        reveal_strlit("mod");
        reveal_strlit("MOD");
        reveal_strlit("min");
        reveal_strlit("MIN");
        reveal_strlit("max");
        reveal_strlit("MAX");
        reveal_strlit("sum");
        reveal_strlit("SUM");
        reveal_strlit("avg");
        reveal_strlit("AVG");
        reveal_strlit("count");
        reveal_strlit("COUNT");
        reveal_strlit("row_count");
        reveal_strlit("ROW_COUNT");
        reveal_strlit("count_distinct");
        reveal_strlit("COUNT_DISTINCT");
        reveal_strlit("any");
        reveal_strlit("ANY");
        reveal_strlit("all");
        reveal_strlit("ALL");
        assert(r@ =~= uppered(op_name(op)));
    }
    r
}

fn unit_word(u: IntervalUnit) -> (r: &'static str)
    ensures
        r@ == unit_name(u),
{
    match u {
        IntervalUnit::Seconds => "seconds",
        IntervalUnit::Minutes => "minutes",
        IntervalUnit::Hours => "hours",
        IntervalUnit::Days => "days",
        IntervalUnit::Weeks => "weeks",
    }
}

/// The literal `LIKE` pattern a taken-apart one is rebuilt into.
fn like_literal_string(p: &LikePattern) -> (r: Option<String>)
    ensures
        match like_literal(view_like(*p)) {
            Some(t) => r is Some && r->0@ == t,
            None => r is None,
        },
{
    match p {
        LikePattern::Exact(t) => Some(t.clone()),
        LikePattern::Prefix(t) => {
            let mut out = t.clone();
            out.append("%");
            Some(out)
        },
        LikePattern::Suffix(t) => {
            let mut out = String::from_str("%");
            out.append(t.as_str());
            Some(out)
        },
        LikePattern::Regex(re) => un_like_regex(re.as_str()),
        LikePattern::Dynamic(_) => None,
    }
}

struct Printer {
    out: String,
    /// What a selected column is written as.
    sel: String,
}

impl Printer {
    fn push(&mut self, s: &str)
        ensures
            final(self).out@ == old(self).out@ + s@,
            final(self).sel == old(self).sel,
    {
        self.out.append(s);
    }

    fn child(&mut self, parent: u8, side: Side, e: &TypedExpr)
        ensures
            final(self).sel == old(self).sel,
            final(self).out@ == old(self).out@ + c_child(parent, side, view_texpr(*e), old(self).sel@),
        decreases e, 2int,
    {
        let wrap = needs_parens(prec_of(e), parent, side);
        let ghost before = self.out@;
        if wrap {
            self.push("(");
        }
        self.write(e);
        if wrap {
            self.push(")");
            assert(self.out@ =~= before + ("("@ + c_text(view_texpr(*e), self.sel@) + ")"@));
        }
    }

    /// Items in delimited positions, joined by commas.
    fn list(&mut self, s: &Vec<TypedExpr>)
        ensures
            final(self).sel == old(self).sel,
            final(self).out@ == old(self).out@ + c_list(view_tlist(s@), old(self).sel@),
        decreases s, 0int,
    {
        proof {
            lemma_view_tlist(s@);
        }
        let ghost v = view_tlist(s@);
        let ghost base = self.out@;
        let mut i: usize = 0;
        while i < s.len()
            invariant
                i <= s@.len(),
                v == view_tlist(s@),
                v.len() == s@.len(),
                forall|k: int| 0 <= k < s@.len() ==> #[trigger] v[k] == view_texpr(s@[k]),
                self.sel == old(self).sel,
                base == old(self).out@,
                self.out@ == base + c_list(v.take(i as int), self.sel@),
            decreases s@.len() - i,
        {
            let ghost prev = self.out@;
            if i > 0 {
                self.push(", ");
            }
            self.child(PREC_DELIMITED, Side::Free, &s[i]);
            proof {
                let t = v.take(i + 1);
                assert(t.drop_last() =~= v.take(i as int));
                assert(t.last() == v[i as int]);
                if i == 0 {
                    assert(t.len() == 1);
                    assert(t[0] == v[0]);
                    assert(v.take(0) =~= Seq::<TExprV>::empty());
                }
                assert(self.out@ =~= base + c_list(t, self.sel@));
            }
            i = i + 1;
        }
        assert(v.take(i as int) =~= v);
    }

    /// The `WHEN ... THEN ...` clauses of a `CASE`.
    fn whens(&mut self, s: &Vec<(TypedExpr, TypedExpr)>)
        ensures
            final(self).sel == old(self).sel,
            final(self).out@ == old(self).out@ + c_whens(view_twhens(s@), old(self).sel@),
        decreases s, 0int,
    {
        proof {
            lemma_view_twhens(s@);
        }
        let ghost v = view_twhens(s@);
        let ghost base = self.out@;
        let mut i: usize = 0;
        assert(v.take(0) =~= Seq::<(TExprV, TExprV)>::empty());
        assert(self.out@ =~= base + c_whens(v.take(0), self.sel@));
        while i < s.len()
            invariant
                i <= s@.len(),
                v == view_twhens(s@),
                v.len() == s@.len(),
                forall|k: int| 0 <= k < s@.len() ==> #[trigger] v[k] == (view_texpr(s@[k].0), view_texpr(s@[k].1)),
                self.sel == old(self).sel,
                base == old(self).out@,
                self.out@ == base + c_whens(v.take(i as int), self.sel@),
            decreases s@.len() - i,
        {
            self.push(" WHEN ");
            self.child(PREC_DELIMITED, Side::Free, &s[i].0);
            self.push(" THEN ");
            self.child(PREC_DELIMITED, Side::Free, &s[i].1);
            proof {
                let t = v.take(i + 1);
                assert(t.drop_last() =~= v.take(i as int));
                assert(t.last() == v[i as int]);
                assert(self.out@ =~= base + c_whens(t, self.sel@));
            }
            i = i + 1;
        }
        assert(v.take(i as int) =~= v);
    }
}

impl Printer {
    #[verifier::rlimit(60)]
    #[verifier::spinoff_prover]
    fn write(&mut self, e: &TypedExpr)
        ensures
            final(self).sel == old(self).sel,
            final(self).out@ == old(self).out@ + c_text(view_texpr(*e), old(self).sel@),
        decreases e, 1int,
    {
        let ghost before = self.out@;
        let ghost sel = self.sel@;
        assert(view_texpr(*e).kind == view_tkind(e.kind));
        match &e.kind {
            NodeKind::Int(n) => {
                let t = signed_string(*n);
                self.push(t.as_str());
            },
            NodeKind::Float(text) => self.push(text.as_str()),
            NodeKind::Str(s) => {
                let q = Canonical::quote(s.as_str());
                self.push(q.as_str());
            },
            NodeKind::Bool(b) => self.push(if *b { "TRUE" } else { "FALSE" }),
            NodeKind::Null => self.push("NULL"),
            NodeKind::Date(d) => {
                let t = date_string(*d);
                let q = Canonical::quote(t.as_str());
                self.push(q.as_str());
            },
            NodeKind::Datetime(x) => {
                let t = datetime_string(*x);
                let q = Canonical::quote(t.as_str());
                self.push(q.as_str());
            },
            NodeKind::Now => self.push("NOW()"),
            NodeKind::Column(c) => {
                let t = column_string(&c.path);
                self.push(t.as_str());
            },
            NodeKind::Selected => {
                let t = self.sel.clone();
                self.push(t.as_str());
            },
            NodeKind::Neg(x) => {
                self.push("-");
                self.child(PREC_NEG, Side::Right, x);
            },
            NodeKind::Not(x) => {
                self.push("NOT ");
                self.child(PREC_NOT, Side::Right, x);
            },
            NodeKind::And(l, r) => {
                self.child(PREC_AND, Side::Left, l);
                self.push(" AND ");
                self.child(PREC_AND, Side::Right, r);
            },
            NodeKind::Or(l, r) => {
                self.child(PREC_OR, Side::Left, l);
                self.push(" OR ");
                self.child(PREC_OR, Side::Right, r);
            },
            NodeKind::Arith { op, lhs, rhs } => {
                let (symbol, level) = arith_word(*op);
                self.child(level, Side::Left, lhs);
                self.push(" ");
                self.push(symbol);
                self.push(" ");
                self.child(level, Side::Right, rhs);
            },
            NodeKind::Compare { op, lhs, rhs } => {
                self.child(PREC_CMP, Side::Left, lhs);
                self.push(" ");
                self.push(comparison_word(*op));
                self.push(" ");
                self.child(PREC_CMP, Side::Right, rhs);
            },
            NodeKind::IsNull { operand, negated } => {
                self.child(PREC_CMP, Side::Left, operand);
                self.push(if *negated { " IS NOT NULL" } else { " IS NULL" });
            },
            NodeKind::Between { operand, lo, hi, negated } => {
                self.child(PREC_CMP, Side::Left, operand);
                self.push(if *negated { " NOT BETWEEN " } else { " BETWEEN " });
                self.child(PREC_CMP, Side::Right, lo);
                self.push(" AND ");
                self.child(PREC_CMP, Side::Right, hi);
            },
            NodeKind::In { operand, list, negated } => {
                self.child(PREC_CMP, Side::Left, operand);
                self.push(if *negated { " NOT IN (" } else { " IN (" });
                self.list(list);
                self.push(")");
            },
            NodeKind::Like { operand, pattern, negated } => {
                self.child(PREC_CMP, Side::Left, operand);
                match like_literal_string(pattern) {
                    Some(text) => {
                        self.push(if *negated { " NOT LIKE " } else { " LIKE " });
                        let q = Canonical::quote(text.as_str());
                        self.push(q.as_str());
                    },
                    None => match pattern {
                        LikePattern::Dynamic(x) => {
                            self.push(if *negated { " NOT LIKE " } else { " LIKE " });
                            assert(view_like(*pattern) == LikeV::Dynamic(Box::new(view_texpr(**x))));
                            self.child(PREC_CMP, Side::Right, x);
                        },
                        LikePattern::Regex(re) => {
                            self.push(if *negated { " NOT SIMILAR TO " } else { " SIMILAR TO " });
                            let q = Canonical::quote(re.as_str());
                            self.push(q.as_str());
                        },
                        _ => {},
                    },
                }
            },
            NodeKind::SimilarTo { operand, pattern, negated } => {
                self.child(PREC_CMP, Side::Left, operand);
                self.push(if *negated { " NOT SIMILAR TO " } else { " SIMILAR TO " });
                self.child(PREC_CMP, Side::Right, pattern);
            },
            NodeKind::Interval { n, unit } => {
                self.push("interval(");
                self.child(PREC_DELIMITED, Side::Free, n);
                self.push(", ");
                self.push(unit_word(*unit));
                self.push(")");
            },
            NodeKind::Func { op, args } => {
                self.push(op_upper(*op));
                self.push("(");
                self.list(args);
                self.push(")");
            },
            NodeKind::Case { whens, els } => {
                self.push("CASE");
                self.whens(whens);
                if let Some(x) = els {
                    self.push(" ELSE ");
                    self.child(PREC_DELIMITED, Side::Free, x);
                }
                self.push(" END");
            },
        }
        assert(self.out@ =~= before + c_text(view_texpr(*e), sel));
    }
}

/// Write `assertion` in the language itself. A `COLUMNS(...)` stays the
/// selection it was written as. This target never refuses and never
/// attaches a note.
pub fn emit(target: &Canonical, assertion: &TypedAssertion) -> (r: Result<Emitted, Unsupported>)
    requires
        assertion.selection is None ==> !mentions_selected(view_texpr(assertion.root)),
    ensures
        match r {
            Ok(x) => x.code@ == canonical_text(view_texpr(assertion.root), view_opt_selection(assertion.selection))
                && x.notes@.len() == 0,
            Err(_) => false,
        },
{
    let sel = match &assertion.selection {
        Some(x) => selector_string(x),
        None => String::new(),
    };
    let mut p = Printer { out: String::new(), sel };
    p.child(PREC_DELIMITED, Side::Free, &assertion.root);
    proof {
        assert(p.out@ =~= Seq::<char>::empty() + p.out@);
        if assertion.selection is None {
            assert(!wraps(c_prec(view_texpr(assertion.root)), PREC_DELIMITED, Side::Free));
        }
    }
    Ok(Emitted { code: p.out, notes: Vec::new() })
}

// --- Laws ----------------------------------------------------------------------------

proof fn lemma_like_body_front(p: Seq<char>)
    requires
        p.len() > 0,
    ensures
        like_body(p) == like_piece(p[0]) + like_body(p.drop_first()),
    decreases p.len(),
{
    if p.len() == 1 {
        assert(p.drop_last() =~= Seq::<char>::empty());
        assert(p.drop_first() =~= Seq::<char>::empty());
        assert(like_body(p.drop_last()) =~= Seq::<char>::empty());
        assert(like_body(p.drop_first()) =~= Seq::<char>::empty());
        assert(p.last() == p[0]);
        assert(like_body(p) =~= like_piece(p[0]));
    } else {
        lemma_like_body_front(p.drop_last());
        assert(p.drop_last().drop_first() =~= p.drop_first().drop_last());
        assert(p.drop_first().last() == p.last());
        assert(like_body(p) =~= like_piece(p[0]) + like_body(p.drop_first()));
    }
}

proof fn lemma_piece_shape(c: char)
    ensures
        like_piece(c).len() > 0,
        like_piece(c)[0] != '*',
        c == '%' ==> like_piece(c) == seq!['.', '*'],
        c == '_' ==> like_piece(c) == seq!['.'],
        c != '%' && c != '_' && is_meta(c) ==> like_piece(c) == seq!['\\', c],
        c != '%' && c != '_' && !is_meta(c) ==> like_piece(c) == seq![c],
{
    reveal_strlit(".*");
    reveal_strlit(".");
    let e = seq![c];
    assert(e.drop_last() =~= Seq::<char>::empty());
    assert(escaped(e.drop_last()) =~= Seq::<char>::empty());
    assert(e.last() == c);
    if is_meta(c) {
        assert(escaped(e) =~= seq!['\\', c]);
    } else {
        assert(escaped(e) =~= seq![c]);
    }
}

/// Decoding the regex body written for a pattern gives the pattern back.
proof fn lemma_like_decode_body(p: Seq<char>)
    ensures
        like_decode(like_body(p)) == Some(p),
    decreases p.len(),
{
    if p.len() == 0 {
        assert(like_body(p) =~= Seq::<char>::empty());
    } else {
        let c = p[0];
        let rest = p.drop_first();
        lemma_like_body_front(p);
        lemma_piece_shape(c);
        lemma_like_decode_body(rest);
        let piece = like_piece(c);
        let b = piece + like_body(rest);
        assert(b.skip(piece.len() as int) =~= like_body(rest));
        if like_body(rest).len() > 0 {
            if rest.len() > 0 {
                lemma_like_body_front(rest);
                lemma_piece_shape(rest[0]);
            } else {
                assert(like_body(rest) =~= Seq::<char>::empty());
            }
            assert(like_body(rest)[0] != '*');
        }
        assert(seq![c] + rest =~= p);
        if c == '%' {
            assert(b[0] == '.' && b[1] == '*');
        } else if c == '_' {
            assert(b[0] == '.');
            if b.len() >= 2 {
                assert(b[1] == like_body(rest)[0]);
            }
        } else if is_meta(c) {
            assert(b[0] == '\\' && b[1] == c);
        } else {
            assert(b[0] == c);
        }
    }
}

/// A literal `LIKE` pattern taken apart by lowering is written back by this
/// printer as the very pattern it was: the round trip through the typed tree
/// loses nothing.
pub proof fn law_like_patterns_round_trip(p: Seq<char>)
    ensures
        like_literal(like_pattern(p)) == Some(p),
{
    reveal_strlit("%");
    reveal_strlit("^");
    reveal_strlit("$");
    if wild_count(p) == 0 {
    } else if wild_count(p) == 1 && p.len() > 0 && p.last() == '%' {
        assert(p.drop_last() + "%"@ =~= p);
    } else if wild_count(p) == 1 && p.len() > 0 && p[0] == '%' {
        assert("%"@ + p.drop_first() =~= p);
    } else {
        let re = "^"@ + like_body(p) + "$"@;
        assert(re.subrange(1, re.len() - 1) =~= like_body(p));
        lemma_like_decode_body(p);
    }
}


// --- Comparison operators read and written --------------------------------------------------

/// Whether `s` is a way the expression language spells the comparison `op`:
/// `=`; `!=` or `<>`; `<`; `<=`; `>`; `>=`.
pub open spec fn spells_comparison(s: Seq<char>, op: CmpOp) -> bool {
    match op {
        CmpOp::Eq => s == seq!['='],
        CmpOp::Ne => s == seq!['!', '='] || s == seq!['<', '>'],
        CmpOp::Lt => s == seq!['<'],
        CmpOp::Le => s == seq!['<', '='],
        CmpOp::Gt => s == seq!['>'],
        CmpOp::Ge => s == seq!['>', '='],
    }
}

/// The parser reads each comparison by its spelling: the text it consumes
/// for a comparison spells exactly the operator it reports, so `!=` and `<>`
/// read as not-equal, `=` as equal, and so on.
pub proof fn law_comparisons_read_as_spelled(t: Seq<char>, i: int)
    ensures
        comparison_at(t, i) matches Some((op, j)) ==> i < j <= t.len() && spells_comparison(t.subrange(i, j), op),
{
    if let Some((op, j)) = comparison_at(t, i) {
        let s = t.subrange(i, j);
        if j == i + 2 {
            assert(s =~= seq![t[i], t[i + 1]]);
        } else {
            assert(s =~= seq![t[i]]);
        }
    }
}

/// Every comparison the canonical printer writes reads back as the same
/// comparison, and two different comparisons are never written alike.
pub proof fn law_comparison_symbols_read_back(op: CmpOp, other: CmpOp)
    ensures
        comparison_at(comparison_symbol(op), 0) == Some((op, comparison_symbol(op).len() as int)),
        comparison_symbol(op) == comparison_symbol(other) ==> op == other,
        spells_comparison(comparison_symbol(op), op),
{
    reveal_strlit("=");
    reveal_strlit("!=");
    reveal_strlit("<");
    reveal_strlit("<=");
    reveal_strlit(">");
    reveal_strlit(">=");
    assert("="@ =~= seq!['=']);
    assert("!="@ =~= seq!['!', '=']);
    assert("<"@ =~= seq!['<']);
    assert("<="@ =~= seq!['<', '=']);
    assert(">"@ =~= seq!['>']);
    assert(">="@ =~= seq!['>', '=']);
    if comparison_symbol(op) == comparison_symbol(other) && op != other {
        let a = comparison_symbol(op);
        let b = comparison_symbol(other);
        assert(a.len() == b.len());
        assert(a[0] == b[0]);
        if a.len() == 2 {
            assert(a[1] == b[1]);
        }
    }
}

} // verus!
