//! Lowering a checked assertion to its typed tree, proved to give exactly
//! what [`super::lowering`] says.

use vstd::prelude::*;

use super::check::{
    cols_view, date_literal_of, datetime_literal_of, lemma_pair_sizes_ge, lemma_sizes_ge,
    lemma_view_list, lemma_view_whens, lowercase_text, regex_error, signature_of, CheckEnv,
};
use super::grammar::{lowered, ExprV, KindV, NamedV, SelV};
use super::ir::{
    lemma_view_tlist, lemma_view_twhens, to_type, view_colref, view_colrefs, view_like,
    view_opt_selection, view_texpr, view_tkind, view_tlist, view_twhens, ColumnRef, IntervalUnit,
    LikePattern, NodeKind, Op, Selection, SelectorForm, Type, TypedAssertion, TypedExpr,
};
use super::lowering::{
    coerce, column_ref, escaped, like_body, like_pattern, listed_refs, lower_e, lower_items,
    lower_list, lower_whens, max_shapes, merge_type, refs_of, resolve_selection, when_shapes,
    when_types, wild_count, case_type, is_wild, ColRefV, FormV, LikeV, Lo, SelectionV, TExprV,
    TKindV,
};
use super::parse::{view_expr, view_list, view_named, view_names, view_path, view_sel, view_whens};
use super::rules::{
    env_column, lemma_size_pos, matched_columns, pair_sizes_from, regex_columns, regex_compile_error, size,
    sizes_from, EnvV,
};
use super::{kind_to_ty, max_shape, spec_max_shape, AssertExpr, ColumnKind, ColumnsSelector, Expr, ExprKind, NumLit, Shape};
use crate::text::{chars_of, string_of, string_push};

verus! {

// --- Outside calls ---------------------------------------------------------------

/// `text` with every regex meta character preceded by a backslash, as
/// `regex::escape` writes it.
fn regex_escape(text: &str) -> (r: String)
    ensures
        r@ == escaped(text@),
{
    let cs = chars_of(text);
    let mut out = String::new();
    let mut i: usize = 0;
    while i < cs.len()
        invariant
            i <= cs@.len(),
            cs@ == text@,
            out@ == escaped(text@.take(i as int)),
        decreases cs@.len() - i,
    {
        let c = cs[i];
        proof {
            let t = text@.take(i + 1);
            assert(t.drop_last() =~= text@.take(i as int));
            assert(t.last() == c);
        }
        if c == '\\' || c == '.' || c == '+' || c == '*' || c == '?' || c == '(' || c == ')' || c == '|'
            || c == '[' || c == ']' || c == '{' || c == '}' || c == '^' || c == '$' || c == '#' || c == '&'
            || c == '-' || c == '~' {
            string_push(&mut out, '\\');
        }
        string_push(&mut out, c);
        i = i + 1;
    }
    proof {
        assert(text@.take(cs@.len() as int) =~= text@);
    }
    out
}

// --- LIKE patterns -------------------------------------------------------------

/// Take a literal `LIKE` pattern apart. `%` matches any run of characters
/// and `_` any one; the language gives them no escape, so every other
/// character is literal.
pub fn like_pattern_of(pattern: &str) -> (r: LikePattern)
    ensures
        view_like(r) == like_pattern(pattern@),
{
    let cs = chars_of(pattern);
    let n = cs.len();
    let mut wild: usize = 0;
    let mut i: usize = 0;
    while i < n
        invariant
            i <= n,
            n == cs@.len(),
            wild == wild_count(cs@.take(i as int)),
            wild <= i,
        decreases n - i,
    {
        proof {
            assert(cs@.take(i + 1).drop_last() =~= cs@.take(i as int));
        }
        if cs[i] == '%' || cs[i] == '_' {
            wild = wild + 1;
        }
        i = i + 1;
    }
    assert(cs@.take(n as int) =~= cs@);
    if wild == 0 {
        return LikePattern::Exact(string_of(&cs, 0, n));
    }
    if wild == 1 && n > 0 && cs[n - 1] == '%' {
        let t = string_of(&cs, 0, n - 1);
        assert(t@ =~= cs@.drop_last());
        return LikePattern::Prefix(t);
    }
    if wild == 1 && n > 0 && cs[0] == '%' {
        let t = string_of(&cs, 1, n);
        assert(t@ =~= cs@.drop_first());
        return LikePattern::Suffix(t);
    }
    let mut re = String::from_str("^");
    let mut j: usize = 0;
    while j < n
        invariant
            j <= n,
            n == cs@.len(),
            re@ == "^"@ + like_body(cs@.take(j as int)),
        decreases n - j,
    {
        let ghost before = re@;
        let c = cs[j];
        if c == '%' {
            re.append(".*");
        } else if c == '_' {
            re.append(".");
        } else {
            let mut one = String::new();
            string_push(&mut one, c);
            assert(one@ =~= seq![c]);
            let esc = regex_escape(one.as_str());
            re.append(esc.as_str());
        }
        proof {
            let t = cs@.take(j + 1);
            assert(t.drop_last() =~= cs@.take(j as int));
            assert(t.last() == c);
            assert(re@ =~= "^"@ + like_body(t));
        }
        j = j + 1;
    }
    re.append("$");
    LikePattern::Regex(re)
}

// --- Small pieces -----------------------------------------------------------------

/// A string literal that meets a date or a datetime becomes one, when it
/// reads as one.
fn coerced(t: TypedExpr, target: Type) -> (r: TypedExpr)
    ensures
        view_texpr(r) == coerce(view_texpr(t), target),
{
    let found = match &t.kind {
        NodeKind::Str(s) => match target {
            Type::Date => match date_literal_of(s.as_str()) {
                Some(d) => Some((NodeKind::Date(d), Type::Date)),
                None => None,
            },
            Type::Datetime => match datetime_literal_of(s.as_str()) {
                Some(x) => Some((NodeKind::Datetime(x), Type::Datetime)),
                None => None,
            },
            _ => None,
        },
        _ => None,
    };
    match found {
        Some((kind, ty)) => TypedExpr { kind, ty, shape: t.shape, span: t.span },
        None => t,
    }
}

fn leaf(kind: NodeKind, ty: Type, e: &Expr) -> (r: TypedExpr)
    ensures
        r.kind == kind,
        r.ty == ty,
        r.shape == Shape::Const,
        r.span == (e.start, e.end),
{
    TypedExpr { kind, ty, shape: Shape::Const, span: (e.start, e.end) }
}

/// The larger of the shapes of `items`, and of `start`.
fn shapes_of(start: Shape, items: &Vec<TypedExpr>) -> (r: Shape)
    ensures
        r == max_shapes(start, view_tlist(items@)),
{
    proof {
        lemma_view_tlist(items@);
    }
    let ghost v = view_tlist(items@);
    let mut acc = start;
    let mut i: usize = 0;
    while i < items.len()
        invariant
            i <= items@.len(),
            v == view_tlist(items@),
            v.len() == items@.len(),
            forall|k: int| 0 <= k < items@.len() ==> #[trigger] v[k] == view_texpr(items@[k]),
            acc == max_shapes(start, v.take(i as int)),
        decreases items@.len() - i,
    {
        proof {
            assert(v.take(i + 1).drop_last() =~= v.take(i as int));
            assert(v[i as int] == view_texpr(items@[i as int]));
        }
        acc = max_shape(acc, items[i].shape);
        i = i + 1;
    }
    assert(v.take(i as int) =~= v);
    acc
}

fn merge_type_of(acc: Option<Type>, t: Type) -> (r: Option<Type>)
    ensures
        r == merge_type(acc, t),
{
    match acc {
        None => Some(t),
        Some(prev) => if prev == t || t == Type::Any {
            Some(prev)
        } else if prev == Type::Any {
            Some(t)
        } else {
            Some(Type::Any)
        },
    }
}

/// The type and shape of a `CASE` from its lowered branches.
fn case_type_shape(ws: &Vec<(TypedExpr, TypedExpr)>) -> (r: (Option<Type>, Shape))
    ensures
        r.0 == when_types(view_twhens(ws@)),
        r.1 == when_shapes(Shape::Const, view_twhens(ws@)),
{
    proof {
        lemma_view_twhens(ws@);
    }
    let ghost v = view_twhens(ws@);
    let mut ty: Option<Type> = None;
    let mut sh = Shape::Const;
    let mut i: usize = 0;
    while i < ws.len()
        invariant
            i <= ws@.len(),
            v == view_twhens(ws@),
            v.len() == ws@.len(),
            forall|k: int| 0 <= k < ws@.len() ==> #[trigger] v[k] == (view_texpr(ws@[k].0), view_texpr(ws@[k].1)),
            ty == when_types(v.take(i as int)),
            sh == when_shapes(Shape::Const, v.take(i as int)),
        decreases ws@.len() - i,
    {
        proof {
            assert(v.take(i + 1).drop_last() =~= v.take(i as int));
            assert(v[i as int] == (view_texpr(ws@[i as int].0), view_texpr(ws@[i as int].1)));
        }
        ty = merge_type_of(ty, ws[i].1.ty);
        sh = max_shape(max_shape(sh, ws[i].0.shape), ws[i].1.shape);
        i = i + 1;
    }
    assert(v.take(i as int) =~= v);
    (ty, sh)
}

/// `p`, segment by segment.
pub(crate) fn copy_path(p: &Vec<String>) -> (r: Vec<String>)
    ensures
        view_path(r@) == view_path(p@),
{
    let mut out: Vec<String> = Vec::new();
    let mut i: usize = 0;
    while i < p.len()
        invariant
            i <= p@.len(),
            view_path(out@) == view_path(p@).take(i as int),
        decreases p@.len() - i,
    {
        let ghost before = out@;
        out.push(p[i].clone());
        assert(view_path(out@) =~= view_path(before).push(p@[i as int]@));
        assert(view_path(p@).take(i + 1) =~= view_path(p@).take(i as int).push(p@[i as int]@));
        i = i + 1;
    }
    assert(view_path(p@).take(i as int) =~= view_path(p@));
    out
}

/// One column per `(name, kind)`, as a one-segment path.
fn refs(cols: &Vec<(String, ColumnKind)>) -> (r: Vec<ColumnRef>)
    ensures
        view_colrefs(r@) == refs_of(cols_view(cols@)),
{
    let mut out: Vec<ColumnRef> = Vec::new();
    let mut i: usize = 0;
    while i < cols.len()
        invariant
            i <= cols@.len(),
            view_colrefs(out@) == refs_of(cols_view(cols@)).take(i as int),
        decreases cols@.len() - i,
    {
        let ghost before = out@;
        let path = vec![cols[i].0.clone()];
        assert(view_path(path@) =~= seq![cols@[i as int].0@]);
        out.push(ColumnRef { path, ty: to_type(kind_to_ty(cols[i].1)) });
        assert(view_colrefs(out@) =~= view_colrefs(before).push(refs_of(cols_view(cols@))[i as int]));
        assert(refs_of(cols_view(cols@)).take(i + 1) =~= refs_of(cols_view(cols@)).take(i as int).push(refs_of(cols_view(cols@))[i as int]));
        i = i + 1;
    }
    assert(refs_of(cols_view(cols@)).take(i as int) =~= refs_of(cols_view(cols@)));
    out
}

// --- The walk ---------------------------------------------------------------------

/// Once a listed name is missing, the list as a whole does not resolve.
proof fn lemma_listed_none(env: EnvV, names: Seq<NamedV>, i: int)
    requires
        0 <= i <= names.len(),
        listed_refs(env, names.take(i)) is None,
    ensures
        listed_refs(env, names) is None,
    decreases names.len() - i,
{
    if i < names.len() {
        let t = names.take(i + 1);
        assert(t.drop_last() =~= names.take(i));
        lemma_listed_none(env, names, i + 1);
    } else {
        assert(names.take(i) =~= names);
    }
}

/// Whether an outcome is the one the rules give: the same tree and the same
/// selection, or nothing when the rules give nothing.
pub open spec fn gives(r: Option<TypedExpr>, sel: Option<SelectionV>, want: Lo<TExprV>) -> bool {
    match want {
        Some((t, s1)) => r is Some && view_texpr(r->0) == t && sel == s1,
        None => r is None,
    }
}

pub open spec fn prep<A>(a: Seq<A>, r: Lo<Seq<A>>) -> Lo<Seq<A>> {
    match r {
        Some((ts, s)) => Some((a + ts, s)),
        None => None,
    }
}

struct Lowerer<'a> {
    env: &'a CheckEnv,
    selection: Option<Selection>,
}

impl<'a> Lowerer<'a> {
    spec fn ev(&self) -> EnvV {
        self.env.view()
    }

    spec fn sel(&self) -> Option<SelectionV> {
        view_opt_selection(self.selection)
    }

    fn column_ref(&self, path: &Vec<String>) -> (r: Option<ColumnRef>)
        ensures
            match column_ref(self.ev(), view_path(path@)) {
                Some(c) => r is Some && view_colref(r->0) == c,
                None => r is None,
            },
    {
        let kind = if path.len() == 1 {
            self.env.column(path[0].as_str())
        } else {
            self.env.field(path.as_slice())
        };
        match kind {
            Some(k) => Some(ColumnRef { path: copy_path(path), ty: to_type(kind_to_ty(k)) }),
            None => None,
        }
    }

    /// Record the expression's `COLUMNS(...)` and the columns it picks out.
    fn resolve_selection(&mut self, sel: &ColumnsSelector) -> (r: bool)
        ensures
            final(self).env == old(self).env,
            match resolve_selection(old(self).ev(), view_sel(*sel)) {
                Some(x) => r && final(self).sel() == Some(x),
                None => !r,
            },
    {
        match sel {
            ColumnsSelector::All => {
                let cols = self.env.matched_columns(sel);
                let columns = refs(&cols);
                self.selection = Some(Selection { form: SelectorForm::All, columns });
                true
            },
            ColumnsSelector::Regex { pattern, .. } => {
                if regex_error(pattern.as_str()).is_some() {
                    false
                } else {
                    let cols = self.env.matched_columns(sel);
                    let columns = refs(&cols);
                    self.selection = Some(Selection { form: SelectorForm::Regex(pattern.clone()), columns });
                    true
                }
            },
            ColumnsSelector::List(names) => {
                let ghost nv = view_names(names@);
                let mut out: Vec<ColumnRef> = Vec::new();
                let mut i: usize = 0;
                while i < names.len()
                    invariant
                        self.env == old(self).env,
                        self.selection == old(self).selection,
                        view_sel(*sel) == SelV::List(nv),
                        i <= names@.len(),
                        nv == view_names(names@),
                        listed_refs(self.ev(), nv.take(i as int)) == Some(view_colrefs(out@)),
                    decreases names@.len() - i,
                {
                    proof {
                        let t = nv.take(i + 1);
                        assert(t.drop_last() =~= nv.take(i as int));
                        assert(t.last() == view_named(names@[i as int]));
                    }
                    match self.env.column(names[i].name.as_str()) {
                        Some(k) => {
                            let ghost before = out@;
                            let path = vec![names[i].name.clone()];
                            assert(view_path(path@) =~= seq![names@[i as int].name@]);
                            out.push(ColumnRef { path, ty: to_type(kind_to_ty(k)) });
                            assert(view_colrefs(out@) =~= view_colrefs(before).push(view_colref(out@.last())));
                        },
                        None => {
                            proof {
                                let t = nv.take(i + 1);
                                assert(nv[i as int] == view_named(names@[i as int]));
                                assert(t.last().name == names@[i as int].name@);
                                assert(env_column(self.ev(), t.last().name) is None);
                                assert(listed_refs(self.ev(), t) is None);
                                lemma_listed_none(self.ev(), nv, i as int + 1);
                                assert(listed_refs(self.ev(), nv) is None);
                            }
                            return false;
                        },
                    }
                    i = i + 1;
                }
                assert(nv.take(i as int) =~= nv);
                self.selection = Some(Selection { form: SelectorForm::List, columns: out });
                true
            },
        }
    }

    /// `s` lowered in turn.
    fn list(&mut self, s: &Vec<Expr>) -> (r: Option<Vec<TypedExpr>>)
        ensures
            final(self).env == old(self).env,
            match lower_list(old(self).ev(), view_list(s@), 0, old(self).sel()) {
                Some((ts, s1)) => r is Some && view_tlist(r->0@) == ts && final(self).sel() == s1,
                None => r is None,
            },
        decreases sizes_from(view_list(s@), 0), 2int,
    {
        let ghost lv = view_list(s@);
        let ghost sel0 = self.sel();
        proof {
            lemma_view_list(s@);
        }
        let mut out: Vec<TypedExpr> = Vec::new();
        let mut i: usize = 0;
        while i < s.len()
            invariant
                self.env == old(self).env,
                sel0 == old(self).sel(),
                i <= s@.len(),
                lv == view_list(s@),
                lv.len() == s@.len(),
                forall|k: int| 0 <= k < s@.len() ==> #[trigger] lv[k] == view_expr(s@[k]),
                lower_list(self.ev(), lv, 0, sel0) == prep(view_tlist(out@), lower_list(self.ev(), lv, i as int, self.sel())),
            decreases s@.len() - i,
        {
            proof {
                lemma_sizes_ge(lv, 0, i as int);
            }
            let ghost cur = self.sel();
            let ghost acc = view_tlist(out@);
            match self.expr(&s[i]) {
                Some(t) => {
                    proof {
                        let tv = view_texpr(t);
                        let rest = lower_list(self.ev(), lv, i + 1, self.sel());
                        assert(lower_list(self.ev(), lv, i as int, cur) == prep(seq![tv], rest));
                        match rest {
                            Some((ts, s2)) => {
                                assert(acc + (seq![tv] + ts) =~= acc.push(tv) + ts);
                            },
                            None => {},
                        }
                    }
                    let ghost old_out = out@;
                    out.push(t);
                    assert(out@.drop_last() =~= old_out);
                },
                None => {
                    assert(lower_list(self.ev(), lv, i as int, cur) is None);
                    return None;
                },
            }
            i = i + 1;
        }
        proof {
            assert(view_tlist(out@) + seq![] =~= view_tlist(out@));
        }
        Some(out)
    }

    /// `s` lowered in turn, each made to meet a value of type `target`.
    fn items(&mut self, s: &Vec<Expr>, target: Type) -> (r: Option<Vec<TypedExpr>>)
        ensures
            final(self).env == old(self).env,
            match lower_items(old(self).ev(), view_list(s@), 0, old(self).sel(), target) {
                Some((ts, s1)) => r is Some && view_tlist(r->0@) == ts && final(self).sel() == s1,
                None => r is None,
            },
        decreases sizes_from(view_list(s@), 0), 2int,
    {
        let ghost lv = view_list(s@);
        let ghost sel0 = self.sel();
        proof {
            lemma_view_list(s@);
        }
        let mut out: Vec<TypedExpr> = Vec::new();
        let mut i: usize = 0;
        while i < s.len()
            invariant
                self.env == old(self).env,
                sel0 == old(self).sel(),
                i <= s@.len(),
                lv == view_list(s@),
                lv.len() == s@.len(),
                forall|k: int| 0 <= k < s@.len() ==> #[trigger] lv[k] == view_expr(s@[k]),
                lower_items(self.ev(), lv, 0, sel0, target) == prep(view_tlist(out@), lower_items(self.ev(), lv, i as int, self.sel(), target)),
            decreases s@.len() - i,
        {
            proof {
                lemma_sizes_ge(lv, 0, i as int);
            }
            let ghost cur = self.sel();
            let ghost acc = view_tlist(out@);
            match self.expr(&s[i]) {
                Some(t) => {
                    let c = coerced(t, target);
                    proof {
                        let tv = view_texpr(c);
                        let rest = lower_items(self.ev(), lv, i + 1, self.sel(), target);
                        assert(lower_items(self.ev(), lv, i as int, cur, target) == prep(seq![tv], rest));
                        match rest {
                            Some((ts, s2)) => {
                                assert(acc + (seq![tv] + ts) =~= acc.push(tv) + ts);
                            },
                            None => {},
                        }
                    }
                    let ghost old_out = out@;
                    out.push(c);
                    assert(out@.drop_last() =~= old_out);
                },
                None => {
                    assert(lower_items(self.ev(), lv, i as int, cur, target) is None);
                    return None;
                },
            }
            i = i + 1;
        }
        proof {
            assert(view_tlist(out@) + seq![] =~= view_tlist(out@));
        }
        Some(out)
    }

    /// The `WHEN ... THEN ...` pairs lowered in turn.
    fn whens(&mut self, s: &Vec<(Expr, Expr)>) -> (r: Option<Vec<(TypedExpr, TypedExpr)>>)
        ensures
            final(self).env == old(self).env,
            match lower_whens(old(self).ev(), view_whens(s@), 0, old(self).sel()) {
                Some((ws, s1)) => r is Some && view_twhens(r->0@) == ws && final(self).sel() == s1,
                None => r is None,
            },
        decreases pair_sizes_from(view_whens(s@), 0), 2int,
    {
        let ghost wv = view_whens(s@);
        let ghost sel0 = self.sel();
        proof {
            lemma_view_whens(s@);
        }
        let mut out: Vec<(TypedExpr, TypedExpr)> = Vec::new();
        let mut i: usize = 0;
        while i < s.len()
            invariant
                self.env == old(self).env,
                sel0 == old(self).sel(),
                i <= s@.len(),
                wv == view_whens(s@),
                wv.len() == s@.len(),
                forall|k: int| 0 <= k < s@.len() ==> #[trigger] wv[k] == (view_expr(s@[k].0), view_expr(s@[k].1)),
                lower_whens(self.ev(), wv, 0, sel0) == prep(view_twhens(out@), lower_whens(self.ev(), wv, i as int, self.sel())),
            decreases s@.len() - i,
        {
            proof {
                lemma_pair_sizes_ge(wv, 0, i as int);
                lemma_size_pos(wv[i as int].0);
                lemma_size_pos(wv[i as int].1);
            }
            let ghost cur = self.sel();
            let ghost acc = view_twhens(out@);
            let c = match self.expr(&s[i].0) {
                Some(c) => c,
                None => {
                    assert(lower_whens(self.ev(), wv, i as int, cur) is None);
                    return None;
                },
            };
            let ghost mid = self.sel();
            let r = match self.expr(&s[i].1) {
                Some(r) => r,
                None => {
                    assert(lower_whens(self.ev(), wv, i as int, cur) is None);
                    return None;
                },
            };
            proof {
                let pv = (view_texpr(c), view_texpr(r));
                let rest = lower_whens(self.ev(), wv, i + 1, self.sel());
                assert(lower_whens(self.ev(), wv, i as int, cur) == prep(seq![pv], rest));
                match rest {
                    Some((ts, s2)) => {
                        assert(acc + (seq![pv] + ts) =~= acc.push(pv) + ts);
                    },
                    None => {},
                }
            }
            let ghost old_out = out@;
            out.push((c, r));
            assert(out@.drop_last() =~= old_out);
            i = i + 1;
        }
        proof {
            assert(view_twhens(out@) + seq![] =~= view_twhens(out@));
        }
        Some(out)
    }
}

impl<'a> Lowerer<'a> {
    fn expr(&mut self, e: &Expr) -> (r: Option<TypedExpr>)
        ensures
            final(self).env == old(self).env,
            gives(r, final(self).sel(), lower_e(old(self).ev(), view_expr(*e), old(self).sel())),
        decreases size(view_expr(*e)), 1int,
    {
        match &e.kind {
            ExprKind::Number(NumLit::Int(n)) => Some(leaf(NodeKind::Int(*n), Type::Number, e)),
            ExprKind::Number(NumLit::Float(t)) => Some(leaf(NodeKind::Float(t.clone()), Type::Number, e)),
            ExprKind::Str(s) => Some(leaf(NodeKind::Str(s.clone()), Type::String, e)),
            ExprKind::Bool(b) => Some(leaf(NodeKind::Bool(*b), Type::Bool, e)),
            ExprKind::Null => Some(leaf(NodeKind::Null, Type::Any, e)),
            ExprKind::Now => Some(leaf(NodeKind::Now, Type::Datetime, e)),
            ExprKind::Column(path) => match self.column_ref(path) {
                Some(c) => {
                    let ty = c.ty;
                    Some(TypedExpr { kind: NodeKind::Column(c), ty, shape: Shape::Row, span: (e.start, e.end) })
                },
                None => None,
            },
            ExprKind::Columns(sel) => {
                if self.resolve_selection(sel) {
                    Some(TypedExpr { kind: NodeKind::Selected, ty: Type::Any, shape: Shape::Row, span: (e.start, e.end) })
                } else {
                    None
                }
            },
            ExprKind::Neg(_) | ExprKind::Not(_) | ExprKind::IsNull { .. } | ExprKind::Interval { .. } => self.unary(e),
            ExprKind::And(..) | ExprKind::Or(..) | ExprKind::Arith { .. } | ExprKind::Compare { .. }
            | ExprKind::SimilarTo { .. } => self.binary(e),
            ExprKind::Between { .. } => self.between(e),
            ExprKind::In { .. } => self.member(e),
            ExprKind::Like { .. } => self.like(e),
            ExprKind::Call { .. } => self.call(e),
            ExprKind::Case { .. } => self.case(e),
        }
    }

    #[verifier::rlimit(50)]
    fn unary(&mut self, e: &Expr) -> (r: Option<TypedExpr>)
        requires
            e.kind is Neg || e.kind is Not || e.kind is IsNull || e.kind is Interval,
        ensures
            final(self).env == old(self).env,
            gives(r, final(self).sel(), lower_e(old(self).ev(), view_expr(*e), old(self).sel())),
        decreases size(view_expr(*e)), 0int,
    {
        let span = (e.start, e.end);
        match &e.kind {
            ExprKind::Neg(x) => match self.expr(x) {
                Some(a) => {
                    let sh = a.shape;
                    Some(TypedExpr { kind: NodeKind::Neg(Box::new(a)), ty: Type::Number, shape: sh, span })
                },
                None => None,
            },
            ExprKind::Not(x) => match self.expr(x) {
                Some(a) => {
                    let sh = a.shape;
                    Some(TypedExpr { kind: NodeKind::Not(Box::new(a)), ty: Type::Bool, shape: sh, span })
                },
                None => None,
            },
            ExprKind::IsNull { operand, negated } => match self.expr(operand) {
                Some(a) => {
                    let sh = a.shape;
                    Some(TypedExpr { kind: NodeKind::IsNull { operand: Box::new(a), negated: *negated }, ty: Type::Bool, shape: sh, span })
                },
                None => None,
            },
            ExprKind::Interval { n, unit, .. } => match self.expr(n) {
                Some(a) => {
                    let l = lowercase_text(unit.as_str());
                    match IntervalUnit::from_name(l.as_str()) {
                        Some(u) => {
                            let sh = a.shape;
                            Some(TypedExpr { kind: NodeKind::Interval { n: Box::new(a), unit: u }, ty: Type::Interval, shape: sh, span })
                        },
                        None => None,
                    }
                },
                None => None,
            },
            _ => None,
        }
    }

    #[verifier::rlimit(50)]
    fn binary(&mut self, e: &Expr) -> (r: Option<TypedExpr>)
        requires
            e.kind is And || e.kind is Or || e.kind is Arith || e.kind is Compare || e.kind is SimilarTo,
        ensures
            final(self).env == old(self).env,
            gives(r, final(self).sel(), lower_e(old(self).ev(), view_expr(*e), old(self).sel())),
        decreases size(view_expr(*e)), 0int,
    {
        let span = (e.start, e.end);
        let (x, y) = match &e.kind {
            ExprKind::And(l, r) => (l, r),
            ExprKind::Or(l, r) => (l, r),
            ExprKind::Arith { lhs, rhs, .. } => (lhs, rhs),
            ExprKind::Compare { lhs, rhs, .. } => (lhs, rhs),
            ExprKind::SimilarTo { operand, pattern, .. } => (operand, pattern),
            _ => {
                return None;
            },
        };
        let a = match self.expr(x) {
            Some(a) => a,
            None => {
                return None;
            },
        };
        let b = match self.expr(y) {
            Some(b) => b,
            None => {
                return None;
            },
        };
        let sh = max_shape(a.shape, b.shape);
        match &e.kind {
            ExprKind::And(..) => Some(TypedExpr { kind: NodeKind::And(Box::new(a), Box::new(b)), ty: Type::Bool, shape: sh, span }),
            ExprKind::Or(..) => Some(TypedExpr { kind: NodeKind::Or(Box::new(a), Box::new(b)), ty: Type::Bool, shape: sh, span }),
            ExprKind::Arith { op, .. } => {
                let temporal = a.ty == Type::Date || a.ty == Type::Datetime || b.ty == Type::Date || b.ty == Type::Datetime;
                let interval = a.ty == Type::Interval || b.ty == Type::Interval;
                let ty = if temporal && interval { Type::Datetime } else { Type::Number };
                Some(TypedExpr { kind: NodeKind::Arith { op: *op, lhs: Box::new(a), rhs: Box::new(b) }, ty, shape: sh, span })
            },
            ExprKind::Compare { op, .. } => {
                let (at, bt) = (a.ty, b.ty);
                let a1 = coerced(a, bt);
                let b1 = coerced(b, at);
                Some(TypedExpr { kind: NodeKind::Compare { op: *op, lhs: Box::new(a1), rhs: Box::new(b1) }, ty: Type::Bool, shape: sh, span })
            },
            ExprKind::SimilarTo { negated, .. } => Some(TypedExpr {
                kind: NodeKind::SimilarTo { operand: Box::new(a), pattern: Box::new(b), negated: *negated },
                ty: Type::Bool,
                shape: sh,
                span,
            }),
            _ => None,
        }
    }

    #[verifier::rlimit(50)]
    fn between(&mut self, e: &Expr) -> (r: Option<TypedExpr>)
        requires
            e.kind is Between,
        ensures
            final(self).env == old(self).env,
            gives(r, final(self).sel(), lower_e(old(self).ev(), view_expr(*e), old(self).sel())),
        decreases size(view_expr(*e)), 0int,
    {
        match &e.kind {
            ExprKind::Between { operand, lo, hi, negated } => {
                let a = match self.expr(operand) {
                    Some(a) => a,
                    None => {
                        return None;
                    },
                };
                let l = match self.expr(lo) {
                    Some(l) => l,
                    None => {
                        return None;
                    },
                };
                let h = match self.expr(hi) {
                    Some(h) => h,
                    None => {
                        return None;
                    },
                };
                let sh = max_shape(max_shape(a.shape, l.shape), h.shape);
                let (at, lt, ht) = (a.ty, l.ty, h.ty);
                let a1 = coerced(a, lt);
                let l1 = coerced(l, at);
                let a1t = a1.ty;
                let a2 = coerced(a1, ht);
                let h1 = coerced(h, a1t);
                Some(TypedExpr {
                    kind: NodeKind::Between { operand: Box::new(a2), lo: Box::new(l1), hi: Box::new(h1), negated: *negated },
                    ty: Type::Bool,
                    shape: sh,
                    span: (e.start, e.end),
                })
            },
            _ => None,
        }
    }

    fn member(&mut self, e: &Expr) -> (r: Option<TypedExpr>)
        requires
            e.kind is In,
        ensures
            final(self).env == old(self).env,
            gives(r, final(self).sel(), lower_e(old(self).ev(), view_expr(*e), old(self).sel())),
        decreases size(view_expr(*e)), 0int,
    {
        match &e.kind {
            ExprKind::In { operand, list, negated } => {
                let a = match self.expr(operand) {
                    Some(a) => a,
                    None => {
                        return None;
                    },
                };
                let items = match self.items(list, a.ty) {
                    Some(items) => items,
                    None => {
                        return None;
                    },
                };
                proof {
                    lemma_view_tlist(items@);
                }
                let sh = shapes_of(a.shape, &items);
                let a1 = if items.len() > 0 {
                    let t = items[0].ty;
                    coerced(a, t)
                } else {
                    a
                };
                Some(TypedExpr {
                    kind: NodeKind::In { operand: Box::new(a1), list: items, negated: *negated },
                    ty: Type::Bool,
                    shape: sh,
                    span: (e.start, e.end),
                })
            },
            _ => None,
        }
    }

    #[verifier::rlimit(50)]
    fn like(&mut self, e: &Expr) -> (r: Option<TypedExpr>)
        requires
            e.kind is Like,
        ensures
            final(self).env == old(self).env,
            gives(r, final(self).sel(), lower_e(old(self).ev(), view_expr(*e), old(self).sel())),
        decreases size(view_expr(*e)), 0int,
    {
        match &e.kind {
            ExprKind::Like { operand, pattern, negated } => {
                let a = match self.expr(operand) {
                    Some(a) => a,
                    None => {
                        return None;
                    },
                };
                let p = match &pattern.kind {
                    ExprKind::Str(text) => like_pattern_of(text.as_str()),
                    _ => match self.expr(pattern) {
                        Some(x) => LikePattern::Dynamic(Box::new(x)),
                        None => {
                            return None;
                        },
                    },
                };
                let sh = a.shape;
                Some(TypedExpr {
                    kind: NodeKind::Like { operand: Box::new(a), pattern: p, negated: *negated },
                    ty: Type::Bool,
                    shape: sh,
                    span: (e.start, e.end),
                })
            },
            _ => None,
        }
    }

    fn call(&mut self, e: &Expr) -> (r: Option<TypedExpr>)
        requires
            e.kind is Call,
        ensures
            final(self).env == old(self).env,
            gives(r, final(self).sel(), lower_e(old(self).ev(), view_expr(*e), old(self).sel())),
        decreases size(view_expr(*e)), 0int,
    {
        match &e.kind {
            ExprKind::Call { name, args } => {
                let l = lowercase_text(name.as_str());
                let op = match Op::from_name(l.as_str()) {
                    Some(op) => op,
                    None => {
                        return None;
                    },
                };
                let sig = match signature_of(l.as_str()) {
                    Some(sig) => sig,
                    None => {
                        return None;
                    },
                };
                let xs = match self.list(args) {
                    Some(xs) => xs,
                    None => {
                        return None;
                    },
                };
                proof {
                    lemma_view_tlist(xs@);
                }
                let ty = match sig.ret {
                    Some(t) => to_type(t),
                    None => if xs.len() > 0 {
                        xs[0].ty
                    } else {
                        Type::Any
                    },
                };
                let sh = if sig.aggregate {
                    Shape::Agg
                } else {
                    shapes_of(Shape::Const, &xs)
                };
                Some(TypedExpr { kind: NodeKind::Func { op, args: xs }, ty, shape: sh, span: (e.start, e.end) })
            },
            _ => None,
        }
    }

    fn case(&mut self, e: &Expr) -> (r: Option<TypedExpr>)
        requires
            e.kind is Case,
        ensures
            final(self).env == old(self).env,
            gives(r, final(self).sel(), lower_e(old(self).ev(), view_expr(*e), old(self).sel())),
        decreases size(view_expr(*e)), 0int,
    {
        match &e.kind {
            ExprKind::Case { whens, els } => {
                let ws = match self.whens(whens) {
                    Some(ws) => ws,
                    None => {
                        return None;
                    },
                };
                let (ty0, sh0) = case_type_shape(&ws);
                match els {
                    Some(x) => match self.expr(x) {
                        Some(b) => {
                            let ty = match merge_type_of(ty0, b.ty) {
                                Some(t) => t,
                                None => Type::Any,
                            };
                            let sh = max_shape(sh0, b.shape);
                            Some(TypedExpr {
                                kind: NodeKind::Case { whens: ws, els: Some(Box::new(b)) },
                                ty,
                                shape: sh,
                                span: (e.start, e.end),
                            })
                        },
                        None => None,
                    },
                    None => {
                        let ty = match ty0 {
                            Some(t) => t,
                            None => Type::Any,
                        };
                        Some(TypedExpr { kind: NodeKind::Case { whens: ws, els: None }, ty, shape: sh0, span: (e.start, e.end) })
                    },
                }
            },
            _ => None,
        }
    }
}

/// Lower a checked assertion to its typed tree.
///
/// Defined for an expression that checked clean against `env`: every column
/// resolves and every function and unit is known. `None` means one of them
/// did not.
pub fn lower(expr: &AssertExpr, env: &CheckEnv) -> (r: Option<TypedAssertion>)
    ensures
        match lower_e(env.view(), view_expr(expr.root), None) {
            Some((t, sel)) => r is Some && view_texpr(r->0.root) == t && view_opt_selection(r->0.selection) == sel,
            None => r is None,
        },
{
    let mut cx = Lowerer { env, selection: None };
    match cx.expr(&expr.root) {
        Some(root) => Some(TypedAssertion { selection: cx.selection, root }),
        None => None,
    }
}

} // verus!
