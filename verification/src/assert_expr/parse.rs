//! The recursive-descent parser for assertion expressions. Every function
//! here reads from a [`Cursor`] and is proved to give exactly what the
//! grammar of [`super::grammar`] says parsing from that position gives.

use vstd::prelude::*;

use super::grammar::{
    at_char, bo, comparison_at, digits_at_least, digits_end, digits_value, err, expect_char, expect_kw,
    f64_overflow_digits, overflows_f64, significant,
    is_digit, is_name_start, is_space, is_word, kw, lower, lowered, msg_expected_char,
    msg_expected_kw, msg_keyword, node, number_end, p_fields, p_number, p_quoted, p_string,
    quoted_body, reserved, string_body, upper, uppered, word_end, ws, ErrV, ExprV, KindV, NamedV,
    NumV, SelV, PR, p_expr, p_or, or_rest, p_and, and_rest, p_not, p_predicate, predicate_tail,
    between_tail, in_tail, list_rest, p_additive, add_rest, p_multiplicative, mul_rest, p_unary,
    p_primary, p_word, p_case, case_whens, p_args, p_interval, p_list_name, names_rest, p_columns,
    parse_text, fwd,
};
use crate::text::str_eq;
use super::{ArithOp, AssertExpr, CmpOp, ColumnsSelector, Expr, ExprKind, Named, NumLit, ParseError};
use crate::text::{chars_of, string_of, string_push};
use vstd::string::StringSliceAdditionalSpecFns;

verus! {

broadcast use vstd::utf8::char_is_scalar;

// --- Views -------------------------------------------------------------------

pub open spec fn view_num(n: NumLit) -> NumV {
    match n {
        NumLit::Int(i) => NumV::Int(i),
        NumLit::Float(s) => NumV::Float(s@),
    }
}

pub open spec fn view_named(n: Named) -> NamedV {
    NamedV { name: n.name@, start: n.start as int, end: n.end as int }
}

pub open spec fn view_names(ns: Seq<Named>) -> Seq<NamedV> {
    ns.map_values(|n: Named| view_named(n))
}

pub open spec fn view_sel(s: ColumnsSelector) -> SelV {
    match s {
        ColumnsSelector::All => SelV::All,
        ColumnsSelector::Regex { pattern, start, end } => SelV::Regex {
            pattern: pattern@,
            start: start as int,
            end: end as int,
        },
        ColumnsSelector::List(names) => SelV::List(view_names(names@)),
    }
}

pub open spec fn view_path(p: Seq<String>) -> Seq<Seq<char>> {
    p.map_values(|s: String| s@)
}

/// What a parsed tree says, as the grammar states trees.
pub open spec fn view_expr(e: Expr) -> ExprV
    decreases e,
{
    ExprV { kind: view_kind(e.kind), start: e.start as int, end: e.end as int }
}

pub open spec fn view_kind(k: ExprKind) -> KindV
    decreases k,
{
    match k {
        ExprKind::Number(n) => KindV::Number(view_num(n)),
        ExprKind::Str(s) => KindV::Str(s@),
        ExprKind::Bool(b) => KindV::Bool(b),
        ExprKind::Null => KindV::Null,
        ExprKind::Column(p) => KindV::Column(view_path(p@)),
        ExprKind::Neg(x) => KindV::Neg(Box::new(view_expr(*x))),
        ExprKind::Not(x) => KindV::Not(Box::new(view_expr(*x))),
        ExprKind::Arith { op, lhs, rhs } => KindV::Arith {
            op,
            lhs: Box::new(view_expr(*lhs)),
            rhs: Box::new(view_expr(*rhs)),
        },
        ExprKind::Compare { op, lhs, rhs } => KindV::Compare {
            op,
            lhs: Box::new(view_expr(*lhs)),
            rhs: Box::new(view_expr(*rhs)),
        },
        ExprKind::And(l, r) => KindV::And(Box::new(view_expr(*l)), Box::new(view_expr(*r))),
        ExprKind::Or(l, r) => KindV::Or(Box::new(view_expr(*l)), Box::new(view_expr(*r))),
        ExprKind::IsNull { operand, negated } => KindV::IsNull {
            operand: Box::new(view_expr(*operand)),
            negated,
        },
        ExprKind::Between { operand, lo, hi, negated } => KindV::Between {
            operand: Box::new(view_expr(*operand)),
            lo: Box::new(view_expr(*lo)),
            hi: Box::new(view_expr(*hi)),
            negated,
        },
        ExprKind::In { operand, list, negated } => KindV::In {
            operand: Box::new(view_expr(*operand)),
            list: view_list(list@),
            negated,
        },
        ExprKind::Like { operand, pattern, negated } => KindV::Like {
            operand: Box::new(view_expr(*operand)),
            pattern: Box::new(view_expr(*pattern)),
            negated,
        },
        ExprKind::SimilarTo { operand, pattern, negated } => KindV::SimilarTo {
            operand: Box::new(view_expr(*operand)),
            pattern: Box::new(view_expr(*pattern)),
            negated,
        },
        ExprKind::Call { name, args } => KindV::Call { name: name@, args: view_list(args@) },
        ExprKind::Now => KindV::Now,
        ExprKind::Interval { n, unit, unit_start, unit_end } => KindV::Interval {
            n: Box::new(view_expr(*n)),
            unit: unit@,
            unit_start: unit_start as int,
            unit_end: unit_end as int,
        },
        ExprKind::Case { whens, els } => KindV::Case {
            whens: view_whens(whens@),
            els: match els {
                Some(x) => Some(Box::new(view_expr(*x))),
                None => None,
            },
        },
        ExprKind::Columns(s) => KindV::Columns(view_sel(s)),
    }
}

pub open spec fn view_list(s: Seq<Expr>) -> Seq<ExprV>
    decreases s,
{
    if s.len() == 0 {
        seq![]
    } else {
        view_list(s.drop_last()).push(view_expr(s.last()))
    }
}

pub open spec fn view_whens(s: Seq<(Expr, Expr)>) -> Seq<(ExprV, ExprV)>
    decreases s,
{
    if s.len() == 0 {
        seq![]
    } else {
        view_whens(s.drop_last()).push((view_expr(s.last().0), view_expr(s.last().1)))
    }
}

pub open spec fn view_err(e: ParseError) -> ErrV {
    ErrV { message: e.message@, at: e.at as int }
}

/// A parse result as the grammar states it.
pub open spec fn pr_expr(r: Result<(Expr, Cursor), ParseError>) -> PR<ExprV> {
    match r {
        Ok((e, c)) => Ok((view_expr(e), c.at as int)),
        Err(er) => Err(view_err(er)),
    }
}

pub open spec fn pr_str(r: Result<(String, Cursor), ParseError>) -> PR<Seq<char>> {
    match r {
        Ok((e, c)) => Ok((e@, c.at as int)),
        Err(er) => Err(view_err(er)),
    }
}

pub open spec fn pr_path(r: Result<(Vec<String>, Cursor), ParseError>) -> PR<Seq<Seq<char>>> {
    match r {
        Ok((e, c)) => Ok((view_path(e@), c.at as int)),
        Err(er) => Err(view_err(er)),
    }
}

pub open spec fn pr_list(r: Result<(Vec<Expr>, Cursor), ParseError>) -> PR<Seq<ExprV>> {
    match r {
        Ok((e, c)) => Ok((view_list(e@), c.at as int)),
        Err(er) => Err(view_err(er)),
    }
}

pub open spec fn pr_whens(r: Result<(Vec<(Expr, Expr)>, Cursor), ParseError>) -> PR<
    Seq<(ExprV, ExprV)>,
> {
    match r {
        Ok((e, c)) => Ok((view_whens(e@), c.at as int)),
        Err(er) => Err(view_err(er)),
    }
}

pub open spec fn pr_names(r: Result<(Vec<Named>, Cursor), ParseError>) -> PR<Seq<NamedV>> {
    match r {
        Ok((e, c)) => Ok((view_names(e@), c.at as int)),
        Err(er) => Err(view_err(er)),
    }
}

// --- UTF-8 offsets -------------------------------------------------------------

proof fn lemma_encode_concat(a: Seq<char>, b: Seq<char>)
    ensures
        vstd::utf8::encode_utf8(a + b) == vstd::utf8::encode_utf8(a) + vstd::utf8::encode_utf8(b),
    decreases a.len(),
{
    if a.len() > 0 {
        lemma_encode_concat(a.drop_first(), b);
        assert((a + b).drop_first() =~= a.drop_first() + b);
        assert((a + b)[0] == a[0]);
    } else {
        assert(a + b =~= b);
    }
}

/// The UTF-8 width of `c`.
pub open spec fn width(c: char) -> int {
    vstd::utf8::encode_scalar(c as u32).len() as int
}

proof fn lemma_bo_step(t: Seq<char>, i: int)
    requires
        0 <= i < t.len(),
    ensures
        bo(t, i + 1) == bo(t, i) + width(t[i]),
        1 <= width(t[i]) <= 4,
{
    reveal(bo);
    assert(t.take(i + 1) =~= t.take(i) + seq![t[i]]);
    lemma_encode_concat(t.take(i), seq![t[i]]);
    let one = seq![t[i]];
    assert(one.drop_first() =~= Seq::<char>::empty());
    assert(vstd::utf8::encode_utf8(one.drop_first()) =~= Seq::<u8>::empty());
    assert(vstd::utf8::encode_utf8(one) =~= vstd::utf8::encode_scalar(one[0] as u32) + Seq::<u8>::empty());
    assert(vstd::utf8::encode_utf8(one) =~= vstd::utf8::encode_scalar(t[i] as u32));
}

proof fn lemma_bo_mono(t: Seq<char>, i: int, j: int)
    requires
        0 <= i <= j <= t.len(),
    ensures
        bo(t, i) <= bo(t, j),
        bo(t, i) >= i,
    decreases j - i + i,
{
    reveal(bo);
    if i < j {
        lemma_bo_step(t, j - 1);
        lemma_bo_mono(t, i, j - 1);
    } else if i > 0 {
        lemma_bo_step(t, i - 1);
        lemma_bo_mono(t, i - 1, i - 1);
    } else {
        assert(t.take(0) =~= Seq::<char>::empty());
    }
}

/// The UTF-8 width of `c`, as `char::len_utf8` gives it.
fn char_width(c: char) -> (r: usize)
    ensures
        r == width(c),
{
    let u = c as u32;
    if u <= 0x7F {
        1
    } else if u <= 0x7FF {
        2
    } else if u <= 0xFFFF {
        3
    } else {
        4
    }
}

// --- The parser ----------------------------------------------------------------

/// A position in the expression: its character index and its byte offset.
#[derive(Clone, Copy)]
pub struct Cursor {
    pub at: usize,
    pub byte: usize,
}

/// The characters of the expression being parsed.
pub struct Parser {
    pub chars: Vec<char>,
}

impl Parser {
    pub open spec fn t(&self) -> Seq<char> {
        self.chars@
    }

    /// Every byte offset of the text fits in a `usize`.
    pub open spec fn wf(&self) -> bool {
        bo(self.t(), self.t().len() as int) <= usize::MAX
    }

    /// `c` is a position of the text, with its true byte offset.
    pub open spec fn ok(&self, c: Cursor) -> bool {
        c.at <= self.t().len() && c.byte == bo(self.t(), c.at as int)
    }

    pub fn new(text: &str) -> (r: Parser)
        ensures
            r.t() == text@,
            r.wf(),
    {
        let chars = chars_of(text);
        let bytes = text.as_bytes();
        let n = bytes.len();
        proof {
            reveal(bo);
            assert(text@.take(text@.len() as int) =~= text@);
            assert(n == text.spec_bytes().len());
        }
        Parser { chars }
    }

    pub fn start(&self) -> (r: Cursor)
        ensures
            self.ok(r),
            r.at == 0,
    {
        proof {
            reveal(bo);
            assert(self.t().take(0) =~= Seq::<char>::empty());
        }
        Cursor { at: 0, byte: 0 }
    }

    pub fn is_eof(&self, c: Cursor) -> (r: bool)
        requires
            self.ok(c),
        ensures
            r == (c.at >= self.t().len()),
    {
        c.at >= self.chars.len()
    }

    pub fn peek(&self, c: Cursor) -> (r: Option<char>)
        requires
            self.ok(c),
        ensures
            r == (if c.at < self.t().len() {
                Some(self.t()[c.at as int])
            } else {
                None::<char>
            }),
    {
        if c.at < self.chars.len() {
            Some(self.chars[c.at])
        } else {
            None
        }
    }

    /// Whether `ch` is at `c`.
    pub fn at_char(&self, c: Cursor, ch: char) -> (r: bool)
        requires
            self.ok(c),
        ensures
            r == at_char(self.t(), c.at as int, ch),
    {
        c.at < self.chars.len() && self.chars[c.at] == ch
    }

    /// Whether whitespace is at `c`.
    fn space_at(&self, c: Cursor) -> (r: bool)
        requires
            self.ok(c),
        ensures
            r == (c.at < self.t().len() && is_space(self.t()[c.at as int])),
    {
        if c.at < self.chars.len() {
            let ch = self.chars[c.at];
            ch == ' ' || ch == '\t' || ch == '\n' || ch == '\x0C' || ch == '\r'
        } else {
            false
        }
    }

    /// One character on from `c`.
    pub fn step(&self, c: Cursor) -> (r: Cursor)
        requires
            self.wf(),
            self.ok(c),
            c.at < self.t().len(),
        ensures
            self.ok(r),
            r.at == c.at + 1,
    {
        let w = char_width(self.chars[c.at]);
        proof {
            lemma_bo_step(self.t(), c.at as int);
            lemma_bo_mono(self.t(), c.at + 1, self.t().len() as int);
        }
        Cursor { at: c.at + 1, byte: c.byte + w }
    }

    /// Past any whitespace from `c`.
    pub fn skip_ws(&self, c: Cursor) -> (r: Cursor)
        requires
            self.wf(),
            self.ok(c),
        ensures
            self.ok(r),
            r.at == ws(self.t(), c.at as int),
            r.at >= c.at,
    {
        let mut p = c;
        while self.space_at(p)
            invariant
                self.wf(),
                self.ok(p),
                p.at >= c.at,
                ws(self.t(), c.at as int) == ws(self.t(), p.at as int),
            decreases self.t().len() - p.at,
        {
            p = self.step(p);
        }
        p
    }

    /// The error `message` pointing at `c`.
    pub fn err_at(&self, c: Cursor, message: String) -> (r: ParseError)
        ensures
            view_err(r) == (ErrV { message: message@, at: c.byte as int }),
    {
        ParseError { message, at: c.byte }
    }

    /// `n` characters on from `c`.
    pub fn advance(&self, c: Cursor, n: usize) -> (r: Cursor)
        requires
            self.wf(),
            self.ok(c),
            c.at + n <= self.t().len(),
        ensures
            self.ok(r),
            r.at == c.at + n,
    {
        let mut p = c;
        let mut k: usize = 0;
        while k < n
            invariant
                self.wf(),
                self.ok(p),
                p.at == c.at + k,
                k <= n,
                c.at + n <= self.t().len(),
            decreases n - k,
        {
            p = self.step(p);
            k = k + 1;
        }
        p
    }

    /// Past the name characters from `c`.
    pub fn word_end(&self, c: Cursor) -> (r: Cursor)
        requires
            self.wf(),
            self.ok(c),
        ensures
            self.ok(r),
            r.at == word_end(self.t(), c.at as int),
            r.at >= c.at,
    {
        let mut p = c;
        while p.at < self.chars.len() && is_word_char(self.chars[p.at])
            invariant
                self.wf(),
                self.ok(p),
                p.at >= c.at,
                word_end(self.t(), c.at as int) == word_end(self.t(), p.at as int),
            decreases self.t().len() - p.at,
        {
            p = self.step(p);
        }
        p
    }

    /// The name at `c`, and the position after it.
    pub fn read_word(&self, c: Cursor) -> (r: (String, Cursor))
        requires
            self.wf(),
            self.ok(c),
        ensures
            self.ok(r.1),
            r.1.at == word_end(self.t(), c.at as int),
            r.1.at >= c.at,
            r.0@ == self.t().subrange(c.at as int, r.1.at as int),
    {
        let e = self.word_end(c);
        (string_of(self.chars.as_slice(), c.at, e.at), e)
    }

    /// The keyword `k` (written in lower case) after any whitespace from `c`,
    /// in any case and not running on into a name.
    pub fn match_keyword(&self, c: Cursor, k: &str) -> (r: Option<Cursor>)
        requires
            self.wf(),
            self.ok(c),
        ensures
            match r {
                Some(e) => self.ok(e) && kw(self.t(), c.at as int, k@) == Some(e.at as int) && e.at
                    >= c.at + k@.len(),
                None => kw(self.t(), c.at as int, k@) is None,
            },
    {
        reveal(kw);
        let j = self.skip_ws(c);
        let kc = chars_of(k);
        let n = self.chars.len();
        if kc.len() > n - j.at {
            return None;
        }
        let mut i: usize = 0;
        while i < kc.len()
            invariant
                kc@ == k@,
                j.at == ws(self.t(), c.at as int),
                j.at + kc@.len() <= self.t().len(),
                n == self.t().len(),
                i <= kc@.len(),
                forall|m: int| 0 <= m < i ==> lower(#[trigger] self.t()[j.at + m]) == kc@[m],
            decreases kc@.len() - i,
        {
            if lower_of(self.chars[j.at + i]) != kc[i] {
                proof {
                    reveal(kw);
                    let sub = lowered(self.t().subrange(j.at as int, j.at + kc@.len()));
                    assert(sub[i as int] == lower(self.t()[j.at + i]));
                }
                return None;
            }
            i = i + 1;
        }
        let e_at = j.at + kc.len();
        proof {
            let sub = lowered(self.t().subrange(j.at as int, e_at as int));
            assert(sub =~= k@) by {
                assert forall|m: int| 0 <= m < sub.len() implies sub[m] == k@[m] by {
                    assert(self.t().subrange(j.at as int, e_at as int)[m] == self.t()[j.at + m]);
                }
            }
        }
        if e_at < n && is_word_char(self.chars[e_at]) {
            return None;
        }
        Some(self.advance(j, kc.len()))
    }

    /// The keyword `k`, or the error naming it.
    pub fn expect_keyword(&self, c: Cursor, k: &str) -> (r: Result<Cursor, ParseError>)
        requires
            self.wf(),
            self.ok(c),
        ensures
            match r {
                Ok(e) => self.ok(e) && expect_kw(self.t(), c.at as int, k@) == Ok::<int, ErrV>(e.at as int)
                    && e.at >= c.at + k@.len(),
                Err(er) => expect_kw(self.t(), c.at as int, k@) == Err::<int, ErrV>(view_err(er)),
            },
    {
        match self.match_keyword(c, k) {
            Some(e) => Ok(e),
            None => {
                let mut m = String::from_str("expected `");
                let kc = chars_of(k);
                let mut i: usize = 0;
                let ghost base = m@;
                while i < kc.len()
                    invariant
                        i <= kc@.len(),
                        m@ == base + uppered(kc@.take(i as int)),
                    decreases kc@.len() - i,
                {
                    string_push(&mut m, upper_of(kc[i]));
                    assert(uppered(kc@.take(i + 1)) =~= uppered(kc@.take(i as int)).push(upper(kc@[i as int])));
                    i = i + 1;
                }
                assert(kc@.take(i as int) =~= k@);
                m.append("`");
                Err(self.err_at(c, m))
            },
        }
    }

    /// The character `ch` at `c`, or the error naming it.
    pub fn expect_char(&self, c: Cursor, ch: char) -> (r: Result<Cursor, ParseError>)
        requires
            self.wf(),
            self.ok(c),
        ensures
            match r {
                Ok(e) => self.ok(e) && expect_char(self.t(), c.at as int, ch) == Ok::<int, ErrV>(e.at as int),
                Err(er) => expect_char(self.t(), c.at as int, ch) == Err::<int, ErrV>(view_err(er)),
            },
    {
        if self.at_char(c, ch) {
            Ok(self.step(c))
        } else {
            let mut m = String::from_str("expected `");
            string_push(&mut m, ch);
            m.append("`");
            assert(("expected `"@).push(ch) =~= "expected `"@ + seq![ch]);
            Err(self.err_at(c, m))
        }
    }

    /// The comparison operator at `c`, two-character ones first.
    pub fn try_comparison(&self, c: Cursor) -> (r: Option<(CmpOp, Cursor)>)
        requires
            self.wf(),
            self.ok(c),
        ensures
            match r {
                Some((op, e)) => self.ok(e) && comparison_at(self.t(), c.at as int) == Some((op, e.at as int)),
                None => comparison_at(self.t(), c.at as int) is None,
            },
    {
        let n = self.chars.len();
        let a = if c.at < n { self.chars[c.at] } else { ' ' };
        let two = c.at < n && n - c.at > 1;
        let b = if two { self.chars[c.at + 1] } else { ' ' };
        if two && ((a == '>' && b == '=') || (a == '<' && b == '=') || (a == '<' && b == '>') || (a == '!' && b == '=')) {
            let op = if a == '>' {
                CmpOp::Ge
            } else if b == '=' && a == '<' {
                CmpOp::Le
            } else {
                CmpOp::Ne
            };
            return Some((op, self.advance(c, 2)));
        }
        if c.at < n && (a == '=' || a == '>' || a == '<') {
            let op = if a == '=' {
                CmpOp::Eq
            } else if a == '>' {
                CmpOp::Gt
            } else {
                CmpOp::Lt
            };
            return Some((op, self.step(c)));
        }
        None
    }
}

/// `c.is_ascii_alphanumeric() || c == '_'`.
fn is_word_char(c: char) -> (r: bool)
    ensures
        r == is_word(c),
{
    ('a' <= c && c <= 'z') || ('A' <= c && c <= 'Z') || ('0' <= c && c <= '9') || c == '_'
}

/// `c.is_ascii_alphabetic() || c == '_'`.
fn is_name_start_char(c: char) -> (r: bool)
    ensures
        r == is_name_start(c),
{
    ('a' <= c && c <= 'z') || ('A' <= c && c <= 'Z') || c == '_'
}

/// `c.to_ascii_lowercase()`.
fn lower_of(c: char) -> (r: char)
    ensures
        r == lower(c),
{
    if 'A' <= c && c <= 'Z' {
        ((c as u8) + 32) as char
    } else {
        c
    }
}

/// `c.to_ascii_uppercase()`.
fn upper_of(c: char) -> (r: char)
    ensures
        r == upper(c),
{
    if 'a' <= c && c <= 'z' {
        ((c as u8) - 32) as char
    } else {
        c
    }
}

/// Whether a lower-cased word is reserved.
fn is_reserved(l: &str) -> (r: bool)
    ensures
        r == reserved(l@),
{
    str_eq(l, "and") || str_eq(l, "or") || str_eq(l, "not") || str_eq(l, "is") || str_eq(l, "null")
        || str_eq(l, "between") || str_eq(l, "in") || str_eq(l, "like") || str_eq(l, "similar")
        || str_eq(l, "to") || str_eq(l, "when") || str_eq(l, "then") || str_eq(l, "else")
        || str_eq(l, "end") || str_eq(l, "true") || str_eq(l, "false")
}

/// `w` in lower case.
fn lowercase(w: &String) -> (r: String)
    ensures
        r@ == lowered(w@),
{
    let cs = chars_of(w.as_str());
    let mut out = String::new();
    let mut i: usize = 0;
    while i < cs.len()
        invariant
            cs@ == w@,
            i <= cs@.len(),
            out@ == lowered(cs@.take(i as int)),
        decreases cs@.len() - i,
    {
        string_push(&mut out, lower_of(cs[i]));
        assert(lowered(cs@.take(i + 1)) =~= lowered(cs@.take(i as int)).push(lower(cs@[i as int])));
        i = i + 1;
    }
    assert(cs@.take(i as int) =~= w@);
    out
}

/// "unexpected keyword `WORD`".
fn keyword_message(w: &String) -> (r: String)
    ensures
        r@ == msg_keyword(w@),
{
    let cs = chars_of(w.as_str());
    let mut out = String::from_str("unexpected keyword `");
    let ghost base = out@;
    let mut i: usize = 0;
    while i < cs.len()
        invariant
            cs@ == w@,
            i <= cs@.len(),
            out@ == base + uppered(cs@.take(i as int)),
        decreases cs@.len() - i,
    {
        string_push(&mut out, upper_of(cs[i]));
        assert(uppered(cs@.take(i + 1)) =~= uppered(cs@.take(i as int)).push(upper(cs@[i as int])));
        i = i + 1;
    }
    assert(cs@.take(i as int) =~= w@);
    out.append("`");
    out
}

impl Parser {
    /// A string literal whose opening quote is at `c`.
    pub fn parse_string(&self, c: Cursor) -> (r: Result<(Expr, Cursor), ParseError>)
        requires
            self.wf(),
            self.ok(c),
            at_char(self.t(), c.at as int, '\''),
        ensures
            pr_expr(r) == p_string(self.t(), c.at as int),
            r matches Ok((_, e)) ==> self.ok(e) && e.at > c.at,
    {
        let mut p = self.step(c);
        let mut value = String::new();
        loop
            invariant
                self.wf(),
                self.ok(p),
                self.ok(c),
                p.at > c.at,
                string_body(self.t(), c.at + 1, seq![]) == string_body(self.t(), p.at as int, value@),
            decreases self.t().len() - p.at,
        {
            if self.is_eof(p) {
                return Err(self.err_at(p, String::from_str("unterminated string literal")));
            }
            let ch = self.chars[p.at];
            if ch == '\'' {
                let q = self.step(p);
                if self.at_char(q, '\'') {
                    string_push(&mut value, '\'');
                    p = self.step(q);
                } else {
                    return Ok((Expr { kind: ExprKind::Str(value), start: c.byte, end: q.byte }, q));
                }
            } else {
                string_push(&mut value, ch);
                p = self.step(p);
            }
        }
    }

    /// A backtick-quoted name whose opening backtick is at `c`.
    pub fn parse_quoted_name(&self, c: Cursor) -> (r: Result<(String, Cursor), ParseError>)
        requires
            self.wf(),
            self.ok(c),
            at_char(self.t(), c.at as int, '`'),
        ensures
            pr_str(r) == p_quoted(self.t(), c.at as int),
            r matches Ok((_, e)) ==> self.ok(e) && e.at > c.at,
    {
        let mut p = self.step(c);
        let mut name = String::new();
        loop
            invariant
                self.wf(),
                self.ok(p),
                self.ok(c),
                p.at > c.at,
                quoted_body(self.t(), c.at as int, c.at + 1, seq![]) == quoted_body(
                    self.t(),
                    c.at as int,
                    p.at as int,
                    name@,
                ),
            decreases self.t().len() - p.at,
        {
            if self.is_eof(p) {
                return Err(self.err_at(c, String::from_str("unterminated quoted name")));
            }
            let ch = self.chars[p.at];
            if ch == '`' {
                let q = self.step(p);
                if self.at_char(q, '`') {
                    string_push(&mut name, '`');
                    p = self.step(q);
                } else if name.as_str().unicode_len() == 0 {
                    return Err(self.err_at(c, String::from_str("empty quoted name")));
                } else {
                    return Ok((name, q));
                }
            } else {
                string_push(&mut name, ch);
                p = self.step(p);
            }
        }
    }

    /// The field names after a column name that ends at `c`.
    pub fn parse_field_segments(&self, c: Cursor, first: String) -> (r: Result<(Vec<String>, Cursor), ParseError>)
        requires
            self.wf(),
            self.ok(c),
        ensures
            pr_path(r) == p_fields(self.t(), c.at as int, seq![first@]),
            r matches Ok((_, e)) ==> self.ok(e) && e.at >= c.at,
    {
        let mut path: Vec<String> = Vec::new();
        path.push(first);
        let mut p = c;
        proof {
            assert(view_path(path@) =~= seq![first@]);
        }
        while self.at_char(p, '.')
            invariant
                self.wf(),
                self.ok(p),
                p.at >= c.at,
                p_fields(self.t(), c.at as int, seq![first@]) == p_fields(self.t(), p.at as int, view_path(path@)),
            decreases self.t().len() - p.at,
        {
            let a = self.step(p);
            if self.at_char(a, '`') {
                match self.parse_quoted_name(a) {
                    Ok((name, r)) => {
                        proof {
                            assert(view_path(path@.push(name)) =~= view_path(path@).push(name@));
                        }
                        path.push(name);
                        p = r;
                    },
                    Err(e) => {
                        return Err(e);
                    },
                }
            } else if !self.is_eof(a) && is_name_start_char(self.chars[a.at]) {
                let (word, r) = self.read_word(a);
                let l = lowercase(&word);
                if is_reserved(l.as_str()) {
                    let m = keyword_message(&word);
                    return Err(self.err_at(a, m));
                }
                proof {
                    assert(view_path(path@.push(word)) =~= view_path(path@).push(word@));
                }
                path.push(word);
                p = r;
            } else {
                return Err(self.err_at(a, String::from_str("expected a field name after `.`")));
            }
        }
        Ok((path, p))
    }
}

proof fn lemma_digits_end_ge(t: Seq<char>, i: int)
    ensures
        digits_end(t, i) >= i,
    decreases t.len() - i,
{
    if 0 <= i < t.len() && is_digit(t[i]) {
        lemma_digits_end_ge(t, i + 1);
    }
}

proof fn lemma_digits_value_push(d: Seq<char>, x: char)
    ensures
        digits_value(d.push(x)) == digits_value(d) * 10 + (x as int - '0' as int),
{
    assert(d.push(x).drop_last() =~= d);
}

proof fn lemma_digits_value_nonneg(d: Seq<char>)
    requires
        forall|k: int| 0 <= k < d.len() ==> is_digit(#[trigger] d[k]),
    ensures
        digits_value(d) >= 0,
    decreases d.len(),
{
    if d.len() > 0 {
        lemma_digits_value_nonneg(d.drop_last());
    }
}

/// Whether the digits `a[ai..]` are at or above `b[bi..]`, for digits of the
/// same length.
fn digits_at_least_from(a: &Vec<char>, ai: usize, b: &Vec<char>) -> (r: bool)
    requires
        ai <= a@.len(),
        a@.len() - ai == b@.len(),
    ensures
        r == digits_at_least(a@.skip(ai as int), b@),
{
    let mut i: usize = 0;
    let n = b.len();
    let na = a.len();
    assert(a@.skip(ai as int).skip(0) =~= a@.skip(ai as int));
    assert(b@.skip(0) =~= b@);
    while i < n
        invariant
            n == b@.len(),
            na == a@.len(),
            ai + n == a@.len(),
            i <= n,
            digits_at_least(a@.skip(ai as int), b@) == digits_at_least(a@.skip(ai + i), b@.skip(i as int)),
        decreases n - i,
    {
        let x = a[ai + i];
        let y = b[i];
        assert(a@.skip(ai + i)[0] == x);
        assert(b@.skip(i as int)[0] == y);
        if x != y {
            return x > y;
        }
        assert(a@.skip(ai + i).drop_first() =~= a@.skip(ai + i + 1));
        assert(b@.skip(i as int).drop_first() =~= b@.skip(i + 1));
        i = i + 1;
    }
    true
}

proof fn lemma_significant_skip(d: Seq<char>, z: int)
    requires
        0 <= z <= d.len(),
        forall|k: int| 0 <= k < z ==> #[trigger] d[k] == '0',
        z == d.len() || d[z] != '0',
    ensures
        significant(d) == d.skip(z),
    decreases z,
{
    if z > 0 {
        assert(d.drop_first().skip(z - 1) =~= d.skip(z));
        lemma_significant_skip(d.drop_first(), z - 1);
    } else {
        assert(d.skip(0) =~= d);
    }
}

impl Parser {
    /// Past the digits from `c`.
    pub fn digits_end(&self, c: Cursor) -> (r: Cursor)
        requires
            self.wf(),
            self.ok(c),
        ensures
            self.ok(r),
            r.at == digits_end(self.t(), c.at as int),
            r.at >= c.at,
            forall|k: int| c.at <= k < r.at ==> is_digit(#[trigger] self.t()[k]),
    {
        let mut p = c;
        while p.at < self.chars.len() && '0' <= self.chars[p.at] && self.chars[p.at] <= '9'
            invariant
                self.wf(),
                self.ok(p),
                p.at >= c.at,
                digits_end(self.t(), c.at as int) == digits_end(self.t(), p.at as int),
                forall|k: int| c.at <= k < p.at ==> is_digit(#[trigger] self.t()[k]),
            decreases self.t().len() - p.at,
        {
            p = self.step(p);
        }
        p
    }

    /// The digits `lo..hi` as an `i64`, when they fit in one.
    fn int_value(&self, lo: usize, hi: usize) -> (r: Option<i64>)
        requires
            lo <= hi <= self.t().len(),
            forall|k: int| lo <= k < hi ==> is_digit(#[trigger] self.t()[k]),
        ensures
            match r {
                Some(v) => digits_value(self.t().subrange(lo as int, hi as int)) == v,
                None => digits_value(self.t().subrange(lo as int, hi as int)) > i64::MAX,
            },
    {
        let mut v: u64 = 0;
        let mut over = false;
        let mut i = lo;
        assert(self.t().subrange(lo as int, lo as int) =~= Seq::<char>::empty());
        while i < hi
            invariant
                lo <= i <= hi <= self.t().len(),
                forall|k: int| lo <= k < hi ==> is_digit(#[trigger] self.t()[k]),
                !over ==> v == digits_value(self.t().subrange(lo as int, i as int)) && v <= i64::MAX,
                over ==> digits_value(self.t().subrange(lo as int, i as int)) > i64::MAX,
            decreases hi - i,
        {
            let ghost d = self.t().subrange(lo as int, i as int);
            let x = self.chars[i];
            proof {
                assert(self.t().subrange(lo as int, i + 1) =~= d.push(x));
                lemma_digits_value_push(d, x);
                assert forall|k: int| 0 <= k < d.len() implies is_digit(#[trigger] d[k]) by {
                    assert(d[k] == self.t()[lo + k]);
                }
                lemma_digits_value_nonneg(d);
            }
            let dv = (x as u32 - '0' as u32) as u64;
            if !over {
                if v > (9223372036854775807u64 - dv) / 10 {
                    over = true;
                } else {
                    v = v * 10 + dv;
                }
            }
            i = i + 1;
        }
        if over {
            None
        } else {
            Some(v as i64)
        }
    }

    /// Whether the whole-number digits `lo..hi` are too large for a finite
    /// `f64`.
    fn overflows_f64(&self, lo: usize, hi: usize) -> (r: bool)
        requires
            lo <= hi <= self.t().len(),
        ensures
            r == overflows_f64(self.t().subrange(lo as int, hi as int)),
    {
        let ghost d = self.t().subrange(lo as int, hi as int);
        let mut z = lo;
        while z < hi && self.chars[z] == '0'
            invariant
                lo <= z <= hi <= self.t().len(),
                forall|k: int| lo <= k < z ==> #[trigger] self.t()[k] == '0',
            decreases hi - z,
        {
            z = z + 1;
        }
        proof {
            assert forall|k: int| 0 <= k < z - lo implies #[trigger] d[k] == '0' by {
                assert(d[k] == self.t()[lo + k]);
            }
            if z < hi {
                assert(d[z - lo] == self.t()[z as int]);
            }
            lemma_significant_skip(d, z - lo);
        }
        let limit = chars_of("179769313486231580793728971405303415079934132710037826936173778980444968292764750946649017977587207096330286416692887910946555547851940402630657488671505820681908902000708383676273854845817711531764475730270069855571366959622842914819860834936475292719074168444365510704342711559699508093042880177904174497792");
        let n = hi - z;
        assert(d.skip(z - lo) =~= self.t().subrange(z as int, hi as int));
        if n > limit.len() {
            true
        } else if n < limit.len() {
            false
        } else {
            let whole = self.chars_between(z, hi);
            assert(whole@.skip(0) =~= whole@);
            digits_at_least_from(&whole, 0, &limit)
        }
    }

    /// The characters `lo..hi`.
    fn chars_between(&self, lo: usize, hi: usize) -> (r: Vec<char>)
        requires
            lo <= hi <= self.t().len(),
        ensures
            r@ == self.t().subrange(lo as int, hi as int),
    {
        let mut out: Vec<char> = Vec::new();
        let mut i = lo;
        while i < hi
            invariant
                lo <= i <= hi <= self.t().len(),
                out@ == self.t().subrange(lo as int, i as int),
            decreases hi - i,
        {
            out.push(self.chars[i]);
            assert(self.t().subrange(lo as int, i + 1) =~= self.t().subrange(lo as int, i as int).push(self.t()[i as int]));
            i = i + 1;
        }
        out
    }

    /// A numeric literal starting at `c`, which holds a digit.
    #[verifier::rlimit(30)]
    pub fn parse_number(&self, c: Cursor) -> (r: Result<(Expr, Cursor), ParseError>)
        requires
            self.wf(),
            self.ok(c),
            c.at < self.t().len(),
            is_digit(self.t()[c.at as int]),
        ensures
            pr_expr(r) == p_number(self.t(), c.at as int),
            r matches Ok((_, e)) ==> self.ok(e) && e.at > c.at,
    {
        let d = self.digits_end(c);
        proof {
            lemma_digits_end_ge(self.t(), c.at + 1);
        }
        let mut e = d;
        let mut is_int = true;
        if self.at_char(d, '.') {
            let after = self.step(d);
            if !self.is_eof(after) && '0' <= self.chars[after.at] && self.chars[after.at] <= '9' {
                is_int = false;
                e = self.digits_end(after);
            }
        }
        assert(number_end(self.t(), c.at as int) == (e.at as int, is_int));
        let text = string_of(self.chars.as_slice(), c.at, e.at);
        if is_int {
            match self.int_value(c.at, e.at) {
                Some(v) => Ok((Expr { kind: ExprKind::Number(NumLit::Int(v)), start: c.byte, end: e.byte }, e)),
                None => {
                    let mut m = String::from_str("`");
                    m.append(text.as_str());
                    m.append("` is too large for a 64-bit integer");
                    Err(self.err_at(c, m))
                },
            }
        } else if self.overflows_f64(c.at, d.at) {
            let mut m = String::from_str("`");
            m.append(text.as_str());
            m.append("` is too large for a number");
            Err(self.err_at(c, m))
        } else {
            Ok((Expr { kind: ExprKind::Number(NumLit::Float(text)), start: c.byte, end: e.byte }, e))
        }
    }
}

proof fn lemma_ws_ge(t: Seq<char>, i: int)
    ensures
        ws(t, i) >= i,
    decreases t.len() - i,
{
    if 0 <= i < t.len() && is_space(t[i]) {
        lemma_ws_ge(t, i + 1);
    }
}

proof fn lemma_word_end_ge(t: Seq<char>, i: int)
    ensures
        word_end(t, i) >= i,
    decreases t.len() - i,
{
    if 0 <= i < t.len() && is_word(t[i]) {
        lemma_word_end_ge(t, i + 1);
    }
}

impl Parser {
    /// `expr` from `c`.
    pub fn parse_expr(&self, c: Cursor) -> (r: Result<(Expr, Cursor), ParseError>)
        requires
            self.wf(),
            self.ok(c),
        ensures
            pr_expr(r) == p_expr(self.t(), c.at as int),
            r matches Ok((_, e)) ==> self.ok(e) && e.at >= c.at,
        decreases self.t().len() - c.at, 30int,
    {
        self.parse_or(c)
    }

    /// `and_expr ("OR" and_expr)*` from `c`.
    pub fn parse_or(&self, c: Cursor) -> (r: Result<(Expr, Cursor), ParseError>)
        requires
            self.wf(),
            self.ok(c),
        ensures
            pr_expr(r) == p_or(self.t(), c.at as int),
            r matches Ok((_, e)) ==> self.ok(e) && e.at >= c.at,
        decreases self.t().len() - c.at, 29int,
    {
        let (mut lhs, mut p) = match self.parse_and(c) {
            Ok(x) => x,
            Err(e) => {
                return Err(e);
            },
        };
        loop
            invariant
                self.wf(),
                self.ok(c),
                self.ok(p),
                p.at >= c.at,
                p_or(self.t(), c.at as int) == or_rest(self.t(), view_expr(lhs), p.at as int),
            decreases self.t().len() - p.at,
        {
            proof {
                reveal_strlit("or");
            }
            match self.match_keyword(p, "or") {
                None => {
                    return Ok((lhs, p));
                },
                Some(k) => {
                    let (rhs, q) = match self.parse_and(k) {
                        Ok(x) => x,
                        Err(e) => {
                            return Err(e);
                        },
                    };
                    let start = lhs.start;
                    let end = rhs.end;
                    lhs = Expr { kind: ExprKind::Or(Box::new(lhs), Box::new(rhs)), start, end };
                    p = q;
                },
            }
        }
    }

    /// `not_expr ("AND" not_expr)*` from `c`.
    pub fn parse_and(&self, c: Cursor) -> (r: Result<(Expr, Cursor), ParseError>)
        requires
            self.wf(),
            self.ok(c),
        ensures
            pr_expr(r) == p_and(self.t(), c.at as int),
            r matches Ok((_, e)) ==> self.ok(e) && e.at >= c.at,
        decreases self.t().len() - c.at, 27int,
    {
        let (mut lhs, mut p) = match self.parse_not(c) {
            Ok(x) => x,
            Err(e) => {
                return Err(e);
            },
        };
        loop
            invariant
                self.wf(),
                self.ok(c),
                self.ok(p),
                p.at >= c.at,
                p_and(self.t(), c.at as int) == and_rest(self.t(), view_expr(lhs), p.at as int),
            decreases self.t().len() - p.at,
        {
            proof {
                reveal_strlit("and");
            }
            match self.match_keyword(p, "and") {
                None => {
                    return Ok((lhs, p));
                },
                Some(k) => {
                    let (rhs, q) = match self.parse_not(k) {
                        Ok(x) => x,
                        Err(e) => {
                            return Err(e);
                        },
                    };
                    let start = lhs.start;
                    let end = rhs.end;
                    lhs = Expr { kind: ExprKind::And(Box::new(lhs), Box::new(rhs)), start, end };
                    p = q;
                },
            }
        }
    }

    /// `"NOT" not_expr | predicate` from `c`.
    pub fn parse_not(&self, c: Cursor) -> (r: Result<(Expr, Cursor), ParseError>)
        requires
            self.wf(),
            self.ok(c),
        ensures
            pr_expr(r) == p_not(self.t(), c.at as int),
            r matches Ok((_, e)) ==> self.ok(e) && e.at >= c.at,
        decreases self.t().len() - c.at, 25int,
    {
        let j = self.skip_ws(c);
        proof {
            reveal_strlit("not");
        }
        match self.match_keyword(j, "not") {
            Some(k) => {
                let (operand, q) = match self.parse_not(k) {
                    Ok(x) => x,
                    Err(e) => {
                        return Err(e);
                    },
                };
                let end = operand.end;
                Ok((Expr { kind: ExprKind::Not(Box::new(operand)), start: j.byte, end }, q))
            },
            None => self.parse_predicate(j),
        }
    }

    /// `additive` and what may follow it as a predicate, from `c`.
    #[verifier::rlimit(30)]
    pub fn parse_predicate(&self, c: Cursor) -> (r: Result<(Expr, Cursor), ParseError>)
        requires
            self.wf(),
            self.ok(c),
        ensures
            pr_expr(r) == p_predicate(self.t(), c.at as int),
            r matches Ok((_, e)) ==> self.ok(e) && e.at >= c.at,
        decreases self.t().len() - c.at, 24int,
    {
        let (operand, p0) = match self.parse_additive(c) {
            Ok(x) => x,
            Err(e) => {
                return Err(e);
            },
        };
        let j = self.skip_ws(p0);
        match self.try_comparison(j) {
            Some((op, k)) => {
                let (rhs, q) = match self.parse_additive(k) {
                    Ok(x) => x,
                    Err(e) => {
                        return Err(e);
                    },
                };
                let start = operand.start;
                let end = rhs.end;
                Ok(
                    (
                        Expr {
                            kind: ExprKind::Compare { op, lhs: Box::new(operand), rhs: Box::new(rhs) },
                            start,
                            end,
                        },
                        q,
                    ),
                )
            },
            None => self.predicate_tail(operand, j),
        }
    }

    /// The keyword-led predicate forms after `operand`, from `j`.
    #[verifier::rlimit(30)]
    pub fn predicate_tail(&self, operand: Expr, j: Cursor) -> (r: Result<(Expr, Cursor), ParseError>)
        requires
            self.wf(),
            self.ok(j),
        ensures
            pr_expr(r) == predicate_tail(self.t(), view_expr(operand), j.at as int),
            r matches Ok((_, e)) ==> self.ok(e) && e.at >= j.at,
        decreases self.t().len() - j.at, 23int,
    {
        proof {
            reveal_strlit("is");
            reveal_strlit("not");
            reveal_strlit("between");
            reveal_strlit("in");
            reveal_strlit("like");
            reveal_strlit("similar");
        }
        match self.match_keyword(j, "is") {
            Some(k1) => {
                let (negated, k2) = match self.match_keyword(k1, "not") {
                    Some(k) => (true, k),
                    None => (false, k1),
                };
                let k3 = match self.expect_keyword(k2, "null") {
                    Ok(x) => x,
                    Err(e) => {
                        return Err(e);
                    },
                };
                let start = operand.start;
                Ok((Expr { kind: ExprKind::IsNull { operand: Box::new(operand), negated }, start, end: k3.byte }, k3))
            },
            None => {
                let (negated, p) = match self.match_keyword(j, "not") {
                    Some(k) => (true, k),
                    None => (false, j),
                };
                if let Some(k) = self.match_keyword(p, "between") {
                    return self.between_tail(operand, negated, k);
                }
                if let Some(k) = self.match_keyword(p, "in") {
                    return self.in_tail(operand, negated, k);
                }
                if let Some(k) = self.match_keyword(p, "like") {
                    let (pattern, q) = match self.parse_additive(k) {
                        Ok(x) => x,
                        Err(e) => {
                            return Err(e);
                        },
                    };
                    let start = operand.start;
                    let end = pattern.end;
                    return Ok(
                        (
                            Expr {
                                kind: ExprKind::Like { operand: Box::new(operand), pattern: Box::new(pattern), negated },
                                start,
                                end,
                            },
                            q,
                        ),
                    );
                }
                if let Some(k) = self.match_keyword(p, "similar") {
                    let k2 = match self.expect_keyword(k, "to") {
                        Ok(x) => x,
                        Err(e) => {
                            return Err(e);
                        },
                    };
                    let (pattern, q) = match self.parse_additive(k2) {
                        Ok(x) => x,
                        Err(e) => {
                            return Err(e);
                        },
                    };
                    let start = operand.start;
                    let end = pattern.end;
                    return Ok(
                        (
                            Expr {
                                kind: ExprKind::SimilarTo {
                                    operand: Box::new(operand),
                                    pattern: Box::new(pattern),
                                    negated,
                                },
                                start,
                                end,
                            },
                            q,
                        ),
                    );
                }
                if negated {
                    return Err(
                        self.err_at(
                            p,
                            String::from_str(
                                "expected `BETWEEN`, `IN`, `LIKE`, or `SIMILAR TO` after `NOT`",
                            ),
                        ),
                    );
                }
                Ok((operand, p))
            },
        }
    }

    /// `lo AND hi` after `BETWEEN`, from `k`.
    #[verifier::rlimit(30)]
    pub fn between_tail(&self, operand: Expr, negated: bool, k: Cursor) -> (r: Result<(Expr, Cursor), ParseError>)
        requires
            self.wf(),
            self.ok(k),
        ensures
            pr_expr(r) == between_tail(self.t(), view_expr(operand), negated, k.at as int),
            r matches Ok((_, e)) ==> self.ok(e) && e.at >= k.at,
        decreases self.t().len() - k.at, 22int,
    {
        let (lo, a) = match self.parse_additive(k) {
            Ok(x) => x,
            Err(e) => {
                return Err(e);
            },
        };
        proof {
            reveal_strlit("and");
        }
        let b = match self.expect_keyword(a, "and") {
            Ok(x) => x,
            Err(e) => {
                return Err(e);
            },
        };
        let (hi, q) = match self.parse_additive(b) {
            Ok(x) => x,
            Err(e) => {
                return Err(e);
            },
        };
        let start = operand.start;
        let end = hi.end;
        Ok(
            (
                Expr {
                    kind: ExprKind::Between { operand: Box::new(operand), lo: Box::new(lo), hi: Box::new(hi), negated },
                    start,
                    end,
                },
                q,
            ),
        )
    }

    /// `(expr, ...)` after `IN`, from `k`.
    #[verifier::rlimit(30)]
    pub fn in_tail(&self, operand: Expr, negated: bool, k: Cursor) -> (r: Result<(Expr, Cursor), ParseError>)
        requires
            self.wf(),
            self.ok(k),
        ensures
            pr_expr(r) == in_tail(self.t(), view_expr(operand), negated, k.at as int),
            r matches Ok((_, e)) ==> self.ok(e) && e.at >= k.at,
        decreases self.t().len() - k.at, 22int,
    {
        let a = self.skip_ws(k);
        let b = match self.expect_char(a, '(') {
            Ok(x) => x,
            Err(e) => {
                return Err(e);
            },
        };
        let (first, p) = match self.parse_expr(b) {
            Ok(x) => x,
            Err(e) => {
                return Err(e);
            },
        };
        let ghost fv = view_expr(first);
        let mut acc: Vec<Expr> = Vec::new();
        acc.push(first);
        proof {
            assert(acc@.drop_last() =~= Seq::<Expr>::empty());
            assert(view_list(Seq::<Expr>::empty()) =~= Seq::<ExprV>::empty());
            assert(view_list(acc@) =~= seq![fv]);
        }
        let (list, q) = match self.list_rest(acc, p) {
            Ok(x) => x,
            Err(e) => {
                return Err(e);
            },
        };
        let start = operand.start;
        Ok((Expr { kind: ExprKind::In { operand: Box::new(operand), list, negated }, start, end: q.byte }, q))
    }

    /// `("," expr)* ")"` after the items in `acc`, from `c`.
    #[verifier::rlimit(30)]
    pub fn list_rest(&self, init: Vec<Expr>, c: Cursor) -> (r: Result<(Vec<Expr>, Cursor), ParseError>)
        requires
            self.wf(),
            self.ok(c),
        ensures
            pr_list(r) == list_rest(self.t(), view_list(init@), c.at as int),
            r matches Ok((_, e)) ==> self.ok(e) && e.at >= c.at,
        decreases self.t().len() - c.at, 21int,
    {
        let ghost acc0 = init@;
        let mut acc = init;
        let mut p = c;
        loop
            invariant
                self.wf(),
                self.ok(c),
                self.ok(p),
                p.at >= c.at,
                acc0 == init@,
                list_rest(self.t(), view_list(acc0), c.at as int) == list_rest(self.t(), view_list(acc@), p.at as int),
            decreases self.t().len() - p.at,
        {
            let q = self.skip_ws(p);
            if self.at_char(q, ',') {
                let s = self.step(q);
                let (e, r) = match self.parse_expr(s) {
                    Ok(x) => x,
                    Err(er) => {
                        return Err(er);
                    },
                };
                let ghost before = acc@;
                acc.push(e);
                proof {
                    assert(acc@.drop_last() =~= before);
                }
                p = r;
            } else {
                let r = match self.expect_char(q, ')') {
                    Ok(x) => x,
                    Err(er) => {
                        return Err(er);
                    },
                };
                return Ok((acc, r));
            }
        }
    }

    /// `multiplicative (("+" | "-") multiplicative)*` from `c`.
    pub fn parse_additive(&self, c: Cursor) -> (r: Result<(Expr, Cursor), ParseError>)
        requires
            self.wf(),
            self.ok(c),
        ensures
            pr_expr(r) == p_additive(self.t(), c.at as int),
            r matches Ok((_, e)) ==> self.ok(e) && e.at >= c.at,
        decreases self.t().len() - c.at, 20int,
    {
        let (mut lhs, mut p) = match self.parse_multiplicative(c) {
            Ok(x) => x,
            Err(e) => {
                return Err(e);
            },
        };
        loop
            invariant
                self.wf(),
                self.ok(c),
                self.ok(p),
                p.at >= c.at,
                p_additive(self.t(), c.at as int) == add_rest(self.t(), view_expr(lhs), p.at as int),
            decreases self.t().len() - p.at,
        {
            let q = self.skip_ws(p);
            let op = if self.at_char(q, '+') {
                ArithOp::Add
            } else if self.at_char(q, '-') {
                ArithOp::Sub
            } else {
                return Ok((lhs, q));
            };
            let s = self.step(q);
            let (rhs, r) = match self.parse_multiplicative(s) {
                Ok(x) => x,
                Err(e) => {
                    return Err(e);
                },
            };
            let start = lhs.start;
            let end = rhs.end;
            lhs = Expr { kind: ExprKind::Arith { op, lhs: Box::new(lhs), rhs: Box::new(rhs) }, start, end };
            p = r;
        }
    }

    /// `unary (("*" | "/") unary)*` from `c`.
    pub fn parse_multiplicative(&self, c: Cursor) -> (r: Result<(Expr, Cursor), ParseError>)
        requires
            self.wf(),
            self.ok(c),
        ensures
            pr_expr(r) == p_multiplicative(self.t(), c.at as int),
            r matches Ok((_, e)) ==> self.ok(e) && e.at >= c.at,
        decreases self.t().len() - c.at, 18int,
    {
        let (mut lhs, mut p) = match self.parse_unary(c) {
            Ok(x) => x,
            Err(e) => {
                return Err(e);
            },
        };
        loop
            invariant
                self.wf(),
                self.ok(c),
                self.ok(p),
                p.at >= c.at,
                p_multiplicative(self.t(), c.at as int) == mul_rest(self.t(), view_expr(lhs), p.at as int),
            decreases self.t().len() - p.at,
        {
            let q = self.skip_ws(p);
            let op = if self.at_char(q, '*') {
                ArithOp::Mul
            } else if self.at_char(q, '/') {
                ArithOp::Div
            } else {
                return Ok((lhs, q));
            };
            let s = self.step(q);
            let (rhs, r) = match self.parse_unary(s) {
                Ok(x) => x,
                Err(e) => {
                    return Err(e);
                },
            };
            let start = lhs.start;
            let end = rhs.end;
            lhs = Expr { kind: ExprKind::Arith { op, lhs: Box::new(lhs), rhs: Box::new(rhs) }, start, end };
            p = r;
        }
    }

    /// `"-" unary | primary` from `c`.
    pub fn parse_unary(&self, c: Cursor) -> (r: Result<(Expr, Cursor), ParseError>)
        requires
            self.wf(),
            self.ok(c),
        ensures
            pr_expr(r) == p_unary(self.t(), c.at as int),
            r matches Ok((_, e)) ==> self.ok(e) && e.at >= c.at,
        decreases self.t().len() - c.at, 16int,
    {
        let j = self.skip_ws(c);
        if self.at_char(j, '-') {
            let s = self.step(j);
            let (operand, q) = match self.parse_unary(s) {
                Ok(x) => x,
                Err(e) => {
                    return Err(e);
                },
            };
            let end = operand.end;
            Ok((Expr { kind: ExprKind::Neg(Box::new(operand)), start: j.byte, end }, q))
        } else {
            self.parse_primary(j)
        }
    }

    /// `primary` at `c`, which is past any whitespace.
    #[verifier::rlimit(30)]
    pub fn parse_primary(&self, c: Cursor) -> (r: Result<(Expr, Cursor), ParseError>)
        requires
            self.wf(),
            self.ok(c),
        ensures
            pr_expr(r) == p_primary(self.t(), c.at as int),
            r matches Ok((_, e)) ==> self.ok(e) && e.at >= c.at,
        decreases self.t().len() - c.at, 15int,
    {
        if self.is_eof(c) {
            return Err(self.err_at(c, String::from_str("expected an expression")));
        }
        let ch = self.chars[c.at];
        if ch == '(' {
            let s = self.step(c);
            let (inner, p) = match self.parse_expr(s) {
                Ok(x) => x,
                Err(e) => {
                    return Err(e);
                },
            };
            let q = self.skip_ws(p);
            let r = match self.expect_char(q, ')') {
                Ok(x) => x,
                Err(e) => {
                    return Err(e);
                },
            };
            Ok((Expr { kind: inner.kind, start: c.byte, end: r.byte }, r))
        } else if ch == '\'' {
            self.parse_string(c)
        } else if ch == '`' {
            let (name, p) = match self.parse_quoted_name(c) {
                Ok(x) => x,
                Err(e) => {
                    return Err(e);
                },
            };
            let (path, q) = match self.parse_field_segments(p, name) {
                Ok(x) => x,
                Err(e) => {
                    return Err(e);
                },
            };
            Ok((Expr { kind: ExprKind::Column(path), start: c.byte, end: q.byte }, q))
        } else if '0' <= ch && ch <= '9' {
            self.parse_number(c)
        } else if is_name_start_char(ch) {
            self.parse_word_expr(c)
        } else {
            Err(self.err_at(c, String::from_str("expected an expression")))
        }
    }

    /// A primary led by a name at `c`.
    #[verifier::rlimit(30)]
    pub fn parse_word_expr(&self, c: Cursor) -> (r: Result<(Expr, Cursor), ParseError>)
        requires
            self.wf(),
            self.ok(c),
            c.at < self.t().len(),
            is_name_start(self.t()[c.at as int]),
        ensures
            pr_expr(r) == p_word(self.t(), c.at as int),
            r matches Ok((_, e)) ==> self.ok(e) && e.at >= c.at,
        decreases self.t().len() - c.at, 14int,
    {
        let (word, e) = self.read_word(c);
        proof {
            lemma_word_end_ge(self.t(), c.at + 1);
        }
        let l = lowercase(&word);
        let lw = l.as_str();
        if str_eq(lw, "true") {
            return Ok((Expr { kind: ExprKind::Bool(true), start: c.byte, end: e.byte }, e));
        }
        if str_eq(lw, "false") {
            return Ok((Expr { kind: ExprKind::Bool(false), start: c.byte, end: e.byte }, e));
        }
        if str_eq(lw, "null") {
            return Ok((Expr { kind: ExprKind::Null, start: c.byte, end: e.byte }, e));
        }
        if str_eq(lw, "case") {
            return self.parse_case(c, e);
        }
        if str_eq(lw, "columns") {
            return self.parse_columns(c, e);
        }
        if str_eq(lw, "now") {
            let a = self.skip_ws(e);
            let b = match self.expect_char(a, '(') {
                Ok(x) => x,
                Err(er) => {
                    return Err(er);
                },
            };
            let b2 = self.skip_ws(b);
            let z = match self.expect_char(b2, ')') {
                Ok(x) => x,
                Err(er) => {
                    return Err(er);
                },
            };
            return Ok((Expr { kind: ExprKind::Now, start: c.byte, end: z.byte }, z));
        }
        if str_eq(lw, "interval") {
            return self.parse_interval(c, e);
        }
        if is_reserved(lw) {
            let m = keyword_message(&word);
            return Err(self.err_at(c, m));
        }
        let a = self.skip_ws(e);
        if self.at_char(a, '(') {
            let s = self.step(a);
            let (args, p) = match self.parse_arg_list(s) {
                Ok(x) => x,
                Err(er) => {
                    return Err(er);
                },
            };
            Ok((Expr { kind: ExprKind::Call { name: word, args }, start: c.byte, end: p.byte }, p))
        } else {
            let (path, p) = match self.parse_field_segments(e, word) {
                Ok(x) => x,
                Err(er) => {
                    return Err(er);
                },
            };
            Ok((Expr { kind: ExprKind::Column(path), start: c.byte, end: p.byte }, p))
        }
    }

    /// `CASE` clauses after the word, which spans `c..e`.
    #[verifier::rlimit(40)]
    #[verifier::spinoff_prover]
    pub fn parse_case(&self, c: Cursor, e: Cursor) -> (r: Result<(Expr, Cursor), ParseError>)
        requires
            self.wf(),
            self.ok(c),
            self.ok(e),
            e.at > c.at,
        ensures
            pr_expr(r) == p_case(self.t(), c.at as int, e.at as int),
            r matches Ok((_, z)) ==> self.ok(z) && z.at >= e.at,
        decreases self.t().len() - e.at, 14int,
    {
        proof {
            assert(view_whens(Seq::<(Expr, Expr)>::empty()) =~= Seq::<(ExprV, ExprV)>::empty());
        }
        let (whens, p) = match self.case_whens(Vec::new(), e) {
            Ok(x) => x,
            Err(er) => {
                return Err(er);
            },
        };
        proof {
            if whens@.len() > 0 {
                assert(view_whens(whens@).len() > 0);
            }
        }
        if whens.len() == 0 {
            return Err(self.err_at(p, String::from_str("`CASE` needs at least one `WHEN ... THEN ...`")));
        }
        proof {
            reveal_strlit("else");
        }
        match self.match_keyword(p, "else") {
            Some(k) => {
                let (els, q) = match self.parse_expr(k) {
                    Ok(x) => x,
                    Err(er) => {
                        return Err(er);
                    },
                };
                let r = match self.expect_keyword(q, "end") {
                    Ok(x) => x,
                    Err(er) => {
                        return Err(er);
                    },
                };
                return Ok((Expr { kind: ExprKind::Case { whens, els: Some(Box::new(els)) }, start: c.byte, end: r.byte }, r));
            },
            None => {
                let r = match self.expect_keyword(p, "end") {
                    Ok(x) => x,
                    Err(er) => {
                        return Err(er);
                    },
                };
                return Ok((Expr { kind: ExprKind::Case { whens, els: None }, start: c.byte, end: r.byte }, r));
            },
        }
    }

    /// `WHEN cond THEN result` clauses from `c`, after those in `acc`.
    #[verifier::rlimit(30)]
    pub fn case_whens(&self, init: Vec<(Expr, Expr)>, c: Cursor) -> (r: Result<(Vec<(Expr, Expr)>, Cursor), ParseError>)
        requires
            self.wf(),
            self.ok(c),
        ensures
            pr_whens(r) == case_whens(self.t(), view_whens(init@), c.at as int),
            r matches Ok((_, e)) ==> self.ok(e) && e.at >= c.at,
        decreases self.t().len() - c.at, 13int,
    {
        let ghost acc0 = init@;
        let mut acc = init;
        let mut p = c;
        loop
            invariant
                self.wf(),
                self.ok(c),
                self.ok(p),
                p.at >= c.at,
                acc0 == init@,
                case_whens(self.t(), view_whens(acc0), c.at as int) == case_whens(self.t(), view_whens(acc@), p.at as int),
            decreases self.t().len() - p.at,
        {
            proof {
                reveal_strlit("when");
                reveal_strlit("then");
            }
            match self.match_keyword(p, "when") {
                None => {
                    return Ok((acc, p));
                },
                Some(k) => {
                    let (cond, a) = match self.parse_expr(k) {
                        Ok(x) => x,
                        Err(er) => {
                            return Err(er);
                        },
                    };
                    let b = match self.expect_keyword(a, "then") {
                        Ok(x) => x,
                        Err(er) => {
                            return Err(er);
                        },
                    };
                    let (result, q) = match self.parse_expr(b) {
                        Ok(x) => x,
                        Err(er) => {
                            return Err(er);
                        },
                    };
                    let ghost before = acc@;
                    acc.push((cond, result));
                    proof {
                        assert(acc@.drop_last() =~= before);
                    }
                    p = q;
                },
            }
        }
    }

    /// A call's arguments, after its `(`, from `c`.
    #[verifier::rlimit(30)]
    pub fn parse_arg_list(&self, c: Cursor) -> (r: Result<(Vec<Expr>, Cursor), ParseError>)
        requires
            self.wf(),
            self.ok(c),
        ensures
            pr_list(r) == p_args(self.t(), c.at as int),
            r matches Ok((_, e)) ==> self.ok(e) && e.at >= c.at,
        decreases self.t().len() - c.at, 31int,
    {
        let a = self.skip_ws(c);
        if self.at_char(a, ')') {
            let z = self.step(a);
            proof {
                assert(view_list(Seq::<Expr>::empty()) =~= Seq::<ExprV>::empty());
            }
            return Ok((Vec::new(), z));
        }
        let (first, p) = match self.parse_expr(a) {
            Ok(x) => x,
            Err(er) => {
                return Err(er);
            },
        };
        let ghost fv = view_expr(first);
        let mut acc: Vec<Expr> = Vec::new();
        acc.push(first);
        proof {
            assert(acc@.drop_last() =~= Seq::<Expr>::empty());
            assert(view_list(Seq::<Expr>::empty()) =~= Seq::<ExprV>::empty());
            assert(view_list(acc@) =~= seq![fv]);
        }
        self.list_rest(acc, p)
    }

    /// `interval(n, unit)` after the word, which spans `c..e`.
    #[verifier::rlimit(30)]
    pub fn parse_interval(&self, c: Cursor, e: Cursor) -> (r: Result<(Expr, Cursor), ParseError>)
        requires
            self.wf(),
            self.ok(c),
            self.ok(e),
            e.at > c.at,
        ensures
            pr_expr(r) == p_interval(self.t(), c.at as int, e.at as int),
            r matches Ok((_, z)) ==> self.ok(z) && z.at >= e.at,
        decreases self.t().len() - e.at, 13int,
    {
        let a = self.skip_ws(e);
        let b = match self.expect_char(a, '(') {
            Ok(x) => x,
            Err(er) => {
                return Err(er);
            },
        };
        let (n, p) = match self.parse_expr(b) {
            Ok(x) => x,
            Err(er) => {
                return Err(er);
            },
        };
        let q = self.skip_ws(p);
        let cc = match self.expect_char(q, ',') {
            Ok(x) => x,
            Err(er) => {
                return Err(er);
            },
        };
        let u = self.skip_ws(cc);
        if self.is_eof(u) || !is_name_start_char(self.chars[u.at]) {
            return Err(self.err_at(u, String::from_str("expected an interval unit")));
        }
        let (unit, ue) = self.read_word(u);
        let r0 = self.skip_ws(ue);
        let z = match self.expect_char(r0, ')') {
            Ok(x) => x,
            Err(er) => {
                return Err(er);
            },
        };
        Ok(
            (
                Expr {
                    kind: ExprKind::Interval { n: Box::new(n), unit, unit_start: u.byte, unit_end: ue.byte },
                    start: c.byte,
                    end: z.byte,
                },
                z,
            ),
        )
    }

    /// A name in a `COLUMNS([...])` list at `c`.
    fn parse_list_name(&self, c: Cursor) -> (r: Result<(String, Cursor), ParseError>)
        requires
            self.wf(),
            self.ok(c),
        ensures
            pr_str(r) == p_list_name(self.t(), c.at as int),
            r matches Ok((_, e)) ==> self.ok(e) && e.at >= c.at,
    {
        if self.at_char(c, '`') {
            self.parse_quoted_name(c)
        } else if !self.is_eof(c) && is_name_start_char(self.chars[c.at]) {
            let (w, e) = self.read_word(c);
            Ok((w, e))
        } else {
            Err(self.err_at(c, String::from_str("expected a column name")))
        }
    }

    /// The names of a `COLUMNS([...])` list from `c`, through the `]`.
    fn names_rest(&self, c: Cursor) -> (r: Result<(Vec<Named>, Cursor), ParseError>)
        requires
            self.wf(),
            self.ok(c),
        ensures
            pr_names(r) == names_rest(self.t(), seq![], c.at as int),
            r matches Ok((_, e)) ==> self.ok(e) && e.at >= c.at,
    {
        let mut acc: Vec<Named> = Vec::new();
        let mut p = c;
        proof {
            assert(view_names(acc@) =~= Seq::<NamedV>::empty());
        }
        loop
            invariant
                self.wf(),
                self.ok(c),
                self.ok(p),
                p.at >= c.at,
                names_rest(self.t(), seq![], c.at as int) == names_rest(self.t(), view_names(acc@), p.at as int),
            decreases self.t().len() - p.at,
        {
            let q = self.skip_ws(p);
            let (name, r) = match self.parse_list_name(q) {
                Ok(x) => x,
                Err(er) => {
                    return Err(er);
                },
            };
            let named = Named { name, start: q.byte, end: r.byte };
            let ghost before = acc@;
            acc.push(named);
            proof {
                assert(view_names(acc@) =~= view_names(before).push(view_named(named)));
            }
            let s = self.skip_ws(r);
            if self.at_char(s, ',') {
                p = self.step(s);
            } else {
                let z = match self.expect_char(s, ']') {
                    Ok(x) => x,
                    Err(er) => {
                        return Err(er);
                    },
                };
                return Ok((acc, z));
            }
        }
    }

    /// `COLUMNS(...)` after the word, which spans `c..e`.
    #[verifier::rlimit(30)]
    pub fn parse_columns(&self, c: Cursor, e: Cursor) -> (r: Result<(Expr, Cursor), ParseError>)
        requires
            self.wf(),
            self.ok(c),
            self.ok(e),
            e.at >= c.at,
        ensures
            pr_expr(r) == p_columns(self.t(), c.at as int, e.at as int),
            r matches Ok((_, z)) ==> self.ok(z) && z.at >= e.at,
    {
        let a0 = self.skip_ws(e);
        let a = match self.expect_char(a0, '(') {
            Ok(x) => x,
            Err(er) => {
                return Err(er);
            },
        };
        let b = self.skip_ws(a);
        let (sel, p) = if self.at_char(b, '*') {
            (ColumnsSelector::All, self.step(b))
        } else if self.at_char(b, '\'') {
            match self.parse_string(b) {
                Ok((s, p)) => match s.kind {
                    ExprKind::Str(pattern) => (ColumnsSelector::Regex { pattern, start: s.start, end: s.end }, p),
                    _ => {
                        return Err(self.err_at(b, String::new()));
                    },
                },
                Err(er) => {
                    return Err(er);
                },
            }
        } else if self.at_char(b, '[') {
            let s = self.step(b);
            match self.names_rest(s) {
                Ok((names, p)) => (ColumnsSelector::List(names), p),
                Err(er) => {
                    return Err(er);
                },
            }
        } else {
            return Err(self.err_at(b, String::from_str("expected `*`, a regex string, or `[names]`")));
        };
        let q = self.skip_ws(p);
        let z = match self.expect_char(q, ')') {
            Ok(x) => x,
            Err(er) => {
                return Err(er);
            },
        };
        Ok((Expr { kind: ExprKind::Columns(sel), start: c.byte, end: z.byte }, z))
    }
}

impl AssertExpr {
    /// Parse an assertion: an expression, then nothing but whitespace.
    pub fn parse(input: &str) -> (r: Result<AssertExpr, ParseError>)
        ensures
            match r {
                Ok(a) => parse_text(input@) == Ok::<ExprV, ErrV>(view_expr(a.root)),
                Err(e) => parse_text(input@) == Err::<ExprV, ErrV>(view_err(e)),
            },
    {
        let p = Parser::new(input);
        let c = p.start();
        let (root, q) = match p.parse_expr(c) {
            Ok(x) => x,
            Err(e) => {
                return Err(e);
            },
        };
        let z = p.skip_ws(q);
        if !p.is_eof(z) {
            return Err(p.err_at(z, String::from_str("unexpected trailing input")));
        }
        Ok(AssertExpr { root })
    }
}

} // verus!
