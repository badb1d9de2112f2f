//! Recursive-descent parser for the `join` expression mini-language used in
//! `relationships[*].join`.
//!
//! Grammar:
//!
//! ```text
//! join     := conjunct ("AND" conjunct)*
//! conjunct := qcol op qcol
//! qcol     := IDENT "." IDENT
//! op       := "=" | "==" | ">=" | "<=" | ">" | "<"
//! IDENT    := [A-Za-z_][A-Za-z0-9_]*
//! ```
//!
//! `AND` is matched case-insensitively. Whitespace is permitted between
//! tokens. The parser tracks byte offsets within the input string so a
//! diagnostic can point at the failing token.
//!
//! The grammar is stated once, as the spec functions below, over the input's
//! UTF-8 bytes; [`JoinExpr::parse`] is proved to compute exactly what they
//! describe, failures included.

use vstd::prelude::*;
use vstd::string::StringSliceAdditionalSpecFns;

use crate::text::{
    all_ascii, ascii_chars, ascii_string, eq_ignore_case, is_ident_char, is_ident_start, lemma_word_end,
    lemma_ws_end, matches_ignore_case_at, skip_ws_from, str_eq, word_end, word_end_from, ws_end,
};

verus! {

#[derive(Debug, Clone)]
pub struct JoinExpr {
    pub conjuncts: Vec<JoinConjunct>,
}

#[derive(Debug, Clone)]
pub struct JoinConjunct {
    pub lhs: QCol,
    pub op: JoinOp,
    pub rhs: QCol,
}

#[derive(Debug, Clone)]
pub struct QCol {
    pub table: String,
    pub column: String,
    /// Byte offset of the qualified column within the join string.
    pub start: usize,
    pub end: usize,
}

#[derive(Debug, Clone, Copy, PartialEq, Eq, Structural)]
pub enum JoinOp {
    Eq,
    Ge,
    Le,
    Gt,
    Lt,
}

#[derive(Debug, Clone)]
pub struct ParseError {
    pub message: String,
    /// Byte offset of the failing token (or end-of-string) within the join
    /// expression.
    pub at: usize,
}

// --- The grammar, as spec -------------------------------------------------

/// A qualified column as the grammar reads it.
pub struct QColSpec {
    pub table: Seq<char>,
    pub column: Seq<char>,
    pub start: int,
    pub end: int,
}

pub struct ConjSpec {
    pub lhs: QColSpec,
    pub op: JoinOp,
    pub rhs: QColSpec,
}

pub struct ErrSpec {
    pub message: Seq<char>,
    pub at: int,
}

impl View for QCol {
    type V = QColSpec;

    open spec fn view(&self) -> QColSpec {
        QColSpec {
            table: self.table@,
            column: self.column@,
            start: self.start as int,
            end: self.end as int,
        }
    }
}

impl View for JoinConjunct {
    type V = ConjSpec;

    open spec fn view(&self) -> ConjSpec {
        ConjSpec { lhs: self.lhs@, op: self.op, rhs: self.rhs@ }
    }
}

impl View for JoinExpr {
    type V = Seq<ConjSpec>;

    open spec fn view(&self) -> Seq<ConjSpec> {
        self.conjuncts@.map_values(|c: JoinConjunct| c@)
    }
}

impl View for ParseError {
    type V = ErrSpec;

    open spec fn view(&self) -> ErrSpec {
        ErrSpec { message: self.message@, at: self.at as int }
    }
}

pub open spec fn msg_ident() -> Seq<char> {
    "expected identifier"@
}

pub open spec fn msg_dot() -> Seq<char> {
    "expected `.` after table name"@
}

pub open spec fn msg_op() -> Seq<char> {
    "expected one of `=`, `>=`, `<=`, `>`, `<`"@
}

pub open spec fn msg_and() -> Seq<char> {
    "expected `AND`"@
}

/// `IDENT` at `i`: the position just past it.
pub open spec fn spec_ident(s: Seq<u8>, i: int) -> Result<int, ErrSpec> {
    if 0 <= i < s.len() && is_ident_start(s[i]) {
        Ok(word_end(s, i + 1))
    } else {
        Err(ErrSpec { message: msg_ident(), at: i })
    }
}

/// `qcol`, after any leading whitespace.
pub open spec fn spec_qcol(s: Seq<u8>, i: int) -> Result<(QColSpec, int), ErrSpec> {
    let st = ws_end(s, i);
    match spec_ident(s, st) {
        Err(e) => Err(e),
        Ok(te) => if te < s.len() && s[te] == 46u8 {
            match spec_ident(s, te + 1) {
                Err(e) => Err(e),
                Ok(ce) => Ok(
                    (
                        QColSpec {
                            table: ascii_chars(s.subrange(st, te)),
                            column: ascii_chars(s.subrange(te + 1, ce)),
                            start: st,
                            end: ce,
                        },
                        ce,
                    ),
                ),
            }
        } else {
            Err(ErrSpec { message: msg_dot(), at: te })
        },
    }
}

pub open spec fn has1(s: Seq<u8>, i: int, a: u8) -> bool {
    0 <= i < s.len() && s[i] == a
}

pub open spec fn has2(s: Seq<u8>, i: int, a: u8, b: u8) -> bool {
    0 <= i && i + 1 < s.len() && s[i] == a && s[i + 1] == b
}

/// `op` at `i`, the longer spellings tried first.
pub open spec fn spec_op(s: Seq<u8>, i: int) -> Result<(JoinOp, int), ErrSpec> {
    if has2(s, i, 62u8, 61u8) {
        Ok((JoinOp::Ge, i + 2))
    } else if has2(s, i, 60u8, 61u8) {
        Ok((JoinOp::Le, i + 2))
    } else if has2(s, i, 61u8, 61u8) {
        Ok((JoinOp::Eq, i + 2))
    } else if has1(s, i, 61u8) {
        Ok((JoinOp::Eq, i + 1))
    } else if has1(s, i, 62u8) {
        Ok((JoinOp::Gt, i + 1))
    } else if has1(s, i, 60u8) {
        Ok((JoinOp::Lt, i + 1))
    } else {
        Err(ErrSpec { message: msg_op(), at: i })
    }
}

/// `conjunct` at `i`.
pub open spec fn spec_conjunct(s: Seq<u8>, i: int) -> Result<(ConjSpec, int), ErrSpec> {
    match spec_qcol(s, i) {
        Err(e) => Err(e),
        Ok((lhs, p1)) => match spec_op(s, ws_end(s, p1)) {
            Err(e) => Err(e),
            Ok((op, p2)) => match spec_qcol(s, ws_end(s, p2)) {
                Err(e) => Err(e),
                Ok((rhs, p3)) => Ok((ConjSpec { lhs, op, rhs }, p3)),
            },
        },
    }
}

/// The bytes of `and`.
pub open spec fn and_bytes() -> Seq<u8> {
    seq![97u8, 110u8, 100u8]
}

/// The keyword `AND` at `p`, in any case, not followed by an identifier
/// character.
pub open spec fn spec_and(s: Seq<u8>, p: int) -> Result<int, ErrSpec> {
    if p + 3 <= s.len() && eq_ignore_case(s.subrange(p, p + 3), and_bytes()) && !(p + 3 < s.len()
        && is_ident_char(s[p + 3])) {
        Ok(p + 3)
    } else {
        Err(ErrSpec { message: msg_and(), at: p })
    }
}

/// The conjuncts after the first: `("AND" conjunct)*` then end of input,
/// appended to `acc`.
pub open spec fn spec_rest(s: Seq<u8>, i: int, acc: Seq<ConjSpec>) -> Result<
    Seq<ConjSpec>,
    ErrSpec,
>
    decreases s.len() - i,
{
    if !(0 <= i <= s.len()) {
        Ok(acc)
    } else {
        let p = ws_end(s, i);
        if p >= s.len() {
            Ok(acc)
        } else {
            match spec_and(s, p) {
                Err(e) => Err(e),
                Ok(q) => match spec_conjunct(s, q) {
                    Err(e) => Err(e),
                    Ok((c, r)) => {
                        proof {
                            lemma_ws_end(s, i);
                            lemma_conjunct_bounds(s, q);
                        }
                        spec_rest(s, r, acc.push(c))
                    },
                },
            }
        }
    }
}

/// The whole grammar: what [`JoinExpr::parse`] returns for the bytes `s`.
pub open spec fn spec_parse_join(s: Seq<u8>) -> Result<Seq<ConjSpec>, ErrSpec> {
    match spec_conjunct(s, 0) {
        Err(e) => Err(e),
        Ok((c, r)) => spec_rest(s, r, seq![c]),
    }
}

// --- Bounds lemmas --------------------------------------------------------

pub proof fn lemma_ident_bounds(s: Seq<u8>, i: int)
    requires
        0 <= i <= s.len(),
    ensures
        spec_ident(s, i) matches Ok(e) ==> i < e <= s.len() && all_ascii(s.subrange(i, e))
            && is_ident_start(s[i]) && forall|k: int| i < k < e ==> is_ident_char(#[trigger] s[k]),
        spec_ident(s, i) matches Err(err) ==> err.at == i,
{
    if i < s.len() && is_ident_start(s[i]) {
        lemma_word_end(s, i + 1);
        let e = word_end(s, i + 1);
        assert forall|k: int| 0 <= k < e - i implies #[trigger] s.subrange(i, e)[k] < 128 by {
            assert(s.subrange(i, e)[k] == s[i + k]);
        }
    }
}

pub proof fn lemma_qcol_bounds(s: Seq<u8>, i: int)
    requires
        0 <= i <= s.len(),
    ensures
        spec_qcol(s, i) matches Ok((q, e)) ==> i <= q.start < q.end && q.end == e && e <= s.len(),
        spec_qcol(s, i) matches Err(err) ==> i <= err.at <= s.len(),
{
    lemma_ws_end(s, i);
    let st = ws_end(s, i);
    lemma_ident_bounds(s, st);
    if let Ok(te) = spec_ident(s, st) {
        if te < s.len() && s[te] == 46u8 {
            lemma_ident_bounds(s, te + 1);
        }
    }
}

pub proof fn lemma_conjunct_bounds(s: Seq<u8>, i: int)
    requires
        0 <= i <= s.len(),
    ensures
        spec_conjunct(s, i) matches Ok((c, e)) ==> i < e <= s.len(),
        spec_conjunct(s, i) matches Err(err) ==> i <= err.at <= s.len(),
{
    lemma_qcol_bounds(s, i);
    if let Ok((lhs, p1)) = spec_qcol(s, i) {
        lemma_ws_end(s, p1);
        let p = ws_end(s, p1);
        if let Ok((op, p2)) = spec_op(s, p) {
            lemma_ws_end(s, p2);
            lemma_qcol_bounds(s, ws_end(s, p2));
        }
    }
}

// --- The parser -----------------------------------------------------------

struct Parser<'a> {
    src: &'a [u8],
    pos: usize,
}

impl<'a> Parser<'a> {
    fn new(s: &'a str) -> (r: Self)
        ensures
            r.src@ == s.spec_bytes(),
            r.pos == 0,
    {
        Self { src: s.as_bytes(), pos: 0 }
    }

    fn is_eof(&self) -> (r: bool)
        ensures
            r == (self.pos >= self.src@.len()),
    {
        self.pos >= self.src.len()
    }

    fn peek(&self) -> (r: Option<u8>)
        ensures
            r == (if self.pos < self.src@.len() {
                Some(self.src@[self.pos as int])
            } else {
                None
            }),
    {
        if self.pos < self.src.len() {
            Some(self.src[self.pos])
        } else {
            None
        }
    }

    fn skip_ws(&mut self)
        requires
            old(self).pos <= old(self).src@.len(),
        ensures
            final(self).src == old(self).src,
            final(self).pos == ws_end(old(self).src@, old(self).pos as int),
            old(self).pos <= final(self).pos <= final(self).src@.len(),
    {
        self.pos = skip_ws_from(self.src, self.pos);
    }

    fn err(&self, msg: &str) -> (r: ParseError)
        ensures
            r@ == (ErrSpec { message: msg@, at: self.pos as int }),
    {
        ParseError { message: String::from_str(msg), at: self.pos }
    }

    fn parse_ident(&mut self) -> (r: Result<String, ParseError>)
        requires
            old(self).pos <= old(self).src@.len(),
        ensures
            final(self).src == old(self).src,
            final(self).pos <= final(self).src@.len(),
            match (r, spec_ident(old(self).src@, old(self).pos as int)) {
                (Ok(name), Ok(e)) => name@ == ascii_chars(
                    old(self).src@.subrange(old(self).pos as int, e),
                ) && final(self).pos == e,
                (Err(err), Err(se)) => err@ == se,
                _ => false,
            },
    {
        let start = self.pos;
        let n = self.src.len();
        proof {
            lemma_ident_bounds(self.src@, start as int);
        }
        if !(start < n && (crate::text::is_ascii_alphabetic(self.src[start]) || self.src[start]
            == 0x5Fu8)) {
            return Err(self.err("expected identifier"));
        }
        self.pos = start + 1;
        self.pos = word_end_from(self.src, self.pos);
        Ok(ascii_string(self.src, start, self.pos))
    }

    fn parse_qcol(&mut self) -> (r: Result<QCol, ParseError>)
        requires
            old(self).pos <= old(self).src@.len(),
        ensures
            final(self).src == old(self).src,
            final(self).pos <= final(self).src@.len(),
            match (r, spec_qcol(old(self).src@, old(self).pos as int)) {
                (Ok(q), Ok((sq, e))) => q@ == sq && final(self).pos == e,
                (Err(err), Err(se)) => err@ == se,
                _ => false,
            },
    {
        self.skip_ws();
        let start = self.pos;
        proof {
            lemma_ident_bounds(self.src@, start as int);
        }
        let table = match self.parse_ident() {
            Ok(t) => t,
            Err(e) => return Err(e),
        };
        let n = self.src.len();
        if !(self.pos < n && self.src[self.pos] == 0x2Eu8) {
            return Err(self.err("expected `.` after table name"));
        }
        self.pos = self.pos + 1;
        proof {
            lemma_ident_bounds(self.src@, self.pos as int);
        }
        let column = match self.parse_ident() {
            Ok(c) => c,
            Err(e) => return Err(e),
        };
        Ok(QCol { table, column, start, end: self.pos })
    }

    fn parse_op(&mut self) -> (r: Result<JoinOp, ParseError>)
        requires
            old(self).pos <= old(self).src@.len(),
        ensures
            final(self).src == old(self).src,
            final(self).pos <= final(self).src@.len(),
            match (r, spec_op(old(self).src@, old(self).pos as int)) {
                (Ok(op), Ok((sop, e))) => op == sop && final(self).pos == e,
                (Err(err), Err(se)) => err@ == se,
                _ => false,
            },
    {
        let s = self.src;
        let p = self.pos;
        let n = s.len();
        // Order matters: longer operators first.
        if p < n && n - p > 1 && s[p] == 0x3Eu8 && s[p + 1] == 0x3Du8 {
            self.pos = p + 2;
            return Ok(JoinOp::Ge);
        }
        if p < n && n - p > 1 && s[p] == 0x3Cu8 && s[p + 1] == 0x3Du8 {
            self.pos = p + 2;
            return Ok(JoinOp::Le);
        }
        if p < n && n - p > 1 && s[p] == 0x3Du8 && s[p + 1] == 0x3Du8 {
            self.pos = p + 2;
            return Ok(JoinOp::Eq);
        }
        if p < n && s[p] == 0x3Du8 {
            self.pos = p + 1;
            return Ok(JoinOp::Eq);
        }
        if p < n && s[p] == 0x3Eu8 {
            self.pos = p + 1;
            return Ok(JoinOp::Gt);
        }
        if p < n && s[p] == 0x3Cu8 {
            self.pos = p + 1;
            return Ok(JoinOp::Lt);
        }
        Err(self.err("expected one of `=`, `>=`, `<=`, `>`, `<`"))
    }

    fn parse_conjunct(&mut self) -> (r: Result<JoinConjunct, ParseError>)
        requires
            old(self).pos <= old(self).src@.len(),
        ensures
            final(self).src == old(self).src,
            final(self).pos <= final(self).src@.len(),
            match (r, spec_conjunct(old(self).src@, old(self).pos as int)) {
                (Ok(c), Ok((sc, e))) => c@ == sc && final(self).pos == e,
                (Err(err), Err(se)) => err@ == se,
                _ => false,
            },
    {
        proof {
            lemma_qcol_bounds(self.src@, self.pos as int);
        }
        let lhs = match self.parse_qcol() {
            Ok(q) => q,
            Err(e) => return Err(e),
        };
        self.skip_ws();
        let op = match self.parse_op() {
            Ok(o) => o,
            Err(e) => return Err(e),
        };
        self.skip_ws();
        proof {
            lemma_qcol_bounds(self.src@, self.pos as int);
        }
        let rhs = match self.parse_qcol() {
            Ok(q) => q,
            Err(e) => return Err(e),
        };
        Ok(JoinConjunct { lhs, op, rhs })
    }

    /// `AND` (case-insensitive) as a whole word at the current position.
    fn expect_and(&mut self) -> (r: Result<(), ParseError>)
        requires
            old(self).pos <= old(self).src@.len(),
        ensures
            final(self).src == old(self).src,
            final(self).pos <= final(self).src@.len(),
            match (r, spec_and(old(self).src@, old(self).pos as int)) {
                (Ok(_), Ok(e)) => final(self).pos == e,
                (Err(err), Err(se)) => err@ == se,
                _ => false,
            },
    {
        let kw: [u8; 3] = [0x61u8, 0x6Eu8, 0x64u8];
        let kws = kw.as_slice();
        proof {
            assert(kws@ =~= and_bytes());
        }
        if !matches_ignore_case_at(self.src, self.pos, kws) {
            return Err(self.err("expected `AND`"));
        }
        let n = self.src.len();
        let end = self.pos + 3;
        // The keyword must be followed by a non-identifier character, so
        // `andante` is not read as `AND` + `ante`.
        if end < n && (crate::text::is_ascii_alphanumeric(self.src[end])
            || self.src[end] == 0x5Fu8) {
            return Err(self.err("expected `AND`"));
        }
        self.pos = end;
        Ok(())
    }
}

impl JoinExpr {
    /// Parse a join expression, or report the first token the grammar rejects.
    pub fn parse(input: &str) -> (r: Result<JoinExpr, ParseError>)
        ensures
            match (r, spec_parse_join(input.spec_bytes())) {
                (Ok(j), Ok(cs)) => j@ == cs,
                (Err(e), Err(se)) => e@ == se,
                _ => false,
            },
    {
        let mut p = Parser::new(input);
        let ghost s = p.src@;
        proof {
            lemma_conjunct_bounds(s, 0);
        }
        let first = match p.parse_conjunct() {
            Ok(c) => c,
            Err(e) => return Err(e),
        };
        let mut conjuncts = vec![first];
        proof {
            assert(conjuncts@.map_values(|c: JoinConjunct| c@) =~= seq![first@]);
        }
        loop
            invariant
                p.src@ == s,
                s == input.spec_bytes(),
                p.pos <= s.len(),
                spec_parse_join(s) == spec_rest(s, p.pos as int, conjuncts@.map_values(
                    |c: JoinConjunct| c@,
                )),
            ensures
                spec_parse_join(s) == Ok::<Seq<ConjSpec>, ErrSpec>(conjuncts@.map_values(|c: JoinConjunct| c@)),
            decreases s.len() - p.pos,
        {
            let ghost before = p.pos;
            let ghost acc = conjuncts@.map_values(|c: JoinConjunct| c@);
            p.skip_ws();
            assert(p.pos == ws_end(s, before as int));
            if p.is_eof() {
                assert(spec_rest(s, before as int, acc) == Ok::<Seq<ConjSpec>, ErrSpec>(acc));
                break;
            }
            match p.expect_and() {
                Ok(()) => {},
                Err(e) => {
                    assert(spec_rest(s, before as int, acc) == Err::<Seq<ConjSpec>, ErrSpec>(e@));
                    return Err(e);
                },
            }
            proof {
                lemma_conjunct_bounds(s, p.pos as int);
            }
            let c = match p.parse_conjunct() {
                Ok(c) => c,
                Err(e) => return Err(e),
            };
            let ghost old_view = conjuncts@.map_values(|c: JoinConjunct| c@);
            conjuncts.push(c);
            proof {
                assert(conjuncts@.map_values(|c: JoinConjunct| c@) =~= old_view.push(c@));
            }
        }
        Ok(JoinExpr { conjuncts })
    }
}


// --- What a parsed expression names ---------------------------------------

/// Every qualified column of `cs`, in source order.
pub open spec fn qcol_seq(cs: Seq<ConjSpec>) -> Seq<QColSpec>
    decreases cs.len(),
{
    if cs.len() == 0 {
        seq![]
    } else {
        qcol_seq(cs.drop_last()) + seq![cs.last().lhs, cs.last().rhs]
    }
}

/// The table of every qualified column of `cs`, in source order, repeats kept.
pub open spec fn table_names(cs: Seq<ConjSpec>) -> Seq<Seq<char>> {
    qcol_seq(cs).map_values(|q: QColSpec| q.table)
}

/// `s` with every element after its first occurrence removed.
pub open spec fn dedup(s: Seq<Seq<char>>) -> Seq<Seq<char>>
    decreases s.len(),
{
    if s.len() == 0 {
        seq![]
    } else {
        let d = dedup(s.drop_last());
        if d.contains(s.last()) {
            d
        } else {
            d.push(s.last())
        }
    }
}

pub proof fn lemma_qcol_seq_push(cs: Seq<ConjSpec>, c: ConjSpec)
    ensures
        qcol_seq(cs.push(c)) == qcol_seq(cs) + seq![c.lhs, c.rhs],
{
    assert(cs.push(c).drop_last() =~= cs);
}

/// The tables of a join are named once each, in first-appearance order, and
/// every table a qualified column names is among them.
pub proof fn law_tables_distinct_and_complete(s: Seq<Seq<char>>)
    ensures
        dedup(s).no_duplicates(),
        forall|t: Seq<char>| dedup(s).contains(t) <==> s.contains(t),
    decreases s.len(),
{
    if s.len() > 0 {
        law_tables_distinct_and_complete(s.drop_last());
        let d = dedup(s.drop_last());
        assert forall|t: Seq<char>| dedup(s).contains(t) <==> s.contains(t) by {
            if s.contains(t) && t != s.last() {
                let k = choose|k: int| 0 <= k < s.len() && s[k] == t;
                assert(s.drop_last()[k] == t);
            }
            if s.drop_last().contains(t) {
                let k = choose|k: int| 0 <= k < s.drop_last().len() && s.drop_last()[k] == t;
                assert(s[k] == t);
            }
            if !d.contains(s.last()) {
                assert(d.push(s.last())[d.len() as int] == s.last());
                if d.contains(t) {
                    let k = choose|k: int| 0 <= k < d.len() && d[k] == t;
                    assert(d.push(s.last())[k] == t);
                }
                if d.push(s.last()).contains(t) && t != s.last() {
                    let k = choose|k: int| 0 <= k < d.push(s.last()).len() && d.push(s.last())[k] == t;
                    assert(d[k] == t);
                }
            }
            assert(s[s.len() - 1] == s.last());
        }
    }
}

/// `k` is where `t` first occurs in `s`.
pub open spec fn first_at(s: Seq<Seq<char>>, t: Seq<char>, k: int) -> bool {
    &&& 0 <= k < s.len()
    &&& s[k] == t
    &&& forall|j: int| 0 <= j < k ==> s[j] != t
}

proof fn lemma_first_at_prefix(s: Seq<Seq<char>>, t: Seq<char>, k: int)
    requires
        s.len() > 0,
        first_at(s, t, k),
        s.drop_last().contains(t),
    ensures
        k < s.len() - 1,
        first_at(s.drop_last(), t, k),
{
    let j = choose|j: int| 0 <= j < s.drop_last().len() && s.drop_last()[j] == t;
    assert(s[j] == t);
    assert forall|m: int| 0 <= m < k implies s.drop_last()[m] != t by {
        assert(s[m] != t);
    }
}

/// The tables of a join come in the order of their first appearance: of two
/// tables listed, the one listed first is the one a qualified column names
/// first.
pub proof fn law_tables_in_first_appearance_order(s: Seq<Seq<char>>)
    ensures
        forall|i: int, k: int, a: int, b: int|
            0 <= i < k < dedup(s).len() && #[trigger] first_at(s, dedup(s)[i], a) && #[trigger] first_at(
                s,
                dedup(s)[k],
                b,
            ) ==> a < b,
    decreases s.len(),
{
    if s.len() > 0 {
        let p = s.drop_last();
        law_tables_in_first_appearance_order(p);
        law_tables_distinct_and_complete(p);
        let d = dedup(p);
        assert forall|i: int, k: int, a: int, b: int|
            0 <= i < k < dedup(s).len() && #[trigger] first_at(s, dedup(s)[i], a) && #[trigger] first_at(
                s,
                dedup(s)[k],
                b,
            ) implies a < b by {
            assert(d.contains(d[i]));
            assert(p.contains(d[i]));
            lemma_first_at_prefix(s, d[i], a);
            if d.contains(s.last()) {
                assert(d.contains(d[k]));
                assert(p.contains(d[k]));
                lemma_first_at_prefix(s, d[k], b);
            } else {
                if k < d.len() {
                    assert(dedup(s)[k] == d[k]);
                    assert(d.contains(d[k]));
                    assert(p.contains(d[k]));
                    lemma_first_at_prefix(s, d[k], b);
                } else {
                    assert(dedup(s)[k] == s.last());
                    assert(!p.contains(s.last()));
                    if b < s.len() - 1 {
                        assert(p[b] == s[b]);
                    }
                }
                assert(dedup(s)[i] == d[i]);
            }
        }
    }
}

/// A character that may start an identifier: an ASCII letter or `_`.
pub open spec fn ident_start_char(c: char) -> bool {
    ('A' <= c && c <= 'Z') || ('a' <= c && c <= 'z') || c == '_'
}

/// A character that may continue an identifier: an ASCII letter, digit or `_`.
pub open spec fn ident_continue_char(c: char) -> bool {
    ident_start_char(c) || ('0' <= c && c <= '9')
}

/// `t` is an identifier: `[A-Za-z_][A-Za-z0-9_]*`.
pub open spec fn is_identifier(t: Seq<char>) -> bool {
    &&& t.len() > 0
    &&& ident_start_char(t[0])
    &&& forall|k: int| 1 <= k < t.len() ==> ident_continue_char(#[trigger] t[k])
}

proof fn lemma_identifier_bytes(s: Seq<u8>, i: int, e: int)
    requires
        0 <= i < e <= s.len(),
        is_ident_start(s[i]),
        forall|k: int| i < k < e ==> is_ident_char(#[trigger] s[k]),
    ensures
        is_identifier(ascii_chars(s.subrange(i, e))),
{
    let t = ascii_chars(s.subrange(i, e));
    assert(t[0] == s[i] as char);
    assert forall|k: int| 1 <= k < t.len() implies ident_continue_char(#[trigger] t[k]) by {
        assert(t[k] == s[i + k] as char);
        assert(is_ident_char(s[i + k]));
    }
}

/// A qualified column as it sits in the bytes `s`: its span holds exactly
/// `table.column`, both parts identifiers.
pub open spec fn qcol_in_source(s: Seq<u8>, q: QColSpec) -> bool {
    &&& 0 <= q.start < q.end <= s.len()
    &&& ascii_chars(s.subrange(q.start, q.end)) == q.table + seq!['.'] + q.column
    &&& is_identifier(q.table)
    &&& is_identifier(q.column)
}

proof fn lemma_qcol_in_source(s: Seq<u8>, i: int)
    requires
        0 <= i <= s.len(),
    ensures
        spec_qcol(s, i) matches Ok((q, e)) ==> qcol_in_source(s, q),
{
    lemma_ws_end(s, i);
    let st = ws_end(s, i);
    lemma_ident_bounds(s, st);
    if let Ok(te) = spec_ident(s, st) {
        if te < s.len() && s[te] == 46u8 {
            lemma_ident_bounds(s, te + 1);
            if let Ok(ce) = spec_ident(s, te + 1) {
                lemma_identifier_bytes(s, st, te);
                lemma_identifier_bytes(s, te + 1, ce);
                let whole = s.subrange(st, ce);
                assert(whole =~= s.subrange(st, te) + seq![46u8] + s.subrange(te + 1, ce));
                assert(ascii_chars(whole) =~= ascii_chars(s.subrange(st, te)) + seq!['.']
                    + ascii_chars(s.subrange(te + 1, ce)));
            }
        }
    }
}

/// Both qualified columns of a conjunct sit in `s` as [`qcol_in_source`] says.
pub open spec fn conj_in_source(s: Seq<u8>, c: ConjSpec) -> bool {
    qcol_in_source(s, c.lhs) && qcol_in_source(s, c.rhs)
}

pub open spec fn all_in_source(s: Seq<u8>, cs: Seq<ConjSpec>) -> bool {
    forall|k: int| 0 <= k < cs.len() ==> conj_in_source(s, #[trigger] cs[k])
}

proof fn lemma_conjunct_in_source(s: Seq<u8>, i: int)
    requires
        0 <= i <= s.len(),
    ensures
        spec_conjunct(s, i) matches Ok((c, e)) ==> conj_in_source(s, c),
{
    lemma_qcol_bounds(s, i);
    lemma_qcol_in_source(s, i);
    if let Ok((lhs, p1)) = spec_qcol(s, i) {
        lemma_ws_end(s, p1);
        if let Ok((op, p2)) = spec_op(s, ws_end(s, p1)) {
            lemma_ws_end(s, p2);
            lemma_qcol_in_source(s, ws_end(s, p2));
        }
    }
}

proof fn lemma_rest_in_source(s: Seq<u8>, i: int, acc: Seq<ConjSpec>)
    requires
        all_in_source(s, acc),
    ensures
        spec_rest(s, i, acc) matches Ok(cs) ==> all_in_source(s, cs),
    decreases s.len() - i,
{
    if 0 <= i <= s.len() {
        let p = ws_end(s, i);
        lemma_ws_end(s, i);
        if p < s.len() {
            if let Ok(q) = spec_and(s, p) {
                lemma_conjunct_bounds(s, q);
                lemma_conjunct_in_source(s, q);
                if let Ok((c, r)) = spec_conjunct(s, q) {
                    let acc2 = acc.push(c);
                    assert forall|k: int| 0 <= k < acc2.len() implies conj_in_source(
                        s,
                        #[trigger] acc2[k],
                    ) by {
                        if k < acc.len() {
                            assert(acc2[k] == acc[k]);
                        } else {
                            assert(acc2[k] == c);
                        }
                    }
                    lemma_rest_in_source(s, r, acc2);
                }
            }
        }
    }
}

/// Every qualified column of a successfully parsed join spans exactly its own
/// `table.column` text within the input.
pub proof fn law_qcol_spans_cover_their_text(s: Seq<u8>)
    ensures
        spec_parse_join(s) matches Ok(cs) ==> all_in_source(s, cs),
{
    lemma_conjunct_bounds(s, 0);
    lemma_conjunct_in_source(s, 0);
    if let Ok((c, r)) = spec_conjunct(s, 0) {
        assert(seq![c][0] == c);
        lemma_rest_in_source(s, r, seq![c]);
    }
}

/// The qualified columns `qs` follow one another: each spans some text, and
/// each ends at or before every later one begins.
pub open spec fn one_after_another(qs: Seq<QColSpec>) -> bool {
    &&& forall|i: int| 0 <= i < qs.len() ==> (#[trigger] qs[i]).start < qs[i].end
    &&& forall|i: int, j: int| 0 <= i < j < qs.len() ==> (#[trigger] qs[i]).end <= (#[trigger] qs[j]).start
}

proof fn lemma_conjunct_order(s: Seq<u8>, i: int)
    requires
        0 <= i <= s.len(),
    ensures
        spec_conjunct(s, i) matches Ok((c, e)) ==> i <= c.lhs.start < c.lhs.end <= c.rhs.start < c.rhs.end
            && c.rhs.end == e,
{
    lemma_qcol_bounds(s, i);
    if let Ok((lhs, p1)) = spec_qcol(s, i) {
        lemma_ws_end(s, p1);
        let p = ws_end(s, p1);
        if let Ok((op, p2)) = spec_op(s, p) {
            assert(p < p2 <= s.len());
            lemma_ws_end(s, p2);
            lemma_qcol_bounds(s, ws_end(s, p2));
        }
    }
}

proof fn lemma_rest_order(s: Seq<u8>, i: int, acc: Seq<ConjSpec>)
    requires
        0 <= i <= s.len(),
        acc.len() >= 1,
        one_after_another(qcol_seq(acc)),
        forall|k: int| 0 <= k < qcol_seq(acc).len() ==> (#[trigger] qcol_seq(acc)[k]).end <= i,
    ensures
        spec_rest(s, i, acc) matches Ok(cs) ==> cs.len() >= 1 && one_after_another(qcol_seq(cs)),
        spec_rest(s, i, acc) matches Err(e) ==> i <= e.at <= s.len(),
    decreases s.len() - i,
{
    let p = ws_end(s, i);
    lemma_ws_end(s, i);
    if p < s.len() {
        if let Ok(q) = spec_and(s, p) {
            lemma_conjunct_bounds(s, q);
            lemma_conjunct_order(s, q);
            if let Ok((c, r)) = spec_conjunct(s, q) {
                let old_qs = qcol_seq(acc);
                let acc2 = acc.push(c);
                lemma_qcol_seq_push(acc, c);
                let qs = qcol_seq(acc2);
                assert(qs == old_qs + seq![c.lhs, c.rhs]);
                assert forall|k: int| 0 <= k < qs.len() implies (#[trigger] qs[k]).start < qs[k].end by {
                    if k < old_qs.len() {
                        assert(qs[k] == old_qs[k]);
                    }
                }
                assert forall|a: int, b: int| 0 <= a < b < qs.len() implies (#[trigger] qs[a]).end
                    <= (#[trigger] qs[b]).start by {
                    if b < old_qs.len() {
                        assert(qs[a] == old_qs[a] && qs[b] == old_qs[b]);
                    } else if a < old_qs.len() {
                        assert(qs[a] == old_qs[a]);
                        assert(old_qs[a].end <= i);
                    }
                }
                assert forall|k: int| 0 <= k < qs.len() implies (#[trigger] qs[k]).end <= r by {
                    if k < old_qs.len() {
                        assert(qs[k] == old_qs[k]);
                        assert(old_qs[k].end <= i);
                    }
                }
                lemma_rest_order(s, r, acc2);
            }
        }
    }
}

/// A join that parses has at least one conjunct, and its qualified columns
/// come one after another through the text; one that does not is refused at
/// an offset within the input.
pub proof fn law_parse_shape(s: Seq<u8>)
    ensures
        spec_parse_join(s) matches Ok(cs) ==> cs.len() >= 1 && one_after_another(qcol_seq(cs)),
        spec_parse_join(s) matches Err(e) ==> 0 <= e.at <= s.len(),
{
    lemma_conjunct_bounds(s, 0);
    lemma_conjunct_order(s, 0);
    if let Ok((c, r)) = spec_conjunct(s, 0) {
        let acc = seq![c];
        lemma_qcol_seq_push(Seq::<ConjSpec>::empty(), c);
        assert(Seq::<ConjSpec>::empty().push(c) == acc);
        let qs = qcol_seq(acc);
        assert(qcol_seq(Seq::<ConjSpec>::empty()) == Seq::<QColSpec>::empty());
        assert(qs =~= seq![c.lhs, c.rhs]);
        assert(qs[0] == c.lhs && qs[1] == c.rhs);
        lemma_rest_order(s, r, acc);
    }
}

/// Append `t` unless an equal string is already in `out`.
pub(crate) fn push_unique<'b>(out: &mut Vec<&'b str>, t: &'b str)
    ensures
        final(out)@.map_values(|x: &str| x@) == (if old(out)@.map_values(|x: &str| x@).contains(
            t@,
        ) {
            old(out)@.map_values(|x: &str| x@)
        } else {
            old(out)@.map_values(|x: &str| x@).push(t@)
        }),
{
    let ghost v = out@.map_values(|x: &str| x@);
    let mut i: usize = 0;
    while i < out.len()
        invariant
            v == out@.map_values(|x: &str| x@),
            i <= out@.len(),
            forall|k: int| 0 <= k < i ==> v[k] != t@,
        decreases out@.len() - i,
    {
        if str_eq(out[i], t) {
            assert(v[i as int] == t@);
            return;
        }
        i = i + 1;
    }
    assert(!v.contains(t@));
    out.push(t);
    assert(out@.map_values(|x: &str| x@) =~= v.push(t@));
}

impl JoinExpr {
    /// Distinct table names referenced by any `qcol` in the expression, in
    /// first-appearance order so diagnostics are stable.
    pub fn tables(&self) -> (r: Vec<&str>)
        ensures
            r@.map_values(|x: &str| x@) == dedup(table_names(self@)),
    {
        let mut out: Vec<&str> = Vec::new();
        let mut i: usize = 0;
        assert(out@.map_values(|x: &str| x@) =~= dedup(table_names(self@.take(0))));
        while i < self.conjuncts.len()
            invariant
                i <= self.conjuncts@.len(),
                out@.map_values(|x: &str| x@) == dedup(table_names(self@.take(i as int))),
            decreases self.conjuncts@.len() - i,
        {
            let c = &self.conjuncts[i];
            let ghost prefix = self@.take(i as int);
            proof {
                assert(self@.take(i + 1) =~= prefix.push(c@));
                lemma_qcol_seq_push(prefix, c@);
                let names = table_names(prefix);
                let names2 = table_names(prefix.push(c@));
                assert(names2 =~= names.push(c.lhs.table@).push(c.rhs.table@));
                assert(names2.drop_last() =~= names.push(c.lhs.table@));
                assert(names.push(c.lhs.table@).drop_last() =~= names);
                let l = c.lhs.table@;
                let r = c.rhs.table@;
                assert(dedup(names.push(l)) == (if dedup(names).contains(l) {
                    dedup(names)
                } else {
                    dedup(names).push(l)
                }));
                assert(dedup(names2) == (if dedup(names.push(l)).contains(r) {
                    dedup(names.push(l))
                } else {
                    dedup(names.push(l)).push(r)
                }));
            }
            push_unique(&mut out, c.lhs.table.as_str());
            push_unique(&mut out, c.rhs.table.as_str());
            i = i + 1;
        }
        assert(self@.take(self.conjuncts@.len() as int) =~= self@);
        out
    }

    /// All qualified column references, in source order.
    pub fn qcols(&self) -> (r: Vec<&QCol>)
        ensures
            r@.map_values(|q: &QCol| q@) == qcol_seq(self@),
    {
        let mut out: Vec<&QCol> = Vec::new();
        let mut i: usize = 0;
        assert(out@.map_values(|q: &QCol| q@) =~= qcol_seq(self@.take(0)));
        while i < self.conjuncts.len()
            invariant
                i <= self.conjuncts@.len(),
                out@.map_values(|q: &QCol| q@) == qcol_seq(self@.take(i as int)),
            decreases self.conjuncts@.len() - i,
        {
            let c = &self.conjuncts[i];
            let ghost before = out@.map_values(|q: &QCol| q@);
            proof {
                assert(self@.take(i + 1) =~= self@.take(i as int).push(c@));
                lemma_qcol_seq_push(self@.take(i as int), c@);
            }
            out.push(&c.lhs);
            out.push(&c.rhs);
            assert(out@.map_values(|q: &QCol| q@) =~= before + seq![c.lhs@, c.rhs@]);
            i = i + 1;
        }
        assert(self@.take(self.conjuncts@.len() as int) =~= self@);
        out
    }
}

} // verus!
