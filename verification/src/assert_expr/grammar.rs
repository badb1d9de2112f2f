//! The assertion language's grammar, read as mathematics: what parsing the
//! characters of an expression from a position gives, whether a tree or the
//! error and the byte offset it points at.
//!
//! Positions are indices into the expression's characters; every span in a
//! tree and every error offset is the byte offset of such a position in the
//! expression's UTF-8 text, so it can slice the source string.

use vstd::prelude::*;

use super::{ArithOp, CmpOp};

verus! {

broadcast use vstd::utf8::char_is_scalar;

// --- Trees -------------------------------------------------------------------

/// A numeric literal: a whole number, or the digits of one with a fraction.
pub enum NumV {
    Int(i64),
    Float(Seq<char>),
}

pub struct NamedV {
    pub name: Seq<char>,
    pub start: int,
    pub end: int,
}

pub enum SelV {
    All,
    Regex { pattern: Seq<char>, start: int, end: int },
    List(Seq<NamedV>),
}

pub enum KindV {
    Number(NumV),
    Str(Seq<char>),
    Bool(bool),
    Null,
    Column(Seq<Seq<char>>),
    Neg(Box<ExprV>),
    Not(Box<ExprV>),
    Arith { op: ArithOp, lhs: Box<ExprV>, rhs: Box<ExprV> },
    Compare { op: CmpOp, lhs: Box<ExprV>, rhs: Box<ExprV> },
    And(Box<ExprV>, Box<ExprV>),
    Or(Box<ExprV>, Box<ExprV>),
    IsNull { operand: Box<ExprV>, negated: bool },
    Between { operand: Box<ExprV>, lo: Box<ExprV>, hi: Box<ExprV>, negated: bool },
    In { operand: Box<ExprV>, list: Seq<ExprV>, negated: bool },
    Like { operand: Box<ExprV>, pattern: Box<ExprV>, negated: bool },
    SimilarTo { operand: Box<ExprV>, pattern: Box<ExprV>, negated: bool },
    Call { name: Seq<char>, args: Seq<ExprV> },
    Now,
    Interval { n: Box<ExprV>, unit: Seq<char>, unit_start: int, unit_end: int },
    Case { whens: Seq<(ExprV, ExprV)>, els: Option<Box<ExprV>> },
    Columns(SelV),
}

/// A node: what it is, and the byte offsets it spans.
pub struct ExprV {
    pub kind: KindV,
    pub start: int,
    pub end: int,
}

/// A failure: its message, and the byte offset of the failing token.
pub struct ErrV {
    pub message: Seq<char>,
    pub at: int,
}

/// What parsing from a position gives: a value and the position after it, or
/// an error.
pub type PR<A> = Result<(A, int), ErrV>;

// --- Characters --------------------------------------------------------------

/// The byte offset of character position `i` in the UTF-8 text of `t`.
#[verifier::opaque]
pub open spec fn bo(t: Seq<char>, i: int) -> int {
    vstd::utf8::encode_utf8(t.take(i)).len() as int
}

/// `b.is_ascii_whitespace()`, for the character a byte starts.
pub open spec fn is_space(c: char) -> bool {
    c == ' ' || c == '\t' || c == '\n' || c == '\x0C' || c == '\r'
}

pub open spec fn is_digit(c: char) -> bool {
    '0' <= c && c <= '9'
}

pub open spec fn is_alpha(c: char) -> bool {
    ('a' <= c && c <= 'z') || ('A' <= c && c <= 'Z')
}

/// A character that may start a bare name: an ASCII letter or `_`.
pub open spec fn is_name_start(c: char) -> bool {
    is_alpha(c) || c == '_'
}

/// A character of a bare name: an ASCII letter, digit or `_`.
pub open spec fn is_word(c: char) -> bool {
    is_alpha(c) || is_digit(c) || c == '_'
}

pub open spec fn at_char(t: Seq<char>, i: int, c: char) -> bool {
    0 <= i < t.len() && t[i] == c
}

/// The first position at or after `i` that is not whitespace.
pub open spec fn ws(t: Seq<char>, i: int) -> int
    decreases t.len() - i,
{
    if 0 <= i < t.len() && is_space(t[i]) {
        ws(t, i + 1)
    } else {
        i
    }
}

/// The first position at or after `i` that is not a name character.
pub open spec fn word_end(t: Seq<char>, i: int) -> int
    decreases t.len() - i,
{
    if 0 <= i < t.len() && is_word(t[i]) {
        word_end(t, i + 1)
    } else {
        i
    }
}

/// The first position at or after `i` that is not a digit.
pub open spec fn digits_end(t: Seq<char>, i: int) -> int
    decreases t.len() - i,
{
    if 0 <= i < t.len() && is_digit(t[i]) {
        digits_end(t, i + 1)
    } else {
        i
    }
}

/// `c.to_ascii_lowercase()`.
pub open spec fn lower(c: char) -> char {
    if 'A' <= c && c <= 'Z' {
        ((c as u32) + 32) as char
    } else {
        c
    }
}

/// `c.to_ascii_uppercase()`.
pub open spec fn upper(c: char) -> char {
    if 'a' <= c && c <= 'z' {
        ((c as u32) - 32) as char
    } else {
        c
    }
}

pub open spec fn lowered(w: Seq<char>) -> Seq<char> {
    w.map_values(|c: char| lower(c))
}

pub open spec fn uppered(w: Seq<char>) -> Seq<char> {
    w.map_values(|c: char| upper(c))
}

/// The keyword `kw` (lower case) after any whitespace from `i`, in any case
/// and not running on into a name: the position after it, if it is there.
#[verifier::opaque]
pub open spec fn kw(t: Seq<char>, i: int, kw: Seq<char>) -> Option<int> {
    let j = ws(t, i);
    let e = j + kw.len();
    if e <= t.len() && lowered(t.subrange(j, e)) == kw && !(e < t.len() && is_word(t[e])) {
        Some(e)
    } else {
        None
    }
}

/// The words a bare name may not be.
pub open spec fn reserved(w: Seq<char>) -> bool {
    ||| w == "and"@ ||| w == "or"@ ||| w == "not"@ ||| w == "is"@ ||| w == "null"@
    ||| w == "between"@ ||| w == "in"@ ||| w == "like"@ ||| w == "similar"@ ||| w == "to"@
    ||| w == "when"@ ||| w == "then"@ ||| w == "else"@ ||| w == "end"@ ||| w == "true"@
    ||| w == "false"@
}

/// The comparison operator at `i`, two-character ones first.
pub open spec fn comparison_at(t: Seq<char>, i: int) -> Option<(CmpOp, int)> {
    if at_char(t, i, '>') && at_char(t, i + 1, '=') {
        Some((CmpOp::Ge, i + 2))
    } else if at_char(t, i, '<') && at_char(t, i + 1, '=') {
        Some((CmpOp::Le, i + 2))
    } else if at_char(t, i, '<') && at_char(t, i + 1, '>') {
        Some((CmpOp::Ne, i + 2))
    } else if at_char(t, i, '!') && at_char(t, i + 1, '=') {
        Some((CmpOp::Ne, i + 2))
    } else if at_char(t, i, '=') {
        Some((CmpOp::Eq, i + 1))
    } else if at_char(t, i, '>') {
        Some((CmpOp::Gt, i + 1))
    } else if at_char(t, i, '<') {
        Some((CmpOp::Lt, i + 1))
    } else {
        None
    }
}

/// The value of a run of decimal digits.
pub open spec fn digits_value(d: Seq<char>) -> int
    decreases d.len(),
{
    if d.len() == 0 {
        0
    } else {
        digits_value(d.drop_last()) * 10 + (d.last() as int - '0' as int)
    }
}

/// `d` without its leading zeros.
pub open spec fn significant(d: Seq<char>) -> Seq<char>
    decreases d.len(),
{
    if d.len() > 0 && d[0] == '0' {
        significant(d.drop_first())
    } else {
        d
    }
}

/// Whether the digits `a` are at or above the digits `b` of the same length,
/// compared from the most significant.
pub open spec fn digits_at_least(a: Seq<char>, b: Seq<char>) -> bool
    decreases a.len(),
{
    if a.len() == 0 || b.len() == 0 {
        true
    } else if a[0] != b[0] {
        a[0] > b[0]
    } else {
        digits_at_least(a.drop_first(), b.drop_first())
    }
}

/// The digits of `2^1024 - 2^970`: halfway between the largest finite `f64`
/// and the next power of two, the smallest magnitude that round-to-nearest
/// takes to infinity.
pub open spec fn f64_overflow_digits() -> Seq<char> {
    "179769313486231580793728971405303415079934132710037826936173778980444968292764750946649017977587207096330286416692887910946555547851940402630657488671505820681908902000708383676273854845817711531764475730270069855571366959622842914819860834936475292719074168444365510704342711559699508093042880177904174497792"@
}

/// Whether a literal whose whole part has the digits `whole` is too large to
/// be a finite `f64`: whether those digits, read as a number, reach
/// `2^1024 - 2^970` (a fraction cannot carry a smaller whole part there).
pub open spec fn overflows_f64(whole: Seq<char>) -> bool {
    let s = significant(whole);
    let t = f64_overflow_digits();
    s.len() > t.len() || (s.len() == t.len() && digits_at_least(s, t))
}

pub open spec fn err(t: Seq<char>, i: int, message: Seq<char>) -> ErrV {
    ErrV { message, at: bo(t, i) }
}

pub open spec fn node(t: Seq<char>, kind: KindV, s: int, e: int) -> ExprV {
    ExprV { kind, start: bo(t, s), end: bo(t, e) }
}

/// "expected `c`".
pub open spec fn msg_expected_char(c: char) -> Seq<char> {
    "expected `"@ + seq![c] + "`"@
}

/// "expected `KW`".
pub open spec fn msg_expected_kw(k: Seq<char>) -> Seq<char> {
    "expected `"@ + uppered(k) + "`"@
}

/// "unexpected keyword `WORD`".
pub open spec fn msg_keyword(w: Seq<char>) -> Seq<char> {
    "unexpected keyword `"@ + uppered(w) + "`"@
}

/// The character `c` at `i`: the position after it, or the error for its
/// absence.
pub open spec fn expect_char(t: Seq<char>, i: int, c: char) -> Result<int, ErrV> {
    if at_char(t, i, c) {
        Ok(i + 1)
    } else {
        Err(err(t, i, msg_expected_char(c)))
    }
}

/// The keyword `k` after whitespace from `i`, or the error for its absence.
pub open spec fn expect_kw(t: Seq<char>, i: int, k: Seq<char>) -> Result<int, ErrV> {
    match kw(t, i, k) {
        Some(e) => Ok(e),
        None => Err(err(t, i, msg_expected_kw(k))),
    }
}

/// A position that moves forward and stays in the text.
pub open spec fn fwd(t: Seq<char>, lo: int, p: int) -> bool {
    lo <= p <= t.len()
}

/// An impossible outcome, standing where a parse would move backwards.
pub open spec fn stuck(t: Seq<char>, i: int) -> ErrV {
    err(t, i, seq![])
}

// --- Tokens ------------------------------------------------------------------

/// The text of a single-quoted string whose body starts at `p`, each doubled
/// quote read as one, appended to `acc`: the value and the position after the
/// closing quote.
pub open spec fn string_body(t: Seq<char>, p: int, acc: Seq<char>) -> PR<Seq<char>>
    decreases t.len() - p,
{
    if p < 0 || p >= t.len() {
        Err(err(t, p, "unterminated string literal"@))
    } else if t[p] == '\'' {
        if at_char(t, p + 1, '\'') {
            string_body(t, p + 2, acc.push('\''))
        } else {
            Ok((acc, p + 1))
        }
    } else {
        string_body(t, p + 1, acc.push(t[p]))
    }
}

/// A string literal whose opening quote is at `i`.
pub open spec fn p_string(t: Seq<char>, i: int) -> PR<ExprV> {
    match string_body(t, i + 1, seq![]) {
        Err(e) => Err(e),
        Ok((v, p)) => Ok((node(t, KindV::Str(v), i, p), p)),
    }
}

/// The name in backticks whose opening backtick is at `q` (`p` the body's
/// position), each doubled backtick read as one.
pub open spec fn quoted_body(t: Seq<char>, q: int, p: int, acc: Seq<char>) -> PR<Seq<char>>
    decreases t.len() - p,
{
    if p < 0 || p >= t.len() {
        Err(err(t, q, "unterminated quoted name"@))
    } else if t[p] == '`' {
        if at_char(t, p + 1, '`') {
            quoted_body(t, q, p + 2, acc.push('`'))
        } else if acc.len() == 0 {
            Err(err(t, q, "empty quoted name"@))
        } else {
            Ok((acc, p + 1))
        }
    } else {
        quoted_body(t, q, p + 1, acc.push(t[p]))
    }
}

/// A backtick-quoted name whose opening backtick is at `i`.
pub open spec fn p_quoted(t: Seq<char>, i: int) -> PR<Seq<char>> {
    quoted_body(t, i, i + 1, seq![])
}

/// The text of a numeric literal starting at `i` and ending at `e`.
pub open spec fn number_end(t: Seq<char>, i: int) -> (int, bool) {
    let d = digits_end(t, i);
    if at_char(t, d, '.') && 0 <= d + 1 < t.len() && is_digit(t[d + 1]) {
        (digits_end(t, d + 1), false)
    } else {
        (d, true)
    }
}

/// A numeric literal starting at `i`: an `i64` when it has no fraction, the
/// digits themselves when it has one, or an error when it would not fit.
pub open spec fn p_number(t: Seq<char>, i: int) -> PR<ExprV> {
    let (e, is_int) = number_end(t, i);
    let text = t.subrange(i, e);
    if is_int {
        if digits_value(text) <= i64::MAX {
            Ok((node(t, KindV::Number(NumV::Int(digits_value(text) as i64)), i, e), e))
        } else {
            Err(err(t, i, "`"@ + text + "` is too large for a 64-bit integer"@))
        }
    } else {
        if overflows_f64(t.subrange(i, digits_end(t, i))) {
            Err(err(t, i, "`"@ + text + "` is too large for a number"@))
        } else {
            Ok((node(t, KindV::Number(NumV::Float(text)), i, e), e))
        }
    }
}

/// The field names after a column name ending at `p`, each `.name` or
/// ``.`quoted` `` appended to `path`.
pub open spec fn p_fields(t: Seq<char>, p: int, path: Seq<Seq<char>>) -> PR<Seq<Seq<char>>>
    decreases t.len() - p,
{
    if !at_char(t, p, '.') || p < 0 {
        Ok((path, p))
    } else if at_char(t, p + 1, '`') {
        match p_quoted(t, p + 1) {
            Err(e) => Err(e),
            Ok((name, r)) => if fwd(t, p + 1, r) {
                p_fields(t, r, path.push(name))
            } else {
                Err(stuck(t, p))
            },
        }
    } else if 0 <= p + 1 < t.len() && is_name_start(t[p + 1]) {
        let r = word_end(t, p + 1);
        let w = t.subrange(p + 1, r);
        if reserved(lowered(w)) {
            Err(err(t, p + 1, msg_keyword(w)))
        } else if fwd(t, p + 1, r) {
            p_fields(t, r, path.push(w))
        } else {
            Err(stuck(t, p))
        }
    } else {
        Err(err(t, p + 1, "expected a field name after `.`"@))
    }
}

// --- Expressions -------------------------------------------------------------

/// `expr` from `i`.
pub open spec fn p_expr(t: Seq<char>, i: int) -> PR<ExprV>
    decreases t.len() - i, 30int,
{
    p_or(t, i)
}

pub open spec fn p_or(t: Seq<char>, i: int) -> PR<ExprV>
    decreases t.len() - i, 29int,
{
    match p_and(t, i) {
        Err(e) => Err(e),
        Ok((lhs, p)) => if fwd(t, i, p) {
            or_rest(t, lhs, p)
        } else {
            Err(stuck(t, i))
        },
    }
}

/// `("OR" and_expr)*` after `lhs`, which ends at `p`.
pub open spec fn or_rest(t: Seq<char>, lhs: ExprV, p: int) -> PR<ExprV>
    decreases t.len() - p, 28int,
{
    match kw(t, p, "or"@) {
        None => Ok((lhs, p)),
        Some(k) => if fwd(t, p + 1, k) {
            match p_and(t, k) {
                Err(e) => Err(e),
                Ok((rhs, q)) => if fwd(t, k, q) {
                    or_rest(
                        t,
                        ExprV { kind: KindV::Or(Box::new(lhs), Box::new(rhs)), start: lhs.start, end: rhs.end },
                        q,
                    )
                } else {
                    Err(stuck(t, p))
                },
            }
        } else {
            Err(stuck(t, p))
        },
    }
}

pub open spec fn p_and(t: Seq<char>, i: int) -> PR<ExprV>
    decreases t.len() - i, 27int,
{
    match p_not(t, i) {
        Err(e) => Err(e),
        Ok((lhs, p)) => if fwd(t, i, p) {
            and_rest(t, lhs, p)
        } else {
            Err(stuck(t, i))
        },
    }
}

/// `("AND" not_expr)*` after `lhs`, which ends at `p`.
pub open spec fn and_rest(t: Seq<char>, lhs: ExprV, p: int) -> PR<ExprV>
    decreases t.len() - p, 26int,
{
    match kw(t, p, "and"@) {
        None => Ok((lhs, p)),
        Some(k) => if fwd(t, p + 1, k) {
            match p_not(t, k) {
                Err(e) => Err(e),
                Ok((rhs, q)) => if fwd(t, k, q) {
                    and_rest(
                        t,
                        ExprV { kind: KindV::And(Box::new(lhs), Box::new(rhs)), start: lhs.start, end: rhs.end },
                        q,
                    )
                } else {
                    Err(stuck(t, p))
                },
            }
        } else {
            Err(stuck(t, p))
        },
    }
}

pub open spec fn p_not(t: Seq<char>, i: int) -> PR<ExprV>
    decreases t.len() - i, 25int,
{
    let j = ws(t, i);
    if !fwd(t, i, j) {
        Err(stuck(t, i))
    } else {
        match kw(t, j, "not"@) {
            Some(k) => if fwd(t, j + 1, k) {
                match p_not(t, k) {
                    Err(e) => Err(e),
                    Ok((operand, q)) => Ok(
                        (ExprV { kind: KindV::Not(Box::new(operand)), start: bo(t, j), end: operand.end }, q),
                    ),
                }
            } else {
                Err(stuck(t, i))
            },
            None => p_predicate(t, j),
        }
    }
}

/// `predicate` from `i`.
pub open spec fn p_predicate(t: Seq<char>, i: int) -> PR<ExprV>
    decreases t.len() - i, 24int,
{
    match p_additive(t, i) {
        Err(e) => Err(e),
        Ok((operand, p0)) => if !fwd(t, i, p0) {
            Err(stuck(t, i))
        } else {
            let j = ws(t, p0);
            if !fwd(t, p0, j) {
                Err(stuck(t, i))
            } else {
                match comparison_at(t, j) {
                    Some((op, k)) => if fwd(t, j + 1, k) {
                        match p_additive(t, k) {
                            Err(e) => Err(e),
                            Ok((rhs, q)) => Ok(
                                (
                                    ExprV {
                                        kind: KindV::Compare { op, lhs: Box::new(operand), rhs: Box::new(rhs) },
                                        start: operand.start,
                                        end: rhs.end,
                                    },
                                    q,
                                ),
                            ),
                        }
                    } else {
                        Err(stuck(t, i))
                    },
                    None => predicate_tail(t, operand, j),
                }
            }
        },
    }
}

/// The predicate forms that start with a keyword, after `operand` (which
/// ends, with any whitespace, at `j`).
pub open spec fn predicate_tail(t: Seq<char>, operand: ExprV, j: int) -> PR<ExprV>
    decreases t.len() - j, 23int,
{
    match kw(t, j, "is"@) {
        Some(k1) => {
            let (negated, k2) = match kw(t, k1, "not"@) {
                Some(k) => (true, k),
                None => (false, k1),
            };
            match expect_kw(t, k2, "null"@) {
                Err(e) => Err(e),
                Ok(k3) => Ok(
                    (
                        ExprV {
                            kind: KindV::IsNull { operand: Box::new(operand), negated },
                            start: operand.start,
                            end: bo(t, k3),
                        },
                        k3,
                    ),
                ),
            }
        },
        None => {
            let (negated, p) = match kw(t, j, "not"@) {
                Some(k) => (true, k),
                None => (false, j),
            };
            if !fwd(t, j, p) {
                Err(stuck(t, j))
            } else {
                match kw(t, p, "between"@) {
                    Some(k) => if fwd(t, p + 1, k) {
                        between_tail(t, operand, negated, k)
                    } else {
                        Err(stuck(t, j))
                    },
                    None => match kw(t, p, "in"@) {
                        Some(k) => if fwd(t, p + 1, k) {
                            in_tail(t, operand, negated, k)
                        } else {
                            Err(stuck(t, j))
                        },
                        None => match kw(t, p, "like"@) {
                            Some(k) => if fwd(t, p + 1, k) {
                                match p_additive(t, k) {
                                    Err(e) => Err(e),
                                    Ok((pattern, q)) => Ok(
                                        (
                                            ExprV {
                                                kind: KindV::Like {
                                                    operand: Box::new(operand),
                                                    pattern: Box::new(pattern),
                                                    negated,
                                                },
                                                start: operand.start,
                                                end: pattern.end,
                                            },
                                            q,
                                        ),
                                    ),
                                }
                            } else {
                                Err(stuck(t, j))
                            },
                            None => match kw(t, p, "similar"@) {
                                Some(k) => match expect_kw(t, k, "to"@) {
                                    Err(e) => Err(e),
                                    Ok(k2) => if fwd(t, p + 1, k2) {
                                        match p_additive(t, k2) {
                                            Err(e) => Err(e),
                                            Ok((pattern, q)) => Ok(
                                                (
                                                    ExprV {
                                                        kind: KindV::SimilarTo {
                                                            operand: Box::new(operand),
                                                            pattern: Box::new(pattern),
                                                            negated,
                                                        },
                                                        start: operand.start,
                                                        end: pattern.end,
                                                    },
                                                    q,
                                                ),
                                            ),
                                        }
                                    } else {
                                        Err(stuck(t, j))
                                    },
                                },
                                None => if negated {
                                    Err(
                                        err(
                                            t,
                                            p,
                                            "expected `BETWEEN`, `IN`, `LIKE`, or `SIMILAR TO` after `NOT`"@,
                                        ),
                                    )
                                } else {
                                    Ok((operand, p))
                                },
                            },
                        },
                    },
                }
            }
        },
    }
}

/// `BETWEEN lo AND hi` after the keyword, which ends at `k`.
pub open spec fn between_tail(t: Seq<char>, operand: ExprV, negated: bool, k: int) -> PR<ExprV>
    decreases t.len() - k, 22int,
{
    match p_additive(t, k) {
        Err(e) => Err(e),
        Ok((lo, a)) => if !fwd(t, k, a) {
            Err(stuck(t, k))
        } else {
            match expect_kw(t, a, "and"@) {
                Err(e) => Err(e),
                Ok(b) => if fwd(t, a + 1, b) {
                    match p_additive(t, b) {
                        Err(e) => Err(e),
                        Ok((hi, q)) => Ok(
                            (
                                ExprV {
                                    kind: KindV::Between {
                                        operand: Box::new(operand),
                                        lo: Box::new(lo),
                                        hi: Box::new(hi),
                                        negated,
                                    },
                                    start: operand.start,
                                    end: hi.end,
                                },
                                q,
                            ),
                        ),
                    }
                } else {
                    Err(stuck(t, k))
                },
            }
        },
    }
}

/// `IN (expr, ...)` after the keyword, which ends at `k`.
pub open spec fn in_tail(t: Seq<char>, operand: ExprV, negated: bool, k: int) -> PR<ExprV>
    decreases t.len() - k, 22int,
{
    let a = ws(t, k);
    if !fwd(t, k, a) {
        Err(stuck(t, k))
    } else {
        match expect_char(t, a, '(') {
            Err(e) => Err(e),
            Ok(b) => match p_expr(t, b) {
                Err(e) => Err(e),
                Ok((first, p)) => if fwd(t, b, p) {
                    match list_rest(t, seq![first], p) {
                        Err(e) => Err(e),
                        Ok((list, q)) => Ok(
                            (
                                ExprV {
                                    kind: KindV::In { operand: Box::new(operand), list, negated },
                                    start: operand.start,
                                    end: bo(t, q),
                                },
                                q,
                            ),
                        ),
                    }
                } else {
                    Err(stuck(t, k))
                },
            },
        }
    }
}

/// `("," expr)* ")"` after the items in `acc`, the last ending at `p`.
pub open spec fn list_rest(t: Seq<char>, acc: Seq<ExprV>, p: int) -> PR<Seq<ExprV>>
    decreases t.len() - p, 21int,
{
    let q = ws(t, p);
    if !fwd(t, p, q) {
        Err(stuck(t, p))
    } else if at_char(t, q, ',') {
        match p_expr(t, q + 1) {
            Err(e) => Err(e),
            Ok((e, r)) => if fwd(t, q + 1, r) {
                list_rest(t, acc.push(e), r)
            } else {
                Err(stuck(t, p))
            },
        }
    } else {
        match expect_char(t, q, ')') {
            Err(e) => Err(e),
            Ok(r) => Ok((acc, r)),
        }
    }
}

pub open spec fn p_additive(t: Seq<char>, i: int) -> PR<ExprV>
    decreases t.len() - i, 20int,
{
    match p_multiplicative(t, i) {
        Err(e) => Err(e),
        Ok((lhs, p)) => if fwd(t, i, p) {
            add_rest(t, lhs, p)
        } else {
            Err(stuck(t, i))
        },
    }
}

/// `(("+" | "-") multiplicative)*` after `lhs`, which ends at `p`.
pub open spec fn add_rest(t: Seq<char>, lhs: ExprV, p: int) -> PR<ExprV>
    decreases t.len() - p, 19int,
{
    let q = ws(t, p);
    if !fwd(t, p, q) {
        Err(stuck(t, p))
    } else if at_char(t, q, '+') || at_char(t, q, '-') {
        let op = if t[q] == '+' {
            ArithOp::Add
        } else {
            ArithOp::Sub
        };
        match p_multiplicative(t, q + 1) {
            Err(e) => Err(e),
            Ok((rhs, r)) => if fwd(t, q + 1, r) {
                add_rest(
                    t,
                    ExprV {
                        kind: KindV::Arith { op, lhs: Box::new(lhs), rhs: Box::new(rhs) },
                        start: lhs.start,
                        end: rhs.end,
                    },
                    r,
                )
            } else {
                Err(stuck(t, p))
            },
        }
    } else {
        Ok((lhs, q))
    }
}

pub open spec fn p_multiplicative(t: Seq<char>, i: int) -> PR<ExprV>
    decreases t.len() - i, 18int,
{
    match p_unary(t, i) {
        Err(e) => Err(e),
        Ok((lhs, p)) => if fwd(t, i, p) {
            mul_rest(t, lhs, p)
        } else {
            Err(stuck(t, i))
        },
    }
}

/// `(("*" | "/") unary)*` after `lhs`, which ends at `p`.
pub open spec fn mul_rest(t: Seq<char>, lhs: ExprV, p: int) -> PR<ExprV>
    decreases t.len() - p, 17int,
{
    let q = ws(t, p);
    if !fwd(t, p, q) {
        Err(stuck(t, p))
    } else if at_char(t, q, '*') || at_char(t, q, '/') {
        let op = if t[q] == '*' {
            ArithOp::Mul
        } else {
            ArithOp::Div
        };
        match p_unary(t, q + 1) {
            Err(e) => Err(e),
            Ok((rhs, r)) => if fwd(t, q + 1, r) {
                mul_rest(
                    t,
                    ExprV {
                        kind: KindV::Arith { op, lhs: Box::new(lhs), rhs: Box::new(rhs) },
                        start: lhs.start,
                        end: rhs.end,
                    },
                    r,
                )
            } else {
                Err(stuck(t, p))
            },
        }
    } else {
        Ok((lhs, q))
    }
}

pub open spec fn p_unary(t: Seq<char>, i: int) -> PR<ExprV>
    decreases t.len() - i, 16int,
{
    let j = ws(t, i);
    if !fwd(t, i, j) {
        Err(stuck(t, i))
    } else if at_char(t, j, '-') {
        match p_unary(t, j + 1) {
            Err(e) => Err(e),
            Ok((operand, q)) => Ok(
                (ExprV { kind: KindV::Neg(Box::new(operand)), start: bo(t, j), end: operand.end }, q),
            ),
        }
    } else {
        p_primary(t, j)
    }
}

/// `primary` at `i`, which is past any whitespace.
pub open spec fn p_primary(t: Seq<char>, i: int) -> PR<ExprV>
    decreases t.len() - i, 15int,
{
    if !(0 <= i < t.len()) {
        Err(err(t, i, "expected an expression"@))
    } else if t[i] == '(' {
        match p_expr(t, i + 1) {
            Err(e) => Err(e),
            Ok((inner, p)) => {
                let q = ws(t, p);
                match expect_char(t, q, ')') {
                    Err(e) => Err(e),
                    Ok(r) => Ok((node(t, inner.kind, i, r), r)),
                }
            },
        }
    } else if t[i] == '\'' {
        p_string(t, i)
    } else if t[i] == '`' {
        match p_quoted(t, i) {
            Err(e) => Err(e),
            Ok((name, p)) => match p_fields(t, p, seq![name]) {
                Err(e) => Err(e),
                Ok((path, q)) => Ok((node(t, KindV::Column(path), i, q), q)),
            },
        }
    } else if is_digit(t[i]) {
        p_number(t, i)
    } else if is_name_start(t[i]) {
        p_word(t, i)
    } else {
        Err(err(t, i, "expected an expression"@))
    }
}

/// A primary that starts with a name at `i`: a keyword literal, one of the
/// constructs `CASE`, `COLUMNS`, `NOW`, `interval`, a call, or a column.
pub open spec fn p_word(t: Seq<char>, i: int) -> PR<ExprV>
    decreases t.len() - i, 14int,
{
    let e = word_end(t, i);
    let w = t.subrange(i, e);
    let l = lowered(w);
    if !fwd(t, i + 1, e) {
        Err(stuck(t, i))
    } else if l == "true"@ {
        Ok((node(t, KindV::Bool(true), i, e), e))
    } else if l == "false"@ {
        Ok((node(t, KindV::Bool(false), i, e), e))
    } else if l == "null"@ {
        Ok((node(t, KindV::Null, i, e), e))
    } else if l == "case"@ {
        p_case(t, i, e)
    } else if l == "columns"@ {
        p_columns(t, i, e)
    } else if l == "now"@ {
        match expect_char(t, ws(t, e), '(') {
            Err(er) => Err(er),
            Ok(a) => match expect_char(t, ws(t, a), ')') {
                Err(er) => Err(er),
                Ok(b) => Ok((node(t, KindV::Now, i, b), b)),
            },
        }
    } else if l == "interval"@ {
        p_interval(t, i, e)
    } else if reserved(l) {
        Err(err(t, i, msg_keyword(w)))
    } else if at_char(t, ws(t, e), '(') {
        let a = ws(t, e);
        if !fwd(t, e, a) {
            Err(stuck(t, i))
        } else {
            match p_args(t, a + 1) {
                Err(er) => Err(er),
                Ok((args, p)) => Ok((node(t, KindV::Call { name: w, args }, i, p), p)),
            }
        }
    } else {
        match p_fields(t, e, seq![w]) {
            Err(er) => Err(er),
            Ok((path, p)) => Ok((node(t, KindV::Column(path), i, p), p)),
        }
    }
}

/// `CASE` clauses after the word, which spans `i..e`.
pub open spec fn p_case(t: Seq<char>, i: int, e: int) -> PR<ExprV>
    decreases t.len() - e, 14int,
{
    if !fwd(t, i + 1, e) {
        Err(stuck(t, i))
    } else {
        match case_whens(t, seq![], e) {
            Err(er) => Err(er),
            Ok((whens, p)) => if whens.len() == 0 {
                Err(err(t, p, "`CASE` needs at least one `WHEN ... THEN ...`"@))
            } else if !fwd(t, e, p) {
                Err(stuck(t, i))
            } else {
                match kw(t, p, "else"@) {
                    Some(k) => if fwd(t, p + 1, k) {
                        match p_expr(t, k) {
                            Err(er) => Err(er),
                            Ok((els, q)) => match expect_kw(t, q, "end"@) {
                                Err(er) => Err(er),
                                Ok(r) => Ok(
                                    (node(t, KindV::Case { whens, els: Some(Box::new(els)) }, i, r), r),
                                ),
                            },
                        }
                    } else {
                        Err(stuck(t, i))
                    },
                    None => match expect_kw(t, p, "end"@) {
                        Err(er) => Err(er),
                        Ok(r) => Ok((node(t, KindV::Case { whens, els: None }, i, r), r)),
                    },
                }
            },
        }
    }
}

/// `WHEN cond THEN result` clauses from `p`, appended to `acc`.
pub open spec fn case_whens(t: Seq<char>, acc: Seq<(ExprV, ExprV)>, p: int) -> PR<Seq<(ExprV, ExprV)>>
    decreases t.len() - p, 13int,
{
    match kw(t, p, "when"@) {
        None => Ok((acc, p)),
        Some(k) => if !fwd(t, p + 1, k) {
            Err(stuck(t, p))
        } else {
            match p_expr(t, k) {
                Err(e) => Err(e),
                Ok((cond, a)) => if !fwd(t, k, a) {
                    Err(stuck(t, p))
                } else {
                    match expect_kw(t, a, "then"@) {
                        Err(e) => Err(e),
                        Ok(b) => if !fwd(t, a + 1, b) {
                            Err(stuck(t, p))
                        } else {
                            match p_expr(t, b) {
                                Err(e) => Err(e),
                                Ok((result, c)) => if fwd(t, b, c) {
                                    case_whens(t, acc.push((cond, result)), c)
                                } else {
                                    Err(stuck(t, p))
                                },
                            }
                        },
                    }
                },
            }
        },
    }
}

/// A call's arguments after its `(`, which ends at `i`.
pub open spec fn p_args(t: Seq<char>, i: int) -> PR<Seq<ExprV>>
    decreases t.len() - i, 31int,
{
    let a = ws(t, i);
    if !fwd(t, i, a) {
        Err(stuck(t, i))
    } else if at_char(t, a, ')') {
        Ok((seq![], a + 1))
    } else {
        match p_expr(t, a) {
            Err(e) => Err(e),
            Ok((first, p)) => if fwd(t, a, p) {
                list_rest(t, seq![first], p)
            } else {
                Err(stuck(t, i))
            },
        }
    }
}

/// `interval(n, unit)` after the word, which spans `i..e`.
pub open spec fn p_interval(t: Seq<char>, i: int, e: int) -> PR<ExprV>
    decreases t.len() - e, 13int,
{
    let a = ws(t, e);
    match expect_char(t, a, '(') {
        Err(er) => Err(er),
        Ok(b) => if !fwd(t, e + 1, b) {
            Err(stuck(t, i))
        } else {
            match p_expr(t, b) {
                Err(er) => Err(er),
                Ok((n, p)) => match expect_char(t, ws(t, p), ',') {
                    Err(er) => Err(er),
                    Ok(c) => {
                        let u = ws(t, c);
                        if !(0 <= u < t.len() && is_name_start(t[u])) {
                            Err(err(t, u, "expected an interval unit"@))
                        } else {
                            let ue = word_end(t, u);
                            match expect_char(t, ws(t, ue), ')') {
                                Err(er) => Err(er),
                                Ok(r) => Ok(
                                    (
                                        node(
                                            t,
                                            KindV::Interval {
                                                n: Box::new(n),
                                                unit: t.subrange(u, ue),
                                                unit_start: bo(t, u),
                                                unit_end: bo(t, ue),
                                            },
                                            i,
                                            r,
                                        ),
                                        r,
                                    ),
                                ),
                            }
                        }
                    },
                },
            }
        },
    }
}

/// A name in a `COLUMNS([...])` list at `q`: quoted or bare.
pub open spec fn p_list_name(t: Seq<char>, q: int) -> PR<Seq<char>> {
    if at_char(t, q, '`') {
        p_quoted(t, q)
    } else if 0 <= q < t.len() && is_name_start(t[q]) {
        Ok((t.subrange(q, word_end(t, q)), word_end(t, q)))
    } else {
        Err(err(t, q, "expected a column name"@))
    }
}

/// The names of a `COLUMNS([...])` list from `p`, appended to `acc`, through
/// the closing `]`.
pub open spec fn names_rest(t: Seq<char>, acc: Seq<NamedV>, p: int) -> PR<Seq<NamedV>>
    decreases t.len() - p,
{
    let q = ws(t, p);
    match p_list_name(t, q) {
        Err(e) => Err(e),
        Ok((name, r)) => {
            let named = NamedV { name, start: bo(t, q), end: bo(t, r) };
            let s = ws(t, r);
            if at_char(t, s, ',') {
                if fwd(t, p + 1, s + 1) {
                    names_rest(t, acc.push(named), s + 1)
                } else {
                    Err(stuck(t, p))
                }
            } else {
                match expect_char(t, s, ']') {
                    Err(e) => Err(e),
                    Ok(z) => Ok((acc.push(named), z)),
                }
            }
        },
    }
}

/// `COLUMNS(...)` after the word, which spans `i..e`.
pub open spec fn p_columns(t: Seq<char>, i: int, e: int) -> PR<ExprV> {
    match expect_char(t, ws(t, e), '(') {
        Err(er) => Err(er),
        Ok(a) => {
            let b = ws(t, a);
            let sel: PR<SelV> = if at_char(t, b, '*') {
                Ok((SelV::All, b + 1))
            } else if at_char(t, b, '\'') {
                match string_body(t, b + 1, seq![]) {
                    Err(er) => Err(er),
                    Ok((pattern, p)) => Ok(
                        (SelV::Regex { pattern, start: bo(t, b), end: bo(t, p) }, p),
                    ),
                }
            } else if at_char(t, b, '[') {
                match names_rest(t, seq![], b + 1) {
                    Err(er) => Err(er),
                    Ok((names, p)) => Ok((SelV::List(names), p)),
                }
            } else {
                Err(err(t, b, "expected `*`, a regex string, or `[names]`"@))
            };
            match sel {
                Err(er) => Err(er),
                Ok((sel, p)) => match expect_char(t, ws(t, p), ')') {
                    Err(er) => Err(er),
                    Ok(r) => Ok((node(t, KindV::Columns(sel), i, r), r)),
                },
            }
        },
    }
}

/// A whole assertion: an expression, then nothing but whitespace.
pub open spec fn parse_text(t: Seq<char>) -> Result<ExprV, ErrV> {
    match p_expr(t, 0) {
        Err(e) => Err(e),
        Ok((root, p)) => {
            let q = ws(t, p);
            if q < t.len() {
                Err(err(t, q, "unexpected trailing input"@))
            } else {
                Ok(root)
            }
        },
    }
}

} // verus!
