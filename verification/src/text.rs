//! Byte- and string-level helpers shared by the readers and the printers.
//!
//! The readers work on the UTF-8 bytes of their input and only ever consume
//! ASCII, so every string they build out of the input is an ASCII run; these
//! helpers state that correspondence once.

use vstd::prelude::*;
use vstd::std_specs::iter::IteratorSpec;

verus! {

broadcast use vstd::utf8::encode_utf8_decode_utf8;

/// `b.is_ascii_whitespace()`: space, tab, line feed, form feed, carriage return.
pub open spec fn is_ws(b: u8) -> bool {
    b == 0x20u8 || b == 0x09u8 || b == 0x0Au8 || b == 0x0Cu8 || b == 0x0Du8
}

pub open spec fn is_alpha(b: u8) -> bool {
    (0x41u8 <= b && b <= 0x5Au8) || (0x61u8 <= b && b <= 0x7Au8)
}

pub open spec fn is_digit(b: u8) -> bool {
    0x30u8 <= b && b <= 0x39u8
}

pub open spec fn is_alnum(b: u8) -> bool {
    is_alpha(b) || is_digit(b)
}

/// A byte that may start an `IDENT`: `[A-Za-z_]`.
pub open spec fn is_ident_start(b: u8) -> bool {
    is_alpha(b) || b == 0x5Fu8
}

/// A byte that may continue an `IDENT`: `[A-Za-z0-9_]`.
pub open spec fn is_ident_char(b: u8) -> bool {
    is_alnum(b) || b == 0x5Fu8
}

/// ASCII lower-casing of one byte, as `u8::to_ascii_lowercase` does it.
pub open spec fn lower_byte(b: u8) -> u8 {
    if 0x41u8 <= b && b <= 0x5Au8 {
        (b + 32) as u8
    } else {
        b
    }
}

/// ASCII upper-casing of one byte, as `u8::to_ascii_uppercase` does it.
pub open spec fn upper_byte(b: u8) -> u8 {
    if 0x61u8 <= b && b <= 0x7Au8 {
        (b - 32) as u8
    } else {
        b
    }
}

/// Every byte is ASCII.
pub open spec fn all_ascii(bytes: Seq<u8>) -> bool {
    forall|i: int| 0 <= i < bytes.len() ==> #[trigger] bytes[i] < 128
}

/// The characters an ASCII byte run spells.
pub open spec fn ascii_chars(bytes: Seq<u8>) -> Seq<char> {
    bytes.map_values(|b: u8| b as char)
}

/// `a` and `b` are equal ignoring ASCII case, as `eq_ignore_ascii_case` decides.
pub open spec fn eq_ignore_case(a: Seq<u8>, b: Seq<u8>) -> bool {
    a.len() == b.len() && forall|i: int| 0 <= i < a.len() ==> lower_byte(#[trigger] a[i])
        == lower_byte(b[i])
}

/// The end of the run of `IDENT` characters that starts at `i`.
pub open spec fn word_end(s: Seq<u8>, i: int) -> int
    decreases s.len() - i,
{
    if 0 <= i < s.len() && is_ident_char(s[i]) {
        word_end(s, i + 1)
    } else {
        i
    }
}

/// The first position at or after `i` that is not ASCII whitespace.
pub open spec fn ws_end(s: Seq<u8>, i: int) -> int
    decreases s.len() - i,
{
    if 0 <= i < s.len() && is_ws(s[i]) {
        ws_end(s, i + 1)
    } else {
        i
    }
}

pub proof fn lemma_word_end(s: Seq<u8>, i: int)
    requires
        0 <= i <= s.len(),
    ensures
        i <= word_end(s, i) <= s.len(),
        forall|k: int| i <= k < word_end(s, i) ==> is_ident_char(#[trigger] s[k]),
        word_end(s, i) < s.len() ==> !is_ident_char(s[word_end(s, i)]),
    decreases s.len() - i,
{
    if i < s.len() && is_ident_char(s[i]) {
        lemma_word_end(s, i + 1);
    }
}

pub proof fn lemma_ws_end(s: Seq<u8>, i: int)
    requires
        0 <= i <= s.len(),
    ensures
        i <= ws_end(s, i) <= s.len(),
        forall|k: int| i <= k < ws_end(s, i) ==> is_ws(#[trigger] s[k]),
        ws_end(s, i) < s.len() ==> !is_ws(s[ws_end(s, i)]),
    decreases s.len() - i,
{
    if i < s.len() && is_ws(s[i]) {
        lemma_ws_end(s, i + 1);
    }
}

pub fn is_ascii_whitespace(b: u8) -> (r: bool)
    ensures
        r == is_ws(b),
{
    b == 0x20u8 || b == 0x09u8 || b == 0x0Au8 || b == 0x0Cu8 || b == 0x0Du8
}

pub fn is_ascii_alphabetic(b: u8) -> (r: bool)
    ensures
        r == is_alpha(b),
{
    (0x41u8 <= b && b <= 0x5Au8) || (0x61u8 <= b && b <= 0x7Au8)
}

pub fn is_ascii_digit(b: u8) -> (r: bool)
    ensures
        r == is_digit(b),
{
    0x30u8 <= b && b <= 0x39u8
}

pub fn is_ascii_alphanumeric(b: u8) -> (r: bool)
    ensures
        r == is_alnum(b),
{
    is_ascii_alphabetic(b) || is_ascii_digit(b)
}

pub fn to_ascii_lowercase(b: u8) -> (r: u8)
    ensures
        r == lower_byte(b),
{
    if 0x41u8 <= b && b <= 0x5Au8 {
        b + 32
    } else {
        b
    }
}

/// Advance `pos` past the ASCII whitespace that starts there.
pub fn skip_ws_from(src: &[u8], pos: usize) -> (r: usize)
    requires
        pos <= src@.len(),
    ensures
        r == ws_end(src@, pos as int),
        pos <= r <= src@.len(),
{
    proof {
        lemma_ws_end(src@, pos as int);
    }
    let mut p = pos;
    while p < src.len() && is_ascii_whitespace(src[p])
        invariant
            pos <= p <= src@.len(),
            ws_end(src@, p as int) == ws_end(src@, pos as int),
        decreases src@.len() - p,
    {
        p = p + 1;
    }
    p
}

/// Advance `pos` past the run of `IDENT` characters that starts there.
pub fn word_end_from(src: &[u8], pos: usize) -> (r: usize)
    requires
        pos <= src@.len(),
    ensures
        r == word_end(src@, pos as int),
        pos <= r <= src@.len(),
{
    proof {
        lemma_word_end(src@, pos as int);
    }
    let mut p = pos;
    while p < src.len() && (is_ascii_alphanumeric(src[p]) || src[p] == 0x5Fu8)
        invariant
            pos <= p <= src@.len(),
            word_end(src@, p as int) == word_end(src@, pos as int),
        decreases src@.len() - p,
    {
        p = p + 1;
    }
    p
}

/// Whether `src[pos..pos + kw.len()]` equals `kw` ignoring ASCII case; `false`
/// when the input ends first.
pub fn matches_ignore_case_at(src: &[u8], pos: usize, kw: &[u8]) -> (r: bool)
    requires
        pos <= src@.len(),
    ensures
        r == (pos + kw@.len() <= src@.len() && eq_ignore_case(
            src@.subrange(pos as int, pos + kw@.len()),
            kw@,
        )),
{
    let n = src.len();
    if kw.len() > n - pos {
        return false;
    }
    let mut i: usize = 0;
    while i < kw.len()
        invariant
            n == src@.len(),
            pos + kw@.len() <= src@.len(),
            i <= kw@.len(),
            forall|k: int| 0 <= k < i ==> lower_byte(#[trigger] src@[pos + k]) == lower_byte(kw@[k]),
        decreases kw@.len() - i,
    {
        if to_ascii_lowercase(src[pos + i]) != to_ascii_lowercase(kw[i]) {
            proof {
                let sub = src@.subrange(pos as int, pos + kw@.len());
                assert(sub[i as int] == src@[pos + i]);
            }
            return false;
        }
        i = i + 1;
    }
    proof {
        let sub = src@.subrange(pos as int, pos + kw@.len());
        assert forall|k: int| 0 <= k < sub.len() implies lower_byte(#[trigger] sub[k]) == lower_byte(
            kw@[k],
        ) by {
            assert(sub[k] == src@[pos + k]);
        }
    }
    true
}

/// Whether `src[pos..]` starts with `lit`.
pub fn starts_with_at(src: &[u8], pos: usize, lit: &[u8]) -> (r: bool)
    requires
        pos <= src@.len(),
    ensures
        r == (pos + lit@.len() <= src@.len() && src@.subrange(pos as int, pos + lit@.len())
            == lit@),
{
    let n = src.len();
    if lit.len() > n - pos {
        return false;
    }
    let mut i: usize = 0;
    while i < lit.len()
        invariant
            n == src@.len(),
            pos + lit@.len() <= src@.len(),
            i <= lit@.len(),
            forall|k: int| 0 <= k < i ==> #[trigger] src@[pos + k] == lit@[k],
        decreases lit@.len() - i,
    {
        if src[pos + i] != lit[i] {
            proof {
                let sub = src@.subrange(pos as int, pos + lit@.len());
                assert(sub[i as int] != lit@[i as int]);
            }
            return false;
        }
        i = i + 1;
    }
    proof {
        let sub = src@.subrange(pos as int, pos + lit@.len());
        assert(sub =~= lit@) by {
            assert forall|k: int| 0 <= k < sub.len() implies sub[k] == lit@[k] by {
                assert(sub[k] == src@[pos + k]);
            }
        }
    }
    true
}

/// Append one character, as `String::push` does.
#[verifier::external_body]
pub(crate) fn string_push(s: &mut String, c: char)
    ensures
        final(s)@ == old(s)@.push(c),
{
    s.push(c);
}

/// The ASCII bytes `src[start..end]` as a string.
pub fn ascii_string(src: &[u8], start: usize, end: usize) -> (r: String)
    requires
        start <= end <= src@.len(),
        all_ascii(src@.subrange(start as int, end as int)),
    ensures
        r@ == ascii_chars(src@.subrange(start as int, end as int)),
{
    let mut out = String::new();
    let mut i = start;
    while i < end
        invariant
            start <= i <= end <= src@.len(),
            all_ascii(src@.subrange(start as int, end as int)),
            out@ == ascii_chars(src@.subrange(start as int, i as int)),
        decreases end - i,
    {
        let b = src[i];
        proof {
            assert(src@.subrange(start as int, end as int)[i - start] == b);
        }
        let c = b as char;
        string_push(&mut out, c);
        proof {
            assert(src@.subrange(start as int, i + 1) =~= src@.subrange(start as int, i as int).push(
                b,
            ));
        }
        i = i + 1;
    }
    out
}

/// Whether two strings hold the same text.
pub fn str_eq(a: &str, b: &str) -> (r: bool)
    ensures
        r == (a@ == b@),
{
    let x = a.as_bytes();
    let y = b.as_bytes();
    proof {
        vstd::utf8::encode_utf8_decode_utf8(a@);
        vstd::utf8::encode_utf8_decode_utf8(b@);
        assert(a@ == b@ ==> x@ == y@);
    }
    if x.len() != y.len() {
        return false;
    }
    let mut i: usize = 0;
    while i < x.len()
        invariant
            x@.len() == y@.len(),
            i <= x@.len(),
            a@ == b@ ==> x@ == y@,
            forall|k: int| 0 <= k < i ==> #[trigger] x@[k] == y@[k],
        decreases x@.len() - i,
    {
        if x[i] != y[i] {
            assert(x@[i as int] != y@[i as int]);
            return false;
        }
        i = i + 1;
    }
    assert(x@ =~= y@);
    true
}

/// The decimal digit `d` (`0 <= d < 10`) as a character.
pub open spec fn digit_char(d: nat) -> char {
    ((48 + d) as u8) as char
}

/// The decimal spelling of `n`, as `usize::to_string` writes it.
pub open spec fn decimal(n: nat) -> Seq<char>
    decreases n,
{
    if n < 10 {
        seq![digit_char(n)]
    } else {
        decimal(n / 10).push(digit_char(n % 10))
    }
}

proof fn lemma_decimal_split(n: nat, p: nat)
    requires
        p >= 1,
    ensures
        n / p >= 10 ==> decimal(n / p) == decimal(n / p / 10).push(digit_char((n / p) % 10)),
{
}

/// `n` written in decimal.
pub fn decimal_string(n: usize) -> (r: String)
    ensures
        r@ == decimal(n as nat),
    decreases n,
{
    if n < 10 {
        let mut s = String::new();
        let c = ((48 + n) as u8) as char;
        string_push(&mut s, c);
        proof {
            assert(s@ =~= seq![digit_char(n as nat)]);
        }
        s
    } else {
        let mut s = decimal_string(n / 10);
        let c = ((48 + n % 10) as u8) as char;
        string_push(&mut s, c);
        s
    }
}


/// `n` written in decimal.
pub fn decimal_u64(n: u64) -> (r: String)
    ensures
        r@ == decimal(n as nat),
    decreases n,
{
    if n < 10 {
        let mut s = String::new();
        let c = ((48 + n) as u8) as char;
        string_push(&mut s, c);
        proof {
            assert(s@ =~= seq![digit_char(n as nat)]);
        }
        s
    } else {
        let mut s = decimal_u64(n / 10);
        let c = ((48 + n % 10) as u8) as char;
        string_push(&mut s, c);
        s
    }
}

// --- Character-level helpers over `str` ----------------------------------

/// `t` up to (not including) its first `(`; all of `t` when it has none.
pub open spec fn before_paren(t: Seq<char>) -> Seq<char>
    decreases t.len(),
{
    if t.len() == 0 {
        t
    } else if t[0] == '(' {
        seq![]
    } else {
        seq![t[0]] + before_paren(t.drop_first())
    }
}

proof fn lemma_before_paren_step(t: Seq<char>, i: int)
    requires
        0 <= i < t.len(),
        t[i] != '(',
    ensures
        t.take(i) + before_paren(t.skip(i)) == t.take(i + 1) + before_paren(t.skip(i + 1)),
{
    assert(t.skip(i).drop_first() =~= t.skip(i + 1));
    assert(t.skip(i)[0] == t[i]);
    assert(t.take(i) + seq![t[i]] =~= t.take(i + 1));
}

/// The prefix of `s` before its first `(`, as `str::find` and slicing give it.
pub fn prefix_before_paren(s: &str) -> (r: &str)
    ensures
        r@ == before_paren(s@),
{
    let n = s.unicode_len();
    let mut i: usize = 0;
    assert(s@.skip(0) =~= s@);
    while i < n
        invariant
            n == s@.len(),
            i <= n,
            before_paren(s@) == s@.take(i as int) + before_paren(s@.skip(i as int)),
        decreases n - i,
    {
        if s.get_char(i) == '(' {
            assert(s@.skip(i as int)[0] == '(');
            assert(s@.take(i as int) + seq![] =~= s@.take(i as int));
            return s.substring_char(0, i);
        }
        proof {
            lemma_before_paren_step(s@, i as int);
        }
        i = i + 1;
    }
    assert(s@.skip(n as int) =~= Seq::<char>::empty());
    assert(s@.take(n as int) + seq![] =~= s@);
    s
}

/// The element type of a `list(...)` type string: what sits between a
/// leading `list(` and a trailing `)`.
pub open spec fn list_elem(t: Seq<char>) -> Option<Seq<char>> {
    if t.len() >= 6 && t.take(5) == "list("@ && t.last() == ')' {
        Some(t.subrange(5, t.len() - 1))
    } else {
        None
    }
}

/// `ty.strip_prefix("list(")?.strip_suffix(")")`.
pub fn list_element(ty: &str) -> (r: Option<&str>)
    ensures
        match r {
            Some(e) => list_elem(ty@) == Some(e@),
            None => list_elem(ty@) is None,
        },
{
    proof {
        reveal_strlit("list(");
    }
    let n = ty.unicode_len();
    if n < 6 {
        return None;
    }
    let head = ty.substring_char(0, 5);
    if !str_eq(head, "list(") || ty.get_char(n - 1) != ')' {
        return None;
    }
    Some(ty.substring_char(5, n - 1))
}

/// How many `list(...)` wrappers `t` has.
pub open spec fn list_depth(t: Seq<char>) -> nat
    decreases t.len(),
{
    match list_elem(t) {
        Some(e) => 1 + list_depth(e),
        None => 0,
    }
}

/// `t` with every `list(...)` wrapper removed.
pub open spec fn innermost(t: Seq<char>) -> Seq<char>
    decreases t.len(),
{
    match list_elem(t) {
        Some(e) => innermost(e),
        None => t,
    }
}

/// The characters of `s`, in order.
pub fn chars_of(s: &str) -> (r: Vec<char>)
    ensures
        r@ == s@,
{
    broadcast use vstd::string::group_string_axioms;

    let mut it = s.chars();
    let mut out: Vec<char> = Vec::new();
    loop
        invariant
            it.remaining() == s@.skip(out@.len() as int),
            out@ == s@.take(out@.len() as int),
            out@.len() <= s@.len(),
            it.obeys_prophetic_iter_laws(),
        decreases s@.len() - out@.len(),
    {
        match it.next() {
            Some(c) => {
                proof {
                    assert(s@.skip(out@.len() as int).len() > 0);
                    assert(s@.skip(out@.len() as int)[0] == s@[out@.len() as int]);
                    assert(s@.skip(out@.len() as int).drop_first() =~= s@.skip(out@.len() as int + 1));
                    assert(s@.take(out@.len() as int).push(s@[out@.len() as int]) =~= s@.take(out@.len() as int + 1));
                }
                out.push(c);
            },
            None => {
                assert(s@.skip(out@.len() as int).len() == 0);
                assert(out@ =~= s@);
                return out;
            },
        }
    }
}

/// The characters `cs[start..end]` as a string.
pub fn string_of(cs: &[char], start: usize, end: usize) -> (r: String)
    requires
        start <= end <= cs@.len(),
    ensures
        r@ == cs@.subrange(start as int, end as int),
{
    let mut out = String::new();
    let mut i = start;
    while i < end
        invariant
            start <= i <= end <= cs@.len(),
            out@ == cs@.subrange(start as int, i as int),
        decreases end - i,
    {
        string_push(&mut out, cs[i]);
        assert(cs@.subrange(start as int, i + 1) =~= cs@.subrange(start as int, i as int).push(
            cs@[i as int],
        ));
        i = i + 1;
    }
    out
}

} // verus!
