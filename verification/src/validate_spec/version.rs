//! Version numbers: what the spec accepts as one, its numeric core, and the
//! verdicts of S17 (a dataset `version`) and S32 (the spec `$version`) on the
//! text a document gives.

use vstd::prelude::*;

use crate::assert_expr::check::parse_date;
use crate::assert_expr::rules::chrono_date;
use crate::text::{chars_of, string_of};

verus! {

/// The spec version this validator supports, at most.
pub const SPEC_VERSION: &'static str = "0.1.0";

/// Where readers of a document learn about the spec.
pub const LEARN_MORE_URL: &'static str = "https://data-dict.tidyverse.org/";

/// The first spec version there is.
pub const FIRST_SPEC_VERSION: &'static str = "0.1.0";

/// The position of the first `c` in `s` at or after `i`.
pub open spec fn index_from(s: Seq<char>, c: char, i: int) -> Option<int>
    decreases s.len() - i,
{
    if i < 0 || i >= s.len() {
        None
    } else if s[i] == c {
        Some(i)
    } else {
        index_from(s, c, i + 1)
    }
}

/// The position of the first `c` in `s`.
pub open spec fn first_index(s: Seq<char>, c: char) -> Option<int> {
    index_from(s, c, 0)
}

/// A non-empty run of ASCII digits.
pub open spec fn digits(p: Seq<char>) -> bool {
    p.len() > 0 && forall|i: int| 0 <= i < p.len() ==> '0' <= #[trigger] p[i] && p[i] <= '9'
}

/// A character of a pre-release or build identifier.
pub open spec fn ident_char(c: char) -> bool {
    ||| ('0' <= c && c <= '9')
    ||| ('a' <= c && c <= 'z')
    ||| ('A' <= c && c <= 'Z')
    ||| c == '-'
}

/// Dot-separated identifiers, each non-empty and made of `ident_char`s.
pub open spec fn suffix_ok(s: Seq<char>) -> bool {
    &&& s.len() > 0
    &&& s[0] != '.'
    &&& s[s.len() - 1] != '.'
    &&& forall|i: int| 0 <= i < s.len() ==> #[trigger] ident_char(s[i]) || s[i] == '.'
    &&& forall|i: int| 0 <= i < s.len() - 1 ==> !(#[trigger] s[i] == '.' && s[i + 1] == '.')
}

/// `MAJOR.MINOR.PATCH`: three dot-separated runs of digits.
pub open spec fn core_ok(core: Seq<char>) -> bool {
    match first_index(core, '.') {
        None => false,
        Some(i) => {
            let r = core.skip(i + 1);
            match first_index(r, '.') {
                None => false,
                Some(j) => digits(core.take(i)) && digits(r.take(j)) && digits(r.skip(j + 1)),
            }
        },
    }
}

/// The text before the first `c`, or all of it.
pub open spec fn before(s: Seq<char>, c: char) -> Seq<char> {
    match first_index(s, c) {
        Some(i) => s.take(i),
        None => s,
    }
}

/// The text after the first `c`, if there is one.
pub open spec fn after(s: Seq<char>, c: char) -> Option<Seq<char>> {
    match first_index(s, c) {
        Some(i) => Some(s.skip(i + 1)),
        None => None,
    }
}

/// A version number per the spec: `MAJOR.MINOR.PATCH` with an optional
/// pre-release (`-…`) and an optional build (`+…`) suffix.
pub open spec fn version_number(s: Seq<char>) -> bool {
    let rest = before(s, '+');
    let core = before(rest, '-');
    &&& core_ok(core)
    &&& (after(rest, '-') matches Some(pre) ==> suffix_ok(pre))
    &&& (after(s, '+') matches Some(build) ==> suffix_ok(build))
}

/// The number a run of digits spells.
pub open spec fn digits_value(p: Seq<char>) -> nat
    decreases p.len(),
{
    if p.len() == 0 {
        0
    } else {
        digits_value(p.drop_last()) * 10 + ((p.last() as u32) - ('0' as u32)) as nat
    }
}

/// The numeric core of a version number, when it is one and each part fits
/// in a `u64`.
pub open spec fn version_core(s: Seq<char>) -> Option<(u64, u64, u64)> {
    if !version_number(s) {
        None
    } else {
        let core = before(before(s, '+'), '-');
        let i = first_index(core, '.')->0;
        let r = core.skip(i + 1);
        let j = first_index(r, '.')->0;
        let (a, b, c) = (digits_value(core.take(i)), digits_value(r.take(j)), digits_value(r.skip(j + 1)));
        if a <= u64::MAX && b <= u64::MAX && c <= u64::MAX {
            Some((a as u64, b as u64, c as u64))
        } else {
            None
        }
    }
}

/// The position of the first `c` in `cs[from..to]`, counted from `from`.
fn find_char(cs: &Vec<char>, from: usize, to: usize, c: char) -> (r: Option<usize>)
    requires
        from <= to <= cs@.len(),
    ensures
        match r {
            Some(k) => from <= k < to && first_index(cs@.subrange(from as int, to as int), c) == Some(k - from),
            None => first_index(cs@.subrange(from as int, to as int), c) is None,
        },
{
    let ghost sub = cs@.subrange(from as int, to as int);
    let mut k = from;
    while k < to
        invariant
            from <= k <= to <= cs@.len(),
            sub == cs@.subrange(from as int, to as int),
            index_from(sub, c, 0) == index_from(sub, c, k - from),
        decreases to - k,
    {
        assert(sub[k - from] == cs@[k as int]);
        if cs[k] == c {
            return Some(k);
        }
        k = k + 1;
    }
    None
}

/// Whether `cs[from..to]` is a non-empty run of ASCII digits.
fn all_digits(cs: &Vec<char>, from: usize, to: usize) -> (r: bool)
    requires
        from <= to <= cs@.len(),
    ensures
        r == digits(cs@.subrange(from as int, to as int)),
{
    let ghost sub = cs@.subrange(from as int, to as int);
    if from == to {
        return false;
    }
    let mut k = from;
    while k < to
        invariant
            from <= k <= to <= cs@.len(),
            sub == cs@.subrange(from as int, to as int),
            forall|j: int| 0 <= j < k - from ==> '0' <= #[trigger] sub[j] && sub[j] <= '9',
        decreases to - k,
    {
        if !('0' <= cs[k] && cs[k] <= '9') {
            assert(!('0' <= sub[k - from] && sub[k - from] <= '9'));
            return false;
        }
        k = k + 1;
    }
    true
}

/// Whether `cs[from..to]` is dot-separated identifiers, each non-empty and
/// made of ASCII letters, digits and `-`.
fn suffix_fits(cs: &Vec<char>, from: usize, to: usize) -> (r: bool)
    requires
        from <= to <= cs@.len(),
    ensures
        r == suffix_ok(cs@.subrange(from as int, to as int)),
{
    let ghost sub = cs@.subrange(from as int, to as int);
    if from == to || cs[from] == '.' || cs[to - 1] == '.' {
        proof {
            if from < to {
                assert(sub[0] == cs@[from as int]);
                assert(sub[sub.len() - 1] == cs@[to - 1]);
            }
        }
        return false;
    }
    let mut k = from;
    while k < to
        invariant
            from <= k <= to <= cs@.len(),
            from < to,
            sub == cs@.subrange(from as int, to as int),
            forall|j: int| 0 <= j < k - from ==> #[trigger] ident_char(sub[j]) || sub[j] == '.',
            forall|j: int| 0 <= j < k - from && j < sub.len() - 1 ==> !(#[trigger] sub[j] == '.' && sub[j + 1] == '.'),
        decreases to - k,
    {
        let c = cs[k];
        let ok = ('0' <= c && c <= '9') || ('a' <= c && c <= 'z') || ('A' <= c && c <= 'Z') || c == '-' || c == '.';
        if !ok {
            assert(!(ident_char(sub[k - from]) || sub[k - from] == '.'));
            return false;
        }
        if c == '.' && k + 1 < to && cs[k + 1] == '.' {
            assert(sub[k - from] == '.' && sub[k - from + 1] == '.');
            return false;
        }
        k = k + 1;
    }
    proof {
        assert(sub[0] == cs@[from as int]);
        assert(sub[sub.len() - 1] == cs@[to - 1]);
    }
    true
}

/// The dots of `cs[0..core_end]` when it is `MAJOR.MINOR.PATCH`.
#[verifier::spinoff_prover]
#[verifier::rlimit(40)]
fn core_dots(cs: &Vec<char>, core_end: usize) -> (r: Option<(usize, usize)>)
    requires
        core_end <= cs@.len(),
    ensures
        match r {
            Some((d1, d2)) => {
                let core = cs@.subrange(0, core_end as int);
                &&& core_ok(core)
                &&& d1 < d2 < core_end
                &&& first_index(core, '.') == Some(d1 as int)
                &&& first_index(core.skip(d1 + 1), '.') == Some(d2 - d1 - 1)
                &&& core.take(d1 as int) == cs@.subrange(0, d1 as int)
                &&& core.skip(d1 + 1).take(d2 - d1 - 1) == cs@.subrange(d1 + 1, d2 as int)
                &&& core.skip(d1 + 1).skip(d2 - d1) == cs@.subrange(d2 + 1, core_end as int)
            },
            None => !core_ok(cs@.subrange(0, core_end as int)),
        },
{
    let ghost core = cs@.subrange(0, core_end as int);
    let d1 = match find_char(cs, 0, core_end, '.') {
        Some(d) => d,
        None => {
            return None;
        },
    };
    assert(core.skip(d1 + 1) =~= cs@.subrange(d1 + 1, core_end as int));
    let d2 = match find_char(cs, d1 + 1, core_end, '.') {
        Some(d) => d,
        None => {
            return None;
        },
    };
    proof {
        let r = core.skip(d1 + 1);
        assert(core.take(d1 as int) =~= cs@.subrange(0, d1 as int));
        assert(r.take(d2 - d1 - 1) =~= cs@.subrange(d1 + 1, d2 as int));
        assert(r.skip(d2 - d1) =~= cs@.subrange(d2 + 1, core_end as int));
    }
    if all_digits(cs, 0, d1) && all_digits(cs, d1 + 1, d2) && all_digits(cs, d2 + 1, core_end) {
        Some((d1, d2))
    } else {
        None
    }
}

/// Where the text before the first `+` ends, and where the core before the
/// first `-` in it ends.
fn core_bounds(cs: &Vec<char>, s: &str) -> (r: (Option<usize>, Option<usize>))
    requires
        cs@ == s@,
    ensures
        match r.0 {
            Some(p) => p < cs@.len() && after(s@, '+') == Some(cs@.subrange(p + 1, cs@.len() as int))
                && before(s@, '+') == cs@.subrange(0, p as int),
            None => after(s@, '+') is None && before(s@, '+') == cs@,
        },
        ({
            let rest_end = match r.0 {
                Some(p) => p,
                None => cs@.len() as usize,
            };
            let rest = before(s@, '+');
            match r.1 {
                Some(m) => m < rest_end && after(rest, '-') == Some(cs@.subrange(m + 1, rest_end as int))
                    && before(rest, '-') == cs@.subrange(0, m as int),
                None => after(rest, '-') is None && before(rest, '-') == rest,
            }
        }),
{
    let n = cs.len();
    assert(cs@.subrange(0, n as int) =~= s@);
    let plus = find_char(cs, 0, n, '+');
    let rest_end = match plus {
        Some(p) => {
            assert(s@.take(p as int) =~= cs@.subrange(0, p as int));
            assert(s@.skip(p + 1) =~= cs@.subrange(p + 1, n as int));
            p
        },
        None => n,
    };
    let ghost rest = cs@.subrange(0, rest_end as int);
    let minus = find_char(cs, 0, rest_end, '-');
    assert(rest.subrange(0, rest_end as int) =~= rest);
    match minus {
        Some(m) => {
            assert(rest.take(m as int) =~= cs@.subrange(0, m as int));
            assert(rest.skip(m + 1) =~= cs@.subrange(m + 1, rest_end as int));
        },
        None => {},
    }
    (plus, minus)
}

/// Whether `s` is a version number per the spec: three dot-separated numeric
/// components (`MAJOR.MINOR.PATCH`), with an optional pre-release (`-…`)
/// and/or build (`+…`) suffix whose dot-separated identifiers are
/// alphanumeric or `-`.
pub fn is_version_number(s: &str) -> (r: bool)
    ensures
        r == version_number(s@),
{
    let cs = chars_of(s);
    let n = cs.len();
    let (plus, minus) = core_bounds(&cs, s);
    let rest_end = match plus {
        Some(p) => p,
        None => n,
    };
    let core_end = match minus {
        Some(m) => m,
        None => rest_end,
    };
    assert(cs@.subrange(0, n as int) =~= cs@);
    let core_fits = core_dots(&cs, core_end).is_some();
    let pre_fits = match minus {
        Some(m) => suffix_fits(&cs, m + 1, rest_end),
        None => true,
    };
    let build_fits = match plus {
        Some(p) => suffix_fits(&cs, p + 1, n),
        None => true,
    };
    core_fits && pre_fits && build_fits
}

/// The value of the digits `cs[from..to]`, when it fits in a `u64`.
fn digits_u64(cs: &Vec<char>, from: usize, to: usize) -> (r: Option<u64>)
    requires
        from <= to <= cs@.len(),
        digits(cs@.subrange(from as int, to as int)),
    ensures
        match r {
            Some(v) => v == digits_value(cs@.subrange(from as int, to as int)),
            None => digits_value(cs@.subrange(from as int, to as int)) > u64::MAX,
        },
{
    let ghost sub = cs@.subrange(from as int, to as int);
    let mut v: u64 = 0;
    let mut k = from;
    assert(cs@.subrange(from as int, from as int) =~= Seq::<char>::empty());
    while k < to
        invariant
            from <= k <= to <= cs@.len(),
            sub == cs@.subrange(from as int, to as int),
            digits(sub),
            v == digits_value(cs@.subrange(from as int, k as int)),
        decreases to - k,
    {
        let ghost prefix = cs@.subrange(from as int, k + 1);
        assert(prefix.drop_last() =~= cs@.subrange(from as int, k as int));
        assert(prefix.last() == sub[k - from]);
        assert(sub.take(k - from + 1) =~= prefix);
        let d = (cs[k] as u32) - ('0' as u32);
        let dv = d as u64;
        match v.checked_mul(10) {
            Some(t) => match t.checked_add(dv) {
                Some(w) => {
                    v = w;
                },
                None => {
                    proof {
                        lemma_digits_value_grows(sub, k - from + 1);
                    }
                    return None;
                },
            },
            None => {
                proof {
                    lemma_digits_value_grows(sub, k - from + 1);
                }
                return None;
            },
        }
        k = k + 1;
    }
    assert(cs@.subrange(from as int, k as int) =~= sub);
    Some(v)
}

/// A run of digits is worth at least any prefix of it.
proof fn lemma_digits_value_grows(s: Seq<char>, m: int)
    requires
        0 <= m <= s.len(),
        digits(s) || s.len() == 0,
        forall|i: int| 0 <= i < s.len() ==> '0' <= #[trigger] s[i] && s[i] <= '9',
    ensures
        digits_value(s.take(m)) <= digits_value(s),
    decreases s.len(),
{
    if m < s.len() {
        let t = s.drop_last();
        assert(t.take(m) =~= s.take(m));
        assert forall|i: int| 0 <= i < t.len() implies '0' <= #[trigger] t[i] && t[i] <= '9' by {
            assert(t[i] == s[i]);
        }
        lemma_digits_value_grows(t, m);
        assert(s[s.len() - 1] == s.last());
    } else {
        assert(s.take(m) =~= s);
    }
}

/// The numeric `MAJOR.MINOR.PATCH` core of a version number, ignoring any
/// pre-release/build suffix; `None` when `s` is not a version number or a
/// part does not fit in a `u64`.
pub fn parse_version_core(s: &str) -> (r: Option<(u64, u64, u64)>)
    ensures
        r == version_core(s@),
{
    if !is_version_number(s) {
        return None;
    }
    let cs = chars_of(s);
    let n = cs.len();
    let (plus, minus) = core_bounds(&cs, s);
    let rest_end = match plus {
        Some(p) => p,
        None => n,
    };
    let core_end = match minus {
        Some(m) => m,
        None => rest_end,
    };
    assert(cs@.subrange(0, n as int) =~= cs@);
    let (d1, d2) = match core_dots(&cs, core_end) {
        Some(d) => d,
        None => {
            return None;
        },
    };
    let a = digits_u64(&cs, 0, d1);
    let b = digits_u64(&cs, d1 + 1, d2);
    let c = digits_u64(&cs, d2 + 1, core_end);
    match (a, b, c) {
        (Some(a), Some(b), Some(c)) => Some((a, b, c)),
        _ => None,
    }
}

/// The core of the spec version this validator names.
proof fn lemma_spec_version_core()
    ensures
        version_core(SPEC_VERSION@) == Some((0u64, 1u64, 0u64)),
        version_core(FIRST_SPEC_VERSION@) == Some((0u64, 1u64, 0u64)),
{
    reveal_strlit("0.1.0");
    reveal_with_fuel(index_from, 6);
    reveal_with_fuel(digits_value, 2);
    let s = "0.1.0"@;
    assert(s =~= seq!['0', '.', '1', '.', '0']);
    assert(first_index(s, '+') is None);
    assert(first_index(s, '-') is None);
    assert(first_index(s, '.') == Some(1int));
    let r = s.skip(2);
    assert(r =~= seq!['1', '.', '0']);
    assert(first_index(r, '.') == Some(1int));
    let a = s.take(1);
    let b = r.take(1);
    let c = r.skip(2);
    assert(a =~= seq!['0']);
    assert(b =~= seq!['1']);
    assert(c =~= seq!['0']);
    assert(digits(a));
    assert(digits(b));
    assert(digits(c));
    assert(a.drop_last() =~= Seq::<char>::empty());
    assert(b.drop_last() =~= Seq::<char>::empty());
    assert(c.drop_last() =~= Seq::<char>::empty());
    assert(digits_value(a) == 0);
    assert(digits_value(b) == 1);
    assert(digits_value(c) == 0);
    assert(core_ok(s));
    assert(version_number(s));
}

/// The characters of an optional text.
pub open spec fn text_view(t: Option<&str>) -> Option<Seq<char>> {
    match t {
        Some(s) => Some(s@),
        None => None,
    }
}

/// `a` comes after `b` in version order.
pub open spec fn newer(a: (u64, u64, u64), b: (u64, u64, u64)) -> bool {
    a.0 > b.0 || (a.0 == b.0 && (a.1 > b.1 || (a.1 == b.1 && a.2 > b.2)))
}

fn is_newer(a: (u64, u64, u64), b: (u64, u64, u64)) -> (r: bool)
    ensures
        r == newer(a, b),
{
    a.0 > b.0 || (a.0 == b.0 && (a.1 > b.1 || (a.1 == b.1 && a.2 > b.2)))
}

/// The rule S32 states for a `$version` text, and what it finds, when the
/// text breaks it. `supported` and `first` are the cores of `SPEC_VERSION`
/// and `FIRST_SPEC_VERSION`.
pub open spec fn s32_verdict(text: Option<Seq<char>>) -> Option<(Seq<char>, Seq<char>)> {
    let supported = (0u64, 1u64, 0u64);
    let first = (0u64, 1u64, 0u64);
    match text {
        Some(t) => match version_core(t) {
            Some(core) => if newer(core, supported) {
                Some((
                    "This document conforms to a newer version of the data-dict spec than this validator supports."@,
                    "`$version` is `"@ + t + "`, but this version of data-dict supports up to `"@ + SPEC_VERSION@ + "`"@,
                ))
            } else if newer(first, core) {
                Some((
                    "Spec version numbering starts at `"@ + FIRST_SPEC_VERSION@ + "`."@,
                    "`$version` is `"@ + t + "`, which is not a valid spec version"@,
                ))
            } else {
                None
            },
            None => Some((
                "A `$version` must have three dot-separated numeric components, with an optional pre-release/build suffix."@,
                "`"@ + t + "` is not a valid version number"@,
            )),
        },
        None => Some((
            "A `$version` must have three dot-separated numeric components, with an optional pre-release/build suffix."@,
            "is not a valid version number"@,
        )),
    }
}

/// S32's verdict on a document's `$version`, given as text (`None` when its
/// value is not a string): the rule it breaks and what was found, or `None`
/// when this validator supports it.
pub fn check_spec_version(text: Option<&str>) -> (r: Option<(String, String)>)
    ensures
        match r {
            Some((e, f)) => s32_verdict(text_view(text)) == Some((e@, f@)),
            None => s32_verdict(text_view(text)) is None,
        },
{
    let supported = parse_version_core(SPEC_VERSION);
    let first = parse_version_core(FIRST_SPEC_VERSION);
    proof {
        lemma_spec_version_core();
    }
    let supported = supported.unwrap();
    let first = first.unwrap();
    let expected_form = "A `$version` must have three dot-separated numeric components, with an optional pre-release/build suffix.";
    match text {
        Some(t) => match parse_version_core(t) {
            Some(core) => {
                if is_newer(core, supported) {
                    let mut found = String::from_str("`$version` is `");
                    found.append(t);
                    found.append("`, but this version of data-dict supports up to `");
                    found.append(SPEC_VERSION);
                    found.append("`");
                    Some((
                        String::from_str(
                            "This document conforms to a newer version of the data-dict spec than this validator supports.",
                        ),
                        found,
                    ))
                } else if is_newer(first, core) {
                    let mut expected = String::from_str("Spec version numbering starts at `");
                    expected.append(FIRST_SPEC_VERSION);
                    expected.append("`.");
                    let mut found = String::from_str("`$version` is `");
                    found.append(t);
                    found.append("`, which is not a valid spec version");
                    Some((expected, found))
                } else {
                    None
                }
            },
            None => {
                let mut found = String::from_str("`");
                found.append(t);
                found.append("` is not a valid version number");
                Some((String::from_str(expected_form), found))
            },
        },
        None => Some((String::from_str(expected_form), String::from_str("is not a valid version number"))),
    }
}

/// The rule S17 states for the one field of a dataset `version` and what it
/// finds, when the field breaks it: a `number` that is not a version number,
/// or a `date` that chrono does not read as a date. `text` is `None` when
/// the value is not a string.
pub open spec fn s17_verdict(key: Seq<char>, text: Option<Seq<char>>) -> Option<(Seq<char>, Seq<char>)> {
    if key == "number"@ && !(text matches Some(s) && version_number(s)) {
        Some((
            "A `version` `number` must have three dot-separated numeric components, with an optional pre-release/build suffix."@,
            match text {
                Some(s) => "`"@ + s + "` is not a valid version number"@,
                None => "is not a valid version number"@,
            },
        ))
    } else if key == "date"@ && !(text matches Some(s) && chrono_date(s) is Some) {
        Some((
            "A `version` `date` must be an ISO 8601 date (YYYY-MM-DD)."@,
            match text {
                Some(s) => "`"@ + s + "` is not an ISO 8601 date"@,
                None => "is not an ISO 8601 date"@,
            },
        ))
    } else {
        None
    }
}

/// S17's verdict on the one field of a dataset `version`: the rule it breaks
/// and what was found, or `None` when it is sound.
pub fn check_version_field(key: &str, text: Option<&str>) -> (r: Option<(String, String)>)
    ensures
        match r {
            Some((e, f)) => s17_verdict(key@, text_view(text)) == Some((e@, f@)),
            None => s17_verdict(key@, text_view(text)) is None,
        },
{
    proof {
        reveal_strlit("number");
        reveal_strlit("date");
    }
    if crate::text::str_eq(key, "number") {
        let ok = match text {
            Some(s) => is_version_number(s),
            None => false,
        };
        if ok {
            assert(text_view(text) matches Some(v) && version_number(v));
            proof {
                reveal_strlit("number");
                reveal_strlit("date");
                assert("number"@.len() == 6);
                assert("date"@.len() == 4);
            }
            return None;
        }
        let found = match text {
            Some(s) => {
                let mut f = String::from_str("`");
                f.append(s);
                f.append("` is not a valid version number");
                f
            },
            None => String::from_str("is not a valid version number"),
        };
        return Some((
            String::from_str(
                "A `version` `number` must have three dot-separated numeric components, with an optional pre-release/build suffix.",
            ),
            found,
        ));
    }
    if crate::text::str_eq(key, "date") {
        let ok = match text {
            Some(s) => parse_date(s).is_some(),
            None => false,
        };
        if ok {
            return None;
        }
        let found = match text {
            Some(s) => {
                let mut f = String::from_str("`");
                f.append(s);
                f.append("` is not an ISO 8601 date");
                f
            },
            None => String::from_str("is not an ISO 8601 date"),
        };
        return Some((String::from_str("A `version` `date` must be an ISO 8601 date (YYYY-MM-DD)."), found));
    }
    None
}

} // verus!
