//! What a validation run reports beyond its problems: each step's verdict, the
//! catalogue of checks a code can name, and what the run itself was.

use vstd::prelude::*;

use crate::problem::Severity;
use crate::text::{chars_of, string_of};
use crate::Level;

pub mod steps;

verus! {

/// A step's verdict. `Unevaluated` is the initial state: a step that reached no
/// verdict has not passed, and a consumer must not count it as one.
#[derive(Debug, Clone, Copy, PartialEq, Eq, Structural)]
pub enum StepOutcome {
    Pass,
    Fail,
    Unevaluated,
}

/// What one check is called and how loudly it speaks, so a consumer can name a
/// code it only ever sees as `D04`. `description` is the full rule as the
/// catalogue's description column states it, markdown included.
#[derive(Debug, Clone, PartialEq, Eq)]
pub struct Check {
    pub name: String,
    pub severity: Severity,
    pub description: String,
}

/// A [`Check`] as plain text.
pub struct CheckSpec {
    pub name: Seq<char>,
    pub severity: Severity,
    pub description: Seq<char>,
}

impl Check {
    pub open spec fn view(self) -> CheckSpec {
        CheckSpec { name: self.name@, severity: self.severity, description: self.description@ }
    }
}

// --- The catalogue as text -------------------------------------------------

/// `char::is_whitespace`: the Unicode `White_Space` characters.
pub open spec fn is_space(c: char) -> bool {
    let u = c as u32;
    (0x9 <= u && u <= 0xD) || u == 0x20 || u == 0x85 || u == 0xA0 || u == 0x1680 || (0x2000 <= u
        && u <= 0x200A) || u == 0x2028 || u == 0x2029 || u == 0x202F || u == 0x205F || u == 0x3000
}

/// `t` without its leading whitespace.
pub open spec fn trim_start(t: Seq<char>) -> Seq<char>
    decreases t.len(),
{
    if t.len() > 0 && is_space(t[0]) {
        trim_start(t.drop_first())
    } else {
        t
    }
}

/// `t` without its trailing whitespace.
pub open spec fn trim_end(t: Seq<char>) -> Seq<char>
    decreases t.len(),
{
    if t.len() > 0 && is_space(t.last()) {
        trim_end(t.drop_last())
    } else {
        t
    }
}

/// `str::trim`.
pub open spec fn trim(t: Seq<char>) -> Seq<char> {
    trim_end(trim_start(t))
}

/// The first `c` in `t` at or after `from`; `t.len()` when there is none.
pub open spec fn index_from(t: Seq<char>, c: char, from: int) -> int
    decreases t.len() - from,
{
    if from < 0 || from >= t.len() {
        t.len() as int
    } else if t[from] == c {
        from
    } else {
        index_from(t, c, from + 1)
    }
}

/// The first line of `t` and what follows its line ending, as `str::lines`
/// splits: at `\n`, dropping a `\r` just before it.
pub open spec fn first_line(t: Seq<char>) -> (Seq<char>, Seq<char>) {
    let i = index_from(t, '\n', 0);
    if i < t.len() {
        let line = if i > 0 && t[i - 1] == '\r' {
            t.take(i - 1)
        } else {
            t.take(i)
        };
        (line, t.skip(i + 1))
    } else {
        (t, Seq::empty())
    }
}

/// Whether the cell separator ` | ` starts at `i`.
pub open spec fn sep_at(t: Seq<char>, i: int) -> bool {
    0 <= i && i + 3 <= t.len() && t[i] == ' ' && t[i + 1] == '|' && t[i + 2] == ' '
}

/// Where the first separator at or after `from` starts; `-1` when none does.
pub open spec fn find_sep(t: Seq<char>, from: int) -> int
    decreases t.len() - from,
{
    if from < 0 || from + 3 > t.len() {
        -1
    } else if sep_at(t, from) {
        from
    } else {
        find_sep(t, from + 1)
    }
}

/// The first cell of `t` and, when a separator ends it, the text after that
/// separator (`str::split(" | ")`, one step).
pub open spec fn split_cell(t: Seq<char>) -> (Seq<char>, Option<Seq<char>>) {
    let i = find_sep(t, 0);
    if i < 0 {
        (t, None)
    } else {
        (t.take(i), Some(t.skip(i + 3)))
    }
}

/// A check code: `S`, `M` or `D`, then two ASCII digits.
pub open spec fn is_check_code_spec(code: Seq<char>) -> bool {
    &&& code.len() == 3
    &&& (code[0] == 'S' || code[0] == 'M' || code[0] == 'D')
    &&& '0' <= code[1] <= '9'
    &&& '0' <= code[2] <= '9'
}

/// The severity a catalogue cell names: `E` or `W`.
pub open spec fn severity_cell(t: Seq<char>) -> Option<Severity> {
    if t == seq!['E'] {
        Some(Severity::Error)
    } else if t == seq!['W'] {
        Some(Severity::Warning)
    } else {
        None
    }
}

/// The code and check a catalogue row states: a line `| code | name | E-or-W |
/// description ...` whose first cell is a check code.
pub open spec fn catalogue_row(line: Seq<char>) -> Option<(Seq<char>, CheckSpec)> {
    if !(line.len() >= 2 && line[0] == '|' && line[1] == ' ') {
        None
    } else {
        let (c1, r1) = split_cell(line.skip(2));
        match r1 {
            None => None,
            Some(r1) => {
                let (c2, r2) = split_cell(r1);
                match r2 {
                    None => None,
                    Some(r2) => {
                        let (c3, r3) = split_cell(r2);
                        match r3 {
                            None => None,
                            Some(r3) => {
                                let (c4, _) = split_cell(r3);
                                match severity_cell(trim(c3)) {
                                    None => None,
                                    Some(severity) => if is_check_code_spec(trim(c1)) {
                                        Some(
                                            (
                                                trim(c1),
                                                CheckSpec {
                                                    name: trim(c2),
                                                    severity,
                                                    description: trim(c4),
                                                },
                                            ),
                                        )
                                    } else {
                                        None
                                    },
                                }
                            },
                        }
                    },
                }
            },
        }
    }
}

/// The checks the lines of `t` state, added to `m` in order; a later row for
/// a code replaces an earlier one.
pub open spec fn catalogue_from(t: Seq<char>, m: Map<Seq<char>, CheckSpec>) -> Map<
    Seq<char>,
    CheckSpec,
>
    decreases t.len(),
{
    if t.len() == 0 {
        m
    } else {
        let (line, rest) = first_line(t);
        let m2 = match catalogue_row(line) {
            Some((code, check)) => m.insert(code, check),
            None => m,
        };
        if rest.len() < t.len() {
            catalogue_from(rest, m2)
        } else {
            m2
        }
    }
}

/// Every check a catalogue text states, by code.
pub open spec fn catalogue(t: Seq<char>) -> Map<Seq<char>, CheckSpec> {
    catalogue_from(t, Map::empty())
}

proof fn lemma_row_code(line: Seq<char>)
    ensures
        catalogue_row(line) matches Some((code, _)) ==> is_check_code_spec(code),
{
}

proof fn lemma_catalogue_from_codes(t: Seq<char>, m: Map<Seq<char>, CheckSpec>)
    requires
        forall|k: Seq<char>| m.dom().contains(k) ==> is_check_code_spec(k),
    ensures
        forall|k: Seq<char>| catalogue_from(t, m).dom().contains(k) ==> is_check_code_spec(k),
    decreases t.len(),
{
    if t.len() > 0 {
        let (line, rest) = first_line(t);
        lemma_row_code(line);
        let m2 = match catalogue_row(line) {
            Some((code, check)) => m.insert(code, check),
            None => m,
        };
        assert forall|k: Seq<char>| m2.dom().contains(k) implies is_check_code_spec(k) by {}
        if rest.len() < t.len() {
            lemma_catalogue_from_codes(rest, m2);
        }
    }
}

/// Every code a catalogue lists is a check code: `S`, `M` or `D` and two
/// digits.
pub proof fn law_catalogue_codes_are_check_codes(t: Seq<char>)
    ensures
        forall|k: Seq<char>| catalogue(t).dom().contains(k) ==> is_check_code_spec(k),
{
    lemma_catalogue_from_codes(t, Map::empty());
}

/// `a` sorts before `b`, character by character.
pub open spec fn code_before(a: Seq<char>, b: Seq<char>) -> bool
    decreases a.len(),
{
    if a.len() == 0 {
        b.len() > 0
    } else if b.len() == 0 {
        false
    } else if a[0] != b[0] {
        a[0] < b[0]
    } else {
        code_before(a.drop_first(), b.drop_first())
    }
}

/// The entries of a catalogue listing, by code.
pub open spec fn entries_map(v: Seq<(String, Check)>) -> Map<Seq<char>, CheckSpec> {
    Map::new(
        |code: Seq<char>| exists|i: int| 0 <= i < v.len() && (#[trigger] v[i]).0@ == code,
        |code: Seq<char>| v[choose|i: int| 0 <= i < v.len() && (#[trigger] v[i]).0@ == code].1.view(),
    )
}

/// A listing in strictly increasing code order, so no code occurs twice.
pub open spec fn sorted_by_code(v: Seq<(String, Check)>) -> bool {
    forall|i: int, j: int| 0 <= i < j < v.len() ==> code_before(#[trigger] v[i].0@, #[trigger] v[j].0@)
}

// --- Reading the catalogue -------------------------------------------------

/// `c.is_whitespace()`.
fn is_space_char(c: char) -> (r: bool)
    ensures
        r == is_space(c),
{
    let u = c as u32;
    (0x9 <= u && u <= 0xD) || u == 0x20 || u == 0x85 || u == 0xA0 || u == 0x1680 || (0x2000 <= u
        && u <= 0x200A) || u == 0x2028 || u == 0x2029 || u == 0x202F || u == 0x205F || u == 0x3000
}

proof fn lemma_trim_start_skip(t: Seq<char>, i: int)
    requires
        0 <= i <= t.len(),
        forall|k: int| 0 <= k < i ==> is_space(#[trigger] t[k]),
    ensures
        trim_start(t) == trim_start(t.skip(i)),
    decreases i,
{
    if i > 0 {
        assert(t.drop_first().skip(i - 1) =~= t.skip(i));
        lemma_trim_start_skip(t.drop_first(), i - 1);
    } else {
        assert(t.skip(0) =~= t);
    }
}

proof fn lemma_trim_end_take(t: Seq<char>, j: int)
    requires
        0 <= j <= t.len(),
        forall|k: int| j <= k < t.len() ==> is_space(#[trigger] t[k]),
    ensures
        trim_end(t) == trim_end(t.take(j)),
    decreases t.len() - j,
{
    if j < t.len() {
        assert(t.drop_last().take(j) =~= t.take(j));
        lemma_trim_end_take(t.drop_last(), j);
    } else {
        assert(t.take(j) =~= t);
    }
}

/// `cs[lo..hi].trim()`, as bounds into `cs`.
fn trim_bounds(cs: &Vec<char>, lo: usize, hi: usize) -> (r: (usize, usize))
    requires
        lo <= hi <= cs@.len(),
    ensures
        lo <= r.0 <= r.1 <= hi,
        cs@.subrange(r.0 as int, r.1 as int) == trim(cs@.subrange(lo as int, hi as int)),
{
    let mut a = lo;
    while a < hi && is_space_char(cs[a])
        invariant
            lo <= a <= hi <= cs@.len(),
            forall|k: int| lo <= k < a ==> is_space(#[trigger] cs@[k]),
        decreases hi - a,
    {
        a = a + 1;
    }
    let ghost t = cs@.subrange(lo as int, hi as int);
    proof {
        assert forall|k: int| 0 <= k < a - lo implies is_space(#[trigger] t[k]) by {
            assert(t[k] == cs@[lo + k]);
        }
        lemma_trim_start_skip(t, a - lo);
        assert(t.skip(a - lo) =~= cs@.subrange(a as int, hi as int));
        if a < hi {
            assert(!is_space(cs@.subrange(a as int, hi as int)[0]));
        } else {
            assert(cs@.subrange(a as int, hi as int).len() == 0);
        }
    }
    let mut b = hi;
    while b > a && is_space_char(cs[b - 1])
        invariant
            lo <= a <= b <= hi <= cs@.len(),
            forall|k: int| b <= k < hi ==> is_space(#[trigger] cs@[k]),
        decreases b - a,
    {
        b = b - 1;
    }
    proof {
        let u = cs@.subrange(a as int, hi as int);
        assert(trim_start(t) == u);
        assert forall|k: int| b - a <= k < u.len() implies is_space(#[trigger] u[k]) by {
            assert(u[k] == cs@[a + k]);
        }
        lemma_trim_end_take(u, b - a);
        assert(u.take(b - a) =~= cs@.subrange(a as int, b as int));
        if b > a {
            assert(cs@.subrange(a as int, b as int).last() == cs@[b - 1]);
        }
    }
    (a, b)
}

/// Where the first separator in `cs[from..hi]` starts, or `hi` when none does.
fn find_sep_in(cs: &Vec<char>, from: usize, hi: usize) -> (r: usize)
    requires
        from <= hi <= cs@.len(),
    ensures
        from <= r <= hi,
        r < hi ==> r + 3 <= hi,
        find_sep(cs@.subrange(from as int, hi as int), 0) == if r < hi {
            r - from
        } else {
            -1
        },
{
    let ghost t = cs@.subrange(from as int, hi as int);
    let mut i = from;
    while hi - i >= 3
        invariant
            from <= i <= hi <= cs@.len(),
            t == cs@.subrange(from as int, hi as int),
            find_sep(t, 0) == find_sep(t, i - from),
        decreases hi - i,
    {
        if cs[i] == ' ' && cs[i + 1] == '|' && cs[i + 2] == ' ' {
            assert(sep_at(t, i - from));
            return i;
        }
        assert(!sep_at(t, i - from));
        i = i + 1;
    }
    hi
}

/// `code` is a check code: a level letter and two digits.
fn is_check_code(cs: &Vec<char>, lo: usize, hi: usize) -> (r: bool)
    requires
        lo <= hi <= cs@.len(),
    ensures
        r == is_check_code_spec(cs@.subrange(lo as int, hi as int)),
{
    if hi - lo != 3 {
        return false;
    }
    let a = cs[lo];
    let b = cs[lo + 1];
    let c = cs[lo + 2];
    (a == 'S' || a == 'M' || a == 'D') && '0' <= b && b <= '9' && '0' <= c && c <= '9'
}

/// `split_cell(cs[from..hi])` as a bound: the cell is `cs[from..r]`, and when
/// `r < hi` a separator follows it and the rest starts at `r + 3`.
fn split_cell_at(cs: &Vec<char>, from: usize, hi: usize) -> (r: usize)
    requires
        from <= hi <= cs@.len(),
    ensures
        from <= r <= hi,
        r < hi ==> r + 3 <= hi,
        split_cell(cs@.subrange(from as int, hi as int)).0 == cs@.subrange(from as int, r as int),
        split_cell(cs@.subrange(from as int, hi as int)).1 == if r < hi {
            Some(cs@.subrange(r + 3, hi as int))
        } else {
            None::<Seq<char>>
        },
{
    let s = find_sep_in(cs, from, hi);
    proof {
        let t = cs@.subrange(from as int, hi as int);
        if s < hi {
            assert(t.take(s - from) =~= cs@.subrange(from as int, s as int));
            assert(t.skip(s - from + 3) =~= cs@.subrange(s + 3, hi as int));
        } else {
            assert(t =~= cs@.subrange(from as int, s as int));
        }
    }
    s
}

/// The severity the cell `cs[lo..hi]` names, once trimmed.
fn severity_at(cs: &Vec<char>, lo: usize, hi: usize) -> (r: Option<Severity>)
    requires
        lo <= hi <= cs@.len(),
    ensures
        r == severity_cell(trim(cs@.subrange(lo as int, hi as int))),
{
    let (a, b) = trim_bounds(cs, lo, hi);
    let ghost t = cs@.subrange(a as int, b as int);
    if b - a == 1 && cs[a] == 'E' {
        assert(t =~= seq!['E']);
        Some(Severity::Error)
    } else if b - a == 1 && cs[a] == 'W' {
        assert(t =~= seq!['W']);
        assert(t[0] != seq!['E'][0]);
        Some(Severity::Warning)
    } else {
        proof {
            if t == seq!['E'] {
                assert(seq!['E'].len() == 1 && seq!['E'][0] == 'E');
                assert(t[0] == cs@[a as int]);
            }
            if t == seq!['W'] {
                assert(seq!['W'].len() == 1 && seq!['W'][0] == 'W');
                assert(t[0] == cs@[a as int]);
            }
        }
        None
    }
}

/// The check a catalogue row `cs[lo..hi]` states, if it is one.
fn read_row(cs: &Vec<char>, lo: usize, hi: usize) -> (r: Option<(String, Check)>)
    requires
        lo <= hi <= cs@.len(),
    ensures
        match catalogue_row(cs@.subrange(lo as int, hi as int)) {
            None => r is None,
            Some((code, check)) => r matches Some(e) && e.0@ == code && e.1.view() == check,
        },
{
    let ghost line = cs@.subrange(lo as int, hi as int);
    if !(hi - lo >= 2 && cs[lo] == '|' && cs[lo + 1] == ' ') {
        return None;
    }
    let p0 = lo + 2;
    assert(line.skip(2) =~= cs@.subrange(p0 as int, hi as int));
    let s1 = split_cell_at(cs, p0, hi);
    if s1 == hi {
        return None;
    }
    let s2 = split_cell_at(cs, s1 + 3, hi);
    if s2 == hi {
        return None;
    }
    let s3 = split_cell_at(cs, s2 + 3, hi);
    if s3 == hi {
        return None;
    }
    let s4 = split_cell_at(cs, s3 + 3, hi);
    let severity = match severity_at(cs, s2 + 3, s3) {
        Some(sev) => sev,
        None => {
            return None;
        },
    };
    let (a1, b1) = trim_bounds(cs, p0, s1);
    if !is_check_code(cs, a1, b1) {
        return None;
    }
    let (a2, b2) = trim_bounds(cs, s1 + 3, s2);
    let (a4, b4) = trim_bounds(cs, s3 + 3, s4);
    let code = string_of(cs.as_slice(), a1, b1);
    let name = string_of(cs.as_slice(), a2, b2);
    let description = string_of(cs.as_slice(), a4, b4);
    Some((code, Check { name, severity, description }))
}

proof fn lemma_code_before_irreflexive(a: Seq<char>)
    ensures
        !code_before(a, a),
    decreases a.len(),
{
    if a.len() > 0 {
        lemma_code_before_irreflexive(a.drop_first());
    }
}

proof fn lemma_code_before_total(a: Seq<char>, b: Seq<char>)
    ensures
        a != b ==> code_before(a, b) || code_before(b, a),
        !(code_before(a, b) && code_before(b, a)),
    decreases a.len(),
{
    if a.len() > 0 && b.len() > 0 && a[0] == b[0] {
        lemma_code_before_total(a.drop_first(), b.drop_first());
        if a != b {
            assert(a.drop_first() != b.drop_first()) by {
                if a.drop_first() == b.drop_first() {
                    assert(a =~= seq![a[0]] + a.drop_first());
                    assert(b =~= seq![b[0]] + b.drop_first());
                }
            }
        }
    } else if a.len() == 0 && b.len() == 0 {
        assert(a =~= b);
    }
}

proof fn lemma_code_before_trans(a: Seq<char>, b: Seq<char>, c: Seq<char>)
    requires
        code_before(a, b),
        code_before(b, c),
    ensures
        code_before(a, c),
    decreases a.len(),
{
    if a.len() > 0 && b.len() > 0 && c.len() > 0 && a[0] == b[0] && b[0] == c[0] {
        lemma_code_before_trans(a.drop_first(), b.drop_first(), c.drop_first());
    }
}

/// Whether the codes `a` and `b` are the same, and whether `a` sorts first.
fn compare_codes(a: &String, b: &String) -> (r: (bool, bool))
    ensures
        r.0 == (a@ == b@),
        r.1 == code_before(a@, b@),
{
    let x = chars_of(a.as_str());
    let y = chars_of(b.as_str());
    let mut i: usize = 0;
    assert(x@.skip(0) =~= x@ && y@.skip(0) =~= y@);
    assert(x@.take(0) =~= y@.take(0));
    while i < x.len() && i < y.len() && x[i] == y[i]
        invariant
            x@ == a@,
            y@ == b@,
            i <= x@.len(),
            i <= y@.len(),
            x@.take(i as int) == y@.take(i as int),
            code_before(a@, b@) == code_before(x@.skip(i as int), y@.skip(i as int)),
        decreases x@.len() - i,
    {
        proof {
            assert(x@.skip(i as int).drop_first() =~= x@.skip(i + 1));
            assert(y@.skip(i as int).drop_first() =~= y@.skip(i + 1));
            assert(x@.take(i + 1) =~= x@.take(i as int).push(x@[i as int]));
            assert(y@.take(i + 1) =~= y@.take(i as int).push(y@[i as int]));
        }
        i = i + 1;
    }
    let same = i == x.len() && i == y.len();
    proof {
        if same {
            assert(x@ =~= x@.take(i as int));
            assert(y@ =~= y@.take(i as int));
        } else if i < x@.len() && i < y@.len() {
            assert(x@[i as int] != y@[i as int]);
        } else if i == x@.len() {
            assert(y@.len() > i);
        } else {
            assert(x@.len() > i);
        }
    }
    let before = if i < x.len() && i < y.len() {
        x[i] < y[i]
    } else {
        i == x.len() && i < y.len()
    };
    proof {
        if !same && i < x@.len() && i < y@.len() {
            assert(x@.skip(i as int)[0] == x@[i as int]);
            assert(y@.skip(i as int)[0] == y@[i as int]);
        }
    }
    (same, before)
}

/// Add `entry` to a listing kept in code order, replacing the check of a code
/// already listed.
fn insert_entry(v: &mut Vec<(String, Check)>, entry: (String, Check))
    requires
        sorted_by_code(old(v)@),
    ensures
        sorted_by_code(final(v)@),
        entries_map(final(v)@) == entries_map(old(v)@).insert(entry.0@, entry.1.view()),
{
    let mut i: usize = 0;
    while i < v.len()
        invariant
            v@ == old(v)@,
            sorted_by_code(v@),
            i <= v@.len(),
            forall|k: int| 0 <= k < i ==> code_before(#[trigger] v@[k].0@, entry.0@),
        ensures
            v@ == old(v)@,
            sorted_by_code(v@),
            i <= v@.len(),
            forall|k: int| 0 <= k < i ==> code_before(#[trigger] v@[k].0@, entry.0@),
            i < v@.len() ==> code_before(entry.0@, v@[i as int].0@),
        decreases v@.len() - i,
    {
        let (same, before) = compare_codes(&v[i].0, &entry.0);
        if same {
            let ghost old_v = v@;
            v.set(i, entry);
            proof {
                assert forall|a: int, b: int| 0 <= a < b < v@.len() implies code_before(
                    #[trigger] v@[a].0@,
                    #[trigger] v@[b].0@,
                ) by {
                    assert(old_v[a].0@ == v@[a].0@);
                    assert(old_v[b].0@ == v@[b].0@);
                }
                lemma_entries_set(old_v, i as int, v@);
            }
            return;
        }
        if !before {
            proof {
                lemma_code_before_total(v@[i as int].0@, entry.0@);
            }
            break;
        }
        i = i + 1;
    }
    let ghost old_v = v@;
    v.insert(i, entry);
    proof {
        lemma_entries_insert(old_v, i as int, v@);
    }
}

proof fn lemma_entries_set(old_v: Seq<(String, Check)>, i: int, v: Seq<(String, Check)>)
    requires
        sorted_by_code(old_v),
        sorted_by_code(v),
        0 <= i < old_v.len(),
        v == old_v.update(i, v[i]),
        v[i].0@ == old_v[i].0@,
    ensures
        entries_map(v) == entries_map(old_v).insert(v[i].0@, v[i].1.view()),
{
    let m = entries_map(v);
    let n = entries_map(old_v).insert(v[i].0@, v[i].1.view());
    assert forall|code: Seq<char>| #[trigger] m.contains_key(code) == n.contains_key(code) by {
        if exists|k: int| 0 <= k < v.len() && (#[trigger] v[k]).0@ == code {
            let k = choose|k: int| 0 <= k < v.len() && (#[trigger] v[k]).0@ == code;
            if k != i {
                assert(old_v[k] == v[k]);
            }
        }
        if exists|k: int| 0 <= k < old_v.len() && (#[trigger] old_v[k]).0@ == code {
            let k = choose|k: int| 0 <= k < old_v.len() && (#[trigger] old_v[k]).0@ == code;
            if k != i {
                assert(old_v[k] == v[k]);
            }
        }
    }
    assert(m.dom() =~= n.dom());
    assert forall|code: Seq<char>| #[trigger] m.contains_key(code) implies m[code] == n[code] by {
        let k = choose|k: int| 0 <= k < v.len() && (#[trigger] v[k]).0@ == code;
        lemma_unique_code(v, k, i);
        if code == v[i].0@ {
            assert(k == i);
        } else {
            assert(k != i);
            let j = choose|j: int| 0 <= j < old_v.len() && (#[trigger] old_v[j]).0@ == code;
            lemma_unique_code(old_v, j, k);
            assert(old_v[k] == v[k]);
        }
    }
    assert(m =~= n);
}

proof fn lemma_unique_code(v: Seq<(String, Check)>, a: int, b: int)
    requires
        sorted_by_code(v),
        0 <= a < v.len(),
        0 <= b < v.len(),
    ensures
        v[a].0@ == v[b].0@ ==> a == b,
{
    if a < b {
        assert(code_before(v[a].0@, v[b].0@));
        lemma_code_before_total(v[a].0@, v[b].0@);
    } else if b < a {
        assert(code_before(v[b].0@, v[a].0@));
        lemma_code_before_total(v[b].0@, v[a].0@);
    }
}

proof fn lemma_entries_insert(old_v: Seq<(String, Check)>, i: int, v: Seq<(String, Check)>)
    requires
        sorted_by_code(old_v),
        0 <= i <= old_v.len(),
        v == old_v.insert(i, v[i]),
        forall|k: int| 0 <= k < i ==> code_before(#[trigger] old_v[k].0@, v[i].0@),
        i < old_v.len() ==> code_before(v[i].0@, old_v[i].0@),
    ensures
        sorted_by_code(v),
        entries_map(v) == entries_map(old_v).insert(v[i].0@, v[i].1.view()),
{
    assert forall|a: int, b: int| 0 <= a < b < v.len() implies code_before(
        #[trigger] v[a].0@,
        #[trigger] v[b].0@,
    ) by {
        if a < i && b == i {
        } else if a < i && b > i {
            assert(v[b] == old_v[b - 1]);
            if b - 1 > i {
                assert(code_before(old_v[i].0@, old_v[b - 1].0@));
                lemma_code_before_trans(v[i].0@, old_v[i].0@, old_v[b - 1].0@);
            }
            lemma_code_before_trans(v[a].0@, v[i].0@, v[b].0@);
        } else if a == i {
            assert(v[b] == old_v[b - 1]);
            if b - 1 > i {
                assert(code_before(old_v[i].0@, old_v[b - 1].0@));
                lemma_code_before_trans(v[i].0@, old_v[i].0@, old_v[b - 1].0@);
            }
        } else if a > i {
            assert(v[a] == old_v[a - 1]);
            assert(v[b] == old_v[b - 1]);
        } else {
            assert(v[a] == old_v[a]);
            assert(v[b] == old_v[b - 1] || v[b] == old_v[b]);
            if b < i {
                assert(v[b] == old_v[b]);
            }
        }
    }
    let m = entries_map(v);
    let n = entries_map(old_v).insert(v[i].0@, v[i].1.view());
    assert forall|code: Seq<char>| #[trigger] m.contains_key(code) == n.contains_key(code) by {
        if exists|k: int| 0 <= k < v.len() && (#[trigger] v[k]).0@ == code {
            let k = choose|k: int| 0 <= k < v.len() && (#[trigger] v[k]).0@ == code;
            if k < i {
                assert(old_v[k] == v[k]);
            } else if k > i {
                assert(old_v[k - 1] == v[k]);
            }
        }
        if exists|k: int| 0 <= k < old_v.len() && (#[trigger] old_v[k]).0@ == code {
            let k = choose|k: int| 0 <= k < old_v.len() && (#[trigger] old_v[k]).0@ == code;
            if k < i {
                assert(old_v[k] == v[k]);
            } else {
                assert(old_v[k] == v[k + 1]);
            }
        }
    }
    assert(m.dom() =~= n.dom());
    assert forall|code: Seq<char>| #[trigger] m.contains_key(code) implies m[code] == n[code] by {
        let k = choose|k: int| 0 <= k < v.len() && (#[trigger] v[k]).0@ == code;
        lemma_unique_code(v, k, i);
        if code != v[i].0@ {
            let j = choose|j: int| 0 <= j < old_v.len() && (#[trigger] old_v[j]).0@ == code;
            if j < i {
                assert(v[j] == old_v[j]);
                lemma_unique_code(v, j, k);
            } else {
                assert(v[j + 1] == old_v[j]);
                lemma_unique_code(v, j + 1, k);
            }
        }
    }
    assert(m =~= n);
}

/// Every check a catalogue names, in code order: each table row whose first
/// cell is a check code (`S`, `M` or `D` and two digits) and whose third is
/// `E` or `W`. A later row for the same code replaces an earlier one.
pub fn checks(catalogue_text: &str) -> (r: Vec<(String, Check)>)
    ensures
        sorted_by_code(r@),
        entries_map(r@) == catalogue(catalogue_text@),
{
    let cs = chars_of(catalogue_text);
    let n = cs.len();
    let mut out: Vec<(String, Check)> = Vec::new();
    let mut pos: usize = 0;
    proof {
        assert(cs@.skip(0) =~= cs@);
        assert(entries_map(out@) =~= Map::<Seq<char>, CheckSpec>::empty());
    }
    while pos < n
        invariant
            n == cs@.len(),
            cs@ == catalogue_text@,
            pos <= n,
            sorted_by_code(out@),
            catalogue(catalogue_text@) == catalogue_from(cs@.skip(pos as int), entries_map(out@)),
        decreases n - pos,
    {
        let ghost t = cs@.skip(pos as int);
        let mut nl = pos;
        while nl < n && cs[nl] != '\n'
            invariant
                pos <= nl <= n,
                n == cs@.len(),
                t == cs@.skip(pos as int),
                index_from(t, '\n', 0) == index_from(t, '\n', nl - pos),
            decreases n - nl,
        {
            nl = nl + 1;
        }
        let end = if nl < n && nl > pos && cs[nl - 1] == '\r' {
            nl - 1
        } else {
            nl
        };
        proof {
            assert(t.take(end - pos) =~= cs@.subrange(pos as int, end as int));
            if nl < n {
                assert(t[nl - pos] == '\n');
                assert(t.skip(nl - pos + 1) =~= cs@.skip(nl + 1));
            } else {
                assert(t =~= cs@.subrange(pos as int, end as int));
            }
        }
        let ghost before = entries_map(out@);
        match read_row(&cs, pos, end) {
            Some(entry) => {
                insert_entry(&mut out, entry);
            },
            None => {},
        }
        pos = if nl < n {
            nl + 1
        } else {
            n
        };
        proof {
            assert(t.len() > 0);
            if nl >= n {
                assert(cs@.skip(pos as int) =~= Seq::<char>::empty());
            }
        }
    }
    proof {
        assert(cs@.skip(pos as int) =~= Seq::<char>::empty());
    }
    out
}

// --- What a run was --------------------------------------------------------

/// What produced a report, so one found on its own says where it came from.
#[derive(Debug, Clone, PartialEq, Eq)]
pub struct Tool {
    pub name: String,
    /// The producer's own version, not the report format's.
    pub version: Option<String>,
}

/// What a run was: which dictionary it read, at which level, when, and by what.
/// None of it can be recovered from the findings, so a report that outlives the
/// run it came from carries it.
#[derive(Debug, Clone, PartialEq, Eq)]
pub struct Run {
    /// The dictionary as the caller named it: a relative path stays relative.
    pub dictionary: String,
    pub level: Level,
    /// The one table a single-table run covered; `None` for a whole dictionary.
    pub table: Option<String>,
    /// When the run finished, UTC to the second, ISO 8601 with a `Z` offset.
    pub generated_at: String,
    pub tool: Tool,
}

/// The name this library reports itself under.
pub open spec fn tool_name() -> Seq<char> {
    seq!['d', 'a', 't', 'a', '-', 'd', 'i', 'c', 't']
}

/// The version this library reports itself under.
pub open spec fn tool_version() -> Seq<char> {
    seq!['0', '.', '1', '.', '0']
}

impl Run {
    /// Records a run that finished at `generated_at`, the caller's reading of
    /// the clock (UTC to the second, with a `Z` offset): build it when the run
    /// has finished rather than before it starts.
    pub fn new(dictionary: &str, level: Level, table: Option<&str>, generated_at: &str) -> (r: Run)
        ensures
            r.dictionary@ == dictionary@,
            r.level == level,
            match table {
                Some(t) => r.table matches Some(u) && u@ == t@,
                None => r.table is None,
            },
            r.generated_at@ == generated_at@,
            r.tool.name@ == tool_name(),
            r.tool.version matches Some(v) && v@ == tool_version(),
    {
        let name = string_of(&['d', 'a', 't', 'a', '-', 'd', 'i', 'c', 't'], 0, 9);
        let version = string_of(&['0', '.', '1', '.', '0'], 0, 5);
        Run {
            dictionary: dictionary.to_owned(),
            level,
            table: match table {
                Some(t) => Some(t.to_owned()),
                None => None,
            },
            generated_at: generated_at.to_owned(),
            tool: Tool { name, version: Some(version) },
        }
    }
}

} // verus!
