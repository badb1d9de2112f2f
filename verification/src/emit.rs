//! The vocabulary every translation target shares: how faithful a construct's
//! translation is, what a refusal says, where parentheses go, and the spelling
//! rules of the two printers (the language's own, and R's tidyverse).
//!
//! Deciding where parentheses go is not cosmetic. A target declares its own
//! precedence, and an operand is wrapped against that rather than against the
//! language's, so a target whose `&` binds tighter than comparison still reads
//! each operand as it was meant.

use vstd::prelude::*;

pub mod canonical;
pub mod r_tidyverse;

pub use canonical::emit;
pub use r_tidyverse::emit_r;

use crate::assert_expr::IntervalUnit;
use crate::text::{chars_of, str_eq, string_push};

verus! {

/// How faithfully a construct translates.
#[derive(Debug, Clone, PartialEq, Eq)]
pub enum Fidelity {
    /// The same result on every input.
    Exact,
    /// Exact, but only because the translation adds code the expression didn't
    /// ask for. The guard is part of the mapping.
    Guarded,
    /// Agrees except on a documented edge. Using it attaches the note.
    Divergent(String),
}

/// A construct a target cannot express. Refusal is per (expression, target):
/// every other target still translates.
#[derive(Debug, Clone, PartialEq, Eq)]
pub struct Unsupported {
    pub what: String,
    pub why: String,
}

/// A translated predicate, with any notes the constructs it used attached.
#[derive(Debug, Clone, PartialEq, Eq)]
pub struct Emitted {
    pub code: String,
    pub notes: Vec<String>,
}

/// Which operand of a binary operator a child is, so associativity can decide
/// whether an equal-precedence child needs parentheses.
#[derive(Debug, Clone, Copy, PartialEq, Eq, Structural)]
pub enum Side {
    Left,
    Right,
    /// Not an operand of a binary operator — a function argument, say, which is
    /// already delimited.
    Free,
}

// Precedence levels, loosest to tightest: the defaults that suit the SQL
// family. A target that orders its operators differently declares its own.
pub const PREC_OR: u8 = 1;
pub const PREC_AND: u8 = 2;
pub const PREC_NOT: u8 = 3;
pub const PREC_CMP: u8 = 4;
pub const PREC_ADD: u8 = 5;
pub const PREC_MUL: u8 = 6;
pub const PREC_NEG: u8 = 7;
/// A literal, a column, a call: anything that never needs wrapping.
pub const PREC_ATOM: u8 = 8;
/// A position that delimits its own contents — a function argument, a list
/// item, a `CASE` branch — where no operand can be regrouped.
pub const PREC_DELIMITED: u8 = 0;

/// Whether an operand whose own operator binds at `own` needs parentheses
/// under an operator at `parent`: when it binds looser, or equally on the side
/// associativity doesn't favour (`a - (b - c)` is not `a - b - c`).
pub open spec fn wraps(own: u8, parent: u8, side: Side) -> bool {
    own < parent || (own == parent && side == Side::Right)
}

/// Whether an operand needs parentheses; see [`wraps`].
pub fn needs_parens(own: u8, parent: u8, side: Side) -> (r: bool)
    ensures
        r == wraps(own, parent, side),
{
    own < parent || (own == parent && side == Side::Right)
}

/// An operand never needs parentheses in a delimited position, an atom never
/// needs them under an operator, and a left operand or a free one needs them
/// only when it binds strictly looser than its parent.
pub proof fn law_parentheses_only_where_regrouping_could_happen(own: u8, parent: u8, side: Side)
    ensures
        !wraps(own, PREC_DELIMITED, Side::Free),
        parent < PREC_ATOM ==> !wraps(PREC_ATOM, parent, side),
        side != Side::Right ==> (wraps(own, parent, side) <==> own < parent),
        own > parent ==> !wraps(own, parent, side),
{
}

// --- Spelling ----------------------------------------------------------------

/// `c` with every occurrence of `q` replaced by `with`, as `str::replace`.
pub open spec fn replaced(t: Seq<char>, q: char, with: Seq<char>) -> Seq<char>
    decreases t.len(),
{
    if t.len() == 0 {
        t
    } else {
        replaced(t.drop_last(), q, with) + if t.last() == q {
            with
        } else {
            seq![t.last()]
        }
    }
}

/// `text` between two `q`s, with each `q` inside replaced by `escape`.
fn enclose(text: &Vec<char>, q: char, escape: &[char]) -> (r: String)
    ensures
        r@ == seq![q] + replaced(text@, q, escape@) + seq![q],
{
    let mut out = String::new();
    string_push(&mut out, q);
    let mut i: usize = 0;
    while i < text.len()
        invariant
            i <= text@.len(),
            out@ == seq![q] + replaced(text@.take(i as int), q, escape@),
        decreases text@.len() - i,
    {
        let c = text[i];
        proof {
            let t = text@.take(i + 1);
            assert(t.drop_last() =~= text@.take(i as int));
            assert(t.last() == c);
        }
        if c == q {
            let mut j: usize = 0;
            let ghost base = out@;
            while j < escape.len()
                invariant
                    j <= escape@.len(),
                    out@ == base + escape@.take(j as int),
                decreases escape@.len() - j,
            {
                string_push(&mut out, escape[j]);
                assert(escape@.take(j + 1) =~= escape@.take(j as int).push(escape@[j as int]));
                j = j + 1;
            }
            assert(escape@.take(j as int) =~= escape@);
        } else {
            string_push(&mut out, c);
        }
        i = i + 1;
        assert(out@ =~= seq![q] + replaced(text@.take(i as int), q, escape@));
    }
    assert(text@.take(i as int) =~= text@);
    string_push(&mut out, q);
    out
}

/// An ASCII letter, digit or `_`.
pub open spec fn is_word_char(c: char) -> bool {
    ('a' <= c && c <= 'z') || ('A' <= c && c <= 'Z') || ('0' <= c && c <= '9') || c == '_'
}

/// An `IDENT` of the language: `[A-Za-z_][A-Za-z0-9_]*`.
pub open spec fn is_ident(t: Seq<char>) -> bool {
    &&& t.len() > 0
    &&& (('a' <= t[0] && t[0] <= 'z') || ('A' <= t[0] && t[0] <= 'Z') || t[0] == '_')
    &&& forall|i: int| 0 <= i < t.len() ==> is_word_char(#[trigger] t[i])
}

/// `c.to_ascii_lowercase()`.
pub open spec fn lower_char(c: char) -> char {
    if 'A' <= c && c <= 'Z' {
        ((c as u32) + 32) as char
    } else {
        c
    }
}

/// The words the language keeps for itself, which a bare column name may not
/// be: its keywords and the literal and construct names it reads specially.
pub open spec fn is_reserved_word(lower: Seq<char>) -> bool {
    ||| lower == "and"@ ||| lower == "or"@ ||| lower == "not"@ ||| lower == "is"@
    ||| lower == "null"@ ||| lower == "between"@ ||| lower == "in"@ ||| lower == "like"@
    ||| lower == "similar"@ ||| lower == "to"@ ||| lower == "when"@ ||| lower == "then"@
    ||| lower == "else"@ ||| lower == "end"@ ||| lower == "true"@ ||| lower == "false"@
    ||| lower == "case"@ ||| lower == "inf"@ ||| lower == "nan"@
}

/// Whether `text`, compared without regard to ASCII case, is a reserved word.
pub fn is_reserved(text: &str) -> (r: bool)
    ensures
        r == is_reserved_word(text@.map_values(|c: char| lower_char(c))),
{
    let cs = chars_of(text);
    let mut lower = String::new();
    let mut i: usize = 0;
    while i < cs.len()
        invariant
            cs@ == text@,
            i <= cs@.len(),
            lower@ == cs@.take(i as int).map_values(|c: char| lower_char(c)),
        decreases cs@.len() - i,
    {
        let c = cs[i];
        let l = if 'A' <= c && c <= 'Z' {
            ((c as u8) + 32) as char
        } else {
            c
        };
        assert(l == lower_char(c));
        string_push(&mut lower, l);
        assert(cs@.take(i + 1).map_values(|c: char| lower_char(c)) =~= cs@.take(i as int).map_values(
            |c: char| lower_char(c),
        ).push(lower_char(c)));
        i = i + 1;
    }
    assert(cs@.take(i as int) =~= cs@);
    let w = lower.as_str();
    str_eq(w, "and") || str_eq(w, "or") || str_eq(w, "not") || str_eq(w, "is") || str_eq(w, "null")
        || str_eq(w, "between") || str_eq(w, "in") || str_eq(w, "like") || str_eq(w, "similar")
        || str_eq(w, "to") || str_eq(w, "when") || str_eq(w, "then") || str_eq(w, "else") || str_eq(
        w,
        "end",
    ) || str_eq(w, "true") || str_eq(w, "false") || str_eq(w, "case") || str_eq(w, "inf") || str_eq(
        w,
        "nan",
    )
}

/// How the language itself writes a column name: bare when it is an `IDENT`
/// that is not reserved, and otherwise in backticks with each backtick doubled.
pub open spec fn canonical_name(t: Seq<char>) -> Seq<char> {
    if is_ident(t) && !is_reserved_word(t.map_values(|c: char| lower_char(c))) {
        t
    } else {
        seq!['`'] + replaced(t, '`', seq!['`', '`']) + seq!['`']
    }
}

/// How the language writes a string literal: in single quotes, each one
/// inside doubled.
pub open spec fn canonical_string(t: Seq<char>) -> Seq<char> {
    seq!['\''] + replaced(t, '\'', seq!['\'', '\'']) + seq!['\'']
}

/// Whether every character of `cs` passes, and the first one passes `first`.
fn ident_like(cs: &Vec<char>, dot_start: bool) -> (r: bool)
    ensures
        !dot_start ==> r == is_ident(cs@),
        dot_start ==> r == is_r_syntactic(cs@),
{
    if cs.len() == 0 {
        return false;
    }
    let c0 = cs[0];
    let first_ok = if dot_start {
        ('a' <= c0 && c0 <= 'z') || ('A' <= c0 && c0 <= 'Z') || c0 == '.'
    } else {
        ('a' <= c0 && c0 <= 'z') || ('A' <= c0 && c0 <= 'Z') || c0 == '_'
    };
    if !first_ok {
        return false;
    }
    let mut i: usize = 0;
    while i < cs.len()
        invariant
            i <= cs@.len(),
            forall|k: int|
                0 <= k < i ==> if dot_start {
                    is_r_char(#[trigger] cs@[k])
                } else {
                    is_word_char(cs@[k])
                },
        decreases cs@.len() - i,
    {
        let c = cs[i];
        let ok = ('a' <= c && c <= 'z') || ('A' <= c && c <= 'Z') || ('0' <= c && c <= '9') || c
            == '_' || (dot_start && c == '.');
        if !ok {
            assert(if dot_start {
                !is_r_char(cs@[i as int])
            } else {
                !is_word_char(cs@[i as int])
            });
            return false;
        }
        i = i + 1;
    }
    true
}

/// The language writing itself back out: the target whose every construct
/// has itself as its spelling.
#[derive(Debug, Clone, Copy, PartialEq, Eq, Structural)]
pub struct Canonical;

impl Canonical {
    /// The target's name as `family(dialect)`.
    pub fn target_name(&self) -> (r: &'static str)
        ensures
            r@ == "SQL(data-dict)"@,
    {
        "SQL(data-dict)"
    }

    /// A column name, backtick-quoted when a bare one wouldn't read back as
    /// itself: a name that isn't an `IDENT`, or one that is but is reserved.
    pub fn name(text: &str) -> (r: String)
        ensures
            r@ == canonical_name(text@),
    {
        let cs = chars_of(text);
        if ident_like(&cs, false) && !is_reserved(text) {
            return text.to_owned();
        }
        enclose(&cs, '`', &['`', '`'])
    }

    /// A string literal, single-quoted with each quote inside doubled.
    pub fn quote(text: &str) -> (r: String)
        ensures
            r@ == canonical_string(text@),
    {
        let cs = chars_of(text);
        enclose(&cs, '\'', &['\'', '\''])
    }
}

/// A character of a syntactic R name: an ASCII letter, digit, `.` or `_`.
pub open spec fn is_r_char(c: char) -> bool {
    is_word_char(c) || c == '.'
}

/// A syntactic R name, as this printer recognises one: it starts with an ASCII
/// letter or `.` and holds only letters, digits, `.` and `_`.
pub open spec fn is_r_syntactic(t: Seq<char>) -> bool {
    &&& t.len() > 0
    &&& (('a' <= t[0] && t[0] <= 'z') || ('A' <= t[0] && t[0] <= 'Z') || t[0] == '.')
    &&& forall|i: int| 0 <= i < t.len() ==> is_r_char(#[trigger] t[i])
}

/// How R writes a column name: bare when syntactic, and otherwise in
/// backticks with each backtick escaped by a backslash.
pub open spec fn r_name(t: Seq<char>) -> Seq<char> {
    if is_r_syntactic(t) {
        t
    } else {
        seq!['`'] + replaced(t, '`', seq!['\\', '`']) + seq!['`']
    }
}

/// One character of an R string literal's body: a backslash or a double quote
/// escaped with a backslash, anything else as itself.
pub open spec fn r_escaped(t: Seq<char>) -> Seq<char>
    decreases t.len(),
{
    if t.len() == 0 {
        t
    } else {
        r_escaped(t.drop_last()) + if t.last() == '\\' || t.last() == '"' {
            seq!['\\', t.last()]
        } else {
            seq![t.last()]
        }
    }
}

/// How R writes a string literal: in double quotes, escaped.
pub open spec fn r_string(t: Seq<char>) -> Seq<char> {
    seq!['"'] + r_escaped(t) + seq!['"']
}

/// What `lubridate` calls each interval unit.
pub open spec fn r_unit(u: IntervalUnit) -> Seq<char> {
    match u {
        IntervalUnit::Seconds => "secs"@,
        IntervalUnit::Minutes => "mins"@,
        IntervalUnit::Hours => "hours"@,
        IntervalUnit::Days => "days"@,
        IntervalUnit::Weeks => "weeks"@,
    }
}

/// `R(tidyverse)`: dplyr and stringr.
#[derive(Debug, Clone, Copy, PartialEq, Eq, Structural)]
pub struct RTidyverse;

impl RTidyverse {
    /// The target's name as `family(dialect)`.
    pub fn target_name(&self) -> (r: &'static str)
        ensures
            r@ == "R(tidyverse)"@,
    {
        "R(tidyverse)"
    }

    /// A column name, backtick-quoted when it isn't a syntactic R name.
    pub fn name(text: &str) -> (r: String)
        ensures
            r@ == r_name(text@),
    {
        let cs = chars_of(text);
        if ident_like(&cs, true) {
            return text.to_owned();
        }
        enclose(&cs, '`', &['\\', '`'])
    }

    /// A string literal, double-quoted with backslashes and quotes escaped.
    pub fn string(text: &str) -> (r: String)
        ensures
            r@ == r_string(text@),
    {
        let cs = chars_of(text);
        let mut out = String::new();
        string_push(&mut out, '"');
        let mut i: usize = 0;
        while i < cs.len()
            invariant
                i <= cs@.len(),
                out@ == seq!['"'] + r_escaped(cs@.take(i as int)),
            decreases cs@.len() - i,
        {
            let c = cs[i];
            proof {
                let t = cs@.take(i + 1);
                assert(t.drop_last() =~= cs@.take(i as int));
                assert(t.last() == c);
            }
            if c == '\\' || c == '"' {
                string_push(&mut out, '\\');
            }
            string_push(&mut out, c);
            i = i + 1;
            assert(out@ =~= seq!['"'] + r_escaped(cs@.take(i as int)));
        }
        assert(cs@.take(i as int) =~= text@);
        string_push(&mut out, '"');
        out
    }

    /// What `lubridate` calls an interval unit.
    pub fn units(unit: IntervalUnit) -> (r: &'static str)
        ensures
            r@ == r_unit(unit),
    {
        match unit {
            IntervalUnit::Seconds => "secs",
            IntervalUnit::Minutes => "mins",
            IntervalUnit::Hours => "hours",
            IntervalUnit::Days => "days",
            IntervalUnit::Weeks => "weeks",
        }
    }
}

} // verus!
