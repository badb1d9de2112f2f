//! Reading an expression written in another language into the language's own
//! surface AST.
//!
//! A reader is a function, and [`Language`] is a name attached to one. The
//! data-dict language is one of the languages, so nothing has to
//! special-case the default: its reader is the expression parser itself,
//! and a reading of it never has anything to warn about.
//!
//! The readers produce the surface AST, not the typed IR, so everything
//! downstream (most importantly the checker) works unchanged.

use vstd::prelude::*;

use crate::assert_expr::grammar::{parse_text, ErrV, ExprV};
use crate::assert_expr::parse::{view_err, view_expr};
use crate::assert_expr::{AssertExpr, ParseError};
use crate::text::{chars_of, string_of};

verus! {

/// One expression, read.
#[derive(Debug)]
pub struct Parsed {
    pub expr: AssertExpr,
    /// Where the source language and the reading disagree, in a stable order.
    pub notes: Vec<&'static str>,
}

impl Parsed {
    /// A reading that has nothing to warn about: what the data-dict
    /// language's own reader always produces, since it is already the
    /// language.
    pub(crate) fn exact(expr: AssertExpr) -> (r: Parsed)
        ensures
            r.expr == expr,
            r.notes@.len() == 0,
    {
        Parsed { expr, notes: Vec::new() }
    }
}

/// A language an expression can be read from.
#[derive(Debug, Clone, Copy)]
pub struct Language {
    /// The name the spec gives it, as a `language:` value and as `--from`.
    pub name: &'static str,
}

/// The names of the languages that can be read, in their stable order.
pub open spec fn language_names() -> Seq<Seq<char>> {
    seq!["sql"@, "r"@, "python"@]
}

/// ASCII case folding of one character, by its code point.
pub open spec fn fold(c: char) -> int {
    if 65 <= (c as u32) && (c as u32) <= 90 {
        (c as u32) + 32
    } else {
        c as u32 as int
    }
}

/// `a` and `b` are equal ignoring ASCII case.
pub open spec fn same_ignoring_case(a: Seq<char>, b: Seq<char>) -> bool {
    a.len() == b.len() && forall|i: int| 0 <= i < a.len() ==> fold(#[trigger] a[i]) == fold(b[i])
}

/// The position of the first language whose name is `name` ignoring ASCII
/// case.
pub open spec fn language_index(name: Seq<char>) -> Option<int> {
    if same_ignoring_case(language_names()[0], name) {
        Some(0)
    } else if same_ignoring_case(language_names()[1], name) {
        Some(1)
    } else if same_ignoring_case(language_names()[2], name) {
        Some(2)
    } else {
        None
    }
}

/// What `resolve` answers for a name no language has.
pub open spec fn unknown_language(name: Seq<char>) -> Seq<char> {
    "unknown expression language `"@ + name + "`; available: sql, r, python"@
}

fn fold_exec(c: char) -> (r: u32)
    ensures
        r == fold(c),
{
    let u = c as u32;
    if 65 <= u && u <= 90 {
        u + 32
    } else {
        u
    }
}

/// Whether `a` and `b` are equal ignoring ASCII case.
pub fn eq_ignore_ascii_case(a: &str, b: &str) -> (r: bool)
    ensures
        r == same_ignoring_case(a@, b@),
{
    let x = chars_of(a);
    let y = chars_of(b);
    if x.len() != y.len() {
        return false;
    }
    let mut i: usize = 0;
    while i < x.len()
        invariant
            x@ == a@,
            y@ == b@,
            x@.len() == y@.len(),
            i <= x@.len(),
            forall|k: int| 0 <= k < i ==> fold(#[trigger] a@[k]) == fold(b@[k]),
        decreases x@.len() - i,
    {
        if fold_exec(x[i]) != fold_exec(y[i]) {
            return false;
        }
        i = i + 1;
    }
    true
}

/// Every language that can be read, in a stable order. The data-dict
/// language is one of them.
pub fn languages() -> (r: Vec<Language>)
    ensures
        r@.len() == language_names().len(),
        forall|i: int| 0 <= i < r@.len() ==> #[trigger] r@[i].name@ == language_names()[i],
{
    let mut v: Vec<Language> = Vec::new();
    v.push(Language { name: "sql" });
    v.push(Language { name: "r" });
    v.push(Language { name: "python" });
    v
}

/// The language an expression is written in when it doesn't say.
pub fn default_language() -> (r: Language)
    ensures
        r.name@ == "sql"@,
{
    Language { name: "sql" }
}

/// Resolve a `language:` value or a `--from` argument, ignoring ASCII case,
/// or say why not.
pub fn resolve(name: &str) -> (r: Result<Language, String>)
    ensures
        match language_index(name@) {
            Some(i) => r matches Ok(l) && l.name@ == language_names()[i],
            None => r matches Err(e) && e@ == unknown_language(name@),
        },
{
    let all = languages();
    let mut i: usize = 0;
    while i < all.len()
        invariant
            i <= all@.len(),
            all@.len() == language_names().len(),
            forall|k: int| 0 <= k < all@.len() ==> #[trigger] all@[k].name@ == language_names()[k],
            forall|k: int| 0 <= k < i ==> !same_ignoring_case(#[trigger] language_names()[k], name@),
        decreases all@.len() - i,
    {
        if eq_ignore_ascii_case(all[i].name, name) {
            assert(all@[i as int].name@ == language_names()[i as int]);
            return Ok(all[i]);
        }
        i = i + 1;
    }
    assert(!same_ignoring_case(language_names()[0], name@));
    assert(!same_ignoring_case(language_names()[1], name@));
    assert(!same_ignoring_case(language_names()[2], name@));
    let mut available = String::new();
    let mut k: usize = 0;
    while k < all.len()
        invariant
            k <= all@.len(),
            all@.len() == 3,
            forall|j: int| 0 <= j < all@.len() ==> #[trigger] all@[j].name@ == language_names()[j],
            k == 0 ==> available@ == Seq::<char>::empty(),
            k == 1 ==> available@ == "sql"@,
            k == 2 ==> available@ == "sql"@ + ", "@ + "r"@,
            k == 3 ==> available@ == "sql"@ + ", "@ + "r"@ + ", "@ + "python"@,
        decreases all@.len() - k,
    {
        if k > 0 {
            available.append(", ");
        }
        available.append(all[k].name);
        assert(all@[k as int].name@ == language_names()[k as int]);
        k = k + 1;
    }
    let mut message = String::from_str("unknown expression language `");
    message.append(name);
    message.append("`; available: ");
    message.append(available.as_str());
    proof {
        reveal_strlit("sql");
        reveal_strlit(", ");
        reveal_strlit("r");
        reveal_strlit("python");
        reveal_strlit("`; available: ");
        reveal_strlit("`; available: sql, r, python");
        assert(message@ =~= unknown_language(name@));
    }
    Err(message)
}

impl Language {
    /// Read `source` as this language. The data-dict language's reader is its
    /// own parser, and its reading never has notes.
    pub fn read(&self, source: &str) -> (r: Result<Parsed, ParseError>)
        requires
            self.name@ == "sql"@,
        ensures
            match r {
                Ok(p) => parse_text(source@) == Ok::<ExprV, ErrV>(view_expr(p.expr.root)) && p.notes@.len() == 0,
                Err(e) => parse_text(source@) == Err::<ExprV, ErrV>(view_err(e)),
            },
    {
        match AssertExpr::parse(source) {
            Ok(expr) => Ok(Parsed::exact(expr)),
            Err(e) => Err(e),
        }
    }
}

/// Every language resolves by its own name, in any ASCII case: the name of
/// the language at position `i`, with each letter folded as `fold` folds it,
/// finds that language and no earlier one.
pub proof fn law_every_language_resolves_by_its_own_name(i: int, name: Seq<char>)
    requires
        0 <= i < language_names().len(),
        same_ignoring_case(language_names()[i], name),
    ensures
        language_index(name) == Some(i),
{
    reveal_strlit("sql");
    reveal_strlit("r");
    reveal_strlit("python");
    let names = language_names();
    assert(names[0].len() == 3 && names[1].len() == 1 && names[2].len() == 6);
    if i == 1 {
        assert(!same_ignoring_case(names[0], name));
    } else if i == 2 {
        assert(!same_ignoring_case(names[0], name));
        assert(!same_ignoring_case(names[1], name));
    }
}

// --- Anchors ---------------------------------------------------------------

/// Whether a `|` stands outside every group and character class of a
/// pattern, reading from position `i` with `depth` groups open and
/// `in_class` telling whether a class is open. A backslash escapes the
/// character after it.
pub open spec fn alternation_from(p: Seq<char>, i: int, depth: nat, in_class: bool) -> bool
    decreases p.len() - i,
{
    if i < 0 || i >= p.len() {
        false
    } else {
        let c = p[i];
        if c == '\\' {
            if i + 2 > p.len() {
                false
            } else {
                alternation_from(p, i + 2, depth, in_class)
            }
        } else if c == '[' && !in_class {
            alternation_from(p, i + 1, depth, true)
        } else if c == ']' && in_class {
            alternation_from(p, i + 1, depth, false)
        } else if c == '(' && !in_class {
            alternation_from(p, i + 1, depth + 1, in_class)
        } else if c == ')' && !in_class {
            alternation_from(p, i + 1, if depth == 0 { 0 } else { (depth - 1) as nat }, in_class)
        } else if c == '|' && !in_class && depth == 0 {
            true
        } else {
            alternation_from(p, i + 1, depth, in_class)
        }
    }
}

/// Whether `pattern` has a `|` outside every group and character class.
pub open spec fn top_level_alternation(p: Seq<char>) -> bool {
    alternation_from(p, 0, 0, false)
}

/// Whether `pattern` has a `|` outside every group and character class.
pub fn has_top_level_alternation(pattern: &str) -> (r: bool)
    ensures
        r == top_level_alternation(pattern@),
{
    let cs = chars_of(pattern);
    let n = cs.len();
    let mut depth: usize = 0;
    let mut in_class = false;
    let mut i: usize = 0;
    while i < n
        invariant
            n == cs@.len(),
            cs@ == pattern@,
            i <= n,
            depth <= i,
            top_level_alternation(pattern@) == alternation_from(cs@, i as int, depth as nat, in_class),
        decreases n - i,
    {
        let c = cs[i];
        if c == '\\' {
            if n - i < 2 {
                return false;
            }
            i = i + 2;
        } else if c == '[' && !in_class {
            in_class = true;
            i = i + 1;
        } else if c == ']' && in_class {
            in_class = false;
            i = i + 1;
        } else if c == '(' && !in_class {
            depth = depth + 1;
            i = i + 1;
        } else if c == ')' && !in_class {
            if depth > 0 {
                depth = depth - 1;
            }
            i = i + 1;
        } else if c == '|' && !in_class && depth == 0 {
            return true;
        } else {
            i = i + 1;
        }
    }
    false
}

/// A pattern that matches anywhere turned into one that matches the whole
/// string, as `SIMILAR TO` does. The two anchored forms the emitters write,
/// `^(?:…)$` and `^…$` (the latter without a top-level `|`), lose their
/// anchors rather than doubling them; anything else grows the wildcards that
/// say "anywhere", around a group.
pub open spec fn unanchored(p: Seq<char>) -> Seq<char> {
    if p.len() >= 6 && p.subrange(0, 4) == "^(?:"@ && p.subrange(p.len() - 2, p.len() as int) == ")$"@ {
        p.subrange(4, p.len() - 2)
    } else if p.len() >= 2 && p[0] == '^' && p[p.len() - 1] == '$' && !top_level_alternation(
        p.subrange(1, p.len() - 1),
    ) {
        p.subrange(1, p.len() - 1)
    } else {
        ".*(?:"@ + p + ").*"@
    }
}

/// Turn a pattern that matches anywhere into one that matches the whole
/// string.
pub fn unanchor(pattern: &str) -> (r: String)
    ensures
        r@ == unanchored(pattern@),
{
    let cs = chars_of(pattern);
    let n = cs.len();
    proof {
        reveal_strlit("^(?:");
        reveal_strlit(")$");
    }
    if n >= 6 && cs[0] == '^' && cs[1] == '(' && cs[2] == '?' && cs[3] == ':' && cs[n - 2] == ')' && cs[n - 1]
        == '$' {
        assert(cs@.subrange(0, 4) =~= "^(?:"@);
        assert(cs@.subrange(n - 2, n as int) =~= ")$"@);
        return string_of(cs.as_slice(), 4, n - 2);
    }
    proof {
        if n >= 6 && cs@.subrange(0, 4) == "^(?:"@ && cs@.subrange(n - 2, n as int) == ")$"@ {
            assert(cs@.subrange(0, 4)[0] == cs@[0]);
            assert(cs@.subrange(0, 4)[1] == cs@[1]);
            assert(cs@.subrange(0, 4)[2] == cs@[2]);
            assert(cs@.subrange(0, 4)[3] == cs@[3]);
            assert(cs@.subrange(n - 2, n as int)[0] == cs@[n - 2]);
            assert(cs@.subrange(n - 2, n as int)[1] == cs@[n - 1]);
        }
    }
    if n >= 2 && cs[0] == '^' && cs[n - 1] == '$' {
        let inner = string_of(cs.as_slice(), 1, n - 1);
        if !has_top_level_alternation(inner.as_str()) {
            return inner;
        }
    }
    let mut out = String::from_str(".*(?:");
    out.append(pattern);
    out.append(").*");
    out
}

// --- Untranslatable constructs ---------------------------------------------

/// What marks a parse error as a construct with no equivalent rather than a
/// syntax error. Stripped before the message is shown.
pub open spec fn untranslatable_mark() -> Seq<char> {
    seq!['\0']
}

/// A construct that is well-formed in its own language but has no
/// equivalent here, so the rule it states can't be recorded.
pub fn untranslatable(what: &str, why: &str, at: usize) -> (r: ParseError)
    ensures
        r.message@ == untranslatable_mark() + what@ + " \u{2014} "@ + why@,
        r.at == at,
{
    let mut message = String::from_str("\u{0}");
    message.append(what);
    message.append(" \u{2014} ");
    message.append(why);
    proof {
        reveal_strlit("\u{0}");
        assert(message@ =~= untranslatable_mark() + what@ + " \u{2014} "@ + why@);
    }
    ParseError { message, at }
}

/// Split an error into its message and whether it was untranslatable.
pub fn classify(error: &ParseError) -> (r: (String, bool))
    ensures
        error.message@.len() > 0 && error.message@[0] == '\0' ==> r.0@ == error.message@.skip(1) && r.1,
        !(error.message@.len() > 0 && error.message@[0] == '\0') ==> r.0@ == error.message@ && !r.1,
{
    let cs = chars_of(error.message.as_str());
    if cs.len() > 0 && cs[0] == '\0' {
        let rest = string_of(cs.as_slice(), 1, cs.len());
        assert(rest@ =~= error.message@.skip(1));
        (rest, true)
    } else {
        let whole = string_of(cs.as_slice(), 0, cs.len());
        assert(whole@ =~= error.message@);
        (whole, false)
    }
}

} // verus!
