//! Translating a dictionary's assertions into other languages: what is asked
//! for, what comes back, and how a `--target` name and a `--table` name are
//! resolved.
//!
//! The unit of translation is one expression, and the output is a bare
//! predicate for a caller to embed, with the columns it reads listed beside it
//! so a caller can tell which to load without parsing the code.

use vstd::prelude::*;

use crate::emit::lower_char;
use crate::model::{DataDict, Table};
use crate::text::{chars_of, decimal, decimal_string, str_eq};

verus! {

/// What to translate, and into what.
#[derive(Debug, Clone, PartialEq, Eq)]
pub struct Options {
    /// Targets by name; empty means every one available.
    pub targets: Vec<String>,
    /// Restrict to one table, and name the scope for `expr`.
    pub table: Option<String>,
    /// Translate this expression instead of the dictionary's assertions.
    pub expr: Option<String>,
}

impl Default for Options {
    fn default() -> (r: Options)
        ensures
            r.targets@.len() == 0,
            r.table is None,
            r.expr is None,
    {
        Options { targets: Vec::new(), table: None, expr: None }
    }
}

/// One expression's translations.
#[derive(Debug, Clone, PartialEq, Eq)]
pub struct Translation {
    /// The expression as written.
    pub expr: String,
    pub table: String,
    /// The expression's own type; `boolean` for an assertion.
    pub ty: String,
    /// The columns the expression reads, qualified by table.
    pub columns: Vec<ColumnUse>,
    pub translations: Vec<TargetOutput>,
}

/// One column an expression reads.
#[derive(Debug, Clone, PartialEq, Eq)]
pub struct ColumnUse {
    pub table: String,
    pub column: String,
}

/// One target's answer: either code, or the reason it refused.
#[derive(Debug, Clone, PartialEq, Eq)]
pub struct TargetOutput {
    pub target: String,
    pub code: Option<String>,
    pub error: Option<String>,
    pub notes: Vec<String>,
}

/// `a.eq_ignore_ascii_case(b)`.
pub open spec fn same_ignoring_case(a: Seq<char>, b: Seq<char>) -> bool {
    a.map_values(|c: char| lower_char(c)) == b.map_values(|c: char| lower_char(c))
}

/// What a bare family name means: its default target.
pub open spec fn family_default(name: Seq<char>) -> Option<Seq<char>> {
    if same_ignoring_case(name, "r"@) {
        Some("R(base)"@)
    } else if same_ignoring_case(name, "python"@) {
        Some("Python(polars)"@)
    } else if same_ignoring_case(name, "sql"@) {
        Some("SQL(ANSI)"@)
    } else {
        None
    }
}

/// The target a name asks for: a family's default, or the name itself.
pub open spec fn wanted_target(name: Seq<char>) -> Seq<char> {
    match family_default(name) {
        Some(d) => d,
        None => name,
    }
}

/// The names joined with `, `.
pub open spec fn comma_joined(names: Seq<Seq<char>>) -> Seq<char>
    decreases names.len(),
{
    if names.len() == 0 {
        Seq::empty()
    } else if names.len() == 1 {
        names[0]
    } else {
        comma_joined(names.drop_last()) + ", "@ + names.last()
    }
}

/// Why `name` resolves to none of the `available` targets.
pub open spec fn unresolved_message(name: Seq<char>, available: Seq<Seq<char>>) -> Seq<char> {
    let wanted = wanted_target(name);
    if wanted == name {
        "unknown target `"@ + name + "`; available: "@ + comma_joined(available)
    } else {
        "`"@ + name + "` means `"@ + wanted + "`, which is not available yet; available: "@
            + comma_joined(available)
    }
}

/// The view of a list of names.
pub open spec fn names_view(names: Seq<&str>) -> Seq<Seq<char>> {
    names.map_values(|n: &str| n@)
}

/// Whether two names are the same without regard to ASCII case.
pub fn eq_ignore_case(a: &str, b: &str) -> (r: bool)
    ensures
        r == same_ignoring_case(a@, b@),
{
    let x = chars_of(a);
    let y = chars_of(b);
    if x.len() != y.len() {
        proof {
            if same_ignoring_case(a@, b@) {
                assert(a@.map_values(|c: char| lower_char(c)).len() == a@.len());
            }
        }
        return false;
    }
    let mut i: usize = 0;
    while i < x.len()
        invariant
            x@ == a@,
            y@ == b@,
            x@.len() == y@.len(),
            i <= x@.len(),
            forall|k: int| 0 <= k < i ==> lower_char(#[trigger] x@[k]) == lower_char(y@[k]),
        decreases x@.len() - i,
    {
        let c = x[i];
        let d = y[i];
        let lc = if 'A' <= c && c <= 'Z' {
            ((c as u8) + 32) as char
        } else {
            c
        };
        let ld = if 'A' <= d && d <= 'Z' {
            ((d as u8) + 32) as char
        } else {
            d
        };
        assert(lc == lower_char(c) && ld == lower_char(d));
        if lc != ld {
            proof {
                let ma = a@.map_values(|c: char| lower_char(c));
                let mb = b@.map_values(|c: char| lower_char(c));
                assert(ma[i as int] != mb[i as int]);
            }
            return false;
        }
        i = i + 1;
    }
    assert(a@.map_values(|c: char| lower_char(c)) =~= b@.map_values(|c: char| lower_char(c)));
    true
}

/// The names joined with `, `.
fn join_names(names: &[&str]) -> (r: String)
    ensures
        r@ == comma_joined(names_view(names@)),
{
    let mut out = String::new();
    let mut i: usize = 0;
    while i < names.len()
        invariant
            i <= names@.len(),
            out@ == comma_joined(names_view(names@.take(i as int))),
        decreases names@.len() - i,
    {
        proof {
            let t = names_view(names@.take(i + 1));
            assert(t.drop_last() =~= names_view(names@.take(i as int)));
            assert(t.last() == names@[i as int]@);
        }
        if i > 0 {
            out.append(", ");
        }
        out.append(names[i]);
        i = i + 1;
    }
    assert(names@.take(i as int) =~= names@);
    out
}

/// Resolve a `--target` argument against the targets `available`, in their
/// registered order: the position of the one it names (a bare family name
/// meaning the family's default), or why none is.
pub fn resolve_target(name: &str, available: &[&str]) -> (r: Result<usize, String>)
    ensures
        match r {
            Ok(i) => i < available@.len() && same_ignoring_case(available@[i as int]@, wanted_target(name@))
                && forall|k: int| 0 <= k < i ==> !same_ignoring_case(#[trigger] available@[k]@, wanted_target(name@)),
            Err(message) => message@ == unresolved_message(name@, names_view(available@))
                && forall|k: int| 0 <= k < available@.len() ==> !same_ignoring_case(#[trigger] available@[k]@, wanted_target(name@)),
        },
{
    let wanted: &str = if eq_ignore_case("r", name) {
        "R(base)"
    } else if eq_ignore_case("python", name) {
        "Python(polars)"
    } else if eq_ignore_case("sql", name) {
        "SQL(ANSI)"
    } else {
        name
    };
    proof {
        assert(same_ignoring_case("r"@, name@) == same_ignoring_case(name@, "r"@));
        assert(same_ignoring_case("python"@, name@) == same_ignoring_case(name@, "python"@));
        assert(same_ignoring_case("sql"@, name@) == same_ignoring_case(name@, "sql"@));
        assert(wanted@ == wanted_target(name@));
    }
    let mut i: usize = 0;
    while i < available.len()
        invariant
            i <= available@.len(),
            wanted@ == wanted_target(name@),
            forall|k: int| 0 <= k < i ==> !same_ignoring_case(#[trigger] available@[k]@, wanted@),
        decreases available@.len() - i,
    {
        if eq_ignore_case(available[i], wanted) {
            return Ok(i);
        }
        i = i + 1;
    }
    let listed = join_names(available);
    let mut message = String::new();
    if str_eq(wanted, name) {
        message.append("unknown target `");
        message.append(name);
        message.append("`; available: ");
        message.append(listed.as_str());
    } else {
        message.append("`");
        message.append(name);
        message.append("` means `");
        message.append(wanted);
        message.append("`, which is not available yet; available: ");
        message.append(listed.as_str());
    }
    Err(message)
}

/// The names of the dictionary's tables.
pub open spec fn table_names(tables: Seq<Table>) -> Seq<Seq<char>> {
    tables.map_values(|t: Table| t.name.value@)
}

/// `i` is where the first table called `name` sits.
pub open spec fn first_named(tables: Seq<Table>, name: Seq<char>, i: int) -> bool {
    &&& 0 <= i < tables.len()
    &&& tables[i].name.value@ == name
    &&& forall|k: int| 0 <= k < i ==> (#[trigger] tables[k]).name.value@ != name
}

/// Why no table is in scope for an ad-hoc expression.
pub open spec fn scope_message(tables: Seq<Table>, wanted: Option<Seq<char>>) -> Seq<char> {
    match wanted {
        Some(name) => "no table named `"@ + name + "` in this dictionary"@,
        None => "this dictionary has "@ + decimal(tables.len()) + " tables, so `--table` is needed to say which one an expression's columns belong to: "@
            + comma_joined(table_names(tables)),
    }
}

/// Where the first table called `name` sits, if any does.
fn find_table(tables: &Vec<Table>, name: &str) -> (r: Option<usize>)
    ensures
        match r {
            Some(i) => first_named(tables@, name@, i as int),
            None => forall|k: int| 0 <= k < tables@.len() ==> (#[trigger] tables@[k]).name.value@ != name@,
        },
{
    let mut i: usize = 0;
    while i < tables.len()
        invariant
            i <= tables@.len(),
            forall|k: int| 0 <= k < i ==> (#[trigger] tables@[k]).name.value@ != name@,
        decreases tables@.len() - i,
    {
        if str_eq(tables[i].name.value.as_str(), name) {
            return Some(i);
        }
        i = i + 1;
    }
    None
}

/// The table an ad-hoc expression resolves its columns against: the first one
/// `--table` names, or, when none is named, the only one there is.
pub fn scope<'a>(dict: &'a DataDict, table: Option<&str>) -> (r: Result<&'a Table, String>)
    ensures
        match table {
            Some(name) => match r {
                Ok(t) => exists|i: int| #[trigger] first_named(dict.tables@, name@, i) && dict.tables@[i] == *t,
                Err(m) => m@ == scope_message(dict.tables@, Some(name@))
                    && forall|k: int| 0 <= k < dict.tables@.len() ==> (#[trigger] dict.tables@[k]).name.value@ != name@,
            },
            None => match r {
                Ok(t) => dict.tables@.len() == 1 && *t == dict.tables@[0],
                Err(m) => dict.tables@.len() != 1 && m@ == scope_message(dict.tables@, None),
            },
        },
{
    match table {
        Some(name) => match find_table(&dict.tables, name) {
            Some(i) => Ok(&dict.tables[i]),
            None => {
                let mut m = String::new();
                m.append("no table named `");
                m.append(name);
                m.append("` in this dictionary");
                Err(m)
            },
        },
        None => {
            if dict.tables.len() == 1 {
                return Ok(&dict.tables[0]);
            }
            let mut m = String::new();
            m.append("this dictionary has ");
            let count = decimal_string(dict.tables.len());
            m.append(count.as_str());
            m.append(
                " tables, so `--table` is needed to say which one an expression's columns belong to: ",
            );
            let mut i: usize = 0;
            let ghost base = m@;
            while i < dict.tables.len()
                invariant
                    i <= dict.tables@.len(),
                    m@ == base + comma_joined(table_names(dict.tables@.take(i as int))),
                decreases dict.tables@.len() - i,
            {
                proof {
                    let t = table_names(dict.tables@.take(i + 1));
                    assert(t.drop_last() =~= table_names(dict.tables@.take(i as int)));
                    assert(t.last() == dict.tables@[i as int].name.value@);
                }
                if i > 0 {
                    m.append(", ");
                }
                m.append(dict.tables[i].name.value.as_str());
                i = i + 1;
            }
            assert(dict.tables@.take(i as int) =~= dict.tables@);
            Err(m)
        },
    }
}

} // verus!
