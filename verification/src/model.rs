//! Typed in-memory model of a data dictionary.
//!
//! Built from the source YAML once the structural schema has accepted the
//! document. Each significant node carries a `SourceInfo` so diagnostics can
//! point back at the source; the logic here carries those spans and never
//! looks into them.

use vstd::prelude::*;

use quarto_source_map::SourceInfo;

use crate::assert_expr::AssertExpr;
use crate::join_expr::{ConjSpec, JoinExpr, QCol, QColSpec};
use crate::text::{innermost, list_elem, str_eq};

verus! {

#[derive(Debug, Clone)]
pub struct Spanned<T> {
    pub value: T,
    pub span: SourceInfo,
}

impl<T> Spanned<T> {
    pub fn new(value: T, span: SourceInfo) -> (r: Self)
        ensures
            r.value == value,
            r.span == span,
    {
        Self { value, span }
    }
}

#[derive(Debug)]
pub struct DataDict {
    pub name: Option<String>,
    pub label: Option<String>,
    pub description: Option<String>,
    pub details: Option<String>,
    pub origin: Option<String>,
    /// The top-level `$learn_more` URL.
    pub learn_more: Option<String>,
    pub version: Option<Version>,
    pub tables: Vec<Table>,
    pub relationships: Vec<Relationship>,
    /// Glossary entries, in source order.
    pub glossary: Vec<GlossaryEntry>,
    /// The dataset-level `todo`, when present.
    pub todo: Option<Spanned<String>>,
    /// The top-level `language`: the default expression language for `assert`
    /// and definition `expr` expressions that don't name their own.
    pub language: Option<Spanned<Language>>,
}

/// The dictionary's own `version`: exactly one of the three kinds.
#[derive(Debug, Clone)]
pub enum Version {
    Number(String),
    Date(String),
    Hash(String),
}

#[derive(Debug, Clone)]
pub struct GlossaryEntry {
    pub term: String,
    pub definition: String,
}

/// The first element of `names` equal to `name`, by position.
pub open spec fn first_match(names: Seq<Seq<char>>, name: Seq<char>) -> Option<int> {
    if exists|i: int| 0 <= i < names.len() && names[i] == name {
        Some(choose|i: int| 0 <= i < names.len() && names[i] == name && forall|j: int| 0 <= j < i ==> names[j] != name)
    } else {
        None
    }
}

proof fn lemma_first_match(names: Seq<Seq<char>>, name: Seq<char>, i: int)
    requires
        0 <= i < names.len(),
        names[i] == name,
        forall|j: int| 0 <= j < i ==> names[j] != name,
    ensures
        first_match(names, name) == Some(i),
{
    let k = choose|k: int| 0 <= k < names.len() && names[k] == name && forall|j: int| 0 <= j < k ==> names[j] != name;
    assert(names[i] == name);
    if k < i {
        assert(names[k] != name);
    } else if k > i {
        assert(names[i] != name);
    }
}

impl DataDict {
    pub open spec fn table_names(&self) -> Seq<Seq<char>> {
        self.tables@.map_values(|t: Table| t.name.value@)
    }

    /// The dictionary's default expression language: `sql` unless the
    /// top-level `language` key says otherwise.
    pub fn language(&self) -> (r: Language)
        ensures
            r == (match self.language {
                Some(l) => l.value,
                None => Language::DataDict,
            }),
    {
        match &self.language {
            Some(l) => l.value,
            None => Language::DataDict,
        }
    }

    /// The first table with the given name, or `None`. Duplicate names are an
    /// error (S10); lookups resolve to the first so downstream checks still run.
    pub fn table(&self, name: &str) -> (r: Option<&Table>)
        ensures
            match first_match(self.table_names(), name@) {
                Some(i) => r == Some(&self.tables@[i]),
                None => r is None,
            },
    {
        let mut i: usize = 0;
        while i < self.tables.len()
            invariant
                i <= self.tables@.len(),
                forall|j: int| 0 <= j < i ==> #[trigger] self.table_names()[j] != name@,
            decreases self.tables@.len() - i,
        {
            if str_eq(self.tables[i].name.value.as_str(), name) {
                proof {
                    assert(self.table_names()[i as int] == name@);
                    lemma_first_match(self.table_names(), name@, i as int);
                }
                return Some(&self.tables[i]);
            }
            i = i + 1;
        }
        proof {
            assert forall|j: int| 0 <= j < self.table_names().len() implies self.table_names()[j]
                != name@ by {}
        }
        None
    }
}

/// The `primary_key` column that the foreign-key side `fk` of a conjunct
/// points at through `pk`, as (table index, column index), when `fk` names the
/// column `cname` of the table `tname`.
pub open spec fn fk_target(
    dict: DataDict,
    rel: Relationship,
    tname: Seq<char>,
    cname: Seq<char>,
    fk: QColSpec,
    pk: QColSpec,
) -> Option<(int, int)> {
    if rel.spec_resolve(fk.table) != tname || fk.column != cname {
        None
    } else {
        match first_match(dict.table_names(), rel.spec_resolve(pk.table)) {
            None => None,
            Some(k) => match first_match(dict.tables@[k].column_names(), pk.column) {
                None => None,
                Some(m) => if dict.tables@[k].columns@[m].spec_has(Constraint::PrimaryKey) {
                    Some((k, m))
                } else {
                    None
                },
            },
        }
    }
}

/// The first target among the conjuncts `cs` from index `i` on, each conjunct
/// tried left side first.
pub open spec fn fk_in_conjuncts(
    dict: DataDict,
    rel: Relationship,
    tname: Seq<char>,
    cname: Seq<char>,
    cs: Seq<ConjSpec>,
    i: int,
) -> Option<(int, int)>
    decreases cs.len() - i,
{
    if i < 0 || i >= cs.len() {
        None
    } else {
        match fk_target(dict, rel, tname, cname, cs[i].lhs, cs[i].rhs) {
            Some(x) => Some(x),
            None => match fk_target(dict, rel, tname, cname, cs[i].rhs, cs[i].lhs) {
                Some(x) => Some(x),
                None => fk_in_conjuncts(dict, rel, tname, cname, cs, i + 1),
            },
        }
    }
}

/// The first target among the relationships from index `i` on.
pub open spec fn fk_in_relationships(dict: DataDict, tname: Seq<char>, cname: Seq<char>, i: int) -> Option<(int, int)>
    decreases dict.relationships@.len() - i,
{
    if i < 0 || i >= dict.relationships@.len() {
        None
    } else {
        let rel = dict.relationships@[i];
        let here = match rel.join {
            Some(j) => fk_in_conjuncts(dict, rel, tname, cname, j@, 0),
            None => None,
        };
        match here {
            Some(x) => Some(x),
            None => fk_in_relationships(dict, tname, cname, i + 1),
        }
    }
}

/// Where a `foreign_key` column points: the first `primary_key` column on the
/// other side of a conjunct that names it, as (table index, column index).
pub open spec fn foreign_key_target(dict: DataDict, table: Table, col: Column) -> Option<(int, int)> {
    if !col.spec_has(Constraint::ForeignKey) {
        None
    } else {
        fk_in_relationships(dict, table.name.value@, col.name.value@, 0)
    }
}

impl DataDict {
    /// The target of one side of a conjunct, as `fk_target` describes it.
    fn fk_side<'a>(&'a self, rel: &Relationship, tname: &str, cname: &str, fk: &QCol, pk: &QCol) -> (r: Option<
        (&'a Table, &'a Column),
    >)
        ensures
            match fk_target(*self, *rel, tname@, cname@, fk@, pk@) {
                Some((k, m)) => r == Some((&self.tables@[k], &self.tables@[k].columns@[m])),
                None => r is None,
            },
    {
        if !str_eq(rel.resolve(fk.table.as_str()), tname) || !str_eq(fk.column.as_str(), cname) {
            return None;
        }
        let other = match self.table(rel.resolve(pk.table.as_str())) {
            Some(t) => t,
            None => {
                return None;
            },
        };
        let other_col = match other.column(pk.column.as_str()) {
            Some(c) => c,
            None => {
                return None;
            },
        };
        if other_col.has(Constraint::PrimaryKey) {
            Some((other, other_col))
        } else {
            None
        }
    }

    /// The first target among the conjuncts of `join`, as `fk_in_conjuncts`
    /// describes it.
    fn fk_in_join<'a>(&'a self, rel: &Relationship, tname: &str, cname: &str, join: &JoinExpr) -> (r: Option<
        (&'a Table, &'a Column),
    >)
        ensures
            match fk_in_conjuncts(*self, *rel, tname@, cname@, join@, 0) {
                Some((k, m)) => r == Some((&self.tables@[k], &self.tables@[k].columns@[m])),
                None => r is None,
            },
    {
        let ghost cs = join@;
        let mut j: usize = 0;
        while j < join.conjuncts.len()
            invariant
                j <= join.conjuncts@.len(),
                cs == join@,
                fk_in_conjuncts(*self, *rel, tname@, cname@, cs, 0) == fk_in_conjuncts(*self, *rel, tname@, cname@, cs, j as int),
            decreases join.conjuncts@.len() - j,
        {
            let c = &join.conjuncts[j];
            assert(cs[j as int] == c@);
            match self.fk_side(rel, tname, cname, &c.lhs, &c.rhs) {
                Some(x) => {
                    return Some(x);
                },
                None => {},
            }
            match self.fk_side(rel, tname, cname, &c.rhs, &c.lhs) {
                Some(x) => {
                    return Some(x);
                },
                None => {},
            }
            j = j + 1;
        }
        None
    }

    /// The `(table, column)` a single-column foreign key points at: the
    /// `primary_key` on the other side of a relationship whose join names
    /// `col`. `None` if `col` is not a foreign key, or no relationship
    /// resolves it (the S01 case).
    pub fn resolve_foreign_key<'a>(&'a self, table: &Table, col: &Column) -> (r: Option<(&'a Table, &'a Column)>)
        ensures
            match foreign_key_target(*self, *table, *col) {
                Some((k, m)) => r == Some((&self.tables@[k], &self.tables@[k].columns@[m])),
                None => r is None,
            },
    {
        if !col.has(Constraint::ForeignKey) {
            return None;
        }
        let tname = table.name.value.as_str();
        let cname = col.name.value.as_str();
        let rels = &self.relationships;
        let mut i: usize = 0;
        while i < rels.len()
            invariant
                i <= rels@.len(),
                rels == &self.relationships,
                tname@ == table.name.value@,
                cname@ == col.name.value@,
                col.spec_has(Constraint::ForeignKey),
                fk_in_relationships(*self, tname@, cname@, 0) == fk_in_relationships(*self, tname@, cname@, i as int),
            decreases rels@.len() - i,
        {
            let rel = &rels[i];
            match &rel.join {
                Some(join) => {
                    match self.fk_in_join(rel, tname, cname, join) {
                        Some(x) => {
                            return Some(x);
                        },
                        None => {},
                    }
                },
                None => {},
            }
            i = i + 1;
        }
        None
    }
}

/// A table- or column-level `assert` constraint: the expression text with its
/// span, the parsed form (`None` if it failed to parse), and an optional
/// description.
#[derive(Debug)]
pub struct Assertion {
    pub text: Spanned<String>,
    /// The language `text` is written in, when the author said so.
    pub language: Option<Spanned<Language>>,
    pub expr: Option<AssertExpr>,
    pub description: Option<Spanned<String>>,
    /// Where the source language and the reading disagree.
    pub notes: Vec<&'static str>,
}

impl Assertion {
    /// The language this was written in: the author's own `language`, or the
    /// dictionary default when omitted.
    pub fn language(&self, default: Language) -> (r: Language)
        ensures
            r == (match self.language {
                Some(l) => l.value,
                None => default,
            }),
    {
        match &self.language {
            Some(l) => l.value,
            None => default,
        }
    }
}

/// A language an expression may be written in, as the `language` key names it.
#[derive(Debug, Clone, Copy, PartialEq, Eq, Structural)]
pub enum Language {
    DataDict,
    R,
    Python,
}

pub open spec fn language_key(l: Language) -> Seq<char> {
    match l {
        Language::DataDict => "sql"@,
        Language::R => "r"@,
        Language::Python => "python"@,
    }
}

impl Language {
    pub fn as_str(self) -> (r: &'static str)
        ensures
            r@ == language_key(self),
    {
        match self {
            Language::DataDict => "sql",
            Language::R => "r",
            Language::Python => "python",
        }
    }

    /// How to name it in prose, where the key's own spelling reads oddly.
    pub fn label(self) -> (r: &'static str)
        ensures
            r@ == (match self {
                Language::DataDict => "the data-dict language"@,
                Language::R => "R"@,
                Language::Python => "Python"@,
            }),
    {
        match self {
            Language::DataDict => "the data-dict language",
            Language::R => "R",
            Language::Python => "Python",
        }
    }

    pub fn from_name(name: &str) -> (r: Option<Language>)
        ensures
            match r {
                Some(l) => language_key(l) == name@,
                None => forall|l: Language| language_key(l) != name@,
            },
    {
        if str_eq(name, "sql") {
            Some(Language::DataDict)
        } else if str_eq(name, "r") {
            Some(Language::R)
        } else if str_eq(name, "python") {
            Some(Language::Python)
        } else {
            proof {
                assert forall|l: Language| language_key(l) != name@ by {
                    match l {
                        Language::DataDict => {},
                        Language::R => {},
                        Language::Python => {},
                    }
                }
            }
            None
        }
    }
}

/// A language's key reads back as the language.
pub proof fn law_language_key_round_trip(l: Language, m: Language)
    ensures
        language_key(l) == language_key(m) ==> l == m,
{
    reveal_strlit("sql");
    reveal_strlit("r");
    reveal_strlit("python");
    assert("sql"@.len() == 3 && "r"@.len() == 1 && "python"@.len() == 6);
}

/// A table-level definition: a named expression with its documentation.
#[derive(Debug)]
pub struct Definition {
    pub name: Spanned<String>,
    pub text: Spanned<String>,
    pub language: Option<Spanned<Language>>,
    pub expr: Option<AssertExpr>,
    pub label: Option<String>,
    pub description: Option<String>,
    pub details: Option<String>,
    pub todo: Option<Spanned<String>>,
    pub notes: Vec<&'static str>,
}

impl Definition {
    /// The language this was written in: the author's own `language`, or the
    /// dictionary default when omitted.
    pub fn language(&self, default: Language) -> (r: Language)
        ensures
            r == (match self.language {
                Some(l) => l.value,
                None => default,
            }),
    {
        match &self.language {
            Some(l) => l.value,
            None => default,
        }
    }
}

#[derive(Debug)]
pub struct Table {
    /// The whole table entry node.
    pub span: SourceInfo,
    pub name: Spanned<String>,
    pub columns: Vec<Column>,
    /// Table-level assertions (span multiple columns).
    pub constraints: Vec<Assertion>,
    /// Named expressions defined on this table.
    pub definitions: Vec<Definition>,
    /// Where the table's data lives, when it declares a `source`.
    pub source: Option<Source>,
    pub label: Option<Spanned<String>>,
    pub description: Option<Spanned<String>>,
    pub details: Option<Spanned<String>>,
    pub origin: Option<String>,
    pub todo: Option<Spanned<String>>,
}

#[derive(Debug, Clone)]
pub struct Source {
    pub span: SourceInfo,
    /// path relative to dictionary
    pub parquet: Spanned<String>,
}

impl Table {
    pub open spec fn column_names(&self) -> Seq<Seq<char>> {
        self.columns@.map_values(|c: Column| c.name.value@)
    }

    pub open spec fn definition_names(&self) -> Seq<Seq<char>> {
        self.definitions@.map_values(|d: Definition| d.name.value@)
    }

    /// The first column with the given name.
    pub fn column(&self, name: &str) -> (r: Option<&Column>)
        ensures
            match first_match(self.column_names(), name@) {
                Some(i) => r == Some(&self.columns@[i]),
                None => r is None,
            },
    {
        let mut i: usize = 0;
        while i < self.columns.len()
            invariant
                i <= self.columns@.len(),
                forall|j: int| 0 <= j < i ==> #[trigger] self.column_names()[j] != name@,
            decreases self.columns@.len() - i,
        {
            if str_eq(self.columns[i].name.value.as_str(), name) {
                proof {
                    assert(self.column_names()[i as int] == name@);
                    lemma_first_match(self.column_names(), name@, i as int);
                }
                return Some(&self.columns[i]);
            }
            i = i + 1;
        }
        proof {
            assert forall|j: int| 0 <= j < self.column_names().len() implies self.column_names()[j]
                != name@ by {}
        }
        None
    }

    /// The first definition with the given name. Duplicate names are an error
    /// (S10); lookups resolve to the first so downstream checks still run.
    pub fn definition(&self, name: &str) -> (r: Option<&Definition>)
        ensures
            match first_match(self.definition_names(), name@) {
                Some(i) => r == Some(&self.definitions@[i]),
                None => r is None,
            },
    {
        let mut i: usize = 0;
        while i < self.definitions.len()
            invariant
                i <= self.definitions@.len(),
                forall|j: int| 0 <= j < i ==> #[trigger] self.definition_names()[j] != name@,
            decreases self.definitions@.len() - i,
        {
            if str_eq(self.definitions[i].name.value.as_str(), name) {
                proof {
                    assert(self.definition_names()[i as int] == name@);
                    lemma_first_match(self.definition_names(), name@, i as int);
                }
                return Some(&self.definitions[i]);
            }
            i = i + 1;
        }
        proof {
            assert forall|j: int| 0 <= j < self.definition_names().len() implies self.definition_names()[j]
                != name@ by {}
        }
        None
    }
}

#[derive(Debug)]
pub struct Column {
    pub name: Spanned<String>,
    pub label: Option<String>,
    pub description: Option<String>,
    pub details: Option<String>,
    /// The `display` marker (`restricted`), when present.
    pub display: Option<String>,
    pub constraints: Vec<Spanned<Constraint>>,
    /// Column-level `assert` constraints.
    pub assertions: Vec<Assertion>,
    pub col_type: Option<Spanned<String>>,
    /// The allowed values of an `enum` column.
    pub values: Option<Representation>,
    pub range: Option<Representation>,
    pub examples: Option<Representation>,
    pub units: Option<Spanned<String>>,
    pub time_zone: Option<Spanned<String>>,
    /// Fields for `struct` and `list(struct)` columns. `None` means the
    /// `fields` key was absent.
    pub fields: Option<Vec<Column>>,
    pub todo: Option<Spanned<String>>,
}

#[derive(Debug, Clone)]
pub struct Representation {
    /// The value node — the list, map, or whatever stands in for one.
    pub span: SourceInfo,
    /// The `values` / `range` / `examples` key itself.
    pub key_span: SourceInfo,
    pub items: Vec<Spanned<Scalar>>,
    /// What each item was labelled with, for an enum written in the map form:
    /// either empty or exactly as long as `items`.
    pub labels: Vec<String>,
}

/// A scalar item of a representation list. A non-integer number is held as
/// the text it was written with, so no value is routed through a float here.
#[derive(Debug, Clone)]
pub enum Scalar {
    /// An integer, kept exact.
    Int(i64),
    /// A number with a fractional part, as written.
    Float(String),
    String(String),
    Bool(bool),
    Null,
    /// A list or map — never valid in a representation list.
    Compound,
}

/// English noun phrase naming a scalar's kind.
pub open spec fn scalar_noun(s: Scalar) -> Seq<char> {
    match s {
        Scalar::Int(_) | Scalar::Float(_) => "a number"@,
        Scalar::String(_) => "a string"@,
        Scalar::Bool(_) => "a boolean"@,
        Scalar::Null => "null"@,
        Scalar::Compound => "a list or map"@,
    }
}

impl Scalar {
    /// English noun phrase naming the scalar's kind, for diagnostics.
    pub fn noun(&self) -> (r: &'static str)
        ensures
            r@ == scalar_noun(*self),
    {
        match self {
            Scalar::Int(_) | Scalar::Float(_) => "a number",
            Scalar::String(_) => "a string",
            Scalar::Bool(_) => "a boolean",
            Scalar::Null => "null",
            Scalar::Compound => "a list or map",
        }
    }

    /// The string form this value takes in data, for enum membership: `None`
    /// for anything but a string.
    pub fn as_enum_value(&self) -> (r: Option<&str>)
        ensures
            match self {
                Scalar::String(s) => r matches Some(v) && v@ == s@,
                _ => r is None,
            },
    {
        match self {
            Scalar::String(s) => Some(s.as_str()),
            _ => None,
        }
    }
}

impl Column {
    pub open spec fn constraint_values(&self) -> Seq<Constraint> {
        self.constraints@.map_values(|c: Spanned<Constraint>| c.value)
    }

    pub open spec fn spec_has(&self, c: Constraint) -> bool {
        self.constraint_values().contains(c)
    }

    pub fn has(&self, c: Constraint) -> (r: bool)
        ensures
            r == self.spec_has(c),
    {
        let mut i: usize = 0;
        while i < self.constraints.len()
            invariant
                i <= self.constraints@.len(),
                forall|j: int| 0 <= j < i ==> #[trigger] self.constraint_values()[j] != c,
            decreases self.constraints@.len() - i,
        {
            if self.constraints[i].value == c {
                assert(self.constraint_values()[i as int] == c);
                return true;
            }
            i = i + 1;
        }
        false
    }

    /// The span of the first constraint the column carries that is one of `cs`.
    pub fn constraint_span(&self, cs: &[Constraint]) -> (r: Option<&SourceInfo>)
        ensures
            match r {
                Some(sp) => exists|i: int| 0 <= i < self.constraints@.len() && cs@.contains(
                    self.constraints@[i].value,
                ) && sp == &self.constraints@[i].span && forall|j: int| 0 <= j < i
                    ==> !cs@.contains(#[trigger] self.constraints@[j].value),
                None => forall|j: int| 0 <= j < self.constraints@.len() ==> !cs@.contains(
                    #[trigger] self.constraints@[j].value,
                ),
            },
    {
        let mut i: usize = 0;
        while i < self.constraints.len()
            invariant
                i <= self.constraints@.len(),
                forall|j: int| 0 <= j < i ==> !cs@.contains(#[trigger] self.constraints@[j].value),
            decreases self.constraints@.len() - i,
        {
            let v = self.constraints[i].value;
            let mut k: usize = 0;
            while k < cs.len()
                invariant
                    k <= cs@.len(),
                    i < self.constraints@.len(),
                    v == self.constraints@[i as int].value,
                    forall|j: int| 0 <= j < i ==> !cs@.contains(#[trigger] self.constraints@[j].value),
                    forall|m: int| 0 <= m < k ==> #[trigger] cs@[m] != v,
                decreases cs@.len() - k,
            {
                if cs[k] == v {
                    assert(cs@[k as int] == v);
                    assert(cs@.contains(v));
                    return Some(&self.constraints[i].span);
                }
                k = k + 1;
            }
            assert(!cs@.contains(v));
            i = i + 1;
        }
        None
    }

    /// True if the column is unique-by-row: explicitly `unique` or
    /// `primary_key` (which the spec defines as implying `unique`).
    pub fn is_unique_implied(&self) -> (r: bool)
        ensures
            r == (self.spec_has(Constraint::Unique) || self.spec_has(Constraint::PrimaryKey)),
    {
        self.has(Constraint::Unique) || self.has(Constraint::PrimaryKey)
    }

    /// True if the column may not contain nulls: explicitly `required` or
    /// `primary_key` (which the spec defines as implying `required`).
    pub fn is_required_implied(&self) -> (r: bool)
        ensures
            r == (self.spec_has(Constraint::Required) || self.spec_has(Constraint::PrimaryKey)),
    {
        self.has(Constraint::Required) || self.has(Constraint::PrimaryKey)
    }

    /// Whether the column's values are enum categories: an `enum` column, or a
    /// list (nested to any depth) whose innermost elements are.
    pub fn is_enum(&self) -> (r: bool)
        ensures
            r == (self.col_type matches Some(t) && innermost(t.value@) == "enum"@),
    {
        match &self.col_type {
            None => false,
            Some(t) => {
                let inner = innermost_type(t.value.as_str());
                str_eq(inner, "enum")
            },
        }
    }
}

/// `ty` with every `list(...)` wrapper removed.
pub fn innermost_type(ty: &str) -> (r: &str)
    ensures
        r@ == innermost(ty@),
    decreases ty@.len(),
{
    match crate::text::list_element(ty) {
        Some(elem) => innermost_type(elem),
        None => ty,
    }
}

#[derive(Debug, Clone, Copy, PartialEq, Eq, Structural)]
pub enum Constraint {
    PrimaryKey,
    ForeignKey,
    Required,
    Unique,
}

pub open spec fn constraint_key(c: Constraint) -> Seq<char> {
    match c {
        Constraint::PrimaryKey => "primary_key"@,
        Constraint::ForeignKey => "foreign_key"@,
        Constraint::Required => "required"@,
        Constraint::Unique => "unique"@,
    }
}

impl Constraint {
    pub fn parse(s: &str) -> (r: Option<Self>)
        ensures
            match r {
                Some(c) => constraint_key(c) == s@,
                None => forall|c: Constraint| constraint_key(c) != s@,
            },
    {
        if str_eq(s, "primary_key") {
            Some(Constraint::PrimaryKey)
        } else if str_eq(s, "foreign_key") {
            Some(Constraint::ForeignKey)
        } else if str_eq(s, "required") {
            Some(Constraint::Required)
        } else if str_eq(s, "unique") {
            Some(Constraint::Unique)
        } else {
            proof {
                assert forall|c: Constraint| constraint_key(c) != s@ by {
                    match c {
                        Constraint::PrimaryKey => {},
                        Constraint::ForeignKey => {},
                        Constraint::Required => {},
                        Constraint::Unique => {},
                    }
                }
            }
            None
        }
    }
}

#[derive(Debug)]
pub struct Relationship {
    pub description: Option<String>,
    pub cardinality: Spanned<Cardinality>,
    /// The join string as written, with its source span.
    pub join_text: Spanned<String>,
    /// `None` if the join string failed to parse.
    pub join: Option<JoinExpr>,
    pub conflicts: Vec<Spanned<String>>,
    /// Alias declarations, in source order. Scoped to this relationship.
    pub aliases: Vec<Alias>,
    pub todo: Option<Spanned<String>>,
}

impl Relationship {
    pub open spec fn alias_names(&self) -> Seq<Seq<char>> {
        self.aliases@.map_values(|a: Alias| a.name.value@)
    }

    /// The table a name in the `join` stands for under this relationship's
    /// aliases.
    pub open spec fn spec_resolve(&self, name: Seq<char>) -> Seq<char> {
        match first_match(self.alias_names(), name) {
            Some(i) => self.aliases@[i].table.value@,
            None => name,
        }
    }

    /// The table a name in the `join` refers to: the target of the alias of
    /// that name, or `name` itself when no alias declares it.
    pub fn resolve<'a>(&'a self, name: &'a str) -> (r: &'a str)
        ensures
            r@ == self.spec_resolve(name@),
    {
        match self.alias(name) {
            Some(a) => a.table.value.as_str(),
            None => name,
        }
    }

    pub fn alias(&self, name: &str) -> (r: Option<&Alias>)
        ensures
            match first_match(self.alias_names(), name@) {
                Some(i) => r == Some(&self.aliases@[i]),
                None => r is None,
            },
    {
        let mut i: usize = 0;
        while i < self.aliases.len()
            invariant
                i <= self.aliases@.len(),
                forall|j: int| 0 <= j < i ==> #[trigger] self.alias_names()[j] != name@,
            decreases self.aliases@.len() - i,
        {
            if str_eq(self.aliases[i].name.value.as_str(), name) {
                proof {
                    assert(self.alias_names()[i as int] == name@);
                    lemma_first_match(self.alias_names(), name@, i as int);
                }
                return Some(&self.aliases[i]);
            }
            i = i + 1;
        }
        proof {
            assert forall|j: int| 0 <= j < self.alias_names().len() implies self.alias_names()[j]
                != name@ by {}
        }
        None
    }
}

/// One `aliases` entry: the alias itself and the table it stands for.
#[derive(Debug, Clone)]
pub struct Alias {
    pub name: Spanned<String>,
    pub table: Spanned<String>,
}

#[derive(Debug, Clone, Copy, PartialEq, Eq, Structural)]
pub enum Cardinality {
    OneToOne,
    OneToMany,
    ManyToOne,
}

pub open spec fn cardinality_key(c: Cardinality) -> Seq<char> {
    match c {
        Cardinality::OneToOne => "one-to-one"@,
        Cardinality::OneToMany => "one-to-many"@,
        Cardinality::ManyToOne => "many-to-one"@,
    }
}

impl Cardinality {
    pub fn parse(s: &str) -> (r: Option<Self>)
        ensures
            match r {
                Some(c) => cardinality_key(c) == s@,
                None => forall|c: Cardinality| cardinality_key(c) != s@,
            },
    {
        if str_eq(s, "one-to-one") {
            Some(Cardinality::OneToOne)
        } else if str_eq(s, "one-to-many") {
            Some(Cardinality::OneToMany)
        } else if str_eq(s, "many-to-one") {
            Some(Cardinality::ManyToOne)
        } else {
            proof {
                assert forall|c: Cardinality| cardinality_key(c) != s@ by {
                    match c {
                        Cardinality::OneToOne => {},
                        Cardinality::OneToMany => {},
                        Cardinality::ManyToOne => {},
                    }
                }
            }
            None
        }
    }
}

/// Each constraint and each cardinality has a distinct key, so parsing a key
/// names exactly one of them.
pub proof fn law_keys_are_distinct(a: Constraint, b: Constraint, c: Cardinality, d: Cardinality)
    ensures
        constraint_key(a) == constraint_key(b) ==> a == b,
        cardinality_key(c) == cardinality_key(d) ==> c == d,
{
    reveal_strlit("primary_key");
    reveal_strlit("foreign_key");
    reveal_strlit("required");
    reveal_strlit("unique");
    reveal_strlit("one-to-one");
    reveal_strlit("one-to-many");
    reveal_strlit("many-to-one");
    assert("primary_key"@[0] == 'p' && "foreign_key"@[0] == 'f');
    assert("primary_key"@.len() == 11 && "foreign_key"@.len() == 11);
    assert("required"@.len() == 8 && "unique"@.len() == 6);
    assert("one-to-one"@.len() == 10 && "one-to-many"@.len() == 11 && "many-to-one"@.len() == 11);
    assert("one-to-many"@[0] == 'o' && "many-to-one"@[0] == 'm');
}

} // verus!
