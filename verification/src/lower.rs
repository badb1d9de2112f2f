//! Lowering a dictionary document's YAML tree into the [`DataDict`] model.
//!
//! Lowering reads a document the schema has accepted, so the shape is taken
//! as given: where a key holds the wrong kind of value it is passed over,
//! and where an entry occurs twice the later one decides (or, for the lists,
//! both contribute, in order). Spans are carried along and not stated.

use vstd::prelude::*;

use quarto_source_map::SourceInfo;

use crate::join_expr::{spec_parse_join, JoinExpr};
use crate::assert_expr::grammar::parse_text;
use crate::assert_expr::parse::view_expr;
use crate::assert_expr::AssertExpr;
use crate::model::{
    cardinality_key, constraint_key, language_key, Alias, Assertion, Cardinality, Column, Constraint, DataDict, Definition,
    GlossaryEntry, Language, Relationship, Representation, Scalar, Source, Spanned, Table, Version,
};
use crate::yaml::{entry_at, value_at};
use crate::problem::{Problem, ProblemKind, ProblemSet, Severity};
use crate::text::str_eq;
use crate::yaml::{entries_of, items_of, str_of, Yaml, YamlEntry, YamlValue};

verus! {

// --- Scalars -----------------------------------------------------------------------------

/// `s` is the scalar the node `y` stands for: a boolean, an integer, a number
/// as written, a string, a list or map (compound), or null.
pub open spec fn scalar_is(s: Scalar, y: Yaml) -> bool {
    match y.value {
        YamlValue::Bool(b) => s == Scalar::Bool(b),
        YamlValue::Int(i) => s == Scalar::Int(i),
        YamlValue::Real(t) => s matches Scalar::Float(u) && u@ == t@,
        YamlValue::Str(t) => s matches Scalar::String(u) && u@ == t@,
        YamlValue::List(_) => s == Scalar::Compound,
        YamlValue::Mapping(_) => s == Scalar::Compound,
        _ => s == Scalar::Null,
    }
}

/// The scalar a YAML node stands for.
pub fn lower_scalar(node: &Yaml) -> (r: Scalar)
    ensures
        scalar_is(r, *node),
{
    match &node.value {
        YamlValue::Bool(b) => Scalar::Bool(*b),
        YamlValue::Int(i) => Scalar::Int(*i),
        YamlValue::Real(t) => Scalar::Float(t.clone()),
        YamlValue::Str(t) => Scalar::String(t.clone()),
        YamlValue::List(_) => Scalar::Compound,
        YamlValue::Mapping(_) => Scalar::Compound,
        _ => Scalar::Null,
    }
}

/// `v` holds the scalars of the items of `y`, a list; nothing when `y` is not one.
pub open spec fn scalars_are(v: Seq<Spanned<Scalar>>, y: Yaml) -> bool {
    match items_of(y) {
        Some(xs) => v.len() == xs.len() && forall|i: int| 0 <= i < xs.len() ==> scalar_is(#[trigger] v[i].value, xs[i]),
        None => v.len() == 0,
    }
}

/// The scalars of a `range` or `examples` list, each with its span.
pub fn lower_scalars(node: &Yaml) -> (r: Vec<Spanned<Scalar>>)
    ensures
        scalars_are(r@, *node),
{
    let mut out: Vec<Spanned<Scalar>> = Vec::new();
    match &node.value {
        YamlValue::List(xs) => {
            let mut i: usize = 0;
            while i < xs.len()
                invariant
                    i <= xs@.len(),
                    out@.len() == i,
                    forall|k: int| 0 <= k < i ==> scalar_is(#[trigger] out@[k].value, xs@[k]),
                decreases xs@.len() - i,
            {
                let s = lower_scalar(&xs[i]);
                out.push(Spanned::new(s, xs[i].span.clone()));
                i = i + 1;
            }
        },
        _ => {},
    }
    out
}

/// Every value of the entries is a string.
pub open spec fn all_labelled(es: Seq<YamlEntry>) -> bool {
    forall|i: int| 0 <= i < es.len() ==> (#[trigger] es[i]).value.value is Str
}

/// The items and labels of an enum's `values`: in the map form the keys are
/// the values and the labels are the entries' string values, kept only when
/// every entry has one; in any other form the items are the list's scalars
/// and there are no labels.
pub open spec fn enum_values_are(items: Seq<Spanned<Scalar>>, labels: Seq<String>, y: Yaml) -> bool {
    match entries_of(y) {
        Some(es) => {
            &&& items.len() == es.len()
            &&& forall|i: int| 0 <= i < es.len() ==> scalar_is(#[trigger] items[i].value, es[i].key)
            &&& if all_labelled(es) {
                labels.len() == es.len() && forall|i: int|
                    0 <= i < es.len() ==> str_of(es[i].value) == Some((#[trigger] labels[i])@)
            } else {
                labels.len() == 0
            }
        },
        None => scalars_are(items, y) && labels.len() == 0,
    }
}

/// An enum's `values`: the allowed scalars with their spans, and the label
/// each was written with when every one has one.
pub fn lower_enum_values(node: &Yaml) -> (r: (Vec<Spanned<Scalar>>, Vec<String>))
    ensures
        enum_values_are(r.0@, r.1@, *node),
{
    match &node.value {
        YamlValue::Mapping(es) => {
            let mut items: Vec<Spanned<Scalar>> = Vec::new();
            let mut labels: Vec<String> = Vec::new();
            let mut labelled = true;
            let mut i: usize = 0;
            while i < es.len()
                invariant
                    i <= es@.len(),
                    items@.len() == i,
                    forall|k: int| 0 <= k < i ==> scalar_is(#[trigger] items@[k].value, es@[k].key),
                    labelled == all_labelled(es@.take(i as int)),
                    labelled ==> labels@.len() == i && forall|k: int|
                        0 <= k < i ==> str_of(es@[k].value) == Some((#[trigger] labels@[k])@),
                decreases es@.len() - i,
            {
                let e = &es[i];
                items.push(Spanned::new(lower_scalar(&e.key), e.key.span.clone()));
                proof {
                    assert(es@.take(i + 1).drop_last() =~= es@.take(i as int));
                    assert forall|k: int| 0 <= k < i implies (#[trigger] es@.take(i + 1)[k]) == es@.take(
                        i as int,
                    )[k] by {}
                    assert(es@.take(i + 1)[i as int] == es@[i as int]);
                }
                match &e.value.value {
                    YamlValue::Str(t) => {
                        if labelled {
                            labels.push(t.clone());
                        }
                    },
                    _ => {
                        labelled = false;
                    },
                }
                i = i + 1;
            }
            proof {
                assert(es@.take(es@.len() as int) =~= es@);
            }
            if !labelled {
                labels = Vec::new();
            }
            (items, labels)
        },
        _ => (lower_scalars(node), Vec::new()),
    }
}

// --- Entries -----------------------------------------------------------------------------

/// The last of the entries whose key is the string `key` and that `ok` accepts.
pub open spec fn last_entry(es: Seq<YamlEntry>, key: Seq<char>, ok: spec_fn(YamlEntry) -> bool) -> Option<
    YamlEntry,
>
    decreases es.len(),
{
    if es.len() == 0 {
        None
    } else if str_of(es.last().key) == Some(key) && ok(es.last()) {
        Some(es.last())
    } else {
        last_entry(es.drop_last(), key, ok)
    }
}

/// Any entry.
pub open spec fn any_entry() -> spec_fn(YamlEntry) -> bool {
    |e: YamlEntry| true
}

/// An entry whose value is a string.
pub open spec fn str_entry() -> spec_fn(YamlEntry) -> bool {
    |e: YamlEntry| e.value.value is Str
}

/// The string value of the last entry with the key `key`, `None` when that
/// entry's value is not a string or there is no such entry.
pub open spec fn last_str(es: Seq<YamlEntry>, key: Seq<char>) -> Option<Seq<char>> {
    match last_entry(es, key, any_entry()) {
        Some(e) => str_of(e.value),
        None => None,
    }
}

/// The value of the last entry with the key `key` whose value is a string.
pub open spec fn last_str_value(es: Seq<YamlEntry>, key: Seq<char>) -> Option<Seq<char>> {
    match last_entry(es, key, str_entry()) {
        Some(e) => str_of(e.value),
        None => None,
    }
}

pub open spec fn opt_text(o: Option<String>) -> Option<Seq<char>> {
    match o {
        Some(s) => Some(s@),
        None => None,
    }
}

pub open spec fn opt_spanned_text(o: Option<Spanned<String>>) -> Option<Seq<char>> {
    match o {
        Some(s) => Some(s.value@),
        None => None,
    }
}

/// A step of a scan over entries: the last-entry result for one more entry.
pub proof fn lemma_last_entry_step(es: Seq<YamlEntry>, i: int, key: Seq<char>, ok: spec_fn(YamlEntry) -> bool)
    requires
        0 <= i < es.len(),
    ensures
        last_entry(es.take(i + 1), key, ok) == (if str_of(es[i].key) == Some(key) && ok(es[i]) {
            Some(es[i])
        } else {
            last_entry(es.take(i), key, ok)
        }),
{
    assert(es.take(i + 1).drop_last() =~= es.take(i));
    assert(es.take(i + 1).last() == es[i]);
}

/// Whether `key` and `k` are the same key.
fn is_key(k: &Yaml, key: &str) -> (r: bool)
    ensures
        r == (str_of(*k) == Some(key@)),
{
    match &k.value {
        YamlValue::Str(s) => str_eq(s.as_str(), key),
        _ => false,
    }
}

/// A string node's text, copied.
fn text_of(y: &Yaml) -> (r: Option<String>)
    ensures
        opt_text(r) == str_of(*y),
{
    match &y.value {
        YamlValue::Str(s) => Some(s.clone()),
        _ => None,
    }
}


// --- Relationships -----------------------------------------------------------------------

/// The string texts among `xs`, in order.
pub open spec fn strs_of(xs: Seq<Yaml>) -> Seq<Seq<char>>
    decreases xs.len(),
{
    if xs.len() == 0 {
        seq![]
    } else {
        strs_of(xs.drop_last()) + match str_of(xs.last()) {
            Some(t) => seq![t],
            None => seq![],
        }
    }
}

/// The (name, table) pairs among `es` whose key and value are both strings.
pub open spec fn str_pairs(es: Seq<YamlEntry>) -> Seq<(Seq<char>, Seq<char>)>
    decreases es.len(),
{
    if es.len() == 0 {
        seq![]
    } else {
        str_pairs(es.drop_last()) + match (str_of(es.last().key), str_of(es.last().value)) {
            (Some(a), Some(b)) => seq![(a, b)],
            _ => seq![],
        }
    }
}

/// What one entry adds to a relationship's `conflicts`.
pub open spec fn entry_conflicts(e: YamlEntry) -> Seq<Seq<char>> {
    if str_of(e.key) == Some("conflicts"@) {
        match items_of(e.value) {
            Some(xs) => strs_of(xs),
            None => seq![],
        }
    } else {
        seq![]
    }
}

/// What one entry adds to a relationship's `aliases`.
pub open spec fn entry_aliases(e: YamlEntry) -> Seq<(Seq<char>, Seq<char>)> {
    if str_of(e.key) == Some("aliases"@) {
        match entries_of(e.value) {
            Some(ps) => str_pairs(ps),
            None => seq![],
        }
    } else {
        seq![]
    }
}

/// The conflict columns every `conflicts` entry of `es` lists, in order.
pub open spec fn conflict_texts(es: Seq<YamlEntry>) -> Seq<Seq<char>>
    decreases es.len(),
{
    if es.len() == 0 {
        seq![]
    } else {
        conflict_texts(es.drop_last()) + entry_conflicts(es.last())
    }
}

/// The aliases every `aliases` entry of `es` declares, in order.
pub open spec fn alias_pairs(es: Seq<YamlEntry>) -> Seq<(Seq<char>, Seq<char>)>
    decreases es.len(),
{
    if es.len() == 0 {
        seq![]
    } else {
        alias_pairs(es.drop_last()) + entry_aliases(es.last())
    }
}

/// An entry whose value names a cardinality.
pub open spec fn cardinality_entry() -> spec_fn(YamlEntry) -> bool {
    |e: YamlEntry| match str_of(e.value) {
        Some(t) => exists|c: Cardinality| cardinality_key(c) == t,
        None => false,
    }
}

/// What the schema guarantees of a relationship entry: a mapping with a
/// `join` string and a `cardinality` it names.
pub open spec fn relationship_shaped(node: Yaml) -> bool {
    match entries_of(node) {
        Some(es) => last_entry(es, "cardinality"@, cardinality_entry()) is Some && last_entry(
            es,
            "join"@,
            str_entry(),
        ) is Some,
        None => false,
    }
}

/// `r` is the relationship the entry `node` declares.
pub open spec fn relationship_is(r: Relationship, node: Yaml) -> bool {
    let es = entries_of(node)->0;
    let join = last_str_value(es, "join"@)->0;
    &&& opt_text(r.description) == last_str(es, "description"@)
    &&& Some(cardinality_key(r.cardinality.value)) == str_of(
        last_entry(es, "cardinality"@, cardinality_entry())->0.value,
    )
    &&& r.join_text.value@ == join
    &&& match (r.join, spec_parse_join(vstd::utf8::encode_utf8(join))) {
        (Some(j), Ok(cs)) => j@ == cs,
        (None, Err(_)) => true,
        _ => false,
    }
    &&& r.conflicts@.map_values(|c: Spanned<String>| c.value@) == conflict_texts(es)
    &&& r.aliases@.map_values(|a: Alias| (a.name.value@, a.table.value@)) == alias_pairs(es)
    &&& opt_spanned_text(r.todo) == last_str(es, "todo"@)
}

/// What lowering a relationship reports: S04 when its `join` does not parse.
pub open spec fn relationship_issues(node: Yaml) -> Seq<Issue> {
    let join = last_str_value(entries_of(node)->0, "join"@)->0;
    match spec_parse_join(vstd::utf8::encode_utf8(join)) {
        Ok(_) => seq![],
        Err(e) => seq![Issue { code: "S04"@, expected: None, message: "`join` expression does not parse: "@ + e.message }],
    }
}

/// The string items of a list, each with its span.
fn lower_strs(xs: &Vec<Yaml>, out: &mut Vec<Spanned<String>>)
    ensures
        final(out)@.map_values(|c: Spanned<String>| c.value@) == old(out)@.map_values(
            |c: Spanned<String>| c.value@,
        ) + strs_of(xs@),
{
    let ghost base = out@.map_values(|c: Spanned<String>| c.value@);
    let mut i: usize = 0;
    assert(strs_of(xs@.take(0)) =~= Seq::<Seq<char>>::empty());
    assert(base + strs_of(xs@.take(0)) =~= base);
    while i < xs.len()
        invariant
            i <= xs@.len(),
            out@.map_values(|c: Spanned<String>| c.value@) == base + strs_of(xs@.take(i as int)),
        decreases xs@.len() - i,
    {
        let ghost before = out@.map_values(|c: Spanned<String>| c.value@);
        proof {
            assert(xs@.take(i + 1).drop_last() =~= xs@.take(i as int));
            assert(xs@.take(i + 1).last() == xs@[i as int]);
        }
        match text_of(&xs[i]) {
            Some(t) => {
                out.push(Spanned::new(t, xs[i].span.clone()));
                assert(out@.map_values(|c: Spanned<String>| c.value@) =~= before.push(str_of(xs@[i as int])->0));
            },
            None => {},
        }
        proof {
            assert(out@.map_values(|c: Spanned<String>| c.value@) =~= base + strs_of(xs@.take(i + 1)));
        }
        i = i + 1;
    }
    assert(xs@.take(xs@.len() as int) =~= xs@);
}

/// The aliases a mapping declares: each entry whose key and value are strings.
fn lower_aliases(ps: &Vec<YamlEntry>, out: &mut Vec<Alias>)
    ensures
        final(out)@.map_values(|a: Alias| (a.name.value@, a.table.value@)) == old(out)@.map_values(
            |a: Alias| (a.name.value@, a.table.value@),
        ) + str_pairs(ps@),
{
    let ghost base = out@.map_values(|a: Alias| (a.name.value@, a.table.value@));
    let mut i: usize = 0;
    assert(str_pairs(ps@.take(0)) =~= Seq::<(Seq<char>, Seq<char>)>::empty());
    assert(base + str_pairs(ps@.take(0)) =~= base);
    while i < ps.len()
        invariant
            i <= ps@.len(),
            out@.map_values(|a: Alias| (a.name.value@, a.table.value@)) == base + str_pairs(ps@.take(i as int)),
        decreases ps@.len() - i,
    {
        let ghost before = out@.map_values(|a: Alias| (a.name.value@, a.table.value@));
        proof {
            assert(ps@.take(i + 1).drop_last() =~= ps@.take(i as int));
            assert(ps@.take(i + 1).last() == ps@[i as int]);
        }
        let p = &ps[i];
        match (text_of(&p.key), text_of(&p.value)) {
            (Some(a), Some(b)) => {
                out.push(Alias { name: Spanned::new(a, p.key.span.clone()), table: Spanned::new(b, p.value_span.clone()) });
                assert(out@.map_values(|a: Alias| (a.name.value@, a.table.value@)) =~= before.push(
                    (str_of(p.key)->0, str_of(p.value)->0),
                ));
            },
            _ => {},
        }
        proof {
            assert(out@.map_values(|a: Alias| (a.name.value@, a.table.value@)) =~= base + str_pairs(ps@.take(i + 1)));
        }
        i = i + 1;
    }
    assert(ps@.take(ps@.len() as int) =~= ps@);
}

/// The sub-span `at..end` of `span`, or `span` itself when it does not
/// resolve to one stretch of a file.
fn subspan_or(span: &SourceInfo, at: usize, end: usize) -> (r: SourceInfo) {
    crate::validate_spec::sub_or_whole(span, at, end)
}

/// Lower a `relationships` entry, parsing its `join`; a join that does not
/// parse is reported as S04 and leaves `join` empty.
pub fn lower_relationship(node: &Yaml, problems: &mut ProblemSet) -> (r: Relationship)
    requires
        relationship_shaped(*node),
    ensures
        relationship_is(r, *node),
        pushed(old(problems).items@, final(problems).items@, relationship_issues(*node)),
        final(problems).source == old(problems).source,
{
    let es = node.as_hash().unwrap();
    let mut description: Option<String> = None;
    let mut cardinality: Option<Spanned<Cardinality>> = None;
    let mut join_text: Option<Spanned<String>> = None;
    let mut conflicts: Vec<Spanned<String>> = Vec::new();
    let mut aliases: Vec<Alias> = Vec::new();
    let mut todo: Option<Spanned<String>> = None;
    let ghost cf = |s: Seq<YamlEntry>| conflict_texts(s);
    let ghost cg = |e: YamlEntry| entry_conflicts(e);
    let ghost af = |s: Seq<YamlEntry>| alias_pairs(s);
    let ghost ag = |e: YamlEntry| entry_aliases(e);
    proof {
        assert(conflicts@.map_values(|c: Spanned<String>| c.value@) =~= conflict_texts(es@.take(0)));
        assert(aliases@.map_values(|a: Alias| (a.name.value@, a.table.value@)) =~= alias_pairs(es@.take(0)));
        assert(es@.take(0) =~= Seq::<YamlEntry>::empty());
    }
    let mut i: usize = 0;
    while i < es.len()
        invariant
            i <= es@.len(),
            entries_of(*node) == Some(es@),
            opt_text(description) == match last_entry(es@.take(i as int), "description"@, any_entry()) {
                Some(e) => str_of(e.value),
                None => None,
            },
            match (cardinality, last_entry(es@.take(i as int), "cardinality"@, cardinality_entry())) {
                (Some(c), Some(e)) => Some(cardinality_key(c.value)) == str_of(e.value),
                (None, None) => true,
                _ => false,
            },
            match (join_text, last_entry(es@.take(i as int), "join"@, str_entry())) {
                (Some(j), Some(e)) => Some(j.value@) == str_of(e.value),
                (None, None) => true,
                _ => false,
            },
            conflicts@.map_values(|c: Spanned<String>| c.value@) == conflict_texts(es@.take(i as int)),
            aliases@.map_values(|a: Alias| (a.name.value@, a.table.value@)) == alias_pairs(es@.take(i as int)),
            opt_spanned_text(todo) == match last_entry(es@.take(i as int), "todo"@, any_entry()) {
                Some(e) => str_of(e.value),
                None => None,
            },
        decreases es@.len() - i,
    {
        let e = &es[i];
        proof {
            reveal_strlit("description");
            reveal_strlit("cardinality");
            reveal_strlit("join");
            reveal_strlit("conflicts");
            reveal_strlit("aliases");
            reveal_strlit("todo");
            lemma_last_entry_step(es@, i as int, "description"@, any_entry());
            lemma_last_entry_step(es@, i as int, "cardinality"@, cardinality_entry());
            lemma_last_entry_step(es@, i as int, "join"@, str_entry());
            lemma_last_entry_step(es@, i as int, "todo"@, any_entry());
            assert(es@.take(i + 1).drop_last() =~= es@.take(i as int));
            assert(es@.take(i + 1).last() == es@[i as int]);
        }
        let ghost c0 = conflicts@.map_values(|c: Spanned<String>| c.value@);
        let ghost a0 = aliases@.map_values(|a: Alias| (a.name.value@, a.table.value@));
        if is_key(&e.key, "description") {
            description = text_of(&e.value);
        }
        if is_key(&e.key, "cardinality") {
            match &e.value.value {
                YamlValue::Str(t) => match Cardinality::parse(t.as_str()) {
                    Some(c) => {
                        cardinality = Some(Spanned::new(c, e.value_span.clone()));
                    },
                    None => {},
                },
                _ => {},
            }
        }
        if is_key(&e.key, "join") {
            match &e.value.value {
                YamlValue::Str(t) => {
                    join_text = Some(Spanned::new(t.clone(), e.value_span.clone()));
                },
                _ => {},
            }
        }
        if is_key(&e.key, "conflicts") {
            match &e.value.value {
                YamlValue::List(xs) => {
                    lower_strs(xs, &mut conflicts);
                },
                _ => {},
            }
        }
        if is_key(&e.key, "aliases") {
            match &e.value.value {
                YamlValue::Mapping(ps) => {
                    lower_aliases(ps, &mut aliases);
                },
                _ => {},
            }
        }
        if is_key(&e.key, "todo") {
            todo = match text_of(&e.value) {
                Some(t) => Some(Spanned::new(t, e.value_span.clone())),
                None => None,
            };
        }
        proof {
            assert(conflicts@.map_values(|c: Spanned<String>| c.value@) =~= c0 + entry_conflicts(es@[i as int]));
            assert(aliases@.map_values(|a: Alias| (a.name.value@, a.table.value@)) =~= a0 + entry_aliases(es@[i as int]));
        }
        i = i + 1;
    }
    proof {
        assert(es@.take(es@.len() as int) =~= es@);
    }
    let cardinality = cardinality.unwrap();
    let join_text = join_text.unwrap();
    let join = match JoinExpr::parse(join_text.value.as_str()) {
        Ok(j) => Some(j),
        Err(err) => {
            let n = join_text.value.as_str().as_bytes().len();
            let end = if err.at < n {
                err.at
            } else {
                n
            };
            let span = subspan_or(&join_text.span, err.at, end);
            let mut message = String::from_str("`join` expression does not parse: ");
            message.append(err.message.as_str());
            problems.push(Problem::spec("S04", Severity::Error, message, span));
            proof {
                assert(problems.items@.take(old(problems).items@.len() as int) =~= old(problems).items@);
                assert(err@ == spec_parse_join(vstd::utf8::encode_utf8(join_text.value@))->Err_0);
                assert(problems.items@[old(problems).items@.len() as int + 0] == problems.items@.last());
            }
            None
        },
    };
    proof {
        if join is Some {
            lemma_pushed_none(problems.items@);
        }
    }
    Relationship { description, cardinality, join_text, join, conflicts, aliases, todo }
}


// --- Expressions -------------------------------------------------------------------------

/// A problem lowering reports, as the rules state it: its code, the rule when
/// it names one, and what was found.
pub ghost struct Issue {
    pub code: Seq<char>,
    pub expected: Option<Seq<char>>,
    pub message: Seq<char>,
}

/// `after` is `before` with an error reported for each of `issues`, in order.
pub open spec fn pushed(before: Seq<Problem>, after: Seq<Problem>, issues: Seq<Issue>) -> bool {
    &&& after.len() == before.len() + issues.len()
    &&& after.take(before.len() as int) == before
    &&& forall|i: int|
        0 <= i < issues.len() ==> {
            let p = #[trigger] after[before.len() + i];
            &&& p.code matches Some(c) && c@ == issues[i].code
            &&& p.severity == Severity::Error
            &&& p.message@ == issues[i].message
            &&& opt_text(p.expected) == issues[i].expected
            &&& p.kind is Spec
        }
}

pub proof fn lemma_pushed_none(s: Seq<Problem>)
    ensures
        pushed(s, s, seq![]),
{
    assert(s.take(s.len() as int) =~= s);
}

pub proof fn lemma_pushed_chain(a: Seq<Problem>, b: Seq<Problem>, c: Seq<Problem>, w1: Seq<Issue>, w2: Seq<Issue>)
    requires
        pushed(a, b, w1),
        pushed(b, c, w2),
    ensures
        pushed(a, c, w1 + w2),
{
    assert(c.take(a.len() as int) =~= a) by {
        assert forall|i: int| 0 <= i < a.len() implies c[i] == a[i] by {
            assert(c.take(b.len() as int)[i] == b[i]);
            assert(b.take(a.len() as int)[i] == a[i]);
        }
    }
    assert forall|i: int| 0 <= i < (w1 + w2).len() implies {
        let p = #[trigger] c[a.len() + i];
        &&& p.code matches Some(x) && x@ == (w1 + w2)[i].code
        &&& p.severity == Severity::Error
        &&& p.message@ == (w1 + w2)[i].message
        &&& opt_text(p.expected) == (w1 + w2)[i].expected
        &&& p.kind is Spec
    } by {
        if i < w1.len() {
            assert(c.take(b.len() as int)[a.len() + i] == b[a.len() + i]);
        } else {
            assert(c[b.len() + (i - w1.len())] == c[a.len() + i]);
        }
    }
}

/// The rule a construct with no equivalent here breaks.
pub open spec fn untranslatable_rule() -> Seq<char> {
    "An expression may only use constructs the data-dict expression language can state."@
}

/// What reading an expression of `what` reports: nothing when it parses; a
/// construct with no equivalent here as S35; any other failure as S19.
pub open spec fn read_issues(text: Seq<char>, what: Seq<char>) -> Seq<Issue> {
    match parse_text(text) {
        Ok(_) => seq![],
        Err(e) => if e.message.len() > 0 && e.message[0] == '\0' {
            seq![Issue { code: "S35"@, expected: Some(untranslatable_rule()), message: e.message.skip(1) }]
        } else {
            seq![Issue { code: "S19"@, expected: None, message: what + " expression does not parse: "@ + e.message }]
        },
    }
}

/// `expr` is what reading `text` gives: its parse when it parses, else nothing.
pub open spec fn expr_is(expr: Option<AssertExpr>, text: Seq<char>) -> bool {
    match (expr, parse_text(text)) {
        (Some(x), Ok(v)) => view_expr(x.root) == v,
        (None, Err(_)) => true,
        _ => false,
    }
}

/// Read an expression written in the data-dict language. A failure to parse
/// is S19, pointing at the failing token inside the string; a construct with
/// no equivalent here is S35. Either leaves the expression empty.
fn read(text: &str, what: &str, span: &SourceInfo, problems: &mut ProblemSet) -> (r: (Option<AssertExpr>, Vec<&'static str>))
    ensures
        expr_is(r.0, text@),
        r.1@.len() == 0,
        pushed(old(problems).items@, final(problems).items@, read_issues(text@, what@)),
        final(problems).source == old(problems).source,
{
    match AssertExpr::parse(text) {
        Ok(expr) => {
            proof {
                lemma_pushed_none(problems.items@);
            }
            (Some(expr), Vec::new())
        },
        Err(err) => {
            let n = text.as_bytes().len();
            let at = if err.at < n {
                err.at
            } else {
                n
            };
            let sub = crate::validate_spec::sub_or_whole(span, at, at);
            let (message, untranslatable) = crate::parse::classify(&err);
            if untranslatable {
                let mut spans: Vec<SourceInfo> = Vec::new();
                spans.push(sub);
                problems.push_spec_error(
                    "S35",
                    String::from_str("An expression may only use constructs the data-dict expression language can state."),
                    message,
                    spans,
                );
            } else {
                let mut m = String::from_str(what);
                m.append(" expression does not parse: ");
                m.append(message.as_str());
                problems.push(Problem::spec("S19", Severity::Error, m, sub));
                proof {
                    assert(problems.items@.take(old(problems).items@.len() as int) =~= old(problems).items@);
                }
            }
            proof {
                let is = read_issues(text@, what@);
                assert(is.len() == 1);
                let p = problems.items@[old(problems).items@.len() as int + 0];
                assert(p == problems.items@.last());
            }
            (None, Vec::new())
        },
    }
}

/// The first `language` entry's language, when its value names one.
pub open spec fn language_named(es: Seq<YamlEntry>) -> Option<Language> {
    match entry_at(es, "language"@) {
        Some(e) => match str_of(e.value) {
            Some(t) => if exists|l: Language| language_key(l) == t {
                Some(choose|l: Language| language_key(l) == t)
            } else {
                None
            },
            None => None,
        },
        None => None,
    }
}

pub open spec fn spanned_language(o: Option<Spanned<Language>>) -> Option<Language> {
    match o {
        Some(l) => Some(l.value),
        None => None,
    }
}

proof fn lemma_language_key_injective(a: Language, b: Language)
    ensures
        language_key(a) == language_key(b) ==> a == b,
{
    reveal_strlit("sql");
    reveal_strlit("r");
    reveal_strlit("python");
    if language_key(a) == language_key(b) {
        assert(language_key(a).len() == language_key(b).len());
        if a != b {
            assert(language_key(a)[0] != language_key(b)[0] || language_key(a).len() != language_key(b).len());
        }
    }
}

/// The language an entry names in its `language` key, with its span.
fn lower_language(es: &Vec<YamlEntry>) -> (r: Option<Spanned<Language>>)
    ensures
        spanned_language(r) == language_named(es@),
{
    match crate::yaml::find_entry(es, "language") {
        Some(e) => match e.value.as_str() {
            Some(t) => match Language::from_name(t) {
                Some(l) => {
                    proof {
                        assert forall|m: Language| language_key(m) == t@ implies m == l by {
                            lemma_language_key_injective(m, l);
                        }
                    }
                    Some(Spanned::new(l, e.value_span.clone()))
                },
                None => None,
            },
            None => None,
        },
        None => None,
    }
}

/// The language an expression is read in: its own, else the default.
pub open spec fn effective_language(es: Seq<YamlEntry>, default: Language) -> Language {
    match language_named(es) {
        Some(l) => l,
        None => default,
    }
}

/// An `assert` map: a mapping whose first `assert` entry holds a string.
pub open spec fn assertion_node(node: Yaml) -> bool {
    match entries_of(node) {
        Some(es) => match entry_at(es, "assert"@) {
            Some(e) => str_of(e.value) is Some,
            None => false,
        },
        None => false,
    }
}

/// The text of an `assert` map's expression.
pub open spec fn assertion_text(node: Yaml) -> Seq<char> {
    str_of(entry_at(entries_of(node)->0, "assert"@)->0.value)->0
}

/// `a` is the assertion the map `node` states.
pub open spec fn assertion_is(a: Assertion, node: Yaml) -> bool {
    let es = entries_of(node)->0;
    &&& a.text.value@ == assertion_text(node)
    &&& spanned_language(a.language) == language_named(es)
    &&& expr_is(a.expr, assertion_text(node))
    &&& opt_spanned_text(a.description) == match value_at(node, "description"@) {
        Some(d) => str_of(d),
        None => None,
    }
    &&& a.notes@.len() == 0
}

/// What lowering an `assert` map reports.
pub open spec fn assertion_issues(node: Yaml) -> Seq<Issue> {
    if assertion_node(node) {
        read_issues(assertion_text(node), "`assert`"@)
    } else {
        seq![]
    }
}

/// An assertion, or an item that is not one, readable in the data-dict
/// language: its own language, else the default, is that one.
pub open spec fn readable(node: Yaml, default: Language) -> bool {
    assertion_node(node) ==> effective_language(entries_of(node)->0, default) == Language::DataDict
}

/// Lower an `assert` map into an [`Assertion`], reading its expression; none
/// for a node without a string `assert`.
pub fn lower_assertion(node: &Yaml, default_language: Language, problems: &mut ProblemSet) -> (r: Option<Assertion>)
    requires
        readable(*node, default_language),
    ensures
        match r {
            Some(a) => assertion_node(*node) && assertion_is(a, *node),
            None => !assertion_node(*node),
        },
        pushed(old(problems).items@, final(problems).items@, assertion_issues(*node)),
        final(problems).source == old(problems).source,
{
    let es = match node.as_hash() {
        Some(es) => es,
        None => {
            proof {
                lemma_pushed_none(problems.items@);
            }
            return None;
        },
    };
    let assert_entry = match crate::yaml::find_entry(es, "assert") {
        Some(e) => e,
        None => {
            proof {
                lemma_pushed_none(problems.items@);
            }
            return None;
        },
    };
    let text = match assert_entry.value.as_str() {
        Some(t) => t,
        None => {
            proof {
                lemma_pushed_none(problems.items@);
            }
            return None;
        },
    };
    let description = match node.get_hash_value("description") {
        Some(d) => match text_of(d) {
            Some(t) => Some(Spanned::new(t, d.span.clone())),
            None => None,
        },
        None => None,
    };
    let span = assert_entry.value_span.clone();
    let language = lower_language(es);
    let (expr, notes) = read(text, "`assert`", &span, problems);
    Some(Assertion { text: Spanned::new(text.to_owned(), span), language, expr, description, notes })
}


// --- Columns -----------------------------------------------------------------------------

/// The structural constraints the string items of `xs` name, in order.
pub open spec fn constraints_in(xs: Seq<Yaml>) -> Seq<Constraint>
    decreases xs.len(),
{
    if xs.len() == 0 {
        seq![]
    } else {
        constraints_in(xs.drop_last()) + match str_of(xs.last()) {
            Some(t) => if exists|c: Constraint| constraint_key(c) == t {
                seq![choose|c: Constraint| constraint_key(c) == t]
            } else {
                seq![]
            },
            None => seq![],
        }
    }
}

/// The `assert` maps among the items of `xs` that are not strings, in order.
pub open spec fn assertions_in(xs: Seq<Yaml>) -> Seq<Yaml>
    decreases xs.len(),
{
    if xs.len() == 0 {
        seq![]
    } else {
        assertions_in(xs.drop_last()) + if str_of(xs.last()) is None && assertion_node(xs.last()) {
            seq![xs.last()]
        } else {
            seq![]
        }
    }
}

/// What reading the non-string items of `xs` reports, in order.
pub open spec fn assertions_issues(xs: Seq<Yaml>) -> Seq<Issue>
    decreases xs.len(),
{
    if xs.len() == 0 {
        seq![]
    } else {
        assertions_issues(xs.drop_last()) + if str_of(xs.last()) is None {
            assertion_issues(xs.last())
        } else {
            seq![]
        }
    }
}

/// The list a `constraints` entry holds, if `e` is one.
pub open spec fn constraints_list(e: YamlEntry) -> Seq<Yaml> {
    if str_of(e.key) == Some("constraints"@) {
        match items_of(e.value) {
            Some(xs) => xs,
            None => seq![],
        }
    } else {
        seq![]
    }
}

/// The structural constraints every `constraints` entry of `es` names.
pub open spec fn column_constraints(es: Seq<YamlEntry>) -> Seq<Constraint>
    decreases es.len(),
{
    if es.len() == 0 {
        seq![]
    } else {
        column_constraints(es.drop_last()) + constraints_in(constraints_list(es.last()))
    }
}

/// The `assert` maps every `constraints` entry of `es` holds.
pub open spec fn column_assertions(es: Seq<YamlEntry>) -> Seq<Yaml>
    decreases es.len(),
{
    if es.len() == 0 {
        seq![]
    } else {
        column_assertions(es.drop_last()) + assertions_in(constraints_list(es.last()))
    }
}

/// A `fields` entry holding a list.
pub open spec fn list_entry() -> spec_fn(YamlEntry) -> bool {
    |e: YamlEntry| e.value.value is List
}

/// A column entry: a mapping with a `name` key.
pub open spec fn column_node(node: Yaml) -> bool {
    match entries_of(node) {
        Some(es) => last_entry(es, "name"@, any_entry()) is Some,
        None => false,
    }
}

/// The representation a `values`, `range` or `examples` entry gives.
pub open spec fn representation_is(r: Option<Representation>, e: Option<YamlEntry>, as_enum: bool) -> bool {
    match e {
        Some(e) => r matches Some(x) && if as_enum {
            enum_values_are(x.items@, x.labels@, e.value)
        } else {
            scalars_are(x.items@, e.value) && x.labels@.len() == 0
        },
        None => r is None,
    }
}

/// Every part of a column but its fields, as its entries `es` state them.
pub open spec fn column_own_is(c: Column, es: Seq<YamlEntry>) -> bool {
    &&& c.name.value@ == match str_of(last_entry(es, "name"@, any_entry())->0.value) {
        Some(t) => t,
        None => seq![],
    }
    &&& opt_spanned_text(c.col_type) == last_str_value(es, "type"@)
    &&& opt_text(c.label) == last_str(es, "label"@)
    &&& opt_text(c.description) == last_str(es, "description"@)
    &&& opt_text(c.details) == last_str(es, "details"@)
    &&& opt_text(c.display) == last_str(es, "display"@)
    &&& representation_is(c.values, last_entry(es, "values"@, any_entry()), true)
    &&& representation_is(c.range, last_entry(es, "range"@, any_entry()), false)
    &&& representation_is(c.examples, last_entry(es, "examples"@, any_entry()), false)
    &&& opt_spanned_text(c.units) == last_str_value(es, "units"@)
    &&& opt_spanned_text(c.time_zone) == last_str_value(es, "time_zone"@)
    &&& opt_spanned_text(c.todo) == last_str(es, "todo"@)
    &&& c.constraints@.map_values(|x: Spanned<Constraint>| x.value) == column_constraints(es)
    &&& c.assertions@.len() == column_assertions(es).len()
    &&& forall|i: int| 0 <= i < c.assertions@.len() ==> assertion_is(#[trigger] c.assertions@[i], column_assertions(es)[i])
}

/// `fs` is what the last `fields` list of `es` lowers to, none without one.
pub open spec fn fields_are(fs: Option<Vec<Column>>, es: Seq<YamlEntry>) -> bool
    decreases es, 0int,
{
    if es.len() == 0 {
        fs is None
    } else {
        let e = es[es.len() - 1];
        if str_of(e.key) == Some("fields"@) && e.value.value is List {
            match e.value.value {
                YamlValue::List(xs) => fs matches Some(f) && columns_are(f@, xs@),
                _ => false,
            }
        } else {
            fields_are(fs, es.drop_last())
        }
    }
}

/// `c` is the column the entry `node` declares.
pub open spec fn column_is(c: Column, node: Yaml) -> bool
    decreases node, 1int,
{
    match node.value {
        YamlValue::Mapping(es) => column_own_is(c, es@) && fields_are(c.fields, es@),
        _ => false,
    }
}

/// `cs` are the columns the entries `xs` declare: one for each that has a name.
pub open spec fn columns_are(cs: Seq<Column>, xs: Seq<Yaml>) -> bool
    decreases xs, 2int,
{
    if xs.len() == 0 {
        cs.len() == 0
    } else if column_node(xs[xs.len() - 1]) {
        cs.len() > 0 && columns_are(cs.drop_last(), xs.drop_last()) && column_is(cs.last(), xs[xs.len() - 1])
    } else {
        columns_are(cs, xs.drop_last())
    }
}



/// What lowering a column entry reports, in the order of its entries.
pub open spec fn column_issues(node: Yaml) -> Seq<Issue>
    decreases node, 1int,
{
    match node.value {
        YamlValue::Mapping(es) => entries_issues(es@),
        _ => seq![],
    }
}

/// What lowering the entries `es` of a column reports: the assertions of each
/// `constraints` list, and the columns of each `fields` list.
pub open spec fn entries_issues(es: Seq<YamlEntry>) -> Seq<Issue>
    decreases es, 0int,
{
    if es.len() == 0 {
        seq![]
    } else {
        let e = es[es.len() - 1];
        entries_issues(es.drop_last()) + assertions_issues(constraints_list(e)) + if str_of(e.key) == Some(
            "fields"@,
        ) {
            match e.value.value {
                YamlValue::List(xs) => columns_issues(xs@),
                _ => seq![],
            }
        } else {
            seq![]
        }
    }
}

/// What lowering the column entries `xs` reports, in order.
pub open spec fn columns_issues(xs: Seq<Yaml>) -> Seq<Issue>
    decreases xs, 2int,
{
    if xs.len() == 0 {
        seq![]
    } else {
        columns_issues(xs.drop_last()) + column_issues(xs[xs.len() - 1])
    }
}

/// Every non-string item of `xs` is readable in the data-dict language.
pub open spec fn items_readable(xs: Seq<Yaml>, d: Language) -> bool {
    forall|i: int| 0 <= i < xs.len() && str_of(#[trigger] xs[i]) is None ==> readable(xs[i], d)
}

/// Every expression a column entry holds, in its constraints and its
/// fields', is readable in the data-dict language.
pub open spec fn column_readable(node: Yaml, d: Language) -> bool
    decreases node, 1int,
{
    match node.value {
        YamlValue::Mapping(es) => entries_readable(es@, d),
        _ => true,
    }
}

pub open spec fn entries_readable(es: Seq<YamlEntry>, d: Language) -> bool
    decreases es, 0int,
{
    if es.len() == 0 {
        true
    } else {
        let e = es[es.len() - 1];
        &&& entries_readable(es.drop_last(), d)
        &&& items_readable(constraints_list(e), d)
        &&& str_of(e.key) == Some("fields"@) ==> match e.value.value {
            YamlValue::List(xs) => columns_readable(xs@, d),
            _ => true,
        }
    }
}

pub open spec fn columns_readable(xs: Seq<Yaml>, d: Language) -> bool
    decreases xs, 2int,
{
    if xs.len() == 0 {
        true
    } else {
        columns_readable(xs.drop_last(), d) && column_readable(xs[xs.len() - 1], d)
    }
}

/// The structural constraints and `assert` maps of a `constraints` list,
/// added to those already gathered.
fn lower_constraint_items(
    xs: &Vec<Yaml>,
    d: Language,
    constraints: &mut Vec<Spanned<Constraint>>,
    assertions: &mut Vec<Assertion>,
    problems: &mut ProblemSet,
)
    requires
        items_readable(xs@, d),
    ensures
        final(constraints)@.map_values(|x: Spanned<Constraint>| x.value) == old(constraints)@.map_values(
            |x: Spanned<Constraint>| x.value,
        ) + constraints_in(xs@),
        final(assertions)@.len() == old(assertions)@.len() + assertions_in(xs@).len(),
        final(assertions)@.take(old(assertions)@.len() as int) == old(assertions)@,
        forall|k: int|
            0 <= k < assertions_in(xs@).len() ==> assertion_is(
                #[trigger] final(assertions)@[old(assertions)@.len() + k],
                assertions_in(xs@)[k],
            ),
        pushed(old(problems).items@, final(problems).items@, assertions_issues(xs@)),
        final(problems).source == old(problems).source,
{
    let ghost c0 = constraints@.map_values(|x: Spanned<Constraint>| x.value);
    let ghost a0 = assertions@;
    let ghost p0 = problems.items@;
    let mut i: usize = 0;
    proof {
        assert(xs@.take(0) =~= Seq::<Yaml>::empty());
        assert(c0 + constraints_in(xs@.take(0)) =~= c0);
        assert(a0.take(a0.len() as int) =~= a0);
        lemma_pushed_none(p0);
    }
    while i < xs.len()
        invariant
            i <= xs@.len(),
            items_readable(xs@, d),
            problems.source == old(problems).source,
            constraints@.map_values(|x: Spanned<Constraint>| x.value) == c0 + constraints_in(xs@.take(i as int)),
            assertions@.len() == a0.len() + assertions_in(xs@.take(i as int)).len(),
            assertions@.take(a0.len() as int) == a0,
            forall|k: int|
                0 <= k < assertions_in(xs@.take(i as int)).len() ==> assertion_is(
                    #[trigger] assertions@[a0.len() + k],
                    assertions_in(xs@.take(i as int))[k],
                ),
            pushed(p0, problems.items@, assertions_issues(xs@.take(i as int))),
        decreases xs@.len() - i,
    {
        let x = &xs[i];
        let ghost t = xs@.take(i + 1);
        proof {
            assert(t.drop_last() =~= xs@.take(i as int));
            assert(t.last() == xs@[i as int]);
        }
        let ghost cb = constraints@.map_values(|x: Spanned<Constraint>| x.value);
        let ghost ab = assertions@;
        let ghost pb = problems.items@;
        match x.as_str() {
            Some(s) => {
                match Constraint::parse(s) {
                    Some(c) => {
                        proof {
                            assert forall|m: Constraint| constraint_key(m) == s@ implies m == c by {
                                lemma_constraint_key_injective(m, c);
                            }
                        }
                        constraints.push(Spanned::new(c, x.span.clone()));
                        assert(constraints@.map_values(|x: Spanned<Constraint>| x.value) =~= cb.push(c));
                    },
                    None => {},
                }
                proof {
                    lemma_pushed_none(problems.items@);
                    assert(assertions_in(t) =~= assertions_in(xs@.take(i as int)));
                }
            },
            None => {
                match lower_assertion(x, d, problems) {
                    Some(a) => {
                        assertions.push(a);
                        proof {
                            assert(assertions_in(t) =~= assertions_in(xs@.take(i as int)).push(*x));
                            assert forall|k: int| 0 <= k < assertions_in(t).len() implies assertion_is(
                                #[trigger] assertions@[a0.len() + k],
                                assertions_in(t)[k],
                            ) by {
                                if k < assertions_in(xs@.take(i as int)).len() {
                                    assert(assertions@[a0.len() + k] == ab[a0.len() + k]);
                                }
                            }
                            assert(assertions@.take(a0.len() as int) =~= ab.take(a0.len() as int));
                        }
                    },
                    None => {
                        proof {
                            assert(assertions_in(t) =~= assertions_in(xs@.take(i as int)));
                        }
                    },
                }
                proof {
                    assert(constraints_in(t) =~= constraints_in(xs@.take(i as int)));
                }
            },
        }
        proof {
            lemma_pushed_chain(
                p0,
                pb,
                problems.items@,
                assertions_issues(xs@.take(i as int)),
                if str_of(*x) is None {
                    assertion_issues(*x)
                } else {
                    Seq::<Issue>::empty()
                },
            );
            assert(constraints@.map_values(|x: Spanned<Constraint>| x.value) =~= c0 + constraints_in(t));
        }
        i = i + 1;
    }
    proof {
        assert(xs@.take(xs@.len() as int) =~= xs@);
    }
}

proof fn lemma_constraint_key_injective(a: Constraint, b: Constraint)
    ensures
        constraint_key(a) == constraint_key(b) ==> a == b,
{
    reveal_strlit("primary_key");
    reveal_strlit("foreign_key");
    reveal_strlit("required");
    reveal_strlit("unique");
    if constraint_key(a) == constraint_key(b) && a != b {
        assert(constraint_key(a).len() != constraint_key(b).len() || constraint_key(a)[0] != constraint_key(b)[0]
            || constraint_key(a)[1] != constraint_key(b)[1]);
    }
}



/// The representation an entry gives, with the entry's spans.
fn representation(e: &YamlEntry, as_enum: bool) -> (r: Representation)
    ensures
        representation_is(Some(r), Some(*e), as_enum),
{
    if as_enum {
        let (items, labels) = lower_enum_values(&e.value);
        Representation { span: e.value_span.clone(), key_span: e.key_span.clone(), items, labels }
    } else {
        Representation {
            span: e.value_span.clone(),
            key_span: e.key_span.clone(),
            items: lower_scalars(&e.value),
            labels: Vec::new(),
        }
    }
}

/// A string entry's value with the value's span.
fn spanned_text(e: &YamlEntry) -> (r: Option<Spanned<String>>)
    ensures
        opt_spanned_text(r) == str_of(e.value),
{
    match text_of(&e.value) {
        Some(t) => Some(Spanned::new(t, e.value_span.clone())),
        None => None,
    }
}

/// The parts of a column read from single entries, as far as a scan has come.
struct Draft {
    name: Option<Spanned<String>>,
    label: Option<String>,
    description: Option<String>,
    details: Option<String>,
    display: Option<String>,
    col_type: Option<Spanned<String>>,
    values: Option<Representation>,
    range: Option<Representation>,
    examples: Option<Representation>,
    units: Option<Spanned<String>>,
    time_zone: Option<Spanned<String>>,
    todo: Option<Spanned<String>>,
}

/// `dr` holds what the entries `s` say of the parts read from single entries.
#[verifier::opaque]
spec fn draft_ok(dr: Draft, s: Seq<YamlEntry>) -> bool {
    draft_ok_a(dr, s) && draft_ok_b(dr, s)
}

spec fn draft_ok_a(dr: Draft, s: Seq<YamlEntry>) -> bool {
    &&& match (dr.name, last_entry(s, "name"@, any_entry())) {
        (Some(n), Some(e)) => n.value@ == match str_of(e.value) {
            Some(t) => t,
            None => seq![],
        },
        (None, None) => true,
        _ => false,
    }
    &&& opt_spanned_text(dr.col_type) == last_str_value(s, "type"@)
    &&& opt_text(dr.label) == last_str(s, "label"@)
    &&& opt_text(dr.description) == last_str(s, "description"@)
    &&& opt_text(dr.details) == last_str(s, "details"@)
    &&& opt_text(dr.display) == last_str(s, "display"@)
}

spec fn draft_ok_b(dr: Draft, s: Seq<YamlEntry>) -> bool {
    &&& representation_is(dr.values, last_entry(s, "values"@, any_entry()), true)
    &&& representation_is(dr.range, last_entry(s, "range"@, any_entry()), false)
    &&& representation_is(dr.examples, last_entry(s, "examples"@, any_entry()), false)
    &&& opt_spanned_text(dr.units) == last_str_value(s, "units"@)
    &&& opt_spanned_text(dr.time_zone) == last_str_value(s, "time_zone"@)
    &&& opt_spanned_text(dr.todo) == last_str(s, "todo"@)
}

proof fn lemma_draft_empty(dr: Draft)
    requires
        dr.name is None && dr.label is None && dr.description is None && dr.details is None && dr.display is None
            && dr.col_type is None && dr.values is None && dr.range is None && dr.examples is None && dr.units is None
            && dr.time_zone is None && dr.todo is None,
    ensures
        draft_ok(dr, seq![]),
{
    reveal(draft_ok);
}

/// Take in the entry `es[i]`.
fn note_entry(dr: &mut Draft, es: &Vec<YamlEntry>, i: usize)
    requires
        i < es@.len(),
        draft_ok(*old(dr), es@.take(i as int)),
    ensures
        draft_ok(*final(dr), es@.take(i + 1)),
{
    reveal(draft_ok);
    note_entry_a(dr, es, i);
    note_entry_b(dr, es, i);
}

/// Take in the entry `es[i]`, for the name, type and notes.
#[verifier::rlimit(40)]
fn note_entry_a(dr: &mut Draft, es: &Vec<YamlEntry>, i: usize)
    requires
        i < es@.len(),
        draft_ok_a(*old(dr), es@.take(i as int)),
        draft_ok_b(*old(dr), es@.take(i as int)),
    ensures
        draft_ok_a(*final(dr), es@.take(i + 1)),
        draft_ok_b(*final(dr), es@.take(i as int)),
{
    let e = &es[i];
    proof {
        lemma_last_entry_step(es@, i as int, "name"@, any_entry());
        lemma_last_entry_step(es@, i as int, "type"@, str_entry());
        lemma_last_entry_step(es@, i as int, "label"@, any_entry());
        lemma_last_entry_step(es@, i as int, "description"@, any_entry());
        lemma_last_entry_step(es@, i as int, "details"@, any_entry());
        lemma_last_entry_step(es@, i as int, "display"@, any_entry());
    }
    if is_key(&e.key, "name") {
        dr.name = Some(Spanned::new(
            match text_of(&e.value) {
                Some(t) => t,
                None => String::new(),
            },
            e.value_span.clone(),
        ));
    }
    if is_key(&e.key, "type") {
        match spanned_text(e) {
            Some(t) => {
                dr.col_type = Some(t);
            },
            None => {},
        }
    }
    if is_key(&e.key, "label") {
        dr.label = text_of(&e.value);
    }
    if is_key(&e.key, "description") {
        dr.description = text_of(&e.value);
    }
    if is_key(&e.key, "details") {
        dr.details = text_of(&e.value);
    }
    if is_key(&e.key, "display") {
        dr.display = text_of(&e.value);
    }
}

/// Take in the entry `es[i]`, for the representations, units, zone and todo.
#[verifier::rlimit(40)]
fn note_entry_b(dr: &mut Draft, es: &Vec<YamlEntry>, i: usize)
    requires
        i < es@.len(),
        draft_ok_b(*old(dr), es@.take(i as int)),
        draft_ok_a(*old(dr), es@.take(i + 1)),
    ensures
        draft_ok_b(*final(dr), es@.take(i + 1)),
        draft_ok_a(*final(dr), es@.take(i + 1)),
{
    let e = &es[i];
    proof {
        lemma_last_entry_step(es@, i as int, "values"@, any_entry());
        lemma_last_entry_step(es@, i as int, "range"@, any_entry());
        lemma_last_entry_step(es@, i as int, "examples"@, any_entry());
        lemma_last_entry_step(es@, i as int, "units"@, str_entry());
        lemma_last_entry_step(es@, i as int, "time_zone"@, str_entry());
        lemma_last_entry_step(es@, i as int, "todo"@, any_entry());
    }
    if is_key(&e.key, "values") {
        dr.values = Some(representation(e, true));
    }
    if is_key(&e.key, "range") {
        dr.range = Some(representation(e, false));
    }
    if is_key(&e.key, "examples") {
        dr.examples = Some(representation(e, false));
    }
    if is_key(&e.key, "units") {
        match spanned_text(e) {
            Some(t) => {
                dr.units = Some(t);
            },
            None => {},
        }
    }
    if is_key(&e.key, "time_zone") {
        match spanned_text(e) {
            Some(t) => {
                dr.time_zone = Some(t);
            },
            None => {},
        }
    }
    if is_key(&e.key, "todo") {
        dr.todo = spanned_text(e);
    }
}

/// Lower a column entry; none when it has no `name`.
#[verifier::spinoff_prover]
pub fn lower_column(node: &Yaml, d: Language, problems: &mut ProblemSet) -> (r: Option<Column>)
    requires
        column_readable(*node, d),
    ensures
        match r {
            Some(c) => column_node(*node) && column_is(c, *node),
            None => !column_node(*node),
        },
        pushed(old(problems).items@, final(problems).items@, column_issues(*node)),
        final(problems).source == old(problems).source,
    decreases node_size(*node),
{
    let es = match &node.value {
        YamlValue::Mapping(es) => es,
        _ => {
            proof {
                lemma_pushed_none(problems.items@);
            }
            return None;
        },
    };
    let ghost p0 = problems.items@;
    let mut dr = Draft {
        name: None,
        label: None,
        description: None,
        details: None,
        display: None,
        col_type: None,
        values: None,
        range: None,
        examples: None,
        units: None,
        time_zone: None,
        todo: None,
    };
    let mut constraints: Vec<Spanned<Constraint>> = Vec::new();
    let mut assertions: Vec<Assertion> = Vec::new();
    let mut fields: Option<Vec<Column>> = None;
    proof {
        assert(es@.take(0) =~= Seq::<YamlEntry>::empty());
        assert(constraints@.map_values(|x: Spanned<Constraint>| x.value) =~= column_constraints(es@.take(0)));
        lemma_pushed_none(p0);
        lemma_draft_empty(dr);
    }
    let mut i: usize = 0;
    while i < es.len()
        invariant
            i <= es@.len(),
            node.value == YamlValue::Mapping(*es),
            entries_readable(es@, d),
            problems.source == old(problems).source,
            p0 == old(problems).items@,
            draft_ok(dr, es@.take(i as int)),
            constraints@.map_values(|x: Spanned<Constraint>| x.value) == column_constraints(es@.take(i as int)),
            assertions@.len() == column_assertions(es@.take(i as int)).len(),
            forall|k: int|
                0 <= k < assertions@.len() ==> assertion_is(
                    #[trigger] assertions@[k],
                    column_assertions(es@.take(i as int))[k],
                ),
            fields_are(fields, es@.take(i as int)),
            pushed(p0, problems.items@, entries_issues(es@.take(i as int))),
        decreases es@.len() - i,
    {
        let e = &es[i];
        let ghost t = es@.take(i + 1);
        let ghost pre = es@.take(i as int);
        proof {
            assert(t.drop_last() =~= pre);
            assert(t.last() == es@[i as int]);
            assert(t[t.len() - 1] == es@[i as int]);
        }
        note_entry(&mut dr, es, i);
        let ghost c0 = constraints@.map_values(|x: Spanned<Constraint>| x.value);
        let ghost a0 = assertions@;
        let ghost pb = problems.items@;
        let mut handled = false;
        if is_key(&e.key, "constraints") {
            match &e.value.value {
                YamlValue::List(xs) => {
                    proof {
                        assert(constraints_list(*e) == xs@);
                        lemma_entries_readable_at(es@, d, i as int);
                    }
                    lower_constraint_items(xs, d, &mut constraints, &mut assertions, problems);
                    handled = true;
                },
                _ => {},
            }
        }
        if !handled {
            proof {
                assert(constraints_list(*e) =~= Seq::<Yaml>::empty());
                assert(constraints_in(Seq::<Yaml>::empty()) =~= Seq::<Constraint>::empty());
                assert(assertions_in(Seq::<Yaml>::empty()) =~= Seq::<Yaml>::empty());
                assert(assertions_issues(Seq::<Yaml>::empty()) =~= Seq::<Issue>::empty());
                assert(assertions@.take(a0.len() as int) =~= a0);
                lemma_pushed_none(problems.items@);
            }
        }
        let ghost pc = problems.items@;
        let mut in_fields = false;
        if is_key(&e.key, "fields") {
            match &e.value.value {
                YamlValue::List(xs) => {
                    proof {
                        lemma_entries_readable_at(es@, d, i as int);
                        lemma_entry_size(es@, i as int);
                    }
                    let fs = lower_columns(xs, d, problems);
                    fields = Some(fs);
                    in_fields = true;
                },
                _ => {},
            }
        }
        if !in_fields {
            proof {
                lemma_pushed_none(problems.items@);
            }
        }
        proof {
            let ge = es@[i as int];
            let ai = assertions_issues(constraints_list(ge));
            let fi = if str_of(ge.key) == Some("fields"@) {
                match ge.value.value {
                    YamlValue::List(xs) => columns_issues(xs@),
                    _ => Seq::<Issue>::empty(),
                }
            } else {
                Seq::<Issue>::empty()
            };
            lemma_pushed_chain(p0, pb, pc, entries_issues(pre), ai);
            lemma_pushed_chain(p0, pc, problems.items@, entries_issues(pre) + ai, fi);
            assert(entries_issues(t) == entries_issues(pre) + ai + fi);
            assert(constraints@.map_values(|x: Spanned<Constraint>| x.value) =~= column_constraints(t));
            let ca = column_assertions(pre);
            let na = assertions_in(constraints_list(ge));
            assert(column_assertions(t) == ca + na);
            assert forall|k: int| 0 <= k < assertions@.len() implies assertion_is(
                #[trigger] assertions@[k],
                column_assertions(t)[k],
            ) by {
                if k < a0.len() {
                    assert(assertions@[k] == assertions@.take(a0.len() as int)[k]);
                    assert(assertions@.take(a0.len() as int)[k] == a0[k]);
                    assert((ca + na)[k] == ca[k]);
                } else {
                    assert((ca + na)[k] == na[k - a0.len()]);
                    assert(assertions@[a0.len() + (k - a0.len())] == assertions@[k]);
                }
            }
        }
        i = i + 1;
    }
    proof {
        assert(es@.take(es@.len() as int) =~= es@);
        reveal(draft_ok);
    }
    match dr.name {
        Some(name) => Some(Column {
            name,
            label: dr.label,
            description: dr.description,
            details: dr.details,
            display: dr.display,
            constraints,
            assertions,
            col_type: dr.col_type,
            values: dr.values,
            range: dr.range,
            examples: dr.examples,
            units: dr.units,
            time_zone: dr.time_zone,
            fields,
            todo: dr.todo,
        }),
        None => None,
    }
}

/// Lower the column entries of a list, keeping those that have a `name`.
pub fn lower_columns(xs: &Vec<Yaml>, d: Language, problems: &mut ProblemSet) -> (r: Vec<Column>)
    requires
        columns_readable(xs@, d),
    ensures
        columns_are(r@, xs@),
        pushed(old(problems).items@, final(problems).items@, columns_issues(xs@)),
        final(problems).source == old(problems).source,
    decreases list_size(xs@),
{
    let mut out: Vec<Column> = Vec::new();
    let ghost p0 = problems.items@;
    proof {
        assert(xs@.take(0) =~= Seq::<Yaml>::empty());
        lemma_pushed_none(p0);
    }
    let mut i: usize = 0;
    while i < xs.len()
        invariant
            i <= xs@.len(),
            columns_readable(xs@, d),
            problems.source == old(problems).source,
            p0 == old(problems).items@,
            columns_are(out@, xs@.take(i as int)),
            pushed(p0, problems.items@, columns_issues(xs@.take(i as int))),
        decreases xs@.len() - i,
    {
        let ghost t = xs@.take(i + 1);
        let ghost pb = problems.items@;
        proof {
            assert(t.drop_last() =~= xs@.take(i as int));
            assert(t[t.len() - 1] == xs@[i as int]);
            lemma_columns_readable_at(xs@, d, i as int);
            lemma_item_size(xs@, i as int);
        }
        let ghost before = out@;
        match lower_column(&xs[i], d, problems) {
            Some(c) => {
                out.push(c);
                proof {
                    assert(out@.drop_last() =~= before);
                }
            },
            None => {},
        }
        proof {
            lemma_pushed_chain(p0, pb, problems.items@, columns_issues(xs@.take(i as int)), column_issues(xs@[i as int]));
        }
        i = i + 1;
    }
    proof {
        assert(xs@.take(xs@.len() as int) =~= xs@);
    }
    out
}

/// How many nodes a tree holds, for measuring the walks over it.
pub open spec fn node_size(y: Yaml) -> nat
    decreases y, 1int,
{
    match y.value {
        YamlValue::Mapping(es) => 1 + entries_size(es@),
        YamlValue::List(xs) => 1 + list_size(xs@),
        _ => 1,
    }
}

pub open spec fn entries_size(es: Seq<YamlEntry>) -> nat
    decreases es, 0int,
{
    if es.len() == 0 {
        0
    } else {
        entries_size(es.drop_last()) + node_size(es[es.len() - 1].value) + 1
    }
}

pub open spec fn list_size(xs: Seq<Yaml>) -> nat
    decreases xs, 2int,
{
    if xs.len() == 0 {
        0
    } else {
        list_size(xs.drop_last()) + node_size(xs[xs.len() - 1]) + 1
    }
}

proof fn lemma_entry_size(es: Seq<YamlEntry>, i: int)
    requires
        0 <= i < es.len(),
    ensures
        node_size(es[i].value) < entries_size(es),
    decreases es.len(),
{
    if i < es.len() - 1 {
        assert(es.drop_last()[i] == es[i]);
        lemma_entry_size(es.drop_last(), i);
    }
}

proof fn lemma_item_size(xs: Seq<Yaml>, i: int)
    requires
        0 <= i < xs.len(),
    ensures
        node_size(xs[i]) < list_size(xs),
    decreases xs.len(),
{
    if i < xs.len() - 1 {
        assert(xs.drop_last()[i] == xs[i]);
        lemma_item_size(xs.drop_last(), i);
    }
}

proof fn lemma_entries_readable_at(es: Seq<YamlEntry>, d: Language, i: int)
    requires
        entries_readable(es, d),
        0 <= i < es.len(),
    ensures
        items_readable(constraints_list(es[i]), d),
        str_of(es[i].key) == Some("fields"@) ==> match es[i].value.value {
            YamlValue::List(xs) => columns_readable(xs@, d),
            _ => true,
        },
    decreases es.len(),
{
    if i < es.len() - 1 {
        assert(es.drop_last()[i] == es[i]);
        lemma_entries_readable_at(es.drop_last(), d, i);
    }
}

proof fn lemma_columns_readable_at(xs: Seq<Yaml>, d: Language, i: int)
    requires
        columns_readable(xs, d),
        0 <= i < xs.len(),
    ensures
        column_readable(xs[i], d),
    decreases xs.len(),
{
    if i < xs.len() - 1 {
        assert(xs.drop_last()[i] == xs[i]);
        lemma_columns_readable_at(xs.drop_last(), d, i);
    }
}



// --- Assertion and definition lists ------------------------------------------------------

/// The `assert` maps among `xs`, in order.
pub open spec fn assertion_nodes(xs: Seq<Yaml>) -> Seq<Yaml>
    decreases xs.len(),
{
    if xs.len() == 0 {
        seq![]
    } else {
        assertion_nodes(xs.drop_last()) + if assertion_node(xs.last()) {
            seq![xs.last()]
        } else {
            seq![]
        }
    }
}

/// What lowering each item of `xs` as an assertion reports, in order.
pub open spec fn assertion_list_issues(xs: Seq<Yaml>) -> Seq<Issue>
    decreases xs.len(),
{
    if xs.len() == 0 {
        seq![]
    } else {
        assertion_list_issues(xs.drop_last()) + assertion_issues(xs.last())
    }
}

/// `xs` are each the assertion of the matching node of `nodes`.
pub open spec fn assertions_are(xs: Seq<Assertion>, nodes: Seq<Yaml>) -> bool {
    xs.len() == nodes.len() && forall|i: int| 0 <= i < xs.len() ==> assertion_is(#[trigger] xs[i], nodes[i])
}

/// Lower each item of a list as an assertion, keeping those that are.
fn lower_assertions(xs: &Vec<Yaml>, d: Language, problems: &mut ProblemSet) -> (r: Vec<Assertion>)
    requires
        forall|i: int| 0 <= i < xs@.len() ==> readable(#[trigger] xs@[i], d),
    ensures
        assertions_are(r@, assertion_nodes(xs@)),
        pushed(old(problems).items@, final(problems).items@, assertion_list_issues(xs@)),
        final(problems).source == old(problems).source,
{
    let mut out: Vec<Assertion> = Vec::new();
    let ghost p0 = problems.items@;
    proof {
        assert(xs@.take(0) =~= Seq::<Yaml>::empty());
        lemma_pushed_none(p0);
    }
    let mut i: usize = 0;
    while i < xs.len()
        invariant
            i <= xs@.len(),
            forall|i: int| 0 <= i < xs@.len() ==> readable(#[trigger] xs@[i], d),
            problems.source == old(problems).source,
            p0 == old(problems).items@,
            assertions_are(out@, assertion_nodes(xs@.take(i as int))),
            pushed(p0, problems.items@, assertion_list_issues(xs@.take(i as int))),
        decreases xs@.len() - i,
    {
        let ghost t = xs@.take(i + 1);
        let ghost pb = problems.items@;
        let ghost before = out@;
        proof {
            assert(t.drop_last() =~= xs@.take(i as int));
            assert(t.last() == xs@[i as int]);
        }
        match lower_assertion(&xs[i], d, problems) {
            Some(a) => {
                out.push(a);
                proof {
                    let n = assertion_nodes(t);
                    assert(n == assertion_nodes(xs@.take(i as int)).push(xs@[i as int]));
                    assert forall|k: int| 0 <= k < out@.len() implies assertion_is(#[trigger] out@[k], n[k]) by {
                        if k < before.len() {
                            assert(out@[k] == before[k]);
                        }
                    }
                }
            },
            None => {
                proof {
                    assert(assertion_nodes(t) =~= assertion_nodes(xs@.take(i as int)));
                }
            },
        }
        proof {
            lemma_pushed_chain(p0, pb, problems.items@, assertion_list_issues(xs@.take(i as int)), assertion_issues(xs@[i as int]));
        }
        i = i + 1;
    }
    proof {
        assert(xs@.take(xs@.len() as int) =~= xs@);
    }
    out
}

/// A `definitions` entry: a mapping with a `name` and a string `expr`.
pub open spec fn definition_node(node: Yaml) -> bool {
    match entries_of(node) {
        Some(es) => entry_at(es, "name"@) is Some && match entry_at(es, "expr"@) {
            Some(e) => str_of(e.value) is Some,
            None => false,
        },
        None => false,
    }
}

/// The first `key` entry's string value.
pub open spec fn first_str(es: Seq<YamlEntry>, key: Seq<char>) -> Option<Seq<char>> {
    match entry_at(es, key) {
        Some(e) => str_of(e.value),
        None => None,
    }
}

pub open spec fn definition_text(node: Yaml) -> Seq<char> {
    str_of(entry_at(entries_of(node)->0, "expr"@)->0.value)->0
}

/// `df` is the definition the entry `node` states.
pub open spec fn definition_is(df: Definition, node: Yaml) -> bool {
    let es = entries_of(node)->0;
    &&& df.name.value@ == match first_str(es, "name"@) {
        Some(t) => t,
        None => seq![],
    }
    &&& df.text.value@ == definition_text(node)
    &&& spanned_language(df.language) == language_named(es)
    &&& expr_is(df.expr, definition_text(node))
    &&& opt_text(df.label) == first_str(es, "label"@)
    &&& opt_text(df.description) == first_str(es, "description"@)
    &&& opt_text(df.details) == first_str(es, "details"@)
    &&& opt_spanned_text(df.todo) == first_str(es, "todo"@)
    &&& df.notes@.len() == 0
}

pub open spec fn definition_issues(node: Yaml) -> Seq<Issue> {
    if definition_node(node) {
        read_issues(definition_text(node), "definition"@)
    } else {
        seq![]
    }
}

pub open spec fn definition_readable(node: Yaml, d: Language) -> bool {
    definition_node(node) ==> effective_language(entries_of(node)->0, d) == Language::DataDict
}

/// The first `key` entry's string value, copied.
fn first_text(es: &Vec<YamlEntry>, key: &str) -> (r: Option<String>)
    ensures
        opt_text(r) == first_str(es@, key@),
{
    match crate::yaml::find_entry(es, key) {
        Some(e) => text_of(&e.value),
        None => None,
    }
}

/// Lower a `definitions` entry, reading its expression; none without a
/// `name` and a string `expr`.
pub fn lower_definition(node: &Yaml, d: Language, problems: &mut ProblemSet) -> (r: Option<Definition>)
    requires
        definition_readable(*node, d),
    ensures
        match r {
            Some(df) => definition_node(*node) && definition_is(df, *node),
            None => !definition_node(*node),
        },
        pushed(old(problems).items@, final(problems).items@, definition_issues(*node)),
        final(problems).source == old(problems).source,
{
    let es = match node.as_hash() {
        Some(es) => es,
        None => {
            proof {
                lemma_pushed_none(problems.items@);
            }
            return None;
        },
    };
    let name_entry = match crate::yaml::find_entry(es, "name") {
        Some(e) => e,
        None => {
            proof {
                lemma_pushed_none(problems.items@);
            }
            return None;
        },
    };
    let expr_entry = match crate::yaml::find_entry(es, "expr") {
        Some(e) => e,
        None => {
            proof {
                lemma_pushed_none(problems.items@);
            }
            return None;
        },
    };
    let text = match expr_entry.value.as_str() {
        Some(t) => t,
        None => {
            proof {
                lemma_pushed_none(problems.items@);
            }
            return None;
        },
    };
    let name = match text_of(&name_entry.value) {
        Some(t) => t,
        None => String::new(),
    };
    let span = expr_entry.value_span.clone();
    let language = lower_language(es);
    let (expr, notes) = read(text, "definition", &span, problems);
    let todo = match crate::yaml::find_entry(es, "todo") {
        Some(e) => spanned_text(e),
        None => None,
    };
    Some(Definition {
        name: Spanned::new(name, name_entry.value_span.clone()),
        text: Spanned::new(text.to_owned(), span),
        language,
        expr,
        label: first_text(es, "label"),
        description: first_text(es, "description"),
        details: first_text(es, "details"),
        todo,
        notes,
    })
}

/// The `definitions` entries among `xs`, in order.
pub open spec fn definition_nodes(xs: Seq<Yaml>) -> Seq<Yaml>
    decreases xs.len(),
{
    if xs.len() == 0 {
        seq![]
    } else {
        definition_nodes(xs.drop_last()) + if definition_node(xs.last()) {
            seq![xs.last()]
        } else {
            seq![]
        }
    }
}

pub open spec fn definition_list_issues(xs: Seq<Yaml>) -> Seq<Issue>
    decreases xs.len(),
{
    if xs.len() == 0 {
        seq![]
    } else {
        definition_list_issues(xs.drop_last()) + definition_issues(xs.last())
    }
}

pub open spec fn definitions_are(xs: Seq<Definition>, nodes: Seq<Yaml>) -> bool {
    xs.len() == nodes.len() && forall|i: int| 0 <= i < xs.len() ==> definition_is(#[trigger] xs[i], nodes[i])
}

/// Lower each item of a list as a definition, keeping those that are.
fn lower_definitions(xs: &Vec<Yaml>, d: Language, problems: &mut ProblemSet) -> (r: Vec<Definition>)
    requires
        forall|i: int| 0 <= i < xs@.len() ==> definition_readable(#[trigger] xs@[i], d),
    ensures
        definitions_are(r@, definition_nodes(xs@)),
        pushed(old(problems).items@, final(problems).items@, definition_list_issues(xs@)),
        final(problems).source == old(problems).source,
{
    let mut out: Vec<Definition> = Vec::new();
    let ghost p0 = problems.items@;
    proof {
        assert(xs@.take(0) =~= Seq::<Yaml>::empty());
        lemma_pushed_none(p0);
    }
    let mut i: usize = 0;
    while i < xs.len()
        invariant
            i <= xs@.len(),
            forall|i: int| 0 <= i < xs@.len() ==> definition_readable(#[trigger] xs@[i], d),
            problems.source == old(problems).source,
            p0 == old(problems).items@,
            definitions_are(out@, definition_nodes(xs@.take(i as int))),
            pushed(p0, problems.items@, definition_list_issues(xs@.take(i as int))),
        decreases xs@.len() - i,
    {
        let ghost t = xs@.take(i + 1);
        let ghost pb = problems.items@;
        let ghost before = out@;
        proof {
            assert(t.drop_last() =~= xs@.take(i as int));
            assert(t.last() == xs@[i as int]);
        }
        match lower_definition(&xs[i], d, problems) {
            Some(a) => {
                out.push(a);
                proof {
                    let n = definition_nodes(t);
                    assert(n == definition_nodes(xs@.take(i as int)).push(xs@[i as int]));
                    assert forall|k: int| 0 <= k < out@.len() implies definition_is(#[trigger] out@[k], n[k]) by {
                        if k < before.len() {
                            assert(out@[k] == before[k]);
                        }
                    }
                }
            },
            None => {
                proof {
                    assert(definition_nodes(t) =~= definition_nodes(xs@.take(i as int)));
                }
            },
        }
        proof {
            lemma_pushed_chain(p0, pb, problems.items@, definition_list_issues(xs@.take(i as int)), definition_issues(xs@[i as int]));
        }
        i = i + 1;
    }
    proof {
        assert(xs@.take(xs@.len() as int) =~= xs@);
    }
    out
}



// --- Tables ------------------------------------------------------------------------------

/// The items of the list under `key` of a mapping node; none when there is
/// no such list.
pub open spec fn list_under(node: Yaml, key: Seq<char>) -> Seq<Yaml> {
    match value_at(node, key) {
        Some(v) => match items_of(v) {
            Some(xs) => xs,
            None => seq![],
        },
        None => seq![],
    }
}

/// The items of the list under `key`, or an empty list.
fn list_at<'a>(node: &'a Yaml, key: &str, empty: &'a Vec<Yaml>) -> (r: &'a Vec<Yaml>)
    requires
        empty@.len() == 0,
    ensures
        r@ == list_under(*node, key@),
{
    match node.get_hash_value(key) {
        Some(v) => match v.as_array() {
            Some(xs) => xs,
            None => empty,
        },
        None => empty,
    }
}

/// A table entry: a mapping with a `name` key.
pub open spec fn table_node(node: Yaml) -> bool {
    match entries_of(node) {
        Some(es) => entry_at(es, "name"@) is Some,
        None => false,
    }
}

/// The value of the first `key` entry as text (empty when it is not a
/// string), when there is such an entry.
pub open spec fn keyed_text(es: Seq<YamlEntry>, key: Seq<char>) -> Option<Seq<char>> {
    match entry_at(es, key) {
        Some(e) => Some(
            match str_of(e.value) {
                Some(t) => t,
                None => seq![],
            },
        ),
        None => None,
    }
}

/// The `parquet` path of a table's `source`, when it has one.
pub open spec fn parquet_of(node: Yaml) -> Option<Seq<char>> {
    match value_at(node, "source"@) {
        Some(n) => match value_at(n, "parquet"@) {
            Some(p) => str_of(p),
            None => None,
        },
        None => None,
    }
}

/// `t` is the table the entry `node` declares.
pub open spec fn table_is(t: Table, node: Yaml) -> bool {
    let es = entries_of(node)->0;
    &&& t.name.value@ == match first_str(es, "name"@) {
        Some(x) => x,
        None => seq![],
    }
    &&& columns_are(t.columns@, list_under(node, "columns"@))
    &&& assertions_are(t.constraints@, assertion_nodes(list_under(node, "constraints"@)))
    &&& definitions_are(t.definitions@, definition_nodes(list_under(node, "definitions"@)))
    &&& match (t.source, parquet_of(node)) {
        (Some(s), Some(p)) => s.parquet.value@ == p,
        (None, None) => true,
        _ => false,
    }
    &&& opt_spanned_text(t.label) == keyed_text(es, "label"@)
    &&& opt_spanned_text(t.description) == keyed_text(es, "description"@)
    &&& opt_spanned_text(t.details) == keyed_text(es, "details"@)
    &&& opt_text(t.origin) == match value_at(node, "origin"@) {
        Some(o) => str_of(o),
        None => None,
    }
    &&& opt_spanned_text(t.todo) == first_str(es, "todo"@)
}

/// What lowering a table entry reports: its columns', then its constraints',
/// then its definitions'.
pub open spec fn table_issues(node: Yaml) -> Seq<Issue> {
    if table_node(node) {
        columns_issues(list_under(node, "columns"@)) + assertion_list_issues(list_under(node, "constraints"@))
            + definition_list_issues(list_under(node, "definitions"@))
    } else {
        seq![]
    }
}

/// Every expression a table entry holds is readable in the data-dict language.
pub open spec fn table_readable(node: Yaml, d: Language) -> bool {
    &&& columns_readable(list_under(node, "columns"@), d)
    &&& forall|i: int|
        0 <= i < list_under(node, "constraints"@).len() ==> readable(#[trigger] list_under(node, "constraints"@)[i], d)
    &&& forall|i: int|
        0 <= i < list_under(node, "definitions"@).len() ==> definition_readable(
            #[trigger] list_under(node, "definitions"@)[i],
            d,
        )
}

/// The value of the first `key` entry as text, with the key's span.
fn keyed_string(es: &Vec<YamlEntry>, key: &str) -> (r: Option<Spanned<String>>)
    ensures
        opt_spanned_text(r) == keyed_text(es@, key@),
{
    match crate::yaml::find_entry(es, key) {
        Some(e) => Some(Spanned::new(
            match text_of(&e.value) {
                Some(t) => t,
                None => String::new(),
            },
            e.key_span.clone(),
        )),
        None => None,
    }
}

/// Lower a table entry: its columns, constraints and definitions, its source
/// and notes; none without a `name`.
pub fn lower_table(node: &Yaml, d: Language, problems: &mut ProblemSet) -> (r: Option<Table>)
    requires
        table_readable(*node, d),
    ensures
        match r {
            Some(t) => table_node(*node) && table_is(t, *node),
            None => !table_node(*node),
        },
        pushed(old(problems).items@, final(problems).items@, table_issues(*node)),
        final(problems).source == old(problems).source,
{
    let es = match node.as_hash() {
        Some(es) => es,
        None => {
            proof {
                lemma_pushed_none(problems.items@);
            }
            return None;
        },
    };
    let name_entry = match crate::yaml::find_entry(es, "name") {
        Some(e) => e,
        None => {
            proof {
                lemma_pushed_none(problems.items@);
            }
            return None;
        },
    };
    let name = match text_of(&name_entry.value) {
        Some(t) => t,
        None => String::new(),
    };
    let empty: Vec<Yaml> = Vec::new();
    let ghost p0 = problems.items@;
    let columns = lower_columns(list_at(node, "columns", &empty), d, problems);
    let ghost p1 = problems.items@;
    let constraints = lower_assertions(list_at(node, "constraints", &empty), d, problems);
    let ghost p2 = problems.items@;
    let definitions = lower_definitions(list_at(node, "definitions", &empty), d, problems);
    proof {
        lemma_pushed_chain(
            p0,
            p1,
            p2,
            columns_issues(list_under(*node, "columns"@)),
            assertion_list_issues(list_under(*node, "constraints"@)),
        );
        lemma_pushed_chain(
            p0,
            p2,
            problems.items@,
            columns_issues(list_under(*node, "columns"@)) + assertion_list_issues(list_under(*node, "constraints"@)),
            definition_list_issues(list_under(*node, "definitions"@)),
        );
    }
    let source = match node.get_hash_value("source") {
        Some(n) => match n.get_hash_value("parquet") {
            Some(p) => match text_of(p) {
                Some(path) => Some(Source { span: n.span.clone(), parquet: Spanned::new(path, p.span.clone()) }),
                None => None,
            },
            None => None,
        },
        None => None,
    };
    let todo = match crate::yaml::find_entry(es, "todo") {
        Some(e) => spanned_text(e),
        None => None,
    };
    let origin = match node.get_hash_value("origin") {
        Some(o) => text_of(o),
        None => None,
    };
    Some(Table {
        span: node.span.clone(),
        name: Spanned::new(name, name_entry.value_span.clone()),
        columns,
        constraints,
        definitions,
        source,
        label: keyed_string(es, "label"),
        description: keyed_string(es, "description"),
        details: keyed_string(es, "details"),
        origin,
        todo,
    })
}



// --- The whole document ------------------------------------------------------------------

/// `ts` are the tables the entries `xs` declare: one for each that has a name.
pub open spec fn tables_are(ts: Seq<Table>, xs: Seq<Yaml>) -> bool
    decreases xs.len(),
{
    if xs.len() == 0 {
        ts.len() == 0
    } else if table_node(xs.last()) {
        ts.len() > 0 && tables_are(ts.drop_last(), xs.drop_last()) && table_is(ts.last(), xs.last())
    } else {
        tables_are(ts, xs.drop_last())
    }
}

pub open spec fn tables_issues(xs: Seq<Yaml>) -> Seq<Issue>
    decreases xs.len(),
{
    if xs.len() == 0 {
        seq![]
    } else {
        tables_issues(xs.drop_last()) + table_issues(xs.last())
    }
}

pub open spec fn relationships_issues(xs: Seq<Yaml>) -> Seq<Issue>
    decreases xs.len(),
{
    if xs.len() == 0 {
        seq![]
    } else {
        relationships_issues(xs.drop_last()) + relationship_issues(xs.last())
    }
}

/// The text of an integer, as `i64::to_string` writes it.
pub open spec fn int_text(i: i64) -> Seq<char> {
    if i < 0 {
        seq!['-'] + crate::text::decimal((-i) as nat)
    } else {
        crate::text::decimal(i as nat)
    }
}

fn int_string(i: i64) -> (r: String)
    ensures
        r@ == int_text(i),
{
    if i < 0 {
        let m: u64 = if i == i64::MIN {
            9223372036854775808u64
        } else {
            (-i) as u64
        };
        let digits = crate::text::decimal_u64(m);
        let mut s = String::from_str("-");
        s.append(digits.as_str());
        proof {
            reveal_strlit("-");
        }
        s
    } else {
        crate::text::decimal_u64(i as u64)
    }
}

/// A `version` value as text: a string as written, an integer in decimal,
/// a number with a fraction as written.
pub open spec fn version_text(y: Yaml) -> Option<Seq<char>> {
    match y.value {
        YamlValue::Str(s) => Some(s@),
        YamlValue::Int(i) => Some(int_text(i)),
        YamlValue::Real(s) => Some(s@),
        _ => None,
    }
}

/// `v` is the version the `version` map `node` states: its first entry,
/// read as a `number`, `date` or `hash`.
pub open spec fn version_is(v: Option<Version>, node: Option<Yaml>) -> bool {
    match node {
        Some(n) => match entries_of(n) {
            Some(es) => if es.len() == 0 {
                v is None
            } else {
                match (str_of(es[0].key), version_text(es[0].value)) {
                    (Some(k), Some(t)) => if k == "number"@ {
                        v matches Some(Version::Number(x)) && x@ == t
                    } else if k == "date"@ {
                        v matches Some(Version::Date(x)) && x@ == t
                    } else if k == "hash"@ {
                        v matches Some(Version::Hash(x)) && x@ == t
                    } else {
                        v is None
                    },
                    _ => v is None,
                }
            },
            None => v is None,
        },
        None => v is None,
    }
}

fn lower_version(node: &Yaml) -> (r: Option<Version>)
    ensures
        version_is(r, Some(*node)),
{
    let es = match node.as_hash() {
        Some(es) => es,
        None => {
            return None;
        },
    };
    if es.len() == 0 {
        return None;
    }
    let e = &es[0];
    let text = match &e.value.value {
        YamlValue::Str(s) => s.clone(),
        YamlValue::Int(i) => int_string(*i),
        YamlValue::Real(s) => s.clone(),
        _ => {
            return None;
        },
    };
    if is_key(&e.key, "number") {
        Some(Version::Number(text))
    } else if is_key(&e.key, "date") {
        Some(Version::Date(text))
    } else if is_key(&e.key, "hash") {
        Some(Version::Hash(text))
    } else {
        None
    }
}

/// The (term, definition) pairs of the `glossary` map.
pub open spec fn glossary_pairs(root: Yaml) -> Seq<(Seq<char>, Seq<char>)> {
    match value_at(root, "glossary"@) {
        Some(g) => match entries_of(g) {
            Some(es) => str_pairs(es),
            None => seq![],
        },
        None => seq![],
    }
}

/// The language expressions are read in where they name none.
pub open spec fn default_language(root: Yaml) -> Language {
    match entries_of(root) {
        Some(es) => match language_named(es) {
            Some(l) => l,
            None => Language::DataDict,
        },
        None => Language::DataDict,
    }
}

/// A document lowering can read: every expression in the data-dict language,
/// and every relationship a mapping with a `join` and a `cardinality`, as
/// the schema requires of it.
pub open spec fn lowerable(root: Yaml) -> bool {
    &&& forall|i: int|
        0 <= i < list_under(root, "tables"@).len() ==> table_readable(
            #[trigger] list_under(root, "tables"@)[i],
            default_language(root),
        )
    &&& forall|i: int|
        0 <= i < list_under(root, "relationships"@).len() ==> relationship_shaped(
            #[trigger] list_under(root, "relationships"@)[i],
        )
}

pub open spec fn string_under(root: Yaml, key: Seq<char>) -> Option<Seq<char>> {
    match value_at(root, key) {
        Some(v) => str_of(v),
        None => None,
    }
}

/// `d` is the dictionary the document `root` states.
pub open spec fn dict_is(d: DataDict, root: Yaml) -> bool {
    &&& spanned_language(d.language) == match entries_of(root) {
        Some(es) => language_named(es),
        None => None,
    }
    &&& tables_are(d.tables@, list_under(root, "tables"@))
    &&& d.relationships@.len() == list_under(root, "relationships"@).len()
    &&& forall|i: int|
        0 <= i < d.relationships@.len() ==> relationship_is(
            #[trigger] d.relationships@[i],
            list_under(root, "relationships"@)[i],
        )
    &&& opt_spanned_text(d.todo) == match entries_of(root) {
        Some(es) => first_str(es, "todo"@),
        None => None,
    }
    &&& opt_text(d.name) == string_under(root, "name"@)
    &&& opt_text(d.label) == string_under(root, "label"@)
    &&& opt_text(d.description) == string_under(root, "description"@)
    &&& opt_text(d.details) == string_under(root, "details"@)
    &&& opt_text(d.origin) == string_under(root, "origin"@)
    &&& opt_text(d.learn_more) == string_under(root, "$learn_more"@)
    &&& version_is(d.version, value_at(root, "version"@))
    &&& d.glossary@.map_values(|g: GlossaryEntry| (g.term@, g.definition@)) == glossary_pairs(root)
}

/// What lowering a document reports: its tables', then its relationships'.
pub open spec fn dict_issues(root: Yaml) -> Seq<Issue> {
    tables_issues(list_under(root, "tables"@)) + relationships_issues(list_under(root, "relationships"@))
}

fn string_value(root: &Yaml, key: &str) -> (r: Option<String>)
    ensures
        opt_text(r) == string_under(*root, key@),
{
    match root.get_hash_value(key) {
        Some(v) => text_of(v),
        None => None,
    }
}

/// Lower a document's tree into the dictionary model, reporting a `join`
/// that does not parse (S04) and an expression that does not (S19, or S35
/// for a construct with no equivalent here).
pub fn lower(root: &Yaml, problems: &mut ProblemSet) -> (r: DataDict)
    requires
        lowerable(*root),
    ensures
        dict_is(r, *root),
        pushed(old(problems).items@, final(problems).items@, dict_issues(*root)),
        final(problems).source == old(problems).source,
{
    let language = match root.as_hash() {
        Some(es) => lower_language(es),
        None => None,
    };
    let d = match &language {
        Some(l) => l.value,
        None => Language::DataDict,
    };
    assert(d == default_language(*root));
    let empty: Vec<Yaml> = Vec::new();
    let ghost p0 = problems.items@;
    let txs = list_at(root, "tables", &empty);
    let mut tables: Vec<Table> = Vec::new();
    let mut i: usize = 0;
    proof {
        assert(txs@.take(0) =~= Seq::<Yaml>::empty());
        lemma_pushed_none(p0);
    }
    while i < txs.len()
        invariant
            i <= txs@.len(),
            txs@ == list_under(*root, "tables"@),
            d == default_language(*root),
            lowerable(*root),
            problems.source == old(problems).source,
            p0 == old(problems).items@,
            tables_are(tables@, txs@.take(i as int)),
            pushed(p0, problems.items@, tables_issues(txs@.take(i as int))),
        decreases txs@.len() - i,
    {
        let ghost t = txs@.take(i + 1);
        let ghost pb = problems.items@;
        let ghost before = tables@;
        proof {
            assert(t.drop_last() =~= txs@.take(i as int));
            assert(t.last() == txs@[i as int]);
        }
        match lower_table(&txs[i], d, problems) {
            Some(tb) => {
                tables.push(tb);
                proof {
                    assert(tables@.drop_last() =~= before);
                }
            },
            None => {},
        }
        proof {
            lemma_pushed_chain(p0, pb, problems.items@, tables_issues(txs@.take(i as int)), table_issues(txs@[i as int]));
        }
        i = i + 1;
    }
    proof {
        assert(txs@.take(txs@.len() as int) =~= txs@);
    }
    let ghost p1 = problems.items@;
    let rxs = list_at(root, "relationships", &empty);
    let mut relationships: Vec<Relationship> = Vec::new();
    let mut j: usize = 0;
    proof {
        assert(rxs@.take(0) =~= Seq::<Yaml>::empty());
        lemma_pushed_none(p1);
    }
    while j < rxs.len()
        invariant
            j <= rxs@.len(),
            rxs@ == list_under(*root, "relationships"@),
            lowerable(*root),
            problems.source == old(problems).source,
            relationships@.len() == j,
            forall|k: int| 0 <= k < j ==> relationship_is(#[trigger] relationships@[k], rxs@[k]),
            pushed(p1, problems.items@, relationships_issues(rxs@.take(j as int))),
        decreases rxs@.len() - j,
    {
        let ghost t = rxs@.take(j + 1);
        let ghost pb = problems.items@;
        proof {
            assert(t.drop_last() =~= rxs@.take(j as int));
            assert(t.last() == rxs@[j as int]);
        }
        let rel = lower_relationship(&rxs[j], problems);
        relationships.push(rel);
        proof {
            lemma_pushed_chain(
                p1,
                pb,
                problems.items@,
                relationships_issues(rxs@.take(j as int)),
                relationship_issues(rxs@[j as int]),
            );
        }
        j = j + 1;
    }
    proof {
        assert(rxs@.take(rxs@.len() as int) =~= rxs@);
        lemma_pushed_chain(
            p0,
            p1,
            problems.items@,
            tables_issues(list_under(*root, "tables"@)),
            relationships_issues(list_under(*root, "relationships"@)),
        );
    }
    let todo = match root.as_hash() {
        Some(es) => match crate::yaml::find_entry(es, "todo") {
            Some(e) => spanned_text(e),
            None => None,
        },
        None => None,
    };
    let mut glossary: Vec<GlossaryEntry> = Vec::new();
    match root.get_hash_value("glossary") {
        Some(g) => match g.as_hash() {
            Some(ges) => {
                let mut pairs: Vec<Alias> = Vec::new();
                lower_aliases(ges, &mut pairs);
                let mut k: usize = 0;
                while k < pairs.len()
                    invariant
                        k <= pairs@.len(),
                        glossary@.map_values(|g: GlossaryEntry| (g.term@, g.definition@)) == pairs@.map_values(
                            |a: Alias| (a.name.value@, a.table.value@),
                        ).take(k as int),
                    decreases pairs@.len() - k,
                {
                    let ghost before = glossary@.map_values(|g: GlossaryEntry| (g.term@, g.definition@));
                    let term = String::from_str(pairs[k].name.value.as_str());
                    let definition = String::from_str(pairs[k].table.value.as_str());
                    glossary.push(GlossaryEntry { term, definition });
                    proof {
                        let pm = pairs@.map_values(|a: Alias| (a.name.value@, a.table.value@));
                        assert(pm[k as int] == (pairs@[k as int].name.value@, pairs@[k as int].table.value@));
                        assert(glossary@.map_values(|g: GlossaryEntry| (g.term@, g.definition@)) =~= before.push(pm[k as int]));
                        assert(pm.take(k + 1) =~= pm.take(k as int).push(pm[k as int]));
                    }
                    k = k + 1;
                }
                proof {
                    assert(pairs@.map_values(|a: Alias| (a.name.value@, a.table.value@)).take(pairs@.len() as int)
                        =~= pairs@.map_values(|a: Alias| (a.name.value@, a.table.value@)));
                    assert(Seq::<Alias>::empty().map_values(|a: Alias| (a.name.value@, a.table.value@)) =~= Seq::<
                        (Seq<char>, Seq<char>),
                    >::empty());
                }
            },
            None => {
                assert(glossary@.map_values(|g: GlossaryEntry| (g.term@, g.definition@)) =~= Seq::<(Seq<char>, Seq<char>)>::empty());
            },
        },
        None => {
            assert(glossary@.map_values(|g: GlossaryEntry| (g.term@, g.definition@)) =~= Seq::<(Seq<char>, Seq<char>)>::empty());
        },
    }
    let version = match root.get_hash_value("version") {
        Some(v) => lower_version(v),
        None => None,
    };
    DataDict {
        name: string_value(root, "name"),
        label: string_value(root, "label"),
        description: string_value(root, "description"),
        details: string_value(root, "details"),
        origin: string_value(root, "origin"),
        learn_more: string_value(root, "$learn_more"),
        version,
        tables,
        relationships,
        glossary,
        todo,
        language,
    }
}



// --- Whether a document can be lowered here ----------------------------------------------

/// The language an entry's expression is read in, decided for an entry whose
/// entries are `es`.
fn reads_as_data_dict(es: &Vec<YamlEntry>, d: Language) -> (r: bool)
    ensures
        r == (effective_language(es@, d) == Language::DataDict),
{
    match lower_language(es) {
        Some(l) => l.value == Language::DataDict,
        None => d == Language::DataDict,
    }
}

/// Whether an item is readable: not an `assert` map, or one in the data-dict language.
fn is_readable(node: &Yaml, d: Language) -> (r: bool)
    ensures
        r == readable(*node, d),
{
    match node.as_hash() {
        Some(es) => match crate::yaml::find_entry(es, "assert") {
            Some(e) => match e.value.as_str() {
                Some(_) => reads_as_data_dict(es, d),
                None => true,
            },
            None => true,
        },
        None => true,
    }
}

/// Whether a definition entry is readable in the data-dict language.
fn is_definition_readable(node: &Yaml, d: Language) -> (r: bool)
    ensures
        r == definition_readable(*node, d),
{
    match node.as_hash() {
        Some(es) => {
            let named = crate::yaml::find_entry(es, "name").is_some();
            let expr = match crate::yaml::find_entry(es, "expr") {
                Some(e) => e.value.as_str().is_some(),
                None => false,
            };
            if named && expr {
                reads_as_data_dict(es, d)
            } else {
                true
            }
        },
        None => true,
    }
}

/// Whether every non-string item of `xs` is readable.
fn are_items_readable(xs: &Vec<Yaml>, d: Language) -> (r: bool)
    ensures
        r == items_readable(xs@, d),
{
    let mut i: usize = 0;
    while i < xs.len()
        invariant
            i <= xs@.len(),
            forall|k: int| 0 <= k < i && str_of(#[trigger] xs@[k]) is None ==> readable(xs@[k], d),
        decreases xs@.len() - i,
    {
        if xs[i].as_str().is_none() && !is_readable(&xs[i], d) {
            return false;
        }
        i = i + 1;
    }
    true
}

/// Whether every expression of a column entry is readable.
fn is_column_readable(node: &Yaml, d: Language) -> (r: bool)
    ensures
        r == column_readable(*node, d),
    decreases node_size(*node),
{
    let es = match &node.value {
        YamlValue::Mapping(es) => es,
        _ => {
            return true;
        },
    };
    let mut i: usize = 0;
    proof {
        assert(es@.take(0) =~= Seq::<YamlEntry>::empty());
    }
    while i < es.len()
        invariant
            i <= es@.len(),
            node.value == YamlValue::Mapping(*es),
            entries_readable(es@.take(i as int), d),
        decreases es@.len() - i,
    {
        let e = &es[i];
        let ghost t = es@.take(i + 1);
        proof {
            assert(t.drop_last() =~= es@.take(i as int));
            assert(t[t.len() - 1] == es@[i as int]);
        }
        let mut ok = true;
        if is_key(&e.key, "constraints") {
            match &e.value.value {
                YamlValue::List(xs) => {
                    ok = are_items_readable(xs, d);
                },
                _ => {
                    assert(items_readable(constraints_list(*e), d));
                },
            }
        } else {
            assert(items_readable(constraints_list(*e), d));
        }
        if ok && is_key(&e.key, "fields") {
            match &e.value.value {
                YamlValue::List(xs) => {
                    proof {
                        lemma_entry_size(es@, i as int);
                    }
                    ok = are_columns_readable(xs, d);
                },
                _ => {},
            }
        }
        if !ok {
            proof {
                if entries_readable(es@, d) {
                    lemma_entries_readable_prefix(es@, d, i + 1);
                }
            }
            return false;
        }
        i = i + 1;
    }
    proof {
        assert(es@.take(es@.len() as int) =~= es@);
    }
    true
}

/// Whether every expression of a list of column entries is readable.
fn are_columns_readable(xs: &Vec<Yaml>, d: Language) -> (r: bool)
    ensures
        r == columns_readable(xs@, d),
    decreases list_size(xs@),
{
    let mut i: usize = 0;
    proof {
        assert(xs@.take(0) =~= Seq::<Yaml>::empty());
    }
    while i < xs.len()
        invariant
            i <= xs@.len(),
            columns_readable(xs@.take(i as int), d),
        decreases xs@.len() - i,
    {
        let ghost t = xs@.take(i + 1);
        proof {
            assert(t.drop_last() =~= xs@.take(i as int));
            assert(t[t.len() - 1] == xs@[i as int]);
            lemma_item_size(xs@, i as int);
        }
        if !is_column_readable(&xs[i], d) {
            proof {
                if columns_readable(xs@, d) {
                    lemma_columns_readable_prefix(xs@, d, i + 1);
                }
            }
            return false;
        }
        i = i + 1;
    }
    proof {
        assert(xs@.take(xs@.len() as int) =~= xs@);
    }
    true
}

proof fn lemma_entries_readable_prefix(es: Seq<YamlEntry>, d: Language, n: int)
    requires
        0 <= n <= es.len(),
        entries_readable(es, d),
    ensures
        entries_readable(es.take(n), d),
    decreases es.len(),
{
    if n < es.len() {
        assert(es.drop_last().take(n) =~= es.take(n));
        lemma_entries_readable_prefix(es.drop_last(), d, n);
    } else {
        assert(es.take(n) =~= es);
    }
}

proof fn lemma_columns_readable_prefix(xs: Seq<Yaml>, d: Language, n: int)
    requires
        0 <= n <= xs.len(),
        columns_readable(xs, d),
    ensures
        columns_readable(xs.take(n), d),
    decreases xs.len(),
{
    if n < xs.len() {
        assert(xs.drop_last().take(n) =~= xs.take(n));
        lemma_columns_readable_prefix(xs.drop_last(), d, n);
    } else {
        assert(xs.take(n) =~= xs);
    }
}

/// Whether a relationship entry has what the schema guarantees it.
fn is_relationship_shaped(node: &Yaml) -> (r: bool)
    ensures
        r == relationship_shaped(*node),
{
    let es = match node.as_hash() {
        Some(es) => es,
        None => {
            return false;
        },
    };
    let mut has_cardinality = false;
    let mut has_join = false;
    let mut i: usize = 0;
    while i < es.len()
        invariant
            i <= es@.len(),
            entries_of(*node) == Some(es@),
            has_cardinality == last_entry(es@.take(i as int), "cardinality"@, cardinality_entry()) is Some,
            has_join == last_entry(es@.take(i as int), "join"@, str_entry()) is Some,
        decreases es@.len() - i,
    {
        let e = &es[i];
        proof {
            lemma_last_entry_step(es@, i as int, "cardinality"@, cardinality_entry());
            lemma_last_entry_step(es@, i as int, "join"@, str_entry());
        }
        if is_key(&e.key, "cardinality") {
            match e.value.as_str() {
                Some(t) => {
                    if Cardinality::parse(t).is_some() {
                        has_cardinality = true;
                    }
                },
                None => {},
            }
        }
        if is_key(&e.key, "join") && e.value.as_str().is_some() {
            has_join = true;
        }
        i = i + 1;
    }
    proof {
        assert(es@.take(es@.len() as int) =~= es@);
    }
    has_cardinality && has_join
}

/// Whether every expression of a table entry is readable.
fn is_table_readable(node: &Yaml, d: Language) -> (r: bool)
    ensures
        r == table_readable(*node, d),
{
    let empty: Vec<Yaml> = Vec::new();
    let cols = list_at(node, "columns", &empty);
    let cons = list_at(node, "constraints", &empty);
    let defs = list_at(node, "definitions", &empty);
    if !are_columns_readable(cols, d) {
        return false;
    }
    let mut i: usize = 0;
    while i < cons.len()
        invariant
            i <= cons@.len(),
            cons@ == list_under(*node, "constraints"@),
            forall|k: int| 0 <= k < i ==> readable(#[trigger] cons@[k], d),
        decreases cons@.len() - i,
    {
        if !is_readable(&cons[i], d) {
            assert(!readable(list_under(*node, "constraints"@)[i as int], d));
            return false;
        }
        i = i + 1;
    }
    let mut j: usize = 0;
    while j < defs.len()
        invariant
            j <= defs@.len(),
            cons@ == list_under(*node, "constraints"@),
            defs@ == list_under(*node, "definitions"@),
            columns_readable(cols@, d),
            cols@ == list_under(*node, "columns"@),
            forall|k: int| 0 <= k < cons@.len() ==> readable(#[trigger] cons@[k], d),
            forall|k: int| 0 <= k < j ==> definition_readable(#[trigger] defs@[k], d),
        decreases defs@.len() - j,
    {
        if !is_definition_readable(&defs[j], d) {
            assert(!definition_readable(list_under(*node, "definitions"@)[j as int], d));
            return false;
        }
        j = j + 1;
    }
    true
}

/// Whether the document can be lowered here: every expression is in the
/// data-dict language and every relationship has what the schema asks.
pub fn is_lowerable(root: &Yaml) -> (r: bool)
    ensures
        r == lowerable(*root),
{
    let d = match root.as_hash() {
        Some(es) => match lower_language(es) {
            Some(l) => l.value,
            None => Language::DataDict,
        },
        None => Language::DataDict,
    };
    let empty: Vec<Yaml> = Vec::new();
    let tables = list_at(root, "tables", &empty);
    let rels = list_at(root, "relationships", &empty);
    let mut i: usize = 0;
    while i < tables.len()
        invariant
            i <= tables@.len(),
            d == default_language(*root),
            tables@ == list_under(*root, "tables"@),
            forall|k: int| 0 <= k < i ==> table_readable(#[trigger] tables@[k], d),
        decreases tables@.len() - i,
    {
        if !is_table_readable(&tables[i], d) {
            assert(!table_readable(list_under(*root, "tables"@)[i as int], default_language(*root)));
            return false;
        }
        i = i + 1;
    }
    let mut j: usize = 0;
    while j < rels.len()
        invariant
            j <= rels@.len(),
            rels@ == list_under(*root, "relationships"@),
            forall|k: int| 0 <= k < j ==> relationship_shaped(#[trigger] rels@[k]),
        decreases rels@.len() - j,
    {
        if !is_relationship_shaped(&rels[j]) {
            assert(!relationship_shaped(list_under(*root, "relationships"@)[j as int]));
            return false;
        }
        j = j + 1;
    }
    true
}


} // verus!
