//! The spec checks on names and notes: names are present (S11) and unique
//! (S10), a single table leaves the dataset's description to the top level
//! (S16), and every `todo` is reported (S31).

use vstd::prelude::*;

use quarto_source_map::SourceInfo;

use crate::model::{innermost_type, scalar_noun, Column, DataDict, Definition, Relationship, Scalar, Spanned, Table};
use crate::text::{innermost, str_eq};
use crate::problem::ProblemSet;

use super::{
    comma_list, found, lemma_reports_chain, lemma_reports_none, quoted, report, report_warning, reports, warned,
    Found,
};

verus! {

// S11

/// What S11 reports for a table: an empty name.
pub open spec fn s11_table(table: Table) -> Seq<Found> {
    if table.name.value@.len() == 0 {
        seq![found("S11"@, "A table must have a non-empty name."@, "table name is empty"@)]
    } else {
        seq![]
    }
}

/// What S11 reports for a column: an empty name.
pub open spec fn s11_column(col: Column) -> Seq<Found> {
    if col.name.value@.len() == 0 {
        seq![found("S11"@, "Every column must have a non-empty `name`."@, "the `name` is empty"@)]
    } else {
        seq![]
    }
}

/// S11: a table has a name. Returns whether it has one, so that its
/// uniqueness may be checked.
pub fn validate_s11_table_name(table: &Table, out: &mut ProblemSet) -> (r: bool)
    ensures
        final(out).source == old(out).source,
        reports(old(out).items@, final(out).items@, s11_table(*table)),
        r == (table.name.value@.len() > 0),
{
    if table.name.value.as_str().is_empty() {
        let mut spans: Vec<SourceInfo> = Vec::new();
        spans.push(table.name.span.clone());
        report(
            out,
            "S11",
            String::from_str("A table must have a non-empty name."),
            String::from_str("table name is empty"),
            spans,
        );
        return false;
    }
    proof {
        lemma_reports_none(out.items@);
    }
    true
}

/// S11: a column has a name. Returns whether it has one, so that its
/// uniqueness may be checked.
pub fn validate_s11_column_name(table: &Table, col: &Column, out: &mut ProblemSet) -> (r: bool)
    ensures
        final(out).source == old(out).source,
        reports(old(out).items@, final(out).items@, s11_column(*col)),
        r == (col.name.value@.len() > 0),
{
    if col.name.value.as_str().is_empty() {
        let mut spans: Vec<SourceInfo> = Vec::new();
        spans.push(table.name.span.clone());
        spans.push(col.name.span.clone());
        report(
            out,
            "S11",
            String::from_str("Every column must have a non-empty `name`."),
            String::from_str("the `name` is empty"),
            spans,
        );
        return false;
    }
    proof {
        lemma_reports_none(out.items@);
    }
    true
}

// S10

/// The names seen so far, first occurrences only.
pub open spec fn seen_names(seen: Seq<Spanned<String>>) -> Seq<Seq<char>> {
    seen.map_values(|s: Spanned<String>| s.value@)
}

/// What S10 reports for a name, given the names seen before it.
pub open spec fn s10_findings(seen: Seq<Spanned<String>>, name: Seq<char>, expected: Seq<char>) -> Seq<Found> {
    if seen_names(seen).contains(name) {
        seq![found("S10"@, expected, "is duplicated"@)]
    } else {
        seq![]
    }
}

/// The names seen after `name`: unchanged when it was seen, else it is added.
pub open spec fn seen_after(seen: Seq<Spanned<String>>, name: Seq<char>) -> Seq<Seq<char>> {
    if seen_names(seen).contains(name) {
        seen_names(seen)
    } else {
        seen_names(seen).push(name)
    }
}

/// The first entry of `seen` called `name`, if any.
fn first_seen(seen: &Vec<Spanned<String>>, name: &str) -> (r: Option<usize>)
    ensures
        match r {
            Some(i) => i < seen@.len() && seen@[i as int].value@ == name@,
            None => !seen_names(seen@).contains(name@),
        },
{
    let mut i: usize = 0;
    while i < seen.len()
        invariant
            i <= seen@.len(),
            forall|k: int| 0 <= k < i ==> #[trigger] seen_names(seen@)[k] != name@,
        decreases seen@.len() - i,
    {
        if crate::text::str_eq(seen[i].value.as_str(), name) {
            return Some(i);
        }
        i = i + 1;
    }
    None
}

/// Record `name` as seen at `span` unless it already was.
fn note_seen(seen: &mut Vec<Spanned<String>>, name: &Spanned<String>)
    requires
        !seen_names(old(seen)@).contains(name.value@),
    ensures
        seen_names(final(seen)@) == seen_names(old(seen)@).push(name.value@),
{
    let ghost before = seen_names(seen@);
    seen.push(Spanned { value: name.value.clone(), span: name.span.clone() });
    assert(seen_names(seen@) =~= before.push(name.value@));
}

/// S10: column names are unique within a table. `seen` holds the first
/// occurrence of each name before this column.
pub fn validate_s10_unique_name(table: &Table, col: &Column, seen: &mut Vec<Spanned<String>>, out: &mut ProblemSet)
    ensures
        final(out).source == old(out).source,
        reports(
            old(out).items@,
            final(out).items@,
            s10_findings(old(seen)@, col.name.value@, "Column names must be unique within a table."@),
        ),
        seen_names(final(seen)@) == seen_after(old(seen)@, col.name.value@),
{
    match first_seen(seen, col.name.value.as_str()) {
        Some(i) => {
            assert(seen_names(seen@)[i as int] == col.name.value@);
            let mut spans: Vec<SourceInfo> = Vec::new();
            spans.push(table.name.span.clone());
            spans.push(seen[i].span.clone());
            spans.push(col.name.span.clone());
            report(
                out,
                "S10",
                String::from_str("Column names must be unique within a table."),
                String::from_str("is duplicated"),
                spans,
            );
        },
        None => {
            note_seen(seen, &col.name);
            proof {
                lemma_reports_none(out.items@);
            }
        },
    }
}

/// S10: table names are unique within the dictionary. `seen` holds the first
/// occurrence of each name before this table.
pub fn validate_s10_unique_table_name(table: &Table, seen: &mut Vec<Spanned<String>>, out: &mut ProblemSet)
    ensures
        final(out).source == old(out).source,
        reports(
            old(out).items@,
            final(out).items@,
            s10_findings(old(seen)@, table.name.value@, "Table names must be unique within the dictionary."@),
        ),
        seen_names(final(seen)@) == seen_after(old(seen)@, table.name.value@),
{
    match first_seen(seen, table.name.value.as_str()) {
        Some(i) => {
            assert(seen_names(seen@)[i as int] == table.name.value@);
            let mut spans: Vec<SourceInfo> = Vec::new();
            spans.push(seen[i].span.clone());
            spans.push(table.name.span.clone());
            report(
                out,
                "S10",
                String::from_str("Table names must be unique within the dictionary."),
                String::from_str("is duplicated"),
                spans,
            );
        },
        None => {
            note_seen(seen, &table.name);
            proof {
                lemma_reports_none(out.items@);
            }
        },
    }
}

// S16

/// The keys, each in backticks, as an English list with a serial comma:
/// `a`, `a` and `b`, `a`, `b`, and `c`.
pub open spec fn backtick_list(keys: Seq<Seq<char>>) -> Seq<char> {
    if keys.len() == 0 {
        seq![]
    } else if keys.len() == 1 {
        quoted(keys[0])
    } else if keys.len() == 2 {
        quoted(keys[0]) + " and "@ + quoted(keys[1])
    } else {
        comma_list(keys.drop_last()) + ", and "@ + quoted(keys.last())
    }
}

/// `keys`, each in backticks, as an English list with a serial comma.
pub fn fmt_backtick_list(keys: &[&str]) -> (r: String)
    ensures
        r@ == backtick_list(keys@.map_values(|k: &str| k@)),
{
    let ghost v = keys@.map_values(|k: &str| k@);
    let mut out = String::new();
    let n = keys.len();
    if n == 0 {
        assert(out@ =~= backtick_list(v));
        return out;
    }
    if n == 2 {
        out.append("`");
        out.append(keys[0]);
        out.append("`");
        out.append(" and ");
        out.append("`");
        out.append(keys[1]);
        out.append("`");
        assert(v[0] == keys@[0]@ && v[1] == keys@[1]@);
        assert(out@ =~= backtick_list(v));
        return out;
    }
    let mut i: usize = 0;
    while i + 1 < n
        invariant
            n == keys@.len(),
            n != 2,
            n > 0,
            i < n,
            v == keys@.map_values(|k: &str| k@),
            out@ == comma_list(v.take(i as int)),
        decreases n - i,
    {
        proof {
            let t = v.take(i + 1);
            assert(t.drop_last() =~= v.take(i as int));
            assert(t.last() == keys@[i as int]@);
        }
        if i > 0 {
            out.append(", ");
        }
        out.append("`");
        out.append(keys[i]);
        out.append("`");
        proof {
            let t = v.take(i + 1);
            if i == 0 {
                assert(out@ =~= quoted(t[0]));
            } else {
                assert(out@ =~= comma_list(t.drop_last()) + ", "@ + quoted(t.last()));
            }
        }
        i = i + 1;
    }
    let ghost init = out@;
    if n > 1 {
        out.append(", and ");
    }
    out.append("`");
    out.append(keys[n - 1]);
    out.append("`");
    proof {
        assert(v.drop_last() =~= v.take(n - 1));
        assert(v.last() == keys@[n - 1]@);
        if n == 1 {
            assert(init.len() == 0);
            assert(out@ =~= quoted(v[0]));
        } else {
            assert(out@ =~= comma_list(v.drop_last()) + ", and "@ + quoted(v.last()));
        }
    }
    out
}

/// The description keys a table carries, in the order `label`,
/// `description`, `details`.
pub open spec fn description_keys(table: Table) -> Seq<Seq<char>> {
    (if table.label is Some {
        seq!["label"@]
    } else {
        seq![]
    }) + (if table.description is Some {
        seq!["description"@]
    } else {
        seq![]
    }) + (if table.details is Some {
        seq!["details"@]
    } else {
        seq![]
    })
}

/// What S16 reports: the description keys of the only table of a
/// single-table dictionary.
pub open spec fn s16_findings(dict: DataDict) -> Seq<Found> {
    if dict.tables@.len() != 1 || description_keys(dict.tables@[0]).len() == 0 {
        seq![]
    } else {
        let table = dict.tables@[0];
        let keys = description_keys(table);
        let listed = backtick_list(keys);
        let verb = if keys.len() == 1 {
            "belongs"@
        } else {
            "belong"@
        };
        seq![warned(
            "S16"@,
            "A single-table dictionary's "@ + listed + " "@ + verb + " at the top level."@,
            "table `"@ + table.name.value@ + "` has "@ + listed,
        )]
    }
}

/// S16: a single-table dictionary keeps `label`, `description` and `details`
/// at the top level, where they describe the dataset.
pub fn validate_s16_single_table_description(dict: &DataDict, out: &mut ProblemSet)
    ensures
        final(out).source == old(out).source,
        reports(old(out).items@, final(out).items@, s16_findings(*dict)),
{
    if dict.tables.len() != 1 {
        proof {
            lemma_reports_none(out.items@);
        }
        return;
    }
    let table = &dict.tables[0];
    let mut keys: Vec<&str> = Vec::new();
    let mut spans: Vec<SourceInfo> = Vec::new();
    spans.push(table.name.span.clone());
    match &table.label {
        Some(s) => {
            keys.push("label");
            spans.push(s.span.clone());
        },
        None => {},
    }
    match &table.description {
        Some(s) => {
            keys.push("description");
            spans.push(s.span.clone());
        },
        None => {},
    }
    match &table.details {
        Some(s) => {
            keys.push("details");
            spans.push(s.span.clone());
        },
        None => {},
    }
    let ghost kv = keys@.map_values(|k: &str| k@);
    assert(kv =~= description_keys(*table));
    if keys.len() == 0 {
        proof {
            lemma_reports_none(out.items@);
        }
        return;
    }
    let listed = fmt_backtick_list(keys.as_slice());
    let verb = if keys.len() == 1 {
        "belongs"
    } else {
        "belong"
    };
    let mut expected = String::from_str("A single-table dictionary's ");
    expected.append(listed.as_str());
    expected.append(" ");
    expected.append(verb);
    expected.append(" at the top level.");
    let mut actual = String::from_str("table `");
    actual.append(table.name.value.as_str());
    actual.append("` has ");
    actual.append(listed.as_str());
    report_warning(out, "S16", expected, actual, spans);
}

// S31

/// What S31 reports for one `todo` slot.
pub open spec fn todo_found(todo: Option<Spanned<String>>) -> Seq<Found> {
    if todo is Some {
        seq![warned("S31"@, "Every `todo` must be resolved."@, "unresolved todo"@)]
    } else {
        seq![]
    }
}

/// What S31 reports for columns: each column's `todo`, then its fields'.
pub open spec fn column_todos(cols: Seq<Column>) -> Seq<Found>
    decreases cols,
{
    if cols.len() == 0 {
        seq![]
    } else {
        let last = cols.last();
        let nested = match last.fields {
            Some(fs) => {
                proof {
                    assert(decreases_to!(cols => cols[cols.len() - 1]));
                }
                column_todos(fs@)
            },
            None => seq![],
        };
        column_todos(cols.drop_last()) + todo_found(last.todo) + nested
    }
}

/// What S31 reports for a table's definitions.
pub open spec fn definition_todos(defs: Seq<Definition>) -> Seq<Found>
    decreases defs.len(),
{
    if defs.len() == 0 {
        seq![]
    } else {
        definition_todos(defs.drop_last()) + todo_found(defs.last().todo)
    }
}

/// What S31 reports for a table: its own `todo`, its columns', then its
/// definitions'.
pub open spec fn table_todos(table: Table) -> Seq<Found> {
    todo_found(table.todo) + column_todos(table.columns@) + definition_todos(table.definitions@)
}

/// What S31 reports for the tables, in order.
pub open spec fn tables_todos(tables: Seq<Table>) -> Seq<Found>
    decreases tables.len(),
{
    if tables.len() == 0 {
        seq![]
    } else {
        tables_todos(tables.drop_last()) + table_todos(tables.last())
    }
}

/// What S31 reports for the relationships, in order.
pub open spec fn relationship_todos(rels: Seq<Relationship>) -> Seq<Found>
    decreases rels.len(),
{
    if rels.len() == 0 {
        seq![]
    } else {
        relationship_todos(rels.drop_last()) + todo_found(rels.last().todo)
    }
}

/// What S31 reports for a dictionary: the dataset's `todo`, each table's,
/// then each relationship's.
pub open spec fn s31_findings(dict: DataDict) -> Seq<Found> {
    todo_found(dict.todo) + tables_todos(dict.tables@) + relationship_todos(dict.relationships@)
}

/// One S31 warning for a `todo`, anchored at its note with the `enclosing`
/// nodes shown as context.
fn report_todo(todo: &Option<Spanned<String>>, enclosing: Vec<SourceInfo>, out: &mut ProblemSet)
    ensures
        final(out).source == old(out).source,
        reports(old(out).items@, final(out).items@, todo_found(*todo)),
{
    match todo {
        Some(t) => {
            let mut spans = enclosing;
            spans.push(t.span.clone());
            report_warning(
                out,
                "S31",
                String::from_str("Every `todo` must be resolved."),
                String::from_str("unresolved todo"),
                spans,
            );
        },
        None => {
            proof {
                lemma_reports_none(out.items@);
            }
        },
    }
}

fn spans2(a: &SourceInfo, b: &SourceInfo) -> (r: Vec<SourceInfo>) {
    let mut v: Vec<SourceInfo> = Vec::new();
    v.push(a.clone());
    v.push(b.clone());
    v
}

fn spans1(a: &SourceInfo) -> (r: Vec<SourceInfo>) {
    let mut v: Vec<SourceInfo> = Vec::new();
    v.push(a.clone());
    v
}

/// S31 for columns and, within each, its fields.
fn report_column_todos(table: &Table, columns: &Vec<Column>, out: &mut ProblemSet)
    ensures
        final(out).source == old(out).source,
        reports(old(out).items@, final(out).items@, column_todos(columns@)),
    decreases columns@,
{
    let ghost base = out.items@;
    proof {
        lemma_reports_none(out.items@);
        assert(columns@.take(0) =~= Seq::<Column>::empty());
    }
    let mut i: usize = 0;
    while i < columns.len()
        invariant
            i <= columns@.len(),
            out.source == old(out).source,
            base == old(out).items@,
            reports(base, out.items@, column_todos(columns@.take(i as int))),
        decreases columns@.len() - i,
    {
        let ghost mid = out.items@;
        let col = &columns[i];
        proof {
            let t = columns@.take(i + 1);
            assert(t.drop_last() =~= columns@.take(i as int));
            assert(t.last() == columns@[i as int]);
        }
        report_todo(&col.todo, spans2(&table.name.span, &col.name.span), out);
        let ghost mid2 = out.items@;
        proof {
            lemma_reports_chain(base, mid, mid2, column_todos(columns@.take(i as int)), todo_found(col.todo));
        }
        match &col.fields {
            Some(fs) => {
                proof {
                    assert(decreases_to!(columns@ => columns@[i as int]));
                }
                report_column_todos(table, fs, out);
                proof {
                    lemma_reports_chain(
                        base,
                        mid2,
                        out.items@,
                        column_todos(columns@.take(i as int)) + todo_found(col.todo),
                        column_todos(fs@),
                    );
                }
            },
            None => {
                proof {
                    lemma_reports_none(out.items@);
                    lemma_reports_chain(
                        base,
                        mid2,
                        out.items@,
                        column_todos(columns@.take(i as int)) + todo_found(col.todo),
                        seq![],
                    );
                    assert(column_todos(columns@.take(i as int)) + todo_found(col.todo) + seq![] =~= column_todos(
                        columns@.take(i as int),
                    ) + todo_found(col.todo));
                }
            },
        }
        i = i + 1;
    }
    assert(columns@.take(i as int) =~= columns@);
}

/// S31 for one table: its `todo`, its columns', then its definitions'.
fn report_table_todos(table: &Table, out: &mut ProblemSet)
    ensures
        final(out).source == old(out).source,
        reports(old(out).items@, final(out).items@, table_todos(*table)),
{
    let ghost base = out.items@;
    report_todo(&table.todo, spans1(&table.name.span), out);
    let ghost m1 = out.items@;
    report_column_todos(table, &table.columns, out);
    let ghost m2 = out.items@;
    proof {
        lemma_reports_chain(base, m1, m2, todo_found(table.todo), column_todos(table.columns@));
        lemma_reports_none(out.items@);
        assert(table.definitions@.take(0) =~= Seq::<Definition>::empty());
    }
    let defs = &table.definitions;
    let mut i: usize = 0;
    while i < defs.len()
        invariant
            i <= defs@.len(),
            defs == &table.definitions,
            out.source == old(out).source,
            reports(m2, out.items@, definition_todos(defs@.take(i as int))),
        decreases defs@.len() - i,
    {
        let ghost mid = out.items@;
        proof {
            let t = defs@.take(i + 1);
            assert(t.drop_last() =~= defs@.take(i as int));
            assert(t.last() == defs@[i as int]);
        }
        report_todo(&defs[i].todo, spans2(&table.name.span, &defs[i].name.span), out);
        proof {
            lemma_reports_chain(m2, mid, out.items@, definition_todos(defs@.take(i as int)), todo_found(defs[i as int].todo));
        }
        i = i + 1;
    }
    proof {
        assert(defs@.take(i as int) =~= defs@);
        lemma_reports_chain(base, m2, out.items@, todo_found(table.todo) + column_todos(table.columns@), definition_todos(defs@));
    }
}

/// S31: every `todo` left in the dictionary is reported: the dataset's, each
/// table's, column's, struct field's and definition's, and each
/// relationship's.
pub fn validate_s31_todos(dict: &DataDict, out: &mut ProblemSet)
    ensures
        final(out).source == old(out).source,
        reports(old(out).items@, final(out).items@, s31_findings(*dict)),
{
    let ghost base = out.items@;
    report_todo(&dict.todo, Vec::new(), out);
    let ghost m1 = out.items@;
    proof {
        lemma_reports_none(out.items@);
        assert(dict.tables@.take(0) =~= Seq::<Table>::empty());
    }
    let tables = &dict.tables;
    let mut i: usize = 0;
    while i < tables.len()
        invariant
            i <= tables@.len(),
            tables == &dict.tables,
            out.source == old(out).source,
            reports(m1, out.items@, tables_todos(tables@.take(i as int))),
        decreases tables@.len() - i,
    {
        let ghost mid = out.items@;
        proof {
            let t = tables@.take(i + 1);
            assert(t.drop_last() =~= tables@.take(i as int));
            assert(t.last() == tables@[i as int]);
        }
        report_table_todos(&tables[i], out);
        proof {
            lemma_reports_chain(m1, mid, out.items@, tables_todos(tables@.take(i as int)), table_todos(tables@[i as int]));
        }
        i = i + 1;
    }
    let ghost m2 = out.items@;
    proof {
        assert(tables@.take(i as int) =~= tables@);
        lemma_reports_chain(base, m1, m2, todo_found(dict.todo), tables_todos(tables@));
        lemma_reports_none(out.items@);
        assert(dict.relationships@.take(0) =~= Seq::<Relationship>::empty());
    }
    let rels = &dict.relationships;
    let mut k: usize = 0;
    while k < rels.len()
        invariant
            k <= rels@.len(),
            rels == &dict.relationships,
            out.source == old(out).source,
            reports(m2, out.items@, relationship_todos(rels@.take(k as int))),
        decreases rels@.len() - k,
    {
        let ghost mid = out.items@;
        proof {
            let t = rels@.take(k + 1);
            assert(t.drop_last() =~= rels@.take(k as int));
            assert(t.last() == rels@[k as int]);
        }
        report_todo(&rels[k].todo, spans1(&rels[k].join_text.span), out);
        proof {
            lemma_reports_chain(m2, mid, out.items@, relationship_todos(rels@.take(k as int)), todo_found(rels[k as int].todo));
        }
        k = k + 1;
    }
    proof {
        assert(rels@.take(k as int) =~= rels@);
        lemma_reports_chain(base, m2, out.items@, todo_found(dict.todo) + tables_todos(tables@), relationship_todos(rels@));
    }
}

// S24

/// What S24 reports for an enum's values: each one that is not a string.
pub open spec fn s24_items(items: Seq<Spanned<Scalar>>) -> Seq<Found>
    decreases items.len(),
{
    if items.len() == 0 {
        seq![]
    } else {
        let v = items.last().value;
        s24_items(items.drop_last()) + if v is String {
            seq![]
        } else {
            seq![found("S24"@, "An `enum`'s values must be strings."@, "is "@ + scalar_noun(v))]
        }
    }
}

/// What S24 reports for a column: an `enum` (or `list(enum)`) whose
/// `values` are empty, or hold something other than strings. A missing
/// `values` is S07's to report.
pub open spec fn s24_findings(col: Column) -> Seq<Found> {
    match col.col_type {
        Some(t) if innermost(t.value@) == "enum"@ => match col.values {
            Some(v) => if v.items@.len() == 0 {
                seq![found("S24"@, "An `enum` column must list at least one value."@, "is empty"@)]
            } else {
                s24_items(v.items@)
            },
            None => seq![],
        },
        _ => seq![],
    }
}

/// The table, the column, its `type`, the `values` key, then `span`: where
/// a finding about an enum's values is shown.
fn enum_at(table: &Table, col_type: &Spanned<String>, col: &Column, key_span: &SourceInfo, span: &SourceInfo) -> (r:
    Vec<SourceInfo>)
    ensures
        r@.len() == 5,
{
    let mut v: Vec<SourceInfo> = Vec::new();
    v.push(table.name.span.clone());
    v.push(col.name.span.clone());
    v.push(col_type.span.clone());
    v.push(key_span.clone());
    v.push(span.clone());
    v
}

/// S24: an enum's values are the categories of the column, so there must be
/// some and each must be a string.
pub fn validate_enum_values(table: &Table, col: &Column, out: &mut ProblemSet)
    ensures
        final(out).source == old(out).source,
        reports(old(out).items@, final(out).items@, s24_findings(*col)),
{
    proof {
        reveal_strlit("enum");
    }
    let col_type = match &col.col_type {
        Some(t) => t,
        None => {
            proof {
                lemma_reports_none(out.items@);
            }
            return;
        },
    };
    if !str_eq(innermost_type(col_type.value.as_str()), "enum") {
        proof {
            lemma_reports_none(out.items@);
        }
        return;
    }
    let values = match &col.values {
        Some(v) => v,
        None => {
            proof {
                lemma_reports_none(out.items@);
            }
            return;
        },
    };
    if values.items.len() == 0 {
        report(
            out,
            "S24",
            String::from_str("An `enum` column must list at least one value."),
            String::from_str("is empty"),
            enum_at(table, col_type, col, &values.key_span, &values.span),
        );
        return;
    }
    let ghost base = out.items@;
    let items = &values.items;
    proof {
        lemma_reports_none(out.items@);
        assert(items@.take(0) =~= Seq::<Spanned<Scalar>>::empty());
    }
    let mut i: usize = 0;
    while i < items.len()
        invariant
            i <= items@.len(),
            items == &values.items,
            out.source == old(out).source,
            base == old(out).items@,
            reports(base, out.items@, s24_items(items@.take(i as int))),
        decreases items@.len() - i,
    {
        let ghost mid = out.items@;
        proof {
            let t = items@.take(i + 1);
            assert(t.drop_last() =~= items@.take(i as int));
            assert(t.last() == items@[i as int]);
        }
        let item = &items[i];
        match &item.value {
            Scalar::String(_) => {
                assert(s24_items(items@.take(i + 1)) =~= s24_items(items@.take(i as int)));
            },
            _ => {
                let mut actual = String::from_str("is ");
                actual.append(item.value.noun());
                report(
                    out,
                    "S24",
                    String::from_str("An `enum`'s values must be strings."),
                    actual,
                    enum_at(table, col_type, col, &values.key_span, &item.span),
                );
                proof {
                    lemma_reports_chain(base, mid, out.items@, s24_items(items@.take(i as int)), seq![found(
                        "S24"@,
                        "An `enum`'s values must be strings."@,
                        "is "@ + scalar_noun(item.value),
                    )]);
                }
            },
        }
        i = i + 1;
    }
    assert(items@.take(i as int) =~= items@);
}

} // verus!
