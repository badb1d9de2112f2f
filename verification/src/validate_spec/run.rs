//! Running the spec checks over a whole dictionary, in a fixed order and with
//! the gating between them: a check that refines another runs only when the
//! one it refines passed. Relationship checks run first, then the
//! dictionary-wide notes (S16, S31), then each table: its name (S11, then
//! uniqueness S10 only for a name that is there), then its columns. Each column
//! gets S01 and S29 (table columns only), S08, S14, S15, S11 then S10, S24,
//! and the type chain S28 then S07; a struct column's fields are checked the
//! same way, as columns of their own.

use vstd::prelude::*;

use quarto_source_map::SourceInfo;

use crate::model::{Column, DataDict, Relationship, Spanned, Table};
use crate::lower::{dict_is, dict_issues, is_lowerable, lower, lowerable, pushed};
use crate::problem::{problem_key, sorted_by_position, status_of, Problem, ProblemKind, ProblemSet, Severity, Status};
use crate::yaml::{entries_of, entry_at, read_yaml, source_for, str_of, yaml_of, Yaml, YamlEntry, YamlValue};
use super::version::{s17_verdict, s32_verdict};
use super::{check_spec_version, check_version_field, report, report_warning, sub_or_whole, warned};

use super::dictionary::{
    s10_findings, s11_column, s11_table, s16_findings, s24_findings, s31_findings, seen_after, seen_names,
};
use super::{
    found, lemma_reports_chain, lemma_reports_none, over_rels, rel_qcols, reports, s01_findings, s02_rel,
    s03_qcols, s04_rel, s05_rel, s06_rel, s07_findings, s08_findings, s14_findings, s15_findings, s25_rel,
    s26_aliases, s27_rel, s28_findings, s29_findings, validate_enum_values, validate_s01_foreign_key,
    validate_s02_relationship_table_refs, validate_s03_relationship_column_refs, validate_s04_join_table_count,
    validate_s05_conflicts_present_on_both_sides, validate_s06_cardinality_consistency, validate_s07_representation,
    validate_s08_units, validate_s10_unique_name, validate_s10_unique_table_name, validate_s11_column_name,
    validate_s11_table_name, validate_s14_time_zone, validate_s15_time_zone_format,
    validate_s16_single_table_description, validate_s25_unaliased_self_join, validate_s26_alias_shadows_table,
    validate_s27_unused_alias, validate_s28_type, validate_s29_key_constraints, validate_s31_todos, Found,
};

verus! {

/// What the relationship checks and the dictionary-wide notes report, in the
/// order they run: S02, S03, S04, S05, S06, S25, S26, S27, S16, S31.
pub open spec fn dictionary_findings(dict: DataDict) -> Seq<Found> {
    over_rels(dict.relationships@, |rel: Relationship| s02_rel(dict, rel))
        + over_rels(dict.relationships@, |rel: Relationship| s03_qcols(dict, rel, rel_qcols(rel)))
        + over_rels(dict.relationships@, |rel: Relationship| s04_rel(rel))
        + over_rels(dict.relationships@, |rel: Relationship| s05_rel(dict, rel))
        + over_rels(dict.relationships@, |rel: Relationship| s06_rel(dict, rel))
        + over_rels(dict.relationships@, |rel: Relationship| s25_rel(rel))
        + over_rels(dict.relationships@, |rel: Relationship| s26_aliases(dict, rel.aliases@))
        + over_rels(dict.relationships@, |rel: Relationship| s27_rel(rel))
        + s16_findings(dict)
        + s31_findings(dict)
}

/// The names already taken once `name` is met: an empty name takes none, a
/// name met before is already there.
pub open spec fn names_after(names: Seq<Seq<char>>, name: Seq<char>) -> Seq<Seq<char>> {
    if name.len() == 0 || names.contains(name) {
        names
    } else {
        names.push(name)
    }
}

/// S10 for a name, given the names taken before it: a duplicate is reported.
pub open spec fn duplicate_findings(names: Seq<Seq<char>>, name: Seq<char>, expected: Seq<char>) -> Seq<Found> {
    if names.contains(name) {
        seq![found("S10"@, expected, "is duplicated"@)]
    } else {
        seq![]
    }
}

/// The names of a list of columns taken before its end.
pub open spec fn column_names(cols: Seq<Column>) -> Seq<Seq<char>>
    decreases cols.len(),
{
    if cols.len() == 0 {
        seq![]
    } else {
        names_after(column_names(cols.drop_last()), cols.last().name.value@)
    }
}

/// The names of a list of tables taken before its end.
pub open spec fn table_names_taken(tables: Seq<Table>) -> Seq<Seq<char>>
    decreases tables.len(),
{
    if tables.len() == 0 {
        seq![]
    } else {
        names_after(table_names_taken(tables.drop_last()), tables.last().name.value@)
    }
}

/// What one column reports, `names` being the names of the columns before it
/// in its list. `top` is whether it is a table's own column rather than a
/// struct's field: only those get S01 and S29.
pub open spec fn column_findings(dict: DataDict, table: Table, col: Column, top: bool, names: Seq<Seq<char>>) -> Seq<Found>
    decreases col,
{
    (if top {
        s01_findings(dict, table, col) + s29_findings(col)
    } else {
        seq![]
    })
        + s08_findings(col)
        + s14_findings(col)
        + s15_findings(col)
        + s11_column(col)
        + (if col.name.value@.len() > 0 {
        duplicate_findings(names, col.name.value@, "Column names must be unique within a table."@)
    } else {
        seq![]
    })
        + s24_findings(col)
        + s28_findings(col)
        + (if s28_findings(col).len() == 0 {
        s07_findings(col)
    } else {
        seq![]
    })
        + match col.fields {
        Some(fields) => columns_findings(dict, table, fields@, false),
        None => seq![],
    }
}

/// What a list of columns reports, column by column.
pub open spec fn columns_findings(dict: DataDict, table: Table, cols: Seq<Column>, top: bool) -> Seq<Found>
    decreases cols,
{
    if cols.len() == 0 {
        seq![]
    } else {
        columns_findings(dict, table, cols.drop_last(), top) + column_findings(
            dict,
            table,
            cols[cols.len() - 1],
            top,
            column_names(cols.drop_last()),
        )
    }
}

/// What one table reports, `names` being the names of the tables before it.
pub open spec fn table_findings(dict: DataDict, table: Table, names: Seq<Seq<char>>) -> Seq<Found> {
    s11_table(table) + (if table.name.value@.len() > 0 {
        duplicate_findings(names, table.name.value@, "Table names must be unique within the dictionary."@)
    } else {
        seq![]
    }) + columns_findings(dict, table, table.columns@, true)
}

/// What a list of tables reports, table by table.
pub open spec fn tables_findings(dict: DataDict, tables: Seq<Table>) -> Seq<Found>
    decreases tables.len(),
{
    if tables.len() == 0 {
        seq![]
    } else {
        tables_findings(dict, tables.drop_last()) + table_findings(
            dict,
            tables.last(),
            table_names_taken(tables.drop_last()),
        )
    }
}

/// Everything the spec checks report on a dictionary, in the order they run.
pub open spec fn spec_findings(dict: DataDict) -> Seq<Found> {
    dictionary_findings(dict) + tables_findings(dict, dict.tables@)
}

proof fn lemma_names_after(seen: Seq<Spanned<String>>, name: Seq<char>)
    requires
        name.len() > 0,
    ensures
        seen_after(seen, name) == names_after(seen_names(seen), name),
{
}

/// The checks of a list of columns, with the names seen so far in it.
fn check_columns(dict: &DataDict, table: &Table, cols: &Vec<Column>, top: bool, out: &mut ProblemSet)
    ensures
        final(out).source == old(out).source,
        reports(old(out).items@, final(out).items@, columns_findings(*dict, *table, cols@, top)),
    decreases cols@,
{
    let ghost base = out.items@;
    let mut seen: Vec<Spanned<String>> = Vec::new();
    proof {
        lemma_reports_none(out.items@);
        assert(seen_names(seen@) =~= column_names(cols@.take(0)));
        assert(columns_findings(*dict, *table, cols@.take(0), top) =~= seq![]);
    }
    let mut i: usize = 0;
    while i < cols.len()
        invariant
            i <= cols@.len(),
            out.source == old(out).source,
            base == old(out).items@,
            seen_names(seen@) == column_names(cols@.take(i as int)),
            reports(base, out.items@, columns_findings(*dict, *table, cols@.take(i as int), top)),
        decreases cols@.len() - i,
    {
        let col = &cols[i];
        let ghost before = out.items@;
        let ghost names = seen_names(seen@);
        check_column(dict, table, col, top, &mut seen, out);
        proof {
            let prefix = cols@.take(i as int);
            let next = cols@.take(i + 1);
            assert(next.drop_last() =~= prefix);
            assert(next[next.len() - 1] == *col);
            assert(next.last() == *col);
            lemma_reports_chain(
                base,
                before,
                out.items@,
                columns_findings(*dict, *table, prefix, top),
                column_findings(*dict, *table, *col, top, names),
            );
        }
        i = i + 1;
    }
    proof {
        assert(cols@.take(cols@.len() as int) =~= cols@);
    }
}

/// The checks of one column, `seen` holding the names of the columns before
/// it in its list.
fn check_column(
    dict: &DataDict,
    table: &Table,
    col: &Column,
    top: bool,
    seen: &mut Vec<Spanned<String>>,
    out: &mut ProblemSet,
)
    ensures
        final(out).source == old(out).source,
        reports(
            old(out).items@,
            final(out).items@,
            column_findings(*dict, *table, *col, top, seen_names(old(seen)@)),
        ),
        seen_names(final(seen)@) == names_after(seen_names(old(seen)@), col.name.value@),
    decreases *col,
{
    let ghost base = out.items@;
    let ghost names = seen_names(seen@);
    let ghost a = out.items@;
    if top {
        validate_s01_foreign_key(dict, table, col, out);
        let ghost b = out.items@;
        validate_s29_key_constraints(table, col, out);
        proof {
            lemma_reports_chain(a, b, out.items@, s01_findings(*dict, *table, *col), s29_findings(*col));
        }
    } else {
        proof {
            lemma_reports_none(out.items@);
        }
    }
    let ghost w0 = if top {
        s01_findings(*dict, *table, *col) + s29_findings(*col)
    } else {
        Seq::<Found>::empty()
    };
    let ghost b = out.items@;
    validate_s08_units(table, col, out);
    proof {
        lemma_reports_chain(a, b, out.items@, w0, s08_findings(*col));
    }
    let ghost w1 = w0 + s08_findings(*col);
    let ghost c = out.items@;
    validate_s14_time_zone(table, col, out);
    proof {
        lemma_reports_chain(a, c, out.items@, w1, s14_findings(*col));
    }
    let ghost w2 = w1 + s14_findings(*col);
    let ghost d = out.items@;
    validate_s15_time_zone_format(table, col, out);
    proof {
        lemma_reports_chain(a, d, out.items@, w2, s15_findings(*col));
    }
    let ghost w3 = w2 + s15_findings(*col);
    let ghost e = out.items@;
    let named = validate_s11_column_name(table, col, out);
    proof {
        lemma_reports_chain(a, e, out.items@, w3, s11_column(*col));
    }
    let ghost w4 = w3 + s11_column(*col);
    let ghost f = out.items@;
    if named {
        validate_s10_unique_name(table, col, seen, out);
        proof {
            lemma_names_after(old(seen)@, col.name.value@);
            lemma_reports_chain(
                a,
                f,
                out.items@,
                w4,
                duplicate_findings(names, col.name.value@, "Column names must be unique within a table."@),
            );
        }
    } else {
        proof {
            lemma_reports_none(out.items@);
            assert(w4 + Seq::<Found>::empty() =~= w4);
        }
    }
    let ghost w5 = w4 + (if col.name.value@.len() > 0 {
        duplicate_findings(names, col.name.value@, "Column names must be unique within a table."@)
    } else {
        Seq::<Found>::empty()
    });
    let ghost g = out.items@;
    validate_enum_values(table, col, out);
    proof {
        lemma_reports_chain(a, g, out.items@, w5, s24_findings(*col));
    }
    let ghost w6 = w5 + s24_findings(*col);
    let ghost h = out.items@;
    let typed = validate_s28_type(table, col, out);
    proof {
        lemma_reports_chain(a, h, out.items@, w6, s28_findings(*col));
    }
    let ghost w7 = w6 + s28_findings(*col);
    let ghost k = out.items@;
    if typed {
        validate_s07_representation(table, col, out);
        proof {
            lemma_reports_chain(a, k, out.items@, w7, s07_findings(*col));
        }
    } else {
        proof {
            lemma_reports_none(out.items@);
            assert(w7 + Seq::<Found>::empty() =~= w7);
        }
    }
    let ghost w8 = w7 + (if s28_findings(*col).len() == 0 {
        s07_findings(*col)
    } else {
        Seq::<Found>::empty()
    });
    let ghost m = out.items@;
    match &col.fields {
        Some(fields) => {
            check_columns(dict, table, fields, false, out);
            proof {
                lemma_reports_chain(a, m, out.items@, w8, columns_findings(*dict, *table, fields@, false));
            }
        },
        None => {
            proof {
                lemma_reports_none(out.items@);
                assert(w8 + Seq::<Found>::empty() =~= w8);
            }
        },
    }
}

/// The checks of every table, in order, with the table names seen so far.
fn check_tables(dict: &DataDict, out: &mut ProblemSet)
    ensures
        final(out).source == old(out).source,
        reports(old(out).items@, final(out).items@, tables_findings(*dict, dict.tables@)),
{
    let ghost base = out.items@;
    let tables = &dict.tables;
    let mut seen: Vec<Spanned<String>> = Vec::new();
    proof {
        lemma_reports_none(out.items@);
        assert(seen_names(seen@) =~= table_names_taken(tables@.take(0)));
        assert(tables_findings(*dict, tables@.take(0)) =~= seq![]);
    }
    let mut i: usize = 0;
    while i < tables.len()
        invariant
            i <= tables@.len(),
            tables@ == dict.tables@,
            out.source == old(out).source,
            base == old(out).items@,
            seen_names(seen@) == table_names_taken(tables@.take(i as int)),
            reports(base, out.items@, tables_findings(*dict, tables@.take(i as int))),
        decreases tables@.len() - i,
    {
        let table = &tables[i];
        let ghost seen0 = seen@;
        let ghost names = seen_names(seen@);
        let ghost a = out.items@;
        let named = validate_s11_table_name(table, out);
        let ghost b = out.items@;
        if named {
            validate_s10_unique_table_name(table, &mut seen, out);
            proof {
                lemma_names_after(seen0, table.name.value@);
            }
        } else {
            proof {
                lemma_reports_none(out.items@);
            }
        }
        let ghost dup = if table.name.value@.len() > 0 {
            duplicate_findings(names, table.name.value@, "Table names must be unique within the dictionary."@)
        } else {
            Seq::<Found>::empty()
        };
        proof {
            lemma_reports_chain(a, b, out.items@, s11_table(*table), dup);
        }
        let ghost c = out.items@;
        check_columns(dict, table, &table.columns, true, out);
        proof {
            lemma_reports_chain(
                a,
                c,
                out.items@,
                s11_table(*table) + dup,
                columns_findings(*dict, *table, table.columns@, true),
            );
            let prefix = tables@.take(i as int);
            let next = tables@.take(i + 1);
            assert(next.drop_last() =~= prefix);
            assert(next.last() == *table);
            lemma_reports_chain(
                base,
                a,
                out.items@,
                tables_findings(*dict, prefix),
                table_findings(*dict, *table, names),
            );
        }
        i = i + 1;
    }
    proof {
        assert(tables@.take(tables@.len() as int) =~= tables@);
    }
}

/// Run every spec check on `dict`, appending what they report to `out` in
/// the order they run; sort `out` afterwards to put the findings in source
/// order.
pub fn check_spec(dict: &DataDict, out: &mut ProblemSet)
    ensures
        final(out).source == old(out).source,
        reports(old(out).items@, final(out).items@, spec_findings(*dict)),
{
    let ghost s0 = out.items@;
    validate_s02_relationship_table_refs(dict, out);
    let ghost s1 = out.items@;
    validate_s03_relationship_column_refs(dict, out);
    let ghost s2 = out.items@;
    validate_s04_join_table_count(dict, out);
    let ghost s3 = out.items@;
    validate_s05_conflicts_present_on_both_sides(dict, out);
    let ghost s4 = out.items@;
    validate_s06_cardinality_consistency(dict, out);
    let ghost s5 = out.items@;
    validate_s25_unaliased_self_join(dict, out);
    let ghost s6 = out.items@;
    validate_s26_alias_shadows_table(dict, out);
    let ghost s7 = out.items@;
    validate_s27_unused_alias(dict, out);
    let ghost s8 = out.items@;
    validate_s16_single_table_description(dict, out);
    let ghost s9 = out.items@;
    validate_s31_todos(dict, out);
    let ghost s10 = out.items@;
    check_tables(dict, out);
    proof {
        let rels = dict.relationships@;
        let w1 = over_rels(rels, |rel: Relationship| s02_rel(*dict, rel));
        let w2 = over_rels(rels, |rel: Relationship| s03_qcols(*dict, rel, rel_qcols(rel)));
        let w3 = over_rels(rels, |rel: Relationship| s04_rel(rel));
        let w4 = over_rels(rels, |rel: Relationship| s05_rel(*dict, rel));
        let w5 = over_rels(rels, |rel: Relationship| s06_rel(*dict, rel));
        let w6 = over_rels(rels, |rel: Relationship| s25_rel(rel));
        let w7 = over_rels(rels, |rel: Relationship| s26_aliases(*dict, rel.aliases@));
        let w8 = over_rels(rels, |rel: Relationship| s27_rel(rel));
        lemma_reports_chain(s0, s1, s2, w1, w2);
        lemma_reports_chain(s0, s2, s3, w1 + w2, w3);
        lemma_reports_chain(s0, s3, s4, w1 + w2 + w3, w4);
        lemma_reports_chain(s0, s4, s5, w1 + w2 + w3 + w4, w5);
        lemma_reports_chain(s0, s5, s6, w1 + w2 + w3 + w4 + w5, w6);
        lemma_reports_chain(s0, s6, s7, w1 + w2 + w3 + w4 + w5 + w6, w7);
        lemma_reports_chain(s0, s7, s8, w1 + w2 + w3 + w4 + w5 + w6 + w7, w8);
        lemma_reports_chain(s0, s8, s9, w1 + w2 + w3 + w4 + w5 + w6 + w7 + w8, s16_findings(*dict));
        lemma_reports_chain(
            s0,
            s9,
            s10,
            w1 + w2 + w3 + w4 + w5 + w6 + w7 + w8 + s16_findings(*dict),
            s31_findings(*dict),
        );
        lemma_reports_chain(s0, s10, out.items@, dictionary_findings(*dict), tables_findings(*dict, dict.tables@));
    }
}


// --- Document-level checks --------------------------------------------------------------

/// The rule S17 states of a dataset `version`.
pub open spec fn s17_rule() -> Seq<char> {
    "A `version` must give exactly one of `number`, `date`, or `hash`."@
}

/// What the checks on the document itself report: a missing `$learn_more`
/// (S09), a `version` that gives other than one sound kind (S17), a missing
/// `$version` (S18), and a `$version` this validator does not support (S32).
pub open spec fn document_findings(doc: Yaml) -> Seq<Found> {
    match entries_of(doc) {
        Some(es) => {
            let s09 = if entry_at(es, "$learn_more"@) is Some {
                seq![]
            } else {
                seq![warned("S09"@, "A document should point readers to the spec with `$learn_more`."@, "`$learn_more` is not set"@)]
            };
            let s17 = match entry_at(es, "version"@) {
                Some(v) => match entries_of(v.value) {
                    Some(fs) => if fs.len() == 0 {
                        seq![found("S17"@, s17_rule(), "names none of them"@)]
                    } else if fs.len() > 1 {
                        seq![found(
                            "S17"@,
                            s17_rule(),
                            "`"@ + match str_of(fs[0].key) {
                                Some(k) => k,
                                None => seq![],
                            } + "` has already been supplied"@,
                        )]
                    } else {
                        match str_of(fs[0].key) {
                            Some(k) => match s17_verdict(k, str_of(fs[0].value)) {
                                Some((x, y)) => seq![found("S17"@, x, y)],
                                None => seq![],
                            },
                            None => seq![],
                        }
                    },
                    None => seq![],
                },
                None => seq![],
            };
            let s18 = if entry_at(es, "$version"@) is Some {
                seq![]
            } else {
                seq![found(
                    "S18"@,
                    "A document must declare the spec version it conforms to with `$version`."@,
                    "`$version` is not set"@,
                )]
            };
            let s32 = match entry_at(es, "$version"@) {
                Some(e) => match s32_verdict(str_of(e.value)) {
                    Some((x, y)) => seq![found("S32"@, x, y)],
                    None => seq![],
                },
                None => seq![],
            };
            s09 + s17 + s18 + s32
        },
        None => seq![],
    }
}

fn one_span(span: SourceInfo) -> (r: Vec<SourceInfo>)
    ensures
        r@.len() == 1,
{
    let mut v: Vec<SourceInfo> = Vec::new();
    v.push(span);
    v
}

fn two_spans(a: SourceInfo, b: SourceInfo) -> (r: Vec<SourceInfo>)
    ensures
        r@.len() == 2,
{
    let mut v: Vec<SourceInfo> = Vec::new();
    v.push(a);
    v.push(b);
    v
}

/// S17 on the `version` map of a document.
fn check_version_map(v: &YamlEntry, out: &mut ProblemSet) -> (w: Ghost<Seq<Found>>)
    ensures
        final(out).source == old(out).source,
        reports(old(out).items@, final(out).items@, w@),
        w@ == match entries_of(v.value) {
            Some(fs) => if fs.len() == 0 {
                seq![found("S17"@, s17_rule(), "names none of them"@)]
            } else if fs.len() > 1 {
                seq![found(
                    "S17"@,
                    s17_rule(),
                    "`"@ + match str_of(fs[0].key) {
                        Some(k) => k,
                        None => seq![],
                    } + "` has already been supplied"@,
                )]
            } else {
                match str_of(fs[0].key) {
                    Some(k) => match s17_verdict(k, str_of(fs[0].value)) {
                        Some((x, y)) => seq![found("S17"@, x, y)],
                        None => seq![],
                    },
                    None => seq![],
                }
            },
            None => seq![],
        },
{
    let fs = match v.value.as_hash() {
        Some(fs) => fs,
        None => {
            proof {
                lemma_reports_none(out.items@);
            }
            let ghost w: Seq<Found> = seq![];
            return Ghost(w);
        },
    };
    let rule = String::from_str("A `version` must give exactly one of `number`, `date`, or `hash`.");
    if fs.len() == 0 {
        report(out, "S17", rule, String::from_str("names none of them"), one_span(v.key_span.clone()));
        let ghost w: Seq<Found> = seq![found("S17"@, s17_rule(), "names none of them"@)];
        return Ghost(w);
    }
    if fs.len() > 1 {
        let mut actual = String::from_str("`");
        match fs[0].key.as_str() {
            Some(k) => {
                actual.append(k);
            },
            None => {},
        }
        actual.append("` has already been supplied");
        let mut spans = two_spans(v.key_span.clone(), fs[0].key_span.clone());
        spans.push(fs[fs.len() - 1].key_span.clone());
        report(out, "S17", rule, actual, spans);
        let ghost w: Seq<Found> = seq![found("S17"@, s17_rule(), "`"@ + match str_of(fs@[0].key) {
            Some(k) => k,
            None => seq![],
        } + "` has already been supplied"@)];
        return Ghost(w);
    }
    match fs[0].key.as_str() {
        Some(k) => match check_version_field(k, fs[0].value.as_str()) {
            Some((x, y)) => {
                let ghost xv = x@;
                let ghost yv = y@;
                report(out, "S17", x, y, two_spans(v.key_span.clone(), fs[0].value_span.clone()));
                let ghost w: Seq<Found> = seq![found("S17"@, xv, yv)];
                Ghost(w)
            },
            None => {
                proof {
                    lemma_reports_none(out.items@);
                }
                let ghost w: Seq<Found> = seq![];
                Ghost(w)
            },
        },
        None => {
            proof {
                lemma_reports_none(out.items@);
            }
            let ghost w: Seq<Found> = seq![];
            Ghost(w)
        },
    }
}

/// The checks on the document itself: S09, S17, S18 and S32.
pub fn check_document(doc: &Yaml, out: &mut ProblemSet)
    ensures
        final(out).source == old(out).source,
        reports(old(out).items@, final(out).items@, document_findings(*doc)),
{
    let es = match doc.as_hash() {
        Some(es) => es,
        None => {
            proof {
                lemma_reports_none(out.items@);
            }
            return;
        },
    };
    let ghost a = out.items@;
    let ghost w09: Seq<Found> = if entry_at(es@, "$learn_more"@) is Some {
        seq![]
    } else {
        seq![warned("S09"@, "A document should point readers to the spec with `$learn_more`."@, "`$learn_more` is not set"@)]
    };
    if crate::yaml::find_entry(es, "$learn_more").is_none() {
        let span = sub_or_whole(&doc.span, 0, 1);
        report_warning(
            out,
            "S09",
            String::from_str("A document should point readers to the spec with `$learn_more`."),
            String::from_str("`$learn_more` is not set"),
            one_span(span),
        );
    } else {
        proof {
            lemma_reports_none(out.items@);
        }
    }
    let ghost b = out.items@;
    let ghost mut w17: Seq<Found> = seq![];
    match crate::yaml::find_entry(es, "version") {
        Some(v) => {
            let Ghost(w) = check_version_map(v, out);
            proof {
                w17 = w;
            }
        },
        None => {
            proof {
                lemma_reports_none(out.items@);
            }
        },
    }
    let ghost c = out.items@;
    let version_entry = crate::yaml::find_entry(es, "$version");
    let ghost w18: Seq<Found> = if entry_at(es@, "$version"@) is Some {
        seq![]
    } else {
        seq![found(
            "S18"@,
            "A document must declare the spec version it conforms to with `$version`."@,
            "`$version` is not set"@,
        )]
    };
    if version_entry.is_none() {
        let span = sub_or_whole(&doc.span, 0, 1);
        report(
            out,
            "S18",
            String::from_str("A document must declare the spec version it conforms to with `$version`."),
            String::from_str("`$version` is not set"),
            one_span(span),
        );
    } else {
        proof {
            lemma_reports_none(out.items@);
        }
    }
    let ghost e = out.items@;
    let ghost mut w32: Seq<Found> = seq![];
    match version_entry {
        Some(ve) => match check_spec_version(ve.value.as_str()) {
            Some((x, y)) => {
                let ghost xv = x@;
                let ghost yv = y@;
                report(out, "S32", x, y, two_spans(ve.key_span.clone(), ve.value_span.clone()));
                proof {
                    w32 = seq![found("S32"@, xv, yv)];
                }
            },
            None => {
                proof {
                    lemma_reports_none(out.items@);
                }
            },
        },
        None => {
            proof {
                lemma_reports_none(out.items@);
            }
        },
    }
    proof {
        lemma_reports_chain(a, b, c, w09, w17);
        lemma_reports_chain(a, c, e, w09 + w17, w18);
        lemma_reports_chain(a, e, out.items@, w09 + w17 + w18, w32);
    }
}

/// Lower a document's tree, run every spec check on the dictionary it
/// states and the checks on the document itself, and put the findings, with
/// what lowering reported, in source order. The dictionary comes back when nothing reported is an error.
pub fn validate_and_lower(doc: &Yaml, out: &mut ProblemSet) -> (r: Option<DataDict>)
    requires
        lowerable(*doc),
    ensures
        final(out).source == old(out).source,
        exists|d: DataDict, lowered: Seq<Problem>, checked: Seq<Problem>, documented: Seq<Problem>|
            {
                &&& dict_is(d, *doc)
                &&& pushed(old(out).items@, lowered, dict_issues(*doc))
                &&& reports(lowered, checked, spec_findings(d))
                &&& reports(checked, documented, document_findings(*doc))
                &&& final(out).items@ == sorted_by_position(
                    documented,
                    documented.map_values(|p: Problem| problem_key(p)),
                )
                &&& (r matches Some(x) ==> x == d)
            },
        (r is None) == (status_of(final(out).severities()) == Status::Error),
{
    let dict = lower(doc, out);
    let ghost lowered = out.items@;
    check_spec(&dict, out);
    let ghost checked = out.items@;
    check_document(doc, out);
    let ghost documented = out.items@;
    out.sort();
    if out.status().failed() {
        None
    } else {
        Some(dict)
    }
}


/// Validate a dictionary given as text, attributing problems to `filename`:
/// text that is not YAML is one pre-flight problem; a document is lowered and
/// checked as [`validate_and_lower`] does, its problems in source order. A
/// document that needs what this library cannot do gives none: an expression
/// written in R or Python, or a relationship without the `join` string and
/// `cardinality` the schema requires of it. The schema's own structural pass
/// does not run here.
pub fn validate_spec_str(content: &str, filename: &str) -> (r: Option<ProblemSet>)
    ensures
        match yaml_of(content@, filename@) {
            Err(m) => r matches Some(set) && set.items@.len() == 1 && set.items@[0].message@ == m
                && set.items@[0].kind is Parse && set.items@[0].code is None && set.items@[0].severity
                == Severity::Error,
            Ok(doc) => if lowerable(doc) {
                r matches Some(set) && exists|
                    d: DataDict,
                    lowered: Seq<Problem>,
                    checked: Seq<Problem>,
                    documented: Seq<Problem>,
                |
                    {
                        &&& dict_is(d, doc)
                        &&& pushed(Seq::<Problem>::empty(), lowered, dict_issues(doc))
                        &&& reports(lowered, checked, spec_findings(d))
                        &&& reports(checked, documented, document_findings(doc))
                        &&& set.items@ == sorted_by_position(
                            documented,
                            documented.map_values(|p: Problem| problem_key(p)),
                        )
                    }
            } else {
                r is None
            },
        },
{
    match read_yaml(content, filename) {
        Err(message) => Some(ProblemSet::from_preflight(ProblemKind::Parse, message)),
        Ok(doc) => {
            if !is_lowerable(&doc) {
                return None;
            }
            let mut set = ProblemSet::new(source_for(content, filename));
            assert(set.items@ =~= Seq::<Problem>::empty());
            validate_and_lower(&doc, &mut set);
            Some(set)
        },
    }
}

} // verus!
