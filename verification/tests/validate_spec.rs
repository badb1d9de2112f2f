use data_dict::join_expr::JoinExpr;
use data_dict::model::{Alias, Scalar, Cardinality, Column, Constraint, DataDict, Relationship, Representation, Spanned, Table};
use data_dict::problem::{ProblemSet, Severity};
use data_dict::validate_spec::{
    is_valid_type, time_zone_well_formed, validate_s02_relationship_table_refs,
    validate_s03_relationship_column_refs, validate_s04_join_table_count, validate_s06_cardinality_consistency,
    validate_s01_foreign_key, validate_s05_conflicts_present_on_both_sides, validate_s25_unaliased_self_join, join_with_commas,
    fmt_backtick_list, validate_s10_unique_name, validate_s10_unique_table_name, validate_s11_column_name,
    validate_s11_table_name, validate_s16_single_table_description, validate_s31_todos, validate_enum_values, validate_s26_alias_shadows_table,
    validate_s27_unused_alias, validate_s07_representation, validate_s08_units,
    validate_s14_time_zone, validate_s15_time_zone_format, validate_s28_type, validate_s29_key_constraints,
    check_spec,
};
use quarto_source_map::{SourceContext, SourceInfo};

fn span() -> SourceInfo {
    SourceInfo::for_test()
}

fn spanned<T>(value: T) -> Spanned<T> {
    Spanned { value, span: span() }
}

fn rep() -> Representation {
    Representation { span: span(), key_span: span(), items: Vec::new(), labels: Vec::new() }
}

fn table() -> Table {
    Table {
        span: span(),
        name: spanned("t".to_string()),
        columns: Vec::new(),
        constraints: Vec::new(),
        definitions: Vec::new(),
        source: None,
        label: None,
        description: None,
        details: None,
        origin: None,
        todo: None,
    }
}

fn column(ty: Option<&str>) -> Column {
    Column {
        name: spanned("c".to_string()),
        label: None,
        description: None,
        details: None,
        display: None,
        constraints: Vec::new(),
        assertions: Vec::new(),
        col_type: ty.map(|t| spanned(t.to_string())),
        values: None,
        range: None,
        examples: None,
        units: None,
        time_zone: None,
        fields: None,
        todo: None,
    }
}

fn found(set: &ProblemSet) -> Vec<(String, String, String)> {
    set.items
        .iter()
        .map(|p| {
            assert_eq!(p.severity, Severity::Error);
            (
                p.code.unwrap_or("").to_string(),
                p.expected.clone().unwrap_or_default(),
                p.message.clone(),
            )
        })
        .collect()
}

fn set() -> ProblemSet {
    ProblemSet::new(SourceContext::new())
}

#[test]
fn known_types_and_lists_of_them_are_valid() {
    for t in ["string", "number(quantity)", "enum", "struct", "list(date)", "list(list(boolean))"] {
        assert!(is_valid_type(t), "{t}");
    }
    for t in ["text", "list(text)", "list(", "List(date)"] {
        assert!(!is_valid_type(t), "{t}");
    }
}

#[test]
fn s28_names_the_unknown_type() {
    let mut out = set();
    assert!(!validate_s28_type(&table(), &column(Some("text")), &mut out));
    assert!(!validate_s28_type(&table(), &column(Some("list(list(text))")), &mut out));
    assert!(validate_s28_type(&table(), &column(Some("list(date)")), &mut out));
    assert!(validate_s28_type(&table(), &column(None), &mut out));
    assert_eq!(
        found(&out),
        [
            ("S28".into(), "A column's `type` must be a known type.".into(), "`text` is not a recognised type".into()),
            (
                "S28".into(),
                "A column's `type` must be a known type.".into(),
                "`text` is not a recognised list element type".into()
            ),
        ]
    );
}

#[test]
fn s07_asks_each_type_for_its_representation() {
    let mut out = set();
    // A struct needs fields and takes no representation keys.
    let mut c = column(Some("struct"));
    c.values = Some(rep());
    assert!(!validate_s07_representation(&table(), &c, &mut out));
    // An enum needs values; a range is refused.
    let mut c = column(Some("enum"));
    c.range = Some(rep());
    assert!(!validate_s07_representation(&table(), &c, &mut out));
    // A date needs a range.
    assert!(!validate_s07_representation(&table(), &column(Some("date")), &mut out));
    // An ordinal number with its range is fine.
    let mut c = column(Some("number(ordinal)"));
    c.range = Some(rep());
    assert!(validate_s07_representation(&table(), &c, &mut out));
    // A boolean takes nothing.
    let mut c = column(Some("boolean"));
    c.examples = Some(rep());
    assert!(!validate_s07_representation(&table(), &c, &mut out));
    // A string needs examples and may not have a range; a number may.
    let mut c = column(Some("string"));
    c.range = Some(rep());
    assert!(!validate_s07_representation(&table(), &c, &mut out));
    let mut c = column(Some("number"));
    c.examples = Some(rep());
    c.range = Some(rep());
    assert!(validate_s07_representation(&table(), &c, &mut out));
    // `fields` only on a struct; the rules of a list follow its element.
    let mut c = column(Some("list(string)"));
    c.examples = Some(rep());
    c.fields = Some(vec![column(Some("string"))]);
    assert!(!validate_s07_representation(&table(), &c, &mut out));
    assert!(validate_s07_representation(&table(), &column(None), &mut out));
    assert_eq!(
        found(&out),
        [
            (
                "S07".into(),
                "A `struct` column must document its fields with `fields`.".into(),
                "has type `struct` but is missing `fields`".into()
            ),
            ("S07".into(), "A `struct` column must not use `values`.".into(), "has type `struct` but uses `values`".into()),
            (
                "S07".into(),
                "An `enum` column must list its categories with `values`.".into(),
                "has type `enum` but is missing `values`".into()
            ),
            (
                "S07".into(),
                "An `enum` column must use `values`, not `range`.".into(),
                "has type `enum` but uses `range`".into()
            ),
            (
                "S07".into(),
                "A `date` column must describe its bounds with `range`.".into(),
                "has type `date` but is missing `range`".into()
            ),
            (
                "S07".into(),
                "A `boolean` column must not have `values`, `range`, or `examples`.".into(),
                "has type `boolean` but uses `examples`".into()
            ),
            (
                "S07".into(),
                "A `string` column must describe its data with `examples`.".into(),
                "has type `string` but is missing `examples`".into()
            ),
            ("S07".into(), "A `string` column must not use `range`.".into(), "has type `string` but uses `range`".into()),
            (
                "S07".into(),
                "A `list(string)` column must not use `fields`.".into(),
                "has type `list(string)` but uses `fields`".into()
            ),
        ]
    );
}

#[test]
fn s08_and_s14_tie_keys_to_their_types() {
    let mut out = set();
    let mut c = column(Some("string"));
    c.units = Some(spanned("kg".to_string()));
    validate_s08_units(&table(), &c, &mut out);
    let mut c = column(Some("list(number(quantity))"));
    c.units = Some(spanned("kg".to_string()));
    validate_s08_units(&table(), &c, &mut out);
    let mut c = column(None);
    c.time_zone = Some(spanned("UTC".to_string()));
    validate_s14_time_zone(&table(), &c, &mut out);
    let mut c = column(Some("datetime"));
    c.time_zone = Some(spanned("UTC".to_string()));
    validate_s14_time_zone(&table(), &c, &mut out);
    assert_eq!(
        found(&out),
        [
            (
                "S08".into(),
                "A column with `units` must have type `number(quantity)`.".into(),
                "has `units` but has type `string`".into()
            ),
            (
                "S14".into(),
                "A column with `time_zone` must have type `datetime`.".into(),
                "has `time_zone` but has no type".into()
            ),
        ]
    );
}

#[test]
fn s15_accepts_only_the_documented_time_zone_shapes() {
    for tz in ["naive", "UTC", "Pacific/Auckland", "America/Argentina/Buenos_Aires", "Etc/GMT+12"] {
        assert!(time_zone_well_formed(tz), "{tz}");
    }
    for tz in ["utc", "Mars/Olympus", "Europe/", "Europe", "Europe/Lon don", ""] {
        assert!(!time_zone_well_formed(tz), "{tz}");
    }
    let mut out = set();
    let mut c = column(Some("datetime"));
    c.time_zone = Some(spanned("Mars/Olympus".to_string()));
    validate_s15_time_zone_format(&table(), &c, &mut out);
    assert_eq!(
        found(&out),
        [(
            "S15".into(),
            "A `time_zone` must be `naive`, `UTC`, or an IANA `Area/Location` name.".into(),
            "is not a valid time zone".into()
        )]
    );
}

#[test]
fn s29_refuses_keys_on_lists_and_structs() {
    let mut out = set();
    let mut c = column(Some("list(string)"));
    c.constraints = vec![spanned(Constraint::Required), spanned(Constraint::PrimaryKey), spanned(Constraint::Unique)];
    validate_s29_key_constraints(&table(), &c, &mut out);
    let mut c = column(Some("string"));
    c.constraints = vec![spanned(Constraint::PrimaryKey)];
    validate_s29_key_constraints(&table(), &c, &mut out);
    assert_eq!(
        found(&out),
        [
            (
                "S29".into(),
                "`primary_key` is not valid on `list(string)` columns.".into(),
                "has `primary_key`".into()
            ),
            ("S29".into(), "`unique` is not valid on `list(string)` columns.".into(), "has `unique`".into()),
        ]
    );
}

fn named_table(name: &str, columns: &[&str]) -> Table {
    let mut t = table();
    t.name = spanned(name.to_string());
    t.columns = columns
        .iter()
        .map(|c| {
            let mut col = column(Some("string"));
            col.name = spanned(c.to_string());
            col
        })
        .collect();
    t
}

fn relationship(join: &str, aliases: &[(&str, &str)]) -> Relationship {
    Relationship {
        description: None,
        cardinality: spanned(Cardinality::OneToMany),
        join_text: spanned(join.to_string()),
        join: JoinExpr::parse(join).ok(),
        conflicts: Vec::new(),
        aliases: aliases
            .iter()
            .map(|(n, t)| Alias { name: spanned(n.to_string()), table: spanned(t.to_string()) })
            .collect(),
        todo: None,
    }
}

fn dict(tables: Vec<Table>, relationships: Vec<Relationship>) -> DataDict {
    DataDict {
        name: None,
        label: None,
        description: None,
        details: None,
        origin: None,
        learn_more: None,
        version: None,
        tables,
        relationships,
        glossary: Vec::new(),
        todo: None,
        language: None,
    }
}

fn all_found(set: &ProblemSet) -> Vec<(String, Severity, String)> {
    set.items
        .iter()
        .map(|p| (p.code.unwrap_or("").to_string(), p.severity, p.message.clone()))
        .collect()
}

#[test]
fn relationship_references_are_checked() {
    let d = dict(
        vec![named_table("people", &["id", "parent_id"]), named_table("pets", &["owner"])],
        vec![
            relationship("people.id = pets.owner", &[]),
            relationship("people.id = ghosts.owner AND people.nope = pets.owner", &[("kid", "kids")]),
            relationship("parent.id = child.parent_id", &[("parent", "people"), ("child", "people"), ("pets", "people")]),
            relationship("a.x = b.y AND c.z = a.x", &[]),
        ],
    );
    let mut out = set();
    validate_s02_relationship_table_refs(&d, &mut out);
    validate_s03_relationship_column_refs(&d, &mut out);
    validate_s04_join_table_count(&d, &mut out);
    validate_s26_alias_shadows_table(&d, &mut out);
    validate_s27_unused_alias(&d, &mut out);
    assert_eq!(
        all_found(&out),
        [
            ("S02".into(), Severity::Error, "table `kids` is not defined".into()),
            ("S02".into(), Severity::Error, "`ghosts` is neither a table nor an alias".into()),
            ("S02".into(), Severity::Error, "`a` is neither a table nor an alias".into()),
            ("S02".into(), Severity::Error, "`b` is neither a table nor an alias".into()),
            ("S02".into(), Severity::Error, "`c` is neither a table nor an alias".into()),
            ("S02".into(), Severity::Error, "`a` is neither a table nor an alias".into()),
            ("S03".into(), Severity::Error, "table `people` has no column `nope`".into()),
            ("S04".into(), Severity::Error, "this `join` references 3 tables".into()),
            ("S04".into(), Severity::Error, "this `join` references 3 tables".into()),
            ("S26".into(), Severity::Error, "`pets` is already a table in this dictionary".into()),
            ("S27".into(), Severity::Warning, "alias `kid` is never used".into()),
            ("S27".into(), Severity::Warning, "alias `pets` is never used".into()),
        ]
    );
}

fn keyed(mut t: Table, column: &str, c: Constraint) -> Table {
    for col in t.columns.iter_mut() {
        if col.name.value == column {
            col.constraints.push(spanned(c));
        }
    }
    t
}

fn with_cardinality(mut rel: Relationship, c: Cardinality) -> Relationship {
    rel.cardinality = spanned(c);
    rel
}

#[test]
fn s06_asks_each_one_side_to_pin_down_a_row() {
    let parent = || named_table("parent", &["id", "code"]);
    let child = || named_table("child", &["id", "parent_id"]);
    let d = dict(
        vec![parent(), child()],
        vec![
            relationship("parent.id = child.parent_id", &[]),
            with_cardinality(relationship("parent.id = child.parent_id", &[]), Cardinality::OneToOne),
            with_cardinality(relationship("child.parent_id = parent.id", &[]), Cardinality::ManyToOne),
            relationship("parent.nope = child.parent_id", &[]),
        ],
    );
    let mut out = set();
    validate_s06_cardinality_consistency(&d, &mut out);
    assert_eq!(
        all_found(&out),
        [
            ("S06".into(), Severity::Error, "the left-side join columns on `parent` do not uniquely identify a row".into()),
            ("S06".into(), Severity::Error, "the join columns on `parent` and `child` do not uniquely identify a row".into()),
            ("S06".into(), Severity::Error, "the right-side join columns on `parent` do not uniquely identify a row".into()),
        ]
    );

    let d = dict(
        vec![keyed(parent(), "id", Constraint::PrimaryKey), keyed(child(), "parent_id", Constraint::Unique)],
        vec![
            relationship("parent.id = child.parent_id", &[]),
            with_cardinality(relationship("parent.id = child.parent_id", &[]), Cardinality::OneToOne),
            with_cardinality(relationship("child.parent_id = parent.id", &[]), Cardinality::ManyToOne),
        ],
    );
    let mut out = set();
    validate_s06_cardinality_consistency(&d, &mut out);
    assert!(out.items.is_empty());

    // A composite primary key counts only when the join covers all of it.
    let composite = keyed(keyed(parent(), "id", Constraint::PrimaryKey), "code", Constraint::PrimaryKey);
    let d = dict(
        vec![composite, child()],
        vec![
            relationship("parent.id = child.parent_id", &[]),
            relationship("parent.id = child.parent_id AND parent.code = child.id", &[]),
        ],
    );
    let mut out = set();
    validate_s06_cardinality_consistency(&d, &mut out);
    assert_eq!(
        all_found(&out),
        [("S06".into(), Severity::Error, "the left-side join columns on `parent` do not uniquely identify a row".into())]
    );
}

fn with_conflicts(mut rel: Relationship, conflicts: &[&str]) -> Relationship {
    rel.conflicts = conflicts.iter().map(|c| spanned(c.to_string())).collect();
    rel
}

#[test]
fn join_with_commas_reads_as_an_english_list() {
    assert_eq!(join_with_commas(&[]), "");
    assert_eq!(join_with_commas(&["a"]), "`a`");
    assert_eq!(join_with_commas(&["a", "b"]), "`a` and `b`");
    assert_eq!(join_with_commas(&["a", "b", "c"]), "`a`, `b` and `c`");
}

#[test]
fn s05_names_the_tables_a_conflict_column_is_missing_from() {
    let d = dict(
        vec![named_table("people", &["id", "name"]), named_table("pets", &["owner", "name", "age"])],
        vec![
            with_conflicts(relationship("people.id = pets.owner", &[]), &["name", "age", "colour"]),
            with_conflicts(relationship("a.id = b.id", &[("a", "people"), ("b", "people")]), &["age"]),
            with_conflicts(relationship("people.id = ghosts.owner", &[]), &["age"]),
        ],
    );
    let mut out = set();
    validate_s05_conflicts_present_on_both_sides(&d, &mut out);
    assert_eq!(
        all_found(&out),
        [
            ("S05".into(), Severity::Error, "`age` is not a column of `people`".into()),
            ("S05".into(), Severity::Error, "`colour` is not a column of `people` and `pets`".into()),
            ("S05".into(), Severity::Error, "`age` is not a column of `people`".into()),
            ("S05".into(), Severity::Error, "`age` is not a column of `people`".into()),
        ]
    );
}

#[test]
fn s25_asks_a_self_join_for_two_aliases() {
    let d = dict(
        vec![named_table("people", &["id", "parent_id"])],
        vec![
            relationship("people.id = people.parent_id", &[]),
            relationship("parent.id = people.parent_id", &[("parent", "people")]),
            relationship("parent.id = child.parent_id", &[("parent", "people"), ("child", "people")]),
        ],
    );
    let mut out = set();
    validate_s25_unaliased_self_join(&d, &mut out);
    assert_eq!(
        all_found(&out),
        [
            ("S25".into(), Severity::Error, "`people` is on both sides of the join".into()),
            ("S25".into(), Severity::Error, "`parent` and `people` both refer to table `people`".into()),
        ]
    );
}

#[test]
fn s01_asks_a_foreign_key_for_a_relationship_to_a_primary_key() {
    let people = || keyed(named_table("people", &["id"]), "id", Constraint::PrimaryKey);
    let pets = || keyed(named_table("pets", &["owner", "vet"]), "owner", Constraint::ForeignKey);
    let d = dict(vec![people(), pets()], vec![relationship("people.id = pets.owner", &[])]);
    let mut out = set();
    validate_s01_foreign_key(&d, &d.tables[1], &d.tables[1].columns[0], &mut out);
    assert!(out.items.is_empty());
    assert!(d.resolve_foreign_key(&d.tables[1], &d.tables[1].columns[0]).is_some());

    // The other side is not a primary key.
    let d = dict(vec![named_table("people", &["id"]), pets()], vec![relationship("pets.owner = people.id", &[])]);
    let mut out = set();
    validate_s01_foreign_key(&d, &d.tables[1], &d.tables[1].columns[0], &mut out);
    assert_eq!(
        all_found(&out),
        [(
            "S01".into(),
            Severity::Error,
            "is `foreign_key` but no relationship points it at a `primary_key`".into()
        )]
    );

    // No relationship names the column; a column without the constraint is not asked.
    let d = dict(vec![people(), pets()], vec![relationship("people.id = pets.vet", &[])]);
    let mut out = set();
    validate_s01_foreign_key(&d, &d.tables[1], &d.tables[1].columns[0], &mut out);
    validate_s01_foreign_key(&d, &d.tables[1], &d.tables[1].columns[1], &mut out);
    assert_eq!(out.items.len(), 1);
}

#[test]
fn fmt_backtick_list_uses_a_serial_comma() {
    assert_eq!(fmt_backtick_list(&[]), "");
    assert_eq!(fmt_backtick_list(&["label"]), "`label`");
    assert_eq!(fmt_backtick_list(&["label", "details"]), "`label` and `details`");
    assert_eq!(fmt_backtick_list(&["label", "description", "details"]), "`label`, `description`, and `details`");
}

#[test]
fn s11_and_s10_ask_for_present_unique_names() {
    let t = named_table("people", &["id", "", "id", "name", "name"]);
    let mut out = set();
    let mut seen = Vec::new();
    for col in &t.columns {
        if validate_s11_column_name(&t, col, &mut out) {
            validate_s10_unique_name(&t, col, &mut seen, &mut out);
        }
    }
    assert_eq!(seen.iter().map(|s| s.value.as_str()).collect::<Vec<_>>(), ["id", "name"]);
    assert_eq!(
        found(&out),
        [
            ("S11".into(), "Every column must have a non-empty `name`.".into(), "the `name` is empty".into()),
            ("S10".into(), "Column names must be unique within a table.".into(), "is duplicated".into()),
            ("S10".into(), "Column names must be unique within a table.".into(), "is duplicated".into()),
        ]
    );

    let tables = [named_table("a", &[]), named_table("", &[]), named_table("a", &[])];
    let mut out = set();
    let mut seen = Vec::new();
    for t in &tables {
        if validate_s11_table_name(t, &mut out) {
            validate_s10_unique_table_name(t, &mut seen, &mut out);
        }
    }
    assert_eq!(
        found(&out),
        [
            ("S11".into(), "A table must have a non-empty name.".into(), "table name is empty".into()),
            ("S10".into(), "Table names must be unique within the dictionary.".into(), "is duplicated".into()),
        ]
    );
}

#[test]
fn s16_moves_a_single_table_description_to_the_top() {
    let mut t = named_table("people", &["id"]);
    t.label = Some(spanned("People".to_string()));
    t.details = Some(spanned("More".to_string()));
    let d = dict(vec![t], Vec::new());
    let mut out = set();
    validate_s16_single_table_description(&d, &mut out);
    assert_eq!(
        all_found(&out),
        [("S16".into(), Severity::Warning, "table `people` has `label` and `details`".into())]
    );
    assert_eq!(
        out.items[0].expected.as_deref(),
        Some("A single-table dictionary's `label` and `details` belong at the top level.")
    );

    let mut t = named_table("people", &["id"]);
    t.description = Some(spanned("Everyone".to_string()));
    let d = dict(vec![t, named_table("pets", &[])], Vec::new());
    let mut out = set();
    validate_s16_single_table_description(&d, &mut out);
    assert!(out.items.is_empty());
}

#[test]
fn s31_reports_every_todo_in_document_order() {
    let mut t = named_table("people", &["id", "address"]);
    t.todo = Some(spanned("table".to_string()));
    let mut street = column(Some("string"));
    street.name = spanned("street".to_string());
    street.todo = Some(spanned("field".to_string()));
    t.columns[1].fields = Some(vec![street]);
    t.columns[0].todo = Some(spanned("column".to_string()));
    let mut rel = relationship("people.id = people.id", &[]);
    rel.todo = Some(spanned("relationship".to_string()));
    let mut d = dict(vec![t], vec![rel]);
    d.todo = Some(spanned("dataset".to_string()));
    let mut out = set();
    validate_s31_todos(&d, &mut out);
    assert_eq!(out.items.len(), 5);
    assert!(out
        .items
        .iter()
        .all(|p| p.code == Some("S31") && p.severity == Severity::Warning && p.message == "unresolved todo"));
}

#[test]
fn s24_asks_an_enum_for_string_values() {
    let t = table();
    let mut col = column(Some("list(enum)"));
    let mut values = rep();
    values.items = vec![
        spanned(Scalar::String("a".to_string())),
        spanned(Scalar::Int(1)),
        spanned(Scalar::Bool(true)),
        spanned(Scalar::Float("1.5".to_string())),
        spanned(Scalar::Null),
    ];
    col.values = Some(values);
    let mut out = set();
    validate_enum_values(&t, &col, &mut out);
    let rule = "An `enum`'s values must be strings.";
    assert_eq!(
        found(&out),
        [
            ("S24".into(), rule.into(), "is a number".into()),
            ("S24".into(), rule.into(), "is a boolean".into()),
            ("S24".into(), rule.into(), "is a number".into()),
            ("S24".into(), rule.into(), "is null".into()),
        ]
    );

    let mut col = column(Some("enum"));
    col.values = Some(rep());
    let mut out = set();
    validate_enum_values(&t, &col, &mut out);
    assert_eq!(
        found(&out),
        [("S24".into(), "An `enum` column must list at least one value.".into(), "is empty".into())]
    );

    // A missing `values`, or a column that is no enum, is not S24's.
    let mut out = set();
    validate_enum_values(&t, &column(Some("enum")), &mut out);
    let mut string_col = column(Some("string"));
    string_col.values = Some(rep());
    validate_enum_values(&t, &string_col, &mut out);
    assert!(out.items.is_empty());
}

fn documented(name: &str, ty: &str) -> Column {
    let mut c = column(Some(ty));
    c.name = spanned(name.to_string());
    if ty == "string" {
        c.examples = Some(rep());
    }
    c
}

#[test]
fn check_spec_runs_every_check_in_order_with_its_gates() {
    let mut people = named_table("people", &[]);
    let mut home = documented("home", "struct");
    home.fields = Some(vec![documented("f", "string"), documented("f", "string")]);
    people.columns = vec![
        documented("id", "string"),
        documented("", "string"),
        documented("id", "string"),
        documented("age", "bogus"),
        documented("when", "date"),
        home,
    ];
    let d = dict(vec![people, named_table("people", &[]), named_table("", &[])], Vec::new());
    let mut out = set();
    check_spec(&d, &mut out);
    let codes: Vec<String> = out.items.iter().map(|p| p.code.unwrap_or("").to_string()).collect();
    assert_eq!(codes, ["S11", "S10", "S28", "S07", "S10", "S10", "S11"]);
    assert_eq!(out.items[0].expected.as_deref(), Some("Every column must have a non-empty `name`."));
    assert_eq!(out.items[1].expected.as_deref(), Some("Column names must be unique within a table."));
    assert_eq!(out.items[3].message, "has type `date` but is missing `range`");
    assert_eq!(out.items[4].expected.as_deref(), Some("Column names must be unique within a table."));
    assert_eq!(out.items[5].expected.as_deref(), Some("Table names must be unique within the dictionary."));
    assert_eq!(out.items[6].expected.as_deref(), Some("A table must have a non-empty name."));
}

#[test]
fn check_spec_on_a_clean_dictionary_reports_nothing() {
    let d = dict(vec![named_table("people", &[])], Vec::new());
    let mut out = set();
    check_spec(&d, &mut out);
    assert!(out.items.is_empty());
}
