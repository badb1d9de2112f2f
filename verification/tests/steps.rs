use data_dict::model::{Assertion, Column, Constraint, Representation, Spanned, Table};
use data_dict::report::steps::{
    column_order, in_dictionary_order, table_assertions, Failed, StepKey, StepTarget, Steps,
};
use data_dict::report::StepOutcome;
use data_dict::Level;
use quarto_source_map::SourceInfo;

fn spanned<T>(value: T) -> Spanned<T> {
    Spanned { value, span: SourceInfo::for_test() }
}

fn column(name: &str, ty: &str, constraints: &[Constraint]) -> Column {
    Column {
        name: spanned(name.to_string()),
        label: None,
        description: None,
        details: None,
        display: None,
        constraints: constraints.iter().map(|c| spanned(*c)).collect(),
        assertions: Vec::new(),
        col_type: Some(spanned(ty.to_string())),
        values: None,
        range: None,
        examples: None,
        units: None,
        time_zone: None,
        fields: None,
        todo: None,
    }
}

fn assertion(text: &str, description: Option<&str>) -> Assertion {
    Assertion {
        text: spanned(text.to_string()),
        language: None,
        expr: None,
        description: description.map(|d| spanned(d.to_string())),
        notes: Vec::new(),
    }
}

fn people() -> Table {
    let mut kind = column("kind", "enum", &[Constraint::ForeignKey]);
    kind.values = Some(Representation {
        span: SourceInfo::for_test(),
        key_span: SourceInfo::for_test(),
        items: Vec::new(),
        labels: Vec::new(),
    });
    let mut address = column("address", "struct", &[]);
    address.fields = Some(vec![column("street", "string", &[]), column("zip", "string", &[])]);
    let mut name = column("name", "string", &[Constraint::Unique, Constraint::Required]);
    name.assertions.push(assertion("LENGTH(name) > 0", None));
    Table {
        span: SourceInfo::for_test(),
        name: spanned("t".to_string()),
        columns: vec![column("id", "number", &[Constraint::PrimaryKey]), name, kind, address],
        constraints: vec![assertion("id > 0", Some("ids are positive"))],
        definitions: Vec::new(),
        source: None,
        label: None,
        description: None,
        details: None,
        origin: None,
        todo: None,
    }
}

fn assertions() -> Vec<(String, Vec<String>)> {
    vec![
        ("id > 0".to_string(), vec!["id".to_string()]),
        ("LENGTH(name) > 0".to_string(), vec!["name".to_string()]),
    ]
}

fn codes(steps: &Steps) -> Vec<(usize, &'static str, Vec<String>)> {
    steps.items().iter().map(|s| (s.id, s.code, s.columns.clone())).collect()
}

fn cols(names: &[&str]) -> Vec<String> {
    names.iter().map(|n| n.to_string()).collect()
}

#[test]
fn columns_are_ordered_depth_first() {
    let t = people();
    assert_eq!(column_order(&t), cols(&["id", "name", "kind", "address", "address.street", "address.zip"]));
    let mut named = cols(&["address.zip", "nope", "name", "id", "name"]);
    in_dictionary_order(&t, &mut named);
    assert_eq!(named, cols(&["id", "name", "name", "address.zip", "nope"]));
    let pairs = table_assertions(&t);
    assert_eq!(pairs.len(), 2);
    assert_eq!(pairs[0].0.text.value, "id > 0");
    assert!(pairs[0].1.is_none());
    assert_eq!(pairs[1].1.map(|c| c.name.value.as_str()), Some("name"));
}

#[test]
fn a_data_run_registers_every_step_in_dictionary_order() {
    let t = people();
    let mut steps = Steps::new();
    steps.register(&t, Level::Data, &assertions());
    assert_eq!(
        codes(&steps),
        [
            (1, "M04", cols(&[])),
            (2, "M01", cols(&["id"])),
            (3, "D01", cols(&["id"])),
            (4, "D02", cols(&["id"])),
            (5, "D07", cols(&["id"])),
            (6, "M01", cols(&["name"])),
            (7, "D01", cols(&["name"])),
            (8, "D02", cols(&["name"])),
            (9, "D07", cols(&["name"])),
            (10, "M01", cols(&["kind"])),
            (11, "D04", cols(&["kind"])),
            (12, "D05", cols(&["kind"])),
            (13, "M01", cols(&["address"])),
            (14, "M01", cols(&["address.street"])),
            (15, "M01", cols(&["address.zip"])),
        ]
    );
    assert!(steps.items().iter().all(|s| s.outcome == StepOutcome::Unevaluated && s.row_count.is_none()));
    assert_eq!(steps.items()[4].assertion.as_deref(), Some("id > 0"));
    assert_eq!(steps.items()[4].description.as_deref(), Some("ids are positive"));
    assert_eq!(steps.items()[8].description, None);

    // Registering again adds nothing: every key is taken.
    steps.register(&t, Level::Data, &assertions());
    assert_eq!(steps.items().len(), 15);
}

#[test]
fn a_metadata_run_registers_only_the_metadata_steps() {
    let t = people();
    let mut steps = Steps::new();
    steps.register(&t, Level::Meta, &assertions());
    let got: Vec<&str> = steps.items().iter().map(|s| s.code).collect();
    assert_eq!(got, ["M04", "M01", "M01", "M01", "M01", "M01", "M01"]);
}

#[test]
fn verdicts_are_weighed_against_the_row_count() {
    let t = people();
    let mut steps = Steps::new();
    steps.register(&t, Level::Data, &assertions());
    let table = StepKey::new("t", StepTarget::Table);
    let id = StepKey::new("t", StepTarget::Column(cols(&["id"])));
    let name = StepKey::new("t", StepTarget::Required("name".to_string()));
    let unknown = StepKey::new("t", StepTarget::Unique("nope".to_string()));
    assert_eq!(steps.id(&name), Some(7));
    assert_eq!(steps.id(&unknown), None);
    steps.pass(&id);
    steps.fail(&name, Failed::Rows(3));
    steps.fail(&table, Failed::AllRows);
    steps.fail(&unknown, Failed::Rows(1));
    steps.set_row_count("t", 5);
    steps.set_row_count("t", 10);
    steps.finish();
    let items = steps.items();
    assert_eq!((items[0].outcome, items[0].row_count, items[0].failed_row_count), (StepOutcome::Fail, Some(10), Some(10)));
    assert_eq!((items[1].outcome, items[1].row_count, items[1].failed_row_count), (StepOutcome::Pass, Some(10), Some(0)));
    assert_eq!((items[6].outcome, items[6].row_count, items[6].failed_row_count), (StepOutcome::Fail, Some(10), Some(3)));
    assert_eq!((items[2].outcome, items[2].row_count, items[2].failed_row_count), (StepOutcome::Unevaluated, None, None));

    // A table whose rows could never be counted keeps its failure uncounted.
    let mut steps = Steps::new();
    steps.register(&t, Level::Data, &assertions());
    steps.fail(&table, Failed::Uncounted);
    steps.set_row_count("t", 10);
    steps.finish();
    assert_eq!(steps.items()[0].row_count, None);
}
