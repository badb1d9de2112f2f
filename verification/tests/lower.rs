use data_dict::lower::{is_lowerable, lower};
use data_dict::model::{Cardinality, Constraint, Scalar, Version};
use data_dict::problem::{ProblemSet, Severity};
use data_dict::problem::ProblemKind;
use data_dict::validate_spec::{validate_and_lower, validate_spec_str};
use data_dict::yaml::read_yaml;
use quarto_source_map::SourceContext;

fn set() -> ProblemSet {
    ProblemSet::new(SourceContext::new())
}

const DOC: &str = "name: food
version:
  number: 1
glossary:
  kcal: kilocalories
tables:
  - name: food
    description: What was eaten.
    source:
      parquet: food.parquet
    columns:
      - name: id
        type: string
        examples: [a, b]
        constraints: [primary_key, required]
      - name: kind
        type: enum
        values:
          fruit: Fruit
          veg: Vegetable
      - name: grams
        type: number
        range: [0, 1.5]
        constraints:
          - assert: grams >= 0
      - type: string
      - name: where
        type: struct
        fields:
          - name: lat
            type: number
            range: [-90, 90]
relationships:
  - cardinality: one-to-many
    join: food.id = meal.food_id
    conflicts: [id]
    aliases:
      m: meal
";

#[test]
fn a_document_lowers_to_its_dictionary() {
    let doc = read_yaml(DOC, "dict.yaml").expect("the document is YAML");
    let mut out = set();
    let d = lower(&doc, &mut out);
    assert!(out.items.is_empty());
    assert_eq!(d.name.as_deref(), Some("food"));
    assert!(matches!(d.version, Some(Version::Number(ref n)) if n == "1"));
    assert_eq!(d.glossary.len(), 1);
    assert_eq!((d.glossary[0].term.as_str(), d.glossary[0].definition.as_str()), ("kcal", "kilocalories"));
    assert_eq!(d.tables.len(), 1);
    let t = &d.tables[0];
    assert_eq!(t.name.value, "food");
    assert_eq!(t.description.as_ref().map(|s| s.value.as_str()), Some("What was eaten."));
    assert_eq!(t.source.as_ref().map(|s| s.parquet.value.as_str()), Some("food.parquet"));
    // The column without a name is passed over.
    let names: Vec<&str> = t.columns.iter().map(|c| c.name.value.as_str()).collect();
    assert_eq!(names, ["id", "kind", "grams", "where"]);
    let id = &t.columns[0];
    assert_eq!(id.constraints.iter().map(|c| c.value).collect::<Vec<_>>(), [Constraint::PrimaryKey, Constraint::Required]);
    assert_eq!(id.examples.as_ref().unwrap().items.len(), 2);
    let kind = &t.columns[1];
    let values = kind.values.as_ref().unwrap();
    assert!(matches!(&values.items[0].value, Scalar::String(s) if s == "fruit"));
    assert_eq!(values.labels, ["Fruit", "Vegetable"]);
    let grams = &t.columns[2];
    let range = grams.range.as_ref().unwrap();
    assert!(matches!(range.items[0].value, Scalar::Int(0)));
    assert!(matches!(&range.items[1].value, Scalar::Float(f) if f == "1.5"));
    assert_eq!(grams.assertions.len(), 1);
    assert!(grams.assertions[0].expr.is_some());
    let fields = t.columns[3].fields.as_ref().unwrap();
    assert_eq!(fields[0].name.value, "lat");
    assert_eq!(d.relationships.len(), 1);
    let r = &d.relationships[0];
    assert_eq!(r.cardinality.value, Cardinality::OneToMany);
    assert!(r.join.is_some());
    assert_eq!(r.conflicts[0].value, "id");
    assert_eq!((r.aliases[0].name.value.as_str(), r.aliases[0].table.value.as_str()), ("m", "meal"));
}

#[test]
fn lowering_reports_a_join_and_an_assertion_that_do_not_parse() {
    let text = "tables:
  - name: t
    columns:
      - name: c
        type: number
        range: [0, 1]
        constraints:
          - assert: c >=
relationships:
  - cardinality: one-to-one
    join: t.c = \n";
    let doc = read_yaml(text, "d.yaml").unwrap();
    let mut out = set();
    let d = lower(&doc, &mut out);
    let codes: Vec<&str> = out.items.iter().map(|p| p.code.unwrap()).collect();
    assert_eq!(codes, ["S19", "S04"]);
    assert!(out.items[0].message.starts_with("`assert` expression does not parse: "));
    assert!(out.items[1].message.starts_with("`join` expression does not parse: "));
    assert!(out.items.iter().all(|p| p.severity == Severity::Error));
    assert!(d.tables[0].columns[0].assertions[0].expr.is_none());
    assert!(d.relationships[0].join.is_none());
}

#[test]
fn a_document_is_checked_after_it_is_lowered() {
    let text = "$version: 0.1.0
$learn_more: https://data-dict.tidyverse.org/
tables:
  - name: t
    columns:
      - name: a
        type: bogus
      - name: a
        type: string
        examples: [x]
";
    let doc = read_yaml(text, "d.yaml").unwrap();
    let mut out = set();
    assert!(validate_and_lower(&doc, &mut out).is_none());
    let codes: Vec<&str> = out.items.iter().map(|p| p.code.unwrap()).collect();
    assert_eq!(codes, ["S28", "S10"]);

    let clean = read_yaml("$version: 0.1.0\n$learn_more: x\ntables:\n  - name: t\n    columns:\n      - name: a\n        type: string\n        examples: [x]\n", "d.yaml").unwrap();
    let mut out = set();
    let d = validate_and_lower(&clean, &mut out).expect("a clean document gives its dictionary");
    assert!(out.items.is_empty());
    assert_eq!(d.tables[0].columns[0].name.value, "a");
}

#[test]
fn text_that_is_not_yaml_is_refused() {
    assert!(read_yaml("a: [1, 2", "d.yaml").is_err());
}

#[test]
fn text_is_validated_end_to_end() {
    let set = validate_spec_str("a: [1, 2", "d.yaml").expect("a parse failure is reported");
    assert_eq!(set.items.len(), 1);
    assert!(matches!(set.items[0].kind, ProblemKind::Parse));
    assert_eq!(set.items[0].code, None);

    let text = "$version: 0.1.0\n$learn_more: x\ntables:\n  - name: t\n    columns:\n      - name: a\n        type: date\n";
    let set = validate_spec_str(text, "d.yaml").expect("a data-dict document is validated");
    let codes: Vec<&str> = set.items.iter().map(|p| p.code.unwrap()).collect();
    assert_eq!(codes, ["S07"]);
    assert_eq!(set.items[0].message, "has type `date` but is missing `range`");
}

#[test]
fn what_cannot_be_read_here_is_not_lowered() {
    let r_doc = "language: r\ntables:\n  - name: t\n    constraints:\n      - assert: x > 1\n";
    let doc = read_yaml(r_doc, "d.yaml").unwrap();
    assert!(!is_lowerable(&doc));
    assert!(validate_spec_str(r_doc, "d.yaml").is_none());
    let no_join = "relationships:\n  - cardinality: one-to-one\n";
    assert!(!is_lowerable(&read_yaml(no_join, "d.yaml").unwrap()));
    assert!(is_lowerable(&read_yaml(DOC, "dict.yaml").unwrap()));
}

#[test]
fn the_document_itself_is_checked() {
    let set = validate_spec_str("version:\n  number: one\n  date: 2020-01-01\n", "d.yaml").unwrap();
    let found: Vec<(&str, Severity)> = set.items.iter().map(|p| (p.code.unwrap(), p.severity)).collect();
    assert_eq!(found, [("S09", Severity::Warning), ("S18", Severity::Error), ("S17", Severity::Error)]);
    assert_eq!(set.items[2].message, "`number` has already been supplied");

    let set = validate_spec_str("$version: 9.0.0\n$learn_more: x\nversion:\n  date: soon\n", "d.yaml").unwrap();
    let found: Vec<&str> = set.items.iter().map(|p| p.code.unwrap()).collect();
    assert_eq!(found, ["S32", "S17"]);
    assert_eq!(set.items[0].message, "`$version` is `9.0.0`, but this version of data-dict supports up to `0.1.0`");
    assert_eq!(set.items[1].message, "`soon` is not an ISO 8601 date");
}
