use data_dict::meta::{normalize_dict_type, types_compatible};

#[test]
fn meta_number_measures_normalize() {
    assert_eq!(normalize_dict_type("number(quantity)"), "number");
    assert_eq!(normalize_dict_type("number(id)"), "number");
    assert_eq!(normalize_dict_type("number"), "number");
    assert_eq!(normalize_dict_type("string"), "string");
}

#[test]
fn meta_compatibility() {
    assert!(types_compatible("number(quantity)", "number"));
    assert!(types_compatible("string", "string"));
    assert!(types_compatible("enum", "string"));
    assert!(types_compatible("enum", "number"));
    assert!(types_compatible("enum", "enum"));
    assert!(!types_compatible("number", "string"));
    assert!(!types_compatible("date", "datetime"));
    assert!(!types_compatible("boolean", "number"));
}

#[test]
fn a_measure_is_dropped_only_at_the_first_parenthesis() {
    assert_eq!(normalize_dict_type("list(number(quantity))"), "list");
    assert_eq!(normalize_dict_type(""), "");
    assert_eq!(normalize_dict_type("(x)"), "");
}
