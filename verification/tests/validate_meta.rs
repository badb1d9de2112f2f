use data_dict::validate_meta::{normalize_dict_type, types_compatible};

#[test]
fn validate_meta_number_measures_normalize() {
    assert_eq!(normalize_dict_type("number(quantity)"), "number");
    assert_eq!(normalize_dict_type("number(id)"), "number");
    assert_eq!(normalize_dict_type("number"), "number");
    assert_eq!(normalize_dict_type("string"), "string");
}

#[test]
fn validate_meta_compatibility() {
    assert!(types_compatible("number(quantity)", "number"));
    assert!(types_compatible("string", "string"));
    assert!(types_compatible("enum", "string"));
    assert!(!types_compatible("enum", "number"));
    assert!(types_compatible("enum", "enum"));
    assert!(!types_compatible("number", "string"));
    assert!(!types_compatible("date", "datetime"));
    assert!(!types_compatible("boolean", "number"));
}

#[test]
fn nested_compatibility() {
    assert!(types_compatible("struct", "struct"));
    assert!(!types_compatible("struct", "number"));
    assert!(types_compatible("list(string)", "list(string)"));
    assert!(types_compatible("list(enum)", "list(string)"));
    assert!(types_compatible("list(number(quantity))", "list(number)"));
    assert!(types_compatible("list(struct)", "list(struct)"));
    assert!(!types_compatible("list(string)", "string"));
    assert!(!types_compatible("string", "list(string)"));
    assert!(!types_compatible("list(number)", "list(string)"));
    // A map has no data-dict type, so nothing declared matches it.
    assert!(!types_compatible("struct", "map"));
    assert!(!types_compatible("list(struct)", "map"));
}

#[test]
fn nested_list_compatibility() {
    assert!(types_compatible("list(list(string))", "list(list(string))"));
    assert!(types_compatible("list(list(enum))", "list(list(string))"));
    assert!(types_compatible("list(list(number(quantity)))", "list(list(number))"));
    assert!(types_compatible("list(list(struct))", "list(list(struct))"));
    // Depths must agree.
    assert!(!types_compatible("list(string)", "list(list(string))"));
    assert!(!types_compatible("list(list(string))", "list(string)"));
}

#[test]
fn normalizing_twice_changes_nothing() {
    for t in ["number(quantity)", "list(number(id))", "string", "", "enum"] {
        let once = normalize_dict_type(t);
        assert_eq!(normalize_dict_type(once), once);
    }
}

#[test]
fn compatible_types_have_the_same_list_depth() {
    assert!(!types_compatible("list(list(enum))", "list(string)"));
    assert!(types_compatible("list(enum)", "list(string)"));
}
