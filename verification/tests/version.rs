use data_dict::validate_spec::{
    check_spec_version, check_version_field, is_version_number, parse_version_core, FIRST_SPEC_VERSION,
    SPEC_VERSION,
};

#[test]
fn version_numbers_have_a_three_part_core_and_optional_suffixes() {
    for good in ["1.2.3", "0.1.0", "01.2.3", "1.2.3-alpha.1", "1.2.3+build.5", "1.2.3-rc-1+exp.sha.5114f85"] {
        assert!(is_version_number(good), "{good}");
    }
    for bad in ["1.2", "1.2.3.4", "1..3", "a.b.c", "1.2.3-", "1.2.3+", "1.2.3-a..b", "1.2.3+b+c", "1.2.3-a_b", "", "1.2.٣"] {
        assert!(!is_version_number(bad), "{bad}");
    }
}

#[test]
fn the_core_is_read_as_numbers() {
    assert_eq!(parse_version_core("1.22.333-beta+7"), Some((1, 22, 333)));
    assert_eq!(parse_version_core(SPEC_VERSION), Some((0, 1, 0)));
    assert_eq!(parse_version_core(FIRST_SPEC_VERSION), Some((0, 1, 0)));
    assert_eq!(parse_version_core("18446744073709551615.0.0"), Some((u64::MAX, 0, 0)));
    assert_eq!(parse_version_core("18446744073709551616.0.0"), None);
    assert_eq!(parse_version_core("1.2"), None);
}

#[test]
fn s32_accepts_the_supported_spec_version_only() {
    assert_eq!(check_spec_version(Some("0.1.0")), None);
    assert_eq!(check_spec_version(Some("0.1.0-draft")), None);
    assert_eq!(
        check_spec_version(Some("0.2.0")),
        Some((
            "This document conforms to a newer version of the data-dict spec than this validator supports.".to_string(),
            "`$version` is `0.2.0`, but this version of data-dict supports up to `0.1.0`".to_string()
        ))
    );
    assert_eq!(
        check_spec_version(Some("0.0.9")),
        Some((
            "Spec version numbering starts at `0.1.0`.".to_string(),
            "`$version` is `0.0.9`, which is not a valid spec version".to_string()
        ))
    );
    let form = "A `$version` must have three dot-separated numeric components, with an optional pre-release/build suffix.";
    assert_eq!(
        check_spec_version(Some("one")),
        Some((form.to_string(), "`one` is not a valid version number".to_string()))
    );
    assert_eq!(check_spec_version(None), Some((form.to_string(), "is not a valid version number".to_string())));
}

#[test]
fn s17_checks_a_version_number_or_date() {
    assert_eq!(check_version_field("number", Some("1.0.0")), None);
    assert_eq!(
        check_version_field("number", Some("1.0")),
        Some((
            "A `version` `number` must have three dot-separated numeric components, with an optional pre-release/build suffix."
                .to_string(),
            "`1.0` is not a valid version number".to_string()
        ))
    );
    assert_eq!(check_version_field("date", Some("2024-02-29")), None);
    assert_eq!(
        check_version_field("date", Some("2023-02-29")),
        Some((
            "A `version` `date` must be an ISO 8601 date (YYYY-MM-DD).".to_string(),
            "`2023-02-29` is not an ISO 8601 date".to_string()
        ))
    );
    assert_eq!(
        check_version_field("date", None),
        Some((
            "A `version` `date` must be an ISO 8601 date (YYYY-MM-DD).".to_string(),
            "is not an ISO 8601 date".to_string()
        ))
    );
    assert_eq!(check_version_field("hash", Some("abc123")), None);
}
