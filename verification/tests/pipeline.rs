use cargo_mcp::errors::Error;
use cargo_mcp::pipeline::{cache_key, classify_parse_failure, scratch_manifest, Metadata};
use cargo_mcp::strutil::{
    join_strings, sort_dedup_strings, str_eq, str_lt, strip_package_prefix, u64_to_dec,
};

#[test]
fn test_cache_key() {
    assert_eq!(cache_key("serde", Some("1.0")), "serde:1.0");
    assert_eq!(cache_key("serde", None), "serde:*");
}

#[test]
fn test_scratch_manifest() {
    let manifest = scratch_manifest("serde", "1.0");
    assert_eq!(
        manifest,
        "[package]\nname = \"temp-workspace\"\nversion = \"0.1.0\"\nedition = \"2024\"\n\n[dependencies]\nserde = \"1.0\"\n"
    );
}

#[test]
fn test_classify_parse_failure() {
    // A differing declared version is the distinct mismatch error, and
    // the report names both the expected and the found version.
    let r = classify_parse_failure(Some(53), 54);
    match &r {
        Some(Error::ParseError(msg)) => {
            assert_eq!(
                msg,
                "interface document format version mismatch: expected 54, found 53"
            );
        }
        other => panic!("expected a parse error, got {other:?}"),
    }

    // A matching version, or no readable version, keeps the original error.
    assert!(classify_parse_failure(Some(54), 54).is_none());
    assert!(classify_parse_failure(None, 54).is_none());
}

#[test]
fn test_u64_to_dec() {
    assert_eq!(u64_to_dec(0), "0");
    assert_eq!(u64_to_dec(9), "9");
    assert_eq!(u64_to_dec(54), "54");
    assert_eq!(u64_to_dec(1234567890), "1234567890");
    assert_eq!(u64_to_dec(u64::MAX), "18446744073709551615");
}

#[test]
fn test_metadata_provider() {
    let _ = Metadata::new();
    let _ = Metadata::default();
}

#[test]
fn test_join_strings() {
    let parts = vec!["a".to_string(), "b".to_string(), "c".to_string()];
    assert_eq!(join_strings(&parts, "::"), "a::b::c");
    assert_eq!(join_strings(&vec!["solo".to_string()], "::"), "solo");
    assert_eq!(join_strings(&Vec::new(), "::"), "");
}

#[test]
fn test_strip_package_prefix() {
    assert_eq!(strip_package_prefix("test_crate::TestStruct", "test_crate"), "TestStruct");
    assert_eq!(strip_package_prefix("test_crate", "test_crate"), "");
    assert_eq!(strip_package_prefix("other::Thing", "test_crate"), "other::Thing");
    // Only one name prefix and one separator are stripped.
    assert_eq!(strip_package_prefix("aa::b", "a"), "a::b");
}

#[test]
fn test_sort_dedup_strings() {
    let mut v = vec![
        "beta".to_string(),
        "alpha".to_string(),
        "beta".to_string(),
        "gamma".to_string(),
    ];
    sort_dedup_strings(&mut v);
    assert_eq!(
        v,
        vec!["alpha".to_string(), "beta".to_string(), "gamma".to_string()]
    );
}

#[test]
fn test_string_comparisons() {
    assert!(str_eq("abc", "abc"));
    assert!(!str_eq("abc", "abd"));
    assert!(str_lt("abc", "abd"));
    assert!(str_lt("ab", "abc"));
    assert!(!str_lt("abc", "abc"));
    assert!(!str_lt("b", "abc"));
}
