use cargo_mcp::errors::Error;
use cargo_mcp::registry::{
    name_variants, validate_crate_name, Feature, IndexSettings, RegistryEntry, VersionInfo,
};

fn version(v: &str, yanked: bool, features: &[(&str, &[&str])]) -> VersionInfo {
    VersionInfo {
        version: v.to_string(),
        yanked,
        features: features
            .iter()
            .map(|(n, deps)| Feature {
                name: n.to_string(),
                enables: deps.iter().map(|d| d.to_string()).collect(),
            })
            .collect(),
        rust_version: None,
        checksum: vec![0u8; 32],
    }
}

fn sample_entry() -> RegistryEntry {
    RegistryEntry {
        name: "sample".to_string(),
        versions: vec![
            version("0.9.0", false, &[("std", &[])]),
            version("1.0.0", false, &[("std", &[]), ("alloc", &[])]),
            version("1.5.0", false, &[("std", &[]), ("serde", &["dep:serde"])]),
            version("2.0.0-alpha.1", false, &[("next", &[])]),
            version("3.0.0", true, &[]),
        ],
    }
}

#[test]
fn test_crates_io_latest_version() {
    let entry = sample_entry();

    // The latest version skips yanked and pre-release versions.
    let latest = entry.latest_version().unwrap();
    assert_eq!(latest, "1.5.0");

    // The version list is returned whole and unfiltered.
    assert_eq!(entry.versions().len(), 5);

    // The reported latest version is plain dotted digits.
    assert!(latest.chars().all(|c| c.is_ascii_digit() || c == '.'));
}

#[test]
fn test_latest_version_numeric_order() {
    // 0.10.0 is newer than 0.9.0: numeric, not lexicographic, comparison.
    let entry = RegistryEntry {
        name: "numeric".to_string(),
        versions: vec![
            version("0.9.0", false, &[]),
            version("0.10.0", false, &[]),
        ],
    };
    assert_eq!(entry.latest_version().unwrap(), "0.10.0");
}

#[test]
fn test_crates_io_latest_version_invalid() {
    // No version qualifies: all yanked or pre-release.
    let entry = RegistryEntry {
        name: "empty".to_string(),
        versions: vec![
            version("1.0.0-rc.1", false, &[]),
            version("1.0.0", true, &[]),
        ],
    };
    assert!(matches!(entry.latest_version(), Err(Error::NoVersions(_))));
}

#[test]
fn test_crates_io_versions() {
    let entry = sample_entry();
    let versions = entry.versions();
    assert_eq!(versions[0].version, "0.9.0");
    assert!(versions[4].yanked);
}

#[test]
fn test_crates_io_features() {
    let entry = sample_entry();

    // Without a version, the latest normal version's features come back.
    let names = entry.features(None).unwrap();
    assert_eq!(names, vec!["std".to_string(), "serde".to_string()]);
}

#[test]
fn test_crates_io_features_with_version() {
    let entry = sample_entry();
    let names = entry.features(Some("1.0.0")).unwrap();
    assert_eq!(names, vec!["std".to_string(), "alloc".to_string()]);
}

#[test]
fn test_crates_io_features_invalid() {
    let entry = sample_entry();

    // An unknown version is an error, never an empty feature list.
    let r = entry.features(Some("99.99.99"));
    assert!(matches!(r, Err(Error::VersionNotFound(_))));
}

#[test]
fn test_download_url_plain() {
    let entry = sample_entry();
    let settings = IndexSettings {
        dl: "https://crates.io/api/v1/crates".to_string(),
        api: Some("https://crates.io".to_string()),
    };

    // A template without markers gets the standard suffix appended.
    let url = entry.download_url(&settings, Some("1.0.0")).unwrap();
    assert_eq!(url, "https://crates.io/api/v1/crates/sample/1.0.0/download");

    // Without a version, the latest normal version is used.
    let url = entry.download_url(&settings, None).unwrap();
    assert_eq!(url, "https://crates.io/api/v1/crates/sample/1.5.0/download");
}

#[test]
fn test_download_url_with_markers() {
    let entry = sample_entry();
    let settings = IndexSettings {
        dl: "https://mirror.example/{crate}/{version}".to_string(),
        api: None,
    };
    let url = entry.download_url(&settings, Some("1.0.0")).unwrap();
    assert_eq!(url, "https://mirror.example/sample/1.0.0");
}

#[test]
fn test_download_url_unknown_version() {
    let entry = sample_entry();
    let settings = IndexSettings {
        dl: "https://crates.io/api/v1/crates".to_string(),
        api: None,
    };
    let r = entry.download_url(&settings, Some("99.99.99"));
    assert!(matches!(r, Err(Error::VersionNotFound(_))));
}

#[test]
fn test_name_variants_underscore() {
    let v = name_variants("parking_lot").unwrap();
    assert_eq!(v, vec!["parking_lot".to_string(), "parking-lot".to_string()]);
}

#[test]
fn test_name_variants_hyphen() {
    let v = name_variants("serde-yaml").unwrap();
    assert_eq!(v, vec!["serde-yaml".to_string(), "serde_yaml".to_string()]);
}

#[test]
fn test_name_variants_mixed() {
    let v = name_variants("a-b_c").unwrap();
    assert_eq!(
        v,
        vec!["a-b_c".to_string(), "a-b-c".to_string(), "a_b_c".to_string()]
    );
}

#[test]
fn test_name_variants_no_separator() {
    let v = name_variants("serde").unwrap();
    assert_eq!(v, vec!["serde".to_string()]);
}

#[test]
fn test_name_variants_too_many_separators() {
    let name = "a-".repeat(16) + "b";
    assert!(matches!(
        name_variants(&name),
        Err(Error::InvalidInput(_))
    ));
}

#[test]
fn test_crate_name_validation() {
    assert!(validate_crate_name("serde_json-2").is_ok());
    assert!(validate_crate_name("tokio").is_ok());

    // Shell metacharacters and path separators are rejected before any
    // external process could see them.
    let malicious_names = [
        "../../etc/passwd",
        "malicious;rm -rf /",
        "test$(touch bad)",
        "test`rm file`",
        "test\"&&echo bad",
        "evil;rm -rf",
        "../escape",
        "name with space",
    ];
    for name in malicious_names {
        assert!(matches!(
            validate_crate_name(name),
            Err(Error::InvalidInput(_))
        ));
    }
}

#[test]
fn test_error_messages() {
    let entry = sample_entry();
    let err = entry.features(Some("99.99.99")).unwrap_err();
    // The error carries the offending version.
    assert!(err.message().contains("99.99.99"));

    let err = validate_crate_name("bad name").unwrap_err();
    assert!(err.message().contains("bad name"));
}
