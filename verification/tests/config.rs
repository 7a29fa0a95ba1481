use cargo_mcp::config::Config;

#[test]
fn test_default_config() {
    let config = Config::default();
    assert_eq!(config.doc_cache_ttl, 3600);
    assert_eq!(config.info_cache_ttl, 300);
    assert_eq!(config.max_cache_size, 100);
    assert!(config.nightly_toolchain.is_none());
    assert!(config.cargo_path.is_none());
}

#[test]
fn test_config_builder() {
    let config = Config::new()
        .with_doc_cache_ttl(7200)
        .with_info_cache_ttl(600)
        .with_max_cache_size(200)
        .with_nightly_toolchain("nightly-2025-05-19".to_string());

    assert_eq!(config.doc_cache_ttl, 7200);
    assert_eq!(config.info_cache_ttl, 600);
    assert_eq!(config.max_cache_size, 200);
    assert_eq!(
        config.nightly_toolchain,
        Some("nightly-2025-05-19".to_string())
    );
}

#[test]
fn test_config_new_is_default() {
    let a = Config::new();
    assert_eq!(a.doc_cache_ttl, 3600);
    assert_eq!(a.info_cache_ttl, 300);
    assert_eq!(a.max_cache_size, 100);
}
