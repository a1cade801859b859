use akkoproxy::config::{
    default_max_capacity, default_max_item_size, default_quality, default_timeout, default_ttl,
    Config,
};

#[test]
fn test_default_config() {
    let config = Config::with_upstream("https://example.com".to_string());
    assert_eq!(config.upstream.url, "https://example.com");
    assert!(config.image.enable_avif);
    assert!(config.image.enable_webp);
}

#[test]
fn test_default_values() {
    let config = Config::with_upstream("https://example.com".to_string());
    assert_eq!(config.upstream.timeout, default_timeout());
    assert_eq!(config.cache.max_capacity, default_max_capacity());
    assert_eq!(config.cache.ttl, default_ttl());
    assert_eq!(config.cache.max_item_size, default_max_item_size());
    assert_eq!(config.image.quality, default_quality());
    assert_eq!(config.image.max_dimension, 4096);
    assert_eq!(config.server.via_header, "akkoproxy/0.1.0");
    assert!(!config.server.preserve_upstream_headers);
    assert!(!config.server.behind_cdn_query_override);
}
