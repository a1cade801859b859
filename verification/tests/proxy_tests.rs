use akkoproxy::image::{ConversionError, OutputFormat};
use akkoproxy::proxy::{
    apply_conversion_outcome, build_response, build_response_with_status, cache_key_for,
    health_body, is_success_status, metrics_body, parse_query_for_format, resolve,
    root_redirect_response, route_request, should_convert_image, should_exclude_header,
    ProxyError, ProxyResponse, RouteDecision,
};

fn get_all<'a>(r: &'a ProxyResponse, name: &str) -> Vec<&'a str> {
    r.headers
        .iter()
        .filter(|p| p.0.eq_ignore_ascii_case(name))
        .map(|p| p.1.as_str())
        .collect()
}

fn get_one<'a>(r: &'a ProxyResponse, name: &str) -> Option<&'a str> {
    get_all(r, name).first().copied()
}

#[test]
fn test_build_response_no_duplicate_headers() {
    // Upstream headers that include content-type and via
    let upstream_headers = vec![
        ("content-type".to_string(), "image/jpeg".to_string()),
        ("via".to_string(), "upstream-proxy".to_string()),
        ("cache-control".to_string(), "no-cache".to_string()),
        ("x-cache-status".to_string(), "upstream-hit".to_string()),
        ("x-custom-header".to_string(), "custom-value".to_string()),
    ];

    // Build response with different content-type
    let response = build_response(
        b"test data".to_vec(),
        "image/avif",
        "akkoproxy/1.0",
        Some(&upstream_headers),
        true,
        false,
    );

    // Content-Type should only have the proxy's value (image/avif), not upstream's (image/jpeg)
    let content_types = get_all(&response, "content-type");
    assert_eq!(content_types.len(), 1, "Content-Type should not be duplicated");
    assert_eq!(content_types[0], "image/avif");

    // Via should only have the proxy's value
    let via_values = get_all(&response, "via");
    assert_eq!(via_values.len(), 1, "Via should not be duplicated");
    assert_eq!(via_values[0], "akkoproxy/1.0");

    // Cache-Control should only have the proxy's value
    let cache_control_values = get_all(&response, "cache-control");
    assert_eq!(cache_control_values.len(), 1, "Cache-Control should not be duplicated");
    assert_eq!(cache_control_values[0], "public, max-age=31536000, immutable");

    // X-Cache-Status should only have the proxy's value
    let x_cache_status_values = get_all(&response, "x-cache-status");
    assert_eq!(x_cache_status_values.len(), 1, "X-Cache-Status should not be duplicated");
    assert_eq!(x_cache_status_values[0], "HIT");

    // Custom header should be preserved
    assert_eq!(get_one(&response, "x-custom-header").unwrap(), "custom-value");
}

#[test]
fn test_build_response_with_status_no_duplicate_headers() {
    // Create upstream headers
    let upstream_headers = vec![
        ("via".to_string(), "upstream-proxy".to_string()),
        ("access-control-allow-origin".to_string(), "https://example.com".to_string()),
        ("x-custom-header".to_string(), "custom-value".to_string()),
    ];

    // Build response
    let response = build_response_with_status(
        b"redirect".to_vec(),
        301,
        "akkoproxy/1.0",
        Some(&upstream_headers),
    );

    // Via should only have the proxy's value
    let via_values = get_all(&response, "via");
    assert_eq!(via_values.len(), 1, "Via should not be duplicated");
    assert_eq!(via_values[0], "akkoproxy/1.0");

    // Access-Control-Allow-Origin should have upstream's value (not replaced)
    let acao_values = get_all(&response, "access-control-allow-origin");
    assert_eq!(acao_values.len(), 1, "Access-Control-Allow-Origin should not be duplicated");
    assert_eq!(acao_values[0], "https://example.com");

    // Custom header should be preserved
    assert_eq!(get_one(&response, "x-custom-header").unwrap(), "custom-value");
}

#[test]
fn test_parse_query_for_format() {
    // Test format=avif
    let (format, remaining) = parse_query_for_format("format=avif&other=value");
    assert_eq!(format, Some(OutputFormat::Avif));
    assert_eq!(remaining, "other=value");

    // Test format=webp
    let (format, remaining) = parse_query_for_format("format=webp");
    assert_eq!(format, Some(OutputFormat::WebP));
    assert_eq!(remaining, "");

    // Test no format parameter
    let (format, remaining) = parse_query_for_format("other=value&another=test");
    assert_eq!(format, None);
    assert_eq!(remaining, "other=value&another=test");

    // Test format with unknown value
    let (format, remaining) = parse_query_for_format("format=jpeg&other=value");
    assert_eq!(format, None);
    assert_eq!(remaining, "other=value");

    // Test format in middle
    let (format, remaining) = parse_query_for_format("a=1&format=avif&b=2");
    assert_eq!(format, Some(OutputFormat::Avif));
    assert_eq!(remaining, "a=1&b=2");

    // Test format with URL encoding (spaces as +)
    let (format, remaining) = parse_query_for_format("format=webp+test&other=value");
    assert_eq!(format, None); // Should not match due to extra text
    assert_eq!(remaining, "other=value");

    // Test format with case insensitivity
    let (format, remaining) = parse_query_for_format("format=AVIF");
    assert_eq!(format, Some(OutputFormat::Avif));
    assert_eq!(remaining, "");

    let (format, remaining) = parse_query_for_format("format=WebP");
    assert_eq!(format, Some(OutputFormat::WebP));
    assert_eq!(remaining, "");

    // Test format with whitespace (+ is space in query strings)
    let (format, remaining) = parse_query_for_format("format=+avif+&other=value");
    assert_eq!(format, Some(OutputFormat::Avif));
    assert_eq!(remaining, "other=value");
}

#[test]
fn test_cors_header_follows_upstream() {
    // Test when upstream provides CORS header
    let upstream_headers = vec![
        ("access-control-allow-origin".to_string(), "https://example.com".to_string()),
    ];

    let response = build_response(
        b"test".to_vec(),
        "text/plain",
        "akkoproxy/1.0",
        Some(&upstream_headers),
        false,
        false,
    );

    // Should use upstream CORS value
    assert_eq!(get_one(&response, "access-control-allow-origin").unwrap(), "https://example.com");

    // Test when upstream doesn't provide CORS header
    let response = build_response(
        b"test".to_vec(),
        "text/plain",
        "akkoproxy/1.0",
        None,
        false,
        false,
    );

    // Should use default "*"
    assert_eq!(get_one(&response, "access-control-allow-origin").unwrap(), "*");
}

#[test]
fn test_vary_header_with_cloudflare_free() {
    let response = build_response(
        b"test".to_vec(),
        "text/plain",
        "akkoproxy/1.0",
        None,
        false,
        true,
    );

    assert_eq!(get_one(&response, "vary").unwrap(), "Accept");

    let response = build_response(
        b"test".to_vec(),
        "text/plain",
        "akkoproxy/1.0",
        None,
        false,
        false,
    );

    assert!(get_one(&response, "vary").is_none());
}

#[test]
fn test_route_request() {
    assert_eq!(route_request("/"), RouteDecision::RootRedirect);
    assert_eq!(route_request("/media/x.jpg"), RouteDecision::Proxy);
    assert_eq!(route_request("/proxy/y.png"), RouteDecision::Proxy);
    assert_eq!(route_request("/media"), RouteDecision::Proxy);
    assert_eq!(route_request("/other"), RouteDecision::NotAllowed);
    assert_eq!(route_request("/medi"), RouteDecision::NotAllowed);
    assert_eq!(route_request(""), RouteDecision::NotAllowed);
}

#[test]
fn test_root_redirect_has_location() {
    let response = root_redirect_response();
    assert_eq!(response.status, 301);
    assert!(response.body.is_empty());
    assert_eq!(
        get_one(&response, "location").unwrap(),
        "https://github.com/BlockG-ws/akkoproxy"
    );
}

#[test]
fn test_error_responses() {
    let (status, message) = ProxyError::PathNotAllowed.into_response();
    assert_eq!(status, 403);
    assert_eq!(message, "Path not allowed");

    let (status, message) = ProxyError::UpstreamError("connect refused".to_string()).into_response();
    assert_eq!(status, 502);
    assert_eq!(message, "Upstream error: connect refused");
}

#[test]
fn test_health_and_metrics_bodies() {
    assert_eq!(health_body(), "OK");
    assert_eq!(metrics_body(0, 0), "cache_entries 0\ncache_size_bytes 0\n");
    assert_eq!(metrics_body(12, 34056), "cache_entries 12\ncache_size_bytes 34056\n");
}

#[test]
fn test_resolve_with_query_override() {
    // A valid override decides the format and is stripped from the query.
    let (format, query) = resolve("image/webp", "format=AVIF&x=1", true, true, true);
    assert_eq!(format, OutputFormat::Avif);
    assert_eq!(query, "x=1");

    // An invalid override still strips, and the Accept header decides.
    let (format, query) = resolve("image/webp", "format=webp+ignored", true, true, true);
    assert_eq!(format, OutputFormat::WebP);
    assert_eq!(query, "");

    // Override disabled: the query passes through untouched.
    let (format, query) = resolve("image/webp", "format=avif&x=1", true, true, false);
    assert_eq!(format, OutputFormat::WebP);
    assert_eq!(query, "format=avif&x=1");
}

#[test]
fn test_cache_key_for() {
    let key = cache_key_for("/media/a.jpg", "x=1", OutputFormat::Avif);
    assert_eq!(key.path, "/media/a.jpg?x=1");
    assert_eq!(key.format, "Avif");

    let key = cache_key_for("/media/a.jpg", "", OutputFormat::Original);
    assert_eq!(key.path, "/media/a.jpg");
    assert_eq!(key.format, "Original");
}

#[test]
fn test_should_convert_image() {
    // Not an image
    assert!(!should_convert_image("text/html", None, OutputFormat::Avif, 10, 100));
    // Original requested
    assert!(!should_convert_image("image/jpeg", Some(OutputFormat::Jpeg), OutputFormat::Original, 10, 100));
    // Too large
    assert!(!should_convert_image("image/jpeg", Some(OutputFormat::Jpeg), OutputFormat::Avif, 200, 100));
    // Upstream already satisfies
    assert!(!should_convert_image("image/avif", Some(OutputFormat::Avif), OutputFormat::Avif, 10, 100));
    // Otherwise convert
    assert!(should_convert_image("image/jpeg", Some(OutputFormat::Jpeg), OutputFormat::Avif, 10, 100));
    // Unknown upstream format still converts
    assert!(should_convert_image("image/gif", None, OutputFormat::WebP, 10, 100));
}

#[test]
fn test_is_success_status() {
    assert!(is_success_status(200));
    assert!(is_success_status(204));
    assert!(is_success_status(299));
    assert!(!is_success_status(199));
    assert!(!is_success_status(300));
    assert!(!is_success_status(301));
    assert!(!is_success_status(404));
    assert!(!is_success_status(502));
}

#[test]
fn test_should_exclude_header_names() {
    assert!(should_exclude_header("content-length"));
    assert!(should_exclude_header("Content-Type"));
    assert!(should_exclude_header("TRANSFER-ENCODING"));
    assert!(should_exclude_header("connection"));
    assert!(should_exclude_header("Via"));
    assert!(should_exclude_header("cache-control"));
    assert!(should_exclude_header("X-Cache-Status"));
    assert!(!should_exclude_header("x-custom-header"));
    assert!(!should_exclude_header("access-control-allow-origin"));
}

#[test]
fn test_passthrough_preserves_upstream_content_type() {
    // On a non-success pass-through, upstream's Content-Type (and
    // Cache-Control) survive the merge; only framing headers and Via
    // are dropped.
    let upstream_headers = vec![
        ("content-type".to_string(), "text/html".to_string()),
        ("content-length".to_string(), "42".to_string()),
        ("cache-control".to_string(), "no-store".to_string()),
        ("via".to_string(), "upstream-proxy".to_string()),
    ];
    let response = build_response_with_status(
        b"not found".to_vec(),
        404,
        "akkoproxy/1.0",
        Some(&upstream_headers),
    );
    assert_eq!(get_one(&response, "content-type").unwrap(), "text/html");
    assert_eq!(get_one(&response, "cache-control").unwrap(), "no-store");
    assert!(get_one(&response, "content-length").is_none());
    let via_values = get_all(&response, "via");
    assert_eq!(via_values.len(), 1);
    assert_eq!(via_values[0], "akkoproxy/1.0");
}

#[test]
fn test_apply_conversion_outcome() {
    // A successful conversion replaces the payload.
    let (data, mime, cacheable) = apply_conversion_outcome(
        Ok((b"converted".to_vec(), "image/avif".to_string())),
        b"original".to_vec(),
        "image/jpeg",
        100,
    );
    assert_eq!(data, b"converted".to_vec());
    assert_eq!(mime, "image/avif");
    assert!(cacheable);

    // A failure is swallowed: the original bytes and content type serve.
    let (data, mime, cacheable) = apply_conversion_outcome(
        Err(ConversionError::EncodeError),
        b"original".to_vec(),
        "image/jpeg",
        4,
    );
    assert_eq!(data, b"original".to_vec());
    assert_eq!(mime, "image/jpeg");
    assert!(!cacheable);
}

#[test]
fn test_valid_quality_bounds() {
    assert!(!akkoproxy::config::valid_quality(0));
    assert!(akkoproxy::config::valid_quality(1));
    assert!(akkoproxy::config::valid_quality(85));
    assert!(akkoproxy::config::valid_quality(100));
    assert!(!akkoproxy::config::valid_quality(101));
}
