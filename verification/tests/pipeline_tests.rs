//! The request pipeline driven end to end with simulated upstream
//! responses: negotiation, conversion, caching and response assembly.

use std::io::Cursor;

use akkoproxy::cache::{CachedResponse, ResponseCache};
use akkoproxy::image::{parse_accept_header, ImageConverter, OutputFormat};
use akkoproxy::proxy::{
    build_response, build_response_with_status, cache_key_for, handle_success, is_success_status,
    resolve, ProxyResponse,
};

fn header<'a>(r: &'a ProxyResponse, name: &str) -> Option<&'a str> {
    r.headers
        .iter()
        .find(|p| p.0.eq_ignore_ascii_case(name))
        .map(|p| p.1.as_str())
}

fn small_jpeg() -> Vec<u8> {
    let img = image::DynamicImage::ImageRgb8(image::RgbImage::from_pixel(
        8,
        8,
        image::Rgb([120u8, 80u8, 40u8]),
    ));
    let mut buffer = Cursor::new(Vec::new());
    img.write_to(&mut buffer, image::ImageFormat::Jpeg)
        .expect("encoding a small JPEG should succeed");
    buffer.into_inner()
}

#[test]
fn test_pipeline_converts_and_caches() {
    // A request for /media/x.jpg with Accept: image/avif, with the
    // upstream answering 200 image/jpeg under the size cap: the response
    // carries image/avif and a MISS, and the repeat is a HIT with an
    // identical body.
    let path = "/media/x.jpg";
    let accept = "image/avif";
    let max_item_size: usize = 10 * 1024 * 1024;
    let converter = ImageConverter::new(85, 4096, true, true);
    let mut cache = ResponseCache::new(10_000_000, 3600, max_item_size as u64);

    let (desired, upstream_query) = resolve(accept, "", true, true, false);
    assert_eq!(desired, OutputFormat::Avif);
    assert_eq!(upstream_query, "");

    let key = cache_key_for(path, "", desired);
    assert!(cache.get(&key).is_none());

    // Upstream answers 200, image/jpeg.
    let upstream_body = small_jpeg();
    assert!(is_success_status(200));
    let (data, content_type, cacheable) =
        handle_success(&converter, upstream_body, "image/jpeg", desired, max_item_size);
    assert_eq!(content_type, "image/avif");
    assert!(cacheable);

    let miss = build_response(data.clone(), &content_type, "akkoproxy/0.1.0", None, false, false);
    assert_eq!(miss.status, 200);
    assert_eq!(header(&miss, "content-type").unwrap(), "image/avif");
    assert_eq!(header(&miss, "x-cache-status").unwrap(), "MISS");

    cache.put(
        key.clone(),
        CachedResponse {
            data,
            content_type: content_type.clone(),
            upstream_headers: None,
        },
    );

    // The repeated identical request hits the cache.
    let cached = cache.get(&key).expect("repeat request should hit the cache");
    let hit = build_response(
        cached.data.clone(),
        &cached.content_type,
        "akkoproxy/0.1.0",
        None,
        true,
        false,
    );
    assert_eq!(header(&hit, "x-cache-status").unwrap(), "HIT");
    assert_eq!(hit.body, miss.body);
}

#[test]
fn test_pipeline_passes_404_through() {
    // Upstream answers 404: the status and body pass through, nothing is
    // cached and nothing is converted.
    let path = "/media/missing.jpg";
    let mut _cache = ResponseCache::new(10_000_000, 3600, 1024);
    let cache = &mut _cache;
    let (desired, _) = resolve("image/avif", "", true, true, false);
    let key = cache_key_for(path, "", desired);

    assert!(!is_success_status(404));
    let upstream_body = b"not found".to_vec();
    let upstream_headers = vec![("content-type".to_string(), "text/plain".to_string())];
    let response = build_response_with_status(
        upstream_body.clone(),
        404,
        "akkoproxy/0.1.0",
        Some(&upstream_headers),
    );
    assert_eq!(response.status, 404);
    assert_eq!(response.body, upstream_body);
    // Upstream's own content type passes through untouched.
    assert_eq!(header(&response, "content-type").unwrap(), "text/plain");
    // Pass-through responses carry no cache status and are not cached.
    assert!(header(&response, "x-cache-status").is_none());
    assert!(cache.get(&key).is_none());
}

#[test]
fn test_conversion_failure_serves_original_bytes() {
    // Bytes that decode as no image: the conversion failure is swallowed
    // and the original bytes and content type are served.
    let converter = ImageConverter::new(85, 4096, true, true);
    let body = b"this is not an image at all".to_vec();
    let (data, content_type, cacheable) =
        handle_success(&converter, body.clone(), "image/jpeg", OutputFormat::Avif, 1024);
    assert_eq!(data, body);
    assert_eq!(content_type, "image/jpeg");
    assert!(cacheable);
}

#[test]
fn test_convert_to_webp_is_used_when_avif_disabled() {
    // With AVIF disabled the negotiator picks WebP, and conversion
    // produces a WebP payload.
    let converter = ImageConverter::new(85, 4096, false, true);
    let desired = parse_accept_header("image/avif,image/webp", false, true);
    assert_eq!(desired, OutputFormat::WebP);
    let (data, content_type, _) = handle_success(
        &converter,
        small_jpeg(),
        "image/jpeg",
        desired,
        10 * 1024 * 1024,
    );
    assert_eq!(content_type, "image/webp");
    // RIFF....WEBP container magic.
    assert_eq!(&data[0..4], b"RIFF");
    assert_eq!(&data[8..12], b"WEBP");
}

#[test]
fn test_convert_original_returns_input() {
    let converter = ImageConverter::new(85, 4096, true, true);
    let body = small_jpeg();
    let (data, mime) = converter
        .convert(&body, OutputFormat::Original)
        .expect("decoding a valid JPEG should succeed");
    assert_eq!(data, body);
    assert_eq!(mime, "application/octet-stream");
}

#[test]
fn test_convert_resizes_oversized_image() {
    // An image over the configured bound comes back with the longer side
    // at the bound.
    let img = image::DynamicImage::ImageRgb8(image::RgbImage::from_pixel(
        64,
        16,
        image::Rgb([10u8, 200u8, 30u8]),
    ));
    let mut buffer = Cursor::new(Vec::new());
    img.write_to(&mut buffer, image::ImageFormat::Png).unwrap();
    let converter = ImageConverter::new(85, 32, true, true);
    let (data, mime) = converter
        .convert(&buffer.into_inner(), OutputFormat::Png)
        .expect("PNG conversion should succeed");
    assert_eq!(mime, "image/png");
    let round = image::load_from_memory(&data).expect("output should decode");
    let (w, h) = (round.width(), round.height());
    assert_eq!(w, 32);
    assert_eq!(h, 8);
}
