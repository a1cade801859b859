use akkoproxy::image::{
    format_from_content_type, format_satisfies, is_image_content_type, parse_accept_header,
    OutputFormat,
};

#[test]
fn test_parse_accept_avif_preferred() {
    let accept = "image/avif,image/webp,image/jpeg";
    let format = parse_accept_header(accept, true, true);
    assert_eq!(format, OutputFormat::Avif);
}

#[test]
fn test_parse_accept_webp_preferred() {
    let accept = "image/webp;q=1.0,image/avif;q=0.8,image/jpeg;q=0.5";
    let format = parse_accept_header(accept, true, true);
    assert_eq!(format, OutputFormat::WebP);
}

#[test]
fn test_parse_accept_avif_disabled() {
    let accept = "image/avif,image/webp,image/jpeg";
    let format = parse_accept_header(accept, false, true);
    assert_eq!(format, OutputFormat::WebP);
}

#[test]
fn test_is_image_content_type() {
    assert!(is_image_content_type("image/jpeg"));
    assert!(is_image_content_type("image/png"));
    assert!(!is_image_content_type("text/html"));
    assert!(!is_image_content_type("application/json"));
}

#[test]
fn test_format_from_content_type() {
    assert_eq!(format_from_content_type("image/avif"), Some(OutputFormat::Avif));
    assert_eq!(format_from_content_type("image/webp"), Some(OutputFormat::WebP));
    assert_eq!(format_from_content_type("image/jpeg"), Some(OutputFormat::Jpeg));
    assert_eq!(format_from_content_type("image/jpg"), Some(OutputFormat::Jpeg));
    assert_eq!(format_from_content_type("image/png"), Some(OutputFormat::Png));
    assert_eq!(format_from_content_type("image/gif"), None);
    assert_eq!(format_from_content_type("text/plain"), None);
}

#[test]
fn test_format_satisfies() {
    // Same format satisfies
    assert!(format_satisfies(OutputFormat::Avif, OutputFormat::Avif));
    assert!(format_satisfies(OutputFormat::WebP, OutputFormat::WebP));

    // Original always satisfied
    assert!(format_satisfies(OutputFormat::Avif, OutputFormat::Original));
    assert!(format_satisfies(OutputFormat::Jpeg, OutputFormat::Original));

    // Different formats don't satisfy
    assert!(!format_satisfies(OutputFormat::Jpeg, OutputFormat::Avif));
    assert!(!format_satisfies(OutputFormat::Png, OutputFormat::WebP));
}

#[test]
fn test_parse_accept_highest_q_wins() {
    // The enabled format with the numerically highest q wins.
    let format = parse_accept_header("image/jpeg;q=0.3,image/png;q=0.9,image/avif;q=0.7", true, true);
    assert_eq!(format, OutputFormat::Png);
}

#[test]
fn test_parse_accept_tie_preserves_order() {
    // Equal q values: the earlier entry wins.
    let format = parse_accept_header("image/webp;q=0.8,image/avif;q=0.8", true, true);
    assert_eq!(format, OutputFormat::WebP);
    let format = parse_accept_header("image/avif,image/webp", true, true);
    assert_eq!(format, OutputFormat::Avif);
}

#[test]
fn test_parse_accept_unparsable_q_defaults_to_one() {
    // A q that does not parse counts as 1.0 and ties with the default.
    let format = parse_accept_header("image/png;q=abc,image/jpeg", true, true);
    assert_eq!(format, OutputFormat::Png);
    // An explicit lower q loses against the unparsable default.
    let format = parse_accept_header("image/png;q=0.5,image/jpeg;q=oops", true, true);
    assert_eq!(format, OutputFormat::Jpeg);
}

#[test]
fn test_parse_accept_wildcards_and_unknown() {
    assert_eq!(parse_accept_header("*/*", true, true), OutputFormat::Original);
    assert_eq!(parse_accept_header("image/*;q=0.8", true, true), OutputFormat::Original);
    assert_eq!(parse_accept_header("text/html,application/json", true, true), OutputFormat::Original);
    assert_eq!(parse_accept_header("", true, true), OutputFormat::Original);
}

#[test]
fn test_parse_accept_whitespace_and_params() {
    let format = parse_accept_header(" image/webp ; q=0.9 , image/jpeg ; q=0.4 ", true, true);
    assert_eq!(format, OutputFormat::WebP);
}

#[test]
fn test_format_tag() {
    assert_eq!(OutputFormat::Avif.tag(), "Avif");
    assert_eq!(OutputFormat::WebP.tag(), "WebP");
    assert_eq!(OutputFormat::Jpeg.tag(), "Jpeg");
    assert_eq!(OutputFormat::Png.tag(), "Png");
    assert_eq!(OutputFormat::Original.tag(), "Original");
}
