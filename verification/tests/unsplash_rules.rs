use galileo_core::unsplash::{
    format_unsplash_http_error, mime_from_content_type, normalize_content_filter,
    normalize_orientation, normalize_paging, parse_and_validate_https_url, truncate,
    validate_access_key, validate_photo_id, validate_search_query, UNSPLASH_API_HOST,
    UNSPLASH_IMAGE_HOST,
};

#[test]
fn validate_url_accepts_https_for_allowed_host() {
    let url = parse_and_validate_https_url("https://api.unsplash.com/photos/abc", UNSPLASH_API_HOST);
    assert!(url.is_ok());
}

#[test]
fn validate_url_rejects_non_https() {
    let url = parse_and_validate_https_url("http://api.unsplash.com/photos/abc", UNSPLASH_API_HOST);
    assert!(url.is_err());
}

#[test]
fn validate_url_rejects_wrong_host() {
    let url = parse_and_validate_https_url("https://evil.example/photos/abc", UNSPLASH_IMAGE_HOST);
    assert!(url.is_err());
}

#[test]
fn orientation_validation_is_strict() {
    assert!(normalize_orientation(Some("landscape".to_string())).is_ok());
    assert!(normalize_orientation(Some("square".to_string())).is_err());
}

#[test]
fn content_filter_defaults_to_high() {
    let value = normalize_content_filter(None).expect("default content filter");
    assert_eq!(value, "high");
}

#[test]
fn error_mapping_includes_rate_limited_category() {
    let message = format_unsplash_http_error(
        reqwest::StatusCode::TOO_MANY_REQUESTS.as_u16(),
        "hit rate limit",
    );
    assert!(message.contains("unsplash_rate_limited"));
}

#[test]
fn url_error_messages_name_the_check() {
    assert_eq!(
        parse_and_validate_https_url("not a url", UNSPLASH_API_HOST).unwrap_err(),
        "unsplash_invalid_url: the value is not a valid URL"
    );
    assert_eq!(
        parse_and_validate_https_url("http://api.unsplash.com/x", UNSPLASH_API_HOST).unwrap_err(),
        "unsplash_invalid_url: only https URLs are allowed"
    );
    assert_eq!(
        parse_and_validate_https_url("https://evil.example/x", UNSPLASH_API_HOST).unwrap_err(),
        "unsplash_invalid_url: host evil.example is not allowed"
    );
    assert_eq!(
        parse_and_validate_https_url("https://api.unsplash.com/x", UNSPLASH_API_HOST).unwrap(),
        "https://api.unsplash.com/x"
    );
}

#[test]
fn unsplash_error_format_is_exact() {
    assert_eq!(
        format_unsplash_http_error(429, "hit rate limit"),
        "unsplash_rate_limited: status 429 - hit rate limit"
    );
    assert_eq!(
        format_unsplash_http_error(503, "  "),
        "unsplash_server_error: status 503"
    );
    assert_eq!(
        format_unsplash_http_error(401, "no"),
        "unsplash_auth_failed: status 401 - no"
    );
}

#[test]
fn truncate_trims_and_cuts() {
    assert_eq!(truncate("  hi  ", 10), "hi");
    assert_eq!(truncate("    ", 10), "");
    let long: String = std::iter::repeat('b').take(200).collect();
    let cut: String = std::iter::repeat('b').take(180).collect();
    assert_eq!(truncate(&long, 180), format!("{cut}..."));
    let exact: String = std::iter::repeat('b').take(180).collect();
    assert_eq!(truncate(&exact, 180), exact);
}

#[test]
fn photo_id_validation() {
    assert_eq!(validate_photo_id(" abc ").unwrap(), "abc");
    assert_eq!(
        validate_photo_id("  ").unwrap_err(),
        "unsplash_invalid_params: photoId is required"
    );
    assert_eq!(
        validate_photo_id("a/b").unwrap_err(),
        "unsplash_invalid_params: photoId is invalid"
    );
}

#[test]
fn paging_defaults_and_clamps() {
    assert_eq!(normalize_paging(None, None), (1, 24));
    assert_eq!(normalize_paging(Some(0), Some(0)), (1, 1));
    assert_eq!(normalize_paging(Some(5), Some(99)), (5, 30));
    assert_eq!(normalize_paging(Some(2), Some(30)), (2, 30));
}

#[test]
fn access_key_must_be_present() {
    assert_eq!(
        validate_access_key(None).unwrap_err(),
        "unsplash_missing_access_key: set UNSPLASH_ACCESS_KEY"
    );
    assert!(validate_access_key(Some("   ")).is_err());
    assert_eq!(validate_access_key(Some("  k1  ")).unwrap(), "k1");
}

#[test]
fn query_must_be_present() {
    assert_eq!(validate_search_query("  cats  ").unwrap(), "cats");
    assert_eq!(
        validate_search_query(" ").unwrap_err(),
        "unsplash_invalid_params: query is required"
    );
}

#[test]
fn orientation_normalizes_case_and_space() {
    assert_eq!(
        normalize_orientation(Some("  PORTRAIT ".to_string())).unwrap(),
        Some("portrait".to_string())
    );
    assert_eq!(normalize_orientation(None).unwrap(), None);
    assert_eq!(
        normalize_orientation(Some("diagonal".to_string())).unwrap_err(),
        "unsplash_invalid_params: orientation must be landscape, portrait, or squarish"
    );
}

#[test]
fn content_filter_accepts_two_levels() {
    assert_eq!(
        normalize_content_filter(Some(" LOW ".to_string())).unwrap(),
        "low"
    );
    assert_eq!(
        normalize_content_filter(Some("medium".to_string())).unwrap_err(),
        "unsplash_invalid_params: contentFilter must be low or high"
    );
}

#[test]
fn mime_takes_prefix_before_parameters() {
    assert_eq!(
        mime_from_content_type(Some("image/png; charset=utf-8")),
        "image/png"
    );
    assert_eq!(mime_from_content_type(Some("image/webp")), "image/webp");
    assert_eq!(mime_from_content_type(None), "image/jpeg");
}
