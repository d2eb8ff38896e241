use galileo_core::figma::{
    format_error, normalize_image_format, normalize_node_ids, retry_delay_secs, should_retry,
    validate_file_key, validate_geometry, validate_token,
};

#[test]
fn validates_file_key() {
    assert!(validate_file_key("AbCdEf123").is_ok());
    assert!(validate_file_key("bad/key").is_err());
}

#[test]
fn validates_node_ids() {
    let ids = normalize_node_ids(&vec!["12:34".to_string(), "ab_cd".to_string()]).unwrap();
    assert_eq!(ids.len(), 2);
    assert!(normalize_node_ids(&vec!["bad id".to_string()]).is_err());
}

#[test]
fn maps_http_errors() {
    let message = format_error(reqwest::StatusCode::TOO_MANY_REQUESTS.as_u16(), "rate");
    assert!(message.contains("figma_rate_limited"));
}

#[test]
fn file_key_messages_and_trimming() {
    assert_eq!(validate_file_key("  key-1_A  ").unwrap(), "key-1_A");
    assert_eq!(
        validate_file_key("   ").unwrap_err(),
        "figma_invalid_params: fileKey is required"
    );
    assert_eq!(
        validate_file_key("a b").unwrap_err(),
        "figma_invalid_params: fileKey is invalid"
    );
}

#[test]
fn token_requires_content() {
    assert_eq!(validate_token(" tok ").unwrap(), "tok");
    assert_eq!(
        validate_token("  ").unwrap_err(),
        "figma_invalid_params: token is required"
    );
}

#[test]
fn node_ids_drop_empty_entries() {
    let ids = normalize_node_ids(&vec![
        "".to_string(),
        "  12:34  ".to_string(),
        "   ".to_string(),
    ])
    .unwrap();
    assert_eq!(ids, vec!["12:34".to_string()]);
    assert_eq!(
        normalize_node_ids(&vec!["a!".to_string()]).unwrap_err(),
        "figma_invalid_params: nodeIds contains an invalid id"
    );
}

#[test]
fn geometry_accepts_only_paths() {
    assert_eq!(validate_geometry(None).unwrap(), None);
    assert_eq!(validate_geometry(Some("   ")).unwrap(), None);
    assert_eq!(
        validate_geometry(Some("  PATHS ")).unwrap(),
        Some("paths".to_string())
    );
    assert_eq!(
        validate_geometry(Some("vector")).unwrap_err(),
        "figma_invalid_params: geometry must be \"paths\""
    );
}

#[test]
fn error_format_is_exact() {
    assert_eq!(
        format_error(429, "rate"),
        "figma_rate_limited: status 429 - rate"
    );
    assert_eq!(format_error(500, "   "), "figma_server_error: status 500");
    assert_eq!(format_error(404, ""), "figma_not_found: status 404");
    assert_eq!(format_error(401, "x"), "figma_auth_failed: status 401 - x");
    assert_eq!(format_error(403, "x"), "figma_forbidden: status 403 - x");
    assert_eq!(
        format_error(418, "x"),
        "figma_request_failed: status 418 - x"
    );
}

#[test]
fn error_format_truncates_long_bodies() {
    let body: String = std::iter::repeat('a').take(200).collect();
    let expected_excerpt: String = std::iter::repeat('a').take(180).collect();
    assert_eq!(
        format_error(500, &body),
        format!("figma_server_error: status 500 - {expected_excerpt}")
    );
}

#[test]
fn retry_policy_matches_rate_limits() {
    assert!(should_retry(429, 1));
    assert!(should_retry(429, 3));
    assert!(!should_retry(429, 4));
    assert!(!should_retry(500, 1));
    assert_eq!(retry_delay_secs(Some("5")), 5);
    assert_eq!(retry_delay_secs(Some("+7")), 7);
    assert_eq!(retry_delay_secs(Some("100")), 8);
    assert_eq!(retry_delay_secs(Some("soon")), 1);
    assert_eq!(retry_delay_secs(None), 1);
}

#[test]
fn image_format_normalization() {
    assert_eq!(normalize_image_format(None).unwrap(), "png");
    assert_eq!(normalize_image_format(Some("  ")).unwrap(), "png");
    assert_eq!(normalize_image_format(Some(" JPG ")).unwrap(), "jpg");
    assert_eq!(normalize_image_format(Some("svg")).unwrap(), "svg");
    assert_eq!(normalize_image_format(Some("pdf")).unwrap(), "pdf");
    assert_eq!(
        normalize_image_format(Some("bmp")).unwrap_err(),
        "figma_invalid_params: format must be png, jpg, svg, or pdf"
    );
}
