use galileo_core::fonts::normalize_font_list;

#[test]
fn font_listings_are_trimmed_sorted_and_deduped() {
    let out = normalize_font_list(vec![
        " Zapf Dingbats ".to_string(),
        "Arial".to_string(),
        "".to_string(),
        "Arial".to_string(),
        "   ".to_string(),
        "Menlo".to_string(),
    ]);
    assert_eq!(
        out,
        vec![
            "Arial".to_string(),
            "Menlo".to_string(),
            "Zapf Dingbats".to_string()
        ]
    );
}

#[test]
fn font_listing_order_is_by_code_point() {
    let out = normalize_font_list(vec![
        "b".to_string(),
        "B".to_string(),
        "a".to_string(),
    ]);
    assert_eq!(out, vec!["B".to_string(), "a".to_string(), "b".to_string()]);
}
