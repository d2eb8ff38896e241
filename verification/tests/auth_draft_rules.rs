use galileo_core::auth::{
    collect_auth_deep_links_from_args, mask_env_value, normalize_auth_secret_key,
    push_auth_deep_link_queue,
};
use galileo_core::drafts::{
    check_draft_version, draft_file_name, now_ms, sanitize_key, sort_draft_summaries, DraftSummary,
};

#[test]
fn secret_keys_are_filename_safe() {
    assert_eq!(normalize_auth_secret_key(" a.b-c_1 ").unwrap(), "a.b-c_1");
    assert_eq!(
        normalize_auth_secret_key("   ").unwrap_err(),
        "auth_invalid_key: key is required"
    );
    assert_eq!(
        normalize_auth_secret_key("a/b").unwrap_err(),
        "auth_invalid_key: unsupported characters in key"
    );
}

#[test]
fn env_values_are_masked() {
    assert_eq!(mask_env_value(""), "(empty)");
    assert_eq!(mask_env_value("abcdef"), "***");
    assert_eq!(mask_env_value("abcdefgh"), "abc***gh");
}

#[test]
fn deep_links_are_filtered_by_scheme() {
    let args = vec![
        " galileo://auth?code=1 ".to_string(),
        "GALILEO://second".to_string(),
        "https://example.com".to_string(),
        "".to_string(),
        "not a url".to_string(),
    ];
    let links = collect_auth_deep_links_from_args(&args);
    assert_eq!(
        links,
        vec![
            "galileo://auth?code=1".to_string(),
            "GALILEO://second".to_string()
        ]
    );
}

#[test]
fn deep_link_queue_dedups_and_caps() {
    let mut queue: Vec<String> = vec!["galileo://a".to_string()];
    let urls = vec!["galileo://a".to_string(), "galileo://b".to_string()];
    push_auth_deep_link_queue(&mut queue, &urls);
    assert_eq!(
        queue,
        vec!["galileo://a".to_string(), "galileo://b".to_string()]
    );

    let mut queue: Vec<String> = Vec::new();
    let many: Vec<String> = (0..40).map(|i| format!("galileo://link/{i}")).collect();
    push_auth_deep_link_queue(&mut queue, &many);
    assert_eq!(queue.len(), 32);
    assert_eq!(queue[0], "galileo://link/8");
    assert_eq!(queue[31], "galileo://link/39");
}

#[test]
fn draft_keys_must_have_content() {
    assert_eq!(sanitize_key("  k  ").unwrap(), "k");
    assert_eq!(sanitize_key("   ").unwrap_err(), "Draft key cannot be empty");
}

#[test]
fn draft_version_gate() {
    assert!(check_draft_version(1).is_ok());
    assert_eq!(
        check_draft_version(2).unwrap_err(),
        "Unsupported draft version 2"
    );
    assert_eq!(
        check_draft_version(0).unwrap_err(),
        "Unsupported draft version 0"
    );
}

#[test]
fn draft_listings_sort_newest_first() {
    let entry = |key: &str, at: u64| DraftSummary {
        key: key.to_string(),
        path: None,
        saved_at_ms: at,
    };
    let sorted = sort_draft_summaries(vec![
        entry("old", 10),
        entry("new", 30),
        entry("mid", 20),
        entry("tie", 30),
    ]);
    let stamps: Vec<u64> = sorted.iter().map(|s| s.saved_at_ms).collect();
    assert_eq!(stamps, vec![30, 30, 20, 10]);
    let keys: Vec<&str> = sorted.iter().map(|s| s.key.as_str()).collect();
    assert!(keys.contains(&"old") && keys.contains(&"new") && keys.contains(&"mid"));
}

#[test]
fn draft_file_names_encode_the_key() {
    assert_eq!(draft_file_name("k"), "aw.draft.json");
    assert_eq!(draft_file_name("a b/c"), "YSBiL2M.draft.json");
}

#[test]
fn clock_reads_after_the_epoch() {
    assert!(now_ms() > 0);
}
