use lad_core::helpers::{
    build_element_js, build_element_js_or_target, extract_origin, key_to_code, parse_resolution,
    parse_window_size, pick_screen_size, same_origin, sha256_prefix,
};
use lad_core::params::{
    default_max_steps, default_nav_timeout_ms, default_network_filter, default_page_size,
    default_scroll_direction, default_scroll_pixels, default_snapshot_timeout_ms,
    default_wait_poll, default_wait_timeout, BackParams, RefreshParams,
};
use lad_core::target::TargetSpec;

#[test]
fn back_params_default_timeout_is_10s() {
    assert_eq!(BackParams::default().timeout_ms, 10_000);
    assert!(BackParams::default().tab_id.is_none());
}

#[test]
fn refresh_params_default_timeout_is_10s() {
    assert_eq!(RefreshParams::default().timeout_ms, 10_000);
    assert!(RefreshParams::default().tab_id.is_none());
}

#[test]
fn parameter_defaults() {
    assert_eq!(default_max_steps(), 10);
    assert_eq!(default_page_size(), 50);
    assert_eq!(default_snapshot_timeout_ms(), 20_000);
    assert_eq!(default_wait_timeout(), 10_000);
    assert_eq!(default_wait_poll(), 500);
    assert_eq!(default_network_filter(), "all");
    assert_eq!(default_nav_timeout_ms(), 10_000);
    assert_eq!(default_scroll_direction(), "down");
    assert_eq!(default_scroll_pixels(), 600);
}

#[test]
fn origin_keeps_scheme_host_and_port() {
    assert_eq!(
        extract_origin("https://example.com:8443/a/b?c=d").as_deref(),
        Some("https://example.com:8443")
    );
    assert_eq!(extract_origin("http://example.com").as_deref(), Some("http://example.com"));
    assert_eq!(extract_origin("ftp://example.com/x"), None);
    assert_eq!(extract_origin("example.com/x"), None);
}

#[test]
fn same_origin_compares_scheme_host_port() {
    assert!(same_origin("https://a.com/x", "https://a.com/y?z"));
    assert!(!same_origin("https://a.com/x", "http://a.com/x"));
    assert!(!same_origin("https://a.com:1/x", "https://a.com/x"));
    assert!(!same_origin("about:blank", "about:blank"));
}

#[test]
fn key_codes() {
    assert_eq!(key_to_code("Enter"), "Enter");
    assert_eq!(key_to_code(" "), "Space");
    assert_eq!(key_to_code("Space"), "Space");
    assert_eq!(key_to_code("F12"), "F12");
    assert_eq!(key_to_code("a"), "KeyA");
    assert_eq!(key_to_code("Foo"), "Foo");
    assert_eq!(key_to_code("1"), "Key1");
}

#[test]
fn element_script_names_the_id_twice_and_runs_the_body() {
    let js = build_element_js(42, "el.click();");
    assert!(js.starts_with("(() => {"));
    assert!(js.contains("'[data-lad-id=\"42\"]'"));
    assert!(js.contains("element 42 not found"));
    assert!(js.contains("el.click();"));
    assert!(js.ends_with("})()"));
}

#[test]
fn element_or_target_needs_one_of_them() {
    let by_id = build_element_js_or_target(Some(7), None, "el.focus();").unwrap();
    assert_eq!(by_id, build_element_js(7, "el.focus();"));
    let empty = TargetSpec::default();
    assert!(build_element_js_or_target(None, Some(&empty), "x").is_none());
    assert!(build_element_js_or_target(None, None, "x").is_none());
    let t = TargetSpec { role: Some("button".to_string()), ..TargetSpec::default() };
    let js = build_element_js_or_target(None, Some(&t), "el.click();").unwrap();
    assert!(js.contains("__ladFindTarget"));
    assert!(js.contains("el.click();"));
}

#[test]
fn window_size_setting() {
    assert_eq!(parse_window_size("1920x1080"), Some((1920, 1080)));
    assert_eq!(parse_window_size("320x240"), Some((320, 240)));
    assert_eq!(parse_window_size("319x240"), None);
    assert_eq!(parse_window_size("1920x"), None);
    assert_eq!(parse_window_size("1920x1080x1"), None);
    assert_eq!(parse_window_size("big"), None);
}

#[test]
fn display_resolutions() {
    assert_eq!(parse_resolution("3440 x 1440 @ 120.00Hz"), Some((3440, 1440)));
    assert_eq!(parse_resolution("1352 x 878"), Some((1352, 878)));
    assert_eq!(parse_resolution("Retina"), None);
    let res = vec![
        "1352 x 878 @ 120.00Hz".to_string(),
        "3440 x 1440 @ 120.00Hz".to_string(),
        "garbage".to_string(),
    ];
    assert_eq!(pick_screen_size(&res), Some((1920, 1080)));
    assert_eq!(pick_screen_size(&["1280 x 800".to_string()]), Some((1280, 800)));
    assert_eq!(pick_screen_size(&[]), None);
}

#[test]
fn audit_hash_prefix_is_16_hex_digits() {
    assert_eq!(sha256_prefix("abc"), "ba7816bf8f01cfea");
    assert_eq!(sha256_prefix(""), "e3b0c44298fc1c14");
}
