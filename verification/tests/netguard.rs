use lad_core::sanitize::{
    hex_of_bytes, is_loopback_only, is_safe_url, is_safe_url_with, random_boundary,
};

#[test]
fn blocks_file_scheme() {
    assert!(!is_safe_url("file:///etc/passwd"));
}

#[test]
fn blocks_javascript_scheme() {
    assert!(!is_safe_url("javascript:alert(1)"));
}

#[test]
fn blocks_data_scheme() {
    assert!(!is_safe_url("data:text/html,<h1>hi</h1>"));
}

#[test]
fn blocks_blob_scheme() {
    assert!(!is_safe_url("blob:http://example.com/abc"));
}

#[test]
fn blocks_chrome_scheme() {
    assert!(!is_safe_url("chrome://settings"));
    assert!(!is_safe_url("chrome://flags"));
}

#[test]
fn blocks_chrome_extension_scheme() {
    assert!(!is_safe_url(
        "chrome-extension://abcdefghijklmnopqrstuvwxyz/index.html"
    ));
}

#[test]
fn blocks_opera_scheme() {
    assert!(!is_safe_url("opera://settings"));
}

#[test]
fn blocks_about_blank() {
    assert!(!is_safe_url("about:blank"));
    assert!(!is_safe_url("about:config"));
}

#[test]
fn blocks_devtools() {
    assert!(!is_safe_url("devtools://devtools/bundled/inspector.html"));
}

#[test]
fn blocks_view_source() {
    assert!(!is_safe_url("view-source:https://example.com"));
}

#[test]
fn blocks_edge_scheme() {
    assert!(!is_safe_url("edge://settings"));
}

#[test]
fn blocks_brave_scheme() {
    assert!(!is_safe_url("brave://wallet"));
}

#[test]
fn blocks_ws_scheme() {
    assert!(!is_safe_url("ws://example.com:9000/socket"));
}

#[test]
fn blocks_wss_scheme() {
    assert!(!is_safe_url("wss://example.com/socket"));
}

#[test]
fn blocks_localhost() {
    assert!(!is_safe_url("http://localhost:8080/admin"));
}

#[test]
fn blocks_127_0_0_1() {
    assert!(!is_safe_url("http://127.0.0.1:3000"));
}

#[test]
fn blocks_ipv6_loopback() {
    assert!(!is_safe_url("http://[::1]/secret"));
}

#[test]
fn blocks_private_10_range() {
    assert!(!is_safe_url("http://10.0.0.1/internal"));
}

#[test]
fn blocks_private_172_range() {
    assert!(!is_safe_url("http://172.16.0.1/internal"));
}

#[test]
fn blocks_private_192_range() {
    assert!(!is_safe_url("http://192.168.1.1/router"));
}

#[test]
fn blocks_aws_imds() {
    assert!(!is_safe_url("http://169.254.169.254/latest/meta-data/"));
}

#[test]
fn blocks_link_local() {
    assert!(!is_safe_url("http://169.254.1.1/"));
}

#[test]
fn allows_https() {
    assert!(is_safe_url("https://example.com/page"));
}

#[test]
fn allows_http() {
    assert!(is_safe_url("http://example.com/page"));
}

#[test]
fn allows_relative_url() {
    assert!(is_safe_url("/dashboard"));
}

#[test]
fn case_insensitive_scheme_block() {
    assert!(!is_safe_url("JAVASCRIPT:alert(1)"));
    assert!(!is_safe_url("File:///etc/shadow"));
}

#[test]
fn blocks_file_single_slash() {
    assert!(!is_safe_url("file:/etc/passwd"));
    assert!(!is_safe_url("FILE:/etc/shadow"));
}

#[test]
fn blocks_file_no_authority() {
    assert!(!is_safe_url("file:///tmp/secret"));
    assert!(!is_safe_url("file://localhost/etc/passwd"));
}

#[test]
fn boundary_is_32_hex_chars() {
    let b = random_boundary().expect("randomness");
    assert_eq!(b.len(), 32);
    assert!(b.chars().all(|c| c.is_ascii_hexdigit()));
}

#[test]
fn boundaries_are_unique() {
    let a = random_boundary().expect("randomness");
    let b = random_boundary().expect("randomness");
    assert_ne!(a, b);
}

#[test]
fn blocks_javascript_with_control_chars() {
    assert!(!is_safe_url("java\x0Bscript:alert(1)"));
}

#[test]
fn blocks_vbscript() {
    assert!(!is_safe_url("vbscript:msgbox(1)"));
}

#[test]
fn blocks_unparseable_with_colon_prefix() {
    assert!(!is_safe_url(":some-stuff"));
}

#[test]
fn blocks_javascript_with_whitespace_bypass() {
    assert!(!is_safe_url("java\x00script:alert(1)"));
    assert!(!is_safe_url("java\tscript:alert(1)"));
}

#[test]
fn allows_relative_path_no_scheme() {
    assert!(is_safe_url("/dashboard"));
    assert!(is_safe_url("about"));
}

#[test]
fn blocks_ipv6_unique_local() {
    assert!(!is_safe_url("http://[fd12::1]/secret"));
}

#[test]
fn blocks_ipv6_link_local() {
    assert!(!is_safe_url("http://[fe80::1]/secret"));
}

#[test]
fn blocks_ipv4_mapped_loopback() {
    assert!(!is_safe_url("http://[::ffff:127.0.0.1]/secret"));
}

#[test]
fn blocks_ipv4_mapped_private() {
    assert!(!is_safe_url("http://[::ffff:192.168.1.1]/secret"));
}

#[test]
fn blocks_ipv6_unspecified() {
    assert!(!is_safe_url("http://[::]/"));
}

#[test]
fn blocks_nip_io() {
    assert!(!is_safe_url("http://127.0.0.1.nip.io/admin"));
}

#[test]
fn blocks_sslip_io() {
    assert!(!is_safe_url("http://10.0.0.1.sslip.io/admin"));
}

#[test]
fn blocks_localtest_me() {
    assert!(!is_safe_url("http://localtest.me/admin"));
}

#[test]
fn blocks_lvh_me() {
    assert!(!is_safe_url("http://sub.lvh.me/admin"));
}

#[test]
fn blocks_dot_localhost() {
    assert!(!is_safe_url("http://foo.localhost:8080/admin"));
}

#[test]
fn loopback_allows_ws_localhost() {
    assert!(is_loopback_only("ws://localhost:9222/devtools/browser/abc"));
}

#[test]
fn loopback_allows_ws_127_0_0_1() {
    assert!(is_loopback_only("ws://127.0.0.1:9222/devtools/browser/abc"));
}

#[test]
fn loopback_allows_ws_ipv6_bracketed() {
    assert!(is_loopback_only("ws://[::1]:9222/devtools/browser/abc"));
}

#[test]
fn loopback_allows_wss_localhost() {
    assert!(is_loopback_only(
        "wss://localhost:9222/devtools/browser/abc"
    ));
}

#[test]
fn loopback_allows_http_localhost() {
    assert!(is_loopback_only("http://localhost:9222"));
}

#[test]
fn loopback_allows_http_localhost_with_path() {
    assert!(is_loopback_only("http://localhost:9222/json/version"));
}

#[test]
fn loopback_allows_http_127_0_0_1() {
    assert!(is_loopback_only("http://127.0.0.1:9222"));
}

#[test]
fn loopback_allows_https_localhost() {
    assert!(is_loopback_only("https://localhost:9222"));
}

#[test]
fn loopback_allows_localhost_case_insensitive() {
    assert!(is_loopback_only("http://LocalHost:9222"));
}

#[test]
fn loopback_rejects_private_192() {
    assert!(!is_loopback_only(
        "ws://192.168.1.1:9222/devtools/browser/x"
    ));
}

#[test]
fn loopback_rejects_private_10() {
    assert!(!is_loopback_only("http://10.0.0.1:9222"));
}

#[test]
fn loopback_rejects_private_172() {
    assert!(!is_loopback_only("http://172.16.0.1:9222"));
}

#[test]
fn loopback_rejects_link_local() {
    assert!(!is_loopback_only("http://169.254.1.1:9222"));
}

#[test]
fn loopback_rejects_public_host() {
    assert!(!is_loopback_only("ws://evil.com:9222/devtools/browser/x"));
}

#[test]
fn loopback_rejects_dns_rebinding_like_hostnames() {
    assert!(!is_loopback_only("http://evil.localhost:9222"));
    assert!(!is_loopback_only("http://mybox.local:9222"));
}

#[test]
fn loopback_rejects_empty_string() {
    assert!(!is_loopback_only(""));
}

#[test]
fn loopback_rejects_whitespace_only() {
    assert!(!is_loopback_only("   "));
}

#[test]
fn loopback_rejects_bare_path() {
    assert!(!is_loopback_only("/devtools/browser/abc"));
}

#[test]
fn loopback_rejects_missing_scheme() {
    assert!(!is_loopback_only("localhost:9222"));
}

#[test]
fn loopback_rejects_wrong_scheme() {
    assert!(!is_loopback_only("file://localhost/etc/passwd"));
    assert!(!is_loopback_only("chrome://localhost/"));
}

#[test]
fn loopback_rejects_url_without_host() {
    assert!(!is_loopback_only("http:///abc"));
}

#[test]
fn loopback_rejects_garbage() {
    assert!(!is_loopback_only("not a url at all"));
}

#[test]
fn bypass_lets_private_hosts_through_but_not_schemes() {
    assert!(is_safe_url_with("http://127.0.0.1:3000", true));
    assert!(is_safe_url_with("http://localhost:8080/admin", true));
    assert!(!is_safe_url_with("file:///etc/passwd", true));
    assert!(!is_safe_url_with("javascript:alert(1)", true));
}

#[test]
fn blocks_unspecified_ipv4_and_opaque_dotted_host() {
    assert!(!is_safe_url("http://0.0.0.0/"));
    assert!(!is_safe_url("foo://127.0.0.1/x"));
    assert!(!is_safe_url("foo://10.1.2.3/x"));
    assert!(is_safe_url("foo://8.8.8.8/x"));
    assert!(is_safe_url("foo://010.1.2.3/x"));
}

#[test]
fn blocks_numeric_ipv4_forms_the_parser_normalizes() {
    assert!(!is_safe_url("http://0x7f.1/"));
    assert!(!is_safe_url("http://2130706433/"));
}

#[test]
fn allows_public_ip_and_mapped_public() {
    assert!(is_safe_url("http://8.8.8.8/"));
    assert!(is_safe_url("http://[::ffff:8.8.8.8]/"));
    assert!(is_safe_url("http://[2001:db8::1]/"));
}

#[test]
fn loopback_accepts_other_127_addresses() {
    assert!(is_loopback_only("ws://127.0.0.2:9222/x"));
    assert!(is_loopback_only("  http://localhost:9222  "));
    assert!(is_loopback_only("http://0x7f.1:9222/"));
    assert!(!is_loopback_only("ws://[::2]:9222/"));
}

#[test]
fn hex_of_bytes_is_two_lower_digits_each() {
    assert_eq!(hex_of_bytes(&[0x00, 0x0f, 0xa0, 0xff]), "000fa0ff");
    assert_eq!(hex_of_bytes(&[]), "");
}
