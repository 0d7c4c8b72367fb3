use lad_core::network::{classify_url, NetworkCapture, RequestKind};

fn s(x: &str) -> String {
    x.to_string()
}

#[test]
fn classify_oauth_url() {
    assert_eq!(
        classify_url("https://accounts.google.com/o/oauth2/auth", "GET"),
        RequestKind::Auth
    );
}

#[test]
fn classify_login_post() {
    assert_eq!(classify_url("https://example.com/api/login", "POST"), RequestKind::Auth);
}

#[test]
fn classify_token_endpoint() {
    assert_eq!(classify_url("https://example.com/oauth/token", "POST"), RequestKind::Auth);
}

#[test]
fn classify_css_asset() {
    assert_eq!(classify_url("https://cdn.example.com/style.css", "GET"), RequestKind::Asset);
}

#[test]
fn classify_js_asset() {
    assert_eq!(classify_url("https://cdn.example.com/app.js?v=123", "GET"), RequestKind::Asset);
}

#[test]
fn classify_api_call() {
    assert_eq!(classify_url("https://example.com/api/users/me", "GET"), RequestKind::Api);
}

#[test]
fn classify_graphql() {
    assert_eq!(classify_url("https://example.com/graphql", "POST"), RequestKind::Api);
}

#[test]
fn classify_websocket() {
    assert_eq!(classify_url("wss://example.com/ws", "GET"), RequestKind::WebSocket);
}

#[test]
fn classify_navigation() {
    assert_eq!(classify_url("https://example.com/dashboard", "GET"), RequestKind::Navigation);
}

#[test]
fn classify_unknown() {
    assert_eq!(classify_url("https://example.com/something.unknown", "GET"), RequestKind::Other);
}

#[test]
fn classify_is_case_insensitive_on_url() {
    assert_eq!(classify_url("HTTPS://EXAMPLE.COM/STYLE.CSS", "GET"), RequestKind::Asset);
    assert_eq!(classify_url("WS://EXAMPLE.COM/x", "GET"), RequestKind::WebSocket);
}

#[test]
fn classify_post_to_login_segment_is_auth() {
    assert_eq!(classify_url("https://example.com/users/signup?x=1", "POST"), RequestKind::Auth);
    assert_eq!(classify_url("https://example.com/users/signup?x=1", "GET"), RequestKind::Navigation);
}

#[test]
fn classify_get_with_dot_in_path_is_other() {
    assert_eq!(classify_url("https://example.com/a.b/c", "GET"), RequestKind::Other);
    assert_eq!(classify_url("no-scheme-here", "GET"), RequestKind::Navigation);
}

#[test]
fn capture_request_and_response() {
    let mut capture = NetworkCapture::new();
    capture.on_request(s("1"), s("https://example.com/api/login"), s("POST"), Some(s("user=test")));
    assert_eq!(capture.requests.len(), 1);
    assert_eq!(capture.auth_requests.len(), 1);

    let headers = vec![(s("Set-Cookie"), s("session=abc"))];
    capture.on_response("1", 200, Some(s("application/json")), &headers);

    let req = capture.request("1").unwrap();
    assert_eq!(req.status, 200);
    assert!(req.has_set_cookie);
    assert_eq!(req.post_data.as_deref(), Some("user=test"));
}

#[test]
fn capture_summary() {
    let mut capture = NetworkCapture::new();
    capture.on_request(s("1"), s("https://example.com/api/login"), s("POST"), None);
    capture.on_request(s("2"), s("https://example.com/style.css"), s("GET"), None);
    capture.on_request(s("3"), s("https://example.com/api/data"), s("GET"), None);

    let summary = capture.summary();
    assert_eq!(summary.total_requests, 3);
    assert_eq!(summary.auth_count, 1);
    assert_eq!(summary.asset_count, 1);
    assert_eq!(summary.api_count, 1);
}

#[test]
fn reclassify_on_json_response() {
    let mut capture = NetworkCapture::new();
    capture.on_request(s("1"), s("https://example.com/rpc"), s("POST"), None);
    assert_eq!(capture.request("1").unwrap().kind, RequestKind::Other);
    capture.on_response("1", 200, Some(s("application/json")), &[]);
    assert_eq!(capture.request("1").unwrap().kind, RequestKind::Api);
    assert_eq!(capture.api_requests, vec![s("1")]);
}

#[test]
fn reclassify_on_html_response() {
    let mut capture = NetworkCapture::new();
    capture.on_request(s("1"), s("https://example.com/rpc"), s("POST"), None);
    capture.on_response("1", 200, Some(s("text/html")), &[]);
    assert_eq!(capture.request("1").unwrap().kind, RequestKind::Navigation);
    assert!(capture.api_requests.is_empty());
}

#[test]
fn response_for_unknown_id_is_ignored() {
    let mut capture = NetworkCapture::new();
    capture.on_response("nope", 500, None, &[]);
    assert!(capture.requests.is_empty());
}

#[test]
fn post_data_truncated() {
    let mut capture = NetworkCapture::new();
    let long_data = "x".repeat(2000);
    capture.on_request(s("1"), s("https://example.com/auth/login"), s("POST"), Some(long_data));
    let req = capture.request("1").unwrap();
    assert_eq!(req.post_data.as_ref().unwrap().len(), 1024);
}

#[test]
fn post_data_truncated_on_char_boundary() {
    let mut capture = NetworkCapture::new();
    let data = format!("{}{}", "y".repeat(1022), "é".repeat(10));
    capture.on_request(s("1"), s("https://example.com/auth/login"), s("POST"), Some(data));
    let req = capture.request("1").unwrap();
    assert_eq!(req.post_data.as_ref().unwrap().len(), 1024);
}

#[test]
fn post_data_only_for_auth_api() {
    let mut capture = NetworkCapture::new();
    capture.on_request(s("1"), s("https://cdn.example.com/track.gif"), s("POST"), Some(s("data=x")));
    let req = capture.request("1").unwrap();
    assert!(req.post_data.is_none());
}

#[test]
fn repeated_request_id_replaces_record() {
    let mut capture = NetworkCapture::new();
    capture.on_request(s("1"), s("https://example.com/a.css"), s("GET"), None);
    capture.on_request(s("1"), s("https://example.com/api/x"), s("GET"), None);
    assert_eq!(capture.requests.len(), 1);
    assert_eq!(capture.request("1").unwrap().kind, RequestKind::Api);
    let summary = capture.summary();
    assert_eq!(summary.total_requests, 1);
    assert_eq!(summary.asset_count + summary.api_count, 1);
}

#[test]
fn auth_flow_returns_ordered() {
    let mut capture = NetworkCapture::new();
    capture.on_request(s("1"), s("https://example.com/login"), s("POST"), None);
    capture.on_request(s("2"), s("https://example.com/oauth/callback"), s("GET"), None);
    let flow = capture.auth_flow();
    assert_eq!(flow.len(), 2);
    assert!(flow[0].url.contains("login"));
    assert!(flow[1].url.contains("callback"));
}

#[test]
fn post_data_cut_back_to_a_char_boundary() {
    let mut capture = NetworkCapture::new();
    let pd = "x".repeat(1023) + "é";
    capture.on_request(s("1"), s("https://example.com/auth/login"), s("POST"), Some(pd));
    let req = capture.request("1").unwrap();
    assert_eq!(req.post_data.as_deref(), Some("x".repeat(1023).as_str()));
}
