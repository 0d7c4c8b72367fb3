use lad_core::semantic::{format_session_context, PageState, SemanticView};
use lad_core::session::{
    domain_matches, parse_host_path, path_matches, AuthState, CookieEntry, SessionState,
    COOKIE_CAP,
};

fn make_cookie(name: &str, domain: &str, path: &str) -> CookieEntry {
    CookieEntry {
        name: name.to_string(),
        value: "val".to_string(),
        domain: domain.to_string(),
        path: path.to_string(),
        expires_bits: 0f64.to_bits(),
        secure: false,
        http_only: false,
        same_site: None,
    }
}

#[test]
fn test_cookie_upsert() {
    let mut state = SessionState::new();
    let c1 = CookieEntry { value: "old".to_string(), ..make_cookie("sid", ".example.com", "/") };
    let c2 = CookieEntry { value: "new".to_string(), ..make_cookie("sid", ".example.com", "/") };
    state.add_cookie(c1);
    assert_eq!(state.cookies.len(), 1);
    assert_eq!(state.cookies[0].value, "old");
    state.add_cookie(c2);
    assert_eq!(state.cookies.len(), 1);
    assert_eq!(state.cookies[0].value, "new");
}

#[test]
fn test_cookie_domain_matching() {
    let mut state = SessionState::new();
    state.add_cookie(make_cookie("a", ".example.com", "/"));
    state.add_cookie(make_cookie("b", "other.com", "/"));
    let matched = state.get_cookies_for_url("https://sub.example.com/page");
    assert_eq!(matched.len(), 1);
    assert_eq!(matched[0].name, "a");
    let matched2 = state.get_cookies_for_url("https://example.com/");
    assert_eq!(matched2.len(), 1);
    assert_eq!(matched2[0].name, "a");
}

#[test]
fn test_cookie_path_matching() {
    let mut state = SessionState::new();
    state.add_cookie(make_cookie("a", "example.com", "/foo"));
    state.add_cookie(make_cookie("b", "example.com", "/bar"));
    let matched = state.get_cookies_for_url("https://example.com/foo/bar");
    assert_eq!(matched.len(), 1);
    assert_eq!(matched[0].name, "a");
    let matched2 = state.get_cookies_for_url("https://example.com/bar");
    assert_eq!(matched2.len(), 1);
    assert_eq!(matched2[0].name, "b");
}

#[test]
fn test_has_auth_cookies() {
    let mut state = SessionState::new();
    assert!(!state.has_auth_cookies());
    state.add_cookie(make_cookie("theme", "example.com", "/"));
    assert!(!state.has_auth_cookies());
    state.add_cookie(make_cookie("session_id", "example.com", "/"));
    assert!(state.has_auth_cookies());
}

#[test]
fn test_navigation_history() {
    let mut state = SessionState::new();
    state.record_navigation(
        "https://a.com".into(),
        "Page A".into(),
        vec!["clicked button".into()],
        false,
        false,
    );
    state.record_navigation("https://b.com".into(), "Page B".into(), vec![], true, true);
    assert_eq!(state.navigation_history.len(), 2);
    assert_eq!(state.navigation_history[0].url, "https://a.com");
    assert!(state.navigation_history[1].form_submitted);
    assert!(state.navigation_history[1].auth_related);
    assert!(state.navigation_history[0].timestamp_ms <= state.navigation_history[1].timestamp_ms);
}

#[test]
fn test_page_memory() {
    let mut state = SessionState::new();
    assert!(state.recall("key").is_none());
    let mut obj = serde_json::Map::new();
    obj.insert("email".to_string(), serde_json::Value::String("a@b.com".to_string()));
    state.remember("key".into(), serde_json::Value::Object(obj));
    let val = state.recall("key").expect("should exist");
    assert_eq!(val["email"], "a@b.com");
    state.remember("key".into(), serde_json::Value::String("updated".to_string()));
    assert_eq!(
        state.recall("key").unwrap(),
        &serde_json::Value::String("updated".to_string())
    );
    assert_eq!(state.page_memory.len(), 1);
}

#[test]
fn test_was_redirected() {
    let mut state = SessionState::new();
    assert!(!state.was_redirected());
    state.record_navigation("https://a.com".into(), "A".into(), vec![], false, false);
    assert!(!state.was_redirected());
    state.record_navigation("https://b.com/callback".into(), "B".into(), vec![], false, false);
    assert!(state.was_redirected());
    state.record_navigation("https://b.com/dashboard".into(), "B2".into(), vec![], false, false);
    assert!(!state.was_redirected());
}

#[test]
fn test_visit_count() {
    let mut state = SessionState::new();
    state.record_navigation("https://example.com/login".into(), "Login".into(), vec![], false, true);
    state.record_navigation("https://example.com/dashboard".into(), "Dash".into(), vec![], false, false);
    state.record_navigation("https://example.com/login".into(), "Login".into(), vec![], false, true);
    assert_eq!(state.visit_count("login"), 2);
    assert_eq!(state.visit_count("dashboard"), 1);
    assert_eq!(state.visit_count("example.com"), 3);
    assert_eq!(state.visit_count("nonexistent"), 0);
}

#[test]
fn test_current_and_previous_url() {
    let mut state = SessionState::new();
    assert!(state.current_url().is_none());
    assert!(state.previous_url().is_none());
    state.record_navigation("https://a.com".into(), "A".into(), vec![], false, false);
    assert_eq!(state.current_url(), Some("https://a.com"));
    assert!(state.previous_url().is_none());
    state.record_navigation("https://b.com".into(), "B".into(), vec![], false, false);
    assert_eq!(state.current_url(), Some("https://b.com"));
    assert_eq!(state.previous_url(), Some("https://a.com"));
}

#[test]
fn test_session_default() {
    let state = SessionState::default();
    assert!(state.cookies.is_empty());
    assert!(state.navigation_history.is_empty());
    assert!(state.page_memory.is_empty());
    assert_eq!(state.auth_state, AuthState::NoActivity);
    assert!(state.origin_url.is_none());
    assert_eq!(AuthState::default(), AuthState::NoActivity);
}

#[test]
fn test_cookie_for_url_no_match() {
    let mut state = SessionState::new();
    state.add_cookie(make_cookie("sid", "other.com", "/"));
    let matched = state.get_cookies_for_url("https://example.com/page");
    assert!(matched.is_empty());
}

#[test]
fn test_parse_host_path_basic() {
    let (h, p) = parse_host_path("https://example.com/foo/bar");
    assert_eq!(h, "example.com");
    assert_eq!(p, "/foo/bar");
}

#[test]
fn test_parse_host_path_with_port() {
    let (h, p) = parse_host_path("http://localhost:3000/api");
    assert_eq!(h, "localhost");
    assert_eq!(p, "/api");
}

#[test]
fn test_parse_host_path_no_path() {
    let (h, p) = parse_host_path("https://example.com");
    assert_eq!(h, "example.com");
    assert_eq!(p, "/");
}

#[test]
fn parse_host_path_lowercases_and_handles_missing_scheme() {
    let (h, p) = parse_host_path("Example.COM:80/X?y");
    assert_eq!(h, "example.com");
    assert_eq!(p, "/X?y");
}

#[test]
fn test_domain_matches_exact() {
    assert!(domain_matches("example.com", "example.com"));
    assert!(!domain_matches("example.com", "sub.example.com"));
}

#[test]
fn test_domain_matches_wildcard() {
    assert!(domain_matches(".example.com", "example.com"));
    assert!(domain_matches(".example.com", "sub.example.com"));
    assert!(!domain_matches(".example.com", "notexample.com"));
}

#[test]
fn test_path_matches_exact_and_prefix() {
    assert!(path_matches("/foo", "/foo"));
    assert!(path_matches("/foo", "/foo/bar"));
    assert!(!path_matches("/foo", "/foobar"));
    assert!(!path_matches("/foo", "/bar"));
    assert!(path_matches("/", "/anything"));
}

#[test]
fn test_cookie_cap_evicts_oldest() {
    let mut state = SessionState::new();
    for i in 0..COOKIE_CAP {
        state.add_cookie(make_cookie(&format!("c{i}"), "example.com", "/"));
    }
    assert_eq!(state.cookies.len(), COOKIE_CAP);
    state.add_cookie(make_cookie("overflow", "example.com", "/"));
    assert_eq!(state.cookies.len(), COOKIE_CAP);
    assert_eq!(state.cookies[0].name, "c1");
    assert_eq!(state.cookies.last().unwrap().name, "overflow");
}

#[test]
fn test_cookie_cap_upsert_does_not_evict() {
    let mut state = SessionState::new();
    for i in 0..COOKIE_CAP {
        state.add_cookie(make_cookie(&format!("c{i}"), "example.com", "/"));
    }
    let mut updated = make_cookie("c0", "example.com", "/");
    updated.value = "updated".to_string();
    state.add_cookie(updated);
    assert_eq!(state.cookies.len(), COOKIE_CAP);
    assert_eq!(state.cookies[0].value, "updated");
}

#[test]
fn session_context_lists_recent_pages_first() {
    let mut state = SessionState::new();
    state.record_navigation("https://a.com/".into(), "A".into(), vec![], false, false);
    state.record_navigation("https://b.com/".into(), "B".into(), vec!["typed email".into()], false, false);
    state.record_navigation("https://c.com/cb?code=xyz".into(), "C".into(), vec![], false, false);
    state.record_navigation("https://d.com/".into(), "D".into(), vec![], false, false);
    state.auth_state = AuthState::Authenticated;
    state.add_cookie(make_cookie("sid", "d.com", "/"));
    let ctx = format_session_context(&state);
    assert_eq!(
        ctx,
        "SESSION CONTEXT:\n  - visited: https://d.com/ (D)\n  - visited: https://c.com/cb?code=%5BREDACTED%5D (C)\n  - visited: https://b.com/ (B)\n    action: typed email\nAUTH: authenticated\nAUTH COOKIES: present\n"
    );
    assert_eq!(format_session_context(&SessionState::new()), "");
}

#[test]
fn prompt_with_session_appends_context() {
    let view = SemanticView {
        url: "https://example.com/".into(),
        title: "T".into(),
        page_hint: "".into(),
        elements: vec![],
        forms: vec![],
        visible_text: "".into(),
        text_blocks: vec![],
        state: PageState::Ready,
        element_cap: None,
        blocked_reason: None,
        session_context: None,
        cards: None,
        cards_truncated: None,
    };
    let mut state = SessionState::new();
    state.auth_state = AuthState::InProgress;
    let out = view.to_prompt_with_session(&state);
    assert_eq!(out, format!("{}\nAUTH: in progress\n", view.to_prompt()));
}
