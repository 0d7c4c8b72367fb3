use lad_core::tools::{capture_entries, requests_of_kind};
use lad_core::tools::{jq_answer, JqAnswer};
use lad_core::helpers::build_element_js;
use lad_core::network::RequestKind;
use lad_core::semantic::{Element, ElementKind, PageState, SemanticView};
use lad_core::tools::{
    clamp_max_steps, fill_summary, method_for_initiator, network_filter_kind, plan_fill_form,
    FillFormError, McpSessionState, FILL_JS_HEAD, FILL_JS_MID, FILL_JS_TAIL,
};

fn el(id: u32, kind: ElementKind, label: &str) -> Element {
    Element {
        id,
        kind,
        label: label.to_string(),
        name: None,
        value: None,
        placeholder: None,
        href: None,
        input_type: None,
        disabled: false,
        form_index: None,
        context: None,
        hint: None,
        checked: None,
        options: None,
        frame_index: None,
        is_visible: None,
    }
}

fn view(elements: Vec<Element>) -> SemanticView {
    SemanticView {
        url: "https://example.com/login".into(),
        title: String::new(),
        page_hint: String::new(),
        elements,
        forms: vec![],
        visible_text: String::new(),
        text_blocks: vec![],
        state: PageState::Ready,
        element_cap: None,
        blocked_reason: None,
        session_context: None,
        cards: None,
        cards_truncated: None,
    }
}

fn fields(pairs: &[(&str, &str)]) -> Vec<(String, String)> {
    pairs.iter().map(|(k, v)| (k.to_string(), v.to_string())).collect()
}

#[test]
fn session_record_caps_urls_and_redacts() {
    let mut s = McpSessionState::default();
    for i in 0..105 {
        s.record_browse(&format!("https://example.com/p{i}?token=abc"), "look around", false);
    }
    assert_eq!(s.browse_count, 105);
    assert_eq!(s.visited_urls.len(), 100);
    assert_eq!(s.visited_urls[0], "https://example.com/p5?token=%5BREDACTED%5D");
    assert!(!s.authenticated);
    assert!(s.last_success_goal.is_none());
}

#[test]
fn successful_login_goal_authenticates() {
    let mut s = McpSessionState::default();
    s.record_browse("https://example.com", "Login with password hunter2", true);
    assert!(s.authenticated);
    assert_eq!(s.last_success_goal.as_deref(), Some("Login with password [REDACTED]"));
    let mut t = McpSessionState::default();
    t.record_browse("https://example.com", "read the news", true);
    assert!(!t.authenticated);
}

#[test]
fn browse_step_budget_is_capped() {
    assert_eq!(clamp_max_steps(10), 10);
    assert_eq!(clamp_max_steps(50), 50);
    assert_eq!(clamp_max_steps(500), 50);
}

#[test]
fn fill_plan_matches_fields_and_submit_button() {
    let mut email = el(1, ElementKind::Input, "Email address");
    email.name = Some("user_email".into());
    let mut pw = el(2, ElementKind::Input, "");
    pw.placeholder = Some("Password".into());
    let other = el(3, ElementKind::Button, "Cancel");
    let mut go = el(4, ElementKind::Button, "Go");
    go.input_type = Some("SUBMIT".into());
    let v = view(vec![email, pw, other, go]);
    let plan = plan_fill_form(&v, &fields(&[("EMAIL", "a@b.c"), ("password", "it's"), ("phone", "1")]), None, true)
        .unwrap();
    assert_eq!(plan.matched, 2);
    assert_eq!(plan.submit_button, Some(4));
    let body1 = format!("{FILL_JS_HEAD}a@b.c{FILL_JS_MID}a@b.c{FILL_JS_TAIL}");
    let body2 = format!("{FILL_JS_HEAD}it\\'s{FILL_JS_MID}it\\'s{FILL_JS_TAIL}");
    let expected = format!("{};\n{};\n", build_element_js(1, &body1), build_element_js(2, &body2));
    assert_eq!(plan.script, expected);
}

#[test]
fn fill_plan_refusals() {
    let v = view(vec![el(1, ElementKind::Input, "Email")]);
    assert_eq!(plan_fill_form(&v, &[], None, false).unwrap_err(), FillFormError::EmptyFields);
    assert_eq!(plan_fill_form(&v, &fields(&[("zip", "1")]), None, false).unwrap_err(), FillFormError::NoMatch);
    let submit_only = plan_fill_form(&v, &[], None, true).unwrap();
    assert_eq!(submit_only.matched, 0);
    assert_eq!(submit_only.script, "");
    assert_eq!(submit_only.submit_button, None);
}

#[test]
fn fill_plan_respects_form_scope() {
    let mut a = el(1, ElementKind::Input, "Email");
    a.form_index = Some(0);
    let mut b = el(2, ElementKind::Input, "Email");
    b.form_index = Some(1);
    let mut btn = el(3, ElementKind::Button, "Sign in");
    btn.form_index = Some(1);
    let v = view(vec![a, b, btn]);
    let plan = plan_fill_form(&v, &fields(&[("email", "x")]), Some(1), true).unwrap();
    assert!(plan.script.contains("data-lad-id=\"2\""));
    assert_eq!(plan.submit_button, Some(3));
}

#[test]
fn fill_summary_lines() {
    assert_eq!(fill_summary(2, 3, false, false), "Filled 2/3 fields");
    assert_eq!(fill_summary(2, 3, true, true), "Filled 2/3 fields + submitted");
    assert_eq!(fill_summary(0, 0, true, false), "Filled 0/0 fields (submit requested but no button found)");
}

#[test]
fn network_filter_names() {
    assert_eq!(network_filter_kind("auth"), Some(RequestKind::Auth));
    assert_eq!(network_filter_kind("api"), Some(RequestKind::Api));
    assert_eq!(network_filter_kind("navigation"), Some(RequestKind::Navigation));
    assert_eq!(network_filter_kind("asset"), Some(RequestKind::Asset));
    assert_eq!(network_filter_kind("all"), None);
    assert_eq!(method_for_initiator("beacon"), "POST");
    assert_eq!(method_for_initiator("fetch"), "GET");
}

use lad_core::tools::{assert_all, poll_wait, wait_conditions, WaitVerdict};

fn login_view() -> SemanticView {
    let mut v = view(vec![el(1, ElementKind::Button, "Sign in")]);
    v.title = "Welcome".into();
    v.page_hint = "login page".into();
    v
}

#[test]
fn assertions_are_checked_lower_cased() {
    let v = login_view();
    let (results, all) = assert_all(&["Has Login".to_string(), "TITLE contains WELCOME".to_string()], &v, "");
    assert_eq!(results, vec![true, true]);
    assert!(all);
    let (results, all) = assert_all(&["has login".to_string(), "has button cancel".to_string()], &v, "");
    assert_eq!(results, vec![true, false]);
    assert!(!all);
}

#[test]
fn wait_conditions_gather_single_then_list() {
    assert_eq!(
        wait_conditions(&Some("a".into()), &Some(vec!["b".into(), "c".into()])),
        vec!["a".to_string(), "b".to_string(), "c".to_string()]
    );
    assert!(wait_conditions(&None, &None).is_empty());
}

#[test]
fn wait_poll_modes() {
    let v = login_view();
    let conds = vec!["has button cancel".to_string(), "has login".to_string()];
    assert_eq!(poll_wait(&conds, true, &v, ""), WaitVerdict::Matched(1));
    assert_eq!(poll_wait(&conds, false, &v, ""), WaitVerdict::Pending(vec![0]));
    let ok = vec!["has login".to_string()];
    assert_eq!(poll_wait(&ok, false, &v, ""), WaitVerdict::AllPassed);
    let none = vec!["has button cancel".to_string()];
    assert_eq!(poll_wait(&none, true, &v, ""), WaitVerdict::Pending(vec![0]));
}

#[test]
fn jq_answer_shapes_outputs() {
    assert!(matches!(jq_answer(vec![]), JqAnswer::Null));
    match jq_answer(vec!["\"Login to Example\"".to_string()]) {
        JqAnswer::One(v) => assert_eq!(v, "\"Login to Example\""),
        other => panic!("unexpected {other:?}"),
    }
    match jq_answer(vec!["\"Sign in\"".to_string(), "\"Cancel\"".to_string()]) {
        JqAnswer::Many(vs) => assert_eq!(vs, vec!["\"Sign in\"", "\"Cancel\""]),
        other => panic!("unexpected {other:?}"),
    }
}

#[test]
fn capture_from_performance_entries_and_filter() {
    let entries = vec![
        ("https://example.com/".to_string(), "navigation".to_string()),
        ("https://example.com/api/users".to_string(), "fetch".to_string()),
        ("https://example.com/oauth/token".to_string(), "beacon".to_string()),
        ("https://example.com/app.js".to_string(), "script".to_string()),
    ];
    let c = capture_entries(&entries);
    assert_eq!(c.requests.len(), 4);
    assert_eq!(c.requests[2].request_id, "2");
    assert_eq!(c.requests[2].method, "POST");
    assert_eq!(c.requests[1].method, "GET");
    assert_eq!(c.requests[2].kind, RequestKind::Auth);
    assert_eq!(requests_of_kind(&c, Some(RequestKind::Auth)), vec![2]);
    assert_eq!(requests_of_kind(&c, None), vec![0, 1, 2, 3]);
}
