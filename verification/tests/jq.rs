use lad_core::jq::{jq_input_supported, jq_query_supported, lad_jq};
use lad_core::tools::JqAnswer;

fn input_value() -> String {
    let el = |id: u32, kind: &str, label: &str| {
        format!(r#"{{"id":{id},"kind":"{kind}","label":"{label}","disabled":false}}"#)
    };
    format!(
        r#"{{"url":"https://example.com/login","title":"Login to Example","page_hint":"login page","elements":[{},{},{},{}],"visible_text":"Welcome back"}}"#,
        el(0, "input", "Email"),
        el(1, "input", "Password"),
        el(2, "button", "Sign in"),
        el(3, "button", "Cancel"),
    )
}

fn one(a: JqAnswer) -> serde_json::Value {
    match a {
        JqAnswer::One(v) => serde_json::from_str(&v).unwrap(),
        other => panic!("unexpected {other:?}"),
    }
}

#[test]
fn tool_lad_jq_title_returns_string() {
    let out = one(lad_jq(".title", &input_value()).unwrap());
    assert_eq!(out, serde_json::Value::String("Login to Example".into()));
}

#[test]
fn tool_lad_jq_button_labels_returns_array() {
    let query = r#".elements | map(select(.kind == "button")) | map(.label)"#;
    let out = one(lad_jq(query, &input_value()).unwrap());
    assert_eq!(out, serde_json::from_str::<serde_json::Value>(r#"["Sign in", "Cancel"]"#).unwrap());
}

#[test]
fn tool_lad_jq_elements_length_returns_number() {
    let out = one(lad_jq(".elements | length", &input_value()).unwrap());
    assert_eq!(out, serde_json::from_str::<serde_json::Value>("4").unwrap());
}

#[test]
fn tool_lad_jq_parse_error_is_surfaced() {
    let result = lad_jq(".elements |", &input_value());
    assert!(result.is_err(), "syntax error should not silently succeed");
    assert!(result.unwrap_err().starts_with("jq query \".elements |\" failed: "));
}

#[test]
fn lad_jq_shapes_many_and_no_outputs() {
    assert!(matches!(lad_jq(".elements[].id", &input_value()).unwrap(), JqAnswer::Many(v) if v.len() == 4));
    assert!(matches!(lad_jq("empty", &input_value()).unwrap(), JqAnswer::Null));
}

#[test]
fn jq_fragment_and_input_depth_checks() {
    assert!(jq_query_supported(".title"));
    assert!(jq_query_supported(r#".elements | map(select(.kind == "button")) | map(.label)"#));
    assert!(jq_query_supported(r#"{title: .title, n: (.elements | length)}"#));
    assert!(jq_query_supported(r#"select(.x == "def now repeat")"#));
    assert!(!jq_query_supported("def f: f+1; f"));
    assert!(!jq_query_supported("repeat(1)"));
    assert!(!jq_query_supported("now"));
    assert!(!jq_query_supported("$ENV"));
    assert!(!jq_query_supported(r#""\(now)""#));
    assert!(!jq_query_supported(&"[".repeat(40)));
    assert!(jq_input_supported(&input_value()));
    assert!(!jq_input_supported(&"[".repeat(100_000)));
    assert!(jq_input_supported(r#"["[[[[[[[[[[[[[[[[[[[[[[[[[[[[[[[[[[[[[[[[[[[[[[[[[[[[[[[[[[[[[[[[[[[[[[[[[[[[[\"["]"#));
}
