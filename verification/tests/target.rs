use lad_core::target::{build_target_js, js_escape, TargetSpec, MATCHER_JS};

#[test]
fn is_populated_false_when_empty() {
    let spec = TargetSpec::default();
    assert!(!spec.is_populated());
}

#[test]
fn is_populated_true_when_role_set() {
    let spec = TargetSpec { role: Some("button".into()), ..Default::default() };
    assert!(spec.is_populated());
}

#[test]
fn nth_alone_is_not_populated() {
    let spec = TargetSpec { nth: Some(1), ..Default::default() };
    assert!(!spec.is_populated());
}

#[test]
fn to_js_object_renders_all_fields() {
    let spec = TargetSpec {
        role: Some("button".into()),
        text: Some("Post".into()),
        label: Some("Email".into()),
        testid: Some("tweetButton".into()),
        selector: Some("[data-test]".into()),
        within_text: Some("Compose".into()),
        nth: Some(2),
    };
    let js = spec.to_js_object();
    assert!(js.contains("role: 'button'"));
    assert!(js.contains("text: 'Post'"));
    assert!(js.contains("label: 'Email'"));
    assert!(js.contains("testid: 'tweetButton'"));
    assert!(js.contains("selector: '[data-test]'"));
    assert!(js.contains("within: 'Compose'"));
    assert!(js.contains("nth: 2"));
    assert_eq!(
        js,
        "{ role: 'button', text: 'Post', label: 'Email', testid: 'tweetButton', selector: '[data-test]', within: 'Compose', nth: 2 }"
    );
}

#[test]
fn to_js_object_escapes_quotes() {
    let spec = TargetSpec { text: Some("it's a button".into()), ..Default::default() };
    let js = spec.to_js_object();
    assert!(js.contains(r"it\'s a button"));
}

#[test]
fn empty_spec_renders_empty_object() {
    assert_eq!(TargetSpec::default().to_js_object(), "{  }");
}

#[test]
fn js_escape_handles_specials() {
    assert_eq!(js_escape("a\\b'c\"d\ne\rf\tg\u{2028}"), "a\\\\b\\'c\\\"d\\ne\\rf\\tg\\u2028");
}

#[test]
fn build_target_js_contains_matcher_and_spec() {
    let spec = TargetSpec { role: Some("button".into()), text: Some("Post".into()), ..Default::default() };
    let js = build_target_js(&spec, "el.click();");
    assert!(js.contains("__ladFindTarget"));
    assert!(js.contains("role: 'button'"));
    assert!(js.contains("el.click();"));
    assert!(js.contains(MATCHER_JS));
    assert!(js.starts_with("(() => {"));
    assert!(js.ends_with("})()"));
}
