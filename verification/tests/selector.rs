use lad_core::selector::{extract_keywords, kind_to_aria_role, parse_kind, Selector};
use lad_core::semantic::ElementKind;

#[test]
fn parse_numeric_id() {
    assert!(matches!(Selector::parse("3"), Selector::Id(3)));
}

#[test]
fn parse_hash_id() {
    assert!(matches!(Selector::parse("#5"), Selector::Id(5)));
}

#[test]
fn parse_attribute() {
    let Selector::Attribute { attr, value } = Selector::parse("[name=email]") else {
        panic!("expected Attribute");
    };
    assert_eq!(attr, "name");
    assert_eq!(value, "email");
}

#[test]
fn parse_kind_label() {
    let Selector::KindAndLabel { kind, label_contains } = Selector::parse("button:Login") else {
        panic!("expected KindAndLabel");
    };
    assert_eq!(kind, Some(ElementKind::Button));
    assert_eq!(label_contains, "Login");
}

#[test]
fn parse_form_context() {
    let Selector::InForm { form_index, .. } = Selector::parse("submit button in form 0") else {
        panic!("expected InForm");
    };
    assert_eq!(form_index, 0);
}

#[test]
fn parse_natural() {
    assert!(matches!(Selector::parse("the login button"), Selector::Natural(_)));
}

#[test]
fn parse_trims_and_handles_quotes_and_signs() {
    assert!(matches!(Selector::parse("  +42  "), Selector::Id(42)));
    assert!(matches!(Selector::parse("4294967296"), Selector::Natural(_)));
    let Selector::Attribute { attr, value } = Selector::parse("[ type = \"password\" ]") else {
        panic!("expected Attribute");
    };
    assert_eq!(attr, "type");
    assert_eq!(value, "password");
    let Selector::KindAndLabel { kind, label_contains } = Selector::parse("BTN:Sign in") else {
        panic!("expected KindAndLabel");
    };
    assert_eq!(kind, Some(ElementKind::Button));
    assert_eq!(label_contains, "Sign in");
    let Selector::Natural(text) = Selector::parse("  weird:thing  ") else {
        panic!("expected Natural");
    };
    assert_eq!(text, "weird:thing");
}

#[test]
fn parse_nested_form_context() {
    let Selector::InForm { form_index, inner } = Selector::parse("#7 In Form 2") else {
        panic!("expected InForm");
    };
    assert_eq!(form_index, 2);
    assert!(matches!(*inner, Selector::Id(7)));
    assert!(matches!(Selector::parse("x in form y"), Selector::Natural(_)));
    assert!(matches!(Selector::parse("login in form 1"), Selector::InForm { form_index: 1, .. }));
}

#[test]
fn kinds_and_roles() {
    assert_eq!(parse_kind("Dropdown"), Some(ElementKind::Select));
    assert_eq!(parse_kind("a"), Some(ElementKind::Link));
    assert_eq!(parse_kind("span"), None);
    assert_eq!(kind_to_aria_role(ElementKind::Textarea), "textbox");
    assert_eq!(kind_to_aria_role(ElementKind::Select), "combobox");
    assert_eq!(kind_to_aria_role(ElementKind::Other), "generic");
}

#[test]
fn keywords_drop_stop_words() {
    assert_eq!(
        extract_keywords("the login button in the header"),
        vec!["login".to_string(), "button".to_string(), "header".to_string()]
    );
    assert!(extract_keywords("the a an").is_empty());
}

#[test]
fn parse_form_context_past_a_wide_lowercase() {
    match Selector::parse("İİ in form 0") {
        Selector::InForm { form_index, inner } => {
            assert_eq!(form_index, 0);
            assert!(matches!(*inner, Selector::Natural(ref t) if t == "İİ"));
        }
        other => panic!("unexpected {other:?}"),
    }
    match Selector::parse("input IN FORM 0") {
        Selector::InForm { form_index: 0, inner } => assert!(matches!(*inner, Selector::Natural(ref t) if t == "input")),
        other => panic!("unexpected {other:?}"),
    }
    assert!(matches!(Selector::parse("[type=\"password\"]"), Selector::Attribute { ref attr, ref value } if attr == "type" && value == "password"));
}
