use lad_core::assertions::{check_assertion, fuzzy_label_match, normalize_assertion};
use lad_core::semantic::{Element, ElementKind, PageState, SemanticView};

fn el(id: u32, kind: ElementKind, label: &str) -> Element {
    Element {
        id,
        kind,
        label: label.to_string(),
        name: None,
        value: None,
        placeholder: None,
        href: None,
        input_type: None,
        disabled: false,
        form_index: None,
        context: None,
        hint: None,
        checked: None,
        options: None,
        frame_index: None,
        is_visible: None,
    }
}

fn view(elements: Vec<Element>) -> SemanticView {
    SemanticView {
        url: "https://shop.example.com/cart".into(),
        title: "Your Cart".into(),
        page_hint: "login page".into(),
        elements,
        forms: vec![],
        visible_text: "Order Summary Checkout now".into(),
        text_blocks: vec![],
        state: PageState::Ready,
        element_cap: None,
        blocked_reason: None,
        session_context: None,
        cards: None,
        cards_truncated: None,
    }
}

#[test]
fn normalize_moves_kind_first() {
    assert_eq!(normalize_assertion("  Has Email Input "), "has input email");
    assert_eq!(normalize_assertion("has big red button"), "has button big red");
    assert_eq!(normalize_assertion("has input email"), "has input email");
    assert_eq!(normalize_assertion("has button link"), "has button link");
    assert_eq!(normalize_assertion("title contains Cart"), "title contains cart");
}

#[test]
fn fuzzy_label_ignores_icons_and_case() {
    assert!(fuzzy_label_match("Sign In →", "sign in"));
    assert!(fuzzy_label_match("Next»", "next"));
    assert!(fuzzy_label_match("Save", "SAVE"));
    assert!(!fuzzy_label_match("Cancel", "save"));
}

#[test]
fn page_level_assertions() {
    let mut pw = el(1, ElementKind::Input, "Password");
    pw.input_type = Some("password".into());
    let v = view(vec![pw]);
    assert!(check_assertion("has login form", &v, ""));
    assert!(check_assertion("has password", &v, ""));
    assert!(check_assertion("title contains \"cart\"", &v, ""));
    assert!(!check_assertion("title contains checkout", &v, ""));
    assert!(check_assertion("url contains /cart", &v, ""));
    assert!(check_assertion("text contains checkout", &v, ""));
    assert!(check_assertion("page contains extra", &v, "extra prompt text"));
    assert!(!check_assertion("text contains \"\"", &v, ""));
    assert!(check_assertion("page has section order summary", &v, ""));
    assert!(!check_assertion("has form", &v, ""));
    assert!(check_assertion("order checkout", &v, ""));
    assert!(!check_assertion("order refund", &v, ""));
}

#[test]
fn element_assertions() {
    let btn = el(1, ElementKind::Button, "Place Order ›");
    let mut link = el(2, ElementKind::Link, "Help");
    link.href = Some("/support/FAQ".into());
    let mut input = el(3, ElementKind::Input, "");
    input.name = Some("coupon_code".into());
    input.form_index = Some(0);
    let v = view(vec![btn, link, input]);
    assert!(check_assertion("has button place order", &v, ""));
    assert!(check_assertion("has place order button", &v, ""));
    assert!(!check_assertion("has button cancel", &v, ""));
    assert!(check_assertion("has link faq", &v, ""));
    assert!(check_assertion("has coupon input", &v, ""));
    assert!(!check_assertion("has input email", &v, ""));
    assert!(check_assertion("has form", &v, ""));
}
