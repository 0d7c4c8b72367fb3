use lad_core::semantic::{Element, ElementKind, PageState, SemanticView};

fn make_element(id: u32, label: &str, is_visible: Option<bool>) -> Element {
    Element {
        id,
        kind: ElementKind::Button,
        label: label.to_string(),
        name: None,
        value: None,
        placeholder: None,
        href: None,
        input_type: None,
        disabled: false,
        form_index: None,
        context: None,
        hint: None,
        checked: None,
        options: None,
        frame_index: None,
        is_visible,
    }
}

fn make_view(n: usize) -> SemanticView {
    SemanticView {
        url: "https://example.com".to_string(),
        title: "Test".to_string(),
        page_hint: "test".to_string(),
        elements: (0..n).map(|i| make_element(i as u32, &format!("btn-{i}"), None)).collect(),
        forms: vec![],
        visible_text: "Hello".to_string(),
        text_blocks: vec![],
        state: PageState::Ready,
        element_cap: None,
        blocked_reason: None,
        session_context: None,
        cards: None,
        cards_truncated: None,
    }
}

#[test]
fn paginate_page_0_returns_first_slice() {
    let view = make_view(120);
    let out = view.to_prompt_paginated(0, 50);
    assert!(out.starts_with("Page 1/3\n"), "header missing: {out}");
    assert!(out.contains("[0]"));
    assert!(out.contains("[49]"));
    assert!(!out.contains("[50]"));
}

#[test]
fn paginate_page_1_returns_middle_slice() {
    let view = make_view(120);
    let out = view.to_prompt_paginated(1, 50);
    assert!(out.starts_with("Page 2/3\n"), "header missing: {out}");
    assert!(out.contains("[50]"));
    assert!(out.contains("[99]"));
    assert!(!out.contains("[49]"));
    assert!(!out.contains("[100]"));
}

#[test]
fn paginate_page_2_returns_tail_slice() {
    let view = make_view(120);
    let out = view.to_prompt_paginated(2, 50);
    assert!(out.starts_with("Page 3/3\n"), "header missing: {out}");
    assert!(out.contains("[100]"));
    assert!(out.contains("[119]"));
    assert!(!out.contains("[99]"));
}

#[test]
fn paginate_page_3_is_empty_clamped() {
    let view = make_view(120);
    let out = view.to_prompt_paginated(3, 50);
    assert!(out.contains("Page 3/3"));
    assert!(!out.contains("[120]"));
}

#[test]
fn paginate_page_size_greater_than_total_returns_single_page() {
    let view = make_view(120);
    let out = view.to_prompt_paginated(0, 200);
    assert!(out.starts_with("Page 1/1\n"), "header missing: {out}");
    assert!(out.contains("[0]"));
    assert!(out.contains("[119]"));
}

#[test]
fn paginate_empty_view_returns_single_page_header() {
    let view = make_view(0);
    let out = view.to_prompt_paginated(0, 50);
    assert!(out.starts_with("Page 1/1\n"));
}

#[test]
fn paginate_size_zero_counts_as_one() {
    let view = make_view(3);
    let out = view.to_prompt_paginated(1, 0);
    assert!(out.starts_with("Page 2/3\n"));
    assert!(out.contains("[1] Button \"btn-1\"\n"));
    assert!(!out.contains("[0]"));
}

#[test]
fn to_prompt_exact_layout() {
    let mut view = make_view(2);
    view.elements[1].kind = ElementKind::Input;
    view.elements[1].input_type = Some("password".into());
    view.elements[1].name = Some("pw".into());
    view.elements[1].checked = Some(true);
    view.elements[1].options = Some(vec!["a".into(), "b\"c".into()]);
    view.elements[1].form_index = Some(0);
    view.elements[1].disabled = true;
    view.element_cap = Some("2/9".into());
    view.state = PageState::Blocked("captcha".into());
    let out = view.to_prompt();
    let expected = "URL: https://example.com/\nTITLE: Test\nHINT: test\nSTATE: Blocked(\"captcha\")\nELEMENT_CAP: 2/9\n\nELEMENTS: 2 (1 button, 1 input)\n[0] Button \"btn-0\"\n[1] Input type=password \"btn-1\" name=\"pw\" form=0 checked options=[\"a\", \"b\\\"c\"] [disabled]\n\nVISIBLE TEXT: Hello\n";
    assert_eq!(out, expected);
}

#[test]
fn to_prompt_redacts_url_secrets() {
    let mut view = make_view(0);
    view.url = "https://example.com/cb?code=abc&state=xyz#frag".into();
    let out = view.to_prompt();
    assert!(out.starts_with("URL: https://example.com/cb?code=%5BREDACTED%5D&state=xyz\n"), "{out}");
    assert!(out.contains("ELEMENTS: 0\n"));
}

#[test]
fn retain_visible_drops_hidden_keeps_none_and_true() {
    let mut view = make_view(0);
    view.elements = vec![
        make_element(1, "visible-none", None),
        make_element(2, "visible-true", Some(true)),
        make_element(3, "hidden", Some(false)),
        make_element(4, "also-hidden", Some(false)),
        make_element(5, "visible-again", None),
    ];
    view.retain_visible_elements();
    assert_eq!(view.elements.len(), 3);
    assert!(view.elements.iter().all(|e| e.is_visible != Some(false)));
    let labels: Vec<_> = view.elements.iter().map(|e| e.label.as_str()).collect();
    assert_eq!(labels, vec!["visible-none", "visible-true", "visible-again"]);
}

#[test]
fn retain_visible_noop_when_all_visible() {
    let mut view = make_view(5);
    view.retain_visible_elements();
    assert_eq!(view.elements.len(), 5);
}

#[test]
fn estimated_tokens_exact() {
    let view = make_view(1);
    // header: 19 + 4 + 4 + 50 = 77; element: 5 + 30 = 35; text: 5 -> 117 / 4
    assert_eq!(view.estimated_tokens(), 29);
}
