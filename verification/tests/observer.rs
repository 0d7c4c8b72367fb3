use lad_core::observer::diff;
use lad_core::semantic::{Element, ElementKind, PageState, SemanticView};

fn make_view(elements: Vec<Element>) -> SemanticView {
    SemanticView {
        url: "http://test".into(),
        title: "Test".into(),
        page_hint: "".into(),
        elements,
        forms: vec![],
        visible_text: "".into(),
        text_blocks: vec![],
        state: PageState::Ready,
        element_cap: None,
        blocked_reason: None,
        session_context: None,
        cards: None,
        cards_truncated: None,
    }
}

fn make_element(id: u32, label: &str, val: Option<&str>) -> Element {
    Element {
        id,
        kind: ElementKind::Input,
        label: label.into(),
        name: None,
        value: val.map(|s| s.to_string()),
        placeholder: None,
        href: None,
        input_type: None,
        disabled: false,
        form_index: None,
        context: None,
        hint: None,
        checked: None,
        options: None,
        frame_index: None,
        is_visible: None,
    }
}

#[test]
fn test_diff_semantics() {
    let old = make_view(vec![make_element(1, "E-mail", None)]);
    let new = make_view(vec![
        make_element(1, "E-mail", Some("test@example.com")),
        make_element(2, "Submit", None),
    ]);

    let d = diff(&old, &new);
    assert_eq!(d.added.len(), 1);
    assert_eq!(d.changed.len(), 1);
    assert_eq!(d.removed.len(), 0);
    assert_eq!(d.notifications.len(), 2);
}

#[test]
fn test_diff_removal_only() {
    let old = make_view(vec![
        make_element(1, "E-mail", None),
        make_element(2, "Submit", None),
    ]);
    let new = make_view(vec![make_element(1, "E-mail", None)]);

    let d = diff(&old, &new);
    assert_eq!(d.added.len(), 0, "nothing added");
    assert_eq!(d.changed.len(), 0, "nothing changed");
    assert_eq!(d.removed.len(), 1, "one element removed");
    assert_eq!(d.removed[0].id, 2, "removed element should be Submit");
    assert!(
        d.notifications.iter().any(|n| n.contains("removed")),
        "should notify about removal"
    );
}

#[test]
fn test_diff_empty_to_empty() {
    let old = make_view(vec![]);
    let new = make_view(vec![]);

    let d = diff(&old, &new);
    assert_eq!(d.added.len(), 0);
    assert_eq!(d.changed.len(), 0);
    assert_eq!(d.removed.len(), 0);
    assert!(
        d.notifications.is_empty(),
        "empty→empty should have no notifications"
    );
}

#[test]
fn test_diff_same_to_same() {
    let old = make_view(vec![
        make_element(1, "E-mail", Some("test@example.com")),
        make_element(2, "Submit", None),
    ]);
    let new = make_view(vec![
        make_element(1, "E-mail", Some("test@example.com")),
        make_element(2, "Submit", None),
    ]);

    let d = diff(&old, &new);
    assert_eq!(d.added.len(), 0, "identical views should have no additions");
    assert_eq!(d.changed.len(), 0, "identical views should have no changes");
    assert_eq!(d.removed.len(), 0, "identical views should have no removals");
    assert!(
        d.notifications.is_empty(),
        "identical views should have no notifications"
    );
}

#[test]
fn diff_notes_have_exact_wording() {
    let mut old_el = make_element(1, "Email", None);
    old_el.disabled = true;
    let mut old = make_view(vec![old_el, make_element(3, "Gone", None)]);
    old.visible_text = "short".into();
    let mut new = make_view(vec![
        make_element(1, "Email", Some("a@b.c")),
        make_element(2, "Submit", None),
    ]);
    new.title = "Next".into();
    new.visible_text = "a much longer visible text".into();

    let d = diff(&old, &new);
    assert_eq!(
        d.notifications,
        vec![
            "Text added to 'Email'".to_string(),
            "Element 'Email' enabled".to_string(),
            "New element appeared: 'Submit'".to_string(),
            "Element removed: 'Gone'".to_string(),
            "Visible text on page changed noticeably".to_string(),
            "Title changed to 'Next'".to_string(),
        ]
    );
    assert_eq!(d.changed.len(), 1);
    assert_eq!(d.changed[0].0.value, None);
    assert_eq!(d.changed[0].1.value.as_deref(), Some("a@b.c"));
    assert_eq!(d.added[0].label, "Submit");
    assert_eq!(d.removed[0].id, 3);
}

#[test]
fn diff_value_edit_and_disable() {
    let old = make_view(vec![make_element(1, "Name", Some("a"))]);
    let mut changed = make_element(1, "Name", Some("b"));
    changed.disabled = true;
    let new = make_view(vec![changed]);
    let d = diff(&old, &new);
    assert_eq!(
        d.notifications,
        vec!["Text changed in 'Name'".to_string(), "Element 'Name' disabled".to_string()]
    );
}

#[test]
fn diff_small_text_change_is_quiet() {
    let mut old = make_view(vec![]);
    old.visible_text = "hello".into();
    let mut new = make_view(vec![]);
    new.visible_text = "hello!".into();
    let d = diff(&old, &new);
    assert!(d.notifications.is_empty());
}

#[test]
fn diff_reversed_swaps_added_and_removed() {
    let a = make_view(vec![make_element(1, "One", None), make_element(2, "Two", None)]);
    let b = make_view(vec![make_element(2, "Two", None), make_element(3, "Three", None), make_element(4, "Four", None)]);
    let fwd = diff(&a, &b);
    let back = diff(&b, &a);
    let ids = |v: &Vec<Element>| v.iter().map(|e| e.id).collect::<Vec<u32>>();
    assert_eq!(ids(&fwd.added), vec![3, 4]);
    assert_eq!(ids(&fwd.added), ids(&back.removed));
    assert_eq!(ids(&fwd.removed), ids(&back.added));
    assert_eq!(ids(&back.added), vec![1]);
}
