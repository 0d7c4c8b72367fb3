use lad_core::observer::SemanticDiff;
use lad_core::semantic::{Element, ElementKind, PageState, SemanticView};
use lad_core::watch::{resource_uri, sanitize_uri, watch_tick, EventBuffer, WatchTick, EVENT_CAP};

fn note(n: &str) -> SemanticDiff {
    SemanticDiff { added: vec![], removed: vec![], changed: vec![], notifications: vec![n.to_string()] }
}

fn make_view(url: &str, elements: Vec<Element>) -> SemanticView {
    SemanticView {
        url: url.into(),
        title: "Test".into(),
        page_hint: "".into(),
        elements,
        forms: vec![],
        visible_text: "".into(),
        text_blocks: vec![],
        state: PageState::Ready,
        element_cap: None,
        blocked_reason: None,
        session_context: None,
        cards: None,
        cards_truncated: None,
    }
}

fn make_el(id: u32, label: &str, val: Option<&str>) -> Element {
    Element {
        id,
        kind: ElementKind::Input,
        label: label.into(),
        name: None,
        value: val.map(|s| s.to_string()),
        placeholder: None,
        href: None,
        input_type: None,
        disabled: false,
        form_index: None,
        context: None,
        hint: None,
        checked: None,
        options: None,
        frame_index: None,
        is_visible: None,
    }
}

#[test]
fn buffer_push_and_since() {
    let mut b = EventBuffer::new();
    assert!(b.is_empty());
    assert_eq!(b.push("https://a.com/?token=x", note("one")), 0);
    assert_eq!(b.push("https://a.com/", note("two")), 1);
    assert_eq!(b.len(), 2);
    assert_eq!(b.current_seq(), 2);
    let all = b.events_since(None);
    assert_eq!(all.len(), 2);
    assert_eq!(all[0].url, "https://a.com/?token=%5BREDACTED%5D");
    let later = b.events_since(Some(0));
    assert_eq!(later.len(), 1);
    assert_eq!(later[0].seq, 1);
    assert_eq!(later[0].diff.notifications, vec!["two".to_string()]);
    assert!(b.events_since(Some(1)).is_empty());
}

#[test]
fn buffer_drops_oldest_at_capacity() {
    let mut b = EventBuffer::new();
    for i in 0..(EVENT_CAP + 5) {
        b.push("https://a.com/", note(&format!("n{i}")));
    }
    assert_eq!(b.len(), EVENT_CAP);
    let all = b.events_since(None);
    assert_eq!(all[0].seq, 5);
    assert_eq!(all[EVENT_CAP - 1].seq, (EVENT_CAP + 4) as u64);
}

#[test]
fn uri_helpers() {
    assert_eq!(sanitize_uri("https://example.com/x"), "example.com/x");
    assert_eq!(sanitize_uri("http://http://a"), "a");
    assert_eq!(sanitize_uri("ftp://a"), "ftp://a");
    assert_eq!(resource_uri("https://a.com/cb?code=123"), "watch://a.com/cb?code=%5BREDACTED%5D");
}

#[test]
fn tick_records_changes_and_stops_on_unsafe_pages() {
    let mut b = EventBuffer::new();
    let last = make_view("https://a.com", vec![make_el(1, "Name", Some("x"))]);
    assert_eq!(watch_tick(&mut b, "https://a.com", &last, None), WatchTick::Skip);
    let same = make_view("https://a.com", vec![make_el(1, "Name", Some("x"))]);
    assert_eq!(watch_tick(&mut b, "https://a.com", &last, Some(&same)), WatchTick::Unchanged);
    let changed = make_view("https://a.com", vec![make_el(1, "Name", Some("y"))]);
    assert_eq!(watch_tick(&mut b, "https://a.com", &last, Some(&changed)), WatchTick::Recorded(0));
    assert_eq!(b.len(), 1);
    let unsafe_view = make_view("http://127.0.0.1/admin", vec![]);
    assert_eq!(watch_tick(&mut b, "https://a.com", &changed, Some(&unsafe_view)), WatchTick::Stop);
    assert_eq!(b.len(), 1);
}
