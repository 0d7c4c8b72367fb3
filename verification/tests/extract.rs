use lad_core::extract::apply_what_filter;
use lad_core::semantic::{Element, ElementKind, PageState, SemanticView};

fn make_button(id: u32, label: &str) -> Element {
    Element {
        id,
        kind: ElementKind::Button,
        label: label.to_string(),
        name: None,
        value: None,
        placeholder: None,
        href: None,
        input_type: None,
        disabled: false,
        form_index: None,
        context: None,
        hint: None,
        checked: None,
        options: None,
        frame_index: None,
        is_visible: None,
    }
}

fn content_heavy_fixture() -> SemanticView {
    let mut elements = vec![
        make_button(0, "Navigation Menu"),
        make_button(1, "Saved searches"),
        make_button(2, "Sign in"),
        make_button(3, "Sign up"),
        make_button(4, "Skip to content"),
    ];
    let mut install = make_button(10, "Install");
    install.href = Some("/browser-use#installation".into());
    elements.push(install);
    let mut stargazers = make_button(11, "Stargazers");
    stargazers.href = Some("/browser-use/stargazers".into());
    elements.push(stargazers);
    for i in 20..60 {
        elements.push(make_button(i, &format!("Folder item {i}")));
    }

    SemanticView {
        url: "https://github.com/browser-use/browser-use".to_string(),
        title: "browser-use/browser-use".to_string(),
        page_hint: "content page".to_string(),
        elements,
        forms: vec![],
        visible_text: "Navigation Menu Saved searches browser-use/browser-use Folders and files Latest commit History Repository files navigation Want to skip the setup?".to_string(),
        text_blocks: vec![
            "Navigation Menu".into(),
            "Saved searches".into(),
            "Folders and files".into(),
            "Latest commit".into(),
            "History".into(),
            "Repository files navigation".into(),
            "Make websites accessible for AI agents. Installation: pip install browser-use. Star count: 12k on GitHub.".into(),
            "Quick start: pip install browser-use && browser-use --help".into(),
            "Tagline: Open-source browser automation for LLM agents.".into(),
            "Contributors".into(),
            "Releases".into(),
            "Packages".into(),
            "Languages".into(),
            "Want to skip the setup?".into(),
        ],
        state: PageState::Ready,
        element_cap: None,
        blocked_reason: None,
        session_context: None,
        cards: None,
        cards_truncated: None,
    }
}

#[test]
fn apply_what_filter_empty_query_is_noop() {
    let mut view = content_heavy_fixture();
    let banner_before = view.visible_text.clone();
    let elements_before = view.elements.len();

    let relevant = apply_what_filter(&mut view, "", None, false);

    assert_eq!(relevant, 0, "empty query yields zero relevant count");
    assert_eq!(view.visible_text, banner_before, "banner unchanged");
    assert_eq!(
        view.elements.len(),
        elements_before,
        "element count unchanged"
    );
}

#[test]
fn apply_what_filter_rewrites_visible_text_with_matching_blocks() {
    let mut view = content_heavy_fixture();
    let banner_before = view.visible_text.clone();

    apply_what_filter(&mut view, "install star count", None, false);

    assert_ne!(
        view.visible_text, banner_before,
        "visible_text should be rewritten when text_blocks match"
    );
    let lower = view.visible_text.to_lowercase();
    assert!(
        lower.contains("install"),
        "install should surface: got {:?}",
        view.visible_text
    );
    assert!(
        lower.contains("star count"),
        "star count should surface: got {:?}",
        view.visible_text
    );
    assert!(
        !view.visible_text.contains("Navigation Menu Saved searches"),
        "noise banner should not dominate the rewritten visible_text"
    );
}

#[test]
fn apply_what_filter_promotes_relevant_elements() {
    let mut view = content_heavy_fixture();

    apply_what_filter(&mut view, "install star", None, false);

    let top_labels: Vec<&str> = view
        .elements
        .iter()
        .take(2)
        .map(|e| e.label.as_str())
        .collect();
    assert!(
        top_labels.contains(&"Install") || top_labels.contains(&"Stargazers"),
        "relevant elements should sort to the top, got: {top_labels:?}"
    );
}

#[test]
fn apply_what_filter_strict_drops_zero_score_elements() {
    let mut view = content_heavy_fixture();
    let elements_before = view.elements.len();

    let relevant = apply_what_filter(&mut view, "install star", None, true);

    assert_eq!(
        view.elements.len(),
        relevant,
        "strict mode keeps exactly the scored elements"
    );
    assert!(
        view.elements.len() < elements_before,
        "strict mode should shrink the inventory"
    );
    assert!(relevant > 0, "at least one element should match");
}

#[test]
fn apply_what_filter_no_match_preserves_banner() {
    let mut view = content_heavy_fixture();
    let banner_before = view.visible_text.clone();

    apply_what_filter(&mut view, "zebra tapeworm kombucha", None, false);

    assert_eq!(
        view.visible_text, banner_before,
        "zero-match query must not erase the banner — empty is worse \
         than noise when the query genuinely doesn't match"
    );
}

#[test]
fn apply_what_filter_no_text_blocks_falls_back_to_banner() {
    let mut view = content_heavy_fixture();
    view.text_blocks.clear(); // legacy view simulation
    let banner_before = view.visible_text.clone();

    apply_what_filter(&mut view, "install star", None, false);

    assert_eq!(
        view.visible_text, banner_before,
        "without text_blocks, scorer falls back to raw banner"
    );
}

#[test]
fn apply_what_filter_max_length_final_safety_cap() {
    let mut view = content_heavy_fixture();

    apply_what_filter(&mut view, "install star count", Some(50), false);

    assert!(
        view.visible_text.len() <= 50,
        "max_length must be honored as final byte cap, got {} bytes",
        view.visible_text.len()
    );
}

#[test]
fn apply_what_filter_ignores_single_char_tokens() {
    let mut view = content_heavy_fixture();
    let elements_before: Vec<u32> = view.elements.iter().map(|e| e.id).collect();

    apply_what_filter(&mut view, "a I", None, false);

    let elements_after: Vec<u32> = view.elements.iter().map(|e| e.id).collect();
    assert_eq!(
        elements_before, elements_after,
        "single-char tokens should not reorder elements"
    );
}

#[test]
fn apply_what_filter_case_insensitive() {
    let mut view = content_heavy_fixture();

    apply_what_filter(&mut view, "INSTALL STAR", None, false);

    let lower = view.visible_text.to_lowercase();
    assert!(
        lower.contains("install"),
        "case-insensitive match should surface install, got {:?}",
        view.visible_text
    );
}

#[test]
fn apply_what_filter_handles_unicode_blocks_without_panic() {
    let mut view = SemanticView {
        url: "https://example.com".into(),
        title: "Unicode".into(),
        page_hint: "".into(),
        elements: vec![],
        forms: vec![],
        visible_text: String::new(),
        text_blocks: vec![
            "install \u{200B}token\u{200D}".into(),
            "emoji 🚀 rocket install".into(),
            "rtl \u{202E}reversed install".into(),
            "installation guide here".into(),
        ],
        state: PageState::Ready,
        element_cap: None,
        blocked_reason: None,
        session_context: None,
        cards: None,
        cards_truncated: None,
    };
    apply_what_filter(&mut view, "install", Some(200), false);
    assert!(
        view.visible_text.to_lowercase().contains("install"),
        "expected install to surface: got {:?}",
        view.visible_text
    );
}

#[test]
fn apply_what_filter_prefers_longer_matching_block() {
    let mut view = SemanticView {
        url: "https://example.com".into(),
        title: "T".into(),
        page_hint: "".into(),
        elements: vec![],
        forms: vec![],
        visible_text: "short".into(),
        text_blocks: vec![
            "foo".into(),
            "detailed explanation of foo with all the context you need".into(),
        ],
        state: PageState::Ready,
        element_cap: None,
        blocked_reason: None,
        session_context: None,
        cards: None,
        cards_truncated: None,
    };
    apply_what_filter(&mut view, "foo", None, false);
    assert!(
        view.visible_text.contains("detailed explanation"),
        "tiebreak should prefer the longer block: got {:?}",
        view.visible_text
    );
}

fn plain_view(elements: Vec<Element>, blocks: Vec<&str>) -> SemanticView {
    SemanticView {
        url: "https://example.com".into(),
        title: "T".into(),
        page_hint: "".into(),
        elements,
        forms: vec![],
        visible_text: "banner".into(),
        text_blocks: blocks.into_iter().map(|b| b.to_string()).collect(),
        state: PageState::Ready,
        element_cap: None,
        blocked_reason: None,
        session_context: None,
        cards: None,
        cards_truncated: None,
    }
}

#[test]
fn apply_what_filter_exact_order_text_and_count() {
    let mut view = plain_view(
        vec![make_button(1, "alpha"), make_button(2, "beta gamma"), make_button(3, "gamma")],
        vec!["gamma only", "beta and gamma", "nothing"],
    );
    let relevant = apply_what_filter(&mut view, "Beta gamma", None, false);
    assert_eq!(relevant, 2);
    let ids: Vec<u32> = view.elements.iter().map(|e| e.id).collect();
    assert_eq!(ids, vec![2, 3, 1]);
    assert_eq!(view.visible_text, "beta and gamma … gamma only");
}

#[test]
fn apply_what_filter_strict_keeps_only_scored_in_order() {
    let mut view = plain_view(
        vec![make_button(1, "alpha"), make_button(2, "beta gamma"), make_button(3, "gamma")],
        vec![],
    );
    let relevant = apply_what_filter(&mut view, "beta gamma", Some(3), true);
    assert_eq!(relevant, 2);
    let ids: Vec<u32> = view.elements.iter().map(|e| e.id).collect();
    assert_eq!(ids, vec![2, 3]);
    assert_eq!(view.visible_text, "ban");
}

#[test]
fn apply_what_filter_cap_respects_char_boundaries() {
    let mut view = plain_view(vec![], vec![]);
    view.visible_text = "aé€".into();
    apply_what_filter(&mut view, "", Some(4), false);
    assert_eq!(view.visible_text, "aé");
}

use lad_core::extract::{page_bounds, resolve_extract_limit};

#[test]
fn extract_limit_explicit_wins_and_is_clamped() {
    assert_eq!(resolve_extract_limit(Some(5), false, "top 3"), (Some(5), false));
    assert_eq!(resolve_extract_limit(Some(500), false, ""), (Some(200), true));
    assert_eq!(resolve_extract_limit(Some(200), false, ""), (Some(200), false));
}

#[test]
fn extract_limit_zero_falls_through_to_the_query() {
    assert_eq!(resolve_extract_limit(Some(0), true, "Top 7 repos"), (Some(7), false));
    assert_eq!(resolve_extract_limit(None, true, "primeiros 3 itens"), (Some(3), false));
    assert_eq!(resolve_extract_limit(None, true, "best 900"), (Some(200), false));
    assert_eq!(resolve_extract_limit(None, true, "top 0"), (None, false));
    assert_eq!(resolve_extract_limit(None, false, "top 7"), (None, false));
    assert_eq!(resolve_extract_limit(None, true, "all repos"), (None, false));
    assert_eq!(resolve_extract_limit(None, true, ""), (None, false));
}

#[test]
fn page_bounds_clamp_to_the_last_page() {
    assert_eq!(page_bounds(10, 0, 4), (0, 4, 0, 3));
    assert_eq!(page_bounds(10, 2, 4), (8, 10, 2, 3));
    assert_eq!(page_bounds(10, 9, 4), (8, 10, 2, 3));
    assert_eq!(page_bounds(0, 3, 4), (0, 0, 0, 1));
    assert_eq!(page_bounds(3, 1, 0), (1, 2, 1, 3));
    assert_eq!(page_bounds(3, 0, 10), (0, 3, 0, 1));
}
