use lad_core::pilot::{Action, DecisionSource, LearnConfig, Step as PilotStep};
use lad_core::playbook::{
    derive_url_pattern, element_selector_with_fallbacks, validate_playbook_name,
    extract_params, find_playbook, interpolate, is_secret_key, match_selector,
    match_step_selector, step_to_action, synthesize_from_history, synthesize_with_outcome,
    Params, Playbook, PlaybookStep, StepKind, SuccessSignal,
    SynthesizeError,
};
use lad_core::semantic::{Element, ElementKind, PageState, SemanticView};

fn sample_playbook() -> Playbook {
    Playbook {
        name: "github-login".into(),
        url_pattern: "github.com/login".into(),
        steps: vec![
            PlaybookStep {
                kind: StepKind::Type,
                selector: "Username or email address".into(),
                value: Some("${username}".into()),
                fallbacks: vec!["login_field".into(), "email".into()],
            },
            PlaybookStep {
                kind: StepKind::Type,
                selector: "Password".into(),
                value: Some("${password}".into()),
                fallbacks: vec!["password".into()],
            },
            PlaybookStep {
                kind: StepKind::Click,
                selector: "Sign in".into(),
                value: None,
                fallbacks: vec!["commit".into()],
            },
        ],
        params: vec!["username".into(), "password".into()],
        success: Some(SuccessSignal {
            url_contains: Some("github.com".into()),
            title_contains: Some("GitHub".into()),
        }),
    }
}

fn element(
    id: u32,
    kind: ElementKind,
    label: &str,
    name: Option<&str>,
    input_type: Option<&str>,
) -> Element {
    Element {
        id,
        kind,
        label: label.into(),
        name: name.map(|s| s.to_string()),
        value: None,
        placeholder: None,
        href: None,
        input_type: input_type.map(|s| s.to_string()),
        disabled: false,
        form_index: Some(0),
        context: None,
        hint: None,
        checked: None,
        options: None,
        frame_index: None,
        is_visible: None,
    }
}

fn sample_view() -> SemanticView {
    SemanticView {
        url: "https://github.com/login".into(),
        title: "Sign in to GitHub".into(),
        page_hint: "login page".into(),
        elements: vec![
            element(0, ElementKind::Input, "Username or email address", Some("login_field"), Some("text")),
            element(1, ElementKind::Input, "Password", Some("password"), Some("password")),
            element(2, ElementKind::Button, "Sign in", Some("commit"), Some("submit")),
        ],
        forms: vec![],
        visible_text: "Sign in to GitHub".into(),
        text_blocks: vec![],
        state: PageState::Ready,
        element_cap: None,
        blocked_reason: None,
        session_context: None,
        cards: None,
        cards_truncated: None,
    }
}

fn copy_view(v: &SemanticView) -> SemanticView {
    v.clone()
}

fn json_result(success: Option<bool>) -> serde_json::Value {
    let mut m = serde_json::Map::new();
    if let Some(b) = success {
        m.insert("success".to_string(), serde_json::Value::Bool(b));
    }
    serde_json::Value::Object(m)
}

fn synth_step(idx: u32, view: SemanticView, action: Action, source: DecisionSource) -> PilotStep {
    PilotStep { index: idx, observation: view, action, source }
}

fn done(success: Option<bool>) -> Action {
    Action::Done { result: json_result(success), reasoning: "".into() }
}

fn type_action(element: u32, value: &str) -> Action {
    Action::Type { element, value: value.into(), reasoning: "".into() }
}

fn click(element: u32) -> Action {
    Action::Click { element, reasoning: "".into() }
}

fn params_of(pairs: &[(&str, &str)]) -> Params {
    let mut p = Params::new();
    for (k, v) in pairs {
        p.insert(k.to_string(), v.to_string());
    }
    p
}

fn minimal_ok_history(view: SemanticView) -> Vec<PilotStep> {
    vec![synth_step(0, view, done(Some(true)), DecisionSource::Llm)]
}

// ── matching playbooks to URLs ───────────────────────────────────────

#[test]
fn test_playbook_match_url() {
    let playbooks = vec![sample_playbook()];
    let found = find_playbook(&playbooks, "https://github.com/login");
    assert!(found.is_some());
    assert_eq!(found.unwrap().name, "github-login");
}

#[test]
fn test_playbook_no_match() {
    let playbooks = vec![sample_playbook()];
    let found = find_playbook(&playbooks, "https://gitlab.com/login");
    assert!(found.is_none());
}

#[test]
fn find_playbook_path_prefix_respects_segment_boundary() {
    let playbooks = vec![sample_playbook()];
    let collision = find_playbook(&playbooks, "https://github.com/loginregister");
    assert!(
        collision.is_none(),
        "/login must NOT match /loginregister (segment-boundary violation)"
    );
    let sub = find_playbook(&playbooks, "https://github.com/login/oauth");
    assert!(
        sub.is_some(),
        "/login should still match /login/oauth as legitimate sub-segment"
    );
}

#[test]
fn test_playbook_match_substring() {
    let playbooks = vec![sample_playbook()];
    let found = find_playbook(&playbooks, "https://github.com/login?return_to=%2F");
    assert!(found.is_some());
}

#[test]
fn find_playbook_rejects_evil_subdomain() {
    let pb = Playbook {
        name: "gh".into(),
        url_pattern: "github.com/login".into(),
        steps: vec![],
        params: vec![],
        success: None,
    };
    let playbooks = vec![pb];
    assert!(find_playbook(&playbooks, "https://evilgithub.com/login").is_none());
    assert!(find_playbook(&playbooks, "https://evil.github.com.evil.tld/login").is_none());
}

#[test]
fn find_playbook_rejects_host_suffix_attack() {
    let pb = Playbook {
        name: "gh-root".into(),
        url_pattern: "github.com".into(),
        steps: vec![],
        params: vec![],
        success: None,
    };
    let playbooks = vec![pb];
    assert!(find_playbook(&playbooks, "https://fakegithub.com/").is_none());
    assert!(find_playbook(&playbooks, "https://github.com/").is_some());
}

#[test]
fn find_playbook_host_is_case_insensitive_and_unparseable_url_matches_nothing() {
    let playbooks = vec![sample_playbook()];
    assert!(find_playbook(&playbooks, "https://GitHub.com/login").is_some());
    assert!(find_playbook(&playbooks, "not a url").is_none());
}

// ── interpolation ────────────────────────────────────────────────────

#[test]
fn test_interpolate_single_param() {
    let params = params_of(&[("username", "alice")]);
    assert_eq!(interpolate("${username}", &params), "alice");
}

#[test]
fn test_interpolate_multiple_params() {
    let params = params_of(&[("username", "alice"), ("password", "s3cret")]);
    assert_eq!(
        interpolate("user=${username}&pw=${password}", &params),
        "user=alice&pw=s3cret"
    );
}

#[test]
fn test_interpolate_unknown_param_preserved() {
    let params = Params::new();
    assert_eq!(interpolate("${unknown}", &params), "${unknown}");
}

#[test]
fn interpolate_replaces_every_occurrence() {
    let params = params_of(&[("a", "x")]);
    assert_eq!(interpolate("${a}-${a}-${b}", &params), "x-x-${b}");
}

#[test]
fn params_insert_overwrites_existing_key() {
    let mut p = params_of(&[("k", "1"), ("j", "2")]);
    p.insert("k".into(), "3".into());
    assert_eq!(p.len(), 2);
    assert_eq!(p.get("k"), Some(&"3".to_string()));
    assert_eq!(p.get("j"), Some(&"2".to_string()));
    assert_eq!(p.get("z"), None);
}

// ── parameter extraction ─────────────────────────────────────────────

#[test]
fn test_extract_params_from_goal() {
    let params = extract_params(
        "login as alice@test.com password s3cret",
        &["username".into(), "password".into()],
    );
    assert_eq!(params.get("username"), Some(&"alice@test.com".into()));
    assert_eq!(params.get("password"), Some(&"s3cret".into()));
}

#[test]
fn extract_params_preserves_case_sensitive_password() {
    let params = extract_params("log in as Alice password Hunter2", &["password".into()]);
    assert_eq!(params.get("password"), Some(&"Hunter2".to_string()));
}

#[test]
fn extract_params_key_matching_is_case_insensitive() {
    let params = extract_params("log in as alice PASSWORD secret", &["password".into()]);
    assert_eq!(params.get("password"), Some(&"secret".to_string()));
}

#[test]
fn extract_params_other_names_and_missing_values() {
    let params = extract_params("search for city Paris", &["city".into(), "zip".into()]);
    assert_eq!(params.get("city"), Some(&"Paris".to_string()));
    assert_eq!(params.get("zip"), None);
}

#[test]
fn extract_params_falls_back_to_lowercased_token() {
    // Two spaces after the keyword: the case-preserving path finds no
    // token right after it; the lower-cased fallback skips the blank.
    let params = extract_params("password  Hunter2", &["password".into()]);
    assert_eq!(params.get("password"), Some(&"hunter2".to_string()));
}

// ── secret keys ──────────────────────────────────────────────────────

#[test]
fn secret_key_pattern_matches_credential_names() {
    assert!(is_secret_key("password"));
    assert!(is_secret_key("API-KEY"));
    assert!(is_secret_key("api_key"));
    assert!(is_secret_key("bearerToken"));
    assert!(!is_secret_key("email"));
    assert!(!is_secret_key("username"));
}

// ── selectors and step conversion ────────────────────────────────────

#[test]
fn test_selector_matches_by_input_type() {
    let view = sample_view();
    assert_eq!(match_selector(&view, "password"), Some(1));
}

#[test]
fn test_selector_matches_by_name() {
    let view = sample_view();
    assert_eq!(match_selector(&view, "login_field"), Some(0));
}

#[test]
fn selector_exact_label_wins_over_contains() {
    let view = sample_view();
    assert_eq!(match_selector(&view, "SIGN IN"), Some(2));
    assert_eq!(match_selector(&view, "email"), Some(0));
    assert_eq!(match_selector(&view, "nothing"), None);
}

#[test]
fn test_step_to_action_type() {
    let view = sample_view();
    let step = PlaybookStep {
        kind: StepKind::Type,
        selector: "Username or email address".into(),
        value: Some("${username}".into()),
        fallbacks: vec![],
    };
    let params = params_of(&[("username", "alice")]);
    match step_to_action(&view, &step, &params).unwrap() {
        Action::Type { element, value, .. } => {
            assert_eq!(element, 0);
            assert_eq!(value, "alice");
        }
        _ => panic!("expected Type"),
    }
}

#[test]
fn test_step_to_action_click() {
    let view = sample_view();
    let step = PlaybookStep {
        kind: StepKind::Click,
        selector: "Sign in".into(),
        value: None,
        fallbacks: vec![],
    };
    let params = Params::new();
    match step_to_action(&view, &step, &params).unwrap() {
        Action::Click { element, reasoning } => {
            assert_eq!(element, 2);
            assert_eq!(reasoning, "playbook: click \"Sign in\"");
        }
        _ => panic!("expected Click"),
    }
}

#[test]
fn test_step_to_action_with_fallback() {
    let view = sample_view();
    let step = PlaybookStep {
        kind: StepKind::Type,
        selector: "nonexistent".into(),
        value: Some("s3cret".into()),
        fallbacks: vec!["password".into()],
    };
    let params = Params::new();
    match step_to_action(&view, &step, &params).unwrap() {
        Action::Type { element, value, .. } => {
            assert_eq!(element, 1);
            assert_eq!(value, "s3cret");
        }
        _ => panic!("expected Type"),
    }
}

#[test]
fn test_step_to_action_no_match_returns_none() {
    let view = sample_view();
    let step = PlaybookStep {
        kind: StepKind::Click,
        selector: "totally nonexistent button".into(),
        value: None,
        fallbacks: vec![],
    };
    let params = Params::new();
    assert!(step_to_action(&view, &step, &params).is_none());
}

#[test]
fn test_step_select_action() {
    let mut view = sample_view();
    view.elements.push(element(3, ElementKind::Select, "Country", Some("country"), None));
    let step = PlaybookStep {
        kind: StepKind::Select,
        selector: "Country".into(),
        value: Some("BR".into()),
        fallbacks: vec![],
    };
    let params = Params::new();
    match step_to_action(&view, &step, &params).unwrap() {
        Action::Select { element, value, .. } => {
            assert_eq!(element, 3);
            assert_eq!(value, "BR");
        }
        _ => panic!("expected Select"),
    }
}

#[test]
fn navigate_step_becomes_scroll_with_reason() {
    let view = sample_view();
    let step = PlaybookStep {
        kind: StepKind::Navigate,
        selector: "https://x.test/${p}".into(),
        value: None,
        fallbacks: vec![],
    };
    let params = params_of(&[("p", "home")]);
    match step_to_action(&view, &step, &params).unwrap() {
        Action::Scroll { direction, reasoning } => {
            assert_eq!(direction, "down");
            assert_eq!(reasoning, "playbook: navigate to https://x.test/home (not yet implemented)");
        }
        _ => panic!("expected Scroll"),
    }
}

#[test]
fn match_step_selector_uses_fallbacks_in_order() {
    let view = sample_view();
    let step = PlaybookStep {
        kind: StepKind::Click,
        selector: "missing".into(),
        value: None,
        fallbacks: vec!["also missing".into(), "commit".into(), "password".into()],
    };
    assert_eq!(match_step_selector(&view, &step), Some(2));
}

// ── synthesis ────────────────────────────────────────────────────────

#[test]
fn synthesize_empty_history_fails() {
    let params = Params::new();
    let err = synthesize_from_history(&[], "some goal", "https://example.com/login", &params, None)
        .unwrap_err();
    assert!(matches!(err, SynthesizeError::EmptyHistory));
}

#[test]
fn synthesize_without_completion_fails() {
    let view = sample_view();
    let history = vec![synth_step(
        0,
        view,
        Action::Click { element: 2, reasoning: "test".into() },
        DecisionSource::Heuristic,
    )];
    let params = Params::new();
    let err = synthesize_from_history(&history, "login", "https://github.com/login", &params, None)
        .unwrap_err();
    assert!(matches!(err, SynthesizeError::NoCompletion));
}

#[test]
fn synthesize_basic_login() {
    let view = sample_view();
    let params = params_of(&[("email", "octocat"), ("password", "hunter2")]);
    let history = vec![
        synth_step(0, copy_view(&view), type_action(0, "octocat"), DecisionSource::Heuristic),
        synth_step(1, copy_view(&view), type_action(1, "hunter2"), DecisionSource::Heuristic),
        synth_step(2, copy_view(&view), click(2), DecisionSource::Heuristic),
        synth_step(3, view, done(Some(true)), DecisionSource::Llm),
    ];
    let pb = synthesize_from_history(
        &history,
        "login as octocat with password hunter2",
        "https://github.com/login",
        &params,
        Some("github-login"),
    )
    .unwrap();
    assert_eq!(pb.name, "github-login");
    assert_eq!(pb.url_pattern, "github.com/login");
    assert_eq!(pb.steps.len(), 3);
    assert_eq!(pb.steps[0].kind, StepKind::Type);
    assert_eq!(pb.steps[1].kind, StepKind::Type);
    assert_eq!(pb.steps[2].kind, StepKind::Click);
    assert_eq!(pb.params, vec!["email", "password"]);
}

#[test]
fn synthesize_interpolates_params() {
    let view = sample_view();
    let params = params_of(&[("email", "octocat"), ("password", "hunter2")]);
    let history = vec![
        synth_step(0, copy_view(&view), type_action(0, "octocat"), DecisionSource::Heuristic),
        synth_step(1, copy_view(&view), type_action(1, "hunter2"), DecisionSource::Heuristic),
        synth_step(2, view, done(Some(true)), DecisionSource::Llm),
    ];
    let pb = synthesize_from_history(&history, "login", "https://github.com/login", &params, Some("pb"))
        .unwrap();
    assert_eq!(pb.steps[0].value.as_deref(), Some("${email}"));
    assert_eq!(pb.steps[1].value.as_deref(), Some("${password}"));
}

#[test]
fn synthesize_derives_name_from_goal() {
    let view = sample_view();
    let history = vec![
        synth_step(0, copy_view(&view), click(2), DecisionSource::Heuristic),
        synth_step(1, view, done(Some(true)), DecisionSource::Llm),
    ];
    let params = Params::new();
    let pb = synthesize_from_history(
        &history,
        "Login as alice with password",
        "https://example.com/login",
        &params,
        None,
    )
    .unwrap();
    assert!(
        pb.name.contains("login"),
        "expected derived name to contain 'login', got: {}",
        pb.name
    );
    assert_eq!(pb.name, "login_as_alice");
}

#[test]
fn synthesize_invalid_url_fails() {
    let view = sample_view();
    let history = minimal_ok_history(view);
    let params = Params::new();
    let err = synthesize_from_history(&history, "login", "", &params, Some("pb")).unwrap_err();
    assert!(matches!(err, SynthesizeError::InvalidUrl(_)));
}

#[test]
fn synthesize_name_derivation_failed_on_empty_goal() {
    let view = sample_view();
    let history = minimal_ok_history(view);
    let params = Params::new();
    let err = synthesize_from_history(&history, "", "https://example.com/login", &params, None)
        .unwrap_err();
    assert!(matches!(err, SynthesizeError::NameDerivationFailed));
}

#[test]
fn synthesize_skips_scroll_and_escalate() {
    let view = sample_view();
    let history = vec![
        synth_step(
            0,
            copy_view(&view),
            Action::Scroll { direction: "down".into(), reasoning: "".into() },
            DecisionSource::Heuristic,
        ),
        synth_step(1, copy_view(&view), click(2), DecisionSource::Heuristic),
        synth_step(2, view, done(Some(true)), DecisionSource::Llm),
    ];
    let params = Params::new();
    let pb = synthesize_from_history(&history, "login", "https://example.com/login", &params, Some("pb"))
        .unwrap();
    assert_eq!(pb.steps.len(), 1);
    assert_eq!(pb.steps[0].kind, StepKind::Click);
}

#[test]
fn synthesize_rejects_done_with_success_false() {
    let view = sample_view();
    let history = vec![synth_step(0, view, done(Some(false)), DecisionSource::Heuristic)];
    let params = Params::new();
    let err = synthesize_from_history(&history, "login", "https://example.com/login", &params, Some("pb"))
        .unwrap_err();
    assert!(matches!(err, SynthesizeError::RunNotSuccessful));
}

#[test]
fn synthesize_rejects_done_with_missing_success_field() {
    let view = sample_view();
    let history = vec![synth_step(0, view, done(None), DecisionSource::Heuristic)];
    let params = Params::new();
    let err = synthesize_from_history(&history, "login", "https://example.com/login", &params, Some("pb"))
        .unwrap_err();
    assert!(matches!(err, SynthesizeError::RunNotSuccessful));
}

#[test]
fn templatize_errors_when_secret_not_substituted() {
    let view = sample_view();
    let history = vec![
        synth_step(0, copy_view(&view), type_action(1, "something_else"), DecisionSource::Heuristic),
        synth_step(1, view, done(Some(true)), DecisionSource::Llm),
    ];
    let params = params_of(&[("password", "s3cret")]);
    let err = synthesize_from_history(&history, "login", "https://example.com/login", &params, Some("pb"))
        .unwrap_err();
    match err {
        SynthesizeError::SecretNotTemplatized { key } => assert_eq!(key, "password"),
        _ => panic!("expected SecretNotTemplatized"),
    }
}

#[test]
fn templatize_allows_non_secret_key_without_match() {
    let view = sample_view();
    let history = vec![
        synth_step(0, copy_view(&view), type_action(0, "unrelated"), DecisionSource::Heuristic),
        synth_step(1, view, done(Some(true)), DecisionSource::Llm),
    ];
    let params = params_of(&[("email", "alice@test.com")]);
    let pb = synthesize_from_history(&history, "login", "https://example.com/login", &params, Some("pb"))
        .expect("non-secret non-matching key should not fail");
    assert!(pb.steps.iter().any(|s| s.kind == StepKind::Type));
}

#[test]
fn templatize_shape_guard_skips_short_secret_values() {
    let view = sample_view();
    let history = vec![
        synth_step(0, copy_view(&view), type_action(0, "abc"), DecisionSource::Heuristic),
        synth_step(1, view, done(Some(true)), DecisionSource::Llm),
    ];
    let params = params_of(&[("password", "abc")]);
    let pb = synthesize_from_history(
        &history,
        "log in with password abc",
        "https://example.com/login",
        &params,
        Some("short_pw"),
    )
    .expect("short secret should templatize via substitution path and skip shape guard");
    assert!(pb.steps.iter().any(|s| s.kind == StepKind::Type));
}

#[test]
fn shape_guard_rejects_secret_left_in_selector() {
    // The secret was substituted in the typed value, but it also is the
    // label of the element, so the recorded selector still shows it.
    let mut view = sample_view();
    view.elements[1].label = "hunter22".into();
    let history = vec![
        synth_step(0, copy_view(&view), type_action(1, "hunter22"), DecisionSource::Heuristic),
        synth_step(1, view, done(Some(true)), DecisionSource::Llm),
    ];
    let params = params_of(&[("password", "hunter22")]);
    let err = synthesize_from_history(&history, "login", "https://example.com/login", &params, Some("pb"))
        .unwrap_err();
    assert!(matches!(err, SynthesizeError::SecretNotTemplatized { .. }));
}

#[test]
fn reject_name_with_slash() {
    let history = minimal_ok_history(sample_view());
    let params = Params::new();
    let err = synthesize_from_history(&history, "login", "https://example.com/login", &params, Some("subdir/escape"))
        .unwrap_err();
    match err {
        SynthesizeError::InvalidName { reason, .. } => assert!(reason.contains("'/'")),
        _ => panic!("expected InvalidName"),
    }
}

#[test]
fn reject_name_with_parent_traversal() {
    let history = minimal_ok_history(sample_view());
    let params = Params::new();
    let err = synthesize_from_history(&history, "login", "https://example.com/login", &params, Some("foo..bar"))
        .unwrap_err();
    match err {
        SynthesizeError::InvalidName { reason, .. } => assert!(reason.contains("..")),
        _ => panic!("expected InvalidName"),
    }
}

#[test]
fn reject_name_starting_with_dot() {
    let history = minimal_ok_history(sample_view());
    let params = Params::new();
    let err = synthesize_from_history(&history, "login", "https://example.com/login", &params, Some(".hidden"))
        .unwrap_err();
    match err {
        SynthesizeError::InvalidName { reason, .. } => assert!(reason.contains("'.'")),
        _ => panic!("expected InvalidName"),
    }
}

#[test]
fn reject_empty_name() {
    assert!(validate_playbook_name("").is_err());
}

#[test]
fn blank_explicit_name_falls_back_to_goal() {
    // A blank explicit name falls back to the goal; an empty goal then
    // yields no name at all.
    let history = minimal_ok_history(sample_view());
    let params = Params::new();
    let err = synthesize_from_history(&history, "", "https://example.com/login", &params, Some("   "))
        .unwrap_err();
    assert!(matches!(err, SynthesizeError::NameDerivationFailed));
}

#[test]
fn reject_very_long_name() {
    let long = "x".repeat(129);
    let history = minimal_ok_history(sample_view());
    let params = Params::new();
    let err = synthesize_from_history(&history, "login", "https://example.com/login", &params, Some(&long))
        .unwrap_err();
    match err {
        SynthesizeError::InvalidName { name, reason } => {
            assert!(reason.contains("128"));
            assert_eq!(name, long);
        }
        _ => panic!("expected InvalidName"),
    }
}

#[test]
fn url_pattern_includes_two_path_segments() {
    let pat = derive_url_pattern("https://github.com/owner/repo/settings/actions").unwrap();
    assert_eq!(pat, "github.com/owner/repo");
}

#[test]
fn synthesized_pattern_keeps_two_segments() {
    let history = minimal_ok_history(sample_view());
    let params = Params::new();
    let pb = synthesize_from_history(
        &history,
        "login",
        "https://github.com/owner/repo/settings/actions",
        &params,
        Some("pb"),
    )
    .unwrap();
    assert_eq!(pb.url_pattern, "github.com/owner/repo");
}

#[test]
fn url_pattern_distinguishes_settings_from_issues() {
    let a = derive_url_pattern("https://github.com/owner/repo/settings").unwrap();
    let b = derive_url_pattern("https://github.com/owner/repo/issues").unwrap();
    assert_eq!(a, "github.com/owner/repo");
    assert_eq!(b, "github.com/owner/repo");
}

#[test]
fn synthesized_patterns_share_repo_prefix() {
    let params = Params::new();
    let a = synthesize_from_history(
        &minimal_ok_history(sample_view()),
        "login",
        "https://github.com/owner/repo/settings",
        &params,
        Some("pb"),
    )
    .unwrap();
    let b = synthesize_from_history(
        &minimal_ok_history(sample_view()),
        "login",
        "https://github.com/owner/repo/issues",
        &params,
        Some("pb"),
    )
    .unwrap();
    assert_eq!(a.url_pattern, "github.com/owner/repo");
    assert_eq!(b.url_pattern, "github.com/owner/repo");
}

#[test]
fn url_pattern_is_host_without_path_and_needs_a_host() {
    let params = Params::new();
    let pb = synthesize_from_history(
        &minimal_ok_history(sample_view()),
        "login",
        "https://example.com",
        &params,
        Some("pb"),
    )
    .unwrap();
    assert_eq!(pb.url_pattern, "example.com");
    let err = synthesize_from_history(
        &minimal_ok_history(sample_view()),
        "login",
        "mailto:someone@example.com",
        &params,
        Some("pb"),
    )
    .unwrap_err();
    match err {
        SynthesizeError::InvalidUrl(m) => assert_eq!(m, "no host in mailto:someone@example.com"),
        _ => panic!("expected InvalidUrl"),
    }
}

#[test]
fn element_selector_returns_name_fallback() {
    let view = sample_view();
    let (primary, fallbacks) = element_selector_with_fallbacks(&view, 2).unwrap();
    assert_eq!(primary, "Sign in");
    assert!(
        fallbacks.iter().any(|f| f == "name=commit"),
        "expected name=commit fallback, got {fallbacks:?}"
    );
}

#[test]
fn element_selector_falls_back_to_name_then_type() {
    let mut view = sample_view();
    view.elements[0].label = "   ".into();
    let (primary, fallbacks) = element_selector_with_fallbacks(&view, 0).unwrap();
    assert_eq!(primary, "login_field");
    assert_eq!(fallbacks, vec!["type=text".to_string()]);
    view.elements[0].name = None;
    let (primary, fallbacks) = element_selector_with_fallbacks(&view, 0).unwrap();
    assert_eq!(primary, "text");
    assert!(fallbacks.is_empty());
    view.elements[0].input_type = None;
    assert!(element_selector_with_fallbacks(&view, 0).is_none());
    assert!(element_selector_with_fallbacks(&view, 42).is_none());
}

#[test]
fn synthesized_click_records_label_and_fallbacks() {
    // Element 2 has label "Sign in" and name "commit": the recorded step
    // uses the label and falls back to the name and the type.
    let view = sample_view();
    let history = vec![
        synth_step(0, copy_view(&view), click(2), DecisionSource::Heuristic),
        synth_step(1, view, done(Some(true)), DecisionSource::Llm),
    ];
    let params = Params::new();
    let pb = synthesize_from_history(&history, "login", "https://example.com/login", &params, Some("pb"))
        .unwrap();
    assert_eq!(pb.steps[0].selector, "Sign in");
    assert!(pb.steps[0].fallbacks.iter().any(|f| f == "name=commit"));
    assert_eq!(pb.steps[0].fallbacks, vec!["name=commit".to_string(), "type=submit".to_string()]);
}

#[test]
fn synthesized_step_has_nonempty_fallbacks_when_available() {
    let view = sample_view();
    let params = params_of(&[("email", "octocat")]);
    let history = vec![
        synth_step(0, copy_view(&view), type_action(0, "octocat"), DecisionSource::Heuristic),
        synth_step(1, view, done(Some(true)), DecisionSource::Llm),
    ];
    let pb = synthesize_from_history(&history, "login", "https://example.com/login", &params, Some("pb"))
        .unwrap();
    assert!(!pb.steps[0].fallbacks.is_empty());
}

#[test]
fn synthesized_success_signal_from_final_view() {
    let mut view = sample_view();
    view.url = "https://github.com/dashboard".into();
    view.title = "Dashboard".into();
    let history = minimal_ok_history(view);
    let params = Params::new();
    let pb = synthesize_from_history(&history, "login", "https://github.com/login", &params, Some("pb"))
        .unwrap();
    let s = pb.success.unwrap();
    assert_eq!(s.url_contains.as_deref(), Some("github.com"));
    assert_eq!(s.title_contains.as_deref(), Some("Dashboard"));
}

#[test]
fn synthesize_with_outcome_takes_the_outcome_as_given() {
    let params = Params::new();
    let err = synthesize_with_outcome(
        &minimal_ok_history(sample_view()),
        false,
        "login",
        "https://example.com/login",
        &params,
        Some("pb"),
    )
    .unwrap_err();
    assert!(matches!(err, SynthesizeError::RunNotSuccessful));
    let pb = synthesize_with_outcome(
        &minimal_ok_history(sample_view()),
        true,
        "login",
        "https://example.com/login",
        &params,
        Some("  pb  "),
    )
    .unwrap();
    assert_eq!(pb.name, "pb");
}

// ── learning configuration ───────────────────────────────────────────

#[test]
fn learn_config_new_sets_default_dir() {
    let lc = LearnConfig::new(Some("pb".into()), Default::default());
    assert_eq!(lc.output_dir, std::path::PathBuf::from(".lad/playbooks"));
    assert_eq!(lc.name.as_deref(), Some("pb"));
}

#[test]
fn learned_pattern_is_found_again_for_its_url() {
    for url in [
        "https://github.com/login",
        "https://GitHub.com/owner/repo/settings?tab=1",
        "https://example.com/",
        "https://example.com/a/b/",
    ] {
        let mut pb = sample_playbook();
        pb.url_pattern = derive_url_pattern(url).unwrap();
        let playbooks = vec![pb];
        assert!(find_playbook(&playbooks, url).is_some(), "{url}");
    }
}

#[test]
fn playbook_action_replays_first_step_not_acted_on() {
    let playbooks = vec![sample_playbook()];
    let view = sample_view();
    let goal = "login as alice@example.com password hunter2";
    match lad_core::decide::playbook_action(&view, goal, &[], &playbooks) {
        Some(Action::Type { element, value, .. }) => {
            assert_eq!(element, 0);
            assert_eq!(value, "alice@example.com");
        }
        other => panic!("unexpected {other:?}"),
    }
    match lad_core::decide::playbook_action(&view, goal, &[0], &playbooks) {
        Some(Action::Type { element, value, .. }) => {
            assert_eq!(element, 1);
            assert_eq!(value, "hunter2");
        }
        other => panic!("unexpected {other:?}"),
    }
    match lad_core::decide::playbook_action(&view, goal, &[0, 1], &playbooks) {
        Some(Action::Click { element, .. }) => assert_eq!(element, 2),
        other => panic!("unexpected {other:?}"),
    }
    assert!(lad_core::decide::playbook_action(&view, goal, &[0, 1, 2], &playbooks).is_none());
    let mut elsewhere = sample_view();
    elsewhere.url = "https://gitlab.com/login".into();
    assert!(lad_core::decide::playbook_action(&elsewhere, goal, &[], &playbooks).is_none());
}

#[test]
fn learned_step_values_interpolate_back_to_the_recorded_ones() {
    let view = sample_view();
    let params = params_of(&[("password", "hunter2")]);
    let history = vec![
        synth_step(0, copy_view(&view), type_action(1, "pre-hunter2-post"), DecisionSource::Heuristic),
        synth_step(1, view, done(Some(true)), DecisionSource::Llm),
    ];
    let pb = synthesize_from_history(&history, "log in", "https://github.com/login", &params, Some("round-trip"))
        .unwrap();
    let templ = pb.steps[0].value.clone().unwrap();
    assert_eq!(templ, "pre-${password}-post");
    assert_eq!(interpolate(&templ, &params), "pre-hunter2-post");
}

#[test]
fn synthesize_requires_the_run_to_end_with_done() {
    let view = sample_view();
    let params = params_of(&[]);
    let history = vec![
        synth_step(0, copy_view(&view), done(Some(true)), DecisionSource::Llm),
        synth_step(1, view, click(2), DecisionSource::Heuristic),
    ];
    let err = synthesize_from_history(&history, "login", "https://example.com/login", &params, Some("pb"))
        .unwrap_err();
    assert!(matches!(err, SynthesizeError::NoCompletion));
}

#[test]
fn synthesize_treats_missing_success_as_failure() {
    let view = sample_view();
    let params = params_of(&[]);
    let history = vec![synth_step(0, view, done(None), DecisionSource::Llm)];
    let err = synthesize_from_history(&history, "login", "https://example.com/login", &params, Some("pb"))
        .unwrap_err();
    assert!(matches!(err, SynthesizeError::RunNotSuccessful));
}

#[test]
fn recorded_attribute_fallbacks_refind_a_drifted_button() {
    let mut v = sample_view();
    v.elements[2].label = "Log in".into();
    let step = PlaybookStep {
        kind: StepKind::Click,
        selector: "Sign in".into(),
        value: None,
        fallbacks: vec!["name=commit".into(), "type=submit".into()],
    };
    assert_eq!(match_step_selector(&v, &step), Some(2));
    let by_type = PlaybookStep { fallbacks: vec!["type=submit".into()], ..step.clone() };
    assert_eq!(match_step_selector(&v, &by_type), Some(2));
    let missing = PlaybookStep { fallbacks: vec!["name=nothing".into()], ..step };
    assert_eq!(match_step_selector(&v, &missing), None);
}

#[test]
fn extract_params_reads_past_a_wide_lowercase() {
    let params = extract_params("İ password éx", &["password".into()]);
    assert_eq!(params.get("password"), Some(&"éx".to_string()));
    let kept = extract_params("İ PASSWORD Hunter2", &["password".into()]);
    assert_eq!(kept.get("password"), Some(&"Hunter2".to_string()));
}
