use lad_core::pilot::{Action, DecisionSource, Step};
use lad_core::runner::{
    blocked_plan, learn_decision, redact_action_for_learn, BlockedAction, ChallengeKind,
    LearnDecision, LoopPhase, PilotLoop,
};
use lad_core::semantic::{PageState, SemanticView};

fn empty_view() -> SemanticView {
    SemanticView {
        url: "https://example.com/login".into(),
        title: String::new(),
        page_hint: String::new(),
        elements: vec![],
        forms: vec![],
        visible_text: String::new(),
        text_blocks: vec![],
        state: PageState::Ready,
        element_cap: None,
        blocked_reason: None,
        session_context: None,
        cards: None,
        cards_truncated: None,
    }
}

fn mkstep(idx: u32, action: Action, source: DecisionSource) -> Step {
    Step { index: idx, observation: empty_view(), action, source }
}

fn done() -> Action {
    let result: serde_json::Value = serde_json::from_str(r#"{"success": true}"#).unwrap();
    Action::Done { result, reasoning: String::new() }
}

#[test]
fn guard_skips_save_on_pure_replay() {
    let history = vec![
        mkstep(0, Action::Type { element: 0, value: "x".into(), reasoning: String::new() }, DecisionSource::Playbook),
        mkstep(1, Action::Type { element: 1, value: "y".into(), reasoning: String::new() }, DecisionSource::Playbook),
        mkstep(2, Action::Click { element: 2, reasoning: String::new() }, DecisionSource::Playbook),
        mkstep(3, done(), DecisionSource::Llm),
    ];
    assert_eq!(learn_decision(&history, 3), LearnDecision::PureReplay);
}

#[test]
fn guard_allows_save_on_mixed_replay_plus_new_step() {
    let history = vec![
        mkstep(0, Action::Type { element: 0, value: "x".into(), reasoning: String::new() }, DecisionSource::Playbook),
        mkstep(1, Action::Type { element: 1, value: "y".into(), reasoning: String::new() }, DecisionSource::Playbook),
        mkstep(2, Action::Click { element: 2, reasoning: String::new() }, DecisionSource::Playbook),
        mkstep(3, Action::Click { element: 3, reasoning: String::new() }, DecisionSource::Heuristic),
        mkstep(4, done(), DecisionSource::Llm),
    ];
    assert_eq!(learn_decision(&history, 3), LearnDecision::Synthesize);
}

#[test]
fn learn_nothing_when_nothing_actionable() {
    let history = vec![mkstep(0, done(), DecisionSource::Heuristic)];
    assert_eq!(learn_decision(&history, 0), LearnDecision::NoActionable);
}

#[test]
fn redact_hides_value() {
    let action = Action::Type { element: 9, value: "topsecret".into(), reasoning: "test".into() };
    let rendered = redact_action_for_learn(&action);
    assert!(rendered.contains("len=9"));
    assert!(!rendered.contains("topsecret"));
    assert_eq!(rendered, "Type { element: 9, value: <redacted len=9> }");
}

#[test]
fn redact_shows_other_actions_debug() {
    let action = Action::Click { element: 4, reasoning: "go".into() };
    assert_eq!(redact_action_for_learn(&action), format!("{action:?}"));
}

#[test]
fn stale_page_escalates_on_third_repeat() {
    let mut l = PilotLoop::new(10, None);
    assert_eq!(l.observe("https://a.com", 5), None);
    assert_eq!(l.initial_url.as_deref(), Some("https://a.com"));
    assert_eq!(l.decide(DecisionSource::Heuristic, &Action::Wait { reasoning: String::new() }), None);
    assert_eq!(l.after_action(Some("https://a.com")), None);
    assert_eq!(l.observe("https://a.com", 5), None);
    l.decide(DecisionSource::Llm, &Action::Wait { reasoning: String::new() });
    l.after_action(None);
    assert_eq!(l.observe("https://a.com", 5), None);
    l.decide(DecisionSource::Llm, &Action::Wait { reasoning: String::new() });
    l.after_action(None);
    let r = l.observe("https://a.com", 5);
    assert_eq!(
        r.as_deref(),
        Some("stale state: URL and element count unchanged for 3 consecutive observations")
    );
    assert_eq!(l.phase, LoopPhase::Finished);
    assert_eq!(l.heuristic_hits, 1);
    assert_eq!(l.llm_hits, 2);
}

#[test]
fn a_change_resets_the_stale_streak() {
    let mut l = PilotLoop::new(10, Some("https://start".into()));
    l.observe("https://a.com", 5);
    l.decide(DecisionSource::Playbook, &Action::Click { element: 3, reasoning: String::new() });
    l.after_action(None);
    l.observe("https://a.com", 5);
    assert_eq!(l.stale_streak, 0);
    assert_eq!(l.acted_on, vec![3]);
    assert_eq!(l.initial_url.as_deref(), Some("https://start"));
}

#[test]
fn terminal_decisions_end_the_run() {
    let mut l = PilotLoop::new(3, None);
    l.observe("https://a.com", 1);
    assert_eq!(l.decide(DecisionSource::Llm, &done()), Some(true));
    assert_eq!(l.phase, LoopPhase::Finished);
    let mut l = PilotLoop::new(3, None);
    l.observe("https://a.com", 1);
    assert_eq!(l.decide(DecisionSource::Llm, &Action::Escalate { reason: "x".into() }), Some(false));
}

#[test]
fn unsafe_landing_page_escalates() {
    let mut l = PilotLoop::new(3, None);
    l.observe("https://a.com", 1);
    l.decide(DecisionSource::Llm, &Action::Click { element: 1, reasoning: String::new() });
    let r = l.after_action(Some("http://127.0.0.1/admin"));
    assert_eq!(r.as_deref(), Some("redirected to unsafe URL after action: http://127.0.0.1/admin"));
    assert_eq!(l.phase, LoopPhase::Finished);
}

#[test]
fn step_budget_finishes_the_loop() {
    let mut l = PilotLoop::new(1, None);
    l.observe("https://a.com", 1);
    l.decide(DecisionSource::Llm, &Action::Wait { reasoning: String::new() });
    assert_eq!(l.after_action(Some("https://a.com/next")), None);
    assert_eq!(l.phase, LoopPhase::Finished);
    assert_eq!(l.max_steps_reason(), "max steps (1) reached");
}

fn reason_of(a: BlockedAction) -> Option<String> {
    match a {
        BlockedAction::Escalate { reason } => Some(reason),
        _ => None,
    }
}

#[test]
fn blocked_page_plans() {
    assert_eq!(
        reason_of(blocked_plan(ChallengeKind::WafBlock, "403", true, None, None)).as_deref(),
        Some("page blocked (WAF): 403")
    );
    assert!(matches!(
        blocked_plan(ChallengeKind::CloudflareTurnstile, "cf", false, None, None),
        BlockedAction::WaitForResolution { timeout_secs: 5, announce: false }
    ));
    assert!(matches!(
        blocked_plan(ChallengeKind::CloudflareTurnstile, "cf", false, Some(true), None),
        BlockedAction::Continue
    ));
    assert_eq!(
        reason_of(blocked_plan(ChallengeKind::CloudflareTurnstile, "cf", false, Some(false), None)).as_deref(),
        Some("page blocked: cf")
    );
    assert!(matches!(
        blocked_plan(ChallengeKind::Captcha, "captcha", true, None, None),
        BlockedAction::WaitForResolution { timeout_secs: 120, announce: true }
    ));
    assert!(matches!(
        blocked_plan(ChallengeKind::Captcha, "captcha", true, None, Some(true)),
        BlockedAction::Continue
    ));
    assert_eq!(
        reason_of(blocked_plan(ChallengeKind::Captcha, "captcha", true, None, Some(false))).as_deref(),
        Some("page blocked: captcha")
    );
    assert!(matches!(
        blocked_plan(ChallengeKind::AuthWall, "login", true, None, None),
        BlockedAction::FallThrough
    ));
}

use lad_core::pilot::PilotConfig;

#[test]
fn pilot_config_interactive_default() {
    let config = PilotConfig::default();
    assert!(!config.interactive);
}

#[test]
fn pilot_config_learn_defaults_off() {
    let config = PilotConfig::default();
    assert!(config.learn.is_none());
    assert_eq!(config.max_steps, 10);
    assert_eq!(config.max_retries_per_step, 2);
}

use lad_core::runner::track_session;
use lad_core::session::{AuthState, CookieEntry, SessionState};

fn cookie(name: &str) -> CookieEntry {
    CookieEntry {
        name: name.into(),
        value: "v".into(),
        domain: "example.com".into(),
        path: "/".into(),
        expires_bits: 0,
        secure: true,
        http_only: true,
        same_site: None,
    }
}

#[test]
fn tracking_a_login_step_moves_auth_along() {
    let mut sess = SessionState::default();
    let mut view = empty_view();
    view.page_hint = "Login page".into();
    view.elements.push(lad_core::semantic::Element {
        id: 1,
        kind: lad_core::semantic::ElementKind::Button,
        label: "Sign in".into(),
        name: None,
        value: None,
        placeholder: None,
        href: None,
        input_type: None,
        disabled: false,
        form_index: None,
        context: None,
        hint: None,
        checked: None,
        options: None,
        frame_index: None,
        is_visible: None,
    });
    let action = Action::Click { element: 1, reasoning: "submit".into() };
    let step = Step {
        index: 0,
        observation: view,
        action: Action::Click { element: 1, reasoning: "submit".into() },
        source: DecisionSource::Heuristic,
    };
    track_session(&mut sess, &step, &action, vec![cookie("prefs")]);
    assert_eq!(sess.origin_url.as_deref(), Some("https://example.com/login"));
    assert_eq!(sess.auth_state, AuthState::InProgress);
    let entry = sess.navigation_history.last().unwrap();
    assert_eq!(entry.actions_taken, vec!["click: submit".to_string()]);
    assert!(entry.form_submitted);
    assert!(entry.auth_related);
    track_session(&mut sess, &step, &action, vec![cookie("session_id")]);
    assert_eq!(sess.auth_state, AuthState::Authenticated);
    assert_eq!(sess.cookies.len(), 2);
    assert_eq!(sess.navigation_history.len(), 2);
}

#[test]
fn tracking_a_done_step_leaves_no_note() {
    let mut sess = SessionState::default();
    sess.origin_url = Some("https://start".into());
    let step = mkstep(0, done(), DecisionSource::Llm);
    let action = done();
    track_session(&mut sess, &step, &action, vec![]);
    assert_eq!(sess.origin_url.as_deref(), Some("https://start"));
    assert!(sess.navigation_history[0].actions_taken.is_empty());
    assert!(!sess.navigation_history[0].form_submitted);
    assert_eq!(sess.auth_state, AuthState::NoActivity);
}

use lad_core::runner::{action_effect, ActionEffect};

#[test]
fn action_effect_scripts_and_navigation() {
    let click = Action::Click { element: 7, reasoning: String::new() };
    match action_effect(&click, false) {
        ActionEffect::Script(s) => {
            assert!(s.starts_with("(() => {\n                    \nfunction deepQuerySelector(root, sel, depth) {"));
            assert!(s.contains("const el = deepQuerySelector(document, '[data-lad-id=\"7\"]');"));
            assert!(s.ends_with("if (el) el.click();\n                })()"));
        }
        other => panic!("unexpected {other:?}"),
    }
    let ty = Action::Type { element: 3, value: "it's".into(), reasoning: String::new() };
    match action_effect(&ty, false) {
        ActionEffect::Script(s) => {
            assert!(s.contains("[data-lad-id=\"3\"]"));
            assert!(s.contains("el.value = 'it\\'s';"));
            assert!(s.contains("new Event('input', { bubbles: true })"));
        }
        other => panic!("unexpected {other:?}"),
    }
    let sel = Action::Select { element: 4, value: "b".into(), reasoning: String::new() };
    match action_effect(&sel, false) {
        ActionEffect::Script(s) => assert!(s.ends_with(
            "if (el) { el.value = 'b'; el.dispatchEvent(new Event('change', { bubbles: true })); }\n                })()"
        )),
        other => panic!("unexpected {other:?}"),
    }
    for (dir, js) in [
        ("up", "window.scrollBy(0, -300)"),
        ("down", "window.scrollBy(0, 300)"),
        ("left", "window.scrollBy(-300, 0)"),
        ("right", "window.scrollBy(300, 0)"),
        ("sideways", "window.scrollBy(0, 300)"),
    ] {
        match action_effect(&Action::Scroll { direction: dir.into(), reasoning: String::new() }, false) {
            ActionEffect::Script(s) => assert_eq!(s, js),
            other => panic!("unexpected {other:?}"),
        }
    }
    assert!(matches!(action_effect(&Action::Wait { reasoning: String::new() }, false), ActionEffect::Pause(2000)));
    match action_effect(&Action::Navigate { url: "https://example.com/".into(), reasoning: String::new() }, false) {
        ActionEffect::Visit(u) => assert_eq!(u, "https://example.com/"),
        other => panic!("unexpected {other:?}"),
    }
    match action_effect(&Action::Navigate { url: "http://127.0.0.1/admin".into(), reasoning: String::new() }, false) {
        ActionEffect::Refused(m) => assert_eq!(m, "blocked navigation to unsafe URL: http://127.0.0.1/admin"),
        other => panic!("unexpected {other:?}"),
    }
    assert!(matches!(
        action_effect(&Action::Navigate { url: "http://127.0.0.1/admin".into(), reasoning: String::new() }, true),
        ActionEffect::Visit(_)
    ));
    assert!(matches!(action_effect(&Action::Escalate { reason: "x".into() }, false), ActionEffect::Nothing));
}
