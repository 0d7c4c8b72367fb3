use lad_core::oauth::{
    advance_flow, detect_provider, flow_context, is_callback_url, is_consent_page, OAuthFlowState,
    OAuthProvider,
};

#[test]
fn detect_google_oauth() {
    assert_eq!(
        detect_provider("https://accounts.google.com/o/oauth2/v2/auth"),
        Some(OAuthProvider::Google),
    );
}

#[test]
fn detect_github_oauth() {
    assert_eq!(
        detect_provider("https://github.com/login/oauth/authorize"),
        Some(OAuthProvider::GitHub),
    );
}

#[test]
fn detect_facebook_oauth() {
    assert_eq!(detect_provider("https://facebook.com/dialog/oauth"), Some(OAuthProvider::Facebook));
}

#[test]
fn detect_microsoft_oauth() {
    assert_eq!(
        detect_provider("https://login.microsoftonline.com/common/oauth2"),
        Some(OAuthProvider::Microsoft),
    );
}

#[test]
fn detect_no_provider() {
    assert_eq!(detect_provider("https://example.com/login"), None);
}

#[test]
fn detect_provider_ignores_case() {
    assert_eq!(detect_provider("HTTPS://APPLEID.APPLE.COM/auth"), Some(OAuthProvider::Apple));
    assert_eq!(detect_provider("https://twitter.com/i/oauth2/x"), Some(OAuthProvider::Twitter));
}

#[test]
fn callback_with_code() {
    assert!(is_callback_url("https://example.com/callback?code=abc123&state=xyz"));
}

#[test]
fn callback_with_token() {
    assert!(is_callback_url("https://example.com/auth#access_token=xyz"));
}

#[test]
fn no_callback_params() {
    assert!(!is_callback_url("https://example.com/dashboard"));
}

#[test]
fn consent_page_detected() {
    assert!(is_consent_page("MyApp wants to access your account. Click Allow to continue."));
}

#[test]
fn not_consent_page() {
    assert!(!is_consent_page("Enter your email and password"));
}

#[test]
fn flow_idle_to_provider() {
    let state = advance_flow(
        &OAuthFlowState::Idle,
        "https://accounts.google.com/o/oauth2/auth",
        "",
        Some("https://myapp.com"),
    );
    assert!(matches!(state, OAuthFlowState::AtProvider { provider: OAuthProvider::Google, .. }));
}

#[test]
fn flow_provider_to_consent() {
    let state = advance_flow(
        &OAuthFlowState::AtProvider {
            provider: OAuthProvider::Google,
            origin_url: "https://myapp.com".into(),
        },
        "https://accounts.google.com/o/oauth2/auth",
        "MyApp wants to access your account",
        None,
    );
    assert!(matches!(state, OAuthFlowState::Consent { .. }));
}

#[test]
fn flow_consent_to_callback() {
    let state = advance_flow(
        &OAuthFlowState::Consent {
            provider: OAuthProvider::Google,
            origin_url: "https://myapp.com".into(),
        },
        "https://myapp.com/callback?code=abc",
        "",
        None,
    );
    assert!(matches!(state, OAuthFlowState::Callback { .. }));
}

#[test]
fn flow_callback_to_completed() {
    let state = advance_flow(
        &OAuthFlowState::Callback {
            provider: OAuthProvider::Google,
            origin_url: "https://myapp.com".into(),
        },
        "https://myapp.com/dashboard",
        "",
        None,
    );
    assert!(matches!(state, OAuthFlowState::Completed { .. }));
}

#[test]
fn flow_provider_leaving_without_callback_fails() {
    let state = advance_flow(
        &OAuthFlowState::AtProvider {
            provider: OAuthProvider::GitHub,
            origin_url: "https://myapp.com".into(),
        },
        "https://elsewhere.org/",
        "",
        None,
    );
    match state {
        OAuthFlowState::Failed { reason } => {
            assert_eq!(reason, "navigated away from provider without callback")
        }
        other => panic!("unexpected {other:?}"),
    }
}

#[test]
fn flow_provider_back_to_origin_is_callback() {
    let state = advance_flow(
        &OAuthFlowState::AtProvider {
            provider: OAuthProvider::GitHub,
            origin_url: "https://myapp.com".into(),
        },
        "https://myapp.com/home",
        "",
        None,
    );
    assert!(matches!(state, OAuthFlowState::Callback { provider: OAuthProvider::GitHub, .. }));
}

#[test]
fn flow_terminal_states_stay() {
    let done = OAuthFlowState::Completed { provider: OAuthProvider::Apple };
    assert!(matches!(
        advance_flow(&done, "https://accounts.google.com", "authorize", Some("x")),
        OAuthFlowState::Completed { provider: OAuthProvider::Apple }
    ));
    let idle = advance_flow(&OAuthFlowState::Idle, "https://example.com", "", None);
    assert!(matches!(idle, OAuthFlowState::Idle));
}

#[test]
fn flow_context_gives_instructions() {
    let state = OAuthFlowState::AtProvider {
        provider: OAuthProvider::Google,
        origin_url: "https://myapp.com".into(),
    };
    let ctx = flow_context(&state).unwrap();
    assert!(ctx.contains("Google"));
    assert!(ctx.contains("credentials"));
    assert_eq!(
        ctx,
        "OAuth: at Google login page (started from https://myapp.com). Fill credentials to continue."
    );
}

#[test]
fn flow_context_failed_and_redirecting() {
    let f = OAuthFlowState::Failed { reason: "boom".into() };
    assert_eq!(flow_context(&f).unwrap(), "OAuth: flow failed — boom");
    let r = OAuthFlowState::Redirecting { origin_url: "https://a.b".into() };
    assert_eq!(
        flow_context(&r).unwrap(),
        "OAuth: redirecting from https://a.b to auth provider"
    );
}

#[test]
fn flow_context_idle_is_none() {
    assert!(flow_context(&OAuthFlowState::Idle).is_none());
}
