use lad_core::sanitize::{
    is_steganographic, mask_sensitive_value, name_matches_sensitive, name_tokens,
    redact_action_debug, redact_credentials_from_goal, redact_url_secrets, sanitize_text,
};

// ── sanitize_text ────────────────────────────────────────────────────

#[test]
fn strips_zero_width_chars() {
    let input = "hello\u{200B}\u{200C}\u{200D}world";
    assert_eq!(sanitize_text(input), "helloworld");
}

#[test]
fn strips_bidi_overrides() {
    let input = "click \u{202E}ereh\u{202C} now";
    assert_eq!(sanitize_text(input), "click ereh now");
}

#[test]
fn strips_unicode_tags() {
    let input = "visible\u{E0001}\u{E0041}\u{E005A}text";
    assert_eq!(sanitize_text(input), "visibletext");
}

#[test]
fn strips_variation_selectors() {
    let input = "emoji\u{FE0F}\u{FE00}text";
    assert_eq!(sanitize_text(input), "emojitext");
}

#[test]
fn strips_soft_hyphen_and_friends() {
    let input = "soft\u{00AD}hyphen\u{034F}join\u{061C}mark";
    assert_eq!(sanitize_text(input), "softhyphenjoinmark");
}

#[test]
fn preserves_normal_text() {
    let input = "Hello, world! 日本語 café 🚀";
    assert_eq!(sanitize_text(input), input);
}

#[test]
fn handles_empty_string() {
    assert_eq!(sanitize_text(""), "");
}

#[test]
fn mixed_steganographic_and_normal() {
    let input = "Ig\u{200B}no\u{FEFF}re \u{200D}all\u{2060} prev";
    assert_eq!(sanitize_text(input), "Ignore all prev");
}

#[test]
fn sanitize_text_is_idempotent_and_leaves_no_hidden_char() {
    let input = "a\u{200B}b\u{E0041}c\u{FE0F}d";
    let once = sanitize_text(input);
    assert_eq!(sanitize_text(&once), once);
    assert!(once.chars().all(|c| !is_steganographic(c)));
}

// ── mask_sensitive_value ─────────────────────────────────────────────

#[test]
fn masks_password_field() {
    assert_eq!(
        mask_sensitive_value(Some("password"), None, Some("s3cret")),
        Some("[filled]".to_string()),
    );
}

#[test]
fn preserves_text_field() {
    assert_eq!(
        mask_sensitive_value(Some("text"), None, Some("hello")),
        Some("hello".to_string()),
    );
}

#[test]
fn preserves_none_value() {
    assert_eq!(mask_sensitive_value(Some("password"), None, None), None);
}

#[test]
fn no_type_preserves_value() {
    assert_eq!(mask_sensitive_value(None, None, Some("data")), Some("data".to_string()));
}

#[test]
fn masks_by_name_password() {
    assert_eq!(
        mask_sensitive_value(Some("text"), Some("password"), Some("s3cret")),
        Some("[filled]".to_string()),
    );
}

#[test]
fn masks_by_name_passwd() {
    assert_eq!(
        mask_sensitive_value(Some("text"), Some("user_passwd"), Some("s3cret")),
        Some("[filled]".to_string()),
    );
}

#[test]
fn masks_by_name_passwd_confirm() {
    assert_eq!(
        mask_sensitive_value(Some("text"), Some("passwd_confirm"), Some("s3cret")),
        Some("[filled]".to_string()),
    );
}

#[test]
fn masks_by_name_secret() {
    assert_eq!(
        mask_sensitive_value(None, Some("api_secret"), Some("s3cret")),
        Some("[filled]".to_string()),
    );
}

#[test]
fn does_not_mask_normal_name() {
    assert_eq!(
        mask_sensitive_value(Some("text"), Some("username"), Some("alice")),
        Some("alice".to_string()),
    );
}

#[test]
fn masks_password_field_uppercase() {
    assert_eq!(
        mask_sensitive_value(Some("PASSWORD"), None, Some("s3cret")),
        Some("[filled]".to_string()),
    );
}

#[test]
fn masks_password_field_mixed_case() {
    assert_eq!(
        mask_sensitive_value(Some("Password"), None, Some("s3cret")),
        Some("[filled]".to_string()),
    );
}

#[test]
fn masks_by_name_otp() {
    assert_eq!(
        mask_sensitive_value(Some("text"), Some("otp_code"), Some("123456")),
        Some("[filled]".to_string()),
    );
}

#[test]
fn masks_by_name_cvv() {
    assert_eq!(
        mask_sensitive_value(None, Some("card_cvv"), Some("123")),
        Some("[filled]".to_string()),
    );
}

#[test]
fn masks_by_name_mfa() {
    assert_eq!(
        mask_sensitive_value(None, Some("mfa_code"), Some("654321")),
        Some("[filled]".to_string()),
    );
}

#[test]
fn masks_by_name_verification() {
    assert_eq!(
        mask_sensitive_value(None, Some("verification_code"), Some("ABCDEF")),
        Some("[filled]".to_string()),
    );
}

#[test]
fn masks_by_name_2fa() {
    assert_eq!(
        mask_sensitive_value(None, Some("2fa_code"), Some("987654")),
        Some("[filled]".to_string()),
    );
}

#[test]
fn masks_by_name_token_field() {
    assert_eq!(
        mask_sensitive_value(None, Some("auth_token"), Some("xyz")),
        Some("[filled]".to_string()),
    );
}

#[test]
fn does_not_mask_topping_checkbox() {
    assert_eq!(
        mask_sensitive_value(Some("checkbox"), Some("topping"), Some("bacon")),
        Some("bacon".to_string()),
    );
}

#[test]
fn does_not_mask_shipping_address() {
    assert_eq!(
        mask_sensitive_value(Some("text"), Some("shipping_address"), Some("1 Main St")),
        Some("1 Main St".to_string()),
    );
}

#[test]
fn does_not_mask_clipping() {
    assert_eq!(
        mask_sensitive_value(Some("text"), Some("clipping"), Some("yes")),
        Some("yes".to_string()),
    );
}

#[test]
fn does_not_mask_pinterest_id() {
    assert_eq!(
        mask_sensitive_value(Some("text"), Some("pinterest_id"), Some("42")),
        Some("42".to_string()),
    );
}

#[test]
fn masks_standalone_pin() {
    assert_eq!(
        mask_sensitive_value(Some("text"), Some("pin"), Some("1234")),
        Some("[filled]".to_string()),
    );
}

#[test]
fn masks_user_pin() {
    assert_eq!(
        mask_sensitive_value(Some("text"), Some("user_pin"), Some("1234")),
        Some("[filled]".to_string()),
    );
}

#[test]
fn masks_pin_code_camelcase() {
    assert_eq!(
        mask_sensitive_value(Some("text"), Some("pinCode"), Some("1234")),
        Some("[filled]".to_string()),
    );
}

#[test]
fn masks_standalone_otp() {
    assert_eq!(
        mask_sensitive_value(Some("text"), Some("otp"), Some("123456")),
        Some("[filled]".to_string()),
    );
}

#[test]
fn masks_auth_token_camelcase() {
    assert_eq!(
        mask_sensitive_value(Some("text"), Some("authToken"), Some("abc")),
        Some("[filled]".to_string()),
    );
}

#[test]
fn masks_api_key_snake_case() {
    assert_eq!(
        mask_sensitive_value(Some("text"), Some("api_key"), Some("sk-live")),
        Some("[filled]".to_string()),
    );
}

#[test]
fn masks_credit_card_cvv() {
    assert_eq!(
        mask_sensitive_value(Some("text"), Some("credit_card_cvv"), Some("321")),
        Some("[filled]".to_string()),
    );
}

#[test]
fn name_tokens_splits_snake_case() {
    assert_eq!(name_tokens("credit_card_cvv"), vec!["credit", "card", "cvv"]);
}

#[test]
fn name_tokens_splits_camel_case() {
    assert_eq!(name_tokens("apiKey"), vec!["api", "key"]);
}

#[test]
fn name_tokens_splits_pascal_acronym() {
    assert_eq!(name_tokens("APIKey"), vec!["api", "key"]);
}

#[test]
fn name_tokens_single_word() {
    assert_eq!(name_tokens("topping"), vec!["topping"]);
}

#[test]
fn name_tokens_strips_punctuation() {
    assert_eq!(name_tokens("user.name"), vec!["user", "name"]);
    assert_eq!(name_tokens("user-name"), vec!["user", "name"]);
}

#[test]
fn name_matching_tiers() {
    assert!(name_matches_sensitive("security_code"));
    assert!(!name_matches_sensitive("security-code"));
    assert!(name_matches_sensitive("PASSWORD"));
    assert!(!name_matches_sensitive("spinach"));
}

// ── redact_url_secrets ───────────────────────────────────────────────

#[test]
fn redact_strips_oauth_code() {
    let url = "https://example.com/cb?code=abc&state=xyz";
    let redacted = redact_url_secrets(url);
    assert!(!redacted.contains("abc"));
    assert!(redacted.contains("state=xyz"));
}

#[test]
fn redact_strips_access_token() {
    let url = "https://api.example.com/d?access_token=jwt&page=1";
    let redacted = redact_url_secrets(url);
    assert!(!redacted.contains("=jwt"));
    assert!(redacted.contains("page=1"));
}

#[test]
fn redact_preserves_safe_url() {
    let url = "https://example.com/page?q=search&page=2";
    let redacted = redact_url_secrets(url);
    assert!(redacted.contains("q=search"));
    assert!(redacted.contains("page=2"));
}

#[test]
fn redact_strips_fragment() {
    let url = "https://example.com/page#tok";
    let redacted = redact_url_secrets(url);
    assert!(!redacted.contains('#'));
}

#[test]
fn redact_handles_unparseable_url() {
    let url = "not-a-url";
    assert_eq!(redact_url_secrets(url), url);
}

#[test]
fn redact_handles_magic_link() {
    let url = "https://example.com/verify?magic=m1&user=bob";
    let redacted = redact_url_secrets(url);
    assert!(!redacted.contains("=m1"));
    assert!(redacted.contains("user=bob"));
}

#[test]
fn redact_exact_output() {
    assert_eq!(
        redact_url_secrets("https://example.com/cb?code=abc&state=xyz#frag"),
        "https://example.com/cb?code=%5BREDACTED%5D&state=xyz"
    );
}

// ── redact_action_debug / redact_credentials_from_goal ──────────────

#[test]
fn redact_action_debug_masks_type_value() {
    let input = r#"Type { element: 3, value: "s3cret_password", reasoning: "fill pw" }"#;
    let redacted = redact_action_debug(input);
    assert!(!redacted.contains("s3cret_password"));
    assert!(redacted.contains("[REDACTED]"));
    assert!(redacted.contains("element: 3"));
}

#[test]
fn redact_action_debug_preserves_click() {
    let input = r#"Click { element: 5, reasoning: "click submit" }"#;
    let redacted = redact_action_debug(input);
    assert_eq!(redacted, input);
}

#[test]
fn redact_goal_password() {
    let goal = "login as admin password secret123";
    let redacted = redact_credentials_from_goal(goal);
    assert!(!redacted.contains("secret123"));
    assert!(redacted.contains("password [REDACTED]"));
}

#[test]
fn redact_goal_pw() {
    let goal = "login as testuser pw hunter2";
    let redacted = redact_credentials_from_goal(goal);
    assert!(!redacted.contains("hunter2"));
    assert!(redacted.contains("pw [REDACTED]"));
}

#[test]
fn redact_goal_token() {
    let goal = "authenticate with token abc123def";
    let redacted = redact_credentials_from_goal(goal);
    assert!(!redacted.contains("abc123def"));
    assert!(redacted.contains("token [REDACTED]"));
}

#[test]
fn redact_goal_no_credentials() {
    let goal = "navigate to the dashboard page";
    let redacted = redact_credentials_from_goal(goal);
    assert_eq!(redacted, goal);
}

#[test]
fn redaction_hides_escaped_quotes_and_quoted_phrases() {
    let input = r#"Type { element: 3, value: "ab\"cd secret", reasoning: "x" }"#;
    let out = lad_core::sanitize::redact_action_debug(input);
    assert_eq!(out, r#"Type { element: 3, value: "[REDACTED]", reasoning: "x" }"#);
    let goal = r#"login with password "correct horse battery" now"#;
    let red = lad_core::sanitize::redact_credentials_from_goal(goal);
    assert_eq!(red, "login with password [REDACTED] now");
    let single = lad_core::sanitize::redact_credentials_from_goal("pw 'a b' ok");
    assert_eq!(single, "pw [REDACTED] ok");
}
