use lad_core::relay::{
    build_pairing_url, generate, instance_name, qr_terminal_lines, render_qr, service_host,
    token_from_bytes, SERVICE_TYPE,
};

#[test]
fn service_type_is_valid() {
    assert!(SERVICE_TYPE.starts_with('_'));
    assert!(SERVICE_TYPE.ends_with(".local."));
}

#[test]
fn service_names() {
    assert_eq!(instance_name("mac"), "lad-relay-mac");
    assert_eq!(service_host("mac"), "mac.local.");
}

#[test]
fn pairing_url_with_and_without_token() {
    assert_eq!(build_pairing_url("192.168.1.42", 9876, Some("abc")), "ws://192.168.1.42:9876?token=abc");
    assert_eq!(build_pairing_url("10.0.0.2", 80, None), "ws://10.0.0.2:80");
}

#[test]
fn token_is_12_chars_alphanumeric() {
    let t = generate().expect("randomness");
    assert_eq!(t.len(), 12);
    assert!(t.chars().all(|c| c.is_ascii_lowercase() || c.is_ascii_digit()));
}

#[test]
fn tokens_are_unique() {
    let tokens: Vec<String> = (0..10).map(|_| generate().expect("randomness")).collect();
    let mut sorted = tokens.clone();
    sorted.sort();
    sorted.dedup();
    assert!(sorted.len() > 1, "all tokens identical");
}

#[test]
fn token_bytes_index_the_alphabet_modulo_36() {
    assert_eq!(token_from_bytes(&[0, 25, 26, 35, 36, 255]), "az09a3");
}

#[test]
fn qr_picture_of_a_single_module() {
    let lines = render_qr(&[true], 1);
    assert_eq!(lines.len(), 3);
    assert_eq!(lines[0], "  \u{2588}\u{2588}\u{2588}\u{2588}\u{2588}");
    assert_eq!(lines[1], "  \u{2588}\u{2588}\u{2584}\u{2588}\u{2588}");
    assert_eq!(lines[2], "  \u{2588}\u{2588}\u{2588}\u{2588}\u{2588}");
}

#[test]
fn qr_code_encodes_ws_url() {
    let lines = qr_terminal_lines("ws://192.168.1.42:9876?token=654321");
    assert!(lines.len() > 10);
    let w = lines[0].chars().count();
    assert!(lines.iter().all(|l| l.chars().count() == w && l.starts_with("  ")));
}

#[test]
fn qr_code_encodes_long_url() {
    let lines = qr_terminal_lines("ws://192.168.1.42:9876?token=999999&extra=longparam");
    assert!(!lines[0].contains("QR generation failed"));
}

use lad_core::relay::{after_handshake, relayable, token_is_valid, HandshakeStep, MAX_RELAYED_BYTES};

#[test]
fn handshake_token_check() {
    assert!(token_is_valid("/?token=abc123", Some("abc123")));
    assert!(token_is_valid("/path?x=1&token=abc123&y=2", Some("abc123")));
    assert!(!token_is_valid("/?token=abc1234", Some("abc123")));
    assert!(!token_is_valid("/", Some("abc123")));
    assert!(!token_is_valid("/?x=token=abc123", Some("abc123")));
    assert!(token_is_valid("/anything", None));
    let url = build_pairing_url("192.168.1.4", 9000, Some("tok"));
    assert!(token_is_valid(&url, Some("tok")));
}

#[test]
fn handshake_failures_give_up_at_ten() {
    let mut failed = 0u32;
    assert_eq!(after_handshake(&mut failed, true), HandshakeStep::Connected);
    assert_eq!(failed, 0);
    for _ in 0..9 {
        assert_eq!(after_handshake(&mut failed, false), HandshakeStep::Retry);
    }
    assert_eq!(after_handshake(&mut failed, false), HandshakeStep::GiveUp);
    assert_eq!(failed, 10);
}

#[test]
fn oversized_messages_are_dropped() {
    assert!(relayable(MAX_RELAYED_BYTES));
    assert!(!relayable(MAX_RELAYED_BYTES + 1));
    assert!(relayable(0));
}
