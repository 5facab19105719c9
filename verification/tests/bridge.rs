use proton_api::bridge::{
    auth_error_result, calendar_config_from_parts, contact_config_from_parts, fixed_text,
    login_result, status_texts, tokens_result,
};
use proton_api::error::CaptchaChallenge;
use proton_api::json::{json_int, json_text, Json};
use proton_api::{AuthTokens, LoginState, ProtonError};

fn hv_error() -> ProtonError {
    ProtonError::Captcha(CaptchaChallenge {
        methods: vec!["captcha".into(), "email".into()],
        token: "secret-token".into(),
        web_url: "https://verify.proton.me/?methods=captcha&token=secret-token".into(),
    })
}

/// The text of a buffer: what comes before its first zero.
fn decode(buffer: &[u8]) -> String {
    let len = buffer.iter().position(|&b| b == 0).unwrap_or(buffer.len());
    String::from_utf8_lossy(&buffer[..len]).into_owned()
}

#[test]
fn test_captcha_maps_to_status_3_with_url_and_methods() {
    let r = auth_error_result(&hv_error());
    assert_eq!(r.status, 3);
    assert!(r.error.is_none());
    let url = r.captcha_url.unwrap();
    assert!(url.starts_with("https://verify.proton.me/"), "{url}");
    assert_eq!(r.captcha_methods.unwrap(), "captcha, email");
    assert_eq!(r.captcha_token.unwrap(), "secret-token");
}

#[test]
fn test_generic_error_stays_status_2_without_captcha_fields() {
    let r = auth_error_result(&ProtonError::Auth("bad password".into()));
    assert_eq!(r.status, 2);
    assert!(r.captcha_url.is_none());
    assert!(r.captcha_methods.is_none());
    assert!(r.captcha_token.is_none());
    let msg = r.error.unwrap();
    assert!(msg.contains("bad password"), "{msg}");
}

#[test]
fn test_status_needs_2fa_round_trips_over_ffi() {
    let s = status_texts("needs_2fa", Some("2FA verification required"));
    assert_eq!(decode(&s.state), "needs_2fa");
    assert!(!s.state_truncated);
    assert_eq!(decode(&s.error), "2FA verification required");
    assert!(!s.error_truncated);
}

#[test]
fn test_status_error_round_trips_over_ffi() {
    let s = status_texts("error", Some("Auth failed: bad password"));
    assert_eq!(decode(&s.state), "error");
    assert!(decode(&s.error).contains("bad password"));
}

#[test]
fn test_status_truncation_detected() {
    let long_state = "a".repeat(20);
    let long_error = "e".repeat(300);
    let s = status_texts(&long_state, Some(&long_error));
    assert!(s.state_truncated);
    assert!(s.error_truncated);
}

#[test]
fn test_inventory_config_parses_and_degrades() {
    // Valid inventory + anchors feed the planner; malformed JSON
    // degrades to download-only (None) instead of a half-fed plan.
    let good = calendar_config_from_parts(
        "u".into(),
        String::new(),
        String::new(),
        String::new(),
        String::new(),
        String::new(),
        r#"[{"mkcal_uid":"n1","proton_id":"e1","deleted":false,"modified":false,"last_synced_mtime":100}]"#.into(),
        r#"{"e1":100}"#.into(),
    );
    let inv = match good.local_inventory.expect("inventory parsed") {
        Json::Array(a) => a,
        other => panic!("{other:?}"),
    };
    assert_eq!(inv.len(), 1);
    assert_eq!(inv[0].get("mkcal_uid"), Some(&json_text("n1")));
    assert_eq!(
        good.anchor_map.expect("anchors parsed").get("e1"),
        Some(&json_int(100))
    );
    let bad = calendar_config_from_parts(
        "u".into(),
        String::new(),
        String::new(),
        String::new(),
        String::new(),
        String::new(),
        "not-json".into(),
        "also-not-json".into(),
    );
    assert!(bad.local_inventory.is_none());
    assert!(bad.anchor_map.is_none());
}

#[test]
fn contact_config_takes_what_is_given() {
    let c = contact_config_from_parts(
        "ada".into(),
        "pw".into(),
        "at".into(),
        String::new(),
        "uid".into(),
        String::new(),
        r#"{"k1":"cGFzcw=="}"#.into(),
        "[]".into(),
        r#"["a","b"]"#.into(),
        r#"{"a":1}"#.into(),
    );
    assert_eq!(c.username, "ada");
    assert_eq!(c.password, "pw");
    assert_eq!(c.access_token.as_deref(), Some("at"));
    assert!(c.refresh_token.is_none());
    assert!(c.totp_code.is_none());
    assert_eq!(
        c.derived_passwords.unwrap().get("k1"),
        Some(&json_text("cGFzcw=="))
    );
    assert!(c.contact_inventory.is_some());
    assert!(c.contact_known_uids.is_some());
    assert!(c.contact_anchors.is_some());
    assert!(c.local_inventory.is_none());
}

#[test]
fn config_parts_of_another_kind_are_absent() {
    let c = contact_config_from_parts(
        "ada".into(),
        String::new(),
        String::new(),
        String::new(),
        String::new(),
        String::new(),
        r#"{"k1":7}"#.into(),
        r#"{"a":1}"#.into(),
        r#"["a",2]"#.into(),
        r#"{"a":"x"}"#.into(),
    );
    assert!(c.derived_passwords.is_none());
    assert!(c.contact_inventory.is_none());
    assert!(c.contact_known_uids.is_none());
    assert!(c.contact_anchors.is_none());
    let cal = calendar_config_from_parts(
        String::new(),
        String::new(),
        String::new(),
        String::new(),
        String::new(),
        r#"{"cal":{}}"#.into(),
        String::new(),
        String::new(),
    );
    assert!(cal.calendar_defaults.is_some());
    assert_eq!(cal.password, "");
}

#[test]
fn login_results_carry_their_tokens() {
    let tokens = AuthTokens {
        access_token: "a".into(),
        refresh_token: "r".into(),
        uid: "u".into(),
    };
    let ok = login_result(Ok(LoginState::Authenticated {
        tokens: tokens.clone(),
        scopes: vec![],
    }));
    assert_eq!(ok.status, 0);
    assert_eq!(ok.access_token.as_deref(), Some("a"));
    let locked = login_result(Ok(LoginState::Requires2FA {
        access_token: "a2".into(),
        refresh_token: "r2".into(),
        uid: "u2".into(),
        scopes: vec!["twofactor".into()],
    }));
    assert_eq!(locked.status, 1);
    assert_eq!(locked.refresh_token.as_deref(), Some("r2"));
    let bad = login_result(Err(ProtonError::TokenExpired));
    assert_eq!(bad.status, 2);
    assert_eq!(bad.error.as_deref(), Some("Token expired"));
    let again = tokens_result(Ok(tokens));
    assert_eq!((again.status, again.uid.as_deref()), (0, Some("u")));
}

#[test]
fn buffers_end_in_a_zero() {
    let (buffer, cut) = fixed_text("abc", 4);
    assert_eq!(buffer, vec![b'a', b'b', b'c', 0]);
    assert!(!cut);
    let (buffer, cut) = fixed_text("abcd", 4);
    assert_eq!(buffer, vec![b'a', b'b', b'c', 0]);
    assert!(cut);
}
