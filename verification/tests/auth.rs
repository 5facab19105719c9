use proton_api::auth::{
    is_fido2_only, is_totp_required, parse_captcha_challenge, refresh_answer, two_fa_answer,
    LoginResponse, RefreshResponse, TwoFAResponse,
};
use proton_api::json::{parse_json, Json};
use proton_api::{AuthTokens, ProtonError, TokenManager};

fn json(s: &str) -> Json {
    parse_json(s).unwrap()
}

fn make_auth_response(json_str: &str) -> LoginResponse {
    LoginResponse::from_json(&json(json_str)).expect("parse auth response")
}

#[test]
fn test_twofa_detection_totp_enabled_1() {
    let body = r#"{
        "AccessToken":"at","RefreshToken":"rt","UID":"uid","ExpiresIn":3600,"ServerProof":"sp",
        "2FA":{"Enabled":1,"TOTP":1},
        "Scopes":["self","parent","user","twofactor"]
    }"#;
    let resp = make_auth_response(body);
    assert!(is_totp_required(&resp.TwoFA, &resp.TwoFactor));
}

#[test]
fn test_twofa_detection_both_3() {
    let body = r#"{
        "AccessToken":"at","RefreshToken":"rt","UID":"uid","ExpiresIn":3600,"ServerProof":"sp",
        "2FA":{"Enabled":3,"TOTP":1},
        "Scopes":["self","parent","user","twofactor"]
    }"#;
    let resp = make_auth_response(body);
    assert!(is_totp_required(&resp.TwoFA, &resp.TwoFactor));
}

#[test]
fn test_twofa_detection_fido2_only_not_totp() {
    let body = r#"{
        "AccessToken":"at","RefreshToken":"rt","UID":"uid","ExpiresIn":3600,"ServerProof":"sp",
        "2FA":{"Enabled":2,"TOTP":0},
        "Scopes":["self","parent","user","twofactor"]
    }"#;
    let resp = make_auth_response(body);
    assert!(!is_totp_required(&resp.TwoFA, &resp.TwoFactor));
    assert!(is_fido2_only(&resp.TwoFA, &resp.TwoFactor));
}

#[test]
fn test_fido2_only_excludes_totp_variants() {
    // TOTP present alongside FIDO2 (Enabled=3) is NOT fido2-only: the
    // TOTP path handles it.
    let both = make_auth_response(
        r#"{"AccessToken":"a","RefreshToken":"r","UID":"u","ExpiresIn":1,"ServerProof":"s",
            "2FA":{"Enabled":3,"TOTP":1}}"#,
    );
    assert!(!is_fido2_only(&both.TwoFA, &both.TwoFactor));
    assert!(is_totp_required(&both.TwoFA, &both.TwoFactor));
    // Plain TOTP account is not fido2-only either.
    let totp = make_auth_response(
        r#"{"AccessToken":"a","RefreshToken":"r","UID":"u","ExpiresIn":1,"ServerProof":"s",
            "2FA":{"Enabled":1,"TOTP":1}}"#,
    );
    assert!(!is_fido2_only(&totp.TwoFA, &totp.TwoFactor));
    // No 2FA at all: neither.
    let none = make_auth_response(
        r#"{"AccessToken":"a","RefreshToken":"r","UID":"u","ExpiresIn":1,"ServerProof":"s"}"#,
    );
    assert!(!is_fido2_only(&none.TwoFA, &none.TwoFactor));
    assert!(!is_totp_required(&none.TwoFA, &none.TwoFactor));
    // Legacy shape with FIDO2-only Enabled.
    let legacy = make_auth_response(
        r#"{"AccessToken":"a","RefreshToken":"r","UID":"u","ExpiresIn":1,"ServerProof":"s",
            "TwoFactor":{"Enabled":2}}"#,
    );
    assert!(is_fido2_only(&legacy.TwoFA, &legacy.TwoFactor));
}

#[test]
fn test_twofa_detection_no_2fa() {
    let body = r#"{
        "AccessToken":"at","RefreshToken":"rt","UID":"uid","ExpiresIn":3600,"ServerProof":"sp",
        "Scopes":["self","parent","user","full"]
    }"#;
    let resp = make_auth_response(body);
    assert!(!is_totp_required(&resp.TwoFA, &resp.TwoFactor));
}

#[test]
fn test_twofa_detection_legacy_two_factor() {
    let body = r#"{
        "AccessToken":"at","RefreshToken":"rt","UID":"uid","ExpiresIn":3600,"ServerProof":"sp",
        "TwoFactor":{"Enabled":1,"TOTP":1},
        "Scopes":["self","parent","user","twofactor"]
    }"#;
    let resp = make_auth_response(body);
    assert!(is_totp_required(&resp.TwoFA, &resp.TwoFactor));
}

#[test]
fn test_twofa_detection_legacy_enabled_3() {
    let body = r#"{
        "AccessToken":"at","RefreshToken":"rt","UID":"uid","ExpiresIn":3600,"ServerProof":"sp",
        "TwoFactor":{"Enabled":3},
        "Scopes":["self","parent","user","twofactor"]
    }"#;
    let resp = make_auth_response(body);
    assert!(is_totp_required(&resp.TwoFA, &resp.TwoFactor));
}

#[test]
fn test_auth_response_parsing_null_2fa() {
    let body = r#"{
        "AccessToken":"at","RefreshToken":"rt","UID":"uid","ExpiresIn":3600,"ServerProof":"sp",
        "2FA":null,
        "TwoFactor":null
    }"#;
    let resp = make_auth_response(body);
    assert!(!is_totp_required(&resp.TwoFA, &resp.TwoFactor));
    assert!(resp.TwoFA.is_none());
    assert!(resp.TwoFactor.is_none());
}

#[test]
fn test_auth_response_parsing_numeric_2fa() {
    // Proton sometimes returns numeric instead of object for legacy field
    let body = r#"{
        "AccessToken":"at","RefreshToken":"rt","UID":"uid","ExpiresIn":3600,"ServerProof":"sp",
        "2FA":0,
        "TwoFactor":0
    }"#;
    let resp = make_auth_response(body);
    assert!(!is_totp_required(&resp.TwoFA, &resp.TwoFactor));
}

#[test]
fn test_twofa_response_parsing_success() {
    let body = r#"{"Code":1000,"Scope":"full","Scopes":["full","self"]}"#;
    let resp = TwoFAResponse::from_json(&json(body)).unwrap();
    assert_eq!(resp.Code, 1000);
    assert_eq!(resp.Scopes.unwrap().len(), 2);
}

#[test]
fn test_twofa_response_parsing_error() {
    let body = r#"{"Code":422,"Error":"TotpWrong"}"#;
    let resp = TwoFAResponse::from_json(&json(body)).unwrap();
    assert_eq!(resp.Code, 422);
}

#[test]
fn test_login_state_requires_2fa() {
    // A session that waits for its second factor, and one that does not.
    let json_locked = r#"{
        "AccessToken":"locked_at","RefreshToken":"rt","UID":"uid","ExpiresIn":3600,"ServerProof":"sp",
        "2FA":{"Enabled":1,"TOTP":1},
        "Scopes":["self","parent","user","twofactor"]
    }"#;
    let resp_locked = make_auth_response(json_locked);
    assert!(is_totp_required(
        &resp_locked.TwoFA,
        &resp_locked.TwoFactor
    ));

    let json_full = r#"{
        "AccessToken":"full_at","RefreshToken":"rt","UID":"uid","ExpiresIn":3600,"ServerProof":"sp",
        "Scopes":["self","parent","user","full"]
    }"#;
    let resp_full = make_auth_response(json_full);
    assert!(!is_totp_required(
        &resp_full.TwoFA,
        &resp_full.TwoFactor
    ));
}

#[test]
fn test_refresh_response_parsing() {
    let body =
        r#"{"AccessToken":"new_at","RefreshToken":"new_rt","UID":"uid","ExpiresIn":3600}"#;
    let resp = RefreshResponse::from_json(&json(body)).unwrap();
    assert_eq!(resp.AccessToken, "new_at");
}

#[test]
fn test_submit_2fa_keeps_same_tokens() {
    // The second factor unlocks the tokens that the login brought.
    let at = "locked_at";
    let rt = "rt";
    let uid = "uid";
    let tokens = AuthTokens {
        access_token: at.to_string(),
        refresh_token: rt.to_string(),
        uid: uid.to_string(),
    };
    assert_eq!(tokens.access_token, at);
    assert_eq!(tokens.refresh_token, rt);
    assert_eq!(tokens.uid, uid);
}

#[test]
fn test_submit_2fa_mock_success() {
    let body = r#"{"Code":1000,"Scope":"full","Scopes":["full"]}"#;
    let res = two_fa_answer(true, "200 OK", body, "locked-at", "rt", "test-uid");
    assert!(res.is_ok(), "submit_2fa should succeed: {:?}", res);
    let tokens = res.unwrap();
    assert_eq!(tokens.access_token, "locked-at");
    assert_eq!(tokens.refresh_token, "rt");
    assert_eq!(tokens.uid, "test-uid");
}

#[test]
fn test_submit_2fa_mock_wrong_code() {
    let body = r#"{"Code":422,"Error":"TotpWrong"}"#;
    let res = two_fa_answer(
        false,
        "422 Unprocessable Entity",
        body,
        "locked-at",
        "rt",
        "test-uid",
    );
    assert!(res.is_err());
    let err = res.unwrap_err().message();
    assert!(err.contains("422") || err.contains("TotpWrong") || err.contains("failed"));
}

#[test]
fn test_refresh_mock_success() {
    let body =
        r#"{"AccessToken":"new_at","RefreshToken":"new_rt","UID":"uid","ExpiresIn":3600}"#;
    let res = refresh_answer(true, "200 OK", body);
    assert!(res.is_ok());
    let (tokens, _, _) = res.unwrap();
    assert_eq!(tokens.access_token, "new_at");
    assert_eq!(tokens.refresh_token, "new_rt");
}

#[test]
fn test_token_manager_2fa_flow() {
    let mut tm = TokenManager::new();
    let res = two_fa_answer(true, "200 OK", r#"{"Code":1000}"#, "locked", "rt", "uid");
    assert!(res.is_ok());
    tm.restore_tokens(res.unwrap());
    assert_eq!(tm.uid(), Some("uid"));
}

/// A challenge as the server sends it.
const HV_BODY: &str = r#"{"Code":9001,"Error":"For security reasons, please complete CAPTCHA.","Details":{"HumanVerificationMethods":["captcha","email","sms"],"HumanVerificationToken":"hv-token-abc"}}"#;

#[test]
fn test_parse_captcha_challenge_real_shape() {
    let c = parse_captcha_challenge(HV_BODY).expect("9001 parses");
    assert_eq!(c.methods, vec!["captcha", "email", "sms"]);
    assert_eq!(c.token, "hv-token-abc");
    // No address on the wire: it is put together.
    assert_eq!(
        c.web_url,
        "https://verify.proton.me/?methods=captcha,email,sms&token=hv-token-abc"
    );
    assert_eq!(c.methods_display(), "captcha, email, sms");
}

#[test]
fn test_parse_captcha_prefers_wire_web_url() {
    let body = r#"{"Code":9001,"Error":"x","Details":{"HumanVerificationMethods":["captcha"],"HumanVerificationToken":"t","WebUrl":"https://verify.proton.me/?methods=captcha&token=t"}}"#;
    let c = parse_captcha_challenge(body).expect("9001 parses");
    assert!(c.web_url.starts_with("https://verify.proton.me/"));
}

#[test]
fn test_parse_captcha_rejects_non_hv() {
    // Wrong code, missing Details/methods/token, malformed JSON —
    // all degrade to the generic error path, never a false prompt.
    for body in [
        r#"{"Code":422,"Error":"TotpWrong"}"#,
        r#"{"Code":9001,"Error":"x"}"#,
        r#"{"Code":9001,"Details":{"HumanVerificationToken":"t"}}"#,
        r#"{"Code":9001,"Details":{"HumanVerificationMethods":[],"HumanVerificationToken":"t"}}"#,
        r#"{"Code":9001,"Details":{"HumanVerificationMethods":["captcha"],"HumanVerificationToken":""}}"#,
        "not json",
        "",
    ] {
        assert!(parse_captcha_challenge(body).is_none(), "{body}");
    }
    // String-encoded code is tolerated (lenient wire).
    let string_code = r#"{"Code":"9001","Details":{"HumanVerificationMethods":["captcha"],"HumanVerificationToken":"t"}}"#;
    assert!(parse_captcha_challenge(string_code).is_some());
}

#[test]
fn test_captcha_display_redacts_token_and_url() {
    // Neither the token nor the address that holds it is shown.
    let c = parse_captcha_challenge(HV_BODY).expect("9001 parses");
    let msg = ProtonError::Captcha(c).message();
    assert!(msg.contains("captcha"), "{msg}");
    assert!(!msg.contains("hv-token-abc"), "{msg}");
    assert!(!msg.contains("verify.proton.me"), "{msg}");
}

#[test]
fn test_submit_2fa_mock_captcha_maps_structured() {
    let err = two_fa_answer(
        false,
        "422 Unprocessable Entity",
        HV_BODY,
        "locked-at",
        "rt",
        "test-uid",
    )
    .expect_err("9001 must err");
    let challenge = err.captcha_challenge().expect("structured Captcha");
    assert_eq!(challenge.methods.len(), 3);
    assert!(challenge.web_url.contains("verify.proton.me"));
}

#[test]
fn a_code_comes_before_a_key() {
    let both = make_auth_response(
        r#"{"AccessToken":"a","RefreshToken":"r","UID":"u","ExpiresIn":1,"ServerProof":"s",
            "2FA":{"Enabled":1,"TOTP":1},"TwoFactor":{"Enabled":2}}"#,
    );
    assert!(is_totp_required(&both.TwoFA, &both.TwoFactor));
    assert!(!is_fido2_only(&both.TwoFA, &both.TwoFactor));
}

#[test]
fn answers_are_read_by_place_too() {
    let login = make_auth_response(
        r#"["a","r","u",7,"s",{"Enabled":2},1,["self"],{"Enabled":3}]"#,
    );
    assert_eq!(login.AccessToken, "a");
    assert_eq!(login.ExpiresIn, 7);
    assert_eq!(login.ServerProof, "s");
    assert_eq!(login.TwoFactor.unwrap().Enabled, Some(2));
    assert_eq!(login.PasswordMode, Some(1));
    assert_eq!(login.Scopes.unwrap(), ["self"]);
    assert_eq!(login.TwoFA.unwrap().Enabled, 3);
    let short = make_auth_response(r#"["a","r","u",7,"s"]"#);
    assert!(short.TwoFactor.is_none() && short.TwoFA.is_none() && short.Scopes.is_none());
    for bad in [
        r#"["a","r","u",7]"#,
        r#"["a","r","u","7","s"]"#,
        r#"["a","r","u",7,"s",null,null,null,null,null]"#,
        "5",
    ] {
        assert!(LoginResponse::from_json(&parse_json(bad).unwrap()).is_err(), "{bad}");
    }
    let code = TwoFAResponse::from_json(&parse_json(r#"[1000,"full"]"#).unwrap()).unwrap();
    assert_eq!(code.Code, 1000);
    assert_eq!(code.Scope.as_deref(), Some("full"));
    assert_eq!(TwoFAResponse::from_json(&parse_json("[]").unwrap()).unwrap().Code, 0);
    assert_eq!(
        TwoFAResponse::from_json(&parse_json("5").unwrap()).unwrap_err(),
        "invalid type or length"
    );
    let fresh =
        RefreshResponse::from_json(&parse_json(r#"["a","r","u",9,null,["x"]]"#).unwrap()).unwrap();
    assert_eq!(fresh.ExpiresIn, 9);
    assert_eq!(fresh.Scope, None);
    assert_eq!(fresh.Scopes.unwrap(), ["x"]);
}
