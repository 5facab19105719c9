use bcrypt::Version;
use num_bigint::BigUint;
use proton_api::auth::{login_answer, login_state, read_auth_info};
use proton_api::crypto::{derive_mailbox_password, salt_is_usable};
use proton_api::error::CaptchaChallenge;
use proton_api::json::{parse_json, to_compact, Json};
use proton_api::keys::{derive_passwords, salts_are_usable, salts_failure};
use proton_api::srp::{
    accepts_secret, decode_modulus, expand_hash, extract_clearsign_payload, hash_password,
    modulus_is_usable, srp_salt_is_usable, AuthInfo, Drawn, SrpAuth,
};
use proton_api::tokens::AccessStep;
use proton_api::wire::{
    auth_info_request, auth_request, passwords_json, refresh_request, two_fa_request,
};
use proton_api::{AuthTokens, KeySalt, LoginState, ProtonError, TokenManager, UserKey};
use sequoia_openpgp::cert::CertBuilder;
use sequoia_openpgp::serialize::Serialize;

fn parsed(s: &str) -> Json {
    parse_json(s).unwrap()
}

#[test]
fn hashes_are_expanded_to_256_bytes() {
    let h = expand_hash(&b"abc".to_vec());
    assert_eq!(h.len(), 256);
    assert_eq!(h[..8], HEAD);
    assert_eq!(h[248..], TAIL);
}

const HEAD: [u8; 8] = [124, 224, 94, 218, 35, 62, 84, 90];
const TAIL: [u8; 8] = [224, 173, 9, 15, 68, 201, 126, 142];

/// A prime of 2048 bits of a known group.
const PRIME: &str = "FFFFFFFFFFFFFFFFC90FDAA22168C234C4C6628B80DC1CD129024E088A67CC74020BBEA63B139B22514A08798E3404DDEF9519B3CD3A431B302B0A6DF25F14374FE1356D6D51C245E485B576625E7EC6F44C42E9A637ED6B0BFF5CB6F406B7EDEE386BFB5A899FA5AE9F24117C4B1FE649286651ECE45B3DC2007CB8A163BF0598DA48361C55D39A69163FA8FD24CF5F83655D23DCA3AD961C62F356208552BB9ED529077096966D670C354E4ABC9804F1746C08CA18217C32905E462E36CE3BE39E772C180E86039B2783A2EC07A28FB5C55DF06F4C52C9DE2BCBF6955817183995497CEA956AE515D2261898FA051015728E5A8AACAA68FFFFFFFFFFFFFFFF";

fn le(n: &BigUint) -> Vec<u8> {
    let mut b = n.to_bytes_le();
    b.resize(256, 0);
    b
}

fn value(b: &[u8]) -> BigUint {
    BigUint::from_bytes_le(b)
}

#[test]
fn client_and_server_agree() {
    let n = BigUint::parse_bytes(PRIME.as_bytes(), 16).unwrap();
    let g = BigUint::from(2u8);
    let hashed = expand_hash(&b"password".to_vec());
    let v = g.modpow(&value(&hashed), &n);
    let b = BigUint::from(123_456_789u64).pow(7);
    let mut k_data = le(&g);
    k_data.extend(le(&n));
    let k = value(&expand_hash(&k_data));
    let public = (k * &v + g.modpow(&b, &n)) % &n;
    let auth = SrpAuth {
        modulus: le(&n),
        server_ephemeral: le(&public),
        hashed_password: hashed,
        srp_session: "session".into(),
    };
    let secret = le(&BigUint::from(987_654_321u64).pow(9));
    assert!(accepts_secret(&secret, &auth.modulus));
    let proofs = auth.proofs_with_secret(2048, &secret);
    assert_eq!(
        proofs.client_ephemeral,
        le(&g.modpow(&value(&secret), &n))
    );
    let mut u_data = proofs.client_ephemeral.clone();
    u_data.extend(&auth.server_ephemeral);
    let u = value(&expand_hash(&u_data));
    let shared = (value(&proofs.client_ephemeral) * v.modpow(&u, &n)).modpow(&b, &n);
    let mut proof = proofs.client_ephemeral.clone();
    proof.extend(&auth.server_ephemeral);
    proof.extend(le(&shared));
    assert_eq!(proofs.client_proof, expand_hash(&proof));
    assert_eq!(proofs.srp_session, "session");
    assert!(modulus_is_usable(&auth.modulus, 2048));
    let drawn = auth.generate_proofs(2048).unwrap();
    assert_eq!(drawn.client_ephemeral.len(), 256);
    assert_ne!(drawn.client_proof, proofs.client_proof);
    // Each draw by itself.
    match auth.proofs_of_draw(2048, Some(secret)) {
        Drawn::Proofs(p) => {
            assert_eq!(p.client_ephemeral, proofs.client_ephemeral);
            assert_eq!(p.client_proof, proofs.client_proof);
            assert_eq!(p.srp_session, "session");
        }
        _ => panic!("no proofs"),
    }
    for refused in [le(&n), le(&(&n - 1u8)), vec![0; 256], le(&BigUint::from(u64::MAX))] {
        assert!(matches!(auth.proofs_of_draw(2048, Some(refused)), Drawn::Again));
    }
    match auth.proofs_of_draw(2048, None) {
        Drawn::Failed(ProtonError::Auth(m)) => assert_eq!(m, "RNG"),
        _ => panic!("no failure"),
    }
}

#[test]
fn secrets_lie_between_64_bits_and_the_modulus() {
    let n = le(&BigUint::from(u64::MAX).pow(2));
    assert!(!accepts_secret(&vec![255; 8], &n));
    assert!(accepts_secret(&vec![0, 0, 0, 0, 0, 0, 0, 0, 1], &n));
    assert!(!accepts_secret(&n, &n));
    assert!(!modulus_is_usable(&vec![255; 8], 2048));
    assert!(!modulus_is_usable(&vec![255; 257], 2048));
    assert!(modulus_is_usable(&vec![255; 256], 2048));
}

#[test]
fn passwords_are_hashed_with_bcrypt() {
    let modulus = vec![7u8; 256];
    let salt: Vec<u8> = (1u8..=10).collect();
    let mut salted = salt.clone();
    salted.extend(b"proton");
    let mut bytes = [0u8; 16];
    bytes.copy_from_slice(&salted[..16]);
    let text = bcrypt::hash_with_salt(b"secret", 10, bytes)
        .unwrap()
        .format_for_version(Version::TwoY);
    let mut data = text.into_bytes();
    data.extend(&modulus);
    assert_eq!(
        hash_password(4, b"secret", &salt, &modulus).unwrap(),
        expand_hash(&data)
    );
    match hash_password(2, b"secret", &salt, &modulus) {
        Err(ProtonError::Auth(m)) => assert_eq!(m, "Unsupported auth version: 2"),
        other => panic!("{other:?}"),
    }
}

#[test]
fn mailbox_password_is_the_digest() {
    let salt = "AAECAwQFBgcICQoLDA0ODw==";
    assert!(salt_is_usable(salt));
    assert!(!salt_is_usable("AAEC"));
    let mut bytes = [0u8; 16];
    for (i, b) in bytes.iter_mut().enumerate() {
        *b = i as u8;
    }
    let text = bcrypt::hash_with_salt(b"secret", 10, bytes)
        .unwrap()
        .format_for_version(Version::TwoY);
    let derived = derive_mailbox_password(b"secret", salt).unwrap();
    assert_eq!(derived, text.as_bytes()[29..]);
    match derive_mailbox_password(b"secret", "!") {
        Err(ProtonError::Crypto(m)) => assert!(m.starts_with("Invalid key salt base64: "), "{m}"),
        other => panic!("{other:?}"),
    }
}

#[test]
fn a_signed_modulus_is_taken_out_of_its_frame() {
    let msg = "-----BEGIN PGP SIGNED MESSAGE-----\nHash: SHA256\n\nAQID\n-----BEGIN PGP SIGNATURE-----\nx\n-----END PGP SIGNATURE-----\n";
    assert_eq!(extract_clearsign_payload(msg).unwrap(), "AQID");
    assert_eq!(decode_modulus(msg).unwrap(), [1, 2, 3]);
    assert!(extract_clearsign_payload("AQID").is_err());
    assert!(srp_salt_is_usable("AQIDBAUGBwgJCg=="));
    assert!(!srp_salt_is_usable("AQID"));
    let info = AuthInfo {
        Modulus: msg.into(),
        ServerEphemeral: "AQ==".into(),
        Version: 1,
        Salt: "AQIDBAUGBwgJCg==".into(),
        SRPSession: "s".into(),
    };
    assert!(SrpAuth::new("pw", &info).is_err());
    let info = AuthInfo {
        Version: 4,
        ..info
    };
    let auth = SrpAuth::new("pw", &info).unwrap();
    assert_eq!(auth.modulus, [1, 2, 3]);
    assert_eq!(auth.server_ephemeral, [1]);
    assert_eq!(auth.hashed_password.len(), 256);
}

#[test]
fn auth_info_needs_its_fields() {
    let info = read_auth_info(&parsed(
        r#"{"Modulus":"m","ServerEphemeral":"e","Version":4,"Salt":"s","SRPSession":"x","TwoFactor":1}"#,
    ))
    .unwrap();
    assert_eq!((info.Modulus.as_str(), info.Version), ("m", 4));
    assert!(read_auth_info(&parsed("{}")).is_err());
}

#[test]
fn logins_of_security_keys_alone_are_refused() {
    let body = r#"{"AccessToken":"a","RefreshToken":"r","UID":"u","ExpiresIn":1,"ServerProof":"s","2FA":{"Enabled":2,"TOTP":0}}"#;
    let resp = login_answer(true, "200 OK", body).unwrap();
    match login_state(resp) {
        Err(ProtonError::Auth(m)) => assert!(m.starts_with("FIDO2"), "{m}"),
        _ => panic!("expected a refusal"),
    }
    match login_answer(false, "422 Unprocessable Entity", "no") {
        Err(ProtonError::Auth(m)) => {
            assert_eq!(m, "Auth POST failed 422 Unprocessable Entity: no")
        }
        _ => panic!("expected a refusal"),
    }
    assert!(matches!(
        login_answer(true, "200 OK", "{}"),
        Err(ProtonError::Serde(_))
    ));
}

#[test]
fn requests_have_their_members() {
    assert_eq!(to_compact(&auth_info_request("ada")), r#"{"Username":"ada"}"#);
    assert_eq!(
        to_compact(&two_fa_request("123456")),
        r#"{"TwoFactorCode":"123456"}"#
    );
    assert_eq!(
        to_compact(&refresh_request("rt")),
        r#"{"GrantType":"refresh_token","RefreshToken":"rt"}"#
    );
    let proofs = proton_api::srp::SrpProofs {
        client_ephemeral: vec![1, 2, 3],
        client_proof: vec![255],
        srp_session: "s".into(),
    };
    assert_eq!(
        to_compact(&auth_request("ada", &proofs)),
        r#"{"ClientEphemeral":"AQID","ClientProof":"/w==","SRPSession":"s","Username":"ada"}"#
    );
}

fn tokens(n: &str) -> AuthTokens {
    AuthTokens {
        access_token: format!("a{n}"),
        refresh_token: format!("r{n}"),
        uid: format!("u{n}"),
    }
}

#[test]
fn restored_tokens_are_refreshed_first() {
    let mut m = TokenManager::new();
    assert!(matches!(m.access_token(0), Err(ProtonError::Auth(_))));
    m.restore_tokens(tokens("1"));
    assert!(m.is_expired(0));
    match m.access_token(5).unwrap() {
        AccessStep::Refresh { refresh_token, uid } => {
            assert_eq!((refresh_token.as_str(), uid.as_str()), ("r1", "u1"))
        }
        AccessStep::Ready(t) => panic!("{t}"),
    }
    m.refreshed(tokens("2"), Some("full".into()), vec!["x".into(), "y".into()], 5);
    assert_eq!(m.last_refresh_scopes().as_deref(), Some("full|x,y"));
    assert!(!m.is_expired(5 + 3_599_999));
    assert!(m.is_expired(5 + 3_600_000));
    match m.access_token(6).unwrap() {
        AccessStep::Ready(t) => assert_eq!(t, "a2"),
        AccessStep::Refresh { .. } => panic!("fresh tokens are used"),
    }
    m.set_expiry(1, 10);
    assert!(m.is_expired(1010));
    assert_eq!(m.take_tokens().unwrap().uid, "u2");
    assert!(m.get_tokens().is_none());
}

#[test]
fn locked_logins_keep_the_session() {
    let mut m = TokenManager::new();
    m.restore_tokens(tokens("1"));
    m.login(
        &LoginState::Requires2FA {
            access_token: "x".into(),
            refresh_token: "y".into(),
            uid: "z".into(),
            scopes: vec![],
        },
        7,
    );
    assert_eq!(m.uid(), Some("u1"));
    m.login(
        &LoginState::Authenticated {
            tokens: tokens("3"),
            scopes: vec![],
        },
        7,
    );
    assert_eq!(m.refresh_token(), Some("r3"));
    assert!(!m.is_expired(7));
}

fn locked_key(password: &str) -> String {
    let (cert, _) = CertBuilder::new()
        .set_password(Some(password.into()))
        .generate()
        .unwrap();
    let mut bytes = Vec::new();
    cert.as_tsk().armored().export(&mut bytes).unwrap();
    String::from_utf8(bytes).unwrap()
}

fn user_key(id: &str, armored: String) -> UserKey {
    UserKey {
        ID: id.into(),
        Version: 3,
        PrivateKey: armored,
        Token: String::new(),
        Signature: String::new(),
        Primary: 1,
        Active: 1,
    }
}

#[test]
fn only_passwords_that_unlock_are_kept() {
    let salt = "AAECAwQFBgcICQoLDA0ODw==";
    let derived = derive_mailbox_password(b"login", salt).unwrap();
    let derived_text = String::from_utf8(derived).unwrap();
    let locked = locked_key(&derived_text);
    let keys = vec![
        user_key("good", locked.clone()),
        user_key("bad", "no key".into()),
        user_key("unsalted", locked),
    ];
    let salts = vec![
        KeySalt {
            ID: "good".into(),
            KeySalt: Some(salt.into()),
        },
        KeySalt {
            ID: "bad".into(),
            KeySalt: Some(salt.into()),
        },
        KeySalt {
            ID: "unsalted".into(),
            KeySalt: None,
        },
    ];
    assert!(salts_are_usable(&keys, &vec![], &salts));
    let map = derive_passwords("login", &keys, &vec![], &salts);
    assert_eq!(map.len(), 1);
    let stored = map.get("good").unwrap();
    assert_eq!(
        proton_api::srp::b64_decode(stored).unwrap(),
        derived_text.as_bytes()
    );
    assert_eq!(
        passwords_json(&map).get("good"),
        Some(&proton_api::json::json_text(stored))
    );
}

#[test]
fn refused_salts_name_the_start_of_the_token() {
    match salts_failure("403 Forbidden", "abcdefgh", "u1", "no") {
        ProtonError::Auth(m) => assert_eq!(
            m,
            "get_key_salts 403 Forbidden token_prefix=abcdef uid=u1 body: no"
        ),
        other => panic!("{other:?}"),
    }
}

#[test]
fn every_error_has_its_text() {
    let captcha = CaptchaChallenge {
        methods: vec!["captcha".into(), "sms".into()],
        token: "tok".into(),
        web_url: "https://verify".into(),
    };
    let all = [
        (ProtonError::Http("x".into()), "HTTP error: x"),
        (
            ProtonError::Api {
                code: -7,
                message: "m".into(),
            },
            "API error -7: m",
        ),
        (ProtonError::Auth("a".into()), "Authentication failed: a"),
        (
            ProtonError::Captcha(captcha),
            "Proton human verification required (methods: captcha, sms)",
        ),
        (ProtonError::TokenExpired, "Token expired"),
        (ProtonError::Crypto("c".into()), "Crypto error: c"),
        (ProtonError::Serde("s".into()), "Serialization error: s"),
        (ProtonError::Io("i".into()), "IO error: i"),
    ];
    for (e, text) in all {
        assert_eq!(e.message(), text);
        assert_eq!(e.captcha_challenge().is_some(), text.contains("verification"));
    }
}

#[test]
fn the_login_password_itself_is_not_stored() {
    let keys = vec![user_key("plain", locked_key("login"))];
    let salts = vec![KeySalt {
        ID: "plain".into(),
        KeySalt: Some(String::new()),
    }];
    assert!(salts_are_usable(&keys, &vec![], &salts));
    assert_eq!(derive_passwords("login", &keys, &vec![], &salts).len(), 0);
}

#[test]
fn only_salts_in_use_have_to_be_usable() {
    let keys = vec![user_key("k", "no key".into())];
    let salts = vec![KeySalt {
        ID: "other".into(),
        KeySalt: Some("AAECAw==".into()),
    }];
    assert!(salts_are_usable(&keys, &vec![], &salts));
    assert_eq!(derive_passwords("login", &keys, &vec![], &salts).len(), 0);
}
