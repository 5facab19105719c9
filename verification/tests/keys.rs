use base64::Engine;
use proton_api::calendar_seal::{extract_session_key, reseal_group};
use proton_api::calendar_write::CardPatch;
use proton_api::contact_seal::{
    build_contact_create_cards_at, detached_sign_any, seal_contact_card, seal_contact_card_at,
};
use proton_api::crypto::open_packet;
use proton_api::openpgp::{key_halves_match, key_lopsided, key_only_signs, key_unusable, KeyPair};
use proton_api::sealing::{
    detached_sign, detached_sign_at, fresh_key_packet, fresh_session_key, reseal_card_at,
    seal_card_at, seal_card_with,
};
use proton_api::vcard::ParsedContact;
use proton_api::{decrypt_contact_card, UnlockedKey};
use sequoia_openpgp::packet::key::{Key4, SecretParts, UnspecifiedRole};
use sequoia_openpgp::packet::{Key, Packet};
use sequoia_openpgp::parse::Parse;
use sequoia_openpgp::serialize::MarshalInto;
use sequoia_openpgp::types::Curve;
use std::time::{Duration, SystemTime};

// RSA keys: with factors of one size, of almost one, and far apart.
const D: &str =
    "6368339a856214d4f2540b06dee3d9e3061629b06e554fd191e3cb2fa117b55ce631431a1344fbe2\
     3db413f9a9c47aae0b5bc36cd6e31022031431b3c9e22663bbac6657eb5bb196d325c7c1a9c85d6f\
     869934e4a6559f115edbf17fa8ad592e457e23395cb04b68cc0eb6780789ff9d03823d2f223513d1\
     cf187d947803bd91";
const P: &str =
    "c32432886bb4127246699464dbe63772bad97069fd356ef093eecdd538cc3f84e44f625809d585da\
     734ef52360ef18d51da125316aac9f018e6343b605eceb4f";
const Q: &str =
    "df27b474402615f619baa4a49f0ac0170928ca2ceca468e9ce6ba18b8ad12fc9a0d4f2e345ffb65d\
     9f9bc6d3adae2c57eafd6a994409a2329ef50006a43e3769";
const NEAR_D: &str =
    "3ebea5eeeceb4087029c6ce374056bfd96afae00c0007e01a6ba94fd84fb017eb3a9707f1f074839\
     66ab8b60f8baf9cb37f44657905e162e0801cffa8770a0e8009a96a87c91003f2a05161ac583a461\
     386a67008a347ad65d4b2e7574ceefeb150d8b3cdda96234c61be0e09d48dff5c6ff538a553b064a\
     cc03b18038e53749";
const NEAR_P: &str =
    "030bea6fcf0b65c702e8b1cc90e159a07b9a2ee2a1617fc9bf422b8406474e46d9243f6f0a6ab130\
     23eaf786373bbd489c7eb0fd584f13615ed6b1f74ac55ecf";
const NEAR_Q: &str =
    "301f16bc510dd81e7671cb82fea2d9b2b19ae9434fa649cf3a21596a50aa04ee8cb31a99121bea44\
     0d2c91688e7b7fc0fd54c1eb68a4c42da7e3a9d57e667b5afd";
const FAR_D: &str =
    "1755a042840a808792e5ae759a3d48109d29144fa4ec5335d5ab0eedd1cbd26a8f4006b785b9557c\
     6b77ae631a7a9e1a0e6047d3de988c2e8b8dcebec2c767f9613e0188e3c74f396cf901837b8909a8\
     45005e58995ed0053dd8ff5cfa4782af38af27024ab85aafe4d8037b16f5b57e5cc5944aed27a96e\
     7494b6b8f0ce2121";
const FAR_P: &str =
    "e3485932ff380767";
const FAR_Q: &str =
    "d6bf94ad4f9b07c15ad9707602e96e1f44897cd1ec657789034cac661118c2012c08787b4d866ed3\
     3e5f30565bfba05d7ea3c08e6a1f42e63cfa344b7225da80d074fef589a2cac14af15b7efd693261\
     bab6195edfddc1e73d00b7f266c108af1de3d5308a1cbbbfd4f4624b59446c537b92a64ecd7ab071";

const AT: u32 = 1_700_000_000;

type Secret = Key4<SecretParts, UnspecifiedRole>;

fn bytes(hex: &str) -> Vec<u8> {
    (0..hex.len())
        .step_by(2)
        .map(|i| u8::from_str_radix(&hex[i..i + 2], 16).unwrap())
        .collect()
}

fn made() -> SystemTime {
    SystemTime::UNIX_EPOCH + Duration::from_secs(1_600_000_000)
}

fn pair(key: Secret) -> KeyPair {
    let key: Key<SecretParts, UnspecifiedRole> = key.into();
    KeyPair {
        packet: key.to_vec().unwrap(),
    }
}

fn rsa(d: &str, p: &str, q: &str) -> KeyPair {
    pair(Secret::import_secret_rsa(&bytes(d), &bytes(p), &bytes(q), made()).unwrap())
}

fn ecc(for_signing: bool, curve: Curve) -> KeyPair {
    let key: Secret = Key4::generate_ecc(for_signing, curve).unwrap();
    pair(key)
}

fn key_of(keypairs: Vec<KeyPair>) -> [UnlockedKey; 1] {
    [UnlockedKey { keypairs }]
}

/// Maker and time of a signature.
fn signature(armored: &str) -> (String, SystemTime) {
    match Packet::from_bytes(armored).unwrap() {
        Packet::Signature(s) => (
            s.issuer_fingerprints().next().unwrap().to_hex(),
            s.signature_creation_time().unwrap(),
        ),
        _ => panic!("no signature"),
    }
}

fn name_of(pair: &KeyPair) -> String {
    let key: Key<SecretParts, UnspecifiedRole> =
        Key::from_bytes(&pair.packet).unwrap().parts_into_secret().unwrap();
    key.fingerprint().to_hex()
}

fn at(seconds: u32) -> SystemTime {
    SystemTime::UNIX_EPOCH + Duration::from_secs(seconds.into())
}

#[test]
fn rsa_cards_read_back() {
    let key = key_of(vec![rsa(D, P, Q)]);
    assert!(!key_lopsided(&key[0].keypairs[0]));
    assert!(!key_unusable(&key[0].keypairs[0]));
    assert!(!key_only_signs(&key[0].keypairs[0]));
    let (data, sig) = seal_contact_card_at(AT, "FN:Ada", &key).unwrap();
    assert_eq!(decrypt_contact_card(&data, &key).unwrap(), "FN:Ada");
    assert_eq!(signature(&sig), (name_of(&key[0].keypairs[0]), at(AT)));
    let session = fresh_session_key().unwrap();
    let packet = fresh_key_packet(&session, &key).unwrap();
    let (algo, back) = open_packet(&packet, &key[0].keypairs[0], None).unwrap();
    assert_eq!((algo, back.bytes), (9, session.bytes));
}

#[test]
fn rsa_factors_may_differ_by_some_bits() {
    let near = rsa(NEAR_D, NEAR_P, NEAR_Q);
    assert!(!key_lopsided(&near) && !key_unusable(&near));
    let key = key_of(vec![near]);
    let (data, sig) = seal_contact_card_at(AT, "FN:Ada", &key).unwrap();
    assert_eq!(decrypt_contact_card(&data, &key).unwrap(), "FN:Ada");
    assert_eq!(signature(&sig).1, at(AT));
}

#[test]
fn nist_cards_read_back() {
    for curve in [Curve::NistP256, Curve::NistP384, Curve::NistP521] {
        let (enc, sign) = (ecc(false, curve.clone()), ecc(true, curve));
        assert!(key_halves_match(&enc));
        assert!(!key_halves_match(&sign));
        assert!(!key_unusable(&enc) && !key_unusable(&sign));
        let key = key_of(vec![enc, sign]);
        let (data, sig) = seal_contact_card_at(AT, "FN:Ada", &key).unwrap();
        assert_eq!(decrypt_contact_card(&data, &key).unwrap(), "FN:Ada");
        assert_eq!(signature(&sig).0, name_of(&key[0].keypairs[1]));
    }
}

#[test]
fn halves_of_two_keys_do_not_match() {
    let a = Secret::generate_ecc(false, Curve::NistP256).unwrap();
    let b = Secret::generate_ecc(false, Curve::NistP256).unwrap();
    let mixed = Secret::with_secret(
        made(),
        a.pk_algo(),
        a.mpis().clone(),
        b.secret().clone(),
    )
    .unwrap();
    assert!(key_halves_match(&pair(a)));
    assert!(!key_halves_match(&pair(mixed)));
}

#[test]
fn an_rsa_match_is_not_claimed() {
    assert!(!key_halves_match(&rsa(D, P, Q)));
}

#[test]
fn a_key_with_factors_far_apart_is_left_alone() {
    let far = rsa(FAR_D, FAR_P, FAR_Q);
    assert!(key_lopsided(&far));
    assert!(key_unusable(&far));
    let text = detached_sign(b"x", &far).err().unwrap().message();
    assert!(text.contains("seal signer: unusable key"), "{text}");
    // Something can be sealed to it, but is not opened with it.
    let key = key_of(vec![far]);
    let session = fresh_session_key().unwrap();
    let packet = fresh_key_packet(&session, &key).unwrap();
    assert!(open_packet(&packet, &key[0].keypairs[0], None).is_none());
}

#[test]
fn signatures_are_of_the_given_time() {
    let signer = ecc(true, Curve::Ed25519);
    for t in [0, 1, AT, u32::MAX] {
        let sig = detached_sign_at(t, b"x", &signer).unwrap();
        assert_eq!(signature(&sig), (name_of(&signer), at(t)));
    }
    let key = key_of(vec![signer.clone()]);
    let cal = key_of(vec![ecc(false, Curve::Cv25519)]);
    let (_, _, sig) = seal_card_at(AT, "x", &cal, &key).unwrap();
    assert_eq!(signature(&sig).1, at(AT));
    let session = fresh_session_key().unwrap();
    let (_, sig) = reseal_card_at(AT, "x", &session, 9, &key[0]).unwrap();
    assert_eq!(signature(&sig).1, at(AT));
    let cards = vec![(false, "BEGIN:VEVENT\r\nUID:u\r\nEND:VEVENT".to_string())];
    let patch = CardPatch::default();
    let parts = reseal_group(AT, &cards, &patch, &patch, None, &key).unwrap();
    assert_eq!(signature(&parts[0].Signature).1, at(AT));
}

#[test]
fn a_card_is_sealed_with_the_given_session_key() {
    let key = key_of(vec![ecc(true, Curve::Ed25519)]);
    let cal = key_of(vec![ecc(false, Curve::Cv25519)]);
    let session = fresh_session_key().unwrap();
    assert_eq!(session.bytes.len(), 32);
    let (packet, data, _) = seal_card_with(AT, &session, "x", &cal, &key).unwrap();
    let (algo, back) = open_packet(&packet, &cal[0].keypairs[0], None).unwrap();
    assert_eq!((algo, &back.bytes), (9, &session.bytes));
    assert!(!data.is_empty());
    assert!(seal_card_with(AT, &session, "x", &[], &key).is_err());
    assert!(seal_card_with(AT, &session, "x", &cal, &[]).is_err());
}

#[test]
fn the_first_pairs_that_work_are_taken() {
    let (s1, s2) = (ecc(true, Curve::Ed25519), ecc(true, Curve::NistP256));
    let (e1, e2) = (ecc(false, Curve::Cv25519), ecc(false, Curve::NistP256));
    let key = key_of(vec![s1.clone(), e1.clone(), s2, e2]);
    let sig = detached_sign_any(AT, "x", &key).unwrap();
    assert_eq!(signature(&sig), (name_of(&s1), at(AT)));
    let (data, sig) = seal_contact_card_at(AT, "x", &key).unwrap();
    assert_eq!(signature(&sig).0, name_of(&s1));
    // Encrypted to the first pair that takes messages, and to no other.
    assert_eq!(decrypt_contact_card(&data, &key_of(vec![e1.clone()])).unwrap(), "x");
    let rest: Vec<KeyPair> = key[0].keypairs.iter().skip(2).cloned().collect();
    assert!(decrypt_contact_card(&data, &key_of(rest)).is_err());
    // What cannot sign is passed over.
    let key = key_of(vec![e1.clone(), rsa(FAR_D, FAR_P, FAR_Q), s1.clone()]);
    let sig = detached_sign_any(AT, "x", &key).unwrap();
    assert_eq!(signature(&sig).0, name_of(&s1));
    // Where none works, the last attempt is told of.
    let far = key_of(vec![e1, rsa(FAR_D, FAR_P, FAR_Q)]);
    let text = seal_contact_card(" ", &far).err().unwrap().message();
    assert!(text.contains("seal: ") && text.contains("unusable key"), "{text}");
    let text = detached_sign_any(AT, "x", &far).err().unwrap().message();
    assert!(text.contains("seal sign: ") && text.contains("unusable key"), "{text}");
}

#[test]
fn a_new_contact_is_signed_at_its_time() {
    let key = key_of(vec![ecc(true, Curve::Ed25519)]);
    let phone = ParsedContact {
        display_name: "Ada".into(),
        ..ParsedContact::default()
    };
    let cards = build_contact_create_cards_at(AT, &phone, "u", &key).unwrap().unwrap();
    assert_eq!(cards.len(), 1);
    assert_eq!(signature(&cards[0].Signature).1, at(AT));
}

#[test]
fn a_packet_of_another_key_gives_no_session() {
    let (a, b) = (ecc(false, Curve::NistP384), ecc(false, Curve::NistP384));
    let session = fresh_session_key().unwrap();
    let packet = fresh_key_packet(&session, &key_of(vec![a])).unwrap();
    assert!(open_packet(&packet, &b, None).is_none());
    let text = base64::engine::general_purpose::STANDARD.encode(&packet);
    assert!(extract_session_key(&text, &key_of(vec![b])).is_err());
}
