use base64::Engine;
use proton_api::calendar::{decrypt_calendar_part, parse_ical};
use proton_api::calendar_seal::{
    build_create_body, build_update_body, detached_sign, extract_session_key, reseal_card,
    seal_card,
};
use proton_api::json::{parse_json, Json};
use proton_api::{
    format_ical_date_end_exclusive, format_ical_dt, AttendeeToken, CalendarEvent,
    CalendarEventPart, LocalFields, UnlockedKey, UpdateOverrides,
};
use sequoia_openpgp::cert::CertBuilder;
use sequoia_openpgp::parse::stream::DetachedVerifierBuilder;
use sequoia_openpgp::parse::Parse;
use sequoia_openpgp::serialize::Serialize;

fn json(s: &str) -> Json {
    parse_json(s).unwrap()
}

struct OneCert(sequoia_openpgp::Cert);
impl sequoia_openpgp::parse::stream::VerificationHelper for OneCert {
    fn get_certs(
        &mut self,
        _ids: &[sequoia_openpgp::KeyHandle],
    ) -> sequoia_openpgp::Result<Vec<sequoia_openpgp::Cert>> {
        Ok(vec![self.0.clone()])
    }
    fn check(
        &mut self,
        s: sequoia_openpgp::parse::stream::MessageStructure,
    ) -> sequoia_openpgp::Result<()> {
        s.iter().next().unwrap();
        Ok(())
    }
}

/// Fresh test identity: public cert + unlocked key (primary + signing
/// subkey + transport encryption subkey, no password).
fn test_identity() -> (sequoia_openpgp::Cert, UnlockedKey) {
    let (cert, _) = CertBuilder::new()
        .add_signing_subkey()
        .add_transport_encryption_subkey()
        .generate()
        .expect("test key generation");
    // NB: `armored()` exports public-only; secret material needs `as_tsk()`.
    let mut armored_bytes = Vec::new();
    cert.as_tsk()
        .armored()
        .export(&mut armored_bytes)
        .expect("test cert armor");
    let armored = armored_bytes
        .into_iter()
        .map(|b| b as char)
        .collect::<String>();
    let unlocked = UnlockedKey::from_armored(&armored, b"").expect("test key unlock");
    (cert, unlocked)
}

fn b64(raw: &[u8]) -> String {
    base64::engine::general_purpose::STANDARD.encode(raw)
}

#[test]
fn test_detached_sign_is_armored() {
    let (_, addr) = test_identity();
    let sig = detached_sign(b"UID:u1", addr.keypairs.first().unwrap()).unwrap();
    assert!(sig.starts_with("-----BEGIN PGP SIGNATURE-----"), "{sig}");
    assert!(sig.contains("-----END PGP SIGNATURE-----"), "{sig}");
}

#[test]
fn test_detached_sign_verifies_against_public_key() {
    let (cert, addr) = test_identity();
    let sig = detached_sign(b"Hello", addr.keypairs.first().unwrap()).unwrap();
    let policy = sequoia_openpgp::policy::StandardPolicy::new();
    let mut verifier = DetachedVerifierBuilder::from_bytes(sig.as_bytes())
        .unwrap()
        .with_policy(&policy, None, OneCert(cert))
        .unwrap();
    verifier.verify_bytes(b"Hello").unwrap();
}

#[test]
fn calendar_seal_test_seal_round_trips_through_read_path() {
    // What is sealed reads back through the split-packet path.
    let (_, cal) = test_identity();
    let (_, addr) = test_identity();
    let plain = "BEGIN:VEVENT\r\nUID:seal-1\r\nSUMMARY:Sealed\r\nEND:VEVENT";
    let (kp, data, sig) = seal_card(
        plain,
        std::slice::from_ref(&cal),
        std::slice::from_ref(&addr),
    )
    .unwrap();
    assert!(!kp.is_empty() && !data.is_empty());
    assert!(sig.starts_with("-----BEGIN PGP SIGNATURE-----"));

    let part = CalendarEventPart {
        MemberID: String::new(),
        Type: 3, // encrypted (+ signed bit not required for decrypt)
        Data: b64(&data),
        Signature: sig,
        Author: String::new(),
    };
    let kp_b64 = b64(&kp);
    let back = decrypt_calendar_part(
        &part,
        std::slice::from_ref(&cal),
        std::slice::from_ref(&addr),
        Some(&kp_b64),
    )
    .unwrap();
    assert_eq!(back, plain);
}

#[test]
fn test_extract_and_reseal_reuses_packet() {
    // An update reuses the packet: extract SK from the STORED packet, seal new
    // plaintext with it, combine ORIGINAL kp + NEW data → decrypts.
    let (_, cal) = test_identity();
    let (_, addr) = test_identity();
    let (kp, _data, _sig) = seal_card(
        "BEGIN:VEVENT\r\nUID:r1\r\nSUMMARY:v1\r\nEND:VEVENT",
        std::slice::from_ref(&cal),
        std::slice::from_ref(&addr),
    )
    .unwrap();
    let kp_b64 = b64(&kp);
    let (algo, sk) = extract_session_key(&kp_b64, std::slice::from_ref(&cal)).unwrap();
    let patched = "BEGIN:VEVENT\r\nUID:r1\r\nSUMMARY:v2 edited\r\nEND:VEVENT";
    let (new_data, _new_sig) = reseal_card(patched, &sk, algo, &addr).unwrap();
    // Same packet, new data → the update body shape (no new key packet).
    let part = CalendarEventPart {
        MemberID: String::new(),
        Type: 3,
        Data: b64(&new_data),
        Signature: String::new(),
        Author: String::new(),
    };
    let back = decrypt_calendar_part(
        &part,
        std::slice::from_ref(&cal),
        &[],
        Some(&kp_b64),
    )
    .unwrap();
    assert_eq!(back, patched);
}

#[test]
fn test_extract_rejects_wrong_key() {
    let (_, cal) = test_identity();
    let (_, other) = test_identity();
    let (_, addr) = test_identity();
    let (kp, _, _) = seal_card(
        "plain",
        std::slice::from_ref(&cal),
        std::slice::from_ref(&addr),
    )
    .unwrap();
    assert!(extract_session_key(&b64(&kp), std::slice::from_ref(&other)).is_err());
}

/// Decrypt one Type-3 body part with an explicit packet through the
/// read path (mirrors update/download symmetry).
fn decrypt_body(
    data_b64: &str,
    sig: &str,
    kp_b64: &str,
    cal: &UnlockedKey,
    addr: &UnlockedKey,
) -> String {
    let part = CalendarEventPart {
        MemberID: String::new(),
        Type: 3,
        Data: data_b64.to_string(),
        Signature: sig.to_string(),
        Author: String::new(),
    };
    decrypt_calendar_part(
        &part,
        std::slice::from_ref(cal),
        std::slice::from_ref(addr),
        Some(kp_b64),
    )
    .unwrap()
}

struct UpdateFixture {
    row: CalendarEvent,
    shared_kp_b64: String,
    cal: UnlockedKey,
    addr: UnlockedKey,
}

/// Signed structural + sealed text cards (SEQUENCE:3), no attendees,
/// no personal parts — the updatable shape.
fn update_fixture() -> UpdateFixture {
    let (_, cal) = test_identity();
    let (_, addr) = test_identity();
    let shared_signed =
        "BEGIN:VEVENT\r\nUID:fx-1\r\nDTSTART:20260914T200000Z\r\nDTEND:20260914T210000Z\r\nSEQUENCE:3\r\nEND:VEVENT";
    let shared_plain =
        "BEGIN:VEVENT\r\nUID:fx-1\r\nSUMMARY:Old title\r\nDESCRIPTION:Keep me\r\nEND:VEVENT";
    let cal_signed = "BEGIN:VEVENT\r\nUID:fx-1\r\nSTATUS:CONFIRMED\r\nEND:VEVENT";
    let (skp, sdata, ssig) = seal_card(
        shared_plain,
        std::slice::from_ref(&cal),
        std::slice::from_ref(&addr),
    )
    .unwrap();
    let shared_kp_b64 = b64(&skp);
    let t0 = chrono::DateTime::parse_from_rfc3339("2026-09-14T20:00:00Z")
        .unwrap()
        .timestamp();
    let row = CalendarEvent {
        ID: "fx-1".into(),
        UID: "fx-1".into(),
        CalendarID: "c1".into(),
        StartTime: t0,
        EndTime: t0 + 3600,
        FullDay: Some(false),
        RRule: None,
        Notifications: Some(vec![json(r#"{"Trigger": "-PT15M", "Type": 1}"#)]),
        Color: None,
        SharedKeyPacket: shared_kp_b64.clone(),
        CalendarKeyPacket: String::new(),
        SharedEvents: vec![
            CalendarEventPart {
                MemberID: String::new(),
                Type: 2,
                Data: shared_signed.to_string(),
                Signature: "ssig".into(),
                Author: String::new(),
            },
            CalendarEventPart {
                MemberID: String::new(),
                Type: 3,
                Data: b64(&sdata),
                Signature: ssig,
                Author: String::new(),
            },
        ],
        CalendarEvents: vec![CalendarEventPart {
            MemberID: String::new(),
            Type: 2,
            Data: cal_signed.to_string(),
            Signature: "csig".into(),
            Author: String::new(),
        }],
        ..Default::default()
    };
    UpdateFixture {
        row,
        shared_kp_b64,
        cal,
        addr,
    }
}

#[test]
fn test_update_text_edit_preserves_rest() {
    let fx = update_fixture();
    let fields = LocalFields {
        summary: Some("New title".into()),
        ..Default::default()
    };
    let body = build_update_body(
        &fx.row,
        &fields,
        None,
        std::slice::from_ref(&fx.cal),
        std::slice::from_ref(&fx.addr),
    )
    .unwrap()
    .expect("text edit seals");
    // No key packets on update; notifications verbatim.
    assert!(body.SharedKeyPacket.is_none());
    assert_eq!(
        body.Notifications,
        json(r#"[{"Trigger": "-PT15M", "Type": 1}]"#)
    );
    // Encrypted part decrypts (ORIGINAL packet) to edited text + kept text.
    let enc = body
        .SharedEventContent
        .iter()
        .find(|p| p.Type == 3)
        .expect("encrypted part");
    let plain = decrypt_body(
        &enc.Data,
        &enc.Signature,
        &fx.shared_kp_b64,
        &fx.cal,
        &fx.addr,
    );
    let parsed = parse_ical(&plain).unwrap();
    assert_eq!(parsed.summary, "New title");
    assert_eq!(parsed.description, "Keep me");
    // Structural untouched, SEQUENCE unbumped (not significant).
    let signed = body
        .SharedEventContent
        .iter()
        .find(|p| p.Type == 2)
        .expect("signed part");
    assert!(signed.Data.contains("DTSTART:20260914T200000Z"));
    assert!(signed.Data.contains("SEQUENCE:3"));
    // Calendar card resealed verbatim (re-signed).
    assert_eq!(body.CalendarEventContent.len(), 1);
    assert!(body.CalendarEventContent[0]
        .Data
        .contains("STATUS:CONFIRMED"));
}

#[test]
fn test_update_time_edit_bumps_sequence() {
    let fx = update_fixture();
    let t0 = fx.row.StartTime;
    let fields = LocalFields {
        start_unix: Some(t0 + 3600),
        end_unix: Some(t0 + 7200),
        ..Default::default()
    };
    let body = build_update_body(
        &fx.row,
        &fields,
        None,
        std::slice::from_ref(&fx.cal),
        std::slice::from_ref(&fx.addr),
    )
    .unwrap()
    .expect("time edit seals");
    let signed = body
        .SharedEventContent
        .iter()
        .find(|p| p.Type == 2)
        .unwrap();
    assert!(
        signed.Data.contains("DTSTART:20260914T210000Z"),
        "{}",
        signed.Data
    );
    assert!(
        signed.Data.contains("DTEND:20260914T220000Z"),
        "{}",
        signed.Data
    );
    assert!(signed.Data.contains("SEQUENCE:4"), "{}", signed.Data);
}

#[test]
fn test_update_strips_version_prodid() {
    // VERSION and PRODID of the server are read but never sent back.
    let mut fx = update_fixture();
    fx.row.SharedEvents[0].Data = format!(
        "BEGIN:VEVENT\r\nVERSION:2.0\r\nPRODID:-//Proton AG//web-calendar//EN\r\n{}",
        fx.row.SharedEvents[0].Data
    );
    let fields = LocalFields {
        summary: Some("Stripped".into()),
        ..Default::default()
    };
    let body = build_update_body(
        &fx.row,
        &fields,
        None,
        std::slice::from_ref(&fx.cal),
        std::slice::from_ref(&fx.addr),
    )
    .unwrap()
    .expect("strips and seals");
    for part in body
        .SharedEventContent
        .iter()
        .chain(body.CalendarEventContent.iter())
    {
        if (part.Type & 1) != 0 {
            continue; // ciphertext opaque; signed parts carry the check
        }
        assert!(!part.Data.contains("VERSION:"), "{}", part.Data);
        assert!(!part.Data.contains("PRODID:"), "{}", part.Data);
    }
}

#[test]
fn test_update_preserves_attendee_tokens() {
    // Attendee cards are sealed again as they are, and the clear rows are
    // sent again: without them the answers of the guests would be lost.
    let mut fx = update_fixture();
    fx.row.CalendarEvents[0].Data += "\r\nATTENDEE:mailto:a@b.c";
    fx.row.Attendees = vec![AttendeeToken {
        Token: "tok-1".into(),
        Status: 3,
    }];
    let fields = LocalFields {
        summary: Some("x".into()),
        ..Default::default()
    };
    let body = build_update_body(
        &fx.row,
        &fields,
        None,
        std::slice::from_ref(&fx.cal),
        std::slice::from_ref(&fx.addr),
    )
    .unwrap()
    .expect("attendee rows proceed");
    assert_eq!(
        body.Attendees,
        json(r#"[{"Token": "tok-1", "Status": 3, "Comment": null}]"#)
    );
}

#[test]
fn test_update_overrides_notifications_and_color() {
    let fx = update_fixture();
    // Row carries one custom reminder; override replaces it, null
    // forces inherit, color swaps the row value.
    let fields = LocalFields::default();
    let overrides = UpdateOverrides {
        notifications: Some(Some(vec![
            json(r#"{"Trigger": "-PT1H", "Type": 1}"#),
        ])),
        color: Some("#EC3E7C".into()),
    };
    let body = build_update_body(
        &fx.row,
        &fields,
        Some(&overrides),
        std::slice::from_ref(&fx.cal),
        std::slice::from_ref(&fx.addr),
    )
    .unwrap()
    .expect("overrides seal");
    assert_eq!(
        body.Notifications,
        json(r#"[{"Trigger": "-PT1H", "Type": 1}]"#)
    );
    assert_eq!(body.Color, json(r##""#EC3E7C""##));
    let null_over = UpdateOverrides {
        notifications: Some(None),
        color: None,
    };
    let body2 = build_update_body(
        &fx.row,
        &fields,
        Some(&null_over),
        std::slice::from_ref(&fx.cal),
        std::slice::from_ref(&fx.addr),
    )
    .unwrap()
    .expect("null override seals");
    assert_eq!(body2.Notifications, Json::Null);
    // No overrides → verbatim row values (prove with the fixture's row).
    assert_eq!(
        fx.row.Notifications,
        Some(vec![json(r#"{"Trigger": "-PT15M", "Type": 1}"#)])
    );
}

#[test]
fn test_update_defers_personal_events() {
    // PersonalEvents card → never decrypted, must not drop.
    let fields = LocalFields {
        summary: Some("x".into()),
        ..Default::default()
    };
    let mut fx2 = update_fixture();
    fx2.row.PersonalEvents = vec![CalendarEventPart {
        MemberID: String::new(),
        Type: 2,
        Data: "BEGIN:VEVENT\r\nUID:fx-1\r\nX-PERSONAL:y\r\nEND:VEVENT".into(),
        Signature: "s".into(),
        Author: String::new(),
    }];
    assert!(
        build_update_body(&fx2.row, &fields, None, &[fx2.cal], &[fx2.addr])
            .unwrap()
            .is_none()
    );
}

#[test]
fn test_create_body_round_trips() {
    let (_, cal) = test_identity();
    let (_, addr) = test_identity();
    let t0 = chrono::DateTime::parse_from_rfc3339("2026-09-14T20:00:00Z")
        .unwrap()
        .timestamp();
    let fields = LocalFields {
        summary: Some("Fresh".into()),
        description: Some("Hello".into()),
        location: None,
        start_unix: Some(t0),
        end_unix: Some(t0 + 1800),
        all_day: Some(false),
        rrule: None,
        has_recurrence: false,
        notifications: None,
        color: None,
    };
    let body = build_create_body(
        &fields,
        "fresh-uid",
        std::slice::from_ref(&cal),
        std::slice::from_ref(&addr),
    )
    .unwrap()
    .expect("create seals");
    let (skp, ckp) = (
        body.SharedKeyPacket.clone().unwrap(),
        body.CalendarKeyPacket.clone().unwrap(),
    );
    assert_ne!(skp, ckp, "separate session keys per card");
    // Shared encrypted decrypts to the entered text.
    let enc = body
        .SharedEventContent
        .iter()
        .find(|p| p.Type == 3)
        .unwrap();
    let plain = decrypt_body(&enc.Data, &enc.Signature, &skp, &cal, &addr);
    let parsed = parse_ical(&plain).unwrap();
    assert_eq!(parsed.summary, "Fresh");
    assert_eq!(parsed.description, "Hello");
    // Signed carries structure + SEQUENCE:0 + UID.
    let signed = body
        .SharedEventContent
        .iter()
        .find(|p| p.Type == 2)
        .unwrap();
    assert!(signed.Data.contains("UID:fresh-uid"));
    assert!(signed.Data.contains("DTSTART:20260914T200000Z"));
    assert!(signed.Data.contains("SEQUENCE:0"));
    // Calendar encrypted decrypts with ITS packet.
    let cinc = body
        .CalendarEventContent
        .iter()
        .find(|p| p.Type == 3)
        .unwrap();
    let cplain = decrypt_body(&cinc.Data, &cinc.Signature, &ckp, &cal, &addr);
    assert!(cplain.contains("UID:fresh-uid"));
    // Inherit-by-default rows.
    assert_eq!(body.Notifications, Json::Null);
    assert_eq!(body.Color, Json::Null);
    assert!(body.AttendeesEventContent.is_empty());
}

#[test]
fn test_create_all_day_exclusive_end_rolls_month() {
    let (_, cal) = test_identity();
    let (_, addr) = test_identity();
    // Phone-inclusive 2026-01-31 → exclusive 2026-02-01 (rollover!).
    let end_incl = chrono::DateTime::parse_from_rfc3339("2026-01-31T00:00:00Z")
        .unwrap()
        .timestamp();
    let fields = LocalFields {
        summary: Some("Holiday".into()),
        start_unix: Some(end_incl),
        end_unix: Some(end_incl),
        all_day: Some(true),
        ..Default::default()
    };
    let body = build_create_body(
        &fields,
        "u-ad",
        std::slice::from_ref(&cal),
        std::slice::from_ref(&addr),
    )
    .unwrap()
    .expect("all-day create seals");
    let signed = body
        .SharedEventContent
        .iter()
        .find(|p| p.Type == 2)
        .unwrap();
    assert!(
        signed.Data.contains("DTSTART;VALUE=DATE:20260131"),
        "{}",
        signed.Data
    );
    assert!(
        signed.Data.contains("DTEND;VALUE=DATE:20260201"),
        "{}",
        signed.Data
    );
}

#[test]
fn test_create_defers_without_times_or_rule() {
    let (_, cal) = test_identity();
    let (_, addr) = test_identity();
    // No times → cannot fabricate.
    let bare = LocalFields {
        summary: Some("x".into()),
        ..Default::default()
    };
    assert!(build_create_body(
        &bare,
        "u",
        std::slice::from_ref(&cal),
        std::slice::from_ref(&addr)
    )
    .unwrap()
    .is_none());
    // Unserializable phone recurrence → never flatten a series.
    let t0 = chrono::Utc::now().timestamp();
    let recur = LocalFields {
        start_unix: Some(t0),
        end_unix: Some(t0 + 60),
        has_recurrence: true,
        rrule: None,
        ..Default::default()
    };
    assert!(build_create_body(
        &recur,
        "u",
        std::slice::from_ref(&cal),
        std::slice::from_ref(&addr)
    )
    .unwrap()
    .is_none());
}

#[test]
fn test_format_ical_dt_shapes() {
    assert_eq!(
        format_ical_dt(0, false).as_deref(),
        Some(":19700101T000000Z")
    );
    assert_eq!(
        format_ical_dt(0, true).as_deref(),
        Some(";VALUE=DATE:19700101")
    );
    // Phone-inclusive 2026-01-31 → exclusive 2026-02-01.
    let end_incl = chrono::DateTime::parse_from_rfc3339("2026-01-31T00:00:00Z")
        .unwrap()
        .timestamp();
    assert_eq!(
        format_ical_date_end_exclusive(end_incl).as_deref(),
        Some(";VALUE=DATE:20260201")
    );
    assert!(format_ical_dt(i64::MAX, false).is_none());
}

#[test]
fn calendar_seal_test_seal_ciphertext_differs_per_seal() {
    // Fresh session keys: same plaintext seals differently (no key reuse
    // on create), yet both decrypt.
    let (_, cal) = test_identity();
    let (_, addr) = test_identity();
    let (kp1, data1, _) = seal_card(
        "same",
        std::slice::from_ref(&cal),
        std::slice::from_ref(&addr),
    )
    .unwrap();
    let (kp2, data2, _) = seal_card(
        "same",
        std::slice::from_ref(&cal),
        std::slice::from_ref(&addr),
    )
    .unwrap();
    assert_ne!(kp1, kp2);
    assert_ne!(data1, data2);
}
