use proton_api::calendar_seal::{
    create_body_of, resealed_group, resealed_part, update_body_of, NewTexts,
};
use proton_api::contact_seal::{
    contact_cards_of, next_attempt, next_pair_attempt, Attempt, PairAttempt,
};
use proton_api::crypto::policy_time;
use proton_api::json::{parse_json, Json};
use proton_api::listing::{
    first_pages, ContactListing, Listing, Query, UntypedListing, LAST_TYPED_PAGE, QUERY_TYPES,
};
use proton_api::openpgp::{key_halves_match, key_only_signs};
use proton_api::rows::Row;
use proton_api::{
    CalendarEvent, ContactsListResponse, ProtonError, SyncContentPart, UnlockedKey,
};
use sequoia_openpgp::cert::CertBuilder;
use sequoia_openpgp::serialize::Serialize;

fn json(s: &str) -> Json {
    parse_json(s).unwrap()
}

fn fault(name: &str) -> ProtonError {
    ProtonError::Crypto(name.into())
}

fn text_of<T>(r: Result<T, ProtonError>) -> String {
    match r {
        Ok(_) => "ok".into(),
        Err(e) => e.message(),
    }
}

fn part(n: i64) -> SyncContentPart {
    SyncContentPart {
        Type: n,
        Data: format!("data {n}"),
        Signature: format!("signature {n}"),
    }
}

fn ids(rows: &[CalendarEvent]) -> Vec<&str> {
    rows.iter().map(|e| e.ID.as_str()).collect()
}

// What comes back from a signature or a seal decides what is tried next.

#[test]
fn signatures_are_tried_pair_by_pair() {
    assert!(matches!(next_attempt(Ok("s".into()), 0, 3), Attempt::Done(s) if s == "s"));
    assert!(matches!(next_attempt(Err(fault("a")), 0, 3), Attempt::Next(1)));
    assert!(matches!(next_attempt(Err(fault("b")), 1, 3), Attempt::Next(2)));
    match next_attempt(Err(fault("c")), 2, 3) {
        Attempt::Failed(ProtonError::Crypto(m)) => {
            assert_eq!(m, format!("seal sign: {}", fault("c").message()))
        }
        other => panic!("{other:?}"),
    }
}

#[test]
fn seals_are_tried_with_every_signer() {
    let done = next_pair_attempt(Ok(("m".into(), "s".into())), 1, 0, 2);
    assert!(matches!(done, PairAttempt::Done(m, s) if m == "m" && s == "s"));
    assert!(matches!(
        next_pair_attempt(Err(fault("a")), 0, 0, 2),
        PairAttempt::Next(0, 1)
    ));
    assert!(matches!(
        next_pair_attempt(Err(fault("a")), 0, 1, 2),
        PairAttempt::Next(1, 0)
    ));
    match next_pair_attempt(Err(fault("z")), 1, 1, 2) {
        PairAttempt::Failed(ProtonError::Crypto(m)) => {
            assert_eq!(m, format!("seal: {}", fault("z").message()))
        }
        other => panic!("{other:?}"),
    }
}

#[test]
fn cards_come_from_signature_and_seal() {
    let signed = contact_cards_of("C".into(), Ok("s".into()), None).unwrap();
    assert_eq!(signed.len(), 1);
    assert_eq!((signed[0].Type, signed[0].Data.as_str()), (2, "C"));
    let both =
        contact_cards_of("C".into(), Ok("s".into()), Some(Ok(("d".into(), "t".into())))).unwrap();
    assert_eq!(both.len(), 2);
    assert_eq!((both[1].Type, both[1].Data.as_str()), (3, "d"));
    assert_eq!(both[1].Signature, "t");
    let first = contact_cards_of("C".into(), Err(fault("sign")), Some(Err(fault("seal"))));
    assert_eq!(text_of(first), fault("sign").message());
    let second = contact_cards_of("C".into(), Ok("s".into()), Some(Err(fault("seal"))));
    assert_eq!(text_of(second), fault("seal").message());
}

#[test]
fn parts_are_sealed_again_as_they_were() {
    let open = resealed_part(false, "plain", None, Ok("s".into())).unwrap();
    assert_eq!((open.Type, open.Data.as_str()), (2, "plain"));
    let sealed = resealed_part(true, "plain", Some(vec![0, 1, 2]), Ok("s".into())).unwrap();
    assert_eq!((sealed.Type, sealed.Data.as_str()), (3, "AAEC"));
    assert_eq!(sealed.Signature, "s");
    assert_eq!(
        text_of(resealed_part(true, "p", None, Err(fault("sign")))),
        fault("reseal: encrypted part without session key").message()
    );
    assert_eq!(
        text_of(resealed_part(false, "p", None, Err(fault("sign")))),
        fault("sign").message()
    );
}

#[test]
fn groups_stop_at_the_first_error() {
    let all = resealed_group(vec![Ok(part(2)), Ok(part(3))]).unwrap();
    assert_eq!(all, [part(2), part(3)]);
    let stopped = resealed_group(vec![Ok(part(2)), Err(fault("a")), Err(fault("b"))]);
    assert_eq!(text_of(stopped), fault("a").message());
}

#[test]
fn updates_hold_their_groups() {
    let row = CalendarEvent::default();
    let body = update_body_of(
        &row,
        None,
        Ok(vec![part(2), part(3)]),
        Ok(vec![part(2)]),
        Ok(vec![]),
    )
    .unwrap();
    assert_eq!(body.SharedEventContent, [part(2), part(3)]);
    assert_eq!(body.CalendarEventContent, [part(2)]);
    assert!(body.AttendeesEventContent.is_empty());
    assert_eq!(body.SharedKeyPacket, None);
    assert_eq!(body.Permissions, 1);
    let errors = |s, c, a| text_of(update_body_of(&row, None, s, c, a));
    assert_eq!(
        errors(Err(fault("s")), Err(fault("c")), Err(fault("a"))),
        fault("s").message()
    );
    assert_eq!(
        errors(Ok(vec![]), Err(fault("c")), Err(fault("a"))),
        fault("c").message()
    );
    assert_eq!(
        errors(Ok(vec![]), Ok(vec![]), Err(fault("a"))),
        fault("a").message()
    );
}

fn new_texts() -> NewTexts {
    NewTexts {
        shared_signed: "SS".into(),
        shared_encrypted: "SE".into(),
        calendar_signed: "CS".into(),
        calendar_encrypted: "CE".into(),
    }
}

type Sealed = Result<(Vec<u8>, Vec<u8>, String), ProtonError>;

fn sealed(n: u8) -> Sealed {
    Ok((vec![n], vec![0, n], format!("sealed {n}")))
}

#[test]
fn new_events_hold_what_was_signed_and_sealed() {
    let body = create_body_of(
        new_texts(),
        Ok("a".into()),
        Ok("b".into()),
        sealed(1),
        sealed(2),
    )
    .unwrap();
    assert_eq!(body.SharedKeyPacket.as_deref(), Some("AQ=="));
    assert_eq!(body.CalendarKeyPacket.as_deref(), Some("Ag=="));
    assert_eq!(body.SharedEventContent.len(), 2);
    assert_eq!(body.SharedEventContent[0].Data, "SS");
    assert_eq!(body.SharedEventContent[0].Signature, "a");
    assert_eq!(body.SharedEventContent[1].Data, "AAE=");
    assert_eq!(body.SharedEventContent[1].Signature, "sealed 1");
    assert_eq!(body.CalendarEventContent[0].Data, "CS");
    assert_eq!(body.CalendarEventContent[1].Data, "AAI=");
    assert!(body.AttendeesEventContent.is_empty());
}

#[test]
fn the_first_failing_step_of_a_new_event_is_shown() {
    let run = |a: &str, b: &str, s: Sealed, c: Sealed| {
        let sig = |t: &str| {
            if t.is_empty() {
                Ok("sig".to_string())
            } else {
                Err(fault(t))
            }
        };
        text_of(create_body_of(new_texts(), sig(a), sig(b), s, c))
    };
    let e = |t: &str| fault(t).message();
    assert_eq!(run("1", "2", Err(fault("3")), Err(fault("4"))), e("1"));
    assert_eq!(run("", "2", Err(fault("3")), Err(fault("4"))), e("2"));
    assert_eq!(run("", "", Err(fault("3")), Err(fault("4"))), e("3"));
    assert_eq!(run("", "", sealed(1), Err(fault("4"))), e("4"));
    assert_eq!(run("", "", sealed(1), sealed(2)), "ok");
}

#[test]
fn pairs_tell_what_they_are_for() {
    let (cert, _) = CertBuilder::new()
        .add_signing_subkey()
        .add_transport_encryption_subkey()
        .generate()
        .unwrap();
    let mut bytes = Vec::new();
    cert.as_tsk().armored().export(&mut bytes).unwrap();
    let armored = String::from_utf8(bytes).unwrap();
    let key = UnlockedKey::from_armored(&armored, b"").unwrap();
    let signing = key.keypairs.iter().filter(|p| key_only_signs(p)).count();
    let matching = key.keypairs.iter().filter(|p| key_halves_match(p)).count();
    assert_eq!((key.keypairs.len(), signing, matching), (3, 2, 1));
    assert!(!key
        .keypairs
        .iter()
        .any(|p| key_only_signs(p) && key_halves_match(p)));
}

#[test]
fn policy_times_stay_in_range() {
    assert_eq!(policy_time(-1), 0);
    assert_eq!(policy_time(1_700_000_000), 1_700_000_000);
    assert_eq!(policy_time(i64::MAX), u32::MAX);
}

// Listings.

#[test]
fn a_listing_asks_for_every_window_kind_and_page() {
    let span = 93 * 86400 - 2 * 86400;
    let mut listing = Listing::new(0, span + 10);
    let mut asked = Vec::new();
    while let Some(q) = listing.query() {
        let more = q.query_type == 1 && q.page < 2;
        let v = json(&format!(
            r#"{{"Events":[{{"ID":"{}-{}-{}"}},{{"ID":"same"}}],"More":{more}}}"#,
            q.start, q.query_type, q.page
        ));
        asked.push(q);
        assert_eq!(listing.answer(&v), 2);
    }
    assert_eq!(asked.len(), 2 * (QUERY_TYPES as usize + 2));
    assert_eq!(
        asked[0],
        Query {
            query_type: 0,
            start: -86400,
            end: span + 86400,
            page: 0
        }
    );
    assert_eq!((asked[3].query_type, asked[3].page), (1, 2));
    assert_eq!(asked[6].start, span - 86400);
    let rows = listing.finish();
    assert_eq!(rows.len(), asked.len() + 1);
    assert_eq!(ids(&rows)[..3], ["-86400-0-0", "same", "-86400-1-0"]);
}

#[test]
fn a_listing_ends_when_the_server_does_not() {
    let mut listing = Listing::new(0, 1);
    let mut pages = 0;
    while listing.query().is_some() {
        listing.answer(&json(r#"{"Events":[],"More":1}"#));
        pages += 1;
    }
    assert_eq!(pages, QUERY_TYPES * (LAST_TYPED_PAGE + 1));
    assert!(Listing::new(5, 5).query().is_none());
    assert!(listing.finish().is_empty());
}

#[test]
fn first_pages_skip_what_did_not_come() {
    let rows = first_pages(&vec![
        Some(json(r#"{"Events":[{"ID":"a"},{"ID":"b"}]}"#)),
        None,
        Some(json(r#"{"Events":[{"ID":"b"},{"ID":"c"}]}"#)),
    ]);
    assert_eq!(ids(&rows), ["a", "b", "c"]);
}

#[test]
fn an_untyped_listing_keeps_its_window() {
    let mut listing = UntypedListing::new(100, 200);
    assert_eq!(listing.query(), Some(0));
    let page = r#"{"Events":[{"ID":"in","StartTime":150,"EndTime":160},{"ID":"out","StartTime":300,"EndTime":400},{"ID":"rule","StartTime":1,"EndTime":2,"RRule":"FREQ=DAILY"}],"More":true}"#;
    listing.answer(200, page).unwrap();
    assert_eq!(listing.query(), Some(1));
    let refused = listing.answer(500, "no").unwrap_err();
    assert!(matches!(refused, ProtonError::Auth(m) if m == "Untyped events query failed 500: no"));
    assert!(matches!(listing.answer(200, "{"), Err(ProtonError::Serde(_))));
    assert_eq!(listing.query(), Some(1));
    listing
        .answer(200, r#"{"Events":[{"ID":"in","StartTime":150,"EndTime":160}],"More":false}"#)
        .unwrap();
    assert_eq!(listing.query(), None);
    assert_eq!(ids(&listing.finish()), ["in", "rule"]);
}

fn contacts_page(n: usize, total: i32) -> ContactsListResponse {
    let one = r#"{"ID":"c","Name":"n","UID":"u","Size":1,"CreateTime":1,"ModifyTime":1,"ContactEmails":[],"LabelIDs":[]}"#;
    ContactsListResponse::from_json(&json(&format!(
        r#"{{"Contacts":[{}],"Total":{total}}}"#,
        vec![one; n].join(",")
    )))
    .unwrap()
}

#[test]
fn contacts_are_listed_page_by_page() {
    let mut listing = ContactListing::new();
    assert_eq!(listing.query(), Some(0));
    listing.answer(contacts_page(100, 230));
    assert_eq!(listing.query(), Some(1));
    listing.answer(contacts_page(100, 230));
    assert_eq!(listing.query(), Some(2));
    listing.answer(contacts_page(30, 230));
    assert_eq!(listing.query(), None);
    assert_eq!(listing.finish().len(), 230);
    let mut full = ContactListing::new();
    full.answer(contacts_page(100, 100));
    assert_eq!(full.query(), None);
}
