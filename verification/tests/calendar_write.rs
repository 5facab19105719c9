use proton_api::calendar::parse_ical;
use proton_api::calendar_write::{
    color_name, escape_ical_text, exception_sequence_ok, marshal_attendees, marshal_color,
    marshal_notifications, next_sequence, patch_card, resolve_color, valid_color, CardPatch,
    SyncBatchRequest, SyncBatchResponse, SyncContentPart, SyncEventBody, SyncEventOp,
    ACCENT_PALETTE, SYNC_CODE_SUCCESS_MULTI,
};
use proton_api::json::{parse_json, to_compact, Json};
use proton_api::rows::Row;

fn json(s: &str) -> Json {
    parse_json(s).unwrap()
}

/// The value with the members of its objects in the order of their names.
fn by_name(j: &Json) -> Json {
    json(&to_compact(j))
}

fn items(j: &Json) -> &Vec<Json> {
    match j {
        Json::Array(a) => a,
        _ => panic!("not a list"),
    }
}

#[test]
fn test_palette_shape_and_lookup() {
    assert_eq!(ACCENT_PALETTE.len(), 20);
    assert!(valid_color("#EC3E7C"));
    assert!(valid_color("#ec3e7c"));
    assert!(!valid_color("#FFFFFF"));
    assert!(!valid_color("not-a-color"));
    assert_eq!(color_name("#EC3E7C"), Some("strawberry"));
    assert_eq!(color_name("#ffffff"), None);
    assert_eq!(resolve_color("strawberry").unwrap(), "#EC3E7C");
    assert_eq!(resolve_color("StrawBerry").unwrap(), "#EC3E7C");
    assert_eq!(resolve_color("#ec3e7c").unwrap(), "#EC3E7C");
    assert_eq!(resolve_color("ec3e7c").unwrap(), "#EC3E7C");
    assert!(resolve_color("").is_err());
    assert!(resolve_color("default").is_err());
    assert!(resolve_color("#FFFFFF").is_err());
}

#[test]
fn test_marshal_notifications_tristate() {
    // Inherit → null.
    assert_eq!(marshal_notifications(false, &vec![]), Json::Null);
    // Explicit none → [] (NOT null — null would re-inherit).
    assert_eq!(marshal_notifications(true, &vec![]), json(r#"[]"#));
    // Custom array passes through.
    let list = vec![json(r#"{"Trigger": "-PT15M", "Type": 1}"#)];
    assert_eq!(
        marshal_notifications(true, &list),
        json(r#"[{"Trigger": "-PT15M", "Type": 1}]"#)
    );
    // Unset with a stale list still → null (set flag rules).
    assert_eq!(marshal_notifications(false, &list), Json::Null);
}

#[test]
fn test_marshal_color_null_when_empty() {
    assert_eq!(marshal_color(""), Json::Null);
    assert_eq!(marshal_color("#EC3E7C"), json(r##""#EC3E7C""##));
}

#[test]
fn test_marshal_attendees_empty_array() {
    assert_eq!(marshal_attendees(&[]), json(r#"[]"#));
    let out = marshal_attendees(&[("tok1".to_string(), 1)]);
    assert_eq!(
        out,
        json(r#"[{"Token": "tok1", "Status": 1, "Comment": null}]"#)
    );
}

#[test]
fn test_delete_batch_wire_shape() {
    let batch = SyncBatchRequest::delete_batch("m1", &["e1".to_string(), "e2".to_string()]);
    let v = batch.to_json();
    // Delete ops are ID-only: no Event/Overwrite keys, no IsImport.
    assert_eq!(
        by_name(&v),
        json(r#"{"MemberID": "m1","Events": [{"ID": "e1"}, {"ID": "e2"}]}"#)
    );
}

#[test]
fn test_update_op_has_no_key_packets() {
    let body = SyncEventBody {
        Permissions: 1,
        SharedKeyPacket: None,
        CalendarKeyPacket: None,
        SharedEventContent: vec![SyncContentPart {
            Type: 2,
            Data: "BEGIN:VEVENT".into(),
            Signature: "sig".into(),
        }],
        CalendarEventContent: Vec::new(),
        AttendeesEventContent: Vec::new(),
        Attendees: json(r#"[]"#),
        Notifications: Json::Null,
        Color: Json::Null,
    };
    let op = SyncEventOp::update("ev9", body);
    let v = op.to_json();
    assert_eq!(v.get("ID").unwrap(), &json(r#""ev9""#));
    assert!(v.get("Overwrite").is_none());
    let event = v.get("Event").unwrap();
    assert!(event.get("SharedKeyPacket").is_none());
    assert!(event.get("CalendarKeyPacket").is_none());
    // Content arrays serialize as [] (never null).
    assert_eq!(event.get("CalendarEventContent").unwrap(), &json(r#"[]"#));
}

#[test]
fn test_create_op_carries_packets_and_import_flags() {
    let body = SyncEventBody {
        Permissions: 1,
        SharedKeyPacket: Some("skp".into()),
        CalendarKeyPacket: Some("ckp".into()),
        SharedEventContent: Vec::new(),
        CalendarEventContent: Vec::new(),
        AttendeesEventContent: Vec::new(),
        Attendees: json(r#"[]"#),
        Notifications: Json::Null,
        Color: Json::Null,
    };
    let batch = SyncBatchRequest {
        MemberID: "m1".into(),
        IsImport: Some(0),
        Events: vec![SyncEventOp::create(body)],
    };
    let v = batch.to_json();
    assert_eq!(v.get("IsImport").unwrap(), &json("0"));
    let ops = items(v.get("Events").unwrap());
    assert_eq!(ops[0].get("Overwrite").unwrap(), &json("0"));
    assert!(ops[0].get("ID").is_none());
    assert_eq!(ops[0].get("Event").unwrap().get("SharedKeyPacket").unwrap(), &json(r#""skp""#));
}

#[test]
fn test_sync_response_interpretation() {
    // Batch-accepted with per-op success (updates may omit the echo).
    let ok: SyncBatchResponse = SyncBatchResponse::from_json(&json(r#"{"Code":1001,"Responses":[{"Index":0,"Response":{"Code":1000}}]}"#)).unwrap();
    assert!(ok.first_error().is_none());
    assert_eq!(ok.first_event().unwrap(), None);
    // Per-op failure surfaces code + message.
    let fail: SyncBatchResponse = SyncBatchResponse::from_json(&json(r#"{"Code":1001,"Responses":[{"Index":0,"Response":{"Code":2001,"Error":"Single edits should have a Sequence greater or equal to main event"}}]}"#)).unwrap();
    let err = fail.first_error().unwrap();
    assert!(
        err.contains("2001") && err.contains("Sequence"),
        "err={err}"
    );
    assert!(fail.first_event().is_err());
    // Pure delete: top-level code only.
    let del: SyncBatchResponse = SyncBatchResponse::from_json(&json(r#"{"Code":1000}"#)).unwrap();
    assert!(del.first_error().is_none());
    // Top-level failure with no responses.
    let top: SyncBatchResponse = SyncBatchResponse::from_json(&json(r#"{"Code":400}"#)).unwrap();
    assert!(top.first_error().unwrap().contains("400"));
}

#[test]
fn test_patch_card_set_delete_append() {
    let card = "BEGIN:VCALENDAR\r\nBEGIN:VEVENT\r\nUID:u1\r\nDTSTART:20260914T200000Z\r\nSUMMARY:Old title\r\nDESCRIPTION:Keep me\r\nX-PM-CONFERENCE-ID:abc\r\nEND:VEVENT\r\nEND:VCALENDAR";
    let mut patch = CardPatch::default();
    patch.set.insert("SUMMARY".into(), ":New title".into());
    patch.delete.insert("DESCRIPTION".into());
    patch.append.push("EXDATE:20260915T200000Z".into());
    patch.append.push("EXDATE:20260915T200000Z".into()); // dup skipped
    let out = patch_card(card, &patch);
    assert!(out.contains("SUMMARY:New title"), "{out}");
    assert!(!out.contains("DESCRIPTION"), "{out}");
    assert!(!out.contains("Old title"), "{out}");
    // Untouched lines survive verbatim (the rebuild-from-fields trap).
    assert!(out.contains("X-PM-CONFERENCE-ID:abc"), "{out}");
    assert!(out.contains("UID:u1"), "{out}");
    // Append added exactly once.
    assert_eq!(out.matches("EXDATE:20260915T200000Z").count(), 1);
    // Wrapper shape: no trailing CRLF.
    assert!(!out.ends_with("\r\n"));
    assert!(out.starts_with("BEGIN:VCALENDAR\r\nBEGIN:VEVENT\r\n"));
}

#[test]
fn test_patch_card_inserts_missing_sorted_and_keeps_valarm() {
    let card = "BEGIN:VEVENT\nUID:u1\nBEGIN:VALARM\nTRIGGER:-PT15M\nEND:VALARM\nEND:VEVENT";
    let mut patch = CardPatch::default();
    patch.set.insert("SUMMARY".into(), ":Hi".into());
    patch
        .set
        .insert("DTSTART".into(), ":20260914T200000Z".into());
    let out = patch_card(card, &patch);
    // Missing props inserted in sorted NAME order (deterministic).
    let dt = out.find("DTSTART").unwrap();
    let sum = out.find("SUMMARY").unwrap();
    assert!(dt < sum, "{out}");
    // Nested VALARM block preserved verbatim.
    assert!(
        out.contains("BEGIN:VALARM\r\nTRIGGER:-PT15M\r\nEND:VALARM"),
        "{out}"
    );
}

#[test]
fn test_patch_card_unfolds_then_folds() {
    // Folded input ("Long " + "title") unfolds before patching.
    let card = "BEGIN:VEVENT\r\nUID:u1\r\nSUMMARY:Long \r\n title\r\nEND:VEVENT";
    let patch = CardPatch::default();
    let out = patch_card(card, &patch);
    assert!(out.contains("SUMMARY:Long title"), "{out}");
    // Long lines refold at 75 octets with CRLF+space.
    let long = format!("DESCRIPTION:{}", "x".repeat(200));
    let card2 = format!("BEGIN:VEVENT\r\nUID:u1\r\n{long}\r\nEND:VEVENT");
    let out2 = patch_card(&card2, &patch);
    assert!(out2.contains("\r\n "), "{out2}");
    // Every PHYSICAL line (folded) fits 75 octets; the logical line
    // reassembles to the full 200-x value.
    for line in out2.split("\r\n") {
        assert!(line.len() <= 75, "overlong: {line}");
    }
    assert!(out2.replace("\r\n ", "").contains(&long), "{out2}");
}

#[test]
fn test_escape_round_trips_through_parse() {
    let raw = "Meet, discuss; plan\\next";
    let escaped = escape_ical_text(raw);
    assert_eq!(escaped, "Meet\\, discuss\\; plan\\\\next");
    // parse_ical unescapes back to the original.
    let frag = format!("BEGIN:VEVENT\nUID:u1\nSUMMARY:{escaped}\nEND:VEVENT");
    let parsed = parse_ical(&frag).unwrap();
    assert_eq!(parsed.summary, raw);
}

#[test]
fn test_put_sync_delete_batch_mock() {
    let batch = SyncBatchRequest::delete_batch("m1", &["e1".to_string(), "e2".to_string()]);
    assert_eq!(
        parse_json(&to_compact(&batch.to_json())).unwrap(),
        json(r#"{"MemberID":"m1","Events":[{"ID":"e1"},{"ID":"e2"}]}"#)
    );
    let resp = SyncBatchResponse::from_json(&json(r#"{"Code":1001,"Responses":[]}"#)).unwrap();
    assert_eq!(resp.Code, SYNC_CODE_SUCCESS_MULTI);
    assert!(resp.first_error().is_none());
}

#[test]
fn test_sequence_rules() {
    assert_eq!(next_sequence(3, true), 4);
    assert_eq!(next_sequence(3, false), 3);
    assert_eq!(next_sequence(0, true), 1);
    assert!(exception_sequence_ok(3, 3));
    assert!(exception_sequence_ok(3, 5));
    assert!(!exception_sequence_ok(3, 2));
}

#[test]
fn the_first_failing_operation_is_shown() {
    let resp = SyncBatchResponse::from_json(&json(
        r#"{"Code":1001,"Responses":[{"Index":0,"Response":{"Code":1000}},{"Index":1,"Response":{"Code":2001,"Error":"bad"}}]}"#,
    ))
    .unwrap();
    assert_eq!(resp.first_error().unwrap(), "sync failed: code 2001: bad");
}
