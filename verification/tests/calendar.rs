use proton_api::calendar::{
    bootstrap_from_parts, bootstrap_from_routes, bootstrap_of_json, decrypt_calendar_event,
    merge_ical_fragments, needs_settings, parse_events_envelope, parse_ical, parse_ical_params,
    parse_notification_trigger, parse_rrule, settings_of_response, split_ical_line_full,
    split_window, untyped_page, usable_settings, verify_signature, CALENDAR_MAX_WINDOW_SECS,
};
use proton_api::json::{parse_json, Json};
use proton_api::rows::{read_tolerant_row, read_tolerant_rows};
use proton_api::{
    CalendarEventPart, CalendarKey, CalendarMember, CalendarPassphrase, CalendarSettings,
};

fn json(s: &str) -> Json {
    parse_json(s).unwrap()
}

#[test]
fn test_split_window_respects_93d_cap() {
    let chunks = split_window(0, 93 * 86400 + 1, CALENDAR_MAX_WINDOW_SECS);
    assert_eq!(chunks.len(), 2);
    assert_eq!(chunks[0], (0, 93 * 86400));
    assert_eq!(chunks[1], (93 * 86400, 93 * 86400 + 1));
    let one = split_window(100, 200, CALENDAR_MAX_WINDOW_SECS);
    assert_eq!(one, vec![(100, 200)]);
    assert!(split_window(5, 5, CALENDAR_MAX_WINDOW_SECS).is_empty());
}

#[test]
fn test_windowed_chunks_stay_within_cap_after_padding() {
    // A day of padding on both sides keeps within the cap.
    let end = 1_800_000_000;
    let start = end - 2 * 365 * 24 * 3600;
    let chunks = split_window(start, end, CALENDAR_MAX_WINDOW_SECS - 2 * 86400);
    assert!(!chunks.is_empty());
    for (cs, ce) in chunks {
        let padded = ce.saturating_add(86400) - cs.saturating_sub(86400);
        assert!(
            padded <= CALENDAR_MAX_WINDOW_SECS,
            "padded span {padded} exceeds cap"
        );
    }
}

#[test]
fn test_parse_ical_unfolds_and_strips_params() {
    let frag = "BEGIN:VCALENDAR\r\nBEGIN:VEVENT\r\nUID:abc-123\r\nDTSTAMP:20260601T120000Z\r\nDTSTART;TZID=Europe/Rome:20260602T090000\r\nDTEND;TZID=Europe/Rome:20260602T100000\r\nSUMMARY:Long title that is folded \r\n over two lines\r\nDESCRIPTION:line1\\nline2\\, with comma\r\nRRULE:FREQ=WEEKLY;COUNT=10\r\nEXDATE:20260609T090000Z,20260616T090000Z\r\nSEQUENCE:3\r\nSTATUS:CONFIRMED\r\nTRANSP:OPAQUE\r\nORGANIZER;CN=Boss:mailto:boss@example.com\r\nATTENDEE;CN=Alice:mailto:alice@example.com\r\nATTENDEE;CN=Bob:mailto:bob@example.com\r\nEND:VEVENT\r\nEND:VCALENDAR";
    let p = parse_ical(frag).unwrap();
    assert_eq!(p.uid, "abc-123");
    assert_eq!(p.dtstart, "20260602T090000");
    assert_eq!(p.dtend, "20260602T100000");
    assert_eq!(p.summary, "Long title that is folded over two lines");
    assert_eq!(p.description, "line1\nline2, with comma");
    assert_eq!(p.rrule, "FREQ=WEEKLY;COUNT=10");
    assert_eq!(p.exdates.len(), 2);
    assert_eq!(p.sequence, "3");
    assert_eq!(p.status, "CONFIRMED");
    assert_eq!(p.transp, "OPAQUE");
    assert_eq!(p.organizer, "boss@example.com");
    assert_eq!(p.organizer_name, "Boss");
    assert_eq!(p.attendees.len(), 2);
    assert_eq!(p.attendee_details.len(), 2);
    assert_eq!(p.attendee_details[0].email, "alice@example.com");
    assert_eq!(p.attendee_details[0].name, "Alice");
}

#[test]
fn test_unfold_keeps_content_spaces() {
    // Exactly one fold character is removed.
    let frag = "BEGIN:VEVENT\r\nUID:x\r\nDESCRIPTION:ed \r\n emoji\r\nEND:VEVENT";
    let p = parse_ical(frag).unwrap();
    assert_eq!(p.description, "ed emoji");
}

#[test]
fn test_parse_ical_all_day_and_utc_forms() {
    // A date, and a time in UTC.
    let allday = "BEGIN:VEVENT\nUID:x\nDTSTART;VALUE=DATE:20260709\nDTEND;VALUE=DATE:20260710\nSUMMARY:Holiday\nEND:VEVENT";
    let p = parse_ical(allday).unwrap();
    assert_eq!(p.dtstart, "20260709");
    assert_eq!(p.dtend, "20260710");
    let utc =
        "BEGIN:VEVENT\nUID:y\nDTSTART:20260709T160000Z\nDTEND:20260709T170000Z\nEND:VEVENT";
    let q = parse_ical(utc).unwrap();
    assert_eq!(q.dtstart, "20260709T160000Z");
}

#[test]
fn test_merge_fragments_shared_signed_wins() {
    let signed = "BEGIN:VEVENT\nUID:u1\nDTSTART:20260602T090000Z\nDTEND:20260602T100000Z\nRRULE:FREQ=DAILY\nSUMMARY:signed-title\nEND:VEVENT"
        .to_string();
    let encrypted = "BEGIN:VEVENT\nUID:u1\nDTSTART:SHOULD-NOT-WIN\nSUMMARY:enc-title\nDESCRIPTION:secret\nLOCATION:Room\nEND:VEVENT"
        .to_string();
    let m = merge_ical_fragments(&[signed, encrypted]).unwrap();
    assert_eq!(m.dtstart, "20260602T090000Z");
    // summary already set by signed (first) – first-seen wins otherwise.
    assert_eq!(m.summary, "signed-title");
    assert_eq!(m.description, "secret");
    assert_eq!(m.location, "Room");
    assert_eq!(m.rrule, "FREQ=DAILY");
}

#[test]
fn test_verify_signature_lenient_never_fails() {
    assert!(!verify_signature("data", "", &[], &[]).unwrap());
    assert!(verify_signature("data", "-----BEGIN PGP SIGNATURE-----", &[], &[]).unwrap());
}

#[test]
fn test_decrypt_signed_only_needs_no_keys() {
    let part = CalendarEventPart {
        MemberID: String::new(),
        Type: 2,
        Data: "BEGIN:VEVENT\nUID:plain\nSUMMARY:Hi\nEND:VEVENT".into(),
        Signature: "sig".into(),
        Author: String::new(),
    };
    let out = decrypt_calendar_event(&part, &[], &[]).unwrap();
    assert!(out.contains("UID:plain"));
}

#[test]
fn test_decrypt_encrypted_fails_without_keys() {
    let part = CalendarEventPart {
        MemberID: String::new(),
        Type: 3,
        Data: "-----BEGIN PGP MESSAGE-----".into(),
        Signature: String::new(),
        Author: String::new(),
    };
    assert!(decrypt_calendar_event(&part, &[], &[]).is_err());
}

#[test]
fn test_parse_notification_trigger() {
    assert_eq!(parse_notification_trigger("-PT15M"), Some(-900));
    assert_eq!(parse_notification_trigger("-PT1H"), Some(-3600));
    assert_eq!(parse_notification_trigger("-PT1H30M"), Some(-5400));
    assert_eq!(parse_notification_trigger("-P1D"), Some(-86400));
    assert_eq!(parse_notification_trigger("-P1W"), Some(-604800));
    assert_eq!(parse_notification_trigger("-PT0S"), Some(0));
    assert_eq!(parse_notification_trigger("PT30S"), Some(30));
    assert_eq!(parse_notification_trigger(""), None);
    assert_eq!(parse_notification_trigger("tomorrow"), None);
    assert_eq!(parse_notification_trigger("-P1M"), None); // months rejected
    assert_eq!(parse_notification_trigger("-PT"), Some(0));
    assert_eq!(
        parse_notification_trigger("-P1DT2H3M4S"),
        Some(-(86400 + 7200 + 180 + 4))
    );
}

#[test]
fn test_list_events_page_mock_pagination() {
    let v = json(r#"{"Events":[{"ID":"e1","UID":"u1"}],"More":0}"#);
    let (evs, more) = parse_events_envelope(&v, 0);
    assert_eq!(evs.len(), 1);
    assert!(!more);
    assert_eq!(evs[0].ID, "e1");
}

#[test]
fn test_list_all_events_untyped_filters_window() {
    let body = r#"{"Code":1000,"Events":[
                {"ID":"in1","UID":"u1","StartTime":150,"EndTime":250},
                {"ID":"out1","UID":"u2","StartTime":10,"EndTime":20},
                {"ID":"rec1","UID":"u3","StartTime":1,"EndTime":2,"RRule":"FREQ=YEARLY"}
            ],"More":0}"#;
    let (evs, more) = untyped_page(200, body, 0, 100, 200).unwrap();
    assert!(!more);
    let ids: Vec<&str> = evs.iter().map(|e| e.ID.as_str()).collect();
    // An event in the window and the master of a series stay; a series is
    // never left out for its times.
    assert!(ids.contains(&"in1"), "overlap kept: {ids:?}");
    assert!(ids.contains(&"rec1"), "recurring kept: {ids:?}");
    assert!(!ids.contains(&"out1"), "outside dropped: {ids:?}");
}

#[test]
fn test_live_shaped_row_parses() {
    // Numbers for flags, nulls for what is not set; one bad row does not
    // take the others with it.
    let v = json(
        r#"{"Code":1000,"Events":[
            {"ID":"good","UID":"u1","StartTime":150,"EndTime":250,
             "FullDay":0,"Exdates":null,"RRule":null,"Notifications":null,
             "IsOrganizer":1,"Permissions":3,"RecurrenceID":null,
             "StartTimezone":null,"EndTimezone":null,"Author":null,
             "SharedKeyPacket":null,"CalendarKeyPacket":null,
             "SharedEventID":null,"CreateTime":null,"LastEditTime":null,
             "IsProtonProtonInvite":0,"AddressKeyPacket":"x",
             "SharedEvents":[{"Type":2,"Data":"BEGIN:VCALENDAR\r\nVERSION:2.0\r\nPRODID:-//Proton AG//x//EN\r\nBEGIN:VEVENT\r\nUID:u1\r\nSUMMARY:Hi\r\nEND:VEVENT\r\nEND:VCALENDAR","Signature":"s","Author":null}]},
            "not-an-object"
        ],"More":0}"#,
    );
    let (evs, more) = parse_events_envelope(&v, 0);
    assert!(!more);
    assert_eq!(evs.len(), 1, "good row kept, bad row skipped");
    assert_eq!(evs[0].ID, "good");
    assert_eq!(evs[0].FullDay, Some(false));
    assert!(evs[0].Exdates.is_empty());
    assert_eq!(evs[0].StartTimezone, "");
    assert_eq!(evs[0].SharedKeyPacket, "");
    assert_eq!(evs[0].SharedEvents.len(), 1);
}

#[test]
fn test_bootstrap_mock_v2() {
    let b = bootstrap_of_json(&json(r#"{"Members":[{"ID":"m1","Email":"a@b.c"}],"Keys":[],"Passphrase":{"ID":"p1","MemberPassphrases":[]}}"#)).unwrap();
    assert_eq!(b.Members.len(), 1);
    assert_eq!(b.Members[0].ID, "m1");
    assert_eq!(b.Members[0].Email, "a@b.c");
    assert_eq!(b.Passphrase.unwrap().ID, "p1");
}

#[test]
fn test_bootstrap_v2_settings_parsed() {
    let b = bootstrap_of_json(&json(r#"{"Members":[{"ID":"m1"}],"Keys":[],
                "Passphrase":{"ID":"p1","MemberPassphrases":[]},
                "CalendarSettings":{"DefaultEventDuration":30,
                  "DefaultPartDayNotifications":[{"Trigger":"-PT15M","Type":1}],
                  "DefaultFullDayNotifications":[]}}"#)).unwrap();
    assert!(!needs_settings(&b));
    let s = b.Settings.expect("settings parsed");
    assert_eq!(s.DefaultEventDuration, Some(30));
    assert_eq!(s.DefaultPartDayNotifications.unwrap().len(), 1);
    assert!(s.DefaultFullDayNotifications.unwrap().is_empty());
}

#[test]
fn test_settings_live_envelope_with_int_bool() {
    let (s, body) = settings_of_response(&json(r#"{"Code":1000,"CalendarSettings":{"CalendarID":"c1",
                "DefaultEventDuration":30,
                "DefaultFullDayNotifications":[
                  {"Trigger":"-PT15H","Type":1},{"Trigger":"-PT15H","Type":0}],
                "DefaultPartDayNotifications":[
                  {"Trigger":"-PT15M","Type":1},{"Trigger":"-PT15M","Type":0}],
                "ID":"s1","MakesUserBusy":1}}"#), 200);
    assert!(body.starts_with("http200 "), "{body}");
    assert!(!s.is_empty());
    assert_eq!(s.MakesUserBusy, Some(true));
    assert_eq!(s.DefaultPartDayNotifications.unwrap().len(), 2);
}

#[test]
fn test_bootstrap_settings_filled_from_v1() {
    let mut b = bootstrap_of_json(&json(r#"{"Members":[{"ID":"m1"}],"Keys":[],"Passphrase":null}"#)).unwrap();
    assert!(needs_settings(&b));
    let (s, _) = settings_of_response(&json(r#"{"CalendarSettings":{"DefaultEventDuration":30,
                "DefaultPartDayNotifications":[{"Trigger":"-PT15M","Type":1},{"Trigger":"-PT15M","Type":0}]}}"#), 200);
    b.Settings = usable_settings(Some(s));
    let s = b.Settings.expect("the standalone route fills the gap");
    assert_eq!(s.DefaultEventDuration, Some(30));
    assert_eq!(s.DefaultPartDayNotifications.unwrap().len(), 2);
}

#[test]
fn test_bootstrap_falls_back_to_v1() {
    assert!(bootstrap_of_json(&json("{}")).is_none());
    let members: Vec<CalendarMember> =
        read_tolerant_rows(json(r#"{"Members":[{"ID":"m9"}]}"#).get("Members"));
    let keys: Vec<CalendarKey> = read_tolerant_rows(json(r#"{"Keys":[]}"#).get("Keys"));
    let passphrase: Option<CalendarPassphrase> = read_tolerant_row(
        json(r#"{"Passphrase":{"ID":"p","MemberPassphrases":[]}}"#).get("Passphrase"),
    );
    assert!(bootstrap_from_parts(Vec::new(), Vec::new(), None, None).is_none());
    let b = bootstrap_from_routes(Some(members), Some(keys), passphrase, None);
    assert_eq!(b.Members[0].ID, "m9");
    assert!(b.Passphrase.is_some());
    let none = bootstrap_from_routes(None, None, None, Some(CalendarSettings::default()));
    assert!(none.Members.is_empty() && none.Keys.is_empty());
    assert!(none.Passphrase.is_none() && none.Settings.is_none());
}

#[test]
fn test_parse_rrule_weekly_byday_interval() {
    // RFC5545 example: every other week TU+TH, 8 occurrences.
    let s = parse_rrule("FREQ=WEEKLY;INTERVAL=2;COUNT=8;WKST=SU;BYDAY=TU,TH");
    assert_eq!(s.freq, "WEEKLY");
    assert_eq!(s.interval, 2);
    assert_eq!(s.count, Some(8));
    assert_eq!(s.wkst, "SU");
    assert_eq!(s.byday.len(), 2);
    assert!(s.byday.iter().any(|d| d.weekday == "TU" && d.pos == 0));
    assert!(s.byday.iter().any(|d| d.weekday == "TH" && d.pos == 0));
}

#[test]
fn test_parse_rrule_monthly_numeric_byday_and_monthday() {
    // Monthly first-Friday + month-day list (RFC5545 §3.8.5.3 examples).
    let s = parse_rrule("FREQ=MONTHLY;COUNT=10;BYDAY=1FR");
    assert_eq!(s.freq, "MONTHLY");
    assert_eq!(s.byday.len(), 1);
    assert_eq!(s.byday[0].weekday, "FR");
    assert_eq!(s.byday[0].pos, 1);
    let t = parse_rrule("FREQ=MONTHLY;COUNT=10;BYMONTHDAY=2,15");
    assert_eq!(t.bymonthday, vec![2, 15]);
    let u = parse_rrule("FREQ=MONTHLY;INTERVAL=18;COUNT=10;BYMONTHDAY=10,11,12,13,14,15");
    assert_eq!(u.interval, 18);
    assert_eq!(u.bymonthday.len(), 6);
}

#[test]
fn test_parse_rrule_yearly_bymonth_until_and_bysetpos() {
    let s = parse_rrule("FREQ=YEARLY;BYMONTH=3;BYDAY=TH");
    assert_eq!(s.freq, "YEARLY");
    assert_eq!(s.bymonth, vec![3]);
    assert_eq!(s.byday.len(), 1);
    let t = parse_rrule("FREQ=YEARLY;UNTIL=20000131T140000Z;BYMONTH=1;BYDAY=SU");
    assert_eq!(t.until, Some("20000131T140000Z".into()));
    assert_eq!(t.bymonth, vec![1]);
    let u = parse_rrule("FREQ=MONTHLY;BYDAY=MO,TU,WE,TH,FR;BYSETPOS=-1");
    assert_eq!(u.bysetpos, vec![-1]);
    assert_eq!(u.byday.len(), 5);
}

#[test]
fn test_parse_rrule_lenient_skips_garbage() {
    // Invalid INTERVAL/COUNT fall back to defaults; bad BYDAY/BYMONTHDAY
    // entries are skipped without failing the whole rule.
    let s = parse_rrule(
        "FREQ=DAILY;INTERVAL=0;COUNT=xx;BYDAY=XX,MO;BYMONTHDAY=99,15;BYMONTH=13,6;WKST=XX",
    );
    assert_eq!(s.freq, "DAILY");
    assert_eq!(s.interval, 1);
    assert_eq!(s.count, None);
    assert_eq!(s.byday.len(), 1);
    assert_eq!(s.byday[0].weekday, "MO");
    assert_eq!(s.bymonthday, vec![15]);
    assert_eq!(s.bymonth, vec![6]);
    assert!(s.wkst.is_empty());
    // Empty rule: freq empty, interval default.
    let e = parse_rrule("");
    assert!(e.freq.is_empty());
    assert_eq!(e.interval, 1);
}

#[test]
fn test_parse_ical_attendee_params_rsvp_partstat_role() {
    let frag = "BEGIN:VEVENT\nUID:x\nORGANIZER;CN=Big Boss:mailto:boss@example.com\nATTENDEE;CN=Alice;RSVP=TRUE;PARTSTAT=ACCEPTED;ROLE=REQ-PARTICIPANT:mailto:alice@example.com\nATTENDEE;CN=Bob;PARTSTAT=TENTATIVE;ROLE=OPT-PARTICIPANT;CUTYPE=INDIVIDUAL:mailto:bob@example.com\nATTENDEE:mailto:plain@example.com\nEND:VEVENT";
    let p = parse_ical(frag).unwrap();
    assert_eq!(p.organizer, "boss@example.com");
    assert_eq!(p.organizer_name, "Big Boss");
    assert_eq!(p.attendees.len(), 3);
    assert_eq!(p.attendee_details.len(), 3);
    let a = &p.attendee_details[0];
    assert_eq!(a.email, "alice@example.com");
    assert_eq!(a.name, "Alice");
    assert!(a.rsvp);
    assert_eq!(a.partstat, "ACCEPTED");
    assert_eq!(a.role, "REQ-PARTICIPANT");
    let b = &p.attendee_details[1];
    assert_eq!(b.name, "Bob");
    assert!(!b.rsvp);
    assert_eq!(b.partstat, "TENTATIVE");
    assert_eq!(b.role, "OPT-PARTICIPANT");
    assert_eq!(b.cutype, "INDIVIDUAL");
    assert_eq!(p.attendee_details[2].email, "plain@example.com");
}

#[test]
fn test_parse_ical_attendee_quoted_cn_with_comma() {
    // CN may be quoted and contain commas/semicolons (RFC5545 params).
    let frag =
        "BEGIN:VEVENT\nUID:x\nATTENDEE;CN=\"Doe, John\":mailto:john@example.com\nEND:VEVENT";
    let p = parse_ical(frag).unwrap();
    assert_eq!(p.attendee_details.len(), 1);
    assert_eq!(p.attendee_details[0].name, "Doe, John");
    assert_eq!(p.attendee_details[0].email, "john@example.com");
}

#[test]
fn test_parse_ical_recurrence_id_and_range() {
    let master =
        "BEGIN:VEVENT\nUID:u1\nDTSTART:20260914T200000Z\nRRULE:FREQ=DAILY;COUNT=5\nEND:VEVENT";
    let m = parse_ical(master).unwrap();
    assert!(m.recurrence_id.is_empty());
    let exc = "BEGIN:VEVENT\nUID:u1\nRECURRENCE-ID:20260915T200000Z\nDTSTART:20260915T223000Z\nEND:VEVENT";
    let e = parse_ical(exc).unwrap();
    assert_eq!(e.recurrence_id, "20260915T200000Z");
    assert!(e.recurrence_id_range.is_empty());
    let exc2 =
        "BEGIN:VEVENT\nUID:u1\nRECURRENCE-ID;RANGE=THISANDFUTURE:20260915T200000Z\nEND:VEVENT";
    let f = parse_ical(exc2).unwrap();
    assert_eq!(f.recurrence_id_range, "THISANDFUTURE");
}

#[test]
fn test_parse_ical_exdate_tzid_and_merge_union() {
    // EXDATE with TZID strips params but keeps floating values; merge
    // unions multi-valued EXDATE/ATTENDEE across fragments.
    let a = "BEGIN:VEVENT\nUID:u1\nEXDATE:20260909T090000Z,20260916T090000Z\nEND:VEVENT"
        .to_string();
    let b = "BEGIN:VEVENT\nUID:u1\nEXDATE;TZID=Europe/Rome:20260923T090000\nATTENDEE;CN=Alice:mailto:alice@example.com\nEND:VEVENT".to_string();
    let m = merge_ical_fragments(&[a, b]).unwrap();
    assert_eq!(m.exdates.len(), 3);
    assert!(m.exdates.contains(&"20260923T090000".to_string()));
    assert_eq!(m.attendee_details.len(), 1);
    assert_eq!(m.attendee_details[0].email, "alice@example.com");
}

#[test]
fn test_split_full_handles_colon_in_quoted_param() {
    let (name, params, value) =
        split_ical_line_full("ATTENDEE;CN=\"a:b\":mailto:x@example.com").unwrap();
    assert_eq!(name, "ATTENDEE");
    assert!(params.contains("CN="));
    assert_eq!(value, "mailto:x@example.com");
    let map = parse_ical_params(&params);
    assert_eq!(map.get("CN").map(String::as_str), Some("a:b"));
}
