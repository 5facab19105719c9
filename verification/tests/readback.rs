use proton_api::calendar::{default_window, dedupe_events, keeps_event, next_page, query_windows};
use proton_api::contacts::{
    contact_count, contact_uid, contacts_failure, fallback_bytes, more_contacts,
};
use proton_api::ical::{merge_ical_fragments, parse_ical};
use proton_api::json::parse_json;
use proton_api::keygroups::{
    append_vcard_lines, extract_key_groups, has_unknown_vcard_props, render_key_groups, KeyGroup,
};
use proton_api::ordered::TextMap;
use proton_api::vcard::{
    build_vcard, gender_letter, parse_vcard, wrap_vcard, ParsedAddress, ParsedContact,
    ParsedEmail, ParsedPhone,
};
use proton_api::calendar_write::{escape_ical_text, resolve_color, valid_color};
use proton_api::{parse_rrule, patch_card, CalendarEvent, CardPatch, ProtonError};

fn texts(all: &[&str]) -> Vec<String> {
    all.iter().map(|s| s.to_string()).collect()
}

fn full_contact() -> ParsedContact {
    ParsedContact {
        first_name: "Ada, the first".into(),
        last_name: "Lovelace\\Byron".into(),
        display_name: "Ada\nLovelace; Countess".into(),
        emails: vec![
            ParsedEmail {
                email: "ada@example.com".into(),
                types: texts(&["HOME", "pref"]),
            },
            ParsedEmail {
                email: "a;b@example.com".into(),
                types: vec![],
            },
        ],
        phones: vec![ParsedPhone {
            number: "+44 1".into(),
            types: texts(&["CELL"]),
        }],
        addresses: vec![ParsedAddress {
            street: "12 St James's Sq, W1".into(),
            locality: "London".into(),
            region: String::new(),
            postal_code: "SW1".into(),
            country: "UK\tGB".into(),
            types: texts(&["WORK"]),
        }],
        organization: "Analytical; Engines".into(),
        title: "Countess".into(),
        role: "Programmer".into(),
        notes: texts(&["first\nnote", ""]),
        url: "https://example.com/?a=1;b=2".into(),
        birthday: "1815-12-10".into(),
        anniversary: "1835".into(),
        nickname: "ä".repeat(200),
        gender: "Female".into(),
        photos: texts(&["data:image/png;base64,AAAA"]),
    }
}

#[test]
fn written_contacts_read_back() {
    let c = full_contact();
    let (signed, encrypted) = build_vcard(&c, "uid-1");
    let s = parse_vcard(&signed).unwrap();
    assert_eq!(
        s,
        ParsedContact {
            display_name: c.display_name.clone(),
            emails: c.emails.clone(),
            ..ParsedContact::default()
        }
    );
    let encrypted = encrypted.unwrap();
    let e = parse_vcard(&encrypted).unwrap();
    assert_eq!(
        e,
        ParsedContact {
            display_name: String::new(),
            emails: vec![],
            ..c
        }
    );
    assert!(!has_unknown_vcard_props(&[signed, encrypted]));
}

#[test]
fn contacts_that_no_card_can_hold_change() {
    let c = ParsedContact {
        last_name: "Lovelace".into(),
        birthday: "18151210".into(),
        gender: "male".into(),
        photos: texts(&["", "x"]),
        ..ParsedContact::default()
    };
    let e = parse_vcard(&build_vcard(&c, "u").1.unwrap()).unwrap();
    assert_eq!(e.last_name, "Lovelace");
    assert_eq!(e.birthday, "1815-12-10");
    assert_eq!(e.gender, "Male");
    assert_eq!(e.photos, ["x"]);
}

#[test]
fn only_the_last_card_counts() {
    let two = "BEGIN:VCARD\r\nFN:One\r\nTEL:1\r\nEND:VCARD\r\nbegin:vcard\r\nFN:Two\r\nEND:VCARD";
    let c = parse_vcard(two).unwrap();
    assert_eq!(c.display_name, "Two");
    assert!(c.phones.is_empty());
    assert_eq!(parse_vcard("FN:None").unwrap(), ParsedContact::default());
    let e = parse_vcard("BEGIN:VCARD\r\nno colon").unwrap_err();
    assert!(e.starts_with("ical_vcard parse error: "), "{e}");
}

#[test]
fn genders_have_letters() {
    for (name, letter) in [
        ("Male", "M"),
        ("Female", "F"),
        ("Other", "O"),
        ("N/A", "N"),
        ("Unknown", "U"),
        ("x", "X"),
    ] {
        assert_eq!(gender_letter(name), letter);
    }
}

#[test]
fn a_card_always_shows_a_name() {
    let (signed, encrypted) = build_vcard(&ParsedContact::default(), "u");
    assert!(signed.contains("FN:Unknown"));
    assert!(encrypted.is_none());
}

#[test]
fn added_lines_are_built_in() {
    let body = texts(&["UID:u", "FN:Ada"]);
    let more = vec![format!("item1.KEY:{}", "k".repeat(100))];
    let mut all = body.clone();
    all.extend(more.clone());
    assert_eq!(
        append_vcard_lines(&wrap_vcard(&body), &more),
        wrap_vcard(&all)
    );
    assert_eq!(append_vcard_lines("x", &[]), "x");
}

#[test]
fn regrouped_settings_keep_their_bodies() {
    let card = "BEGIN:VCARD\r\nITEM9.EMAIL:Ada@Example.com\r\nITEM9.KEY;PREF=1:data:a.b;c\r\nEND:VCARD";
    let groups = extract_key_groups(card);
    let mut map = TextMap::new();
    map.insert("ada@example.COM".into(), "item1".into());
    assert_eq!(
        render_key_groups(&groups, &map),
        ["item1.KEY;PREF=1:data:a.b;c"]
    );
    assert!(render_key_groups(&groups, &TextMap::new()).is_empty());
}

#[test]
fn first_fragments_count() {
    let a = "BEGIN:VEVENT\r\nSUMMARY:A\r\nEXDATE:1,2\r\nATTENDEE:mailto:x@y\r\nEND:VEVENT";
    let b = "BEGIN:VEVENT\r\nSUMMARY:B\r\nLOCATION:L\r\nEXDATE:2,3\r\nATTENDEE:mailto:x@y\r\nATTENDEE:mailto:z@y\r\nEND:VEVENT";
    let m = merge_ical_fragments(&[a.into(), b.into()]).unwrap();
    assert_eq!(m.summary, "A");
    assert_eq!(m.location, "L");
    assert_eq!(m.exdates, ["1", "2", "3"]);
    assert_eq!(m.attendee_details.len(), 2);
}

#[test]
fn patched_cards_read_back() {
    let card = "BEGIN:VCALENDAR\r\nBEGIN:VEVENT\r\nSUMMARY:Old\r\nX-KEEP:1\r\nBEGIN:VALARM\r\nTRIGGER:-PT5M\r\nEND:VALARM\r\nEND:VEVENT\r\nEND:VCALENDAR";
    let mut patch = CardPatch::default();
    patch.set.insert("SUMMARY".into(), ":New\\, title".into());
    patch.append.push("EXDATE:20260101".into());
    let once = patch_card(card, &patch);
    let ev = parse_ical(&once).unwrap();
    assert_eq!(ev.summary, "New, title");
    assert_eq!(ev.exdates, ["20260101"]);
    assert!(once.contains("X-KEEP:1"));
    assert!(once.contains("BEGIN:VALARM\r\nTRIGGER:-PT5M\r\nEND:VALARM"));
    assert_eq!(patch_card(&once, &patch), once);
    assert_eq!(patch_card("", &CardPatch::default()), WRAPPED);
}

const WRAPPED: &str = "BEGIN:VCALENDAR\r\nBEGIN:VEVENT\r\nEND:VEVENT\r\nEND:VCALENDAR";

#[test]
fn rules_out_of_range_are_left_out() {
    let r = parse_rrule("FREQ=MONTHLY;INTERVAL=0;BYMONTHDAY=32,-31,0;BYMONTH=13,12;BYDAY=2MO,XX");
    assert_eq!(r.bymonthday, [-31]);
    assert_eq!(r.bymonth, [12]);
    assert_eq!(r.byday.len(), 1);
}

#[test]
fn uids_are_hex_of_16_bytes() {
    let b: Vec<u8> = (0u8..16).collect();
    assert_eq!(
        contact_uid(&b),
        "proton-web-00010203-0405-0607-0809-0a0b0c0d0e0f"
    );
    assert_eq!(fallback_bytes(1, 2).len(), 16);
    assert_ne!(fallback_bytes(1, 2), fallback_bytes(2, 2));
    assert_ne!(fallback_bytes(1, 2), fallback_bytes(1, 3));
}

#[test]
fn pages_of_contacts_end() {
    assert!(more_contacts(100, 250, 100));
    assert!(!more_contacts(250, 250, 100));
    assert!(more_contacts(250, -1, 100));
    assert!(!more_contacts(150, 250, 50));
    assert_eq!(contact_count(&parse_json(r#"{"Total":7}"#).unwrap()), 7);
    assert_eq!(contact_count(&parse_json(r#"{"Total":-1}"#).unwrap()), 0);
    match contacts_failure("update", "422", &"x".repeat(2000)) {
        ProtonError::Api { code, message } => {
            assert_eq!(code, 0);
            assert_eq!(message, format!("contacts update failed 422: {}", "x".repeat(1000)));
        }
        other => panic!("{other:?}"),
    }
}

#[test]
fn windows_touch_and_pages_stop() {
    let day = 86400;
    let w = query_windows(0, 200 * day);
    assert_eq!(
        w,
        [
            (-day, 92 * day),
            (90 * day, 183 * day),
            (181 * day, 201 * day)
        ]
    );
    assert_eq!(default_window(1_000_000_000), (968_464_000, 1_031_536_000));
    assert_eq!(next_page(3, true, 100), Some(4));
    assert_eq!(next_page(100, true, 100), None);
    assert_eq!(next_page(0, false, 100), None);
}

#[test]
fn rows_are_kept_once_and_in_their_window() {
    let row = |id: &str, start: i64, end: i64, rule: Option<&str>| CalendarEvent {
        ID: id.into(),
        StartTime: start,
        EndTime: end,
        RRule: rule.map(|r| r.to_string()),
        ..CalendarEvent::default()
    };
    assert!(keeps_event(&row("a", 5, 10, None), 9, 20));
    assert!(!keeps_event(&row("a", 5, 9, None), 9, 20));
    assert!(keeps_event(&row("a", 5, 9, Some("FREQ=DAILY")), 9, 20));
    let mut all = vec![
        row("a", 1, 2, None),
        row("b", 1, 2, None),
        row("a", 3, 4, None),
    ];
    dedupe_events(&mut all);
    assert_eq!(all.len(), 2);
    assert_eq!((all[0].ID.as_str(), all[0].StartTime), ("a", 1));
}

#[test]
fn semicolons_inside_names_and_addresses_stay() {
    let c = parse_vcard("BEGIN:VCARD\r\nN:A\\;B;C;;;\r\nADR:;;1\\;2;L;R;P;K\r\nEND:VCARD").unwrap();
    assert_eq!(c.last_name, "A;B");
    assert_eq!(c.first_name, "C");
    assert_eq!(c.addresses[0].street, "1;2");
    assert_eq!(c.addresses[0].locality, "L");
    let named = ParsedContact {
        last_name: "Love;lace".into(),
        first_name: "A;da".into(),
        ..ParsedContact::default()
    };
    let back = parse_vcard(&build_vcard(&named, "u").1.unwrap()).unwrap();
    assert_eq!(back.last_name, "Love;lace");
    assert_eq!(back.first_name, "A;da");
}

#[test]
fn genders_and_dates_read_back_in_their_form() {
    for (gender, read) in [
        ("Male", "Male"),
        ("female", "Female"),
        ("robot", "ROBOT"),
    ] {
        for (date, form) in [("18350708", "1835-07-08"), ("1835", "1835"), ("soon", "soon")] {
            let c = ParsedContact {
                gender: gender.into(),
                anniversary: date.into(),
                birthday: date.into(),
                ..ParsedContact::default()
            };
            let back = parse_vcard(&build_vcard(&c, "u").1.unwrap()).unwrap();
            assert_eq!(back.anniversary, form);
            assert_eq!(back.birthday, form);
            let again = parse_vcard(&build_vcard(&back, "u").1.unwrap()).unwrap();
            assert_eq!(again, back);
            assert_eq!(back.gender, read);
        }
    }
}

#[test]
fn cards_with_any_text_can_be_rebuilt() {
    let c = ParsedContact {
        display_name: "X-ODD:1\nX-MORE;A=B:2".into(),
        phones: vec![ParsedPhone {
            number: ";:\",\t".into(),
            types: texts(&["a:b", "\"q", "c;d"]),
        }],
        notes: texts(&["\u{1}KEY:x", " leading"]),
        ..ParsedContact::default()
    };
    let (signed, encrypted) = build_vcard(&c, "id:with;marks");
    assert!(!has_unknown_vcard_props(&[signed, encrypted.unwrap()]));
    let (broken, _) = build_vcard(&c, "id\nX-ODD:1");
    assert!(has_unknown_vcard_props(&[broken]));
    // A carriage return counts as a line end, in a gender as in any text.
    let c = ParsedContact {
        gender: "x\rx-odd:1\u{e9}".into(),
        ..ParsedContact::default()
    };
    let (signed, encrypted) = build_vcard(&c, "u");
    assert!(!has_unknown_vcard_props(&[signed]));
    assert!(has_unknown_vcard_props(&[encrypted.unwrap()]));
    // Without one, a gender is one line in any script.
    let c = ParsedContact {
        gender: "x\nx-odd:1 stra\u{df}e \u{fb01} \u{149}".into(),
        ..ParsedContact::default()
    };
    let (_, encrypted) = build_vcard(&c, "u");
    assert!(!has_unknown_vcard_props(&[encrypted.unwrap()]));
}

#[test]
fn groups_are_replaced_up_to_the_last_dot() {
    let groups = [KeyGroup {
        email: "a@b.c".into(),
        lines: texts(&["a.b.KEY:v", "item7.KEY;X=\"p.q\":d.e"]),
    }];
    let mut map = TextMap::new();
    map.insert("A@b.c".into(), "item1".into());
    assert_eq!(
        render_key_groups(&groups, &map),
        ["item1.KEY:v", "item1.KEY;X=\"p.q\":d.e"]
    );
}

#[test]
fn lines_can_be_added_in_two_steps() {
    let card = wrap_vcard(&texts(&["UID:u", "FN:Ada"]));
    let first = texts(&["item1.KEY:a"]);
    let second = vec![format!("NOTE:{}", "n".repeat(90))];
    let both: Vec<String> = first.iter().chain(&second).cloned().collect();
    assert_eq!(
        append_vcard_lines(&append_vcard_lines(&card, &first), &second),
        append_vcard_lines(&card, &both)
    );
}

#[test]
fn rules_read_the_same_in_any_case() {
    let upper = parse_rrule("FREQ=MONTHLY;INTERVAL=2;BYDAY=1MO,-1FR;WKST=SU;BYSETPOS=-1");
    let lower = parse_rrule("freq=monthly;Interval=2;byday=1mo,-1fr;wkst=su;bysetpos=-1");
    assert_eq!(upper, lower);
    assert_eq!(upper.freq, "MONTHLY");
}

#[test]
fn escaped_texts_read_back_from_fragments() {
    let text = "Meet, discuss; plan\\next\nline\ttab";
    let frag = format!(
        "BEGIN:VEVENT\nUID:u1\nSUMMARY:{}\nEND:VEVENT",
        escape_ical_text(text)
    );
    let ev = parse_ical(&frag).unwrap();
    assert_eq!(ev.summary, text);
    assert_eq!(ev.uid, "u1");
}

#[test]
fn a_deleted_property_that_is_set_is_written() {
    let card = "BEGIN:VEVENT\r\nUID:u1\r\nSUMMARY:Old\r\nEND:VEVENT";
    let mut patch = CardPatch::default();
    patch.set.insert("SUMMARY".into(), ":New".into());
    patch.delete.insert("SUMMARY".into());
    assert_eq!(
        patch_card(card, &patch),
        "BEGIN:VCALENDAR\r\nBEGIN:VEVENT\r\nUID:u1\r\nSUMMARY:New\r\nEND:VEVENT\r\nEND:VCALENDAR"
    );
}

#[test]
fn nested_blocks_stay_as_they_are() {
    let zone = "BEGIN:VTIMEZONE\r\nTZID:Z\r\nBEGIN:STANDARD\r\nDTSTART:1\r\nSUMMARY:zone\r\nEND:STANDARD\r\nSUMMARY:after\r\nEND:VTIMEZONE";
    let card = format!(
        "BEGIN:VCALENDAR\r\n{zone}\r\nBEGIN:VEVENT\r\nUID:u1\r\nSUMMARY:Old\r\nBEGIN:VALARM\r\nSUMMARY:alarm\r\nEND:VALARM\r\nEND:VEVENT\r\nEND:VCALENDAR"
    );
    let mut patch = CardPatch::default();
    patch.set.insert("SUMMARY".into(), ":New".into());
    let out = patch_card(&card, &patch);
    assert!(out.contains(zone), "{out}");
    assert!(out.contains("SUMMARY:alarm"), "{out}");
    assert!(out.contains("UID:u1\r\nSUMMARY:New"), "{out}");
    assert!(!out.contains("SUMMARY:Old"), "{out}");
}

#[test]
fn an_empty_patch_changes_nothing_the_second_time() {
    let card = "BEGIN:VCALENDAR\nVERSION:2.0\nBEGIN:VEVENT\nUID:u1\nSUMMARY:  x \nEND:VEVENT\nEND:VCALENDAR\n";
    let once = patch_card(card, &CardPatch::default());
    assert_eq!(patch_card(&once, &CardPatch::default()), once);
    for nested in [
        "BEGIN:A\nBEGIN:B\nEND:B",
        "BEGIN:A\nX:1\nBEGIN:B\nEND:A\nEND:B\nY:2",
        "BEGIN:VALARM\nBEGIN:X\nEND:VALARM\nSUMMARY:a",
        "BEGIN:A\nBEGIN:A\nEND:A\nEND:A\nEND:A",
        "END:A\nBEGIN:A\nEND:B\nX:1",
    ] {
        let once = patch_card(nested, &CardPatch::default());
        assert_eq!(patch_card(&once, &CardPatch::default()), once, "{nested}");
    }
}

#[test]
fn a_block_ends_where_its_name_ends() {
    let mut patch = CardPatch::default();
    patch.set.insert("SUMMARY".into(), ":new".into());
    let out = patch_card("BEGIN:VALARM\nBEGIN:X\nEND:VALARM\nSUMMARY:a", &patch);
    assert!(out.contains("BEGIN:VALARM\r\nBEGIN:X\r\nEND:VALARM"), "{out}");
    assert!(out.contains("SUMMARY:new") && !out.contains("SUMMARY:a"), "{out}");
}

#[test]
fn resolved_colors_resolve_to_themselves() {
    for spec in ["#EC3E7C", "ec3e7c", "#ec3e7c", "strawberry", "Strawberry"] {
        let hex = resolve_color(spec).unwrap();
        assert_eq!(hex, "#EC3E7C");
        assert!(valid_color(&hex));
        assert_eq!(resolve_color(&hex).unwrap(), hex);
        assert_eq!(resolve_color(hex.trim_start_matches('#')).unwrap(), hex);
    }
    assert!(resolve_color("no such colour").is_err());
}

#[test]
fn a_set_property_has_one_value() {
    let card = "BEGIN:VEVENT\nUID:u1\nEXDATE:1\nexdate;X=1:2\nEND:VEVENT";
    let mut patch = CardPatch::default();
    patch.set.insert("EXDATE".into(), ":9".into());
    let out = patch_card(card, &patch);
    assert!(!out.contains(":1") && !out.contains(":2"), "{out}");
    let ev = parse_ical(&out).unwrap();
    assert_eq!(ev.exdates, ["9"]);
}
