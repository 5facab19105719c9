use proton_api::keygroups::{
    append_vcard_lines, extract_key_groups, has_unknown_vcard_props, render_key_groups,
    unknown_vcard_props, unknown_vcard_props_except_keys,
};
use proton_api::ordered::TextMap;
use proton_api::vcard::{
    build_vcard, parse_vcard, ParsedAddress, ParsedContact, ParsedEmail, ParsedPhone,
};

fn rich_contact() -> ParsedContact {
    ParsedContact {
        first_name: "Ada, the".into(),
        last_name: "Lovelace".into(),
        display_name: String::new(), // exercises first+last fallback
        emails: vec![ParsedEmail {
            email: "ada@example.com".into(),
            types: vec!["HOME".into()],
        }],
        phones: vec![ParsedPhone {
            number: "+39 02 123".into(),
            types: vec!["CELL".into(), "VOICE".into()],
        }],
        addresses: vec![ParsedAddress {
            street: "Via Roma 1".into(),
            locality: "Milano".into(),
            region: "MI".into(),
            postal_code: "20100".into(),
            country: "Italy".into(),
            types: vec!["HOME".into()],
        }],
        organization: "Analytical Engines;Dept".into(),
        title: "Mathematician".into(),
        role: String::new(),
        notes: vec!["line1\nline2".into(), "second".into()],
        url: "https://example.com".into(),
        birthday: "1815-12-10".into(),
        anniversary: String::new(),
        nickname: "Queen of Numbers".into(),
        gender: "Female".into(),
        photos: vec!["data:image/jpeg;base64,/9j/".into()],
    }
}

#[test]
fn test_build_vcard_round_trips() {
    let contact = rich_contact();
    let (signed, encrypted) = build_vcard(&contact, "uid-9");
    let encrypted = encrypted.expect("rich contact seals an encrypted card");
    // Split contract: uid/fn/emails signed, everything else encrypted.
    assert!(signed.contains("UID:uid-9"));
    assert!(signed.contains("FN:Ada\\, the Lovelace"));
    assert!(signed.contains("item1.EMAIL;TYPE=HOME:ada@example.com"));
    assert!(!signed.contains("TEL"));
    assert!(encrypted.contains("TEL;TYPE=CELL,VOICE:+39 02 123"));
    assert!(encrypted.contains("N:Lovelace;Ada\\, the;;;"));
    assert!(encrypted.contains("ORG:Analytical Engines\\;Dept"));
    assert!(encrypted.contains("NOTE:line1\\nline2"));
    assert!(encrypted.contains("BDAY:1815-12-10"));
    assert!(encrypted.contains("GENDER:F"));
    // `;` and `,` escaped (correct vCard TEXT escaping for data URIs).
    assert!(encrypted.contains("PHOTO:data:image/jpeg\\;base64\\,/9j/"));
    // No cleartext part without categories.
    assert!(!signed.contains("TEL") || signed.contains("EMAIL"));
    // Re-parse both cards: union recovers the contact.
    let mut back = parse_vcard(&signed).unwrap();
    let enc = parse_vcard(&encrypted).unwrap();
    if back.display_name.is_empty() {
        back.display_name = enc.display_name.clone();
    }
    if back.first_name.is_empty() {
        back.first_name = enc.first_name.clone();
        back.last_name = enc.last_name.clone();
    }
    back.phones = enc.phones.clone();
    back.addresses = enc.addresses.clone();
    back.organization = enc.organization.clone();
    back.title = enc.title.clone();
    back.notes = enc.notes.clone();
    back.url = enc.url.clone();
    back.birthday = enc.birthday.clone();
    back.nickname = enc.nickname.clone();
    back.gender = enc.gender.clone();
    back.photos = enc.photos.clone();
    assert_eq!(back.display_name, "Ada, the Lovelace");
    assert_eq!(back.first_name, "Ada, the");
    assert_eq!(back.last_name, "Lovelace");
    assert_eq!(back.emails.len(), 1);
    assert_eq!(back.phones[0].types, vec!["CELL", "VOICE"]);
    assert_eq!(back.addresses[0].locality, "Milano");
    assert_eq!(back.organization, "Analytical Engines;Dept");
    assert_eq!(back.notes.len(), 2);
    assert_eq!(back.notes[0], "line1\nline2");
    assert_eq!(back.gender, "Female");
}

#[test]
fn test_build_vcard_fn_fallbacks() {
    // Explicit FN wins.
    let c = ParsedContact {
        display_name: "Shown Name".into(),
        ..Default::default()
    };
    let (signed, _) = build_vcard(&c, "u");
    assert!(signed.contains("FN:Shown Name"));
    // Else first email.
    let c2 = ParsedContact {
        emails: vec![ParsedEmail {
            email: "solo@example.com".into(),
            types: Vec::new(),
        }],
        ..Default::default()
    };
    let (signed2, _) = build_vcard(&c2, "u");
    assert!(signed2.contains("FN:solo@example.com"));
    // Else `Unknown`, never empty.
    let (signed3, _) = build_vcard(&ParsedContact::default(), "u");
    assert!(signed3.contains("FN:Unknown"), "{signed3}");
}

#[test]
fn test_build_vcard_emits_no_prodid() {
    // VERSION is there, PRODID is not.
    let (signed, encrypted) = build_vcard(&rich_contact(), "u");
    let encrypted = encrypted.expect("rich contact seals an encrypted card");
    assert!(!signed.contains("PRODID"), "{signed}");
    assert!(!encrypted.contains("PRODID"), "{encrypted}");
    assert!(signed.contains("VERSION:4.0"), "{signed}");
}

#[test]
fn test_build_vcard_email_only_omits_encrypted() {
    // Nothing to encrypt: a single signed card.
    let c = ParsedContact {
        display_name: "Solo".into(),
        emails: vec![ParsedEmail {
            email: "solo@example.com".into(),
            types: Vec::new(),
        }],
        ..Default::default()
    };
    let (signed, encrypted) = build_vcard(&c, "u-solo");
    assert!(signed.contains("UID:u-solo"));
    assert!(signed.contains("FN:Solo"));
    assert!(signed.contains("item1.EMAIL:solo@example.com"));
    assert!(encrypted.is_none(), "{encrypted:?}");
    // Nameless + phoneless + addressless is the same shape.
    let (signed2, encrypted2) = build_vcard(&ParsedContact::default(), "u-empty");
    assert!(signed2.contains("FN:Unknown"));
    assert!(encrypted2.is_none(), "{encrypted2:?}");
}

#[test]
fn test_build_vcard_folds_long_lines() {
    let c = ParsedContact {
        notes: vec!["x".repeat(200)],
        ..Default::default()
    };
    let (_, encrypted) = build_vcard(&c, "u");
    let encrypted = encrypted.expect("note seals an encrypted card");
    for line in encrypted.split("\r\n") {
        assert!(line.len() <= 75, "overlong: {line}");
    }
    // Folded NOTE re-parses whole.
    let back = parse_vcard(&encrypted).unwrap();
    assert_eq!(back.notes, vec!["x".repeat(200)]);
}

#[test]
fn test_grouped_props_dont_trip_guard() {
    // Grouped properties count under their base name.
    let grouped = "BEGIN:VCARD\r\nVERSION:4.0\r\nUID:u1\r\nFN:Old\r\nitem1.EMAIL;TYPE=HOME:old@example.com\r\nEND:VCARD";
    assert!(!has_unknown_vcard_props(&[grouped.to_string()]));
    assert!(unknown_vcard_props(&[grouped.to_string()]).is_empty());
    // …while a genuinely unknown base name still trips, group or not.
    let exotic = "BEGIN:VCARD\r\nVERSION:4.0\r\nUID:u1\r\nX-CUSTOM:1\r\nEND:VCARD";
    assert_eq!(unknown_vcard_props(&[exotic.to_string()]), vec!["X-CUSTOM"]);
    let grouped_exotic =
        "BEGIN:VCARD\r\nVERSION:4.0\r\nUID:u1\r\nitem1.X-CUSTOM:1\r\nEND:VCARD";
    assert_eq!(
        unknown_vcard_props(&[grouped_exotic.to_string()]),
        vec!["X-CUSTOM"]
    );
}

/// Key fields share the group of their address in the signed card.
const KEYED_SIGNED: &str = "BEGIN:VCARD\r\nVERSION:4.0\r\nUID:u1\r\nFN:Keyed\r\nitem1.EMAIL;TYPE=HOME:kept@example.com\r\nitem1.KEY:data:;base64,QUJD\r\nitem1.X-PM-SCHEME:pgp-mime\r\nitem1.X-PM-SIGN:true\r\nitem2.EMAIL:plain@example.com\r\nEND:VCARD";

#[test]
fn test_extract_key_groups_by_email() {
    let groups = extract_key_groups(KEYED_SIGNED);
    assert_eq!(groups.len(), 1, "{groups:?}");
    assert_eq!(groups[0].email, "kept@example.com");
    assert_eq!(groups[0].lines.len(), 3);
    // Bodies byte-identical (only regrouped at render).
    assert!(groups[0]
        .lines
        .iter()
        .any(|l| l == "item1.KEY:data:;base64,QUJD"));
    assert!(groups[0]
        .lines
        .iter()
        .any(|l| l == "item1.X-PM-SCHEME:pgp-mime"));
    // `plain@example.com` has no key lines → no group.
    assert!(!groups.iter().any(|g| g.email == "plain@example.com"));
}

#[test]
fn test_extract_key_groups_ignores_orphans_and_bare() {
    // Orphan group (no EMAIL) + ungrouped KEY: neither is preservable.
    let card =
        "BEGIN:VCARD\r\nVERSION:4.0\r\nUID:u\r\nFN:x\r\nitem9.KEY:abc\r\nKEY:bare\r\nEND:VCARD";
    assert!(extract_key_groups(card).is_empty());
    assert_eq!(
        unknown_vcard_props_except_keys(&[card.to_string()]),
        vec!["KEY"]
    );
}

#[test]
fn test_key_groups_dont_trip_guard_but_exotic_does() {
    assert!(unknown_vcard_props_except_keys(&[KEYED_SIGNED.to_string()]).is_empty());
    // …while a genuinely unknown prop alongside still trips (and the
    // key lines stay exempt from the report).
    let mixed = KEYED_SIGNED.replace("END:VCARD", "X-CUSTOM:1\r\nEND:VCARD");
    assert_eq!(unknown_vcard_props_except_keys(&[mixed]), vec!["X-CUSTOM"]);
    // The strict guard still trips on key props (only the except-keys
    // path — applied per-card-side at seal time — exempts them).
    assert!(has_unknown_vcard_props(&[KEYED_SIGNED.to_string()]));
}

#[test]
fn test_render_key_groups_regroups_and_drops() {
    let groups = extract_key_groups(KEYED_SIGNED);
    // Rebuilt numbering differs (emails reordered): groups follow the
    // address, bodies byte-identical.
    let mut map = TextMap::new();
    map.insert("plain@example.com".to_string(), "item1".to_string());
    map.insert("kept@example.com".to_string(), "item2".to_string());
    let rendered = render_key_groups(&groups, &map);
    assert_eq!(rendered.len(), 3);
    assert!(rendered.iter().any(|l| l == "item2.KEY:data:;base64,QUJD"));
    assert!(rendered.iter().any(|l| l == "item2.X-PM-SIGN:true"));
    assert!(!rendered.iter().any(|l| l.starts_with("item1.KEY")));
    // Address deleted from the phone snapshot → group dropped.
    let mut dropped = TextMap::new();
    dropped.insert("plain@example.com".to_string(), "item1".to_string());
    assert!(render_key_groups(&groups, &dropped).is_empty());
    // Case-insensitive email match (mixed-case web exports).
    let mut upper = TextMap::new();
    upper.insert("KEPT@example.com".to_string(), "item1".to_string());
    assert_eq!(render_key_groups(&groups, &upper).len(), 3);
}

#[test]
fn test_append_vcard_lines_folds_and_closes() {
    let (signed, _) = build_vcard(&ParsedContact::default(), "u");
    let long_key = format!("item1.KEY:{}", "Q".repeat(200));
    let out = append_vcard_lines(&signed, &[long_key]);
    assert!(out.contains("UID:u"));
    assert!(out.ends_with("END:VCARD"));
    for line in out.split("\r\n") {
        assert!(line.len() <= 75, "overlong: {line}");
    }
    // Empty append is identity (no rebuild churn when nothing carried).
    assert_eq!(append_vcard_lines(&signed, &[]), signed);
}
