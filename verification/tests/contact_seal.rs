use proton_api::contact_seal::{
    build_contact_create_cards, build_contact_update_cards, decrypt_server_cards,
    diagnose_update_block, seal_contact_card,
};
use proton_api::crypto::decrypt_with_key;
use proton_api::vcard::{parse_vcard, ParsedContact, ParsedEmail, ParsedPhone};
use proton_api::{decrypt_contact_card, ContactCard, UnlockedKey};
use sequoia_openpgp::cert::CertBuilder;
use sequoia_openpgp::serialize::Serialize;

/// Fresh unlocked test identity (primary + signing + transport-encryption
/// subkeys, no password). Callers split user/address use by position.
fn test_user_identity() -> UnlockedKey {
    let (cert, _) = CertBuilder::new()
        .add_signing_subkey()
        .add_transport_encryption_subkey()
        .generate()
        .expect("test key generation");
    let mut armored_bytes = Vec::new();
    cert.as_tsk()
        .armored()
        .export(&mut armored_bytes)
        .expect("test cert armor");
    let armored = armored_bytes
        .into_iter()
        .map(|b| b as char)
        .collect::<String>();
    UnlockedKey::from_armored(&armored, b"").expect("test key unlock")
}

#[test]
fn contact_seal_test_seal_round_trips_through_read_path() {
    // What is sealed reads back through the card reader.
    let user = test_user_identity();
    let plain = "BEGIN:VCARD\r\nVERSION:4.0\r\nUID:x\r\nFN:Ada\r\nEND:VCARD";
    let (data, sig) = seal_contact_card(plain, std::slice::from_ref(&user)).unwrap();
    assert!(data.starts_with("-----BEGIN PGP MESSAGE-----"), "{data}");
    assert!(sig.starts_with("-----BEGIN PGP SIGNATURE-----"));
    let card = ContactCard {
        Type: 3,
        Data: data,
        Signature: sig,
    };
    let back = decrypt_contact_card(&card.Data, std::slice::from_ref(&user))
        .unwrap();
    assert_eq!(back, plain);
}

#[test]
fn test_seal_rejects_wrong_key() {
    let user = test_user_identity();
    let other = test_user_identity();
    let (data, _) = seal_contact_card("plain", std::slice::from_ref(&user)).unwrap();
    assert!(
        decrypt_contact_card(&data, std::slice::from_ref(&other)).is_err()
    );
}

#[test]
fn contact_seal_test_seal_ciphertext_differs_per_seal() {
    let user = test_user_identity();
    let (d1, _) = seal_contact_card("same", std::slice::from_ref(&user)).unwrap();
    let (d2, _) = seal_contact_card("same", std::slice::from_ref(&user)).unwrap();
    assert_ne!(d1, d2);
}

#[test]
fn test_seal_no_usable_key_fails() {
    let empty: Vec<UnlockedKey> = Vec::new();
    assert!(seal_contact_card("x", &empty).is_err());
}

fn server_cards_fixture(
    user: &UnlockedKey,
) -> (Vec<ContactCard>, ParsedContact) {
    // Server state: signed uid/fn/email + sealed name/phone cards.
    let signed = "BEGIN:VCARD\r\nVERSION:4.0\r\nUID:c-1\r\nFN:Old Name\r\nEMAIL:old@example.com\r\nEND:VCARD";
    let (enc_data, enc_sig) = seal_contact_card(
        "BEGIN:VCARD\r\nVERSION:4.0\r\nUID:c-1\r\nN:Old;Name;;;\r\nTEL:+100\r\nEND:VCARD",
        std::slice::from_ref(user),
    )
    .unwrap();
    let cards = vec![
        ContactCard {
            Type: 2,
            Data: signed.to_string(),
            Signature: "sig".into(),
        },
        ContactCard {
            Type: 3,
            Data: enc_data,
            Signature: enc_sig,
        },
    ];
    let phone = ParsedContact {
        first_name: "New".into(),
        last_name: "Name".into(),
        emails: vec![ParsedEmail {
            email: "new@example.com".into(),
            types: Vec::new(),
        }],
        ..Default::default()
    };
    (cards, phone)
}

fn decrypt_card(
    card: &ContactCard,
    user: &UnlockedKey,
) -> ParsedContact {
    let plain = if card.Type == 2 {
        card.Data.clone()
    } else {
        decrypt_contact_card(&card.Data, std::slice::from_ref(user)).unwrap()
    };
    parse_vcard(&plain).unwrap()
}

#[test]
fn test_update_rebuilds_and_preserves() {
    let user = test_user_identity();
    let (cards, phone) = server_cards_fixture(&user);
    let out =
        build_contact_update_cards(&cards, &phone, "c-1", std::slice::from_ref(&user))
            .unwrap()
            .expect("update seals");
    assert_eq!(out.len(), 2);
    // Signed card: phone emails + preserved UID.
    assert!(out[0].Data.contains("UID:c-1"));
    let signed = decrypt_card(&out[0], &user);
    assert!(signed.emails.iter().any(|e| e.email == "new@example.com"));
    // Encrypted card: phone name edit applied.
    let enc = decrypt_card(&out[1], &user);
    assert_eq!(enc.first_name, "New");
}

/// Server signed card with per-email crypto settings (key groups
/// of its addresses). Sealed encrypted side via the test key.
fn keyed_server_cards(user: &UnlockedKey) -> Vec<ContactCard> {
    let signed = "BEGIN:VCARD\r\nVERSION:4.0\r\nUID:c-1\r\nFN:Keyed Contact\r\nitem1.EMAIL;TYPE=HOME:kept@example.com\r\nitem1.KEY:data:;base64,QUJD\r\nitem1.X-PM-SCHEME:pgp-mime\r\nitem1.X-PM-SIGN:true\r\nitem2.EMAIL:plain@example.com\r\nEND:VCARD";
    let (enc_data, enc_sig) = seal_contact_card(
        "BEGIN:VCARD\r\nVERSION:4.0\r\nUID:c-1\r\nN:Contact;Keyed;;;\r\nEND:VCARD",
        std::slice::from_ref(user),
    )
    .unwrap();
    vec![
        ContactCard {
            Type: 2,
            Data: signed.to_string(),
            Signature: "sig".into(),
        },
        ContactCard {
            Type: 3,
            Data: enc_data,
            Signature: enc_sig,
        },
    ]
}

fn keyed_phone() -> ParsedContact {
    // Same addresses REORDERED (exercises regrouping) + name edit.
    ParsedContact {
        first_name: "KeyedEdited".into(),
        emails: vec![
            ParsedEmail {
                email: "plain@example.com".into(),
                types: Vec::new(),
            },
            ParsedEmail {
                email: "kept@example.com".into(),
                types: vec!["HOME".into()],
            },
        ],
        ..Default::default()
    }
}

#[test]
fn test_update_carries_key_groups_regrouped() {
    // The groups follow their address to its new number, bodies unchanged.
    let user = test_user_identity();
    let cards = keyed_server_cards(&user);
    let out = build_contact_update_cards(
        &cards,
        &keyed_phone(),
        "c-1",
        std::slice::from_ref(&user),
    )
    .unwrap()
    .expect("keyed update seals");
    assert_eq!(out[0].Type, 2);
    assert!(out[0].Data.contains("item2.EMAIL"), "{}", out[0].Data);
    assert!(
        out[0].Data.contains("item2.KEY:data:;base64,QUJD"),
        "{}",
        out[0].Data
    );
    assert!(
        out[0].Data.contains("item2.X-PM-SCHEME:pgp-mime"),
        "{}",
        out[0].Data
    );
    assert!(
        out[0].Data.contains("item2.X-PM-SIGN:true"),
        "{}",
        out[0].Data
    );
    assert!(!out[0].Data.contains("item1.KEY"), "{}", out[0].Data);
    // Name edit applied alongside.
    assert!(!out[1].Data.is_empty());
    let enc = decrypt_card(&out[1], &user);
    assert_eq!(enc.first_name, "KeyedEdited");
    // Diagnose agrees it is sealable (no unknown-props deferral).
    assert_eq!(
        diagnose_update_block(&cards, std::slice::from_ref(&user)),
        "sealable"
    );
}

#[test]
fn test_update_drops_key_group_of_deleted_email() {
    // Address removed from the phone snapshot: its settings go with it
    // (no orphan KEY lines for a deleted address).
    let user = test_user_identity();
    let cards = keyed_server_cards(&user);
    let mut phone = keyed_phone();
    phone.emails.truncate(1); // keep only plain@example.com
    let out =
        build_contact_update_cards(&cards, &phone, "c-1", std::slice::from_ref(&user))
            .unwrap()
            .expect("update seals");
    assert!(!out[0].Data.contains("KEY:"), "{}", out[0].Data);
    assert!(!out[0].Data.contains("X-PM-"), "{}", out[0].Data);
    assert!(out[0].Data.contains("item1.EMAIL:plain@example.com"));
}

#[test]
fn test_update_defers_encrypted_side_keys() {
    // Key lines in the ENCRYPTED card never relocate: still deferred
    // (protection domains don't move on rebuild).
    let user = test_user_identity();
    let (enc_data, enc_sig) = seal_contact_card(
        "BEGIN:VCARD\r\nVERSION:4.0\r\nUID:c\r\nN:X;Y;;;\r\nitem1.KEY:abc\r\nEND:VCARD",
        std::slice::from_ref(&user),
    )
    .unwrap();
    let cards = vec![ContactCard {
        Type: 3,
        Data: enc_data,
        Signature: enc_sig,
    }];
    assert!(build_contact_update_cards(
        &cards,
        &ParsedContact::default(),
        "c",
        std::slice::from_ref(&user)
    )
    .unwrap()
    .is_none());
    assert_eq!(
        diagnose_update_block(&cards, std::slice::from_ref(&user)),
        "unknown-props:KEY"
    );
}

#[test]
fn test_diagnose_names_remaining_unknowns_beside_keys() {
    // Key groups exempt, but a genuinely exotic prop still names itself.
    let user = test_user_identity();
    let mut cards = keyed_server_cards(&user);
    cards[0].Data = cards[0]
        .Data
        .replace("END:VCARD", "X-CUSTOM:1\r\nEND:VCARD");
    assert!(build_contact_update_cards(
        &cards,
        &keyed_phone(),
        "c-1",
        std::slice::from_ref(&user)
    )
    .unwrap()
    .is_none());
    assert_eq!(
        diagnose_update_block(&cards, std::slice::from_ref(&user)),
        "unknown-props:X-CUSTOM"
    );
}

#[test]
fn test_update_defers_cleartext_and_unknown() {
    let user = test_user_identity();
    let phone = ParsedContact::default();
    // Type-0 cleartext card would be dropped by the rebuild.
    let clear = vec![ContactCard {
        Type: 0,
        Data: "BEGIN:VCARD\r\nVERSION:4.0\r\nUID:c\r\nFN:x\r\nCATEGORIES:Friends\r\nEND:VCARD"
            .into(),
        Signature: String::new(),
    }];
    assert!(
        build_contact_update_cards(&clear, &phone, "c", std::slice::from_ref(&user))
            .unwrap()
            .is_none()
    );
    // Unknown X- prop likewise defers.
    let (enc_data, enc_sig) = seal_contact_card(
        "BEGIN:VCARD\r\nVERSION:4.0\r\nUID:c\r\nX-CUSTOM:1\r\nEND:VCARD",
        std::slice::from_ref(&user),
    )
    .unwrap();
    let exotic = vec![ContactCard {
        Type: 3,
        Data: enc_data,
        Signature: enc_sig,
    }];
    assert!(
        build_contact_update_cards(&exotic, &phone, "c", std::slice::from_ref(&user))
            .unwrap()
            .is_none()
    );
}

#[test]
fn test_create_cards_shape() {
    let user = test_user_identity();
    let phone = ParsedContact {
        display_name: "Fresh Contact".into(),
        phones: vec![ParsedPhone {
            number: "+3902000000".into(),
            types: Vec::new(),
        }],
        ..Default::default()
    };
    let out = build_contact_create_cards(&phone, "fresh-uid", std::slice::from_ref(&user))
        .unwrap()
        .expect("create seals");
    assert_eq!(out.len(), 2);
    assert_eq!(out[0].Type, 2);
    assert_eq!(out[1].Type, 3);
    let signed = decrypt_card(&out[0], &user);
    assert_eq!(signed.display_name, "Fresh Contact");
    let enc = decrypt_card(&out[1], &user);
    assert_eq!(enc.phones.len(), 1);
}

#[test]
fn test_create_email_only_seals_single_signed_card() {
    // Nothing to encrypt: no encrypted card at all.
    let user = test_user_identity();
    let phone = ParsedContact {
        display_name: "Solo".into(),
        emails: vec![ParsedEmail {
            email: "solo@example.com".into(),
            types: Vec::new(),
        }],
        ..Default::default()
    };
    let out = build_contact_create_cards(&phone, "solo-uid", std::slice::from_ref(&user))
        .unwrap()
        .expect("create seals");
    assert_eq!(out.len(), 1, "{out:?}");
    assert_eq!(out[0].Type, 2);
    assert!(out[0].Data.contains("item1.EMAIL:solo@example.com"));
    let back = decrypt_card(&out[0], &user);
    assert_eq!(back.display_name, "Solo");
    assert_eq!(back.emails.len(), 1);
}

#[test]
fn test_update_email_only_snapshot_drops_encrypted_card() {
    // Phone stripped every encrypt-side field: the rebuilt update is a
    // single signed card and the encrypted one of the server
    // goes.
    let user = test_user_identity();
    let (cards, _) = server_cards_fixture(&user);
    let phone = ParsedContact {
        display_name: "Stripped".into(),
        emails: vec![ParsedEmail {
            email: "s@example.com".into(),
            types: Vec::new(),
        }],
        ..Default::default()
    };
    let out =
        build_contact_update_cards(&cards, &phone, "c-1", std::slice::from_ref(&user))
            .unwrap()
            .expect("update seals");
    assert_eq!(out.len(), 1, "{out:?}");
    assert_eq!(out[0].Type, 2);
}

#[test]
fn test_grouped_email_updates_and_diagnoses() {
    // Grouped standard properties seal; others name themselves.
    let user = test_user_identity();
    let signed_grouped = "BEGIN:VCARD\r\nVERSION:4.0\r\nUID:c-1\r\nFN:Old Name\r\nitem1.EMAIL;TYPE=HOME:old@example.com\r\nEND:VCARD";
    let (enc_data, enc_sig) = seal_contact_card(
        "BEGIN:VCARD\r\nVERSION:4.0\r\nUID:c-1\r\nN:Old;Name;;;\r\nEND:VCARD",
        std::slice::from_ref(&user),
    )
    .unwrap();
    let cards = vec![
        ContactCard {
            Type: 2,
            Data: signed_grouped.to_string(),
            Signature: "sig".into(),
        },
        ContactCard {
            Type: 3,
            Data: enc_data,
            Signature: enc_sig,
        },
    ];
    let phone = ParsedContact {
        first_name: "New".into(),
        ..Default::default()
    };
    assert!(
        build_contact_update_cards(&cards, &phone, "c-1", std::slice::from_ref(&user))
            .unwrap()
            .is_some(),
        "grouped EMAIL seals"
    );
    assert_eq!(
        diagnose_update_block(&cards, std::slice::from_ref(&user)),
        "sealable"
    );
    // Exotic prop still defers, and names itself.
    let (enc2, sig2) = seal_contact_card(
        "BEGIN:VCARD\r\nVERSION:4.0\r\nUID:c\r\nX-CUSTOM:1\r\nEND:VCARD",
        std::slice::from_ref(&user),
    )
    .unwrap();
    let exotic = vec![ContactCard {
        Type: 3,
        Data: enc2,
        Signature: sig2,
    }];
    assert!(build_contact_update_cards(
        &exotic,
        &ParsedContact::default(),
        "c",
        std::slice::from_ref(&user)
    )
    .unwrap()
    .is_none());
    assert_eq!(
        diagnose_update_block(&exotic, std::slice::from_ref(&user)),
        "unknown-props:X-CUSTOM"
    );
}

#[test]
fn created_contacts_read_back_from_their_cards() {
    let user = test_user_identity();
    let phone = ParsedContact {
        first_name: "Ada".into(),
        last_name: "Lovelace".into(),
        emails: vec![ParsedEmail {
            email: "ada@example.com".into(),
            types: vec!["HOME".into()],
        }],
        phones: vec![ParsedPhone {
            number: "+1".into(),
            types: Vec::new(),
        }],
        photos: vec!["data:image/png;base64,AAAA".into()],
        ..Default::default()
    };
    let keys = std::slice::from_ref(&user);
    let cards = build_contact_create_cards(&phone, "c-9", keys)
        .unwrap()
        .unwrap();
    let (contacts, groups) = decrypt_server_cards(&cards, keys).unwrap();
    assert!(groups.is_empty());
    assert_eq!(contacts.len(), 2);
    assert_eq!(contacts[0].display_name, "Ada Lovelace");
    assert_eq!(contacts[0].emails, phone.emails);
    assert_eq!(contacts[1].first_name, "Ada");
    assert_eq!(contacts[1].phones, phone.phones);
    assert!(contacts[1].photos.is_empty(), "photos are not uploaded");
    assert_eq!(
        decrypt_with_key(&cards[1].Data, &user).unwrap(),
        decrypt_contact_card(&cards[1].Data, keys).unwrap()
    );
}
