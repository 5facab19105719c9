use proton_api::contacts::{contacts_failure, delete_answer, uid_of_draw};
use proton_api::json::{parse_json, Json};
use proton_api::{generate_contact_uid, ContactCard, CreateContactCards, CreateContactsRequest};

fn json(s: &str) -> Json {
    parse_json(s).unwrap()
}

fn items(j: &Json) -> &Vec<Json> {
    match j {
        Json::Array(a) => a,
        _ => panic!("not a list"),
    }
}

#[test]
fn test_generate_contact_uid_shape_and_uniqueness() {
    let a = generate_contact_uid(1, 2);
    let b = generate_contact_uid(1, 2);
    for uid in [&a, &b] {
        assert!(uid.starts_with("proton-web-"), "{uid}");
        assert_eq!(uid.len(), "proton-web-".len() + 36, "{uid}");
    }
    assert_ne!(a, b);
}

#[test]
fn uids_are_those_of_the_draw() {
    let drawn: Vec<u8> = (0..16).collect();
    assert_eq!(
        uid_of_draw(Some(drawn.clone()), 1, 2),
        "proton-web-00010203-0405-0607-0809-0a0b0c0d0e0f"
    );
    assert_eq!(uid_of_draw(Some(drawn.clone()), 3, 4), uid_of_draw(Some(drawn), 1, 2));
    // Without a draw, time and process count.
    assert_eq!(
        uid_of_draw(None, 0x1122_3344_5566_77ff, 0x0102_0304),
        "proton-web-037a6856-4836-2412-037a-685648362412"
    );
    assert_ne!(uid_of_draw(None, 1, 2), uid_of_draw(None, 2, 2));
}

#[test]
fn test_create_request_wire_shape() {
    // Each contact is an object with its cards, never a bare list.
    let req = CreateContactsRequest {
        Contacts: vec![CreateContactCards {
            Cards: vec![ContactCard {
                Type: 2,
                Data: "d".into(),
                Signature: "s".into(),
            }],
        }],
        Overwrite: 0,
        Labels: 0,
    };
    let v = req.to_json();
    let first = &items(v.get("Contacts").unwrap())[0];
    assert_eq!(
        items(first.get("Cards").unwrap())[0].get("Type"),
        Some(&json("2"))
    );
    assert_eq!(v.get("Overwrite"), Some(&json("0")));
}

#[test]
fn test_update_rejection_keeps_body() {
    // The body of a rejection says why; it is kept.
    let err = contacts_failure(
        "update",
        "400 Bad Request",
        r#"{"Code":2000,"Error":"Invalid contact data"}"#,
    );
    let msg = err.message();
    assert!(msg.contains("400"), "{msg}");
    assert!(msg.contains("Invalid contact data"), "{msg}");
}

#[test]
fn test_delete_checks_top_level_code_leniently() {
    // Fail-closed on an explicit error Code, success on Code 1000 or a
    // codeless body.
    for (body, ok) in [
        (r#"{"Code":1000}"#, true),
        (r#"{"Code":1001}"#, true),
        (r#"{}"#, true),
        (r#"{"Code":2000,"Error":"Invalid IDs"}"#, false),
    ] {
        let res = delete_answer(body);
        assert_eq!(res.is_ok(), ok, "{body}");
        if !ok {
            assert!(
                res.unwrap_err().message().contains("Invalid IDs"),
                "{body}"
            );
        }
    }
}
