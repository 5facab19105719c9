use proton_api::calendar::{bootstrap_of_json, parse_events_envelope};
use proton_api::calendar_write::{SyncBatchResponse, SyncEventBody};
use proton_api::json::{json_int, json_text, parse_json, to_compact, Json};
use proton_api::rows::{read_rows, read_tolerant_rows, Row};
use proton_api::wire::delete_request;
use proton_api::{
    Address, AddressesResponse, Calendar, Contact, ContactsListResponse, CreateContactResult,
    CreateContactsResponse, KeySaltsResponse, SyncEventOp, User,
};

fn of(s: &str) -> Json {
    parse_json(s).unwrap()
}

const CONTACT: &str = r#"{"ID":"c1","Name":"Ada","UID":"u","Size":3,"CreateTime":1,"ModifyTime":2,"ContactEmails":[],"LabelIDs":[],"Cards":[{"Type":2,"Data":"d","Signature":"s"}]}"#;

#[test]
fn contacts_are_read_with_their_cards() {
    let c = Contact::from_json(&of(CONTACT)).unwrap();
    assert_eq!((c.ID.as_str(), c.Name.as_str()), ("c1", "Ada"));
    let cards = c.Cards.unwrap();
    assert_eq!(cards.len(), 1);
    assert_eq!((cards[0].Type, cards[0].Data.as_str()), (2, "d"));
    assert!(Contact::from_json(&of("{}")).is_none());
    assert!(Contact::from_json(&of("7")).is_none());
    let page = format!(r#"{{"Contacts":[{CONTACT}],"Total":1}}"#);
    let page = ContactsListResponse::from_json(&of(&page)).unwrap();
    assert_eq!((page.Contacts.len(), page.Total), (1, 1));
}

#[test]
fn one_bad_row_fails_a_strict_list() {
    let rows = of(r#"[{"ID":"k","KeySalt":"s"},{"ID":7}]"#);
    assert!(read_rows::<proton_api::KeySalt>(Some(&rows)).is_none());
    assert!(read_tolerant_rows::<proton_api::KeySalt>(Some(&rows)).is_empty());
    let salts = of(r#"{"KeySalts":[{"ID":"k","KeySalt":null},{"ID":"l","KeySalt":"x"}]}"#);
    let salts = KeySaltsResponse::from_json(&salts).unwrap();
    assert!(salts.KeySalts[0].KeySalt.is_none());
    assert_eq!(salts.KeySalts[1].KeySalt.as_deref(), Some("x"));
}

#[test]
fn users_and_addresses_are_read() {
    let user = User::from_json(&of(
        r#"{"ID":"u","Name":"ada","Keys":[{"ID":"k","PrivateKey":"p","Primary":1}]}"#,
    ))
    .unwrap();
    assert_eq!(user.Keys[0].PrivateKey, "p");
    assert_eq!((user.Keys[0].Token.as_str(), user.Keys[0].Active), ("", 0));
    assert!(User::from_json(&of(
        r#"{"ID":"u","Name":"ada","Keys":[{"ID":"k","Token":null}]}"#
    ))
    .is_none());
    let address = r#"{"ID":"a","Email":"a@b","Keys":[]}"#;
    assert_eq!(Address::from_json(&of(address)).unwrap().Email, "a@b");
    let all = format!(r#"{{"Addresses":[{address}]}}"#);
    let all = AddressesResponse::from_json(&of(&all)).unwrap();
    assert_eq!(all.Addresses.len(), 1);
}

#[test]
fn calendars_and_their_keys_are_read() {
    let cal = r#"{"ID":"c","Name":"Work","Type":0}"#;
    let cal = Calendar::from_json(&of(cal)).unwrap();
    assert_eq!((cal.ID.as_str(), cal.Type), ("c", 0));
    let boot = of(r#"{"Keys":[{"ID":"k","PrivateKey":"p"}],"Members":"x"}"#);
    let boot = bootstrap_of_json(&boot).unwrap();
    assert_eq!(boot.Keys[0].PrivateKey, "p");
    assert!(boot.Members.is_empty());
    assert!(bootstrap_of_json(&of("{}")).is_none());
}

#[test]
fn rows_that_cannot_be_read_do_not_lose_others() {
    let v = of(r#"{"Events":[{"ID":"a"},5,{"ID":"b"}],"More":1}"#);
    let (rows, more) = parse_events_envelope(&v, 0);
    assert!(more);
    assert_eq!(rows.len(), 2);
    assert_eq!(rows[1].ID, "b");
    let (_, more) = parse_events_envelope(&of(r#"{"Total":201}"#), 2);
    assert!(more);
    let (_, more) = parse_events_envelope(&of(r#"{"Total":200}"#), 2);
    assert!(!more);
}

#[test]
fn answers_to_creations_are_read() {
    let v = format!(
        r#"{{"Responses":[{{"Index":0,"Response":{{"Code":1000,"Contact":{CONTACT}}}}},{{"Index":1,"Response":{{"Code":2001,"Error":"no"}}}}]}}"#
    );
    let r = CreateContactsResponse::from_json(&of(&v)).unwrap();
    assert_eq!(r.Responses.len(), 2);
    assert_eq!(r.Responses[0].Response.Contact.as_ref().unwrap().ID, "c1");
    assert_eq!(r.Responses[1].Response.Error.as_deref(), Some("no"));
}

#[test]
fn an_answer_in_an_array_holds_its_error() {
    let read = |v: &str| CreateContactResult::from_json(&of(v));
    assert!(read("[1000]").is_none());
    let r = read("[1000,null]").unwrap();
    assert_eq!((r.Code, r.Error, r.Contact.is_none()), (1000, None, true));
    assert_eq!(read(r#"[2001,"no",null]"#).unwrap().Error.as_deref(), Some("no"));
    assert!(read(r#"[2001,"no",null,1]"#).is_none());
    assert_eq!(read(r#"{"Code":1000}"#).unwrap().Code, 1000);
}

#[test]
fn deletions_are_sent_by_id_alone() {
    let op = SyncEventOp::delete("e1");
    assert_eq!(to_compact(&op.to_json()), r#"{"ID":"e1"}"#);
    let ids = ["a".to_string(), "b".to_string()];
    assert_eq!(to_compact(&delete_request(&ids)), r#"{"IDs":["a","b"]}"#);
}

#[test]
fn empty_contents_are_sent_as_lists() {
    let body = SyncEventBody {
        Permissions: 1,
        SharedKeyPacket: None,
        CalendarKeyPacket: None,
        SharedEventContent: vec![],
        CalendarEventContent: vec![],
        AttendeesEventContent: vec![],
        Attendees: Json::Array(vec![]),
        Notifications: Json::Null,
        Color: Json::Null,
    };
    let j = SyncEventOp::update("e", body).to_json();
    let ev = j.get("Event").unwrap();
    assert_eq!(ev.get("SharedEventContent"), Some(&Json::Array(vec![])));
    assert_eq!(ev.get("Notifications"), Some(&Json::Null));
    assert!(ev.get("SharedKeyPacket").is_none());
    assert!(j.get("Overwrite").is_none());
}

#[test]
fn the_first_failure_of_a_batch_is_named() {
    let ok = of(r#"{"Code":1001,"Responses":[{"Index":0,"Response":{"Code":1000,"Event":{"ID":"e"}}}]}"#);
    let ok = SyncBatchResponse::from_json(&ok).unwrap();
    assert!(ok.first_error().is_none());
    let ev = ok.first_event().unwrap().unwrap();
    assert_eq!(ev.get("ID"), Some(&json_text("e")));
    let bad = of(r#"{"Code":1001,"Responses":[{"Index":0,"Response":{"Code":2001,"Error":"no"}}]}"#);
    let bad = SyncBatchResponse::from_json(&bad).unwrap();
    assert!(bad.first_error().unwrap().contains("no"));
    assert!(bad.first_event().is_err());
    assert_eq!(json_int(-5), of("-5"));
}
