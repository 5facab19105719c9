//! What requests say, and what answers to them come to.
use vstd::prelude::*;

use crate::calendar_write;
use crate::calendar_write::{
    ContentModel, SyncBatchRequest, SyncBatchResponse, SyncEventBody, SyncEventOp, SyncOpResponse,
    SyncOpResult,
};
use crate::encoding;
use crate::json;
use crate::json::JsonModel;
use crate::models::{ContactCard, CreateContactsRequest};
use crate::numbers;
use crate::rows::Row;
use crate::rows_back::{are_rows, holds_int, holds_rows, is_int, is_short, place};
use crate::srp::SrpProofs;
use crate::text;
use crate::wire;
use crate::wire::Members;

verus! {

// ---------------------------------------------------------------------
// Members
// ---------------------------------------------------------------------

/// The first member of a name counts.
pub proof fn law_first_member_counts(o: Members, k: int, name: Seq<char>)
    requires
        0 <= k < o.len(),
        o[k].0 == name,
        forall|i: int| 0 <= i < k ==> (#[trigger] o[i]).0 != name,
    ensures
        json::get(JsonModel::Object(o), name) == Some(o[k].1),
    decreases k,
{
    if k > 0 {
        let rest = o.skip(1);
        assert forall|i: int| 0 <= i < k - 1 implies (#[trigger] rest[i]).0 != name by {
            assert(rest[i] == o[i + 1]);
        }
        assert(o[0].0 != name);
        law_first_member_counts(rest, k - 1, name);
    }
}

/// A name that no member has.
pub proof fn law_absent_member(o: Members, name: Seq<char>)
    requires
        forall|i: int| 0 <= i < o.len() ==> (#[trigger] o[i]).0 != name,
    ensures
        json::get(JsonModel::Object(o), name) is None,
    decreases o.len(),
{
    if o.len() > 0 {
        let rest = o.skip(1);
        assert forall|i: int| 0 <= i < rest.len() implies (#[trigger] rest[i]).0 != name by {
            assert(rest[i] == o[i + 1]);
        }
        assert(o[0].0 != name);
        law_absent_member(rest, name);
    }
}

proof fn lemma_card_names()
    ensures
        "Type"@ != "Data"@,
        "Type"@ != "Signature"@,
        "Data"@ != "Signature"@,
{
    reveal_strlit("Type");
    reveal_strlit("Data");
    reveal_strlit("Signature");
    assert("Type"@[0] == 'T' && "Data"@[0] == 'D' && "Signature"@[0] == 'S');
}

// ---------------------------------------------------------------------
// Calendar batches
// ---------------------------------------------------------------------

/// Whether a value holds type, data and signature of a card.
pub open spec fn is_card(j: JsonModel, kind: int, data: Seq<char>, signature: Seq<char>) -> bool {
    &&& is_int(json::get(j, "Type"@), kind)
    &&& json::get(j, "Data"@) == Some(JsonModel::Text(data))
    &&& json::get(j, "Signature"@) == Some(JsonModel::Text(signature))
}

/// Every card of a list is sent in its place, with its type, its data and its
/// signature.
pub proof fn law_cards_are_sent(v: Seq<ContentModel>)
    ensures
        wire::contents_json(v) matches JsonModel::Array(a) && a.len() == v.len() && forall|i: int|
            0 <= i < v.len() ==> is_card(#[trigger] a[i], v[i].kind, v[i].data, v[i].signature),
{
    lemma_card_names();
    let a = wire::contents_json(v)->Array_0;
    assert forall|i: int| 0 <= i < v.len() implies is_card(
        #[trigger] a[i],
        v[i].kind,
        v[i].data,
        v[i].signature,
    ) by {
        let o = a[i]->Object_0;
        law_first_member_counts(o, 0, "Type"@);
        law_first_member_counts(o, 1, "Data"@);
        law_first_member_counts(o, 2, "Signature"@);
    }
}

/// The members of an event that come behind its cards.
spec fn is_behind(n: Seq<char>) -> bool {
    n == "Attendees"@ || n == "Notifications"@ || n == "Color"@
}

proof fn lemma_body_names()
    ensures
        !is_behind("Permissions"@),
        !is_behind("SharedKeyPacket"@),
        !is_behind("CalendarKeyPacket"@),
        !is_behind("SharedEventContent"@),
        !is_behind("CalendarEventContent"@),
        !is_behind("AttendeesEventContent"@),
        "Attendees"@ != "Notifications"@,
        "Attendees"@ != "Color"@,
        "Notifications"@ != "Color"@,
{
    reveal_strlit("Permissions");
    reveal_strlit("SharedKeyPacket");
    reveal_strlit("CalendarKeyPacket");
    reveal_strlit("SharedEventContent");
    reveal_strlit("CalendarEventContent");
    reveal_strlit("AttendeesEventContent");
    reveal_strlit("Attendees");
    reveal_strlit("Notifications");
    reveal_strlit("Color");
    assert("SharedKeyPacket"@.len() == 15 && "CalendarKeyPacket"@.len() == 17);
    assert("Permissions"@.len() == 11 && "SharedEventContent"@.len() == 18);
    assert("CalendarEventContent"@.len() == 20 && "AttendeesEventContent"@.len() == 21);
    assert("Attendees"@.len() == 9 && "Notifications"@.len() == 13 && "Color"@.len() == 5);
}

/// An event is sent with its permissions, attendees, reminders and color,
/// whatever they are.
pub proof fn law_event_values_are_sent(b: SyncEventBody)
    ensures
        is_int(json::get(wire::body_json(b), "Permissions"@), b.Permissions as int),
        json::get(wire::body_json(b), "Attendees"@) == Some(b.Attendees@),
        json::get(wire::body_json(b), "Notifications"@) == Some(b.Notifications@),
        json::get(wire::body_json(b), "Color"@) == Some(b.Color@),
{
    lemma_body_names();
    let o = wire::body_json(b)->Object_0;
    let n = o.len() as int;
    assert(o[0].0 == "Permissions"@);
    assert(o[n - 3] == ("Attendees"@, b.Attendees@));
    assert(o[n - 2] == ("Notifications"@, b.Notifications@));
    assert(o[n - 1] == ("Color"@, b.Color@));
    assert forall|i: int| 0 <= i < n - 3 implies !is_behind((#[trigger] o[i]).0) by {
        assert(o[i].0 == "Permissions"@ || o[i].0 == "SharedKeyPacket"@ || o[i].0
            == "CalendarKeyPacket"@ || o[i].0 == "SharedEventContent"@ || o[i].0
            == "CalendarEventContent"@ || o[i].0 == "AttendeesEventContent"@);
    }
    law_first_member_counts(o, 0, "Permissions"@);
    law_first_member_counts(o, n - 3, "Attendees"@);
    law_first_member_counts(o, n - 2, "Notifications"@);
    law_first_member_counts(o, n - 1, "Color"@);
}

proof fn lemma_op_names()
    ensures
        "ID"@ != "Overwrite"@,
        "ID"@ != "Event"@,
        "Overwrite"@ != "Event"@,
        "MemberID"@ != "IsImport"@,
        "MemberID"@ != "Events"@,
        "IsImport"@ != "Events"@,
{
    reveal_strlit("ID");
    reveal_strlit("Overwrite");
    reveal_strlit("Event");
    reveal_strlit("MemberID");
    reveal_strlit("IsImport");
    reveal_strlit("Events");
    assert("ID"@.len() == 2 && "Overwrite"@.len() == 9 && "Event"@.len() == 5);
    assert("MemberID"@[0] == 'M' && "IsImport"@[0] == 'I' && "Events"@[0] == 'E');
}

/// An operation is sent with its identifier, its flag and its event, each
/// where it has one and not at all where it has none.
pub proof fn law_operation_is_sent(op: SyncEventOp)
    ensures
        ({
            let j = wire::op_json(op);
            &&& op.ID is Some ==> json::get(j, "ID"@) == Some(JsonModel::Text(op.ID->Some_0@))
            &&& op.ID is None ==> json::get(j, "ID"@) is None
            &&& op.Overwrite is Some ==> is_int(
                json::get(j, "Overwrite"@),
                op.Overwrite->Some_0 as int,
            )
            &&& op.Overwrite is None ==> json::get(j, "Overwrite"@) is None
            &&& op.Event is Some ==> json::get(j, "Event"@) == Some(
                wire::body_json(op.Event->Some_0),
            )
            &&& op.Event is None ==> json::get(j, "Event"@) is None
        }),
{
    lemma_op_names();
    let o = wire::op_json(op)->Object_0;
    let a: int = if op.ID is Some {
        1
    } else {
        0
    };
    let b: int = if op.Overwrite is Some {
        a + 1
    } else {
        a
    };
    assert(op.ID is Some ==> o[0].0 == "ID"@);
    assert(op.Overwrite is Some ==> o[a].0 == "Overwrite"@);
    assert(op.Event is Some ==> o[b].0 == "Event"@);
    if op.ID is Some {
        law_first_member_counts(o, 0, "ID"@);
    } else {
        law_absent_member(o, "ID"@);
    }
    if op.Overwrite is Some {
        law_first_member_counts(o, a, "Overwrite"@);
    } else {
        law_absent_member(o, "Overwrite"@);
    }
    if op.Event is Some {
        law_first_member_counts(o, b, "Event"@);
    } else {
        law_absent_member(o, "Event"@);
    }
}

/// A batch is sent with the member it is of and all its operations, in their
/// order.
pub proof fn law_batch_is_sent(b: SyncBatchRequest)
    ensures
        ({
            let j = wire::batch_json(b);
            &&& json::get(j, "MemberID"@) == Some(JsonModel::Text(b.MemberID@))
            &&& b.IsImport is Some ==> is_int(
                json::get(j, "IsImport"@),
                b.IsImport->Some_0 as int,
            )
            &&& b.IsImport is None ==> json::get(j, "IsImport"@) is None
            &&& json::get(j, "Events"@) matches Some(JsonModel::Array(a)) && a.len()
                == b.Events@.len() && forall|i: int|
                0 <= i < a.len() ==> #[trigger] a[i] == wire::op_json(b.Events@[i])
        }),
{
    lemma_op_names();
    let o = wire::batch_json(b)->Object_0;
    let n = o.len() - 1;
    assert(o[0].0 == "MemberID"@);
    assert(o[n].0 == "Events"@);
    assert(b.IsImport is Some ==> o[1].0 == "IsImport"@);
    law_first_member_counts(o, 0, "MemberID"@);
    law_first_member_counts(o, n, "Events"@);
    if b.IsImport is Some {
        law_first_member_counts(o, 1, "IsImport"@);
    } else {
        law_absent_member(o, "IsImport"@);
    }
}

// ---------------------------------------------------------------------
// Answers to a batch
// ---------------------------------------------------------------------

/// A batch went well where every operation did, or where none is listed and
/// the batch has a code for success. The first operation that went wrong is
/// the one that is reported, with its code and its words.
pub proof fn law_first_failure_counts(r: SyncBatchResponse, k: int)
    ensures
        (forall|i: int|
            0 <= i < r.Responses@.len() ==> (#[trigger] r.Responses@[i]).Response.Code == 1000)
            && r.Responses@.len() > 0 ==> calendar_write::sync_error(r) is None,
        r.Responses@.len() == 0 && (r.Code == 1000 || r.Code == 1001)
            ==> calendar_write::sync_error(r) is None,
        r.Responses@.len() == 0 && r.Code != 1000 && r.Code != 1001 ==> calendar_write::sync_error(
            r,
        ) == Some("sync failed: code "@ + numbers::signed_decimal(r.Code as int)),
        0 <= k < r.Responses@.len() && r.Responses@[k].Response.Code != 1000 && (forall|i: int|
            0 <= i < k ==> (#[trigger] r.Responses@[i]).Response.Code == 1000) ==> {
            let op = r.Responses@[k].Response;
            let head = "sync failed: code "@ + numbers::signed_decimal(op.Code as int);
            &&& op.Error@.len() == 0 ==> calendar_write::sync_error(r) == Some(head)
            &&& op.Error@.len() > 0 ==> calendar_write::sync_error(r) == Some(
                head + ": "@ + op.Error@,
            )
        },
{
    let ops = r.Responses@;
    if forall|i: int| 0 <= i < ops.len() ==> (#[trigger] ops[i]).Response.Code == 1000 {
        lemma_no_failure(ops);
    }
    if 0 <= k < ops.len() && ops[k].Response.Code != 1000 && (forall|i: int|
        0 <= i < k ==> (#[trigger] ops[i]).Response.Code == 1000) {
        lemma_failure(ops, k);
    }
}

proof fn lemma_no_failure(ops: Seq<SyncOpResponse>)
    requires
        forall|i: int| 0 <= i < ops.len() ==> (#[trigger] ops[i]).Response.Code == 1000,
    ensures
        calendar_write::first_op_error(ops) is None,
    decreases ops.len(),
{
    if ops.len() > 0 {
        let rest = ops.skip(1);
        assert forall|i: int| 0 <= i < rest.len() implies (#[trigger] rest[i]).Response.Code
            == 1000 by {
            assert(rest[i] == ops[i + 1]);
        }
        assert(ops[0].Response.Code == 1000);
        lemma_no_failure(rest);
    }
}

proof fn lemma_failure(ops: Seq<SyncOpResponse>, k: int)
    requires
        0 <= k < ops.len(),
        ops[k].Response.Code != 1000,
        forall|i: int| 0 <= i < k ==> (#[trigger] ops[i]).Response.Code == 1000,
    ensures
        calendar_write::first_op_error(ops) == calendar_write::op_error(ops[k].Response),
    decreases k,
{
    if k > 0 {
        let rest = ops.skip(1);
        assert forall|i: int| 0 <= i < k - 1 implies (#[trigger] rest[i]).Response.Code == 1000 by {
            assert(rest[i] == ops[i + 1]);
        }
        assert(ops[0].Response.Code == 1000);
        lemma_failure(rest, k - 1);
    }
}

/// The answer to an operation: code, words and row, each under its name.
pub proof fn law_operation_answer_is_read(j: JsonModel)
    ensures
        <SyncOpResult as Row>::of_json(j) is Some <==> {
            &&& is_short(j, 3)
            &&& place(j, "Code"@, 0) is None || holds_int(place(j, "Code"@, 0))
            &&& place(j, "Error"@, 1) is None || place(j, "Error"@, 1)->Some_0 is Text
        },
        <SyncOpResult as Row>::of_json(j) is Some ==> {
            let x = <SyncOpResult as Row>::of_json(j)->Some_0;
            let event = place(j, "Event"@, 2);
            &&& place(j, "Code"@, 0) is Some ==> is_int(place(j, "Code"@, 0), x.code)
            &&& place(j, "Code"@, 0) is None ==> x.code == 0
            &&& place(j, "Error"@, 1) matches Some(JsonModel::Text(s)) ==> x.error == s
            &&& place(j, "Error"@, 1) is None ==> x.error.len() == 0
            &&& event is None || event->Some_0 is Null ==> x.event is None
            &&& event is Some && !(event->Some_0 is Null) ==> x.event == event
        },
{
}

/// The answer to a batch: the code, and one answer for each operation, with
/// its index.
pub proof fn law_batch_answer_is_read(j: JsonModel)
    ensures
        <SyncBatchResponse as Row>::of_json(j) is Some <==> {
            &&& is_short(j, 2)
            &&& place(j, "Code"@, 0) is None || holds_int(place(j, "Code"@, 0))
            &&& place(j, "Responses"@, 1) is None || holds_rows::<SyncOpResponse>(
                place(j, "Responses"@, 1),
            )
        },
        <SyncBatchResponse as Row>::of_json(j) is Some ==> {
            let x = <SyncBatchResponse as Row>::of_json(j)->Some_0;
            &&& place(j, "Code"@, 0) is Some ==> is_int(place(j, "Code"@, 0), x.code)
            &&& place(j, "Responses"@, 1) is None ==> x.responses.len() == 0
            &&& place(j, "Responses"@, 1) is Some ==> are_rows::<SyncOpResponse>(
                place(j, "Responses"@, 1),
                x.responses,
            )
        },
        <SyncOpResponse as Row>::of_json(j) is Some ==> {
            let x = <SyncOpResponse as Row>::of_json(j)->Some_0;
            let response = place(j, "Response"@, 1);
            &&& place(j, "Index"@, 0) is Some ==> is_int(place(j, "Index"@, 0), x.index)
            &&& response is Some ==> <SyncOpResult as Row>::of_json(response->Some_0) == Some(
                x.response,
            )
        },
{
    if let Some(JsonModel::Array(a)) = place(j, "Responses"@, 1) {
        crate::rows_back::law_rows_are_read::<SyncOpResponse>(a);
    }
}

// ---------------------------------------------------------------------
// Contacts
// ---------------------------------------------------------------------

/// The cards of a contact are sent under one name, each in its place, with
/// its type, its data and its signature.
pub proof fn law_contact_cards_are_sent(v: Seq<ContactCard>)
    ensures
        json::get(wire::cards_json(v), "Cards"@) matches Some(JsonModel::Array(a)) && a.len()
            == v.len() && forall|i: int|
            0 <= i < v.len() ==> is_card(
                #[trigger] a[i],
                v[i].Type as int,
                v[i].Data@,
                v[i].Signature@,
            ),
{
    lemma_card_names();
    let o = wire::cards_json(v)->Object_0;
    law_first_member_counts(o, 0, "Cards"@);
    let a = o[0].1->Array_0;
    assert forall|i: int| 0 <= i < v.len() implies is_card(
        #[trigger] a[i],
        v[i].Type as int,
        v[i].Data@,
        v[i].Signature@,
    ) by {
        let c = a[i]->Object_0;
        law_first_member_counts(c, 0, "Type"@);
        law_first_member_counts(c, 1, "Data"@);
        law_first_member_counts(c, 2, "Signature"@);
    }
}

/// A creation is sent with the cards of every contact, in their order, and
/// its two flags.
pub proof fn law_creation_is_sent(q: CreateContactsRequest)
    ensures
        ({
            let j = wire::create_json(q);
            &&& json::get(j, "Contacts"@) matches Some(JsonModel::Array(a)) && a.len()
                == q.Contacts@.len() && forall|i: int|
                0 <= i < a.len() ==> #[trigger] a[i] == wire::cards_json(q.Contacts@[i].Cards@)
            &&& is_int(json::get(j, "Overwrite"@), q.Overwrite as int)
            &&& is_int(json::get(j, "Labels"@), q.Labels as int)
        }),
{
    reveal_strlit("Contacts");
    reveal_strlit("Overwrite");
    reveal_strlit("Labels");
    assert("Contacts"@.len() == 8 && "Overwrite"@.len() == 9 && "Labels"@.len() == 6);
    let o = wire::create_json(q)->Object_0;
    law_first_member_counts(o, 0, "Contacts"@);
    law_first_member_counts(o, 1, "Overwrite"@);
    law_first_member_counts(o, 2, "Labels"@);
}

/// A deletion of contacts is sent with all their identifiers, in their order.
pub proof fn law_identifiers_are_sent(ids: Seq<Seq<char>>)
    ensures
        json::get(wire::ids_json(ids), "IDs"@) matches Some(JsonModel::Array(a)) && a.len()
            == ids.len() && forall|i: int|
            0 <= i < a.len() ==> #[trigger] a[i] == JsonModel::Text(ids[i]),
{
    law_first_member_counts(wire::ids_json(ids)->Object_0, 0, "IDs"@);
}

// ---------------------------------------------------------------------
// Logging in
// ---------------------------------------------------------------------

/// A login is sent with the name, the two proofs in base64 and the session,
/// and with nothing else.
pub proof fn law_login_is_sent(username: Seq<char>, p: SrpProofs)
    ensures
        ({
            let j = wire::texts_json(wire::login_members(username, p));
            &&& json::get(j, "Username"@) == Some(JsonModel::Text(username))
            &&& json::get(j, "ClientEphemeral"@) == Some(
                JsonModel::Text(encoding::base64_text(p.client_ephemeral@)),
            )
            &&& json::get(j, "ClientProof"@) == Some(
                JsonModel::Text(encoding::base64_text(p.client_proof@)),
            )
            &&& json::get(j, "SRPSession"@) == Some(JsonModel::Text(p.srp_session@))
            &&& j->Object_0.len() == 4
        }),
{
    reveal_strlit("Username");
    reveal_strlit("ClientEphemeral");
    reveal_strlit("ClientProof");
    reveal_strlit("SRPSession");
    assert("Username"@.len() == 8 && "ClientEphemeral"@.len() == 15 && "ClientProof"@.len() == 11
        && "SRPSession"@.len() == 10);
    let o = wire::texts_json(wire::login_members(username, p))->Object_0;
    law_first_member_counts(o, 0, "Username"@);
    law_first_member_counts(o, 1, "ClientEphemeral"@);
    law_first_member_counts(o, 2, "ClientProof"@);
    law_first_member_counts(o, 3, "SRPSession"@);
}

/// Texts are sent under their names: the first of a name counts.
pub proof fn law_texts_are_sent(o: Seq<(Seq<char>, Seq<char>)>, k: int)
    requires
        0 <= k < o.len(),
        forall|i: int| 0 <= i < k ==> (#[trigger] o[i]).0 != o[k].0,
    ensures
        json::get(wire::texts_json(o), o[k].0) == Some(JsonModel::Text(o[k].1)),
        wire::texts_json(o)->Object_0.len() == o.len(),
{
    let m = wire::texts_json(o)->Object_0;
    assert forall|i: int| 0 <= i < k implies (#[trigger] m[i]).0 != o[k].0 by {
        assert(o[i].0 != o[k].0);
    }
    law_first_member_counts(m, k, o[k].0);
}

} // verus!
