//! Requests as JSON, and the answers to them.
use vstd::prelude::*;

use crate::calendar_write;
use crate::calendar_write::{
    ContentModel, SyncBatchRequest, SyncBatchResponse, SyncContentPart, SyncEventBody, SyncEventOp,
    SyncOpResponse, SyncOpResult,
};
use crate::encoding;
use crate::encoding::encode_base64;
use crate::json;
use crate::json::{copy_json, json_int, json_text, Json, JsonModel};
use crate::models;
use crate::models::{field, row, ContactCard, CreateContactsRequest, UpdateContactRequest};
use crate::ordered::TextMap;
use crate::rows;
use crate::rows::{read_int, read_rows, read_text, Row};
use crate::srp::SrpProofs;
use crate::text;
use crate::text::copy_text;

verus! {

broadcast use crate::text::lemma_texts_push;

/// The members of an object.
pub type Members = Seq<(Seq<char>, JsonModel)>;

/// The members with one more, when there is a value for it. A value that is
/// not there leaves no trace, not even a null.
pub open spec fn with_member(o: Members, name: Seq<char>, v: Option<JsonModel>) -> Members {
    match v {
        Some(v) => o.push((name, v)),
        None => o,
    }
}

pub open spec fn int_json(n: int) -> JsonModel {
    JsonModel::Number(json::number_of(n))
}

pub open spec fn optional_text_json(s: Option<String>) -> Option<JsonModel> {
    match s {
        Some(s) => Some(JsonModel::Text(s@)),
        None => None,
    }
}

pub open spec fn optional_int_json(n: Option<i32>) -> Option<JsonModel> {
    match n {
        Some(n) => Some(int_json(n as int)),
        None => None,
    }
}

fn put(o: &mut Vec<(String, Json)>, name: &str, v: Json)
    ensures
        json::member_models(final(o)@) == json::member_models(old(o)@).push((name@, v@)),
{
    o.push((copy_text(name), v));
    assert(json::member_models(o@) =~= json::member_models(old(o)@).push((name@, v@)));
}

fn put_text(o: &mut Vec<(String, Json)>, name: &str, v: &Option<String>)
    ensures
        json::member_models(final(o)@) == with_member(
            json::member_models(old(o)@),
            name@,
            optional_text_json(*v),
        ),
{
    match v {
        Some(s) => put(o, name, json_text(s.as_str())),
        None => {},
    }
}

fn put_int(o: &mut Vec<(String, Json)>, name: &str, v: Option<i32>)
    ensures
        json::member_models(final(o)@) == with_member(
            json::member_models(old(o)@),
            name@,
            optional_int_json(v),
        ),
{
    match v {
        Some(n) => put(o, name, json_int(n as i64)),
        None => {},
    }
}

fn object(o: Vec<(String, Json)>) -> (r: Json)
    ensures
        r@ == JsonModel::Object(json::member_models(o@)),
{
    proof {
        json::lemma_object_model(o);
    }
    Json::Object(o)
}

fn array(a: Vec<Json>) -> (r: Json)
    ensures
        r@ == JsonModel::Array(json::models(a@)),
{
    proof {
        json::lemma_array_model(a);
    }
    Json::Array(a)
}

// ---------------------------------------------------------------------
// Calendar batches
// ---------------------------------------------------------------------

/// A card of a payload: type, data and signature, nothing else.
pub open spec fn content_json(c: ContentModel) -> JsonModel {
    JsonModel::Object(
        seq![
            ("Type"@, int_json(c.kind)),
            ("Data"@, JsonModel::Text(c.data)),
            ("Signature"@, JsonModel::Text(c.signature)),
        ],
    )
}

pub open spec fn contents_json(v: Seq<ContentModel>) -> JsonModel {
    JsonModel::Array(Seq::new(v.len(), |i: int| content_json(v[i])))
}

fn content(c: &SyncContentPart) -> (r: Json)
    ensures
        r@ == content_json(c@),
{
    let mut o: Vec<(String, Json)> = Vec::new();
    put(&mut o, "Type", json_int(c.Type));
    put(&mut o, "Data", json_text(c.Data.as_str()));
    put(&mut o, "Signature", json_text(c.Signature.as_str()));
    assert(json::member_models(o@) =~= content_json(c@)->Object_0);
    object(o)
}

fn contents(v: &Vec<SyncContentPart>) -> (r: Json)
    ensures
        r@ == contents_json(calendar_write::contents_view(v@)),
{
    let ghost all = calendar_write::contents_view(v@);
    let mut a: Vec<Json> = Vec::new();
    let mut i: usize = 0;
    while i < v.len()
        invariant
            i <= v@.len(),
            a@.len() == i,
            all == calendar_write::contents_view(v@),
            forall|k: int| 0 <= k < i ==> (#[trigger] a@[k])@ == content_json(all[k]),
        decreases v@.len() - i,
    {
        let c: Json = content(&v[i]);
        a.push(c);
        i = i + 1;
    }
    assert(json::models(a@) =~= contents_json(all)->Array_0);
    array(a)
}

/// The event of a payload. Content lists are there even when they are empty;
/// key packets only when the body has them.
pub open spec fn body_json(b: SyncEventBody) -> JsonModel {
    let o = with_member(
        with_member(
            seq![("Permissions"@, int_json(b.Permissions as int))],
            "SharedKeyPacket"@,
            optional_text_json(b.SharedKeyPacket),
        ),
        "CalendarKeyPacket"@,
        optional_text_json(b.CalendarKeyPacket),
    );
    JsonModel::Object(
        o + seq![
            (
                "SharedEventContent"@,
                contents_json(calendar_write::contents_view(b.SharedEventContent@)),
            ),
            (
                "CalendarEventContent"@,
                contents_json(calendar_write::contents_view(b.CalendarEventContent@)),
            ),
            (
                "AttendeesEventContent"@,
                contents_json(calendar_write::contents_view(b.AttendeesEventContent@)),
            ),
            ("Attendees"@, b.Attendees@),
            ("Notifications"@, b.Notifications@),
            ("Color"@, b.Color@),
        ],
    )
}

impl SyncEventBody {
    /// The event as it is sent.
    pub fn to_json(&self) -> (r: Json)
        ensures
            r@ == body_json(*self),
    {
        let mut o: Vec<(String, Json)> = Vec::new();
        put(&mut o, "Permissions", json_int(self.Permissions));
        put_text(&mut o, "SharedKeyPacket", &self.SharedKeyPacket);
        put_text(&mut o, "CalendarKeyPacket", &self.CalendarKeyPacket);
        assert(json::member_models(o@) =~= with_member(
            with_member(
                seq![("Permissions"@, int_json(self.Permissions as int))],
                "SharedKeyPacket"@,
                optional_text_json(self.SharedKeyPacket),
            ),
            "CalendarKeyPacket"@,
            optional_text_json(self.CalendarKeyPacket),
        )) by {
            assert(Seq::<(Seq<char>, JsonModel)>::empty().push(
                ("Permissions"@, int_json(self.Permissions as int)),
            ) =~= seq![("Permissions"@, int_json(self.Permissions as int))]);
        }
        put(&mut o, "SharedEventContent", contents(&self.SharedEventContent));
        put(&mut o, "CalendarEventContent", contents(&self.CalendarEventContent));
        put(&mut o, "AttendeesEventContent", contents(&self.AttendeesEventContent));
        put(&mut o, "Attendees", copy_json(&self.Attendees));
        put(&mut o, "Notifications", copy_json(&self.Notifications));
        put(&mut o, "Color", copy_json(&self.Color));
        assert(json::member_models(o@) =~= body_json(*self)->Object_0);
        object(o)
    }
}

/// An operation of a batch: only the members that it has.
pub open spec fn op_json(op: SyncEventOp) -> JsonModel {
    JsonModel::Object(
        with_member(
            with_member(
                with_member(seq![], "ID"@, optional_text_json(op.ID)),
                "Overwrite"@,
                optional_int_json(op.Overwrite),
            ),
            "Event"@,
            match op.Event {
                Some(b) => Some(body_json(b)),
                None => None,
            },
        ),
    )
}

impl SyncEventOp {
    /// The operation as it is sent.
    pub fn to_json(&self) -> (r: Json)
        ensures
            r@ == op_json(*self),
    {
        let mut o: Vec<(String, Json)> = Vec::new();
        assert(json::member_models(o@) =~= seq![]);
        put_text(&mut o, "ID", &self.ID);
        put_int(&mut o, "Overwrite", self.Overwrite);
        match &self.Event {
            Some(b) => put(&mut o, "Event", b.to_json()),
            None => {},
        }
        object(o)
    }
}

/// A batch as it is sent.
pub open spec fn batch_json(b: SyncBatchRequest) -> JsonModel {
    JsonModel::Object(
        with_member(
            seq![("MemberID"@, JsonModel::Text(b.MemberID@))],
            "IsImport"@,
            optional_int_json(b.IsImport),
        ).push(
            (
                "Events"@,
                JsonModel::Array(Seq::new(b.Events@.len(), |i: int| op_json(b.Events@[i]))),
            ),
        ),
    )
}

impl SyncBatchRequest {
    /// The batch as it is sent.
    pub fn to_json(&self) -> (r: Json)
        ensures
            r@ == batch_json(*self),
    {
        let mut a: Vec<Json> = Vec::new();
        let mut i: usize = 0;
        while i < self.Events.len()
            invariant
                i <= self.Events@.len(),
                a@.len() == i,
                forall|k: int| 0 <= k < i ==> (#[trigger] a@[k])@ == op_json(self.Events@[k]),
            decreases self.Events@.len() - i,
        {
            let op: Json = self.Events[i].to_json();
            a.push(op);
            i = i + 1;
        }
        assert(json::models(a@) =~= Seq::new(
            self.Events@.len(),
            |i: int| op_json(self.Events@[i]),
        ));
        let mut o: Vec<(String, Json)> = Vec::new();
        put(&mut o, "MemberID", json_text(self.MemberID.as_str()));
        assert(json::member_models(o@) =~= seq![("MemberID"@, JsonModel::Text(self.MemberID@))]);
        put_int(&mut o, "IsImport", self.IsImport);
        put(&mut o, "Events", array(a));
        object(o)
    }
}

/// A deletion is sent as its identifier alone: no event and no flag go with
/// it.
pub proof fn law_deletion_is_id_alone(op: SyncEventOp)
    requires
        op.ID is Some,
        op.Overwrite is None,
        op.Event is None,
    ensures
        op_json(op) == JsonModel::Object(seq![("ID"@, JsonModel::Text(op.ID->Some_0@))]),
{
    assert(op_json(op)->Object_0 =~= seq![("ID"@, JsonModel::Text(op.ID->Some_0@))]);
}

proof fn lemma_member(o: Members, name: Seq<char>)
    ensures
        match json::member(o, name) {
            Some(v) => exists|i: int| 0 <= i < o.len() && #[trigger] o[i] == (name, v),
            None => forall|i: int| 0 <= i < o.len() ==> (#[trigger] o[i]).0 != name,
        },
    decreases o.len(),
{
    if o.len() > 0 && o[0].0 != name {
        lemma_member(o.skip(1), name);
        match json::member(o.skip(1), name) {
            Some(v) => {
                let i = choose|i: int|
                    0 <= i < o.skip(1).len() && #[trigger] o.skip(1)[i] == (name, v);
                assert(o[i + 1] == (name, v));
            },
            None => {
                assert forall|i: int| 0 <= i < o.len() implies (#[trigger] o[i]).0 != name by {
                    if i > 0 {
                        assert(o.skip(1)[i - 1] == o[i]);
                    }
                }
            },
        }
    } else if o.len() > 0 {
        assert(o[0] == (name, o[0].1));
    }
}

/// The content lists of a payload are never left out and never null, and the
/// key packets are there just when the body has them.
pub proof fn law_content_lists_are_sent(b: SyncEventBody)
    ensures
        json::get(body_json(b), "SharedEventContent"@) == Some(
            contents_json(calendar_write::contents_view(b.SharedEventContent@)),
        ),
        json::get(body_json(b), "CalendarEventContent"@) == Some(
            contents_json(calendar_write::contents_view(b.CalendarEventContent@)),
        ),
        json::get(body_json(b), "AttendeesEventContent"@) == Some(
            contents_json(calendar_write::contents_view(b.AttendeesEventContent@)),
        ),
        json::get(body_json(b), "SharedKeyPacket"@) == optional_text_json(b.SharedKeyPacket),
        json::get(body_json(b), "CalendarKeyPacket"@) == optional_text_json(b.CalendarKeyPacket),
{
    reveal_strlit("Permissions");
    reveal_strlit("SharedKeyPacket");
    reveal_strlit("CalendarKeyPacket");
    reveal_strlit("SharedEventContent");
    reveal_strlit("CalendarEventContent");
    reveal_strlit("AttendeesEventContent");
    reveal_strlit("Attendees");
    reveal_strlit("Notifications");
    reveal_strlit("Color");
    let o = body_json(b)->Object_0;
    let n = o.len() as int;
    assert(o[n - 6].0 == "SharedEventContent"@);
    assert(o[n - 5].0 == "CalendarEventContent"@);
    assert(o[n - 4].0 == "AttendeesEventContent"@);
    assert(o[0].0 == "Permissions"@);
    assert(b.CalendarKeyPacket is Some ==> o[n - 7].0 == "CalendarKeyPacket"@);
    assert(b.SharedKeyPacket is Some ==> o[1].0 == "SharedKeyPacket"@);
    assert(o[n - 3].0 == "Attendees"@);
    assert(o[n - 2].0 == "Notifications"@);
    assert(o[n - 1].0 == "Color"@);
    assert forall|i: int| 0 <= i < n implies {
        &&& (#[trigger] o[i]).0 == "SharedKeyPacket"@ ==> i == 1 && b.SharedKeyPacket is Some
        &&& o[i].0 == "CalendarKeyPacket"@ ==> i == n - 7 && b.CalendarKeyPacket is Some
    } by {
        assert("SharedKeyPacket"@.len() == 15 && "CalendarKeyPacket"@.len() == 17);
        assert("Permissions"@.len() == 11 && "SharedEventContent"@.len() == 18);
        assert("CalendarEventContent"@.len() == 20 && "AttendeesEventContent"@.len() == 21);
        assert("Attendees"@.len() == 9 && "Notifications"@.len() == 13 && "Color"@.len() == 5);
        assert(n <= 9 && n >= 7);
        assert(i == 0 || i == 1 || i == 2 || i >= n - 6);
        if i == 1 && n == 9 {
            assert(o[i].0 == "SharedKeyPacket"@);
        }
        if i == 2 && n == 9 {
            assert(o[i].0 == "CalendarKeyPacket"@);
        }
        assert(i >= n - 6 ==> i == n - 6 || i == n - 5 || i == n - 4 || i == n - 3 || i == n - 2
            || i == n - 1);
    }
    lemma_member(o, "SharedEventContent"@);
    lemma_member(o, "CalendarEventContent"@);
    lemma_member(o, "AttendeesEventContent"@);
    lemma_member(o, "SharedKeyPacket"@);
    lemma_member(o, "CalendarKeyPacket"@);
}

// ---------------------------------------------------------------------
// Answers to a batch
// ---------------------------------------------------------------------

/// What a [`SyncOpResult`] holds.
#[verifier::ext_equal]
pub struct ResultModel {
    pub code: int,
    pub error: Seq<char>,
    pub event: Option<JsonModel>,
}

/// What a [`SyncOpResponse`] holds.
#[verifier::ext_equal]
pub struct ResponseModel {
    pub index: int,
    pub response: ResultModel,
}

/// What a [`SyncBatchResponse`] holds.
#[verifier::ext_equal]
pub struct BatchModel {
    pub code: int,
    pub responses: Seq<ResponseModel>,
}

impl View for SyncOpResult {
    type V = ResultModel;

    open spec fn view(&self) -> ResultModel {
        ResultModel {
            code: self.Code as int,
            error: self.Error@,
            event: json::option_model(self.Event),
        }
    }
}

impl View for SyncOpResponse {
    type V = ResponseModel;

    open spec fn view(&self) -> ResponseModel {
        ResponseModel { index: self.Index as int, response: self.Response@ }
    }
}

impl View for SyncBatchResponse {
    type V = BatchModel;

    open spec fn view(&self) -> BatchModel {
        BatchModel { code: self.Code as int, responses: rows::views(self.Responses@) }
    }
}

/// The outcome of an operation that says nothing.
pub open spec fn empty_result() -> ResultModel {
    ResultModel { code: 0, error: seq![], event: None }
}

impl Row for SyncOpResult {
    open spec fn of_json(j: JsonModel) -> Option<ResultModel> {
        match (
            rows::int_or_zero(models::row_field(j, "Code"@, 0)),
            rows::text_or_empty(models::row_field(j, "Error"@, 1)),
        ) {
            (Some(code), Some(error)) if models::is_row(j, 3) => Some(
                ResultModel {
                    code,
                    error,
                    event: match models::row_field(j, "Event"@, 2) {
                        Some(JsonModel::Null) => None,
                        e => e,
                    },
                },
            ),
            _ => None,
        }
    }

    fn from_json(j: &Json) -> (r: Option<SyncOpResult>) {
        if !row(j, 3) {
            return None;
        }
        let event: Option<Json> = match field(j, "Event", 2) {
            None => None,
            Some(Json::Null) => None,
            Some(e) => Some(copy_json(e)),
        };
        match (read_int(field(j, "Code", 0)), read_text(field(j, "Error", 1))) {
            (Some(code), Some(error)) => Some(
                SyncOpResult { Code: code, Error: error, Event: event },
            ),
            _ => None,
        }
    }
}

impl Row for SyncOpResponse {
    open spec fn of_json(j: JsonModel) -> Option<ResponseModel> {
        let response = match models::row_field(j, "Response"@, 1) {
            None => Some(empty_result()),
            Some(v) => <SyncOpResult as Row>::of_json(v),
        };
        match (rows::int_or_zero(models::row_field(j, "Index"@, 0)), response) {
            (Some(index), Some(response)) if models::is_row(j, 2) => Some(
                ResponseModel { index, response },
            ),
            _ => None,
        }
    }

    fn from_json(j: &Json) -> (r: Option<SyncOpResponse>) {
        if !row(j, 2) {
            return None;
        }
        let response: Option<SyncOpResult> = match field(j, "Response", 1) {
            None => Some(SyncOpResult::default()),
            Some(v) => SyncOpResult::from_json(v),
        };
        match (read_int(field(j, "Index", 0)), response) {
            (Some(index), Some(response)) => Some(
                SyncOpResponse { Index: index, Response: response },
            ),
            _ => None,
        }
    }
}

impl Row for SyncBatchResponse {
    open spec fn of_json(j: JsonModel) -> Option<BatchModel> {
        let responses = rows::rows_or_empty::<SyncOpResponse>(
            models::row_field(j, "Responses"@, 1),
        );
        match (rows::int_or_zero(models::row_field(j, "Code"@, 0)), responses) {
            (Some(code), Some(responses)) if models::is_row(j, 2) => Some(
                BatchModel { code, responses },
            ),
            _ => None,
        }
    }

    fn from_json(j: &Json) -> (r: Option<SyncBatchResponse>) {
        if !row(j, 2) {
            return None;
        }
        let responses: Option<Vec<SyncOpResponse>> = read_rows(field(j, "Responses", 1));
        match (read_int(field(j, "Code", 0)), responses) {
            (Some(code), Some(responses)) => Some(
                SyncBatchResponse { Code: code, Responses: responses },
            ),
            _ => None,
        }
    }
}

// ---------------------------------------------------------------------
// Contacts
// ---------------------------------------------------------------------

pub open spec fn card_json(c: ContactCard) -> JsonModel {
    JsonModel::Object(
        seq![
            ("Type"@, int_json(c.Type as int)),
            ("Data"@, JsonModel::Text(c.Data@)),
            ("Signature"@, JsonModel::Text(c.Signature@)),
        ],
    )
}

/// The cards of a contact: an object that holds them, never a bare list.
pub open spec fn cards_json(v: Seq<ContactCard>) -> JsonModel {
    JsonModel::Object(
        seq![("Cards"@, JsonModel::Array(Seq::new(v.len(), |i: int| card_json(v[i]))))],
    )
}

fn cards(v: &Vec<ContactCard>) -> (r: Json)
    ensures
        r@ == cards_json(v@),
{
    let mut a: Vec<Json> = Vec::new();
    let mut i: usize = 0;
    while i < v.len()
        invariant
            i <= v@.len(),
            a@.len() == i,
            forall|k: int| 0 <= k < i ==> (#[trigger] a@[k])@ == card_json(v@[k]),
        decreases v@.len() - i,
    {
        let c: &ContactCard = &v[i];
        let mut o: Vec<(String, Json)> = Vec::new();
        put(&mut o, "Type", json_int(c.Type as i64));
        put(&mut o, "Data", json_text(c.Data.as_str()));
        put(&mut o, "Signature", json_text(c.Signature.as_str()));
        assert(json::member_models(o@) =~= card_json(v@[i as int])->Object_0);
        a.push(object(o));
        i = i + 1;
    }
    assert(json::models(a@) =~= Seq::new(v@.len(), |i: int| card_json(v@[i])));
    let mut o: Vec<(String, Json)> = Vec::new();
    put(&mut o, "Cards", array(a));
    assert(json::member_models(o@) =~= cards_json(v@)->Object_0);
    object(o)
}

/// A creation as it is sent.
pub open spec fn create_json(q: CreateContactsRequest) -> JsonModel {
    JsonModel::Object(
        seq![
            (
                "Contacts"@,
                JsonModel::Array(
                    Seq::new(q.Contacts@.len(), |i: int| cards_json(q.Contacts@[i].Cards@)),
                ),
            ),
            ("Overwrite"@, int_json(q.Overwrite as int)),
            ("Labels"@, int_json(q.Labels as int)),
        ],
    )
}

impl CreateContactsRequest {
    /// The creation as it is sent.
    pub fn to_json(&self) -> (r: Json)
        ensures
            r@ == create_json(*self),
    {
        let mut a: Vec<Json> = Vec::new();
        let mut i: usize = 0;
        while i < self.Contacts.len()
            invariant
                i <= self.Contacts@.len(),
                a@.len() == i,
                forall|k: int|
                    0 <= k < i ==> (#[trigger] a@[k])@ == cards_json(self.Contacts@[k].Cards@),
            decreases self.Contacts@.len() - i,
        {
            let c: Json = cards(&self.Contacts[i].Cards);
            a.push(c);
            i = i + 1;
        }
        assert(json::models(a@) =~= Seq::new(
            self.Contacts@.len(),
            |i: int| cards_json(self.Contacts@[i].Cards@),
        ));
        let mut o: Vec<(String, Json)> = Vec::new();
        put(&mut o, "Contacts", array(a));
        put(&mut o, "Overwrite", json_int(self.Overwrite as i64));
        put(&mut o, "Labels", json_int(self.Labels as i64));
        assert(json::member_models(o@) =~= create_json(*self)->Object_0);
        object(o)
    }
}

impl UpdateContactRequest {
    /// The update as it is sent.
    pub fn to_json(&self) -> (r: Json)
        ensures
            r@ == cards_json(self.Cards@),
    {
        cards(&self.Cards)
    }
}

/// The identifiers of contacts to delete, as they are sent.
pub open spec fn ids_json(ids: Seq<Seq<char>>) -> JsonModel {
    JsonModel::Object(
        seq![("IDs"@, JsonModel::Array(Seq::new(ids.len(), |i: int| JsonModel::Text(ids[i]))))],
    )
}

/// The deletion of contacts as it is sent.
pub fn delete_request(ids: &[String]) -> (r: Json)
    ensures
        r@ == ids_json(text::texts(ids@)),
{
    let ghost all = text::texts(ids@);
    let mut a: Vec<Json> = Vec::new();
    let mut i: usize = 0;
    while i < ids.len()
        invariant
            i <= ids@.len(),
            a@.len() == i,
            all == text::texts(ids@),
            forall|k: int| 0 <= k < i ==> (#[trigger] a@[k])@ == JsonModel::Text(all[k]),
        decreases ids@.len() - i,
    {
        a.push(json_text(ids[i].as_str()));
        i = i + 1;
    }
    assert(json::models(a@) =~= Seq::new(all.len(), |i: int| JsonModel::Text(all[i])));
    let mut o: Vec<(String, Json)> = Vec::new();
    put(&mut o, "IDs", array(a));
    assert(json::member_models(o@) =~= ids_json(all)->Object_0);
    object(o)
}

// ---------------------------------------------------------------------
// Logging in
// ---------------------------------------------------------------------

/// An object of texts, in this order.
pub open spec fn texts_json(o: Seq<(Seq<char>, Seq<char>)>) -> JsonModel {
    JsonModel::Object(Seq::new(o.len(), |i: int| (o[i].0, JsonModel::Text(o[i].1))))
}

/// The question for what a login starts from.
pub fn auth_info_request(username: &str) -> (r: Json)
    ensures
        r@ == texts_json(seq![("Username"@, username@)]),
{
    let mut o: Vec<(String, Json)> = Vec::new();
    put(&mut o, "Username", json_text(username));
    assert(json::member_models(o@) =~= texts_json(seq![("Username"@, username@)])->Object_0);
    object(o)
}

/// The members of a login: the two proofs in base64.
pub open spec fn login_members(username: Seq<char>, p: SrpProofs) -> Seq<(Seq<char>, Seq<char>)> {
    seq![
        ("Username"@, username),
        ("ClientEphemeral"@, encoding::base64_text(p.client_ephemeral@)),
        ("ClientProof"@, encoding::base64_text(p.client_proof@)),
        ("SRPSession"@, p.srp_session@),
    ]
}

/// A login as it is sent; it holds proofs of the password, not the password.
pub fn auth_request(username: &str, proofs: &SrpProofs) -> (r: Json)
    ensures
        r@ == texts_json(login_members(username@, *proofs)),
{
    let mut o: Vec<(String, Json)> = Vec::new();
    put(&mut o, "Username", json_text(username));
    let ephemeral: String = encode_base64(&proofs.client_ephemeral);
    put(&mut o, "ClientEphemeral", json_text(ephemeral.as_str()));
    let proof_text: String = encode_base64(&proofs.client_proof);
    put(&mut o, "ClientProof", json_text(proof_text.as_str()));
    put(&mut o, "SRPSession", json_text(proofs.srp_session.as_str()));
    assert(json::member_models(o@) =~= texts_json(login_members(username@, *proofs))->Object_0);
    object(o)
}

/// A code of the second factor as it is sent.
pub fn two_fa_request(totp_code: &str) -> (r: Json)
    ensures
        r@ == texts_json(seq![("TwoFactorCode"@, totp_code@)]),
{
    let mut o: Vec<(String, Json)> = Vec::new();
    put(&mut o, "TwoFactorCode", json_text(totp_code));
    assert(json::member_models(o@) =~= texts_json(
        seq![("TwoFactorCode"@, totp_code@)],
    )->Object_0);
    object(o)
}

/// The request for new tokens as it is sent.
pub fn refresh_request(refresh_token: &str) -> (r: Json)
    ensures
        r@ == texts_json(
            seq![("GrantType"@, "refresh_token"@), ("RefreshToken"@, refresh_token@)],
        ),
{
    let mut o: Vec<(String, Json)> = Vec::new();
    put(&mut o, "GrantType", json_text("refresh_token"));
    put(&mut o, "RefreshToken", json_text(refresh_token));
    assert(json::member_models(o@) =~= texts_json(
        seq![("GrantType"@, "refresh_token"@), ("RefreshToken"@, refresh_token@)],
    )->Object_0);
    object(o)
}

/// Stored passwords as an object, by key.
pub fn passwords_json(map: &TextMap) -> (r: Json)
    ensures
        r@ == texts_json(map@),
{
    let mut o: Vec<(String, Json)> = Vec::new();
    let mut i: usize = 0;
    while i < map.len()
        invariant
            i <= map@.len(),
            json::member_models(o@) =~= texts_json(map@)->Object_0.take(i as int),
        decreases map@.len() - i,
    {
        let (k, v): (&String, &String) = map.entry(i);
        put(&mut o, k.as_str(), json_text(v.as_str()));
        i = i + 1;
    }
    assert(json::member_models(o@) =~= texts_json(map@)->Object_0);
    object(o)
}

} // verus!
