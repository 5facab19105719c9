//! Rows of the API. Field names are those of the wire.
use vstd::prelude::*;

use crate::json;
use crate::json::{copy_jsons, to_compact, Json, JsonModel};
use crate::numbers;
use crate::text;
use crate::text::{copy_text, text_eq, to_lower};

verus! {

broadcast use crate::text::lemma_texts_push;

// ---------------------------------------------------------------------
// Accounts and contacts
// ---------------------------------------------------------------------

#[derive(Debug, Clone)]
#[allow(non_snake_case)]
pub struct AuthRequest {
    pub Username: String,
    pub Password: String,
    pub Remember: Option<bool>,
}

#[derive(Debug, Clone)]
#[allow(non_snake_case)]
pub struct AuthResponse {
    pub AccessToken: String,
    pub RefreshToken: String,
    pub UID: String,
    pub ExpiresIn: i64,
}

#[derive(Debug, Clone)]
pub struct AuthTokens {
    pub access_token: String,
    pub refresh_token: String,
    pub uid: String,
}

#[derive(Debug, Clone, Default)]
#[allow(non_snake_case)]
pub struct Contact {
    pub ID: String,
    pub Name: String,
    pub UID: String,
    pub Size: i64,
    pub CreateTime: i64,
    pub ModifyTime: i64,
    pub ContactEmails: Vec<ContactEmail>,
    pub LabelIDs: Vec<String>,
    pub Cards: Option<Vec<ContactCard>>,
}

#[derive(Debug, Clone)]
#[allow(non_snake_case)]
pub struct ContactEmail {
    pub ID: String,
    pub Name: String,
    pub Email: String,
    pub Type: Vec<String>,
    pub ContactID: String,
    pub LabelIDs: Vec<String>,
}

/// One card of a contact: clear, encrypted, signed or both by its type.
#[derive(Debug, Clone)]
#[allow(non_snake_case)]
pub struct ContactCard {
    pub Type: i32,
    pub Data: String,
    pub Signature: String,
}

#[derive(Debug, Clone)]
#[allow(non_snake_case)]
pub struct ContactSettings {
    /// `pgp-inline` or `pgp-mime`.
    pub Scheme: Option<String>,
    /// `text/plain` or `multipart/encrypted`.
    pub MIMEType: Option<String>,
}

#[derive(Debug, Clone)]
#[allow(non_snake_case)]
pub struct ContactsListResponse {
    pub Contacts: Vec<Contact>,
    pub Total: i32,
}

/// Creation of contacts: one entry per contact, each an object with its
/// cards.
#[derive(Debug, Clone)]
#[allow(non_snake_case)]
pub struct CreateContactsRequest {
    pub Contacts: Vec<CreateContactCards>,
    pub Overwrite: i32,
    pub Labels: i32,
}

/// The sealed cards of one new contact.
#[derive(Debug, Clone)]
#[allow(non_snake_case)]
pub struct CreateContactCards {
    pub Cards: Vec<ContactCard>,
}

#[derive(Debug, Clone)]
#[allow(non_snake_case)]
pub struct CreateContactsResponse {
    pub Responses: Vec<CreateContactResponse>,
}

#[derive(Debug, Clone)]
#[allow(non_snake_case)]
pub struct CreateContactResponse {
    pub Index: i32,
    pub Response: CreateContactResult,
}

/// Outcome for one new contact; the contact itself is there on success.
#[derive(Debug, Clone)]
#[allow(non_snake_case)]
pub struct CreateContactResult {
    pub Code: i32,
    pub Error: Option<String>,
    pub Contact: Option<Contact>,
}

#[derive(Debug, Clone)]
#[allow(non_snake_case)]
pub struct UpdateContactRequest {
    pub Cards: Vec<ContactCard>,
}

#[derive(Debug, Clone)]
#[allow(non_snake_case)]
pub struct UserKey {
    pub ID: String,
    pub Version: i64,
    pub PrivateKey: String,
    pub Token: String,
    pub Signature: String,
    pub Primary: i64,
    pub Active: i64,
}

#[derive(Debug, Clone)]
#[allow(non_snake_case)]
pub struct UserResponse {
    pub User: User,
}

#[derive(Debug, Clone)]
#[allow(non_snake_case)]
pub struct User {
    pub ID: String,
    pub Name: String,
    pub Keys: Vec<UserKey>,
}

#[derive(Debug, Clone)]
#[allow(non_snake_case)]
pub struct AddressKey {
    pub ID: String,
    pub Version: i64,
    pub PrivateKey: String,
    pub Token: String,
    pub Signature: String,
    pub Primary: i64,
    pub Active: i64,
}

#[derive(Debug, Clone)]
#[allow(non_snake_case)]
pub struct Address {
    pub ID: String,
    pub Email: String,
    pub Keys: Vec<AddressKey>,
}

#[derive(Debug, Clone)]
#[allow(non_snake_case)]
pub struct AddressesResponse {
    pub Addresses: Vec<Address>,
}

#[derive(Debug, Clone)]
#[allow(non_snake_case)]
pub struct KeySalt {
    pub ID: String,
    pub KeySalt: Option<String>,
}

#[derive(Debug, Clone)]
#[allow(non_snake_case)]
pub struct KeySaltsResponse {
    pub KeySalts: Vec<KeySalt>,
}

// ---------------------------------------------------------------------
// Calendars
// ---------------------------------------------------------------------

#[derive(Debug, Clone)]
#[allow(non_snake_case)]
pub struct Calendar {
    pub ID: String,
    pub Name: String,
    pub Description: String,
    pub Color: String,
    pub Display: Option<bool>,
    pub Type: i64,
    pub Flags: i64,
}

#[derive(Debug, Clone, Default)]
#[allow(non_snake_case)]
pub struct CalendarKey {
    pub ID: String,
    pub CalendarID: String,
    pub PassphraseID: String,
    pub PrivateKey: String,
    pub Flags: i64,
}

#[derive(Debug, Clone, Default)]
#[allow(non_snake_case)]
pub struct CalendarPassphrase {
    pub ID: String,
    pub Flags: i64,
    pub MemberPassphrases: Vec<MemberPassphrase>,
}

#[derive(Debug, Clone, Default)]
#[allow(non_snake_case)]
pub struct MemberPassphrase {
    pub MemberID: String,
    pub Passphrase: String,
    pub Signature: String,
}

#[derive(Debug, Clone, Default)]
#[allow(non_snake_case)]
pub struct CalendarMember {
    pub ID: String,
    pub CalendarID: String,
    pub AddressID: String,
    pub Email: String,
    pub Name: String,
    pub Description: String,
    pub Color: String,
    pub Permissions: i64,
    pub Flags: i64,
}

#[derive(Debug, Clone, Default)]
#[allow(non_snake_case)]
pub struct CalendarBootstrap {
    pub Members: Vec<CalendarMember>,
    pub Keys: Vec<CalendarKey>,
    pub Passphrase: Option<CalendarPassphrase>,
    pub Settings: Option<CalendarSettings>,
}

/// Defaults of a calendar: the reminders of timed and of all-day events, as
/// `{Type, Trigger}` entries like those of an event. An event without
/// reminders of its own inherits them; one with an empty list has none.
#[derive(Debug, Clone)]
#[allow(non_snake_case)]
pub struct CalendarSettings {
    pub DefaultEventDuration: Option<i64>,
    pub DefaultPartDayNotifications: Option<Vec<Json>>,
    pub DefaultFullDayNotifications: Option<Vec<Json>>,
    pub MakesUserBusy: Option<bool>,
}

pub open spec fn no_entries(v: Option<Vec<Json>>) -> bool {
    match v {
        Some(list) => list@.len() == 0,
        None => true,
    }
}

fn lacks_entries(v: &Option<Vec<Json>>) -> (r: bool)
    ensures
        r == no_entries(*v),
{
    match v {
        Some(list) => list.len() == 0,
        None => true,
    }
}

impl CalendarSettings {
    /// Whether no default reminders are there. An empty object counts as
    /// absent.
    pub fn is_empty(&self) -> (r: bool)
        ensures
            r == (no_entries(self.DefaultPartDayNotifications) && no_entries(
                self.DefaultFullDayNotifications,
            )),
    {
        lacks_entries(&self.DefaultPartDayNotifications) && lacks_entries(
            &self.DefaultFullDayNotifications,
        )
    }
}

/// What a [`CalendarSettings`] holds.
#[verifier::ext_equal]
pub struct SettingsModel {
    pub duration: Option<int>,
    pub part_day: Option<Seq<JsonModel>>,
    pub full_day: Option<Seq<JsonModel>>,
    pub makes_busy: Option<bool>,
}

impl View for CalendarSettings {
    type V = SettingsModel;

    open spec fn view(&self) -> SettingsModel {
        SettingsModel {
            duration: match self.DefaultEventDuration {
                Some(n) => Some(n as int),
                None => None,
            },
            part_day: option_models(self.DefaultPartDayNotifications),
            full_day: option_models(self.DefaultFullDayNotifications),
            makes_busy: self.MakesUserBusy,
        }
    }
}

/// An optional value that must be a list when it is there.
pub open spec fn strict_list(v: Option<JsonModel>) -> bool {
    match v {
        None => true,
        Some(JsonModel::Null) => true,
        Some(JsonModel::Array(_)) => true,
        _ => false,
    }
}

/// An optional value that must be a 64-bit integer when it is there.
pub open spec fn strict_int(v: Option<JsonModel>) -> bool {
    match v {
        None => true,
        Some(JsonModel::Null) => true,
        Some(JsonModel::Number(n)) => n.int is Some,
        _ => false,
    }
}

/// The settings that nothing has been read into.
pub open spec fn no_settings() -> SettingsModel {
    SettingsModel { duration: None, part_day: None, full_day: None, makes_busy: None }
}

/// The settings that a value is read as. A field of the wrong kind makes the
/// whole value unreadable, and it counts as empty; only the busy flag is
/// tolerant.
pub open spec fn settings_of_json(j: JsonModel) -> SettingsModel {
    let duration = row_field(j, "DefaultEventDuration"@, 0);
    let part_day = row_field(j, "DefaultPartDayNotifications"@, 1);
    let full_day = row_field(j, "DefaultFullDayNotifications"@, 2);
    if is_row(j, 4) && strict_int(duration) && strict_list(part_day) && strict_list(full_day) {
        SettingsModel {
            duration: match duration {
                Some(JsonModel::Number(n)) => n.int,
                _ => None,
            },
            part_day: list_field(part_day),
            full_day: list_field(full_day),
            makes_busy: bool_field(row_field(j, "MakesUserBusy"@, 3)),
        }
    } else {
        no_settings()
    }
}

fn is_strict_list(v: Option<&Json>) -> (r: bool)
    ensures
        r == strict_list(json::ref_model(v)),
{
    match v {
        None => true,
        Some(Json::Null) => true,
        Some(Json::Array(_)) => true,
        _ => false,
    }
}

fn is_strict_int(v: Option<&Json>) -> (r: bool)
    ensures
        r == strict_int(json::ref_model(v)),
{
    match v {
        None => true,
        Some(Json::Null) => true,
        Some(Json::Number(n)) => n.int.is_some(),
        _ => false,
    }
}

impl Default for CalendarSettings {
    fn default() -> (r: CalendarSettings)
        ensures
            r@ == no_settings(),
    {
        CalendarSettings {
            DefaultEventDuration: None,
            DefaultPartDayNotifications: None,
            DefaultFullDayNotifications: None,
            MakesUserBusy: None,
        }
    }
}

impl CalendarSettings {
    /// Reads the settings of a calendar; empty when the value cannot be read
    /// as settings.
    pub fn from_json(j: &Json) -> (r: CalendarSettings)
        ensures
            r@ == settings_of_json(j@),
    {
        let duration: Option<&Json> = field(j, "DefaultEventDuration", 0);
        let part_day: Option<&Json> = field(j, "DefaultPartDayNotifications", 1);
        let full_day: Option<&Json> = field(j, "DefaultFullDayNotifications", 2);
        if !row(j, 4) || !is_strict_int(duration) || !is_strict_list(part_day) || !is_strict_list(
            full_day,
        ) {
            return CalendarSettings::default();
        }
        let d: Option<i64> = match duration {
            Some(Json::Number(n)) => n.int,
            _ => None,
        };
        CalendarSettings {
            DefaultEventDuration: d,
            DefaultPartDayNotifications: deserialize_opt_value_vec(part_day),
            DefaultFullDayNotifications: deserialize_opt_value_vec(full_day),
            MakesUserBusy: deserialize_opt_bool(field(j, "MakesUserBusy", 3)),
        }
    }
}

#[derive(Debug, Clone, Default)]
#[allow(non_snake_case)]
pub struct CalendarEventsListResponse {
    pub Events: Vec<CalendarEvent>,
    pub More: i64,
    pub Total: Option<i64>,
}

#[derive(Debug, Clone, Default)]
#[allow(non_snake_case)]
pub struct CalendarEvent {
    pub ID: String,
    pub UID: String,
    pub CalendarID: String,
    pub SharedEventID: String,
    pub CreateTime: i64,
    pub LastEditTime: i64,
    pub StartTime: i64,
    pub EndTime: i64,
    pub StartTimezone: String,
    pub EndTimezone: String,
    pub FullDay: Option<bool>,
    pub Author: String,
    pub SharedKeyPacket: String,
    pub CalendarKeyPacket: String,
    pub SharedEvents: Vec<CalendarEventPart>,
    pub CalendarEvents: Vec<CalendarEventPart>,
    pub AttendeesEvents: Vec<CalendarEventPart>,
    pub PersonalEvents: Vec<CalendarEventPart>,
    pub RRule: Option<String>,
    pub Exdates: Vec<i64>,
    pub RecurrenceID: Option<i64>,
    pub Color: Option<String>,
    pub Notifications: Option<Vec<Json>>,
    pub IsOrganizer: Option<i64>,
    pub Permissions: Option<i64>,
    /// Clear attendee rows. They are sent again with every update, or the
    /// answers of the attendees would be lost.
    pub Attendees: Vec<AttendeeToken>,
}

/// One clear attendee row: an opaque token and the answer (0 none yet,
/// 1 tentative, 2 declined, 3 accepted).
#[derive(Debug, Clone, Default, PartialEq, Eq)]
#[allow(non_snake_case)]
pub struct AttendeeToken {
    pub Token: String,
    pub Status: i64,
}

/// One card of an event. Type 1 is encrypted, 2 signed, 3 both.
#[derive(Debug, Clone, Default)]
#[allow(non_snake_case)]
pub struct CalendarEventPart {
    pub MemberID: String,
    pub Type: i64,
    pub Data: String,
    pub Signature: String,
    pub Author: String,
}

/// What a [`CalendarEventPart`] holds.
#[verifier::ext_equal]
pub struct PartModel {
    pub member_id: Seq<char>,
    pub kind: int,
    pub data: Seq<char>,
    pub signature: Seq<char>,
    pub author: Seq<char>,
}

impl View for CalendarEventPart {
    type V = PartModel;

    open spec fn view(&self) -> PartModel {
        PartModel {
            member_id: self.MemberID@,
            kind: self.Type as int,
            data: self.Data@,
            signature: self.Signature@,
            author: self.Author@,
        }
    }
}

pub open spec fn parts_view(v: Seq<CalendarEventPart>) -> Seq<PartModel> {
    Seq::new(v.len(), |i: int| v[i]@)
}

/// What an [`AttendeeToken`] holds.
#[verifier::ext_equal]
pub struct TokenModel {
    pub token: Seq<char>,
    pub status: int,
}

impl View for AttendeeToken {
    type V = TokenModel;

    open spec fn view(&self) -> TokenModel {
        TokenModel { token: self.Token@, status: self.Status as int }
    }
}

pub open spec fn tokens_view(v: Seq<AttendeeToken>) -> Seq<TokenModel> {
    Seq::new(v.len(), |i: int| v[i]@)
}

/// What a [`CalendarEvent`] holds.
#[verifier::ext_equal]
pub struct EventModel {
    pub id: Seq<char>,
    pub uid: Seq<char>,
    pub calendar_id: Seq<char>,
    pub shared_event_id: Seq<char>,
    pub create_time: int,
    pub last_edit_time: int,
    pub start_time: int,
    pub end_time: int,
    pub start_timezone: Seq<char>,
    pub end_timezone: Seq<char>,
    pub full_day: Option<bool>,
    pub author: Seq<char>,
    pub shared_key_packet: Seq<char>,
    pub calendar_key_packet: Seq<char>,
    pub shared_events: Seq<PartModel>,
    pub calendar_events: Seq<PartModel>,
    pub attendees_events: Seq<PartModel>,
    pub personal_events: Seq<PartModel>,
    pub rrule: Option<Seq<char>>,
    pub exdates: Seq<i64>,
    pub recurrence_id: Option<i64>,
    pub color: Option<Seq<char>>,
    pub notifications: Option<Seq<JsonModel>>,
    pub is_organizer: Option<i64>,
    pub permissions: Option<i64>,
    pub attendees: Seq<TokenModel>,
}

pub open spec fn option_models(v: Option<Vec<Json>>) -> Option<Seq<JsonModel>> {
    match v {
        Some(list) => Some(json::models(list@)),
        None => None,
    }
}

impl View for CalendarEvent {
    type V = EventModel;

    open spec fn view(&self) -> EventModel {
        EventModel {
            id: self.ID@,
            uid: self.UID@,
            calendar_id: self.CalendarID@,
            shared_event_id: self.SharedEventID@,
            create_time: self.CreateTime as int,
            last_edit_time: self.LastEditTime as int,
            start_time: self.StartTime as int,
            end_time: self.EndTime as int,
            start_timezone: self.StartTimezone@,
            end_timezone: self.EndTimezone@,
            full_day: self.FullDay,
            author: self.Author@,
            shared_key_packet: self.SharedKeyPacket@,
            calendar_key_packet: self.CalendarKeyPacket@,
            shared_events: parts_view(self.SharedEvents@),
            calendar_events: parts_view(self.CalendarEvents@),
            attendees_events: parts_view(self.AttendeesEvents@),
            personal_events: parts_view(self.PersonalEvents@),
            rrule: text::option_text(self.RRule),
            exdates: self.Exdates@,
            recurrence_id: self.RecurrenceID,
            color: text::option_text(self.Color),
            notifications: option_models(self.Notifications),
            is_organizer: self.IsOrganizer,
            permissions: self.Permissions,
            attendees: tokens_view(self.Attendees@),
        }
    }
}

pub open spec fn events_view(v: Seq<CalendarEvent>) -> Seq<EventModel> {
    Seq::new(v.len(), |i: int| v[i]@)
}

// ---------------------------------------------------------------------
// Tolerant fields
// ---------------------------------------------------------------------

/// The 64-bit integer that a number is, 0 when it is none.
pub open spec fn int_or_zero(n: json::NumberModel) -> int {
    match n.int {
        Some(v) => v,
        None => 0,
    }
}

/// A truth value: a boolean, a number that is not 0, or one of the words
/// `1`, `true` and `yes`. None when absent, null or of another kind.
pub open spec fn bool_field(v: Option<JsonModel>) -> Option<bool> {
    match v {
        Some(JsonModel::Bool(b)) => Some(b),
        Some(JsonModel::Number(n)) => Some(int_or_zero(n) != 0),
        Some(JsonModel::Text(s)) => Some(
            text::lowercase(s) == "1"@ || text::lowercase(s) == "true"@ || text::lowercase(s)
                == "yes"@,
        ),
        _ => None,
    }
}

/// A string; any other value but null as its JSON text.
pub open spec fn text_field(v: Option<JsonModel>) -> Option<Seq<char>> {
    match v {
        None => None,
        Some(JsonModel::Null) => None,
        Some(JsonModel::Text(s)) => Some(s),
        Some(other) => Some(json::compact_text(json::stored(other))),
    }
}

/// A string, empty when absent or null.
pub open spec fn text_or_empty(v: Option<JsonModel>) -> Seq<char> {
    match text_field(v) {
        Some(s) => s,
        None => seq![],
    }
}

/// An integer: a number, a truth value as 0 or 1, or a string of digits.
/// None when absent, null, a string that is no number, or of another kind.
pub open spec fn int_field(v: Option<JsonModel>) -> Option<int> {
    match v {
        Some(JsonModel::Bool(b)) => Some(
            if b {
                1
            } else {
                0
            },
        ),
        Some(JsonModel::Number(n)) => Some(int_or_zero(n)),
        Some(JsonModel::Text(s)) => numbers::within(
            numbers::signed_value(s),
            i64::MIN as int,
            i64::MAX as int,
        ),
        _ => None,
    }
}

/// An integer, 0 when there is none.
pub open spec fn int_or_default(v: Option<JsonModel>) -> int {
    match int_field(v) {
        Some(n) => n,
        None => 0,
    }
}

/// The integers of a list; other entries are left out. A single number
/// counts as a list of one.
pub open spec fn ints_of(a: Seq<JsonModel>) -> Seq<i64>
    decreases a.len(),
{
    if a.len() == 0 {
        seq![]
    } else {
        let init = ints_of(a.drop_last());
        match a.last() {
            JsonModel::Number(n) => match n.int {
                Some(v) => init.push(v as i64),
                None => init,
            },
            _ => init,
        }
    }
}

pub open spec fn ints_field(v: Option<JsonModel>) -> Seq<i64> {
    match v {
        Some(JsonModel::Array(a)) => ints_of(a),
        Some(JsonModel::Number(n)) => ints_of(seq![JsonModel::Number(n)]),
        _ => seq![],
    }
}

/// A list as it is; none when absent, null or of another kind.
pub open spec fn list_field(v: Option<JsonModel>) -> Option<Seq<JsonModel>> {
    match v {
        Some(JsonModel::Array(a)) => Some(a),
        _ => None,
    }
}

/// Reads a truth value.
pub fn deserialize_opt_bool(v: Option<&Json>) -> (r: Option<bool>)
    ensures
        r == bool_field(json::ref_model(v)),
{
    match v {
        Some(Json::Bool(b)) => Some(*b),
        Some(Json::Number(n)) => Some(
            match n.int {
                Some(i) => i != 0,
                None => false,
            },
        ),
        Some(Json::Text(s)) => {
            let low: String = to_lower(s.as_str());
            Some(
                text_eq(low.as_str(), "1") || text_eq(low.as_str(), "true") || text_eq(
                    low.as_str(),
                    "yes",
                ),
            )
        },
        _ => None,
    }
}

/// Reads a string.
pub fn deserialize_opt_string(v: Option<&Json>) -> (r: Option<String>)
    ensures
        text::option_text(r) == text_field(json::ref_model(v)),
{
    match v {
        None => None,
        Some(Json::Null) => None,
        Some(Json::Text(s)) => Some(copy_text(s.as_str())),
        Some(other) => Some(to_compact(other)),
    }
}

/// Reads a string, empty when absent or null.
pub fn deserialize_string_default(v: Option<&Json>) -> (r: String)
    ensures
        r@ == text_or_empty(json::ref_model(v)),
{
    match deserialize_opt_string(v) {
        Some(s) => s,
        None => String::new(),
    }
}

/// Reads an integer.
pub fn deserialize_opt_i64(v: Option<&Json>) -> (r: Option<i64>)
    ensures
        match r {
            Some(n) => int_field(json::ref_model(v)) == Some(n as int),
            None => int_field(json::ref_model(v)) is None,
        },
{
    match v {
        Some(Json::Bool(b)) => if *b {
            Some(1)
        } else {
            Some(0)
        },
        Some(Json::Number(n)) => match n.int {
            Some(i) => Some(i),
            None => Some(0),
        },
        Some(Json::Text(s)) => numbers::parse_i64(s.as_str()),
        _ => None,
    }
}

/// Reads an integer, 0 when there is none.
pub fn deserialize_i64_default(v: Option<&Json>) -> (r: i64)
    ensures
        r == int_or_default(json::ref_model(v)),
{
    match deserialize_opt_i64(v) {
        Some(n) => n,
        None => 0,
    }
}

fn read_ints(a: &Vec<Json>) -> (r: Vec<i64>)
    ensures
        r@ == ints_of(json::models(a@)),
{
    let mut out: Vec<i64> = Vec::new();
    let ghost t = json::models(a@);
    let mut i: usize = 0;
    assert(out@ =~= seq![]);
    while i < a.len()
        invariant
            i <= a@.len(),
            t == json::models(a@),
            out@ == ints_of(t.take(i as int)),
        decreases a@.len() - i,
    {
        assert(t.take(i + 1).drop_last() =~= t.take(i as int));
        assert(t.take(i + 1).last() == a@[i as int]@);
        match &a[i] {
            Json::Number(n) => match n.int {
                Some(v) => {
                    out.push(v);
                },
                None => {},
            },
            _ => {},
        }
        i = i + 1;
    }
    assert(t.take(t.len() as int) =~= t);
    out
}

/// Reads a list of integers.
pub fn deserialize_vec_i64(v: Option<&Json>) -> (r: Vec<i64>)
    ensures
        r@ == ints_field(json::ref_model(v)),
{
    match v {
        Some(Json::Array(a)) => {
            proof {
                json::lemma_array_model(*a);
            }
            read_ints(a)
        },
        Some(Json::Number(n)) => {
            proof {
                reveal_with_fuel(ints_of, 2);
                let one = seq![JsonModel::Number(n@)];
                assert(one.drop_last() =~= seq![]);
                assert(one.last() == JsonModel::Number(n@));
            }
            let mut out: Vec<i64> = Vec::new();
            match n.int {
                Some(i) => {
                    out.push(i);
                },
                None => {},
            }
            assert(out@ =~= ints_field(json::ref_model(v)));
            out
        },
        _ => {
            let out: Vec<i64> = Vec::new();
            assert(out@ =~= seq![]);
            out
        },
    }
}

/// Reads a list as it is.
pub fn deserialize_opt_value_vec(v: Option<&Json>) -> (r: Option<Vec<Json>>)
    ensures
        option_models(r) == list_field(json::ref_model(v)),
{
    match v {
        Some(Json::Array(a)) => {
            proof {
                json::lemma_array_model(*a);
            }
            Some(copy_jsons(a))
        },
        _ => None,
    }
}

// ---------------------------------------------------------------------
// Rows from JSON
// ---------------------------------------------------------------------

/// A field of a row: by name in an object, by place in an array.
pub open spec fn row_field(j: JsonModel, name: Seq<char>, i: int) -> Option<JsonModel> {
    match j {
        JsonModel::Object(o) => json::member(o, name),
        JsonModel::Array(a) => if i < a.len() {
            Some(a[i])
        } else {
            None
        },
        _ => None,
    }
}

/// A value that can be read as a row of `n` fields.
pub open spec fn is_row(j: JsonModel, n: int) -> bool {
    match j {
        JsonModel::Object(_) => true,
        JsonModel::Array(a) => a.len() <= n,
        _ => false,
    }
}

pub open spec fn part_of_json(j: JsonModel) -> Option<PartModel> {
    if is_row(j, 5) {
        Some(
            PartModel {
                member_id: text_or_empty(row_field(j, "MemberID"@, 0)),
                kind: int_or_default(row_field(j, "Type"@, 1)),
                data: text_or_empty(row_field(j, "Data"@, 2)),
                signature: text_or_empty(row_field(j, "Signature"@, 3)),
                author: text_or_empty(row_field(j, "Author"@, 4)),
            },
        )
    } else {
        None
    }
}

pub open spec fn token_of_json(j: JsonModel) -> Option<TokenModel> {
    if is_row(j, 2) {
        Some(
            TokenModel {
                token: text_or_empty(row_field(j, "Token"@, 0)),
                status: int_or_default(row_field(j, "Status"@, 1)),
            },
        )
    } else {
        None
    }
}

/// The entries of a list that can be read; the others are left out.
pub open spec fn parts_of_jsons(a: Seq<JsonModel>) -> Seq<PartModel>
    decreases a.len(),
{
    if a.len() == 0 {
        seq![]
    } else {
        let init = parts_of_jsons(a.drop_last());
        match part_of_json(a.last()) {
            Some(p) => init.push(p),
            None => init,
        }
    }
}

pub open spec fn tokens_of_jsons(a: Seq<JsonModel>) -> Seq<TokenModel>
    decreases a.len(),
{
    if a.len() == 0 {
        seq![]
    } else {
        let init = tokens_of_jsons(a.drop_last());
        match token_of_json(a.last()) {
            Some(p) => init.push(p),
            None => init,
        }
    }
}

pub open spec fn parts_field(v: Option<JsonModel>) -> Seq<PartModel> {
    match v {
        Some(JsonModel::Array(a)) => parts_of_jsons(a),
        _ => seq![],
    }
}

pub open spec fn tokens_field(v: Option<JsonModel>) -> Seq<TokenModel> {
    match v {
        Some(JsonModel::Array(a)) => tokens_of_jsons(a),
        _ => seq![],
    }
}

pub open spec fn int64(v: Option<int>) -> Option<i64> {
    match v {
        Some(n) => Some(n as i64),
        None => None,
    }
}

/// The event row that a value is read as: an object by field names, or an
/// array of at most as many entries as an event has fields.
pub open spec fn event_of_json(j: JsonModel) -> Option<EventModel> {
    if is_row(j, 26) {
        Some(
            EventModel {
                id: text_or_empty(row_field(j, "ID"@, 0)),
                uid: text_or_empty(row_field(j, "UID"@, 1)),
                calendar_id: text_or_empty(row_field(j, "CalendarID"@, 2)),
                shared_event_id: text_or_empty(row_field(j, "SharedEventID"@, 3)),
                create_time: int_or_default(row_field(j, "CreateTime"@, 4)),
                last_edit_time: int_or_default(row_field(j, "LastEditTime"@, 5)),
                start_time: int_or_default(row_field(j, "StartTime"@, 6)),
                end_time: int_or_default(row_field(j, "EndTime"@, 7)),
                start_timezone: text_or_empty(row_field(j, "StartTimezone"@, 8)),
                end_timezone: text_or_empty(row_field(j, "EndTimezone"@, 9)),
                full_day: bool_field(row_field(j, "FullDay"@, 10)),
                author: text_or_empty(row_field(j, "Author"@, 11)),
                shared_key_packet: text_or_empty(row_field(j, "SharedKeyPacket"@, 12)),
                calendar_key_packet: text_or_empty(row_field(j, "CalendarKeyPacket"@, 13)),
                shared_events: parts_field(row_field(j, "SharedEvents"@, 14)),
                calendar_events: parts_field(row_field(j, "CalendarEvents"@, 15)),
                attendees_events: parts_field(row_field(j, "AttendeesEvents"@, 16)),
                personal_events: parts_field(row_field(j, "PersonalEvents"@, 17)),
                rrule: text_field(row_field(j, "RRule"@, 18)),
                exdates: ints_field(row_field(j, "Exdates"@, 19)),
                recurrence_id: int64(int_field(row_field(j, "RecurrenceID"@, 20))),
                color: text_field(row_field(j, "Color"@, 21)),
                notifications: list_field(row_field(j, "Notifications"@, 22)),
                is_organizer: int64(int_field(row_field(j, "IsOrganizer"@, 23))),
                permissions: int64(int_field(row_field(j, "Permissions"@, 24))),
                attendees: tokens_field(row_field(j, "Attendees"@, 25)),
            },
        )
    } else {
        None
    }
}

pub fn field<'a>(j: &'a Json, name: &str, i: usize) -> (r: Option<&'a Json>)
    ensures
        json::ref_model(r) == row_field(j@, name@, i as int),
{
    match j {
        Json::Object(o) => {
            proof {
                json::lemma_object_model(*o);
            }
            j.get(name)
        },
        Json::Array(a) => {
            proof {
                json::lemma_array_model(*a);
            }
            if i < a.len() {
                Some(&a[i])
            } else {
                None
            }
        },
        _ => None,
    }
}

pub fn row(j: &Json, n: usize) -> (r: bool)
    ensures
        r == is_row(j@, n as int),
{
    match j {
        Json::Object(_) => true,
        Json::Array(a) => {
            proof {
                json::lemma_array_model(*a);
            }
            a.len() <= n
        },
        _ => false,
    }
}

impl CalendarEventPart {
    /// Reads a card of an event; none when the value is no row of one.
    pub fn from_json(j: &Json) -> (r: Option<CalendarEventPart>)
        ensures
            match r {
                Some(p) => part_of_json(j@) == Some(p@),
                None => part_of_json(j@) is None,
            },
    {
        if !row(j, 5) {
            return None;
        }
        Some(
            CalendarEventPart {
                MemberID: deserialize_string_default(field(j, "MemberID", 0)),
                Type: deserialize_i64_default(field(j, "Type", 1)),
                Data: deserialize_string_default(field(j, "Data", 2)),
                Signature: deserialize_string_default(field(j, "Signature", 3)),
                Author: deserialize_string_default(field(j, "Author", 4)),
            },
        )
    }
}

impl AttendeeToken {
    /// Reads an attendee row; none when the value is no row of one.
    pub fn from_json(j: &Json) -> (r: Option<AttendeeToken>)
        ensures
            match r {
                Some(t) => token_of_json(j@) == Some(t@),
                None => token_of_json(j@) is None,
            },
    {
        if !row(j, 2) {
            return None;
        }
        Some(
            AttendeeToken {
                Token: deserialize_string_default(field(j, "Token", 0)),
                Status: deserialize_i64_default(field(j, "Status", 1)),
            },
        )
    }
}

fn read_parts(v: Option<&Json>) -> (r: Vec<CalendarEventPart>)
    ensures
        parts_view(r@) == parts_field(json::ref_model(v)),
{
    let mut out: Vec<CalendarEventPart> = Vec::new();
    assert(parts_view(out@) =~= seq![]);
    if let Some(Json::Array(a)) = v {
        proof {
            json::lemma_array_model(*a);
        }
        let ghost t = json::models(a@);
        let mut i: usize = 0;
        while i < a.len()
            invariant
                i <= a@.len(),
                t == json::models(a@),
                parts_view(out@) == parts_of_jsons(t.take(i as int)),
            decreases a@.len() - i,
        {
            assert(t.take(i + 1).drop_last() =~= t.take(i as int));
            assert(t.take(i + 1).last() == a@[i as int]@);
            match CalendarEventPart::from_json(&a[i]) {
                Some(p) => {
                    let ghost before = parts_view(out@);
                    let ghost pv = p@;
                    out.push(p);
                    assert(parts_view(out@) =~= before.push(pv));
                },
                None => {},
            }
            i = i + 1;
        }
        assert(t.take(t.len() as int) =~= t);
    }
    out
}

fn read_tokens(v: Option<&Json>) -> (r: Vec<AttendeeToken>)
    ensures
        tokens_view(r@) == tokens_field(json::ref_model(v)),
{
    let mut out: Vec<AttendeeToken> = Vec::new();
    assert(tokens_view(out@) =~= seq![]);
    if let Some(Json::Array(a)) = v {
        proof {
            json::lemma_array_model(*a);
        }
        let ghost t = json::models(a@);
        let mut i: usize = 0;
        while i < a.len()
            invariant
                i <= a@.len(),
                t == json::models(a@),
                tokens_view(out@) == tokens_of_jsons(t.take(i as int)),
            decreases a@.len() - i,
        {
            assert(t.take(i + 1).drop_last() =~= t.take(i as int));
            assert(t.take(i + 1).last() == a@[i as int]@);
            match AttendeeToken::from_json(&a[i]) {
                Some(p) => {
                    let ghost before = tokens_view(out@);
                    let ghost pv = p@;
                    out.push(p);
                    assert(tokens_view(out@) =~= before.push(pv));
                },
                None => {},
            }
            i = i + 1;
        }
        assert(t.take(t.len() as int) =~= t);
    }
    out
}

impl CalendarEvent {
    /// Reads an event row. Single fields never fail it: what cannot be read
    /// counts as absent. None when the value is no row of an event.
    pub fn from_json(j: &Json) -> (r: Option<CalendarEvent>)
        ensures
            match r {
                Some(e) => event_of_json(j@) == Some(e@),
                None => event_of_json(j@) is None,
            },
    {
        if !row(j, 26) {
            return None;
        }
        let e: CalendarEvent = CalendarEvent {
            ID: deserialize_string_default(field(j, "ID", 0)),
            UID: deserialize_string_default(field(j, "UID", 1)),
            CalendarID: deserialize_string_default(field(j, "CalendarID", 2)),
            SharedEventID: deserialize_string_default(field(j, "SharedEventID", 3)),
            CreateTime: deserialize_i64_default(field(j, "CreateTime", 4)),
            LastEditTime: deserialize_i64_default(field(j, "LastEditTime", 5)),
            StartTime: deserialize_i64_default(field(j, "StartTime", 6)),
            EndTime: deserialize_i64_default(field(j, "EndTime", 7)),
            StartTimezone: deserialize_string_default(field(j, "StartTimezone", 8)),
            EndTimezone: deserialize_string_default(field(j, "EndTimezone", 9)),
            FullDay: deserialize_opt_bool(field(j, "FullDay", 10)),
            Author: deserialize_string_default(field(j, "Author", 11)),
            SharedKeyPacket: deserialize_string_default(field(j, "SharedKeyPacket", 12)),
            CalendarKeyPacket: deserialize_string_default(field(j, "CalendarKeyPacket", 13)),
            SharedEvents: read_parts(field(j, "SharedEvents", 14)),
            CalendarEvents: read_parts(field(j, "CalendarEvents", 15)),
            AttendeesEvents: read_parts(field(j, "AttendeesEvents", 16)),
            PersonalEvents: read_parts(field(j, "PersonalEvents", 17)),
            RRule: deserialize_opt_string(field(j, "RRule", 18)),
            Exdates: deserialize_vec_i64(field(j, "Exdates", 19)),
            RecurrenceID: deserialize_opt_i64(field(j, "RecurrenceID", 20)),
            Color: deserialize_opt_string(field(j, "Color", 21)),
            Notifications: deserialize_opt_value_vec(field(j, "Notifications", 22)),
            IsOrganizer: deserialize_opt_i64(field(j, "IsOrganizer", 23)),
            Permissions: deserialize_opt_i64(field(j, "Permissions", 24)),
            Attendees: read_tokens(field(j, "Attendees", 25)),
        };
        Some(e)
    }
}

/// The type of a contact card: a 64-bit integer cut to 32 bits, or a string
/// of digits. None for anything else.
pub open spec fn card_type(v: JsonModel) -> Option<int> {
    match v {
        JsonModel::Number(n) => match n.int {
            Some(i) => Some((i as i64 as i32) as int),
            None => None,
        },
        JsonModel::Text(s) => numbers::within(
            numbers::signed_value(s),
            i32::MIN as int,
            i32::MAX as int,
        ),
        _ => None,
    }
}

/// Reads the type of a contact card.
pub fn deserialize_card_type(v: &Json) -> (r: Option<i32>)
    ensures
        match r {
            Some(n) => card_type(v@) == Some(n as int),
            None => card_type(v@) is None,
        },
{
    match v {
        Json::Number(n) => match n.int {
            Some(i) => Some(i as i32),
            None => None,
        },
        Json::Text(s) => numbers::parse_i32(s.as_str()),
        _ => None,
    }
}

} // verus!
