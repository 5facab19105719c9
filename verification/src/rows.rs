//! Rows of the API as they are read from JSON: a field that may be absent
//! has a default, a field of the wrong kind makes the row unreadable.
use vstd::prelude::*;

use crate::fields;
use crate::fields::texts_of_list;
use crate::json;
use crate::json::{Json, JsonModel};
use crate::models;
use crate::models::{
    deserialize_card_type, deserialize_opt_bool, field, row, Address, AddressKey,
    AddressesResponse, Calendar, CalendarKey, CalendarMember, CalendarPassphrase, Contact,
    ContactCard, ContactEmail, ContactsListResponse, CreateContactResponse, CreateContactResult,
    CreateContactsResponse, KeySalt, KeySaltsResponse, MemberPassphrase, User, UserKey,
    UserResponse,
};
use crate::text;
use crate::text::copy_text;

verus! {

broadcast use crate::text::lemma_texts_push;

// ---------------------------------------------------------------------
// Fields
// ---------------------------------------------------------------------

/// An integer, 0 when it is absent; none when it is anything else.
pub open spec fn int_or_zero(v: Option<JsonModel>) -> Option<int> {
    match v {
        None => Some(0),
        Some(v) => fields::as_int(v),
    }
}

/// An integer of 32 bits that has to be there.
pub open spec fn given_i32(v: Option<JsonModel>) -> Option<int> {
    match v {
        None => None,
        Some(v) => match fields::as_int(v) {
            Some(n) if i32::MIN <= n <= i32::MAX => Some(n),
            _ => None,
        },
    }
}

/// The type of a contact card, which has to be there.
pub open spec fn given_card_type(v: Option<JsonModel>) -> Option<int> {
    match v {
        None => None,
        Some(v) => models::card_type(v),
    }
}

/// A string, empty when it is absent; none when it is anything else.
pub open spec fn text_or_empty(v: Option<JsonModel>) -> Option<Seq<char>> {
    match v {
        None => Some(seq![]),
        Some(JsonModel::Text(s)) => Some(s),
        Some(_) => None,
    }
}

/// A string that has to be there.
pub open spec fn given_text(v: Option<JsonModel>) -> Option<Seq<char>> {
    match v {
        Some(JsonModel::Text(s)) => Some(s),
        _ => None,
    }
}

/// A string that may be absent or null; none when it is anything else.
pub open spec fn optional_text(v: Option<JsonModel>) -> Option<Option<Seq<char>>> {
    match v {
        None => Some(None),
        Some(JsonModel::Null) => Some(None),
        Some(JsonModel::Text(s)) => Some(Some(s)),
        Some(_) => None,
    }
}

/// A list of strings, empty when it is absent; none when it is anything else.
pub open spec fn texts_or_empty(v: Option<JsonModel>) -> Option<Seq<Seq<char>>> {
    match v {
        None => Some(seq![]),
        Some(JsonModel::Array(a)) => fields::all_texts(a),
        Some(_) => None,
    }
}

pub fn read_int(v: Option<&Json>) -> (r: Option<i64>)
    ensures
        match r {
            Some(n) => int_or_zero(json::ref_model(v)) == Some(n as int),
            None => int_or_zero(json::ref_model(v)) is None,
        },
{
    match v {
        None => Some(0),
        Some(Json::Number(n)) => n.int,
        Some(_) => None,
    }
}

fn read_i32(v: Option<&Json>) -> (r: Option<i32>)
    ensures
        match r {
            Some(n) => given_i32(json::ref_model(v)) == Some(n as int),
            None => given_i32(json::ref_model(v)) is None,
        },
{
    match v {
        Some(Json::Number(n)) => match n.int {
            Some(i) => if i32::MIN as i64 <= i && i <= i32::MAX as i64 {
                Some(i as i32)
            } else {
                None
            },
            None => None,
        },
        _ => None,
    }
}

fn read_card_type(v: Option<&Json>) -> (r: Option<i32>)
    ensures
        match r {
            Some(n) => given_card_type(json::ref_model(v)) == Some(n as int),
            None => given_card_type(json::ref_model(v)) is None,
        },
{
    match v {
        None => None,
        Some(v) => deserialize_card_type(v),
    }
}

pub fn read_text(v: Option<&Json>) -> (r: Option<String>)
    ensures
        text::option_text(r) == text_or_empty(json::ref_model(v)),
{
    match v {
        None => Some(String::new()),
        Some(Json::Text(s)) => Some(copy_text(s.as_str())),
        Some(_) => None,
    }
}

fn read_given_text(v: Option<&Json>) -> (r: Option<String>)
    ensures
        text::option_text(r) == given_text(json::ref_model(v)),
{
    match v {
        Some(Json::Text(s)) => Some(copy_text(s.as_str())),
        _ => None,
    }
}

fn read_optional_text(v: Option<&Json>) -> (r: Option<Option<String>>)
    ensures
        match r {
            Some(s) => optional_text(json::ref_model(v)) == Some(text::option_text(s)),
            None => optional_text(json::ref_model(v)) is None,
        },
{
    match v {
        None => Some(None),
        Some(Json::Null) => Some(None),
        Some(Json::Text(s)) => Some(Some(copy_text(s.as_str()))),
        Some(_) => None,
    }
}

fn read_texts(v: Option<&Json>) -> (r: Option<Vec<String>>)
    ensures
        fields::option_texts(r) == texts_or_empty(json::ref_model(v)),
{
    match v {
        None => {
            let none: Vec<String> = Vec::new();
            assert(text::texts(none@) =~= seq![]);
            Some(none)
        },
        Some(Json::Array(a)) => {
            proof {
                json::lemma_array_model(*a);
            }
            texts_of_list(a)
        },
        Some(_) => None,
    }
}

// ---------------------------------------------------------------------
// Rows and lists of rows
// ---------------------------------------------------------------------

/// A row that can be read from JSON.
pub trait Row: Sized + View {
    /// What a value is read as; none when it cannot be read.
    spec fn of_json(j: JsonModel) -> Option<<Self as View>::V>;

    fn from_json(j: &Json) -> (r: Option<Self>)
        ensures
            match r {
                Some(x) => Self::of_json(j@) == Some(x@),
                None => Self::of_json(j@) is None,
            },
    ;
}

pub open spec fn views<T: View>(v: Seq<T>) -> Seq<<T as View>::V> {
    Seq::new(v.len(), |i: int| v[i]@)
}

pub open spec fn option_views<T: View>(v: Option<Vec<T>>) -> Option<Seq<<T as View>::V>> {
    match v {
        Some(v) => Some(views(v@)),
        None => None,
    }
}

pub open spec fn option_view<T: View>(v: Option<T>) -> Option<<T as View>::V> {
    match v {
        Some(v) => Some(v@),
        None => None,
    }
}

/// The rows of a list; none when one of them cannot be read.
pub open spec fn rows_of<T: Row>(a: Seq<JsonModel>) -> Option<Seq<<T as View>::V>>
    decreases a.len(),
{
    if a.len() == 0 {
        Some(seq![])
    } else {
        match (rows_of::<T>(a.drop_last()), T::of_json(a.last())) {
            (Some(init), Some(x)) => Some(init.push(x)),
            _ => None,
        }
    }
}

/// A list of rows that has to be there.
pub open spec fn given_rows<T: Row>(v: Option<JsonModel>) -> Option<Seq<<T as View>::V>> {
    match v {
        Some(JsonModel::Array(a)) => rows_of::<T>(a),
        _ => None,
    }
}

/// A list of rows, empty when it is absent.
pub open spec fn rows_or_empty<T: Row>(v: Option<JsonModel>) -> Option<Seq<<T as View>::V>> {
    match v {
        None => Some(seq![]),
        _ => given_rows::<T>(v),
    }
}

/// A list of rows that may be absent or null.
pub open spec fn optional_rows<T: Row>(v: Option<JsonModel>) -> Option<
    Option<Seq<<T as View>::V>>,
> {
    match v {
        None => Some(None),
        Some(JsonModel::Null) => Some(None),
        _ => match given_rows::<T>(v) {
            Some(l) => Some(Some(l)),
            None => None,
        },
    }
}

/// A row that has to be there.
pub open spec fn given_row<T: Row>(v: Option<JsonModel>) -> Option<<T as View>::V> {
    match v {
        Some(j) => T::of_json(j),
        None => None,
    }
}

/// A row that may be absent or null.
pub open spec fn optional_row<T: Row>(v: Option<JsonModel>) -> Option<Option<<T as View>::V>> {
    match v {
        None => Some(None),
        Some(JsonModel::Null) => Some(None),
        _ => match given_row::<T>(v) {
            Some(x) => Some(Some(x)),
            None => None,
        },
    }
}

proof fn lemma_rows_prefix<T: Row>(a: Seq<JsonModel>, k: int)
    requires
        0 <= k <= a.len(),
        rows_of::<T>(a.take(k)) is None,
    ensures
        rows_of::<T>(a) is None,
    decreases a.len() - k,
{
    if k < a.len() {
        assert(a.take(k + 1).drop_last() =~= a.take(k));
        lemma_rows_prefix::<T>(a, k + 1);
    } else {
        assert(a.take(k) =~= a);
    }
}

fn read_list<T: Row>(a: &Vec<Json>) -> (r: Option<Vec<T>>)
    ensures
        option_views(r) == rows_of::<T>(json::models(a@)),
{
    let mut out: Vec<T> = Vec::new();
    let ghost all = json::models(a@);
    let mut i: usize = 0;
    assert(all.take(0) =~= seq![]);
    assert(views(out@) =~= seq![]);
    while i < a.len()
        invariant
            i <= a@.len(),
            all == json::models(a@),
            rows_of::<T>(all.take(i as int)) == Some(views(out@)),
        decreases a@.len() - i,
    {
        assert(all.take(i + 1).drop_last() =~= all.take(i as int));
        assert(all.take(i + 1).last() == a@[i as int]@);
        let ghost done = views(out@);
        match T::from_json(&a[i]) {
            Some(x) => {
                out.push(x);
                assert(views(out@) =~= done.push(x@));
            },
            None => {
                proof {
                    lemma_rows_prefix::<T>(all, i + 1);
                }
                return None;
            },
        }
        i = i + 1;
    }
    assert(all.take(all.len() as int) =~= all);
    Some(out)
}

fn read_given_rows<T: Row>(v: Option<&Json>) -> (r: Option<Vec<T>>)
    ensures
        option_views(r) == given_rows::<T>(json::ref_model(v)),
{
    match v {
        Some(Json::Array(a)) => {
            proof {
                json::lemma_array_model(*a);
            }
            read_list(a)
        },
        _ => None,
    }
}

pub fn read_rows<T: Row>(v: Option<&Json>) -> (r: Option<Vec<T>>)
    ensures
        option_views(r) == rows_or_empty::<T>(json::ref_model(v)),
{
    match v {
        None => {
            let none: Vec<T> = Vec::new();
            assert(views(none@) =~= seq![]);
            Some(none)
        },
        _ => read_given_rows(v),
    }
}

fn read_optional_rows<T: Row>(v: Option<&Json>) -> (r: Option<Option<Vec<T>>>)
    ensures
        match r {
            Some(l) => optional_rows::<T>(json::ref_model(v)) == Some(option_views(l)),
            None => optional_rows::<T>(json::ref_model(v)) is None,
        },
{
    match v {
        None => Some(None),
        Some(Json::Null) => Some(None),
        _ => match read_given_rows(v) {
            Some(l) => Some(Some(l)),
            None => None,
        },
    }
}

fn read_given_row<T: Row>(v: Option<&Json>) -> (r: Option<T>)
    ensures
        option_view(r) == given_row::<T>(json::ref_model(v)),
{
    match v {
        Some(j) => T::from_json(j),
        None => None,
    }
}

fn read_optional_row<T: Row>(v: Option<&Json>) -> (r: Option<Option<T>>)
    ensures
        match r {
            Some(x) => optional_row::<T>(json::ref_model(v)) == Some(option_view(x)),
            None => optional_row::<T>(json::ref_model(v)) is None,
        },
{
    match v {
        None => Some(None),
        Some(Json::Null) => Some(None),
        _ => match read_given_row(v) {
            Some(x) => Some(Some(x)),
            None => None,
        },
    }
}

// ---------------------------------------------------------------------
// The rows
// ---------------------------------------------------------------------

/// What a [`MemberPassphrase`] holds.
#[verifier::ext_equal]
pub struct MemberPassphraseModel {
    pub member_id: Seq<char>,
    pub passphrase: Seq<char>,
    pub signature: Seq<char>,
}

impl View for MemberPassphrase {
    type V = MemberPassphraseModel;

    open spec fn view(&self) -> MemberPassphraseModel {
        MemberPassphraseModel {
            member_id: self.MemberID@,
            passphrase: self.Passphrase@,
            signature: self.Signature@,
        }
    }
}

impl Row for MemberPassphrase {
    open spec fn of_json(j: JsonModel) -> Option<MemberPassphraseModel> {
        match (
            text_or_empty(models::row_field(j, "MemberID"@, 0)),
            text_or_empty(models::row_field(j, "Passphrase"@, 1)),
            text_or_empty(models::row_field(j, "Signature"@, 2)),
        ) {
            (Some(member_id), Some(passphrase), Some(signature)) if models::is_row(j, 3) => Some(
                MemberPassphraseModel {
                    member_id,
                    passphrase,
                    signature,
                },
            ),
            _ => None,
        }
    }

    fn from_json(j: &Json) -> (r: Option<MemberPassphrase>) {
        if !row(j, 3) {
            return None;
        }
        match (
            read_text(field(j, "MemberID", 0)),
            read_text(field(j, "Passphrase", 1)),
            read_text(field(j, "Signature", 2)),
        ) {
            (Some(member_id), Some(passphrase), Some(signature)) => Some(
                MemberPassphrase {
                    MemberID: member_id,
                    Passphrase: passphrase,
                    Signature: signature,
                },
            ),
            _ => None,
        }
    }
}

/// What a [`CalendarPassphrase`] holds.
#[verifier::ext_equal]
pub struct PassphraseModel {
    pub id: Seq<char>,
    pub flags: int,
    pub member_passphrases: Seq<MemberPassphraseModel>,
}

impl View for CalendarPassphrase {
    type V = PassphraseModel;

    open spec fn view(&self) -> PassphraseModel {
        PassphraseModel {
            id: self.ID@,
            flags: self.Flags as int,
            member_passphrases: views(self.MemberPassphrases@),
        }
    }
}

impl Row for CalendarPassphrase {
    open spec fn of_json(j: JsonModel) -> Option<PassphraseModel> {
        match (
            text_or_empty(models::row_field(j, "ID"@, 0)),
            int_or_zero(models::row_field(j, "Flags"@, 1)),
            rows_or_empty::<MemberPassphrase>(models::row_field(j, "MemberPassphrases"@, 2)),
        ) {
            (Some(id), Some(flags), Some(member_passphrases)) if models::is_row(j, 3) => Some(
                PassphraseModel {
                    id,
                    flags,
                    member_passphrases,
                },
            ),
            _ => None,
        }
    }

    fn from_json(j: &Json) -> (r: Option<CalendarPassphrase>) {
        if !row(j, 3) {
            return None;
        }
        match (
            read_text(field(j, "ID", 0)),
            read_int(field(j, "Flags", 1)),
            read_rows(field(j, "MemberPassphrases", 2)),
        ) {
            (Some(id), Some(flags), Some(member_passphrases)) => Some(
                CalendarPassphrase {
                    ID: id,
                    Flags: flags,
                    MemberPassphrases: member_passphrases,
                },
            ),
            _ => None,
        }
    }
}

/// What a [`CalendarKey`] holds.
#[verifier::ext_equal]
pub struct CalendarKeyModel {
    pub id: Seq<char>,
    pub calendar_id: Seq<char>,
    pub passphrase_id: Seq<char>,
    pub private_key: Seq<char>,
    pub flags: int,
}

impl View for CalendarKey {
    type V = CalendarKeyModel;

    open spec fn view(&self) -> CalendarKeyModel {
        CalendarKeyModel {
            id: self.ID@,
            calendar_id: self.CalendarID@,
            passphrase_id: self.PassphraseID@,
            private_key: self.PrivateKey@,
            flags: self.Flags as int,
        }
    }
}

impl Row for CalendarKey {
    open spec fn of_json(j: JsonModel) -> Option<CalendarKeyModel> {
        match (
            text_or_empty(models::row_field(j, "ID"@, 0)),
            text_or_empty(models::row_field(j, "CalendarID"@, 1)),
            text_or_empty(models::row_field(j, "PassphraseID"@, 2)),
            text_or_empty(models::row_field(j, "PrivateKey"@, 3)),
            int_or_zero(models::row_field(j, "Flags"@, 4)),
        ) {
            (
                Some(id),
                Some(calendar_id),
                Some(passphrase_id),
                Some(private_key),
                Some(flags),
            ) if models::is_row(j, 5) => Some(
                CalendarKeyModel {
                    id,
                    calendar_id,
                    passphrase_id,
                    private_key,
                    flags,
                },
            ),
            _ => None,
        }
    }

    fn from_json(j: &Json) -> (r: Option<CalendarKey>) {
        if !row(j, 5) {
            return None;
        }
        match (
            read_text(field(j, "ID", 0)),
            read_text(field(j, "CalendarID", 1)),
            read_text(field(j, "PassphraseID", 2)),
            read_text(field(j, "PrivateKey", 3)),
            read_int(field(j, "Flags", 4)),
        ) {
            (
                Some(id),
                Some(calendar_id),
                Some(passphrase_id),
                Some(private_key),
                Some(flags),
            ) => Some(
                CalendarKey {
                    ID: id,
                    CalendarID: calendar_id,
                    PassphraseID: passphrase_id,
                    PrivateKey: private_key,
                    Flags: flags,
                },
            ),
            _ => None,
        }
    }
}

/// What a [`CalendarMember`] holds.
#[verifier::ext_equal]
pub struct MemberModel {
    pub id: Seq<char>,
    pub calendar_id: Seq<char>,
    pub address_id: Seq<char>,
    pub email: Seq<char>,
    pub name: Seq<char>,
    pub description: Seq<char>,
    pub color: Seq<char>,
    pub permissions: int,
    pub flags: int,
}

impl View for CalendarMember {
    type V = MemberModel;

    open spec fn view(&self) -> MemberModel {
        MemberModel {
            id: self.ID@,
            calendar_id: self.CalendarID@,
            address_id: self.AddressID@,
            email: self.Email@,
            name: self.Name@,
            description: self.Description@,
            color: self.Color@,
            permissions: self.Permissions as int,
            flags: self.Flags as int,
        }
    }
}

impl Row for CalendarMember {
    open spec fn of_json(j: JsonModel) -> Option<MemberModel> {
        match (
            text_or_empty(models::row_field(j, "ID"@, 0)),
            text_or_empty(models::row_field(j, "CalendarID"@, 1)),
            text_or_empty(models::row_field(j, "AddressID"@, 2)),
            text_or_empty(models::row_field(j, "Email"@, 3)),
            text_or_empty(models::row_field(j, "Name"@, 4)),
            text_or_empty(models::row_field(j, "Description"@, 5)),
            text_or_empty(models::row_field(j, "Color"@, 6)),
            int_or_zero(models::row_field(j, "Permissions"@, 7)),
            int_or_zero(models::row_field(j, "Flags"@, 8)),
        ) {
            (
                Some(id),
                Some(calendar_id),
                Some(address_id),
                Some(email),
                Some(name),
                Some(description),
                Some(color),
                Some(permissions),
                Some(flags),
            ) if models::is_row(j, 9) => Some(
                MemberModel {
                    id,
                    calendar_id,
                    address_id,
                    email,
                    name,
                    description,
                    color,
                    permissions,
                    flags,
                },
            ),
            _ => None,
        }
    }

    fn from_json(j: &Json) -> (r: Option<CalendarMember>) {
        if !row(j, 9) {
            return None;
        }
        match (
            read_text(field(j, "ID", 0)),
            read_text(field(j, "CalendarID", 1)),
            read_text(field(j, "AddressID", 2)),
            read_text(field(j, "Email", 3)),
            read_text(field(j, "Name", 4)),
            read_text(field(j, "Description", 5)),
            read_text(field(j, "Color", 6)),
            read_int(field(j, "Permissions", 7)),
            read_int(field(j, "Flags", 8)),
        ) {
            (
                Some(id),
                Some(calendar_id),
                Some(address_id),
                Some(email),
                Some(name),
                Some(description),
                Some(color),
                Some(permissions),
                Some(flags),
            ) => Some(
                CalendarMember {
                    ID: id,
                    CalendarID: calendar_id,
                    AddressID: address_id,
                    Email: email,
                    Name: name,
                    Description: description,
                    Color: color,
                    Permissions: permissions,
                    Flags: flags,
                },
            ),
            _ => None,
        }
    }
}

/// What a [`Calendar`] holds.
#[verifier::ext_equal]
pub struct CalendarModel {
    pub id: Seq<char>,
    pub name: Seq<char>,
    pub description: Seq<char>,
    pub color: Seq<char>,
    pub display: Option<bool>,
    pub kind: int,
    pub flags: int,
}

impl View for Calendar {
    type V = CalendarModel;

    open spec fn view(&self) -> CalendarModel {
        CalendarModel {
            id: self.ID@,
            name: self.Name@,
            description: self.Description@,
            color: self.Color@,
            display: self.Display,
            kind: self.Type as int,
            flags: self.Flags as int,
        }
    }
}

impl Row for Calendar {
    open spec fn of_json(j: JsonModel) -> Option<CalendarModel> {
        match (
            text_or_empty(models::row_field(j, "ID"@, 0)),
            text_or_empty(models::row_field(j, "Name"@, 1)),
            text_or_empty(models::row_field(j, "Description"@, 2)),
            text_or_empty(models::row_field(j, "Color"@, 3)),
            int_or_zero(models::row_field(j, "Type"@, 5)),
            int_or_zero(models::row_field(j, "Flags"@, 6)),
        ) {
            (
                Some(id),
                Some(name),
                Some(description),
                Some(color),
                Some(kind),
                Some(flags),
            ) if models::is_row(j, 7) => Some(
                CalendarModel {
                    id,
                    name,
                    description,
                    color,
                    kind,
                    flags,
                    display: models::bool_field(models::row_field(j, "Display"@, 4)),
                },
            ),
            _ => None,
        }
    }

    fn from_json(j: &Json) -> (r: Option<Calendar>) {
        if !row(j, 7) {
            return None;
        }
        match (
            read_text(field(j, "ID", 0)),
            read_text(field(j, "Name", 1)),
            read_text(field(j, "Description", 2)),
            read_text(field(j, "Color", 3)),
            read_int(field(j, "Type", 5)),
            read_int(field(j, "Flags", 6)),
        ) {
            (Some(id), Some(name), Some(description), Some(color), Some(kind), Some(flags)) => Some(
                Calendar {
                    ID: id,
                    Name: name,
                    Description: description,
                    Color: color,
                    Type: kind,
                    Flags: flags,
                    Display: deserialize_opt_bool(field(j, "Display", 4)),
                },
            ),
            _ => None,
        }
    }
}

/// What a [`ContactEmail`] holds.
#[verifier::ext_equal]
pub struct EmailModel {
    pub id: Seq<char>,
    pub name: Seq<char>,
    pub email: Seq<char>,
    pub kind: Seq<Seq<char>>,
    pub contact_id: Seq<char>,
    pub label_ids: Seq<Seq<char>>,
}

impl View for ContactEmail {
    type V = EmailModel;

    open spec fn view(&self) -> EmailModel {
        EmailModel {
            id: self.ID@,
            name: self.Name@,
            email: self.Email@,
            kind: text::texts(self.Type@),
            contact_id: self.ContactID@,
            label_ids: text::texts(self.LabelIDs@),
        }
    }
}

impl Row for ContactEmail {
    open spec fn of_json(j: JsonModel) -> Option<EmailModel> {
        match (
            text_or_empty(models::row_field(j, "ID"@, 0)),
            text_or_empty(models::row_field(j, "Name"@, 1)),
            text_or_empty(models::row_field(j, "Email"@, 2)),
            texts_or_empty(models::row_field(j, "Type"@, 3)),
            text_or_empty(models::row_field(j, "ContactID"@, 4)),
            texts_or_empty(models::row_field(j, "LabelIDs"@, 5)),
        ) {
            (
                Some(id),
                Some(name),
                Some(email),
                Some(kind),
                Some(contact_id),
                Some(label_ids),
            ) if models::is_row(j, 6) => Some(
                EmailModel {
                    id,
                    name,
                    email,
                    kind,
                    contact_id,
                    label_ids,
                },
            ),
            _ => None,
        }
    }

    fn from_json(j: &Json) -> (r: Option<ContactEmail>) {
        if !row(j, 6) {
            return None;
        }
        match (
            read_text(field(j, "ID", 0)),
            read_text(field(j, "Name", 1)),
            read_text(field(j, "Email", 2)),
            read_texts(field(j, "Type", 3)),
            read_text(field(j, "ContactID", 4)),
            read_texts(field(j, "LabelIDs", 5)),
        ) {
            (
                Some(id),
                Some(name),
                Some(email),
                Some(kind),
                Some(contact_id),
                Some(label_ids),
            ) => Some(
                ContactEmail {
                    ID: id,
                    Name: name,
                    Email: email,
                    Type: kind,
                    ContactID: contact_id,
                    LabelIDs: label_ids,
                },
            ),
            _ => None,
        }
    }
}

/// What a [`ContactCard`] holds.
#[verifier::ext_equal]
pub struct CardModel {
    pub kind: int,
    pub data: Seq<char>,
    pub signature: Seq<char>,
}

impl View for ContactCard {
    type V = CardModel;

    open spec fn view(&self) -> CardModel {
        CardModel {
            kind: self.Type as int,
            data: self.Data@,
            signature: self.Signature@,
        }
    }
}

impl Row for ContactCard {
    open spec fn of_json(j: JsonModel) -> Option<CardModel> {
        match (
            given_card_type(models::row_field(j, "Type"@, 0)),
            given_text(models::row_field(j, "Data"@, 1)),
            text_or_empty(models::row_field(j, "Signature"@, 2)),
        ) {
            (Some(kind), Some(data), Some(signature)) if models::is_row(j, 3) => Some(
                CardModel {
                    kind,
                    data,
                    signature,
                },
            ),
            _ => None,
        }
    }

    fn from_json(j: &Json) -> (r: Option<ContactCard>) {
        if !row(j, 3) {
            return None;
        }
        match (
            read_card_type(field(j, "Type", 0)),
            read_given_text(field(j, "Data", 1)),
            read_text(field(j, "Signature", 2)),
        ) {
            (Some(kind), Some(data), Some(signature)) => Some(
                ContactCard {
                    Type: kind,
                    Data: data,
                    Signature: signature,
                },
            ),
            _ => None,
        }
    }
}

/// What a [`Contact`] holds.
#[verifier::ext_equal]
pub struct ContactModel {
    pub id: Seq<char>,
    pub name: Seq<char>,
    pub uid: Seq<char>,
    pub size: int,
    pub create_time: int,
    pub modify_time: int,
    pub contact_emails: Seq<EmailModel>,
    pub label_ids: Seq<Seq<char>>,
    pub cards: Option<Seq<CardModel>>,
}

impl View for Contact {
    type V = ContactModel;

    open spec fn view(&self) -> ContactModel {
        ContactModel {
            id: self.ID@,
            name: self.Name@,
            uid: self.UID@,
            size: self.Size as int,
            create_time: self.CreateTime as int,
            modify_time: self.ModifyTime as int,
            contact_emails: views(self.ContactEmails@),
            label_ids: text::texts(self.LabelIDs@),
            cards: option_views(self.Cards),
        }
    }
}

impl Row for Contact {
    open spec fn of_json(j: JsonModel) -> Option<ContactModel> {
        match (
            given_text(models::row_field(j, "ID"@, 0)),
            text_or_empty(models::row_field(j, "Name"@, 1)),
            text_or_empty(models::row_field(j, "UID"@, 2)),
            int_or_zero(models::row_field(j, "Size"@, 3)),
            int_or_zero(models::row_field(j, "CreateTime"@, 4)),
            int_or_zero(models::row_field(j, "ModifyTime"@, 5)),
            rows_or_empty::<ContactEmail>(models::row_field(j, "ContactEmails"@, 6)),
            texts_or_empty(models::row_field(j, "LabelIDs"@, 7)),
            optional_rows::<ContactCard>(models::row_field(j, "Cards"@, 8)),
        ) {
            (
                Some(id),
                Some(name),
                Some(uid),
                Some(size),
                Some(create_time),
                Some(modify_time),
                Some(contact_emails),
                Some(label_ids),
                Some(cards),
            ) if models::is_row(j, 9) => Some(
                ContactModel {
                    id,
                    name,
                    uid,
                    size,
                    create_time,
                    modify_time,
                    contact_emails,
                    label_ids,
                    cards,
                },
            ),
            _ => None,
        }
    }

    fn from_json(j: &Json) -> (r: Option<Contact>) {
        if !row(j, 9) {
            return None;
        }
        match (
            read_given_text(field(j, "ID", 0)),
            read_text(field(j, "Name", 1)),
            read_text(field(j, "UID", 2)),
            read_int(field(j, "Size", 3)),
            read_int(field(j, "CreateTime", 4)),
            read_int(field(j, "ModifyTime", 5)),
            read_rows(field(j, "ContactEmails", 6)),
            read_texts(field(j, "LabelIDs", 7)),
            read_optional_rows(field(j, "Cards", 8)),
        ) {
            (
                Some(id),
                Some(name),
                Some(uid),
                Some(size),
                Some(create_time),
                Some(modify_time),
                Some(contact_emails),
                Some(label_ids),
                Some(cards),
            ) => Some(
                Contact {
                    ID: id,
                    Name: name,
                    UID: uid,
                    Size: size,
                    CreateTime: create_time,
                    ModifyTime: modify_time,
                    ContactEmails: contact_emails,
                    LabelIDs: label_ids,
                    Cards: cards,
                },
            ),
            _ => None,
        }
    }
}

/// What a [`UserKey`] holds.
#[verifier::ext_equal]
pub struct UserKeyModel {
    pub id: Seq<char>,
    pub version: int,
    pub private_key: Seq<char>,
    pub token: Seq<char>,
    pub signature: Seq<char>,
    pub primary: int,
    pub active: int,
}

impl View for UserKey {
    type V = UserKeyModel;

    open spec fn view(&self) -> UserKeyModel {
        UserKeyModel {
            id: self.ID@,
            version: self.Version as int,
            private_key: self.PrivateKey@,
            token: self.Token@,
            signature: self.Signature@,
            primary: self.Primary as int,
            active: self.Active as int,
        }
    }
}

impl Row for UserKey {
    open spec fn of_json(j: JsonModel) -> Option<UserKeyModel> {
        match (
            text_or_empty(models::row_field(j, "ID"@, 0)),
            int_or_zero(models::row_field(j, "Version"@, 1)),
            text_or_empty(models::row_field(j, "PrivateKey"@, 2)),
            text_or_empty(models::row_field(j, "Token"@, 3)),
            text_or_empty(models::row_field(j, "Signature"@, 4)),
            int_or_zero(models::row_field(j, "Primary"@, 5)),
            int_or_zero(models::row_field(j, "Active"@, 6)),
        ) {
            (
                Some(id),
                Some(version),
                Some(private_key),
                Some(token),
                Some(signature),
                Some(primary),
                Some(active),
            ) if models::is_row(j, 7) => Some(
                UserKeyModel {
                    id,
                    version,
                    private_key,
                    token,
                    signature,
                    primary,
                    active,
                },
            ),
            _ => None,
        }
    }

    fn from_json(j: &Json) -> (r: Option<UserKey>) {
        if !row(j, 7) {
            return None;
        }
        match (
            read_text(field(j, "ID", 0)),
            read_int(field(j, "Version", 1)),
            read_text(field(j, "PrivateKey", 2)),
            read_text(field(j, "Token", 3)),
            read_text(field(j, "Signature", 4)),
            read_int(field(j, "Primary", 5)),
            read_int(field(j, "Active", 6)),
        ) {
            (
                Some(id),
                Some(version),
                Some(private_key),
                Some(token),
                Some(signature),
                Some(primary),
                Some(active),
            ) => Some(
                UserKey {
                    ID: id,
                    Version: version,
                    PrivateKey: private_key,
                    Token: token,
                    Signature: signature,
                    Primary: primary,
                    Active: active,
                },
            ),
            _ => None,
        }
    }
}

/// What a [`AddressKey`] holds.
#[verifier::ext_equal]
pub struct AddressKeyModel {
    pub id: Seq<char>,
    pub version: int,
    pub private_key: Seq<char>,
    pub token: Seq<char>,
    pub signature: Seq<char>,
    pub primary: int,
    pub active: int,
}

impl View for AddressKey {
    type V = AddressKeyModel;

    open spec fn view(&self) -> AddressKeyModel {
        AddressKeyModel {
            id: self.ID@,
            version: self.Version as int,
            private_key: self.PrivateKey@,
            token: self.Token@,
            signature: self.Signature@,
            primary: self.Primary as int,
            active: self.Active as int,
        }
    }
}

impl Row for AddressKey {
    open spec fn of_json(j: JsonModel) -> Option<AddressKeyModel> {
        match (
            text_or_empty(models::row_field(j, "ID"@, 0)),
            int_or_zero(models::row_field(j, "Version"@, 1)),
            text_or_empty(models::row_field(j, "PrivateKey"@, 2)),
            text_or_empty(models::row_field(j, "Token"@, 3)),
            text_or_empty(models::row_field(j, "Signature"@, 4)),
            int_or_zero(models::row_field(j, "Primary"@, 5)),
            int_or_zero(models::row_field(j, "Active"@, 6)),
        ) {
            (
                Some(id),
                Some(version),
                Some(private_key),
                Some(token),
                Some(signature),
                Some(primary),
                Some(active),
            ) if models::is_row(j, 7) => Some(
                AddressKeyModel {
                    id,
                    version,
                    private_key,
                    token,
                    signature,
                    primary,
                    active,
                },
            ),
            _ => None,
        }
    }

    fn from_json(j: &Json) -> (r: Option<AddressKey>) {
        if !row(j, 7) {
            return None;
        }
        match (
            read_text(field(j, "ID", 0)),
            read_int(field(j, "Version", 1)),
            read_text(field(j, "PrivateKey", 2)),
            read_text(field(j, "Token", 3)),
            read_text(field(j, "Signature", 4)),
            read_int(field(j, "Primary", 5)),
            read_int(field(j, "Active", 6)),
        ) {
            (
                Some(id),
                Some(version),
                Some(private_key),
                Some(token),
                Some(signature),
                Some(primary),
                Some(active),
            ) => Some(
                AddressKey {
                    ID: id,
                    Version: version,
                    PrivateKey: private_key,
                    Token: token,
                    Signature: signature,
                    Primary: primary,
                    Active: active,
                },
            ),
            _ => None,
        }
    }
}

/// What a [`User`] holds.
#[verifier::ext_equal]
pub struct UserModel {
    pub id: Seq<char>,
    pub name: Seq<char>,
    pub keys: Seq<UserKeyModel>,
}

impl View for User {
    type V = UserModel;

    open spec fn view(&self) -> UserModel {
        UserModel {
            id: self.ID@,
            name: self.Name@,
            keys: views(self.Keys@),
        }
    }
}

impl Row for User {
    open spec fn of_json(j: JsonModel) -> Option<UserModel> {
        match (
            text_or_empty(models::row_field(j, "ID"@, 0)),
            text_or_empty(models::row_field(j, "Name"@, 1)),
            rows_or_empty::<UserKey>(models::row_field(j, "Keys"@, 2)),
        ) {
            (Some(id), Some(name), Some(keys)) if models::is_row(j, 3) => Some(
                UserModel {
                    id,
                    name,
                    keys,
                },
            ),
            _ => None,
        }
    }

    fn from_json(j: &Json) -> (r: Option<User>) {
        if !row(j, 3) {
            return None;
        }
        match (
            read_text(field(j, "ID", 0)),
            read_text(field(j, "Name", 1)),
            read_rows(field(j, "Keys", 2)),
        ) {
            (Some(id), Some(name), Some(keys)) => Some(
                User {
                    ID: id,
                    Name: name,
                    Keys: keys,
                },
            ),
            _ => None,
        }
    }
}

/// What a [`Address`] holds.
#[verifier::ext_equal]
pub struct AddressModel {
    pub id: Seq<char>,
    pub email: Seq<char>,
    pub keys: Seq<AddressKeyModel>,
}

impl View for Address {
    type V = AddressModel;

    open spec fn view(&self) -> AddressModel {
        AddressModel {
            id: self.ID@,
            email: self.Email@,
            keys: views(self.Keys@),
        }
    }
}

impl Row for Address {
    open spec fn of_json(j: JsonModel) -> Option<AddressModel> {
        match (
            text_or_empty(models::row_field(j, "ID"@, 0)),
            text_or_empty(models::row_field(j, "Email"@, 1)),
            rows_or_empty::<AddressKey>(models::row_field(j, "Keys"@, 2)),
        ) {
            (Some(id), Some(email), Some(keys)) if models::is_row(j, 3) => Some(
                AddressModel {
                    id,
                    email,
                    keys,
                },
            ),
            _ => None,
        }
    }

    fn from_json(j: &Json) -> (r: Option<Address>) {
        if !row(j, 3) {
            return None;
        }
        match (
            read_text(field(j, "ID", 0)),
            read_text(field(j, "Email", 1)),
            read_rows(field(j, "Keys", 2)),
        ) {
            (Some(id), Some(email), Some(keys)) => Some(
                Address {
                    ID: id,
                    Email: email,
                    Keys: keys,
                },
            ),
            _ => None,
        }
    }
}

/// What a [`KeySalt`] holds.
#[verifier::ext_equal]
pub struct SaltModel {
    pub id: Seq<char>,
    pub key_salt: Option<Seq<char>>,
}

impl View for KeySalt {
    type V = SaltModel;

    open spec fn view(&self) -> SaltModel {
        SaltModel {
            id: self.ID@,
            key_salt: text::option_text(self.KeySalt),
        }
    }
}

impl Row for KeySalt {
    open spec fn of_json(j: JsonModel) -> Option<SaltModel> {
        match (
            text_or_empty(models::row_field(j, "ID"@, 0)),
            optional_text(models::row_field(j, "KeySalt"@, 1)),
        ) {
            (Some(id), Some(key_salt)) if models::is_row(j, 2) => Some(
                SaltModel {
                    id,
                    key_salt,
                },
            ),
            _ => None,
        }
    }

    fn from_json(j: &Json) -> (r: Option<KeySalt>) {
        if !row(j, 2) {
            return None;
        }
        match (
            read_text(field(j, "ID", 0)),
            read_optional_text(field(j, "KeySalt", 1)),
        ) {
            (Some(id), Some(key_salt)) => Some(
                KeySalt {
                    ID: id,
                    KeySalt: key_salt,
                },
            ),
            _ => None,
        }
    }
}

/// What a [`UserResponse`] holds.
#[verifier::ext_equal]
pub struct UserAnswerModel {
    pub user: UserModel,
}

impl View for UserResponse {
    type V = UserAnswerModel;

    open spec fn view(&self) -> UserAnswerModel {
        UserAnswerModel {
            user: self.User@,
        }
    }
}

impl Row for UserResponse {
    open spec fn of_json(j: JsonModel) -> Option<UserAnswerModel> {
        match given_row::<User>(models::row_field(j, "User"@, 0)) {
            Some(user) if models::is_row(j, 1) => Some(
                UserAnswerModel {
                    user,
                },
            ),
            _ => None,
        }
    }

    fn from_json(j: &Json) -> (r: Option<UserResponse>) {
        if !row(j, 1) {
            return None;
        }
        match read_given_row(field(j, "User", 0)) {
            Some(user) => Some(
                UserResponse {
                    User: user,
                },
            ),
            _ => None,
        }
    }
}

/// What a [`AddressesResponse`] holds.
#[verifier::ext_equal]
pub struct AddressesModel {
    pub addresses: Seq<AddressModel>,
}

impl View for AddressesResponse {
    type V = AddressesModel;

    open spec fn view(&self) -> AddressesModel {
        AddressesModel {
            addresses: views(self.Addresses@),
        }
    }
}

impl Row for AddressesResponse {
    open spec fn of_json(j: JsonModel) -> Option<AddressesModel> {
        match given_rows::<Address>(models::row_field(j, "Addresses"@, 0)) {
            Some(addresses) if models::is_row(j, 1) => Some(
                AddressesModel {
                    addresses,
                },
            ),
            _ => None,
        }
    }

    fn from_json(j: &Json) -> (r: Option<AddressesResponse>) {
        if !row(j, 1) {
            return None;
        }
        match read_given_rows(field(j, "Addresses", 0)) {
            Some(addresses) => Some(
                AddressesResponse {
                    Addresses: addresses,
                },
            ),
            _ => None,
        }
    }
}

/// What a [`KeySaltsResponse`] holds.
#[verifier::ext_equal]
pub struct SaltsModel {
    pub key_salts: Seq<SaltModel>,
}

impl View for KeySaltsResponse {
    type V = SaltsModel;

    open spec fn view(&self) -> SaltsModel {
        SaltsModel {
            key_salts: views(self.KeySalts@),
        }
    }
}

impl Row for KeySaltsResponse {
    open spec fn of_json(j: JsonModel) -> Option<SaltsModel> {
        match given_rows::<KeySalt>(models::row_field(j, "KeySalts"@, 0)) {
            Some(key_salts) if models::is_row(j, 1) => Some(
                SaltsModel {
                    key_salts,
                },
            ),
            _ => None,
        }
    }

    fn from_json(j: &Json) -> (r: Option<KeySaltsResponse>) {
        if !row(j, 1) {
            return None;
        }
        match read_given_rows(field(j, "KeySalts", 0)) {
            Some(key_salts) => Some(
                KeySaltsResponse {
                    KeySalts: key_salts,
                },
            ),
            _ => None,
        }
    }
}

/// What a [`ContactsListResponse`] holds.
#[verifier::ext_equal]
pub struct ContactsModel {
    pub contacts: Seq<ContactModel>,
    pub total: int,
}

impl View for ContactsListResponse {
    type V = ContactsModel;

    open spec fn view(&self) -> ContactsModel {
        ContactsModel {
            contacts: views(self.Contacts@),
            total: self.Total as int,
        }
    }
}

impl Row for ContactsListResponse {
    open spec fn of_json(j: JsonModel) -> Option<ContactsModel> {
        match (
            given_rows::<Contact>(models::row_field(j, "Contacts"@, 0)),
            given_i32(models::row_field(j, "Total"@, 1)),
        ) {
            (Some(contacts), Some(total)) if models::is_row(j, 2) => Some(
                ContactsModel {
                    contacts,
                    total,
                },
            ),
            _ => None,
        }
    }

    fn from_json(j: &Json) -> (r: Option<ContactsListResponse>) {
        if !row(j, 2) {
            return None;
        }
        match (
            read_given_rows(field(j, "Contacts", 0)),
            read_i32(field(j, "Total", 1)),
        ) {
            (Some(contacts), Some(total)) => Some(
                ContactsListResponse {
                    Contacts: contacts,
                    Total: total,
                },
            ),
            _ => None,
        }
    }
}

/// What a [`CreateContactResult`] holds.
#[verifier::ext_equal]
pub struct CreatedModel {
    pub code: int,
    pub error: Option<Seq<char>>,
    pub contact: Option<ContactModel>,
}

impl View for CreateContactResult {
    type V = CreatedModel;

    open spec fn view(&self) -> CreatedModel {
        CreatedModel {
            code: self.Code as int,
            error: text::option_text(self.Error),
            contact: option_view(self.Contact),
        }
    }
}

/// Whether an array has at least `n` entries; any other value passes.
pub open spec fn reaches(j: JsonModel, n: int) -> bool {
    j matches JsonModel::Array(a) ==> a.len() >= n
}

fn reaching(j: &Json, n: usize) -> (r: bool)
    ensures
        r == reaches(j@, n as int),
{
    match j {
        Json::Array(a) => {
            proof {
                json::lemma_array_model(*a);
            }
            a.len() >= n
        },
        _ => true,
    }
}

/// An object may leave the error out; an array has to hold it, be it null.
impl Row for CreateContactResult {
    open spec fn of_json(j: JsonModel) -> Option<CreatedModel> {
        match (
            given_i32(models::row_field(j, "Code"@, 0)),
            optional_text(models::row_field(j, "Error"@, 1)),
            optional_row::<Contact>(models::row_field(j, "Contact"@, 2)),
        ) {
            (Some(code), Some(error), Some(contact)) if models::is_row(j, 3) && reaches(j, 2) => Some(
                CreatedModel {
                    code,
                    error,
                    contact,
                },
            ),
            _ => None,
        }
    }

    fn from_json(j: &Json) -> (r: Option<CreateContactResult>) {
        if !row(j, 3) || !reaching(j, 2) {
            return None;
        }
        match (
            read_i32(field(j, "Code", 0)),
            read_optional_text(field(j, "Error", 1)),
            read_optional_row(field(j, "Contact", 2)),
        ) {
            (Some(code), Some(error), Some(contact)) => Some(
                CreateContactResult {
                    Code: code,
                    Error: error,
                    Contact: contact,
                },
            ),
            _ => None,
        }
    }
}

/// What a [`CreateContactResponse`] holds.
#[verifier::ext_equal]
pub struct CreateEntryModel {
    pub index: int,
    pub response: CreatedModel,
}

impl View for CreateContactResponse {
    type V = CreateEntryModel;

    open spec fn view(&self) -> CreateEntryModel {
        CreateEntryModel {
            index: self.Index as int,
            response: self.Response@,
        }
    }
}

impl Row for CreateContactResponse {
    open spec fn of_json(j: JsonModel) -> Option<CreateEntryModel> {
        match (
            given_i32(models::row_field(j, "Index"@, 0)),
            given_row::<CreateContactResult>(models::row_field(j, "Response"@, 1)),
        ) {
            (Some(index), Some(response)) if models::is_row(j, 2) => Some(
                CreateEntryModel {
                    index,
                    response,
                },
            ),
            _ => None,
        }
    }

    fn from_json(j: &Json) -> (r: Option<CreateContactResponse>) {
        if !row(j, 2) {
            return None;
        }
        match (
            read_i32(field(j, "Index", 0)),
            read_given_row(field(j, "Response", 1)),
        ) {
            (Some(index), Some(response)) => Some(
                CreateContactResponse {
                    Index: index,
                    Response: response,
                },
            ),
            _ => None,
        }
    }
}

/// What a [`CreateContactsResponse`] holds.
#[verifier::ext_equal]
pub struct CreateAnswerModel {
    pub responses: Seq<CreateEntryModel>,
}

impl View for CreateContactsResponse {
    type V = CreateAnswerModel;

    open spec fn view(&self) -> CreateAnswerModel {
        CreateAnswerModel {
            responses: views(self.Responses@),
        }
    }
}

impl Row for CreateContactsResponse {
    open spec fn of_json(j: JsonModel) -> Option<CreateAnswerModel> {
        match given_rows::<CreateContactResponse>(models::row_field(j, "Responses"@, 0)) {
            Some(responses) if models::is_row(j, 1) => Some(
                CreateAnswerModel {
                    responses,
                },
            ),
            _ => None,
        }
    }

    fn from_json(j: &Json) -> (r: Option<CreateContactsResponse>) {
        if !row(j, 1) {
            return None;
        }
        match read_given_rows(field(j, "Responses", 0)) {
            Some(responses) => Some(
                CreateContactsResponse {
                    Responses: responses,
                },
            ),
            _ => None,
        }
    }
}

// ---------------------------------------------------------------------
// Tolerant lists
// ---------------------------------------------------------------------

/// A list of rows; empty when it cannot be read.
pub open spec fn tolerant_rows<T: Row>(v: Option<JsonModel>) -> Seq<<T as View>::V> {
    match given_rows::<T>(v) {
        Some(l) => l,
        None => seq![],
    }
}

/// A row; none when it is absent or cannot be read.
pub open spec fn tolerant_row<T: Row>(v: Option<JsonModel>) -> Option<<T as View>::V> {
    match v {
        Some(JsonModel::Null) => None,
        _ => given_row::<T>(v),
    }
}

/// The rows of a list; none of them when one cannot be read.
pub fn read_tolerant_rows<T: Row>(v: Option<&Json>) -> (r: Vec<T>)
    ensures
        views(r@) == tolerant_rows::<T>(json::ref_model(v)),
{
    match read_given_rows(v) {
        Some(l) => l,
        None => {
            let none: Vec<T> = Vec::new();
            assert(views(none@) =~= seq![]);
            none
        },
    }
}

pub fn read_tolerant_row<T: Row>(v: Option<&Json>) -> (r: Option<T>)
    ensures
        option_view(r) == tolerant_row::<T>(json::ref_model(v)),
{
    match v {
        Some(Json::Null) => None,
        _ => read_given_row(v),
    }
}

} // verus!
