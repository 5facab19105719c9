//! What the rows of the server say, field by field.
use vstd::prelude::*;

use crate::auth;
use crate::fields;
use crate::json;
use crate::json::JsonModel;
use crate::models;
use crate::models::{
    Address, AddressKey, AddressesResponse, Calendar, CalendarKey, CalendarMember,
    CalendarPassphrase, Contact, ContactCard, ContactEmail, ContactsListResponse,
    CreateContactResponse, CreateContactResult, CreateContactsResponse, KeySalt, KeySaltsResponse,
    MemberPassphrase, User, UserKey, UserResponse,
};
use crate::numbers;
use crate::rows;
use crate::rows::Row;
use crate::text;

verus! {

// ---------------------------------------------------------------------
// Values
// ---------------------------------------------------------------------

/// Where a field of a row stands: under its name in an object, at its place
/// in an array.
pub open spec fn place(j: JsonModel, name: Seq<char>, i: int) -> Option<JsonModel> {
    match j {
        JsonModel::Object(_) => json::get(j, name),
        JsonModel::Array(a) => if i < a.len() {
            Some(a[i])
        } else {
            None
        },
        _ => None,
    }
}

/// A row of at most so many fields.
pub open spec fn is_short(j: JsonModel, n: int) -> bool {
    j is Object || j is Array && j->Array_0.len() <= n
}

/// An integer of 64 bits.
pub open spec fn is_int(v: Option<JsonModel>, n: int) -> bool {
    v matches Some(JsonModel::Number(x)) && x.int == Some(n)
}

pub open spec fn holds_int(v: Option<JsonModel>) -> bool {
    v matches Some(JsonModel::Number(x)) && x.int is Some
}

/// A list of texts.
pub open spec fn are_texts(v: Option<JsonModel>, l: Seq<Seq<char>>) -> bool {
    v matches Some(JsonModel::Array(a)) && a.len() == l.len() && forall|i: int|
        0 <= i < a.len() ==> #[trigger] a[i] == JsonModel::Text(l[i])
}

pub open spec fn holds_texts(v: Option<JsonModel>) -> bool {
    v matches Some(JsonModel::Array(a)) && forall|i: int|
        0 <= i < a.len() ==> #[trigger] a[i] is Text
}

/// A list of rows, each read.
pub open spec fn are_rows<T: Row>(v: Option<JsonModel>, l: Seq<<T as View>::V>) -> bool {
    v matches Some(JsonModel::Array(a)) && a.len() == l.len() && forall|i: int|
        0 <= i < a.len() ==> T::of_json(#[trigger] a[i]) == Some(l[i])
}

pub open spec fn holds_rows<T: Row>(v: Option<JsonModel>) -> bool {
    v matches Some(JsonModel::Array(a)) && forall|i: int|
        0 <= i < a.len() ==> T::of_json(#[trigger] a[i]) is Some
}

/// A list of texts is read with every text in its place, or not at all.
pub proof fn law_texts_are_read(a: Seq<JsonModel>)
    ensures
        fields::all_texts(a) is Some <==> holds_texts(Some(JsonModel::Array(a))),
        fields::all_texts(a) matches Some(l) ==> are_texts(Some(JsonModel::Array(a)), l),
    decreases a.len(),
{
    if a.len() > 0 {
        let init = a.drop_last();
        law_texts_are_read(init);
        let n = a.len() - 1;
        assert forall|i: int| 0 <= i < n implies #[trigger] a[i] == init[i] by {}
        if let Some(l) = fields::all_texts(a) {
            assert forall|i: int| 0 <= i < a.len() implies #[trigger] a[i] == JsonModel::Text(
                l[i],
            ) by {
                if i < n {
                    assert(init[i] == a[i]);
                }
            }
        }
        if holds_texts(Some(JsonModel::Array(a))) {
            assert forall|i: int| 0 <= i < init.len() implies #[trigger] init[i] is Text by {
                assert(a[i] is Text);
            }
            assert(a[n] is Text);
        }
    }
}

/// A list of rows is read with every row in its place, or not at all.
pub proof fn law_rows_are_read<T: Row>(a: Seq<JsonModel>)
    ensures
        rows::rows_of::<T>(a) is Some <==> holds_rows::<T>(Some(JsonModel::Array(a))),
        rows::rows_of::<T>(a) matches Some(l) ==> are_rows::<T>(Some(JsonModel::Array(a)), l),
    decreases a.len(),
{
    if a.len() > 0 {
        let init = a.drop_last();
        law_rows_are_read::<T>(init);
        let n = a.len() - 1;
        if let Some(l) = rows::rows_of::<T>(a) {
            assert forall|i: int| 0 <= i < a.len() implies T::of_json(#[trigger] a[i]) == Some(
                l[i],
            ) by {
                if i < n {
                    assert(init[i] == a[i]);
                }
            }
        }
        if holds_rows::<T>(Some(JsonModel::Array(a))) {
            assert forall|i: int| 0 <= i < init.len() implies T::of_json(
                #[trigger] init[i],
            ) is Some by {
                assert(T::of_json(a[i]) is Some);
            }
            assert(T::of_json(a[n]) is Some);
        }
    }
}

proof fn lemma_texts(v: Option<JsonModel>)
    ensures
        v matches Some(JsonModel::Array(a)) ==> (fields::all_texts(a) is Some <==> holds_texts(v))
            && (fields::all_texts(a) matches Some(l) ==> are_texts(v, l)),
{
    if let Some(JsonModel::Array(a)) = v {
        law_texts_are_read(a);
    }
}

proof fn lemma_rows<T: Row>(v: Option<JsonModel>)
    ensures
        v matches Some(JsonModel::Array(a)) ==> (rows::rows_of::<T>(a) is Some <==> holds_rows::<T>(
            v,
        )) && (rows::rows_of::<T>(a) matches Some(l) ==> are_rows::<T>(v, l)),
{
    if let Some(JsonModel::Array(a)) = v {
        law_rows_are_read::<T>(a);
    }
}

// ---------------------------------------------------------------------
// Rows
// ---------------------------------------------------------------------

/// A member passphrase: each field is the one of its name, and a row is refused only
/// where a field is of another kind.
pub proof fn law_member_passphrase_is_read(j: JsonModel)
    ensures
        MemberPassphrase::of_json(j) is Some <==> {
            &&& is_short(j, 3)
            &&& place(j, "MemberID"@, 0) is None || place(j, "MemberID"@, 0)->Some_0 is Text
            &&& place(j, "Passphrase"@, 1) is None || place(j, "Passphrase"@, 1)->Some_0 is Text
            &&& place(j, "Signature"@, 2) is None || place(j, "Signature"@, 2)->Some_0 is Text
        },
        MemberPassphrase::of_json(j) is Some ==> {
            let x = MemberPassphrase::of_json(j)->Some_0;
            &&& place(j, "MemberID"@, 0) matches Some(JsonModel::Text(s)) ==> x.member_id == s
            &&& place(j, "MemberID"@, 0) is None ==> x.member_id.len() == 0
            &&& place(j, "Passphrase"@, 1) matches Some(JsonModel::Text(s)) ==> x.passphrase == s
            &&& place(j, "Passphrase"@, 1) is None ==> x.passphrase.len() == 0
            &&& place(j, "Signature"@, 2) matches Some(JsonModel::Text(s)) ==> x.signature == s
            &&& place(j, "Signature"@, 2) is None ==> x.signature.len() == 0
        },
{
}

/// A calendar passphrase: each field is the one of its name, and a row is refused only
/// where a field is of another kind.
pub proof fn law_calendar_passphrase_is_read(j: JsonModel)
    ensures
        CalendarPassphrase::of_json(j) is Some <==> {
            &&& is_short(j, 3)
            &&& place(j, "ID"@, 0) is None || place(j, "ID"@, 0)->Some_0 is Text
            &&& place(j, "Flags"@, 1) is None || holds_int(place(j, "Flags"@, 1))
            &&& place(j, "MemberPassphrases"@, 2) is None
                || holds_rows::<MemberPassphrase>(place(j, "MemberPassphrases"@, 2))
        },
        CalendarPassphrase::of_json(j) is Some ==> {
            let x = CalendarPassphrase::of_json(j)->Some_0;
            &&& place(j, "ID"@, 0) matches Some(JsonModel::Text(s)) ==> x.id == s
            &&& place(j, "ID"@, 0) is None ==> x.id.len() == 0
            &&& place(j, "Flags"@, 1) is Some ==> is_int(place(j, "Flags"@, 1), x.flags)
            &&& place(j, "Flags"@, 1) is None ==> x.flags == 0
            &&& place(j, "MemberPassphrases"@, 2) is Some
                ==> are_rows::<MemberPassphrase>(place(j, "MemberPassphrases"@, 2), x.member_passphrases)
            &&& place(j, "MemberPassphrases"@, 2) is None ==> x.member_passphrases.len() == 0
        },
{
    lemma_rows::<MemberPassphrase>(place(j, "MemberPassphrases"@, 2));
}

/// A calendar key: each field is the one of its name, and a row is refused only
/// where a field is of another kind.
pub proof fn law_calendar_key_is_read(j: JsonModel)
    ensures
        CalendarKey::of_json(j) is Some <==> {
            &&& is_short(j, 5)
            &&& place(j, "ID"@, 0) is None || place(j, "ID"@, 0)->Some_0 is Text
            &&& place(j, "CalendarID"@, 1) is None || place(j, "CalendarID"@, 1)->Some_0 is Text
            &&& place(j, "PassphraseID"@, 2) is None || place(j, "PassphraseID"@, 2)->Some_0 is Text
            &&& place(j, "PrivateKey"@, 3) is None || place(j, "PrivateKey"@, 3)->Some_0 is Text
            &&& place(j, "Flags"@, 4) is None || holds_int(place(j, "Flags"@, 4))
        },
        CalendarKey::of_json(j) is Some ==> {
            let x = CalendarKey::of_json(j)->Some_0;
            &&& place(j, "ID"@, 0) matches Some(JsonModel::Text(s)) ==> x.id == s
            &&& place(j, "ID"@, 0) is None ==> x.id.len() == 0
            &&& place(j, "CalendarID"@, 1) matches Some(JsonModel::Text(s)) ==> x.calendar_id == s
            &&& place(j, "CalendarID"@, 1) is None ==> x.calendar_id.len() == 0
            &&& place(j, "PassphraseID"@, 2) matches Some(JsonModel::Text(s))
                ==> x.passphrase_id == s
            &&& place(j, "PassphraseID"@, 2) is None ==> x.passphrase_id.len() == 0
            &&& place(j, "PrivateKey"@, 3) matches Some(JsonModel::Text(s)) ==> x.private_key == s
            &&& place(j, "PrivateKey"@, 3) is None ==> x.private_key.len() == 0
            &&& place(j, "Flags"@, 4) is Some ==> is_int(place(j, "Flags"@, 4), x.flags)
            &&& place(j, "Flags"@, 4) is None ==> x.flags == 0
        },
{
}

/// A calendar member: each field is the one of its name, and a row is refused only
/// where a field is of another kind.
pub proof fn law_calendar_member_is_read(j: JsonModel)
    ensures
        CalendarMember::of_json(j) is Some <==> {
            &&& is_short(j, 9)
            &&& place(j, "ID"@, 0) is None || place(j, "ID"@, 0)->Some_0 is Text
            &&& place(j, "CalendarID"@, 1) is None || place(j, "CalendarID"@, 1)->Some_0 is Text
            &&& place(j, "AddressID"@, 2) is None || place(j, "AddressID"@, 2)->Some_0 is Text
            &&& place(j, "Email"@, 3) is None || place(j, "Email"@, 3)->Some_0 is Text
            &&& place(j, "Name"@, 4) is None || place(j, "Name"@, 4)->Some_0 is Text
            &&& place(j, "Description"@, 5) is None || place(j, "Description"@, 5)->Some_0 is Text
            &&& place(j, "Color"@, 6) is None || place(j, "Color"@, 6)->Some_0 is Text
            &&& place(j, "Permissions"@, 7) is None || holds_int(place(j, "Permissions"@, 7))
            &&& place(j, "Flags"@, 8) is None || holds_int(place(j, "Flags"@, 8))
        },
        CalendarMember::of_json(j) is Some ==> {
            let x = CalendarMember::of_json(j)->Some_0;
            &&& place(j, "ID"@, 0) matches Some(JsonModel::Text(s)) ==> x.id == s
            &&& place(j, "ID"@, 0) is None ==> x.id.len() == 0
            &&& place(j, "CalendarID"@, 1) matches Some(JsonModel::Text(s)) ==> x.calendar_id == s
            &&& place(j, "CalendarID"@, 1) is None ==> x.calendar_id.len() == 0
            &&& place(j, "AddressID"@, 2) matches Some(JsonModel::Text(s)) ==> x.address_id == s
            &&& place(j, "AddressID"@, 2) is None ==> x.address_id.len() == 0
            &&& place(j, "Email"@, 3) matches Some(JsonModel::Text(s)) ==> x.email == s
            &&& place(j, "Email"@, 3) is None ==> x.email.len() == 0
            &&& place(j, "Name"@, 4) matches Some(JsonModel::Text(s)) ==> x.name == s
            &&& place(j, "Name"@, 4) is None ==> x.name.len() == 0
            &&& place(j, "Description"@, 5) matches Some(JsonModel::Text(s)) ==> x.description == s
            &&& place(j, "Description"@, 5) is None ==> x.description.len() == 0
            &&& place(j, "Color"@, 6) matches Some(JsonModel::Text(s)) ==> x.color == s
            &&& place(j, "Color"@, 6) is None ==> x.color.len() == 0
            &&& place(j, "Permissions"@, 7) is Some
                ==> is_int(place(j, "Permissions"@, 7), x.permissions)
            &&& place(j, "Permissions"@, 7) is None ==> x.permissions == 0
            &&& place(j, "Flags"@, 8) is Some ==> is_int(place(j, "Flags"@, 8), x.flags)
            &&& place(j, "Flags"@, 8) is None ==> x.flags == 0
        },
{
}

/// A contact email: each field is the one of its name, and a row is refused only
/// where a field is of another kind.
pub proof fn law_contact_email_is_read(j: JsonModel)
    ensures
        ContactEmail::of_json(j) is Some <==> {
            &&& is_short(j, 6)
            &&& place(j, "ID"@, 0) is None || place(j, "ID"@, 0)->Some_0 is Text
            &&& place(j, "Name"@, 1) is None || place(j, "Name"@, 1)->Some_0 is Text
            &&& place(j, "Email"@, 2) is None || place(j, "Email"@, 2)->Some_0 is Text
            &&& place(j, "Type"@, 3) is None || holds_texts(place(j, "Type"@, 3))
            &&& place(j, "ContactID"@, 4) is None || place(j, "ContactID"@, 4)->Some_0 is Text
            &&& place(j, "LabelIDs"@, 5) is None || holds_texts(place(j, "LabelIDs"@, 5))
        },
        ContactEmail::of_json(j) is Some ==> {
            let x = ContactEmail::of_json(j)->Some_0;
            &&& place(j, "ID"@, 0) matches Some(JsonModel::Text(s)) ==> x.id == s
            &&& place(j, "ID"@, 0) is None ==> x.id.len() == 0
            &&& place(j, "Name"@, 1) matches Some(JsonModel::Text(s)) ==> x.name == s
            &&& place(j, "Name"@, 1) is None ==> x.name.len() == 0
            &&& place(j, "Email"@, 2) matches Some(JsonModel::Text(s)) ==> x.email == s
            &&& place(j, "Email"@, 2) is None ==> x.email.len() == 0
            &&& place(j, "Type"@, 3) is Some ==> are_texts(place(j, "Type"@, 3), x.kind)
            &&& place(j, "Type"@, 3) is None ==> x.kind.len() == 0
            &&& place(j, "ContactID"@, 4) matches Some(JsonModel::Text(s)) ==> x.contact_id == s
            &&& place(j, "ContactID"@, 4) is None ==> x.contact_id.len() == 0
            &&& place(j, "LabelIDs"@, 5) is Some
                ==> are_texts(place(j, "LabelIDs"@, 5), x.label_ids)
            &&& place(j, "LabelIDs"@, 5) is None ==> x.label_ids.len() == 0
        },
{
    lemma_texts(place(j, "Type"@, 3));
    lemma_texts(place(j, "LabelIDs"@, 5));
}

/// A contact card: each field is the one of its name, and a row is refused only
/// where a field is of another kind.
pub proof fn law_contact_card_is_read(j: JsonModel)
    ensures
        ContactCard::of_json(j) is Some <==> {
            &&& is_short(j, 3)
            &&& place(j, "Type"@, 0) is Some && models::card_type(place(j, "Type"@, 0)->Some_0) is Some
            &&& place(j, "Data"@, 1) is Some && place(j, "Data"@, 1)->Some_0 is Text
            &&& place(j, "Signature"@, 2) is None || place(j, "Signature"@, 2)->Some_0 is Text
        },
        ContactCard::of_json(j) is Some ==> {
            let x = ContactCard::of_json(j)->Some_0;
            &&& models::card_type(place(j, "Type"@, 0)->Some_0) == Some(x.kind)
            &&& place(j, "Data"@, 1) == Some(JsonModel::Text(x.data))
            &&& place(j, "Signature"@, 2) matches Some(JsonModel::Text(s)) ==> x.signature == s
            &&& place(j, "Signature"@, 2) is None ==> x.signature.len() == 0
        },
{
}

/// A contact: each field is the one of its name, and a row is refused only
/// where a field is of another kind.
pub proof fn law_contact_is_read(j: JsonModel)
    ensures
        Contact::of_json(j) is Some <==> {
            &&& is_short(j, 9)
            &&& place(j, "ID"@, 0) is Some && place(j, "ID"@, 0)->Some_0 is Text
            &&& place(j, "Name"@, 1) is None || place(j, "Name"@, 1)->Some_0 is Text
            &&& place(j, "UID"@, 2) is None || place(j, "UID"@, 2)->Some_0 is Text
            &&& place(j, "Size"@, 3) is None || holds_int(place(j, "Size"@, 3))
            &&& place(j, "CreateTime"@, 4) is None || holds_int(place(j, "CreateTime"@, 4))
            &&& place(j, "ModifyTime"@, 5) is None || holds_int(place(j, "ModifyTime"@, 5))
            &&& place(j, "ContactEmails"@, 6) is None
                || holds_rows::<ContactEmail>(place(j, "ContactEmails"@, 6))
            &&& place(j, "LabelIDs"@, 7) is None || holds_texts(place(j, "LabelIDs"@, 7))
            &&& place(j, "Cards"@, 8) is None || place(j, "Cards"@, 8)->Some_0 is Null
                || holds_rows::<ContactCard>(place(j, "Cards"@, 8))
        },
        Contact::of_json(j) is Some ==> {
            let x = Contact::of_json(j)->Some_0;
            &&& place(j, "ID"@, 0) == Some(JsonModel::Text(x.id))
            &&& place(j, "Name"@, 1) matches Some(JsonModel::Text(s)) ==> x.name == s
            &&& place(j, "Name"@, 1) is None ==> x.name.len() == 0
            &&& place(j, "UID"@, 2) matches Some(JsonModel::Text(s)) ==> x.uid == s
            &&& place(j, "UID"@, 2) is None ==> x.uid.len() == 0
            &&& place(j, "Size"@, 3) is Some ==> is_int(place(j, "Size"@, 3), x.size)
            &&& place(j, "Size"@, 3) is None ==> x.size == 0
            &&& place(j, "CreateTime"@, 4) is Some
                ==> is_int(place(j, "CreateTime"@, 4), x.create_time)
            &&& place(j, "CreateTime"@, 4) is None ==> x.create_time == 0
            &&& place(j, "ModifyTime"@, 5) is Some
                ==> is_int(place(j, "ModifyTime"@, 5), x.modify_time)
            &&& place(j, "ModifyTime"@, 5) is None ==> x.modify_time == 0
            &&& place(j, "ContactEmails"@, 6) is Some
                ==> are_rows::<ContactEmail>(place(j, "ContactEmails"@, 6), x.contact_emails)
            &&& place(j, "ContactEmails"@, 6) is None ==> x.contact_emails.len() == 0
            &&& place(j, "LabelIDs"@, 7) is Some
                ==> are_texts(place(j, "LabelIDs"@, 7), x.label_ids)
            &&& place(j, "LabelIDs"@, 7) is None ==> x.label_ids.len() == 0
            &&& place(j, "Cards"@, 8) is Some && !(place(j, "Cards"@, 8)->Some_0 is Null)
                ==> x.cards is Some && are_rows::<ContactCard>(place(j, "Cards"@, 8), x.cards->Some_0)
            &&& place(j, "Cards"@, 8) is None || place(j, "Cards"@, 8)->Some_0 is Null
                ==> x.cards is None
        },
{
    lemma_rows::<ContactEmail>(place(j, "ContactEmails"@, 6));
    lemma_texts(place(j, "LabelIDs"@, 7));
    lemma_rows::<ContactCard>(place(j, "Cards"@, 8));
}

/// An user key: each field is the one of its name, and a row is refused only
/// where a field is of another kind.
pub proof fn law_user_key_is_read(j: JsonModel)
    ensures
        UserKey::of_json(j) is Some <==> {
            &&& is_short(j, 7)
            &&& place(j, "ID"@, 0) is None || place(j, "ID"@, 0)->Some_0 is Text
            &&& place(j, "Version"@, 1) is None || holds_int(place(j, "Version"@, 1))
            &&& place(j, "PrivateKey"@, 2) is None || place(j, "PrivateKey"@, 2)->Some_0 is Text
            &&& place(j, "Token"@, 3) is None || place(j, "Token"@, 3)->Some_0 is Text
            &&& place(j, "Signature"@, 4) is None || place(j, "Signature"@, 4)->Some_0 is Text
            &&& place(j, "Primary"@, 5) is None || holds_int(place(j, "Primary"@, 5))
            &&& place(j, "Active"@, 6) is None || holds_int(place(j, "Active"@, 6))
        },
        UserKey::of_json(j) is Some ==> {
            let x = UserKey::of_json(j)->Some_0;
            &&& place(j, "ID"@, 0) matches Some(JsonModel::Text(s)) ==> x.id == s
            &&& place(j, "ID"@, 0) is None ==> x.id.len() == 0
            &&& place(j, "Version"@, 1) is Some ==> is_int(place(j, "Version"@, 1), x.version)
            &&& place(j, "Version"@, 1) is None ==> x.version == 0
            &&& place(j, "PrivateKey"@, 2) matches Some(JsonModel::Text(s)) ==> x.private_key == s
            &&& place(j, "PrivateKey"@, 2) is None ==> x.private_key.len() == 0
            &&& place(j, "Token"@, 3) matches Some(JsonModel::Text(s)) ==> x.token == s
            &&& place(j, "Token"@, 3) is None ==> x.token.len() == 0
            &&& place(j, "Signature"@, 4) matches Some(JsonModel::Text(s)) ==> x.signature == s
            &&& place(j, "Signature"@, 4) is None ==> x.signature.len() == 0
            &&& place(j, "Primary"@, 5) is Some ==> is_int(place(j, "Primary"@, 5), x.primary)
            &&& place(j, "Primary"@, 5) is None ==> x.primary == 0
            &&& place(j, "Active"@, 6) is Some ==> is_int(place(j, "Active"@, 6), x.active)
            &&& place(j, "Active"@, 6) is None ==> x.active == 0
        },
{
}

/// An address key: each field is the one of its name, and a row is refused only
/// where a field is of another kind.
pub proof fn law_address_key_is_read(j: JsonModel)
    ensures
        AddressKey::of_json(j) is Some <==> {
            &&& is_short(j, 7)
            &&& place(j, "ID"@, 0) is None || place(j, "ID"@, 0)->Some_0 is Text
            &&& place(j, "Version"@, 1) is None || holds_int(place(j, "Version"@, 1))
            &&& place(j, "PrivateKey"@, 2) is None || place(j, "PrivateKey"@, 2)->Some_0 is Text
            &&& place(j, "Token"@, 3) is None || place(j, "Token"@, 3)->Some_0 is Text
            &&& place(j, "Signature"@, 4) is None || place(j, "Signature"@, 4)->Some_0 is Text
            &&& place(j, "Primary"@, 5) is None || holds_int(place(j, "Primary"@, 5))
            &&& place(j, "Active"@, 6) is None || holds_int(place(j, "Active"@, 6))
        },
        AddressKey::of_json(j) is Some ==> {
            let x = AddressKey::of_json(j)->Some_0;
            &&& place(j, "ID"@, 0) matches Some(JsonModel::Text(s)) ==> x.id == s
            &&& place(j, "ID"@, 0) is None ==> x.id.len() == 0
            &&& place(j, "Version"@, 1) is Some ==> is_int(place(j, "Version"@, 1), x.version)
            &&& place(j, "Version"@, 1) is None ==> x.version == 0
            &&& place(j, "PrivateKey"@, 2) matches Some(JsonModel::Text(s)) ==> x.private_key == s
            &&& place(j, "PrivateKey"@, 2) is None ==> x.private_key.len() == 0
            &&& place(j, "Token"@, 3) matches Some(JsonModel::Text(s)) ==> x.token == s
            &&& place(j, "Token"@, 3) is None ==> x.token.len() == 0
            &&& place(j, "Signature"@, 4) matches Some(JsonModel::Text(s)) ==> x.signature == s
            &&& place(j, "Signature"@, 4) is None ==> x.signature.len() == 0
            &&& place(j, "Primary"@, 5) is Some ==> is_int(place(j, "Primary"@, 5), x.primary)
            &&& place(j, "Primary"@, 5) is None ==> x.primary == 0
            &&& place(j, "Active"@, 6) is Some ==> is_int(place(j, "Active"@, 6), x.active)
            &&& place(j, "Active"@, 6) is None ==> x.active == 0
        },
{
}

/// An user: each field is the one of its name, and a row is refused only
/// where a field is of another kind.
pub proof fn law_user_is_read(j: JsonModel)
    ensures
        User::of_json(j) is Some <==> {
            &&& is_short(j, 3)
            &&& place(j, "ID"@, 0) is None || place(j, "ID"@, 0)->Some_0 is Text
            &&& place(j, "Name"@, 1) is None || place(j, "Name"@, 1)->Some_0 is Text
            &&& place(j, "Keys"@, 2) is None || holds_rows::<UserKey>(place(j, "Keys"@, 2))
        },
        User::of_json(j) is Some ==> {
            let x = User::of_json(j)->Some_0;
            &&& place(j, "ID"@, 0) matches Some(JsonModel::Text(s)) ==> x.id == s
            &&& place(j, "ID"@, 0) is None ==> x.id.len() == 0
            &&& place(j, "Name"@, 1) matches Some(JsonModel::Text(s)) ==> x.name == s
            &&& place(j, "Name"@, 1) is None ==> x.name.len() == 0
            &&& place(j, "Keys"@, 2) is Some ==> are_rows::<UserKey>(place(j, "Keys"@, 2), x.keys)
            &&& place(j, "Keys"@, 2) is None ==> x.keys.len() == 0
        },
{
    lemma_rows::<UserKey>(place(j, "Keys"@, 2));
}

/// An address: each field is the one of its name, and a row is refused only
/// where a field is of another kind.
pub proof fn law_address_is_read(j: JsonModel)
    ensures
        Address::of_json(j) is Some <==> {
            &&& is_short(j, 3)
            &&& place(j, "ID"@, 0) is None || place(j, "ID"@, 0)->Some_0 is Text
            &&& place(j, "Email"@, 1) is None || place(j, "Email"@, 1)->Some_0 is Text
            &&& place(j, "Keys"@, 2) is None || holds_rows::<AddressKey>(place(j, "Keys"@, 2))
        },
        Address::of_json(j) is Some ==> {
            let x = Address::of_json(j)->Some_0;
            &&& place(j, "ID"@, 0) matches Some(JsonModel::Text(s)) ==> x.id == s
            &&& place(j, "ID"@, 0) is None ==> x.id.len() == 0
            &&& place(j, "Email"@, 1) matches Some(JsonModel::Text(s)) ==> x.email == s
            &&& place(j, "Email"@, 1) is None ==> x.email.len() == 0
            &&& place(j, "Keys"@, 2) is Some
                ==> are_rows::<AddressKey>(place(j, "Keys"@, 2), x.keys)
            &&& place(j, "Keys"@, 2) is None ==> x.keys.len() == 0
        },
{
    lemma_rows::<AddressKey>(place(j, "Keys"@, 2));
}

/// A key salt: each field is the one of its name, and a row is refused only
/// where a field is of another kind.
pub proof fn law_key_salt_is_read(j: JsonModel)
    ensures
        KeySalt::of_json(j) is Some <==> {
            &&& is_short(j, 2)
            &&& place(j, "ID"@, 0) is None || place(j, "ID"@, 0)->Some_0 is Text
            &&& place(j, "KeySalt"@, 1) is None || place(j, "KeySalt"@, 1)->Some_0 is Null
                || place(j, "KeySalt"@, 1)->Some_0 is Text
        },
        KeySalt::of_json(j) is Some ==> {
            let x = KeySalt::of_json(j)->Some_0;
            &&& place(j, "ID"@, 0) matches Some(JsonModel::Text(s)) ==> x.id == s
            &&& place(j, "ID"@, 0) is None ==> x.id.len() == 0
            &&& place(j, "KeySalt"@, 1) matches Some(JsonModel::Text(s)) ==> x.key_salt == Some(s)
            &&& place(j, "KeySalt"@, 1) is None || place(j, "KeySalt"@, 1)->Some_0 is Null
                ==> x.key_salt is None
        },
{
}

/// An user response: each field is the one of its name, and a row is refused only
/// where a field is of another kind.
pub proof fn law_user_response_is_read(j: JsonModel)
    ensures
        UserResponse::of_json(j) is Some <==> {
            &&& is_short(j, 1)
            &&& place(j, "User"@, 0) is Some && User::of_json(place(j, "User"@, 0)->Some_0) is Some
        },
        UserResponse::of_json(j) is Some ==> {
            let x = UserResponse::of_json(j)->Some_0;
            &&& User::of_json(place(j, "User"@, 0)->Some_0) == Some(x.user)
        },
{
}

/// An addresses response: each field is the one of its name, and a row is refused only
/// where a field is of another kind.
pub proof fn law_addresses_response_is_read(j: JsonModel)
    ensures
        AddressesResponse::of_json(j) is Some <==> {
            &&& is_short(j, 1)
            &&& holds_rows::<Address>(place(j, "Addresses"@, 0))
        },
        AddressesResponse::of_json(j) is Some ==> {
            let x = AddressesResponse::of_json(j)->Some_0;
            &&& are_rows::<Address>(place(j, "Addresses"@, 0), x.addresses)
        },
{
    lemma_rows::<Address>(place(j, "Addresses"@, 0));
}

/// A key salts response: each field is the one of its name, and a row is refused only
/// where a field is of another kind.
pub proof fn law_key_salts_response_is_read(j: JsonModel)
    ensures
        KeySaltsResponse::of_json(j) is Some <==> {
            &&& is_short(j, 1)
            &&& holds_rows::<KeySalt>(place(j, "KeySalts"@, 0))
        },
        KeySaltsResponse::of_json(j) is Some ==> {
            let x = KeySaltsResponse::of_json(j)->Some_0;
            &&& are_rows::<KeySalt>(place(j, "KeySalts"@, 0), x.key_salts)
        },
{
    lemma_rows::<KeySalt>(place(j, "KeySalts"@, 0));
}

/// A contacts list response: each field is the one of its name, and a row is refused only
/// where a field is of another kind.
pub proof fn law_contacts_list_response_is_read(j: JsonModel)
    ensures
        ContactsListResponse::of_json(j) is Some <==> {
            &&& is_short(j, 2)
            &&& holds_rows::<Contact>(place(j, "Contacts"@, 0))
            &&& holds_int(place(j, "Total"@, 1)) && i32::MIN <= place(j, "Total"@, 1)->Some_0->Number_0.int->Some_0 <= i32::MAX
        },
        ContactsListResponse::of_json(j) is Some ==> {
            let x = ContactsListResponse::of_json(j)->Some_0;
            &&& are_rows::<Contact>(place(j, "Contacts"@, 0), x.contacts)
            &&& is_int(place(j, "Total"@, 1), x.total)
        },
{
    lemma_rows::<Contact>(place(j, "Contacts"@, 0));
}

/// A create contact result: each field is the one of its name, and a row is refused only
/// where a field is of another kind.
pub proof fn law_create_contact_result_is_read(j: JsonModel)
    ensures
        CreateContactResult::of_json(j) is Some <==> {
            &&& is_short(j, 3)
            &&& holds_int(place(j, "Code"@, 0)) && i32::MIN <= place(j, "Code"@, 0)->Some_0->Number_0.int->Some_0 <= i32::MAX
            &&& place(j, "Error"@, 1) is None || place(j, "Error"@, 1)->Some_0 is Null
                || place(j, "Error"@, 1)->Some_0 is Text
            &&& place(j, "Contact"@, 2) is None || place(j, "Contact"@, 2)->Some_0 is Null
                || Contact::of_json(place(j, "Contact"@, 2)->Some_0) is Some
            &&& j is Object || j->Array_0.len() >= 2
        },
        CreateContactResult::of_json(j) is Some ==> {
            let x = CreateContactResult::of_json(j)->Some_0;
            &&& is_int(place(j, "Code"@, 0), x.code)
            &&& place(j, "Error"@, 1) matches Some(JsonModel::Text(s)) ==> x.error == Some(s)
            &&& place(j, "Error"@, 1) is None || place(j, "Error"@, 1)->Some_0 is Null
                ==> x.error is None
            &&& place(j, "Contact"@, 2) is Some && !(place(j, "Contact"@, 2)->Some_0 is Null)
                ==> x.contact == Contact::of_json(place(j, "Contact"@, 2)->Some_0)
            &&& place(j, "Contact"@, 2) is None || place(j, "Contact"@, 2)->Some_0 is Null
                ==> x.contact is None
        },
{
}

/// A create contact response: each field is the one of its name, and a row is refused only
/// where a field is of another kind.
pub proof fn law_create_contact_response_is_read(j: JsonModel)
    ensures
        CreateContactResponse::of_json(j) is Some <==> {
            &&& is_short(j, 2)
            &&& holds_int(place(j, "Index"@, 0)) && i32::MIN <= place(j, "Index"@, 0)->Some_0->Number_0.int->Some_0 <= i32::MAX
            &&& place(j, "Response"@, 1) is Some && CreateContactResult::of_json(place(j, "Response"@, 1)->Some_0) is Some
        },
        CreateContactResponse::of_json(j) is Some ==> {
            let x = CreateContactResponse::of_json(j)->Some_0;
            &&& is_int(place(j, "Index"@, 0), x.index)
            &&& CreateContactResult::of_json(place(j, "Response"@, 1)->Some_0) == Some(x.response)
        },
{
}

/// A create contacts response: each field is the one of its name, and a row is refused only
/// where a field is of another kind.
pub proof fn law_create_contacts_response_is_read(j: JsonModel)
    ensures
        CreateContactsResponse::of_json(j) is Some <==> {
            &&& is_short(j, 1)
            &&& holds_rows::<CreateContactResponse>(place(j, "Responses"@, 0))
        },
        CreateContactsResponse::of_json(j) is Some ==> {
            let x = CreateContactsResponse::of_json(j)->Some_0;
            &&& are_rows::<CreateContactResponse>(place(j, "Responses"@, 0), x.responses)
        },
{
    lemma_rows::<CreateContactResponse>(place(j, "Responses"@, 0));
}

/// A calendar: each field is the one of its name; only the flag of whether it
/// is shown may be of any kind.
pub proof fn law_calendar_is_read(j: JsonModel)
    ensures
        Calendar::of_json(j) is Some <==> {
            &&& is_short(j, 7)
            &&& place(j, "ID"@, 0) is None || place(j, "ID"@, 0)->Some_0 is Text
            &&& place(j, "Name"@, 1) is None || place(j, "Name"@, 1)->Some_0 is Text
            &&& place(j, "Description"@, 2) is None || place(j, "Description"@, 2)->Some_0 is Text
            &&& place(j, "Color"@, 3) is None || place(j, "Color"@, 3)->Some_0 is Text
            &&& place(j, "Type"@, 5) is None || holds_int(place(j, "Type"@, 5))
            &&& place(j, "Flags"@, 6) is None || holds_int(place(j, "Flags"@, 6))
        },
        Calendar::of_json(j) is Some ==> {
            let x = Calendar::of_json(j)->Some_0;
            &&& place(j, "ID"@, 0) matches Some(JsonModel::Text(s)) ==> x.id == s
            &&& place(j, "Name"@, 1) matches Some(JsonModel::Text(s)) ==> x.name == s
            &&& place(j, "Description"@, 2) matches Some(JsonModel::Text(s)) ==> x.description == s
            &&& place(j, "Color"@, 3) matches Some(JsonModel::Text(s)) ==> x.color == s
            &&& place(j, "Type"@, 5) is Some ==> is_int(place(j, "Type"@, 5), x.kind)
            &&& place(j, "Flags"@, 6) is Some ==> is_int(place(j, "Flags"@, 6), x.flags)
            &&& place(j, "Display"@, 4) matches Some(JsonModel::Bool(b)) ==> x.display == Some(b)
            &&& place(j, "Display"@, 4) is None ==> x.display is None
        },
{
}

/// The type of a contact card: a number of 32 bits, or the digits of one.
pub proof fn law_card_type_is_read(v: JsonModel, n: int)
    requires
        i32::MIN <= n <= i32::MAX,
    ensures
        is_int(Some(v), n) ==> models::card_type(v) == Some(n),
        v == JsonModel::Text(numbers::signed_decimal(n)) ==> models::card_type(v) == Some(n),
        !(v is Number) && !(v is Text) ==> models::card_type(v) is None,
{
    crate::rule_back::lemma_number(n);
    if is_int(Some(v), n) {
        let i = n as i64;
        assert(i32::MIN <= i && i <= i32::MAX ==> (i as i32) as i64 == i) by (bit_vector);
    }
}

// ---------------------------------------------------------------------
// Tolerant values
// ---------------------------------------------------------------------

/// Whether a text is what a value says: a text says itself, and nothing, or
/// null, says the empty text.
pub open spec fn is_told(v: Option<JsonModel>, t: Seq<char>) -> bool {
    &&& v matches Some(JsonModel::Text(s)) ==> t == s
    &&& v is None || v->Some_0 is Null ==> t.len() == 0
}

/// The same, where nothing, or null, says nothing.
pub open spec fn may_be_told(v: Option<JsonModel>, t: Option<Seq<char>>) -> bool {
    &&& v matches Some(JsonModel::Text(s)) ==> t == Some(s)
    &&& v is None || v->Some_0 is Null ==> t is None
}

/// Whether a number is what a value says: an integer, the digits of one, and
/// 1 or 0 for true and false; anything else says 0.
pub open spec fn is_counted(v: Option<JsonModel>, n: int) -> bool {
    &&& v matches Some(JsonModel::Number(x)) ==> x.int matches Some(m) ==> n == m
    &&& v matches Some(JsonModel::Bool(b)) ==> n == if b {
        1int
    } else {
        0
    }
    &&& forall|m: int|
        i64::MIN <= m <= i64::MAX && v == Some(
            JsonModel::Text(#[trigger] numbers::signed_decimal(m)),
        ) ==> n == m
    &&& v is None || v->Some_0 is Null || v->Some_0 is Array || v->Some_0 is Object ==> n == 0
}

/// The same, where what is no number says nothing.
pub open spec fn may_be_counted(v: Option<JsonModel>, n: Option<i64>) -> bool {
    &&& v matches Some(JsonModel::Number(x)) ==> x.int matches Some(m) ==> i64::MIN <= m <= i64::MAX
        ==> n is Some && n->Some_0 == m
    &&& v matches Some(JsonModel::Bool(b)) ==> n == Some(
        if b {
            1i64
        } else {
            0
        },
    )
    &&& v is None || v->Some_0 is Null || v->Some_0 is Array || v->Some_0 is Object ==> n is None
}

proof fn lemma_counted(v: Option<JsonModel>)
    ensures
        is_counted(v, models::int_or_default(v)),
        may_be_counted(v, models::int64(models::int_field(v))),
{
    assert forall|m: int|
        i64::MIN <= m <= i64::MAX && v == Some(
            JsonModel::Text(#[trigger] numbers::signed_decimal(m)),
        ) implies models::int_or_default(v) == m by {
        crate::rule_back::lemma_number(m);
    }
}

/// A row of an event: each field is the one of its name, and no field keeps
/// the row from being read.
pub proof fn law_event_row_is_read(j: JsonModel)
    ensures
        models::event_of_json(j) is Some <==> is_short(j, 26),
        models::event_of_json(j) is Some ==> {
            let x = models::event_of_json(j)->Some_0;
            &&& is_told(place(j, "ID"@, 0), x.id)
            &&& is_told(place(j, "UID"@, 1), x.uid)
            &&& is_told(place(j, "CalendarID"@, 2), x.calendar_id)
            &&& is_told(place(j, "SharedEventID"@, 3), x.shared_event_id)
            &&& is_told(place(j, "StartTimezone"@, 8), x.start_timezone)
            &&& is_told(place(j, "EndTimezone"@, 9), x.end_timezone)
            &&& is_told(place(j, "Author"@, 11), x.author)
            &&& is_told(place(j, "SharedKeyPacket"@, 12), x.shared_key_packet)
            &&& is_told(place(j, "CalendarKeyPacket"@, 13), x.calendar_key_packet)
            &&& is_counted(place(j, "CreateTime"@, 4), x.create_time)
            &&& is_counted(place(j, "LastEditTime"@, 5), x.last_edit_time)
            &&& is_counted(place(j, "StartTime"@, 6), x.start_time)
            &&& is_counted(place(j, "EndTime"@, 7), x.end_time)
            &&& may_be_told(place(j, "RRule"@, 18), x.rrule)
            &&& may_be_told(place(j, "Color"@, 21), x.color)
            &&& may_be_counted(place(j, "RecurrenceID"@, 20), x.recurrence_id)
            &&& may_be_counted(place(j, "IsOrganizer"@, 23), x.is_organizer)
            &&& may_be_counted(place(j, "Permissions"@, 24), x.permissions)
            &&& x.shared_events == models::parts_field(place(j, "SharedEvents"@, 14))
            &&& x.calendar_events == models::parts_field(place(j, "CalendarEvents"@, 15))
            &&& x.attendees_events == models::parts_field(place(j, "AttendeesEvents"@, 16))
            &&& x.personal_events == models::parts_field(place(j, "PersonalEvents"@, 17))
            &&& x.attendees == models::tokens_field(place(j, "Attendees"@, 25))
            &&& x.full_day == models::bool_field(place(j, "FullDay"@, 10))
            &&& x.exdates == models::ints_field(place(j, "Exdates"@, 19))
            &&& place(j, "Notifications"@, 22) matches Some(JsonModel::Array(a))
                ==> x.notifications == Some(a)
            &&& !(place(j, "Notifications"@, 22) is Some && place(
                j,
                "Notifications"@,
                22,
            )->Some_0 is Array) ==> x.notifications is None
        },
{
    lemma_counted(place(j, "CreateTime"@, 4));
    lemma_counted(place(j, "LastEditTime"@, 5));
    lemma_counted(place(j, "StartTime"@, 6));
    lemma_counted(place(j, "EndTime"@, 7));
    lemma_counted(place(j, "RecurrenceID"@, 20));
    lemma_counted(place(j, "IsOrganizer"@, 23));
    lemma_counted(place(j, "Permissions"@, 24));
}

/// A truth value: true and false, whether a number is other than 0, and
/// whether a text is one of the words for yes, in any case. Nothing and null
/// say nothing.
pub proof fn law_truth_is_read(v: Option<JsonModel>)
    ensures
        v matches Some(JsonModel::Bool(b)) ==> models::bool_field(v) == Some(b),
        forall|n: int| is_int(v, n) ==> models::bool_field(v) == Some(n != 0),
        v matches Some(JsonModel::Text(s)) ==> models::bool_field(v) == Some(
            text::lowercase(s) == "true"@ || text::lowercase(s) == "yes"@ || text::lowercase(s)
                == "1"@,
        ),
        v is None || v->Some_0 is Null ==> models::bool_field(v) is None,
{
}

/// One more card, or attendee, of a list: a row goes behind those that are
/// there, with the fields of its name, and what is no row is left out.
pub proof fn law_card_rows_go_behind(a: Seq<JsonModel>, j: JsonModel)
    ensures
        ({
            let was = models::parts_of_jsons(a);
            let is = models::parts_of_jsons(a.push(j));
            &&& is_short(j, 5) ==> is.len() == was.len() + 1 && is.drop_last() == was && {
                let x = is.last();
                &&& is_told(place(j, "MemberID"@, 0), x.member_id)
                &&& is_counted(place(j, "Type"@, 1), x.kind)
                &&& is_told(place(j, "Data"@, 2), x.data)
                &&& is_told(place(j, "Signature"@, 3), x.signature)
                &&& is_told(place(j, "Author"@, 4), x.author)
            }
            &&& !is_short(j, 5) ==> is == was
        }),
        ({
            let was = models::tokens_of_jsons(a);
            let is = models::tokens_of_jsons(a.push(j));
            &&& is_short(j, 2) ==> is.len() == was.len() + 1 && is.drop_last() == was && {
                let x = is.last();
                &&& is_told(place(j, "Token"@, 0), x.token)
                &&& is_counted(place(j, "Status"@, 1), x.status)
            }
            &&& !is_short(j, 2) ==> is == was
        }),
        ({
            let was = models::ints_of(a);
            let is = models::ints_of(a.push(j));
            &&& forall|n: i64| is_int(Some(j), n as int) ==> is == #[trigger] was.push(n)
            &&& !holds_int(Some(j)) ==> is == was
        }),
{
    assert(a.push(j).drop_last() =~= a);
    lemma_counted(place(j, "Type"@, 1));
    lemma_counted(place(j, "Status"@, 1));
    let parts = models::parts_of_jsons(a.push(j));
    if is_short(j, 5) {
        assert(parts.drop_last() =~= models::parts_of_jsons(a));
    }
    let tokens = models::tokens_of_jsons(a.push(j));
    if is_short(j, 2) {
        assert(tokens.drop_last() =~= models::tokens_of_jsons(a));
    }
}

/// The settings of a calendar: each field is the one of its name, and a
/// field of another kind makes all of them count as not set.
pub proof fn law_settings_are_read(j: JsonModel)
    ensures
        ({
            let x = models::settings_of_json(j);
            let duration = place(j, "DefaultEventDuration"@, 0);
            let part = place(j, "DefaultPartDayNotifications"@, 1);
            let full = place(j, "DefaultFullDayNotifications"@, 2);
            let busy = place(j, "MakesUserBusy"@, 3);
            let fits = is_short(j, 4) && (duration is None || duration->Some_0 is Null || holds_int(
                duration,
            )) && (part is None || part->Some_0 is Null || part->Some_0 is Array) && (full is None
                || full->Some_0 is Null || full->Some_0 is Array);
            &&& fits && holds_int(duration) ==> x.duration is Some && is_int(
                duration,
                x.duration->Some_0,
            )
            &&& fits ==> (part matches Some(JsonModel::Array(a)) ==> x.part_day == Some(a))
            &&& fits ==> (full matches Some(JsonModel::Array(a)) ==> x.full_day == Some(a))
            &&& fits ==> (busy matches Some(JsonModel::Bool(b)) ==> x.makes_busy == Some(b))
            &&& !fits ==> x.duration is None && x.part_day is None && x.full_day is None
                && x.makes_busy is None
        }),
{
}

// ---------------------------------------------------------------------
// Answers to a login
// ---------------------------------------------------------------------

/// A login is read with its tokens, its session and its proof where all of
/// them are there and nothing else is said.
pub proof fn law_login_is_read(
    j: JsonModel,
    access: Seq<char>,
    refresh: Seq<char>,
    uid: Seq<char>,
    expires: int,
    proof_text: Seq<char>,
)
    requires
        j is Object,
        json::get(j, "AccessToken"@) == Some(JsonModel::Text(access)),
        json::get(j, "RefreshToken"@) == Some(JsonModel::Text(refresh)),
        json::get(j, "UID"@) == Some(JsonModel::Text(uid)),
        is_int(json::get(j, "ExpiresIn"@), expires),
        json::get(j, "ServerProof"@) == Some(JsonModel::Text(proof_text)),
        json::get(j, "TwoFactor"@) is None,
        json::get(j, "PasswordMode"@) is None,
        json::get(j, "Scopes"@) is None || holds_texts(json::get(j, "Scopes"@)),
    ensures
        json::get(j, "2FA"@) is None ==> (auth::login_of(j) matches Ok(x) && x.two_fa is None),
        forall|enabled: int, totp: int|
            #![trigger is_second_factor(json::get(j, "2FA"@), enabled, totp)]
            is_second_factor(json::get(j, "2FA"@), enabled, totp) ==> (auth::login_of(
                j,
            ) matches Ok(x) && x.two_fa == Some((enabled, totp))),
        auth::login_of(j) matches Ok(x) ==> {
            &&& x.access_token == access
            &&& x.refresh_token == refresh
            &&& x.uid == uid
            &&& x.expires_in == expires
            &&& x.server_proof == proof_text
            &&& x.two_factor is None
            &&& json::get(j, "Scopes"@) is Some ==> x.scopes is Some && are_texts(
                json::get(j, "Scopes"@),
                x.scopes->Some_0,
            )
        },
{
    lemma_texts(json::get(j, "Scopes"@));
}

/// The field of a login for the second factor: the kinds that are switched on
/// and whether there is a device for codes.
pub open spec fn is_second_factor(v: Option<JsonModel>, enabled: int, totp: int) -> bool {
    &&& v is Some && v->Some_0 is Object
    &&& is_int(json::get(v->Some_0, "Enabled"@), enabled)
    &&& is_int(json::get(v->Some_0, "TOTP"@), totp)
}

/// A login without one of its tokens, its session or its proof is refused.
pub proof fn law_short_login_is_refused(j: JsonModel)
    requires
        j is Object,
        json::get(j, "AccessToken"@) is None || json::get(j, "RefreshToken"@) is None || json::get(
            j,
            "UID"@,
        ) is None || json::get(j, "ExpiresIn"@) is None || json::get(j, "ServerProof"@) is None,
    ensures
        auth::login_of(j) is Err,
{
}

/// What comes before a login is read with modulus, ephemeral value, version,
/// salt and session, each under its name.
pub proof fn law_login_info_is_read(
    j: JsonModel,
    modulus: Seq<char>,
    ephemeral: Seq<char>,
    version: int,
    salt: Seq<char>,
    session: Seq<char>,
)
    requires
        j is Object,
        json::get(j, "Modulus"@) == Some(JsonModel::Text(modulus)),
        json::get(j, "ServerEphemeral"@) == Some(JsonModel::Text(ephemeral)),
        is_int(json::get(j, "Version"@), version),
        json::get(j, "Salt"@) == Some(JsonModel::Text(salt)),
        json::get(j, "SRPSession"@) == Some(JsonModel::Text(session)),
        json::get(j, "TwoFactor"@) is None,
    ensures
        auth::info_of(j) == Ok::<
            (Seq<char>, Seq<char>, int, Seq<char>, Seq<char>),
            Seq<char>,
        >((modulus, ephemeral, version, salt, session)),
{
}

/// A refresh is read with its new tokens.
pub proof fn law_refresh_is_read(
    j: JsonModel,
    access: Seq<char>,
    refresh: Seq<char>,
    uid: Seq<char>,
    expires: int,
)
    requires
        j is Object,
        json::get(j, "AccessToken"@) == Some(JsonModel::Text(access)),
        json::get(j, "RefreshToken"@) == Some(JsonModel::Text(refresh)),
        json::get(j, "UID"@) == Some(JsonModel::Text(uid)),
        is_int(json::get(j, "ExpiresIn"@), expires),
        json::get(j, "Scope"@) is None || json::get(j, "Scope"@)->Some_0 is Text,
        json::get(j, "Scopes"@) is None || holds_texts(json::get(j, "Scopes"@)),
    ensures
        auth::refresh_of(j) matches Ok(x) && {
            &&& x.access_token == access
            &&& x.refresh_token == refresh
            &&& x.uid == uid
            &&& x.expires_in == expires
            &&& json::get(j, "Scope"@) is None ==> x.scope is None
            &&& json::get(j, "Scope"@) matches Some(JsonModel::Text(s)) ==> x.scope == Some(s)
            &&& json::get(j, "Scopes"@) is None ==> x.scopes is None
            &&& json::get(j, "Scopes"@) is Some ==> x.scopes is Some && are_texts(
                json::get(j, "Scopes"@),
                x.scopes->Some_0,
            )
        },
{
    lemma_texts(json::get(j, "Scopes"@));
}

/// The answer to a code is read with its own code, 0 where there is none, and
/// its error.
pub proof fn law_code_answer_is_read(j: JsonModel, code: int)
    requires
        j is Object,
        is_int(json::get(j, "Code"@), code) || json::get(j, "Code"@) is None && code == 0,
        json::get(j, "Scope"@) is None,
        json::get(j, "Scopes"@) is None,
        json::get(j, "Error"@) is None || json::get(j, "Error"@)->Some_0 is Text,
    ensures
        auth::two_fa_answer_of(j) matches Ok(x) && x.0 == code && (json::get(
            j,
            "Error"@,
        ) matches Some(JsonModel::Text(s)) ==> x.3 == Some(s)) && (json::get(j, "Error"@) is None
            ==> x.3 is None),
{
}

/// A code of a device is asked for where either field of a login switches it
/// on; a security key is asked for where one does and no code would do; where
/// neither is switched on nothing more is asked.
pub proof fn law_second_factor(
    two_fa: Option<auth::TwoFAField>,
    two_factor: Option<auth::TwoFactorInfo>,
)
    ensures
        two_fa is Some && (two_fa->Some_0.Enabled == 1 || two_fa->Some_0.Enabled == 3
            || two_fa->Some_0.TOTP == 1) ==> auth::totp_required(two_fa, two_factor),
        two_factor is Some && (two_factor->Some_0.Enabled == Some(1i64)
            || two_factor->Some_0.Enabled == Some(3i64) || two_factor->Some_0.TOTP == Some(1i64))
            ==> auth::totp_required(two_fa, two_factor),
        two_fa is Some && two_fa->Some_0.Enabled == 2 && two_fa->Some_0.TOTP == 0 && two_factor
            is None ==> auth::fido2_only(two_fa, two_factor),
        two_fa is None && two_factor is Some && two_factor->Some_0.Enabled == Some(2i64)
            && two_factor->Some_0.TOTP is None ==> auth::fido2_only(two_fa, two_factor),
        (two_fa is None || two_fa->Some_0.Enabled == 0 && two_fa->Some_0.TOTP == 0) && (two_factor
            is None || two_factor->Some_0.Enabled is None && two_factor->Some_0.TOTP is None) ==> {
            &&& !auth::totp_required(two_fa, two_factor)
            &&& !auth::fido2_only(two_fa, two_factor)
        },
        !(auth::totp_required(two_fa, two_factor) && auth::fido2_only(two_fa, two_factor)),
{
}

/// An answer asks for a human where it has the code for that, at least one
/// method and a token; the challenge has just these, and the page that the
/// answer names.
pub proof fn law_challenge_is_read(
    j: JsonModel,
    methods: Seq<Seq<char>>,
    token: Seq<char>,
    url: Seq<char>,
)
    requires
        j is Object,
        is_int(json::get(j, "Code"@), 9001) || json::get(j, "Code"@) == Some(
            JsonModel::Text(numbers::signed_decimal(9001)),
        ),
        json::get(j, "Details"@) is Some,
        are_texts(
            json::get(json::get(j, "Details"@)->Some_0, "HumanVerificationMethods"@),
            methods,
        ),
        json::get(json::get(j, "Details"@)->Some_0, "HumanVerificationToken"@) == Some(
            JsonModel::Text(token),
        ),
        methods.len() > 0,
        token.len() > 0,
    ensures
        auth::challenge_of(j) matches Some(c) && c.methods == methods && c.token == token && {
            let named = json::get(json::get(j, "Details"@)->Some_0, "WebUrl"@);
            &&& named == Some(JsonModel::Text(url)) && url.len() > 0 ==> c.web_url == url
            &&& named is None ==> c.web_url == "https://verify.proton.me/?methods="@ + text::join(
                methods,
                ","@,
            ) + "&token="@ + token
        },
{
    crate::rule_back::lemma_number(9001);
    let a = json::get(
        json::get(j, "Details"@)->Some_0,
        "HumanVerificationMethods"@,
    )->Some_0->Array_0;
    lemma_strings(a, methods);
}

proof fn lemma_strings(a: Seq<JsonModel>, l: Seq<Seq<char>>)
    requires
        are_texts(Some(JsonModel::Array(a)), l),
    ensures
        auth::strings_in(a) == l,
    decreases a.len(),
{
    if a.len() > 0 {
        let (b, m) = (a.drop_last(), l.drop_last());
        assert forall|i: int| 0 <= i < b.len() implies #[trigger] b[i] == JsonModel::Text(m[i]) by {
            assert(a[i] == JsonModel::Text(l[i]));
        }
        lemma_strings(b, m);
        assert(a[a.len() - 1] == JsonModel::Text(l[l.len() - 1]));
        assert(m.push(l[l.len() - 1]) =~= l);
    } else {
        assert(l =~= seq![]);
    }
}

/// An answer of any other code, and one without a method or a token, is no
/// challenge.
pub proof fn law_other_answers_are_no_challenge(j: JsonModel)
    requires
        ({
            let details = json::get(j, "Details"@)->Some_0;
            ||| json::get(j, "Code"@) is None
            ||| json::get(j, "Details"@) is None
            ||| holds_int(json::get(j, "Code"@)) && !is_int(json::get(j, "Code"@), 9001)
            ||| json::get(details, "HumanVerificationToken"@) is None
            ||| json::get(details, "HumanVerificationToken"@) == Some(JsonModel::Text(seq![]))
            ||| json::get(details, "HumanVerificationMethods"@) is None
            ||| json::get(details, "HumanVerificationMethods"@) == Some(JsonModel::Array(seq![]))
        }),
    ensures
        auth::challenge_of(j) is None,
{
}

/// A field that is missing, or of another kind, is named in the error.
pub proof fn law_field_errors(j: JsonModel, name: Seq<char>)
    requires
        j is Object,
    ensures
        json::get(j, name) is None ==> {
            &&& fields::text_of(j, name, 0) == Err::<Seq<char>, Seq<char>>(
                "missing field `"@ + name + "`"@,
            )
            &&& fields::int_of(j, name, 0) == Err::<int, Seq<char>>(
                "missing field `"@ + name + "`"@,
            )
        },
        json::get(j, name) is Some && !(json::get(j, name)->Some_0 is Text) ==> fields::text_of(
            j,
            name,
            0,
        ) == Err::<Seq<char>, Seq<char>>("invalid field `"@ + name + "`"@),
        json::get(j, name) is Some && !holds_int(json::get(j, name)) ==> fields::int_of(j, name, 0)
            == Err::<int, Seq<char>>("invalid field `"@ + name + "`"@),
{
}

/// A refused request is answered with the challenge where the body holds one,
/// and with what was asked, the status and the body where it holds none.
pub proof fn law_refusals(
    e: crate::error::ProtonError,
    what: Seq<char>,
    status: Seq<char>,
    body: Seq<char>,
    j: JsonModel,
)
    requires
        auth::refused(e, what, status, body),
    ensures
        json::json_of_text(body) == Ok::<JsonModel, Seq<char>>(j) && auth::challenge_of(j) is Some
            ==> (e matches crate::error::ProtonError::Captcha(c) && c@ == auth::challenge_of(
            j,
        )->Some_0),
        json::json_of_text(body) == Ok::<JsonModel, Seq<char>>(j) && auth::challenge_of(j) is None
            ==> (e matches crate::error::ProtonError::Auth(m) && m@ == what + status + ": "@
            + body),
        json::json_of_text(body) is Err ==> (e matches crate::error::ProtonError::Auth(m) && m@
            == what + status + ": "@ + body),
{
}

} // verus!
