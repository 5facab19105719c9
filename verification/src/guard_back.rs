//! What the guard of a rebuilt contact lets pass, and what stops an update.
use vstd::prelude::*;

use crate::contact_seal;
use crate::error::ProtonError;
use crate::escape;
use crate::keygroups;
use crate::lines;
use crate::models::ContactCard;
use crate::ordered;
use crate::text;
use crate::vcard;
use crate::vcard::{Contact, Entry, Line};
use crate::vcard_back;

verus! {

// ---------------------------------------------------------------------
// What is read and written again
// ---------------------------------------------------------------------

/// A name that stands for the card itself: a rebuilt card has its own.
pub open spec fn is_structural(name: Seq<char>) -> bool {
    let n = text::uppercase(name);
    n == "BEGIN"@ || n == "END"@ || n == "VERSION"@ || n == "PRODID"@ || n == "UID"@
}

/// A property that the reader of contacts passes over, whatever it holds.
pub open spec fn is_ignored(name: Seq<char>) -> bool {
    forall|c: Contact, line: Line|
        line.name == name ==> #[trigger] vcard::contact_step(c, line) == c
}

/// The contact of one line without parameters.
pub open spec fn read_alone(name: Seq<char>, value: Seq<char>) -> Contact {
    vcard::contact_step(vcard::no_contact(), Line { name, params: seq![], value })
}

/// The lines of both cards of a contact, without what goes round them.
pub open spec fn all_written(c: Contact, uid: Seq<char>) -> Seq<Seq<char>> {
    vcard::signed_body(c, uid) + vcard::encrypted_body(c)
}

/// Whether a text occurs in a line.
pub open spec fn occurs(t: Seq<char>, line: Seq<char>) -> bool {
    exists|k: int|
        0 <= k && k + t.len() <= line.len() && #[trigger] line.subrange(k, k + t.len()) == t
}

/// Whether a contact is written with a line in which a text occurs.
pub open spec fn shows(c: Contact, uid: Seq<char>, t: Seq<char>) -> bool {
    exists|i: int|
        0 <= i < all_written(c, uid).len() && occurs(t, #[trigger] all_written(c, uid)[i])
}

/// A value of a property as it is written for the trial of whether it is
/// kept: the street of an address, the family name of a name, the text of any
/// other property.
pub open spec fn trial(name: Seq<char>, v: Seq<char>) -> Seq<char> {
    if text::uppercase(name) == "ADR"@ {
        ";;"@ + escape::escape(v)
    } else {
        escape::escape(v)
    }
}

/// Whether a text is a value of a property that has a form of its own: a
/// gender is a letter, and a date of eight digits gets dashes.
pub open spec fn is_trial(name: Seq<char>, v: Seq<char>) -> bool {
    let n = text::uppercase(name);
    &&& v.len() > 0
    &&& n == "GENDER"@ ==> v.len() == 1 && 'A' <= v[0] <= 'Z'
    &&& n == "BDAY"@ || n == "ANNIVERSARY"@ || n == "X-ANNIVERSARY"@ ==> v.len() != 8
}

proof fn lemma_prefixed(head: Seq<char>, t: Seq<char>, tail: Seq<char>)
    ensures
        occurs(t, head + t + tail),
        occurs(t, head + t),
{
    let k = head.len() as int;
    assert((head + t + tail).subrange(k, k + t.len()) =~= t);
    assert((head + t).subrange(k, k + t.len()) =~= t);
}

/// One line of the encrypted card.
proof fn lemma_shown_encrypted(c: Contact, uid: Seq<char>, i: int, t: Seq<char>)
    requires
        0 <= i < vcard::encrypted_body(c).len(),
        occurs(t, vcard::encrypted_body(c)[i]),
    ensures
        shows(c, uid, t),
{
    let k = vcard::signed_body(c, uid).len() + i;
    assert(all_written(c, uid)[k] == vcard::encrypted_body(c)[i]);
}

/// One line of the signed card.
proof fn lemma_shown_signed(c: Contact, uid: Seq<char>, i: int, t: Seq<char>)
    requires
        0 <= i < vcard::signed_body(c, uid).len(),
        occurs(t, vcard::signed_body(c, uid)[i]),
    ensures
        shows(c, uid, t),
{
    assert(all_written(c, uid)[i] == vcard::signed_body(c, uid)[i]);
}

proof fn lemma_organization_shown(v: Seq<char>, uid: Seq<char>)
    requires
        v.len() > 0,
    ensures
        shows(Contact { organization: v, ..vcard::no_contact() }, uid, escape::escape(v)),
{
    let c = Contact { organization: v, ..vcard::no_contact() };
    assert(vcard::encrypted_body(c) =~= seq!["ORG:"@ + escape::escape(v)]);
    lemma_prefixed("ORG:"@, escape::escape(v), seq![]);
    lemma_shown_encrypted(c, uid, 0, escape::escape(v));
}

proof fn lemma_title_shown(v: Seq<char>, uid: Seq<char>)
    requires
        v.len() > 0,
    ensures
        shows(Contact { title: v, ..vcard::no_contact() }, uid, escape::escape(v)),
{
    let c = Contact { title: v, ..vcard::no_contact() };
    assert(vcard::encrypted_body(c) =~= seq!["TITLE:"@ + escape::escape(v)]);
    lemma_prefixed("TITLE:"@, escape::escape(v), seq![]);
    lemma_shown_encrypted(c, uid, 0, escape::escape(v));
}

proof fn lemma_role_shown(v: Seq<char>, uid: Seq<char>)
    requires
        v.len() > 0,
    ensures
        shows(Contact { role: v, ..vcard::no_contact() }, uid, escape::escape(v)),
{
    let c = Contact { role: v, ..vcard::no_contact() };
    assert(vcard::encrypted_body(c) =~= seq!["ROLE:"@ + escape::escape(v)]);
    lemma_prefixed("ROLE:"@, escape::escape(v), seq![]);
    lemma_shown_encrypted(c, uid, 0, escape::escape(v));
}

proof fn lemma_url_shown(v: Seq<char>, uid: Seq<char>)
    requires
        v.len() > 0,
    ensures
        shows(Contact { url: v, ..vcard::no_contact() }, uid, escape::escape(v)),
{
    let c = Contact { url: v, ..vcard::no_contact() };
    assert(vcard::encrypted_body(c) =~= seq!["URL:"@ + escape::escape(v)]);
    lemma_prefixed("URL:"@, escape::escape(v), seq![]);
    lemma_shown_encrypted(c, uid, 0, escape::escape(v));
}

proof fn lemma_nickname_shown(v: Seq<char>, uid: Seq<char>)
    requires
        v.len() > 0,
    ensures
        shows(Contact { nickname: v, ..vcard::no_contact() }, uid, escape::escape(v)),
{
    let c = Contact { nickname: v, ..vcard::no_contact() };
    assert(vcard::encrypted_body(c) =~= seq!["NICKNAME:"@ + escape::escape(v)]);
    lemma_prefixed("NICKNAME:"@, escape::escape(v), seq![]);
    lemma_shown_encrypted(c, uid, 0, escape::escape(v));
}

proof fn lemma_birthday_shown(v: Seq<char>, uid: Seq<char>)
    requires
        v.len() > 0,
    ensures
        shows(Contact { birthday: v, ..vcard::no_contact() }, uid, escape::escape(v)),
{
    let c = Contact { birthday: v, ..vcard::no_contact() };
    assert(vcard::encrypted_body(c) =~= seq!["BDAY:"@ + escape::escape(v)]);
    lemma_prefixed("BDAY:"@, escape::escape(v), seq![]);
    lemma_shown_encrypted(c, uid, 0, escape::escape(v));
}

proof fn lemma_anniversary_shown(v: Seq<char>, uid: Seq<char>)
    requires
        v.len() > 0,
    ensures
        shows(Contact { anniversary: v, ..vcard::no_contact() }, uid, escape::escape(v)),
{
    let c = Contact { anniversary: v, ..vcard::no_contact() };
    assert(vcard::encrypted_body(c) =~= seq!["ANNIVERSARY:"@ + escape::escape(v)]);
    lemma_prefixed("ANNIVERSARY:"@, escape::escape(v), seq![]);
    lemma_shown_encrypted(c, uid, 0, escape::escape(v));
}

proof fn lemma_notes_shown(v: Seq<char>, uid: Seq<char>)
    requires
        v.len() > 0,
    ensures
        shows(Contact { notes: seq![v], ..vcard::no_contact() }, uid, escape::escape(v)),
{
    let c = Contact { notes: seq![v], ..vcard::no_contact() };
    assert(vcard::encrypted_body(c) =~= seq!["NOTE:"@ + escape::escape(v)]);
    lemma_prefixed("NOTE:"@, escape::escape(v), seq![]);
    lemma_shown_encrypted(c, uid, 0, escape::escape(v));
}

proof fn lemma_photos_shown(v: Seq<char>, uid: Seq<char>)
    requires
        v.len() > 0,
    ensures
        shows(Contact { photos: seq![v], ..vcard::no_contact() }, uid, escape::escape(v)),
{
    let c = Contact { photos: seq![v], ..vcard::no_contact() };
    assert(vcard::encrypted_body(c) =~= seq!["PHOTO:"@ + escape::escape(v)]);
    lemma_prefixed("PHOTO:"@, escape::escape(v), seq![]);
    lemma_shown_encrypted(c, uid, 0, escape::escape(v));
}

proof fn lemma_phone_shown(v: Seq<char>, uid: Seq<char>)
    ensures
        shows(
            Contact {
                phones: seq![vcard::Typed { value: v, types: seq![] }],
                ..vcard::no_contact()
            },
            uid,
            escape::escape(v),
        ),
{
    let p = vcard::Typed { value: v, types: seq![] };
    let c = Contact { phones: seq![p], ..vcard::no_contact() };
    assert(vcard::encrypted_body(c) =~= seq![vcard::phone_line(p)]);
    lemma_prefixed("TEL"@ + vcard::type_suffix(p.types) + ":"@, escape::escape(v), seq![]);
    lemma_shown_encrypted(c, uid, 0, escape::escape(v));
}

proof fn lemma_email_shown(v: Seq<char>, uid: Seq<char>)
    ensures
        shows(
            Contact {
                emails: seq![vcard::Typed { value: v, types: seq![] }],
                ..vcard::no_contact()
            },
            uid,
            escape::escape(v),
        ),
{
    let p = vcard::Typed { value: v, types: seq![] };
    let c = Contact { emails: seq![p], ..vcard::no_contact() };
    assert(vcard::signed_body(c, uid)[2] == vcard::email_line(p, 0));
    lemma_prefixed(
        "item"@ + crate::numbers::decimal(1) + ".EMAIL"@ + vcard::type_suffix(p.types) + ":"@,
        escape::escape(v),
        seq![],
    );
    lemma_shown_signed(c, uid, 2, escape::escape(v));
}

proof fn lemma_display_shown(v: Seq<char>, uid: Seq<char>)
    requires
        v.len() > 0,
    ensures
        shows(Contact { display_name: v, ..vcard::no_contact() }, uid, escape::escape(v)),
{
    let c = Contact { display_name: v, ..vcard::no_contact() };
    assert(vcard::signed_body(c, uid)[1] == "FN:"@ + escape::escape(v));
    lemma_prefixed("FN:"@, escape::escape(v), seq![]);
    lemma_shown_signed(c, uid, 1, escape::escape(v));
}

proof fn lemma_name_shown(v: Seq<char>, uid: Seq<char>)
    requires
        v.len() > 0,
    ensures
        shows(Contact { last_name: v, ..vcard::no_contact() }, uid, escape::escape(v)),
{
    let c = Contact { last_name: v, ..vcard::no_contact() };
    let e = escape::escape(v);
    let first = escape::escape(c.first_name);
    assert(vcard::encrypted_body(c) =~= seq!["N:"@ + e + ";"@ + first + ";;;"@]);
    lemma_prefixed("N:"@, e, ";"@ + first + ";;;"@);
    assert("N:"@ + e + ";"@ + first + ";;;"@ =~= "N:"@ + e + (";"@ + first + ";;;"@));
    lemma_shown_encrypted(c, uid, 0, e);
}

proof fn lemma_address_shown(a: vcard::Address, uid: Seq<char>)
    ensures
        shows(
            Contact { addresses: seq![a], ..vcard::no_contact() },
            uid,
            escape::escape(a.street),
        ),
{
    let c = Contact { addresses: seq![a], ..vcard::no_contact() };
    let e = escape::escape(a.street);
    assert(vcard::encrypted_body(c) =~= seq![vcard::address_line(a)]);
    let head = "ADR"@ + vcard::type_suffix(a.types) + ":;;"@;
    let tail = ";"@ + escape::escape(a.locality) + ";"@ + escape::escape(a.region) + ";"@
        + escape::escape(a.postal_code) + ";"@ + escape::escape(a.country);
    lemma_prefixed(head, e, tail);
    assert(vcard::address_line(a) =~= head + e + tail);
    lemma_shown_encrypted(c, uid, 0, e);
}

proof fn lemma_gender_shown(v: Seq<char>, uid: Seq<char>)
    requires
        v.len() == 1,
        'A' <= v[0] <= 'Z',
    ensures
        shows(
            Contact { gender: vcard::gender_name(v), ..vcard::no_contact() },
            uid,
            escape::escape(v),
        ),
{
    let g = vcard::gender_name(v);
    let c = Contact { gender: g, ..vcard::no_contact() };
    lemma_gender_letter_kept(v);
    assert(vcard::encrypted_body(c) =~= seq!["GENDER:"@ + escape::escape(v)]);
    lemma_prefixed("GENDER:"@, escape::escape(v), seq![]);
    lemma_shown_encrypted(c, uid, 0, escape::escape(v));
}

proof fn lemma_capital(v: Seq<char>)
    requires
        v.len() == 1,
        'A' <= v[0] <= 'Z',
    ensures
        text::uppercase(v) == v,
{
    assert(text::is_ascii_text(v));
    assert(text::ascii_uppercase(v) =~= v);
}

proof fn lemma_words(w: Seq<char>, u: Seq<char>)
    requires
        text::is_ascii_text(w),
        text::ascii_uppercase(w) == u,
    ensures
        text::uppercase(w) == u,
{
}

proof fn lemma_gender_letter_kept(v: Seq<char>)
    requires
        v.len() == 1,
        'A' <= v[0] <= 'Z',
    ensures
        vcard::gender_name(v).len() > 0,
        vcard::gender_code(vcard::gender_name(v)) == v,
{
    lemma_capital(v);
    reveal_strlit("Male");
    reveal_strlit("Female");
    reveal_strlit("Other");
    reveal_strlit("N/A");
    reveal_strlit("Unknown");
    reveal_strlit("MALE");
    reveal_strlit("FEMALE");
    reveal_strlit("OTHER");
    reveal_strlit("UNKNOWN");
    reveal_strlit("M");
    reveal_strlit("F");
    reveal_strlit("O");
    reveal_strlit("N");
    reveal_strlit("U");
    assert(text::ascii_uppercase("Male"@) =~= "MALE"@);
    assert(text::ascii_uppercase("Female"@) =~= "FEMALE"@);
    assert(text::ascii_uppercase("Other"@) =~= "OTHER"@);
    assert(text::ascii_uppercase("N/A"@) =~= "N/A"@);
    assert(text::ascii_uppercase("Unknown"@) =~= "UNKNOWN"@);
    lemma_words("Male"@, "MALE"@);
    lemma_words("Female"@, "FEMALE"@);
    lemma_words("Other"@, "OTHER"@);
    lemma_words("N/A"@, "N/A"@);
    lemma_words("Unknown"@, "UNKNOWN"@);
    assert("MALE"@.len() == 4 && "FEMALE"@.len() == 6 && "OTHER"@.len() == 5 && "N/A"@.len() == 3
        && "UNKNOWN"@.len() == 7);
    assert(seq!['M'] =~= "M"@);
    assert(seq!['F'] =~= "F"@);
    assert(seq!['O'] =~= "O"@);
    assert(seq!['N'] =~= "N"@);
    assert(seq!['U'] =~= "U"@);
    assert(v =~= seq![v[0]]);
}

/// What one line reads as, for each property that is no part of the card
/// itself and that the guard lets pass.
proof fn lemma_read_alone(name: Seq<char>, v: Seq<char>)
    requires
        vcard::known_prop(name),
        !is_structural(name),
        is_trial(name, v),
    ensures
        ({
            let n = text::uppercase(name);
            let c = read_alone(name, trial(name, v));
            let none = vcard::no_contact();
            let typed = vcard::Typed { value: v, types: seq![] };
            ||| n == "FN"@ && c == (Contact { display_name: v, ..none })
            ||| n == "N"@ && c == (Contact { last_name: v, ..none })
            ||| n == "EMAIL"@ && c == (Contact { emails: seq![typed], ..none })
            ||| n == "TEL"@ && c == (Contact { phones: seq![typed], ..none })
            ||| n == "ADR"@ && c.addresses.len() == 1 && c.addresses[0].street == v && c == (
            Contact { addresses: seq![c.addresses[0]], ..none })
            ||| n == "ORG"@ && c == (Contact { organization: v, ..none })
            ||| n == "TITLE"@ && c == (Contact { title: v, ..none })
            ||| n == "ROLE"@ && c == (Contact { role: v, ..none })
            ||| n == "NOTE"@ && c == (Contact { notes: seq![v], ..none })
            ||| n == "URL"@ && c == (Contact { url: v, ..none })
            ||| n == "BDAY"@ && c == (Contact { birthday: v, ..none })
            ||| (n == "ANNIVERSARY"@ || n == "X-ANNIVERSARY"@) && c == (Contact {
                anniversary: v,
                ..none
            })
            ||| n == "NICKNAME"@ && c == (Contact { nickname: v, ..none })
            ||| n == "GENDER"@ && c == (Contact { gender: vcard::gender_name(v), ..none })
            ||| (n == "PHOTO"@ || n == "LOGO"@) && c == (Contact { photos: seq![v], ..none })
        }),
{
    vcard_back::lemma_names();
    escape::law_unescape_inverts_escape(v);
    escape::law_escaped_part_splits_off(v, seq![]);
    let n = text::uppercase(name);
    let none = vcard::no_contact();
    let typed = vcard::Typed { value: v, types: seq![] };
    let c = read_alone(name, trial(name, v));
    reveal(vcard::param_values);
    assert(vcard::param_values(seq![], "TYPE"@) =~= seq![]);
    assert(none.emails.push(typed) =~= seq![typed]);
    assert(none.phones.push(typed) =~= seq![typed]);
    assert(none.notes.push(v) =~= seq![v]);
    assert(none.photos.push(v) =~= seq![v]);
    if n == "ADR"@ {
        lemma_street(v);
        assert(c.addresses =~= seq![c.addresses[0]]);
        assert(c =~= (Contact { addresses: seq![c.addresses[0]], ..none }));
    }
}

proof fn lemma_street(v: Seq<char>)
    ensures
        escape::value_parts(";;"@ + escape::escape(v)) == seq![seq![], seq![], v],
{
    reveal_strlit(";");
    reveal_strlit(";;");
    let e = escape::escape(v);
    let none = Seq::<char>::empty();
    assert(escape::escape(none) =~= none);
    escape::law_escaped_part_splits_off(v, none);
    escape::law_escaped_part_splits_off(none, e);
    escape::law_escaped_part_splits_off(none, ";"@ + e);
    assert(none + (";"@ + e) =~= ";"@ + e);
    assert(none + (";"@ + (";"@ + e)) =~= ";;"@ + e);
    assert(escape::value_parts(";;"@ + e) =~= seq![none, none, v]);
}

/// No data is dropped: a property that the guard lets pass is part of the
/// card itself, or else its value is read into the contact and written again.
pub proof fn law_guard_passes_what_is_kept(name: Seq<char>, v: Seq<char>, uid: Seq<char>)
    requires
        vcard::known_prop(name),
        !is_structural(name),
        is_trial(name, v),
    ensures
        shows(read_alone(name, trial(name, v)), uid, escape::escape(v)),
{
    lemma_read_alone(name, v);
    vcard_back::lemma_names();
    let n = text::uppercase(name);
    let c = read_alone(name, trial(name, v));
    if n == "FN"@ {
        lemma_display_shown(v, uid);
    } else if n == "N"@ {
        lemma_name_shown(v, uid);
    } else if n == "EMAIL"@ {
        lemma_email_shown(v, uid);
    } else if n == "TEL"@ {
        lemma_phone_shown(v, uid);
    } else if n == "ADR"@ {
        lemma_address_shown(c.addresses[0], uid);
    } else if n == "ORG"@ {
        lemma_organization_shown(v, uid);
    } else if n == "TITLE"@ {
        lemma_title_shown(v, uid);
    } else if n == "ROLE"@ {
        lemma_role_shown(v, uid);
    } else if n == "NOTE"@ {
        lemma_notes_shown(v, uid);
    } else if n == "URL"@ {
        lemma_url_shown(v, uid);
    } else if n == "BDAY"@ {
        lemma_birthday_shown(v, uid);
    } else if n == "ANNIVERSARY"@ || n == "X-ANNIVERSARY"@ {
        lemma_anniversary_shown(v, uid);
    } else if n == "NICKNAME"@ {
        lemma_nickname_shown(v, uid);
    } else if n == "GENDER"@ {
        lemma_gender_shown(v, uid);
    } else {
        lemma_photos_shown(v, uid);
    }
}

/// The guard tells apart just what the reader of contacts does: a property
/// that the reader passes over is let pass only where it is part of the card
/// itself, and one that the reader takes in is always let pass.
pub proof fn law_guard_knows_the_reader(name: Seq<char>)
    ensures
        is_ignored(name) && !is_structural(name) ==> !vcard::known_prop(name),
        !is_ignored(name) ==> vcard::known_prop(name),
        is_structural(name) ==> vcard::known_prop(name),
{
    if vcard::known_prop(name) && !is_structural(name) {
        let v = seq!['A'];
        lemma_read_alone(name, v);
        lemma_gender_letter_kept(v);
        let line = Line { name, params: seq![], value: trial(name, v) };
        let none = vcard::no_contact();
        let c = vcard::contact_step(none, line);
        assert(c != none) by {
            assert(v.len() > 0);
            assert(none.notes.len() == 0 && none.photos.len() == 0 && none.emails.len() == 0
                && none.phones.len() == 0 && none.addresses.len() == 0);
            assert(seq![v].len() == 1);
        }
        assert(!is_ignored(name));
    }
    if !is_ignored(name) {
        let (c, line) = choose|c: Contact, line: Line|
            line.name == name && #[trigger] vcard::contact_step(c, line) != c;
        assert(vcard::contact_step(c, line) != c);
    }
}

// ---------------------------------------------------------------------
// What stops an update
// ---------------------------------------------------------------------

/// The head of a line: the name of a property, with or without a group.
pub open spec fn is_head(head: Seq<char>, name: Seq<char>) -> bool {
    &&& vcard::is_identifier(name)
    &&& head == name || exists|g: Seq<char>|
        vcard::is_identifier(g) && head == #[trigger] (g + "."@) + name
}

/// A line of a property: its head, and behind it a parameter or the value.
pub open spec fn is_line_of(line: Seq<char>, name: Seq<char>) -> bool {
    exists|head: Seq<char>, rest: Seq<char>|
        is_head(head, name) && rest.len() > 0 && (rest[0] == ';' || rest[0] == ':') && line
            == #[trigger] (head + rest)
}

proof fn lemma_line_of(line: Seq<char>, name: Seq<char>)
    requires
        is_line_of(line, name),
    ensures
        keygroups::base_name(line) == text::ascii_uppercase(name),
        keygroups::grouped_name(line) matches Some(n) && n.base == text::ascii_uppercase(name),
        text::uppercase(name) == text::ascii_uppercase(name),
        text::uppercase(text::ascii_uppercase(name)) == text::ascii_uppercase(name),
        name.len() > 0,
{
    let (head, rest) = choose|head: Seq<char>, rest: Seq<char>|
        is_head(head, name) && rest.len() > 0 && (rest[0] == ';' || rest[0] == ':') && line
            == #[trigger] (head + rest);
    let group = if head == name {
        None
    } else {
        Some(
            choose|g: Seq<char>|
                vcard::is_identifier(g) && head == #[trigger] (g + "."@) + name,
        )
    };
    let e = Entry { group, line: Line { name, params: seq![], value: seq![] } };
    assert(vcard_back::entry_head(e) =~= head);
    vcard_back::lemma_head_name(e, rest);
    assert(text::is_ascii_text(name)) by {
        assert forall|i: int| 0 <= i < name.len() implies (#[trigger] name[i] as u32) < 128 by {}
    }
    let up = text::ascii_uppercase(name);
    assert(text::is_ascii_text(up));
    assert(text::ascii_uppercase(up) =~= up);
}

proof fn lemma_named_unknown(l: Seq<Seq<char>>, line: Seq<char>, name: Seq<char>)
    requires
        l.contains(line),
        is_line_of(line, name),
        !vcard::known_prop(name),
    ensures
        keygroups::unknown_of(keygroups::prop_names(l)).contains(text::ascii_uppercase(name)),
    decreases l.len(),
{
    reveal(Seq::filter);
    lemma_line_of(line, name);
    let n = text::ascii_uppercase(name);
    assert(!vcard::known_prop(n));
    let init = l.drop_last();
    let names = keygroups::prop_names(l);
    let keep = |n: Seq<char>| !vcard::known_prop(n);
    let b = keygroups::base_name(l.last());
    if b.len() > 0 {
        assert(names.drop_last() =~= keygroups::prop_names(init));
        assert(names.last() == b);
    }
    let before = keygroups::unknown_of(keygroups::prop_names(init));
    let after = keygroups::unknown_of(names);
    if l.last() == line {
        assert(after.last() == n);
        assert(after[after.len() - 1] == n);
    } else {
        let k = choose|k: int| 0 <= k < l.len() && l[k] == line;
        assert(init[k] == line);
        lemma_named_unknown(init, line, name);
        let j = choose|j: int| 0 <= j < before.len() && before[j] == n;
        assert(after[j] == n);
    }
}

proof fn lemma_all_names(cards: Seq<Seq<char>>, card: Seq<char>, n: Seq<char>)
    requires
        cards.contains(card),
        keygroups::unknown_of(
            keygroups::prop_names(lines::unfold(lines::card_lines(card))),
        ).contains(n),
    ensures
        keygroups::all_names(cards).contains(n),
    decreases cards.len(),
{
    let init = cards.drop_last();
    let own = keygroups::unknown_of(
        keygroups::prop_names(lines::unfold(lines::card_lines(cards.last()))),
    );
    let before = keygroups::all_names(init);
    let all = keygroups::all_names(cards);
    if cards.last() == card {
        let k = choose|k: int| 0 <= k < own.len() && own[k] == n;
        assert(all[before.len() + k] == n);
    } else {
        let k = choose|k: int| 0 <= k < cards.len() && cards[k] == card;
        assert(init[k] == card);
        lemma_all_names(init, card, n);
        let j = choose|j: int| 0 <= j < before.len() && before[j] == n;
        assert(all[j] == n);
    }
}

proof fn lemma_uncarried(
    l: Seq<Seq<char>>,
    gs: Seq<keygroups::Group>,
    line: Seq<char>,
    name: Seq<char>,
)
    requires
        l.contains(line),
        is_line_of(line, name),
        !vcard::known_prop(name),
        !keygroups::is_carried(gs, line),
    ensures
        keygroups::uncarried_names(l, gs).contains(text::ascii_uppercase(name)),
    decreases l.len(),
{
    lemma_line_of(line, name);
    let n = text::ascii_uppercase(name);
    assert(!vcard::known_prop(n));
    let init = l.drop_last();
    let before = keygroups::uncarried_names(init, gs);
    let after = keygroups::uncarried_names(l, gs);
    if l.last() == line {
        assert(after == before.push(n));
        assert(after[after.len() - 1] == n);
    } else {
        let k = choose|k: int| 0 <= k < l.len() && l[k] == line;
        assert(init[k] == line);
        lemma_uncarried(init, gs, line, name);
        let j = choose|j: int| 0 <= j < before.len() && before[j] == n;
        assert(after[j] == n);
    }
}

proof fn lemma_all_uncarried(cards: Seq<Seq<char>>, card: Seq<char>, n: Seq<char>)
    requires
        cards.contains(card),
        keygroups::uncarried_names(
            lines::unfold(lines::card_lines(card)),
            keygroups::key_groups(card),
        ).contains(n),
    ensures
        keygroups::all_uncarried(cards).contains(n),
    decreases cards.len(),
{
    let init = cards.drop_last();
    let own = keygroups::uncarried_names(
        lines::unfold(lines::card_lines(cards.last())),
        keygroups::key_groups(cards.last()),
    );
    let before = keygroups::all_uncarried(init);
    let all = keygroups::all_uncarried(cards);
    if cards.last() == card {
        let k = choose|k: int| 0 <= k < own.len() && own[k] == n;
        assert(all[before.len() + k] == n);
    } else {
        let k = choose|k: int| 0 <= k < cards.len() && cards[k] == card;
        assert(init[k] == card);
        lemma_all_uncarried(init, card, n);
        let j = choose|j: int| 0 <= j < before.len() && before[j] == n;
        assert(all[j] == n);
    }
}

/// The unknown properties name every line of an encrypted card that a
/// rebuilt contact would lose.
pub proof fn law_lost_lines_are_named(
    cards: Seq<Seq<char>>,
    card: Seq<char>,
    line: Seq<char>,
    name: Seq<char>,
)
    requires
        cards.contains(card),
        lines::unfold(lines::card_lines(card)).contains(line),
        is_line_of(line, name),
        is_ignored(name),
        !is_structural(name),
    ensures
        ordered::sorted_unique(keygroups::all_names(cards)).contains(text::ascii_uppercase(name)),
{
    law_guard_knows_the_reader(name);
    lemma_named_unknown(lines::unfold(lines::card_lines(card)), line, name);
    lemma_all_names(cards, card, text::ascii_uppercase(name));
    ordered::law_sorted_unique(keygroups::all_names(cards));
}

/// A line of an encrypted card that the reader of contacts passes over, and
/// that is no part of the card itself, always puts the update off: nothing is
/// written over it.
pub proof fn law_lost_line_puts_update_off(
    at: u32,
    cards: Seq<(int, Seq<char>)>,
    keys: Seq<Seq<Seq<u8>>>,
    phone: Contact,
    uid: Seq<char>,
    pairs: Seq<Seq<u8>>,
    r: Result<Option<Vec<ContactCard>>, ProtonError>,
    card: Seq<char>,
    line: Seq<char>,
    name: Seq<char>,
)
    requires
        contact_seal::update_written(
            contact_seal::server_base(at, cards, keys),
            phone,
            uid,
            pairs,
            at,
            r,
        ),
        contact_seal::server_plains(at, cards, keys) matches Some(plains) && plains.1.contains(
            card,
        ),
        lines::unfold(lines::card_lines(card)).contains(line),
        is_line_of(line, name),
        is_ignored(name),
        !is_structural(name),
    ensures
        r matches Ok(None),
        contact_seal::blocking(
            contact_seal::server_plains(at, cards, keys)->Some_0.0,
            contact_seal::server_plains(at, cards, keys)->Some_0.1,
        ).contains(text::ascii_uppercase(name)),
{
    let (signed, decrypted) = contact_seal::server_plains(at, cards, keys)->Some_0;
    let n = text::ascii_uppercase(name);
    law_lost_lines_are_named(decrypted, card, line, name);
    lemma_blocks(signed, decrypted, n);
}

proof fn lemma_blocks(signed: Seq<Seq<char>>, decrypted: Seq<Seq<char>>, n: Seq<char>)
    requires
        keygroups::all_uncarried(signed).contains(n) || ordered::sorted_unique(
            keygroups::all_names(decrypted),
        ).contains(n),
    ensures
        contact_seal::blocking(signed, decrypted).contains(n),
        contact_seal::blocking(signed, decrypted).len() > 0,
{
    let a = ordered::sorted_unique(keygroups::all_uncarried(signed));
    let b = ordered::sorted_unique(keygroups::all_names(decrypted));
    ordered::law_sorted_unique(keygroups::all_uncarried(signed));
    ordered::law_sorted_unique(a + b);
    assert(keygroups::all_uncarried(signed).contains(n) ==> a.contains(n));
    if b.contains(n) {
        let k = choose|k: int| 0 <= k < b.len() && b[k] == n;
        assert((a + b)[a.len() + k] == n);
    } else {
        let k = choose|k: int| 0 <= k < a.len() && a[k] == n;
        assert((a + b)[k] == n);
    }
    assert((a + b).contains(n));
}

/// A line of a signed card that the reader passes over puts the update off
/// too, unless it is carried over with the crypto settings of an address.
pub proof fn law_lost_signed_line_puts_update_off(
    at: u32,
    cards: Seq<(int, Seq<char>)>,
    keys: Seq<Seq<Seq<u8>>>,
    phone: Contact,
    uid: Seq<char>,
    pairs: Seq<Seq<u8>>,
    r: Result<Option<Vec<ContactCard>>, ProtonError>,
    card: Seq<char>,
    line: Seq<char>,
    name: Seq<char>,
)
    requires
        contact_seal::update_written(
            contact_seal::server_base(at, cards, keys),
            phone,
            uid,
            pairs,
            at,
            r,
        ),
        contact_seal::server_plains(at, cards, keys) matches Some(plains) && plains.0.contains(
            card,
        ),
        lines::unfold(lines::card_lines(card)).contains(line),
        is_line_of(line, name),
        is_ignored(name),
        !is_structural(name),
        !keygroups::is_carried(keygroups::key_groups(card), line),
    ensures
        r matches Ok(None),
{
    let (signed, decrypted) = contact_seal::server_plains(at, cards, keys)->Some_0;
    let n = text::ascii_uppercase(name);
    law_guard_knows_the_reader(name);
    lemma_uncarried(
        lines::unfold(lines::card_lines(card)),
        keygroups::key_groups(card),
        line,
        name,
    );
    lemma_all_uncarried(signed, card, n);
    lemma_blocks(signed, decrypted, n);
}

} // verus!
