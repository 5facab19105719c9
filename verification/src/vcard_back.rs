//! What a written contact reads back as.
use vstd::prelude::*;

use crate::edits;
use crate::escape;
use crate::keygroups;
use crate::lines;
use crate::numbers;
use crate::text;
use crate::vcard;
use crate::vcard::{Address, Contact, Entry, Line, Typed};

verus! {

// ---------------------------------------------------------------------
// Taking in lines
// ---------------------------------------------------------------------

/// A contact after it has taken in lines.
pub open spec fn contact_after(c: Contact, l: Seq<Line>) -> Contact
    decreases l.len(),
{
    if l.len() == 0 {
        c
    } else {
        vcard::contact_step(contact_after(c, l.drop_last()), l.last())
    }
}

proof fn lemma_after_nothing(l: Seq<Line>)
    ensures
        vcard::contact_of_lines(l) == contact_after(vcard::no_contact(), l),
    decreases l.len(),
{
    if l.len() > 0 {
        lemma_after_nothing(l.drop_last());
    }
}

proof fn lemma_after_concat(c: Contact, a: Seq<Line>, b: Seq<Line>)
    ensures
        contact_after(c, a + b) == contact_after(contact_after(c, a), b),
    decreases b.len(),
{
    if b.len() == 0 {
        assert(a + b =~= a);
    } else {
        lemma_after_concat(c, a, b.drop_last());
        assert((a + b).drop_last() =~= a + b.drop_last());
        assert((a + b).last() == b.last());
    }
}

proof fn lemma_after_one(c: Contact, line: Line)
    ensures
        contact_after(c, seq![line]) == vcard::contact_step(c, line),
{
    assert(seq![line].drop_last() =~= seq![]);
    assert(contact_after(c, seq![line].drop_last()) == c);
}

/// The names of the properties, told apart.
pub proof fn lemma_names()
    ensures
        "FN"@.len() == 2,
        "N"@.len() == 1,
        "EMAIL"@.len() == 5 && "EMAIL"@[0] == 'E',
        "TEL"@.len() == 3 && "TEL"@[0] == 'T',
        "ADR"@.len() == 3 && "ADR"@[0] == 'A',
        "ORG"@.len() == 3 && "ORG"@[0] == 'O',
        "TITLE"@.len() == 5 && "TITLE"@[0] == 'T',
        "ROLE"@.len() == 4 && "ROLE"@[0] == 'R',
        "NOTE"@.len() == 4 && "NOTE"@[0] == 'N',
        "URL"@.len() == 3 && "URL"@[0] == 'U' && "URL"@[1] == 'R',
        "BDAY"@.len() == 4 && "BDAY"@[0] == 'B',
        "ANNIVERSARY"@.len() == 11,
        "X-ANNIVERSARY"@.len() == 13,
        "NICKNAME"@.len() == 8,
        "GENDER"@.len() == 6,
        "PHOTO"@.len() == 5 && "PHOTO"@[0] == 'P',
        "LOGO"@.len() == 4 && "LOGO"@[0] == 'L',
        "BEGIN"@.len() == 5 && "BEGIN"@[0] == 'B',
        "END"@.len() == 3 && "END"@[0] == 'E',
        "VERSION"@.len() == 7,
        "UID"@.len() == 3 && "UID"@[0] == 'U' && "UID"@[1] == 'I',
{
    reveal_strlit("FN");
    reveal_strlit("N");
    reveal_strlit("EMAIL");
    reveal_strlit("TEL");
    reveal_strlit("ADR");
    reveal_strlit("ORG");
    reveal_strlit("TITLE");
    reveal_strlit("ROLE");
    reveal_strlit("NOTE");
    reveal_strlit("URL");
    reveal_strlit("BDAY");
    reveal_strlit("ANNIVERSARY");
    reveal_strlit("X-ANNIVERSARY");
    reveal_strlit("NICKNAME");
    reveal_strlit("GENDER");
    reveal_strlit("PHOTO");
    reveal_strlit("LOGO");
    reveal_strlit("BEGIN");
    reveal_strlit("END");
    reveal_strlit("VERSION");
    reveal_strlit("UID");
}

// ---------------------------------------------------------------------
// Values
// ---------------------------------------------------------------------

/// Text whose control characters are line feeds and tabs.
pub open spec fn is_text(s: Seq<char>) -> bool {
    forall|i: int| 0 <= i < s.len() ==> !vcard::is_control(#[trigger] s[i]) || s[i] == '\n'
}

proof fn lemma_escaped_value(s: Seq<char>)
    requires
        is_text(s),
    ensures
        vcard::is_value(escape::escape(s)),
    decreases s.len(),
{
    if s.len() > 0 {
        let t = s.skip(1);
        assert forall|i: int| 0 <= i < t.len() implies !vcard::is_control(#[trigger] t[i]) || t[i]
            == '\n' by {
            assert(t[i] == s[i + 1]);
        }
        lemma_escaped_value(t);
        let head = escape::escaped_char(s[0]);
        let e = escape::escape(s);
        assert(!vcard::is_control(s[0]) || s[0] == '\n');
        assert forall|i: int| 0 <= i < e.len() implies !vcard::is_control(#[trigger] e[i]) by {
            if i >= head.len() {
                assert(e[i] == escape::escape(t)[i - head.len()]);
            }
        }
    }
}

proof fn lemma_value_concat(a: Seq<char>, b: Seq<char>)
    requires
        vcard::is_value(a),
        vcard::is_value(b),
    ensures
        vcard::is_value(a + b),
{
    assert forall|i: int| 0 <= i < (a + b).len() implies !vcard::is_control(
        #[trigger] (a + b)[i],
    ) by {
        if i < a.len() {
            assert((a + b)[i] == a[i]);
        } else {
            assert((a + b)[i] == b[i - a.len()]);
        }
    }
}

// ---------------------------------------------------------------------
// The lines of a card
// ---------------------------------------------------------------------

/// A line without group and parameters.
pub open spec fn bare(name: Seq<char>, value: Seq<char>) -> Entry {
    Entry { group: None, line: Line { name, params: seq![], value } }
}

/// A line with types.
pub open spec fn typed(
    group: Option<Seq<char>>,
    name: Seq<char>,
    types: Seq<Seq<char>>,
    value: Seq<char>,
) -> Entry {
    Entry {
        group,
        line: Line {
            name,
            params: if types.len() == 0 {
                seq![]
            } else {
                seq![("TYPE"@, types)]
            },
            value,
        },
    }
}

pub open spec fn email_entry(e: Typed, i: int) -> Entry {
    typed(
        Some("item"@ + numbers::decimal((i + 1) as nat)),
        "EMAIL"@,
        e.types,
        escape::escape(e.value),
    )
}

pub open spec fn phone_entry(p: Typed) -> Entry {
    typed(None, "TEL"@, p.types, escape::escape(p.value))
}

/// The value of an address line.
pub open spec fn address_value(a: Address) -> Seq<char> {
    ";;"@ + escape::escape(a.street) + ";"@ + escape::escape(a.locality) + ";"@ + escape::escape(
        a.region,
    ) + ";"@ + escape::escape(a.postal_code) + ";"@ + escape::escape(a.country)
}

pub open spec fn address_entry(a: Address) -> Entry {
    typed(None, "ADR"@, a.types, address_value(a))
}

/// The value of a name line.
pub open spec fn name_value(c: Contact) -> Seq<char> {
    escape::escape(c.last_name) + ";"@ + escape::escape(c.first_name) + ";;;"@
}

pub open spec fn name_entries(c: Contact) -> Seq<Entry> {
    if c.first_name.len() > 0 || c.last_name.len() > 0 {
        seq![bare("N"@, name_value(c))]
    } else {
        seq![]
    }
}

pub open spec fn optional_entries(name: Seq<char>, value: Seq<char>) -> Seq<Entry> {
    if value.len() > 0 {
        seq![bare(name, escape::escape(value))]
    } else {
        seq![]
    }
}

pub open spec fn value_entries(name: Seq<char>, values: Seq<Seq<char>>) -> Seq<Entry> {
    Seq::new(values.len(), |i: int| bare(name, escape::escape(values[i])))
}

pub open spec fn gender_entries(gender: Seq<char>) -> Seq<Entry> {
    if gender.len() > 0 {
        seq![bare("GENDER"@, escape::escape(vcard::gender_code(gender)))]
    } else {
        seq![]
    }
}

/// The lines of the signed card between the first two and the last.
pub open spec fn signed_entries(c: Contact, uid: Seq<char>) -> Seq<Entry> {
    seq![bare("UID"@, uid), bare("FN"@, escape::escape(vcard::shown_name(c)))] + Seq::new(
        c.emails.len(),
        |i: int| email_entry(c.emails[i], i),
    )
}

/// The lines of the encrypted card between the first two and the last.
pub open spec fn encrypted_entries(c: Contact) -> Seq<Entry> {
    name_entries(c) + Seq::new(c.phones.len(), |i: int| phone_entry(c.phones[i])) + Seq::new(
        c.addresses.len(),
        |i: int| address_entry(c.addresses[i]),
    ) + optional_entries("ORG"@, c.organization) + optional_entries("TITLE"@, c.title)
        + optional_entries("ROLE"@, c.role) + value_entries("NOTE"@, c.notes) + optional_entries(
        "URL"@,
        c.url,
    ) + optional_entries("BDAY"@, c.birthday) + optional_entries("ANNIVERSARY"@, c.anniversary)
        + optional_entries("NICKNAME"@, c.nickname) + gender_entries(c.gender) + value_entries(
        "PHOTO"@,
        c.photos,
    )
}

/// The lines of a card round others.
pub open spec fn card_entries(body: Seq<Entry>) -> Seq<Entry> {
    seq![bare("BEGIN"@, "VCARD"@), bare("VERSION"@, "4.0"@)] + body + seq![
        bare("END"@, "VCARD"@),
    ]
}

proof fn lemma_bare_text(name: Seq<char>, value: Seq<char>)
    ensures
        vcard::entry_text(bare(name, value)) == name + ":"@ + value,
{
    let p = Seq::<(Seq<char>, Seq<Seq<char>>)>::empty();
    assert(bare(name, value).line.params =~= p);
    assert(vcard::params_text(p) =~= seq![]);
    assert(vcard::entry_text(bare(name, value)) =~= name + ":"@ + value);
}

proof fn lemma_typed_text(
    group: Option<Seq<char>>,
    name: Seq<char>,
    types: Seq<Seq<char>>,
    value: Seq<char>,
)
    ensures
        vcard::entry_text(typed(group, name, types, value)) == (match group {
            Some(g) => g + "."@,
            None => seq![],
        }) + name + vcard::type_suffix(types) + ":"@ + value,
{
    let p = typed(group, name, types, value).line.params;
    reveal_strlit(";TYPE=");
    reveal_strlit(";");
    reveal_strlit("TYPE");
    reveal_strlit("=");
    if types.len() == 0 {
        assert(vcard::params_text(p) =~= vcard::type_suffix(types));
    } else {
        assert(p.drop_last() =~= seq![]);
        assert(vcard::params_text(p.drop_last()) =~= seq![]);
        assert(";TYPE="@ =~= ";"@ + "TYPE"@ + "="@);
        assert(vcard::params_text(p) =~= vcard::type_suffix(types));
    }
}

/// The lines as they are written are those of the signed card.
proof fn lemma_signed_texts(c: Contact, uid: Seq<char>)
    ensures
        vcard::entry_texts(signed_entries(c, uid)) == vcard::signed_body(c, uid),
{
    let e = signed_entries(c, uid);
    let t = vcard::signed_body(c, uid);
    lemma_heads();
    lemma_bare_text("UID"@, uid);
    lemma_bare_text("FN"@, escape::escape(vcard::shown_name(c)));
    assert forall|i: int| 0 <= i < e.len() implies vcard::entry_text(#[trigger] e[i]) == t[i] by {
        if i >= 2 {
            let k = i - 2;
            let m = c.emails[k];
            let g = "item"@ + numbers::decimal((k + 1) as nat);
            lemma_typed_text(Some(g), "EMAIL"@, m.types, escape::escape(m.value));
            assert(g + "."@ + "EMAIL"@ =~= g + ".EMAIL"@);
            assert(e[i] == email_entry(m, k));
            assert(t[i] == vcard::email_line(m, k));
        }
    }
    assert(vcard::entry_texts(e) =~= t);
}

/// How the heads of lines are put together.
proof fn lemma_heads()
    ensures
        "UID:"@ == "UID"@ + ":"@,
        "FN:"@ == "FN"@ + ":"@,
        "N:"@ == "N"@ + ":"@,
        ".EMAIL"@ == "."@ + "EMAIL"@,
        ":;;"@ == ":"@ + ";;"@,
        "ORG:"@ == "ORG"@ + ":"@,
        "TITLE:"@ == "TITLE"@ + ":"@,
        "ROLE:"@ == "ROLE"@ + ":"@,
        "NOTE:"@ == "NOTE"@ + ":"@,
        "URL:"@ == "URL"@ + ":"@,
        "BDAY:"@ == "BDAY"@ + ":"@,
        "ANNIVERSARY:"@ == "ANNIVERSARY"@ + ":"@,
        "NICKNAME:"@ == "NICKNAME"@ + ":"@,
        "GENDER:"@ == "GENDER"@ + ":"@,
        "PHOTO:"@ == "PHOTO"@ + ":"@,
        "BEGIN:VCARD"@ == "BEGIN"@ + ":"@ + "VCARD"@,
        "VERSION:4.0"@ == "VERSION"@ + ":"@ + "4.0"@,
        "END:VCARD"@ == "END"@ + ":"@ + "VCARD"@,
{
    reveal_strlit(":");
    reveal_strlit(".");
    reveal_strlit("UID");
    reveal_strlit("UID:");
    reveal_strlit("FN");
    reveal_strlit("FN:");
    reveal_strlit("N");
    reveal_strlit("N:");
    reveal_strlit("EMAIL");
    reveal_strlit(".EMAIL");
    reveal_strlit(":;;");
    reveal_strlit(";;");
    reveal_strlit("ORG");
    reveal_strlit("ORG:");
    reveal_strlit("TITLE");
    reveal_strlit("TITLE:");
    reveal_strlit("ROLE");
    reveal_strlit("ROLE:");
    reveal_strlit("NOTE");
    reveal_strlit("NOTE:");
    reveal_strlit("URL");
    reveal_strlit("URL:");
    reveal_strlit("BDAY");
    reveal_strlit("BDAY:");
    reveal_strlit("ANNIVERSARY");
    reveal_strlit("ANNIVERSARY:");
    reveal_strlit("NICKNAME");
    reveal_strlit("NICKNAME:");
    reveal_strlit("GENDER");
    reveal_strlit("GENDER:");
    reveal_strlit("PHOTO");
    reveal_strlit("PHOTO:");
    reveal_strlit("BEGIN");
    reveal_strlit("VCARD");
    reveal_strlit("BEGIN:VCARD");
    reveal_strlit("VERSION");
    reveal_strlit("4.0");
    reveal_strlit("VERSION:4.0");
    reveal_strlit("END");
    reveal_strlit("END:VCARD");
    assert("UID:"@ =~= "UID"@ + ":"@);
    assert("FN:"@ =~= "FN"@ + ":"@);
    assert("N:"@ =~= "N"@ + ":"@);
    assert(".EMAIL"@ =~= "."@ + "EMAIL"@);
    assert(":;;"@ =~= ":"@ + ";;"@);
    assert("ORG:"@ =~= "ORG"@ + ":"@);
    assert("TITLE:"@ =~= "TITLE"@ + ":"@);
    assert("ROLE:"@ =~= "ROLE"@ + ":"@);
    assert("NOTE:"@ =~= "NOTE"@ + ":"@);
    assert("URL:"@ =~= "URL"@ + ":"@);
    assert("BDAY:"@ =~= "BDAY"@ + ":"@);
    assert("ANNIVERSARY:"@ =~= "ANNIVERSARY"@ + ":"@);
    assert("NICKNAME:"@ =~= "NICKNAME"@ + ":"@);
    assert("GENDER:"@ =~= "GENDER"@ + ":"@);
    assert("PHOTO:"@ =~= "PHOTO"@ + ":"@);
    assert("BEGIN:VCARD"@ =~= "BEGIN"@ + ":"@ + "VCARD"@);
    assert("VERSION:4.0"@ =~= "VERSION"@ + ":"@ + "4.0"@);
    assert("END:VCARD"@ =~= "END"@ + ":"@ + "VCARD"@);
}

proof fn lemma_texts_concat(a: Seq<Entry>, b: Seq<Entry>)
    ensures
        vcard::entry_texts(a + b) == vcard::entry_texts(a) + vcard::entry_texts(b),
{
    assert(vcard::entry_texts(a + b) =~= vcard::entry_texts(a) + vcard::entry_texts(b));
}

proof fn lemma_optional_texts(name: Seq<char>, value: Seq<char>)
    ensures
        vcard::entry_texts(optional_entries(name, value)) == vcard::optional_line(
            name + ":"@,
            value,
        ),
{
    lemma_bare_text(name, escape::escape(value));
    assert(vcard::entry_texts(optional_entries(name, value)) =~= vcard::optional_line(
        name + ":"@,
        value,
    ));
}

proof fn lemma_value_texts(name: Seq<char>, values: Seq<Seq<char>>)
    ensures
        vcard::entry_texts(value_entries(name, values)) == vcard::value_lines(name + ":"@, values),
{
    let e = value_entries(name, values);
    assert forall|i: int| 0 <= i < e.len() implies vcard::entry_text(#[trigger] e[i]) == name
        + ":"@ + escape::escape(values[i]) by {
        lemma_bare_text(name, escape::escape(values[i]));
    }
    assert(vcard::entry_texts(e) =~= vcard::value_lines(name + ":"@, values));
}

proof fn lemma_phone_texts(phones: Seq<Typed>)
    ensures
        vcard::entry_texts(Seq::new(phones.len(), |i: int| phone_entry(phones[i]))) == Seq::new(
            phones.len(),
            |i: int| vcard::phone_line(phones[i]),
        ),
{
    let e = Seq::new(phones.len(), |i: int| phone_entry(phones[i]));
    let none = Seq::<char>::empty();
    assert forall|i: int| 0 <= i < e.len() implies vcard::entry_text(#[trigger] e[i])
        == vcard::phone_line(phones[i]) by {
        lemma_typed_text(None, "TEL"@, phones[i].types, escape::escape(phones[i].value));
        assert(none + "TEL"@ =~= "TEL"@);
    }
    assert(vcard::entry_texts(e) =~= Seq::new(
        phones.len(),
        |i: int| vcard::phone_line(phones[i]),
    ));
}

proof fn lemma_regroup(a: Seq<char>, b: Seq<char>, c: Seq<char>)
    ensures
        a + (b + c) == a + b + c,
{
    assert(a + (b + c) =~= a + b + c);
}

/// A head before the value of an address line.
proof fn lemma_address_line(head: Seq<char>, a: Address)
    ensures
        head + ":"@ + address_value(a) == head + ":;;"@ + escape::escape(a.street) + ";"@
            + escape::escape(a.locality) + ";"@ + escape::escape(a.region) + ";"@ + escape::escape(
            a.postal_code,
        ) + ";"@ + escape::escape(a.country),
{
    lemma_heads();
    let p = head + ":"@;
    lemma_regroup(head, ":"@, ";;"@);
    let v0 = ";;"@ + escape::escape(a.street);
    lemma_regroup(p, ";;"@, escape::escape(a.street));
    lemma_regroup(p, v0, ";"@);
    let v1 = v0 + ";"@ + escape::escape(a.locality);
    lemma_regroup(p, v0 + ";"@, escape::escape(a.locality));
    lemma_regroup(p, v1, ";"@);
    let v2 = v1 + ";"@ + escape::escape(a.region);
    lemma_regroup(p, v1 + ";"@, escape::escape(a.region));
    lemma_regroup(p, v2, ";"@);
    let v3 = v2 + ";"@ + escape::escape(a.postal_code);
    lemma_regroup(p, v2 + ";"@, escape::escape(a.postal_code));
    lemma_regroup(p, v3, ";"@);
    lemma_regroup(p, v3 + ";"@, escape::escape(a.country));
}

proof fn lemma_address_texts(addresses: Seq<Address>)
    ensures
        vcard::entry_texts(Seq::new(addresses.len(), |i: int| address_entry(addresses[i])))
            == Seq::new(addresses.len(), |i: int| vcard::address_line(addresses[i])),
{
    let e = Seq::new(addresses.len(), |i: int| address_entry(addresses[i]));
    let none = Seq::<char>::empty();
    lemma_heads();
    assert forall|i: int| 0 <= i < e.len() implies vcard::entry_text(#[trigger] e[i])
        == vcard::address_line(addresses[i]) by {
        let a = addresses[i];
        lemma_typed_text(None, "ADR"@, a.types, address_value(a));
        assert(none + "ADR"@ =~= "ADR"@);
        lemma_address_line("ADR"@ + vcard::type_suffix(a.types), a);
    }
    assert(vcard::entry_texts(e) =~= Seq::new(
        addresses.len(),
        |i: int| vcard::address_line(addresses[i]),
    ));
}

/// The lines as they are written are those of the encrypted card.
proof fn lemma_encrypted_texts(c: Contact)
    ensures
        vcard::entry_texts(encrypted_entries(c)) == vcard::encrypted_body(c),
{
    lemma_heads();
    let n = name_entries(c);
    let p = Seq::new(c.phones.len(), |i: int| phone_entry(c.phones[i]));
    let a = Seq::new(c.addresses.len(), |i: int| address_entry(c.addresses[i]));
    let org = optional_entries("ORG"@, c.organization);
    let title = optional_entries("TITLE"@, c.title);
    let role = optional_entries("ROLE"@, c.role);
    let notes = value_entries("NOTE"@, c.notes);
    let url = optional_entries("URL"@, c.url);
    let bday = optional_entries("BDAY"@, c.birthday);
    let anni = optional_entries("ANNIVERSARY"@, c.anniversary);
    let nick = optional_entries("NICKNAME"@, c.nickname);
    let gender = gender_entries(c.gender);
    let photos = value_entries("PHOTO"@, c.photos);
    lemma_bare_text("N"@, name_value(c));
    assert("N:"@ + escape::escape(c.last_name) + ";"@ + escape::escape(c.first_name) + ";;;"@
        =~= "N"@ + ":"@ + name_value(c));
    assert(vcard::entry_texts(n) =~= (if c.first_name.len() > 0 || c.last_name.len() > 0 {
        seq!["N:"@ + escape::escape(c.last_name) + ";"@ + escape::escape(c.first_name) + ";;;"@]
    } else {
        seq![]
    }));
    lemma_bare_text("GENDER"@, escape::escape(vcard::gender_code(c.gender)));
    assert(vcard::entry_texts(gender) =~= (if c.gender.len() > 0 {
        seq!["GENDER:"@ + escape::escape(vcard::gender_code(c.gender))]
    } else {
        seq![]
    }));
    lemma_phone_texts(c.phones);
    lemma_address_texts(c.addresses);
    lemma_optional_texts("ORG"@, c.organization);
    lemma_optional_texts("TITLE"@, c.title);
    lemma_optional_texts("ROLE"@, c.role);
    lemma_value_texts("NOTE"@, c.notes);
    lemma_optional_texts("URL"@, c.url);
    lemma_optional_texts("BDAY"@, c.birthday);
    lemma_optional_texts("ANNIVERSARY"@, c.anniversary);
    lemma_optional_texts("NICKNAME"@, c.nickname);
    lemma_value_texts("PHOTO"@, c.photos);
    lemma_texts_concat(n, p);
    lemma_texts_concat(n + p, a);
    lemma_texts_concat(n + p + a, org);
    lemma_texts_concat(n + p + a + org, title);
    lemma_texts_concat(n + p + a + org + title, role);
    lemma_texts_concat(n + p + a + org + title + role, notes);
    lemma_texts_concat(n + p + a + org + title + role + notes, url);
    lemma_texts_concat(n + p + a + org + title + role + notes + url, bday);
    lemma_texts_concat(n + p + a + org + title + role + notes + url + bday, anni);
    lemma_texts_concat(n + p + a + org + title + role + notes + url + bday + anni, nick);
    lemma_texts_concat(n + p + a + org + title + role + notes + url + bday + anni + nick, gender);
    lemma_texts_concat(
        n + p + a + org + title + role + notes + url + bday + anni + nick + gender,
        photos,
    );
}

proof fn lemma_card_texts(body: Seq<Entry>)
    ensures
        vcard::entry_texts(card_entries(body)) == vcard::card_content(vcard::entry_texts(body)),
{
    lemma_heads();
    lemma_bare_text("BEGIN"@, "VCARD"@);
    lemma_bare_text("VERSION"@, "4.0"@);
    lemma_bare_text("END"@, "VCARD"@);
    assert(vcard::entry_texts(card_entries(body)) =~= vcard::card_content(
        vcard::entry_texts(body),
    ));
}

// ---------------------------------------------------------------------
// What each line is read as
// ---------------------------------------------------------------------

/// A name in capitals is its own upper case.
proof fn lemma_capitals(name: Seq<char>)
    requires
        forall|i: int| 0 <= i < name.len() ==> 'A' <= #[trigger] name[i] <= 'Z',
    ensures
        text::uppercase(name) == name,
{
    assert(text::is_ascii_text(name));
    assert(text::ascii_uppercase(name) =~= name);
}

proof fn lemma_upper_names()
    ensures
        text::uppercase("FN"@) == "FN"@,
        text::uppercase("N"@) == "N"@,
        text::uppercase("EMAIL"@) == "EMAIL"@,
        text::uppercase("TEL"@) == "TEL"@,
        text::uppercase("ADR"@) == "ADR"@,
        text::uppercase("ORG"@) == "ORG"@,
        text::uppercase("TITLE"@) == "TITLE"@,
        text::uppercase("ROLE"@) == "ROLE"@,
        text::uppercase("NOTE"@) == "NOTE"@,
        text::uppercase("URL"@) == "URL"@,
        text::uppercase("BDAY"@) == "BDAY"@,
        text::uppercase("ANNIVERSARY"@) == "ANNIVERSARY"@,
        text::uppercase("NICKNAME"@) == "NICKNAME"@,
        text::uppercase("GENDER"@) == "GENDER"@,
        text::uppercase("PHOTO"@) == "PHOTO"@,
        text::uppercase("BEGIN"@) == "BEGIN"@,
        text::uppercase("END"@) == "END"@,
        text::uppercase("VERSION"@) == "VERSION"@,
        text::uppercase("UID"@) == "UID"@,
{
    reveal_strlit("FN");
    reveal_strlit("N");
    reveal_strlit("EMAIL");
    reveal_strlit("TEL");
    reveal_strlit("ADR");
    reveal_strlit("ORG");
    reveal_strlit("TITLE");
    reveal_strlit("ROLE");
    reveal_strlit("NOTE");
    reveal_strlit("URL");
    reveal_strlit("BDAY");
    reveal_strlit("ANNIVERSARY");
    reveal_strlit("NICKNAME");
    reveal_strlit("GENDER");
    reveal_strlit("PHOTO");
    reveal_strlit("BEGIN");
    reveal_strlit("END");
    reveal_strlit("VERSION");
    reveal_strlit("UID");
    lemma_capitals("FN"@);
    lemma_capitals("N"@);
    lemma_capitals("EMAIL"@);
    lemma_capitals("TEL"@);
    lemma_capitals("ADR"@);
    lemma_capitals("ORG"@);
    lemma_capitals("TITLE"@);
    lemma_capitals("ROLE"@);
    lemma_capitals("NOTE"@);
    lemma_capitals("URL"@);
    lemma_capitals("BDAY"@);
    lemma_capitals("ANNIVERSARY"@);
    lemma_capitals("NICKNAME"@);
    lemma_capitals("GENDER"@);
    lemma_capitals("PHOTO"@);
    lemma_capitals("BEGIN"@);
    lemma_capitals("END"@);
    lemma_capitals("VERSION"@);
    lemma_capitals("UID"@);
}

proof fn lemma_lines_concat(a: Seq<Entry>, b: Seq<Entry>)
    ensures
        vcard::entry_lines(a + b) == vcard::entry_lines(a) + vcard::entry_lines(b),
{
    assert(vcard::entry_lines(a + b) =~= vcard::entry_lines(a) + vcard::entry_lines(b));
}

/// The types of a line are its types.
proof fn lemma_typed_types(
    group: Option<Seq<char>>,
    name: Seq<char>,
    types: Seq<Seq<char>>,
    value: Seq<char>,
)
    ensures
        vcard::param_values(typed(group, name, types, value).line.params, "TYPE"@) == types,
{
    let p = typed(group, name, types, value).line.params;
    if types.len() == 0 {
        assert(vcard::param_values(p, "TYPE"@) =~= types);
    } else {
        assert(p.drop_last() =~= seq![]);
        assert(vcard::param_values(p.drop_last(), "TYPE"@) =~= seq![]);
        assert(vcard::param_values(p, "TYPE"@) =~= types);
    }
}

/// A contact after it has taken in the lines of entries.
#[verifier::opaque]
pub open spec fn read_into(c: Contact, es: Seq<Entry>) -> Contact {
    contact_after(c, vcard::entry_lines(es))
}

proof fn lemma_one_read(c: Contact, e: Entry)
    ensures
        read_into(c, seq![e]) == vcard::contact_step(c, e.line),
{
    reveal(read_into);
    lemma_after_one(c, e.line);
    assert(vcard::entry_lines(seq![e]) =~= seq![e.line]);
}

/// The line of a property that is there is read; nothing is read otherwise.
proof fn lemma_optional_read(c: Contact, name: Seq<char>, value: Seq<char>)
    ensures
        read_into(c, optional_entries(name, value)) == (if value.len()
            > 0 {
            vcard::contact_step(c, bare(name, escape::escape(value)).line)
        } else {
            c
        }),
        escape::unescape(escape::escape(value)) == value,
{
    reveal(read_into);
    escape::law_unescape_inverts_escape(value);
    if value.len() > 0 {
        lemma_one_read(c, bare(name, escape::escape(value)));
    } else {
        assert(vcard::entry_lines(optional_entries(name, value)) =~= seq![]);
    }
}

proof fn lemma_notes_read(c: Contact, values: Seq<Seq<char>>)
    ensures
        read_into(c, value_entries("NOTE"@, values)) == (Contact {
            notes: c.notes + values,
            ..c
        }),
    decreases values.len(),
{
    reveal(read_into);
    let l = vcard::entry_lines(value_entries("NOTE"@, values));
    if values.len() == 0 {
        assert(l =~= seq![]);
        assert(c.notes + values =~= c.notes);
    } else {
        let init = values.drop_last();
        lemma_notes_read(c, init);
        assert(l.drop_last() =~= vcard::entry_lines(value_entries("NOTE"@, init)));
        assert(l.last() == bare("NOTE"@, escape::escape(values.last())).line);
        lemma_names();
        lemma_upper_names();
        escape::law_unescape_inverts_escape(values.last());
        assert(c.notes + values =~= (c.notes + init).push(values.last()));
    }
}

proof fn lemma_photos_read(c: Contact, values: Seq<Seq<char>>)
    requires
        forall|i: int| 0 <= i < values.len() ==> #[trigger] values[i].len() > 0,
    ensures
        read_into(c, value_entries("PHOTO"@, values)) == (Contact {
            photos: c.photos + values,
            ..c
        }),
    decreases values.len(),
{
    reveal(read_into);
    let l = vcard::entry_lines(value_entries("PHOTO"@, values));
    if values.len() == 0 {
        assert(l =~= seq![]);
        assert(c.photos + values =~= c.photos);
    } else {
        let init = values.drop_last();
        assert forall|i: int| 0 <= i < init.len() implies #[trigger] init[i].len() > 0 by {
            assert(init[i] == values[i]);
        }
        lemma_photos_read(c, init);
        assert(l.drop_last() =~= vcard::entry_lines(value_entries("PHOTO"@, init)));
        assert(l.last() == bare("PHOTO"@, escape::escape(values.last())).line);
        lemma_names();
        lemma_upper_names();
        escape::law_unescape_inverts_escape(values.last());
        assert(values.last() == values[values.len() - 1]);
        assert(c.photos + values =~= (c.photos + init).push(values.last()));
    }
}

proof fn lemma_phones_read(c: Contact, phones: Seq<Typed>)
    ensures
        read_into(c, Seq::new(phones.len(), |i: int| phone_entry(phones[i]))) == (Contact {
            phones: c.phones + phones,
            ..c
        }),
    decreases phones.len(),
{
    reveal(read_into);
    let l = vcard::entry_lines(Seq::new(phones.len(), |i: int| phone_entry(phones[i])));
    if phones.len() == 0 {
        assert(l =~= seq![]);
        assert(c.phones + phones =~= c.phones);
    } else {
        let init = phones.drop_last();
        let p = phones.last();
        lemma_phones_read(c, init);
        assert(l.drop_last() =~= vcard::entry_lines(
            Seq::new(init.len(), |i: int| phone_entry(init[i])),
        ));
        assert(l.last() == phone_entry(p).line);
        lemma_names();
        lemma_upper_names();
        lemma_typed_types(None, "TEL"@, p.types, escape::escape(p.value));
        escape::law_unescape_inverts_escape(p.value);
        assert(c.phones + phones =~= (c.phones + init).push(p));
    }
}

proof fn lemma_emails_read(c: Contact, emails: Seq<Typed>)
    ensures
        read_into(c, Seq::new(emails.len(), |i: int| email_entry(emails[i], i))) == (Contact { emails: c.emails + emails, ..c }),
    decreases emails.len(),
{
    reveal(read_into);
    let l = vcard::entry_lines(Seq::new(emails.len(), |i: int| email_entry(emails[i], i)));
    if emails.len() == 0 {
        assert(l =~= seq![]);
        assert(c.emails + emails =~= c.emails);
    } else {
        let init = emails.drop_last();
        let e = emails.last();
        let k = emails.len() - 1;
        lemma_emails_read(c, init);
        assert(l.drop_last() =~= vcard::entry_lines(
            Seq::new(init.len(), |i: int| email_entry(init[i], i)),
        ));
        assert(l.last() == email_entry(e, k).line);
        lemma_names();
        lemma_upper_names();
        lemma_typed_types(
            Some("item"@ + numbers::decimal((k + 1) as nat)),
            "EMAIL"@,
            e.types,
            escape::escape(e.value),
        );
        escape::law_unescape_inverts_escape(e.value);
        assert(c.emails + emails =~= (c.emails + init).push(e));
    }
}

/// The value of an address line from its street on.
spec fn street_on(a: Address) -> Seq<char> {
    escape::escape(a.street) + (";"@ + (escape::escape(a.locality) + (";"@ + (escape::escape(
        a.region,
    ) + (";"@ + (escape::escape(a.postal_code) + (";"@ + escape::escape(a.country))))))))
}

proof fn lemma_address_value(a: Address)
    ensures
        address_value(a) == escape::escape(seq![]) + (";"@ + (escape::escape(seq![]) + (";"@
            + street_on(a)))),
{
    let none = Seq::<char>::empty();
    let (street, locality) = (escape::escape(a.street), escape::escape(a.locality));
    let (region, code) = (escape::escape(a.region), escape::escape(a.postal_code));
    let country = escape::escape(a.country);
    let p0 = ";;"@ + street;
    let p1 = p0 + ";"@ + locality;
    let p2 = p1 + ";"@ + region;
    let p3 = p2 + ";"@ + code;
    lemma_regroup(p3, ";"@, country);
    let t3 = ";"@ + country;
    lemma_regroup(p2 + ";"@, code, t3);
    lemma_regroup(p2, ";"@, code + t3);
    let t2 = ";"@ + (code + t3);
    lemma_regroup(p1 + ";"@, region, t2);
    lemma_regroup(p1, ";"@, region + t2);
    let t1 = ";"@ + (region + t2);
    lemma_regroup(p0 + ";"@, locality, t1);
    lemma_regroup(p0, ";"@, locality + t1);
    let t0 = ";"@ + (locality + t1);
    lemma_regroup(";;"@, street, t0);
    assert(address_value(a) == ";;"@ + street_on(a));
    assert(";;"@ == ";"@ + ";"@) by {
        reveal_strlit(";");
        reveal_strlit(";;");
        assert(";;"@ =~= ";"@ + ";"@);
    }
    lemma_regroup(";"@, ";"@, street_on(a));
    assert(escape::escape(none) =~= none);
    assert(none + (";"@ + street_on(a)) =~= ";"@ + street_on(a));
    assert(none + (";"@ + (";"@ + street_on(a))) =~= ";"@ + (";"@ + street_on(a)));
}

proof fn lemma_street_on(a: Address)
    ensures
        escape::value_parts(street_on(a)) == seq![a.street] + (seq![a.locality] + (
        seq![a.region] + (seq![a.postal_code] + seq![a.country]))),
{
    let r6 = escape::escape(a.country);
    let r5 = escape::escape(a.postal_code) + (";"@ + r6);
    let r4 = escape::escape(a.region) + (";"@ + r5);
    let r3 = escape::escape(a.locality) + (";"@ + r4);
    escape::law_escaped_part_splits_off(a.country, r6);
    escape::law_escaped_part_splits_off(a.postal_code, r6);
    escape::law_escaped_part_splits_off(a.region, r5);
    escape::law_escaped_part_splits_off(a.locality, r4);
    escape::law_escaped_part_splits_off(a.street, r3);
}

proof fn lemma_address_parts(a: Address)
    ensures
        ({
            let parts = escape::value_parts(address_value(a));
            &&& parts.len() == 7
            &&& parts[2] == a.street
            &&& parts[3] == a.locality
            &&& parts[4] == a.region
            &&& parts[5] == a.postal_code
            &&& parts[6] == a.country
        }),
{
    let none = Seq::<char>::empty();
    let rest = street_on(a);
    lemma_address_value(a);
    lemma_street_on(a);
    escape::law_escaped_part_splits_off(none, rest);
    escape::law_escaped_part_splits_off(none, escape::escape(none) + (";"@ + rest));
}

proof fn lemma_addresses_read(c: Contact, addresses: Seq<Address>)
    ensures
        read_into(c, Seq::new(addresses.len(), |i: int| address_entry(addresses[i]))) == (Contact { addresses: c.addresses + addresses, ..c }),
    decreases addresses.len(),
{
    reveal(read_into);
    let l = vcard::entry_lines(Seq::new(addresses.len(), |i: int| address_entry(addresses[i])));
    if addresses.len() == 0 {
        assert(l =~= seq![]);
        assert(c.addresses + addresses =~= c.addresses);
    } else {
        let init = addresses.drop_last();
        let a = addresses.last();
        lemma_addresses_read(c, init);
        assert(l.drop_last() =~= vcard::entry_lines(
            Seq::new(init.len(), |i: int| address_entry(init[i])),
        ));
        assert(l.last() == address_entry(a).line);
        lemma_names();
        lemma_upper_names();
        lemma_typed_types(None, "ADR"@, a.types, address_value(a));
        assert(a == addresses[addresses.len() - 1]);
        lemma_address_parts(a);
        assert(c.addresses + addresses =~= (c.addresses + init).push(a));
    }
}

proof fn lemma_name_read(c: Contact, d: Contact)
    requires
        c.first_name.len() == 0,
        c.last_name.len() == 0,
    ensures
        read_into(c, name_entries(d)) == (Contact {
            first_name: d.first_name,
            last_name: d.last_name,
            ..c
        }),
{
    reveal(read_into);
    if d.first_name.len() > 0 || d.last_name.len() > 0 {
        reveal_strlit(";");
        reveal_strlit(";;;");
        let none = Seq::<char>::empty();
        let r3 = escape::escape(none) + (";"@ + escape::escape(none));
        let r2 = escape::escape(none) + (";"@ + r3);
        let r1 = escape::escape(d.first_name) + (";"@ + r2);
        let r0 = escape::escape(d.last_name) + (";"@ + r1);
        escape::law_escaped_part_splits_off(d.last_name, r1);
        escape::law_escaped_part_splits_off(d.first_name, r2);
        assert(escape::escape(none) =~= none);
        assert(name_value(d) =~= r0);
        lemma_one_read(c, bare("N"@, name_value(d)));
        lemma_names();
        lemma_upper_names();
        let parts = escape::value_parts(r0);
        assert(parts[0] == d.last_name);
        assert(parts[1] == d.first_name);
    } else {
        assert(vcard::entry_lines(name_entries(d)) =~= seq![]);
        assert(c.first_name =~= d.first_name);
        assert(c.last_name =~= d.last_name);
    }
}

proof fn lemma_org_read(c: Contact, value: Seq<char>)
    requires
        c.organization.len() == 0,
    ensures
        read_into(c, optional_entries("ORG"@, value)) == (Contact { organization: value, ..c }),
{
    lemma_optional_read(c, "ORG"@, value);
    lemma_names();
    lemma_upper_names();
    if value.len() == 0 {
        assert(c.organization =~= value);
    }
}

proof fn lemma_title_read(c: Contact, value: Seq<char>)
    requires
        c.title.len() == 0,
    ensures
        read_into(c, optional_entries("TITLE"@, value)) == (Contact { title: value, ..c }),
{
    lemma_optional_read(c, "TITLE"@, value);
    lemma_names();
    lemma_upper_names();
    if value.len() == 0 {
        assert(c.title =~= value);
    }
}

proof fn lemma_role_read(c: Contact, value: Seq<char>)
    requires
        c.role.len() == 0,
    ensures
        read_into(c, optional_entries("ROLE"@, value)) == (Contact { role: value, ..c }),
{
    lemma_optional_read(c, "ROLE"@, value);
    lemma_names();
    lemma_upper_names();
    if value.len() == 0 {
        assert(c.role =~= value);
    }
}

proof fn lemma_url_read(c: Contact, value: Seq<char>)
    requires
        c.url.len() == 0,
    ensures
        read_into(c, optional_entries("URL"@, value)) == (Contact { url: value, ..c }),
{
    lemma_optional_read(c, "URL"@, value);
    lemma_names();
    lemma_upper_names();
    if value.len() == 0 {
        assert(c.url =~= value);
    }
}

proof fn lemma_bday_read(c: Contact, value: Seq<char>)
    requires
        c.birthday.len() == 0,
    ensures
        read_into(c, optional_entries("BDAY"@, value)) == (Contact {
            birthday: vcard::bday_form(value),
            ..c
        }),
{
    lemma_optional_read(c, "BDAY"@, value);
    lemma_names();
    lemma_upper_names();
    if value.len() == 0 {
        assert(c.birthday =~= value);
    }
}

proof fn lemma_anniversary_read(c: Contact, value: Seq<char>)
    requires
        c.anniversary.len() == 0,
    ensures
        read_into(c, optional_entries("ANNIVERSARY"@, value)) == (Contact {
            anniversary: vcard::bday_form(value),
            ..c
        }),
{
    lemma_optional_read(c, "ANNIVERSARY"@, value);
    lemma_names();
    lemma_upper_names();
    if value.len() == 0 {
        assert(c.anniversary =~= value);
    }
}

proof fn lemma_nickname_read(c: Contact, value: Seq<char>)
    requires
        c.nickname.len() == 0,
    ensures
        read_into(c, optional_entries("NICKNAME"@, value)) == (Contact { nickname: value, ..c }),
{
    lemma_optional_read(c, "NICKNAME"@, value);
    lemma_names();
    lemma_upper_names();
    if value.len() == 0 {
        assert(c.nickname =~= value);
    }
}

/// What a gender reads back as: one that a card has a letter for as itself.
pub open spec fn read_gender(g: Seq<char>) -> Seq<char> {
    if g.len() == 0 {
        g
    } else {
        vcard::gender_name(vcard::gender_code(g))
    }
}

/// A gender that a card has a letter for, or none.
pub open spec fn plain_gender(g: Seq<char>) -> bool {
    g.len() == 0 || g == "Male"@ || g == "Female"@ || g == "Other"@ || g == "N/A"@ || g
        == "Unknown"@
}

/// A known gender is written as a letter that stands for it.
proof fn lemma_gender_letter(g: Seq<char>)
    requires
        plain_gender(g),
        g.len() > 0,
    ensures
        is_text(vcard::gender_code(g)),
        vcard::gender_name(vcard::gender_code(g)) == g,
{
    reveal_strlit("Male");
    reveal_strlit("Female");
    reveal_strlit("Other");
    reveal_strlit("N/A");
    reveal_strlit("Unknown");
    reveal_strlit("MALE");
    reveal_strlit("FEMALE");
    reveal_strlit("OTHER");
    reveal_strlit("UNKNOWN");
    reveal_strlit("M");
    reveal_strlit("F");
    reveal_strlit("O");
    reveal_strlit("N");
    reveal_strlit("U");
    assert(text::is_ascii_text(g));
    if g == "Male"@ {
        assert(text::uppercase(g) =~= "MALE"@);
    } else if g == "Female"@ {
        assert(text::uppercase(g) =~= "FEMALE"@);
    } else if g == "Other"@ {
        assert(text::uppercase(g) =~= "OTHER"@);
    } else if g == "N/A"@ {
        assert(text::uppercase(g) =~= "N/A"@);
    } else {
        assert(text::uppercase(g) =~= "UNKNOWN"@);
    }
    let v = vcard::gender_code(g);
    assert(v.len() == 1);
    assert(text::is_ascii_text(v));
    assert(text::uppercase(v)[0] == v[0]);
}

proof fn lemma_gender_read(c: Contact, g: Seq<char>)
    requires
        c.gender.len() == 0,
    ensures
        read_into(c, gender_entries(g)) == (Contact { gender: read_gender(g), ..c }),
{
    reveal(read_into);
    if g.len() > 0 {
        let code = vcard::gender_code(g);
        lemma_one_read(c, bare("GENDER"@, escape::escape(code)));
        escape::law_unescape_inverts_escape(code);
        lemma_names();
        lemma_upper_names();
    } else {
        assert(vcard::entry_lines(gender_entries(g)) =~= seq![]);
        assert(c.gender =~= g);
    }
}

// ---------------------------------------------------------------------
// Whole cards
// ---------------------------------------------------------------------

/// What the signed card of a contact holds.
pub open spec fn signed_part(c: Contact) -> Contact {
    Contact { display_name: vcard::shown_name(c), emails: c.emails, ..vcard::no_contact() }
}

/// What the encrypted card of a contact holds: dates of eight digits get
/// dashes, and the gender is the one that its letter stands for.
pub open spec fn encrypted_part(c: Contact) -> Contact {
    Contact {
        display_name: seq![],
        emails: seq![],
        birthday: vcard::bday_form(c.birthday),
        anniversary: vcard::bday_form(c.anniversary),
        gender: read_gender(c.gender),
        ..c
    }
}

proof fn lemma_signed_contact(c: Contact, uid: Seq<char>)
    ensures
        read_into(vcard::no_contact(), card_entries(signed_entries(c, uid))) == signed_part(c),
{
    let none = vcard::no_contact();
    let e2 = seq![bare("UID"@, uid)];
    let e3 = seq![bare("FN"@, escape::escape(vcard::shown_name(c)))];
    let mails = Seq::new(c.emails.len(), |i: int| email_entry(c.emails[i], i));
    assert(signed_entries(c, uid) =~= e2 + e3 + mails);
    lemma_unread(none, "UID"@, uid);
    lemma_segment(none, e2, e3);
    let d = Contact { display_name: vcard::shown_name(c), ..none };
    assert(read_into(none, e3) == d) by {
        lemma_one_read(none, bare("FN"@, escape::escape(vcard::shown_name(c))));
        lemma_names();
        lemma_upper_names();
        escape::law_unescape_inverts_escape(vcard::shown_name(c));
    }
    lemma_segment(none, e2 + e3, mails);
    lemma_emails_read(d, c.emails);
    assert(d.emails + c.emails =~= c.emails);
    lemma_wrapped(signed_entries(c, uid));
}

/// The lines that say nothing of the contact.
proof fn lemma_unread(c: Contact, name: Seq<char>, value: Seq<char>)
    requires
        name == "BEGIN"@ || name == "VERSION"@ || name == "UID"@ || name == "END"@,
    ensures
        read_into(c, seq![bare(name, value)]) == c,
{
    lemma_one_read(c, bare(name, value));
    lemma_names();
    lemma_upper_names();
}

/// Lines behind others are read into what the others gave.
proof fn lemma_segment(start: Contact, front: Seq<Entry>, more: Seq<Entry>)
    ensures
        read_into(start, front + more) == read_into(read_into(start, front), more),
{
    reveal(read_into);
    lemma_lines_concat(front, more);
    lemma_after_concat(start, vcard::entry_lines(front), vcard::entry_lines(more));
}

/// What a card can hold and give back of what goes into the encrypted card.
pub open spec fn plain_parts(c: Contact) -> bool {
    &&& forall|i: int| 0 <= i < c.photos.len() ==> #[trigger] c.photos[i].len() > 0
}

proof fn lemma_encrypted_contact(c: Contact)
    requires
        plain_parts(c),
    ensures
        read_into(vcard::no_contact(), card_entries(encrypted_entries(c))) == encrypted_part(c),
{
    let none = vcard::no_contact();
    let n = name_entries(c);
    let p = Seq::new(c.phones.len(), |i: int| phone_entry(c.phones[i]));
    let a = Seq::new(c.addresses.len(), |i: int| address_entry(c.addresses[i]));
    let org = optional_entries("ORG"@, c.organization);
    let title = optional_entries("TITLE"@, c.title);
    let role = optional_entries("ROLE"@, c.role);
    let notes = value_entries("NOTE"@, c.notes);
    let url = optional_entries("URL"@, c.url);
    let bday = optional_entries("BDAY"@, c.birthday);
    let anni = optional_entries("ANNIVERSARY"@, c.anniversary);
    let nick = optional_entries("NICKNAME"@, c.nickname);
    let gender = gender_entries(c.gender);
    let photos = value_entries("PHOTO"@, c.photos);
    lemma_name_read(none, c);
    let c1 = Contact { first_name: c.first_name, last_name: c.last_name, ..none };
    let e1 = n;
    lemma_segment(none, e1, p);
    lemma_phones_read(c1, c.phones);
    assert(c1.phones + c.phones =~= c.phones);
    let c2 = Contact { phones: c.phones, ..c1 };
    let e2 = e1 + p;
    lemma_segment(none, e2, a);
    lemma_addresses_read(c2, c.addresses);
    assert(c2.addresses + c.addresses =~= c.addresses);
    let c3 = Contact { addresses: c.addresses, ..c2 };
    let e3 = e2 + a;
    lemma_segment(none, e3, org);
    lemma_org_read(c3, c.organization);
    let c4 = Contact { organization: c.organization, ..c3 };
    let e4 = e3 + org;
    lemma_segment(none, e4, title);
    lemma_title_read(c4, c.title);
    let c5 = Contact { title: c.title, ..c4 };
    let e5 = e4 + title;
    lemma_segment(none, e5, role);
    lemma_role_read(c5, c.role);
    let c6 = Contact { role: c.role, ..c5 };
    let e6 = e5 + role;
    lemma_segment(none, e6, notes);
    lemma_notes_read(c6, c.notes);
    assert(c6.notes + c.notes =~= c.notes);
    let c7 = Contact { notes: c.notes, ..c6 };
    let e7 = e6 + notes;
    lemma_segment(none, e7, url);
    lemma_url_read(c7, c.url);
    let c8 = Contact { url: c.url, ..c7 };
    let e8 = e7 + url;
    lemma_segment(none, e8, bday);
    lemma_bday_read(c8, c.birthday);
    let c9 = Contact { birthday: vcard::bday_form(c.birthday), ..c8 };
    let e9 = e8 + bday;
    lemma_segment(none, e9, anni);
    lemma_anniversary_read(c9, c.anniversary);
    let c10 = Contact { anniversary: vcard::bday_form(c.anniversary), ..c9 };
    let e10 = e9 + anni;
    lemma_segment(none, e10, nick);
    lemma_nickname_read(c10, c.nickname);
    let c11 = Contact { nickname: c.nickname, ..c10 };
    let e11 = e10 + nick;
    lemma_segment(none, e11, gender);
    lemma_gender_read(c11, c.gender);
    let c12 = Contact { gender: read_gender(c.gender), ..c11 };
    let e12 = e11 + gender;
    lemma_segment(none, e12, photos);
    lemma_photos_read(c12, c.photos);
    assert(c12.photos + c.photos =~= c.photos);
    let c13 = Contact { photos: c.photos, ..c12 };
    assert(c13 =~= encrypted_part(c));
    lemma_wrapped(encrypted_entries(c));
}

/// The lines round a card say nothing of the contact.
proof fn lemma_wrapped(body: Seq<Entry>)
    ensures
        read_into(vcard::no_contact(), card_entries(body)) == read_into(vcard::no_contact(), body),
{
    let none = vcard::no_contact();
    let begin = seq![bare("BEGIN"@, "VCARD"@)];
    let version = seq![bare("VERSION"@, "4.0"@)];
    let tail = seq![bare("END"@, "VCARD"@)];
    assert(card_entries(body) =~= begin + version + body + tail);
    lemma_unread(none, "BEGIN"@, "VCARD"@);
    lemma_segment(none, begin, version);
    lemma_unread(none, "VERSION"@, "4.0"@);
    lemma_segment(none, begin + version, body);
    lemma_segment(none, begin + version + body, tail);
    lemma_unread(read_into(none, body), "END"@, "VCARD"@);
}

// ---------------------------------------------------------------------
// Lines that are written as they are
// ---------------------------------------------------------------------

/// A line that is written as it is and starts no card.
pub open spec fn is_shaped(e: Entry) -> bool {
    &&& e.group matches Some(g) ==> vcard::is_identifier(g)
    &&& vcard::is_identifier(e.line.name)
    &&& forall|i: int|
        0 <= i < e.line.params.len() ==> vcard::is_param(#[trigger] e.line.params[i])
    &&& vcard::is_value(e.line.value)
    &&& !vcard::is_begin(e.line)
}

pub open spec fn are_shaped(es: Seq<Entry>) -> bool {
    forall|i: int| 0 <= i < es.len() ==> is_shaped(#[trigger] es[i])
}

proof fn lemma_shaped_concat(a: Seq<Entry>, b: Seq<Entry>)
    requires
        are_shaped(a),
        are_shaped(b),
    ensures
        are_shaped(a + b),
{
    assert forall|i: int| 0 <= i < (a + b).len() implies is_shaped(#[trigger] (a + b)[i]) by {
        if i < a.len() {
            assert((a + b)[i] == a[i]);
        } else {
            assert((a + b)[i] == b[i - a.len()]);
        }
    }
}

/// A name of a property, in capitals.
pub open spec fn is_prop(name: Seq<char>) -> bool {
    ||| name == "FN"@
    ||| name == "N"@
    ||| name == "TEL"@
    ||| name == "ADR"@
    ||| name == "ORG"@
    ||| name == "TITLE"@
    ||| name == "ROLE"@
    ||| name == "NOTE"@
    ||| name == "URL"@
    ||| name == "BDAY"@
    ||| name == "ANNIVERSARY"@
    ||| name == "NICKNAME"@
    ||| name == "GENDER"@
    ||| name == "PHOTO"@
    ||| name == "END"@
    ||| name == "VERSION"@
    ||| name == "UID"@
    ||| name == "EMAIL"@
}

proof fn lemma_prop(name: Seq<char>)
    requires
        is_prop(name),
    ensures
        vcard::is_identifier(name),
        !text::same_ignoring_case(name, "BEGIN"@),
{
    reveal_strlit("FN");
    reveal_strlit("N");
    reveal_strlit("TEL");
    reveal_strlit("ADR");
    reveal_strlit("ORG");
    reveal_strlit("TITLE");
    reveal_strlit("ROLE");
    reveal_strlit("NOTE");
    reveal_strlit("URL");
    reveal_strlit("BDAY");
    reveal_strlit("ANNIVERSARY");
    reveal_strlit("NICKNAME");
    reveal_strlit("GENDER");
    reveal_strlit("PHOTO");
    reveal_strlit("END");
    reveal_strlit("VERSION");
    reveal_strlit("UID");
    reveal_strlit("EMAIL");
    reveal_strlit("BEGIN");
    let up = text::ascii_uppercase(name);
    let begin = text::ascii_uppercase("BEGIN"@);
    assert(begin.len() == 5 && begin[0] == 'B');
    assert(up.len() == name.len());
    assert(up[0] == name[0]);
    assert(name.len() != 5 || name[0] != 'B');
}

proof fn lemma_typed_shaped(
    group: Option<Seq<char>>,
    name: Seq<char>,
    types: Seq<Seq<char>>,
    value: Seq<char>,
)
    requires
        group matches Some(g) ==> vcard::is_identifier(g),
        is_prop(name),
        plain_types(types),
        vcard::is_value(value),
    ensures
        is_shaped(typed(group, name, types, value)),
{
    lemma_prop(name);
    reveal_strlit("TYPE");
    let e = typed(group, name, types, value);
    assert forall|i: int| 0 <= i < e.line.params.len() implies vcard::is_param(
        #[trigger] e.line.params[i],
    ) by {
        assert(e.line.params[i] == ("TYPE"@, types));
    }
}

proof fn lemma_bare_shaped(name: Seq<char>, value: Seq<char>)
    requires
        is_prop(name),
        vcard::is_value(value),
    ensures
        is_shaped(bare(name, value)),
{
    lemma_prop(name);
}

/// Types that are written as they are.
pub open spec fn plain_types(types: Seq<Seq<char>>) -> bool {
    forall|i: int| 0 <= i < types.len() ==> vcard::is_param_value(#[trigger] types[i])
}

pub open spec fn plain_typed(all: Seq<Typed>) -> bool {
    forall|i: int|
        0 <= i < all.len() ==> is_text((#[trigger] all[i]).value) && plain_types(all[i].types)
}

/// What the signed card can hold: texts whose control characters are line
/// feeds and tabs, and types that need no quotes.
pub open spec fn signs_plainly(c: Contact, uid: Seq<char>) -> bool {
    &&& vcard::is_value(uid)
    &&& is_text(vcard::shown_name(c))
    &&& plain_typed(c.emails)
    &&& are_short(vcard::signed_body(c, uid))
}

/// What the encrypted card can hold and give back: texts whose control
/// characters are line feeds and tabs, types that need no quotes, and photos
/// that are not empty.
pub open spec fn encrypts_plainly(c: Contact) -> bool {
    &&& plain_parts(c)
    &&& is_text(c.first_name)
    &&& is_text(c.last_name)
    &&& plain_typed(c.phones)
    &&& forall|i: int|
        0 <= i < c.addresses.len() ==> address_text(#[trigger] c.addresses[i])
    &&& is_text(c.organization)
    &&& is_text(c.title)
    &&& is_text(c.role)
    &&& are_texts(c.notes)
    &&& is_text(c.url)
    &&& is_text(c.birthday)
    &&& is_text(c.anniversary)
    &&& is_text(c.nickname)
    &&& is_text(vcard::gender_code(c.gender))
    &&& are_texts(c.photos)
    &&& are_short(vcard::encrypted_body(c))
}

pub open spec fn address_text(a: Address) -> bool {
    &&& is_text(a.street)
    &&& is_text(a.locality)
    &&& is_text(a.region)
    &&& is_text(a.postal_code)
    &&& is_text(a.country)
    &&& plain_types(a.types)
}

pub open spec fn are_texts(all: Seq<Seq<char>>) -> bool {
    forall|i: int| 0 <= i < all.len() ==> is_text(#[trigger] all[i])
}

/// Lines within the longest line that is read.
pub open spec fn are_short(l: Seq<Seq<char>>) -> bool {
    forall|i: int| 0 <= i < l.len() ==> lines::octets(#[trigger] l[i]) <= 16777216
}

proof fn lemma_signed_shaped(c: Contact, uid: Seq<char>)
    requires
        signs_plainly(c, uid),
    ensures
        are_shaped(signed_entries(c, uid)),
{
    let es = signed_entries(c, uid);
    assert forall|i: int| 0 <= i < es.len() implies is_shaped(#[trigger] es[i]) by {
        if i == 0 {
            lemma_bare_shaped("UID"@, uid);
        } else if i == 1 {
            lemma_escaped_value(vcard::shown_name(c));
            lemma_bare_shaped("FN"@, escape::escape(vcard::shown_name(c)));
        } else {
            let k = i - 2;
            let m = c.emails[k];
            assert(es[i] == email_entry(m, k));
            let g = "item"@ + numbers::decimal((k + 1) as nat);
            lemma_item_group(k);
            lemma_escaped_value(m.value);
            lemma_typed_shaped(Some(g), "EMAIL"@, m.types, escape::escape(m.value));
        }
    }
}

proof fn lemma_optional_shaped(name: Seq<char>, value: Seq<char>)
    requires
        is_prop(name),
        is_text(value),
    ensures
        are_shaped(optional_entries(name, value)),
{
    lemma_escaped_value(value);
    lemma_bare_shaped(name, escape::escape(value));
}

proof fn lemma_values_shaped(name: Seq<char>, values: Seq<Seq<char>>)
    requires
        is_prop(name),
        are_texts(values),
    ensures
        are_shaped(value_entries(name, values)),
{
    let es = value_entries(name, values);
    assert forall|i: int| 0 <= i < es.len() implies is_shaped(#[trigger] es[i]) by {
        lemma_escaped_value(values[i]);
        lemma_bare_shaped(name, escape::escape(values[i]));
    }
}

proof fn lemma_phones_shaped(phones: Seq<Typed>)
    requires
        plain_typed(phones),
    ensures
        are_shaped(Seq::new(phones.len(), |i: int| phone_entry(phones[i]))),
{
    let es = Seq::new(phones.len(), |i: int| phone_entry(phones[i]));
    assert forall|i: int| 0 <= i < es.len() implies is_shaped(#[trigger] es[i]) by {
        let p = phones[i];
        lemma_escaped_value(p.value);
        lemma_typed_shaped(None, "TEL"@, p.types, escape::escape(p.value));
    }
}

proof fn lemma_addresses_shaped(addresses: Seq<Address>)
    requires
        forall|i: int| 0 <= i < addresses.len() ==> address_text(#[trigger] addresses[i]),
    ensures
        are_shaped(Seq::new(addresses.len(), |i: int| address_entry(addresses[i]))),
{
    let es = Seq::new(addresses.len(), |i: int| address_entry(addresses[i]));
    assert forall|i: int| 0 <= i < es.len() implies is_shaped(#[trigger] es[i]) by {
        let a = addresses[i];
        reveal_strlit(";;");
        reveal_strlit(";");
        lemma_escaped_value(a.street);
        lemma_escaped_value(a.locality);
        lemma_escaped_value(a.region);
        lemma_escaped_value(a.postal_code);
        lemma_escaped_value(a.country);
        let v0 = ";;"@ + escape::escape(a.street);
        lemma_value_concat(";;"@, escape::escape(a.street));
        lemma_value_concat(v0, ";"@);
        let v1 = v0 + ";"@ + escape::escape(a.locality);
        lemma_value_concat(v0 + ";"@, escape::escape(a.locality));
        lemma_value_concat(v1, ";"@);
        let v2 = v1 + ";"@ + escape::escape(a.region);
        lemma_value_concat(v1 + ";"@, escape::escape(a.region));
        lemma_value_concat(v2, ";"@);
        let v3 = v2 + ";"@ + escape::escape(a.postal_code);
        lemma_value_concat(v2 + ";"@, escape::escape(a.postal_code));
        lemma_value_concat(v3, ";"@);
        lemma_value_concat(v3 + ";"@, escape::escape(a.country));
        lemma_typed_shaped(None, "ADR"@, a.types, address_value(a));
    }
}

proof fn lemma_encrypted_shaped(c: Contact)
    requires
        encrypts_plainly(c),
    ensures
        are_shaped(encrypted_entries(c)),
{
    let n = name_entries(c);
    let p = Seq::new(c.phones.len(), |i: int| phone_entry(c.phones[i]));
    let a = Seq::new(c.addresses.len(), |i: int| address_entry(c.addresses[i]));
    let org = optional_entries("ORG"@, c.organization);
    let title = optional_entries("TITLE"@, c.title);
    let role = optional_entries("ROLE"@, c.role);
    let notes = value_entries("NOTE"@, c.notes);
    let url = optional_entries("URL"@, c.url);
    let bday = optional_entries("BDAY"@, c.birthday);
    let anni = optional_entries("ANNIVERSARY"@, c.anniversary);
    let nick = optional_entries("NICKNAME"@, c.nickname);
    let gender = gender_entries(c.gender);
    let photos = value_entries("PHOTO"@, c.photos);
    assert(are_shaped(n)) by {
        reveal_strlit(";");
        reveal_strlit(";;;");
        lemma_escaped_value(c.last_name);
        lemma_escaped_value(c.first_name);
        let last = escape::escape(c.last_name);
        lemma_value_concat(last, ";"@);
        lemma_value_concat(last + ";"@, escape::escape(c.first_name));
        lemma_value_concat(last + ";"@ + escape::escape(c.first_name), ";;;"@);
        lemma_bare_shaped("N"@, name_value(c));
    }
    assert(are_shaped(gender)) by {
        if c.gender.len() > 0 {
            lemma_escaped_value(vcard::gender_code(c.gender));
            lemma_bare_shaped("GENDER"@, escape::escape(vcard::gender_code(c.gender)));
        }
    }
    lemma_phones_shaped(c.phones);
    lemma_addresses_shaped(c.addresses);
    lemma_optional_shaped("ORG"@, c.organization);
    lemma_optional_shaped("TITLE"@, c.title);
    lemma_optional_shaped("ROLE"@, c.role);
    lemma_values_shaped("NOTE"@, c.notes);
    lemma_optional_shaped("URL"@, c.url);
    lemma_optional_shaped("BDAY"@, c.birthday);
    lemma_optional_shaped("ANNIVERSARY"@, c.anniversary);
    lemma_optional_shaped("NICKNAME"@, c.nickname);
    lemma_values_shaped("PHOTO"@, c.photos);
    lemma_shaped_concat(n, p);
    lemma_shaped_concat(n + p, a);
    let e3 = n + p + a;
    lemma_shaped_concat(e3, org);
    lemma_shaped_concat(e3 + org, title);
    let e5 = e3 + org + title;
    lemma_shaped_concat(e5, role);
    lemma_shaped_concat(e5 + role, notes);
    let e7 = e5 + role + notes;
    lemma_shaped_concat(e7, url);
    lemma_shaped_concat(e7 + url, bday);
    let e9 = e7 + url + bday;
    lemma_shaped_concat(e9, anni);
    lemma_shaped_concat(e9 + anni, nick);
    let e11 = e9 + anni + nick;
    lemma_shaped_concat(e11, gender);
    lemma_shaped_concat(e11 + gender, photos);
}

/// Where only the first line starts a card, the last card starts there.
proof fn lemma_last_begin(l: Seq<Line>)
    requires
        l.len() > 0,
        vcard::is_begin(l[0]),
        forall|i: int| 1 <= i < l.len() ==> !vcard::is_begin(#[trigger] l[i]),
    ensures
        vcard::last_begin(l) == 0,
    decreases l.len(),
{
    if l.len() > 1 {
        let init = l.drop_last();
        assert forall|i: int| 1 <= i < init.len() implies !vcard::is_begin(#[trigger] init[i]) by {
            assert(init[i] == l[i]);
        }
        assert(init[0] == l[0]);
        lemma_last_begin(init);
        assert(l.last() == l[l.len() - 1]);
    }
}

/// A card round shaped lines is one that reads back.
proof fn lemma_card_shaped(body: Seq<Entry>)
    requires
        are_shaped(body),
        are_short(vcard::entry_texts(body)),
    ensures
        vcard::are_entries(card_entries(body)),
        vcard::contact_of(vcard::entry_lines(card_entries(body))) == read_into(
            vcard::no_contact(),
            card_entries(body),
        ),
{
    let es = card_entries(body);
    let l = vcard::entry_lines(es);
    assert("BEGIN"@.len() == 5 && "VERSION"@.len() == 7 && "END"@.len() == 3) by {
        lemma_names();
    }
    assert forall|i: int| 0 <= i < es.len() implies vcard::is_entry(#[trigger] es[i]) && (i >= 1
        ==> !vcard::is_begin(es[i].line)) by {
        lemma_round(es[0], es[1], es.last());
        if 2 <= i < es.len() - 1 {
            let e = body[i - 2];
            assert(es[i] == e);
            assert(vcard::entry_texts(body)[i - 2] == vcard::entry_text(e));
        }
    }
    assert(vcard::is_begin(l[0]));
    assert forall|i: int| 1 <= i < l.len() implies !vcard::is_begin(#[trigger] l[i]) by {
        assert(l[i] == es[i].line);
    }
    lemma_last_begin(l);
    assert(l.skip(0) =~= l);
    lemma_after_nothing(l);
    reveal(read_into);
}

/// The lines round a card are written as they are.
proof fn lemma_round(first: Entry, second: Entry, last: Entry)
    requires
        first == bare("BEGIN"@, "VCARD"@),
        second == bare("VERSION"@, "4.0"@),
        last == bare("END"@, "VCARD"@),
    ensures
        vcard::is_entry(first),
        vcard::is_entry(second),
        vcard::is_entry(last),
        !vcard::is_begin(second.line),
        !vcard::is_begin(last.line),
{
    reveal_strlit("BEGIN");
    reveal_strlit("VCARD");
    reveal_strlit("4.0");
    lemma_bare_shaped("VERSION"@, "4.0"@);
    lemma_bare_shaped("END"@, "VCARD"@);
    lemma_bare_text("BEGIN"@, "VCARD"@);
    lemma_bare_text("VERSION"@, "4.0"@);
    lemma_bare_text("END"@, "VCARD"@);
    lines::lemma_few_octets("BEGIN"@ + ":"@ + "VCARD"@);
    lines::lemma_few_octets("VERSION"@ + ":"@ + "4.0"@);
    lines::lemma_few_octets("END"@ + ":"@ + "VCARD"@);
    lemma_names();
    reveal_strlit(":");
}

/// The signed card of a contact reads back as the name that is shown and the
/// e-mail addresses.
pub proof fn law_signed_card_reads_back(c: Contact, uid: Seq<char>)
    requires
        signs_plainly(c, uid),
    ensures
        ({
            let es = card_entries(signed_entries(c, uid));
            &&& vcard::entry_texts(es) == vcard::card_content(vcard::signed_body(c, uid))
            &&& vcard::are_entries(es)
            &&& vcard::contact_of(vcard::entry_lines(es)) == signed_part(c)
        }),
{
    lemma_signed_texts(c, uid);
    lemma_card_texts(signed_entries(c, uid));
    lemma_signed_shaped(c, uid);
    lemma_card_shaped(signed_entries(c, uid));
    lemma_signed_contact(c, uid);
}

/// The encrypted card of a contact reads back as everything but the name that
/// is shown and the e-mail addresses.
pub proof fn law_encrypted_card_reads_back(c: Contact)
    requires
        encrypts_plainly(c),
    ensures
        ({
            let es = card_entries(encrypted_entries(c));
            &&& vcard::entry_texts(es) == vcard::card_content(vcard::encrypted_body(c))
            &&& vcard::are_entries(es)
            &&& vcard::contact_of(vcard::entry_lines(es)) == encrypted_part(c)
        }),
{
    lemma_encrypted_texts(c);
    lemma_card_texts(encrypted_entries(c));
    lemma_encrypted_shaped(c);
    lemma_card_shaped(encrypted_entries(c));
    lemma_encrypted_contact(c);
}

// ---------------------------------------------------------------------
// What every pair of cards keeps
// ---------------------------------------------------------------------

/// A card always shows a name.
pub proof fn law_shown_name_not_empty(c: Contact)
    ensures
        vcard::shown_name(c).len() > 0,
{
    reveal_strlit("Unknown");
}

/// There is an encrypted card exactly where the contact holds anything but
/// the name that is shown and e-mail addresses.
pub proof fn law_nothing_to_encrypt(c: Contact)
    ensures
        vcard::encrypted_body(c).len() == 0 <==> c == (Contact {
            display_name: c.display_name,
            emails: c.emails,
            ..vcard::no_contact()
        }),
{
    let rest = Contact { display_name: c.display_name, emails: c.emails, ..vcard::no_contact() };
    if vcard::encrypted_body(c).len() == 0 {
        assert(c =~= rest);
    }
}

/// The letter of a gender and the gender of a letter undo each other.
pub proof fn law_gender_letters(g: Seq<char>)
    requires
        plain_gender(g),
        g.len() > 0,
    ensures
        vcard::gender_name(vcard::gender_code(g)) == g,
        vcard::gender_code(vcard::gender_name(vcard::gender_code(g))) == vcard::gender_code(g),
{
    lemma_gender_letter(g);
}

/// A contact that was read from a card reads back as itself: reading a date
/// or a gender again changes nothing more.
pub proof fn law_read_forms_stay(date: Seq<char>, g: Seq<char>)
    requires
        plain_gender(g),
    ensures
        vcard::bday_form(vcard::bday_form(date)) == vcard::bday_form(date),
        read_gender(g) == g,
{
    if g.len() > 0 {
        lemma_gender_letter(g);
    }
    reveal_strlit("-");
}

// ---------------------------------------------------------------------
// Cards that can be rebuilt
// ---------------------------------------------------------------------

/// The group and the name of a line as they are written.
pub open spec fn entry_head(e: Entry) -> Seq<char> {
    (match e.group {
        Some(g) => g + "."@,
        None => seq![],
    }) + e.line.name
}

proof fn lemma_params_start(params: Seq<(Seq<char>, Seq<Seq<char>>)>)
    ensures
        params.len() > 0 ==> vcard::params_text(params).len() > 0 && vcard::params_text(params)[0]
            == ';',
    decreases params.len(),
{
    reveal_strlit(";");
    if params.len() > 0 {
        let init = params.drop_last();
        lemma_params_start(init);
        let p = params.last();
        let more = p.0 + "="@ + text::join(p.1, ","@);
        assert(vcard::params_text(params) =~= vcard::params_text(init) + (";"@ + more));
        assert((";"@ + more)[0] == ';');
        if init.len() == 0 {
            assert(vcard::params_text(init) =~= seq![]);
        }
    }
}

proof fn lemma_joined_value(values: Seq<Seq<char>>)
    requires
        forall|i: int| 0 <= i < values.len() ==> vcard::is_param_value(#[trigger] values[i]),
    ensures
        vcard::is_value(text::join(values, ","@)),
    decreases values.len(),
{
    reveal_strlit(",");
    if values.len() == 1 {
        assert(vcard::is_param_value(values[0]));
    } else if values.len() > 1 {
        let init = values.drop_last();
        assert forall|i: int| 0 <= i < init.len() implies vcard::is_param_value(
            #[trigger] init[i],
        ) by {
            assert(init[i] == values[i]);
        }
        lemma_joined_value(init);
        let last = values[values.len() - 1];
        assert(vcard::is_param_value(last));
        lemma_value_concat(text::join(init, ","@), ","@);
        lemma_value_concat(text::join(init, ","@) + ","@, last);
    }
}

proof fn lemma_identifier_value(s: Seq<char>)
    requires
        vcard::is_identifier(s),
    ensures
        vcard::is_value(s),
{
    assert forall|i: int| 0 <= i < s.len() implies !vcard::is_control(#[trigger] s[i]) by {
    }
}

proof fn lemma_params_value(params: Seq<(Seq<char>, Seq<Seq<char>>)>)
    requires
        forall|i: int| 0 <= i < params.len() ==> vcard::is_param(#[trigger] params[i]),
    ensures
        vcard::is_value(vcard::params_text(params)),
    decreases params.len(),
{
    reveal_strlit(";");
    reveal_strlit("=");
    if params.len() > 0 {
        let init = params.drop_last();
        assert forall|i: int| 0 <= i < init.len() implies vcard::is_param(#[trigger] init[i]) by {
            assert(init[i] == params[i]);
        }
        lemma_params_value(init);
        let p = params[params.len() - 1];
        assert(vcard::is_param(p));
        let a = vcard::params_text(init);
        lemma_identifier_value(p.0);
        lemma_joined_value(p.1);
        lemma_value_concat(a, ";"@);
        lemma_value_concat(a + ";"@, p.0);
        lemma_value_concat(a + ";"@ + p.0, "="@);
        lemma_value_concat(a + ";"@ + p.0 + "="@, text::join(p.1, ","@));
    }
}

/// The last dot of text without another behind it.
pub proof fn lemma_last_dot(a: Seq<char>, b: Seq<char>)
    requires
        !text::has_char(b, '.'),
    ensures
        keygroups::find_last(a + seq!['.'] + b, '.') == a.len(),
        keygroups::find_last(b, '.') == -1,
    decreases b.len(),
{
    let s = a + seq!['.'] + b;
    if b.len() == 0 {
        assert(s.last() == '.');
    } else {
        let c = b.drop_last();
        assert(!text::has_char(c, '.')) by {
            assert forall|i: int| 0 <= i < c.len() implies c[i] != '.' by {
                assert(c[i] == b[i]);
            }
        }
        lemma_last_dot(a, c);
        assert(s.drop_last() =~= a + seq!['.'] + c);
        assert(b.last() == b[b.len() - 1]);
        assert(s.last() == b.last());
    }
}

/// Head and rest of a line, and what is read as its name.
proof fn lemma_line_name(h: Seq<char>, rest: Seq<char>)
    requires
        h.len() > 0,
        !text::has_char(h, ';'),
        !text::has_char(h, ':'),
        !text::is_white(h[0]),
        !text::is_white(h[h.len() - 1]),
        rest.len() > 0,
        rest[0] == ';' || rest[0] == ':',
    ensures
        keygroups::line_name(h + rest) == h,
{
    let s = h + rest;
    text::lemma_find(s, ';');
    text::lemma_find(s, ':');
    let a = text::find(s, ';');
    let b = text::find(s, ':');
    assert(s[h.len() as int] == rest[0]);
    if a < h.len() {
        assert(h[a] == ';');
    }
    if b < h.len() {
        assert(h[b] == ':');
    }
    assert(s.take(h.len() as int) =~= h);
    edits::lemma_trimmed(h);
}

/// A line that a name starts, whatever stands behind it.
pub open spec fn is_named(e: Entry) -> bool {
    &&& e.group matches Some(g) ==> vcard::is_identifier(g)
    &&& vcard::is_identifier(e.line.name)
}

/// How a line that a name starts looks to the reader of names, whatever
/// stands behind the name.
pub proof fn lemma_head_name(e: Entry, rest: Seq<char>)
    requires
        is_named(e),
        rest.len() > 0,
        rest[0] == ';' || rest[0] == ':',
    ensures
        !lines::is_continuation(entry_head(e) + rest),
        keygroups::base_name(entry_head(e) + rest) == text::ascii_uppercase(e.line.name),
        keygroups::grouped_name(entry_head(e) + rest) matches Some(n) && n.base
            == text::ascii_uppercase(e.line.name) && n.group == e.group,
{
    reveal_strlit(".");
    let name = e.line.name;
    let h = entry_head(e);
    let g = match e.group {
        Some(g) => g,
        None => seq![],
    };
    let up = text::ascii_uppercase(h);
    let up_name = text::ascii_uppercase(name);
    if e.group is Some {
        assert(h =~= g + seq!['.'] + name);
        assert(up =~= text::ascii_uppercase(g) + seq!['.'] + up_name);
    } else {
        assert(h =~= name);
    }
    assert forall|i: int| 0 <= i < h.len() implies 'A' <= (#[trigger] h[i]) <= 'Z' || 'a' <= h[i]
        <= 'z' || numbers::is_digit(h[i]) || h[i] == '-' || h[i] == '.' by {
        if e.group is Some {
            if i < g.len() {
                assert(h[i] == g[i]);
            } else if i > g.len() {
                assert(h[i] == name[i - g.len() - 1]);
            }
        }
    }
    assert((h + rest)[0] == h[0]);
    lemma_line_name(h, rest);
    assert(text::is_ascii_text(h));
    assert(!text::has_char(up_name, '.')) by {
        assert forall|i: int| 0 <= i < up_name.len() implies up_name[i] != '.' by {
            assert(name[i] != '.');
        }
    }
    lemma_last_dot(text::ascii_uppercase(g), up_name);
    assert(!text::has_char(name, '.'));
    lemma_last_dot(g, name);
    assert(text::is_ascii_text(name)) by {
        assert forall|i: int| 0 <= i < name.len() implies (#[trigger] name[i] as u32) < 128 by {
        }
    }
    if e.group is Some {
        assert(up.skip(g.len() as int + 1) =~= up_name);
        assert(h.skip(g.len() as int + 1) =~= name);
        assert(h.take(g.len() as int) =~= g);
    } else {
        assert(up.skip(0) =~= up_name);
    }
}

/// How a line that a name starts looks to the reader of names.
proof fn lemma_entry_name(e: Entry)
    requires
        is_named(e),
    ensures
        !lines::is_continuation(vcard::entry_text(e)),
        keygroups::base_name(vcard::entry_text(e)) == text::ascii_uppercase(e.line.name),
        keygroups::grouped_name(vcard::entry_text(e)) matches Some(n) && n.base
            == text::ascii_uppercase(e.line.name),
{
    reveal_strlit(":");
    let params = vcard::params_text(e.line.params);
    let rest = params + ":"@ + e.line.value;
    assert(vcard::entry_text(e) =~= entry_head(e) + rest);
    lemma_params_start(e.line.params);
    if e.line.params.len() == 0 {
        assert(params =~= seq![]);
    }
    lemma_head_name(e, rest);
}

/// A line that is written as it is stands on one line.
proof fn lemma_entry_line(e: Entry)
    requires
        vcard::is_entry(e),
    ensures
        lines::one_line(vcard::entry_text(e)),
{
    reveal_strlit(".");
    reveal_strlit(":");
    let h = entry_head(e);
    let params = vcard::params_text(e.line.params);
    let rest = params + ":"@ + e.line.value;
    assert(vcard::entry_text(e) =~= h + rest);
    lemma_params_value(e.line.params);
    lemma_identifier_value(e.line.name);
    lemma_value_concat(params, ":"@);
    lemma_value_concat(params + ":"@, e.line.value);
    if let Some(g) = e.group {
        lemma_identifier_value(g);
        lemma_value_concat(g, "."@);
        lemma_value_concat(g + "."@, e.line.name);
    } else {
        assert(h =~= e.line.name);
    }
    lemma_value_concat(h, rest);
    assert forall|i: int| 0 <= i < (h + rest).len() implies (h + rest)[i] != '\r' && (h + rest)[i]
        != '\n' by {
        assert(!vcard::is_control((h + rest)[i]));
    }
}

/// Lines of known names give no unknown ones.
proof fn lemma_known_names(l: Seq<Seq<char>>)
    requires
        forall|i: int|
            0 <= i < l.len() ==> vcard::known_prop(keygroups::base_name(#[trigger] l[i])),
    ensures
        keygroups::unknown_of(keygroups::prop_names(l)) == Seq::<Seq<char>>::empty(),
    decreases l.len(),
{
    reveal(Seq::filter);
    if l.len() > 0 {
        let init = l.drop_last();
        assert forall|i: int| 0 <= i < init.len() implies vcard::known_prop(
            keygroups::base_name(#[trigger] init[i]),
        ) by {
            assert(init[i] == l[i]);
        }
        lemma_known_names(init);
        let n = keygroups::base_name(l[l.len() - 1]);
        let names = keygroups::prop_names(l);
        if n.len() > 0 {
            assert(names.drop_last() =~= keygroups::prop_names(init));
            assert(names.last() == n);
        }
    }
}

/// No line of a card has a line end in it.
pub open spec fn are_one_line(l: Seq<Seq<char>>) -> bool {
    forall|i: int| 0 <= i < l.len() ==> lines::one_line(#[trigger] l[i])
}

/// Named lines of properties that are written.
pub open spec fn are_props(es: Seq<Entry>) -> bool {
    forall|i: int| 0 <= i < es.len() ==> is_named(#[trigger] es[i]) && is_prop(es[i].line.name)
}

/// The lines of a card round such lines, and that they are what it unfolds
/// to.
proof fn lemma_card_named(body: Seq<Entry>)
    requires
        are_props(body),
        are_one_line(vcard::entry_texts(body)),
    ensures
        lines::unfold(
            lines::card_lines(lines::card_of(vcard::card_content(vcard::entry_texts(body)))),
        ) == vcard::entry_texts(card_entries(body)),
        forall|i: int|
            0 <= i < card_entries(body).len() ==> is_named(#[trigger] card_entries(body)[i]) && (
            is_prop(card_entries(body)[i].line.name) || card_entries(body)[i].line.name
                == "BEGIN"@),
{
    let es = card_entries(body);
    let l = vcard::entry_texts(es);
    lemma_card_texts(body);
    lemma_heads();
    lemma_names();
    lemma_bare_text("BEGIN"@, "VCARD"@);
    lemma_bare_text("VERSION"@, "4.0"@);
    lemma_bare_text("END"@, "VCARD"@);
    assert forall|i: int| 0 <= i < es.len() implies is_named(#[trigger] es[i]) && (is_prop(
        es[i].line.name,
    ) || es[i].line.name == "BEGIN"@) by {
        if 2 <= i < es.len() - 1 {
            assert(es[i] == body[i - 2]);
        }
        reveal_strlit("BEGIN");
        lemma_prop("VERSION"@);
        lemma_prop("END"@);
    }
    assert forall|i: int| 0 <= i < l.len() implies lines::one_line(#[trigger] l[i])
        && !lines::is_continuation(l[i]) by {
        assert(is_named(es[i]));
        lemma_entry_name(es[i]);
        if 2 <= i < es.len() - 1 {
            assert(l[i] == vcard::entry_texts(body)[i - 2]);
        } else {
            lemma_round(es[0], es[1], es.last());
            lemma_entry_line(es[i]);
        }
    }
    lines::law_unfold_inverts_fold(l);
}

proof fn lemma_known_card(body: Seq<Entry>)
    requires
        are_props(body),
        are_one_line(vcard::entry_texts(body)),
    ensures
        keygroups::unknown_of(
            keygroups::prop_names(
                lines::unfold(
                    lines::card_lines(
                        lines::card_of(vcard::card_content(vcard::entry_texts(body))),
                    ),
                ),
            ),
        ) == Seq::<Seq<char>>::empty(),
{
    let es = card_entries(body);
    let l = vcard::entry_texts(es);
    lemma_card_named(body);
    assert forall|i: int| 0 <= i < l.len() implies vcard::known_prop(
        keygroups::base_name(#[trigger] l[i]),
    ) by {
        assert(is_named(es[i]));
        lemma_entry_name(es[i]);
        lemma_prop_known(es[i].line.name);
    }
    lemma_known_names(l);
}

proof fn lemma_prop_known(name: Seq<char>)
    requires
        is_prop(name) || name == "BEGIN"@,
    ensures
        text::ascii_uppercase(name) == name,
        vcard::known_prop(name),
{
    lemma_upper_names();
    assert(text::is_ascii_text(name)) by {
        lemma_capital_props(name);
    }
}

proof fn lemma_capital_props(name: Seq<char>)
    requires
        is_prop(name) || name == "BEGIN"@,
    ensures
        text::is_ascii_text(name),
{
    reveal_strlit("FN");
    reveal_strlit("N");
    reveal_strlit("TEL");
    reveal_strlit("ADR");
    reveal_strlit("ORG");
    reveal_strlit("TITLE");
    reveal_strlit("ROLE");
    reveal_strlit("NOTE");
    reveal_strlit("URL");
    reveal_strlit("BDAY");
    reveal_strlit("ANNIVERSARY");
    reveal_strlit("NICKNAME");
    reveal_strlit("GENDER");
    reveal_strlit("PHOTO");
    reveal_strlit("END");
    reveal_strlit("VERSION");
    reveal_strlit("UID");
    reveal_strlit("EMAIL");
    reveal_strlit("BEGIN");
}

/// Text without a carriage return.
pub open spec fn no_return(s: Seq<char>) -> bool {
    !text::has_char(s, '\r')
}

/// Types without a line end, and a value without a carriage return.
pub open spec fn typed_no_return(t: Typed) -> bool {
    no_return(t.value) && are_one_line(t.types)
}

/// Types without a line end, and parts without a carriage return.
pub open spec fn address_no_return(a: Address) -> bool {
    &&& are_one_line(a.types)
    &&& no_return(a.street)
    &&& no_return(a.locality)
    &&& no_return(a.region)
    &&& no_return(a.postal_code)
    &&& no_return(a.country)
}

/// Whether no text of a contact has a carriage return, and its types and the
/// UID have no line end at all.
pub open spec fn contact_no_return(c: Contact, uid: Seq<char>) -> bool {
    &&& lines::one_line(uid)
    &&& no_return(c.first_name)
    &&& no_return(c.last_name)
    &&& no_return(c.display_name)
    &&& forall|i: int| 0 <= i < c.emails.len() ==> typed_no_return(#[trigger] c.emails[i])
    &&& forall|i: int| 0 <= i < c.phones.len() ==> typed_no_return(#[trigger] c.phones[i])
    &&& forall|i: int| 0 <= i < c.addresses.len() ==> address_no_return(#[trigger] c.addresses[i])
    &&& no_return(c.organization)
    &&& no_return(c.title)
    &&& no_return(c.role)
    &&& forall|i: int| 0 <= i < c.notes.len() ==> no_return(#[trigger] c.notes[i])
    &&& no_return(c.url)
    &&& no_return(c.birthday)
    &&& no_return(c.anniversary)
    &&& no_return(c.nickname)
    &&& no_return(c.gender)
    &&& forall|i: int| 0 <= i < c.photos.len() ==> no_return(#[trigger] c.photos[i])
}

/// What is put together of text without a line end has none.
proof fn lemma_one_line_concat(a: Seq<char>, b: Seq<char>)
    requires
        lines::one_line(a),
        lines::one_line(b),
    ensures
        lines::one_line(a + b),
{
    let s = a + b;
    assert forall|i: int| 0 <= i < s.len() implies s[i] != '\r' && s[i] != '\n' by {
        if i < a.len() {
            assert(s[i] == a[i]);
        } else {
            assert(s[i] == b[i - a.len()]);
        }
    }
}

proof fn lemma_value_one_line(head: Seq<char>, value: Seq<char>)
    requires
        lines::one_line(head),
        no_return(value),
    ensures
        lines::one_line(head + escape::escape(value)),
{
    escape::lemma_escape_one_line(value);
    lemma_one_line_concat(head, escape::escape(value));
}

proof fn lemma_join_one_line(parts: Seq<Seq<char>>)
    requires
        are_one_line(parts),
    ensures
        lines::one_line(text::join(parts, ","@)),
    decreases parts.len(),
{
    reveal_strlit(",");
    if parts.len() == 1 {
        assert(lines::one_line(parts[0]));
    } else if parts.len() > 1 {
        let init = parts.drop_last();
        assert forall|i: int| 0 <= i < init.len() implies lines::one_line(#[trigger] init[i]) by {
            assert(init[i] == parts[i]);
        }
        lemma_join_one_line(init);
        assert(lines::one_line(parts[parts.len() - 1]));
        lemma_one_line_concat(text::join(init, ","@), ","@);
        lemma_one_line_concat(text::join(init, ","@) + ","@, parts.last());
    }
}

proof fn lemma_types_one_line(types: Seq<Seq<char>>)
    requires
        are_one_line(types),
    ensures
        lines::one_line(vcard::type_suffix(types)),
{
    reveal_strlit(";TYPE=");
    lemma_join_one_line(types);
    if types.len() > 0 {
        lemma_one_line_concat(";TYPE="@, text::join(types, ","@));
    }
}

proof fn lemma_address_one_line(a: Address)
    requires
        address_no_return(a),
    ensures
        lines::one_line(vcard::address_line(a)),
{
    reveal_strlit("ADR");
    reveal_strlit(":;;");
    reveal_strlit(";");
    lemma_types_one_line(a.types);
    let l0 = "ADR"@ + vcard::type_suffix(a.types);
    lemma_one_line_concat("ADR"@, vcard::type_suffix(a.types));
    lemma_one_line_concat(l0, ":;;"@);
    let l1 = l0 + ":;;"@ + escape::escape(a.street);
    lemma_value_one_line(l0 + ":;;"@, a.street);
    lemma_one_line_concat(l1, ";"@);
    let l2 = l1 + ";"@ + escape::escape(a.locality);
    lemma_value_one_line(l1 + ";"@, a.locality);
    lemma_one_line_concat(l2, ";"@);
    let l3 = l2 + ";"@ + escape::escape(a.region);
    lemma_value_one_line(l2 + ";"@, a.region);
    lemma_one_line_concat(l3, ";"@);
    let l4 = l3 + ";"@ + escape::escape(a.postal_code);
    lemma_value_one_line(l3 + ";"@, a.postal_code);
    lemma_one_line_concat(l4, ";"@);
    lemma_value_one_line(l4 + ";"@, a.country);
}

proof fn lemma_email_one_line(e: Typed, k: int)
    requires
        typed_no_return(e),
        k >= 0,
    ensures
        lines::one_line(vcard::email_line(e, k)),
{
    let d = numbers::decimal((k + 1) as nat);
    let l0 = "item"@ + d;
    let l1 = l0 + ".EMAIL"@;
    let l2 = l1 + vcard::type_suffix(e.types);
    reveal_strlit("item");
    reveal_strlit(".EMAIL");
    reveal_strlit(":");
    numbers::law_decimal_reads_back((k + 1) as nat);
    assert forall|j: int| 0 <= j < d.len() implies d[j] != '\r' && d[j] != '\n' by {
        assert(numbers::is_digit(d[j]));
    }
    lemma_types_one_line(e.types);
    lemma_one_line_concat("item"@, d);
    lemma_one_line_concat(l0, ".EMAIL"@);
    lemma_one_line_concat(l1, vcard::type_suffix(e.types));
    lemma_one_line_concat(l2, ":"@);
    lemma_value_one_line(l2 + ":"@, e.value);
}

proof fn lemma_phone_one_line(p: Typed)
    requires
        typed_no_return(p),
    ensures
        lines::one_line(vcard::phone_line(p)),
{
    let l0 = "TEL"@ + vcard::type_suffix(p.types);
    reveal_strlit("TEL");
    reveal_strlit(":");
    lemma_types_one_line(p.types);
    lemma_one_line_concat("TEL"@, vcard::type_suffix(p.types));
    lemma_one_line_concat(l0, ":"@);
    lemma_value_one_line(l0 + ":"@, p.value);
}

proof fn lemma_trim_no_return(s: Seq<char>)
    requires
        no_return(s),
    ensures
        no_return(text::trim(s)),
{
    lemma_trim_start_no_return(s);
    lemma_trim_end_no_return(text::trim_start(s));
}

proof fn lemma_trim_start_no_return(s: Seq<char>)
    requires
        no_return(s),
    ensures
        no_return(text::trim_start(s)),
    decreases s.len(),
{
    if s.len() > 0 && text::is_white(s[0]) {
        let rest = s.skip(1);
        assert forall|i: int| 0 <= i < rest.len() implies rest[i] != '\r' by {
            assert(rest[i] == s[i + 1]);
        }
        lemma_trim_start_no_return(rest);
    }
}

proof fn lemma_trim_end_no_return(s: Seq<char>)
    requires
        no_return(s),
    ensures
        no_return(text::trim_end(s)),
    decreases s.len(),
{
    if s.len() > 0 && text::is_white(s.last()) {
        let init = s.drop_last();
        assert forall|i: int| 0 <= i < init.len() implies init[i] != '\r' by {
            assert(init[i] == s[i]);
        }
        lemma_trim_end_no_return(init);
    }
}

proof fn lemma_shown_no_return(c: Contact)
    requires
        no_return(c.first_name),
        no_return(c.last_name),
        no_return(c.display_name),
        forall|i: int| 0 <= i < c.emails.len() ==> typed_no_return(#[trigger] c.emails[i]),
    ensures
        no_return(vcard::shown_name(c)),
{
    let full = c.first_name + " "@ + c.last_name;
    reveal_strlit(" ");
    reveal_strlit("Unknown");
    assert forall|i: int| 0 <= i < full.len() implies full[i] != '\r' by {
        let n = c.first_name.len();
        if i < n {
            assert(full[i] == c.first_name[i]);
        } else if i > n {
            assert(full[i] == c.last_name[i - n - 1]);
        }
    }
    lemma_trim_no_return(full);
    if c.emails.len() > 0 {
        assert(typed_no_return(c.emails[0]));
    }
}

proof fn lemma_gender_no_return(g: Seq<char>)
    requires
        no_return(g),
    ensures
        no_return(vcard::gender_code(g)),
{
    reveal_strlit("M");
    reveal_strlit("F");
    reveal_strlit("O");
    reveal_strlit("N");
    reveal_strlit("U");
    text::lemma_uppercase_no_return(g);
}

proof fn lemma_optional_one_line(head: Seq<char>, value: Seq<char>)
    requires
        lines::one_line(head),
        no_return(value),
    ensures
        are_one_line(vcard::optional_line(head, value)),
{
    lemma_value_one_line(head, value);
}

proof fn lemma_values_one_line(head: Seq<char>, values: Seq<Seq<char>>)
    requires
        lines::one_line(head),
        forall|i: int| 0 <= i < values.len() ==> no_return(#[trigger] values[i]),
    ensures
        are_one_line(vcard::value_lines(head, values)),
{
    let l = vcard::value_lines(head, values);
    assert forall|i: int| 0 <= i < l.len() implies lines::one_line(#[trigger] l[i]) by {
        assert(no_return(values[i]));
        lemma_value_one_line(head, values[i]);
    }
}

proof fn lemma_lists_one_line(a: Seq<Seq<char>>, b: Seq<Seq<char>>)
    requires
        are_one_line(a),
        are_one_line(b),
    ensures
        are_one_line(a + b),
{
    let l = a + b;
    assert forall|i: int| 0 <= i < l.len() implies lines::one_line(#[trigger] l[i]) by {
        if i < a.len() {
            assert(l[i] == a[i]);
        } else {
            assert(l[i] == b[i - a.len()]);
        }
    }
}

/// The cards of a contact whose texts have no carriage return have no line
/// end in a line: what is escaped has no line feed.
pub proof fn lemma_no_return_one_line(c: Contact, uid: Seq<char>)
    requires
        contact_no_return(c, uid),
    ensures
        are_one_line(vcard::signed_body(c, uid)),
        are_one_line(vcard::encrypted_body(c)),
{
    let signed = vcard::signed_body(c, uid);
    reveal_strlit("UID:");
    reveal_strlit("FN:");
    lemma_one_line_concat("UID:"@, uid);
    lemma_shown_no_return(c);
    lemma_value_one_line("FN:"@, vcard::shown_name(c));
    assert forall|i: int| 0 <= i < signed.len() implies lines::one_line(#[trigger] signed[i]) by {
        if i >= 2 {
            assert(typed_no_return(c.emails[i - 2]));
            lemma_email_one_line(c.emails[i - 2], i - 2);
            assert(signed[i] == vcard::email_line(c.emails[i - 2], i - 2));
        }
    }
    lemma_encrypted_one_line(c, uid);
}

proof fn lemma_name_one_line(c: Contact)
    requires
        no_return(c.first_name),
        no_return(c.last_name),
    ensures
        lines::one_line(
            "N:"@ + escape::escape(c.last_name) + ";"@ + escape::escape(c.first_name) + ";;;"@,
        ),
{
    let l0 = "N:"@ + escape::escape(c.last_name);
    reveal_strlit("N:");
    reveal_strlit(";");
    reveal_strlit(";;;");
    lemma_value_one_line("N:"@, c.last_name);
    lemma_one_line_concat(l0, ";"@);
    lemma_value_one_line(l0 + ";"@, c.first_name);
    lemma_one_line_concat(l0 + ";"@ + escape::escape(c.first_name), ";;;"@);
}

proof fn lemma_encrypted_one_line(c: Contact, uid: Seq<char>)
    requires
        contact_no_return(c, uid),
    ensures
        are_one_line(vcard::encrypted_body(c)),
{
    let none = Seq::<Seq<char>>::empty();
    lemma_name_one_line(c);
    let name = if c.first_name.len() > 0 || c.last_name.len() > 0 {
        seq!["N:"@ + escape::escape(c.last_name) + ";"@ + escape::escape(c.first_name) + ";;;"@]
    } else {
        none
    };
    assert(are_one_line(name));
    let phones = Seq::new(c.phones.len(), |i: int| vcard::phone_line(c.phones[i]));
    assert forall|i: int| 0 <= i < phones.len() implies lines::one_line(#[trigger] phones[i]) by {
        assert(typed_no_return(c.phones[i]));
        lemma_phone_one_line(c.phones[i]);
    }
    let addresses = Seq::new(c.addresses.len(), |i: int| vcard::address_line(c.addresses[i]));
    assert forall|i: int| 0 <= i < addresses.len() implies lines::one_line(
        #[trigger] addresses[i],
    ) by {
        assert(address_no_return(c.addresses[i]));
        lemma_address_one_line(c.addresses[i]);
    }
    reveal_strlit("ORG:");
    reveal_strlit("TITLE:");
    reveal_strlit("ROLE:");
    reveal_strlit("NOTE:");
    reveal_strlit("URL:");
    reveal_strlit("BDAY:");
    reveal_strlit("ANNIVERSARY:");
    reveal_strlit("NICKNAME:");
    reveal_strlit("GENDER:");
    reveal_strlit("PHOTO:");
    lemma_optional_one_line("ORG:"@, c.organization);
    lemma_optional_one_line("TITLE:"@, c.title);
    lemma_optional_one_line("ROLE:"@, c.role);
    lemma_values_one_line("NOTE:"@, c.notes);
    lemma_optional_one_line("URL:"@, c.url);
    lemma_optional_one_line("BDAY:"@, c.birthday);
    lemma_optional_one_line("ANNIVERSARY:"@, c.anniversary);
    lemma_optional_one_line("NICKNAME:"@, c.nickname);
    lemma_gender_no_return(c.gender);
    lemma_value_one_line("GENDER:"@, vcard::gender_code(c.gender));
    let gender = if c.gender.len() > 0 {
        seq!["GENDER:"@ + escape::escape(vcard::gender_code(c.gender))]
    } else {
        none
    };
    assert(are_one_line(gender));
    lemma_values_one_line("PHOTO:"@, c.photos);
    let b1 = name + phones;
    let b2 = b1 + addresses;
    let b3 = b2 + vcard::optional_line("ORG:"@, c.organization);
    let b4 = b3 + vcard::optional_line("TITLE:"@, c.title);
    let b5 = b4 + vcard::optional_line("ROLE:"@, c.role);
    let b6 = b5 + vcard::value_lines("NOTE:"@, c.notes);
    let b7 = b6 + vcard::optional_line("URL:"@, c.url);
    let b8 = b7 + vcard::optional_line("BDAY:"@, c.birthday);
    let b9 = b8 + vcard::optional_line("ANNIVERSARY:"@, c.anniversary);
    let b10 = b9 + vcard::optional_line("NICKNAME:"@, c.nickname);
    let b11 = b10 + gender;
    let b12 = b11 + vcard::value_lines("PHOTO:"@, c.photos);
    lemma_lists_one_line(name, phones);
    lemma_lists_one_line(b1, addresses);
    lemma_lists_one_line(b2, vcard::optional_line("ORG:"@, c.organization));
    lemma_lists_one_line(b3, vcard::optional_line("TITLE:"@, c.title));
    lemma_lists_one_line(b4, vcard::optional_line("ROLE:"@, c.role));
    lemma_lists_one_line(b5, vcard::value_lines("NOTE:"@, c.notes));
    lemma_lists_one_line(b6, vcard::optional_line("URL:"@, c.url));
    lemma_lists_one_line(b7, vcard::optional_line("BDAY:"@, c.birthday));
    lemma_lists_one_line(b8, vcard::optional_line("ANNIVERSARY:"@, c.anniversary));
    lemma_lists_one_line(b9, vcard::optional_line("NICKNAME:"@, c.nickname));
    lemma_lists_one_line(b10, gender);
    lemma_lists_one_line(b11, vcard::value_lines("PHOTO:"@, c.photos));
    assert(b12 == vcard::encrypted_body(c));
}

/// The cards that were built of a contact hold nothing that a rebuild would
/// lose, whatever the contact says: no text of it has a carriage return, and
/// the UID and the types have no line end.
pub proof fn law_built_cards_can_be_rebuilt(c: Contact, uid: Seq<char>)
    requires
        contact_no_return(c, uid),
    ensures
        keygroups::all_names(
            seq![lines::card_of(vcard::card_content(vcard::signed_body(c, uid)))],
        ) == Seq::<Seq<char>>::empty(),
        keygroups::all_names(
            seq![
                lines::card_of(vcard::card_content(vcard::signed_body(c, uid))),
                lines::card_of(vcard::card_content(vcard::encrypted_body(c))),
            ],
        ) == Seq::<Seq<char>>::empty(),
{
    let signed = lines::card_of(vcard::card_content(vcard::signed_body(c, uid)));
    let encrypted = lines::card_of(vcard::card_content(vcard::encrypted_body(c)));
    lemma_no_return_one_line(c, uid);
    lemma_signed_texts(c, uid);
    lemma_signed_props(c, uid);
    lemma_known_card(signed_entries(c, uid));
    lemma_encrypted_card_whole(c);
    let cards = seq![signed, encrypted];
    assert(cards.drop_last() =~= seq![signed]);
    assert(seq![signed].drop_last() =~= Seq::<Seq<char>>::empty());
    assert(keygroups::all_names(seq![signed].drop_last()) =~= Seq::<Seq<char>>::empty());
    assert(keygroups::all_names(seq![signed]) =~= Seq::<Seq<char>>::empty());
    assert(keygroups::all_names(cards) =~= Seq::<Seq<char>>::empty());
}

/// The cards of a contact that reads back have no line end in a line.
pub proof fn lemma_plain_one_line(c: Contact, uid: Seq<char>)
    ensures
        signs_plainly(c, uid) ==> are_one_line(vcard::signed_body(c, uid)),
        encrypts_plainly(c) ==> are_one_line(vcard::encrypted_body(c)),
{
    if signs_plainly(c, uid) {
        lemma_signed_texts(c, uid);
        lemma_signed_shaped(c, uid);
        lemma_shaped_one_line(signed_entries(c, uid));
    }
    if encrypts_plainly(c) {
        lemma_encrypted_texts(c);
        lemma_encrypted_shaped(c);
        lemma_shaped_one_line(encrypted_entries(c));
    }
}

proof fn lemma_shaped_one_line(body: Seq<Entry>)
    requires
        are_shaped(body),
        are_short(vcard::entry_texts(body)),
    ensures
        are_one_line(vcard::entry_texts(body)),
{
    let l = vcard::entry_texts(body);
    assert forall|i: int| 0 <= i < l.len() implies lines::one_line(#[trigger] l[i]) by {
        assert(is_shaped(body[i]));
        assert(l[i] == vcard::entry_text(body[i]));
        assert(vcard::is_entry(body[i]));
        lemma_entry_line(body[i]);
    }
}

proof fn lemma_signed_props(c: Contact, uid: Seq<char>)
    ensures
        are_props(signed_entries(c, uid)),
{
    let es = signed_entries(c, uid);
    assert forall|i: int| 0 <= i < es.len() implies is_named(#[trigger] es[i]) && is_prop(
        es[i].line.name,
    ) by {
        lemma_prop(es[i].line.name);
        if i >= 2 {
            lemma_item_group(i - 2);
        }
    }
}

/// The group of an address is an identifier.
proof fn lemma_item_group(k: int)
    requires
        k >= 0,
    ensures
        vcard::is_identifier("item"@ + numbers::decimal((k + 1) as nat)),
{
    let d = numbers::decimal((k + 1) as nat);
    let g = "item"@ + d;
    numbers::law_decimal_reads_back((k + 1) as nat);
    reveal_strlit("item");
    assert forall|j: int| 0 <= j < g.len() implies 'A' <= (#[trigger] g[j]) <= 'Z' || 'a' <= g[j]
        <= 'z' || numbers::is_digit(g[j]) || g[j] == '-' by {
        if j >= 4 {
            assert(g[j] == d[j - 4]);
        }
    }
}

proof fn lemma_encrypted_props(c: Contact)
    ensures
        are_props(encrypted_entries(c)),
{
    let es = encrypted_entries(c);
    assert forall|i: int| 0 <= i < es.len() implies is_named(#[trigger] es[i]) && is_prop(
        es[i].line.name,
    ) by {
        assert(is_prop(es[i].line.name) && es[i].group is None);
        lemma_prop(es[i].line.name);
    }
}

/// A name of a property that is written is no crypto setting.
proof fn lemma_no_key_field(name: Seq<char>)
    requires
        is_prop(name) || name == "BEGIN"@,
    ensures
        !keygroups::is_key_field(name),
{
    lemma_names();
    reveal_strlit("KEY");
    reveal_strlit("X-PM-MIMETYPE");
    reveal_strlit("X-PM-ENCRYPT");
    reveal_strlit("X-PM-ENCRYPT-UNTRUSTED");
    reveal_strlit("X-PM-SIGN");
    reveal_strlit("X-PM-SCHEME");
    reveal_strlit("X-PM-TLS");
    reveal_strlit("FN");
    reveal_strlit("N");
    reveal_strlit("TEL");
    reveal_strlit("ADR");
    reveal_strlit("ORG");
    reveal_strlit("TITLE");
    reveal_strlit("ROLE");
    reveal_strlit("NOTE");
    reveal_strlit("URL");
    reveal_strlit("BDAY");
    reveal_strlit("ANNIVERSARY");
    reveal_strlit("NICKNAME");
    reveal_strlit("GENDER");
    reveal_strlit("PHOTO");
    reveal_strlit("END");
    reveal_strlit("VERSION");
    reveal_strlit("UID");
    reveal_strlit("EMAIL");
    reveal_strlit("BEGIN");
    assert(name[0] != 'K' && name[0] != 'X');
    let fields = keygroups::VCARD_KEY_FIELDS@;
    assert forall|i: int| 0 <= i < fields.len() implies #[trigger] fields[i]@ != name by {
        assert(fields[i]@[0] == 'K' || fields[i]@[0] == 'X');
    }
}

/// Lines without crypto settings gather none.
proof fn lemma_nothing_gathered(l: Seq<Seq<char>>)
    requires
        forall|i: int|
            0 <= i < l.len() ==> (keygroups::grouped_name(#[trigger] l[i]) matches Some(n)
                ==> !keygroups::is_key_field(n.base)),
    ensures
        forall|i: int|
            0 <= i < keygroups::gather(l).len() ==> (#[trigger] keygroups::gather(
                l,
            )[i]).lines.len() == 0,
    decreases l.len(),
{
    if l.len() > 0 {
        let init = l.drop_last();
        assert forall|i: int| 0 <= i < init.len() implies (keygroups::grouped_name(
            #[trigger] init[i],
        ) matches Some(n) ==> !keygroups::is_key_field(n.base)) by {
            assert(init[i] == l[i]);
        }
        lemma_nothing_gathered(init);
        let line = l[l.len() - 1];
        assert(l.last() == line);
        let gs = keygroups::gather(init);
        if let Some(keygroups::GroupedName { group: Some(group), base }) =
            keygroups::grouped_name(line) {
            let key = text::uppercase(group);
            lemma_group_at(gs, key);
            let k = keygroups::group_at(gs, key);
            if base == "EMAIL"@ && k < gs.len() {
                assert(gs[k].lines.len() == 0);
            }
        }
    }
}

proof fn lemma_group_at(gs: Seq<keygroups::Gathered>, key: Seq<char>)
    ensures
        0 <= keygroups::group_at(gs, key) <= gs.len(),
    decreases gs.len(),
{
    if gs.len() > 0 && gs[0].key != key {
        lemma_group_at(gs.skip(1), key);
    }
}

proof fn lemma_nothing_preserved(gs: Seq<keygroups::Gathered>)
    requires
        forall|i: int| 0 <= i < gs.len() ==> (#[trigger] gs[i]).lines.len() == 0,
    ensures
        keygroups::preserved(gs) == Seq::<keygroups::Group>::empty(),
    decreases gs.len(),
{
    if gs.len() > 0 {
        let init = gs.drop_last();
        assert forall|i: int| 0 <= i < init.len() implies (#[trigger] init[i]).lines.len() == 0 by {
            assert(init[i] == gs[i]);
        }
        lemma_nothing_preserved(init);
        assert(gs.last() == gs[gs.len() - 1]);
    }
}

/// Lines of known names leave nothing behind, whatever is carried over.
proof fn lemma_nothing_uncarried(l: Seq<Seq<char>>, gs: Seq<keygroups::Group>)
    requires
        forall|i: int|
            0 <= i < l.len() ==> (keygroups::grouped_name(#[trigger] l[i]) matches Some(n)
                ==> vcard::known_prop(n.base)),
    ensures
        keygroups::uncarried_names(l, gs) == Seq::<Seq<char>>::empty(),
    decreases l.len(),
{
    if l.len() > 0 {
        let init = l.drop_last();
        assert forall|i: int| 0 <= i < init.len() implies (keygroups::grouped_name(
            #[trigger] init[i],
        ) matches Some(n) ==> vcard::known_prop(n.base)) by {
            assert(init[i] == l[i]);
        }
        lemma_nothing_uncarried(init, gs);
        assert(l.last() == l[l.len() - 1]);
    }
}

/// The signed card of a contact that was built without crypto settings has
/// none, and holds nothing that a rebuild would lose.
pub proof fn lemma_signed_card_whole(c: Contact, uid: Seq<char>)
    requires
        are_one_line(vcard::signed_body(c, uid)),
    ensures
        ({
            let card = lines::card_of(vcard::card_content(vcard::signed_body(c, uid)));
            &&& keygroups::key_groups(card) == Seq::<keygroups::Group>::empty()
            &&& keygroups::uncarried_names(
                lines::unfold(lines::card_lines(card)),
                keygroups::key_groups(card),
            ) == Seq::<Seq<char>>::empty()
        }),
{
    let body = signed_entries(c, uid);
    let es = card_entries(body);
    let l = vcard::entry_texts(es);
    lemma_signed_texts(c, uid);
    lemma_signed_props(c, uid);
    lemma_card_named(body);
    assert forall|i: int| 0 <= i < l.len() implies (keygroups::grouped_name(
        #[trigger] l[i],
    ) matches Some(n) && vcard::known_prop(n.base) && !keygroups::is_key_field(n.base)) by {
        assert(is_named(es[i]));
        lemma_entry_name(es[i]);
        lemma_prop_known(es[i].line.name);
        lemma_no_key_field(es[i].line.name);
    }
    lemma_nothing_gathered(l);
    lemma_nothing_preserved(keygroups::gather(l));
    lemma_nothing_uncarried(l, seq![]);
}

/// The encrypted card of a contact that was built holds nothing that a
/// rebuild would lose.
pub proof fn lemma_encrypted_card_whole(c: Contact)
    requires
        are_one_line(vcard::encrypted_body(c)),
    ensures
        keygroups::unknown_of(
            keygroups::prop_names(
                lines::unfold(
                    lines::card_lines(
                        lines::card_of(vcard::card_content(vcard::encrypted_body(c))),
                    ),
                ),
            ),
        ) == Seq::<Seq<char>>::empty(),
{
    lemma_encrypted_texts(c);
    lemma_encrypted_props(c);
    lemma_known_card(encrypted_entries(c));
}

} // verus!
