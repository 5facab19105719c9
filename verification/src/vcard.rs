//! Contact cards (vCard).
use vstd::prelude::*;

use crate::encoding;
use crate::encoding::encode_base64;
use crate::escape;
use crate::escape::{escape_vcard, split_value, unescape_text};
use crate::lines;
use crate::lines::fold_card;
use crate::lists;
use crate::numbers;
use crate::numbers::decimal_text;
use crate::text;
use crate::text::{
    chars_of, concat2, concat3, copy_list, copy_text, eq_ignoring_case, join_texts, push_text,
    string_of, text_eq, text_starts_with, to_upper, trimmed,
};
use crate::vcard_back;

verus! {

broadcast use crate::text::lemma_texts_push;

// ---------------------------------------------------------------------
// Contacts
// ---------------------------------------------------------------------

/// The fields of one contact, each empty when the card lacks it.
#[derive(Debug, Clone, PartialEq, Eq)]
pub struct ParsedContact {
    pub first_name: String,
    pub last_name: String,
    pub display_name: String,
    pub emails: Vec<ParsedEmail>,
    pub phones: Vec<ParsedPhone>,
    pub addresses: Vec<ParsedAddress>,
    pub organization: String,
    pub title: String,
    pub role: String,
    pub notes: Vec<String>,
    pub url: String,
    pub birthday: String,
    pub anniversary: String,
    pub nickname: String,
    pub gender: String,
    pub photos: Vec<String>,
}

#[derive(Debug, Clone, PartialEq, Eq)]
pub struct ParsedEmail {
    pub email: String,
    pub types: Vec<String>,
}

#[derive(Debug, Clone, PartialEq, Eq)]
pub struct ParsedPhone {
    pub number: String,
    pub types: Vec<String>,
}

#[derive(Debug, Clone, PartialEq, Eq)]
pub struct ParsedAddress {
    pub street: String,
    pub locality: String,
    pub region: String,
    pub postal_code: String,
    pub country: String,
    pub types: Vec<String>,
}

/// A text with its `TYPE` values: an e-mail address or a phone number.
#[verifier::ext_equal]
pub struct Typed {
    pub value: Seq<char>,
    pub types: Seq<Seq<char>>,
}

/// What a [`ParsedAddress`] holds.
#[verifier::ext_equal]
pub struct Address {
    pub street: Seq<char>,
    pub locality: Seq<char>,
    pub region: Seq<char>,
    pub postal_code: Seq<char>,
    pub country: Seq<char>,
    pub types: Seq<Seq<char>>,
}

/// What a [`ParsedContact`] holds.
#[verifier::ext_equal]
pub struct Contact {
    pub first_name: Seq<char>,
    pub last_name: Seq<char>,
    pub display_name: Seq<char>,
    pub emails: Seq<Typed>,
    pub phones: Seq<Typed>,
    pub addresses: Seq<Address>,
    pub organization: Seq<char>,
    pub title: Seq<char>,
    pub role: Seq<char>,
    pub notes: Seq<Seq<char>>,
    pub url: Seq<char>,
    pub birthday: Seq<char>,
    pub anniversary: Seq<char>,
    pub nickname: Seq<char>,
    pub gender: Seq<char>,
    pub photos: Seq<Seq<char>>,
}

impl View for ParsedEmail {
    type V = Typed;

    open spec fn view(&self) -> Typed {
        Typed { value: self.email@, types: text::texts(self.types@) }
    }
}

impl View for ParsedPhone {
    type V = Typed;

    open spec fn view(&self) -> Typed {
        Typed { value: self.number@, types: text::texts(self.types@) }
    }
}

impl View for ParsedAddress {
    type V = Address;

    open spec fn view(&self) -> Address {
        Address {
            street: self.street@,
            locality: self.locality@,
            region: self.region@,
            postal_code: self.postal_code@,
            country: self.country@,
            types: text::texts(self.types@),
        }
    }
}

pub open spec fn emails_view(v: Seq<ParsedEmail>) -> Seq<Typed> {
    Seq::new(v.len(), |i: int| v[i]@)
}

pub open spec fn phones_view(v: Seq<ParsedPhone>) -> Seq<Typed> {
    Seq::new(v.len(), |i: int| v[i]@)
}

pub open spec fn addresses_view(v: Seq<ParsedAddress>) -> Seq<Address> {
    Seq::new(v.len(), |i: int| v[i]@)
}

impl View for ParsedContact {
    type V = Contact;

    open spec fn view(&self) -> Contact {
        Contact {
            first_name: self.first_name@,
            last_name: self.last_name@,
            display_name: self.display_name@,
            emails: emails_view(self.emails@),
            phones: phones_view(self.phones@),
            addresses: addresses_view(self.addresses@),
            organization: self.organization@,
            title: self.title@,
            role: self.role@,
            notes: text::texts(self.notes@),
            url: self.url@,
            birthday: self.birthday@,
            anniversary: self.anniversary@,
            nickname: self.nickname@,
            gender: self.gender@,
            photos: text::texts(self.photos@),
        }
    }
}

/// The contact that nothing has been read into.
pub open spec fn no_contact() -> Contact {
    Contact {
        first_name: seq![],
        last_name: seq![],
        display_name: seq![],
        emails: seq![],
        phones: seq![],
        addresses: seq![],
        organization: seq![],
        title: seq![],
        role: seq![],
        notes: seq![],
        url: seq![],
        birthday: seq![],
        anniversary: seq![],
        nickname: seq![],
        gender: seq![],
        photos: seq![],
    }
}

impl Default for ParsedContact {
    fn default() -> (r: ParsedContact)
        ensures
            r@ == no_contact(),
    {
        let r: ParsedContact = ParsedContact {
            first_name: String::new(),
            last_name: String::new(),
            display_name: String::new(),
            emails: Vec::new(),
            phones: Vec::new(),
            addresses: Vec::new(),
            organization: String::new(),
            title: String::new(),
            role: String::new(),
            notes: Vec::new(),
            url: String::new(),
            birthday: String::new(),
            anniversary: String::new(),
            nickname: String::new(),
            gender: String::new(),
            photos: Vec::new(),
        };
        assert(r@ =~= no_contact());
        r
    }
}

fn copy_emails(v: &Vec<ParsedEmail>) -> (r: Vec<ParsedEmail>)
    ensures
        emails_view(r@) == emails_view(v@),
{
    let mut out: Vec<ParsedEmail> = Vec::new();
    let mut i: usize = 0;
    while i < v.len()
        invariant
            i <= v@.len(),
            emails_view(out@) =~= emails_view(v@).take(i as int),
        decreases v@.len() - i,
    {
        let item: ParsedEmail = ParsedEmail {
            email: copy_text(v[i].email.as_str()),
            types: copy_list(&v[i].types),
        };
        assert(item@ == v@[i as int]@);
        let ghost before = out@;
        out.push(item);
        assert(emails_view(out@) =~= emails_view(before).push(item@));
        i = i + 1;
    }
    out
}

fn copy_phones(v: &Vec<ParsedPhone>) -> (r: Vec<ParsedPhone>)
    ensures
        phones_view(r@) == phones_view(v@),
{
    let mut out: Vec<ParsedPhone> = Vec::new();
    let mut i: usize = 0;
    while i < v.len()
        invariant
            i <= v@.len(),
            phones_view(out@) =~= phones_view(v@).take(i as int),
        decreases v@.len() - i,
    {
        let item: ParsedPhone = ParsedPhone {
            number: copy_text(v[i].number.as_str()),
            types: copy_list(&v[i].types),
        };
        assert(item@ == v@[i as int]@);
        let ghost before = out@;
        out.push(item);
        assert(phones_view(out@) =~= phones_view(before).push(item@));
        i = i + 1;
    }
    out
}

fn copy_addresses(v: &Vec<ParsedAddress>) -> (r: Vec<ParsedAddress>)
    ensures
        addresses_view(r@) == addresses_view(v@),
{
    let mut out: Vec<ParsedAddress> = Vec::new();
    let mut i: usize = 0;
    while i < v.len()
        invariant
            i <= v@.len(),
            addresses_view(out@) =~= addresses_view(v@).take(i as int),
        decreases v@.len() - i,
    {
        let item: ParsedAddress = ParsedAddress {
            street: copy_text(v[i].street.as_str()),
            locality: copy_text(v[i].locality.as_str()),
            region: copy_text(v[i].region.as_str()),
            postal_code: copy_text(v[i].postal_code.as_str()),
            country: copy_text(v[i].country.as_str()),
            types: copy_list(&v[i].types),
        };
        assert(item@ == v@[i as int]@);
        let ghost before = out@;
        out.push(item);
        assert(addresses_view(out@) =~= addresses_view(before).push(item@));
        i = i + 1;
    }
    out
}

/// The contact with other photos.
pub fn with_photos(c: &ParsedContact, photos: Vec<String>) -> (r: ParsedContact)
    ensures
        r@ == (Contact { photos: text::texts(photos@), ..c@ }),
{
    ParsedContact {
        first_name: copy_text(c.first_name.as_str()),
        last_name: copy_text(c.last_name.as_str()),
        display_name: copy_text(c.display_name.as_str()),
        emails: copy_emails(&c.emails),
        phones: copy_phones(&c.phones),
        addresses: copy_addresses(&c.addresses),
        organization: copy_text(c.organization.as_str()),
        title: copy_text(c.title.as_str()),
        role: copy_text(c.role.as_str()),
        notes: copy_list(&c.notes),
        url: copy_text(c.url.as_str()),
        birthday: copy_text(c.birthday.as_str()),
        anniversary: copy_text(c.anniversary.as_str()),
        nickname: copy_text(c.nickname.as_str()),
        gender: copy_text(c.gender.as_str()),
        photos,
    }
}

// ---------------------------------------------------------------------
// Reading
// ---------------------------------------------------------------------

/// One parameter of a content line.
#[derive(Debug, Clone, PartialEq, Eq)]
pub struct LineParam {
    pub name: String,
    pub values: Vec<String>,
}

/// One content line of a card, in parts.
#[derive(Debug, Clone, PartialEq, Eq)]
pub struct ContentLine {
    pub name: String,
    pub params: Vec<LineParam>,
    pub value: String,
}

/// What a [`ContentLine`] holds.
#[verifier::ext_equal]
pub struct Line {
    pub name: Seq<char>,
    pub params: Seq<(Seq<char>, Seq<Seq<char>>)>,
    pub value: Seq<char>,
}

pub open spec fn params_view(v: Seq<LineParam>) -> Seq<(Seq<char>, Seq<Seq<char>>)> {
    Seq::new(v.len(), |i: int| (v[i].name@, text::texts(v[i].values@)))
}

impl View for ContentLine {
    type V = Line;

    open spec fn view(&self) -> Line {
        Line { name: self.name@, params: params_view(self.params@), value: self.value@ }
    }
}

pub open spec fn lines_view(v: Seq<ContentLine>) -> Seq<Line> {
    Seq::new(v.len(), |i: int| v[i]@)
}

/// The values of every parameter of this name, in any case.
pub open spec fn param_values(
    params: Seq<(Seq<char>, Seq<Seq<char>>)>,
    name: Seq<char>,
) -> Seq<Seq<char>>
    decreases params.len(),
{
    if params.len() == 0 {
        seq![]
    } else {
        let init = param_values(params.drop_last(), name);
        if text::same_ignoring_case(params.last().0, name) {
            init + params.last().1
        } else {
            init
        }
    }
}

/// `YYYYMMDD` with dashes; any other text as it is.
pub open spec fn bday_form(raw: Seq<char>) -> Seq<char> {
    if raw.len() == 8 && numbers::all_digits(raw) {
        raw.subrange(0, 4) + "-"@ + raw.subrange(4, 6) + "-"@ + raw.subrange(6, 8)
    } else {
        raw
    }
}

/// The gender that a GENDER value names, by its first letter.
pub open spec fn gender_name(value: Seq<char>) -> Seq<char> {
    let v = text::uppercase(value);
    if v.len() > 0 && v[0] == 'M' {
        "Male"@
    } else if v.len() > 0 && v[0] == 'F' {
        "Female"@
    } else if v.len() > 0 && v[0] == 'O' {
        "Other"@
    } else if v.len() > 0 && v[0] == 'N' {
        "N/A"@
    } else if v.len() > 0 && v[0] == 'U' {
        "Unknown"@
    } else {
        value
    }
}

/// The `i`-th part, empty when there is none.
pub open spec fn part(parts: Seq<Seq<char>>, i: int) -> Seq<char> {
    if i < parts.len() {
        parts[i]
    } else {
        seq![]
    }
}

/// What is there already, or else the new value.
pub open spec fn first_of(there: Seq<char>, new: Seq<char>) -> Seq<char> {
    if there.len() == 0 {
        new
    } else {
        there
    }
}

/// Takes in one content line. The first value of a single-valued property
/// counts, but for the name, where the last one does.
pub open spec fn contact_step(c: Contact, line: Line) -> Contact {
    let name = text::uppercase(line.name);
    let value = escape::unescape(line.value);
    let parts = escape::value_parts(line.value);
    let types = param_values(line.params, "TYPE"@);
    if name == "FN"@ {
        Contact { display_name: first_of(c.display_name, value), ..c }
    } else if name == "N"@ {
        Contact {
            last_name: parts[0],
            first_name: if parts.len() > 1 {
                parts[1]
            } else {
                c.first_name
            },
            ..c
        }
    } else if name == "EMAIL"@ {
        Contact { emails: c.emails.push(Typed { value, types }), ..c }
    } else if name == "TEL"@ {
        Contact { phones: c.phones.push(Typed { value, types }), ..c }
    } else if name == "ADR"@ {
        Contact {
            addresses: c.addresses.push(
                Address {
                    street: part(parts, 2),
                    locality: part(parts, 3),
                    region: part(parts, 4),
                    postal_code: part(parts, 5),
                    country: part(parts, 6),
                    types,
                },
            ),
            ..c
        }
    } else if name == "ORG"@ {
        Contact { organization: first_of(c.organization, value), ..c }
    } else if name == "TITLE"@ {
        Contact { title: first_of(c.title, value), ..c }
    } else if name == "ROLE"@ {
        Contact { role: first_of(c.role, value), ..c }
    } else if name == "NOTE"@ {
        Contact { notes: c.notes.push(value), ..c }
    } else if name == "URL"@ {
        Contact { url: first_of(c.url, value), ..c }
    } else if name == "BDAY"@ {
        Contact { birthday: first_of(c.birthday, bday_form(value)), ..c }
    } else if name == "ANNIVERSARY"@ || name == "X-ANNIVERSARY"@ {
        Contact { anniversary: first_of(c.anniversary, bday_form(value)), ..c }
    } else if name == "NICKNAME"@ {
        Contact { nickname: first_of(c.nickname, value), ..c }
    } else if name == "GENDER"@ {
        Contact { gender: first_of(c.gender, gender_name(value)), ..c }
    } else if name == "PHOTO"@ || name == "LOGO"@ {
        if value.len() > 0 {
            Contact { photos: c.photos.push(value), ..c }
        } else {
            c
        }
    } else {
        c
    }
}

pub open spec fn is_begin(line: Line) -> bool {
    text::same_ignoring_case(line.name, "BEGIN"@) && text::same_ignoring_case(
        line.value,
        "VCARD"@,
    )
}

/// Where the last card starts, or the number of lines when none does.
pub open spec fn last_begin(l: Seq<Line>) -> int
    decreases l.len(),
{
    if l.len() == 0 {
        0
    } else if is_begin(l.last()) {
        l.len() - 1
    } else {
        let k = last_begin(l.drop_last());
        if k < l.len() - 1 {
            k
        } else {
            l.len() as int
        }
    }
}

/// The contact that lines make, taken in one after the other.
pub open spec fn contact_of_lines(l: Seq<Line>) -> Contact
    decreases l.len(),
{
    if l.len() == 0 {
        no_contact()
    } else {
        contact_step(contact_of_lines(l.drop_last()), l.last())
    }
}

/// The contact of the last card among the lines.
pub open spec fn contact_of(l: Seq<Line>) -> Contact {
    contact_of_lines(l.skip(last_begin(l)))
}

fn type_values(params: &Vec<LineParam>) -> (r: Vec<String>)
    ensures
        text::texts(r@) == param_values(params_view(params@), "TYPE"@),
{
    let mut out: Vec<String> = Vec::new();
    let ghost t = params_view(params@);
    let mut i: usize = 0;
    assert(text::texts(out@) =~= seq![]);
    while i < params.len()
        invariant
            i <= params@.len(),
            t == params_view(params@),
            text::texts(out@) == param_values(t.take(i as int), "TYPE"@),
        decreases params@.len() - i,
    {
        assert(t.take(i + 1).drop_last() =~= t.take(i as int));
        assert(t.take(i + 1).last() == t[i as int]);
        if eq_ignoring_case(params[i].name.as_str(), "TYPE") {
            lists::extend_texts(&mut out, &params[i].values);
        }
        i = i + 1;
    }
    assert(t.take(t.len() as int) =~= t);
    out
}

/// A date in digits gets dashes; any other text stays as it is.
pub fn format_bday(raw: String) -> (r: String)
    ensures
        r@ == bday_form(raw@),
{
    let v: Vec<char> = chars_of(raw.as_str());
    if v.len() != 8 {
        return raw;
    }
    let mut i: usize = 0;
    while i < 8
        invariant
            i <= 8,
            v@.len() == 8,
            v@ == raw@,
            forall|j: int| 0 <= j < i ==> numbers::is_digit(#[trigger] v@[j]),
        decreases 8 - i,
    {
        if !numbers::digit(v[i]) {
            assert(!numbers::is_digit(v@[i as int]));
            return raw;
        }
        i = i + 1;
    }
    assert(numbers::all_digits(raw@));
    let mut out: String = string_of(&v, 0, 4);
    push_text(&mut out, "-");
    push_text(&mut out, string_of(&v, 4, 6).as_str());
    push_text(&mut out, "-");
    push_text(&mut out, string_of(&v, 6, 8).as_str());
    out
}

fn name_of_gender(value: String) -> (r: String)
    ensures
        r@ == gender_name(value@),
{
    let v: Vec<char> = chars_of(to_upper(value.as_str()).as_str());
    if v.len() > 0 && v[0] == 'M' {
        copy_text("Male")
    } else if v.len() > 0 && v[0] == 'F' {
        copy_text("Female")
    } else if v.len() > 0 && v[0] == 'O' {
        copy_text("Other")
    } else if v.len() > 0 && v[0] == 'N' {
        copy_text("N/A")
    } else if v.len() > 0 && v[0] == 'U' {
        copy_text("Unknown")
    } else {
        value
    }
}

fn part_of(parts: &Vec<String>, i: usize) -> (r: String)
    ensures
        r@ == part(text::texts(parts@), i as int),
{
    if i < parts.len() {
        copy_text(parts[i].as_str())
    } else {
        String::new()
    }
}

fn keep_first(field: &mut String, value: String)
    ensures
        final(field)@ == first_of(old(field)@, value@),
{
    if text::is_empty(field.as_str()) {
        *field = value;
    }
}

/// Takes one content line into the contact.
fn apply_line(c: &mut ParsedContact, line: &ContentLine)
    ensures
        final(c)@ == contact_step(old(c)@, line@),
{
    let name: String = to_upper(line.name.as_str());
    let value: String = unescape_text(line.value.as_str());
    proof {
        escape::lemma_value_parts(line.value@);
    }
    if text_eq(name.as_str(), "FN") {
        keep_first(&mut c.display_name, value);
    } else if text_eq(name.as_str(), "N") {
        let parts: Vec<String> = split_value(line.value.as_str());
        assert(text::texts(parts@).len() == parts@.len());
        c.last_name = copy_text(parts[0].as_str());
        if parts.len() > 1 {
            c.first_name = copy_text(parts[1].as_str());
        }
    } else if text_eq(name.as_str(), "EMAIL") {
        let e: ParsedEmail = ParsedEmail { email: value, types: type_values(&line.params) };
        let ghost before = emails_view(c.emails@);
        let ghost ev = e@;
        c.emails.push(e);
        assert(emails_view(c.emails@) =~= before.push(ev));
    } else if text_eq(name.as_str(), "TEL") {
        let p: ParsedPhone = ParsedPhone { number: value, types: type_values(&line.params) };
        let ghost before = phones_view(c.phones@);
        let ghost pv = p@;
        c.phones.push(p);
        assert(phones_view(c.phones@) =~= before.push(pv));
    } else if text_eq(name.as_str(), "ADR") {
        let parts: Vec<String> = split_value(line.value.as_str());
        let a: ParsedAddress = ParsedAddress {
            street: part_of(&parts, 2),
            locality: part_of(&parts, 3),
            region: part_of(&parts, 4),
            postal_code: part_of(&parts, 5),
            country: part_of(&parts, 6),
            types: type_values(&line.params),
        };
        let ghost before = addresses_view(c.addresses@);
        let ghost av = a@;
        c.addresses.push(a);
        assert(addresses_view(c.addresses@) =~= before.push(av));
    } else if text_eq(name.as_str(), "ORG") {
        keep_first(&mut c.organization, value);
    } else if text_eq(name.as_str(), "TITLE") {
        keep_first(&mut c.title, value);
    } else if text_eq(name.as_str(), "ROLE") {
        keep_first(&mut c.role, value);
    } else if text_eq(name.as_str(), "NOTE") {
        c.notes.push(value);
    } else if text_eq(name.as_str(), "URL") {
        keep_first(&mut c.url, value);
    } else if text_eq(name.as_str(), "BDAY") {
        keep_first(&mut c.birthday, format_bday(value));
    } else if text_eq(name.as_str(), "ANNIVERSARY") || text_eq(name.as_str(), "X-ANNIVERSARY") {
        keep_first(&mut c.anniversary, format_bday(value));
    } else if text_eq(name.as_str(), "NICKNAME") {
        keep_first(&mut c.nickname, value);
    } else if text_eq(name.as_str(), "GENDER") {
        keep_first(&mut c.gender, name_of_gender(value));
    } else if text_eq(name.as_str(), "PHOTO") || text_eq(name.as_str(), "LOGO") {
        if !text::is_empty(value.as_str()) {
            c.photos.push(value);
        }
    }
}

/// The contact of the last card among the lines.
pub fn contact_from_lines(all: &Vec<ContentLine>) -> (r: ParsedContact)
    ensures
        r@ == contact_of(lines_view(all@)),
{
    let ghost t = lines_view(all@);
    let mut start: usize = 0;
    let mut i: usize = 0;
    while i < all.len()
        invariant
            i <= all@.len(),
            start <= i,
            t == lines_view(all@),
            start == last_begin(t.take(i as int)),
        decreases all@.len() - i,
    {
        assert(t.take(i + 1).drop_last() =~= t.take(i as int));
        assert(t.take(i + 1).last() == all@[i as int]@);
        if eq_ignoring_case(all[i].name.as_str(), "BEGIN") && eq_ignoring_case(
            all[i].value.as_str(),
            "VCARD",
        ) {
            start = i;
        } else if start == i {
            start = i + 1;
        }
        i = i + 1;
    }
    assert(t.take(t.len() as int) =~= t);
    let ghost card = t.skip(start as int);
    let mut c: ParsedContact = ParsedContact::default();
    let mut k: usize = start;
    while k < all.len()
        invariant
            start <= k <= all@.len(),
            t == lines_view(all@),
            card == t.skip(start as int),
            c@ == contact_of_lines(card.take(k - start)),
        decreases all@.len() - k,
    {
        assert(card.take(k + 1 - start).drop_last() =~= card.take(k - start));
        assert(card.take(k + 1 - start).last() == all@[k as int]@);
        apply_line(&mut c, &all[k]);
        k = k + 1;
    }
    assert(card.take(card.len() as int) =~= card);
    c
}

/// The content lines that `ical_vcard` reads from a text, or the text of its
/// error.
pub uninterp spec fn content_lines_of(data: Seq<char>) -> Result<Seq<Line>, Seq<char>>;

/// A content line with its group, where it has one.
#[verifier::ext_equal]
pub struct Entry {
    pub group: Option<Seq<char>>,
    pub line: Line,
}

/// The parameters of a line as they are written.
pub open spec fn params_text(params: Seq<(Seq<char>, Seq<Seq<char>>)>) -> Seq<char>
    decreases params.len(),
{
    if params.len() == 0 {
        seq![]
    } else {
        params_text(params.drop_last()) + ";"@ + params.last().0 + "="@ + text::join(
            params.last().1,
            ","@,
        )
    }
}

/// A content line as it is written.
pub open spec fn entry_text(e: Entry) -> Seq<char> {
    (match e.group {
        Some(g) => g + "."@,
        None => seq![],
    }) + e.line.name + params_text(e.line.params) + ":"@ + e.line.value
}

pub open spec fn entry_texts(es: Seq<Entry>) -> Seq<Seq<char>> {
    Seq::new(es.len(), |i: int| entry_text(es[i]))
}

pub open spec fn entry_lines(es: Seq<Entry>) -> Seq<Line> {
    Seq::new(es.len(), |i: int| es[i].line)
}

/// ASCII letters, digits and dashes, at least one.
pub open spec fn is_identifier(s: Seq<char>) -> bool {
    s.len() > 0 && forall|i: int|
        0 <= i < s.len() ==> 'A' <= (#[trigger] s[i]) <= 'Z' || 'a' <= s[i] <= 'z'
            || numbers::is_digit(s[i]) || s[i] == '-'
}

/// An ASCII control character other than the tab.
pub open spec fn is_control(c: char) -> bool {
    (c as u32) < 32 && c != '\t' || c as u32 == 127
}

/// Text without control characters.
pub open spec fn is_value(s: Seq<char>) -> bool {
    forall|i: int| 0 <= i < s.len() ==> !is_control(#[trigger] s[i])
}

/// A parameter value that is written as it is.
pub open spec fn is_param_value(s: Seq<char>) -> bool {
    forall|i: int|
        0 <= i < s.len() ==> !is_control(#[trigger] s[i]) && s[i] != '"' && s[i] != ';' && s[i]
            != ':' && s[i] != ',' && s[i] != '^'
}

pub open spec fn is_param(p: (Seq<char>, Seq<Seq<char>>)) -> bool {
    &&& is_identifier(p.0)
    &&& p.1.len() > 0
    &&& forall|i: int| 0 <= i < p.1.len() ==> is_param_value(#[trigger] p.1[i])
}

/// A line that is written as it is, and within the longest line that is read.
pub open spec fn is_entry(e: Entry) -> bool {
    &&& e.group matches Some(g) ==> is_identifier(g)
    &&& is_identifier(e.line.name)
    &&& forall|i: int| 0 <= i < e.line.params.len() ==> is_param(#[trigger] e.line.params[i])
    &&& is_value(e.line.value)
    &&& lines::octets(entry_text(e)) <= 16777216
}

pub open spec fn are_entries(es: Seq<Entry>) -> bool {
    forall|i: int| 0 <= i < es.len() ==> is_entry(#[trigger] es[i])
}

/// Runs `ical_vcard::Parser` over a text and collects its content lines: of
/// each the name, the parameters with their values, and the value. The first
/// error ends it. The outcome is a function of the text; it is only named
/// here. Content lines that were written as they are, folded and joined by
/// `CR LF`, come back: the parser joins continuations and takes each line
/// apart at its group, parameters and value.
#[verifier::external_body]
fn read_content_lines(data: &str) -> (r: Result<Vec<ContentLine>, String>)
    ensures
        match r {
            Ok(v) => content_lines_of(data@) == Ok::<Seq<Line>, Seq<char>>(lines_view(v@)),
            Err(e) => content_lines_of(data@) == Err::<Seq<Line>, Seq<char>>(e@),
        },
        forall|es: Seq<Entry>|
            data@ == #[trigger] lines::card_of(entry_texts(es)) && are_entries(es) ==> r is Ok
                && lines_view(r->Ok_0@) == entry_lines(es),
{
    ical_vcard::Parser::new(data.as_bytes()).map(|item| item.map(|cl| ContentLine {
        name: cl.name().to_string(),
        params: cl.params().iter().map(|p| LineParam {
            name: p.name().to_string(),
            values: p.values().iter().map(|v| v.to_string()).collect(),
        }).collect(),
        value: cl.value().to_string(),
    })).collect::<Result<Vec<_>, _>>().map_err(|e| e.to_string())
}

/// Reads the contact of the last card in a text. The cards that
/// [`build_vcard`] writes read back as what was written in them.
pub fn parse_vcard(data: &str) -> (r: Result<ParsedContact, String>)
    ensures
        match r {
            Ok(c) => content_lines_of(data@) matches Ok(l) && c@ == contact_of(l),
            Err(m) => content_lines_of(data@) matches Err(e) && m@ == "ical_vcard parse error: "@
                + e,
        },
        forall|c: Contact, uid: Seq<char>|
            data@ == lines::card_of(card_content(#[trigger] signed_body(c, uid)))
                && vcard_back::signs_plainly(c, uid) ==> r is Ok && r->Ok_0@
                == vcard_back::signed_part(c),
        forall|c: Contact|
            data@ == lines::card_of(card_content(#[trigger] encrypted_body(c)))
                && vcard_back::encrypts_plainly(c) ==> r is Ok && r->Ok_0@
                == vcard_back::encrypted_part(c),
{
    let read: Result<Vec<ContentLine>, String> = read_content_lines(data);
    proof {
        assert forall|c: Contact, uid: Seq<char>|
            data@ == lines::card_of(card_content(#[trigger] signed_body(c, uid)))
                && vcard_back::signs_plainly(c, uid) implies read is Ok && contact_of(
            lines_view(read->Ok_0@),
        ) == vcard_back::signed_part(c) by {
            vcard_back::law_signed_card_reads_back(c, uid);
            let es = vcard_back::card_entries(vcard_back::signed_entries(c, uid));
            assert(data@ == lines::card_of(entry_texts(es)));
        }
        assert forall|c: Contact|
            data@ == lines::card_of(card_content(#[trigger] encrypted_body(c)))
                && vcard_back::encrypts_plainly(c) implies read is Ok && contact_of(
            lines_view(read->Ok_0@),
        ) == vcard_back::encrypted_part(c) by {
            vcard_back::law_encrypted_card_reads_back(c);
            let es = vcard_back::card_entries(vcard_back::encrypted_entries(c));
            assert(data@ == lines::card_of(entry_texts(es)));
        }
    }
    match read {
        Ok(all) => Ok(contact_from_lines(&all)),
        Err(e) => Err(concat2("ical_vcard parse error: ", e.as_str())),
    }
}

// ---------------------------------------------------------------------
// Writing
// ---------------------------------------------------------------------

/// The `TYPE` parameter of a line; nothing without types.
pub open spec fn type_suffix(types: Seq<Seq<char>>) -> Seq<char> {
    if types.len() == 0 {
        seq![]
    } else {
        ";TYPE="@ + text::join(types, ","@)
    }
}

/// The content lines of a card round `body`.
pub open spec fn card_content(body: Seq<Seq<char>>) -> Seq<Seq<char>> {
    seq!["BEGIN:VCARD"@, "VERSION:4.0"@] + body + seq!["END:VCARD"@]
}

/// The name to show: the given one, else first and last name, else the first
/// address, else `Unknown`.
pub open spec fn shown_name(c: Contact) -> Seq<char> {
    let full = text::trim(c.first_name + " "@ + c.last_name);
    if c.display_name.len() > 0 {
        c.display_name
    } else if full.len() > 0 {
        full
    } else if c.emails.len() > 0 && c.emails[0].value.len() > 0 {
        c.emails[0].value
    } else {
        "Unknown"@
    }
}

pub open spec fn email_line(e: Typed, i: int) -> Seq<char> {
    "item"@ + numbers::decimal((i + 1) as nat) + ".EMAIL"@ + type_suffix(e.types) + ":"@
        + escape::escape(e.value)
}

pub open spec fn phone_line(p: Typed) -> Seq<char> {
    "TEL"@ + type_suffix(p.types) + ":"@ + escape::escape(p.value)
}

pub open spec fn address_line(a: Address) -> Seq<char> {
    "ADR"@ + type_suffix(a.types) + ":;;"@ + escape::escape(a.street) + ";"@ + escape::escape(
        a.locality,
    ) + ";"@ + escape::escape(a.region) + ";"@ + escape::escape(a.postal_code) + ";"@
        + escape::escape(a.country)
}

/// The line of a property that the contact has, nothing where it is empty.
pub open spec fn optional_line(head: Seq<char>, value: Seq<char>) -> Seq<Seq<char>> {
    if value.len() > 0 {
        seq![head + escape::escape(value)]
    } else {
        seq![]
    }
}

/// One line for each value.
pub open spec fn value_lines(head: Seq<char>, values: Seq<Seq<char>>) -> Seq<Seq<char>> {
    Seq::new(values.len(), |i: int| head + escape::escape(values[i]))
}

/// The letter of a gender; any other text in upper case.
pub open spec fn gender_code(gender: Seq<char>) -> Seq<char> {
    let g = text::uppercase(gender);
    if g == "MALE"@ {
        "M"@
    } else if g == "FEMALE"@ {
        "F"@
    } else if g == "OTHER"@ {
        "O"@
    } else if g == "N/A"@ {
        "N"@
    } else if g == "UNKNOWN"@ {
        "U"@
    } else {
        g
    }
}

/// What the signed card carries: the identifier, the shown name and the
/// addresses, each address in a group of its own.
pub open spec fn signed_body(c: Contact, uid: Seq<char>) -> Seq<Seq<char>> {
    seq!["UID:"@ + uid, "FN:"@ + escape::escape(shown_name(c))] + Seq::new(
        c.emails.len(),
        |i: int| email_line(c.emails[i], i),
    )
}

/// What the encrypted card carries: everything else.
pub open spec fn encrypted_body(c: Contact) -> Seq<Seq<char>> {
    (if c.first_name.len() > 0 || c.last_name.len() > 0 {
        seq!["N:"@ + escape::escape(c.last_name) + ";"@ + escape::escape(c.first_name) + ";;;"@]
    } else {
        seq![]
    }) + Seq::new(c.phones.len(), |i: int| phone_line(c.phones[i])) + Seq::new(
        c.addresses.len(),
        |i: int| address_line(c.addresses[i]),
    ) + optional_line("ORG:"@, c.organization) + optional_line("TITLE:"@, c.title) + optional_line(
        "ROLE:"@,
        c.role,
    ) + value_lines("NOTE:"@, c.notes) + optional_line("URL:"@, c.url) + optional_line(
        "BDAY:"@,
        c.birthday,
    ) + optional_line("ANNIVERSARY:"@, c.anniversary) + optional_line("NICKNAME:"@, c.nickname) + (
    if c.gender.len() > 0 {
        seq!["GENDER:"@ + escape::escape(gender_code(c.gender))]
    } else {
        seq![]
    }) + value_lines("PHOTO:"@, c.photos)
}

/// The `TYPE` parameter of a line.
pub fn type_param(types: &Vec<String>) -> (r: String)
    ensures
        r@ == type_suffix(text::texts(types@)),
{
    assert(text::texts(types@).len() == types@.len());
    if types.len() == 0 {
        return String::new();
    }
    concat2(";TYPE=", join_texts(types, ",").as_str())
}

/// Wraps content lines into a folded card, without a line end behind it.
pub fn wrap_vcard(body: &Vec<String>) -> (r: String)
    ensures
        r@ == lines::card_of(card_content(text::texts(body@))),
{
    let mut all: Vec<String> = Vec::new();
    all.push(copy_text("BEGIN:VCARD"));
    all.push(copy_text("VERSION:4.0"));
    lists::extend_texts(&mut all, body);
    all.push(copy_text("END:VCARD"));
    assert(text::texts(all@) =~= card_content(text::texts(body@)));
    fold_card(&all)
}

/// The letter of a gender.
pub fn gender_letter(gender: &str) -> (r: String)
    ensures
        r@ == gender_code(gender@),
{
    let g: String = to_upper(gender);
    if text_eq(g.as_str(), "MALE") {
        copy_text("M")
    } else if text_eq(g.as_str(), "FEMALE") {
        copy_text("F")
    } else if text_eq(g.as_str(), "OTHER") {
        copy_text("O")
    } else if text_eq(g.as_str(), "N/A") {
        copy_text("N")
    } else if text_eq(g.as_str(), "UNKNOWN") {
        copy_text("U")
    } else {
        g
    }
}

fn display_of(contact: &ParsedContact) -> (r: String)
    ensures
        r@ == shown_name(contact@),
{
    if !text::is_empty(contact.display_name.as_str()) {
        return copy_text(contact.display_name.as_str());
    }
    let full: String = trimmed(
        concat3(contact.first_name.as_str(), " ", contact.last_name.as_str()).as_str(),
    );
    if !text::is_empty(full.as_str()) {
        return full;
    }
    assert(contact@.emails.len() == contact.emails@.len());
    if contact.emails.len() > 0 && !text::is_empty(contact.emails[0].email.as_str()) {
        return copy_text(contact.emails[0].email.as_str());
    }
    copy_text("Unknown")
}

fn signed_lines(contact: &ParsedContact, uid: &str) -> (r: Vec<String>)
    ensures
        text::texts(r@) == signed_body(contact@, uid@),
{
    let mut out: Vec<String> = Vec::new();
    out.push(concat2("UID:", uid));
    let shown: String = display_of(contact);
    out.push(concat2("FN:", escape_vcard(shown.as_str()).as_str()));
    let ghost head = text::texts(out@);
    let ghost mails = contact@.emails;
    let mut i: usize = 0;
    while i < contact.emails.len()
        invariant
            i <= contact.emails@.len(),
            mails == emails_view(contact.emails@),
            text::texts(out@) =~= head + Seq::new(i as nat, |k: int| email_line(mails[k], k)),
        decreases contact.emails@.len() - i,
    {
        let mut line: String = copy_text("item");
        push_text(&mut line, decimal_text((i + 1) as u64).as_str());
        push_text(&mut line, ".EMAIL");
        push_text(&mut line, type_param(&contact.emails[i].types).as_str());
        push_text(&mut line, ":");
        push_text(&mut line, escape_vcard(contact.emails[i].email.as_str()).as_str());
        assert(line@ == email_line(mails[i as int], i as int));
        out.push(line);
        i = i + 1;
    }
    assert(text::texts(out@) =~= signed_body(contact@, uid@));
    out
}

fn add_optional(out: &mut Vec<String>, head: &str, value: &str)
    ensures
        text::texts(final(out)@) == text::texts(old(out)@) + optional_line(head@, value@),
{
    let ghost before = text::texts(out@);
    if !text::is_empty(value) {
        out.push(concat2(head, escape_vcard(value).as_str()));
    }
    assert(text::texts(out@) =~= before + optional_line(head@, value@));
}

fn add_values(out: &mut Vec<String>, head: &str, values: &Vec<String>)
    ensures
        text::texts(final(out)@) == text::texts(old(out)@) + value_lines(
            head@,
            text::texts(values@),
        ),
{
    let ghost before = text::texts(out@);
    let ghost t = text::texts(values@);
    let mut i: usize = 0;
    while i < values.len()
        invariant
            i <= values@.len(),
            t == text::texts(values@),
            text::texts(out@) =~= before + value_lines(head@, t).take(i as int),
        decreases values@.len() - i,
    {
        out.push(concat2(head, escape_vcard(values[i].as_str()).as_str()));
        i = i + 1;
    }
    assert(value_lines(head@, t).take(i as int) =~= value_lines(head@, t));
}

fn add_phones(out: &mut Vec<String>, phones: &Vec<ParsedPhone>)
    ensures
        text::texts(final(out)@) == text::texts(old(out)@) + Seq::new(
            phones@.len(),
            |i: int| phone_line(phones_view(phones@)[i]),
        ),
{
    let ghost before = text::texts(out@);
    let ghost t = phones_view(phones@);
    let mut i: usize = 0;
    while i < phones.len()
        invariant
            i <= phones@.len(),
            t == phones_view(phones@),
            text::texts(out@) =~= before + Seq::new(i as nat, |k: int| phone_line(t[k])),
        decreases phones@.len() - i,
    {
        let mut line: String = copy_text("TEL");
        push_text(&mut line, type_param(&phones[i].types).as_str());
        push_text(&mut line, ":");
        push_text(&mut line, escape_vcard(phones[i].number.as_str()).as_str());
        assert(line@ == phone_line(t[i as int]));
        out.push(line);
        i = i + 1;
    }
}

fn add_addresses(out: &mut Vec<String>, addresses: &Vec<ParsedAddress>)
    ensures
        text::texts(final(out)@) == text::texts(old(out)@) + Seq::new(
            addresses@.len(),
            |i: int| address_line(addresses_view(addresses@)[i]),
        ),
{
    let ghost before = text::texts(out@);
    let ghost t = addresses_view(addresses@);
    let mut i: usize = 0;
    while i < addresses.len()
        invariant
            i <= addresses@.len(),
            t == addresses_view(addresses@),
            text::texts(out@) =~= before + Seq::new(i as nat, |k: int| address_line(t[k])),
        decreases addresses@.len() - i,
    {
        let mut line: String = copy_text("ADR");
        push_text(&mut line, type_param(&addresses[i].types).as_str());
        push_text(&mut line, ":;;");
        push_text(&mut line, escape_vcard(addresses[i].street.as_str()).as_str());
        push_text(&mut line, ";");
        push_text(&mut line, escape_vcard(addresses[i].locality.as_str()).as_str());
        push_text(&mut line, ";");
        push_text(&mut line, escape_vcard(addresses[i].region.as_str()).as_str());
        push_text(&mut line, ";");
        push_text(&mut line, escape_vcard(addresses[i].postal_code.as_str()).as_str());
        push_text(&mut line, ";");
        push_text(&mut line, escape_vcard(addresses[i].country.as_str()).as_str());
        assert(line@ == address_line(t[i as int]));
        out.push(line);
        i = i + 1;
    }
}

fn encrypted_lines(c: &ParsedContact) -> (r: Vec<String>)
    ensures
        text::texts(r@) == encrypted_body(c@),
{
    let mut out: Vec<String> = Vec::new();
    if !text::is_empty(c.first_name.as_str()) || !text::is_empty(c.last_name.as_str()) {
        let mut line: String = copy_text("N:");
        push_text(&mut line, escape_vcard(c.last_name.as_str()).as_str());
        push_text(&mut line, ";");
        push_text(&mut line, escape_vcard(c.first_name.as_str()).as_str());
        push_text(&mut line, ";;;");
        out.push(line);
    }
    let ghost m = c@;
    assert(text::texts(out@) =~= (if m.first_name.len() > 0 || m.last_name.len() > 0 {
        seq!["N:"@ + escape::escape(m.last_name) + ";"@ + escape::escape(m.first_name) + ";;;"@]
    } else {
        seq![]
    }));
    add_phones(&mut out, &c.phones);
    add_addresses(&mut out, &c.addresses);
    add_optional(&mut out, "ORG:", c.organization.as_str());
    add_optional(&mut out, "TITLE:", c.title.as_str());
    add_optional(&mut out, "ROLE:", c.role.as_str());
    add_values(&mut out, "NOTE:", &c.notes);
    add_optional(&mut out, "URL:", c.url.as_str());
    add_optional(&mut out, "BDAY:", c.birthday.as_str());
    add_optional(&mut out, "ANNIVERSARY:", c.anniversary.as_str());
    add_optional(&mut out, "NICKNAME:", c.nickname.as_str());
    let ghost before = text::texts(out@);
    if !text::is_empty(c.gender.as_str()) {
        let g: String = gender_letter(c.gender.as_str());
        out.push(concat2("GENDER:", escape_vcard(g.as_str()).as_str()));
    }
    assert(text::texts(out@) =~= before + (if m.gender.len() > 0 {
        seq!["GENDER:"@ + escape::escape(gender_code(m.gender))]
    } else {
        seq![]
    }));
    add_values(&mut out, "PHOTO:", &c.photos);
    out
}

/// The card bodies of one contact: the signed card, and the encrypted one
/// where the contact has anything for it. Without a display name the card
/// shows first and last name, else the first address, else `Unknown`.
pub fn build_vcard(contact: &ParsedContact, uid: &str) -> (r: (String, Option<String>))
    ensures
        r.0@ == lines::card_of(card_content(signed_body(contact@, uid@))),
        text::option_text(r.1) == (if encrypted_body(contact@).len() == 0 {
            None
        } else {
            Some(lines::card_of(card_content(encrypted_body(contact@))))
        }),
{
    let signed: Vec<String> = signed_lines(contact, uid);
    let encrypted: Vec<String> = encrypted_lines(contact);
    assert(text::texts(encrypted@).len() == encrypted@.len());
    let second: Option<String> = if encrypted.len() == 0 {
        None
    } else {
        Some(wrap_vcard(&encrypted))
    };
    (wrap_vcard(&signed), second)
}

// ---------------------------------------------------------------------
// Photos
// ---------------------------------------------------------------------

/// Whether a photo is the address of one, to be fetched.
pub fn is_url_photo(photo: &str) -> (r: bool)
    ensures
        r == (text::starts_with(photo@, "http://"@) || text::starts_with(photo@, "https://"@)),
{
    text_starts_with(photo, "http://") || text_starts_with(photo, "https://")
}

/// A photo in its card: the kind, `image/jpeg` where it is not known, and the
/// bytes in base64.
pub fn photo_data_uri(content_type: Option<&str>, bytes: &Vec<u8>) -> (r: String)
    ensures
        r@ == "data:"@ + (match content_type {
            Some(t) => t@,
            None => "image/jpeg"@,
        }) + ";base64,"@ + encoding::base64_text(bytes@),
{
    let kind: &str = match content_type {
        Some(t) => t,
        None => "image/jpeg",
    };
    let mut out: String = concat3("data:", kind, ";base64,");
    let data: String = encode_base64(bytes);
    push_text(&mut out, data.as_str());
    out
}

// ---------------------------------------------------------------------
// Known properties
// ---------------------------------------------------------------------

/// A property that a rebuilt card keeps.
pub open spec fn known_prop(name: Seq<char>) -> bool {
    let n = text::uppercase(name);
    ||| n == "BEGIN"@
    ||| n == "END"@
    ||| n == "VERSION"@
    ||| n == "PRODID"@
    ||| n == "UID"@
    ||| n == "FN"@
    ||| n == "N"@
    ||| n == "EMAIL"@
    ||| n == "TEL"@
    ||| n == "ADR"@
    ||| n == "ORG"@
    ||| n == "TITLE"@
    ||| n == "ROLE"@
    ||| n == "NOTE"@
    ||| n == "URL"@
    ||| n == "BDAY"@
    ||| n == "ANNIVERSARY"@
    ||| n == "X-ANNIVERSARY"@
    ||| n == "NICKNAME"@
    ||| n == "GENDER"@
    ||| n == "PHOTO"@
    ||| n == "LOGO"@
}

/// Whether a rebuilt card keeps a property of this name.
pub fn is_known_vcard_prop(name: &str) -> (r: bool)
    ensures
        r == known_prop(name@),
{
    let up: String = to_upper(name);
    let n: &str = up.as_str();
    text_eq(n, "BEGIN") || text_eq(n, "END") || text_eq(n, "VERSION") || text_eq(n, "PRODID")
        || text_eq(n, "UID") || text_eq(n, "FN") || text_eq(n, "N") || text_eq(n, "EMAIL")
        || text_eq(n, "TEL") || text_eq(n, "ADR") || text_eq(n, "ORG") || text_eq(n, "TITLE")
        || text_eq(n, "ROLE") || text_eq(n, "NOTE") || text_eq(n, "URL") || text_eq(n, "BDAY")
        || text_eq(n, "ANNIVERSARY") || text_eq(n, "X-ANNIVERSARY") || text_eq(n, "NICKNAME")
        || text_eq(n, "GENDER") || text_eq(n, "PHOTO") || text_eq(n, "LOGO")
}

} // verus!
