//! Reading iCalendar event fragments.
use vstd::prelude::*;

use crate::error::ProtonError;
use crate::escape;
use crate::escape::unescape_text;
use crate::lines;
use crate::lines::{continues, join_continuation, lines_of};
use crate::lists;
use crate::ordered;
use crate::ordered::TextMap;
use crate::text;
use crate::text::{
    chars_of, copy_text, eq_ignoring_case, list_contains, split_text, string_of, text_eq,
    text_starts_with, to_upper, trimmed,
};

verus! {

broadcast use crate::text::lemma_texts_push;

/// An attendee or organizer: the bare address, the common name, and the
/// parameters in upper case, each empty when absent.
#[derive(Debug, Clone, PartialEq, Eq)]
pub struct CalAttendee {
    pub email: String,
    pub name: String,
    pub rsvp: bool,
    pub partstat: String,
    pub role: String,
    pub cutype: String,
}

/// What a [`CalAttendee`] holds.
#[verifier::ext_equal]
pub struct Attendee {
    pub email: Seq<char>,
    pub name: Seq<char>,
    pub rsvp: bool,
    pub partstat: Seq<char>,
    pub role: Seq<char>,
    pub cutype: Seq<char>,
}

impl View for CalAttendee {
    type V = Attendee;

    open spec fn view(&self) -> Attendee {
        Attendee {
            email: self.email@,
            name: self.name@,
            rsvp: self.rsvp,
            partstat: self.partstat@,
            role: self.role@,
            cutype: self.cutype@,
        }
    }
}

impl Default for CalAttendee {
    fn default() -> (r: CalAttendee)
        ensures
            r@ == (Attendee {
                email: seq![],
                name: seq![],
                rsvp: false,
                partstat: seq![],
                role: seq![],
                cutype: seq![],
            }),
    {
        let r: CalAttendee = CalAttendee {
            email: String::new(),
            name: String::new(),
            rsvp: false,
            partstat: String::new(),
            role: String::new(),
            cutype: String::new(),
        };
        r
    }
}

/// An event as it is read from its fragments. Fields are empty when the
/// property is absent.
#[derive(Debug, Clone)]
pub struct ParsedCalendarEvent {
    pub uid: String,
    pub summary: String,
    pub description: String,
    pub location: String,
    pub dtstart: String,
    pub dtend: String,
    pub dtstamp: String,
    pub created: String,
    pub rrule: String,
    pub exdates: Vec<String>,
    pub sequence: String,
    pub status: String,
    pub transp: String,
    pub organizer: String,
    pub attendees: Vec<String>,
    pub organizer_name: String,
    pub attendee_details: Vec<CalAttendee>,
    pub recurrence_id: String,
    pub recurrence_id_range: String,
}

/// What a [`ParsedCalendarEvent`] holds.
#[verifier::ext_equal]
pub struct Event {
    pub uid: Seq<char>,
    pub summary: Seq<char>,
    pub description: Seq<char>,
    pub location: Seq<char>,
    pub dtstart: Seq<char>,
    pub dtend: Seq<char>,
    pub dtstamp: Seq<char>,
    pub created: Seq<char>,
    pub rrule: Seq<char>,
    pub exdates: Seq<Seq<char>>,
    pub sequence: Seq<char>,
    pub status: Seq<char>,
    pub transp: Seq<char>,
    pub organizer: Seq<char>,
    pub attendees: Seq<Seq<char>>,
    pub organizer_name: Seq<char>,
    pub attendee_details: Seq<Attendee>,
    pub recurrence_id: Seq<char>,
    pub recurrence_id_range: Seq<char>,
}

pub open spec fn attendees_view(v: Seq<CalAttendee>) -> Seq<Attendee> {
    Seq::new(v.len(), |i: int| v[i]@)
}

impl View for ParsedCalendarEvent {
    type V = Event;

    open spec fn view(&self) -> Event {
        Event {
            uid: self.uid@,
            summary: self.summary@,
            description: self.description@,
            location: self.location@,
            dtstart: self.dtstart@,
            dtend: self.dtend@,
            dtstamp: self.dtstamp@,
            created: self.created@,
            rrule: self.rrule@,
            exdates: text::texts(self.exdates@),
            sequence: self.sequence@,
            status: self.status@,
            transp: self.transp@,
            organizer: self.organizer@,
            attendees: text::texts(self.attendees@),
            organizer_name: self.organizer_name@,
            attendee_details: attendees_view(self.attendee_details@),
            recurrence_id: self.recurrence_id@,
            recurrence_id_range: self.recurrence_id_range@,
        }
    }
}

/// The event that nothing has been read into.
pub open spec fn no_event() -> Event {
    Event {
        uid: seq![],
        summary: seq![],
        description: seq![],
        location: seq![],
        dtstart: seq![],
        dtend: seq![],
        dtstamp: seq![],
        created: seq![],
        rrule: seq![],
        exdates: seq![],
        sequence: seq![],
        status: seq![],
        transp: seq![],
        organizer: seq![],
        attendees: seq![],
        organizer_name: seq![],
        attendee_details: seq![],
        recurrence_id: seq![],
        recurrence_id_range: seq![],
    }
}

impl Default for ParsedCalendarEvent {
    fn default() -> (r: ParsedCalendarEvent)
        ensures
            r@ == no_event(),
    {
        let r: ParsedCalendarEvent = ParsedCalendarEvent {
            uid: String::new(),
            summary: String::new(),
            description: String::new(),
            location: String::new(),
            dtstart: String::new(),
            dtend: String::new(),
            dtstamp: String::new(),
            created: String::new(),
            rrule: String::new(),
            exdates: Vec::new(),
            sequence: String::new(),
            status: String::new(),
            transp: String::new(),
            organizer: String::new(),
            attendees: Vec::new(),
            organizer_name: String::new(),
            attendee_details: Vec::new(),
            recurrence_id: String::new(),
            recurrence_id_range: String::new(),
        };
        assert(r@ =~= no_event());
        r
    }
}

// ---------------------------------------------------------------------
// Content lines
// ---------------------------------------------------------------------

pub open spec fn unfold_dropping_step(acc: Seq<Seq<char>>, line: Seq<char>) -> Seq<Seq<char>> {
    if !lines::is_continuation(line) {
        acc.push(line)
    } else if acc.len() > 0 {
        acc.drop_last().push(acc.last() + line.skip(1))
    } else {
        acc
    }
}

/// The unfolded lines of a fragment: each continuation joins the line before
/// it, without its leading space or tab. One with no line before it is
/// dropped.
pub open spec fn unfold_dropping(l: Seq<Seq<char>>) -> Seq<Seq<char>>
    decreases l.len(),
{
    if l.len() == 0 {
        seq![]
    } else {
        unfold_dropping_step(unfold_dropping(l.drop_last()), l.last())
    }
}

/// Unfolds the content lines of a fragment.
pub fn unfold_ical(s: &str) -> (r: Vec<String>)
    ensures
        text::texts(r@) == unfold_dropping(lines::card_lines(s@)),
{
    let all: Vec<String> = lines_of(s);
    let mut out: Vec<String> = Vec::new();
    let ghost t = text::texts(all@);
    let mut i: usize = 0;
    assert(text::texts(out@) =~= seq![]);
    while i < all.len()
        invariant
            i <= all@.len(),
            t == text::texts(all@),
            text::texts(out@) == unfold_dropping(t.take(i as int)),
        decreases all@.len() - i,
    {
        assert(t.take(i + 1).drop_last() =~= t.take(i as int));
        assert(t.take(i + 1).last() == all@[i as int]@);
        assert(text::texts(out@).len() == out@.len());
        if !continues(all[i].as_str()) {
            out.push(copy_text(all[i].as_str()));
        } else if out.len() > 0 {
            join_continuation(&mut out, all[i].as_str());
        }
        i = i + 1;
    }
    assert(t.take(t.len() as int) =~= t);
    out
}

/// A content line in parts: the name in upper case, the parameters behind
/// the first semicolon, and the value behind the first colon outside quotes.
#[verifier::ext_equal]
pub struct LineParts {
    pub name: Seq<char>,
    pub params: Seq<char>,
    pub value: Seq<char>,
}

pub open spec fn line_parts(line: Seq<char>) -> Option<LineParts> {
    let k = lines::unquoted_colon(line, false);
    let left = line.take(k);
    let e = text::find(left, ';');
    if k >= line.len() {
        None
    } else {
        Some(
            LineParts {
                name: text::uppercase(text::trim(left.take(e))),
                params: if e < left.len() {
                    left.skip(e + 1)
                } else {
                    seq![]
                },
                value: line.skip(k + 1),
            },
        )
    }
}

/// Splits `NAME;PARAM=...:value` into name, parameters and value.
pub fn split_ical_line_full(line: &str) -> (r: Option<(String, String, String)>)
    ensures
        match r {
            Some(p) => line_parts(line@) == Some(
                LineParts { name: p.0@, params: p.1@, value: p.2@ },
            ),
            None => line_parts(line@) is None,
        },
{
    let v: Vec<char> = chars_of(line);
    let k: usize = lines::find_unquoted_colon(&v);
    if k == v.len() {
        return None;
    }
    let left: String = string_of(&v, 0, k);
    assert(left@ =~= line@.take(k as int));
    let value: String = string_of(&v, k + 1, v.len());
    assert(value@ =~= line@.skip(k + 1));
    let lv: Vec<char> = chars_of(left.as_str());
    assert(lv@.skip(0) =~= lv@);
    let e: usize = text::find_char(&lv, 0, ';');
    let first: String = string_of(&lv, 0, e);
    assert(first@ =~= left@.take(e as int));
    let name: String = to_upper(trimmed(first.as_str()).as_str());
    if e < lv.len() {
        let params: String = string_of(&lv, e + 1, lv.len());
        assert(params@ =~= left@.skip(e + 1));
        Some((name, params, value))
    } else {
        Some((name, String::new(), value))
    }
}

/// Splits `NAME;PARAM=...:value` into name and value.
pub fn split_ical_line(line: &str) -> (r: Option<(String, String)>)
    ensures
        match r {
            Some(p) => line_parts(line@) matches Some(q) && q.name == p.0@ && q.value == p.1@,
            None => line_parts(line@) is None,
        },
{
    match split_ical_line_full(line) {
        Some((name, _, value)) => Some((name, value)),
        None => None,
    }
}

// ---------------------------------------------------------------------
// Parameters
// ---------------------------------------------------------------------

/// Position of the first semicolon outside double quotes, or the length of
/// `s` without one.
pub open spec fn unquoted_semicolon(s: Seq<char>, quoted: bool) -> int
    decreases s.len(),
{
    if s.len() == 0 {
        0
    } else if s[0] == '"' {
        1 + unquoted_semicolon(s.skip(1), !quoted)
    } else if s[0] == ';' && !quoted {
        0
    } else {
        1 + unquoted_semicolon(s.skip(1), quoted)
    }
}

/// The parameters of a section, split at semicolons outside quotes.
pub open spec fn split_params(s: Seq<char>) -> Seq<Seq<char>>
    decreases s.len(),
{
    let k = unquoted_semicolon(s, false);
    if 0 <= k < s.len() {
        seq![s.take(k)] + split_params(s.skip(k + 1))
    } else {
        seq![s]
    }
}

/// A parameter value without the quotes round it.
pub open spec fn unquote(v: Seq<char>) -> Seq<char> {
    if v.len() > 0 && v[0] == '"' {
        let rest = v.skip(1);
        if rest.len() > 0 && rest.last() == '"' {
            rest.drop_last()
        } else {
            rest
        }
    } else {
        v
    }
}

/// Key, in upper case, and value of one `KEY=value` parameter.
pub open spec fn param_entry(part: Seq<char>) -> Option<(Seq<char>, Seq<char>)> {
    let p = text::trim(part);
    let i = text::find(p, '=');
    if i >= p.len() {
        None
    } else {
        Some((text::uppercase(text::trim(p.take(i))), unquote(text::trim(p.skip(i + 1)))))
    }
}

/// The parameters by key; the last one under a key counts.
pub open spec fn param_entries(parts: Seq<Seq<char>>) -> Seq<(Seq<char>, Seq<char>)>
    decreases parts.len(),
{
    if parts.len() == 0 {
        seq![]
    } else {
        let init = param_entries(parts.drop_last());
        match param_entry(parts.last()) {
            Some(e) => ordered::with_entry(init, e.0, e.1),
            None => init,
        }
    }
}

/// The value of a parameter, empty when absent.
pub open spec fn param(params: Seq<char>, key: Seq<char>) -> Seq<char> {
    match ordered::lookup(param_entries(split_params(params)), key) {
        Some(v) => v,
        None => seq![],
    }
}

fn find_unquoted_semicolon(v: &Vec<char>, from: usize) -> (r: usize)
    requires
        from <= v@.len(),
    ensures
        from <= r <= v@.len(),
        r - from == unquoted_semicolon(v@.skip(from as int), false),
{
    let mut i: usize = from;
    let mut quoted: bool = false;
    let ghost s = v@.skip(from as int);
    while i < v.len() && (quoted || v[i] != ';')
        invariant
            from <= i <= v@.len(),
            s == v@.skip(from as int),
            unquoted_semicolon(s, false) == (i - from) + unquoted_semicolon(
                v@.skip(i as int),
                quoted,
            ),
        decreases v@.len() - i,
    {
        assert(v@.skip(i as int).skip(1) =~= v@.skip(i + 1));
        assert(v@.skip(i as int)[0] == v@[i as int]);
        if v[i] == '"' {
            quoted = !quoted;
        }
        i = i + 1;
    }
    assert(i < v@.len() ==> v@.skip(i as int)[0] == v@[i as int]);
    i
}

fn params_of(params: &str) -> (r: Vec<String>)
    ensures
        text::texts(r@) == split_params(params@),
{
    let v: Vec<char> = chars_of(params);
    let mut out: Vec<String> = Vec::new();
    let mut start: usize = 0;
    assert(v@.skip(0) =~= v@);
    loop
        invariant
            start <= v@.len(),
            v@ == params@,
            text::texts(out@) + split_params(v@.skip(start as int)) =~= split_params(params@),
        decreases v@.len() - start,
    {
        let k: usize = find_unquoted_semicolon(&v, start);
        let ghost rest = v@.skip(start as int);
        let piece: String = string_of(&v, start, k);
        assert(piece@ =~= rest.take(k - start));
        out.push(piece);
        if k == v.len() {
            assert(rest.take(k - start) =~= rest);
            assert(text::texts(out@) =~= split_params(params@));
            return out;
        }
        assert(rest.skip(k - start + 1) =~= v@.skip(k + 1));
        start = k + 1;
    }
}

fn unquoted(s: &str) -> (r: String)
    ensures
        r@ == unquote(s@),
{
    let v: Vec<char> = chars_of(s);
    if v.len() > 0 && v[0] == '"' {
        let ghost rest = v@.skip(1);
        if v.len() > 1 && v[v.len() - 1] == '"' {
            assert(rest.last() == v@.last());
            let r: String = string_of(&v, 1, v.len() - 1);
            assert(r@ =~= rest.drop_last());
            r
        } else {
            assert(v@.len() > 1 ==> rest.last() == v@.last());
            let r: String = string_of(&v, 1, v.len());
            assert(r@ =~= rest);
            r
        }
    } else {
        copy_text(s)
    }
}

fn read_param(part: &str) -> (r: Option<(String, String)>)
    ensures
        match r {
            Some(e) => param_entry(part@) == Some((e.0@, e.1@)),
            None => param_entry(part@) is None,
        },
{
    let p: String = trimmed(part);
    let v: Vec<char> = chars_of(p.as_str());
    assert(v@.skip(0) =~= v@);
    let i: usize = text::find_char(&v, 0, '=');
    if i == v.len() {
        return None;
    }
    let left: String = string_of(&v, 0, i);
    assert(left@ =~= p@.take(i as int));
    let right: String = string_of(&v, i + 1, v.len());
    assert(right@ =~= p@.skip(i + 1));
    let key: String = to_upper(trimmed(left.as_str()).as_str());
    let value: String = unquoted(trimmed(right.as_str()).as_str());
    Some((key, value))
}

/// Reads a parameter section (`CN=Alice;RSVP=TRUE`) into a map from
/// upper-cased key to value. A quoted value keeps what is inside the quotes.
pub fn parse_ical_params(params: &str) -> (r: TextMap)
    ensures
        r@ == param_entries(split_params(params@)),
{
    let parts: Vec<String> = params_of(params);
    let mut out: TextMap = TextMap::new();
    let ghost t = text::texts(parts@);
    let mut i: usize = 0;
    while i < parts.len()
        invariant
            i <= parts@.len(),
            t == text::texts(parts@),
            out@ == param_entries(t.take(i as int)),
        decreases parts@.len() - i,
    {
        assert(t.take(i + 1).drop_last() =~= t.take(i as int));
        assert(t.take(i + 1).last() == parts@[i as int]@);
        match read_param(parts[i].as_str()) {
            Some((k, v)) => {
                out.insert(k, v);
            },
            None => {},
        }
        i = i + 1;
    }
    assert(t.take(t.len() as int) =~= t);
    out
}

fn value_or_empty(map: &TextMap, key: &str) -> (r: String)
    ensures
        r@ == (match ordered::lookup(map@, key@) {
            Some(v) => v,
            None => seq![],
        }),
{
    match map.get(key) {
        Some(v) => copy_text(v.as_str()),
        None => String::new(),
    }
}

// ---------------------------------------------------------------------
// Identities
// ---------------------------------------------------------------------

/// The bare address of an ATTENDEE or ORGANIZER value: what follows
/// `mailto:`, in any case, up to a semicolon.
pub open spec fn mailto_email(value: Seq<char>) -> Seq<char> {
    let v = text::trim(value);
    match text::find_text(text::ascii_lowercase(v), "mailto:"@) {
        Some(i) => text::trim(lines::up_to(v.skip(i + 7), ';')),
        None => text::trim(lines::up_to(v, ';')),
    }
}

pub open spec fn attendee_identity(params: Seq<char>, value: Seq<char>) -> Attendee {
    Attendee {
        email: mailto_email(value),
        name: escape::unescape(param(params, "CN"@)),
        rsvp: text::same_ignoring_case(param(params, "RSVP"@), "TRUE"@),
        partstat: text::uppercase(param(params, "PARTSTAT"@)),
        role: text::uppercase(param(params, "ROLE"@)),
        cutype: text::uppercase(param(params, "CUTYPE"@)),
    }
}

fn lower_ascii(s: &Vec<char>) -> (r: Vec<char>)
    ensures
        r@ == text::ascii_lowercase(s@),
{
    let mut out: Vec<char> = Vec::new();
    let mut i: usize = 0;
    while i < s.len()
        invariant
            i <= s@.len(),
            out@ =~= text::ascii_lowercase(s@).take(i as int),
        decreases s@.len() - i,
    {
        out.push(text::lower_char(s[i]));
        i = i + 1;
    }
    assert(out@ =~= text::ascii_lowercase(s@));
    out
}

fn before_char(s: &str, c: char) -> (r: String)
    ensures
        r@ == lines::up_to(s@, c),
{
    let v: Vec<char> = chars_of(s);
    assert(v@.skip(0) =~= v@);
    let e: usize = text::find_char(&v, 0, c);
    let r: String = string_of(&v, 0, e);
    assert(r@ =~= lines::up_to(s@, c));
    r
}

/// The bare address of an ATTENDEE or ORGANIZER value.
pub fn parse_mailto_email(value: &str) -> (r: String)
    ensures
        r@ == mailto_email(value@),
{
    let v: String = trimmed(value);
    let vv: Vec<char> = chars_of(v.as_str());
    let low: Vec<char> = lower_ascii(&vv);
    let pat: Vec<char> = chars_of("mailto:");
    proof {
        reveal_strlit("mailto:");
    }
    assert(low@.skip(0) =~= low@);
    match text::find_pattern(&low, 0, &pat) {
        Some(i) => {
            let rest: String = string_of(&vv, i + 7, vv.len());
            assert(rest@ =~= v@.skip(i + 7));
            trimmed(before_char(rest.as_str(), ';').as_str())
        },
        None => trimmed(before_char(v.as_str(), ';').as_str()),
    }
}

/// The attendee of one content line.
pub fn parse_attendee_identity(params: &str, value: &str) -> (r: CalAttendee)
    ensures
        r@ == attendee_identity(params@, value@),
{
    let map: TextMap = parse_ical_params(params);
    let cn: String = value_or_empty(&map, "CN");
    let rsvp: String = value_or_empty(&map, "RSVP");
    CalAttendee {
        email: parse_mailto_email(value),
        name: unescape_text(cn.as_str()),
        rsvp: eq_ignoring_case(rsvp.as_str(), "TRUE"),
        partstat: to_upper(value_or_empty(&map, "PARTSTAT").as_str()),
        role: to_upper(value_or_empty(&map, "ROLE").as_str()),
        cutype: to_upper(value_or_empty(&map, "CUTYPE").as_str()),
    }
}

/// Address and common name of the organizer of one content line.
pub fn parse_organizer_identity(params: &str, value: &str) -> (r: (String, String))
    ensures
        r.0@ == mailto_email(value@),
        r.1@ == escape::unescape(param(params@, "CN"@)),
{
    let map: TextMap = parse_ical_params(params);
    let cn: String = value_or_empty(&map, "CN");
    (parse_mailto_email(value), unescape_text(cn.as_str()))
}

// ---------------------------------------------------------------------
// Events
// ---------------------------------------------------------------------

/// What is there already, or else the new value.
pub open spec fn first_of(there: Seq<char>, new: Seq<char>) -> Seq<char> {
    if there.len() == 0 {
        new
    } else {
        there
    }
}

/// The list with each part that is not empty, trimmed, appended once.
pub open spec fn with_parts(list: Seq<Seq<char>>, parts: Seq<Seq<char>>) -> Seq<Seq<char>>
    decreases parts.len(),
{
    if parts.len() == 0 {
        list
    } else {
        let init = with_parts(list, parts.drop_last());
        let p = text::trim(parts.last());
        if p.len() > 0 && !init.contains(p) {
            init.push(p)
        } else {
            init
        }
    }
}

pub open spec fn has_email(list: Seq<Attendee>, email: Seq<char>) -> bool {
    exists|i: int| 0 <= i < list.len() && (#[trigger] list[i]).email == email
}

/// The list with an attendee whose address is not in it yet.
pub open spec fn with_attendee(list: Seq<Attendee>, a: Attendee) -> Seq<Attendee> {
    if a.email.len() > 0 && !has_email(list, a.email) {
        list.push(a)
    } else {
        list
    }
}

/// Lines that carry no property of an event.
pub open spec fn is_structure(l: Seq<char>) -> bool {
    ||| text::same_ignoring_case(l, "BEGIN:VCALENDAR"@)
    ||| text::same_ignoring_case(l, "END:VCALENDAR"@)
    ||| text::same_ignoring_case(l, "BEGIN:VEVENT"@)
    ||| text::same_ignoring_case(l, "END:VEVENT"@)
    ||| text::starts_with(l, "VERSION:"@)
    ||| text::starts_with(l, "PRODID:"@)
    ||| text::starts_with(l, "BEGIN:VALARM"@)
    ||| text::starts_with(l, "END:VALARM"@)
}

/// Takes in one property. The first value of a single-valued property
/// counts; exception dates and attendees add up.
pub open spec fn property_step(ev: Event, p: LineParts) -> Event {
    let value = escape::unescape(text::trim(p.value));
    if p.name == "UID"@ {
        Event { uid: first_of(ev.uid, value), ..ev }
    } else if p.name == "SUMMARY"@ {
        Event { summary: first_of(ev.summary, value), ..ev }
    } else if p.name == "DESCRIPTION"@ {
        Event { description: first_of(ev.description, value), ..ev }
    } else if p.name == "LOCATION"@ {
        Event { location: first_of(ev.location, value), ..ev }
    } else if p.name == "DTSTART"@ {
        Event { dtstart: first_of(ev.dtstart, value), ..ev }
    } else if p.name == "DTEND"@ {
        Event { dtend: first_of(ev.dtend, value), ..ev }
    } else if p.name == "DTSTAMP"@ {
        Event { dtstamp: first_of(ev.dtstamp, value), ..ev }
    } else if p.name == "CREATED"@ {
        Event { created: first_of(ev.created, value), ..ev }
    } else if p.name == "RRULE"@ {
        Event { rrule: first_of(ev.rrule, value), ..ev }
    } else if p.name == "SEQUENCE"@ {
        Event { sequence: first_of(ev.sequence, value), ..ev }
    } else if p.name == "STATUS"@ {
        Event { status: first_of(ev.status, value), ..ev }
    } else if p.name == "TRANSP"@ {
        Event { transp: first_of(ev.transp, value), ..ev }
    } else if p.name == "ORGANIZER"@ {
        if ev.organizer.len() == 0 {
            Event {
                organizer: mailto_email(value),
                organizer_name: escape::unescape(param(p.params, "CN"@)),
                ..ev
            }
        } else {
            ev
        }
    } else if p.name == "RECURRENCE-ID"@ {
        if ev.recurrence_id.len() == 0 {
            Event {
                recurrence_id: value,
                recurrence_id_range: text::uppercase(param(p.params, "RANGE"@)),
                ..ev
            }
        } else {
            ev
        }
    } else if p.name == "EXDATE"@ {
        Event { exdates: with_parts(ev.exdates, text::split(value, ',')), ..ev }
    } else if p.name == "ATTENDEE"@ {
        Event {
            attendees: lists::appended(ev.attendees, seq![value]),
            attendee_details: with_attendee(
                ev.attendee_details,
                attendee_identity(p.params, value),
            ),
            ..ev
        }
    } else {
        ev
    }
}

/// Takes in one unfolded line.
pub open spec fn line_step(ev: Event, line: Seq<char>) -> Event {
    let l = text::trim(line);
    if is_structure(l) {
        ev
    } else {
        match line_parts(l) {
            Some(p) => property_step(ev, p),
            None => ev,
        }
    }
}

/// The event that the lines make, taken in one after the other.
pub open spec fn event_of_lines(l: Seq<Seq<char>>) -> Event
    decreases l.len(),
{
    if l.len() == 0 {
        no_event()
    } else {
        line_step(event_of_lines(l.drop_last()), l.last())
    }
}

/// The event of a fragment.
pub open spec fn event_of(fragment: Seq<char>) -> Event {
    event_of_lines(unfold_dropping(lines::card_lines(fragment)))
}

fn structure_line(l: &str) -> (r: bool)
    ensures
        r == is_structure(l@),
{
    eq_ignoring_case(l, "BEGIN:VCALENDAR") || eq_ignoring_case(l, "END:VCALENDAR")
        || eq_ignoring_case(l, "BEGIN:VEVENT") || eq_ignoring_case(l, "END:VEVENT")
        || text_starts_with(l, "VERSION:") || text_starts_with(l, "PRODID:") || text_starts_with(
        l,
        "BEGIN:VALARM",
    ) || text_starts_with(l, "END:VALARM")
}

/// Sets a field that is still empty.
fn keep_first(field: &mut String, value: String)
    ensures
        final(field)@ == first_of(old(field)@, value@),
{
    if text::is_empty(field.as_str()) {
        *field = value;
    }
}

fn add_parts(list: &mut Vec<String>, value: &str)
    ensures
        text::texts(final(list)@) == with_parts(text::texts(old(list)@), text::split(value@, ',')),
{
    let parts: Vec<String> = split_text(value, ',');
    let ghost start = text::texts(list@);
    let ghost t = text::texts(parts@);
    let mut i: usize = 0;
    while i < parts.len()
        invariant
            i <= parts@.len(),
            t == text::texts(parts@),
            text::texts(list@) == with_parts(start, t.take(i as int)),
        decreases parts@.len() - i,
    {
        assert(t.take(i + 1).drop_last() =~= t.take(i as int));
        assert(t.take(i + 1).last() == parts@[i as int]@);
        let p: String = trimmed(parts[i].as_str());
        if !text::is_empty(p.as_str()) && !list_contains(list, p.as_str()) {
            list.push(p);
        }
        i = i + 1;
    }
    assert(t.take(t.len() as int) =~= t);
}

fn add_attendee(list: &mut Vec<CalAttendee>, a: CalAttendee)
    ensures
        attendees_view(final(list)@) == with_attendee(attendees_view(old(list)@), a@),
{
    let ghost start = attendees_view(list@);
    if text::is_empty(a.email.as_str()) {
        return;
    }
    let mut i: usize = 0;
    while i < list.len()
        invariant
            i <= list@.len(),
            *list == *old(list),
            start == attendees_view(list@),
            forall|j: int| 0 <= j < i ==> (#[trigger] start[j]).email != a.email@,
        decreases list@.len() - i,
    {
        assert(start[i as int].email == list@[i as int].email@);
        if text_eq(list[i].email.as_str(), a.email.as_str()) {
            return;
        }
        i = i + 1;
    }
    let ghost av = a@;
    list.push(a);
    assert(attendees_view(list@) =~= start.push(av));
}

/// Takes one property into the event.
fn apply_property(out: &mut ParsedCalendarEvent, name: &str, params: &str, raw: &str)
    ensures
        final(out)@ == property_step(
            old(out)@,
            LineParts { name: name@, params: params@, value: raw@ },
        ),
{
    let value: String = unescape_text(trimmed(raw).as_str());
    if text_eq(name, "UID") {
        keep_first(&mut out.uid, value);
    } else if text_eq(name, "SUMMARY") {
        keep_first(&mut out.summary, value);
    } else if text_eq(name, "DESCRIPTION") {
        keep_first(&mut out.description, value);
    } else if text_eq(name, "LOCATION") {
        keep_first(&mut out.location, value);
    } else if text_eq(name, "DTSTART") {
        keep_first(&mut out.dtstart, value);
    } else if text_eq(name, "DTEND") {
        keep_first(&mut out.dtend, value);
    } else if text_eq(name, "DTSTAMP") {
        keep_first(&mut out.dtstamp, value);
    } else if text_eq(name, "CREATED") {
        keep_first(&mut out.created, value);
    } else if text_eq(name, "RRULE") {
        keep_first(&mut out.rrule, value);
    } else if text_eq(name, "SEQUENCE") {
        keep_first(&mut out.sequence, value);
    } else if text_eq(name, "STATUS") {
        keep_first(&mut out.status, value);
    } else if text_eq(name, "TRANSP") {
        keep_first(&mut out.transp, value);
    } else if text_eq(name, "ORGANIZER") {
        if text::is_empty(out.organizer.as_str()) {
            let (email, cn): (String, String) = parse_organizer_identity(params, value.as_str());
            out.organizer = email;
            out.organizer_name = cn;
        }
    } else if text_eq(name, "RECURRENCE-ID") {
        if text::is_empty(out.recurrence_id.as_str()) {
            out.recurrence_id = value;
            let map: TextMap = parse_ical_params(params);
            out.recurrence_id_range = to_upper(value_or_empty(&map, "RANGE").as_str());
        }
    } else if text_eq(name, "EXDATE") {
        add_parts(&mut out.exdates, value.as_str());
    } else if text_eq(name, "ATTENDEE") {
        let detail: CalAttendee = parse_attendee_identity(params, value.as_str());
        let ghost vv = value@;
        proof {
            reveal_with_fuel(lists::appended, 2);
            assert(seq![vv].drop_last() =~= Seq::<Seq<char>>::empty());
            assert(seq![vv].last() == vv);
        }
        if !list_contains(&out.attendees, value.as_str()) {
            out.attendees.push(value);
        }
        add_attendee(&mut out.attendee_details, detail);
    }
}

/// Reads a fragment.
pub fn parse_ical(ical_str: &str) -> (r: Result<ParsedCalendarEvent, ProtonError>)
    ensures
        r matches Ok(ev) && ev@ == event_of(ical_str@),
{
    let all: Vec<String> = unfold_ical(ical_str);
    let mut out: ParsedCalendarEvent = ParsedCalendarEvent::default();
    let ghost t = text::texts(all@);
    let mut i: usize = 0;
    while i < all.len()
        invariant
            i <= all@.len(),
            t == text::texts(all@),
            out@ == event_of_lines(t.take(i as int)),
        decreases all@.len() - i,
    {
        assert(t.take(i + 1).drop_last() =~= t.take(i as int));
        assert(t.take(i + 1).last() == all@[i as int]@);
        let l: String = trimmed(all[i].as_str());
        if !structure_line(l.as_str()) {
            match split_ical_line_full(l.as_str()) {
                Some((name, params, raw)) => {
                    apply_property(&mut out, name.as_str(), params.as_str(), raw.as_str());
                },
                None => {},
            }
        }
        i = i + 1;
    }
    assert(t.take(t.len() as int) =~= t);
    Ok(out)
}

// ---------------------------------------------------------------------
// Merging fragments
// ---------------------------------------------------------------------

/// The list with the attendees whose addresses are not in it yet.
pub open spec fn with_attendees(list: Seq<Attendee>, more: Seq<Attendee>) -> Seq<Attendee>
    decreases more.len(),
{
    if more.len() == 0 {
        list
    } else {
        with_attendee(with_attendees(list, more.drop_last()), more.last())
    }
}

/// Two events as one: the first value that is not empty counts, exception
/// dates and attendees are united.
pub open spec fn merged(a: Event, b: Event) -> Event {
    Event {
        uid: first_of(a.uid, b.uid),
        summary: first_of(a.summary, b.summary),
        description: first_of(a.description, b.description),
        location: first_of(a.location, b.location),
        dtstart: first_of(a.dtstart, b.dtstart),
        dtend: first_of(a.dtend, b.dtend),
        dtstamp: first_of(a.dtstamp, b.dtstamp),
        created: first_of(a.created, b.created),
        rrule: first_of(a.rrule, b.rrule),
        exdates: lists::appended(a.exdates, b.exdates),
        sequence: first_of(a.sequence, b.sequence),
        status: first_of(a.status, b.status),
        transp: first_of(a.transp, b.transp),
        organizer: first_of(a.organizer, b.organizer),
        attendees: lists::appended(a.attendees, b.attendees),
        organizer_name: first_of(a.organizer_name, b.organizer_name),
        attendee_details: with_attendees(a.attendee_details, b.attendee_details),
        recurrence_id: first_of(a.recurrence_id, b.recurrence_id),
        recurrence_id_range: first_of(a.recurrence_id_range, b.recurrence_id_range),
    }
}

/// The event that the fragments make together.
pub open spec fn merged_event(fragments: Seq<Seq<char>>) -> Event
    decreases fragments.len(),
{
    if fragments.len() == 0 {
        no_event()
    } else {
        merged(merged_event(fragments.drop_last()), event_of(fragments.last()))
    }
}

fn add_attendees(list: &mut Vec<CalAttendee>, more: &Vec<CalAttendee>)
    ensures
        attendees_view(final(list)@) == with_attendees(
            attendees_view(old(list)@),
            attendees_view(more@),
        ),
{
    let ghost start = attendees_view(list@);
    let ghost t = attendees_view(more@);
    let mut i: usize = 0;
    while i < more.len()
        invariant
            i <= more@.len(),
            t == attendees_view(more@),
            attendees_view(list@) == with_attendees(start, t.take(i as int)),
        decreases more@.len() - i,
    {
        assert(t.take(i + 1).drop_last() =~= t.take(i as int));
        assert(t.take(i + 1).last() == more@[i as int]@);
        add_attendee(list, copy_attendee(&more[i]));
        i = i + 1;
    }
    assert(t.take(t.len() as int) =~= t);
}

fn copy_attendee(a: &CalAttendee) -> (r: CalAttendee)
    ensures
        r@ == a@,
{
    CalAttendee {
        email: copy_text(a.email.as_str()),
        name: copy_text(a.name.as_str()),
        rsvp: a.rsvp,
        partstat: copy_text(a.partstat.as_str()),
        role: copy_text(a.role.as_str()),
        cutype: copy_text(a.cutype.as_str()),
    }
}

/// Merges `parsed` into `out`.
fn merge_into(out: &mut ParsedCalendarEvent, parsed: ParsedCalendarEvent)
    ensures
        final(out)@ == merged(old(out)@, parsed@),
{
    keep_first(&mut out.uid, parsed.uid);
    keep_first(&mut out.summary, parsed.summary);
    keep_first(&mut out.description, parsed.description);
    keep_first(&mut out.location, parsed.location);
    keep_first(&mut out.dtstart, parsed.dtstart);
    keep_first(&mut out.dtend, parsed.dtend);
    keep_first(&mut out.dtstamp, parsed.dtstamp);
    keep_first(&mut out.created, parsed.created);
    keep_first(&mut out.rrule, parsed.rrule);
    keep_first(&mut out.sequence, parsed.sequence);
    keep_first(&mut out.status, parsed.status);
    keep_first(&mut out.transp, parsed.transp);
    keep_first(&mut out.organizer, parsed.organizer);
    keep_first(&mut out.organizer_name, parsed.organizer_name);
    keep_first(&mut out.recurrence_id, parsed.recurrence_id);
    keep_first(&mut out.recurrence_id_range, parsed.recurrence_id_range);
    lists::append_new(&mut out.exdates, &parsed.exdates);
    lists::append_new(&mut out.attendees, &parsed.attendees);
    add_attendees(&mut out.attendee_details, &parsed.attendee_details);
}

/// Merges decrypted fragments into one event. Callers pass the shared
/// signed fragment first, so that its structure counts.
pub fn merge_ical_fragments(fragments: &[String]) -> (r: Result<ParsedCalendarEvent, ProtonError>)
    ensures
        r matches Ok(ev) && ev@ == merged_event(text::texts(fragments@)),
{
    let mut out: ParsedCalendarEvent = ParsedCalendarEvent::default();
    let ghost t = text::texts(fragments@);
    let mut i: usize = 0;
    while i < fragments.len()
        invariant
            i <= fragments@.len(),
            t == text::texts(fragments@),
            out@ == merged_event(t.take(i as int)),
        decreases fragments@.len() - i,
    {
        assert(t.take(i + 1).drop_last() =~= t.take(i as int));
        assert(t.take(i + 1).last() == fragments@[i as int]@);
        match parse_ical(fragments[i].as_str()) {
            Ok(parsed) => {
                merge_into(&mut out, parsed);
            },
            Err(e) => {
                return Err(e);
            },
        }
        i = i + 1;
    }
    assert(t.take(t.len() as int) =~= t);
    Ok(out)
}

// ---------------------------------------------------------------------
// What merging keeps
// ---------------------------------------------------------------------

/// Attendees with addresses, no two with the same.
pub open spec fn attendees_differ(list: Seq<Attendee>) -> bool {
    &&& forall|i: int| 0 <= i < list.len() ==> (#[trigger] list[i]).email.len() > 0
    &&& forall|i: int, j: int|
        0 <= i < j < list.len() ==> (#[trigger] list[i]).email != (#[trigger] list[j]).email
}

proof fn lemma_attendees_differ(list: Seq<Attendee>, more: Seq<Attendee>)
    requires
        attendees_differ(list),
    ensures
        attendees_differ(with_attendees(list, more)),
        list.is_prefix_of(with_attendees(list, more)),
    decreases more.len(),
{
    if more.len() > 0 {
        lemma_attendees_differ(list, more.drop_last());
    }
}

/// Whichever fragments an event is merged from, no attendee occurs twice.
pub proof fn law_attendees_differ(fragments: Seq<Seq<char>>)
    ensures
        attendees_differ(merged_event(fragments).attendee_details),
    decreases fragments.len(),
{
    if fragments.len() > 0 {
        law_attendees_differ(fragments.drop_last());
        lemma_attendees_differ(
            merged_event(fragments.drop_last()).attendee_details,
            event_of(fragments.last()).attendee_details,
        );
    }
}

/// A value that is there stays.
pub open spec fn stays(before: Seq<char>, after: Seq<char>) -> bool {
    before.len() > 0 ==> after == before
}

/// What later fragments leave as it is.
pub open spec fn kept(a: Event, b: Event) -> bool {
    &&& stays(a.uid, b.uid)
    &&& stays(a.summary, b.summary)
    &&& stays(a.description, b.description)
    &&& stays(a.location, b.location)
    &&& stays(a.dtstart, b.dtstart)
    &&& stays(a.dtend, b.dtend)
    &&& stays(a.dtstamp, b.dtstamp)
    &&& stays(a.created, b.created)
    &&& stays(a.rrule, b.rrule)
    &&& stays(a.sequence, b.sequence)
    &&& stays(a.status, b.status)
    &&& stays(a.transp, b.transp)
    &&& stays(a.organizer, b.organizer)
    &&& stays(a.organizer_name, b.organizer_name)
    &&& stays(a.recurrence_id, b.recurrence_id)
    &&& stays(a.recurrence_id_range, b.recurrence_id_range)
    &&& a.exdates.is_prefix_of(b.exdates)
    &&& a.attendees.is_prefix_of(b.attendees)
    &&& a.attendee_details.is_prefix_of(b.attendee_details)
}

/// What earlier fragments say of an event counts: later ones only fill in
/// what is missing, and add exception dates and attendees behind.
pub proof fn law_first_fragment_counts(fragments: Seq<Seq<char>>, k: int)
    requires
        0 <= k <= fragments.len(),
    ensures
        kept(merged_event(fragments.take(k)), merged_event(fragments)),
    decreases fragments.len(),
{
    if k == fragments.len() {
        assert(fragments.take(k) =~= fragments);
    } else {
        let init = fragments.drop_last();
        law_first_fragment_counts(init, k);
        assert(init.take(k) =~= fragments.take(k));
        let a = merged_event(init);
        let b = event_of(fragments.last());
        law_attendees_differ(init);
        lemma_attendees_differ(a.attendee_details, b.attendee_details);
        lists::law_appended(a.exdates, b.exdates);
        lists::law_appended(a.attendees, b.attendees);
    }
}

} // verus!
