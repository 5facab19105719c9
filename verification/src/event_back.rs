//! What the lines of an event fragment read as, and what fragments make
//! together.
use vstd::prelude::*;

use crate::edits;
use crate::escape;
use crate::ical;
use crate::ical::{Attendee, Event, LineParts};
use crate::lines;
use crate::lists;
use crate::ordered;
use crate::rule_back;
use crate::text;

verus! {

/// The fields of an event that hold one text.
pub ghost enum Single {
    Uid,
    Summary,
    Description,
    Location,
    Start,
    End,
    Stamp,
    Created,
    Rule,
    Sequence,
    Status,
    Transp,
    Organizer,
    OrganizerName,
    Recurrence,
    Range,
}

/// The text that an event has in such a field.
pub open spec fn single(ev: Event, f: Single) -> Seq<char> {
    match f {
        Single::Uid => ev.uid,
        Single::Summary => ev.summary,
        Single::Description => ev.description,
        Single::Location => ev.location,
        Single::Start => ev.dtstart,
        Single::End => ev.dtend,
        Single::Stamp => ev.dtstamp,
        Single::Created => ev.created,
        Single::Rule => ev.rrule,
        Single::Sequence => ev.sequence,
        Single::Status => ev.status,
        Single::Transp => ev.transp,
        Single::Organizer => ev.organizer,
        Single::OrganizerName => ev.organizer_name,
        Single::Recurrence => ev.recurrence_id,
        Single::Range => ev.recurrence_id_range,
    }
}

// ---------------------------------------------------------------------
// Merging
// ---------------------------------------------------------------------

proof fn lemma_single_merged(a: Event, b: Event, f: Single)
    ensures
        single(ical::merged(a, b), f) == (if single(a, f).len() == 0 {
            single(b, f)
        } else {
            single(a, f)
        }),
{
}

/// Of every field that holds one text, merged fragments have what the first
/// fragment says that says anything of it: what the fragments before leave
/// open is filled in, and nothing behind it counts. Where no fragment says
/// anything, the field is empty.
pub proof fn law_first_value_counts(fragments: Seq<Seq<char>>, f: Single, k: int)
    requires
        0 <= k <= fragments.len(),
        forall|j: int|
            0 <= j < k ==> single(ical::event_of(#[trigger] fragments[j]), f).len() == 0,
        k < fragments.len() ==> single(ical::event_of(fragments[k]), f).len() > 0,
    ensures
        k < fragments.len() ==> single(ical::merged_event(fragments), f) == single(
            ical::event_of(fragments[k]),
            f,
        ),
        k == fragments.len() ==> single(ical::merged_event(fragments), f).len() == 0,
    decreases fragments.len(),
{
    if fragments.len() > 0 {
        let init = fragments.drop_last();
        let last = fragments.len() - 1;
        lemma_single_merged(ical::merged_event(init), ical::event_of(fragments.last()), f);
        assert forall|j: int| 0 <= j < k && j < init.len() implies single(
            ical::event_of(#[trigger] init[j]),
            f,
        ).len() == 0 by {
            assert(init[j] == fragments[j]);
        }
        if k < last {
            assert(init[k] == fragments[k]);
            law_first_value_counts(init, f, k);
        } else {
            law_first_value_counts(init, f, last);
            if k > last {
                assert(single(ical::event_of(fragments[last]), f).len() == 0);
            }
        }
    }
}

/// Exception dates and attendee lines of merged fragments are those of the
/// fragments, all of them and no others.
pub proof fn law_lists_are_united(fragments: Seq<Seq<char>>, t: Seq<char>)
    ensures
        ical::merged_event(fragments).exdates.contains(t) <==> exists|k: int|
            0 <= k < fragments.len() && ical::event_of(#[trigger] fragments[k]).exdates.contains(t),
        ical::merged_event(fragments).attendees.contains(t) <==> exists|k: int|
            0 <= k < fragments.len() && ical::event_of(
                #[trigger] fragments[k],
            ).attendees.contains(t),
    decreases fragments.len(),
{
    let m = ical::merged_event(fragments);
    if fragments.len() == 0 {
        assert(m.exdates.len() == 0 && m.attendees.len() == 0);
    } else {
        let init = fragments.drop_last();
        let a = ical::merged_event(init);
        let b = ical::event_of(fragments.last());
        law_lists_are_united(init, t);
        lemma_appended_holds(a.exdates, b.exdates, t);
        lemma_appended_holds(a.attendees, b.attendees, t);
        let n = fragments.len() - 1;
        assert(fragments[n] == fragments.last());
        if a.exdates.contains(t) {
            let k = choose|k: int|
                0 <= k < init.len() && ical::event_of(#[trigger] init[k]).exdates.contains(t);
            assert(fragments[k] == init[k]);
        }
        if a.attendees.contains(t) {
            let k = choose|k: int|
                0 <= k < init.len() && ical::event_of(#[trigger] init[k]).attendees.contains(t);
            assert(fragments[k] == init[k]);
        }
        if exists|k: int|
            0 <= k < fragments.len() && ical::event_of(#[trigger] fragments[k]).exdates.contains(
                t,
            ) {
            let k = choose|k: int|
                0 <= k < fragments.len() && ical::event_of(
                    #[trigger] fragments[k],
                ).exdates.contains(t);
            if k < n {
                assert(init[k] == fragments[k]);
            }
        }
        if exists|k: int|
            0 <= k < fragments.len() && ical::event_of(#[trigger] fragments[k]).attendees.contains(
                t,
            ) {
            let k = choose|k: int|
                0 <= k < fragments.len() && ical::event_of(
                    #[trigger] fragments[k],
                ).attendees.contains(t);
            if k < n {
                assert(init[k] == fragments[k]);
            }
        }
    }
}

proof fn lemma_appended_holds(a: Seq<Seq<char>>, b: Seq<Seq<char>>, t: Seq<char>)
    ensures
        lists::appended(a, b).contains(t) <==> a.contains(t) || b.contains(t),
{
    let r = lists::appended(a, b);
    lists::law_appended(a, b);
    if r.contains(t) {
        let i = choose|i: int| 0 <= i < r.len() && r[i] == t;
        if i < a.len() {
            assert(r.take(a.len() as int)[i] == r[i]);
            assert(a[i] == t);
        } else {
            assert(b.contains(r[i]));
        }
    }
    if a.contains(t) {
        let i = choose|i: int| 0 <= i < a.len() && a[i] == t;
        assert(r.take(a.len() as int)[i] == r[i]);
        assert(r[i] == t);
    }
    if b.contains(t) {
        let i = choose|i: int| 0 <= i < b.len() && b[i] == t;
        assert(r.contains(b[i]));
    }
}

/// An attendee of a fragment is one of the merged event, with all that the
/// first fragment says which names the address.
pub proof fn law_first_attendee_counts(fragments: Seq<Seq<char>>, k: int, a: Attendee)
    requires
        0 <= k < fragments.len(),
        ical::event_of(fragments[k]).attendee_details.contains(a),
        a.email.len() > 0,
        forall|j: int|
            0 <= j < k ==> !ical::has_email(
                ical::event_of(#[trigger] fragments[j]).attendee_details,
                a.email,
            ),
    ensures
        ical::merged_event(fragments).attendee_details.contains(a),
    decreases fragments.len(),
{
    let init = fragments.drop_last();
    let b = ical::event_of(fragments.last());
    let there = ical::merged_event(init).attendee_details;
    if k < init.len() {
        assert forall|j: int| 0 <= j < k implies !ical::has_email(
            ical::event_of(#[trigger] init[j]).attendee_details,
            a.email,
        ) by {
            assert(init[j] == fragments[j]);
        }
        assert(init[k] == fragments[k]);
        law_first_attendee_counts(init, k, a);
        lemma_attendees_stay(there, b.attendee_details, a);
    } else {
        assert(fragments[k] == fragments.last());
        assert forall|j: int| 0 <= j < init.len() implies !ical::has_email(
            ical::event_of(#[trigger] init[j]).attendee_details,
            a.email,
        ) by {
            assert(init[j] == fragments[j]);
        }
        lemma_no_email(init, a.email);
        lemma_read_attendees_differ(
            ical::unfold_dropping(lines::card_lines(fragments.last())),
        );
        lemma_attendee_added(there, b.attendee_details, a);
    }
}

proof fn lemma_read_attendees_differ(l: Seq<Seq<char>>)
    ensures
        ical::attendees_differ(ical::event_of_lines(l).attendee_details),
    decreases l.len(),
{
    if l.len() > 0 {
        lemma_read_attendees_differ(l.drop_last());
    }
}

proof fn lemma_attendees_stay(list: Seq<Attendee>, more: Seq<Attendee>, a: Attendee)
    requires
        list.contains(a),
    ensures
        ical::with_attendees(list, more).contains(a),
    decreases more.len(),
{
    if more.len() > 0 {
        lemma_attendees_stay(list, more.drop_last(), a);
        let r = ical::with_attendees(list, more.drop_last());
        let i = choose|i: int| 0 <= i < r.len() && r[i] == a;
        assert(ical::with_attendee(r, more.last())[i] == a);
    }
}

proof fn lemma_attendee_added(list: Seq<Attendee>, more: Seq<Attendee>, a: Attendee)
    requires
        !ical::has_email(list, a.email),
        a.email.len() > 0,
        more.contains(a),
        ical::attendees_differ(more),
    ensures
        ical::with_attendees(list, more).contains(a),
    decreases more.len(),
{
    let i = choose|i: int| 0 <= i < more.len() && more[i] == a;
    let init = more.drop_last();
    assert forall|x: int, y: int| 0 <= x < y < init.len() implies (#[trigger] init[x]).email != (
    #[trigger] init[y]).email by {
        assert(more[x].email != more[y].email);
    }
    assert forall|x: int| 0 <= x < init.len() implies (#[trigger] init[x]).email.len() > 0 by {
        assert(more[x].email.len() > 0);
    }
    let r = ical::with_attendees(list, init);
    if i < init.len() {
        assert(init[i] == a);
        lemma_attendee_added(list, init, a);
        let k = choose|k: int| 0 <= k < r.len() && r[k] == a;
        assert(ical::with_attendee(r, more.last())[k] == a);
    } else {
        assert forall|x: int| 0 <= x < init.len() implies (#[trigger] init[x]).email
            != a.email by {
            assert(more[x].email != more[i].email);
        }
        lemma_emails(list, init, a.email);
        let w = ical::with_attendee(r, a);
        assert(w[w.len() - 1] == a);
    }
}

proof fn lemma_emails(list: Seq<Attendee>, more: Seq<Attendee>, email: Seq<char>)
    requires
        !ical::has_email(list, email),
        forall|x: int| 0 <= x < more.len() ==> (#[trigger] more[x]).email != email,
    ensures
        !ical::has_email(ical::with_attendees(list, more), email),
    decreases more.len(),
{
    if more.len() > 0 {
        let init = more.drop_last();
        assert forall|x: int| 0 <= x < init.len() implies (#[trigger] init[x]).email != email by {
            assert(more[x].email != email);
        }
        lemma_emails(list, init, email);
        assert(more[more.len() - 1].email != email);
    }
}

proof fn lemma_no_email(fragments: Seq<Seq<char>>, email: Seq<char>)
    requires
        forall|j: int|
            0 <= j < fragments.len() ==> !ical::has_email(
                ical::event_of(#[trigger] fragments[j]).attendee_details,
                email,
            ),
    ensures
        !ical::has_email(ical::merged_event(fragments).attendee_details, email),
    decreases fragments.len(),
{
    if fragments.len() > 0 {
        let init = fragments.drop_last();
        assert forall|j: int| 0 <= j < init.len() implies !ical::has_email(
            ical::event_of(#[trigger] init[j]).attendee_details,
            email,
        ) by {
            assert(init[j] == fragments[j]);
        }
        lemma_no_email(init, email);
        let more = ical::event_of(fragments[fragments.len() - 1]).attendee_details;
        assert forall|x: int| 0 <= x < more.len() implies (#[trigger] more[x]).email != email by {
            assert(!ical::has_email(more, email));
        }
        lemma_emails(ical::merged_event(init).attendee_details, more, email);
    }
}

// ---------------------------------------------------------------------
// Reading a line
// ---------------------------------------------------------------------

/// Lines without a line end that start with no space and no tab.
pub open spec fn are_lines(l: Seq<Seq<char>>) -> bool {
    forall|i: int|
        0 <= i < l.len() ==> lines::one_line(#[trigger] l[i]) && !lines::is_continuation(l[i])
}

/// A fragment of lines.
pub open spec fn fragment_of(l: Seq<Seq<char>>) -> Seq<char> {
    text::join(l, "\n"@)
}

proof fn lemma_dropping_plain(l: Seq<Seq<char>>)
    requires
        are_lines(l),
    ensures
        ical::unfold_dropping(l) == l,
    decreases l.len(),
{
    if l.len() > 0 {
        let init = l.drop_last();
        assert forall|i: int| 0 <= i < init.len() implies lines::one_line(#[trigger] init[i])
            && !lines::is_continuation(init[i]) by {
            assert(init[i] == l[i]);
        }
        lemma_dropping_plain(init);
        assert(!lines::is_continuation(l[l.len() - 1]));
        assert(l =~= init.push(l.last()));
    } else {
        assert(ical::unfold_dropping(l) =~= l);
    }
}

/// A fragment with one more line is the fragment with that line taken in.
proof fn lemma_one_more_line(l: Seq<Seq<char>>, line: Seq<char>)
    requires
        l.len() > 0,
        are_lines(l),
        lines::one_line(line),
        !lines::is_continuation(line),
    ensures
        ical::event_of(fragment_of(l.push(line))) == ical::line_step(
            ical::event_of(fragment_of(l)),
            line,
        ),
{
    let m = l.push(line);
    assert(are_lines(m));
    lines::lemma_card_lines_lf(l);
    lines::lemma_card_lines_lf(m);
    lemma_dropping_plain(l);
    lemma_dropping_plain(m);
    assert(m.drop_last() =~= l);
}

/// The name of a property.
pub open spec fn name_of(f: Single) -> Seq<char> {
    match f {
        Single::Uid => "UID"@,
        Single::Summary => "SUMMARY"@,
        Single::Description => "DESCRIPTION"@,
        Single::Location => "LOCATION"@,
        Single::Start => "DTSTART"@,
        Single::End => "DTEND"@,
        Single::Stamp => "DTSTAMP"@,
        Single::Created => "CREATED"@,
        Single::Rule => "RRULE"@,
        Single::Sequence => "SEQUENCE"@,
        Single::Status => "STATUS"@,
        Single::Transp => "TRANSP"@,
        Single::Organizer => "ORGANIZER"@,
        Single::OrganizerName => "ORGANIZER"@,
        Single::Recurrence => "RECURRENCE-ID"@,
        Single::Range => "RECURRENCE-ID"@,
    }
}

/// The fields that are the value of a property of their own.
pub open spec fn is_whole_value(f: Single) -> bool {
    !(f is Organizer) && !(f is OrganizerName) && !(f is Recurrence) && !(f is Range)
}

/// The event with another text in a field.
pub open spec fn with_single(ev: Event, f: Single, v: Seq<char>) -> Event {
    match f {
        Single::Uid => Event { uid: v, ..ev },
        Single::Summary => Event { summary: v, ..ev },
        Single::Description => Event { description: v, ..ev },
        Single::Location => Event { location: v, ..ev },
        Single::Start => Event { dtstart: v, ..ev },
        Single::End => Event { dtend: v, ..ev },
        Single::Stamp => Event { dtstamp: v, ..ev },
        Single::Created => Event { created: v, ..ev },
        Single::Rule => Event { rrule: v, ..ev },
        Single::Sequence => Event { sequence: v, ..ev },
        Single::Status => Event { status: v, ..ev },
        Single::Transp => Event { transp: v, ..ev },
        Single::Organizer => Event { organizer: v, ..ev },
        Single::OrganizerName => Event { organizer_name: v, ..ev },
        Single::Recurrence => Event { recurrence_id: v, ..ev },
        Single::Range => Event { recurrence_id_range: v, ..ev },
    }
}

proof fn lemma_names()
    ensures
        "UID"@.len() == 3 && "UID"@[0] == 'U' && is_name("UID"@),
        "SUMMARY"@.len() == 7 && "SUMMARY"@[0] == 'S' && is_name("SUMMARY"@),
        "DESCRIPTION"@.len() == 11 && "DESCRIPTION"@[0] == 'D' && is_name("DESCRIPTION"@),
        "LOCATION"@.len() == 8 && "LOCATION"@[0] == 'L' && is_name("LOCATION"@),
        "DTSTART"@.len() == 7 && "DTSTART"@[0] == 'D' && "DTSTART"@[5] == 'R' && is_name("DTSTART"@),
        "DTEND"@.len() == 5 && "DTEND"@[0] == 'D' && is_name("DTEND"@),
        "DTSTAMP"@.len() == 7 && "DTSTAMP"@[0] == 'D' && "DTSTAMP"@[5] == 'M' && is_name("DTSTAMP"@),
        "CREATED"@.len() == 7 && "CREATED"@[0] == 'C' && is_name("CREATED"@),
        "RRULE"@.len() == 5 && "RRULE"@[0] == 'R' && is_name("RRULE"@),
        "SEQUENCE"@.len() == 8 && "SEQUENCE"@[0] == 'S' && is_name("SEQUENCE"@),
        "STATUS"@.len() == 6 && "STATUS"@[0] == 'S' && is_name("STATUS"@),
        "TRANSP"@.len() == 6 && "TRANSP"@[0] == 'T' && is_name("TRANSP"@),
        "ORGANIZER"@.len() == 9 && "ORGANIZER"@[0] == 'O' && is_name("ORGANIZER"@),
        "RECURRENCE-ID"@.len() == 13 && "RECURRENCE-ID"@[0] == 'R' && is_name("RECURRENCE-ID"@),
        "EXDATE"@.len() == 6 && "EXDATE"@[0] == 'E' && is_name("EXDATE"@),
        "ATTENDEE"@.len() == 8 && "ATTENDEE"@[0] == 'A' && is_name("ATTENDEE"@),
{
    reveal_strlit("UID");
    reveal_strlit("SUMMARY");
    reveal_strlit("DESCRIPTION");
    reveal_strlit("LOCATION");
    reveal_strlit("DTSTART");
    reveal_strlit("DTEND");
    reveal_strlit("DTSTAMP");
    reveal_strlit("CREATED");
    reveal_strlit("RRULE");
    reveal_strlit("SEQUENCE");
    reveal_strlit("STATUS");
    reveal_strlit("TRANSP");
    reveal_strlit("ORGANIZER");
    reveal_strlit("RECURRENCE-ID");
    reveal_strlit("EXDATE");
    reveal_strlit("ATTENDEE");
}

/// A property name as it is written: capital letters and dashes, and not one
/// that a line for the structure of a fragment begins with.
pub open spec fn is_name(name: Seq<char>) -> bool {
    &&& name.len() > 1
    &&& forall|i: int| 0 <= i < name.len() ==> 'A' <= (#[trigger] name[i]) <= 'Z' || name[i] == '-'
    &&& name[0] != 'B' && name[0] != 'V' && name[0] != 'P'
    &&& name[0] == 'E' ==> name[1] != 'N'
}

proof fn lemma_not_structure(name: Seq<char>, rest: Seq<char>)
    requires
        is_name(name),
    ensures
        !ical::is_structure(name + rest),
{
    let l = name + rest;
    reveal_strlit("BEGIN:VCALENDAR");
    reveal_strlit("END:VCALENDAR");
    reveal_strlit("BEGIN:VEVENT");
    reveal_strlit("END:VEVENT");
    reveal_strlit("VERSION:");
    reveal_strlit("PRODID:");
    reveal_strlit("BEGIN:VALARM");
    reveal_strlit("END:VALARM");
    assert(l[0] == name[0] && l[1] == name[1]);
    let u = text::ascii_uppercase(l);
    assert(u[0] == name[0] && u[1] == name[1]);
    assert(text::ascii_uppercase("BEGIN:VCALENDAR"@)[0] == 'B');
    assert(text::ascii_uppercase("END:VCALENDAR"@)[0] == 'E');
    assert(text::ascii_uppercase("END:VCALENDAR"@)[1] == 'N');
    assert(text::ascii_uppercase("BEGIN:VEVENT"@)[0] == 'B');
    assert(text::ascii_uppercase("END:VEVENT"@)[0] == 'E');
    assert(text::ascii_uppercase("END:VEVENT"@)[1] == 'N');
    lemma_other_head(l, "VERSION:"@, 0);
    lemma_other_head(l, "PRODID:"@, 0);
    lemma_other_head(l, "BEGIN:VALARM"@, 0);
    if name[0] == 'E' {
        lemma_other_head(l, "END:VALARM"@, 1);
    } else {
        lemma_other_head(l, "END:VALARM"@, 0);
    }
}

proof fn lemma_other_head(s: Seq<char>, p: Seq<char>, i: int)
    requires
        0 <= i < p.len(),
        i < s.len(),
        s[i] != p[i],
    ensures
        !text::starts_with(s, p),
{
    if s.len() >= p.len() {
        assert(s.take(p.len() as int)[i] == s[i]);
    }
}

/// The parameters of a line, behind their semicolon.
pub open spec fn bare_params(params: Seq<char>) -> Seq<char> {
    if params.len() == 0 {
        seq![]
    } else {
        params.skip(1)
    }
}

/// Parameters behind a semicolon, or none; without quotes, colons and line
/// ends.
pub open spec fn are_params(params: Seq<char>) -> bool {
    &&& params.len() > 0 ==> params[0] == ';'
    &&& forall|i: int|
        0 <= i < params.len() ==> (#[trigger] params[i]) != '"' && params[i] != ':' && params[i]
            != '\r' && params[i] != '\n'
}

/// A line of name, parameters and value is taken in as these.
proof fn lemma_line_taken(l: Seq<Seq<char>>, name: Seq<char>, params: Seq<char>, value: Seq<char>)
    requires
        l.len() > 0,
        are_lines(l),
        is_name(name),
        are_params(params),
        value.len() > 0,
        lines::one_line(value),
        text::trim(value) == value,
    ensures
        ical::event_of(fragment_of(l.push(name + params + ":"@ + value))) == ical::property_step(
            ical::event_of(fragment_of(l)),
            LineParts { name, params: bare_params(params), value },
        ),
{
    reveal_strlit(":");
    let line = name + params + ":"@ + value;
    let left = name + params;
    assert forall|i: int| 0 <= i < left.len() implies (#[trigger] left[i]) != '"' && left[i] != ':'
        && left[i] != '\r' && left[i] != '\n' by {
        if i < name.len() {
            assert(left[i] == name[i]);
        } else {
            assert(left[i] == params[i - name.len()]);
        }
    }
    assert forall|i: int| 0 <= i < line.len() implies line[i] != '\r' && line[i] != '\n' by {
        if i < left.len() {
            assert(line[i] == left[i]);
        } else if i > left.len() {
            assert(line[i] == value[i - left.len() - 1]);
        }
    }
    assert(line[0] == name[0]);
    lemma_one_more_line(l, line);
    edits::lemma_trim_end_last(value);
    assert(line[line.len() - 1] == value[value.len() - 1]);
    edits::lemma_trimmed(line);
    assert(line =~= name + (params + ":"@ + value));
    lemma_not_structure(name, params + ":"@ + value);
    assert(line =~= left + (":"@ + value));
    edits::lemma_colon_behind(left, ":"@ + value);
    assert((":"@ + value)[0] == ':');
    let k = lines::unquoted_colon(line, false);
    assert(k == left.len());
    assert(line.take(k) =~= left);
    assert(line.skip(k + 1) =~= value);
    assert forall|j: int| 0 <= j < name.len() implies left[j] != ';' by {
        assert(left[j] == name[j]);
    }
    assert(params.len() > 0 ==> left[name.len() as int] == ';');
    text::lemma_find_is(left, ';', name.len() as int);
    assert(left.take(name.len() as int) =~= name);
    if params.len() > 0 {
        assert(left.skip(name.len() as int + 1) =~= params.skip(1));
    }
    assert(!text::is_white(name[0]) && !text::is_white(name[name.len() - 1]));
    edits::lemma_trimmed(name);
    assert(text::is_ascii_text(name));
    assert(text::ascii_uppercase(name) =~= name);
}

/// A text as a line holds it: something, without a carriage return, whose
/// written form has no white space at its ends.
pub open spec fn is_written(v: Seq<char>) -> bool {
    &&& v.len() > 0
    &&& !text::has_char(v, '\r')
    &&& text::trim(escape::escape(v)) == escape::escape(v)
}

proof fn lemma_written_value(v: Seq<char>)
    requires
        is_written(v),
    ensures
        escape::escape(v).len() > 0,
        lines::one_line(escape::escape(v)),
        escape::unescape(escape::escape(v)) == v,
{
    escape::law_unescape_inverts_escape(v);
    escape::lemma_escape_one_line(v);
    if escape::escape(v).len() == 0 {
        assert(escape::escape(v) =~= seq![]);
        assert(escape::unescape(Seq::empty()).len() == 0);
    }
}

/// A property that is written into a fragment reads back, whatever its
/// parameters: the first one counts, and nothing else of the event changes.
pub proof fn law_property_reads_back(
    l: Seq<Seq<char>>,
    f: Single,
    params: Seq<char>,
    v: Seq<char>,
)
    requires
        l.len() > 0,
        are_lines(l),
        is_whole_value(f),
        are_params(params),
        is_written(v),
    ensures
        ({
            let was = ical::event_of(fragment_of(l));
            let is = ical::event_of(
                fragment_of(l.push(name_of(f) + params + ":"@ + escape::escape(v))),
            );
            is == (if single(was, f).len() == 0 {
                with_single(was, f, v)
            } else {
                was
            })
        }),
{
    lemma_names();
    lemma_written_value(v);
    lemma_line_taken(l, name_of(f), params, escape::escape(v));
}

/// A property that an event has no field for changes nothing.
pub proof fn law_other_properties_are_skipped(
    l: Seq<Seq<char>>,
    name: Seq<char>,
    params: Seq<char>,
    v: Seq<char>,
)
    requires
        l.len() > 0,
        are_lines(l),
        is_name(name),
        forall|f: Single| name != #[trigger] name_of(f),
        name != "EXDATE"@,
        name != "ATTENDEE"@,
        are_params(params),
        is_written(v),
    ensures
        ical::event_of(fragment_of(l.push(name + params + ":"@ + escape::escape(v))))
            == ical::event_of(fragment_of(l)),
{
    assert(name != name_of(Single::Uid));
    assert(name != name_of(Single::Summary));
    assert(name != name_of(Single::Description));
    assert(name != name_of(Single::Location));
    assert(name != name_of(Single::Start));
    assert(name != name_of(Single::End));
    assert(name != name_of(Single::Stamp));
    assert(name != name_of(Single::Created));
    assert(name != name_of(Single::Rule));
    assert(name != name_of(Single::Sequence));
    assert(name != name_of(Single::Status));
    assert(name != name_of(Single::Transp));
    assert(name != name_of(Single::Organizer));
    assert(name != name_of(Single::OrganizerName));
    assert(name != name_of(Single::Recurrence));
    assert(name != name_of(Single::Range));
    lemma_written_value(v);
    lemma_line_taken(l, name, params, escape::escape(v));
}

// ---------------------------------------------------------------------
// Exception dates
// ---------------------------------------------------------------------

/// A date of an exception: nothing that is escaped, split or trimmed off.
pub open spec fn is_date(d: Seq<char>) -> bool {
    &&& d.len() > 0
    &&& forall|i: int|
        0 <= i < d.len() ==> (#[trigger] d[i]) != ',' && d[i] != '\\' && !text::is_white(d[i])
}

proof fn lemma_unescaped(d: Seq<char>)
    requires
        forall|i: int| 0 <= i < d.len() ==> (#[trigger] d[i]) != '\\',
    ensures
        escape::unescape(d) == d,
    decreases d.len(),
{
    if d.len() > 0 {
        assert(d[0] != '\\');
        assert forall|i: int| 0 <= i < d.skip(1).len() implies (#[trigger] d.skip(1)[i])
            != '\\' by {
            assert(d[i + 1] != '\\');
        }
        lemma_unescaped(d.skip(1));
        assert(seq![d[0]] + d.skip(1) =~= d);
    } else {
        assert(escape::unescape(d) =~= d);
    }
}

/// The list with a text behind the others, unless it is there.
pub open spec fn also(list: Seq<Seq<char>>, t: Seq<char>) -> Seq<Seq<char>> {
    if list.contains(t) {
        list
    } else {
        list.push(t)
    }
}

/// An exception date reads back, behind those that are there; a second one
/// on its line is taken in behind it.
pub proof fn law_exception_dates_read_back(
    l: Seq<Seq<char>>,
    params: Seq<char>,
    d: Seq<char>,
    e: Seq<char>,
)
    requires
        l.len() > 0,
        are_lines(l),
        are_params(params),
        is_date(d),
        is_date(e),
    ensures
        ({
            let was = ical::event_of(fragment_of(l));
            &&& ical::event_of(fragment_of(l.push("EXDATE"@ + params + ":"@ + d))) == (Event {
                exdates: also(was.exdates, d),
                ..was
            })
            &&& ical::event_of(fragment_of(l.push("EXDATE"@ + params + ":"@ + (d + ","@ + e)))) == (
            Event { exdates: also(also(was.exdates, d), e), ..was })
        }),
{
    reveal_strlit(",");
    let both = d + ","@ + e;
    let was = ical::event_of(fragment_of(l));
    lemma_names();
    assert forall|i: int| 0 <= i < both.len() implies (#[trigger] both[i]) != '\\'
        && !text::is_white(both[i]) by {
        if i < d.len() {
            assert(both[i] == d[i]);
        } else if i > d.len() {
            assert(both[i] == e[i - d.len() - 1]);
        }
    }
    lemma_solid_line(d);
    lemma_solid_line(e);
    lemma_solid_line(both);
    lemma_unescaped(d);
    lemma_unescaped(both);
    lemma_line_taken(l, "EXDATE"@, params, d);
    lemma_line_taken(l, "EXDATE"@, params, both);
    rule_back::lemma_split_behind(seq![], d, ',');
    rule_back::lemma_split_behind(d, e, ',');
    assert(both =~= d + seq![','] + e);
    assert(seq![d].drop_last() =~= Seq::<Seq<char>>::empty());
    assert(seq![d].push(e).drop_last() =~= seq![d]);
    reveal_with_fuel(ical::with_parts, 3);
}

/// Text without white space is one line and trimmed.
proof fn lemma_solid_line(s: Seq<char>)
    requires
        s.len() > 0,
        forall|i: int| 0 <= i < s.len() ==> !text::is_white(#[trigger] s[i]),
    ensures
        lines::one_line(s),
        text::trim(s) == s,
{
    edits::lemma_trimmed(s);
    assert forall|i: int| 0 <= i < s.len() implies s[i] != '\r' && s[i] != '\n' by {
        assert(!text::is_white(s[i]));
    }
}

// ---------------------------------------------------------------------
// Parameters
// ---------------------------------------------------------------------

/// The value of a parameter as it is written without quotes.
pub open spec fn is_param_text(v: Seq<char>) -> bool {
    &&& v.len() > 0
    &&& text::trim(v) == v
    &&& forall|i: int|
        0 <= i < v.len() ==> (#[trigger] v[i]) != '"' && v[i] != ';' && v[i] != ':' && v[i] != '\r'
            && v[i] != '\n' && v[i] != '\\'
}

/// Text without quotes.
pub open spec fn no_quotes(s: Seq<char>) -> bool {
    !text::has_char(s, '"')
}

proof fn lemma_semicolon(s: Seq<char>)
    requires
        no_quotes(s),
    ensures
        ical::unquoted_semicolon(s, false) == text::find(s, ';'),
    decreases s.len(),
{
    if s.len() > 0 {
        assert(s[0] != '"');
        assert forall|i: int| 0 <= i < s.skip(1).len() implies s.skip(1)[i] != '"' by {
            assert(s.skip(1)[i] == s[i + 1]);
        }
        lemma_semicolon(s.skip(1));
    }
}

proof fn lemma_split_params(s: Seq<char>)
    requires
        no_quotes(s),
    ensures
        ical::split_params(s) == text::split(s, ';'),
    decreases s.len(),
{
    lemma_semicolon(s);
    text::lemma_find(s, ';');
    let k = text::find(s, ';');
    if k < s.len() {
        let rest = s.skip(k + 1);
        assert forall|i: int| 0 <= i < rest.len() implies rest[i] != '"' by {
            assert(rest[i] == s[k + 1 + i]);
        }
        lemma_split_params(rest);
    }
}

/// A key as parameters write it.
pub open spec fn is_param_key(k: Seq<char>) -> bool {
    k.len() > 0 && forall|i: int| 0 <= i < k.len() ==> 'A' <= (#[trigger] k[i]) <= 'Z'
}

proof fn lemma_param_entry(k: Seq<char>, v: Seq<char>)
    requires
        is_param_key(k),
        is_param_text(v),
    ensures
        ical::param_entry(k + "="@ + v) == Some((k, v)),
        no_quotes(k + "="@ + v),
        !text::has_char(k + "="@ + v, ';'),
{
    reveal_strlit("=");
    let p = k + "="@ + v;
    edits::lemma_trim_end_last(v);
    assert(p[0] == k[0]);
    assert(p[p.len() - 1] == v[v.len() - 1]);
    edits::lemma_trimmed(p);
    assert forall|j: int| 0 <= j < k.len() implies p[j] != '=' by {
        assert(p[j] == k[j]);
    }
    text::lemma_find_is(p, '=', k.len() as int);
    assert(p.take(k.len() as int) =~= k);
    assert(p.skip(k.len() as int + 1) =~= v);
    assert(!text::is_white(k[0]) && !text::is_white(k[k.len() - 1]));
    edits::lemma_trimmed(k);
    assert(text::is_ascii_text(k));
    assert(text::ascii_uppercase(k) =~= k);
    assert(v[0] != '"');
    assert forall|j: int| 0 <= j < p.len() implies p[j] != '"' && p[j] != ';' by {
        if j < k.len() {
            assert(p[j] == k[j]);
        } else if j > k.len() {
            assert(p[j] == v[j - k.len() - 1]);
        }
    }
}

/// A parameter reads back: behind others and alone, the last one under its
/// key counts, and those under other keys are as they were.
pub proof fn law_parameter_reads_back(
    params: Seq<char>,
    k: Seq<char>,
    v: Seq<char>,
    other: Seq<char>,
)
    requires
        no_quotes(params),
        is_param_key(k),
        is_param_text(v),
    ensures
        ical::param(params + ";"@ + k + "="@ + v, k) == v,
        other != k ==> ical::param(params + ";"@ + k + "="@ + v, other) == ical::param(
            params,
            other,
        ),
        ical::param(k + "="@ + v, k) == v,
        other != k ==> ical::param(k + "="@ + v, other).len() == 0,
        no_quotes(params + ";"@ + k + "="@ + v),
{
    reveal_strlit(";");
    reveal_strlit("=");
    let p = k + "="@ + v;
    let s = params + ";"@ + k + "="@ + v;
    lemma_param_entry(k, v);
    assert(s =~= params + seq![';'] + p);
    assert forall|j: int| 0 <= j < s.len() implies s[j] != '"' by {
        if j < params.len() {
            assert(s[j] == params[j]);
        } else if j > params.len() {
            assert(s[j] == p[j - params.len() - 1]);
        }
    }
    lemma_split_params(s);
    lemma_split_params(params);
    lemma_split_params(p);
    rule_back::lemma_split_behind(params, p, ';');
    let parts = text::split(params, ';');
    assert(parts.push(p).drop_last() =~= parts);
    assert(seq![p].drop_last() =~= Seq::<Seq<char>>::empty());
    let none = Seq::<(Seq<char>, Seq<char>)>::empty();
    reveal_with_fuel(ical::param_entries, 2);
    assert(ical::param_entries(seq![p]) == ordered::with_entry(none, k, v));
    ordered::law_lookup_with_entry(ical::param_entries(parts), k, v, other);
    ordered::law_lookup_with_entry(none, k, v, other);
}

/// A quoted value keeps what is inside the quotes, semicolons too.
pub proof fn law_quoted_parameter_reads_back(k: Seq<char>, v: Seq<char>)
    requires
        is_param_key(k),
        no_quotes(v),
    ensures
        ical::param(k + "=\""@ + v + "\""@, k) == v,
{
    reveal_strlit("=\"");
    reveal_strlit("\"");
    let p = k + "=\""@ + v + "\""@;
    let q = seq!['"'] + v + seq!['"'];
    assert(p[0] == k[0]);
    assert(p[p.len() - 1] == '"');
    edits::lemma_trimmed(p);
    assert forall|j: int| 0 <= j < k.len() implies p[j] != '=' by {
        assert(p[j] == k[j]);
    }
    assert(p[k.len() as int] == '=');
    text::lemma_find_is(p, '=', k.len() as int);
    assert(p.take(k.len() as int) =~= k);
    assert(p.skip(k.len() as int + 1) =~= q);
    assert(!text::is_white(k[0]) && !text::is_white(k[k.len() - 1]));
    edits::lemma_trimmed(k);
    assert(text::is_ascii_text(k));
    assert(text::ascii_uppercase(k) =~= k);
    assert(q[0] == '"' && q[q.len() - 1] == '"');
    edits::lemma_trimmed(q);
    assert(q.skip(1).drop_last() =~= v);
    let head = k + seq!['='];
    assert(p =~= head + q);
    assert forall|j: int| 0 <= j < head.len() implies head[j] != '"' && head[j] != ';' by {
        if j < k.len() {
            assert(head[j] == k[j]);
        }
    }
    lemma_shielded(head, v);
    assert(ical::split_params(p) == seq![p]);
    assert(seq![p].drop_last() =~= Seq::<Seq<char>>::empty());
    let none = Seq::<(Seq<char>, Seq<char>)>::empty();
    reveal_with_fuel(ical::param_entries, 2);
    assert(ical::param_entries(seq![p]) == ordered::with_entry(none, k, v));
    ordered::law_lookup_with_entry(none, k, v, k);
}

/// No semicolon ends a parameter inside its quotes.
proof fn lemma_shielded(head: Seq<char>, v: Seq<char>)
    requires
        forall|j: int| 0 <= j < head.len() ==> (#[trigger] head[j]) != '"' && head[j] != ';',
        no_quotes(v),
    ensures
        ical::unquoted_semicolon(head + (seq!['"'] + v + seq!['"']), false) == head.len() + v.len()
            + 2,
    decreases head.len(),
{
    let s = head + (seq!['"'] + v + seq!['"']);
    if head.len() == 0 {
        assert(s[0] == '"');
        assert(s.skip(1) =~= v + seq!['"']);
        lemma_quoted_rest(v);
    } else {
        assert(s[0] == head[0]);
        assert(s.skip(1) =~= head.skip(1) + (seq!['"'] + v + seq!['"']));
        lemma_shielded(head.skip(1), v);
    }
}

proof fn lemma_quoted_rest(v: Seq<char>)
    requires
        no_quotes(v),
    ensures
        ical::unquoted_semicolon(v + seq!['"'], true) == v.len() + 1,
    decreases v.len(),
{
    let s = v + seq!['"'];
    reveal_with_fuel(ical::unquoted_semicolon, 2);
    if v.len() == 0 {
        assert(s.skip(1) =~= Seq::<char>::empty());
    } else {
        assert(s[0] == v[0] && v[0] != '"');
        assert(s.skip(1) =~= v.skip(1) + seq!['"']);
        assert forall|i: int| 0 <= i < v.skip(1).len() implies v.skip(1)[i] != '"' by {
            assert(v.skip(1)[i] == v[i + 1]);
        }
        lemma_quoted_rest(v.skip(1));
    }
}

// ---------------------------------------------------------------------
// People
// ---------------------------------------------------------------------

/// A bare address: without white space, semicolons and backslashes.
pub open spec fn is_address(a: Seq<char>) -> bool {
    &&& a.len() > 0
    &&& forall|i: int|
        0 <= i < a.len() ==> (#[trigger] a[i]) != ';' && a[i] != '\\' && !text::is_white(a[i])
}

proof fn lemma_mailto(a: Seq<char>)
    requires
        is_address(a),
    ensures
        ical::mailto_email("mailto:"@ + a) == a,
        escape::unescape("mailto:"@ + a) == "mailto:"@ + a,
        text::trim("mailto:"@ + a) == "mailto:"@ + a,
        lines::one_line("mailto:"@ + a),
{
    reveal_strlit("mailto:");
    let m = "mailto:"@;
    let v = m + a;
    assert forall|i: int| 0 <= i < v.len() implies (#[trigger] v[i]) != '\\' && !text::is_white(
        v[i],
    ) by {
        if i >= 7 {
            assert(v[i] == a[i - 7]);
        }
    }
    lemma_solid_line(v);
    lemma_solid_line(a);
    lemma_unescaped(v);
    let low = text::ascii_lowercase(v);
    assert(low.take(7) =~= m);
    assert(text::starts_with(low, m));
    assert(v.skip(7) =~= a);
    text::lemma_find_is(a, ';', a.len() as int);
    assert(a.take(a.len() as int) =~= a);
}

/// Text in capital letters and dashes.
pub open spec fn is_capital(v: Seq<char>) -> bool {
    v.len() > 0 && forall|i: int|
        0 <= i < v.len() ==> 'A' <= (#[trigger] v[i]) <= 'Z' || v[i] == '-'
}

proof fn lemma_capital(v: Seq<char>)
    requires
        is_capital(v),
    ensures
        is_param_text(v),
        text::uppercase(v) == v,
{
    assert(!text::is_white(v[0]) && !text::is_white(v[v.len() - 1]));
    edits::lemma_trimmed(v);
    assert(text::is_ascii_text(v));
    assert(text::ascii_uppercase(v) =~= v);
}

/// Whether a reply is asked for, as it is written.
pub open spec fn rsvp_text(rsvp: bool) -> Seq<char> {
    if rsvp {
        "TRUE"@
    } else {
        "FALSE"@
    }
}

/// The parameters of an attendee, behind the semicolon of the first.
pub open spec fn attendee_params(
    cn: Seq<char>,
    rsvp: bool,
    partstat: Seq<char>,
    role: Seq<char>,
    cutype: Seq<char>,
) -> Seq<char> {
    "CN"@ + "="@ + cn + ";"@ + "RSVP"@ + "="@ + rsvp_text(rsvp) + ";"@ + "PARTSTAT"@ + "="@
        + partstat + ";"@ + "ROLE"@ + "="@ + role + ";"@ + "CUTYPE"@ + "="@ + cutype
}

proof fn lemma_attendee_params(
    cn: Seq<char>,
    rsvp: bool,
    partstat: Seq<char>,
    role: Seq<char>,
    cutype: Seq<char>,
)
    requires
        is_param_text(cn),
        is_capital(partstat),
        is_capital(role),
        is_capital(cutype),
    ensures
        ({
            let p = attendee_params(cn, rsvp, partstat, role, cutype);
            &&& ical::param(p, "CN"@) == cn
            &&& ical::param(p, "RSVP"@) == rsvp_text(rsvp)
            &&& ical::param(p, "PARTSTAT"@) == partstat
            &&& ical::param(p, "ROLE"@) == role
            &&& ical::param(p, "CUTYPE"@) == cutype
        }),
{
    reveal_strlit("CN");
    reveal_strlit("RSVP");
    reveal_strlit("PARTSTAT");
    reveal_strlit("ROLE");
    reveal_strlit("CUTYPE");
    reveal_strlit("TRUE");
    reveal_strlit("FALSE");
    assert("CN"@.len() == 2 && "RSVP"@.len() == 4 && "PARTSTAT"@.len() == 8);
    assert("ROLE"@.len() == 4 && "CUTYPE"@.len() == 6 && "ROLE"@[1] == 'O' && "RSVP"@[1] == 'S');
    assert(is_param_key("CN"@) && is_param_key("RSVP"@) && is_param_key("PARTSTAT"@));
    assert(is_param_key("ROLE"@) && is_param_key("CUTYPE"@));
    assert(is_capital(rsvp_text(rsvp)));
    lemma_capital(rsvp_text(rsvp));
    lemma_capital(partstat);
    lemma_capital(role);
    lemma_capital(cutype);
    let p1 = "CN"@ + "="@ + cn;
    let p2 = p1 + ";"@ + "RSVP"@ + "="@ + rsvp_text(rsvp);
    let p3 = p2 + ";"@ + "PARTSTAT"@ + "="@ + partstat;
    let p4 = p3 + ";"@ + "ROLE"@ + "="@ + role;
    let none = Seq::<char>::empty();
    lemma_param_entry("CN"@, cn);
    law_parameter_reads_back(none, "CN"@, cn, "CN"@);
    law_parameter_reads_back(p1, "RSVP"@, rsvp_text(rsvp), "CN"@);
    law_parameter_reads_back(p2, "PARTSTAT"@, partstat, "CN"@);
    law_parameter_reads_back(p2, "PARTSTAT"@, partstat, "RSVP"@);
    law_parameter_reads_back(p3, "ROLE"@, role, "CN"@);
    law_parameter_reads_back(p3, "ROLE"@, role, "RSVP"@);
    law_parameter_reads_back(p3, "ROLE"@, role, "PARTSTAT"@);
    law_parameter_reads_back(p4, "CUTYPE"@, cutype, "CN"@);
    law_parameter_reads_back(p4, "CUTYPE"@, cutype, "RSVP"@);
    law_parameter_reads_back(p4, "CUTYPE"@, cutype, "PARTSTAT"@);
    law_parameter_reads_back(p4, "CUTYPE"@, cutype, "ROLE"@);
    assert(attendee_params(cn, rsvp, partstat, role, cutype) == p4 + ";"@ + "CUTYPE"@ + "="@
        + cutype);
}

/// An attendee that is written into a fragment reads back: the address, the
/// name, whether a reply is asked for, and status, role and kind. One whose
/// address is there already adds nothing but the line.
pub proof fn law_attendee_reads_back(
    l: Seq<Seq<char>>,
    cn: Seq<char>,
    rsvp: bool,
    partstat: Seq<char>,
    role: Seq<char>,
    cutype: Seq<char>,
    address: Seq<char>,
)
    requires
        l.len() > 0,
        are_lines(l),
        is_param_text(cn),
        is_capital(partstat),
        is_capital(role),
        is_capital(cutype),
        is_address(address),
    ensures
        ({
            let was = ical::event_of(fragment_of(l));
            let params = ";"@ + attendee_params(cn, rsvp, partstat, role, cutype);
            let is = ical::event_of(
                fragment_of(l.push("ATTENDEE"@ + params + ":"@ + ("mailto:"@ + address))),
            );
            is == (Event {
                attendees: also(was.attendees, "mailto:"@ + address),
                attendee_details: if exists|i: int|
                    0 <= i < was.attendee_details.len() && (#[trigger] was.attendee_details[i]).email
                        == address {
                    was.attendee_details
                } else {
                    was.attendee_details.push(
                        Attendee { email: address, name: cn, rsvp, partstat, role, cutype },
                    )
                },
                ..was
            })
        }),
{
    reveal_strlit(";");
    let was = ical::event_of(fragment_of(l));
    let p = attendee_params(cn, rsvp, partstat, role, cutype);
    let params = ";"@ + p;
    let value = "mailto:"@ + address;
    lemma_names();
    lemma_attendee_params(cn, rsvp, partstat, role, cutype);
    lemma_params_plain(cn, rsvp, partstat, role, cutype);
    lemma_mailto(address);
    lemma_line_taken(l, "ATTENDEE"@, params, value);
    assert(params.skip(1) =~= p);
    lemma_unescaped(cn);
    lemma_capital(partstat);
    lemma_capital(role);
    lemma_capital(cutype);
    assert(text::same_ignoring_case(rsvp_text(rsvp), "TRUE"@) == rsvp) by {
        reveal_strlit("TRUE");
        reveal_strlit("FALSE");
        assert(text::ascii_uppercase("TRUE"@).len() == 4);
        assert(text::ascii_uppercase("FALSE"@).len() == 5);
    }
    assert(seq![value].drop_last() =~= Seq::<Seq<char>>::empty());
    reveal_with_fuel(lists::appended, 2);
}

proof fn lemma_params_plain(
    cn: Seq<char>,
    rsvp: bool,
    partstat: Seq<char>,
    role: Seq<char>,
    cutype: Seq<char>,
)
    requires
        is_param_text(cn),
        is_capital(partstat),
        is_capital(role),
        is_capital(cutype),
    ensures
        are_params(";"@ + attendee_params(cn, rsvp, partstat, role, cutype)),
{
    reveal_strlit(";");
    reveal_strlit("=");
    reveal_strlit("CN");
    reveal_strlit("RSVP");
    reveal_strlit("PARTSTAT");
    reveal_strlit("ROLE");
    reveal_strlit("CUTYPE");
    reveal_strlit("TRUE");
    reveal_strlit("FALSE");
    lemma_capital(partstat);
    lemma_capital(role);
    lemma_capital(cutype);
    let p1 = "CN"@ + "="@ + cn;
    let p2 = p1 + ";"@ + "RSVP"@ + "="@ + rsvp_text(rsvp);
    let p3 = p2 + ";"@ + "PARTSTAT"@ + "="@ + partstat;
    let p4 = p3 + ";"@ + "ROLE"@ + "="@ + role;
    let p5 = p4 + ";"@ + "CUTYPE"@ + "="@ + cutype;
    lemma_plain_more(Seq::empty(), "CN"@, cn);
    assert(Seq::<char>::empty() + "CN"@ + "="@ + cn =~= p1);
    lemma_plain_more(p1 + ";"@, "RSVP"@, rsvp_text(rsvp));
    lemma_plain_more(p2 + ";"@, "PARTSTAT"@, partstat);
    lemma_plain_more(p3 + ";"@, "ROLE"@, role);
    lemma_plain_more(p4 + ";"@, "CUTYPE"@, cutype);
    let s = ";"@ + p5;
    assert forall|i: int| 0 <= i < s.len() implies (#[trigger] s[i]) != '"' && s[i] != ':' && s[i]
        != '\r' && s[i] != '\n' by {
        if i > 0 {
            assert(s[i] == p5[i - 1]);
        }
    }
}

/// Text that stands in parameters without quotes.
spec fn is_bare(s: Seq<char>) -> bool {
    forall|i: int|
        0 <= i < s.len() ==> (#[trigger] s[i]) != '"' && s[i] != ':' && s[i] != '\r' && s[i] != '\n'
}

proof fn lemma_plain_more(a: Seq<char>, k: Seq<char>, v: Seq<char>)
    requires
        is_bare(a),
        is_bare(k),
        is_bare(v),
    ensures
        is_bare(a + k + "="@ + v),
        is_bare(a + k + "="@ + v + ";"@),
{
    reveal_strlit("=");
    reveal_strlit(";");
    let s = a + k + "="@ + v;
    assert forall|i: int| 0 <= i < s.len() implies (#[trigger] s[i]) != '"' && s[i] != ':' && s[i]
        != '\r' && s[i] != '\n' by {
        if i < a.len() {
            assert(s[i] == a[i]);
        } else if i < a.len() + k.len() {
            assert(s[i] == k[i - a.len()]);
        } else if i > a.len() + k.len() {
            assert(s[i] == v[i - a.len() - k.len() - 1]);
        }
    }
    let t = s + ";"@;
    assert forall|i: int| 0 <= i < t.len() implies (#[trigger] t[i]) != '"' && t[i] != ':' && t[i]
        != '\r' && t[i] != '\n' by {
        if i < s.len() {
            assert(t[i] == s[i]);
        }
    }
}

/// An attendee without parameters has an address and nothing else.
pub proof fn law_bare_attendee_reads_back(l: Seq<Seq<char>>, address: Seq<char>)
    requires
        l.len() > 0,
        are_lines(l),
        is_address(address),
        !ical::has_email(ical::event_of(fragment_of(l)).attendee_details, address),
    ensures
        ({
            let was = ical::event_of(fragment_of(l));
            let none = Seq::<char>::empty();
            ical::event_of(
                fragment_of(l.push("ATTENDEE"@ + none + ":"@ + ("mailto:"@ + address))),
            ).attendee_details == was.attendee_details.push(
                Attendee {
                    email: address,
                    name: none,
                    rsvp: false,
                    partstat: none,
                    role: none,
                    cutype: none,
                },
            )
        }),
{
    let none = Seq::<char>::empty();
    lemma_names();
    lemma_mailto(address);
    lemma_line_taken(l, "ATTENDEE"@, none, "mailto:"@ + address);
    lemma_no_params();
    assert(text::ascii_uppercase(none) =~= none);
    assert(text::is_ascii_text(none));
    assert(escape::unescape(none) =~= none);
    reveal_strlit("TRUE");
    assert(text::ascii_uppercase("TRUE"@).len() == 4);
}

proof fn lemma_no_params()
    ensures
        forall|k: Seq<char>| #[trigger] ical::param(Seq::empty(), k) == Seq::<char>::empty(),
{
    let none = Seq::<char>::empty();
    assert forall|k: Seq<char>| #[trigger] ical::param(none, k) == none by {
        assert(ical::split_params(none) =~= seq![none]);
        assert(seq![none].drop_last() =~= Seq::<Seq<char>>::empty());
        assert(text::trim(none) =~= none);
        text::lemma_find(none, '=');
        reveal_with_fuel(ical::param_entries, 2);
        assert(ical::param_entries(seq![none]) =~= seq![]);
    }
}

/// The organizer reads back, address and name; the first one counts.
pub proof fn law_organizer_reads_back(l: Seq<Seq<char>>, cn: Seq<char>, address: Seq<char>)
    requires
        l.len() > 0,
        are_lines(l),
        is_param_text(cn),
        is_address(address),
    ensures
        ({
            let was = ical::event_of(fragment_of(l));
            ical::event_of(
                fragment_of(
                    l.push("ORGANIZER"@ + (";"@ + "CN"@ + "="@ + cn) + ":"@ + ("mailto:"@ + address)),
                ),
            ) == (if was.organizer.len() == 0 {
                Event { organizer: address, organizer_name: cn, ..was }
            } else {
                was
            })
        }),
{
    reveal_strlit(";");
    reveal_strlit("CN");
    reveal_strlit("=");
    let params = ";"@ + "CN"@ + "="@ + cn;
    assert(params.skip(1) =~= "CN"@ + "="@ + cn);
    lemma_names();
    lemma_mailto(address);
    lemma_plain_more(";"@, "CN"@, cn);
    assert(params[0] == ';');
    lemma_line_taken(l, "ORGANIZER"@, params, "mailto:"@ + address);
    law_parameter_reads_back(Seq::empty(), "CN"@, cn, "CN"@);
    lemma_unescaped(cn);
}

/// Which occurrence an event stands for reads back, and whether it stands for
/// those behind it too; the first one counts.
pub proof fn law_recurrence_id_reads_back(l: Seq<Seq<char>>, range: Seq<char>, v: Seq<char>)
    requires
        l.len() > 0,
        are_lines(l),
        is_capital(range),
        is_written(v),
    ensures
        ({
            let was = ical::event_of(fragment_of(l));
            &&& ical::event_of(
                fragment_of(
                    l.push(
                        "RECURRENCE-ID"@ + (";"@ + "RANGE"@ + "="@ + range) + ":"@ + escape::escape(
                            v,
                        ),
                    ),
                ),
            ) == (if was.recurrence_id.len() == 0 {
                Event { recurrence_id: v, recurrence_id_range: range, ..was }
            } else {
                was
            })
            &&& was.recurrence_id.len() == 0 ==> ical::event_of(
                fragment_of(
                    l.push("RECURRENCE-ID"@ + Seq::<char>::empty() + ":"@ + escape::escape(v)),
                ),
            ) == (Event { recurrence_id: v, recurrence_id_range: seq![], ..was })
        }),
{
    reveal_strlit(";");
    reveal_strlit("RANGE");
    reveal_strlit("=");
    let params = ";"@ + "RANGE"@ + "="@ + range;
    assert(params.skip(1) =~= "RANGE"@ + "="@ + range);
    lemma_names();
    lemma_capital(range);
    lemma_written_value(v);
    lemma_plain_more(";"@, "RANGE"@, range);
    assert(params[0] == ';');
    lemma_line_taken(l, "RECURRENCE-ID"@, params, escape::escape(v));
    law_parameter_reads_back(Seq::empty(), "RANGE"@, range, "RANGE"@);
    lemma_line_taken(l, "RECURRENCE-ID"@, Seq::empty(), escape::escape(v));
    lemma_no_params();
    let none = Seq::<char>::empty();
    assert(text::ascii_uppercase(none) =~= none);
    assert(text::is_ascii_text(none));
}

/// A fragment that holds no property is an event of nothing.
pub proof fn law_bare_fragment_is_empty()
    ensures
        forall|f: Single|
            single(
                ical::event_of(fragment_of(seq!["BEGIN:VEVENT"@, "END:VEVENT"@])),
                f,
            ).len() == 0,
        ical::event_of(fragment_of(seq!["BEGIN:VEVENT"@, "END:VEVENT"@])).exdates.len() == 0,
        ical::event_of(fragment_of(seq!["BEGIN:VEVENT"@, "END:VEVENT"@])).attendees.len() == 0,
        ical::event_of(
            fragment_of(seq!["BEGIN:VEVENT"@, "END:VEVENT"@]),
        ).attendee_details.len() == 0,
{
    reveal_strlit("BEGIN:VEVENT");
    reveal_strlit("END:VEVENT");
    let l = seq!["BEGIN:VEVENT"@, "END:VEVENT"@];
    assert(are_lines(l));
    lines::lemma_card_lines_lf(l);
    lemma_dropping_plain(l);
    edits::lemma_trimmed("BEGIN:VEVENT"@);
    edits::lemma_trimmed("END:VEVENT"@);
    let m = l.drop_last();
    assert(m =~= seq!["BEGIN:VEVENT"@]);
    assert(m.drop_last() =~= Seq::<Seq<char>>::empty());
    reveal_with_fuel(ical::event_of_lines, 3);
}

/// An address is what stands behind its scheme, in any case, and before a
/// semicolon; without a scheme it is the whole value.
pub proof fn law_address_forms(scheme: Seq<char>, a: Seq<char>, rest: Seq<char>)
    requires
        is_address(a),
        text::ascii_lowercase(scheme) == "mailto:"@,
        rest.len() == 0 || rest[0] == ';' && !text::is_white(rest[rest.len() - 1]),
    ensures
        ical::mailto_email(scheme + a + rest) == a,
        text::find_text(text::ascii_lowercase(a + rest), "mailto:"@) is None
            ==> ical::mailto_email(a + rest) == a,
{
    reveal_strlit("mailto:");
    let v = scheme + a + rest;
    let low = text::ascii_lowercase(v);
    assert(scheme.len() == 7) by {
        assert(text::ascii_lowercase(scheme).len() == scheme.len());
    }
    assert(low.take(7) =~= text::ascii_lowercase(scheme));
    assert(text::starts_with(low, "mailto:"@));
    assert(text::ascii_lowercase(scheme)[0] == 'm');
    assert(!text::is_white(v[0])) by {
        assert(v[0] == scheme[0]);
        assert(text::ascii_lower_char(scheme[0]) == 'm');
    }
    let w = a + rest;
    assert(v[v.len() - 1] == w[w.len() - 1]);
    assert(!text::is_white(w[w.len() - 1])) by {
        if rest.len() == 0 {
            assert(w[w.len() - 1] == a[a.len() - 1]);
        } else {
            assert(w[w.len() - 1] == rest[rest.len() - 1]);
        }
    }
    assert(w[0] == a[0]);
    edits::lemma_trimmed(v);
    edits::lemma_trimmed(w);
    assert(v.skip(7) =~= w);
    assert forall|j: int| 0 <= j < a.len() implies w[j] != ';' by {
        assert(w[j] == a[j]);
    }
    text::lemma_find_is(w, ';', a.len() as int);
    assert(lines::up_to(w, ';') =~= a);
    edits::lemma_trimmed(a);
}

} // verus!
