//! What an edited event reads back as.
use vstd::prelude::*;

use crate::calendar_seal;
use crate::calendar_seal::{NewCards, PatchModel};
use crate::calendar_write;
use crate::calendar_write::FieldsModel;
use crate::dates;
use crate::dates::Civil;
use crate::escape;
use crate::ical;
use crate::ical::Event;
use crate::lines;
use crate::lists;
use crate::models::EventModel;
use crate::numbers;
use crate::ordered;
use crate::text;

verus! {

// ---------------------------------------------------------------------
// The value of a property
// ---------------------------------------------------------------------

/// What a line says of a property; none when it is a line of another one.
pub open spec fn says(line: Seq<char>, name: Seq<char>) -> Option<Seq<char>> {
    let l = text::trim(line);
    if ical::is_structure(l) {
        None
    } else {
        match ical::line_parts(l) {
            Some(p) => if p.name == name {
                Some(escape::unescape(text::trim(p.value)))
            } else {
                None
            },
            None => None,
        }
    }
}

/// The first value of a property that is not empty.
pub open spec fn first_said(l: Seq<Seq<char>>, name: Seq<char>) -> Seq<char>
    decreases l.len(),
{
    if l.len() == 0 {
        seq![]
    } else {
        let there = first_said(l.drop_last(), name);
        match says(l.last(), name) {
            Some(v) => ical::first_of(there, v),
            None => there,
        }
    }
}

/// The properties of which the first value counts.
pub open spec fn single_valued(name: Seq<char>) -> bool {
    ||| name == "UID"@
    ||| name == "SUMMARY"@
    ||| name == "DESCRIPTION"@
    ||| name == "LOCATION"@
    ||| name == "DTSTART"@
    ||| name == "DTEND"@
    ||| name == "DTSTAMP"@
    ||| name == "CREATED"@
    ||| name == "RRULE"@
    ||| name == "SEQUENCE"@
    ||| name == "STATUS"@
    ||| name == "TRANSP"@
}

/// The value that an event has for such a property.
pub open spec fn field(ev: Event, name: Seq<char>) -> Seq<char> {
    if name == "UID"@ {
        ev.uid
    } else if name == "SUMMARY"@ {
        ev.summary
    } else if name == "DESCRIPTION"@ {
        ev.description
    } else if name == "LOCATION"@ {
        ev.location
    } else if name == "DTSTART"@ {
        ev.dtstart
    } else if name == "DTEND"@ {
        ev.dtend
    } else if name == "DTSTAMP"@ {
        ev.dtstamp
    } else if name == "CREATED"@ {
        ev.created
    } else if name == "RRULE"@ {
        ev.rrule
    } else if name == "SEQUENCE"@ {
        ev.sequence
    } else if name == "STATUS"@ {
        ev.status
    } else {
        ev.transp
    }
}

proof fn lemma_field_step(ev: Event, line: Seq<char>, name: Seq<char>)
    requires
        single_valued(name),
    ensures
        field(ical::line_step(ev, line), name) == (match says(line, name) {
            Some(v) => ical::first_of(field(ev, name), v),
            None => field(ev, name),
        }),
{
}

proof fn lemma_field(l: Seq<Seq<char>>, name: Seq<char>)
    requires
        single_valued(name),
    ensures
        field(ical::event_of_lines(l), name) == first_said(l, name),
    decreases l.len(),
{
    if l.len() > 0 {
        lemma_field(l.drop_last(), name);
        lemma_field_step(ical::event_of_lines(l.drop_last()), l.last(), name);
    }
}

proof fn lemma_first_said_concat(a: Seq<Seq<char>>, b: Seq<Seq<char>>, name: Seq<char>)
    ensures
        first_said(a + b, name) == ical::first_of(first_said(a, name), first_said(b, name)),
    decreases b.len(),
{
    if b.len() == 0 {
        assert(a + b =~= a);
        if first_said(a, name).len() == 0 {
            assert(first_said(a, name) =~= seq![]);
        }
    } else {
        lemma_first_said_concat(a, b.drop_last(), name);
        assert((a + b).drop_last() =~= a + b.drop_last());
        assert((a + b).last() == b.last());
    }
}

/// Lines that say nothing of a property.
pub open spec fn silent(l: Seq<Seq<char>>, name: Seq<char>) -> bool {
    forall|i: int| 0 <= i < l.len() ==> says(#[trigger] l[i], name) is None
}

proof fn lemma_silent(l: Seq<Seq<char>>, name: Seq<char>)
    requires
        silent(l, name),
    ensures
        first_said(l, name) =~= seq![],
    decreases l.len(),
{
    if l.len() > 0 {
        assert forall|i: int| 0 <= i < l.drop_last().len() implies says(
            #[trigger] l.drop_last()[i],
            name,
        ) is None by {
            assert(says(l[i], name) is None);
        }
        lemma_silent(l.drop_last(), name);
        assert(says(l[l.len() - 1], name) is None);
    }
}

/// Where every line that says anything of a property is the same line, and
/// that line is there, the property has its value.
proof fn lemma_one_line_said(
    l: Seq<Seq<char>>,
    line: Seq<char>,
    name: Seq<char>,
    value: Seq<char>,
)
    requires
        says(line, name) == Some(value),
        value.len() > 0,
        forall|i: int|
            0 <= i < l.len() ==> says(#[trigger] l[i], name) is None || l[i] == line,
    ensures
        first_said(l, name) == (if l.contains(line) {
            value
        } else {
            seq![]
        }),
    decreases l.len(),
{
    if l.len() > 0 {
        let init = l.drop_last();
        assert forall|i: int| 0 <= i < init.len() implies says(#[trigger] init[i], name) is None
            || init[i] == line by {
            assert(init[i] == l[i]);
        }
        lemma_one_line_said(init, line, name, value);
        let last = l[l.len() - 1];
        assert(says(last, name) is None || last == line);
        if init.contains(line) {
            let i = choose|i: int| 0 <= i < init.len() && init[i] == line;
            assert(l[i] == line);
        }
        if l.contains(line) && last != line {
            let i = choose|i: int| 0 <= i < l.len() && l[i] == line;
            assert(init[i] == line);
        }
    }
}

// ---------------------------------------------------------------------
// Names, as they are read and as they are edited
// ---------------------------------------------------------------------

pub open spec fn all_white(s: Seq<char>) -> bool {
    forall|i: int| 0 <= i < s.len() ==> text::is_white(#[trigger] s[i])
}

proof fn lemma_trim_start(s: Seq<char>)
    ensures
        text::trim_start(s).len() <= s.len(),
        s.skip(s.len() - text::trim_start(s).len()) == text::trim_start(s),
        all_white(s.take(s.len() - text::trim_start(s).len())),
        text::trim_start(s).len() > 0 ==> !text::is_white(text::trim_start(s)[0]),
    decreases s.len(),
{
    if s.len() > 0 && text::is_white(s[0]) {
        let t = s.skip(1);
        lemma_trim_start(t);
        let r = text::trim_start(t);
        assert(s.skip(s.len() - r.len()) =~= t.skip(t.len() - r.len()));
        let a = s.take(s.len() - r.len());
        assert forall|i: int| 0 <= i < a.len() implies text::is_white(#[trigger] a[i]) by {
            if i > 0 {
                assert(a[i] == t.take(t.len() - r.len())[i - 1]);
            }
        }
    } else {
        assert(s.skip(0) =~= s);
    }
}

proof fn lemma_trim_end(s: Seq<char>)
    ensures
        text::trim_end(s).len() <= s.len(),
        s.take(text::trim_end(s).len() as int) == text::trim_end(s),
        all_white(s.skip(text::trim_end(s).len() as int)),
    decreases s.len(),
{
    if s.len() > 0 && text::is_white(s.last()) {
        let t = s.drop_last();
        lemma_trim_end(t);
        let n = text::trim_end(t).len() as int;
        assert(s.take(n) =~= t.take(n));
        let b = s.skip(n);
        assert forall|i: int| 0 <= i < b.len() implies text::is_white(#[trigger] b[i]) by {
            if i < b.len() - 1 {
                assert(b[i] == t.skip(n)[i]);
            }
        }
    } else {
        assert(s.take(s.len() as int) =~= s);
    }
}

/// What stands before the trimmed text.
pub open spec fn lead(s: Seq<char>) -> Seq<char> {
    s.take(s.len() - text::trim_start(s).len())
}

/// What stands behind the trimmed text.
pub open spec fn tail(s: Seq<char>) -> Seq<char> {
    text::trim_start(s).skip(text::trim(s).len() as int)
}

proof fn lemma_trim_parts(s: Seq<char>)
    ensures
        s == lead(s) + text::trim(s) + tail(s),
        all_white(lead(s)),
{
    lemma_trim_start(s);
    lemma_trim_end(text::trim_start(s));
    assert(s =~= lead(s) + text::trim(s) + tail(s));
}

proof fn lemma_trim_lead(a: Seq<char>, x: Seq<char>)
    requires
        all_white(a),
    ensures
        text::trim(a + x) == text::trim(x),
    decreases a.len(),
{
    if a.len() == 0 {
        assert(a + x =~= x);
    } else {
        assert(text::is_white(a[0]));
        assert((a + x).skip(1) =~= a.skip(1) + x);
        assert forall|i: int| 0 <= i < a.skip(1).len() implies text::is_white(
            #[trigger] a.skip(1)[i],
        ) by {
            assert(text::is_white(a[i + 1]));
        }
        lemma_trim_lead(a.skip(1), x);
    }
}

/// Text without quotes and colons.
pub open spec fn no_colon(s: Seq<char>) -> bool {
    forall|i: int| 0 <= i < s.len() ==> (#[trigger] s[i]) != '"' && s[i] != ':'
}

pub proof fn lemma_colon_behind(a: Seq<char>, x: Seq<char>)
    requires
        no_colon(a),
    ensures
        lines::unquoted_colon(a + x, false) == a.len() + lines::unquoted_colon(x, false),
    decreases a.len(),
{
    if a.len() == 0 {
        assert(a + x =~= x);
    } else {
        assert(a[0] != '"' && a[0] != ':');
        assert((a + x)[0] == a[0]);
        assert((a + x).skip(1) =~= a.skip(1) + x);
        assert forall|i: int| 0 <= i < a.skip(1).len() implies (#[trigger] a.skip(1)[i]) != '"'
            && a.skip(1)[i] != ':' by {
            assert(a[i + 1] != '"');
        }
        lemma_colon_behind(a.skip(1), x);
    }
}

proof fn lemma_colon_before(x: Seq<char>, b: Seq<char>, quoted: bool)
    requires
        lines::unquoted_colon(x, quoted) < x.len(),
    ensures
        lines::unquoted_colon(x + b, quoted) == lines::unquoted_colon(x, quoted),
    decreases x.len(),
{
    assert((x + b)[0] == x[0]);
    assert((x + b).skip(1) =~= x.skip(1) + b);
    if x[0] == '"' {
        lemma_colon_before(x.skip(1), b, !quoted);
    } else if x[0] == ':' && !quoted {
    } else {
        lemma_colon_before(x.skip(1), b, quoted);
    }
}

/// A line that says anything of a property is edited under its name.
proof fn lemma_said_name(line: Seq<char>, name: Seq<char>)
    requires
        says(line, name) is Some,
        name.len() > 0,
    ensures
        lines::property_name(line) == Some(name),
{
    let t = text::trim(line);
    let a = lead(line);
    let b = tail(line);
    lemma_trim_parts(line);
    let k = lines::unquoted_colon(t, false);
    lines::lemma_unquoted_colon(t, false);
    assert forall|i: int| 0 <= i < a.len() implies (#[trigger] a[i]) != '"' && a[i] != ':' by {
        assert(text::is_white(a[i]));
    }
    lemma_colon_before(t, b, false);
    lemma_colon_behind(a, t + b);
    assert(line =~= a + (t + b));
    let left = t.take(k);
    let e = text::find(left, ';');
    text::lemma_find(left, ';');
    assert(line.take(a.len() + k) =~= a + left);
    assert forall|j: int| 0 <= j < a.len() + e implies (a + left)[j] != ';' by {
        if j < a.len() {
            assert(text::is_white(a[j]));
        } else {
            assert((a + left)[j] == left[j - a.len()]);
        }
    }
    text::lemma_find_is(a + left, ';', a.len() + e);
    assert(lines::up_to(a + left, ';') =~= a + left.take(e));
    lemma_trim_lead(a, left.take(e));
}

// ---------------------------------------------------------------------
// Lines that a patch writes
// ---------------------------------------------------------------------

/// A property name as a patch writes it: capital letters and dashes, and not
/// the name of a line that stands for the structure of a card.
pub open spec fn plain_name(name: Seq<char>) -> bool {
    &&& name.len() > 0
    &&& forall|i: int| 0 <= i < name.len() ==> 'A' <= (#[trigger] name[i]) <= 'Z' || name[i] == '-'
    &&& name[0] != 'B' && name[0] != 'E' && name[0] != 'V' && name[0] != 'P'
}

proof fn lemma_plain_name(name: Seq<char>)
    requires
        plain_name(name),
    ensures
        text::uppercase(name) == name,
        text::trim(name) == name,
        no_colon(name),
        text::find(name, ';') == name.len(),
{
    assert(text::is_ascii_text(name));
    assert(text::ascii_uppercase(name) =~= name);
    assert(!text::is_white(name[0]));
    assert(!text::is_white(name[name.len() - 1]));
    text::lemma_find_is(name, ';', name.len() as int);
}

/// The parameters of a line as a patch writes them: nothing, or a semicolon
/// and text without quotes and colons.
pub open spec fn plain_params(params: Seq<char>) -> bool {
    params.len() == 0 || params[0] == ';' && no_colon(params)
}

proof fn lemma_other_start(s: Seq<char>, p: Seq<char>)
    requires
        p.len() > 0,
        s.len() > 0,
        s[0] != p[0],
    ensures
        !text::starts_with(s, p),
{
    if s.len() >= p.len() {
        assert(s.take(p.len() as int)[0] == s[0]);
    }
}

proof fn lemma_no_structure(name: Seq<char>, rest: Seq<char>)
    requires
        plain_name(name),
    ensures
        !ical::is_structure(name + rest),
{
    let l = name + rest;
    reveal_strlit("BEGIN:VCALENDAR");
    reveal_strlit("END:VCALENDAR");
    reveal_strlit("BEGIN:VEVENT");
    reveal_strlit("END:VEVENT");
    reveal_strlit("VERSION:");
    reveal_strlit("PRODID:");
    reveal_strlit("BEGIN:VALARM");
    reveal_strlit("END:VALARM");
    assert(l[0] == name[0]);
    assert(text::ascii_uppercase(l)[0] == name[0]);
    assert(text::ascii_uppercase("BEGIN:VCALENDAR"@)[0] == 'B');
    assert(text::ascii_uppercase("END:VCALENDAR"@)[0] == 'E');
    assert(text::ascii_uppercase("BEGIN:VEVENT"@)[0] == 'B');
    assert(text::ascii_uppercase("END:VEVENT"@)[0] == 'E');
    lemma_other_start(l, "VERSION:"@);
    lemma_other_start(l, "PRODID:"@);
    lemma_other_start(l, "BEGIN:VALARM"@);
    lemma_other_start(l, "END:VALARM"@);
}

/// A line of a name, parameters and a value is edited under that name.
proof fn lemma_written_name(name: Seq<char>, params: Seq<char>, value: Seq<char>)
    requires
        plain_name(name),
        plain_params(params),
    ensures
        lines::unquoted_colon(name + params + ":"@ + value, false) == name.len() + params.len(),
        lines::property_name(name + params + ":"@ + value) == Some(name),
        ical::line_parts(name + params + ":"@ + value) matches Some(p) && p.name == name && p.value
            == value,
{
    reveal_strlit(":");
    let left = name + params;
    let rest = ":"@ + value;
    let line = name + params + ":"@ + value;
    lemma_plain_name(name);
    assert(no_colon(left)) by {
        assert forall|i: int| 0 <= i < left.len() implies (#[trigger] left[i]) != '"' && left[i]
            != ':' by {
            if i < name.len() {
                assert(left[i] == name[i]);
            } else {
                assert(left[i] == params[i - name.len()]);
            }
        }
    }
    assert(line =~= left + rest);
    lemma_colon_behind(left, rest);
    assert(rest[0] == ':');
    assert(line.take(left.len() as int) =~= left);
    assert(line.skip(left.len() as int + 1) =~= value);
    assert forall|j: int| 0 <= j < name.len() implies left[j] != ';' by {
        assert(left[j] == name[j]);
    }
    assert(params.len() > 0 ==> left[name.len() as int] == ';');
    text::lemma_find_is(left, ';', name.len() as int);
    assert(left.take(name.len() as int) =~= name);
}

/// A line of a name, parameters and a value that is not empty and has no
/// white space at its ends says that value.
proof fn lemma_written_line(name: Seq<char>, params: Seq<char>, value: Seq<char>)
    requires
        plain_name(name),
        plain_params(params),
        value.len() > 0,
        text::trim(value) == value,
    ensures
        says(name + params + ":"@ + value, name) == Some(escape::unescape(value)),
{
    reveal_strlit(":");
    let line = name + params + ":"@ + value;
    lemma_written_name(name, params, value);
    lemma_trim_end_last(value);
    assert(line[line.len() - 1] == value[value.len() - 1]);
    assert(line[0] == name[0]);
    lemma_trimmed(line);
    assert(line =~= name + (params + ":"@ + value));
    lemma_no_structure(name, params + ":"@ + value);
}

/// Trimmed text ends in no white space.
pub proof fn lemma_trim_end_last(s: Seq<char>)
    requires
        text::trim(s) == s,
        s.len() > 0,
    ensures
        !text::is_white(s.last()),
{
    lemma_trim_start(s);
    let t = text::trim_start(s);
    lemma_trim_end(t);
    assert(t.len() == s.len());
    assert(t =~= s);
    if text::is_white(s.last()) {
        lemma_trim_end(s.drop_last());
    }
}

// ---------------------------------------------------------------------
// Patches
// ---------------------------------------------------------------------

/// An entry of a patch under a name that stands as it is, whose line is a
/// content line of that name.
pub open spec fn good_entry(e: (Seq<char>, Seq<char>)) -> bool {
    &&& text::uppercase(e.0) == e.0
    &&& e.0.len() > 0
    &&& lines::property_name(e.0 + e.1) == Some(e.0)
    &&& calendar_write::content_line(e.0 + e.1)
}

/// What a patch sets: names in order, each once, and good lines.
pub open spec fn good_set(m: Seq<(Seq<char>, Seq<char>)>) -> bool {
    &&& ordered::increasing(ordered::keys(m))
    &&& forall|i: int| 0 <= i < m.len() ==> good_entry(#[trigger] m[i])
}

proof fn lemma_with_entry_members(m: Seq<(Seq<char>, Seq<char>)>, k: Seq<char>, v: Seq<char>)
    ensures
        forall|i: int|
            0 <= i < ordered::with_entry(m, k, v).len() ==> (#[trigger] ordered::with_entry(
                m,
                k,
                v,
            )[i]) == (k, v) || m.contains(ordered::with_entry(m, k, v)[i]),
    decreases m.len(),
{
    let r = ordered::with_entry(m, k, v);
    if m.len() > 0 {
        let t = m.skip(1);
        lemma_with_entry_members(t, k, v);
        assert forall|i: int| 0 <= i < r.len() implies (#[trigger] r[i]) == (k, v) || m.contains(
            r[i],
        ) by {
            if m[0].0 == k {
                if i > 0 {
                    assert(r[i] == m[i]);
                }
            } else if ordered::before(k, m[0].0) {
                if i > 0 {
                    assert(r[i] == m[i - 1]);
                }
            } else if i > 0 {
                let w = ordered::with_entry(t, k, v);
                assert(r[i] == w[i - 1]);
                if w[i - 1] != (k, v) {
                    let j = choose|j: int| 0 <= j < t.len() && t[j] == w[i - 1];
                    assert(m[j + 1] == r[i]);
                }
            } else {
                assert(r[0] == m[0]);
            }
        }
    }
}

proof fn lemma_good_with(m: Seq<(Seq<char>, Seq<char>)>, k: Seq<char>, v: Seq<char>)
    requires
        good_set(m),
        good_entry((k, v)),
    ensures
        good_set(ordered::with_entry(m, k, v)),
{
    let r = ordered::with_entry(m, k, v);
    ordered::lemma_with_entry_keys(m, k, v);
    ordered::lemma_with_text(ordered::keys(m), k);
    lemma_with_entry_members(m, k, v);
    assert forall|i: int| 0 <= i < r.len() implies good_entry(#[trigger] r[i]) by {
        if r[i] != (k, v) {
            let j = choose|j: int| 0 <= j < m.len() && m[j] == r[i];
            assert(good_entry(m[j]));
        }
    }
}

proof fn lemma_with_entry_last(m: Seq<(Seq<char>, Seq<char>)>, k: Seq<char>, v: Seq<char>)
    requires
        forall|i: int| 0 <= i < m.len() ==> ordered::before((#[trigger] m[i]).0, k),
    ensures
        ordered::with_entry(m, k, v) == m.push((k, v)),
    decreases m.len(),
{
    if m.len() == 0 {
        assert(m.push((k, v)) =~= seq![(k, v)]);
    } else {
        assert(ordered::before(m[0].0, k));
        ordered::lemma_before_irreflexive(k);
        if ordered::before(k, m[0].0) {
            ordered::lemma_before_transitive(k, m[0].0, k);
        }
        assert forall|i: int| 0 <= i < m.skip(1).len() implies ordered::before(
            (#[trigger] m.skip(1)[i]).0,
            k,
        ) by {
            assert(ordered::before(m[i + 1].0, k));
        }
        lemma_with_entry_last(m.skip(1), k, v);
        assert(ordered::with_entry(m, k, v) =~= m.push((k, v)));
    }
}

/// Names that stand as they are stay so.
proof fn lemma_upper_entries(m: Seq<(Seq<char>, Seq<char>)>)
    requires
        good_set(m),
    ensures
        calendar_write::upper_entries(m) == m,
    decreases m.len(),
{
    if m.len() > 0 {
        let init = m.drop_last();
        let last = m[m.len() - 1];
        assert(good_entry(last));
        assert forall|i: int, j: int| 0 <= i < j < ordered::keys(init).len() implies ordered::before(
            #[trigger] ordered::keys(init)[i],
            #[trigger] ordered::keys(init)[j],
        ) by {
            assert(ordered::before(ordered::keys(m)[i], ordered::keys(m)[j]));
        }
        assert forall|i: int| 0 <= i < init.len() implies good_entry(#[trigger] init[i]) by {
            assert(good_entry(m[i]));
        }
        lemma_upper_entries(init);
        assert forall|i: int| 0 <= i < init.len() implies ordered::before(
            (#[trigger] init[i]).0,
            last.0,
        ) by {
            assert(ordered::before(ordered::keys(m)[i], ordered::keys(m)[m.len() - 1]));
        }
        lemma_with_entry_last(init, last.0, last.1);
        assert(m =~= init.push(last));
    }
}

/// The value under the name of an entry is that of the entry.
proof fn lemma_entry_found(m: Seq<(Seq<char>, Seq<char>)>, i: int)
    requires
        ordered::increasing(ordered::keys(m)),
        0 <= i < m.len(),
    ensures
        ordered::lookup(m, m[i].0) == Some(m[i].1),
    decreases m.len(),
{
    if i > 0 {
        assert(ordered::before(ordered::keys(m)[0], ordered::keys(m)[i]));
        ordered::lemma_before_irreflexive(m[0].0);
        let t = m.skip(1);
        assert forall|a: int, b: int| 0 <= a < b < ordered::keys(t).len() implies ordered::before(
            #[trigger] ordered::keys(t)[a],
            #[trigger] ordered::keys(t)[b],
        ) by {
            assert(ordered::before(ordered::keys(m)[a + 1], ordered::keys(m)[b + 1]));
        }
        lemma_entry_found(t, i - 1);
        assert(t[i - 1] == m[i]);
    }
}

proof fn lemma_missing_lines(
    props: Seq<Seq<char>>,
    set: Seq<(Seq<char>, Seq<char>)>,
    delete: Seq<Seq<char>>,
    j: int,
)
    requires
        0 <= j < calendar_write::missing(props, set, delete).len(),
    ensures
        exists|k: int|
            0 <= k < set.len() && calendar_write::missing(props, set, delete)[j] == text::uppercase(
                (#[trigger] set[k]).0,
            ) + set[k].1,
    decreases set.len(),
{
    if set.len() > 0 {
        let init = calendar_write::missing(props, set.drop_last(), delete);
        let m = calendar_write::missing(props, set, delete);
        if j < init.len() {
            lemma_missing_lines(props, set.drop_last(), delete, j);
            let k = choose|k: int|
                0 <= k < set.drop_last().len() && init[j] == text::uppercase(
                    (#[trigger] set.drop_last()[k]).0,
                ) + set.drop_last()[k].1;
            assert(set[k] == set.drop_last()[k]);
            assert(m[j] == init[j]);
        } else {
            assert(m[j] == text::uppercase(set[set.len() - 1].0) + set[set.len() - 1].1);
        }
    }
}

/// A line of the edited card says something of a property only where its
/// source is the line of that property, or the patch sets the property.
proof fn lemma_edited_says(
    props: Seq<Seq<char>>,
    set: Seq<(Seq<char>, Seq<char>)>,
    delete: Seq<Seq<char>>,
    line: Seq<char>,
    name: Seq<char>,
)
    requires
        good_set(set),
        name.len() > 0,
        (calendar_write::edited(props, set, delete) + calendar_write::missing(
            props,
            set,
            delete,
        )).contains(line),
        says(line, name) is Some,
    ensures
        ordered::lookup(set, name) matches Some(v) ==> line == name + v,
        ordered::lookup(set, name) is None ==> !calendar_write::deletes(delete, name)
            && props.contains(line),
{
    lemma_said_name(line, name);
    let e = calendar_write::edited(props, set, delete);
    let m = calendar_write::missing(props, set, delete);
    let j = choose|j: int| 0 <= j < (e + m).len() && (e + m)[j] == line;
    if j < e.len() {
        assert(e[j] == line);
        calendar_write::law_edited_lines(props, set, delete, line);
        let i = choose|i: int|
            0 <= i < props.len() && calendar_write::edited_line(#[trigger] props[i], set, delete)
                == Some(line);
        if let Some(n) = lines::property_name(props[i]) {
            if let Some(v) = ordered::lookup(set, n) {
                calendar_write::lemma_lookup_at(set, n);
                let k = choose|k: int| 0 <= k < set.len() && #[trigger] set[k] == (n, v);
                assert(good_entry(set[k]));
            }
        }
    } else {
        assert(m[j - e.len()] == line);
        lemma_missing_lines(props, set, delete, j - e.len());
        let k = choose|k: int|
            0 <= k < set.len() && m[j - e.len()] == text::uppercase((#[trigger] set[k]).0)
                + set[k].1;
        assert(good_entry(set[k]));
        lemma_entry_found(set, k);
    }
}

// ---------------------------------------------------------------------
// Reading a patched card
// ---------------------------------------------------------------------

proof fn lemma_unfold_start(l: Seq<Seq<char>>)
    requires
        l.len() > 0,
    ensures
        lines::unfold(l).len() > 0,
        lines::is_continuation(l[0]) ==> lines::is_continuation(lines::unfold(l)[0]),
        !lines::is_continuation(l[0]) ==> ical::unfold_dropping(l) == lines::unfold(l),
    decreases l.len(),
{
    let init = l.drop_last();
    if init.len() == 0 {
        assert(lines::unfold(init) =~= seq![]);
        assert(ical::unfold_dropping(init) =~= seq![]);
    } else {
        lemma_unfold_start(init);
    }
}

/// Where no unfolded line starts as a continuation, both ways of unfolding
/// give the same lines.
proof fn lemma_unfold_same(l: Seq<Seq<char>>)
    requires
        forall|i: int|
            0 <= i < lines::unfold(l).len() ==> !lines::is_continuation(
                #[trigger] lines::unfold(l)[i],
            ),
    ensures
        ical::unfold_dropping(l) == lines::unfold(l),
{
    if l.len() > 0 {
        lemma_unfold_start(l);
        assert(!lines::is_continuation(lines::unfold(l)[0]));
    } else {
        assert(ical::unfold_dropping(l) =~= lines::unfold(l));
    }
}

/// A card whose content lines start with no space and no tab.
pub open spec fn plain_card(card: Seq<char>) -> bool {
    forall|i: int|
        0 <= i < lines::unfold(lines::card_lines(card)).len() ==> !lines::is_continuation(
            #[trigger] lines::unfold(lines::card_lines(card))[i],
        )
}

/// The content lines of a card.
pub open spec fn content_of(card: Seq<char>) -> Seq<Seq<char>> {
    lines::unfold(lines::card_lines(card))
}

proof fn lemma_plain_card_reads(card: Seq<char>, name: Seq<char>)
    requires
        plain_card(card),
        single_valued(name),
    ensures
        field(ical::event_of(card), name) == first_said(content_of(card), name),
{
    lemma_unfold_same(lines::card_lines(card));
    lemma_field(content_of(card), name);
}

proof fn lemma_patched_reads(
    card: Seq<char>,
    set: Seq<(Seq<char>, Seq<char>)>,
    delete: Seq<Seq<char>>,
    name: Seq<char>,
)
    requires
        plain_card(card),
        good_set(set),
        single_valued(name),
    ensures
        field(
            ical::event_of(
                lines::card_of(calendar_write::patched_lines(card, set, delete, seq![])),
            ),
            name,
        ) == ical::first_of(
            first_said(
                calendar_write::edited(
                    calendar_write::sections(content_of(card)).props,
                    set,
                    delete,
                ) + calendar_write::missing(
                    calendar_write::sections(content_of(card)).props,
                    set,
                    delete,
                ),
                name,
            ),
            first_said(calendar_write::sections(content_of(card)).blocks, name),
        ),
{
    let st = calendar_write::sections(content_of(card));
    let props = calendar_write::edited(st.props, set, delete) + calendar_write::missing(
        st.props,
        set,
        delete,
    );
    let p = calendar_write::patched_lines(card, set, delete, seq![]);
    lemma_upper_entries(set);
    assert forall|i: int| 0 <= i < set.len() implies calendar_write::content_line(
        #[trigger] set[i].0 + set[i].1,
    ) && calendar_write::content_line(text::uppercase(set[i].0) + set[i].1) by {
        assert(good_entry(set[i]));
    }
    calendar_write::law_patched_card_reads_back(card, set, delete, seq![]);
    let text = lines::card_of(p);
    assert(content_of(text) == p);
    let begin = seq!["BEGIN:VCALENDAR"@, "BEGIN:VEVENT"@];
    let end = seq!["END:VEVENT"@, "END:VCALENDAR"@];
    assert(lists::appended(props, seq![]) == props);
    assert(p =~= begin + (props + st.blocks) + end);
    assert forall|i: int| 0 <= i < p.len() implies !lines::is_continuation(#[trigger] p[i]) by {
        assert(calendar_write::content_line(p[i]));
    }
    lemma_plain_card_reads(text, name);
    lemma_wrapper_silent(name);
    lemma_silent(begin, name);
    lemma_silent(end, name);
    lemma_first_said_concat(begin + (props + st.blocks), end, name);
    lemma_first_said_concat(begin, props + st.blocks, name);
    lemma_first_said_concat(props, st.blocks, name);
    let f = first_said(props + st.blocks, name);
    if f.len() == 0 {
        assert(f =~= seq![]);
    }
}

proof fn lemma_wrapper_silent(name: Seq<char>)
    ensures
        silent(seq!["BEGIN:VCALENDAR"@, "BEGIN:VEVENT"@], name),
        silent(seq!["END:VEVENT"@, "END:VCALENDAR"@], name),
{
    reveal_strlit("BEGIN:VCALENDAR");
    reveal_strlit("BEGIN:VEVENT");
    reveal_strlit("END:VEVENT");
    reveal_strlit("END:VCALENDAR");
    lemma_trimmed("BEGIN:VCALENDAR"@);
    lemma_trimmed("BEGIN:VEVENT"@);
    lemma_trimmed("END:VEVENT"@);
    lemma_trimmed("END:VCALENDAR"@);
}

/// Text with no white space at its ends is trimmed.
pub proof fn lemma_trimmed(s: Seq<char>)
    requires
        s.len() > 0,
        !text::is_white(s[0]),
        !text::is_white(s[s.len() - 1]),
    ensures
        text::trim(s) == s,
{
    reveal_with_fuel(text::trim_start, 2);
    reveal_with_fuel(text::trim_end, 2);
}

/// Lines of which those that say anything of a property are the event's own:
/// not of a component in it, nor of the wrapper.
pub open spec fn own_only(all: Seq<Seq<char>>, name: Seq<char>) -> bool {
    &&& silent(calendar_write::sections(all).blocks, name)
    &&& forall|i: int|
        0 <= i < all.len() && (calendar_write::is_wrapper(text::uppercase(#[trigger] all[i]))
            || text::trim(all[i]).len() == 0) ==> says(all[i], name) is None
}

proof fn lemma_own(all: Seq<Seq<char>>, name: Seq<char>)
    requires
        own_only(all, name),
    ensures
        first_said(all, name) == first_said(calendar_write::sections(all).props, name),
        silent(calendar_write::sections(all).blocks, name),
{
    lemma_own_from(all, 0, name);
    assert(all.skip(0) =~= all);
}

proof fn lemma_own_from(all: Seq<Seq<char>>, i: int, name: Seq<char>)
    requires
        0 <= i <= all.len(),
        silent(calendar_write::sections_from(all, i).blocks, name),
        forall|k: int|
            0 <= k < all.len() && (calendar_write::is_wrapper(text::uppercase(#[trigger] all[k]))
                || text::trim(all[k]).len() == 0) ==> says(all[k], name) is None,
    ensures
        first_said(all.skip(i), name) == first_said(
            calendar_write::sections_from(all, i).props,
            name,
        ),
    decreases all.len() - i,
{
    let st = calendar_write::sections_from(all, i);
    if i == all.len() {
        assert(all.skip(i) =~= st.props);
    } else {
        let line = all[i];
        let j = if !calendar_write::is_wrapper(text::uppercase(line)) && calendar_write::begins(
            line,
        ) {
            calendar_write::lemma_block_end(all, i);
            calendar_write::block_end(all, i)
        } else {
            i + 1
        };
        let rest = calendar_write::sections_from(all, j);
        let here = all.subrange(i, j);
        assert(all.skip(i) =~= here + all.skip(j));
        lemma_first_said_concat(here, all.skip(j), name);
        assert(silent(rest.blocks, name)) by {
            assert forall|k: int| 0 <= k < rest.blocks.len() implies says(
                #[trigger] rest.blocks[k],
                name,
            ) is None by {
                let off = st.blocks.len() - rest.blocks.len();
                assert(st.blocks[off + k] == rest.blocks[k]);
            }
        }
        lemma_own_from(all, j, name);
        if calendar_write::sections_from(all, i).props.len() > rest.props.len() {
            assert(here =~= seq![line]);
            lemma_first_said_concat(seq![line], rest.props, name);
        } else {
            assert forall|k: int| 0 <= k < here.len() implies says(#[trigger] here[k], name)
                is None by {
                if j > i + 1 || calendar_write::begins(line) && !calendar_write::is_wrapper(
                    text::uppercase(line),
                ) {
                    assert(st.blocks[k] == here[k]);
                } else {
                    assert(here[k] == line);
                }
            }
            lemma_silent(here, name);
            let f = first_said(all.skip(j), name);
            if f.len() == 0 {
                assert(f =~= seq![]);
            }
        }
    }
}

/// A property that the patch sets reads back as the value that its line
/// says.
proof fn lemma_set_reads_back(
    card: Seq<char>,
    set: Seq<(Seq<char>, Seq<char>)>,
    delete: Seq<Seq<char>>,
    name: Seq<char>,
    value: Seq<char>,
)
    requires
        plain_card(card),
        good_set(set),
        single_valued(name),
        name.len() > 0,
        ordered::lookup(set, name) matches Some(body) && says(name + body, name) == Some(value),
        value.len() > 0,
    ensures
        field(
            ical::event_of(
                lines::card_of(calendar_write::patched_lines(card, set, delete, seq![])),
            ),
            name,
        ) == value,
{
    let body = ordered::lookup(set, name)->Some_0;
    let line = name + body;
    let st = calendar_write::sections(content_of(card));
    let l = calendar_write::edited(st.props, set, delete) + calendar_write::missing(
        st.props,
        set,
        delete,
    );
    lemma_patched_reads(card, set, delete, name);
    assert forall|i: int| 0 <= i < l.len() implies says(#[trigger] l[i], name) is None || l[i]
        == line by {
        if says(l[i], name) is Some {
            assert(l.contains(l[i]));
            lemma_edited_says(st.props, set, delete, l[i], name);
        }
    }
    calendar_write::lemma_lookup_at(set, name);
    let k = choose|k: int| 0 <= k < set.len() && #[trigger] set[k] == (name, body);
    assert(good_entry(set[k]));
    calendar_write::law_set_property_present(st.props, set, delete, seq![], k);
    assert(lists::appended(l, seq![]) == l);
    lemma_one_line_said(l, line, name, value);
}

/// A property that the patch deletes reads back as nothing.
proof fn lemma_deleted_reads_back(
    card: Seq<char>,
    set: Seq<(Seq<char>, Seq<char>)>,
    delete: Seq<Seq<char>>,
    name: Seq<char>,
)
    requires
        plain_card(card),
        good_set(set),
        single_valued(name),
        name.len() > 0,
        own_only(content_of(card), name),
        calendar_write::deletes(delete, name),
        ordered::lookup(set, name) is None,
    ensures
        field(
            ical::event_of(
                lines::card_of(calendar_write::patched_lines(card, set, delete, seq![])),
            ),
            name,
        ) == Seq::<char>::empty(),
{
    let st = calendar_write::sections(content_of(card));
    let l = calendar_write::edited(st.props, set, delete) + calendar_write::missing(
        st.props,
        set,
        delete,
    );
    lemma_patched_reads(card, set, delete, name);
    assert forall|i: int| 0 <= i < l.len() implies says(#[trigger] l[i], name) is None by {
        if says(l[i], name) is Some {
            assert(l.contains(l[i]));
            lemma_edited_says(st.props, set, delete, l[i], name);
        }
    }
    lemma_silent(l, name);
    lemma_own(content_of(card), name);
    lemma_silent(st.blocks, name);
}

proof fn lemma_edited_keeps(
    props: Seq<Seq<char>>,
    set: Seq<(Seq<char>, Seq<char>)>,
    delete: Seq<Seq<char>>,
    name: Seq<char>,
)
    requires
        good_set(set),
        name.len() > 0,
        !calendar_write::deletes(delete, name),
        ordered::lookup(set, name) is None,
    ensures
        first_said(calendar_write::edited(props, set, delete), name) == first_said(props, name),
    decreases props.len(),
{
    if props.len() > 0 {
        let init = props.drop_last();
        lemma_edited_keeps(init, set, delete, name);
        let last = props.last();
        let done = calendar_write::edited(init, set, delete);
        let all = calendar_write::edited(props, set, delete);
        if says(last, name) is Some {
            lemma_said_name(last, name);
            assert(calendar_write::edited_line(last, set, delete) == Some(last));
        }
        if let Some(line) = calendar_write::edited_line(last, set, delete) {
            assert(all.drop_last() =~= done);
            if line != last && says(line, name) is Some {
                lemma_said_name(line, name);
                let n = lines::property_name(last)->Some_0;
                let v = ordered::lookup(set, n)->Some_0;
                calendar_write::lemma_lookup_at(set, n);
                let k = choose|k: int| 0 <= k < set.len() && #[trigger] set[k] == (n, v);
                assert(good_entry(set[k]));
                assert(false);
            }
        }
    }
}

/// A property that the patch leaves alone reads back as it was.
proof fn lemma_kept_reads_back(
    card: Seq<char>,
    set: Seq<(Seq<char>, Seq<char>)>,
    delete: Seq<Seq<char>>,
    name: Seq<char>,
)
    requires
        plain_card(card),
        good_set(set),
        single_valued(name),
        name.len() > 0,
        own_only(content_of(card), name),
        !calendar_write::deletes(delete, name),
        ordered::lookup(set, name) is None,
    ensures
        field(
            ical::event_of(
                lines::card_of(calendar_write::patched_lines(card, set, delete, seq![])),
            ),
            name,
        ) == field(ical::event_of(card), name),
{
    let st = calendar_write::sections(content_of(card));
    let e = calendar_write::edited(st.props, set, delete);
    let m = calendar_write::missing(st.props, set, delete);
    lemma_patched_reads(card, set, delete, name);
    lemma_plain_card_reads(card, name);
    lemma_own(content_of(card), name);
    lemma_silent(st.blocks, name);
    lemma_edited_keeps(st.props, set, delete, name);
    assert forall|i: int| 0 <= i < m.len() implies says(#[trigger] m[i], name) is None by {
        if says(m[i], name) is Some {
            lemma_said_name(m[i], name);
            lemma_missing_lines(st.props, set, delete, i);
            let k = choose|k: int|
                0 <= k < set.len() && m[i] == text::uppercase((#[trigger] set[k]).0) + set[k].1;
            assert(good_entry(set[k]));
            lemma_entry_found(set, k);
        }
    }
    lemma_silent(m, name);
    lemma_first_said_concat(e, m, name);
    let f = first_said(e, name);
    if f.len() == 0 {
        assert(f =~= seq![]);
    }
}

// ---------------------------------------------------------------------
// Edits of texts
// ---------------------------------------------------------------------

/// A patch whose parts are in order and that adds no lines.
pub open spec fn good_patch(p: PatchModel) -> bool {
    &&& good_set(p.set)
    &&& ordered::increasing(p.delete)
    &&& p.append == Seq::<Seq<char>>::empty()
}

proof fn lemma_deletes_with(s: Seq<Seq<char>>, k: Seq<char>, name: Seq<char>)
    requires
        ordered::increasing(s),
        text::uppercase(k) == k,
    ensures
        ordered::increasing(ordered::with_text(s, k)),
        calendar_write::deletes(ordered::with_text(s, k), name) <==> (calendar_write::deletes(
            s,
            name,
        ) || name == k),
{
    let r = ordered::with_text(s, k);
    ordered::lemma_with_text(s, k);
    if calendar_write::deletes(r, name) {
        let i = choose|i: int| 0 <= i < r.len() && #[trigger] text::uppercase(r[i]) == name;
        assert(r.contains(r[i]));
        if r[i] != k {
            assert(s.contains(r[i]));
            let j = choose|j: int| 0 <= j < s.len() && s[j] == r[i];
            assert(text::uppercase(s[j]) == name);
        }
    }
    if calendar_write::deletes(s, name) {
        let i = choose|i: int| 0 <= i < s.len() && #[trigger] text::uppercase(s[i]) == name;
        assert(s.contains(s[i]));
        assert(r.contains(s[i]));
        let j = choose|j: int| 0 <= j < r.len() && r[j] == s[i];
        assert(text::uppercase(r[j]) == name);
    }
    if name == k {
        assert(r.contains(k));
        let j = choose|j: int| 0 <= j < r.len() && r[j] == k;
        assert(text::uppercase(r[j]) == name);
    }
}

proof fn lemma_strip(name: Seq<char>)
    ensures
        good_patch(calendar_seal::strip_model()),
        calendar_seal::strip_model().set == Seq::<(Seq<char>, Seq<char>)>::empty(),
        calendar_write::deletes(calendar_seal::strip_model().delete, name) <==> (name
            == "VERSION"@ || name == "PRODID"@),
{
    reveal_strlit("VERSION");
    reveal_strlit("PRODID");
    let none = Seq::<Seq<char>>::empty();
    assert(text::ascii_uppercase("VERSION"@) =~= "VERSION"@);
    assert(text::ascii_uppercase("PRODID"@) =~= "PRODID"@);
    lemma_deletes_with(none, "VERSION"@, name);
    lemma_deletes_with(ordered::with_text(none, "VERSION"@), "PRODID"@, name);
    assert(none =~= seq![]);
}

/// A property in a patch: what it is set to, and whether it is deleted.
pub open spec fn effect(p: PatchModel, name: Seq<char>) -> (Option<Seq<char>>, bool) {
    (ordered::lookup(p.set, name), calendar_write::deletes(p.delete, name))
}

proof fn lemma_set_in(
    p: PatchModel,
    name: Seq<char>,
    params: Seq<char>,
    value: Seq<char>,
    other: Seq<char>,
)
    requires
        good_patch(p),
        plain_name(name),
        plain_params(params),
        lines::one_line(params),
        lines::one_line(value),
    ensures
        good_patch(calendar_seal::set_in(p, name, Some(params + ":"@ + value))),
        effect(calendar_seal::set_in(p, name, Some(params + ":"@ + value)), name) == (
            Some(params + ":"@ + value),
            calendar_write::deletes(p.delete, name),
        ),
        other != name ==> effect(
            calendar_seal::set_in(p, name, Some(params + ":"@ + value)),
            other,
        ) == effect(p, other),
{
    reveal_strlit(":");
    let body = params + ":"@ + value;
    let line = name + body;
    lemma_written_name(name, params, value);
    lemma_plain_name(name);
    assert(line =~= name + params + ":"@ + value);
    assert forall|i: int| 0 <= i < line.len() implies line[i] != '\r' && line[i] != '\n' by {
        if i < name.len() {
            assert(line[i] == name[i]);
        } else if i < name.len() + params.len() {
            assert(line[i] == params[i - name.len()]);
        } else if i > name.len() + params.len() {
            assert(line[i] == value[i - name.len() - params.len() - 1]);
        }
    }
    assert(line[0] == name[0]);
    assert(good_entry((name, body)));
    lemma_good_with(p.set, name, body);
    ordered::law_lookup_with_entry(p.set, name, body, other);
}

proof fn lemma_delete_in(p: PatchModel, name: Seq<char>, other: Seq<char>)
    requires
        good_patch(p),
        text::uppercase(name) == name,
    ensures
        good_patch(calendar_seal::delete_in(p, name)),
        effect(calendar_seal::delete_in(p, name), name) == (ordered::lookup(p.set, name), true),
        other != name ==> effect(calendar_seal::delete_in(p, name), other) == effect(p, other),
{
    lemma_deletes_with(p.delete, name, name);
    lemma_deletes_with(p.delete, name, other);
}

/// How a text is written in a line.
pub open spec fn written(v: Seq<char>) -> Seq<char> {
    escape::escape(escape::without_cr(v))
}

/// What the edit of a text does to its property in a patch that had nothing
/// for it.
pub open spec fn text_effect(value: Option<Seq<char>>) -> (Option<Seq<char>>, bool) {
    match value {
        None => (None, false),
        Some(v) => if v.len() == 0 {
            (None, true)
        } else {
            (Some(":"@ + written(v)), false)
        },
    }
}

proof fn lemma_text_in(p: PatchModel, name: Seq<char>, value: Option<Seq<char>>, other: Seq<char>)
    requires
        good_patch(p),
        plain_name(name),
        effect(p, name) == (None::<Seq<char>>, false),
    ensures
        good_patch(calendar_seal::text_in(p, name, value)),
        effect(calendar_seal::text_in(p, name, value), name) == text_effect(value),
        other != name ==> effect(calendar_seal::text_in(p, name, value), other) == effect(p, other),
{
    if let Some(v) = value {
        if v.len() == 0 {
            lemma_plain_name(name);
            lemma_delete_in(p, name, other);
        } else {
            escape::law_ical_text_round_trip(v);
            let none = Seq::<char>::empty();
            assert(none + ":"@ + written(v) =~= ":"@ + written(v));
            lemma_set_in(p, name, none, written(v), other);
        }
    }
}

proof fn lemma_text_names()
    ensures
        plain_name("SUMMARY"@),
        plain_name("DESCRIPTION"@),
        plain_name("LOCATION"@),
        "SUMMARY"@ != "DESCRIPTION"@,
        "SUMMARY"@ != "LOCATION"@,
        "DESCRIPTION"@ != "LOCATION"@,
        "SUMMARY"@ != "VERSION"@,
        "SUMMARY"@ != "PRODID"@,
        "DESCRIPTION"@ != "VERSION"@,
        "DESCRIPTION"@ != "PRODID"@,
        "LOCATION"@ != "VERSION"@,
        "LOCATION"@ != "PRODID"@,
{
    reveal_strlit("SUMMARY");
    reveal_strlit("DESCRIPTION");
    reveal_strlit("LOCATION");
    reveal_strlit("VERSION");
    reveal_strlit("PRODID");
    assert("SUMMARY"@[0] != "VERSION"@[0]);
    assert("DESCRIPTION"@.len() == 11 && "LOCATION"@.len() == 8 && "PRODID"@.len() == 6);
    assert("SUMMARY"@.len() == 7 && "VERSION"@.len() == 7);
}

proof fn lemma_texts_model(fields: FieldsModel)
    ensures
        good_patch(calendar_seal::texts_model(fields)),
        effect(calendar_seal::texts_model(fields), "SUMMARY"@) == text_effect(fields.summary),
        effect(calendar_seal::texts_model(fields), "DESCRIPTION"@) == text_effect(
            fields.description,
        ),
        effect(calendar_seal::texts_model(fields), "LOCATION"@) == text_effect(fields.location),
{
    lemma_text_names();
    let (s, d, l) = ("SUMMARY"@, "DESCRIPTION"@, "LOCATION"@);
    let p0 = calendar_seal::strip_model();
    lemma_strip(s);
    lemma_strip(d);
    lemma_strip(l);
    let p1 = calendar_seal::text_in(p0, s, fields.summary);
    lemma_text_in(p0, s, fields.summary, d);
    lemma_text_in(p0, s, fields.summary, l);
    let p2 = calendar_seal::text_in(p1, d, fields.description);
    lemma_text_in(p1, d, fields.description, s);
    lemma_text_in(p1, d, fields.description, l);
    lemma_text_in(p2, l, fields.location, s);
    lemma_text_in(p2, l, fields.location, d);
}

/// The patch of the encrypted cards does to any other property what every
/// patch of an update does.
pub proof fn lemma_texts_others(fields: FieldsModel, name: Seq<char>)
    requires
        name != "SUMMARY"@ || fields.summary is None,
        name != "DESCRIPTION"@ || fields.description is None,
        name != "LOCATION"@ || fields.location is None,
    ensures
        good_patch(calendar_seal::texts_model(fields)),
        effect(calendar_seal::texts_model(fields), name) == (
            None::<Seq<char>>,
            name == "VERSION"@ || name == "PRODID"@,
        ),
{
    lemma_text_names();
    let (s, d, l) = ("SUMMARY"@, "DESCRIPTION"@, "LOCATION"@);
    let p0 = calendar_seal::strip_model();
    lemma_strip(s);
    lemma_strip(d);
    lemma_strip(l);
    lemma_strip(name);
    let p1 = calendar_seal::text_in(p0, s, fields.summary);
    lemma_text_in(p0, s, fields.summary, d);
    lemma_text_in(p0, s, fields.summary, l);
    lemma_text_in(p0, s, fields.summary, name);
    let p2 = calendar_seal::text_in(p1, d, fields.description);
    lemma_text_in(p1, d, fields.description, l);
    lemma_text_in(p1, d, fields.description, name);
    lemma_text_in(p2, l, fields.location, name);
}

/// Whether the edit of a text can be read back from a card. A text that is
/// set has something to show once its carriage returns are gone, and no white
/// space at its ends when it is written; where it is left alone or deleted,
/// no component inside the event carries the property.
pub open spec fn readable_edit(card: Seq<char>, name: Seq<char>, value: Option<Seq<char>>) -> bool {
    match value {
        Some(v) => if v.len() == 0 {
            own_only(content_of(card), name)
        } else {
            written(v).len() > 0 && text::trim(written(v)) == written(v)
        },
        None => own_only(content_of(card), name),
    }
}

/// What a property reads as after the edit of a text: as it was, or the text
/// without carriage returns.
pub open spec fn edited_value(was: Seq<char>, value: Option<Seq<char>>) -> Seq<char> {
    match value {
        Some(v) => escape::without_cr(v),
        None => was,
    }
}

proof fn lemma_text_effect_reads_back(
    card: Seq<char>,
    p: PatchModel,
    name: Seq<char>,
    value: Option<Seq<char>>,
)
    requires
        plain_card(card),
        good_patch(p),
        plain_name(name),
        single_valued(name),
        effect(p, name) == text_effect(value),
        readable_edit(card, name, value),
    ensures
        field(ical::event_of(calendar_seal::patched_text(card, p)), name) == edited_value(
            field(ical::event_of(card), name),
            value,
        ),
{
    assert(p.append =~= seq![]);
    match value {
        None => {
            lemma_kept_reads_back(card, p.set, p.delete, name);
        },
        Some(v) => if v.len() == 0 {
            lemma_deleted_reads_back(card, p.set, p.delete, name);
            assert(escape::without_cr(v) =~= Seq::<char>::empty());
        } else {
            let none = Seq::<char>::empty();
            lemma_written_line(name, none, written(v));
            escape::law_ical_text_round_trip(v);
            assert(name + (":"@ + written(v)) =~= name + none + ":"@ + written(v));
            if escape::without_cr(v).len() == 0 {
                assert(written(v) =~= seq![]);
            }
            lemma_set_reads_back(card, p.set, p.delete, name, escape::without_cr(v));
        },
    }
}

/// The edit of texts reads back: of the patched card, title, description and
/// location are the edited ones, without carriage returns, and those that the
/// edit leaves alone are as they were.
pub proof fn law_text_edit_reads_back(card: Seq<char>, fields: FieldsModel)
    requires
        plain_card(card),
        readable_edit(card, "SUMMARY"@, fields.summary),
        readable_edit(card, "DESCRIPTION"@, fields.description),
        readable_edit(card, "LOCATION"@, fields.location),
    ensures
        ({
            let was = ical::event_of(card);
            let is = ical::event_of(
                calendar_seal::patched_text(card, calendar_seal::texts_model(fields)),
            );
            &&& is.summary == edited_value(was.summary, fields.summary)
            &&& is.description == edited_value(was.description, fields.description)
            &&& is.location == edited_value(was.location, fields.location)
        }),
{
    let p = calendar_seal::texts_model(fields);
    lemma_text_names();
    lemma_texts_model(fields);
    lemma_text_effect_reads_back(card, p, "SUMMARY"@, fields.summary);
    lemma_text_effect_reads_back(card, p, "DESCRIPTION"@, fields.description);
    lemma_text_effect_reads_back(card, p, "LOCATION"@, fields.location);
    reveal_strlit("UID");
    reveal_strlit("SUMMARY");
    reveal_strlit("DESCRIPTION");
    reveal_strlit("LOCATION");
    assert("UID"@.len() == 3 && "SUMMARY"@.len() == 7);
    assert("DESCRIPTION"@.len() == 11 && "LOCATION"@.len() == 8);
}

// ---------------------------------------------------------------------
// Edits of times
// ---------------------------------------------------------------------

/// The value of a date property or of a date-time property.
pub open spec fn stamp(c: Civil, all_day: bool) -> Seq<char> {
    if all_day {
        dates::date_text(c)
    } else {
        dates::date_text(c) + "T"@ + dates::time_text(c) + "Z"@
    }
}

/// What stands between the name of a date property and its value.
pub open spec fn stamp_params(all_day: bool) -> Seq<char> {
    if all_day {
        ";VALUE=DATE"@
    } else {
        seq![]
    }
}

/// Characters of dates and numbers.
pub open spec fn stamp_chars(s: Seq<char>) -> bool {
    forall|i: int|
        0 <= i < s.len() ==> numbers::is_digit(#[trigger] s[i]) || s[i] == '-' || s[i] == '+'
            || s[i] == 'T' || s[i] == 'Z'
}

proof fn lemma_stamp_concat(a: Seq<char>, b: Seq<char>)
    requires
        stamp_chars(a),
        stamp_chars(b),
    ensures
        stamp_chars(a + b),
{
    assert forall|i: int| 0 <= i < (a + b).len() implies numbers::is_digit(#[trigger] (a + b)[i])
        || (a + b)[i] == '-' || (a + b)[i] == '+' || (a + b)[i] == 'T' || (a + b)[i] == 'Z' by {
        if i < a.len() {
            assert((a + b)[i] == a[i]);
        } else {
            assert((a + b)[i] == b[i - a.len()]);
        }
    }
}

proof fn lemma_padded(n: nat, width: int)
    ensures
        stamp_chars(numbers::padded(n, width)),
        numbers::padded(n, width).len() > 0,
{
    numbers::law_decimal_reads_back(n);
    lemma_stamp_concat(numbers::zeros(width - numbers::decimal(n).len()), numbers::decimal(n));
}

proof fn lemma_stamp(c: Civil, all_day: bool)
    ensures
        stamp_chars(stamp(c, all_day)),
        stamp(c, all_day).len() > 0,
{
    reveal_strlit("T");
    reveal_strlit("Z");
    let y = c.year as int;
    lemma_padded((-y) as nat, 4);
    lemma_padded(y as nat, 4);
    lemma_stamp_concat(seq!['-'], numbers::padded((-y) as nat, 4));
    lemma_stamp_concat(seq!['+'], numbers::padded(y as nat, 4));
    lemma_padded(c.month as nat, 2);
    lemma_padded(c.day as nat, 2);
    lemma_padded(c.hour as nat, 2);
    lemma_padded(c.minute as nat, 2);
    lemma_padded(c.second as nat, 2);
    let (m, d) = (numbers::padded(c.month as nat, 2), numbers::padded(c.day as nat, 2));
    lemma_stamp_concat(dates::year_text(y), m);
    lemma_stamp_concat(dates::year_text(y) + m, d);
    let (h, i, s) = (
        numbers::padded(c.hour as nat, 2),
        numbers::padded(c.minute as nat, 2),
        numbers::padded(c.second as nat, 2),
    );
    lemma_stamp_concat(h, i);
    lemma_stamp_concat(h + i, s);
    lemma_stamp_concat(dates::date_text(c), "T"@);
    lemma_stamp_concat(dates::date_text(c) + "T"@, dates::time_text(c));
    lemma_stamp_concat(dates::date_text(c) + "T"@ + dates::time_text(c), "Z"@);
}

/// Dates and numbers are written as they are.
proof fn lemma_stamp_text(s: Seq<char>)
    requires
        stamp_chars(s),
    ensures
        lines::one_line(s),
        s.len() > 0 ==> text::trim(s) == s,
        escape::unescape(s) == s,
    decreases s.len(),
{
    if s.len() > 0 {
        assert(numbers::is_digit(s[0]) || s[0] == '-' || s[0] == '+' || s[0] == 'T' || s[0]
            == 'Z');
        assert(!text::is_white(s[s.len() - 1]));
        lemma_trimmed(s);
        let t = s.skip(1);
        assert forall|i: int| 0 <= i < t.len() implies numbers::is_digit(#[trigger] t[i]) || t[i]
            == '-' || t[i] == '+' || t[i] == 'T' || t[i] == 'Z' by {
            assert(t[i] == s[i + 1]);
        }
        lemma_stamp_text(t);
        assert(s =~= seq![s[0]] + t);
    } else {
        assert(escape::unescape(s) =~= s);
    }
}

/// The body of a date is made of its parameters and its value.
proof fn lemma_stamp_body(unix: int, all_day: bool)
    requires
        dates::has_date(unix),
    ensures
        dates::ical_dt_body(unix, all_day) == Some(
            stamp_params(all_day) + ":"@ + stamp(dates::civil_at(unix), all_day),
        ),
        plain_params(stamp_params(all_day)),
        lines::one_line(stamp_params(all_day)),
{
    reveal_strlit(";VALUE=DATE:");
    reveal_strlit(";VALUE=DATE");
    reveal_strlit(":");
    let c = dates::civil_at(unix);
    assert(";VALUE=DATE:"@ =~= ";VALUE=DATE"@ + ":"@);
    assert(dates::date_body(c) =~= ";VALUE=DATE"@ + ":"@ + dates::date_text(c));
    assert(dates::date_time_body(c) =~= Seq::<char>::empty() + ":"@ + stamp(c, false));
}

proof fn lemma_time_names()
    ensures
        plain_name("DTSTART"@),
        plain_name("DTEND"@),
        plain_name("RRULE"@),
        plain_name("SEQUENCE"@),
        text::uppercase("EXDATE"@) == "EXDATE"@,
        "DTSTART"@.len() == 7,
        "DTEND"@.len() == 5,
        "RRULE"@.len() == 5,
        "SEQUENCE"@.len() == 8,
        "EXDATE"@.len() == 6,
        "VERSION"@.len() == 7,
        "PRODID"@.len() == 6,
        "DTEND"@ != "RRULE"@,
        "DTSTART"@ != "VERSION"@,
        single_valued("DTSTART"@),
        single_valued("DTEND"@),
        single_valued("RRULE"@),
        single_valued("SEQUENCE"@),
{
    reveal_strlit("DTSTART");
    reveal_strlit("DTEND");
    reveal_strlit("RRULE");
    reveal_strlit("SEQUENCE");
    reveal_strlit("EXDATE");
    reveal_strlit("VERSION");
    reveal_strlit("PRODID");
    assert("DTEND"@[0] != "RRULE"@[0]);
    assert("DTSTART"@[0] != "VERSION"@[0]);
    assert(text::ascii_uppercase("EXDATE"@) =~= "EXDATE"@);
}

/// A recurrence rule as it can be written in a line: not empty, on one line,
/// with no white space at its ends.
pub open spec fn plain_rule(r: Seq<char>) -> bool {
    r.len() > 0 && lines::one_line(r) && text::trim(r) == r
}

/// What an edit does to the properties of the signed card: their bodies
/// where they are set, and whether they are deleted.
pub open spec fn time_effect(
    row: EventModel,
    fields: FieldsModel,
    shared: Seq<Seq<char>>,
    name: Seq<char>,
) -> (Option<Seq<char>>, bool) {
    let all_day = calendar_seal::is_all_day(row, fields);
    if name == "DTSTART"@ {
        (
            match fields.start {
                Some(s) => dates::ical_dt_body(s as int, all_day),
                None => None,
            },
            false,
        )
    } else if name == "DTEND"@ {
        (
            match fields.end {
                Some(e) => calendar_seal::end_body(e as int, all_day),
                None => None,
            },
            false,
        )
    } else if name == "RRULE"@ {
        match fields.rrule {
            Some(Some(r)) => (Some(":"@ + r), false),
            Some(None) => (None, !fields.has_recurrence),
            None => (None, false),
        }
    } else {
        (
            if calendar_seal::times_change(row, fields) || calendar_seal::rule_changes(row, fields) {
                Some(
                    ":"@ + numbers::signed_decimal(
                        calendar_write::next_sequence_of(
                            calendar_seal::max_sequence_of(shared),
                            true,
                        ),
                    ),
                )
            } else {
                None
            },
            false,
        )
    }
}

/// A patch with a date set, where there is one.
proof fn lemma_set_stamp(
    p: PatchModel,
    name: Seq<char>,
    unix: int,
    all_day: bool,
    other: Seq<char>,
)
    requires
        good_patch(p),
        plain_name(name),
    ensures
        good_patch(calendar_seal::set_in(p, name, dates::ical_dt_body(unix, all_day))),
        effect(calendar_seal::set_in(p, name, dates::ical_dt_body(unix, all_day)), name) == (
            match dates::ical_dt_body(unix, all_day) {
                Some(b) => Some(b),
                None => ordered::lookup(p.set, name),
            },
            calendar_write::deletes(p.delete, name),
        ),
        other != name ==> effect(
            calendar_seal::set_in(p, name, dates::ical_dt_body(unix, all_day)),
            other,
        ) == effect(p, other),
{
    if dates::has_date(unix) {
        let c = dates::civil_at(unix);
        lemma_stamp_body(unix, all_day);
        lemma_stamp(c, all_day);
        lemma_stamp_text(stamp(c, all_day));
        lemma_set_in(p, name, stamp_params(all_day), stamp(c, all_day), other);
    }
}

proof fn lemma_signed_decimal(n: int)
    requires
        n >= 0,
    ensures
        stamp_chars(numbers::signed_decimal(n)),
        numbers::signed_decimal(n).len() > 0,
        numbers::signed_value(numbers::signed_decimal(n)) == Some(n),
{
    numbers::law_decimal_reads_back(n as nat);
    let d = numbers::decimal(n as nat);
    assert(numbers::is_digit(d[0]));
}

#[verifier::rlimit(40)]
proof fn lemma_signed_model(
    row: EventModel,
    fields: FieldsModel,
    shared: Seq<Seq<char>>,
    name: Seq<char>,
)
    requires
        fields.rrule matches Some(Some(r)) ==> lines::one_line(r),
        name == "DTSTART"@ || name == "DTEND"@ || name == "RRULE"@ || name == "SEQUENCE"@,
    ensures
        good_patch(calendar_seal::signed_model(row, fields, shared)),
        effect(calendar_seal::signed_model(row, fields, shared), name) == time_effect(
            row,
            fields,
            shared,
            name,
        ),
{
    lemma_time_names();
    lemma_strip(name);
    let all_day = calendar_seal::is_all_day(row, fields);
    let none = Seq::<char>::empty();
    let p0 = calendar_seal::strip_model();
    assert(effect(p0, name) == (None::<Seq<char>>, false));
    let p1 = match fields.start {
        Some(s) => calendar_seal::set_in(p0, "DTSTART"@, dates::ical_dt_body(s as int, all_day)),
        None => p0,
    };
    if let Some(s) = fields.start {
        lemma_set_stamp(p0, "DTSTART"@, s as int, all_day, name);
    }
    let p2 = match fields.end {
        Some(e) => calendar_seal::set_in(
            p1,
            "DTEND"@,
            calendar_seal::end_body(e as int, all_day),
        ),
        None => p1,
    };
    if let Some(e) = fields.end {
        if !all_day {
            lemma_set_stamp(p1, "DTEND"@, e as int, false, name);
        } else if dates::has_date(e as int) {
            lemma_set_stamp(p1, "DTEND"@, e + 86400, true, name);
        }
    }
    let p3 = match fields.rrule {
        None => p2,
        Some(None) => if fields.has_recurrence {
            p2
        } else {
            calendar_seal::delete_in(calendar_seal::delete_in(p2, "RRULE"@), "EXDATE"@)
        },
        Some(Some(r)) => calendar_seal::set_in(p2, "RRULE"@, Some(":"@ + r)),
    };
    match fields.rrule {
        None => {},
        Some(None) => {
            if !fields.has_recurrence {
                lemma_plain_name("RRULE"@);
                lemma_delete_in(p2, "RRULE"@, name);
                lemma_delete_in(calendar_seal::delete_in(p2, "RRULE"@), "EXDATE"@, name);
            }
        },
        Some(Some(r)) => {
            assert(none + ":"@ + r =~= ":"@ + r);
            lemma_set_in(p2, "RRULE"@, none, r, name);
        },
    }
    let n = calendar_write::next_sequence_of(calendar_seal::max_sequence_of(shared), true);
    if calendar_seal::times_change(row, fields) || calendar_seal::rule_changes(row, fields) {
        assert(n >= 0);
        lemma_signed_decimal(n);
        lemma_stamp_text(numbers::signed_decimal(n));
        assert(none + ":"@ + numbers::signed_decimal(n) =~= ":"@ + numbers::signed_decimal(n));
        lemma_set_in(p3, "SEQUENCE"@, none, numbers::signed_decimal(n), name);
    }
}

proof fn lemma_largest_sequence(cards: Seq<Seq<char>>)
    ensures
        calendar_seal::largest_sequence(cards) matches Some(n) ==> i64::MIN <= n <= i64::MAX,
    decreases cards.len(),
{
    if cards.len() > 0 {
        lemma_largest_sequence(cards.drop_last());
    }
}

/// A property that a patch sets to a text of dates and numbers reads back as
/// that text.
proof fn lemma_stamp_reads_back(
    card: Seq<char>,
    p: PatchModel,
    name: Seq<char>,
    params: Seq<char>,
    value: Seq<char>,
)
    requires
        plain_card(card),
        good_patch(p),
        plain_name(name),
        single_valued(name),
        plain_params(params),
        stamp_chars(value),
        value.len() > 0,
        effect(p, name) == (Some(params + ":"@ + value), false),
    ensures
        field(ical::event_of(calendar_seal::patched_text(card, p)), name) == value,
{
    lemma_stamp_text(value);
    lemma_written_line(name, params, value);
    assert(name + (params + ":"@ + value) =~= name + params + ":"@ + value);
    assert(p.append =~= seq![]);
    lemma_set_reads_back(card, p.set, p.delete, name, value);
}

/// The edit of times reads back: of the patched signed card, start and end are
/// the edited ones, as dates for an event of whole days and as times in UTC
/// for any other; the recurrence rule is the edited one or gone. An edit that
/// moves the event or changes the rule takes the sequence number one above
/// the largest that the row had; any other leaves it as it was.
pub proof fn law_time_edit_reads_back(
    card: Seq<char>,
    row: EventModel,
    fields: FieldsModel,
    shared: Seq<Seq<char>>,
)
    requires
        plain_card(card),
        fields.rrule matches Some(Some(r)) ==> plain_rule(r),
        own_only(content_of(card), "RRULE"@),
        own_only(content_of(card), "SEQUENCE"@),
    ensures
        ({
            let was = ical::event_of(card);
            let text = calendar_seal::patched_text(
                card,
                calendar_seal::signed_model(row, fields, shared),
            );
            let is = ical::event_of(text);
            let all_day = calendar_seal::is_all_day(row, fields);
            let changes = calendar_seal::times_change(row, fields) || calendar_seal::rule_changes(
                row,
                fields,
            );
            &&& fields.start matches Some(s) ==> dates::has_date(s as int) ==> is.dtstart == stamp(
                dates::civil_at(s as int),
                all_day,
            )
            &&& fields.end matches Some(e) ==> !all_day ==> dates::has_date(e as int) ==> is.dtend
                == stamp(dates::civil_at(e as int), false)
            &&& fields.end matches Some(e) ==> all_day ==> dates::has_date(e as int)
                ==> dates::has_date(e + 86400) ==> is.dtend == stamp(
                dates::civil_at(e + 86400),
                true,
            )
            &&& is.rrule == (match fields.rrule {
                Some(Some(r)) => escape::unescape(r),
                Some(None) => if fields.has_recurrence {
                    was.rrule
                } else {
                    seq![]
                },
                None => was.rrule,
            })
            &&& changes ==> calendar_seal::sequence_of(text) == Some(
                calendar_write::next_sequence_of(calendar_seal::max_sequence_of(shared), true),
            )
            &&& !changes ==> is.sequence == was.sequence
        }),
{
    let p = calendar_seal::signed_model(row, fields, shared);
    let all_day = calendar_seal::is_all_day(row, fields);
    let text = calendar_seal::patched_text(card, p);
    let none = Seq::<char>::empty();
    lemma_time_names();
    lemma_field_names();
    lemma_signed_model(row, fields, shared, "DTSTART"@);
    lemma_signed_model(row, fields, shared, "DTEND"@);
    lemma_signed_model(row, fields, shared, "RRULE"@);
    lemma_signed_model(row, fields, shared, "SEQUENCE"@);
    assert(p.append =~= seq![]);
    if let Some(s) = fields.start {
        if dates::has_date(s as int) {
            let c = dates::civil_at(s as int);
            lemma_stamp_body(s as int, all_day);
            lemma_stamp(c, all_day);
            lemma_stamp_reads_back(card, p, "DTSTART"@, stamp_params(all_day), stamp(c, all_day));
        }
    }
    if let Some(e) = fields.end {
        let t = if all_day {
            e + 86400
        } else {
            e as int
        };
        if dates::has_date(e as int) && dates::has_date(t) {
            let c = dates::civil_at(t);
            lemma_stamp_body(t, all_day);
            lemma_stamp(c, all_day);
            lemma_stamp_reads_back(card, p, "DTEND"@, stamp_params(all_day), stamp(c, all_day));
        }
    }
    match fields.rrule {
        Some(Some(r)) => {
            lemma_written_line("RRULE"@, none, r);
            assert("RRULE"@ + (":"@ + r) =~= "RRULE"@ + none + ":"@ + r);
            lemma_unescape_length(r);
            lemma_set_reads_back(card, p.set, p.delete, "RRULE"@, escape::unescape(r));
        },
        Some(None) => {
            if fields.has_recurrence {
                lemma_kept_reads_back(card, p.set, p.delete, "RRULE"@);
            } else {
                lemma_deleted_reads_back(card, p.set, p.delete, "RRULE"@);
            }
        },
        None => {
            lemma_kept_reads_back(card, p.set, p.delete, "RRULE"@);
        },
    }
    let n = calendar_write::next_sequence_of(calendar_seal::max_sequence_of(shared), true);
    if calendar_seal::times_change(row, fields) || calendar_seal::rule_changes(row, fields) {
        let d = numbers::signed_decimal(n);
        lemma_largest_sequence(shared);
        lemma_signed_decimal(n);
        lemma_stamp_text(d);
        assert(none + ":"@ + d =~= ":"@ + d);
        lemma_stamp_reads_back(card, p, "SEQUENCE"@, none, d);
    } else {
        lemma_kept_reads_back(card, p.set, p.delete, "SEQUENCE"@);
    }
}

/// The names of the single-valued properties differ.
proof fn lemma_field_names()
    ensures
        forall|ev: Event|
            #![trigger field(ev, "DTSTART"@)]
            field(ev, "DTSTART"@) == ev.dtstart,
        forall|ev: Event| #![trigger field(ev, "DTEND"@)] field(ev, "DTEND"@) == ev.dtend,
        forall|ev: Event| #![trigger field(ev, "RRULE"@)] field(ev, "RRULE"@) == ev.rrule,
        forall|ev: Event|
            #![trigger field(ev, "SEQUENCE"@)]
            field(ev, "SEQUENCE"@) == ev.sequence,
{
    reveal_strlit("UID");
    reveal_strlit("SUMMARY");
    reveal_strlit("DESCRIPTION");
    reveal_strlit("LOCATION");
    reveal_strlit("DTSTART");
    reveal_strlit("DTEND");
    reveal_strlit("DTSTAMP");
    reveal_strlit("CREATED");
    reveal_strlit("RRULE");
    reveal_strlit("SEQUENCE");
    assert("UID"@.len() == 3);
    assert("SUMMARY"@.len() == 7 && "SUMMARY"@[0] == 'S');
    assert("DESCRIPTION"@.len() == 11);
    assert("LOCATION"@.len() == 8 && "LOCATION"@[0] == 'L');
    assert("DTSTART"@.len() == 7 && "DTSTART"@[0] == 'D' && "DTSTART"@[5] == 'R');
    assert("DTEND"@.len() == 5 && "DTEND"@[0] == 'D');
    assert("DTSTAMP"@.len() == 7 && "DTSTAMP"@[5] == 'M');
    assert("CREATED"@.len() == 7 && "CREATED"@[0] == 'C');
    assert("RRULE"@.len() == 5 && "RRULE"@[0] == 'R');
    assert("SEQUENCE"@.len() == 8 && "SEQUENCE"@[0] == 'S');
}

proof fn lemma_unescape_length(s: Seq<char>)
    requires
        s.len() > 0,
    ensures
        escape::unescape(s).len() > 0,
{
}

// ---------------------------------------------------------------------
// New events
// ---------------------------------------------------------------------

/// A line that a card of its own keeps as a property: a content line that is
/// not blank and does not read as the start or the end of a component.
pub open spec fn own_line(line: Seq<char>) -> bool {
    &&& calendar_write::content_line(line)
    &&& text::trim(line).len() > 0
    &&& !calendar_write::is_wrapper(text::uppercase(line))
    &&& !text::starts_with(text::uppercase(line), "BEGIN:"@)
}

pub open spec fn own_lines(l: Seq<Seq<char>>) -> bool {
    forall|i: int| 0 <= i < l.len() ==> own_line(#[trigger] l[i])
}

proof fn lemma_own_sections(l: Seq<Seq<char>>, i: int)
    requires
        0 <= i <= l.len(),
        own_lines(l),
    ensures
        calendar_write::sections_from(l, i) == (calendar_write::Sections {
            props: l.skip(i),
            blocks: seq![],
        }),
    decreases l.len() - i,
{
    if i < l.len() {
        assert(own_line(l[i]));
        lemma_own_sections(l, i + 1);
        assert(l.skip(i) =~= seq![l[i]] + l.skip(i + 1));
    } else {
        assert(l.skip(i) =~= seq![]);
    }
}

/// A card made of lines of its own reads as these lines.
proof fn lemma_fragment_reads(inner: Seq<Seq<char>>, name: Seq<char>)
    requires
        inner.len() > 0,
        own_lines(inner),
        single_valued(name),
        name.len() > 0,
    ensures
        field(ical::event_of(calendar_seal::fragment(inner)), name) == first_said(inner, name),
{
    let card = text::join(inner, "\n"@);
    assert forall|i: int| 0 <= i < inner.len() implies lines::one_line(#[trigger] inner[i])
        && !lines::is_continuation(inner[i]) by {
        assert(own_line(inner[i]));
    }
    lines::lemma_card_lines_lf(inner);
    lines::lemma_unfold_plain(inner);
    assert(content_of(card) == inner);
    assert forall|i: int| 0 <= i < content_of(card).len() implies !lines::is_continuation(
        #[trigger] lines::unfold(lines::card_lines(card))[i],
    ) by {
        assert(own_line(inner[i]));
    }
    lemma_own_sections(inner, 0);
    assert(inner.skip(0) =~= inner);
    let set = Seq::<(Seq<char>, Seq<char>)>::empty();
    let delete = Seq::<Seq<char>>::empty();
    assert forall|i: int|
        0 <= i < inner.len() && (calendar_write::is_wrapper(text::uppercase(#[trigger] inner[i]))
            || text::trim(inner[i]).len() == 0) implies says(inner[i], name) is None by {
        assert(own_line(inner[i]));
    }
    lemma_kept_reads_back(card, set, delete, name);
    lemma_plain_card_reads(card, name);
    assert(set =~= seq![]);
    assert(delete =~= seq![]);
}

/// A written line says nothing of another property.
proof fn lemma_other_silent(
    name: Seq<char>,
    params: Seq<char>,
    value: Seq<char>,
    other: Seq<char>,
)
    requires
        plain_name(name),
        plain_params(params),
        other.len() > 0,
        other != name,
    ensures
        says(name + params + ":"@ + value, other) is None,
{
    lemma_written_name(name, params, value);
    if says(name + params + ":"@ + value, other) is Some {
        lemma_said_name(name + params + ":"@ + value, other);
    }
}

/// The value of a property among lines of which one carries it.
proof fn lemma_said_at(l: Seq<Seq<char>>, k: int, name: Seq<char>, value: Seq<char>)
    requires
        0 <= k < l.len(),
        says(l[k], name) == Some(value),
        value.len() > 0,
        forall|i: int| 0 <= i < l.len() && i != k ==> says(#[trigger] l[i], name) is None,
    ensures
        first_said(l, name) == value,
{
    lemma_one_line_said(l, l[k], name, value);
    assert(l.contains(l[k]));
}

/// What the text of a new event reads as.
pub open spec fn new_value(value: Option<Seq<char>>) -> Seq<char> {
    match value {
        Some(v) => escape::without_cr(v),
        None => seq![],
    }
}

/// A text that is empty, or that has something to show once its carriage
/// returns are gone and no white space at its ends when it is written.
pub open spec fn readable_text(value: Option<Seq<char>>) -> bool {
    value matches Some(v) ==> v.len() == 0 || written(v).len() > 0 && text::trim(written(v))
        == written(v)
}

proof fn lemma_text_line(
    head: Seq<char>,
    name: Seq<char>,
    value: Option<Seq<char>>,
    other: Seq<char>,
)
    requires
        plain_name(name),
        head == name + ":"@,
        readable_text(value),
        other.len() > 0,
    ensures
        first_said(calendar_seal::text_line(head, value), name) == new_value(value),
        other != name ==> first_said(calendar_seal::text_line(head, value), other) == Seq::<
            char,
        >::empty(),
{
    let l = calendar_seal::text_line(head, value);
    let none = Seq::<char>::empty();
    if let Some(v) = value {
        if v.len() > 0 {
            let line = head + written(v);
            assert(line =~= name + none + ":"@ + written(v));
            lemma_written_line(name, none, written(v));
            escape::law_ical_text_round_trip(v);
            if escape::without_cr(v).len() == 0 {
                assert(written(v) =~= seq![]);
            }
            lemma_said_at(l, 0, name, escape::without_cr(v));
            if other != name {
                lemma_other_silent(name, none, written(v), other);
                lemma_silent(l, other);
            }
        } else {
            assert(escape::without_cr(v) =~= seq![]);
        }
    }
}

/// The lines of the encrypted card of a new event.
pub open spec fn new_text_lines(fields: FieldsModel, uid: Seq<char>) -> Seq<Seq<char>> {
    seq!["UID:"@ + uid] + calendar_seal::text_line("SUMMARY:"@, fields.summary)
        + calendar_seal::text_line("DESCRIPTION:"@, fields.description)
        + calendar_seal::text_line("LOCATION:"@, fields.location)
}

proof fn lemma_first_of_none(s: Seq<char>)
    ensures
        ical::first_of(s, Seq::empty()) == s,
        ical::first_of(Seq::empty(), s) == s,
{
    if s.len() == 0 {
        assert(s =~= Seq::empty());
    }
}

proof fn lemma_new_texts_read_back(fields: FieldsModel, uid: Seq<char>)
    requires
        own_lines(new_text_lines(fields, uid)),
        readable_text(fields.summary),
        readable_text(fields.description),
        readable_text(fields.location),
    ensures
        ({
            let ev = ical::event_of(calendar_seal::fragment(new_text_lines(fields, uid)));
            &&& ev.summary == new_value(fields.summary)
            &&& ev.description == new_value(fields.description)
            &&& ev.location == new_value(fields.location)
        }),
{
    reveal_strlit("UID");
    reveal_strlit("UID:");
    reveal_strlit(":");
    reveal_strlit("SUMMARY:");
    reveal_strlit("DESCRIPTION:");
    reveal_strlit("LOCATION:");
    reveal_strlit("SUMMARY");
    reveal_strlit("DESCRIPTION");
    reveal_strlit("LOCATION");
    lemma_text_names();
    assert("UID:"@ =~= "UID"@ + ":"@);
    assert("SUMMARY:"@ =~= "SUMMARY"@ + ":"@);
    assert("DESCRIPTION:"@ =~= "DESCRIPTION"@ + ":"@);
    assert("LOCATION:"@ =~= "LOCATION"@ + ":"@);
    assert("UID"@.len() == 3 && "SUMMARY"@.len() == 7);
    assert("DESCRIPTION"@.len() == 11 && "LOCATION"@.len() == 8);
    let l = new_text_lines(fields, uid);
    assert(l.len() > 0);
    lemma_fragment_reads(l, "SUMMARY"@);
    lemma_fragment_reads(l, "DESCRIPTION"@);
    lemma_fragment_reads(l, "LOCATION"@);
    lemma_new_text(fields, uid, "SUMMARY"@);
    lemma_new_text(fields, uid, "DESCRIPTION"@);
    lemma_new_text(fields, uid, "LOCATION"@);
}

proof fn lemma_new_text(fields: FieldsModel, uid: Seq<char>, name: Seq<char>)
    requires
        readable_text(fields.summary),
        readable_text(fields.description),
        readable_text(fields.location),
        name == "SUMMARY"@ || name == "DESCRIPTION"@ || name == "LOCATION"@,
    ensures
        first_said(new_text_lines(fields, uid), name) == (if name == "SUMMARY"@ {
            new_value(fields.summary)
        } else if name == "DESCRIPTION"@ {
            new_value(fields.description)
        } else {
            new_value(fields.location)
        }),
{
    reveal_strlit("UID");
    reveal_strlit("UID:");
    reveal_strlit(":");
    reveal_strlit("SUMMARY:");
    reveal_strlit("DESCRIPTION:");
    reveal_strlit("LOCATION:");
    reveal_strlit("SUMMARY");
    reveal_strlit("DESCRIPTION");
    reveal_strlit("LOCATION");
    lemma_text_names();
    assert("SUMMARY:"@ =~= "SUMMARY"@ + ":"@);
    assert("DESCRIPTION:"@ =~= "DESCRIPTION"@ + ":"@);
    assert("LOCATION:"@ =~= "LOCATION"@ + ":"@);
    assert("UID"@.len() == 3 && "SUMMARY"@.len() == 7);
    assert("DESCRIPTION"@.len() == 11 && "LOCATION"@.len() == 8);
    let none = Seq::<char>::empty();
    let a = seq!["UID:"@ + uid];
    let b = calendar_seal::text_line("SUMMARY:"@, fields.summary);
    let c = calendar_seal::text_line("DESCRIPTION:"@, fields.description);
    let d = calendar_seal::text_line("LOCATION:"@, fields.location);
    assert("UID:"@ + uid =~= "UID"@ + none + ":"@ + uid);
    assert(plain_name("UID"@));
    lemma_other_silent("UID"@, none, uid, name);
    lemma_silent(a, name);
    lemma_text_line("SUMMARY:"@, "SUMMARY"@, fields.summary, name);
    lemma_text_line("DESCRIPTION:"@, "DESCRIPTION"@, fields.description, name);
    lemma_text_line("LOCATION:"@, "LOCATION"@, fields.location, name);
    lemma_first_said_concat(a, b, name);
    lemma_first_said_concat(a + b, c, name);
    lemma_first_said_concat(a + b + c, d, name);
    lemma_first_of_none(first_said(b, name));
    lemma_first_of_none(first_said(c, name));
    lemma_first_of_none(first_said(d, name));
}

/// The lines of the signed card of a new event.
pub open spec fn new_time_lines(
    uid: Seq<char>,
    stamp_body: Seq<char>,
    start_body: Seq<char>,
    end_body: Seq<char>,
    rule: Option<Seq<char>>,
) -> Seq<Seq<char>> {
    seq!["UID:"@ + uid, "DTSTAMP"@ + stamp_body, "DTSTART"@ + start_body, "DTEND"@ + end_body]
        + (match rule {
        Some(r) => seq!["RRULE:"@ + r],
        None => seq![],
    }) + seq!["SEQUENCE:0"@]
}

/// A property name and what a line of the signed card of a new event has for
/// it.
pub open spec fn new_time(
    name: Seq<char>,
    uid: Seq<char>,
    start: Seq<char>,
    end: Seq<char>,
    rule: Option<Seq<char>>,
) -> Seq<char> {
    if name == "UID"@ {
        escape::unescape(uid)
    } else if name == "DTSTART"@ {
        start
    } else if name == "DTEND"@ {
        end
    } else if name == "RRULE"@ {
        match rule {
            Some(r) => escape::unescape(r),
            None => seq![],
        }
    } else {
        "0"@
    }
}

/// Whether a body is that of a date or a time.
pub open spec fn stamp_body(body: Seq<char>, params: Seq<char>, value: Seq<char>) -> bool {
    &&& body == params + ":"@ + value
    &&& plain_params(params)
    &&& stamp_chars(value)
    &&& value.len() > 0
}

proof fn lemma_said_stamp(
    name: Seq<char>,
    body: Seq<char>,
    params: Seq<char>,
    value: Seq<char>,
    other: Seq<char>,
)
    requires
        plain_name(name),
        stamp_body(body, params, value),
        other.len() > 0,
    ensures
        says(name + body, other) == (if other == name {
            Some(value)
        } else {
            None
        }),
{
    assert(name + body =~= name + params + ":"@ + value);
    lemma_stamp_text(value);
    lemma_written_line(name, params, value);
    if other != name {
        lemma_other_silent(name, params, value, other);
    }
}

proof fn lemma_said_text(
    head: Seq<char>,
    name: Seq<char>,
    value: Seq<char>,
    other: Seq<char>,
)
    requires
        plain_name(name),
        head == name + ":"@,
        value.len() > 0,
        text::trim(value) == value,
        other.len() > 0,
    ensures
        says(head + value, other) == (if other == name {
            Some(escape::unescape(value))
        } else {
            None
        }),
{
    let none = Seq::<char>::empty();
    assert(head + value =~= name + none + ":"@ + value);
    lemma_written_line(name, none, value);
    if other != name {
        lemma_other_silent(name, none, value, other);
    }
}

#[verifier::rlimit(60)]
proof fn lemma_new_time(
    uid: Seq<char>,
    now: (Seq<char>, Seq<char>),
    start: (Seq<char>, Seq<char>),
    end: (Seq<char>, Seq<char>),
    rule: Option<Seq<char>>,
    name: Seq<char>,
)
    requires
        uid.len() > 0,
        text::trim(uid) == uid,
        rule matches Some(r) ==> plain_rule(r),
        stamp_body(now.0 + ":"@ + now.1, now.0, now.1),
        stamp_body(start.0 + ":"@ + start.1, start.0, start.1),
        stamp_body(end.0 + ":"@ + end.1, end.0, end.1),
        name == "UID"@ || name == "DTSTART"@ || name == "DTEND"@ || name == "RRULE"@ || name
            == "SEQUENCE"@,
    ensures
        first_said(
            new_time_lines(
                uid,
                now.0 + ":"@ + now.1,
                start.0 + ":"@ + start.1,
                end.0 + ":"@ + end.1,
                rule,
            ),
            name,
        ) == new_time(name, uid, start.1, end.1, rule),
{
    let none = Seq::<char>::empty();
    let l = new_time_lines(
        uid,
        now.0 + ":"@ + now.1,
        start.0 + ":"@ + start.1,
        end.0 + ":"@ + end.1,
        rule,
    );
    lemma_time_names();
    lemma_new_names();
    reveal_strlit("0");
    assert("SEQUENCE:0"@ =~= "SEQUENCE"@ + (none + ":"@ + "0"@)) by {
        reveal_strlit("SEQUENCE:0");
        reveal_strlit("SEQUENCE");
        reveal_strlit(":");
    }
    lemma_said_text("UID:"@, "UID"@, uid, name);
    lemma_said_stamp("DTSTAMP"@, now.0 + ":"@ + now.1, now.0, now.1, name);
    lemma_said_stamp("DTSTART"@, start.0 + ":"@ + start.1, start.0, start.1, name);
    lemma_said_stamp("DTEND"@, end.0 + ":"@ + end.1, end.0, end.1, name);
    lemma_said_stamp("SEQUENCE"@, none + ":"@ + "0"@, none, "0"@, name);
    lemma_unescape_length(uid);
    let n = l.len() as int;
    assert(says(l[0], name) == (if name == "UID"@ {
        Some(escape::unescape(uid))
    } else {
        None
    }));
    assert(says(l[1], name) is None);
    assert(says(l[2], name) == (if name == "DTSTART"@ {
        Some(start.1)
    } else {
        None
    }));
    assert(says(l[3], name) == (if name == "DTEND"@ {
        Some(end.1)
    } else {
        None
    }));
    assert(says(l[n - 1], name) == (if name == "SEQUENCE"@ {
        Some("0"@)
    } else {
        None
    }));
    if let Some(r) = rule {
        lemma_said_text("RRULE:"@, "RRULE"@, r, name);
        lemma_unescape_length(r);
        assert(l[4] == "RRULE:"@ + r);
        assert(n == 6);
    } else {
        assert(n == 5);
    }
    if name == "UID"@ {
        lemma_said_at(l, 0, name, escape::unescape(uid));
    } else if name == "DTSTART"@ {
        lemma_said_at(l, 2, name, start.1);
    } else if name == "DTEND"@ {
        lemma_said_at(l, 3, name, end.1);
    } else if name == "RRULE"@ {
        if let Some(r) = rule {
            lemma_said_at(l, 4, name, escape::unescape(r));
        } else {
            lemma_silent(l, name);
        }
    } else {
        lemma_said_at(l, n - 1, name, "0"@);
    }
}

proof fn lemma_new_names()
    ensures
        plain_name("UID"@),
        plain_name("DTSTAMP"@),
        "UID:"@ == "UID"@ + ":"@,
        "RRULE:"@ == "RRULE"@ + ":"@,
        "UID"@.len() == 3,
        "DTSTAMP"@.len() == 7,
        "DTSTAMP"@ != "DTSTART"@,
        stamp_chars("0"@),
        "0"@.len() == 1,
        single_valued("UID"@),
{
    reveal_strlit("UID");
    reveal_strlit("UID:");
    reveal_strlit("RRULE");
    reveal_strlit("RRULE:");
    reveal_strlit(":");
    reveal_strlit("DTSTAMP");
    reveal_strlit("DTSTART");
    reveal_strlit("0");
    assert("UID:"@ =~= "UID"@ + ":"@);
    assert("RRULE:"@ =~= "RRULE"@ + ":"@);
    assert("DTSTAMP"@[5] != "DTSTART"@[5]);
}

/// A new event reads back. Its encrypted card has the given title,
/// description and location, without carriage returns; its signed card has
/// the identifier, start and end, the recurrence rule and sequence number 0.
/// The identifier is not empty and has no white space at its ends, and no
/// line of the cards reads as the start or the end of a component.
#[verifier::rlimit(40)]
pub proof fn law_new_event_reads_back(
    fields: FieldsModel,
    uid: Seq<char>,
    now: int,
    cards: NewCards,
)
    requires
        calendar_seal::new_cards(fields, uid, now) == Some(cards),
        uid.len() > 0,
        text::trim(uid) == uid,
        fields.rrule matches Some(Some(r)) ==> plain_rule(r),
        readable_text(fields.summary),
        readable_text(fields.description),
        readable_text(fields.location),
        own_lines(new_text_lines(fields, uid)),
        own_lines(
            new_time_lines(
                uid,
                dates::ical_dt_body(now, false)->Some_0,
                dates::ical_dt_body(fields.start->Some_0 as int, fields.all_day == Some(true))->0,
                calendar_seal::end_body(
                    fields.end->Some_0 as int,
                    fields.all_day == Some(true),
                )->Some_0,
                calendar_seal::create_rule(fields)->Some_0,
            ),
        ),
    ensures
        ({
            let all_day = fields.all_day == Some(true);
            let texts = ical::event_of(cards.shared_encrypted);
            let times = ical::event_of(cards.shared_signed);
            let last = fields.end->Some_0 as int;
            &&& texts.summary == new_value(fields.summary)
            &&& texts.description == new_value(fields.description)
            &&& texts.location == new_value(fields.location)
            &&& times.uid == escape::unescape(uid)
            &&& times.dtstart == stamp(dates::civil_at(fields.start->Some_0 as int), all_day)
            &&& times.dtend == stamp(
                dates::civil_at(
                    if all_day {
                        last + 86400
                    } else {
                        last
                    },
                ),
                all_day,
            )
            &&& times.rrule == (match fields.rrule {
                Some(Some(r)) => escape::unescape(r),
                _ => seq![],
            })
            &&& times.sequence == "0"@
        }),
{
    let all_day = fields.all_day == Some(true);
    let start = fields.start->Some_0 as int;
    let last = fields.end->Some_0 as int;
    let end = if all_day {
        last + 86400
    } else {
        last
    };
    let rule = calendar_seal::create_rule(fields)->Some_0;
    lemma_new_texts_read_back(fields, uid);
    lemma_stamp_body(now, false);
    lemma_stamp_body(start, all_day);
    lemma_stamp_body(end, all_day);
    lemma_stamp(dates::civil_at(now), false);
    lemma_stamp(dates::civil_at(start), all_day);
    lemma_stamp(dates::civil_at(end), all_day);
    let n = (stamp_params(false), stamp(dates::civil_at(now), false));
    let s = (stamp_params(all_day), stamp(dates::civil_at(start), all_day));
    let e = (stamp_params(all_day), stamp(dates::civil_at(end), all_day));
    let l = new_time_lines(uid, n.0 + ":"@ + n.1, s.0 + ":"@ + s.1, e.0 + ":"@ + e.1, rule);
    assert(l.len() > 0);
    lemma_time_names();
    lemma_new_names();
    lemma_field_names();
    lemma_fragment_reads(l, "UID"@);
    lemma_fragment_reads(l, "DTSTART"@);
    lemma_fragment_reads(l, "DTEND"@);
    lemma_fragment_reads(l, "RRULE"@);
    lemma_fragment_reads(l, "SEQUENCE"@);
    lemma_new_time(uid, n, s, e, rule, "UID"@);
    lemma_new_time(uid, n, s, e, rule, "DTSTART"@);
    lemma_new_time(uid, n, s, e, rule, "DTEND"@);
    lemma_new_time(uid, n, s, e, rule, "RRULE"@);
    lemma_new_time(uid, n, s, e, rule, "SEQUENCE"@);
}

/// Every card of a new event has its identifier; the signed ones have the
/// time at which it was made.
#[verifier::rlimit(40)]
pub proof fn law_new_cards_are_stamped(
    fields: FieldsModel,
    uid: Seq<char>,
    now: int,
    cards: NewCards,
)
    requires
        calendar_seal::new_cards(fields, uid, now) == Some(cards),
        uid.len() > 0,
        text::trim(uid) == uid,
        own_line("UID:"@ + uid),
        own_line("DTSTAMP"@ + dates::ical_dt_body(now, false)->Some_0),
    ensures
        ical::event_of(cards.calendar_signed).uid == escape::unescape(uid),
        ical::event_of(cards.calendar_encrypted).uid == escape::unescape(uid),
        ical::event_of(cards.calendar_signed).dtstamp == stamp(dates::civil_at(now), false),
{
    let one = seq!["UID:"@ + uid];
    let two = seq!["UID:"@ + uid, "DTSTAMP"@ + dates::ical_dt_body(now, false)->Some_0];
    lemma_new_names();
    lemma_stamp_body(now, false);
    lemma_stamp(dates::civil_at(now), false);
    let n = (stamp_params(false), stamp(dates::civil_at(now), false));
    lemma_said_text("UID:"@, "UID"@, uid, "UID"@);
    lemma_said_text("UID:"@, "UID"@, uid, "DTSTAMP"@);
    lemma_said_stamp("DTSTAMP"@, n.0 + ":"@ + n.1, n.0, n.1, "UID"@);
    lemma_said_stamp("DTSTAMP"@, n.0 + ":"@ + n.1, n.0, n.1, "DTSTAMP"@);
    lemma_unescape_length(uid);
    lemma_fragment_reads(one, "UID"@);
    lemma_fragment_reads(two, "UID"@);
    lemma_fragment_reads(two, "DTSTAMP"@);
    lemma_said_at(one, 0, "UID"@, escape::unescape(uid));
    lemma_said_at(two, 0, "UID"@, escape::unescape(uid));
    lemma_said_at(two, 1, "DTSTAMP"@, n.1);
    reveal_strlit("SUMMARY");
    reveal_strlit("DESCRIPTION");
    reveal_strlit("LOCATION");
    reveal_strlit("DTSTART");
    reveal_strlit("DTEND");
    reveal_strlit("DTSTAMP");
    reveal_strlit("UID");
    assert("SUMMARY"@[0] == 'S' && "DTSTAMP"@[0] == 'D' && "DTSTAMP"@.len() == 7);
    assert("DESCRIPTION"@.len() == 11 && "LOCATION"@.len() == 8 && "DTEND"@.len() == 5);
}

/// There is a new event exactly where start and end are given, both and the
/// present have dates, and a recurrence, where the device has one, could be
/// written down.
pub proof fn law_new_event_needs_times(fields: FieldsModel, uid: Seq<char>, now: int)
    ensures
        calendar_seal::new_cards(fields, uid, now) is Some <==> {
            &&& fields.start is Some && fields.end is Some
            &&& fields.has_recurrence ==> fields.rrule is Some && fields.rrule->Some_0 is Some
            &&& dates::has_date(now)
            &&& dates::has_date(fields.start->Some_0 as int)
            &&& dates::has_date(fields.end->Some_0 as int)
            &&& fields.all_day == Some(true) ==> dates::has_date(fields.end->Some_0 + 86400)
        },
{
}

// ---------------------------------------------------------------------
// What an update never writes
// ---------------------------------------------------------------------

/// The property lines that a patch leaves of a card.
pub open spec fn lines_left(card: Seq<char>, p: PatchModel) -> Seq<Seq<char>> {
    calendar_write::patched_props(
        calendar_write::sections(lines::unfold(lines::card_lines(card))).props,
        calendar_write::upper_entries(p.set),
        p.delete,
        p.append,
    )
}

proof fn lemma_deleted_not_left(card: Seq<char>, p: PatchModel, line: Seq<char>, name: Seq<char>)
    requires
        good_patch(p),
        effect(p, name) == (None::<Seq<char>>, true),
        lines_left(card, p).contains(line),
    ensures
        lines::property_name(line) != Some(name),
{
    let props = calendar_write::sections(lines::unfold(lines::card_lines(card))).props;
    lemma_upper_entries(p.set);
    let e = calendar_write::edited(props, p.set, p.delete);
    let m = calendar_write::missing(props, p.set, p.delete);
    let j = choose|j: int| 0 <= j < (e + m).len() && (e + m)[j] == line;
    if j < e.len() {
        assert(e[j] == line);
        calendar_write::law_edited_lines(props, p.set, p.delete, line);
        let i = choose|i: int|
            0 <= i < props.len() && calendar_write::edited_line(
                #[trigger] props[i],
                p.set,
                p.delete,
            ) == Some(line);
        if let Some(n) = lines::property_name(props[i]) {
            if let Some(v) = ordered::lookup(p.set, n) {
                calendar_write::lemma_lookup_at(p.set, n);
                let k = choose|k: int| 0 <= k < p.set.len() && #[trigger] p.set[k] == (n, v);
                assert(good_entry(p.set[k]));
            }
        }
    } else {
        assert(m[j - e.len()] == line);
        lemma_missing_lines(props, p.set, p.delete, j - e.len());
        let k = choose|k: int|
            0 <= k < p.set.len() && m[j - e.len()] == text::uppercase((#[trigger] p.set[k]).0)
                + p.set[k].1;
        assert(good_entry(p.set[k]));
        lemma_entry_found(p.set, k);
    }
}

/// The patch of the signed card does to any other property what every patch
/// of an update does; exception dates go with their rule.
#[verifier::rlimit(60)]
pub proof fn lemma_signed_others(
    row: EventModel,
    fields: FieldsModel,
    shared: Seq<Seq<char>>,
    name: Seq<char>,
)
    requires
        fields.rrule matches Some(Some(r)) ==> lines::one_line(r),
        name != "DTSTART"@ || fields.start is None,
        name != "DTEND"@ || fields.end is None,
        name != "RRULE"@ || fields.rrule is None,
        name != "SEQUENCE"@,
    ensures
        good_patch(calendar_seal::signed_model(row, fields, shared)),
        effect(calendar_seal::signed_model(row, fields, shared), name) == (
            None::<Seq<char>>,
            name == "VERSION"@ || name == "PRODID"@ || name == "EXDATE"@ && fields.rrule == Some(
                None::<Seq<char>>,
            ) && !fields.has_recurrence,
        ),
{
    lemma_time_names();
    lemma_strip(name);
    let all_day = calendar_seal::is_all_day(row, fields);
    let none = Seq::<char>::empty();
    let p0 = calendar_seal::strip_model();
    let p1 = match fields.start {
        Some(s) => calendar_seal::set_in(p0, "DTSTART"@, dates::ical_dt_body(s as int, all_day)),
        None => p0,
    };
    if let Some(s) = fields.start {
        lemma_set_stamp(p0, "DTSTART"@, s as int, all_day, name);
    }
    let p2 = match fields.end {
        Some(e) => calendar_seal::set_in(
            p1,
            "DTEND"@,
            calendar_seal::end_body(e as int, all_day),
        ),
        None => p1,
    };
    if let Some(e) = fields.end {
        if !all_day {
            lemma_set_stamp(p1, "DTEND"@, e as int, false, name);
        } else if dates::has_date(e as int) {
            lemma_set_stamp(p1, "DTEND"@, e + 86400, true, name);
        }
    }
    let p3 = match fields.rrule {
        None => p2,
        Some(None) => if fields.has_recurrence {
            p2
        } else {
            calendar_seal::delete_in(calendar_seal::delete_in(p2, "RRULE"@), "EXDATE"@)
        },
        Some(Some(r)) => calendar_seal::set_in(p2, "RRULE"@, Some(":"@ + r)),
    };
    match fields.rrule {
        None => {},
        Some(None) => {
            if !fields.has_recurrence {
                lemma_plain_name("RRULE"@);
                lemma_delete_in(p2, "RRULE"@, name);
                lemma_delete_in(calendar_seal::delete_in(p2, "RRULE"@), "EXDATE"@, name);
            }
        },
        Some(Some(r)) => {
            assert(none + ":"@ + r =~= ":"@ + r);
            lemma_set_in(p2, "RRULE"@, none, r, name);
        },
    }
    let n = calendar_write::next_sequence_of(calendar_seal::max_sequence_of(shared), true);
    if calendar_seal::times_change(row, fields) || calendar_seal::rule_changes(row, fields) {
        assert(n >= 0);
        lemma_signed_decimal(n);
        lemma_stamp_text(numbers::signed_decimal(n));
        assert(none + ":"@ + numbers::signed_decimal(n) =~= ":"@ + numbers::signed_decimal(n));
        lemma_set_in(p3, "SEQUENCE"@, none, numbers::signed_decimal(n), name);
    }
}

/// The patch of the signed card strips what every patch of an update strips.
proof fn lemma_signed_strips(
    row: EventModel,
    fields: FieldsModel,
    shared: Seq<Seq<char>>,
    name: Seq<char>,
)
    requires
        fields.rrule matches Some(Some(r)) ==> lines::one_line(r),
        name == "VERSION"@ || name == "PRODID"@,
    ensures
        effect(calendar_seal::signed_model(row, fields, shared), name) == (
            None::<Seq<char>>,
            true,
        ),
{
    lemma_time_names();
    lemma_stripped_names();
    reveal_strlit("VERSION");
    reveal_strlit("PRODID");
    reveal_strlit("SEQUENCE");
    assert("SEQUENCE"@.len() == 8 && "VERSION"@.len() == 7 && "PRODID"@.len() == 6);
    lemma_signed_others(row, fields, shared, name);
}

proof fn lemma_stripped_names()
    ensures
        forall|name: Seq<char>|
            #![trigger plain_name(name)]
            plain_name(name) ==> name != "VERSION"@ && name != "PRODID"@,
        "EXDATE"@ != "VERSION"@,
        "EXDATE"@ != "PRODID"@,
{
    reveal_strlit("VERSION");
    reveal_strlit("PRODID");
    reveal_strlit("EXDATE");
    assert("VERSION"@[0] == 'V' && "PRODID"@[0] == 'P' && "EXDATE"@[0] == 'E');
}

/// An update writes neither a version nor a product line: whatever cards the
/// row has, no property line that is left of a shared, a calendar or an
/// attendee card names one of the two. The rule of the edit is one line.
pub proof fn law_updates_write_no_version(
    row: EventModel,
    fields: FieldsModel,
    shared: Seq<Seq<char>>,
    card: Seq<char>,
    line: Seq<char>,
)
    requires
        fields.rrule matches Some(Some(r)) ==> lines::one_line(r),
        lines_left(card, calendar_seal::signed_model(row, fields, shared)).contains(line)
            || lines_left(card, calendar_seal::texts_model(fields)).contains(line) || lines_left(
            card,
            calendar_seal::strip_model(),
        ).contains(line),
    ensures
        lines::property_name(line) != Some("VERSION"@),
        lines::property_name(line) != Some("PRODID"@),
{
    let (v, p) = ("VERSION"@, "PRODID"@);
    let strip = calendar_seal::strip_model();
    lemma_strip(v);
    lemma_strip(p);
    if lines_left(card, strip).contains(line) {
        lemma_deleted_not_left(card, strip, line, v);
        lemma_deleted_not_left(card, strip, line, p);
    }
    lemma_text_names();
    lemma_texts_model(fields);
    lemma_strip("SUMMARY"@);
    lemma_strip("DESCRIPTION"@);
    let s = calendar_seal::text_in(strip, "SUMMARY"@, fields.summary);
    lemma_text_in(strip, "SUMMARY"@, fields.summary, "DESCRIPTION"@);
    let d = calendar_seal::text_in(s, "DESCRIPTION"@, fields.description);
    lemma_text_in(s, "DESCRIPTION"@, fields.description, v);
    let texts = calendar_seal::texts_model(fields);
    assert(effect(texts, v) == (None::<Seq<char>>, true) && effect(texts, p) == (
        None::<Seq<char>>,
        true,
    )) by {
        lemma_strip("LOCATION"@);
        lemma_text_in(strip, "SUMMARY"@, fields.summary, "LOCATION"@);
        lemma_text_in(s, "DESCRIPTION"@, fields.description, "LOCATION"@);
        lemma_text_in(strip, "SUMMARY"@, fields.summary, v);
        lemma_text_in(d, "LOCATION"@, fields.location, v);
        lemma_text_in(strip, "SUMMARY"@, fields.summary, p);
        lemma_text_in(s, "DESCRIPTION"@, fields.description, p);
        lemma_text_in(d, "LOCATION"@, fields.location, p);
    }
    if lines_left(card, texts).contains(line) {
        lemma_deleted_not_left(card, texts, line, v);
        lemma_deleted_not_left(card, texts, line, p);
    }
    let signed = calendar_seal::signed_model(row, fields, shared);
    lemma_signed_model(row, fields, shared, "DTSTART"@);
    lemma_signed_strips(row, fields, shared, v);
    lemma_signed_strips(row, fields, shared, p);
    if lines_left(card, signed).contains(line) {
        lemma_deleted_not_left(card, signed, line, v);
        lemma_deleted_not_left(card, signed, line, p);
    }
}

// ---------------------------------------------------------------------
// Escaped text in a fragment
// ---------------------------------------------------------------------

proof fn lemma_without_cr_last(s: Seq<char>)
    requires
        s.len() > 0,
        s.last() != '\r',
    ensures
        escape::without_cr(s).len() > 0,
        escape::without_cr(s).last() == s.last(),
        s[0] != '\r' ==> escape::without_cr(s)[0] == s[0],
    decreases s.len(),
{
    if s.len() > 1 {
        let t = s.skip(1);
        assert(t.last() == s.last());
        lemma_without_cr_last(t);
        let w = escape::without_cr(t);
        if s[0] != '\r' {
            assert((seq![s[0]] + w).last() == w.last());
        }
    } else {
        assert(escape::without_cr(s.skip(1)) =~= seq![]);
        assert(escape::without_cr(s) =~= seq![s[0]]);
    }
}

proof fn lemma_escape_ends(s: Seq<char>)
    requires
        s.len() > 0,
        !text::is_white(s[0]),
        !text::is_white(s.last()),
    ensures
        escape::escape(s).len() > 0,
        !text::is_white(escape::escape(s)[0]),
        !text::is_white(escape::escape(s).last()),
{
    lemma_escape_last(s);
    let head = escape::escaped_char(s[0]);
    assert(escape::escape(s)[0] == head[0]);
}

proof fn lemma_escape_last(s: Seq<char>)
    requires
        s.len() > 0,
        !text::is_white(s.last()),
    ensures
        escape::escape(s).len() > 0,
        !text::is_white(escape::escape(s).last()),
    decreases s.len(),
{
    let head = escape::escaped_char(s[0]);
    let t = s.skip(1);
    if t.len() > 0 {
        assert(t.last() == s.last());
        lemma_escape_last(t);
        assert((head + escape::escape(t)).last() == escape::escape(t).last());
    } else {
        assert(escape::escape(t) =~= seq![]);
        assert(head + escape::escape(t) =~= head);
        assert(s[0] == s.last());
    }
}

/// Trimmed text stays trimmed when it is written.
proof fn lemma_written_trimmed(s: Seq<char>)
    requires
        s.len() > 0,
        text::trim(s) == s,
    ensures
        written(s).len() > 0,
        text::trim(written(s)) == written(s),
{
    lemma_trim_end_last(s);
    lemma_trim_start(s);
    assert(!text::is_white(s[0])) by {
        if text::is_white(s[0]) {
            lemma_trim_start(s.skip(1));
            lemma_trim_end(text::trim_start(s));
        }
    }
    lemma_without_cr_last(s);
    lemma_escape_ends(escape::without_cr(s));
    lemma_trimmed(written(s));
}

/// What a line with a written text says.
proof fn lemma_written_text_says(name: Seq<char>, s: Seq<char>)
    requires
        plain_name(name),
        text::trim(s) == s,
    ensures
        says(name + ":"@ + written(s), name) == Some(escape::without_cr(s)),
{
    reveal_strlit(":");
    let none = Seq::<char>::empty();
    let line = name + ":"@ + written(s);
    assert(line =~= name + none + ":"@ + written(s));
    escape::law_ical_text_round_trip(s);
    if s.len() > 0 {
        lemma_written_trimmed(s);
        lemma_written_line(name, none, written(s));
    } else {
        assert(escape::without_cr(s) =~= none);
        assert(written(s) =~= none);
        lemma_written_name(name, none, written(s));
        assert(line[line.len() - 1] == ':');
        assert(line[0] == name[0]);
        lemma_trimmed(line);
        assert(line =~= name + (none + ":"@ + written(s)));
        lemma_no_structure(name, none + ":"@ + written(s));
        assert(text::trim(none) =~= none);
        assert(escape::unescape(none) =~= none);
    }
}

/// A fragment of an event with an identifier and one text.
pub open spec fn text_fragment(uid: Seq<char>, name: Seq<char>, s: Seq<char>) -> Seq<char> {
    text::join(
        seq![
            "BEGIN:VEVENT"@,
            "UID:"@ + uid,
            name + ":"@ + escape::escape(escape::without_cr(s)),
            "END:VEVENT"@,
        ],
        "\n"@,
    )
}

/// Text that is escaped into a fragment reads back, without its carriage
/// returns, and puts nothing else into it: the other properties of which the
/// first value counts stay empty. It holds for text without white space at
/// its ends, which reading drops, and an identifier of one line without white
/// space at its ends.
pub proof fn law_escaped_text_reads_back(uid: Seq<char>, name: Seq<char>, s: Seq<char>)
    requires
        uid.len() > 0,
        lines::one_line(uid),
        text::trim(uid) == uid,
        name == "SUMMARY"@ || name == "DESCRIPTION"@ || name == "LOCATION"@,
        text::trim(s) == s,
    ensures
        ({
            let ev = ical::event_of(text_fragment(uid, name, s));
            &&& field(ev, name) == escape::without_cr(s)
            &&& ev.uid == escape::unescape(uid)
            &&& forall|other: Seq<char>|
                single_valued(other) && other != name && other != "UID"@ ==> (#[trigger] field(
                    ev,
                    other,
                )).len() == 0
        }),
{
    reveal_strlit("BEGIN:VEVENT");
    reveal_strlit("END:VEVENT");
    reveal_strlit("UID:");
    reveal_strlit("UID");
    reveal_strlit(":");
    lemma_text_names();
    lemma_field_names();
    assert("UID:"@ =~= "UID"@ + ":"@);
    assert(plain_name("UID"@));
    let id = "UID:"@ + uid;
    let line = name + ":"@ + written(s);
    let l = seq!["BEGIN:VEVENT"@, id, line, "END:VEVENT"@];
    let card = text::join(l, "\n"@);
    escape::law_ical_text_round_trip(s);
    lemma_plain_name(name);
    assert forall|i: int| 0 <= i < l.len() implies lines::one_line(#[trigger] l[i])
        && !lines::is_continuation(l[i]) by {
        if i == 1 {
            assert forall|k: int| 0 <= k < id.len() implies id[k] != '\r' && id[k] != '\n' by {
                if k >= 4 {
                    assert(id[k] == uid[k - 4]);
                }
            }
            assert(id[0] == 'U');
        } else if i == 2 {
            let w = written(s);
            assert forall|k: int| 0 <= k < line.len() implies line[k] != '\r' && line[k]
                != '\n' by {
                if k < name.len() {
                    assert(line[k] == name[k]);
                } else if k > name.len() {
                    assert(line[k] == w[k - name.len() - 1]);
                }
            }
            assert(line[0] == name[0]);
        }
    }
    lines::lemma_card_lines_lf(l);
    lines::lemma_unfold_plain(l);
    assert(content_of(card) == l);
    assert(plain_card(card));
    assert(silent(seq!["BEGIN:VCALENDAR"@, "BEGIN:VEVENT"@], name)) by {
        lemma_wrapper_silent(name);
    }
    let none = Seq::<char>::empty();
    assert(line =~= name + none + ":"@ + written(s));
    assert(id =~= "UID"@ + none + ":"@ + uid);
    let ev = ical::event_of(card);
    assert(card == text_fragment(uid, name, s));
    assert forall|other: Seq<char>| single_valued(other) implies #[trigger] field(
        ev,
        other,
    ) == (if other == name {
        escape::without_cr(s)
    } else if other == "UID"@ {
        escape::unescape(uid)
    } else {
        none
    }) by {
        let b = seq!["BEGIN:VCALENDAR"@, "BEGIN:VEVENT"@];
        let e = seq!["END:VEVENT"@, "END:VCALENDAR"@];
        lemma_wrapper_silent(other);
        assert(says(b[1], other) is None && says(e[0], other) is None);
        lemma_plain_card_reads(card, other);
        lemma_single_names(other);
        if other == name {
            lemma_other_silent("UID"@, none, uid, other);
            lemma_written_text_says(name, s);
            if escape::without_cr(s).len() > 0 {
                lemma_said_at(l, 2, name, escape::without_cr(s));
            } else {
                lemma_all_empty(l, name);
            }
        } else if other == "UID"@ {
            lemma_other_silent(name, none, written(s), other);
            lemma_written_line("UID"@, none, uid);
            lemma_unescape_length(uid);
            lemma_said_at(l, 1, "UID"@, escape::unescape(uid));
        } else {
            lemma_other_silent("UID"@, none, uid, other);
            lemma_other_silent(name, none, written(s), other);
            lemma_silent(l, other);
        }
    }
    lemma_single_names("UID"@);
    assert(field(ev, "UID"@) == ev.uid);
    assert(field(ev, name) == escape::without_cr(s));
}

proof fn lemma_single_names(name: Seq<char>)
    requires
        single_valued(name),
    ensures
        name.len() > 0,
        "UID"@ != "SUMMARY"@,
        "UID"@ != "DESCRIPTION"@,
        "UID"@ != "LOCATION"@,
{
    reveal_strlit("UID");
    reveal_strlit("SUMMARY");
    reveal_strlit("DESCRIPTION");
    reveal_strlit("LOCATION");
    reveal_strlit("DTSTART");
    reveal_strlit("DTEND");
    reveal_strlit("DTSTAMP");
    reveal_strlit("CREATED");
    reveal_strlit("RRULE");
    reveal_strlit("SEQUENCE");
    reveal_strlit("STATUS");
    reveal_strlit("TRANSP");
    assert("UID"@.len() == 3 && "SUMMARY"@.len() == 7);
    assert("DESCRIPTION"@.len() == 11 && "LOCATION"@.len() == 8);
}

/// Where nothing that is said of a property is there, it has no value.
proof fn lemma_all_empty(l: Seq<Seq<char>>, name: Seq<char>)
    requires
        forall|i: int|
            0 <= i < l.len() ==> (says(#[trigger] l[i], name) matches Some(v) ==> v.len() == 0),
    ensures
        first_said(l, name) =~= seq![],
    decreases l.len(),
{
    if l.len() > 0 {
        let init = l.drop_last();
        assert forall|i: int| 0 <= i < init.len() implies (says(#[trigger] init[i], name) matches Some(
            v,
        ) ==> v.len() == 0) by {
            assert(init[i] == l[i]);
        }
        lemma_all_empty(init, name);
        let last = l[l.len() - 1];
        assert(says(last, name) matches Some(v) ==> v.len() == 0);
    }
}

// ---------------------------------------------------------------------
// What a patch leaves alone
// ---------------------------------------------------------------------

/// A line that stands for the wrapper round an event, or for nothing.
pub open spec fn is_round(line: Seq<char>) -> bool {
    let u = text::uppercase(line);
    ||| text::starts_with(u, "BEGIN:VCALENDAR"@)
    ||| text::starts_with(u, "BEGIN:VEVENT"@)
    ||| text::starts_with(u, "END:VEVENT"@)
    ||| text::starts_with(u, "END:VCALENDAR"@)
    ||| text::trim(line).len() == 0
}

proof fn lemma_sections_hold(l: Seq<Seq<char>>, i: int, k: int)
    requires
        0 <= i <= k < l.len(),
        !is_round(l[k]),
    ensures
        calendar_write::sections_from(l, i).props.contains(l[k])
            || calendar_write::sections_from(l, i).blocks.contains(l[k]),
    decreases l.len() - i,
{
    let st = calendar_write::sections_from(l, i);
    let wraps = calendar_write::is_wrapper(text::uppercase(l[i]));
    if !wraps && calendar_write::begins(l[i]) {
        let j = calendar_write::block_end(l, i);
        calendar_write::lemma_block_end(l, i);
        let rest = calendar_write::sections_from(l, j);
        if k < j {
            assert(st.blocks[k - i] == l[k]);
        } else {
            lemma_sections_hold(l, j, k);
            if rest.blocks.contains(l[k]) {
                let x = choose|x: int| 0 <= x < rest.blocks.len() && rest.blocks[x] == l[k];
                assert(st.blocks[j - i + x] == l[k]);
            }
        }
    } else {
        let rest = calendar_write::sections_from(l, i + 1);
        if k > i {
            lemma_sections_hold(l, i + 1, k);
            if rest.props.contains(l[k]) && st.props.len() > rest.props.len() {
                let x = choose|x: int| 0 <= x < rest.props.len() && rest.props[x] == l[k];
                assert(st.props[x + 1] == l[k]);
            }
        } else {
            assert(st.props[0] == l[k]);
        }
    }
}

/// No line gets lost: a line of a card, of the event or of a component in it,
/// is a line of the patched card too, unless it is a line of a property that
/// the patch sets or deletes.
pub proof fn law_patch_keeps_lines(card: Seq<char>, p: PatchModel, line: Seq<char>)
    requires
        plain_card(card),
        good_patch(p),
        content_of(card).contains(line),
        !is_round(line),
        lines::property_name(line) matches Some(n) ==> effect(p, n) == (None::<Seq<char>>, false),
    ensures
        content_of(calendar_seal::patched_text(card, p)).contains(line),
{
    let all = content_of(card);
    let st = calendar_write::sections(all);
    let k = choose|k: int| 0 <= k < all.len() && all[k] == line;
    lemma_sections_hold(all, 0, k);
    lemma_upper_entries(p.set);
    lemma_patch_reads_whole(card, p);
    let begin = seq!["BEGIN:VCALENDAR"@, "BEGIN:VEVENT"@];
    let props = calendar_write::patched_props(st.props, p.set, p.delete, p.append);
    let out = calendar_write::patched_lines(card, p.set, p.delete, p.append);
    if st.props.contains(line) {
        let i = choose|i: int| 0 <= i < st.props.len() && st.props[i] == line;
        calendar_write::law_undeleted_lines_stay(st.props, p.set, p.delete, p.append, i);
        let x = choose|x: int| 0 <= x < props.len() && props[x] == line;
        assert(out[2 + x] == line);
    } else {
        let x = choose|x: int| 0 <= x < st.blocks.len() && st.blocks[x] == line;
        assert(out[2 + props.len() + x] == line);
    }
}

/// What a good patch makes of a plain card unfolds to its lines.
proof fn lemma_patch_reads_whole(card: Seq<char>, p: PatchModel)
    requires
        plain_card(card),
        good_patch(p),
    ensures
        content_of(calendar_seal::patched_text(card, p)) == calendar_write::patched_lines(
            card,
            p.set,
            p.delete,
            p.append,
        ),
{
    lemma_upper_entries(p.set);
    assert forall|i: int| 0 <= i < p.set.len() implies calendar_write::content_line(
        #[trigger] p.set[i].0 + p.set[i].1,
    ) && calendar_write::content_line(text::uppercase(p.set[i].0) + p.set[i].1) by {
        assert(good_entry(p.set[i]));
    }
    calendar_write::law_patched_card_reads_back(card, p.set, p.delete, p.append);
}

/// The lines of a component in an event stand together and in their order in
/// the patched card: whatever the patch, the components are as they were.
pub proof fn law_patch_keeps_components(card: Seq<char>, p: PatchModel)
    requires
        plain_card(card),
        good_patch(p),
    ensures
        ({
            let is = content_of(calendar_seal::patched_text(card, p));
            let blocks = calendar_write::sections(content_of(card)).blocks;
            &&& is.len() >= blocks.len() + 2
            &&& is.subrange(is.len() - 2 - blocks.len(), is.len() - 2) == blocks
        }),
{
    lemma_patch_reads_whole(card, p);
    let is = content_of(calendar_seal::patched_text(card, p));
    let st = calendar_write::sections(content_of(card));
    lemma_upper_entries(p.set);
    assert(is.subrange(is.len() - 2 - st.blocks.len(), is.len() - 2) =~= st.blocks);
}

/// A property that the patch neither sets nor deletes reads as before.
pub proof fn lemma_untouched(card: Seq<char>, p: PatchModel, name: Seq<char>)
    requires
        plain_card(card),
        good_patch(p),
        single_valued(name),
        own_only(content_of(card), name),
        effect(p, name) == (None::<Seq<char>>, false),
    ensures
        field(ical::event_of(calendar_seal::patched_text(card, p)), name) == field(
            ical::event_of(card),
            name,
        ),
{
    lemma_single_named(name);
    assert(p.append =~= seq![]);
    lemma_kept_reads_back(card, p.set, p.delete, name);
}

proof fn lemma_single_named(name: Seq<char>)
    requires
        single_valued(name),
    ensures
        name.len() > 0,
        name != "VERSION"@,
        name != "PRODID"@,
        name != "EXDATE"@,
{
    reveal_strlit("UID");
    reveal_strlit("SUMMARY");
    reveal_strlit("DESCRIPTION");
    reveal_strlit("LOCATION");
    reveal_strlit("DTSTART");
    reveal_strlit("DTEND");
    reveal_strlit("DTSTAMP");
    reveal_strlit("CREATED");
    reveal_strlit("RRULE");
    reveal_strlit("SEQUENCE");
    reveal_strlit("STATUS");
    reveal_strlit("TRANSP");
    reveal_strlit("VERSION");
    reveal_strlit("PRODID");
    reveal_strlit("EXDATE");
    assert("VERSION"@[0] == 'V' && "PRODID"@[0] == 'P' && "EXDATE"@[0] == 'E');
    assert(name[0] != 'V' && name[0] != 'P' && name[0] != 'E');
}

// ---------------------------------------------------------------------
// The cards of an update
// ---------------------------------------------------------------------

/// Whether the event takes whole days after the edit: as the edit says, else
/// as the row does.
pub open spec fn whole_days(row: EventModel, fields: FieldsModel) -> bool {
    fields.all_day == Some(true) || fields.all_day is None && row.full_day == Some(true)
}

/// Whether the edit moves the event or makes another series of it. The end of
/// an event of whole days is its last day on the device, and the day behind
/// it in the row.
pub open spec fn reschedules(row: EventModel, fields: FieldsModel) -> bool {
    ||| fields.start is Some && fields.start->Some_0 != row.start_time
    ||| fields.end is Some && !whole_days(row, fields) && fields.end->Some_0 != row.end_time
    ||| fields.end is Some && whole_days(row, fields) && fields.end->Some_0 + 86400 != row.end_time
    ||| fields.all_day is Some && fields.all_day->Some_0 != (row.full_day == Some(true))
    ||| fields.rrule is Some && fields.rrule->Some_0 is Some && row.rrule != fields.rrule->Some_0
    ||| fields.rrule == Some(None::<Seq<char>>) && !fields.has_recurrence && row.rrule is Some
        && row.rrule->Some_0.len() > 0
}

proof fn lemma_reschedules(row: EventModel, fields: FieldsModel)
    requires
        fields.end matches Some(e) ==> e <= i64::MAX - 86400,
    ensures
        reschedules(row, fields) == (calendar_seal::times_change(row, fields)
            || calendar_seal::rule_changes(row, fields)),
        whole_days(row, fields) == calendar_seal::is_all_day(row, fields),
{
}

/// An edit of times as the signed card of an update has it: start and end are
/// the given ones, dates for an event of whole days, of which the end is the
/// day behind the last, and times in UTC for any other. The rule is the given
/// one, or gone, or as it was. What the edit leaves open stays.
pub proof fn law_rescheduled_card_reads_back(
    card: Seq<char>,
    row: EventModel,
    fields: FieldsModel,
    shared: Seq<Seq<char>>,
)
    requires
        plain_card(card),
        fields.rrule matches Some(Some(r)) ==> plain_rule(r),
        fields.end matches Some(e) ==> e <= i64::MAX - 86400,
        forall|name: Seq<char>| single_valued(name) ==> #[trigger] own_only(content_of(card), name),
    ensures
        ({
            let was = ical::event_of(card);
            let is = ical::event_of(
                calendar_seal::patched_text(card, calendar_seal::signed_model(row, fields, shared)),
            );
            let days = whole_days(row, fields);
            &&& fields.start matches Some(s) ==> dates::has_date(s as int) ==> is.dtstart == stamp(
                dates::civil_at(s as int),
                days,
            )
            &&& fields.end matches Some(e) ==> dates::has_date(e as int) ==> dates::has_date(
                e + 86400,
            ) ==> is.dtend == stamp(
                dates::civil_at(
                    if days {
                        e + 86400
                    } else {
                        e as int
                    },
                ),
                days,
            )
            &&& fields.start is None ==> is.dtstart == was.dtstart
            &&& fields.end is None ==> is.dtend == was.dtend
            &&& fields.rrule matches Some(Some(r)) ==> is.rrule == escape::unescape(r)
            &&& fields.rrule == Some(None::<Seq<char>>) && !fields.has_recurrence ==> is.rrule.len()
                == 0
            &&& fields.rrule == Some(None::<Seq<char>>) && fields.has_recurrence ==> is.rrule
                == was.rrule
            &&& fields.rrule is None ==> is.rrule == was.rrule
            &&& forall|name: Seq<char>|
                single_valued(name) && name != "DTSTART"@ && name != "DTEND"@ && name != "RRULE"@
                    && name != "SEQUENCE"@ ==> #[trigger] field(is, name) == field(was, name)
        }),
{
    let p = calendar_seal::signed_model(row, fields, shared);
    let was = ical::event_of(card);
    let is = ical::event_of(calendar_seal::patched_text(card, p));
    lemma_reschedules(row, fields);
    lemma_time_names();
    lemma_field_names();
    assert(own_only(content_of(card), "RRULE"@));
    assert(own_only(content_of(card), "SEQUENCE"@));
    assert(own_only(content_of(card), "DTSTART"@));
    assert(own_only(content_of(card), "DTEND"@));
    law_time_edit_reads_back(card, row, fields, shared);
    if fields.start is None {
        lemma_single_named("DTSTART"@);
        lemma_signed_model(row, fields, shared, "DTSTART"@);
        lemma_untouched(card, p, "DTSTART"@);
    }
    if fields.end is None {
        lemma_single_named("DTEND"@);
        lemma_signed_model(row, fields, shared, "DTEND"@);
        lemma_untouched(card, p, "DTEND"@);
    }
    assert forall|name: Seq<char>|
        single_valued(name) && name != "DTSTART"@ && name != "DTEND"@ && name != "RRULE"@ && name
            != "SEQUENCE"@ implies #[trigger] field(is, name) == field(was, name) by {
        lemma_single_named(name);
        lemma_signed_others(row, fields, shared, name);
        assert(own_only(content_of(card), name));
        lemma_untouched(card, p, name);
    }
}

/// An edit that moves an event or makes another series of it has a sequence
/// number above all that the cards of the row have, by one; any other edit
/// leaves the number alone.
pub proof fn law_rescheduling_counts_up(
    card: Seq<char>,
    row: EventModel,
    fields: FieldsModel,
    shared: Seq<Seq<char>>,
)
    requires
        plain_card(card),
        fields.rrule matches Some(Some(r)) ==> plain_rule(r),
        fields.end matches Some(e) ==> e <= i64::MAX - 86400,
        own_only(content_of(card), "RRULE"@),
        own_only(content_of(card), "SEQUENCE"@),
    ensures
        ({
            let text = calendar_seal::patched_text(
                card,
                calendar_seal::signed_model(row, fields, shared),
            );
            &&& reschedules(row, fields) ==> {
                &&& calendar_seal::sequence_of(text) matches Some(n) && n >= 1
                &&& forall|i: int|
                    0 <= i < shared.len() && (#[trigger] calendar_seal::sequence_of(
                        shared[i],
                    )) is Some && calendar_seal::sequence_of(shared[i])->Some_0 < i64::MAX
                        ==> calendar_seal::sequence_of(text)->Some_0 > calendar_seal::sequence_of(
                        shared[i],
                    )->Some_0
                &&& calendar_seal::sequence_of(text) == Some(1int) || exists|i: int|
                    0 <= i < shared.len() && (#[trigger] calendar_seal::sequence_of(
                        shared[i],
                    )) is Some && (calendar_seal::sequence_of(text)->Some_0
                        == calendar_seal::sequence_of(shared[i])->Some_0 + 1
                        || calendar_seal::sequence_of(shared[i])->Some_0 == i64::MAX)
            }
            &&& !reschedules(row, fields) ==> ical::event_of(text).sequence == ical::event_of(
                card,
            ).sequence
        }),
{
    lemma_reschedules(row, fields);
    law_time_edit_reads_back(card, row, fields, shared);
    lemma_largest_sequence(shared);
    let text = calendar_seal::patched_text(
        card,
        calendar_seal::signed_model(row, fields, shared),
    );
    if reschedules(row, fields) {
        assert forall|i: int|
            0 <= i < shared.len() && (#[trigger] calendar_seal::sequence_of(shared[i])) is Some
                && calendar_seal::sequence_of(shared[i])->Some_0
                < i64::MAX implies calendar_seal::sequence_of(text)->Some_0
            > calendar_seal::sequence_of(shared[i])->Some_0 by {
            lemma_largest_is_largest(shared, i);
        }
        lemma_largest_is_there(shared);
    }
}

proof fn lemma_largest_is_there(cards: Seq<Seq<char>>)
    ensures
        calendar_seal::largest_sequence(cards) matches Some(n) ==> exists|i: int|
            0 <= i < cards.len() && #[trigger] calendar_seal::sequence_of(cards[i]) == Some(n),
    decreases cards.len(),
{
    if cards.len() > 0 {
        let init = cards.drop_last();
        lemma_largest_is_there(init);
        if let Some(n) = calendar_seal::largest_sequence(cards) {
            if calendar_seal::sequence_of(cards[cards.len() - 1]) != Some(n) {
                let i = choose|i: int|
                    0 <= i < init.len() && #[trigger] calendar_seal::sequence_of(init[i]) == Some(
                        n,
                    );
                assert(cards[i] == init[i]);
            }
        }
    }
}

proof fn lemma_largest_is_largest(cards: Seq<Seq<char>>, i: int)
    requires
        0 <= i < cards.len(),
        calendar_seal::sequence_of(cards[i]) is Some,
    ensures
        calendar_seal::largest_sequence(cards) matches Some(n) && n >= calendar_seal::sequence_of(
            cards[i],
        )->Some_0,
    decreases cards.len(),
{
    if i < cards.len() - 1 {
        assert(cards.drop_last()[i] == cards[i]);
        lemma_largest_is_largest(cards.drop_last(), i);
    }
}

/// An edit of texts as the encrypted card of an update has it: title,
/// description and location are the given ones, without carriage returns, or
/// as they were; every other property is as it was.
pub proof fn law_retitled_card_reads_back(card: Seq<char>, fields: FieldsModel)
    requires
        plain_card(card),
        readable_edit(card, "SUMMARY"@, fields.summary),
        readable_edit(card, "DESCRIPTION"@, fields.description),
        readable_edit(card, "LOCATION"@, fields.location),
        forall|name: Seq<char>| single_valued(name) ==> #[trigger] own_only(content_of(card), name),
    ensures
        ({
            let was = ical::event_of(card);
            let is = ical::event_of(
                calendar_seal::patched_text(card, calendar_seal::texts_model(fields)),
            );
            &&& is.summary == edited_value(was.summary, fields.summary)
            &&& is.description == edited_value(was.description, fields.description)
            &&& is.location == edited_value(was.location, fields.location)
            &&& forall|name: Seq<char>|
                single_valued(name) && name != "SUMMARY"@ && name != "DESCRIPTION"@ && name
                    != "LOCATION"@ ==> #[trigger] field(is, name) == field(was, name)
        }),
{
    let p = calendar_seal::texts_model(fields);
    let was = ical::event_of(card);
    let is = ical::event_of(calendar_seal::patched_text(card, p));
    law_text_edit_reads_back(card, fields);
    assert forall|name: Seq<char>|
        single_valued(name) && name != "SUMMARY"@ && name != "DESCRIPTION"@ && name
            != "LOCATION"@ implies #[trigger] field(is, name) == field(was, name) by {
        lemma_single_named(name);
        lemma_texts_others(fields, name);
        assert(own_only(content_of(card), name));
        lemma_untouched(card, p, name);
    }
}

/// The calendar's own cards and those of the attendees say after an update
/// what they said before.
pub proof fn law_other_cards_stay(card: Seq<char>, name: Seq<char>)
    requires
        plain_card(card),
        single_valued(name),
        own_only(content_of(card), name),
    ensures
        field(
            ical::event_of(calendar_seal::patched_text(card, calendar_seal::strip_model())),
            name,
        ) == field(ical::event_of(card), name),
{
    lemma_single_named(name);
    lemma_strip(name);
    lemma_untouched(card, calendar_seal::strip_model(), name);
}

/// Which properties an edit touches on the signed and on the encrypted cards.
pub open spec fn touches(fields: FieldsModel, encrypted: bool, name: Seq<char>) -> bool {
    ||| name == "VERSION"@
    ||| name == "PRODID"@
    ||| encrypted && name == "SUMMARY"@ && fields.summary is Some
    ||| encrypted && name == "DESCRIPTION"@ && fields.description is Some
    ||| encrypted && name == "LOCATION"@ && fields.location is Some
    ||| !encrypted && name == "DTSTART"@ && fields.start is Some
    ||| !encrypted && name == "DTEND"@ && fields.end is Some
    ||| !encrypted && name == "RRULE"@ && fields.rrule is Some
    ||| !encrypted && name == "EXDATE"@ && fields.rrule == Some(None::<Seq<char>>)
        && !fields.has_recurrence
    ||| !encrypted && name == "SEQUENCE"@
}

/// An update loses no line that the edit does not name: attendees, reminders,
/// exception dates, what other clients wrote, and all that no property of an
/// event is.
pub proof fn law_update_keeps_lines(
    card: Seq<char>,
    row: EventModel,
    fields: FieldsModel,
    shared: Seq<Seq<char>>,
    encrypted: bool,
    line: Seq<char>,
)
    requires
        plain_card(card),
        fields.rrule matches Some(Some(r)) ==> lines::one_line(r),
        content_of(card).contains(line),
        !is_round(line),
        lines::property_name(line) matches Some(n) ==> !touches(fields, encrypted, n),
    ensures
        content_of(
            calendar_seal::patched_text(
                card,
                if encrypted {
                    calendar_seal::texts_model(fields)
                } else {
                    calendar_seal::signed_model(row, fields, shared)
                },
            ),
        ).contains(line),
        content_of(
            calendar_seal::patched_text(card, calendar_seal::strip_model()),
        ).contains(line),
{
    lemma_strip("UID"@);
    lemma_time_names();
    lemma_text_names();
    if encrypted {
        lemma_texts_model(fields);
        if let Some(n) = lines::property_name(line) {
            lemma_texts_others(fields, n);
        }
        law_patch_keeps_lines(card, calendar_seal::texts_model(fields), line);
    } else {
        lemma_signed_model(row, fields, shared, "DTSTART"@);
        if let Some(n) = lines::property_name(line) {
            lemma_signed_others(row, fields, shared, n);
        }
        law_patch_keeps_lines(card, calendar_seal::signed_model(row, fields, shared), line);
    }
    if let Some(n) = lines::property_name(line) {
        lemma_strip(n);
    }
    law_patch_keeps_lines(card, calendar_seal::strip_model(), line);
}

/// An edit that makes a single event of a series takes the rule away and, with
/// it, the exceptions: the signed card has no line of either.
pub proof fn law_removed_rule_takes_exceptions(
    card: Seq<char>,
    row: EventModel,
    fields: FieldsModel,
    shared: Seq<Seq<char>>,
    line: Seq<char>,
)
    requires
        fields.rrule == Some(None::<Seq<char>>),
        !fields.has_recurrence,
        lines_left(card, calendar_seal::signed_model(row, fields, shared)).contains(line),
    ensures
        lines::property_name(line) != Some("EXDATE"@),
        lines::property_name(line) != Some("RRULE"@),
{
    let p = calendar_seal::signed_model(row, fields, shared);
    lemma_time_names();
    reveal_strlit("EXDATE");
    reveal_strlit("DTSTART");
    reveal_strlit("DTEND");
    reveal_strlit("RRULE");
    reveal_strlit("SEQUENCE");
    assert("EXDATE"@[0] == 'E' && "DTSTART"@[0] == 'D' && "DTEND"@[0] == 'D' && "RRULE"@[0] == 'R'
        && "SEQUENCE"@[0] == 'S');
    lemma_signed_others(row, fields, shared, "EXDATE"@);
    lemma_signed_model(row, fields, shared, "RRULE"@);
    lemma_deleted_not_left(card, p, line, "EXDATE"@);
    lemma_deleted_not_left(card, p, line, "RRULE"@);
}

/// A patched card is one event in one calendar, whatever stood round the event
/// before.
pub proof fn law_patched_card_is_wrapped(card: Seq<char>, p: PatchModel)
    requires
        plain_card(card),
        good_patch(p),
    ensures
        ({
            let is = content_of(calendar_seal::patched_text(card, p));
            let n = is.len() as int;
            &&& n >= 4
            &&& is[0] == "BEGIN:VCALENDAR"@
            &&& is[1] == "BEGIN:VEVENT"@
            &&& is[n - 2] == "END:VEVENT"@
            &&& is[n - 1] == "END:VCALENDAR"@
        }),
{
    lemma_patch_reads_whole(card, p);
}

} // verus!
