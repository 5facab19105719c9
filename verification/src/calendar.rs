//! Listing a calendar: time windows, pages, rows and reminders.
use vstd::prelude::*;

pub use crate::calendar_cards::{
    decrypt_calendar_event, decrypt_calendar_keys, decrypt_calendar_part, verify_signature,
};
pub use crate::ical::{
    merge_ical_fragments, parse_ical, parse_ical_params, split_ical_line, split_ical_line_full,
    unfold_ical, CalAttendee, ParsedCalendarEvent,
};
pub use crate::rrule::{parse_rrule, RecurrenceSpec, RruleByDay};

use crate::diag;
use crate::error::ProtonError;
use crate::json;
use crate::json::{Json, JsonModel};
use crate::models;
use crate::models::{
    CalendarBootstrap, CalendarEvent, CalendarKey, CalendarMember, CalendarPassphrase,
    CalendarSettings, EventModel,
};
use crate::numbers;
use crate::rows;
use crate::rows::{read_tolerant_row, read_tolerant_rows};
use crate::text;
use crate::text::{chars_of, concat2, concat3, string_of, trimmed};

verus! {

/// Longest time that one listing may span: 93 days.
pub const CALENDAR_MAX_WINDOW_SECS: i64 = 8035200;

/// Rows of one page.
pub const CALENDAR_PAGE_SIZE: u32 = 100;

// ---------------------------------------------------------------------
// Windows
// ---------------------------------------------------------------------

pub open spec fn smaller(a: int, b: int) -> int {
    if a < b {
        a
    } else {
        b
    }
}

/// `[start, end)` in pieces of at most `span`, the last one as long as it
/// takes.
pub open spec fn windows(start: int, end: int, span: int) -> Seq<(i64, i64)>
    decreases end - start,
{
    if end <= start || span <= 0 {
        seq![]
    } else {
        let next = smaller(start + span, end);
        seq![(start as i64, next as i64)] + windows(next, end, span)
    }
}

/// Splits `[start, end)` into pieces of at most `max_span` seconds.
pub fn split_window(start: i64, end: i64, max_span: i64) -> (r: Vec<(i64, i64)>)
    ensures
        r@ == windows(start as int, end as int, max_span as int),
{
    let mut out: Vec<(i64, i64)> = Vec::new();
    if end <= start || max_span <= 0 {
        assert(out@ =~= windows(start as int, end as int, max_span as int));
        return out;
    }
    let mut cur: i64 = start;
    while cur < end
        invariant
            max_span > 0,
            start <= cur <= end,
            out@ + windows(cur as int, end as int, max_span as int) =~= windows(
                start as int,
                end as int,
                max_span as int,
            ),
        decreases end - cur,
    {
        let next: i64 = if cur > i64::MAX - max_span || cur + max_span >= end {
            end
        } else {
            cur + max_span
        };
        out.push((cur, next));
        cur = next;
    }
    assert(out@ =~= windows(start as int, end as int, max_span as int));
    out
}

/// The pieces of a window follow one another without a gap from its start to
/// its end, and none is empty or longer than the span.
pub proof fn law_windows_cover(start: int, end: int, span: int)
    requires
        i64::MIN <= start < end <= i64::MAX,
        0 < span,
    ensures
        windows(start, end, span).len() >= 1,
        windows(start, end, span)[0].0 == start,
        windows(start, end, span).last().1 == end,
        forall|i: int|
            0 <= i < windows(start, end, span).len() ==> 0 < (#[trigger] windows(
                start,
                end,
                span,
            )[i]).1 - windows(start, end, span)[i].0 <= span,
        forall|i: int, j: int|
            0 <= i && j == i + 1 && j < windows(start, end, span).len() ==> #[trigger] windows(
                start,
                end,
                span,
            )[i].1 == #[trigger] windows(start, end, span)[j].0,
    decreases end - start,
{
    let next = smaller(start + span, end);
    let w = windows(start, end, span);
    let rest = windows(next, end, span);
    if next < end {
        law_windows_cover(next, end, span);
        assert(w.last() == rest.last());
        assert forall|i: int| 0 <= i < w.len() implies 0 < (#[trigger] w[i]).1 - w[i].0 <= span by {
            if i > 0 {
                assert(w[i] == rest[i - 1]);
            }
        }
        assert forall|i: int, j: int|
            0 <= i && j == i + 1 && j < w.len() implies #[trigger] w[i].1 == #[trigger] w[j].0 by {
            assert(w[j] == rest[j - 1]);
            if i > 0 {
                assert(w[i] == rest[i - 1]);
            }
        }
    } else {
        assert(rest =~= seq![]);
    }
}

pub open spec fn clamp(n: int) -> int {
    if n < i64::MIN {
        i64::MIN as int
    } else if n > i64::MAX {
        i64::MAX as int
    } else {
        n
    }
}

/// The pieces with a day more on either side.
pub open spec fn padded(w: Seq<(i64, i64)>) -> Seq<(i64, i64)> {
    Seq::new(w.len(), |i: int| (clamp(w[i].0 - 86400) as i64, clamp(w[i].1 + 86400) as i64))
}

/// The windows of a listing: pieces that keep to the longest time that one
/// listing may span, with a day more on either side.
pub fn query_windows(start: i64, end: i64) -> (r: Vec<(i64, i64)>)
    ensures
        r@ == padded(windows(start as int, end as int, CALENDAR_MAX_WINDOW_SECS - 2 * 86400)),
{
    let w: Vec<(i64, i64)> = split_window(start, end, CALENDAR_MAX_WINDOW_SECS - 2 * 86400);
    let mut out: Vec<(i64, i64)> = Vec::new();
    let mut i: usize = 0;
    while i < w.len()
        invariant
            i <= w@.len(),
            out@ =~= padded(w@).take(i as int),
        decreases w@.len() - i,
    {
        let a: i64 = if w[i].0 < i64::MIN + 86400 {
            i64::MIN
        } else {
            w[i].0 - 86400
        };
        let b: i64 = if w[i].1 > i64::MAX - 86400 {
            i64::MAX
        } else {
            w[i].1 + 86400
        };
        out.push((a, b));
        i = i + 1;
    }
    assert(out@ =~= padded(w@));
    out
}

/// With the day on either side, no window of a listing is longer than the
/// longest time that one listing may span.
pub proof fn law_padded_windows_within_cap(start: int, end: int)
    requires
        i64::MIN <= start < end <= i64::MAX,
    ensures
        forall|i: int|
            0 <= i < padded(windows(start, end, CALENDAR_MAX_WINDOW_SECS - 2 * 86400)).len() ==> (
            #[trigger] padded(windows(start, end, CALENDAR_MAX_WINDOW_SECS - 2 * 86400))[i]).1
                - padded(windows(start, end, CALENDAR_MAX_WINDOW_SECS - 2 * 86400))[i].0
                <= CALENDAR_MAX_WINDOW_SECS,
{
    let w = windows(start, end, CALENDAR_MAX_WINDOW_SECS - 2 * 86400);
    law_windows_cover(start, end, CALENDAR_MAX_WINDOW_SECS - 2 * 86400);
    assert forall|i: int| 0 <= i < padded(w).len() implies (#[trigger] padded(w)[i]).1 - padded(
        w,
    )[i].0 <= CALENDAR_MAX_WINDOW_SECS by {
        assert(w[i].1 - w[i].0 <= CALENDAR_MAX_WINDOW_SECS - 2 * 86400);
    }
}

/// The two years round a time that a full listing covers: one year back, one
/// year ahead.
pub fn default_window(now: i64) -> (r: (i64, i64))
    requires
        i64::MIN + 31536000 <= now <= i64::MAX - 31536000,
    ensures
        r == ((now - 31536000) as i64, (now + 31536000) as i64),
{
    (now - 31536000, now + 31536000)
}

// ---------------------------------------------------------------------
// Rows
// ---------------------------------------------------------------------

/// The rows that can be read; the others are left out.
pub open spec fn events_of_jsons(a: Seq<JsonModel>) -> Seq<EventModel>
    decreases a.len(),
{
    if a.len() == 0 {
        seq![]
    } else {
        let init = events_of_jsons(a.drop_last());
        match models::event_of_json(a.last()) {
            Some(e) => init.push(e),
            None => init,
        }
    }
}

pub open spec fn envelope_events(v: JsonModel) -> Seq<EventModel> {
    match json::get(v, "Events"@) {
        Some(JsonModel::Array(a)) => events_of_jsons(a),
        _ => seq![],
    }
}

/// Whether more pages follow: by the `More` flag, else by the `Total`.
pub open spec fn envelope_more(v: JsonModel, page: int) -> bool {
    match json::get(v, "More"@) {
        Some(JsonModel::Bool(b)) => b,
        Some(JsonModel::Number(n)) => models::int_or_zero(n) != 0,
        _ => match json::get(v, "Total"@) {
            Some(JsonModel::Number(n)) => match n.uint {
                Some(total) => page * CALENDAR_PAGE_SIZE < total,
                None => false,
            },
            _ => false,
        },
    }
}

/// Reads one page of a listing: its rows, and whether more pages follow. A
/// row that cannot be read does not lose the others.
pub fn parse_events_envelope(v: &Json, page: u32) -> (r: (Vec<CalendarEvent>, bool))
    ensures
        models::events_view(r.0@) == envelope_events(v@),
        r.1 == envelope_more(v@, page as int),
{
    let mut events: Vec<CalendarEvent> = Vec::new();
    assert(models::events_view(events@) =~= seq![]);
    if let Some(Json::Array(a)) = v.get("Events") {
        proof {
            json::lemma_array_model(*a);
        }
        let ghost t = json::models(a@);
        let mut i: usize = 0;
        while i < a.len()
            invariant
                i <= a@.len(),
                t == json::models(a@),
                models::events_view(events@) == events_of_jsons(t.take(i as int)),
            decreases a@.len() - i,
        {
            assert(t.take(i + 1).drop_last() =~= t.take(i as int));
            assert(t.take(i + 1).last() == a@[i as int]@);
            match CalendarEvent::from_json(&a[i]) {
                Some(e) => {
                    let ghost before = models::events_view(events@);
                    let ghost ev = e@;
                    events.push(e);
                    assert(models::events_view(events@) =~= before.push(ev));
                },
                None => {},
            }
            i = i + 1;
        }
        assert(t.take(t.len() as int) =~= t);
    }
    let more: bool = match v.get("More") {
        Some(Json::Bool(b)) => *b,
        Some(Json::Number(n)) => match n.int {
            Some(i) => i != 0,
            None => false,
        },
        _ => match v.get("Total") {
            Some(Json::Number(n)) => match n.uint {
                Some(total) => (page as u64) * (CALENDAR_PAGE_SIZE as u64) < total,
                None => false,
            },
            _ => false,
        },
    };
    (events, more)
}

/// Whether a row belongs to a window: it recurs, or it overlaps the window.
/// The times of a recurring row are those of its first occurrence only.
pub open spec fn in_window(e: EventModel, start: int, end: int) -> bool {
    ||| (e.rrule matches Some(r) && r.len() > 0)
    ||| e.start_time < end && e.end_time > start
}

pub open spec fn windowed(evs: Seq<EventModel>, start: int, end: int) -> Seq<EventModel>
    decreases evs.len(),
{
    if evs.len() == 0 {
        seq![]
    } else {
        let init = windowed(evs.drop_last(), start, end);
        if in_window(evs.last(), start, end) {
            init.push(evs.last())
        } else {
            init
        }
    }
}

/// A window holds the rows that belong to it and no others; one that recurs
/// is never left out.
pub proof fn law_window_rows(evs: Seq<EventModel>, start: int, end: int, e: EventModel)
    ensures
        windowed(evs, start, end).contains(e) <==> evs.contains(e) && in_window(e, start, end),
        evs.contains(e) && (e.rrule matches Some(r) && r.len() > 0) ==> windowed(
            evs,
            start,
            end,
        ).contains(e),
    decreases evs.len(),
{
    if evs.len() > 0 {
        let rest = evs.drop_last();
        let kept = windowed(rest, start, end);
        let all = windowed(evs, start, end);
        law_window_rows(rest, start, end, e);
        assert(evs =~= rest.push(evs.last()));
        if all.contains(e) {
            let i = choose|i: int| 0 <= i < all.len() && all[i] == e;
            if i < kept.len() {
                assert(kept[i] == e);
                let j = choose|j: int| 0 <= j < rest.len() && rest[j] == e;
                assert(evs[j] == e);
            } else {
                assert(evs[evs.len() - 1] == e);
            }
        }
        if evs.contains(e) && in_window(e, start, end) {
            let i = choose|i: int| 0 <= i < evs.len() && evs[i] == e;
            if i < rest.len() {
                assert(rest[i] == e);
                let j = choose|j: int| 0 <= j < kept.len() && kept[j] == e;
                assert(all[j] == e);
            } else {
                assert(all[all.len() - 1] == e);
            }
        }
    }
}

/// Whether a row belongs to a window.
pub fn keeps_event(e: &CalendarEvent, start: i64, end: i64) -> (r: bool)
    ensures
        r == in_window(e@, start as int, end as int),
{
    let recurring: bool = match &e.RRule {
        Some(rule) => !text::is_empty(rule.as_str()),
        None => false,
    };
    recurring || (e.StartTime < end && e.EndTime > start)
}

/// The first row of each ID.
pub open spec fn unique_events(evs: Seq<EventModel>) -> Seq<EventModel>
    decreases evs.len(),
{
    if evs.len() == 0 {
        seq![]
    } else {
        let init = unique_events(evs.drop_last());
        if has_id(init, evs.last().id) {
            init
        } else {
            init.push(evs.last())
        }
    }
}

pub open spec fn has_id(evs: Seq<EventModel>, id: Seq<char>) -> bool {
    exists|i: int| 0 <= i < evs.len() && (#[trigger] evs[i]).id == id
}

fn id_in(evs: &Vec<CalendarEvent>, id: &str) -> (r: bool)
    ensures
        r == has_id(models::events_view(evs@), id@),
{
    let ghost t = models::events_view(evs@);
    let mut i: usize = 0;
    while i < evs.len()
        invariant
            i <= evs@.len(),
            t == models::events_view(evs@),
            forall|j: int| 0 <= j < i ==> (#[trigger] t[j]).id != id@,
        decreases evs@.len() - i,
    {
        assert(t[i as int].id == evs@[i as int].ID@);
        if text::text_eq(evs[i].ID.as_str(), id) {
            return true;
        }
        i = i + 1;
    }
    false
}

/// Keeps the first row of each ID.
pub fn dedupe_events(evs: &mut Vec<CalendarEvent>)
    ensures
        models::events_view(final(evs)@) == unique_events(models::events_view(old(evs)@)),
{
    let ghost t = models::events_view(evs@);
    let mut rest: Vec<CalendarEvent> = Vec::new();
    std::mem::swap(&mut rest, evs);
    assert(models::events_view(evs@) =~= seq![]);
    let total: usize = rest.len();
    let mut i: usize = 0;
    assert(models::events_view(rest@) =~= t.skip(0));
    while i < total
        invariant
            i <= total,
            total == t.len(),
            rest@.len() == total - i,
            models::events_view(rest@) == t.skip(i as int),
            models::events_view(evs@) == unique_events(t.take(i as int)),
        decreases total - i,
    {
        assert(t.take(i + 1).drop_last() =~= t.take(i as int));
        let ghost before = models::events_view(evs@);
        let ghost left = models::events_view(rest@);
        let ghost left_rows = rest@;
        let e: CalendarEvent = rest.remove(0);
        assert(e@ == left[0]);
        assert(rest@ =~= left_rows.skip(1));
        assert(models::events_view(rest@) =~= left.skip(1));
        assert(models::events_view(rest@) =~= t.skip(i + 1));
        if !id_in(evs, e.ID.as_str()) {
            let ghost ev = e@;
            evs.push(e);
            assert(models::events_view(evs@) =~= before.push(ev));
        }
        i = i + 1;
    }
    assert(t.take(t.len() as int) =~= t);
}

/// After deduplication every ID that was there is there once, with the row
/// that came first.
pub proof fn law_unique_events(evs: Seq<EventModel>)
    ensures
        forall|i: int, j: int|
            0 <= i < j < unique_events(evs).len() ==> (#[trigger] unique_events(evs)[i]).id != (
            #[trigger] unique_events(evs)[j]).id,
        forall|i: int| 0 <= i < evs.len() ==> has_id(unique_events(evs), (#[trigger] evs[i]).id),
        forall|i: int|
            0 <= i < unique_events(evs).len() ==> evs.contains(#[trigger] unique_events(evs)[i]),
    decreases evs.len(),
{
    if evs.len() > 0 {
        let init = evs.drop_last();
        let done = unique_events(init);
        let r = unique_events(evs);
        law_unique_events(init);
        assert forall|i: int| 0 <= i < evs.len() implies has_id(r, (#[trigger] evs[i]).id) by {
            if i < init.len() {
                assert(has_id(done, init[i].id));
                let k = choose|k: int| 0 <= k < done.len() && (#[trigger] done[k]).id == init[i].id;
                assert(r[k].id == evs[i].id);
            } else if has_id(done, evs.last().id) {
                assert(r == done);
            } else {
                assert(r[r.len() - 1].id == evs[i].id);
            }
        }
        assert forall|i: int| 0 <= i < r.len() implies evs.contains(#[trigger] r[i]) by {
            if i < done.len() {
                assert(init.contains(done[i]));
                let k = choose|k: int| 0 <= k < init.len() && init[k] == done[i];
                assert(evs[k] == r[i]);
            } else {
                assert(evs[evs.len() - 1] == r[i]);
            }
        }
    }
}

/// The page to ask for next: none when no more follow or behind the last
/// page that is asked for.
pub fn next_page(page: u32, more: bool, last: u32) -> (r: Option<u32>)
    requires
        page < u32::MAX,
    ensures
        r == (if more && page < last {
            Some((page + 1) as u32)
        } else {
            None
        }),
{
    if more && page < last {
        Some(page + 1)
    } else {
        None
    }
}

/// Why an answer of an untyped listing is refused: its status, or a body that
/// is no JSON.
pub open spec fn untyped_error(status: u16, body: Seq<char>, e: ProtonError) -> bool {
    match e {
        ProtonError::Auth(m) => status != 200 && m@ == "Untyped events query failed "@
            + numbers::decimal(status as nat) + ": "@ + (if body.len() <= 200 {
            body
        } else {
            body.take(200)
        }),
        ProtonError::Serde(m) => status == 200 && (json::json_of_text(body) matches Err(t) && m@
            == t),
        _ => false,
    }
}

/// What one answer of an untyped listing means: the rows of the window and
/// whether more pages follow, or the error.
pub fn untyped_page(
    status: u16,
    body: &str,
    page: u32,
    start: i64,
    end: i64,
) -> (r: Result<(Vec<CalendarEvent>, bool), ProtonError>)
    ensures
        match r {
            Ok(p) => status == 200 && (json::json_of_text(body@) matches Ok(v)
                && models::events_view(p.0@) == windowed(
                envelope_events(v),
                start as int,
                end as int,
            ) && p.1 == envelope_more(v, page as int)),
            Err(e) => untyped_error(status, body@, e),
        },
{
    if status != 200 {
        let v: Vec<char> = chars_of(body);
        let n: usize = if v.len() <= 200 {
            v.len()
        } else {
            200
        };
        let head: String = string_of(&v, 0, n);
        assert(head@ =~= (if body@.len() <= 200 {
            body@
        } else {
            body@.take(200)
        }));
        let code: String = concat3(
            "Untyped events query failed ",
            numbers::decimal_text(status as u64).as_str(),
            ": ",
        );
        return Err(ProtonError::Auth(concat2(code.as_str(), head.as_str())));
    }
    let v: Json = match json::parse_json(body) {
        Ok(v) => v,
        Err(e) => {
            return Err(ProtonError::Serde(e));
        },
    };
    let (evs, more): (Vec<CalendarEvent>, bool) = parse_events_envelope(&v, page);
    Ok((keep_window(evs, start, end), more))
}

fn keep_window(evs: Vec<CalendarEvent>, start: i64, end: i64) -> (r: Vec<CalendarEvent>)
    ensures
        models::events_view(r@) == windowed(
            models::events_view(evs@),
            start as int,
            end as int,
        ),
{
    let ghost t = models::events_view(evs@);
    let mut rest: Vec<CalendarEvent> = evs;
    let mut out: Vec<CalendarEvent> = Vec::new();
    let total: usize = rest.len();
    let mut i: usize = 0;
    assert(models::events_view(out@) =~= seq![]);
    assert(models::events_view(rest@) =~= t.skip(0));
    while i < total
        invariant
            i <= total,
            total == t.len(),
            rest@.len() == total - i,
            models::events_view(rest@) == t.skip(i as int),
            models::events_view(out@) == windowed(t.take(i as int), start as int, end as int),
        decreases total - i,
    {
        assert(t.take(i + 1).drop_last() =~= t.take(i as int));
        let ghost before = models::events_view(out@);
        let ghost left = models::events_view(rest@);
        let ghost left_rows = rest@;
        let e: CalendarEvent = rest.remove(0);
        assert(e@ == left[0]);
        assert(rest@ =~= left_rows.skip(1));
        assert(models::events_view(rest@) =~= left.skip(1));
        assert(models::events_view(rest@) =~= t.skip(i + 1));
        if keeps_event(&e, start, end) {
            let ghost ev = e@;
            out.push(e);
            assert(models::events_view(out@) =~= before.push(ev));
        }
        i = i + 1;
    }
    assert(t.take(t.len() as int) =~= t);
    out
}

// ---------------------------------------------------------------------
// Settings
// ---------------------------------------------------------------------

/// Settings that hold any default reminder.
pub open spec fn usable(s: Option<CalendarSettings>) -> bool {
    match s {
        Some(v) => !(models::no_entries(v.DefaultPartDayNotifications) && models::no_entries(
            v.DefaultFullDayNotifications,
        )),
        None => false,
    }
}

/// The settings, unless they are empty.
pub fn usable_settings(s: Option<CalendarSettings>) -> (r: Option<CalendarSettings>)
    ensures
        r == (if usable(s) {
            s
        } else {
            None
        }),
{
    match s {
        Some(v) => if v.is_empty() {
            None
        } else {
            Some(v)
        },
        None => None,
    }
}

/// The calendar that the consolidated route describes; none when it brings
/// neither members nor keys nor a passphrase, so that the single routes have
/// to be asked.
pub fn bootstrap_from_parts(
    members: Vec<CalendarMember>,
    keys: Vec<CalendarKey>,
    passphrase: Option<CalendarPassphrase>,
    settings: Option<CalendarSettings>,
) -> (r: Option<CalendarBootstrap>)
    ensures
        r == (if members@.len() > 0 || keys@.len() > 0 || passphrase is Some {
            Some(
                CalendarBootstrap {
                    Members: members,
                    Keys: keys,
                    Passphrase: passphrase,
                    Settings: settings,
                },
            )
        } else {
            None
        }),
{
    if members.len() > 0 || keys.len() > 0 || passphrase.is_some() {
        Some(
            CalendarBootstrap {
                Members: members,
                Keys: keys,
                Passphrase: passphrase,
                Settings: settings,
            },
        )
    } else {
        None
    }
}

/// The calendar that the single routes describe: what a route did not bring
/// is empty, and settings count only where they are usable.
pub fn bootstrap_from_routes(
    members: Option<Vec<CalendarMember>>,
    keys: Option<Vec<CalendarKey>>,
    passphrase: Option<CalendarPassphrase>,
    settings: Option<CalendarSettings>,
) -> (r: CalendarBootstrap)
    ensures
        match members {
            Some(m) => r.Members == m,
            None => r.Members@.len() == 0,
        },
        match keys {
            Some(k) => r.Keys == k,
            None => r.Keys@.len() == 0,
        },
        r.Passphrase == passphrase,
        r.Settings == (if usable(settings) {
            settings
        } else {
            None
        }),
{
    CalendarBootstrap {
        Members: match members {
            Some(m) => m,
            None => Vec::new(),
        },
        Keys: match keys {
            Some(k) => k,
            None => Vec::new(),
        },
        Passphrase: passphrase,
        Settings: usable_settings(settings),
    }
}

/// Whether settings bring default reminders.
pub open spec fn brings_reminders(s: models::SettingsModel) -> bool {
    s.part_day is Some && s.part_day->Some_0.len() > 0 || s.full_day is Some
        && s.full_day->Some_0.len() > 0
}

/// The settings in the answer of the consolidated route; none when they are
/// absent, unreadable or empty.
pub open spec fn settings_in(v: JsonModel) -> Option<models::SettingsModel> {
    match json::get(v, "CalendarSettings"@) {
        Some(j) => {
            let s = models::settings_of_json(j);
            if brings_reminders(s) {
                Some(s)
            } else {
                None
            }
        },
        None => None,
    }
}

/// Reads the answer of the consolidated route: a list that cannot be read is
/// empty, a passphrase that cannot be read is absent. None when nothing is
/// left, so that the single routes have to be asked.
pub fn bootstrap_of_json(v: &Json) -> (r: Option<CalendarBootstrap>)
    ensures
        ({
            let members = rows::tolerant_rows::<CalendarMember>(json::get(v@, "Members"@));
            let keys = rows::tolerant_rows::<CalendarKey>(json::get(v@, "Keys"@));
            let passphrase = rows::tolerant_row::<CalendarPassphrase>(
                json::get(v@, "Passphrase"@),
            );
            match r {
                Some(b) => {
                    &&& members.len() > 0 || keys.len() > 0 || passphrase is Some
                    &&& rows::views(b.Members@) == members
                    &&& rows::views(b.Keys@) == keys
                    &&& rows::option_view(b.Passphrase) == passphrase
                    &&& rows::option_view(b.Settings) == settings_in(v@)
                },
                None => members.len() == 0 && keys.len() == 0 && passphrase is None,
            }
        }),
{
    let members: Vec<CalendarMember> = read_tolerant_rows(v.get("Members"));
    let keys: Vec<CalendarKey> = read_tolerant_rows(v.get("Keys"));
    let passphrase: Option<CalendarPassphrase> = read_tolerant_row(v.get("Passphrase"));
    let settings: Option<CalendarSettings> = match v.get("CalendarSettings") {
        Some(j) => usable_settings(Some(CalendarSettings::from_json(j))),
        None => None,
    };
    bootstrap_from_parts(members, keys, passphrase, settings)
}

/// Whether the settings have to be asked for on their own.
pub fn needs_settings(boot: &CalendarBootstrap) -> (r: bool)
    ensures
        r == !usable(boot.Settings),
{
    match &boot.Settings {
        Some(s) => s.is_empty(),
        None => true,
    }
}

/// The settings in a response, wrapped or bare, and the text to log.
pub fn settings_of_response(v: &Json, status: u16) -> (r: (CalendarSettings, String))
    ensures
        r.0@ == models::settings_of_json(
            match json::get(v@, "CalendarSettings"@) {
                Some(inner) => inner,
                None => v@,
            },
        ),
        r.1@ == "http"@ + numbers::decimal(status as nat) + " "@ + diag::capped(
            json::pretty_text(json::stored(diag::scrubbed(v@))),
        ),
{
    let head: String = concat3("http", numbers::decimal_text(status as u64).as_str(), " ");
    let body: String = concat2(head.as_str(), diag::diag_body(v).as_str());
    let settings: CalendarSettings = match v.get("CalendarSettings") {
        Some(inner) => CalendarSettings::from_json(inner),
        None => CalendarSettings::from_json(v),
    };
    (settings, body)
}

// ---------------------------------------------------------------------
// Reminders
// ---------------------------------------------------------------------

/// One reminder: `display` or `email`, and the signed seconds from the start
/// of the event (negative is before).
#[derive(Debug, Clone, PartialEq, Eq)]
pub struct CalNotification {
    pub action: String,
    pub offset_secs: i64,
}

impl Default for CalNotification {
    fn default() -> (r: CalNotification)
        ensures
            r.action@ == Seq::<char>::empty(),
            r.offset_secs == 0,
    {
        CalNotification { action: String::new(), offset_secs: 0 }
    }
}

/// Number of digits at the head of `s`.
pub open spec fn digit_run(s: Seq<char>) -> int
    decreases s.len(),
{
    if s.len() > 0 && numbers::is_digit(s[0]) {
        1 + digit_run(s.skip(1))
    } else {
        0
    }
}

/// Seconds of a unit.
pub open spec fn unit_secs(units: Seq<(char, i64)>, c: char) -> Option<int>
    decreases units.len(),
{
    if units.len() == 0 {
        None
    } else if units[0].0 == c {
        Some(units[0].1 as int)
    } else {
        unit_secs(units.skip(1), c)
    }
}

/// The seconds of a run of numbers with their units, such as `1H30M`.
pub open spec fn duration_secs(s: Seq<char>, units: Seq<(char, i64)>) -> Option<int>
    decreases s.len(),
{
    let k = digit_run(s);
    if s.len() == 0 {
        Some(0)
    } else if !(0 < k < s.len()) {
        None
    } else {
        match (unit_secs(units, s[k]), duration_secs(s.skip(k + 1), units)) {
            (Some(u), Some(rest)) => Some(numbers::digits_value(s.take(k)) * u + rest),
            _ => None,
        }
    }
}

/// The seconds of a part, where they fit 64 bits.
pub open spec fn part_secs(s: Seq<char>, units: Seq<(char, i64)>) -> Option<int> {
    numbers::within(duration_secs(s, units), 0, i64::MAX as int)
}

pub open spec fn date_units() -> Seq<(char, i64)> {
    seq![('W', 604800i64), ('D', 86400i64)]
}

pub open spec fn time_units() -> Seq<(char, i64)> {
    seq![('H', 3600i64), ('M', 60i64), ('S', 1i64)]
}

/// The signed seconds of a trigger: an optional sign, `P`, weeks and days,
/// then `T` and hours, minutes and seconds.
pub open spec fn trigger_secs(text: Seq<char>) -> Option<int> {
    let s = text::trim(text);
    let neg = s.len() > 0 && s[0] == '-';
    let body = if s.len() > 0 && (s[0] == '-' || s[0] == '+') {
        s.skip(1)
    } else {
        s
    };
    let rest = body.skip(1);
    let t = text::find(rest, 'T');
    let time = if t < rest.len() {
        rest.skip(t + 1)
    } else {
        seq![]
    };
    if body.len() == 0 || body[0] != 'P' {
        None
    } else {
        match (part_secs(rest.take(t), date_units()), part_secs(time, time_units())) {
            (Some(a), Some(b)) => if a + b <= i64::MAX {
                Some(
                    if neg {
                        -(a + b)
                    } else {
                        a + b
                    },
                )
            } else {
                None
            },
            _ => None,
        }
    }
}

fn run_of_digits(v: &Vec<char>, from: usize) -> (r: usize)
    requires
        from <= v@.len(),
    ensures
        from <= r <= v@.len(),
        r - from == digit_run(v@.skip(from as int)),
        numbers::all_digits(v@.subrange(from as int, r as int)),
{
    let mut i: usize = from;
    let ghost s = v@.skip(from as int);
    while i < v.len() && numbers::digit(v[i])
        invariant
            from <= i <= v@.len(),
            s == v@.skip(from as int),
            digit_run(s) == (i - from) + digit_run(v@.skip(i as int)),
            forall|j: int| from <= j < i ==> numbers::is_digit(#[trigger] v@[j]),
        decreases v@.len() - i,
    {
        assert(v@.skip(i as int).skip(1) =~= v@.skip(i + 1));
        assert(v@.skip(i as int)[0] == v@[i as int]);
        i = i + 1;
    }
    assert(i < v@.len() ==> v@.skip(i as int)[0] == v@[i as int]);
    assert forall|j: int| 0 <= j < i - from implies numbers::is_digit(
        #[trigger] v@.subrange(from as int, i as int)[j],
    ) by {
        assert(v@[j + from] == v@.subrange(from as int, i as int)[j]);
    }
    i
}

fn secs_of_unit(units: &[(char, i64)], c: char) -> (r: Option<i64>)
    ensures
        match r {
            Some(n) => unit_secs(units@, c) == Some(n as int),
            None => unit_secs(units@, c) is None,
        },
{
    let mut i: usize = 0;
    assert(units@.skip(0) =~= units@);
    while i < units.len()
        invariant
            i <= units@.len(),
            unit_secs(units@, c) == unit_secs(units@.skip(i as int), c),
        decreases units@.len() - i,
    {
        assert(units@.skip(i as int)[0] == units@[i as int]);
        assert(units@.skip(i as int).skip(1) =~= units@.skip(i + 1));
        if units[i].0 == c {
            return Some(units[i].1);
        }
        i = i + 1;
    }
    None
}

proof fn lemma_unit_positive(units: Seq<(char, i64)>, c: char)
    requires
        forall|i: int| 0 <= i < units.len() ==> 1 <= (#[trigger] units[i]).1,
    ensures
        unit_secs(units, c) matches Some(n) ==> n >= 1,
    decreases units.len(),
{
    if units.len() > 0 {
        let t = units.skip(1);
        assert forall|i: int| 0 <= i < t.len() implies 1 <= (#[trigger] t[i]).1 by {
            assert(t[i] == units[i + 1]);
        }
        lemma_unit_positive(t, c);
        assert(units[0].1 >= 1);
    }
}

proof fn lemma_digit_run(s: Seq<char>)
    ensures
        0 <= digit_run(s) <= s.len(),
        numbers::all_digits(s.take(digit_run(s))),
    decreases s.len(),
{
    if s.len() > 0 && numbers::is_digit(s[0]) {
        lemma_digit_run(s.skip(1));
        let k = digit_run(s);
        assert forall|j: int| 0 <= j < k implies numbers::is_digit(#[trigger] s.take(k)[j]) by {
            if j > 0 {
                assert(s.skip(1).take(k - 1)[j - 1] == s[j]);
            }
        }
    }
}

proof fn lemma_duration_nonneg(s: Seq<char>, units: Seq<(char, i64)>)
    requires
        forall|i: int| 0 <= i < units.len() ==> 1 <= (#[trigger] units[i]).1,
    ensures
        duration_secs(s, units) matches Some(n) ==> n >= 0,
    decreases s.len(),
{
    let k = digit_run(s);
    lemma_digit_run(s);
    if s.len() > 0 && 0 < k < s.len() {
        lemma_duration_nonneg(s.skip(k + 1), units);
        lemma_unit_positive(units, s[k]);
        let d = s.take(k);
        numbers::lemma_digits_value_grows(d, 0);
        if let Some(u) = unit_secs(units, s[k]) {
            let v = numbers::digits_value(d);
            assert(v * u >= 0) by (nonlinear_arith)
                requires
                    v >= 0,
                    u >= 1,
            ;
        }
    }
}

/// Reads a run of numbers with their units.
fn parse_duration_part(s: &str, units: &[(char, i64)]) -> (r: Option<i64>)
    requires
        forall|i: int| 0 <= i < units@.len() ==> 1 <= (#[trigger] units@[i]).1,
    ensures
        match r {
            Some(n) => part_secs(s@, units@) == Some(n as int),
            None => part_secs(s@, units@) is None,
        },
{
    let v: Vec<char> = chars_of(s);
    let mut total: i64 = 0;
    let mut i: usize = 0;
    assert(v@.skip(0) =~= v@);
    while i < v.len()
        invariant
            i <= v@.len(),
            v@ == s@,
            total >= 0,
            forall|j: int| 0 <= j < units@.len() ==> 1 <= (#[trigger] units@[j]).1,
            duration_secs(s@, units@) == (match duration_secs(v@.skip(i as int), units@) {
                Some(n) => Some(total + n),
                None => None,
            }),
        decreases v@.len() - i,
    {
        let ghost rest = v@.skip(i as int);
        let k: usize = run_of_digits(&v, i);
        proof {
            lemma_duration_nonneg(rest, units@);
        }
        if k == i || k == v.len() {
            return None;
        }
        assert(rest[k - i] == v@[k as int]);
        assert(rest.skip(k - i + 1) =~= v@.skip(k + 1));
        let num: String = string_of(&v, i, k);
        assert(num@ =~= rest.take(k - i));
        let ghost val = numbers::digits_value(num@);
        proof {
            lemma_duration_nonneg(v@.skip(k + 1), units@);
            lemma_unit_positive(units@, v@[k as int]);
            numbers::lemma_digits_value_grows(num@, 0);
            assert(numbers::is_digit(num@[0]));
        }
        let u: i64 = match secs_of_unit(units, v[k]) {
            Some(u) => u,
            None => {
                return None;
            },
        };
        proof {
            assert(val * u >= val) by (nonlinear_arith)
                requires
                    val >= 0,
                    u >= 1,
            ;
        }
        let n: i64 = match numbers::parse_i64(num.as_str()) {
            Some(n) => n,
            None => {
                return None;
            },
        };
        assert(n == val);
        let product: i64 = match n.checked_mul(u) {
            Some(p) => p,
            None => {
                return None;
            },
        };
        if product > i64::MAX - total {
            return None;
        }
        total = total + product;
        i = k + 1;
    }
    assert(v@.skip(i as int) =~= seq![]);
    Some(total)
}

/// Reads a reminder trigger (`-PT15M`, `-PT1H`, `-P1D`, `-P1W`, with an
/// optional sign) as signed seconds. Months and anything else give none.
#[verifier::spinoff_prover]
#[verifier::rlimit(40)]
pub fn parse_notification_trigger(s: &str) -> (r: Option<i64>)
    ensures
        match r {
            Some(n) => trigger_secs(s@) == Some(n as int),
            None => trigger_secs(s@) is None,
        },
{
    let t: String = trimmed(s);
    let v: Vec<char> = chars_of(t.as_str());
    let neg: bool = v.len() > 0 && v[0] == '-';
    let from: usize = if v.len() > 0 && (v[0] == '-' || v[0] == '+') {
        1
    } else {
        0
    };
    let ghost body = if t@.len() > 0 && (t@[0] == '-' || t@[0] == '+') {
        t@.skip(1)
    } else {
        t@
    };
    assert(body =~= v@.skip(from as int));
    if from == v.len() || v[from] != 'P' {
        return None;
    }
    let ghost rest = body.skip(1);
    assert(rest =~= v@.skip(from + 1));
    let at: usize = text::find_char(&v, from + 1, 'T');
    let date: String = string_of(&v, from + 1, at);
    assert(date@ =~= rest.take(at - from - 1));
    let time: String = if at < v.len() {
        string_of(&v, at + 1, v.len())
    } else {
        String::new()
    };
    assert(time@ =~= (if at - from - 1 < rest.len() {
        rest.skip(at - from)
    } else {
        seq![]
    }));
    let du: [(char, i64); 2] = [('W', 604800), ('D', 86400)];
    let tu: [(char, i64); 3] = [('H', 3600), ('M', 60), ('S', 1)];
    assert(du@ =~= date_units());
    assert(tu@ =~= time_units());
    let a: i64 = match parse_duration_part(date.as_str(), du.as_slice()) {
        Some(a) => a,
        None => {
            return None;
        },
    };
    let b: i64 = match parse_duration_part(time.as_str(), tu.as_slice()) {
        Some(b) => b,
        None => {
            return None;
        },
    };
    if a > i64::MAX - b {
        return None;
    }
    if neg {
        Some(-(a + b))
    } else {
        Some(a + b)
    }
}

} // verus!
