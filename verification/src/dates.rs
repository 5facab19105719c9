//! Dates of the proleptic Gregorian calendar and their iCalendar forms.
use vstd::prelude::*;

use crate::numbers;
use crate::numbers::padded_text;
use crate::text;
use crate::text::{copy_text, push_text};

verus! {

/// A date and a time of day in UTC.
#[derive(Debug, Clone, Copy, PartialEq, Eq)]
pub struct Civil {
    pub year: i32,
    pub month: u32,
    pub day: u32,
    pub hour: u32,
    pub minute: u32,
    pub second: u32,
}

pub open spec fn is_leap(y: int) -> bool {
    y % 4 == 0 && (y % 100 != 0 || y % 400 == 0)
}

/// Days from the start of year 1 to the start of year `y`.
pub open spec fn days_before_year(y: int) -> int {
    365 * (y - 1) + (y - 1) / 4 - (y - 1) / 100 + (y - 1) / 400
}

/// Days from the start of year `y` to the start of its month `m`.
pub open spec fn days_before_month(y: int, m: int) -> int {
    let leap: int = if is_leap(y) && m > 2 {
        1
    } else {
        0
    };
    leap + (if m <= 1 {
        0int
    } else if m == 2 {
        31
    } else if m == 3 {
        59
    } else if m == 4 {
        90
    } else if m == 5 {
        120
    } else if m == 6 {
        151
    } else if m == 7 {
        181
    } else if m == 8 {
        212
    } else if m == 9 {
        243
    } else if m == 10 {
        273
    } else if m == 11 {
        304
    } else if m == 12 {
        334
    } else {
        365
    })
}

/// Days from 1970-01-01 to the given date.
pub open spec fn epoch_day(y: int, m: int, d: int) -> int {
    days_before_year(y) + days_before_month(y, m) + d - 1 - 719162
}

/// Seconds from 1970-01-01T00:00:00Z, leap seconds not counted.
pub open spec fn unix_seconds(c: Civil) -> int {
    epoch_day(c.year as int, c.month as int, c.day as int) * 86400 + c.hour * 3600 + c.minute * 60
        + c.second
}

/// A day that the calendar has, and a time of that day.
pub open spec fn is_civil(c: Civil) -> bool {
    &&& 1 <= c.month <= 12
    &&& 1 <= c.day <= days_before_month(c.year as int, c.month + 1) - days_before_month(
        c.year as int,
        c.month as int,
    )
    &&& c.hour < 24
    &&& c.minute < 60
    &&& c.second < 60
}

/// First and last second that `chrono` has a date for.
pub open spec fn min_unix() -> int {
    epoch_day(-262143, 1, 1) * 86400
}

pub open spec fn max_unix() -> int {
    epoch_day(262142, 12, 31) * 86400 + 86399
}

/// `chrono::DateTime::from_timestamp` with no nanoseconds, taken apart by
/// the `Datelike` and `Timelike` getters: the date and time in UTC of a unix
/// time, and none outside the years -262143 to 262142.
#[verifier::external_body]
fn civil_of_unix(unix: i64) -> (r: Option<Civil>)
    ensures
        match r {
            Some(c) => is_civil(c) && unix_seconds(c) == unix && -262143 <= c.year <= 262142,
            None => unix < min_unix() || unix > max_unix(),
        },
{
    let dt = chrono::DateTime::from_timestamp(unix, 0)?;
    Some(Civil {
        year: chrono::Datelike::year(&dt),
        month: chrono::Datelike::month(&dt),
        day: chrono::Datelike::day(&dt),
        hour: chrono::Timelike::hour(&dt),
        minute: chrono::Timelike::minute(&dt),
        second: chrono::Timelike::second(&dt),
    })
}

/// A year of four digits; outside 0 to 9999 it carries its sign.
pub open spec fn year_text(y: int) -> Seq<char> {
    if y < 0 {
        seq!['-'] + numbers::padded((-y) as nat, 4)
    } else if y > 9999 {
        seq!['+'] + numbers::padded(y as nat, 4)
    } else {
        numbers::padded(y as nat, 4)
    }
}

/// `YYYYMMDD`.
pub open spec fn date_text(c: Civil) -> Seq<char> {
    year_text(c.year as int) + numbers::padded(c.month as nat, 2) + numbers::padded(c.day as nat, 2)
}

/// `HHMMSS`.
pub open spec fn time_text(c: Civil) -> Seq<char> {
    numbers::padded(c.hour as nat, 2) + numbers::padded(c.minute as nat, 2) + numbers::padded(
        c.second as nat,
        2,
    )
}

/// What follows the name of a date property: `;VALUE=DATE:` and the date.
pub open spec fn date_body(c: Civil) -> Seq<char> {
    ";VALUE=DATE:"@ + date_text(c)
}

/// What follows the name of a date-time property in UTC.
pub open spec fn date_time_body(c: Civil) -> Seq<char> {
    ":"@ + date_text(c) + "T"@ + time_text(c) + "Z"@
}

fn write_date(out: &mut String, c: Civil)
    ensures
        final(out)@ == old(out)@ + date_text(c),
{
    let ghost start = out@;
    let y: i64 = c.year as i64;
    if y < 0 {
        out.push('-');
        push_text(out, padded_text((-y) as u64, 4).as_str());
    } else {
        if y > 9999 {
            out.push('+');
        }
        push_text(out, padded_text(y as u64, 4).as_str());
    }
    assert(out@ =~= start + year_text(c.year as int));
    push_text(out, padded_text(c.month as u64, 2).as_str());
    push_text(out, padded_text(c.day as u64, 2).as_str());
    assert(out@ =~= start + date_text(c));
}

// ---------------------------------------------------------------------
// One date per time
// ---------------------------------------------------------------------

pub proof fn lemma_year_length(y: int)
    ensures
        days_before_year(y + 1) == days_before_year(y) + days_before_month(y, 13),
{
}

proof fn lemma_years_ascend(y: int, z: int)
    requires
        y <= z,
    ensures
        days_before_year(y) <= days_before_year(z),
    decreases z - y,
{
    if y < z {
        lemma_years_ascend(y, z - 1);
        lemma_year_length(z - 1);
    }
}

proof fn lemma_day_in_year(c: Civil)
    requires
        is_civil(c),
    ensures
        0 <= days_before_month(c.year as int, c.month as int) + c.day - 1 < days_before_month(
            c.year as int,
            13,
        ),
{
}

proof fn lemma_one_year(a: Civil, b: Civil)
    requires
        is_civil(a),
        is_civil(b),
        a.year < b.year,
    ensures
        epoch_day(a.year as int, a.month as int, a.day as int) < epoch_day(
            b.year as int,
            b.month as int,
            b.day as int,
        ),
{
    lemma_day_in_year(a);
    lemma_day_in_year(b);
    lemma_year_length(a.year as int);
    lemma_years_ascend(a.year + 1, b.year as int);
}

proof fn lemma_one_month(y: int, m: int, d: int, n: int, e: int)
    requires
        1 <= m < n <= 12,
        1 <= d <= days_before_month(y, m + 1) - days_before_month(y, m),
        1 <= e,
    ensures
        days_before_month(y, m) + d < days_before_month(y, n) + e,
{
}

/// A unix time belongs to one date and time of day only.
pub proof fn law_one_civil_per_second(a: Civil, b: Civil)
    requires
        is_civil(a),
        is_civil(b),
        unix_seconds(a) == unix_seconds(b),
    ensures
        a == b,
{
    let da = epoch_day(a.year as int, a.month as int, a.day as int);
    let db = epoch_day(b.year as int, b.month as int, b.day as int);
    assert(da == db);
    if a.year < b.year {
        lemma_one_year(a, b);
    }
    if b.year < a.year {
        lemma_one_year(b, a);
    }
    if a.month < b.month {
        lemma_one_month(a.year as int, a.month as int, a.day as int, b.month as int, b.day as int);
    }
    if b.month < a.month {
        lemma_one_month(a.year as int, b.month as int, b.day as int, a.month as int, a.day as int);
    }
}

pub proof fn lemma_civil_range(c: Civil)
    requires
        is_civil(c),
        -262143 <= c.year <= 262142,
    ensures
        min_unix() <= unix_seconds(c) <= max_unix(),
{
    lemma_day_in_year(c);
    lemma_years_ascend(-262143, c.year as int);
    lemma_years_ascend(c.year as int, 262142);
    if c.year < 262142 {
        lemma_years_ascend(c.year + 1, 262142);
        lemma_year_length(c.year as int);
    }
}

/// Whether there is a date for a unix time.
pub open spec fn has_date(unix: int) -> bool {
    min_unix() <= unix <= max_unix()
}

/// The date and time of day of a unix time.
pub open spec fn civil_at(unix: int) -> Civil {
    choose|c: Civil| is_civil(c) && #[trigger] unix_seconds(c) == unix
}

/// The date and time of day of a unix time.
fn civil(unix: i64) -> (r: Option<Civil>)
    ensures
        r == (if has_date(unix as int) {
            Some(civil_at(unix as int))
        } else {
            None
        }),
{
    let r: Option<Civil> = civil_of_unix(unix);
    proof {
        if let Some(c) = r {
            lemma_civil_range(c);
            law_one_civil_per_second(c, civil_at(unix as int));
        }
    }
    r
}

/// What follows the name of a date or date-time property.
pub open spec fn ical_dt_body(unix: int, all_day: bool) -> Option<Seq<char>> {
    if !has_date(unix) {
        None
    } else if all_day {
        Some(date_body(civil_at(unix)))
    } else {
        Some(date_time_body(civil_at(unix)))
    }
}

/// What follows the name of the end date of an all-day event whose last
/// second or day holds `unix`.
pub open spec fn ical_end_body(unix: int) -> Option<Seq<char>> {
    if has_date(unix) {
        ical_dt_body(unix + 86400, true)
    } else {
        None
    }
}

/// The body of a date-time property in UTC (`":20260914T180000Z"`) or of a
/// date property (`";VALUE=DATE:20260709"`), behind the name. None for a
/// time that has no date.
pub fn format_ical_dt(unix: i64, all_day: bool) -> (r: Option<String>)
    ensures
        text::option_text(r) == ical_dt_body(unix as int, all_day),
{
    let c: Civil = match civil(unix) {
        Some(c) => c,
        None => {
            return None;
        },
    };
    if all_day {
        let mut out: String = copy_text(";VALUE=DATE:");
        write_date(&mut out, c);
        Some(out)
    } else {
        let mut out: String = copy_text(":");
        write_date(&mut out, c);
        push_text(&mut out, "T");
        push_text(&mut out, padded_text(c.hour as u64, 2).as_str());
        push_text(&mut out, padded_text(c.minute as u64, 2).as_str());
        push_text(&mut out, padded_text(c.second as u64, 2).as_str());
        push_text(&mut out, "Z");
        assert(out@ =~= date_time_body(c));
        Some(out)
    }
}

/// The date body of the day after a time: the end, itself left out, of an
/// all-day event whose last day holds that time. None where either day has
/// no date.
pub fn format_ical_date_end_exclusive(inclusive_unix: i64) -> (r: Option<String>)
    ensures
        text::option_text(r) == ical_end_body(inclusive_unix as int),
{
    if civil(inclusive_unix).is_none() || inclusive_unix > i64::MAX - 86400 {
        return None;
    }
    format_ical_dt(inclusive_unix + 86400, true)
}

/// `chrono::Utc::now().timestamp()`: the time in unix seconds. Nothing is
/// said of it.
#[verifier::external_body]
pub(crate) fn unix_now() -> (r: i64) {
    chrono::Utc::now().timestamp()
}

} // verus!
