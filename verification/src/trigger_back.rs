//! What a reminder trigger that was written reads back as.
use vstd::prelude::*;

use crate::calendar;
use crate::edits;
use crate::numbers;
use crate::text;

verus! {

/// A sign of a trigger, or none.
pub open spec fn is_sign(sign: Seq<char>) -> bool {
    sign == ""@ || sign == "+"@ || sign == "-"@
}

/// Numbers with their units, as they are written one behind the other.
pub open spec fn items_text(items: Seq<(nat, char)>) -> Seq<char>
    decreases items.len(),
{
    if items.len() == 0 {
        seq![]
    } else {
        numbers::decimal(items[0].0) + seq![items[0].1] + items_text(items.skip(1))
    }
}

/// The seconds of weeks, days, hours, minutes and seconds.
pub open spec fn secs_of(c: char) -> int {
    if c == 'W' {
        604800
    } else if c == 'D' {
        86400
    } else if c == 'H' {
        3600
    } else if c == 'M' {
        60
    } else {
        1
    }
}

/// The seconds of numbers with their units, added up.
pub open spec fn items_secs(items: Seq<(nat, char)>) -> int
    decreases items.len(),
{
    if items.len() == 0 {
        0
    } else {
        items[0].0 * secs_of(items[0].1) + items_secs(items.skip(1))
    }
}

/// Weeks and days.
pub open spec fn are_dates(items: Seq<(nat, char)>) -> bool {
    forall|i: int| 0 <= i < items.len() ==> (#[trigger] items[i]).1 == 'W' || items[i].1 == 'D'
}

/// Hours, minutes and seconds.
pub open spec fn are_times(items: Seq<(nat, char)>) -> bool {
    forall|i: int|
        0 <= i < items.len() ==> (#[trigger] items[i]).1 == 'H' || items[i].1 == 'M' || items[i].1
            == 'S'
}

/// A trigger: a sign, weeks and days, and behind a `T` hours, minutes and
/// seconds, where there are any.
pub open spec fn trigger_text(
    sign: Seq<char>,
    date: Seq<(nat, char)>,
    time: Seq<(nat, char)>,
) -> Seq<char> {
    sign + "P"@ + items_text(date) + (if time.len() == 0 {
        ""@
    } else {
        "T"@ + items_text(time)
    })
}

proof fn lemma_run(d: Seq<char>, rest: Seq<char>)
    requires
        numbers::all_digits(d),
        rest.len() > 0,
        !numbers::is_digit(rest[0]),
    ensures
        calendar::digit_run(d + rest) == d.len(),
    decreases d.len(),
{
    let s = d + rest;
    if d.len() == 0 {
        assert(s[0] == rest[0]);
    } else {
        assert(s[0] == d[0] && numbers::is_digit(d[0]));
        assert(s.skip(1) =~= d.skip(1) + rest);
        assert forall|i: int| 0 <= i < d.skip(1).len() implies numbers::is_digit(
            #[trigger] d.skip(1)[i],
        ) by {
            assert(numbers::is_digit(d[i + 1]));
        }
        lemma_run(d.skip(1), rest);
    }
}

proof fn lemma_units(c: char)
    ensures
        c == 'W' || c == 'D' ==> calendar::unit_secs(calendar::date_units(), c) == Some(secs_of(c)),
        c == 'H' || c == 'M' || c == 'S' ==> calendar::unit_secs(calendar::time_units(), c) == Some(
            secs_of(c),
        ),
{
    let d = calendar::date_units();
    let t = calendar::time_units();
    reveal_with_fuel(calendar::unit_secs, 4);
    assert(d.skip(1)[0] == d[1]);
    assert(t.skip(1)[0] == t[1]);
    assert(t.skip(1).skip(1)[0] == t[2]);
}

/// Numbers with units that are known read as their seconds, added up.
proof fn lemma_items(items: Seq<(nat, char)>, units: Seq<(char, i64)>)
    requires
        units == calendar::date_units() && are_dates(items) || units == calendar::time_units()
            && are_times(items),
    ensures
        calendar::duration_secs(items_text(items), units) == Some(items_secs(items)),
        items_secs(items) >= 0,
        !text::has_char(items_text(items), 'T'),
        forall|i: int|
            0 <= i < items_text(items).len() ==> !text::is_white(#[trigger] items_text(items)[i]),
    decreases items.len(),
{
    if items.len() > 0 {
        let (n, c) = items[0];
        let tail = items.skip(1);
        assert forall|i: int| 0 <= i < tail.len() implies tail[i] == items[i + 1] by {}
        assert(units == calendar::date_units() ==> are_dates(tail)) by {
            if are_dates(items) {
                assert forall|i: int| 0 <= i < tail.len() implies (#[trigger] tail[i]).1 == 'W'
                    || tail[i].1 == 'D' by {
                    assert(tail[i] == items[i + 1]);
                }
            }
        }
        assert(are_times(items) ==> are_times(tail)) by {
            if are_times(items) {
                assert forall|i: int| 0 <= i < tail.len() implies (#[trigger] tail[i]).1 == 'H'
                    || tail[i].1 == 'M' || tail[i].1 == 'S' by {
                    assert(tail[i] == items[i + 1]);
                }
            }
        }
        lemma_items(tail, units);
        let d = numbers::decimal(n);
        let rest = seq![c] + items_text(tail);
        let s = items_text(items);
        numbers::law_decimal_reads_back(n);
        assert(s =~= d + rest);
        lemma_run(d, rest);
        lemma_units(c);
        assert(s.take(d.len() as int) =~= d);
        assert(s[d.len() as int] == c);
        assert(s.skip(d.len() as int + 1) =~= items_text(tail));
        assert(n * secs_of(c) >= 0) by (nonlinear_arith)
            requires
                n >= 0,
                secs_of(c) >= 0,
        ;
        assert forall|i: int| 0 <= i < s.len() implies !text::is_white(#[trigger] s[i]) && s[i]
            != 'T' by {
            if i < d.len() {
                assert(s[i] == d[i] && numbers::is_digit(d[i]));
            } else if i > d.len() {
                assert(s[i] == items_text(tail)[i - d.len() - 1]);
            }
        }
    }
}

/// A trigger that was written reads back: its weeks, days, hours, minutes and
/// seconds, whichever of them there are and as often as they come, are added
/// up, and a minus sign puts the reminder before the start. Where the sum
/// does not fit 64 bits there is none.
pub proof fn law_trigger_reads_back(
    sign: Seq<char>,
    date: Seq<(nat, char)>,
    time: Seq<(nat, char)>,
)
    requires
        is_sign(sign),
        are_dates(date),
        are_times(time),
    ensures
        calendar::trigger_secs(trigger_text(sign, date, time)) == (if items_secs(date) + items_secs(
            time,
        ) > i64::MAX {
            None::<int>
        } else if sign == "-"@ {
            Some(-(items_secs(date) + items_secs(time)))
        } else {
            Some(items_secs(date) + items_secs(time))
        }),
{
    reveal_strlit("");
    reveal_strlit("+");
    reveal_strlit("-");
    reveal_strlit("P");
    reveal_strlit("T");
    let s = trigger_text(sign, date, time);
    let dt = items_text(date);
    let tt = items_text(time);
    let more = if time.len() == 0 {
        ""@
    } else {
        "T"@ + tt
    };
    lemma_items(date, calendar::date_units());
    lemma_items(time, calendar::time_units());
    let body = "P"@ + dt + more;
    assert(s =~= sign + body);
    assert(body[0] == 'P');
    assert forall|i: int| 0 <= i < s.len() implies !text::is_white(#[trigger] s[i]) by {
        if i < sign.len() {
        } else if i == sign.len() {
            assert(s[i] == 'P');
        } else if i <= sign.len() + dt.len() {
            assert(s[i] == dt[i - sign.len() - 1]);
        } else if i == sign.len() + dt.len() + 1 {
            assert(s[i] == 'T');
        } else {
            assert(s[i] == tt[i - sign.len() - dt.len() - 2]);
        }
    }
    edits::lemma_trimmed(s);
    if sign.len() > 0 {
        assert(s[0] == sign[0]);
        assert(s.skip(1) =~= body);
    } else {
        assert(s =~= body);
    }
    let rest = body.skip(1);
    assert(rest =~= dt + more);
    assert forall|j: int| 0 <= j < dt.len() implies rest[j] != 'T' by {
        assert(rest[j] == dt[j]);
    }
    assert(more.len() > 0 ==> rest[dt.len() as int] == 'T');
    text::lemma_find_is(rest, 'T', dt.len() as int);
    assert(rest.take(dt.len() as int) =~= dt);
    if time.len() > 0 {
        assert(rest.skip(dt.len() as int + 1) =~= tt);
    } else {
        assert(tt =~= seq![]);
    }
}

/// One number with its unit, where it is there.
pub open spec fn item(n: Option<nat>, c: char) -> Seq<(nat, char)> {
    match n {
        Some(n) => seq![(n, c)],
        None => seq![],
    }
}

/// A number, 0 where it is not there.
pub open spec fn amount(n: Option<nat>) -> int {
    match n {
        Some(n) => n as int,
        None => 0,
    }
}

/// A trigger of weeks, days, hours, minutes and seconds in this order, with
/// any of them left out, is as many seconds as they make together.
pub proof fn law_trigger_parts(
    sign: Seq<char>,
    w: Option<nat>,
    d: Option<nat>,
    h: Option<nat>,
    m: Option<nat>,
    s: Option<nat>,
)
    requires
        is_sign(sign),
        604800 * amount(w) + 86400 * amount(d) + 3600 * amount(h) + 60 * amount(m) + amount(s)
            <= i64::MAX,
    ensures
        calendar::trigger_secs(
            trigger_text(
                sign,
                item(w, 'W') + item(d, 'D'),
                item(h, 'H') + item(m, 'M') + item(s, 'S'),
            ),
        ) == Some(
            if sign == "-"@ {
                -(604800 * amount(w) + 86400 * amount(d) + 3600 * amount(h) + 60 * amount(m)
                    + amount(s))
            } else {
                604800 * amount(w) + 86400 * amount(d) + 3600 * amount(h) + 60 * amount(m)
                    + amount(s)
            },
        ),
{
    let date = item(w, 'W') + item(d, 'D');
    let time = item(h, 'H') + item(m, 'M') + item(s, 'S');
    lemma_sum(item(w, 'W'), item(d, 'D'));
    lemma_sum(item(h, 'H'), item(m, 'M'));
    lemma_sum(item(h, 'H') + item(m, 'M'), item(s, 'S'));
    lemma_item(w, 'W');
    lemma_item(d, 'D');
    lemma_item(h, 'H');
    lemma_item(m, 'M');
    lemma_item(s, 'S');
    law_trigger_reads_back(sign, date, time);
}

proof fn lemma_item(n: Option<nat>, c: char)
    ensures
        items_secs(item(n, c)) == amount(n) * secs_of(c),
{
    reveal_with_fuel(items_secs, 2);
    if let Some(k) = n {
        assert(seq![(k, c)].skip(1) =~= Seq::<(nat, char)>::empty());
    }
}

proof fn lemma_sum(a: Seq<(nat, char)>, b: Seq<(nat, char)>)
    ensures
        items_secs(a + b) == items_secs(a) + items_secs(b),
    decreases a.len(),
{
    if a.len() == 0 {
        assert(a + b =~= b);
    } else {
        assert((a + b).skip(1) =~= a.skip(1) + b);
        lemma_sum(a.skip(1), b);
    }
}

/// What a run of numbers with units may hold.
proof fn lemma_readable(s: Seq<char>, units: Seq<(char, i64)>, i: int)
    requires
        calendar::duration_secs(s, units) is Some,
        0 <= i < s.len(),
    ensures
        numbers::is_digit(s[i]) || calendar::unit_secs(units, s[i]) is Some,
        !numbers::is_digit(s[s.len() - 1]),
    decreases s.len(),
{
    let k = calendar::digit_run(s);
    lemma_digits_ahead(s);
    let rest = s.skip(k + 1);
    if i > k {
        lemma_readable(rest, units, i - k - 1);
        assert(rest[i - k - 1] == s[i]);
    } else if rest.len() > 0 {
        lemma_readable(rest, units, 0);
    }
    if rest.len() > 0 {
        assert(rest[rest.len() - 1] == s[s.len() - 1]);
    }
}

proof fn lemma_digits_ahead(s: Seq<char>)
    ensures
        0 <= calendar::digit_run(s) <= s.len(),
        forall|j: int| 0 <= j < calendar::digit_run(s) ==> numbers::is_digit(s[j]),
        calendar::digit_run(s) < s.len() ==> !numbers::is_digit(s[calendar::digit_run(s)]),
    decreases s.len(),
{
    if s.len() > 0 && numbers::is_digit(s[0]) {
        let t = s.skip(1);
        lemma_digits_ahead(t);
        assert forall|j: int| 0 <= j < calendar::digit_run(s) implies numbers::is_digit(s[j]) by {
            if j > 0 {
                assert(t[j - 1] == s[j]);
            }
        }
        let k = calendar::digit_run(s);
        if k < s.len() {
            assert(t[k - 1] == s[k]);
        }
    }
}

/// A trigger with anything else in it is none: no months or years, no unit of
/// the other part, no letter or sign that stands for nothing.
pub proof fn law_other_triggers_are_none(sign: Seq<char>, a: Seq<char>, c: char, b: Seq<char>)
    requires
        is_sign(sign),
        !text::has_char(a, 'T'),
        !text::is_white(c),
        !numbers::is_digit(c),
        c != 'W' && c != 'D' && c != 'T',
        b.len() > 0 ==> !text::is_white(b[b.len() - 1]),
    ensures
        calendar::trigger_secs(sign + "P"@ + a + seq![c] + b) is None,
{
    reveal_strlit("");
    reveal_strlit("+");
    reveal_strlit("-");
    reveal_strlit("P");
    let s = sign + "P"@ + a + seq![c] + b;
    let body = "P"@ + a + seq![c] + b;
    let rest = body.skip(1);
    assert(s =~= sign + body);
    assert(s[0] == (if sign.len() > 0 {
        sign[0]
    } else {
        'P'
    }));
    assert(s[s.len() - 1] == (if b.len() > 0 {
        b[b.len() - 1]
    } else {
        c
    }));
    edits::lemma_trimmed(s);
    if sign.len() > 0 {
        assert(s.skip(1) =~= body);
    } else {
        assert(s =~= body);
    }
    let t = text::find(rest, 'T');
    text::lemma_find(rest, 'T');
    assert(rest =~= a + seq![c] + b);
    assert(rest[a.len() as int] == c);
    if t <= a.len() {
        assert(rest[t] == a[t]);
    }
    let date = rest.take(t);
    assert(date[a.len() as int] == c);
    if calendar::duration_secs(date, calendar::date_units()) is Some {
        lemma_readable(date, calendar::date_units(), a.len() as int);
        let u = calendar::date_units();
        reveal_with_fuel(calendar::unit_secs, 3);
        assert(u.skip(1)[0] == u[1]);
        assert(u.skip(1).skip(1).len() == 0);
    }
}

/// A trigger ends in a unit, not in a number.
pub proof fn law_trigger_needs_a_unit(sign: Seq<char>, a: Seq<char>, d: char)
    requires
        is_sign(sign),
        numbers::is_digit(d),
    ensures
        calendar::trigger_secs(sign + "P"@ + a + seq![d]) is None,
{
    reveal_strlit("");
    reveal_strlit("+");
    reveal_strlit("-");
    reveal_strlit("P");
    let s = sign + "P"@ + a + seq![d];
    let body = "P"@ + a + seq![d];
    let rest = body.skip(1);
    assert(s =~= sign + body);
    assert(s[0] == (if sign.len() > 0 {
        sign[0]
    } else {
        'P'
    }));
    assert(s[s.len() - 1] == d);
    edits::lemma_trimmed(s);
    if sign.len() > 0 {
        assert(s.skip(1) =~= body);
    } else {
        assert(s =~= body);
    }
    assert(rest =~= a + seq![d]);
    let t = text::find(rest, 'T');
    text::lemma_find(rest, 'T');
    let date = rest.take(t);
    if t < rest.len() {
        let time = rest.skip(t + 1);
        assert(rest[rest.len() - 1] == d);
        assert(t != rest.len() - 1);
        assert(time[time.len() - 1] == d);
        if calendar::duration_secs(time, calendar::time_units()) is Some {
            lemma_readable(time, calendar::time_units(), 0);
        }
    } else {
        assert(date =~= rest);
        assert(date[date.len() - 1] == d);
        if calendar::duration_secs(date, calendar::date_units()) is Some {
            lemma_readable(date, calendar::date_units(), 0);
        }
    }
}

/// The sign turns a trigger round: without one and with a plus it is the same,
/// with a minus it is as long before the start.
pub proof fn law_sign_turns_trigger(body: Seq<char>)
    requires
        text::trim(body) == body,
        body.len() > 0,
        body[0] == 'P',
    ensures
        calendar::trigger_secs("+"@ + body) == calendar::trigger_secs(body),
        match calendar::trigger_secs(body) {
            Some(n) => n >= 0 && calendar::trigger_secs("-"@ + body) == Some(-n),
            None => calendar::trigger_secs("-"@ + body) is None,
        },
{
    reveal_strlit("+");
    reveal_strlit("-");
    edits::lemma_trim_end_last(body);
    let p = "+"@ + body;
    let m = "-"@ + body;
    assert(p.skip(1) =~= body && m.skip(1) =~= body);
    assert(p[p.len() - 1] == body.last() && m[m.len() - 1] == body.last());
    edits::lemma_trimmed(p);
    edits::lemma_trimmed(m);
}

} // verus!
