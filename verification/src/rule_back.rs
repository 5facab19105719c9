//! What a recurrence rule that was written reads back as.
use vstd::prelude::*;

use crate::edits;
use crate::numbers;
use crate::rrule;
use crate::rrule::Rule;
use crate::text;

verus! {

// ---------------------------------------------------------------------
// Parts
// ---------------------------------------------------------------------

/// Text that a rule can hold as one value: something, without semicolons and
/// without white space.
pub open spec fn is_solid(v: Seq<char>) -> bool {
    &&& v.len() > 0
    &&& forall|i: int| 0 <= i < v.len() ==> (#[trigger] v[i]) != ';' && !text::is_white(v[i])
}

/// The seven weekdays.
pub open spec fn one_of_seven(w: Seq<char>) -> bool {
    w == "MO"@ || w == "TU"@ || w == "WE"@ || w == "TH"@ || w == "FR"@ || w == "SA"@ || w == "SU"@
}

/// Capital letters.
pub open spec fn all_capitals(v: Seq<char>) -> bool {
    forall|i: int| 0 <= i < v.len() ==> 'A' <= (#[trigger] v[i]) <= 'Z'
}

/// What is behind the last separator is the last piece.
pub proof fn lemma_split_behind(a: Seq<char>, p: Seq<char>, c: char)
    requires
        !text::has_char(p, c),
    ensures
        text::split(a + seq![c] + p, c) == text::split(a, c).push(p),
        text::split(p, c) == seq![p],
    decreases a.len(),
{
    text::lemma_find_is(p, c, p.len() as int);
    let s = a + seq![c] + p;
    let k = text::find(a, c);
    text::lemma_find(a, c);
    if k < a.len() {
        assert forall|j: int| 0 <= j < k implies s[j] != c by {
            assert(s[j] == a[j]);
        }
        assert(s[k] == a[k]);
        text::lemma_find_is(s, c, k);
        assert(s.take(k) =~= a.take(k));
        assert(s.skip(k + 1) =~= a.skip(k + 1) + seq![c] + p);
        lemma_split_behind(a.skip(k + 1), p, c);
        assert(text::split(s, c) =~= text::split(a, c).push(p));
    } else {
        assert forall|j: int| 0 <= j < a.len() implies s[j] != c by {
            assert(s[j] == a[j]);
        }
        text::lemma_find_is(s, c, a.len() as int);
        assert(s.take(a.len() as int) =~= a);
        assert(s.skip(a.len() as int + 1) =~= p);
        assert(text::split(p, c) == seq![p]);
        assert(text::split(s, c) == seq![a] + seq![p]);
        assert(seq![a] + seq![p] =~= seq![a].push(p));
    }
}

/// A rule with one more part is the rule before it with the part taken in.
proof fn lemma_one_more(r: Seq<char>, part: Seq<char>)
    requires
        !text::has_char(part, ';'),
    ensures
        rrule::rule_of(r + seq![';'] + part) == rrule::rule_step(rrule::rule_of(r), part),
        rrule::rule_of(part) == rrule::rule_step(rrule::no_rule(), part),
{
    lemma_split_behind(r, part, ';');
    let parts = text::split(r, ';');
    assert(parts.push(part).drop_last() =~= parts);
    assert(seq![part].drop_last() =~= Seq::<Seq<char>>::empty());
    assert(rrule::rule_of_parts(seq![part].drop_last()) == rrule::no_rule());
}

/// A key as rules write it.
pub open spec fn is_key(k: Seq<char>) -> bool {
    k.len() > 0 && all_capitals(k)
}

/// A part of a key and a value.
pub open spec fn part_of(key: Seq<char>, v: Seq<char>) -> Seq<char> {
    key + seq!['='] + v
}

/// How a part of a key and a value is taken apart.
proof fn lemma_part(key: Seq<char>, v: Seq<char>)
    requires
        is_key(key),
        is_solid(v),
    ensures
        !text::has_char(part_of(key, v), ';'),
        text::trim(part_of(key, v)) == part_of(key, v),
        text::find(part_of(key, v), '=') == key.len(),
        part_of(key, v).take(key.len() as int) == key,
        part_of(key, v).skip(key.len() as int + 1) == v,
        text::uppercase(text::trim(key)) == key,
        text::trim(v) == v,
{
    let p = part_of(key, v);
    assert forall|i: int| 0 <= i < p.len() implies p[i] != ';' by {
        if i < key.len() {
            assert(p[i] == key[i]);
        } else if i > key.len() {
            assert(p[i] == v[i - key.len() - 1]);
        }
    }
    assert(p[0] == key[0]);
    assert(p[p.len() - 1] == v[v.len() - 1]);
    edits::lemma_trimmed(p);
    edits::lemma_trimmed(v);
    assert(!text::is_white(key[0]) && !text::is_white(key[key.len() - 1]));
    edits::lemma_trimmed(key);
    assert forall|j: int| 0 <= j < key.len() implies p[j] != '=' by {
        assert(p[j] == key[j]);
    }
    text::lemma_find_is(p, '=', key.len() as int);
    assert(p.take(key.len() as int) =~= key);
    assert(p.skip(key.len() as int + 1) =~= v);
    assert(text::is_ascii_text(key));
    assert(text::ascii_uppercase(key) =~= key);
}

/// The rule with the value of a key taken in.
spec fn keyed(r: Rule, k: Seq<char>, v: Seq<char>) -> Rule {
    let entries = text::split(v, ',');
    if k == "FREQ"@ {
        Rule { freq: text::uppercase(v), ..r }
    } else if k == "INTERVAL"@ {
        match rrule::u32_value(v) {
            Some(n) if n >= 1 => Rule { interval: n, ..r },
            _ => r,
        }
    } else if k == "COUNT"@ {
        match rrule::u32_value(v) {
            Some(n) if n >= 1 => Rule { count: Some(n), ..r },
            _ => r,
        }
    } else if k == "UNTIL"@ {
        Rule { until: Some(v), ..r }
    } else if k == "BYDAY"@ {
        Rule { byday: rrule::with_days(r.byday, entries), ..r }
    } else if k == "BYMONTHDAY"@ {
        Rule { bymonthday: rrule::with_numbers(r.bymonthday, entries, -31, 31), ..r }
    } else if k == "BYMONTH"@ {
        Rule { bymonth: rrule::with_numbers(r.bymonth, entries, 1, 12), ..r }
    } else if k == "BYYEARDAY"@ {
        Rule { byyearday: rrule::with_numbers(r.byyearday, entries, -366, 366), ..r }
    } else if k == "BYWEEKNO"@ {
        Rule { byweekno: rrule::with_numbers(r.byweekno, entries, -53, 53), ..r }
    } else if k == "BYSETPOS"@ {
        Rule { bysetpos: rrule::with_numbers(r.bysetpos, entries, -366, 366), ..r }
    } else if k == "WKST"@ {
        if rrule::is_weekday(text::uppercase(v)) {
            Rule { wkst: text::uppercase(v), ..r }
        } else {
            r
        }
    } else {
        r
    }
}

/// A rule with one more part, or of that part alone.
proof fn lemma_keyed(r: Seq<char>, key: Seq<char>, v: Seq<char>)
    requires
        is_key(key),
        is_solid(v),
    ensures
        rrule::rule_of(r + seq![';'] + part_of(key, v)) == keyed(rrule::rule_of(r), key, v),
        rrule::rule_of(part_of(key, v)) == keyed(rrule::no_rule(), key, v),
{
    lemma_part(key, v);
    lemma_one_more(r, part_of(key, v));
}

/// The keys of a rule differ.
proof fn lemma_keys()
    ensures
        is_key("FREQ"@),
        is_key("INTERVAL"@),
        is_key("COUNT"@),
        is_key("UNTIL"@),
        is_key("BYDAY"@),
        is_key("BYMONTHDAY"@),
        is_key("BYMONTH"@),
        is_key("BYYEARDAY"@),
        is_key("BYWEEKNO"@),
        is_key("BYSETPOS"@),
        is_key("WKST"@),
        "INTERVAL"@ != "FREQ"@,
        "COUNT"@ != "FREQ"@ && "COUNT"@ != "INTERVAL"@,
        "UNTIL"@ != "FREQ"@ && "UNTIL"@ != "INTERVAL"@ && "UNTIL"@ != "COUNT"@,
        "BYDAY"@ != "FREQ"@ && "BYDAY"@ != "INTERVAL"@ && "BYDAY"@ != "COUNT"@ && "BYDAY"@
            != "UNTIL"@,
        forall|k: Seq<char>| #[trigger]
            is_list_key(k) ==> k != "FREQ"@ && k != "INTERVAL"@ && k != "COUNT"@ && k != "UNTIL"@
                && k != "BYDAY"@ && is_key(k),
        "BYMONTH"@ != "BYMONTHDAY"@,
        "BYYEARDAY"@ != "BYMONTHDAY"@ && "BYYEARDAY"@ != "BYMONTH"@,
        "BYWEEKNO"@ != "BYMONTHDAY"@ && "BYWEEKNO"@ != "BYMONTH"@ && "BYWEEKNO"@ != "BYYEARDAY"@,
        "BYSETPOS"@ != "BYMONTHDAY"@ && "BYSETPOS"@ != "BYMONTH"@ && "BYSETPOS"@ != "BYYEARDAY"@
            && "BYSETPOS"@ != "BYWEEKNO"@,
        "WKST"@ != "FREQ"@ && "WKST"@ != "INTERVAL"@ && "WKST"@ != "COUNT"@ && "WKST"@ != "UNTIL"@
            && "WKST"@ != "BYDAY"@ && !is_list_key("WKST"@),
{
    reveal_strlit("FREQ");
    reveal_strlit("INTERVAL");
    reveal_strlit("COUNT");
    reveal_strlit("UNTIL");
    reveal_strlit("BYDAY");
    reveal_strlit("BYMONTHDAY");
    reveal_strlit("BYMONTH");
    reveal_strlit("BYYEARDAY");
    reveal_strlit("BYWEEKNO");
    reveal_strlit("BYSETPOS");
    reveal_strlit("WKST");
    assert("FREQ"@.len() == 4 && "FREQ"@[0] == 'F');
    assert("INTERVAL"@.len() == 8 && "INTERVAL"@[0] == 'I');
    assert("COUNT"@.len() == 5 && "COUNT"@[0] == 'C');
    assert("UNTIL"@.len() == 5 && "UNTIL"@[0] == 'U');
    assert("BYDAY"@.len() == 5 && "BYDAY"@[0] == 'B');
    assert("BYMONTHDAY"@.len() == 10 && "BYMONTH"@.len() == 7 && "BYYEARDAY"@.len() == 9);
    assert("BYWEEKNO"@.len() == 8 && "BYWEEKNO"@[2] == 'W' && "BYWEEKNO"@[0] == 'B');
    assert("BYSETPOS"@.len() == 8 && "BYSETPOS"@[2] == 'S' && "BYSETPOS"@[0] == 'B');
    assert("WKST"@.len() == 4 && "WKST"@[0] == 'W');
}

/// A part behind a rule, as it is written.
proof fn lemma_written(r: Seq<char>, head: Seq<char>, key: Seq<char>, v: Seq<char>)
    requires
        head == seq![';'] + key + seq!['='],
    ensures
        r + head + v == r + seq![';'] + part_of(key, v),
        head.skip(1) + v == part_of(key, v),
{
    assert(r + head + v =~= r + seq![';'] + part_of(key, v));
    assert(head.skip(1) + v =~= part_of(key, v));
}

/// The one entry of a list without a comma.
proof fn lemma_single_entry(v: Seq<char>)
    requires
        !text::has_char(v, ','),
    ensures
        text::split(v, ',') == seq![v],
        seq![v].drop_last() == Seq::<Seq<char>>::empty(),
{
    lemma_split_behind(seq![], v, ',');
    assert(seq![v].drop_last() =~= Seq::<Seq<char>>::empty());
}

proof fn lemma_one_day(days: Seq<(int, Seq<char>)>, v: Seq<char>)
    requires
        !text::has_char(v, ','),
    ensures
        rrule::with_days(days, text::split(v, ',')) == (match rrule::day_entry(v) {
            Some(d) => also_day(days, d),
            None => days,
        }),
{
    lemma_single_entry(v);
    reveal_with_fuel(rrule::with_days, 2);
}

proof fn lemma_one_number(list: Seq<i32>, n: i32, lo: int, hi: int)
    ensures
        rrule::with_numbers(list, text::split(numbers::signed_decimal(n as int), ','), lo, hi)
            == (if n != 0 && lo <= n <= hi {
            also_number(list, n)
        } else {
            list
        }),
{
    let v = numbers::signed_decimal(n as int);
    lemma_number(n as int);
    lemma_solid_number(n as int);
    edits::lemma_trimmed(v);
    lemma_single_entry(v);
    reveal_with_fuel(rrule::with_numbers, 2);
}

proof fn lemma_days_pushed(days: Seq<(int, Seq<char>)>, a: Seq<Seq<char>>, b: Seq<char>)
    ensures
        rrule::with_days(days, a.push(b)) == rrule::with_days(rrule::with_days(days, a), seq![b]),
{
    assert(a.push(b).drop_last() =~= a);
    assert(seq![b].drop_last() =~= Seq::<Seq<char>>::empty());
    reveal_with_fuel(rrule::with_days, 2);
}

proof fn lemma_numbers_pushed(list: Seq<i32>, a: Seq<Seq<char>>, b: Seq<char>, lo: int, hi: int)
    ensures
        rrule::with_numbers(list, a.push(b), lo, hi) == rrule::with_numbers(
            rrule::with_numbers(list, a, lo, hi),
            seq![b],
            lo,
            hi,
        ),
{
    assert(a.push(b).drop_last() =~= a);
    assert(seq![b].drop_last() =~= Seq::<Seq<char>>::empty());
    reveal_with_fuel(rrule::with_numbers, 2);
}

// ---------------------------------------------------------------------
// Numbers
// ---------------------------------------------------------------------

/// A number as it is written reads back, with its sign.
pub proof fn lemma_number(n: int)
    ensures
        numbers::signed_value(numbers::signed_decimal(n)) == Some(n),
        n >= 0 ==> numbers::unsigned_value(numbers::decimal(n as nat)) == Some(n),
        numbers::signed_decimal(n).len() > 0,
        forall|i: int|
            0 <= i < numbers::signed_decimal(n).len() ==> numbers::is_digit(
                #[trigger] numbers::signed_decimal(n)[i],
            ) || numbers::signed_decimal(n)[i] == '-',
{
    let m = if n < 0 {
        (-n) as nat
    } else {
        n as nat
    };
    let d = numbers::decimal(m);
    numbers::law_decimal_reads_back(m);
    assert(numbers::is_digit(d[0]));
    if n < 0 {
        let s = numbers::signed_decimal(n);
        assert(s.skip(1) =~= d);
        assert forall|i: int| 0 <= i < s.len() implies numbers::is_digit(#[trigger] s[i]) || s[i]
            == '-' by {
            if i > 0 {
                assert(s[i] == d[i - 1]);
            }
        }
    }
}

proof fn lemma_solid_number(n: int)
    ensures
        is_solid(numbers::signed_decimal(n)),
        !text::has_char(numbers::signed_decimal(n), ','),
{
    lemma_number(n);
    let s = numbers::signed_decimal(n);
    assert forall|i: int| 0 <= i < s.len() implies (#[trigger] s[i]) != ';' && !text::is_white(s[i])
        && s[i] != ',' by {
        assert(numbers::is_digit(s[i]) || s[i] == '-');
    }
}

// ---------------------------------------------------------------------
// Laws
// ---------------------------------------------------------------------

/// The rule with an entry of its list of weekdays behind the others, unless
/// it is there.
pub open spec fn also_day(days: Seq<(int, Seq<char>)>, d: (int, Seq<char>)) -> Seq<
    (int, Seq<char>),
> {
    if days.contains(d) {
        days
    } else {
        days.push(d)
    }
}

/// A list of numbers with one behind the others, unless it is there.
pub open spec fn also_number(list: Seq<i32>, n: i32) -> Seq<i32> {
    if list.contains(n) {
        list
    } else {
        list.push(n)
    }
}

/// The day that is written as a number and a weekday, the number left out
/// where it is 0.
pub open spec fn day_text(n: int, w: Seq<char>) -> Seq<char> {
    if n == 0 {
        w
    } else {
        numbers::signed_decimal(n) + w
    }
}

/// How parts with a key begin.
proof fn lemma_heads()
    ensures
        ";FREQ="@ == seq![';'] + "FREQ"@ + seq!['='] && "FREQ="@ == ";FREQ="@.skip(1),
        ";INTERVAL="@ == seq![';'] + "INTERVAL"@ + seq!['='] && "INTERVAL="@
            == ";INTERVAL="@.skip(1),
        ";COUNT="@ == seq![';'] + "COUNT"@ + seq!['='] && "COUNT="@ == ";COUNT="@.skip(1),
        ";UNTIL="@ == seq![';'] + "UNTIL"@ + seq!['='] && "UNTIL="@ == ";UNTIL="@.skip(1),
        ";BYDAY="@ == seq![';'] + "BYDAY"@ + seq!['='] && "BYDAY="@ == ";BYDAY="@.skip(1),
        ";WKST="@ == seq![';'] + "WKST"@ + seq!['='] && "WKST="@ == ";WKST="@.skip(1),
{
    reveal_strlit(";FREQ=");
    reveal_strlit("FREQ=");
    reveal_strlit("FREQ");
    reveal_strlit(";INTERVAL=");
    reveal_strlit("INTERVAL=");
    reveal_strlit("INTERVAL");
    reveal_strlit(";COUNT=");
    reveal_strlit("COUNT=");
    reveal_strlit("COUNT");
    reveal_strlit(";UNTIL=");
    reveal_strlit("UNTIL=");
    reveal_strlit("UNTIL");
    reveal_strlit(";BYDAY=");
    reveal_strlit("BYDAY=");
    reveal_strlit("BYDAY");
    reveal_strlit(";WKST=");
    reveal_strlit("WKST=");
    reveal_strlit("WKST");
    assert(";FREQ="@ =~= seq![';'] + "FREQ"@ + seq!['=']);
    assert("FREQ="@ =~= ";FREQ="@.skip(1));
    assert(";INTERVAL="@ =~= seq![';'] + "INTERVAL"@ + seq!['=']);
    assert("INTERVAL="@ =~= ";INTERVAL="@.skip(1));
    assert(";COUNT="@ =~= seq![';'] + "COUNT"@ + seq!['=']);
    assert("COUNT="@ =~= ";COUNT="@.skip(1));
    assert(";UNTIL="@ =~= seq![';'] + "UNTIL"@ + seq!['=']);
    assert("UNTIL="@ =~= ";UNTIL="@.skip(1));
    assert(";BYDAY="@ =~= seq![';'] + "BYDAY"@ + seq!['=']);
    assert("BYDAY="@ =~= ";BYDAY="@.skip(1));
    assert(";WKST="@ =~= seq![';'] + "WKST"@ + seq!['=']);
    assert("WKST="@ =~= ";WKST="@.skip(1));
}

proof fn lemma_weekday_letters(w: Seq<char>)
    requires
        one_of_seven(w),
    ensures
        w.len() == 2 && all_capitals(w),
        text::uppercase(w) == w,
{
    reveal_strlit("MO");
    reveal_strlit("TU");
    reveal_strlit("WE");
    reveal_strlit("TH");
    reveal_strlit("FR");
    reveal_strlit("SA");
    reveal_strlit("SU");
    assert(text::is_ascii_text(w));
    assert(text::ascii_uppercase(w) =~= w);
}

proof fn lemma_day_entry(n: i32, w: Seq<char>)
    requires
        one_of_seven(w),
    ensures
        rrule::day_entry(day_text(n as int, w)) == Some((n as int, w)),
        is_solid(day_text(n as int, w)),
        !text::has_char(day_text(n as int, w), ','),
{
    lemma_weekday_letters(w);
    let d = numbers::signed_decimal(n as int);
    let e = day_text(n as int, w);
    lemma_number(n as int);
    assert forall|i: int| 0 <= i < e.len() implies (e[i] == '-' || numbers::is_digit(e[i]) || 'A'
        <= e[i] <= 'Z') && (#[trigger] e[i]) != ';' && !text::is_white(e[i]) && e[i] != ',' by {
        if n != 0 && i < d.len() {
            assert(e[i] == d[i]);
            assert(numbers::is_digit(d[i]) || d[i] == '-');
        } else if n != 0 {
            assert(e[i] == w[i - d.len()]);
        }
    }
    assert(text::is_ascii_text(e)) by {
        assert forall|i: int| 0 <= i < e.len() implies (#[trigger] e[i] as u32) < 128 by {
            assert(e[i] != ';');
        }
    }
    assert(text::ascii_uppercase(e) =~= e) by {
        assert forall|i: int| 0 <= i < e.len() implies text::ascii_upper_char(e[i]) == e[i] by {
            assert(e[i] != ';');
        }
    }
    assert(e[0] != ';' && e[e.len() - 1] != ';');
    edits::lemma_trimmed(e);
    assert(e.skip(e.len() - 2) =~= w);
    if n != 0 {
        assert(e.take(e.len() - 2) =~= d);
    } else {
        assert(e.skip(0) =~= e);
    }
}

/// A weekday of a rule reads back with its number: behind any rule, and as
/// the only part. `-1FR` is the last Friday, `1FR` the first, `FR` every one.
/// Nothing else of the rule changes.
pub proof fn law_weekday_reads_back(r: Seq<char>, n: i32, w: Seq<char>)
    requires
        one_of_seven(w),
    ensures
        rrule::rule_of(r + ";BYDAY="@ + day_text(n as int, w)) == (Rule {
            byday: also_day(rrule::rule_of(r).byday, (n as int, w)),
            ..rrule::rule_of(r)
        }),
        rrule::rule_of("BYDAY="@ + day_text(n as int, w)).byday == seq![(n as int, w)],
{
    let v = day_text(n as int, w);
    lemma_keys();
    lemma_day_entry(n, w);
    lemma_keyed(r, "BYDAY"@, v);
    lemma_heads();
    lemma_written(r, ";BYDAY="@, "BYDAY"@, v);
    lemma_one_day(rrule::rule_of(r).byday, v);
    lemma_one_day(seq![], v);
    assert(also_day(seq![], (n as int, w)) =~= seq![(n as int, w)]);
}

/// The entries of one list are read one after the other: a list of two halves
/// is what the halves are one behind the other.
pub proof fn law_weekdays_add_up(r: Seq<char>, a: Seq<char>, b: Seq<char>)
    requires
        is_solid(a),
        is_solid(b),
        !text::has_char(b, ','),
    ensures
        rrule::rule_of(r + ";BYDAY="@ + a + ","@ + b) == rrule::rule_of(
            r + ";BYDAY="@ + a + ";BYDAY="@ + b,
        ),
{
    let both = a + ","@ + b;
    let first = r + seq![';'] + part_of("BYDAY"@, a);
    lemma_keys();
    lemma_two(a, b);
    lemma_keyed(r, "BYDAY"@, both);
    lemma_keyed(r, "BYDAY"@, a);
    lemma_keyed(first, "BYDAY"@, b);
    lemma_heads();
    lemma_written(r, ";BYDAY="@, "BYDAY"@, both);
    lemma_written(r, ";BYDAY="@, "BYDAY"@, a);
    lemma_written(first, ";BYDAY="@, "BYDAY"@, b);
    assert(r + ";BYDAY="@ + a + ","@ + b =~= r + ";BYDAY="@ + both);
    lemma_days_pushed(rrule::rule_of(r).byday, text::split(a, ','), b);
}

proof fn lemma_two(a: Seq<char>, b: Seq<char>)
    requires
        is_solid(a),
        is_solid(b),
        !text::has_char(b, ','),
    ensures
        is_solid(a + ","@ + b),
        text::split(a + ","@ + b, ',') == text::split(a, ',').push(b),
        text::split(b, ',') == seq![b],
{
    reveal_strlit(",");
    let both = a + ","@ + b;
    assert(both =~= a + seq![','] + b);
    lemma_split_behind(a, b, ',');
    assert forall|i: int| 0 <= i < both.len() implies (#[trigger] both[i]) != ';'
        && !text::is_white(both[i]) by {
        if i < a.len() {
            assert(both[i] == a[i]);
        } else if i > a.len() {
            assert(both[i] == b[i - a.len() - 1]);
        }
    }
}

/// What no weekday ends changes nothing.
pub proof fn law_other_days_are_skipped(r: Seq<char>, v: Seq<char>)
    requires
        is_solid(v),
        text::is_ascii_text(v),
        !text::has_char(v, ','),
        v.len() < 2 || !one_of_seven(text::ascii_uppercase(v).skip(v.len() - 2)),
    ensures
        rrule::rule_of(r + ";BYDAY="@ + v) == rrule::rule_of(r),
{
    lemma_keys();
    lemma_keyed(r, "BYDAY"@, v);
    lemma_heads();
    lemma_written(r, ";BYDAY="@, "BYDAY"@, v);
    lemma_one_day(rrule::rule_of(r).byday, v);
    edits::lemma_trimmed(v);
}

/// The frequency of a rule reads back, in capital letters.
pub proof fn law_frequency_reads_back(r: Seq<char>, v: Seq<char>)
    requires
        v.len() > 0,
        all_capitals(v),
    ensures
        rrule::rule_of(r + ";FREQ="@ + v) == (Rule { freq: v, ..rrule::rule_of(r) }),
        rrule::rule_of("FREQ="@ + v).freq == v,
{
    lemma_keys();
    lemma_keyed(r, "FREQ"@, v);
    lemma_heads();
    lemma_written(r, ";FREQ="@, "FREQ"@, v);
    assert(text::is_ascii_text(v));
    assert(text::ascii_uppercase(v) =~= v);
}

/// Interval and count of a rule read back where they are at least 1; one of 0
/// changes nothing.
pub proof fn law_interval_and_count_read_back(r: Seq<char>, n: u32)
    ensures
        rrule::rule_of(r + ";INTERVAL="@ + numbers::decimal(n as nat)) == (if n == 0 {
            rrule::rule_of(r)
        } else {
            Rule { interval: n as int, ..rrule::rule_of(r) }
        }),
        rrule::rule_of(r + ";COUNT="@ + numbers::decimal(n as nat)) == (if n == 0 {
            rrule::rule_of(r)
        } else {
            Rule { count: Some(n as int), ..rrule::rule_of(r) }
        }),
        n > 0 ==> rrule::rule_of("INTERVAL="@ + numbers::decimal(n as nat)).interval == n,
        n > 0 ==> rrule::rule_of("COUNT="@ + numbers::decimal(n as nat)).count == Some(n as int),
{
    let v = numbers::decimal(n as nat);
    assert(v == numbers::signed_decimal(n as int));
    lemma_keys();
    lemma_number(n as int);
    lemma_solid_number(n as int);
    lemma_keyed(r, "INTERVAL"@, v);
    lemma_keyed(r, "COUNT"@, v);
    lemma_heads();
    lemma_written(r, ";INTERVAL="@, "INTERVAL"@, v);
    lemma_written(r, ";COUNT="@, "COUNT"@, v);
}

/// The end of a rule reads back as it is written.
pub proof fn law_until_reads_back(r: Seq<char>, v: Seq<char>)
    requires
        is_solid(v),
    ensures
        rrule::rule_of(r + ";UNTIL="@ + v) == (Rule { until: Some(v), ..rrule::rule_of(r) }),
        rrule::rule_of("UNTIL="@ + v).until == Some(v),
{
    lemma_keys();
    lemma_keyed(r, "UNTIL"@, v);
    lemma_heads();
    lemma_written(r, ";UNTIL="@, "UNTIL"@, v);
}

/// The first day of the week reads back.
pub proof fn law_week_start_reads_back(r: Seq<char>, w: Seq<char>)
    requires
        one_of_seven(w),
    ensures
        rrule::rule_of(r + ";WKST="@ + w) == (Rule { wkst: w, ..rrule::rule_of(r) }),
        rrule::rule_of("WKST="@ + w).wkst == w,
{
    lemma_keys();
    lemma_day_entry(0, w);
    lemma_weekday_letters(w);
    lemma_keyed(r, "WKST"@, w);
    lemma_heads();
    lemma_written(r, ";WKST="@, "WKST"@, w);
}

/// Which numbers a list of a rule takes: days of a month and of a year,
/// weeks and positions from either end, months from the first.
pub open spec fn taken(key: Seq<char>, n: int) -> bool {
    &&& n != 0
    &&& key == "BYMONTHDAY"@ ==> -31 <= n <= 31
    &&& key == "BYMONTH"@ ==> 1 <= n <= 12
    &&& key == "BYYEARDAY"@ ==> -366 <= n <= 366
    &&& key == "BYWEEKNO"@ ==> -53 <= n <= 53
    &&& key == "BYSETPOS"@ ==> -366 <= n <= 366
}

/// A rule with a number behind the others of one of its lists.
pub open spec fn with_number(r: Rule, key: Seq<char>, n: i32) -> Rule {
    if key == "BYMONTHDAY"@ {
        Rule { bymonthday: also_number(r.bymonthday, n), ..r }
    } else if key == "BYMONTH"@ {
        Rule { bymonth: also_number(r.bymonth, n), ..r }
    } else if key == "BYYEARDAY"@ {
        Rule { byyearday: also_number(r.byyearday, n), ..r }
    } else if key == "BYWEEKNO"@ {
        Rule { byweekno: also_number(r.byweekno, n), ..r }
    } else {
        Rule { bysetpos: also_number(r.bysetpos, n), ..r }
    }
}

/// The lists of numbers of a rule.
pub open spec fn is_list_key(key: Seq<char>) -> bool {
    key == "BYMONTHDAY"@ || key == "BYMONTH"@ || key == "BYYEARDAY"@ || key == "BYWEEKNO"@ || key
        == "BYSETPOS"@
}

/// A number of a list of a rule reads back with its sign, where it is one
/// that the list takes, and stands in that list alone; any other changes
/// nothing.
pub proof fn law_number_reads_back(r: Seq<char>, key: Seq<char>, n: i32)
    requires
        is_list_key(key),
    ensures
        rrule::rule_of(r + ";"@ + key + "="@ + numbers::signed_decimal(n as int)) == (if taken(
            key,
            n as int,
        ) {
            with_number(rrule::rule_of(r), key, n)
        } else {
            rrule::rule_of(r)
        }),
        rrule::rule_of(key + "="@ + numbers::signed_decimal(n as int)) == (if taken(
            key,
            n as int,
        ) {
            with_number(rrule::no_rule(), key, n)
        } else {
            rrule::no_rule()
        }),
{
    let v = numbers::signed_decimal(n as int);
    let now = rrule::rule_of(r);
    let none = rrule::no_rule();
    let head = ";"@ + key + "="@;
    reveal_strlit(";");
    reveal_strlit("=");
    assert(head =~= seq![';'] + key + seq!['=']);
    assert(r + ";"@ + key + "="@ + v =~= r + head + v);
    assert(key + "="@ + v =~= head.skip(1) + v);
    lemma_keys();
    lemma_solid_number(n as int);
    lemma_keyed(r, key, v);
    lemma_written(r, head, key, v);
    lemma_one_number(now.bymonthday, n, -31, 31);
    lemma_one_number(now.bymonth, n, 1, 12);
    lemma_one_number(now.byyearday, n, -366, 366);
    lemma_one_number(now.byweekno, n, -53, 53);
    lemma_one_number(now.bysetpos, n, -366, 366);
    lemma_one_number(none.bymonthday, n, -31, 31);
    lemma_one_number(none.bymonth, n, 1, 12);
    lemma_one_number(none.byyearday, n, -366, 366);
    lemma_one_number(none.byweekno, n, -53, 53);
    lemma_one_number(none.bysetpos, n, -366, 366);
}

proof fn lemma_list_texts(r: Seq<char>, key: Seq<char>, a: Seq<char>, b: Seq<char>)
    ensures
        ({
            let head = seq![';'] + key + seq!['='];
            &&& r + ";"@ + key + "="@ + a + ","@ + b == r + head + (a + ","@ + b)
            &&& r + ";"@ + key + "="@ + a + ";"@ + key + "="@ + b == r + head + a + head + b
        }),
{
    let head = seq![';'] + key + seq!['='];
    reveal_strlit(";");
    reveal_strlit("=");
    assert(r + ";"@ + key + "="@ =~= r + head);
    assert(r + head + a + ","@ + b =~= r + head + (a + ","@ + b));
    let x = r + head + a;
    assert(x + ";"@ + key + "="@ =~= x + head);
}

proof fn lemma_keyed_pushed(now: Rule, key: Seq<char>, a: Seq<char>, b: Seq<char>)
    requires
        is_list_key(key),
        text::split(a + ","@ + b, ',') == text::split(a, ',').push(b),
        text::split(b, ',') == seq![b],
    ensures
        keyed(now, key, a + ","@ + b) == keyed(keyed(now, key, a), key, b),
{
    let list = text::split(a, ',');
    lemma_keys();
    lemma_numbers_pushed(now.bymonthday, list, b, -31, 31);
    lemma_numbers_pushed(now.bymonth, list, b, 1, 12);
    lemma_numbers_pushed(now.byyearday, list, b, -366, 366);
    lemma_numbers_pushed(now.byweekno, list, b, -53, 53);
    lemma_numbers_pushed(now.bysetpos, list, b, -366, 366);
}

/// The numbers of one list are read one after the other.
pub proof fn law_numbers_add_up(r: Seq<char>, key: Seq<char>, a: Seq<char>, b: Seq<char>)
    requires
        is_list_key(key),
        is_solid(a),
        is_solid(b),
        !text::has_char(b, ','),
    ensures
        rrule::rule_of(r + ";"@ + key + "="@ + a + ","@ + b) == rrule::rule_of(
            r + ";"@ + key + "="@ + a + ";"@ + key + "="@ + b,
        ),
{
    let both = a + ","@ + b;
    let first = r + seq![';'] + part_of(key, a);
    let head = seq![';'] + key + seq!['='];
    lemma_keys();
    lemma_two(a, b);
    lemma_keyed(r, key, both);
    lemma_keyed(r, key, a);
    lemma_keyed(first, key, b);
    lemma_written(r, head, key, both);
    lemma_written(r, head, key, a);
    lemma_written(first, head, key, b);
    lemma_list_texts(r, key, a, b);
    lemma_keyed_pushed(rrule::rule_of(r), key, a, b);
}

/// A part of any other key changes nothing.
pub proof fn law_other_keys_are_skipped(r: Seq<char>, key: Seq<char>, v: Seq<char>)
    requires
        is_key(key),
        is_solid(v),
        !is_list_key(key),
        key != "FREQ"@ && key != "INTERVAL"@ && key != "COUNT"@ && key != "UNTIL"@,
        key != "BYDAY"@ && key != "WKST"@,
    ensures
        rrule::rule_of(r + ";"@ + key + "="@ + v) == rrule::rule_of(r),
{
    reveal_strlit(";");
    reveal_strlit("=");
    lemma_keyed(r, key, v);
    assert(r + ";"@ + key + "="@ + v =~= r + seq![';'] + part_of(key, v));
}

/// A rule of nothing has nothing but its interval of 1.
pub proof fn law_no_rule()
    ensures
        ({
            let r = rrule::rule_of(Seq::<char>::empty());
            &&& r.freq.len() == 0 && r.interval == 1 && r.count is None && r.until is None
            &&& r.byday.len() == 0 && r.bymonthday.len() == 0 && r.bymonth.len() == 0
            &&& r.byyearday.len() == 0 && r.byweekno.len() == 0 && r.bysetpos.len() == 0
            &&& r.wkst.len() == 0
        }),
{
    let none = Seq::<char>::empty();
    lemma_one_more(none, none);
    assert(text::trim(none) =~= none);
    text::lemma_find(none, '=');
}

} // verus!
