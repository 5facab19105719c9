//! Recurrence rules (RFC 5545 §3.3.10).
use vstd::prelude::*;

use crate::numbers;
use crate::numbers::{parse_i32, parse_u32};
use crate::text;
use crate::text::{chars_of, split_text, string_of, text_eq, to_upper, trimmed};

verus! {

/// One BYDAY entry: the numeric prefix (0 for none) and the two-letter
/// weekday in upper case.
#[derive(Debug, Clone, PartialEq, Eq)]
pub struct RruleByDay {
    pub pos: i32,
    pub weekday: String,
}

impl Default for RruleByDay {
    fn default() -> (r: RruleByDay)
        ensures
            r.pos == 0,
            r.weekday@ == Seq::<char>::empty(),
    {
        RruleByDay { pos: 0, weekday: String::new() }
    }
}

/// A recurrence rule in parts. Unknown parts and parts out of range are
/// skipped when it is read. `freq` is in upper case, empty when absent;
/// `interval` is 1 when unset or invalid.
#[derive(Debug, Clone, PartialEq, Eq)]
pub struct RecurrenceSpec {
    pub freq: String,
    pub interval: u32,
    pub count: Option<u32>,
    pub until: Option<String>,
    pub byday: Vec<RruleByDay>,
    pub bymonthday: Vec<i32>,
    pub bymonth: Vec<i32>,
    pub byyearday: Vec<i32>,
    pub byweekno: Vec<i32>,
    pub bysetpos: Vec<i32>,
    pub wkst: String,
}

impl Default for RecurrenceSpec {
    fn default() -> (r: RecurrenceSpec)
        ensures
            r@ == (Rule { interval: 0, ..no_rule() }),
    {
        let r: RecurrenceSpec = RecurrenceSpec {
            freq: String::new(),
            interval: 0,
            count: None,
            until: None,
            byday: Vec::new(),
            bymonthday: Vec::new(),
            bymonth: Vec::new(),
            byyearday: Vec::new(),
            byweekno: Vec::new(),
            bysetpos: Vec::new(),
            wkst: String::new(),
        };
        assert(r@ =~= (Rule { interval: 0, ..no_rule() }));
        r
    }
}

/// What a [`RecurrenceSpec`] holds.
#[verifier::ext_equal]
pub struct Rule {
    pub freq: Seq<char>,
    pub interval: int,
    pub count: Option<int>,
    pub until: Option<Seq<char>>,
    pub byday: Seq<(int, Seq<char>)>,
    pub bymonthday: Seq<i32>,
    pub bymonth: Seq<i32>,
    pub byyearday: Seq<i32>,
    pub byweekno: Seq<i32>,
    pub bysetpos: Seq<i32>,
    pub wkst: Seq<char>,
}

pub open spec fn days_view(v: Seq<RruleByDay>) -> Seq<(int, Seq<char>)> {
    Seq::new(v.len(), |i: int| (v[i].pos as int, v[i].weekday@))
}

impl View for RecurrenceSpec {
    type V = Rule;

    open spec fn view(&self) -> Rule {
        Rule {
            freq: self.freq@,
            interval: self.interval as int,
            count: match self.count {
                Some(n) => Some(n as int),
                None => None,
            },
            until: text::option_text(self.until),
            byday: days_view(self.byday@),
            bymonthday: self.bymonthday@,
            bymonth: self.bymonth@,
            byyearday: self.byyearday@,
            byweekno: self.byweekno@,
            bysetpos: self.bysetpos@,
            wkst: self.wkst@,
        }
    }
}

/// The rule that nothing has been read into.
pub open spec fn no_rule() -> Rule {
    Rule {
        freq: seq![],
        interval: 1,
        count: None,
        until: None,
        byday: seq![],
        bymonthday: seq![],
        bymonth: seq![],
        byyearday: seq![],
        byweekno: seq![],
        bysetpos: seq![],
        wkst: seq![],
    }
}

pub open spec fn is_weekday(s: Seq<char>) -> bool {
    s == "MO"@ || s == "TU"@ || s == "WE"@ || s == "TH"@ || s == "FR"@ || s == "SA"@ || s == "SU"@
}

pub open spec fn i32_value(s: Seq<char>) -> Option<int> {
    numbers::within(numbers::signed_value(s), i32::MIN as int, i32::MAX as int)
}

pub open spec fn u32_value(s: Seq<char>) -> Option<int> {
    numbers::within(numbers::unsigned_value(s), 0, u32::MAX as int)
}

/// One BYDAY entry: a weekday behind an optional number. Anything else is
/// no entry.
pub open spec fn day_entry(entry: Seq<char>) -> Option<(int, Seq<char>)> {
    let e = text::uppercase(text::trim(entry));
    if e.len() < 2 || !is_weekday(e.skip(e.len() - 2)) {
        None
    } else if e.len() == 2 {
        Some((0, e))
    } else {
        match i32_value(e.take(e.len() - 2)) {
            Some(n) => Some((n, e.skip(e.len() - 2))),
            None => None,
        }
    }
}

/// The entries with each new one appended once.
pub open spec fn with_days(
    days: Seq<(int, Seq<char>)>,
    entries: Seq<Seq<char>>,
) -> Seq<(int, Seq<char>)>
    decreases entries.len(),
{
    if entries.len() == 0 {
        days
    } else {
        let init = with_days(days, entries.drop_last());
        match day_entry(entries.last()) {
            Some(d) if !init.contains(d) => init.push(d),
            _ => init,
        }
    }
}

/// The numbers with each new one from `lo` to `hi`, 0 left out, appended
/// once.
pub open spec fn with_numbers(
    list: Seq<i32>,
    entries: Seq<Seq<char>>,
    lo: int,
    hi: int,
) -> Seq<i32>
    decreases entries.len(),
{
    if entries.len() == 0 {
        list
    } else {
        let init = with_numbers(list, entries.drop_last(), lo, hi);
        match i32_value(text::trim(entries.last())) {
            Some(n) if n != 0 && lo <= n <= hi && !init.contains(n as i32) => init.push(n as i32),
            _ => init,
        }
    }
}

/// Takes in one `KEY=value` part of a rule.
pub open spec fn rule_step(r: Rule, part: Seq<char>) -> Rule {
    let p = text::trim(part);
    let i = text::find(p, '=');
    let k = text::uppercase(text::trim(p.take(i)));
    let v = text::trim(p.skip(i + 1));
    let entries = text::split(v, ',');
    if i >= p.len() {
        r
    } else if k == "FREQ"@ {
        Rule { freq: text::uppercase(v), ..r }
    } else if k == "INTERVAL"@ {
        match u32_value(v) {
            Some(n) if n >= 1 => Rule { interval: n, ..r },
            _ => r,
        }
    } else if k == "COUNT"@ {
        match u32_value(v) {
            Some(n) if n >= 1 => Rule { count: Some(n), ..r },
            _ => r,
        }
    } else if k == "UNTIL"@ {
        if v.len() > 0 {
            Rule { until: Some(v), ..r }
        } else {
            r
        }
    } else if k == "BYDAY"@ {
        Rule { byday: with_days(r.byday, entries), ..r }
    } else if k == "BYMONTHDAY"@ {
        Rule { bymonthday: with_numbers(r.bymonthday, entries, -31, 31), ..r }
    } else if k == "BYMONTH"@ {
        Rule { bymonth: with_numbers(r.bymonth, entries, 1, 12), ..r }
    } else if k == "BYYEARDAY"@ {
        Rule { byyearday: with_numbers(r.byyearday, entries, -366, 366), ..r }
    } else if k == "BYWEEKNO"@ {
        Rule { byweekno: with_numbers(r.byweekno, entries, -53, 53), ..r }
    } else if k == "BYSETPOS"@ {
        Rule { bysetpos: with_numbers(r.bysetpos, entries, -366, 366), ..r }
    } else if k == "WKST"@ {
        if is_weekday(text::uppercase(v)) {
            Rule { wkst: text::uppercase(v), ..r }
        } else {
            r
        }
    } else {
        r
    }
}

/// The rule that the parts make, taken in one after the other.
pub open spec fn rule_of_parts(parts: Seq<Seq<char>>) -> Rule
    decreases parts.len(),
{
    if parts.len() == 0 {
        no_rule()
    } else {
        rule_step(rule_of_parts(parts.drop_last()), parts.last())
    }
}

/// The rule that an RRULE value stands for.
pub open spec fn rule_of(rrule: Seq<char>) -> Rule {
    rule_of_parts(text::split(rrule, ';'))
}

fn weekday(s: &str) -> (r: bool)
    ensures
        r == is_weekday(s@),
{
    text_eq(s, "MO") || text_eq(s, "TU") || text_eq(s, "WE") || text_eq(s, "TH") || text_eq(s, "FR")
        || text_eq(s, "SA") || text_eq(s, "SU")
}

/// Reads one BYDAY entry.
fn read_day(entry: &str) -> (r: Option<RruleByDay>)
    ensures
        match r {
            Some(d) => day_entry(entry@) == Some((d.pos as int, d.weekday@)),
            None => day_entry(entry@) is None,
        },
{
    let e: String = to_upper(trimmed(entry).as_str());
    let v: Vec<char> = chars_of(e.as_str());
    if v.len() < 2 {
        return None;
    }
    let at: usize = v.len() - 2;
    let day: String = string_of(&v, at, v.len());
    assert(day@ =~= e@.skip(at as int));
    if !weekday(day.as_str()) {
        return None;
    }
    if at == 0 {
        assert(day@ =~= e@);
        return Some(RruleByDay { pos: 0, weekday: day });
    }
    let num: String = string_of(&v, 0, at);
    assert(num@ =~= e@.take(at as int));
    match parse_i32(num.as_str()) {
        Some(n) => Some(RruleByDay { pos: n, weekday: day }),
        None => None,
    }
}

fn has_day(days: &Vec<RruleByDay>, d: &RruleByDay) -> (r: bool)
    ensures
        r == days_view(days@).contains((d.pos as int, d.weekday@)),
{
    let mut i: usize = 0;
    while i < days.len()
        invariant
            i <= days@.len(),
            forall|j: int| 0 <= j < i ==> days_view(days@)[j] != (d.pos as int, d.weekday@),
        decreases days@.len() - i,
    {
        if days[i].pos == d.pos && text_eq(days[i].weekday.as_str(), d.weekday.as_str()) {
            assert(days_view(days@)[i as int] == (d.pos as int, d.weekday@));
            return true;
        }
        assert(days_view(days@)[i as int] != (d.pos as int, d.weekday@));
        i = i + 1;
    }
    false
}

fn add_days(days: &mut Vec<RruleByDay>, v: &str)
    ensures
        days_view(final(days)@) == with_days(days_view(old(days)@), text::split(v@, ',')),
{
    let entries: Vec<String> = split_text(v, ',');
    let ghost start = days_view(days@);
    let ghost t = text::texts(entries@);
    let mut i: usize = 0;
    while i < entries.len()
        invariant
            i <= entries@.len(),
            t == text::texts(entries@),
            days_view(days@) == with_days(start, t.take(i as int)),
        decreases entries@.len() - i,
    {
        assert(t.take(i + 1).drop_last() =~= t.take(i as int));
        assert(t.take(i + 1).last() == entries@[i as int]@);
        let ghost done = days_view(days@);
        match read_day(entries[i].as_str()) {
            Some(d) => {
                if !has_day(days, &d) {
                    let ghost dv = (d.pos as int, d.weekday@);
                    days.push(d);
                    assert(days_view(days@) =~= done.push(dv));
                }
            },
            None => {},
        }
        i = i + 1;
    }
    assert(t.take(t.len() as int) =~= t);
}

fn has_number(list: &Vec<i32>, n: i32) -> (r: bool)
    ensures
        r == list@.contains(n),
{
    let mut i: usize = 0;
    while i < list.len()
        invariant
            i <= list@.len(),
            forall|j: int| 0 <= j < i ==> list@[j] != n,
        decreases list@.len() - i,
    {
        if list[i] == n {
            return true;
        }
        i = i + 1;
    }
    false
}

fn add_numbers(list: &mut Vec<i32>, v: &str, lo: i32, hi: i32)
    ensures
        final(list)@ == with_numbers(old(list)@, text::split(v@, ','), lo as int, hi as int),
{
    let entries: Vec<String> = split_text(v, ',');
    let ghost start = list@;
    let ghost t = text::texts(entries@);
    let mut i: usize = 0;
    while i < entries.len()
        invariant
            i <= entries@.len(),
            t == text::texts(entries@),
            list@ == with_numbers(start, t.take(i as int), lo as int, hi as int),
        decreases entries@.len() - i,
    {
        assert(t.take(i + 1).drop_last() =~= t.take(i as int));
        assert(t.take(i + 1).last() == entries@[i as int]@);
        match parse_i32(trimmed(entries[i].as_str()).as_str()) {
            Some(n) => {
                if n != 0 && lo <= n && n <= hi && !has_number(list, n) {
                    list.push(n);
                }
            },
            None => {},
        }
        i = i + 1;
    }
    assert(t.take(t.len() as int) =~= t);
}

/// Takes one `KEY=value` part into the rule.
fn apply_part(spec: &mut RecurrenceSpec, part: &str)
    ensures
        final(spec)@ == rule_step(old(spec)@, part@),
{
    let p: String = trimmed(part);
    let pv: Vec<char> = chars_of(p.as_str());
    assert(pv@.skip(0) =~= pv@);
    let i: usize = text::find_char(&pv, 0, '=');
    if i == pv.len() {
        return;
    }
    let left: String = string_of(&pv, 0, i);
    assert(left@ =~= p@.take(i as int));
    let right: String = string_of(&pv, i + 1, pv.len());
    assert(right@ =~= p@.skip(i + 1));
    let k: String = to_upper(trimmed(left.as_str()).as_str());
    let v: String = trimmed(right.as_str());
    if text_eq(k.as_str(), "FREQ") {
        spec.freq = to_upper(v.as_str());
    } else if text_eq(k.as_str(), "INTERVAL") {
        match parse_u32(v.as_str()) {
            Some(n) => {
                if n >= 1 {
                    spec.interval = n;
                }
            },
            None => {},
        }
    } else if text_eq(k.as_str(), "COUNT") {
        match parse_u32(v.as_str()) {
            Some(n) => {
                if n >= 1 {
                    spec.count = Some(n);
                }
            },
            None => {},
        }
    } else if text_eq(k.as_str(), "UNTIL") {
        if !text::is_empty(v.as_str()) {
            spec.until = Some(v);
        }
    } else if text_eq(k.as_str(), "BYDAY") {
        add_days(&mut spec.byday, v.as_str());
    } else if text_eq(k.as_str(), "BYMONTHDAY") {
        add_numbers(&mut spec.bymonthday, v.as_str(), -31, 31);
    } else if text_eq(k.as_str(), "BYMONTH") {
        add_numbers(&mut spec.bymonth, v.as_str(), 1, 12);
    } else if text_eq(k.as_str(), "BYYEARDAY") {
        add_numbers(&mut spec.byyearday, v.as_str(), -366, 366);
    } else if text_eq(k.as_str(), "BYWEEKNO") {
        add_numbers(&mut spec.byweekno, v.as_str(), -53, 53);
    } else if text_eq(k.as_str(), "BYSETPOS") {
        add_numbers(&mut spec.bysetpos, v.as_str(), -366, 366);
    } else if text_eq(k.as_str(), "WKST") {
        let w: String = to_upper(v.as_str());
        if weekday(w.as_str()) {
            spec.wkst = w;
        }
    }
}

/// Reads an RRULE value. Invalid parts are skipped. The times of day
/// (BYHOUR, BYMINUTE, BYSECOND) come from DTSTART and are not kept.
pub fn parse_rrule(rrule: &str) -> (r: RecurrenceSpec)
    ensures
        r@ == rule_of(rrule@),
{
    let parts: Vec<String> = split_text(rrule, ';');
    let mut spec: RecurrenceSpec = RecurrenceSpec::default();
    spec.interval = 1;
    let ghost t = text::texts(parts@);
    let mut i: usize = 0;
    assert(spec@ =~= no_rule());
    while i < parts.len()
        invariant
            i <= parts@.len(),
            t == text::texts(parts@),
            spec@ == rule_of_parts(t.take(i as int)),
        decreases parts@.len() - i,
    {
        assert(t.take(i + 1).drop_last() =~= t.take(i as int));
        assert(t.take(i + 1).last() == parts@[i as int]@);
        apply_part(&mut spec, parts[i].as_str());
        i = i + 1;
    }
    assert(t.take(t.len() as int) =~= t);
    spec
}

// ---------------------------------------------------------------------
// What every rule keeps to
// ---------------------------------------------------------------------

/// Numbers from `lo` to `hi`, none 0 and none twice.
pub open spec fn valid_numbers(list: Seq<i32>, lo: int, hi: int) -> bool {
    &&& forall|i: int| 0 <= i < list.len() ==> lo <= #[trigger] list[i] <= hi && list[i] != 0
    &&& list.no_duplicates()
}

/// A rule whose parts are in range.
pub open spec fn valid_rule(r: Rule) -> bool {
    &&& 1 <= r.interval <= u32::MAX
    &&& r.count matches Some(n) ==> 1 <= n <= u32::MAX
    &&& r.until matches Some(u) ==> u.len() > 0
    &&& forall|i: int|
        0 <= i < r.byday.len() ==> is_weekday((#[trigger] r.byday[i]).1) && i32::MIN <= r.byday[i].0
            <= i32::MAX
    &&& r.byday.no_duplicates()
    &&& valid_numbers(r.bymonthday, -31, 31)
    &&& valid_numbers(r.bymonth, 1, 12)
    &&& valid_numbers(r.byyearday, -366, 366)
    &&& valid_numbers(r.byweekno, -53, 53)
    &&& valid_numbers(r.bysetpos, -366, 366)
    &&& r.wkst.len() == 0 || is_weekday(r.wkst)
}

proof fn lemma_with_numbers(list: Seq<i32>, entries: Seq<Seq<char>>, lo: int, hi: int)
    requires
        valid_numbers(list, lo, hi),
    ensures
        valid_numbers(with_numbers(list, entries, lo, hi), lo, hi),
    decreases entries.len(),
{
    if entries.len() > 0 {
        lemma_with_numbers(list, entries.drop_last(), lo, hi);
    }
}

proof fn lemma_with_days(days: Seq<(int, Seq<char>)>, entries: Seq<Seq<char>>)
    requires
        forall|i: int|
            0 <= i < days.len() ==> is_weekday((#[trigger] days[i]).1) && i32::MIN <= days[i].0
                <= i32::MAX,
        days.no_duplicates(),
    ensures
        forall|i: int|
            0 <= i < with_days(days, entries).len() ==> is_weekday(
                (#[trigger] with_days(days, entries)[i]).1,
            ) && i32::MIN <= with_days(days, entries)[i].0 <= i32::MAX,
        with_days(days, entries).no_duplicates(),
    decreases entries.len(),
{
    if entries.len() > 0 {
        lemma_with_days(days, entries.drop_last());
        let e = text::uppercase(text::trim(entries.last()));
        assert(e.len() == 2 ==> e.skip(0) =~= e);
    }
}

/// Reading never fails and never leaves the ranges: whatever the text, the
/// interval is at least 1, every number of a list is in its range, every
/// weekday is one of the seven, and no list holds an entry twice.
pub proof fn law_rules_stay_in_range(rrule: Seq<char>)
    ensures
        valid_rule(rule_of(rrule)),
{
    lemma_parts_stay_in_range(text::split(rrule, ';'));
}

proof fn lemma_parts_stay_in_range(parts: Seq<Seq<char>>)
    ensures
        valid_rule(rule_of_parts(parts)),
    decreases parts.len(),
{
    if parts.len() > 0 {
        lemma_parts_stay_in_range(parts.drop_last());
        let r = rule_of_parts(parts.drop_last());
        let p = text::trim(parts.last());
        let entries = text::split(text::trim(p.skip(text::find(p, '=') + 1)), ',');
        lemma_with_days(r.byday, entries);
        lemma_with_numbers(r.bymonthday, entries, -31, 31);
        lemma_with_numbers(r.bymonth, entries, 1, 12);
        lemma_with_numbers(r.byyearday, entries, -366, 366);
        lemma_with_numbers(r.byweekno, entries, -53, 53);
        lemma_with_numbers(r.bysetpos, entries, -366, 366);
    }
}

// ---------------------------------------------------------------------
// Letter case
// ---------------------------------------------------------------------

/// ASCII texts that differ in letter case alone.
pub open spec fn same_letters(a: Seq<char>, b: Seq<char>) -> bool {
    text::is_ascii_text(a) && text::is_ascii_text(b) && text::same_ignoring_case(a, b)
}

proof fn lemma_same_chars(a: Seq<char>, b: Seq<char>)
    requires
        same_letters(a, b),
    ensures
        a.len() == b.len(),
        forall|i: int|
            0 <= i < a.len() ==> text::ascii_upper_char(#[trigger] a[i]) == text::ascii_upper_char(
                b[i],
            ),
{
    let (x, y) = (text::ascii_uppercase(a), text::ascii_uppercase(b));
    assert(x.len() == a.len() && y.len() == b.len());
    assert forall|i: int| 0 <= i < a.len() implies text::ascii_upper_char(#[trigger] a[i])
        == text::ascii_upper_char(b[i]) by {
        assert(x[i] == y[i]);
    }
}

proof fn lemma_same_part(a: Seq<char>, b: Seq<char>, from: int, to: int)
    requires
        same_letters(a, b),
        0 <= from <= to <= a.len(),
    ensures
        to <= b.len(),
        same_letters(a.subrange(from, to), b.subrange(from, to)),
{
    lemma_same_chars(a, b);
    let (x, y) = (a.subrange(from, to), b.subrange(from, to));
    assert forall|i: int| 0 <= i < x.len() implies (#[trigger] x[i] as u32) < 128 by {
        assert((a[from + i] as u32) < 128);
    }
    assert forall|i: int| 0 <= i < y.len() implies (#[trigger] y[i] as u32) < 128 by {
        assert((b[from + i] as u32) < 128);
    }
    assert forall|i: int| 0 <= i < x.len() implies text::ascii_upper_char(x[i])
        == text::ascii_upper_char(y[i]) by {
        assert(x[i] == a[from + i]);
    }
    assert(text::ascii_uppercase(x) =~= text::ascii_uppercase(y));
}

/// What is no letter is the same in both.
proof fn lemma_same_signs(a: Seq<char>, b: Seq<char>, i: int, c: char)
    requires
        same_letters(a, b),
        0 <= i < a.len(),
        !('A' <= c <= 'Z'),
        !('a' <= c <= 'z'),
    ensures
        a.len() == b.len(),
        a[i] == c <==> b[i] == c,
        text::is_white(a[i]) == text::is_white(b[i]),
        numbers::is_digit(a[i]) == numbers::is_digit(b[i]),
        numbers::is_digit(a[i]) ==> a[i] == b[i],
{
    lemma_same_chars(a, b);
    assert(text::ascii_upper_char(a[i]) == text::ascii_upper_char(b[i]));
}

proof fn lemma_same_find(a: Seq<char>, b: Seq<char>, c: char)
    requires
        same_letters(a, b),
        !('A' <= c <= 'Z'),
        !('a' <= c <= 'z'),
    ensures
        a.len() == b.len(),
        text::find(a, c) == text::find(b, c),
{
    lemma_same_chars(a, b);
    text::lemma_find(a, c);
    let k = text::find(a, c);
    assert forall|j: int| 0 <= j < k implies b[j] != c by {
        lemma_same_signs(a, b, j, c);
    }
    if k < a.len() {
        lemma_same_signs(a, b, k, c);
    }
    text::lemma_find_is(b, c, k);
}

proof fn lemma_same_trim_start(a: Seq<char>, b: Seq<char>)
    requires
        same_letters(a, b),
    ensures
        same_letters(text::trim_start(a), text::trim_start(b)),
    decreases a.len(),
{
    lemma_same_chars(a, b);
    if a.len() > 0 {
        lemma_same_signs(a, b, 0, ' ');
        if text::is_white(a[0]) {
            lemma_same_part(a, b, 1, a.len() as int);
            assert(a.subrange(1, a.len() as int) =~= a.skip(1));
            assert(b.subrange(1, b.len() as int) =~= b.skip(1));
            lemma_same_trim_start(a.skip(1), b.skip(1));
        }
    }
}

proof fn lemma_same_trim_end(a: Seq<char>, b: Seq<char>)
    requires
        same_letters(a, b),
    ensures
        same_letters(text::trim_end(a), text::trim_end(b)),
    decreases a.len(),
{
    lemma_same_chars(a, b);
    if a.len() > 0 {
        lemma_same_signs(a, b, a.len() - 1, ' ');
        if text::is_white(a.last()) {
            lemma_same_part(a, b, 0, a.len() - 1);
            assert(a.subrange(0, a.len() - 1) =~= a.drop_last());
            assert(b.subrange(0, b.len() - 1) =~= b.drop_last());
            lemma_same_trim_end(a.drop_last(), b.drop_last());
        }
    }
}

proof fn lemma_same_trim(a: Seq<char>, b: Seq<char>)
    requires
        same_letters(a, b),
    ensures
        same_letters(text::trim(a), text::trim(b)),
        text::uppercase(text::trim(a)) == text::uppercase(text::trim(b)),
{
    lemma_same_trim_start(a, b);
    lemma_same_trim_end(text::trim_start(a), text::trim_start(b));
}

/// Lists of texts that differ in letter case alone, one by one.
pub open spec fn all_same_letters(a: Seq<Seq<char>>, b: Seq<Seq<char>>) -> bool {
    a.len() == b.len() && forall|i: int| 0 <= i < a.len() ==> same_letters(#[trigger] a[i], b[i])
}

proof fn lemma_same_split(a: Seq<char>, b: Seq<char>, c: char)
    requires
        same_letters(a, b),
        !('A' <= c <= 'Z'),
        !('a' <= c <= 'z'),
    ensures
        all_same_letters(text::split(a, c), text::split(b, c)),
    decreases a.len(),
{
    lemma_same_find(a, b, c);
    text::lemma_find(a, c);
    let k = text::find(a, c);
    if k < a.len() {
        lemma_same_part(a, b, 0, k);
        lemma_same_part(a, b, k + 1, a.len() as int);
        assert(a.subrange(0, k) =~= a.take(k) && b.subrange(0, k) =~= b.take(k));
        assert(a.subrange(k + 1, a.len() as int) =~= a.skip(k + 1));
        assert(b.subrange(k + 1, b.len() as int) =~= b.skip(k + 1));
        lemma_same_split(a.skip(k + 1), b.skip(k + 1), c);
        let (x, y) = (text::split(a, c), text::split(b, c));
        let (p, q) = (text::split(a.skip(k + 1), c), text::split(b.skip(k + 1), c));
        assert forall|i: int| 0 <= i < x.len() implies same_letters(#[trigger] x[i], y[i]) by {
            if i > 0 {
                assert(x[i] == p[i - 1] && y[i] == q[i - 1]);
            }
        }
    }
}

proof fn lemma_same_number(a: Seq<char>, b: Seq<char>)
    requires
        same_letters(a, b),
    ensures
        numbers::signed_value(a) == numbers::signed_value(b),
        numbers::unsigned_value(a) == numbers::unsigned_value(b),
{
    lemma_same_chars(a, b);
    if a.len() > 0 {
        lemma_same_signs(a, b, 0, '+');
        lemma_same_signs(a, b, 0, '-');
        lemma_same_digits(a, b);
        lemma_same_part(a, b, 1, a.len() as int);
        assert(a.subrange(1, a.len() as int) =~= a.skip(1));
        assert(b.subrange(1, b.len() as int) =~= b.skip(1));
        lemma_same_digits(a.skip(1), b.skip(1));
    }
}

proof fn lemma_same_digits(a: Seq<char>, b: Seq<char>)
    requires
        same_letters(a, b),
    ensures
        a.len() == b.len(),
        numbers::all_digits(a) == numbers::all_digits(b),
        numbers::all_digits(a) ==> a == b,
{
    lemma_same_chars(a, b);
    assert forall|i: int| 0 <= i < a.len() implies numbers::is_digit(#[trigger] a[i])
        == numbers::is_digit(b[i]) && (numbers::is_digit(a[i]) ==> a[i] == b[i]) by {
        lemma_same_signs(a, b, i, ' ');
    }
    if numbers::all_digits(a) {
        assert(a =~= b);
    }
    if numbers::all_digits(b) {
        assert forall|i: int| 0 <= i < a.len() implies numbers::is_digit(#[trigger] a[i]) by {
            assert(numbers::is_digit(b[i]));
        }
    }
}

proof fn lemma_same_days(days: Seq<(int, Seq<char>)>, a: Seq<Seq<char>>, b: Seq<Seq<char>>)
    requires
        all_same_letters(a, b),
    ensures
        with_days(days, a) == with_days(days, b),
    decreases a.len(),
{
    if a.len() > 0 {
        lemma_same_init(a, b);
        lemma_same_days(days, a.drop_last(), b.drop_last());
        lemma_same_trim(a.last(), b.last());
    }
}

proof fn lemma_same_init(a: Seq<Seq<char>>, b: Seq<Seq<char>>)
    requires
        all_same_letters(a, b),
        a.len() > 0,
    ensures
        all_same_letters(a.drop_last(), b.drop_last()),
        same_letters(a.last(), b.last()),
{
    let (x, y) = (a.drop_last(), b.drop_last());
    assert forall|i: int| 0 <= i < x.len() implies same_letters(#[trigger] x[i], y[i]) by {
        assert(same_letters(a[i], b[i]));
    }
    assert(same_letters(a[a.len() - 1], b[b.len() - 1]));
}

proof fn lemma_same_numbers(list: Seq<i32>, a: Seq<Seq<char>>, b: Seq<Seq<char>>, lo: int, hi: int)
    requires
        all_same_letters(a, b),
    ensures
        with_numbers(list, a, lo, hi) == with_numbers(list, b, lo, hi),
    decreases a.len(),
{
    if a.len() > 0 {
        lemma_same_init(a, b);
        lemma_same_numbers(list, a.drop_last(), b.drop_last(), lo, hi);
        lemma_same_trim(a.last(), b.last());
        lemma_same_number(text::trim(a.last()), text::trim(b.last()));
    }
}

/// The upper-cased key of a part of a rule.
pub open spec fn part_key(part: Seq<char>) -> Seq<char> {
    let p = text::trim(part);
    text::uppercase(text::trim(p.take(text::find(p, '='))))
}

proof fn lemma_same_step(r: Rule, a: Seq<char>, b: Seq<char>)
    requires
        same_letters(a, b),
        part_key(a) != "UNTIL"@,
    ensures
        rule_step(r, a) == rule_step(r, b),
{
    lemma_same_trim(a, b);
    let (p, q) = (text::trim(a), text::trim(b));
    lemma_same_find(p, q, '=');
    text::lemma_find(p, '=');
    let i = text::find(p, '=');
    if i < p.len() {
        lemma_same_part(p, q, 0, i);
        lemma_same_part(p, q, i + 1, p.len() as int);
        assert(p.subrange(0, i) =~= p.take(i) && q.subrange(0, i) =~= q.take(i));
        assert(p.subrange(i + 1, p.len() as int) =~= p.skip(i + 1));
        assert(q.subrange(i + 1, q.len() as int) =~= q.skip(i + 1));
        lemma_same_trim(p.take(i), q.take(i));
        lemma_same_trim(p.skip(i + 1), q.skip(i + 1));
        let (v, w) = (text::trim(p.skip(i + 1)), text::trim(q.skip(i + 1)));
        lemma_same_number(v, w);
        lemma_same_split(v, w, ',');
        let (x, y) = (text::split(v, ','), text::split(w, ','));
        lemma_same_days(r.byday, x, y);
        lemma_same_numbers(r.bymonthday, x, y, -31, 31);
        lemma_same_numbers(r.bymonth, x, y, 1, 12);
        lemma_same_numbers(r.byyearday, x, y, -366, 366);
        lemma_same_numbers(r.byweekno, x, y, -53, 53);
        lemma_same_numbers(r.bysetpos, x, y, -366, 366);
    }
}

proof fn lemma_same_parts(a: Seq<Seq<char>>, b: Seq<Seq<char>>)
    requires
        all_same_letters(a, b),
        forall|i: int| 0 <= i < a.len() ==> part_key(#[trigger] a[i]) != "UNTIL"@,
    ensures
        rule_of_parts(a) == rule_of_parts(b),
    decreases a.len(),
{
    if a.len() > 0 {
        lemma_same_init(a, b);
        assert forall|i: int| 0 <= i < a.drop_last().len() implies part_key(
            #[trigger] a.drop_last()[i],
        ) != "UNTIL"@ by {
            assert(a.drop_last()[i] == a[i]);
        }
        lemma_same_parts(a.drop_last(), b.drop_last());
        assert(part_key(a[a.len() - 1]) != "UNTIL"@);
        lemma_same_step(rule_of_parts(a.drop_last()), a.last(), b.last());
    }
}

/// Letter case makes no difference to a rule of ASCII text: keys, frequency
/// and weekdays are read in any case. An end date is kept as it is written,
/// so it is left out here.
pub proof fn law_case_makes_no_difference(a: Seq<char>, b: Seq<char>)
    requires
        text::is_ascii_text(a),
        text::is_ascii_text(b),
        text::same_ignoring_case(a, b),
        forall|i: int|
            0 <= i < text::split(a, ';').len() ==> part_key(#[trigger] text::split(a, ';')[i])
                != "UNTIL"@,
    ensures
        rule_of(a) == rule_of(b),
{
    lemma_same_split(a, b, ';');
    lemma_same_parts(text::split(a, ';'), text::split(b, ';'));
}

/// The lower-cased and the upper-cased form of ASCII text are equal to it but
/// for letter case.
pub proof fn law_cased_forms(s: Seq<char>)
    requires
        text::is_ascii_text(s),
    ensures
        same_letters(s, text::lowercase(s)),
        same_letters(s, text::uppercase(s)),
{
    let (l, u) = (text::ascii_lowercase(s), text::ascii_uppercase(s));
    assert forall|i: int| 0 <= i < s.len() implies (#[trigger] l[i] as u32) < 128 && (u[i] as u32)
        < 128 && text::ascii_upper_char(l[i]) == text::ascii_upper_char(s[i])
        && text::ascii_upper_char(u[i]) == text::ascii_upper_char(s[i]) by {
        let c = s[i];
        assert((c as u32) < 128);
        if 'A' <= c && c <= 'Z' {
            assert(l[i] == (c as u32 + 32) as char);
        }
    }
    assert forall|i: int| 0 <= i < u.len() implies (#[trigger] u[i] as u32) < 128 by {
        assert((l[i] as u32) < 128);
    }
    assert(text::ascii_uppercase(l) =~= text::ascii_uppercase(s));
    assert(text::ascii_uppercase(u) =~= text::ascii_uppercase(s));
}

} // verus!
