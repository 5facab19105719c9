//! What written dates, numbers and texts stand for.
use vstd::prelude::*;

use crate::contacts;
use crate::dates;
use crate::dates::Civil;
use crate::encoding;
use crate::escape;
use crate::numbers;
use crate::text;

verus! {

// ---------------------------------------------------------------------
// Numbers
// ---------------------------------------------------------------------

/// The value of a decimal digit.
pub open spec fn value_of(c: char) -> int {
    c as int - 48
}

/// A number of two digits.
pub open spec fn is_two(s: Seq<char>, n: int) -> bool {
    &&& s.len() == 2
    &&& '0' <= s[0] <= '9' && '0' <= s[1] <= '9'
    &&& value_of(s[0]) * 10 + value_of(s[1]) == n
}

/// A number of four digits.
pub open spec fn is_four(s: Seq<char>, n: int) -> bool {
    &&& s.len() == 4
    &&& '0' <= s[0] <= '9' && '0' <= s[1] <= '9' && '0' <= s[2] <= '9' && '0' <= s[3] <= '9'
    &&& value_of(s[0]) * 1000 + value_of(s[1]) * 100 + value_of(s[2]) * 10 + value_of(s[3]) == n
}

proof fn lemma_digit(n: nat)
    requires
        n < 10,
    ensures
        numbers::decimal(n).len() == 1,
        '0' <= numbers::decimal(n)[0] <= '9',
        value_of(numbers::decimal(n)[0]) == n,
{
}

proof fn lemma_more_digits(n: nat)
    requires
        n >= 10,
    ensures
        numbers::decimal(n).len() == numbers::decimal(n / 10).len() + 1,
        numbers::decimal(n).last() == numbers::decimal(n % 10)[0],
        numbers::decimal(n).drop_last() == numbers::decimal(n / 10),
{
    let d = numbers::decimal(n);
    assert(d.drop_last() =~= numbers::decimal(n / 10));
}

/// A number below a hundred in two digits, and one below ten thousand in
/// four, is written with zeros in front.
pub proof fn law_padded_digits(n: nat)
    ensures
        n < 100 ==> is_two(numbers::padded(n, 2), n as int),
        n < 10000 ==> is_four(numbers::padded(n, 4), n as int),
{
    lemma_digit(n % 10);
    lemma_digit((n / 10) % 10);
    lemma_digit((n / 100) % 10);
    if n < 10 {
        lemma_digit(n);
    } else {
        lemma_more_digits(n);
        if n < 100 {
            lemma_digit(n / 10);
        } else {
            lemma_more_digits(n / 10);
            assert((n / 10) / 10 == n / 100);
            if n < 1000 {
                lemma_digit(n / 100);
            } else {
                lemma_more_digits(n / 100);
                assert((n / 100) / 10 == n / 1000);
                if n < 10000 {
                    lemma_digit(n / 1000);
                }
            }
        }
    }
    if n < 10000 {
        let d = numbers::decimal(n);
        assert(d.len() == if n < 10 {
            1int
        } else if n < 100 {
            2
        } else if n < 1000 {
            3
        } else {
            4
        });
        let d3 = d[d.len() - 1];
        assert(value_of(d3) == n % 10);
        let p = numbers::padded(n, 4);
        assert(p.len() == 4);
        assert(p[3] == d3);
        if n >= 10 {
            let e = numbers::decimal(n / 10);
            assert(d[d.len() - 2] == e[e.len() - 1]);
            assert(value_of(e[e.len() - 1]) == (n / 10) % 10);
            assert(p[2] == d[d.len() - 2]);
            if n >= 100 {
                let f = numbers::decimal(n / 100);
                assert(e[e.len() - 2] == f[f.len() - 1]);
                assert(d[d.len() - 3] == e[e.len() - 2]);
                assert(value_of(f[f.len() - 1]) == (n / 100) % 10);
                assert(p[1] == d[d.len() - 3]);
                if n >= 1000 {
                    let g = numbers::decimal(n / 1000);
                    assert(f[f.len() - 2] == g[g.len() - 1]);
                    assert(e[e.len() - 3] == f[f.len() - 2]);
                    assert(d[d.len() - 4] == e[e.len() - 3]);
                    assert(p[0] == d[d.len() - 4]);
                    assert(value_of(p[0]) == n / 1000);
                } else {
                    assert(p[0] == '0');
                }
            } else {
                assert(p[1] == '0' && p[0] == '0');
            }
        } else {
            assert(p[2] == '0' && p[1] == '0' && p[0] == '0');
        }
        if n < 100 {
            let q = numbers::padded(n, 2);
            assert(q.len() == 2);
            assert(q[1] == d3);
            if n >= 10 {
                assert(q[0] == d[d.len() - 2]);
            } else {
                assert(q[0] == '0');
            }
        }
    }
}

/// What a sign and digits stand for: a plus sign changes nothing, a minus
/// sign turns the number, and one more digit counts the ones.
pub proof fn law_signed_digits(d: Seq<char>, c: char)
    requires
        d.len() > 0,
        forall|i: int| 0 <= i < d.len() ==> '0' <= #[trigger] d[i] <= '9',
        '0' <= c <= '9',
    ensures
        ({
            let n = numbers::signed_value(d);
            &&& n is Some && n->Some_0 >= 0
            &&& numbers::unsigned_value(d) == n
            &&& numbers::unsigned_value(seq!['+'] + d) == n
            &&& numbers::unsigned_value(seq!['-'] + d) is None
            &&& numbers::signed_value(seq!['+'] + d) == n
            &&& numbers::signed_value(seq!['-'] + d) == Some(-n->Some_0)
            &&& numbers::signed_value(d.push(c)) == Some(10 * n->Some_0 + value_of(c))
            &&& numbers::signed_value(seq![c]) == Some(value_of(c))
        }),
{
    assert(numbers::all_digits(d));
    numbers::lemma_digits_value_grows(d, 0);
    let plus = seq!['+'] + d;
    let minus = seq!['-'] + d;
    assert(plus.skip(1) =~= d);
    assert(minus.skip(1) =~= d);
    assert(minus[0] == '-');
    assert(!numbers::is_digit(minus[0]));
    let more = d.push(c);
    assert(more.drop_last() =~= d);
    assert(numbers::all_digits(more));
    assert(more[0] == d[0]);
    assert(d.take(0) =~= seq![]);
    assert(numbers::digits_value(d) >= 0) by {
        assert(numbers::digits_value(d.take(0)) == 0);
    }
    let one = seq![c];
    assert(numbers::all_digits(one));
    assert(one.drop_last() =~= seq![]);
    assert(numbers::digits_value(one.drop_last()) == 0);
}

/// Text in which any character but a sign in front is no digit, or which has
/// no digit at all, is no number.
pub proof fn law_other_text_is_no_number(s: Seq<char>, i: int)
    requires
        0 <= i < s.len(),
        !('0' <= s[i] <= '9'),
        i > 0 || s[0] != '+' && s[0] != '-' || s.len() == 1,
    ensures
        numbers::signed_value(s) is None,
        numbers::unsigned_value(s) is None,
        numbers::signed_value(seq![]) is None,
        numbers::unsigned_value(seq![]) is None,
{
    assert(!numbers::is_digit(s[i]));
    if i > 0 {
        assert(s.skip(1)[i - 1] == s[i]);
    }
}

// ---------------------------------------------------------------------
// Dates
// ---------------------------------------------------------------------

/// `YYYYMMDD`: the digits of a date.
pub open spec fn is_date_of(s: Seq<char>, c: Civil) -> bool {
    &&& s.len() == 8
    &&& is_four(s.subrange(0, 4), c.year as int)
    &&& is_two(s.subrange(4, 6), c.month as int)
    &&& is_two(s.subrange(6, 8), c.day as int)
}

/// `HHMMSS`: the digits of a time of day.
pub open spec fn is_time_of(s: Seq<char>, c: Civil) -> bool {
    &&& s.len() == 6
    &&& is_two(s.subrange(0, 2), c.hour as int)
    &&& is_two(s.subrange(2, 4), c.minute as int)
    &&& is_two(s.subrange(4, 6), c.second as int)
}

proof fn lemma_date_text(c: Civil)
    requires
        dates::is_civil(c),
        0 <= c.year <= 9999,
    ensures
        is_date_of(dates::date_text(c), c),
        is_time_of(dates::time_text(c), c),
{
    law_padded_digits(c.year as nat);
    law_padded_digits(c.month as nat);
    law_padded_digits(c.day as nat);
    law_padded_digits(c.hour as nat);
    law_padded_digits(c.minute as nat);
    law_padded_digits(c.second as nat);
    let s = dates::date_text(c);
    assert(c.day <= 31);
    assert(s.subrange(0, 4) =~= numbers::padded(c.year as nat, 4));
    assert(s.subrange(4, 6) =~= numbers::padded(c.month as nat, 2));
    assert(s.subrange(6, 8) =~= numbers::padded(c.day as nat, 2));
    let t = dates::time_text(c);
    assert(t.subrange(0, 2) =~= numbers::padded(c.hour as nat, 2));
    assert(t.subrange(2, 4) =~= numbers::padded(c.minute as nat, 2));
    assert(t.subrange(4, 6) =~= numbers::padded(c.second as nat, 2));
}

proof fn lemma_civil_at(c: Civil)
    requires
        dates::is_civil(c),
        0 <= c.year <= 9999,
    ensures
        dates::has_date(dates::unix_seconds(c)),
        dates::civil_at(dates::unix_seconds(c)) == c,
{
    dates::lemma_civil_range(c);
    dates::law_one_civil_per_second(c, dates::civil_at(dates::unix_seconds(c)));
}

/// A time is written as its date and its time of day in UTC, a whole day as
/// its date.
pub proof fn law_time_is_written(c: Civil)
    requires
        dates::is_civil(c),
        0 <= c.year <= 9999,
    ensures
        dates::ical_dt_body(dates::unix_seconds(c), false) matches Some(s) && {
            &&& s.len() == 17
            &&& s[0] == ':'
            &&& is_date_of(s.subrange(1, 9), c)
            &&& s[9] == 'T'
            &&& is_time_of(s.subrange(10, 16), c)
            &&& s[16] == 'Z'
        },
        dates::ical_dt_body(dates::unix_seconds(c), true) matches Some(s) && s.len() == 20
            && s.take(12) == ";VALUE=DATE:"@ && is_date_of(s.skip(12), c),
{
    lemma_civil_at(c);
    lemma_date_text(c);
    reveal_strlit(":");
    reveal_strlit("T");
    reveal_strlit("Z");
    reveal_strlit(";VALUE=DATE:");
    let s = dates::date_time_body(c);
    assert(s.subrange(1, 9) =~= dates::date_text(c));
    assert(s.subrange(10, 16) =~= dates::time_text(c));
    let d = dates::date_body(c);
    assert(d.skip(12) =~= dates::date_text(c));
    assert(d.take(12) =~= ";VALUE=DATE:"@);
}

/// The end of whole days is written as the day behind the last one.
pub proof fn law_end_is_the_day_behind(last: Civil, behind: Civil)
    requires
        dates::is_civil(last),
        dates::is_civil(behind),
        0 <= last.year <= 9999,
        0 <= behind.year <= 9999,
        dates::unix_seconds(behind) == dates::unix_seconds(last) + 86400,
    ensures
        dates::ical_end_body(dates::unix_seconds(last)) matches Some(s) && s.len() == 20 && s.take(
            12,
        ) == ";VALUE=DATE:"@ && is_date_of(s.skip(12), behind),
{
    lemma_civil_at(last);
    law_time_is_written(behind);
}

/// A time that has no date is not written.
pub proof fn law_no_date_is_not_written(unix: int, all_day: bool)
    requires
        unix > dates::max_unix() || unix < dates::min_unix(),
    ensures
        dates::ical_dt_body(unix, all_day) is None,
        dates::ical_end_body(unix) is None,
        unix > dates::max_unix() ==> dates::ical_end_body(unix - 86400) is None,
{
}

// ---------------------------------------------------------------------
// Text values
// ---------------------------------------------------------------------

/// Text is escaped character by character: a backslash goes before a comma, a
/// semicolon and a backslash, a line feed becomes a backslash and an `n`, and
/// every other character stands for itself.
pub proof fn law_escaped_characters(a: Seq<char>, b: Seq<char>, c: char)
    ensures
        escape::escape(a + b) == escape::escape(a) + escape::escape(b),
        c == ',' || c == ';' || c == '\\' ==> escape::escape(seq![c]) == seq!['\\', c],
        c == '\n' ==> escape::escape(seq![c]) == seq!['\\', 'n'],
        c != ',' && c != ';' && c != '\\' && c != '\n' ==> escape::escape(seq![c]) == seq![c],
    decreases a.len(),
{
    let one = seq![c];
    assert(one.skip(1) =~= seq![]);
    assert(escape::escape(one.skip(1)) =~= seq![]);
    assert(escape::escape(one) =~= escape::escaped_char(c));
    if a.len() > 0 {
        law_escaped_characters(a.skip(1), b, c);
        assert((a + b).skip(1) =~= a.skip(1) + b);
        assert(escape::escape(a + b) =~= escape::escape(a) + escape::escape(b));
    } else {
        assert(a + b =~= b);
        assert(escape::escape(a + b) =~= escape::escape(a) + escape::escape(b));
    }
}

/// An escape is resolved where it stands: a line feed for `n` in either case,
/// the character itself for a comma, a semicolon and a backslash; before any
/// other character a backslash stays.
pub proof fn law_resolved_escapes(c: char, rest: Seq<char>)
    ensures
        c == 'n' || c == 'N' ==> escape::unescape(seq!['\\', c] + rest) == seq!['\n']
            + escape::unescape(rest),
        c == ',' || c == ';' || c == '\\' ==> escape::unescape(seq!['\\', c] + rest) == seq![c]
            + escape::unescape(rest),
        c != 'n' && c != 'N' && c != ',' && c != ';' && c != '\\' ==> escape::unescape(
            seq!['\\', c] + rest,
        ) == seq!['\\', c] + escape::unescape(rest),
        c != '\\' ==> escape::unescape(seq![c] + rest) == seq![c] + escape::unescape(rest),
        escape::unescape(seq!['\\']) == seq!['\\'],
        escape::unescape(seq![]) == Seq::<char>::empty(),
{
    let s = seq!['\\', c] + rest;
    assert(s.skip(2) =~= rest);
    let t = seq![c] + rest;
    assert(t.skip(1) =~= rest);
}

/// Carriage returns go, every other character stays where it is.
pub proof fn law_carriage_returns_go(a: Seq<char>, b: Seq<char>, c: char)
    ensures
        escape::without_cr(a + b) == escape::without_cr(a) + escape::without_cr(b),
        escape::without_cr(seq!['\r']) == Seq::<char>::empty(),
        c != '\r' ==> escape::without_cr(seq![c]) == seq![c],
    decreases a.len(),
{
    let one = seq![c];
    let cr = seq!['\r'];
    assert(one.skip(1) =~= seq![]);
    assert(cr.skip(1) =~= seq![]);
    assert(escape::without_cr(one.skip(1)) =~= seq![]);
    assert(escape::without_cr(cr.skip(1)) =~= seq![]);
    assert(c != '\r' ==> escape::without_cr(one) =~= seq![c]);
    if a.len() > 0 {
        law_carriage_returns_go(a.skip(1), b, c);
        assert((a + b).skip(1) =~= a.skip(1) + b);
        assert(escape::without_cr(a + b) =~= escape::without_cr(a) + escape::without_cr(b));
    } else {
        assert(a + b =~= b);
        assert(escape::without_cr(a + b) =~= escape::without_cr(a) + escape::without_cr(b));
    }
}

/// White space at the ends goes, all of it and nothing else.
pub proof fn law_trimmed(front: Seq<char>, core: Seq<char>, back: Seq<char>)
    requires
        forall|i: int| 0 <= i < front.len() ==> text::is_white(#[trigger] front[i]),
        forall|i: int| 0 <= i < back.len() ==> text::is_white(#[trigger] back[i]),
        core.len() > 0,
        !text::is_white(core[0]),
        !text::is_white(core[core.len() - 1]),
    ensures
        text::trim(front + core + back) == core,
{
    lemma_trim_start(front, core + back);
    assert(front + core + back =~= front + (core + back));
    lemma_trim_end(core, back);
}

proof fn lemma_trim_start(front: Seq<char>, rest: Seq<char>)
    requires
        forall|i: int| 0 <= i < front.len() ==> text::is_white(#[trigger] front[i]),
        rest.len() > 0,
        !text::is_white(rest[0]),
    ensures
        text::trim_start(front + rest) == rest,
    decreases front.len(),
{
    if front.len() > 0 {
        let f = front.skip(1);
        assert forall|i: int| 0 <= i < f.len() implies text::is_white(#[trigger] f[i]) by {
            assert(f[i] == front[i + 1]);
        }
        lemma_trim_start(f, rest);
        assert((front + rest).skip(1) =~= f + rest);
        assert((front + rest)[0] == front[0]);
    } else {
        assert(front + rest =~= rest);
    }
}

proof fn lemma_trim_end(rest: Seq<char>, back: Seq<char>)
    requires
        forall|i: int| 0 <= i < back.len() ==> text::is_white(#[trigger] back[i]),
        rest.len() > 0,
        !text::is_white(rest[rest.len() - 1]),
    ensures
        text::trim_end(rest + back) == rest,
    decreases back.len(),
{
    if back.len() > 0 {
        let b = back.drop_last();
        assert forall|i: int| 0 <= i < b.len() implies text::is_white(#[trigger] b[i]) by {
            assert(b[i] == back[i]);
        }
        lemma_trim_end(rest, b);
        assert((rest + back).drop_last() =~= rest + b);
        assert((rest + back).last() == back[back.len() - 1]);
    } else {
        assert(rest + back =~= rest);
    }
}

/// The white space of plain text is the space, the tab and the line ends.
pub proof fn law_plain_white_space(c: char)
    requires
        (c as u32) < 128,
    ensures
        text::is_white(c) <==> c == ' ' || c == '\t' || c == '\n' || c == '\r' || c as u32 == 11
            || c as u32 == 12,
{
}

// ---------------------------------------------------------------------
// Bytes as text
// ---------------------------------------------------------------------

/// The two alphabets of 64 characters.
pub proof fn law_alphabets(n: int)
    requires
        0 <= n < 64,
    ensures
        encoding::bcrypt_char(n)
            == "./ABCDEFGHIJKLMNOPQRSTUVWXYZabcdefghijklmnopqrstuvwxyz0123456789"@[n],
        encoding::standard_char(n)
            == "ABCDEFGHIJKLMNOPQRSTUVWXYZabcdefghijklmnopqrstuvwxyz0123456789+/"@[n],
{
    reveal_strlit("./ABCDEFGHIJKLMNOPQRSTUVWXYZabcdefghijklmnopqrstuvwxyz0123456789");
    reveal_strlit("ABCDEFGHIJKLMNOPQRSTUVWXYZabcdefghijklmnopqrstuvwxyz0123456789+/");
}

/// Three bytes and the four groups of six bits that stand for them are one
/// number; one or two bytes at the end are filled up with zeros.
pub proof fn law_groups_are_the_bytes(a: u8, b: u8, c: u8, rest: Seq<u8>)
    ensures
        ({
            let s = encoding::sextets(seq![a, b, c] + rest);
            &&& s.len() == 4 + encoding::sextets(rest).len()
            &&& s.skip(4) == encoding::sextets(rest)
            &&& 0 <= s[0] < 64 && 0 <= s[1] < 64 && 0 <= s[2] < 64 && 0 <= s[3] < 64
            &&& s[0] * 262144 + s[1] * 4096 + s[2] * 64 + s[3] == a * 65536 + b * 256 + c
        }),
        ({
            let s = encoding::sextets(seq![a, b]);
            &&& s.len() == 3
            &&& 0 <= s[0] < 64 && 0 <= s[1] < 64 && 0 <= s[2] < 64
            &&& (s[0] * 4096 + s[1] * 64 + s[2]) == (a * 256 + b) * 4
        }),
        ({
            let s = encoding::sextets(seq![a]);
            &&& s.len() == 2
            &&& 0 <= s[0] < 64 && 0 <= s[1] < 64
            &&& s[0] * 64 + s[1] == a * 16
        }),
        encoding::sextets(seq![]) == Seq::<int>::empty(),
{
    let all = seq![a, b, c] + rest;
    assert(all.skip(3) =~= rest);
    let s = encoding::sextets(all);
    assert(s.skip(4) =~= encoding::sextets(rest));
}

/// A UID starts with its maker, behind which 16 bytes stand in hexadecimal,
/// in five groups.
pub proof fn law_uid_form(b: Seq<u8>)
    requires
        b.len() == 16,
    ensures
        ({
            let s = contacts::uid_of(b);
            &&& s.len() == 47
            &&& s.take(11) == "proton-web-"@
            &&& s[19] == '-' && s[24] == '-' && s[29] == '-' && s[34] == '-'
            &&& s.subrange(11, 19) == contacts::hex(b.subrange(0, 4))
            &&& s.subrange(20, 24) == contacts::hex(b.subrange(4, 6))
            &&& s.subrange(25, 29) == contacts::hex(b.subrange(6, 8))
            &&& s.subrange(30, 34) == contacts::hex(b.subrange(8, 10))
            &&& s.subrange(35, 47) == contacts::hex(b.subrange(10, 16))
        }),
{
    reveal_strlit("proton-web-");
    reveal_strlit("-");
    lemma_hex_len(b.subrange(0, 4));
    lemma_hex_len(b.subrange(4, 6));
    lemma_hex_len(b.subrange(6, 8));
    lemma_hex_len(b.subrange(8, 10));
    lemma_hex_len(b.subrange(10, 16));
    let s = contacts::uid_of(b);
    assert(s.take(11) =~= "proton-web-"@);
    assert(s.subrange(11, 19) =~= contacts::hex(b.subrange(0, 4)));
    assert(s.subrange(20, 24) =~= contacts::hex(b.subrange(4, 6)));
    assert(s.subrange(25, 29) =~= contacts::hex(b.subrange(6, 8)));
    assert(s.subrange(30, 34) =~= contacts::hex(b.subrange(8, 10)));
    assert(s.subrange(35, 47) =~= contacts::hex(b.subrange(10, 16)));
}

proof fn lemma_hex_len(b: Seq<u8>)
    ensures
        contacts::hex(b).len() == 2 * b.len(),
    decreases b.len(),
{
    if b.len() > 0 {
        lemma_hex_len(b.drop_last());
    }
}

/// A byte in hexadecimal is two digits in lower case, the sixteens first.
pub proof fn law_hex_digits(b: Seq<u8>, n: u8)
    ensures
        contacts::hex(b.push(n)) == contacts::hex(b) + seq![
            "0123456789abcdef"@[n as int / 16],
            "0123456789abcdef"@[n as int % 16],
        ],
{
    reveal_strlit("0123456789abcdef");
    assert(b.push(n).drop_last() =~= b);
}

/// A year of more than four digits, or before the year 0, has its sign in
/// front, and at least four digits.
pub proof fn law_far_years(y: int)
    ensures
        y > 9999 ==> dates::year_text(y) == seq!['+'] + numbers::decimal(y as nat),
        -9999 <= y < 0 ==> dates::year_text(y)[0] == '-' && is_four(dates::year_text(y).skip(1), -y),
{
    if y > 9999 {
        lemma_long(y as nat);
        let d = numbers::decimal(y as nat);
        assert(numbers::zeros(4 - d.len()) =~= seq![]);
        assert(numbers::padded(y as nat, 4) =~= d);
    }
    if -9999 <= y < 0 {
        law_padded_digits((-y) as nat);
        assert(dates::year_text(y).skip(1) =~= numbers::padded((-y) as nat, 4));
    }
}

proof fn lemma_long(n: nat)
    requires
        n >= 1000,
    ensures
        numbers::decimal(n).len() >= 4,
{
    lemma_more_digits(n);
    lemma_more_digits(n / 10);
    lemma_more_digits((n / 10) / 10);
    numbers::law_decimal_reads_back(((n / 10) / 10) / 10);
}

// ---------------------------------------------------------------------
// The calendar
// ---------------------------------------------------------------------

/// A year has 365 days, and one more where it divides by four and, at a full
/// century, by four hundred.
pub proof fn law_year_length(y: int)
    ensures
        y % 400 == 0 ==> dates::days_before_year(y + 1) == dates::days_before_year(y) + 366,
        y % 4 == 0 && y % 100 != 0 ==> dates::days_before_year(y + 1) == dates::days_before_year(y)
            + 366,
        y % 4 != 0 ==> dates::days_before_year(y + 1) == dates::days_before_year(y) + 365,
        y % 100 == 0 && y % 400 != 0 ==> dates::days_before_year(y + 1) == dates::days_before_year(
            y,
        ) + 365,
{
    dates::lemma_year_length(y);
    assert(y % 400 == 0 ==> y % 4 == 0);
    let n = dates::days_before_month(y, 13);
    assert(dates::is_leap(y) ==> n == 366);
    assert(!dates::is_leap(y) ==> n == 365);
}

/// Days are counted on from the start of 1970; each month has its own number
/// of them, and February one more in a year of 366 days.
pub proof fn law_month_length(y: int, m: int, d: int)
    ensures
        dates::epoch_day(1970, 1, 1) == 0,
        dates::epoch_day(y, m, d + 1) == dates::epoch_day(y, m, d) + 1,
        m == 4 || m == 6 || m == 9 || m == 11 ==> dates::epoch_day(y, m + 1, d)
            == dates::epoch_day(y, m, d) + 30,
        m == 1 || m == 3 || m == 5 || m == 7 || m == 8 || m == 10 ==> dates::epoch_day(y, m + 1, d)
            == dates::epoch_day(y, m, d) + 31,
        dates::days_before_month(y, 1) == 0,
        dates::days_before_month(y, 12) + 31 == dates::days_before_month(y, 13),
        dates::days_before_month(y, 13) - 365 == dates::days_before_month(y, 3) - 59,
        y % 4 == 0 && y % 100 != 0 ==> dates::days_before_month(y, 3) == 60,
        y % 4 != 0 ==> dates::days_before_month(y, 3) == 59,
{
    assert(dates::days_before_year(1970) == 719162);
}

/// The time of day adds up to the seconds of its day.
pub proof fn law_time_of_day(c: Civil)
    ensures
        dates::unix_seconds(c) == 86400 * dates::epoch_day(
            c.year as int,
            c.month as int,
            c.day as int,
        ) + 3600 * c.hour + 60 * c.minute + c.second,
{
}

} // verus!
