//! Decimal numbers in text.
use vstd::prelude::*;

use crate::text;
use crate::text::chars_of;

verus! {

pub open spec fn is_digit(c: char) -> bool {
    '0' <= c && c <= '9'
}

pub open spec fn digit_value(c: char) -> int {
    c as int - '0' as int
}

pub open spec fn digit_char(d: int) -> char {
    (d + 48) as char
}

pub open spec fn all_digits(s: Seq<char>) -> bool {
    forall|i: int| 0 <= i < s.len() ==> is_digit(#[trigger] s[i])
}

/// The number that decimal digits stand for.
pub open spec fn digits_value(s: Seq<char>) -> int
    decreases s.len(),
{
    if s.len() == 0 {
        0
    } else {
        digits_value(s.drop_last()) * 10 + digit_value(s.last())
    }
}

/// Decimal digits of a number, without leading zeros.
pub open spec fn decimal(n: nat) -> Seq<char>
    decreases n,
{
    if n < 10 {
        seq![digit_char(n as int)]
    } else {
        decimal(n / 10).push(digit_char((n % 10) as int))
    }
}

/// Decimal form of a number, with a minus sign where it is negative.
pub open spec fn signed_decimal(n: int) -> Seq<char> {
    if n < 0 {
        seq!['-'] + decimal((-n) as nat)
    } else {
        decimal(n as nat)
    }
}

pub open spec fn zeros(n: int) -> Seq<char> {
    Seq::new(
        if n > 0 {
            n as nat
        } else {
            0
        },
        |i: int| '0',
    )
}

/// Decimal digits with zeros in front, at least `width` of them.
pub open spec fn padded(n: nat, width: int) -> Seq<char> {
    zeros(width - decimal(n).len()) + decimal(n)
}

/// The number that an optional plus sign and decimal digits stand for.
pub open spec fn unsigned_value(s: Seq<char>) -> Option<int> {
    let digits = if s.len() > 0 && s[0] == '+' {
        s.skip(1)
    } else {
        s
    };
    if digits.len() > 0 && all_digits(digits) {
        Some(digits_value(digits))
    } else {
        None
    }
}

/// The number that an optional sign and decimal digits stand for.
pub open spec fn signed_value(s: Seq<char>) -> Option<int> {
    let digits = if s.len() > 0 && (s[0] == '+' || s[0] == '-') {
        s.skip(1)
    } else {
        s
    };
    if digits.len() > 0 && all_digits(digits) {
        Some(
            if s[0] == '-' {
                -digits_value(digits)
            } else {
                digits_value(digits)
            },
        )
    } else {
        None
    }
}

/// The number, where it lies between `min` and `max`.
pub open spec fn within(n: Option<int>, min: int, max: int) -> Option<int> {
    match n {
        Some(v) if min <= v <= max => Some(v),
        _ => None,
    }
}

pub proof fn lemma_digits_value_grows(s: Seq<char>, k: int)
    requires
        0 <= k <= s.len(),
        all_digits(s),
    ensures
        0 <= digits_value(s.take(k)) <= digits_value(s),
    decreases s.len(),
{
    if k == s.len() {
        assert(s.take(k) =~= s);
        if s.len() > 0 {
            assert forall|i: int| 0 <= i < s.drop_last().len() implies is_digit(
                #[trigger] s.drop_last()[i],
            ) by {
                assert(is_digit(s[i]));
            }
            lemma_digits_value_grows(s.drop_last(), s.len() - 1);
            assert(s.drop_last().take(s.len() - 1) =~= s.drop_last());
            assert(is_digit(s[s.len() - 1]));
        }
    } else {
        let t = s.drop_last();
        assert forall|i: int| 0 <= i < t.len() implies is_digit(#[trigger] t[i]) by {
            assert(is_digit(s[i]));
        }
        lemma_digits_value_grows(t, k);
        assert(t.take(k) =~= s.take(k));
        assert(is_digit(s[s.len() - 1]));
    }
}

/// A decimal form reads back as the number.
pub proof fn law_decimal_reads_back(n: nat)
    ensures
        all_digits(decimal(n)),
        decimal(n).len() >= 1,
        digits_value(decimal(n)) == n,
    decreases n,
{
    if n < 10 {
        let d = decimal(n);
        assert(d.drop_last() =~= seq![]);
        assert(digits_value(d.drop_last()) == 0);
        assert(d.last() == digit_char(n as int));
    } else {
        law_decimal_reads_back(n / 10);
        let d = decimal(n);
        assert(d.drop_last() =~= decimal(n / 10));
        assert forall|i: int| 0 <= i < d.len() implies is_digit(#[trigger] d[i]) by {
            if i < d.len() - 1 {
                assert(d[i] == decimal(n / 10)[i]);
            }
        }
    }
}

pub fn digit(c: char) -> (r: bool)
    ensures
        r == is_digit(c),
{
    '0' <= c && c <= '9'
}

/// The digits of `v` from `from` on, where they stand for a number up to `max`.
fn read_digits(v: &Vec<char>, from: usize, max: u64) -> (r: Option<u64>)
    requires
        from <= v@.len(),
        max <= 0x7fff_ffff_ffff_ffff + 1,
    ensures
        match r {
            Some(n) => n <= max && from < v@.len() && all_digits(v@.skip(from as int)) && n
                == digits_value(v@.skip(from as int)),
            None => !(from < v@.len() && all_digits(v@.skip(from as int)) && digits_value(
                v@.skip(from as int),
            ) <= max),
        },
{
    let ghost s = v@.skip(from as int);
    if from == v.len() {
        return None;
    }
    let mut n: u64 = 0;
    let mut i: usize = from;
    assert(digits_value(s.take(0)) == 0);
    while i < v.len()
        invariant
            from <= i <= v@.len(),
            s == v@.skip(from as int),
            max <= 0x7fff_ffff_ffff_ffff + 1,
            n <= max,
            n == digits_value(s.take(i - from)),
            forall|j: int| 0 <= j < i - from ==> is_digit(#[trigger] s[j]),
        decreases v@.len() - i,
    {
        let ghost k = i - from;
        assert(s[k] == v@[i as int]);
        if !digit(v[i]) {
            assert(!is_digit(s[k]));
            return None;
        }
        let d: u64 = (v[i] as u32 - 48) as u64;
        assert(s.take(k + 1).drop_last() =~= s.take(k));
        assert(s.take(k + 1).last() == s[k]);
        assert(digits_value(s.take(k + 1)) == n * 10 + d);
        if d > max || n > max / 10 || n * 10 > max - d {
            proof {
                if all_digits(s) {
                    lemma_digits_value_grows(s, k + 1);
                }
            }
            return None;
        }
        n = n * 10 + d;
        i = i + 1;
    }
    assert(s.take(s.len() as int) =~= s);
    Some(n)
}

/// Reads an unsigned number up to `max`.
fn read_unsigned(s: &str, max: u64) -> (r: Option<u64>)
    requires
        max <= 0x7fff_ffff_ffff_ffff,
    ensures
        match r {
            Some(n) => n <= max && unsigned_value(s@) == Some(n as int),
            None => within(unsigned_value(s@), 0, max as int) is None,
        },
{
    let v: Vec<char> = chars_of(s);
    assert(v@.skip(0) =~= v@);
    if v.len() > 0 && v[0] == '+' {
        read_digits(&v, 1, max)
    } else {
        read_digits(&v, 0, max)
    }
}

pub fn parse_u32(s: &str) -> (r: Option<u32>)
    ensures
        match r {
            Some(n) => unsigned_value(s@) == Some(n as int),
            None => within(unsigned_value(s@), 0, u32::MAX as int) is None,
        },
{
    match read_unsigned(s, 0xffff_ffff) {
        Some(n) => Some(n as u32),
        None => None,
    }
}

/// Reads a signed number from `-max - 1` to `max`.
fn read_signed(s: &str, max: u64) -> (r: Option<i64>)
    requires
        max <= 0x7fff_ffff_ffff_ffff,
    ensures
        match r {
            Some(n) => -max - 1 <= n <= max && signed_value(s@) == Some(n as int),
            None => within(signed_value(s@), -max - 1, max as int) is None,
        },
{
    let v: Vec<char> = chars_of(s);
    assert(v@.skip(0) =~= v@);
    if v.len() > 0 && v[0] == '-' {
        let ghost t = v@.skip(1);
        match read_digits(&v, 1, max + 1) {
            Some(n) => {
                if n == 0 {
                    Some(0)
                } else {
                    let m: i64 = (n - 1) as i64;
                    Some(-m - 1)
                }
            },
            None => None,
        }
    } else {
        let from: usize = if v.len() > 0 && v[0] == '+' {
            1
        } else {
            0
        };
        let r: Option<u64> = read_digits(&v, from, max);
        proof {
            if all_digits(v@.skip(from as int)) {
                lemma_digits_value_grows(v@.skip(from as int), 0);
            }
        }
        match r {
            Some(n) => Some(n as i64),
            None => None,
        }
    }
}

pub fn parse_i32(s: &str) -> (r: Option<i32>)
    ensures
        match r {
            Some(n) => signed_value(s@) == Some(n as int),
            None => within(signed_value(s@), i32::MIN as int, i32::MAX as int) is None,
        },
{
    match read_signed(s, 0x7fff_ffff) {
        Some(n) => Some(n as i32),
        None => None,
    }
}

pub fn parse_i64(s: &str) -> (r: Option<i64>)
    ensures
        match r {
            Some(n) => signed_value(s@) == Some(n as int),
            None => within(signed_value(s@), i64::MIN as int, i64::MAX as int) is None,
        },
{
    read_signed(s, 0x7fff_ffff_ffff_ffff)
}

pub fn decimal_text(n: u64) -> (r: String)
    ensures
        r@ == decimal(n as nat),
    decreases n,
{
    let d: u8 = (n % 10) as u8;
    let c: char = (d + 48) as char;
    if n < 10 {
        let mut s: String = String::new();
        s.push(c);
        assert(s@ =~= decimal(n as nat));
        s
    } else {
        let mut s: String = decimal_text(n / 10);
        s.push(c);
        s
    }
}

pub fn signed_decimal_text(n: i64) -> (r: String)
    ensures
        r@ == signed_decimal(n as int),
{
    if n < 0 {
        let m: u64 = (-(n + 1)) as u64 + 1;
        let d: String = decimal_text(m);
        let mut s: String = String::new();
        s.push('-');
        text::push_text(&mut s, d.as_str());
        assert(s@ =~= signed_decimal(n as int));
        s
    } else {
        decimal_text(n as u64)
    }
}

/// Decimal digits with zeros in front, at least `width` of them.
pub fn padded_text(n: u64, width: usize) -> (r: String)
    ensures
        r@ == padded(n as nat, width as int),
{
    let d: String = decimal_text(n);
    let len: usize = chars_of(d.as_str()).len();
    let mut s: String = String::new();
    let mut i: usize = len;
    while i < width
        invariant
            len == d@.len(),
            i >= len,
            i <= width || i == len,
            s@ =~= zeros(i - len),
        decreases width - i,
    {
        s.push('0');
        i = i + 1;
    }
    text::push_text(&mut s, d.as_str());
    assert(zeros(i - len) =~= zeros(width - len));
    s
}

} // verus!
