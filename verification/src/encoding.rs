//! Base64, in the standard alphabet and in that of bcrypt.
use vstd::prelude::*;

use base64::Engine;

use crate::error::ProtonError;
use crate::text::{chars_of, copy_text};

verus! {

// ---------------------------------------------------------------------
// Six-bit groups
// ---------------------------------------------------------------------

/// The six-bit groups of bytes: four of three bytes, and of the rest as many
/// as its bits reach into, filled up with zeros.
pub open spec fn sextets(b: Seq<u8>) -> Seq<int>
    decreases b.len(),
{
    if b.len() == 0 {
        seq![]
    } else if b.len() == 1 {
        seq![b[0] as int / 4, (b[0] as int % 4) * 16]
    } else if b.len() == 2 {
        seq![
            b[0] as int / 4,
            (b[0] as int % 4) * 16 + b[1] as int / 16,
            (b[1] as int % 16) * 4,
        ]
    } else {
        seq![
            b[0] as int / 4,
            (b[0] as int % 4) * 16 + b[1] as int / 16,
            (b[1] as int % 16) * 4 + b[2] as int / 64,
            b[2] as int % 64,
        ] + sextets(b.skip(3))
    }
}

/// The bytes that six-bit groups make; bits that fill no byte are dropped.
pub open spec fn octets_of(s: Seq<int>) -> Seq<u8>
    decreases s.len(),
{
    if s.len() < 2 {
        seq![]
    } else if s.len() == 2 {
        seq![(s[0] * 4 + s[1] / 16) as u8]
    } else if s.len() == 3 {
        seq![(s[0] * 4 + s[1] / 16) as u8, ((s[1] % 16) * 16 + s[2] / 4) as u8]
    } else {
        seq![
            (s[0] * 4 + s[1] / 16) as u8,
            ((s[1] % 16) * 16 + s[2] / 4) as u8,
            ((s[2] % 4) * 64 + s[3]) as u8,
        ] + octets_of(s.skip(4))
    }
}

proof fn lemma_recombine(a: u8, b: u8, c: u8)
    ensures
        (a as int / 4) * 4 + ((a as int % 4) * 16 + b as int / 16) / 16 == a,
        (((a as int % 4) * 16 + b as int / 16) % 16) * 16 + ((b as int % 16) * 4 + c as int / 64)
            / 4 == b,
        (((b as int % 16) * 4 + c as int / 64) % 4) * 64 + c as int % 64 == c,
        (a as int / 4) * 4 + ((a as int % 4) * 16) / 16 == a,
        (((a as int % 4) * 16 + b as int / 16) % 16) * 16 + ((b as int % 16) * 4) / 4 == b,
{
}

/// The groups of bytes make the bytes again.
pub proof fn law_octets_invert_sextets(b: Seq<u8>)
    ensures
        octets_of(sextets(b)) == b,
    decreases b.len(),
{
    if b.len() == 1 {
        lemma_recombine(b[0], 0, 0);
        assert(octets_of(sextets(b)) =~= b);
    } else if b.len() == 2 {
        lemma_recombine(b[0], b[1], 0);
        assert(octets_of(sextets(b)) =~= b);
    } else if b.len() > 2 {
        law_octets_invert_sextets(b.skip(3));
        lemma_recombine(b[0], b[1], b[2]);
        let s = sextets(b);
        assert(s.skip(4) =~= sextets(b.skip(3)));
        assert(octets_of(s) =~= b);
    } else {
        assert(octets_of(sextets(b)) =~= b);
    }
}

pub proof fn lemma_sextets(b: Seq<u8>)
    ensures
        forall|i: int| 0 <= i < sextets(b).len() ==> 0 <= #[trigger] sextets(b)[i] < 64,
        sextets(b).len() * 3 >= b.len() * 4,
        sextets(b).len() == (b.len() * 4 + 2) / 3,
    decreases b.len(),
{
    if b.len() > 2 {
        lemma_sextets(b.skip(3));
        let s = sextets(b);
        let t = sextets(b.skip(3));
        assert forall|i: int| 0 <= i < s.len() implies 0 <= #[trigger] s[i] < 64 by {
            if i >= 4 {
                assert(s[i] == t[i - 4]);
            }
        }
    }
}

// ---------------------------------------------------------------------
// Standard base64
// ---------------------------------------------------------------------

/// The character of a six-bit group in the standard alphabet.
pub open spec fn standard_char(n: int) -> char {
    if n < 26 {
        (n + 65) as char
    } else if n < 52 {
        (n + 71) as char
    } else if n < 62 {
        (n - 4) as char
    } else if n == 62 {
        '+'
    } else {
        '/'
    }
}

pub open spec fn padding(n: int) -> Seq<char> {
    if n % 3 == 1 {
        seq!['=', '=']
    } else if n % 3 == 2 {
        seq!['=']
    } else {
        seq![]
    }
}

/// Base64 with the standard alphabet and padding (RFC 4648 §4).
pub open spec fn base64_text(b: Seq<u8>) -> Seq<char> {
    Seq::new(sextets(b).len(), |i: int| standard_char(sextets(b)[i])) + padding(b.len() as int)
}

proof fn lemma_standard_char(m: int, n: int)
    requires
        0 <= m < 64,
        0 <= n < 64,
        standard_char(m) == standard_char(n),
    ensures
        m == n,
{
}

proof fn lemma_standard_not_padding(n: int)
    requires
        0 <= n < 64,
    ensures
        standard_char(n) != '=',
{
}

/// Two byte strings with one base64 text are the same.
pub proof fn law_base64_injective(a: Seq<u8>, b: Seq<u8>)
    requires
        base64_text(a) == base64_text(b),
    ensures
        a == b,
{
    let s = sextets(a);
    let t = sextets(b);
    let x = base64_text(a);
    let y = base64_text(b);
    lemma_sextets(a);
    lemma_sextets(b);
    if s.len() < t.len() {
        assert(x[s.len() as int] == '=');
        assert(y[s.len() as int] == standard_char(t[s.len() as int]));
        lemma_standard_not_padding(t[s.len() as int]);
    }
    if t.len() < s.len() {
        assert(y[t.len() as int] == '=');
        assert(x[t.len() as int] == standard_char(s[t.len() as int]));
        lemma_standard_not_padding(s[t.len() as int]);
    }
    assert forall|i: int| 0 <= i < s.len() implies s[i] == t[i] by {
        assert(x[i] == standard_char(s[i]));
        assert(y[i] == standard_char(t[i]));
        lemma_standard_char(s[i], t[i]);
    }
    assert(s =~= t);
    law_octets_invert_sextets(a);
    law_octets_invert_sextets(b);
}

/// The bytes that a text is the base64 form of.
pub open spec fn base64_bytes(s: Seq<char>) -> Option<Seq<u8>> {
    if exists|b: Seq<u8>| #[trigger] base64_text(b) == s {
        Some(choose|b: Seq<u8>| #[trigger] base64_text(b) == s)
    } else {
        None
    }
}

/// Decoding gives back what was encoded.
pub proof fn law_base64_round_trip(b: Seq<u8>)
    ensures
        base64_bytes(base64_text(b)) == Some(b),
{
    let s = base64_text(b);
    let c = choose|c: Seq<u8>| #[trigger] base64_text(c) == s;
    law_base64_injective(b, c);
}

/// The message of the `base64` crate for a text that is no base64.
pub uninterp spec fn base64_error(s: Seq<char>) -> Seq<char>;

/// `base64`'s `STANDARD` engine, `encode`: base64 with the standard alphabet
/// and padding.
#[verifier::external_body]
pub(crate) fn encode_base64(data: &Vec<u8>) -> (r: String)
    ensures
        r@ == base64_text(data@),
{
    base64::engine::general_purpose::STANDARD.encode(data)
}

/// `base64`'s `STANDARD` engine, `decode`: it takes exactly the texts that
/// `encode` makes, with their padding and without stray bits, and gives the
/// bytes back; its message for any other text is only named here.
#[verifier::external_body]
fn decode_standard(s: &str) -> (r: Result<Vec<u8>, String>)
    ensures
        match r {
            Ok(b) => base64_text(b@) == s@,
            Err(e) => (forall|b: Seq<u8>| #[trigger] base64_text(b) != s@) && e@ == base64_error(
                s@,
            ),
        },
{
    base64::engine::general_purpose::STANDARD.decode(s).map_err(|e| e.to_string())
}

/// Decodes base64; the error is the decoder's message.
pub fn decode_base64(s: &str) -> (r: Result<Vec<u8>, String>)
    ensures
        match r {
            Ok(b) => base64_bytes(s@) == Some(b@),
            Err(e) => base64_bytes(s@) is None && e@ == base64_error(s@),
        },
{
    let r: Result<Vec<u8>, String> = decode_standard(s);
    proof {
        if let Ok(b) = &r {
            law_base64_round_trip(b@);
        }
    }
    r
}

// ---------------------------------------------------------------------
// The base64 of bcrypt
// ---------------------------------------------------------------------

/// The character of a six-bit group in the alphabet of bcrypt.
pub open spec fn bcrypt_char(n: int) -> char {
    if n == 0 {
        '.'
    } else if n == 1 {
        '/'
    } else if n < 28 {
        (n + 63) as char
    } else if n < 54 {
        (n + 69) as char
    } else {
        (n - 6) as char
    }
}

/// The six-bit group of a character, by the low byte of its code.
pub open spec fn bcrypt_value(c: char) -> Option<int> {
    let n = c as int % 256;
    if n == 46 {
        Some(0)
    } else if n == 47 {
        Some(1)
    } else if 65 <= n <= 90 {
        Some(n - 63)
    } else if 97 <= n <= 122 {
        Some(n - 69)
    } else if 48 <= n <= 57 {
        Some(n + 6)
    } else {
        None
    }
}

/// Base64 with the alphabet of bcrypt, without padding.
pub open spec fn bcrypt_text(b: Seq<u8>) -> Seq<char> {
    Seq::new(sextets(b).len(), |i: int| bcrypt_char(sextets(b)[i]))
}

pub open spec fn bcrypt_values(s: Seq<char>) -> Option<Seq<int>>
    decreases s.len(),
{
    if s.len() == 0 {
        Some(seq![])
    } else {
        match (bcrypt_values(s.drop_last()), bcrypt_value(s.last())) {
            (Some(init), Some(v)) => Some(init.push(v)),
            _ => None,
        }
    }
}

/// The bytes of a text in the base64 of bcrypt; none where a character is
/// not in the alphabet.
pub open spec fn bcrypt_bytes(s: Seq<char>) -> Option<Seq<u8>> {
    match bcrypt_values(s) {
        Some(v) => Some(octets_of(v)),
        None => None,
    }
}

fn char_of_group(n: u8) -> (r: char)
    requires
        n < 64,
    ensures
        r == bcrypt_char(n as int),
{
    if n == 0 {
        '.'
    } else if n == 1 {
        '/'
    } else if n < 28 {
        (n + 63) as char
    } else if n < 54 {
        (n + 69) as char
    } else {
        (n - 6) as char
    }
}

fn group_of_char(c: char) -> (r: Option<u8>)
    ensures
        match r {
            Some(v) => v < 64 && bcrypt_value(c) == Some(v as int),
            None => bcrypt_value(c) is None,
        },
{
    let n: u32 = c as u32 % 256;
    if n == 46 {
        Some(0)
    } else if n == 47 {
        Some(1)
    } else if 65 <= n && n <= 90 {
        Some((n - 63) as u8)
    } else if 97 <= n && n <= 122 {
        Some((n - 69) as u8)
    } else if 48 <= n && n <= 57 {
        Some((n + 6) as u8)
    } else {
        None
    }
}

fn push_group(out: &mut String, n: u8)
    requires
        n < 64,
    ensures
        final(out)@ == old(out)@.push(bcrypt_char(n as int)),
{
    out.push(char_of_group(n));
}

/// Encodes bytes in the base64 of bcrypt.
pub fn bcrypt_b64_encode(data: &Vec<u8>) -> (r: String)
    ensures
        r@ == bcrypt_text(data@),
{
    let mut out: String = String::new();
    let mut i: usize = 0;
    assert(data@.skip(0) =~= data@);
    while data.len() - i >= 3
        invariant
            i <= data@.len(),
            bcrypt_text(data@) =~= out@ + bcrypt_text(data@.skip(i as int)),
        decreases data@.len() - i,
    {
        let a: u8 = data[i];
        let b: u8 = data[i + 1];
        let c: u8 = data[i + 2];
        let ghost rest = data@.skip(i as int);
        assert(rest[0] == a && rest[1] == b && rest[2] == c);
        assert(rest.skip(3) =~= data@.skip(i + 3));
        push_group(&mut out, a / 4);
        push_group(&mut out, (a % 4) * 16 + b / 16);
        push_group(&mut out, (b % 16) * 4 + c / 64);
        push_group(&mut out, c % 64);
        assert(bcrypt_text(rest) =~= seq![
            bcrypt_char(a as int / 4),
            bcrypt_char((a as int % 4) * 16 + b as int / 16),
            bcrypt_char((b as int % 16) * 4 + c as int / 64),
            bcrypt_char(c as int % 64),
        ] + bcrypt_text(rest.skip(3)));
        i = i + 3;
    }
    let ghost rest = data@.skip(i as int);
    let ghost start = out@;
    if data.len() - i == 1 {
        let a: u8 = data[i];
        assert(rest[0] == a);
        push_group(&mut out, a / 4);
        push_group(&mut out, (a % 4) * 16);
    } else if data.len() - i == 2 {
        let a: u8 = data[i];
        let b: u8 = data[i + 1];
        assert(rest[0] == a && rest[1] == b);
        push_group(&mut out, a / 4);
        push_group(&mut out, (a % 4) * 16 + b / 16);
        push_group(&mut out, (b % 16) * 4);
    }
    assert(out@ =~= start + bcrypt_text(rest));
    out
}

pub open spec fn ints(v: Seq<u8>) -> Seq<int> {
    Seq::new(v.len(), |i: int| v[i] as int)
}

fn bytes_of_groups(v: &Vec<u8>) -> (r: Vec<u8>)
    requires
        forall|i: int| 0 <= i < v@.len() ==> #[trigger] v@[i] < 64,
    ensures
        r@ == octets_of(ints(v@)),
{
    let mut out: Vec<u8> = Vec::new();
    let mut i: usize = 0;
    let ghost s = ints(v@);
    assert(s.skip(0) =~= s);
    while v.len() - i >= 4
        invariant
            i <= v@.len(),
            s == ints(v@),
            forall|k: int| 0 <= k < v@.len() ==> #[trigger] v@[k] < 64,
            octets_of(s) =~= out@ + octets_of(s.skip(i as int)),
        decreases v@.len() - i,
    {
        let ghost rest = s.skip(i as int);
        assert(rest[0] == v@[i as int] && rest[1] == v@[i + 1] && rest[2] == v@[i + 2] && rest[3]
            == v@[i + 3]);
        assert(rest.skip(4) =~= s.skip(i + 4));
        out.push(v[i] * 4 + v[i + 1] / 16);
        out.push((v[i + 1] % 16) * 16 + v[i + 2] / 4);
        out.push((v[i + 2] % 4) * 64 + v[i + 3]);
        i = i + 4;
    }
    let ghost rest = s.skip(i as int);
    if v.len() - i >= 2 {
        assert(rest[0] == v@[i as int] && rest[1] == v@[i + 1]);
        out.push(v[i] * 4 + v[i + 1] / 16);
        if v.len() - i == 3 {
            assert(rest[2] == v@[i + 2]);
            out.push((v[i + 1] % 16) * 16 + v[i + 2] / 4);
        }
    }
    assert(out@ =~= octets_of(s));
    out
}

/// Decodes the base64 of bcrypt.
pub fn bcrypt_b64_decode(s: &str) -> (r: Result<Vec<u8>, ProtonError>)
    ensures
        match r {
            Ok(b) => bcrypt_bytes(s@) == Some(b@),
            Err(ProtonError::Crypto(m)) => bcrypt_bytes(s@) is None && m@
                == "Invalid bcrypt base64 char"@,
            Err(_) => false,
        },
{
    let v: Vec<char> = chars_of(s);
    let mut groups: Vec<u8> = Vec::new();
    let mut i: usize = 0;
    assert(ints(groups@) =~= seq![]);
    while i < v.len()
        invariant
            i <= v@.len(),
            v@ == s@,
            forall|k: int| 0 <= k < groups@.len() ==> #[trigger] groups@[k] < 64,
            bcrypt_values(v@.take(i as int)) == Some(ints(groups@)),
        decreases v@.len() - i,
    {
        assert(v@.take(i + 1).drop_last() =~= v@.take(i as int));
        assert(v@.take(i + 1).last() == v@[i as int]);
        match group_of_char(v[i]) {
            Some(n) => {
                let ghost done = ints(groups@);
                groups.push(n);
                assert(ints(groups@) =~= done.push(n as int));
            },
            None => {
                proof {
                    lemma_bcrypt_values_prefix(s@, i + 1);
                }
                return Err(ProtonError::Crypto(copy_text("Invalid bcrypt base64 char")));
            },
        }
        i = i + 1;
    }
    assert(v@.take(v@.len() as int) =~= v@);
    Ok(bytes_of_groups(&groups))
}

proof fn lemma_bcrypt_values_prefix(s: Seq<char>, k: int)
    requires
        0 <= k <= s.len(),
        bcrypt_values(s.take(k)) is None,
    ensures
        bcrypt_values(s) is None,
    decreases s.len() - k,
{
    if k < s.len() {
        assert(s.take(k + 1).drop_last() =~= s.take(k));
        lemma_bcrypt_values_prefix(s, k + 1);
    } else {
        assert(s.take(k) =~= s);
    }
}

proof fn lemma_bcrypt_value(n: int)
    requires
        0 <= n < 64,
    ensures
        bcrypt_value(bcrypt_char(n)) == Some(n),
{
}

proof fn lemma_bcrypt_values_of(v: Seq<int>, s: Seq<char>)
    requires
        v.len() == s.len(),
        forall|i: int| 0 <= i < v.len() ==> 0 <= #[trigger] v[i] < 64 && s[i] == bcrypt_char(v[i]),
    ensures
        bcrypt_values(s) == Some(v),
    decreases v.len(),
{
    if v.len() > 0 {
        let w = v.drop_last();
        let t = s.drop_last();
        assert forall|i: int| 0 <= i < w.len() implies 0 <= #[trigger] w[i] < 64 && t[i]
            == bcrypt_char(w[i]) by {
            assert(v[i] == w[i]);
        }
        lemma_bcrypt_values_of(w, t);
        assert(0 <= v[v.len() - 1] < 64);
        lemma_bcrypt_value(v[v.len() - 1]);
        assert(v =~= w.push(v.last()));
    } else {
        assert(v =~= seq![]);
    }
}

/// Decoding gives back what was encoded.
pub proof fn law_bcrypt_base64_round_trip(b: Seq<u8>)
    ensures
        bcrypt_bytes(bcrypt_text(b)) == Some(b),
{
    lemma_sextets(b);
    let v = sextets(b);
    let s = bcrypt_text(b);
    assert forall|i: int| 0 <= i < v.len() implies 0 <= #[trigger] v[i] < 64 && s[i] == bcrypt_char(
        v[i],
    ) by {}
    lemma_bcrypt_values_of(v, s);
    law_octets_invert_sextets(b);
}

proof fn lemma_sextets_take(b: Seq<u8>, n: int)
    requires
        0 <= n,
        3 * n <= b.len(),
    ensures
        sextets(b).len() >= 4 * n,
        sextets(b).take(4 * n) == sextets(b.take(3 * n)),
    decreases n,
{
    lemma_sextets(b);
    if n > 0 {
        lemma_sextets_take(b.skip(3), n - 1);
        assert(b.take(3 * n).skip(3) =~= b.skip(3).take(3 * (n - 1)));
        assert(sextets(b).take(4 * n) =~= sextets(b.take(3 * n)));
    } else {
        assert(sextets(b).take(0) =~= sextets(b.take(0)));
    }
}

proof fn lemma_octets_take(s: Seq<int>, n: int)
    requires
        0 <= n,
        4 * n <= s.len(),
    ensures
        octets_of(s.take(4 * n)) == octets_of(s).take(3 * n),
        octets_of(s).len() >= 3 * n,
        octets_of(s) == octets_of(s.take(4 * n)) + octets_of(s.skip(4 * n)),
        octets_of(s.take(4 * n)).len() == 3 * n,
    decreases n,
{
    if n > 0 {
        let t = s.skip(4);
        lemma_octets_take(t, n - 1);
        assert(s.take(4 * n).skip(4) =~= t.take(4 * (n - 1)));
        assert(t.skip(4 * (n - 1)) =~= s.skip(4 * n));
        let head = octets_of(s.take(4 * n));
        assert(head =~= octets_of(s).take(3 * n)) by {
            assert(octets_of(t).take(3 * (n - 1)) =~= octets_of(t.take(4 * (n - 1))));
        }
        assert(octets_of(s) =~= head + octets_of(s.skip(4 * n)));
    } else {
        assert(s.take(0) =~= seq![]);
        assert(s.skip(0) =~= s);
        assert(octets_of(s) =~= octets_of(s.take(0)) + octets_of(s.skip(0)));
        assert(octets_of(s.take(0)) =~= octets_of(s).take(0));
    }
}

/// The first 22 characters of a salt of 16 bytes or more, in the base64 of
/// bcrypt, decode to its first 16 bytes.
pub proof fn law_salt_is_first_bytes(b: Seq<u8>)
    requires
        b.len() >= 16,
    ensures
        bcrypt_text(b).len() >= 22,
        bcrypt_bytes(bcrypt_text(b).take(22)) == Some(b.take(16)),
{
    let v = sextets(b);
    let s = bcrypt_text(b);
    lemma_sextets(b);
    lemma_sextets_take(b, 5);
    let t = b.skip(15);
    assert(v.take(20) == sextets(b.take(15)));
    lemma_sextets_tail(b, 5);
    assert(v.skip(20) =~= sextets(t));
    let w = v.take(22);
    assert forall|i: int| 0 <= i < w.len() implies 0 <= #[trigger] w[i] < 64 && s.take(22)[i]
        == bcrypt_char(w[i]) by {
        assert(w[i] == v[i]);
    }
    lemma_bcrypt_values_of(w, s.take(22));
    lemma_octets_take(w, 5);
    assert(w.take(20) =~= v.take(20));
    law_octets_invert_sextets(b.take(15));
    let last = w.skip(20);
    assert(last[0] == sextets(t)[0]);
    assert(last[1] == sextets(t)[1]);
    assert(t[0] == b[15]);
    lemma_recombine(t[0], if t.len() > 1 { t[1] } else { 0 }, 0);
    assert(octets_of(last) =~= seq![b[15]]);
    assert(octets_of(w) =~= b.take(16));
}

proof fn lemma_sextets_tail(b: Seq<u8>, n: int)
    requires
        0 <= n,
        3 * n <= b.len(),
    ensures
        sextets(b).len() >= 4 * n,
        sextets(b).skip(4 * n) == sextets(b.skip(3 * n)),
    decreases n,
{
    lemma_sextets(b);
    if n > 0 {
        lemma_sextets_tail(b.skip(3), n - 1);
        assert(b.skip(3).skip(3 * (n - 1)) =~= b.skip(3 * n));
        assert(sextets(b).skip(4 * n) =~= sextets(b.skip(3)).skip(4 * (n - 1)));
    } else {
        assert(sextets(b).skip(0) =~= sextets(b));
        assert(b.skip(0) =~= b);
    }
}

} // verus!
