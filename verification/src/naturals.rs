//! Natural numbers of any size, as bytes from the lowest on.
use vstd::arithmetic::power;
use vstd::prelude::*;

use num_bigint::BigUint;

verus! {

/// The number that bytes make, the lowest first.
pub open spec fn le_value(b: Seq<u8>) -> nat
    decreases b.len(),
{
    if b.len() == 0 {
        0
    } else {
        (b[0] + 256 * le_value(b.skip(1))) as nat
    }
}

/// The lowest `len` bytes of a number.
pub open spec fn le_bytes(n: nat, len: nat) -> Seq<u8>
    decreases len,
{
    if len == 0 {
        seq![]
    } else {
        seq![(n % 256) as u8] + le_bytes(n / 256, (len - 1) as nat)
    }
}

proof fn lemma_le_bytes_len(n: nat, len: nat)
    ensures
        le_bytes(n, len).len() == len,
    decreases len,
{
    if len > 0 {
        lemma_le_bytes_len(n / 256, (len - 1) as nat);
    }
}

/// A number that fits in a length is that of its bytes.
pub proof fn law_bytes_keep_value(n: nat, len: nat)
    requires
        n < power::pow(256, len),
    ensures
        le_bytes(n, len).len() == len,
        le_value(le_bytes(n, len)) == n,
    decreases len,
{
    power::lemma_pow0(256);
    if len > 0 {
        power::lemma_pow_adds(256, 1, (len - 1) as nat);
        power::lemma_pow1(256);
        let p = power::pow(256, (len - 1) as nat);
        assert(n < 256 * p);
        assert(n / 256 < p);
        law_bytes_keep_value(n / 256, (len - 1) as nat);
        let rest = le_bytes(n / 256, (len - 1) as nat);
        assert(le_bytes(n, len).skip(1) =~= rest);
    }
}

/// Bytes are those of their number.
pub proof fn law_value_keeps_bytes(b: Seq<u8>)
    ensures
        le_bytes(le_value(b), b.len()) == b,
    decreases b.len(),
{
    if b.len() > 0 {
        let rest = b.skip(1);
        law_value_keeps_bytes(rest);
        assert(le_value(b) % 256 == b[0]);
        assert(le_value(b) / 256 == le_value(rest));
        assert(le_bytes(le_value(b), b.len()) =~= b);
    } else {
        assert(b =~= seq![]);
    }
}

proof fn lemma_le_bytes_at(b: Seq<u8>, len: nat, i: int)
    requires
        0 <= i < len,
    ensures
        le_bytes(le_value(b), len).len() == len,
        le_bytes(le_value(b), len)[i] == (if i < b.len() {
            b[i]
        } else {
            0
        }),
    decreases len,
{
    lemma_le_bytes_len(le_value(b), len);
    let rest = if b.len() > 0 {
        b.skip(1)
    } else {
        b
    };
    assert(le_value(b) / 256 == le_value(rest));
    if i > 0 {
        lemma_le_bytes_at(rest, (len - 1) as nat, i - 1);
        assert(le_bytes(le_value(b), len)[i] == le_bytes(le_value(rest), (len - 1) as nat)[i - 1]);
    } else if b.len() > 0 {
        assert(le_value(b) % 256 == b[0]);
    }
}

/// The lowest bytes of a number.
pub fn int_to_le(byte_len: usize, num: &Vec<u8>) -> (r: Vec<u8>)
    ensures
        r@ == le_bytes(le_value(num@), byte_len as nat),
{
    let mut out: Vec<u8> = Vec::new();
    let mut i: usize = 0;
    let ghost want = le_bytes(le_value(num@), byte_len as nat);
    proof {
        lemma_le_bytes_len(le_value(num@), byte_len as nat);
    }
    while i < byte_len
        invariant
            i <= byte_len,
            want == le_bytes(le_value(num@), byte_len as nat),
            want.len() == byte_len,
            out@ =~= want.take(i as int),
        decreases byte_len - i,
    {
        proof {
            lemma_le_bytes_at(num@, byte_len as nat, i as int);
        }
        if i < num.len() {
            out.push(num[i]);
        } else {
            out.push(0);
        }
        i = i + 1;
    }
    assert(out@ =~= want);
    out
}

/// `BigUint`'s `+`: the sum.
#[verifier::external_body]
pub(crate) fn nat_sum(a: &Vec<u8>, b: &Vec<u8>) -> (r: Vec<u8>)
    ensures
        le_value(r@) == le_value(a@) + le_value(b@),
{
    (BigUint::from_bytes_le(a) + BigUint::from_bytes_le(b)).to_bytes_le()
}

/// `BigUint`'s `-`: the difference. It panics below zero.
#[verifier::external_body]
pub(crate) fn nat_difference(a: &Vec<u8>, b: &Vec<u8>) -> (r: Vec<u8>)
    requires
        le_value(b@) <= le_value(a@),
    ensures
        le_value(r@) == le_value(a@) - le_value(b@),
{
    (BigUint::from_bytes_le(a) - BigUint::from_bytes_le(b)).to_bytes_le()
}

/// `BigUint`'s `*`: the product.
#[verifier::external_body]
pub(crate) fn nat_product(a: &Vec<u8>, b: &Vec<u8>) -> (r: Vec<u8>)
    ensures
        le_value(r@) == le_value(a@) * le_value(b@),
{
    (BigUint::from_bytes_le(a) * BigUint::from_bytes_le(b)).to_bytes_le()
}

/// `BigUint`'s `%`: the remainder. It panics for a modulus of zero.
#[verifier::external_body]
pub(crate) fn nat_remainder(a: &Vec<u8>, m: &Vec<u8>) -> (r: Vec<u8>)
    requires
        le_value(m@) > 0,
    ensures
        le_value(r@) == le_value(a@) % le_value(m@),
{
    (BigUint::from_bytes_le(a) % BigUint::from_bytes_le(m)).to_bytes_le()
}

/// `BigUint::modpow`: the power under a modulus. It panics for a modulus of
/// zero.
#[verifier::external_body]
pub(crate) fn nat_power(base: &Vec<u8>, exp: &Vec<u8>, m: &Vec<u8>) -> (r: Vec<u8>)
    requires
        le_value(m@) > 0,
    ensures
        le_value(r@) == power::pow(le_value(base@) as int, le_value(exp@)) % (le_value(m@) as int),
{
    let m = BigUint::from_bytes_le(m);
    BigUint::from_bytes_le(base).modpow(&BigUint::from_bytes_le(exp), &m).to_bytes_le()
}

/// `BigUint`'s `<`: whether one number is below the other.
#[verifier::external_body]
pub(crate) fn nat_below(a: &Vec<u8>, b: &Vec<u8>) -> (r: bool)
    ensures
        r == (le_value(a@) < le_value(b@)),
{
    BigUint::from_bytes_le(a) < BigUint::from_bytes_le(b)
}

/// A small number.
pub fn small(n: u8) -> (r: Vec<u8>)
    ensures
        le_value(r@) == n,
{
    let mut out: Vec<u8> = Vec::new();
    out.push(n);
    assert(out@.skip(1) =~= seq![]);
    assert(le_value(out@.skip(1)) == 0);
    out
}

/// A power of 256: zeros and a one above them.
pub fn power_of_256(len: usize) -> (r: Vec<u8>)
    ensures
        le_value(r@) == power::pow(256, len as nat),
{
    let mut out: Vec<u8> = Vec::new();
    out.push(1);
    proof {
        reveal_with_fuel(le_value, 2);
        reveal(power::pow);
        assert(out@.skip(1) =~= seq![]);
    }
    let mut i: usize = 0;
    while i < len
        invariant
            i <= len,
            le_value(out@) == power::pow(256, i as nat),
        decreases len - i,
    {
        let ghost before = out@;
        out.insert(0, 0);
        proof {
            assert(out@.skip(1) =~= before);
            assert(out@[0] == 0);
            power::lemma_pow_adds(256, 1, i as nat);
            power::lemma_pow1(256);
        }
        i = i + 1;
    }
    out
}

} // verus!
