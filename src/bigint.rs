//! Arbitrary-precision integers held as plain values (a sign and base-2^32
//! digits, least significant first); the arithmetic itself is num-bigint's.
//! Each operation below turns its arguments into `BigInt`s with
//! `BigInt::from_slice` and the result back with `BigInt::to_u32_digits`,
//! both of which keep the value (digits least significant first, the sign
//! `Minus` exactly for negative values).
use num_bigint::{BigInt, Sign};
use num_traits::Zero;
use vstd::prelude::*;

verus! {

/// Value of base-2^32 digits, least significant digit first.
pub open spec fn digits_value(d: Seq<u32>) -> nat
    decreases d.len(),
{
    if d.len() == 0 {
        0
    } else {
        d[0] as nat + 4294967296 * digits_value(d.drop_first())
    }
}

/// Quotient of a division rounded toward zero, as Rust's `/` does.
pub open spec fn trunc_div(a: int, b: int) -> int {
    let q = abs(a) / abs(b);
    if (a < 0) != (b < 0) {
        -q
    } else {
        q
    }
}

/// Remainder that goes with `trunc_div`; it takes the sign of `a`.
pub open spec fn trunc_rem(a: int, b: int) -> int {
    a - b * trunc_div(a, b)
}

pub open spec fn abs(a: int) -> int {
    if a < 0 {
        -a
    } else {
        a
    }
}

/// An integer of any size: a sign and a magnitude in base-2^32 digits,
/// least significant first. Zero may carry either sign.
#[derive(Clone, Debug)]
pub struct BigInteger {
    pub negative: bool,
    pub magnitude: Vec<u32>,
}

impl BigInteger {
    pub open spec fn value(&self) -> int {
        if self.negative {
            -(digits_value(self.magnitude@) as int)
        } else {
            digits_value(self.magnitude@) as int
        }
    }

    /// The integer with the given sign and base-2^32 digits.
    pub fn new(negative: bool, magnitude: Vec<u32>) -> (r: BigInteger)
        ensures
            r.negative == negative,
            r.magnitude@ == magnitude@,
    {
        BigInteger { negative, magnitude }
    }

    /// The integer equal to `v`.
    pub fn from_i64(v: i64) -> (r: BigInteger)
        ensures
            r.value() == v as int,
    {
        let negative = v < 0;
        let m: u64 = if negative {
            (-(v as i128)) as u64
        } else {
            v as u64
        };
        let lo: u32 = (m % 4294967296) as u32;
        let hi: u32 = (m / 4294967296) as u32;
        let mut magnitude: Vec<u32> = Vec::new();
        magnitude.push(lo);
        magnitude.push(hi);
        proof {
            let d = magnitude@;
            assert(d.drop_first().drop_first() =~= Seq::<u32>::empty());
            assert(digits_value(d.drop_first().drop_first()) == 0);
            assert(digits_value(d.drop_first()) == hi as nat);
            assert(digits_value(d) == lo as nat + 4294967296 * hi as nat);
        }
        BigInteger { negative, magnitude }
    }

    /// The value as an `i64`, where it fits.
    pub fn to_i64(&self) -> (r: Option<i64>)
        ensures
            r matches Some(x) ==> x as int == self.value(),
            r is None ==> self.value() < i64::MIN || self.value() > i64::MAX,
    {
        // magnitudes at or past the cap do not fit; the running value is held there
        let cap: u128 = 0x8000_0000_0000_0001;
        let len = self.magnitude.len();
        let mut acc: u128 = 0;
        let mut i: usize = len;
        proof {
            assert(self.magnitude@.subrange(len as int, len as int) =~= Seq::<u32>::empty());
        }
        while i > 0
            invariant
                i <= len,
                len == self.magnitude.len(),
                cap == 0x8000_0000_0000_0001u128,
                acc == if digits_value(self.magnitude@.subrange(i as int, len as int)) < cap {
                    digits_value(self.magnitude@.subrange(i as int, len as int))
                } else {
                    cap as nat
                },
            decreases i,
        {
            let ghost tail = self.magnitude@.subrange(i as int, len as int);
            i = i - 1;
            let d = self.magnitude[i] as u128;
            proof {
                let s = self.magnitude@.subrange(i as int, len as int);
                assert(s.drop_first() =~= tail);
                assert(digits_value(s) == d + 4294967296 * digits_value(tail));
            }
            if acc >= cap {
                acc = cap;
            } else {
                let x = acc * 4294967296 + d;
                acc = if x >= cap {
                    cap
                } else {
                    x
                };
            }
        }
        proof {
            assert(self.magnitude@.subrange(0, len as int) =~= self.magnitude@);
        }
        if self.negative {
            if acc <= 0x8000_0000_0000_0000 {
                Some((-(acc as i128)) as i64)
            } else {
                None
            }
        } else {
            if acc < 0x8000_0000_0000_0000 {
                Some(acc as i64)
            } else {
                None
            }
        }
    }
}

/// Relies on num-bigint's `BigInt + BigInt`: the exact sum.
#[verifier::external_body]
pub(crate) fn big_add(a: &BigInteger, b: &BigInteger) -> (r: BigInteger)
    ensures
        r.value() == a.value() + b.value(),
{
    let x = BigInt::from_slice(if a.negative { Sign::Minus } else { Sign::Plus }, &a.magnitude);
    let y = BigInt::from_slice(if b.negative { Sign::Minus } else { Sign::Plus }, &b.magnitude);
    let (s, m) = (x + y).to_u32_digits();
    BigInteger { negative: s == Sign::Minus, magnitude: m }
}

/// Relies on num-bigint's `BigInt - BigInt`: the exact difference.
#[verifier::external_body]
pub(crate) fn big_sub(a: &BigInteger, b: &BigInteger) -> (r: BigInteger)
    ensures
        r.value() == a.value() - b.value(),
{
    let x = BigInt::from_slice(if a.negative { Sign::Minus } else { Sign::Plus }, &a.magnitude);
    let y = BigInt::from_slice(if b.negative { Sign::Minus } else { Sign::Plus }, &b.magnitude);
    let (s, m) = (x - y).to_u32_digits();
    BigInteger { negative: s == Sign::Minus, magnitude: m }
}

/// Relies on num-bigint's `BigInt * BigInt`: the exact product.
#[verifier::external_body]
pub(crate) fn big_mul(a: &BigInteger, b: &BigInteger) -> (r: BigInteger)
    ensures
        r.value() == a.value() * b.value(),
{
    let x = BigInt::from_slice(if a.negative { Sign::Minus } else { Sign::Plus }, &a.magnitude);
    let y = BigInt::from_slice(if b.negative { Sign::Minus } else { Sign::Plus }, &b.magnitude);
    let (s, m) = (x * y).to_u32_digits();
    BigInteger { negative: s == Sign::Minus, magnitude: m }
}

/// Relies on num-bigint's `BigInt / BigInt`: the quotient rounded toward zero; a zero divisor panics.
#[verifier::external_body]
pub(crate) fn big_div(a: &BigInteger, b: &BigInteger) -> (r: BigInteger)
    requires
        b.value() != 0,
    ensures
        r.value() == trunc_div(a.value(), b.value()),
{
    let x = BigInt::from_slice(if a.negative { Sign::Minus } else { Sign::Plus }, &a.magnitude);
    let y = BigInt::from_slice(if b.negative { Sign::Minus } else { Sign::Plus }, &b.magnitude);
    let (s, m) = (x / y).to_u32_digits();
    BigInteger { negative: s == Sign::Minus, magnitude: m }
}

/// Relies on num-bigint's `BigInt % BigInt`: the remainder with the sign of the dividend; a zero divisor panics.
#[verifier::external_body]
pub(crate) fn big_rem(a: &BigInteger, b: &BigInteger) -> (r: BigInteger)
    requires
        b.value() != 0,
    ensures
        r.value() == trunc_rem(a.value(), b.value()),
{
    let x = BigInt::from_slice(if a.negative { Sign::Minus } else { Sign::Plus }, &a.magnitude);
    let y = BigInt::from_slice(if b.negative { Sign::Minus } else { Sign::Plus }, &b.magnitude);
    let (s, m) = (x % y).to_u32_digits();
    BigInteger { negative: s == Sign::Minus, magnitude: m }
}

/// Relies on num-bigint's `BigInt < BigInt`: the order of the integers.
#[verifier::external_body]
pub(crate) fn big_lt(a: &BigInteger, b: &BigInteger) -> (r: bool)
    ensures
        r == (a.value() < b.value()),
{
    let x = BigInt::from_slice(if a.negative { Sign::Minus } else { Sign::Plus }, &a.magnitude);
    let y = BigInt::from_slice(if b.negative { Sign::Minus } else { Sign::Plus }, &b.magnitude);
    x < y
}

/// Relies on num-traits' `Zero::is_zero` for `BigInt`: true exactly on zero.
#[verifier::external_body]
pub(crate) fn big_is_zero(a: &BigInteger) -> (r: bool)
    ensures
        r == (a.value() == 0),
{
    BigInt::from_slice(if a.negative { Sign::Minus } else { Sign::Plus }, &a.magnitude).is_zero()
}

} // verus!
