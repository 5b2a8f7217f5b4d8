//! 256-bit intermediates: products of two 128-bit values, sums of them, and
//! their quotients.
use primitive_types::U256;
use vstd::prelude::*;

verus! {

/// `x` as a `u128`, when it fits.
pub open spec fn fit(x: int) -> Option<u128> {
    if 0 <= x <= u128::MAX {
        Some(x as u128)
    } else {
        None
    }
}

/// The floor of `x / c`, when `c` is positive and the quotient fits a `u128`.
pub open spec fn quotient(x: int, c: int) -> Option<u128> {
    if c <= 0 || x < 0 {
        None
    } else {
        fit(x / c)
    }
}

/// One more than the largest value of a `Wide`.
pub open spec fn wide_bound() -> nat {
    0x1_0000_0000_0000_0000_0000_0000_0000_0000_0000_0000_0000_0000_0000_0000_0000_0000int as nat
}

/// An unsigned 256-bit integer as four 64-bit limbs, least significant first.
#[derive(Clone, Copy, Debug, PartialEq, Eq, Structural)]
pub struct Wide {
    pub w0: u64,
    pub w1: u64,
    pub w2: u64,
    pub w3: u64,
}

impl Wide {
    pub open spec fn value(self) -> nat {
        (self.w0 + self.w1 * 0x1_0000_0000_0000_0000 + self.w2
            * 0x1_0000_0000_0000_0000_0000_0000_0000_0000int + self.w3
            * 0x1_0000_0000_0000_0000_0000_0000_0000_0000_0000_0000_0000_0000int) as nat
    }

    pub fn from_u128(v: u128) -> (r: Wide)
        ensures
            r.value() == v,
    {
        let lo = (v % 0x1_0000_0000_0000_0000) as u64;
        let hi = (v / 0x1_0000_0000_0000_0000) as u64;
        Wide { w0: lo, w1: hi, w2: 0, w3: 0 }
    }

    /// The value as a `u128`, when it fits.
    pub fn to_u128(self) -> (r: Option<u128>)
        ensures
            r == fit(self.value() as int),
    {
        if self.w2 == 0 && self.w3 == 0 {
            Some(self.w0 as u128 + self.w1 as u128 * 0x1_0000_0000_0000_0000)
        } else {
            None
        }
    }
}

/// Relies on primitive_types::U256 multiplication: the product of two u128
/// values is exact in 256 bits. `U256`'s words are its limbs, least
/// significant first.
#[verifier::external_body]
fn product(a: u128, b: u128) -> (r: Wide)
    ensures
        r.value() == a * b,
{
    let U256(w) = U256::from(a) * U256::from(b);
    Wide { w0: w[0], w1: w[1], w2: w[2], w3: w[3] }
}

/// Relies on primitive_types::U256::checked_add: the exact sum, or `None`
/// when it does not fit 256 bits.
#[verifier::external_body]
fn checked_sum(x: Wide, y: Wide) -> (r: Option<Wide>)
    ensures
        match r {
            Some(s) => s.value() == x.value() + y.value(),
            None => x.value() + y.value() >= wide_bound(),
        },
{
    match U256([x.w0, x.w1, x.w2, x.w3]).checked_add(U256([y.w0, y.w1, y.w2, y.w3])) {
        Some(U256(w)) => Some(Wide { w0: w[0], w1: w[1], w2: w[2], w3: w[3] }),
        None => None,
    }
}

/// Relies on primitive_types::U256 division: the quotient rounded down; it
/// panics on a zero divisor, which `requires` excludes.
#[verifier::external_body]
fn divide(x: Wide, y: Wide) -> (r: Wide)
    requires
        y.value() > 0,
    ensures
        r.value() == x.value() / y.value(),
{
    let U256(w) = U256([x.w0, x.w1, x.w2, x.w3]) / U256([y.w0, y.w1, y.w2, y.w3]);
    Wide { w0: w[0], w1: w[1], w2: w[2], w3: w[3] }
}

/// `a * b / c`, rounded down, computed without 128-bit overflow of the product.
pub fn mul_div(a: u128, b: u128, c: u128) -> (r: Option<u128>)
    ensures
        r == quotient(a * b, c as int),
{
    if c == 0 {
        return None;
    }
    divide(product(a, b), Wide::from_u128(c)).to_u128()
}

/// `a * b / c`, rounded down, kept in 256 bits; none when `c` is zero.
pub fn mul_div_wide(a: u128, b: u128, c: u128) -> (r: Option<Wide>)
    ensures
        r is Some <==> c > 0,
        r matches Some(w) ==> w.value() == a * b / (c as int),
{
    if c == 0 {
        return None;
    }
    Some(divide(product(a, b), Wide::from_u128(c)))
}

/// `(a * b + c) / e`, rounded down; none when the sum leaves 256 bits, when
/// `e` is zero, or when the quotient leaves `u128`.
pub fn mul_add_div(a: u128, b: u128, c: Wide, e: u128) -> (r: Option<u128>)
    ensures
        r == if a * b + c.value() >= wide_bound() {
            None
        } else {
            quotient(a * b + c.value(), e as int)
        },
{
    if e == 0 {
        return None;
    }
    match checked_sum(product(a, b), c) {
        Some(s) => divide(s, Wide::from_u128(e)).to_u128(),
        None => None,
    }
}

} // verus!
