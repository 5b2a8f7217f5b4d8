//! Rescaling between each asset's native precision and the common one, and
//! the invariant of a reserve sequence.
use vstd::prelude::*;

use crate::solver::{
    all_zero, ann_of, calculate_d_internal, invariant_d, lemma_d_iterate_at_least_two,
    lemma_power_monotone, power, total,
};
use crate::types::{AssetReserve, Balance};
use crate::wide::fit;

verus! {

/// The common precision, in fractional digits, of normalized reserves.
pub const TARGET_PRECISION: u8 = 18;

/// `amount` of `decimals` fractional digits, rescaled to `TARGET_PRECISION`;
/// none above that precision or on overflow.
pub open spec fn normalized_amount(amount: u128, decimals: u8) -> Option<u128> {
    if decimals > TARGET_PRECISION {
        None
    } else {
        fit(amount * power(10, (TARGET_PRECISION - decimals) as nat))
    }
}

/// A normalized `amount` rescaled back to `decimals` fractional digits:
/// rounded down, or rounded down and then raised by one unit when
/// `round_up` (any scaling at all then charges the remainder to the user).
pub open spec fn denormalized_amount(amount: u128, decimals: u8, round_up: bool) -> u128 {
    if decimals >= TARGET_PRECISION {
        amount
    } else {
        let q = amount as nat / power(10, (TARGET_PRECISION - decimals) as nat);
        if round_up {
            (q + 1) as u128
        } else {
            q as u128
        }
    }
}

/// Every reserve normalized, or none if one of them cannot be.
pub open spec fn normalized_reserves(rs: Seq<AssetReserve>) -> Option<Seq<u128>> {
    if forall|i: int| 0 <= i < rs.len() ==> normalized_amount(rs[i].amount, rs[i].decimals) is Some {
        Some(Seq::new(rs.len(), |i: int| normalized_amount(rs[i].amount, rs[i].decimals)->0))
    } else {
        None
    }
}

/// The invariant D of a reserve sequence, over its normalized amounts.
pub open spec fn reserves_d(rs: Seq<AssetReserve>, amp: nat, iterations: nat) -> Option<u128> {
    match normalized_reserves(rs) {
        None => None,
        Some(xs) => invariant_d(xs, amp, iterations),
    }
}

pub(crate) proof fn lemma_power_positive(b: nat, e: nat)
    requires
        b >= 1,
    ensures
        power(b, e) >= 1,
    decreases e,
{
    if e > 0 {
        lemma_power_positive(b, (e - 1) as nat);
        let p = power(b, (e - 1) as nat);
        assert(b * p >= 1) by (nonlinear_arith)
            requires
                b >= 1,
                p >= 1,
        ;
    }
}

/// `10^k`.
pub(crate) fn pow10(k: u8) -> (r: u128)
    requires
        k <= TARGET_PRECISION,
    ensures
        r == power(10, k as nat),
{
    let mut acc: u128 = 1;
    let mut i: u8 = 0;
    assert(power(10, 0) == 1);
    while i < k
        invariant
            i <= k,
            k <= TARGET_PRECISION,
            acc == power(10, i as nat),
        decreases k - i,
    {
        proof {
            lemma_power_monotone(10, (i + 1) as nat, 18);
            reveal_with_fuel(power, 19);
            assert(power(10, 18) == 1_000_000_000_000_000_000);
        }
        assert(power(10, (i + 1) as nat) == 10 * acc);
        acc = acc * 10;
        i += 1;
    }
    acc
}

/// How an amount leaving the normalized precision is rounded.
pub(crate) enum Rounding {
    Down,
    Up,
}

/// `amount` of `decimals` fractional digits, at the common precision.
pub(crate) fn normalize_value(amount: Balance, decimals: u8) -> (r: Option<Balance>)
    ensures
        r == normalized_amount(amount, decimals),
{
    if decimals > TARGET_PRECISION {
        return None;
    }
    let factor = pow10(TARGET_PRECISION - decimals);
    amount.checked_mul(factor)
}

/// A normalized `amount`, back at `decimals` fractional digits.
pub(crate) fn denormalize_value(amount: Balance, decimals: u8, rounding: Rounding) -> (r: Balance)
    ensures
        r == denormalized_amount(amount, decimals, rounding is Up),
{
    if decimals >= TARGET_PRECISION {
        return amount;
    }
    let factor = pow10(TARGET_PRECISION - decimals);
    proof {
        lemma_power_monotone(10, 1, (TARGET_PRECISION - decimals) as nat);
        reveal_with_fuel(power, 2);
        assert(power(10, 1) == 10);
    }
    let q = amount / factor;
    match rounding {
        Rounding::Down => q,
        Rounding::Up => {
            proof {
                vstd::arithmetic::div_mod::lemma_div_is_ordered_by_denominator(
                    amount as int,
                    2,
                    factor as int,
                );
            }
            q + 1
        },
    }
}

/// The normalized amounts of `reserves`, or none if one cannot be normalized.
pub(crate) fn normalize_reserves(reserves: &[AssetReserve]) -> (r: Option<Vec<Balance>>)
    ensures
        r is Some <==> normalized_reserves(reserves@) is Some,
        r matches Some(v) ==> normalized_reserves(reserves@) == Some(v@),
{
    let mut out: Vec<Balance> = Vec::new();
    let mut i: usize = 0;
    while i < reserves.len()
        invariant
            i <= reserves.len(),
            out@.len() == i,
            forall|j: int|
                0 <= j < i ==> normalized_amount(reserves@[j].amount, reserves@[j].decimals)
                    == Some(#[trigger] out@[j]),
        decreases reserves.len() - i,
    {
        match normalize_value(reserves[i].amount, reserves[i].decimals) {
            Some(v) => out.push(v),
            None => return None,
        }
        i += 1;
    }
    let ghost rs = reserves@;
    assert forall|j: int| 0 <= j < rs.len() implies normalized_amount(
        rs[j].amount,
        rs[j].decimals,
    ) is Some by {
        assert(normalized_amount(rs[j].amount, rs[j].decimals) == Some(out@[j]));
    }
    assert(out@ =~= Seq::new(rs.len(), |j: int| normalized_amount(rs[j].amount, rs[j].decimals)->0));
    Some(out)
}

/// The invariant D of `reserves`, computed over their normalized amounts with
/// at most `D` Newton steps. It is zero exactly when every reserve is zero.
pub fn calculate_d<const D: u8>(reserves: &[AssetReserve], amplification: Balance) -> (r: Option<Balance>)
    ensures
        r == reserves_d(reserves@, amplification as nat, D as nat),
        (forall|i: int|
            0 <= i < reserves@.len() ==> reserves@[i].amount == 0 && reserves@[i].decimals
                <= TARGET_PRECISION) ==> r == Some(0u128),
        r == Some(0u128) ==> forall|i: int| 0 <= i < reserves@.len() ==> reserves@[i].amount == 0,
{
    let xp = match normalize_reserves(reserves) {
        Some(v) => v,
        None => return None,
    };
    let r = calculate_d_internal(xp.as_slice(), amplification, D);
    proof {
        let xs = xp@;
        let rs = reserves@;
        assert forall|i: int| 0 <= i < rs.len() implies (xs[i] == 0 <==> rs[i].amount == 0) by {
            let p = power(10, (TARGET_PRECISION - rs[i].decimals) as nat);
            lemma_power_positive(10, (TARGET_PRECISION - rs[i].decimals) as nat);
            assert(rs[i].amount * p == 0 <==> rs[i].amount == 0) by (nonlinear_arith)
                requires
                    p >= 1,
            ;
        }
        if let Some(s) = fit(total(xs) as int) {
            if let Some(ann) = ann_of(xs.len(), amplification as nat) {
                lemma_d_iterate_at_least_two(xs, s, ann, s, D as nat);
            }
        }
        if r == Some(0u128) {
            assert(all_zero(xs));
            assert forall|i: int| 0 <= i < rs.len() implies rs[i].amount == 0 by {
                assert(xs[i] == 0);
            }
        }
    }
    r
}

} // verus!
