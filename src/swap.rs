//! Swap amounts: output for a given input, input for a given output, with
//! and without a fee.
use vstd::prelude::*;

use crate::precision::{
    denormalize_value, denormalized_amount, normalize_reserves, normalize_value, normalized_amount,
    normalized_reserves, Rounding,
};
use crate::solver::{calculate_d_internal, calculate_y_internal, invariant_d, others_with, solve_y};
use crate::types::{AssetReserve, Balance, Permill, PERMILL_ACCURACY};
use crate::wide::{fit, mul_add_div, mul_div, Wide};

verus! {

/// The normalized reserve left at `idx_out` after `amount_in` is added at
/// `idx_in`, holding the invariant of the reserves before the trade.
pub open spec fn reserve_out_after_in(
    xs: Seq<u128>,
    idx_in: int,
    idx_out: int,
    amount_in: u128,
    amp: nat,
    d_iterations: nat,
    y_iterations: nat,
) -> Option<u128> {
    match fit(xs[idx_in] + amount_in) {
        None => None,
        Some(new_in) => match invariant_d(xs, amp, d_iterations) {
            None => None,
            Some(d) => solve_y(xs.update(idx_in, new_in).remove(idx_out), d, amp, y_iterations),
        },
    }
}

/// The normalized reserve needed at `idx_in` after `amount_out` is taken at
/// `idx_out`, holding the invariant of the reserves before the trade.
pub open spec fn reserve_in_after_out(
    xs: Seq<u128>,
    idx_in: int,
    idx_out: int,
    amount_out: u128,
    amp: nat,
    d_iterations: nat,
    y_iterations: nat,
) -> Option<u128> {
    if amount_out > xs[idx_out] {
        None
    } else {
        match invariant_d(xs, amp, d_iterations) {
            None => None,
            Some(d) => solve_y(
                xs.update(idx_out, (xs[idx_out] - amount_out) as u128).remove(idx_in),
                d,
                amp,
                y_iterations,
            ),
        }
    }
}

/// The amount of asset `idx_out` that `amount_in` of asset `idx_in` buys,
/// before fees: the drop of the output reserve, rounded down to its precision.
/// No further unit is taken off: each solver step already adds two units to
/// the reserve left in the pool, which keeps the pool's side of the rounding.
pub open spec fn out_given_in(
    rs: Seq<AssetReserve>,
    idx_in: int,
    idx_out: int,
    amount_in: u128,
    amp: nat,
    d_iterations: nat,
    y_iterations: nat,
) -> Option<u128> {
    if idx_in < 0 || idx_out < 0 || idx_in >= rs.len() || idx_out >= rs.len() || idx_in == idx_out {
        None
    } else {
        match normalized_reserves(rs) {
            None => None,
            Some(xs) => match normalized_amount(amount_in, rs[idx_in].decimals) {
                None => None,
                Some(a) => match reserve_out_after_in(xs, idx_in, idx_out, a, amp, d_iterations, y_iterations) {
                    None => None,
                    Some(y) => if y > xs[idx_out] {
                        None
                    } else {
                        Some(denormalized_amount((xs[idx_out] - y) as u128, rs[idx_out].decimals, false))
                    },
                },
            },
        }
    }
}

/// The amount of asset `idx_in` that buys `amount_out` of asset `idx_out`,
/// before fees: the rise of the input reserve, rounded up to its precision
/// (one unit above the rounded-down value whenever precision is dropped). As
/// for `out_given_in`, the solver's two-unit step keeps the pool's side.
pub open spec fn in_given_out(
    rs: Seq<AssetReserve>,
    idx_in: int,
    idx_out: int,
    amount_out: u128,
    amp: nat,
    d_iterations: nat,
    y_iterations: nat,
) -> Option<u128> {
    if idx_in < 0 || idx_out < 0 || idx_in >= rs.len() || idx_out >= rs.len() || idx_in == idx_out {
        None
    } else {
        match normalized_reserves(rs) {
            None => None,
            Some(xs) => match normalized_amount(amount_out, rs[idx_out].decimals) {
                None => None,
                Some(a) => match reserve_in_after_out(xs, idx_in, idx_out, a, amp, d_iterations, y_iterations) {
                    None => None,
                    Some(y) => if y < xs[idx_in] {
                        None
                    } else {
                        Some(denormalized_amount((y - xs[idx_in]) as u128, rs[idx_in].decimals, true))
                    },
                },
            },
        }
    }
}

/// `amount * fee`, rounded down.
pub open spec fn fee_floor(amount: u128, fee: Permill) -> u128 {
    (amount * fee.parts() / PERMILL_ACCURACY as int) as u128
}

/// `amount * fee`, rounded up.
pub open spec fn fee_ceil(amount: u128, fee: Permill) -> u128 {
    ((amount * fee.parts() + PERMILL_ACCURACY - 1) / PERMILL_ACCURACY as int) as u128
}

/// `amount * fee`, rounded down.
pub(crate) fn fee_amount_floor(amount: Balance, fee: Permill) -> (r: Balance)
    ensures
        r == fee_floor(amount, fee),
        r <= amount,
{
    let parts = fee.deconstruct() as u128;
    proof {
        assert(amount * parts / 1_000_000 <= amount) by (nonlinear_arith)
            requires
                parts <= 1_000_000,
                amount >= 0,
        ;
    }
    match mul_div(amount, parts, 1_000_000) {
        Some(v) => v,
        None => 0,
    }
}

/// `amount * fee`, rounded up.
pub(crate) fn fee_amount_ceil(amount: Balance, fee: Permill) -> (r: Balance)
    ensures
        r == fee_ceil(amount, fee),
        r <= amount,
{
    let parts = fee.deconstruct() as u128;
    proof {
        assert((amount * parts + 999_999) / 1_000_000 <= amount) by (nonlinear_arith)
            requires
                parts <= 1_000_000,
                amount >= 0,
        ;
    }
    let round = Wide::from_u128(999_999);
    proof {
        assert(amount * parts <= u128::MAX * 1_000_000) by (nonlinear_arith)
            requires
                parts <= 1_000_000,
                amount <= u128::MAX,
        ;
    }
    match mul_add_div(amount, parts, round, 1_000_000) {
        Some(v) => v,
        None => 0,
    }
}

/// The amount of asset `idx_out` that `amount_in` of asset `idx_in` buys from
/// a pool holding `initial_reserves`, before fees. Fails on an index out of
/// range, on equal indices, and wherever the computation fails.
pub fn calculate_out_given_in<const D: u8, const Y: u8>(
    initial_reserves: &[AssetReserve],
    idx_in: usize,
    idx_out: usize,
    amount_in: Balance,
    amplification: Balance,
) -> (r: Option<Balance>)
    ensures
        r == out_given_in(
            initial_reserves@,
            idx_in as int,
            idx_out as int,
            amount_in,
            amplification as nat,
            D as nat,
            Y as nat,
        ),
        idx_in >= initial_reserves@.len() || idx_out >= initial_reserves@.len() ==> r is None,
{
    if idx_in >= initial_reserves.len() || idx_out >= initial_reserves.len() || idx_in == idx_out {
        return None;
    }
    let xp = match normalize_reserves(initial_reserves) {
        Some(v) => v,
        None => return None,
    };
    let amount = match normalize_value(amount_in, initial_reserves[idx_in].decimals) {
        Some(v) => v,
        None => return None,
    };
    let new_in = match xp[idx_in].checked_add(amount) {
        Some(v) => v,
        None => return None,
    };
    let d = match calculate_d_internal(xp.as_slice(), amplification, D) {
        Some(v) => v,
        None => return None,
    };
    let others = others_with(xp.as_slice(), idx_out, idx_in, new_in);
    let y = match calculate_y_internal(others.as_slice(), d, amplification, Y) {
        Some(v) => v,
        None => return None,
    };
    if y > xp[idx_out] {
        return None;
    }
    Some(denormalize_value(xp[idx_out] - y, initial_reserves[idx_out].decimals, Rounding::Down))
}

/// The amount of asset `idx_in` that buys `amount_out` of asset `idx_out` from
/// a pool holding `initial_reserves`, before fees. Fails on an index out of
/// range, on equal indices, and wherever the computation fails.
pub fn calculate_in_given_out<const D: u8, const Y: u8>(
    initial_reserves: &[AssetReserve],
    idx_in: usize,
    idx_out: usize,
    amount_out: Balance,
    amplification: Balance,
) -> (r: Option<Balance>)
    ensures
        r == in_given_out(
            initial_reserves@,
            idx_in as int,
            idx_out as int,
            amount_out,
            amplification as nat,
            D as nat,
            Y as nat,
        ),
        idx_in >= initial_reserves@.len() || idx_out >= initial_reserves@.len() ==> r is None,
{
    if idx_in >= initial_reserves.len() || idx_out >= initial_reserves.len() || idx_in == idx_out {
        return None;
    }
    let xp = match normalize_reserves(initial_reserves) {
        Some(v) => v,
        None => return None,
    };
    let amount = match normalize_value(amount_out, initial_reserves[idx_out].decimals) {
        Some(v) => v,
        None => return None,
    };
    if amount > xp[idx_out] {
        return None;
    }
    let d = match calculate_d_internal(xp.as_slice(), amplification, D) {
        Some(v) => v,
        None => return None,
    };
    let others = others_with(xp.as_slice(), idx_in, idx_out, xp[idx_out] - amount);
    let y = match calculate_y_internal(others.as_slice(), d, amplification, Y) {
        Some(v) => v,
        None => return None,
    };
    if y < xp[idx_in] {
        return None;
    }
    Some(denormalize_value(y - xp[idx_in], initial_reserves[idx_in].decimals, Rounding::Up))
}

/// `calculate_out_given_in`, less a fee taken from the output and rounded
/// down: the net output and the fee, both in the output asset.
pub fn calculate_out_given_in_with_fee<const D: u8, const Y: u8>(
    initial_reserves: &[AssetReserve],
    idx_in: usize,
    idx_out: usize,
    amount_in: Balance,
    amplification: Balance,
    fee: Permill,
) -> (r: Option<(Balance, Balance)>)
    ensures
        r == match out_given_in(
            initial_reserves@,
            idx_in as int,
            idx_out as int,
            amount_in,
            amplification as nat,
            D as nat,
            Y as nat,
        ) {
            None => None,
            Some(gross) => Some(((gross - fee_floor(gross, fee)) as u128, fee_floor(gross, fee))),
        },
        idx_in >= initial_reserves@.len() || idx_out >= initial_reserves@.len() ==> r is None,
{
    let gross = match calculate_out_given_in::<D, Y>(
        initial_reserves,
        idx_in,
        idx_out,
        amount_in,
        amplification,
    ) {
        Some(v) => v,
        None => return None,
    };
    let fee_amount = fee_amount_floor(gross, fee);
    Some((gross - fee_amount, fee_amount))
}

/// `calculate_in_given_out`, plus a fee charged on top of the input and
/// rounded up: the total input and the fee, both in the input asset.
pub fn calculate_in_given_out_with_fee<const D: u8, const Y: u8>(
    initial_reserves: &[AssetReserve],
    idx_in: usize,
    idx_out: usize,
    amount_out: Balance,
    amplification: Balance,
    fee: Permill,
) -> (r: Option<(Balance, Balance)>)
    ensures
        r == match in_given_out(
            initial_reserves@,
            idx_in as int,
            idx_out as int,
            amount_out,
            amplification as nat,
            D as nat,
            Y as nat,
        ) {
            None => None,
            Some(gross) => match fit(gross + fee_ceil(gross, fee)) {
                None => None,
                Some(total_in) => Some((total_in, fee_ceil(gross, fee))),
            },
        },
        idx_in >= initial_reserves@.len() || idx_out >= initial_reserves@.len() ==> r is None,
{
    let gross = match calculate_in_given_out::<D, Y>(
        initial_reserves,
        idx_in,
        idx_out,
        amount_out,
        amplification,
    ) {
        Some(v) => v,
        None => return None,
    };
    let fee_amount = fee_amount_ceil(gross, fee);
    match gross.checked_add(fee_amount) {
        Some(total_in) => Some((total_in, fee_amount)),
        None => None,
    }
}

} // verus!
