//! Liquidity shares: shares minted for deposits, and single-asset withdrawals.
use vstd::prelude::*;

use crate::precision::{
    calculate_d, denormalize_value, denormalized_amount, normalize_reserves, normalized_reserves,
    reserves_d, Rounding,
};
use crate::solver::{calculate_d_internal, calculate_y_internal, invariant_d, others_with, solve_y};
use crate::types::{AssetReserve, Balance, Permill, PERMILL_ACCURACY};
use crate::wide::{fit, mul_div, quotient};

verus! {

/// No reserve of `updated` holds less than the same reserve of `initial`.
pub open spec fn no_reserve_decreased(initial: Seq<AssetReserve>, updated: Seq<AssetReserve>) -> bool {
    forall|i: int| 0 <= i < initial.len() ==> updated[i].amount >= initial[i].amount
}

/// The shares minted when a pool moves from `initial` to `updated` reserves.
/// With no shares issued yet, the shares minted are the updated invariant
/// `D1`; otherwise `issuance * (D1 - D0) / D0`, rounded down. An invariant
/// that fell from `D0` to `D1` mints nothing and fails.
pub open spec fn shares_for_deposit(
    initial: Seq<AssetReserve>,
    updated: Seq<AssetReserve>,
    amp: nat,
    issuance: u128,
    iterations: nat,
) -> Option<u128> {
    if initial.len() != updated.len() || !no_reserve_decreased(initial, updated) {
        None
    } else {
        match reserves_d(initial, amp, iterations) {
            None => None,
            Some(d0) => match reserves_d(updated, amp, iterations) {
                None => None,
                Some(d1) => if d1 < d0 {
                    None
                } else if issuance == 0 {
                    Some(d1)
                } else {
                    quotient(issuance * (d1 - d0), d0 as int)
                },
            },
        }
    }
}

/// The part of a single-asset deposit kept back: half the fee fraction,
/// rounded down.
pub open spec fn deposit_fee(amount: u128, fee: Permill) -> u128 {
    (amount * fee.parts() / (2 * PERMILL_ACCURACY) as int) as u128
}

/// The shares minted for a deposit of `amount` of asset `asset_idx` alone.
pub open spec fn shares_for_single_deposit(
    rs: Seq<AssetReserve>,
    asset_idx: int,
    amount: u128,
    amp: nat,
    issuance: u128,
    fee: Permill,
    iterations: nat,
) -> Option<u128> {
    if asset_idx < 0 || asset_idx >= rs.len() {
        None
    } else {
        match fit(rs[asset_idx].amount + amount - deposit_fee(amount, fee)) {
            None => None,
            Some(v) => shares_for_deposit(
                rs,
                rs.update(asset_idx, AssetReserve { amount: v, decimals: rs[asset_idx].decimals }),
                amp,
                issuance,
                iterations,
            ),
        }
    }
}

/// The shares minted when a pool moves from `initial_reserves` to
/// `updated_reserves`, given `share_issuance` shares already out. Fails when
/// the two differ in length, when any reserve went down, and wherever the
/// computation fails.
pub fn calculate_shares<const D: u8>(
    initial_reserves: &[AssetReserve],
    updated_reserves: &[AssetReserve],
    amplification: Balance,
    share_issuance: Balance,
) -> (r: Option<Balance>)
    ensures
        r == shares_for_deposit(
            initial_reserves@,
            updated_reserves@,
            amplification as nat,
            share_issuance,
            D as nat,
        ),
        initial_reserves@.len() != updated_reserves@.len() ==> r is None,
        (exists|i: int|
            0 <= i < initial_reserves@.len() && i < updated_reserves@.len()
                && #[trigger] updated_reserves@[i].amount < initial_reserves@[i].amount) ==> r is None,
        share_issuance == 0 ==> (r matches Some(v) ==> reserves_d(
            updated_reserves@,
            amplification as nat,
            D as nat,
        ) == Some(v)),
{
    if initial_reserves.len() != updated_reserves.len() {
        return None;
    }
    let mut i: usize = 0;
    while i < initial_reserves.len()
        invariant
            i <= initial_reserves@.len(),
            initial_reserves@.len() == updated_reserves@.len(),
            forall|j: int|
                0 <= j < i ==> updated_reserves@[j].amount >= initial_reserves@[j].amount,
        decreases initial_reserves.len() - i,
    {
        if updated_reserves[i].amount < initial_reserves[i].amount {
            return None;
        }
        i += 1;
    }
    let initial_d = match calculate_d::<D>(initial_reserves, amplification) {
        Some(v) => v,
        None => return None,
    };
    let updated_d = match calculate_d::<D>(updated_reserves, amplification) {
        Some(v) => v,
        None => return None,
    };
    if updated_d < initial_d {
        return None;
    }
    if share_issuance == 0 {
        Some(updated_d)
    } else {
        mul_div(share_issuance, updated_d - initial_d, initial_d)
    }
}

/// `reserves` with the amount at `idx` replaced by `amount`.
pub(crate) fn with_amount(reserves: &[AssetReserve], idx: usize, amount: Balance) -> (r: Vec<AssetReserve>)
    requires
        idx < reserves@.len(),
    ensures
        r@ == reserves@.update(
            idx as int,
            AssetReserve { amount, decimals: reserves@[idx as int].decimals },
        ),
{
    let mut out: Vec<AssetReserve> = Vec::new();
    let mut i: usize = 0;
    while i < reserves.len()
        invariant
            i <= reserves@.len(),
            idx < reserves@.len(),
            out@ =~= reserves@.update(
                idx as int,
                AssetReserve { amount, decimals: reserves@[idx as int].decimals },
            ).subrange(0, i as int),
        decreases reserves.len() - i,
    {
        if i == idx {
            out.push(AssetReserve::new(amount, reserves[i].decimals));
        } else {
            out.push(reserves[i]);
        }
        i += 1;
    }
    out
}

/// The shares minted for a deposit of `amount` of asset `asset_idx` alone.
/// Half the fee fraction of the amount stays out of the pool's reserve, which
/// penalises single-asset deposits against a pool's imbalance; the rest is
/// added and shares are minted as by `calculate_shares`.
pub fn calculate_shares_for_amount<const D: u8>(
    initial_reserves: &[AssetReserve],
    asset_idx: usize,
    amount: Balance,
    amplification: Balance,
    share_issuance: Balance,
    fee: Permill,
) -> (r: Option<Balance>)
    ensures
        r == shares_for_single_deposit(
            initial_reserves@,
            asset_idx as int,
            amount,
            amplification as nat,
            share_issuance,
            fee,
            D as nat,
        ),
        asset_idx >= initial_reserves@.len() ==> r is None,
{
    if asset_idx >= initial_reserves.len() {
        return None;
    }
    let parts = fee.deconstruct() as u128;
    proof {
        assert(amount * parts / 2_000_000 <= amount) by (nonlinear_arith)
            requires
                parts <= 1_000_000,
                amount >= 0,
        ;
    }
    let kept = match mul_div(amount, parts, 2_000_000) {
        Some(v) => v,
        None => 0,
    };
    let added = amount - kept;
    let new_amount = match initial_reserves[asset_idx].amount.checked_add(added) {
        Some(v) => v,
        None => return None,
    };
    let updated = with_amount(initial_reserves, asset_idx, new_amount);
    calculate_shares::<D>(initial_reserves, updated.as_slice(), amplification, share_issuance)
}

/// The fee, in parts per million, on the imbalanced part of a single-asset
/// withdrawal from `n` assets: `fee * n / (4 * (n - 1))`, rounded down.
pub open spec fn withdraw_fee_parts(fee: Permill, n: nat) -> nat {
    fee.parts() * n / (4 * (n - 1) as int) as nat
}

/// How far reserve `k` sits from its share of a proportional withdrawal that
/// lowers the invariant from `d0` to `d1`, where the withdrawn asset `idx`
/// would end at `y`.
pub open spec fn withdraw_excess(xs: Seq<u128>, idx: int, k: int, d0: u128, d1: u128, y: u128) -> Option<u128> {
    match quotient(xs[k] * d1, d0 as int) {
        None => None,
        Some(ideal) => if k == idx {
            if ideal < y {
                None
            } else {
                Some((ideal - y) as u128)
            }
        } else {
            if xs[k] < ideal {
                None
            } else {
                Some((xs[k] - ideal) as u128)
            }
        },
    }
}

/// Reserve `k` less the fee on its excess.
pub open spec fn reduced_reserve(
    xs: Seq<u128>,
    idx: int,
    k: int,
    d0: u128,
    d1: u128,
    y: u128,
    fee_parts: nat,
) -> Option<u128> {
    match withdraw_excess(xs, idx, k, d0, d1, y) {
        None => None,
        Some(e) => match quotient(e * fee_parts, PERMILL_ACCURACY as int) {
            None => None,
            Some(f) => if f > xs[k] {
                None
            } else {
                Some((xs[k] - f) as u128)
            },
        },
    }
}

/// Every reserve less the fee on its excess, or none if one cannot be.
pub open spec fn reduced_reserves(
    xs: Seq<u128>,
    idx: int,
    d0: u128,
    d1: u128,
    y: u128,
    fee_parts: nat,
) -> Option<Seq<u128>> {
    if forall|k: int| 0 <= k < xs.len() ==> reduced_reserve(xs, idx, k, d0, d1, y, fee_parts) is Some {
        Some(Seq::new(xs.len(), |k: int| reduced_reserve(xs, idx, k, d0, d1, y, fee_parts)->0))
    } else {
        None
    }
}

/// The amount of asset `idx` paid out for burning `shares` of `issuance`, and
/// the fee kept back, both rounded down to the asset's precision.
/// The invariant falls in proportion to the shares burned, `D1 = D0 - D0 * shares / issuance`.
/// Solving for asset `idx` at `D1` gives the fee-free payout; every reserve is then
/// lowered by the fee on its distance from a proportional withdrawal, the
/// asset is solved again, and the fee is the difference of the two payouts.
/// A full fee consumes the withdrawal: the fee-free payout is split into a
/// fee and a payout of equal size, the odd unit staying in the pool.
pub open spec fn withdraw_one_asset(
    rs: Seq<AssetReserve>,
    shares: u128,
    idx: int,
    issuance: u128,
    amp: nat,
    fee: Permill,
    d_iterations: nat,
    y_iterations: nat,
) -> Option<(u128, u128)> {
    if issuance == 0 || idx < 0 || idx >= rs.len() || shares > issuance || rs.len() < 2 {
        None
    } else {
        match normalized_reserves(rs) {
            None => None,
            Some(xs) => match invariant_d(xs, amp, d_iterations) {
                None => None,
                Some(d0) => match quotient(shares * d0, issuance as int) {
                    None => None,
                    Some(burn) => {
                        let d1 = (d0 - burn) as u128;
                        match solve_y(xs.remove(idx), d1, amp, y_iterations) {
                            None => None,
                            Some(y) => if xs[idx] < y {
                                None
                            } else if fee.parts() == PERMILL_ACCURACY {
                                let half = ((xs[idx] - y) / 2) as u128;
                                Some(
                                    (
                                        denormalized_amount(half, rs[idx].decimals, false),
                                        denormalized_amount(half, rs[idx].decimals, false),
                                    ),
                                )
                            } else {
                                match reduced_reserves(
                                    xs,
                                    idx,
                                    d0,
                                    d1,
                                    y,
                                    withdraw_fee_parts(fee, rs.len()),
                                ) {
                                    None => None,
                                    Some(red) => match solve_y(red.remove(idx), d1, amp, y_iterations) {
                                        None => None,
                                        Some(y1) => if red[idx] < y1 || xs[idx] - y < red[idx] - y1 {
                                            None
                                        } else {
                                            let dy = (red[idx] - y1) as u128;
                                            let dy0 = (xs[idx] - y) as u128;
                                            Some(
                                                (
                                                    denormalized_amount(dy, rs[idx].decimals, false),
                                                    denormalized_amount(
                                                        (dy0 - dy) as u128,
                                                        rs[idx].decimals,
                                                        false,
                                                    ),
                                                ),
                                            )
                                        },
                                    },
                                }
                            },
                        }
                    },
                },
            },
        }
    }
}

/// Reserve `k` lowered by the fee on its excess.
pub(crate) fn reduce_one(xs: &[u128], idx: usize, k: usize, d0: u128, d1: u128, y: u128, fee_parts: u128) -> (r: Option<u128>)
    requires
        k < xs@.len(),
    ensures
        r == reduced_reserve(xs@, idx as int, k as int, d0, d1, y, fee_parts as nat),
{
    let ideal = match mul_div(xs[k], d1, d0) {
        Some(v) => v,
        None => return None,
    };
    let excess = if k == idx {
        if ideal < y {
            return None;
        }
        ideal - y
    } else {
        if xs[k] < ideal {
            return None;
        }
        xs[k] - ideal
    };
    let f = match mul_div(excess, fee_parts, PERMILL_ACCURACY as u128) {
        Some(v) => v,
        None => return None,
    };
    if f > xs[k] {
        return None;
    }
    Some(xs[k] - f)
}

/// The reserves lowered by the fee on their excess.
pub(crate) fn reduce_reserves(xs: &[u128], idx: usize, d0: u128, d1: u128, y: u128, fee_parts: u128) -> (r: Option<Vec<u128>>)
    ensures
        r is Some <==> reduced_reserves(xs@, idx as int, d0, d1, y, fee_parts as nat) is Some,
        r matches Some(v) ==> reduced_reserves(xs@, idx as int, d0, d1, y, fee_parts as nat) == Some(v@),
{
    let mut out: Vec<u128> = Vec::new();
    let mut k: usize = 0;
    while k < xs.len()
        invariant
            k <= xs@.len(),
            out@.len() == k,
            forall|j: int|
                0 <= j < k ==> reduced_reserve(xs@, idx as int, j, d0, d1, y, fee_parts as nat)
                    == Some(#[trigger] out@[j]),
        decreases xs.len() - k,
    {
        match reduce_one(xs, idx, k, d0, d1, y, fee_parts) {
            Some(v) => out.push(v),
            None => {
                assert(reduced_reserve(xs@, idx as int, k as int, d0, d1, y, fee_parts as nat) is None);
                return None;
            },
        }
        k += 1;
    }
    let ghost fx = fee_parts as nat;
    assert forall|j: int| 0 <= j < xs@.len() implies reduced_reserve(xs@, idx as int, j, d0, d1, y, fx)
        is Some by {
        assert(reduced_reserve(xs@, idx as int, j, d0, d1, y, fx) == Some(out@[j]));
    }
    assert(out@ =~= Seq::new(
        xs@.len(),
        |j: int| reduced_reserve(xs@, idx as int, j, d0, d1, y, fx)->0,
    ));
    Some(out)
}

/// The amount of asset `asset_index` paid out for burning `shares` of
/// `share_asset_issuance`, and the fee kept back on the imbalance that a
/// single-asset withdrawal causes. Fails when nothing is issued, when more
/// shares are burned than issued, on an index out of range, on fewer than two
/// assets, and wherever the computation fails.
pub fn calculate_withdraw_one_asset<const D: u8, const Y: u8>(
    reserves: &[AssetReserve],
    shares: Balance,
    asset_index: usize,
    share_asset_issuance: Balance,
    amplification: Balance,
    fee: Permill,
) -> (r: Option<(Balance, Balance)>)
    ensures
        r == withdraw_one_asset(
            reserves@,
            shares,
            asset_index as int,
            share_asset_issuance,
            amplification as nat,
            fee,
            D as nat,
            Y as nat,
        ),
        share_asset_issuance == 0 || shares > share_asset_issuance || asset_index
            >= reserves@.len() ==> r is None,
        fee.parts() == PERMILL_ACCURACY ==> (r matches Some((a, f)) ==> a == f),
{
    if share_asset_issuance == 0 || asset_index >= reserves.len() || shares > share_asset_issuance
        || reserves.len() < 2 {
        return None;
    }
    let n = reserves.len() as u128;
    let parts = fee.deconstruct() as u128;
    assert(n <= 0xFFFF_FFFF_FFFF_FFFF);
    assert(parts * n <= 1_000_000 * 0xFFFF_FFFF_FFFF_FFFF) by (nonlinear_arith)
        requires
            parts <= 1_000_000,
            n <= 0xFFFF_FFFF_FFFF_FFFF,
    ;
    let fee_parts = parts * n / (4 * (n - 1));
    let xp = match normalize_reserves(reserves) {
        Some(v) => v,
        None => return None,
    };
    let initial_d = match calculate_d_internal(xp.as_slice(), amplification, D) {
        Some(v) => v,
        None => return None,
    };
    proof {
        assert(shares * initial_d / (share_asset_issuance as int) <= initial_d) by (nonlinear_arith)
            requires
                shares <= share_asset_issuance,
                share_asset_issuance > 0,
                initial_d >= 0,
        ;
    }
    let burn = match mul_div(shares, initial_d, share_asset_issuance) {
        Some(v) => v,
        None => return None,
    };
    let d1 = initial_d - burn;
    let others = others_with(xp.as_slice(), asset_index, asset_index, xp[asset_index]);
    assert(xp@.update(asset_index as int, xp@[asset_index as int]) =~= xp@);
    let y = match calculate_y_internal(others.as_slice(), d1, amplification, Y) {
        Some(v) => v,
        None => return None,
    };
    if xp[asset_index] < y {
        return None;
    }
    let decimals = reserves[asset_index].decimals;
    if parts == PERMILL_ACCURACY as u128 {
        let half = denormalize_value((xp[asset_index] - y) / 2, decimals, Rounding::Down);
        return Some((half, half));
    }
    let reduced = match reduce_reserves(xp.as_slice(), asset_index, initial_d, d1, y, fee_parts) {
        Some(v) => v,
        None => return None,
    };
    let reduced_others = others_with(
        reduced.as_slice(),
        asset_index,
        asset_index,
        reduced[asset_index],
    );
    assert(reduced@.update(asset_index as int, reduced@[asset_index as int]) =~= reduced@);
    let y1 = match calculate_y_internal(reduced_others.as_slice(), d1, amplification, Y) {
        Some(v) => v,
        None => return None,
    };
    if reduced[asset_index] < y1 {
        return None;
    }
    let dy = reduced[asset_index] - y1;
    let dy0 = xp[asset_index] - y;
    if dy0 < dy {
        return None;
    }
    Some(
        (
            denormalize_value(dy, decimals, Rounding::Down),
            denormalize_value(dy0 - dy, decimals, Rounding::Down),
        ),
    )
}

} // verus!
