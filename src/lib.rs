//! A StableSwap invariant engine for multi-asset pools whose assets carry
//! different decimal precisions: swap amounts, liquidity shares and
//! single-asset withdrawals, all computed with checked integer arithmetic.

pub mod liquidity;
pub mod precision;
pub mod referrals;
pub mod solver;
pub mod swap;
pub mod types;
pub mod wide;

pub use liquidity::{calculate_shares, calculate_shares_for_amount, calculate_withdraw_one_asset};
pub use precision::calculate_d;
pub use solver::{calculate_ann, calculate_y};
pub use swap::{
    calculate_in_given_out, calculate_in_given_out_with_fee, calculate_out_given_in,
    calculate_out_given_in_with_fee,
};
pub use types::{AssetReserve, Balance, Permill};
