use stableswap::precision::TARGET_PRECISION;
use stableswap::wide::{mul_add_div, mul_div, mul_div_wide, Wide};
use stableswap::{
	calculate_ann, calculate_d, calculate_in_given_out, calculate_y, calculate_in_given_out_with_fee, calculate_out_given_in,
	calculate_out_given_in_with_fee, calculate_shares, calculate_shares_for_amount, calculate_withdraw_one_asset,
	AssetReserve, Permill,
};

const D_ITERATIONS: u8 = 128;
const Y_ITERATIONS: u8 = 64;

fn mixed_precision_pool() -> [AssetReserve; 3] {
	[
		AssetReserve::new(1_000_000_000, 6),
		AssetReserve::new(3_000_000_000, 6),
		AssetReserve::new(5_000_000_000_000_000_000_000, 18),
	]
}

#[test]
fn calculate_ann_is_four_times_amp_for_two_assets() {
	assert_eq!(calculate_ann(2, 7), Some(28));
	assert_eq!(calculate_ann(2, 0), Some(0));
	assert_eq!(calculate_ann(3, 2), Some(54));
	assert_eq!(calculate_ann(0, 7), Some(7));
	assert_eq!(calculate_ann(2, u128::MAX / 4), Some(u128::MAX / 4 * 4));
	assert_eq!(calculate_ann(2, u128::MAX / 4 + 1), None);
}

#[test]
fn calculate_d_is_zero_exactly_when_all_reserves_are_zero() {
	let zeros = [AssetReserve::new(0, 12); 4];
	assert_eq!(calculate_d::<D_ITERATIONS>(&zeros, 100), Some(0));

	let balanced = [AssetReserve::new(10_000, 12); 5];
	assert_eq!(calculate_d::<D_ITERATIONS>(&balanced, 100), Some(50_000_000_002));

	let tiny = [AssetReserve::new(5, 0), AssetReserve::new(5, 0)];
	assert_eq!(calculate_d::<D_ITERATIONS>(&tiny, 10), Some(10_000_000_000_000_000_002));
}

#[test]
fn calculate_d_fails_when_only_some_reserves_are_zero() {
	let reserves = [AssetReserve::new(0, 12), AssetReserve::new(10_000, 12)];
	assert_eq!(calculate_d::<D_ITERATIONS>(&reserves, 100), None);
}

#[test]
fn calculate_d_fails_when_precision_exceeds_target() {
	let reserves = [AssetReserve::new(10_000, 12), AssetReserve::new(10_000, TARGET_PRECISION + 1)];
	assert_eq!(calculate_d::<D_ITERATIONS>(&reserves, 100), None);
}

#[test]
fn calculate_d_fails_when_normalized_reserve_overflows() {
	let reserves = [AssetReserve::new(u128::MAX, 6), AssetReserve::new(10_000, 6)];
	assert_eq!(calculate_d::<D_ITERATIONS>(&reserves, 100), None);
}

#[test]
fn calculate_d_fails_when_iterations_run_out() {
	let reserves = mixed_precision_pool();
	assert_eq!(calculate_d::<1>(&reserves, 1000), None);
	assert_eq!(calculate_d::<D_ITERATIONS>(&reserves, 1000), Some(8_999_733_394_550_684_936_264));
}

#[test]
fn fee_bearing_swaps_do_not_lower_the_invariant() {
	let amp = 1000u128;
	let balances = mixed_precision_pool();
	let d_before = calculate_d::<D_ITERATIONS>(&balances, amp).unwrap();

	let (amount_out, _) =
		calculate_out_given_in_with_fee::<D_ITERATIONS, Y_ITERATIONS>(&balances, 1, 2, 1_000_000, amp, Permill::from_percent(1))
			.unwrap();
	let after = [
		balances[0],
		AssetReserve::new(balances[1].amount + 1_000_000, 6),
		AssetReserve::new(balances[2].amount - amount_out, 18),
	];
	assert!(calculate_d::<D_ITERATIONS>(&after, amp).unwrap() >= d_before);

	let (amount_in, _) = calculate_in_given_out_with_fee::<D_ITERATIONS, Y_ITERATIONS>(
		&balances,
		2,
		0,
		1_000_000,
		amp,
		Permill::from_percent(1),
	)
	.unwrap();
	let after = [
		AssetReserve::new(balances[0].amount - 1_000_000, 6),
		balances[1],
		AssetReserve::new(balances[2].amount + amount_in, 18),
	];
	assert!(calculate_d::<D_ITERATIONS>(&after, amp).unwrap() >= d_before);
}

#[test]
fn swaps_fail_when_indices_are_equal() {
	let balances = [AssetReserve::new(10_000, 12); 5];
	assert_eq!(calculate_out_given_in::<D_ITERATIONS, Y_ITERATIONS>(&balances, 2, 2, 2_000, 100), None);
	assert_eq!(calculate_in_given_out::<D_ITERATIONS, Y_ITERATIONS>(&balances, 3, 3, 2_000, 100), None);
}

#[test]
fn every_entry_point_fails_on_an_index_out_of_range() {
	let balances = [AssetReserve::new(10_000, 12); 5];
	let fee = Permill::from_percent(1);
	assert_eq!(calculate_out_given_in_with_fee::<D_ITERATIONS, Y_ITERATIONS>(&balances, 5, 1, 2_000, 100, fee), None);
	assert_eq!(calculate_out_given_in_with_fee::<D_ITERATIONS, Y_ITERATIONS>(&balances, 1, 9, 2_000, 100, fee), None);
	assert_eq!(calculate_in_given_out_with_fee::<D_ITERATIONS, Y_ITERATIONS>(&balances, 5, 1, 2_000, 100, fee), None);
	assert_eq!(calculate_in_given_out_with_fee::<D_ITERATIONS, Y_ITERATIONS>(&balances, 1, 5, 2_000, 100, fee), None);
	assert_eq!(
		calculate_withdraw_one_asset::<D_ITERATIONS, Y_ITERATIONS>(&balances, 2_000, 5, 52_000, 100, fee),
		None
	);
	assert_eq!(calculate_shares_for_amount::<D_ITERATIONS>(&balances, 5, 2_000, 100, 52_000, fee), None);
}

#[test]
fn in_given_out_fails_when_output_exceeds_reserve() {
	let balances = [AssetReserve::new(10_000, 12); 2];
	assert_eq!(calculate_in_given_out::<D_ITERATIONS, Y_ITERATIONS>(&balances, 0, 1, 10_001, 100), None);
}

#[test]
fn in_given_out_with_fee_adds_fee_rounded_up() {
	let balances = mixed_precision_pool();
	let gross = calculate_in_given_out::<D_ITERATIONS, Y_ITERATIONS>(&balances, 1, 2, 1_000_000_000_000_000_000, 1000)
		.unwrap();
	assert_eq!(gross, 999_921);
	let (total, fee) = calculate_in_given_out_with_fee::<D_ITERATIONS, Y_ITERATIONS>(
		&balances,
		1,
		2,
		1_000_000_000_000_000_000,
		1000,
		Permill::from_parts(1),
	)
	.unwrap();
	assert_eq!((total, fee), (999_922, 1));
}

#[test]
fn calculate_shares_first_deposit_mints_the_updated_invariant() {
	let initial = [AssetReserve::new(0, 12); 5];
	let updated = [AssetReserve::new(10_000, 12); 5];
	let d = calculate_d::<D_ITERATIONS>(&updated, 100).unwrap();
	assert_eq!(calculate_shares::<D_ITERATIONS>(&initial, &updated, 100, 0), Some(d));
}

#[test]
fn calculate_shares_mints_nothing_when_reserves_are_unchanged() {
	let initial = [AssetReserve::new(10_000, 12); 5];
	assert_eq!(calculate_shares::<D_ITERATIONS>(&initial, &initial, 100, 100_000), Some(0));
}

#[test]
fn calculate_shares_mints_issuance_times_relative_invariant_growth() {
	let initial = [AssetReserve::new(10_000, 12); 5];
	let mut updated = initial;
	updated[2].amount += 5_000;
	let issuance = 100_000_000_000_000_000_000u128;
	let d0 = calculate_d::<D_ITERATIONS>(&initial, 100).unwrap();
	let d1 = calculate_d::<D_ITERATIONS>(&updated, 100).unwrap();
	assert_eq!((d0, d1), (50_000_000_002, 54_999_987_035));
	assert_eq!(
		calculate_shares::<D_ITERATIONS>(&initial, &updated, 100, issuance),
		Some(9_999_974_065_600_001_037)
	);
}

#[test]
fn calculate_shares_for_amount_deposits_one_asset() {
	let balances = [AssetReserve::new(10_000_000_000_000_000, 12); 5];
	let amount = 100_000_000_000_000u128;
	let issuance = 20_000_000_000_000_000_000_000u128;

	let shares =
		calculate_shares_for_amount::<D_ITERATIONS>(&balances, 0, amount, 100, issuance, Permill::zero()).unwrap();
	assert_eq!(shares, 39_999_997_455_233_418_904);

	let mut updated = balances;
	updated[0].amount += amount;
	assert_eq!(calculate_shares::<D_ITERATIONS>(&balances, &updated, 100, issuance), Some(shares));
}

#[test]
fn calculate_shares_for_amount_keeps_half_the_fee_out() {
	let balances = [AssetReserve::new(10_000_000_000_000_000, 12); 5];
	let amount = 100_000_000_000_000u128;
	let issuance = 20_000_000_000_000_000_000_000u128;
	let fee = Permill::from_parts(1_000);

	let shares = calculate_shares_for_amount::<D_ITERATIONS>(&balances, 0, amount, 100, issuance, fee).unwrap();
	assert_eq!(shares, 39_979_997_457_770_043_360);

	let mut updated = balances;
	updated[0].amount += amount - amount / 2_000;
	assert_eq!(calculate_shares::<D_ITERATIONS>(&balances, &updated, 100, issuance), Some(shares));
}

#[test]
fn calculate_withdraw_one_asset_returns_requested_amount() {
	let balances = [AssetReserve::new(10_000_000_000_000_000, 12); 5];
	let issuance = 20_000_000_000_000_000_000_000u128;
	let result = calculate_withdraw_one_asset::<D_ITERATIONS, Y_ITERATIONS>(
		&balances,
		40_000_002_575_489_444_434 + 3000,
		0,
		issuance,
		100,
		Permill::zero(),
	);
	assert_eq!(result, Some((100_000_000_000_000, 0)));
}

#[test]
fn calculate_withdraw_one_asset_fails_with_a_single_asset() {
	let balances = [AssetReserve::new(10_000, 12)];
	assert_eq!(
		calculate_withdraw_one_asset::<D_ITERATIONS, Y_ITERATIONS>(&balances, 10, 0, 100, 100, Permill::zero()),
		None
	);
}

#[test]
fn wide_arithmetic_keeps_the_full_product() {
	assert_eq!(mul_div(u128::MAX, u128::MAX, u128::MAX), Some(u128::MAX));
	assert_eq!(mul_div(u128::MAX, 3, 4), Some(u128::MAX / 4 * 3 + 2));
	assert_eq!(mul_div(u128::MAX, u128::MAX, 1), None);
	assert_eq!(mul_div(7, 3, 0), None);
	assert_eq!(mul_add_div(u128::MAX, 2, Wide::from_u128(u128::MAX), 3), Some(u128::MAX));
	assert_eq!(mul_add_div(10, 10, Wide::from_u128(5), 7), Some(15));
	assert_eq!(mul_add_div(1, 1, Wide::from_u128(1), 0), None);
	let top = Wide { w0: u64::MAX, w1: u64::MAX, w2: u64::MAX, w3: u64::MAX };
	assert_eq!(mul_add_div(1, 1, top, 1), None);
	assert_eq!(mul_add_div(0, 0, top, u128::MAX), None);

	let square = mul_div_wide(u128::MAX, u128::MAX, 1).unwrap();
	assert_eq!(square, Wide { w0: 1, w1: 0, w2: u64::MAX - 1, w3: u64::MAX });
	assert_eq!(square.to_u128(), None);
	assert_eq!(mul_div_wide(u128::MAX, 4, 2).unwrap(), Wide { w0: u64::MAX - 1, w1: u64::MAX, w2: 1, w3: 0 });
	assert_eq!(mul_div_wide(1, 1, 0), None);
	assert_eq!(Wide::from_u128(u128::MAX).to_u128(), Some(u128::MAX));
}

#[test]
fn permill_clamps_to_the_whole() {
	assert_eq!(Permill::from_parts(2_000_000), Permill::one());
	assert_eq!(Permill::from_percent(150).deconstruct(), 1_000_000);
	assert_eq!(Permill::from_percent(1).deconstruct(), 10_000);
	assert_eq!(Permill::zero().deconstruct(), 0);
}

#[test]
fn calculate_withdraw_one_asset_full_fee_on_imbalanced_pool() {
	let balances = [AssetReserve::new(10_000, 12), AssetReserve::new(30_000, 12), AssetReserve::new(50_000, 12)];
	let result = calculate_withdraw_one_asset::<D_ITERATIONS, Y_ITERATIONS>(
		&balances,
		2_000,
		0,
		52_000,
		100,
		Permill::from_percent(100),
	);
	assert_eq!(result, Some((1720, 1720)));

	let balances = [
		AssetReserve::new(33_075, 12),
		AssetReserve::new(24_406, 12),
		AssetReserve::new(27_681, 12),
		AssetReserve::new(682_098, 12),
	];
	let result = calculate_withdraw_one_asset::<D_ITERATIONS, Y_ITERATIONS>(
		&balances,
		154_434,
		3,
		9_084_394,
		10,
		Permill::from_percent(100),
	);
	assert_eq!(result, Some((7046, 7046)));
}

#[test]
fn calculate_y_solves_for_the_reserve_at_an_index() {
	let amp = 100u128;
	let reserves = [10_000_000_000u128; 5];
	let ann = calculate_ann(5, amp).unwrap();
	assert_eq!(ann, 312_500);
	let d = calculate_d::<D_ITERATIONS>(&[AssetReserve::new(10_000, 12); 5], amp).unwrap();
	assert_eq!(calculate_y::<Y_ITERATIONS>(&reserves, 4, d, ann), Some(10_000_000_004));
	assert_eq!(calculate_y::<Y_ITERATIONS>(&reserves, 5, d, ann), None);
	assert_eq!(calculate_y::<Y_ITERATIONS>(&reserves, 4, d, 0), None);
	assert_eq!(calculate_y::<1>(&reserves, 4, d, ann), None);
}
