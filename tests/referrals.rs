use std::collections::HashMap;

use stableswap::referrals::{ExtBuilder, Level, Tier, ALICE, HDX, INITIAL_ALICE_BALANCE};
use stableswap::Permill;

#[test]
fn ext_builder_starts_with_alice_endowed() {
	let builder = ExtBuilder::default();
	assert_eq!(builder.endowed_accounts(), &[(ALICE, HDX, INITIAL_ALICE_BALANCE)][..]);
	assert!(builder.shares().is_empty());
	assert!(builder.tiers().is_empty());
	assert!(builder.tier_volumes().volumes().is_empty());
}

#[test]
fn ext_builder_appends_in_order() {
	let tier = Tier { referrer: Permill::from_percent(1), trader: Permill::from_parts(2_000) };
	let mut volumes = HashMap::new();
	volumes.insert(Level::Tier1, Some(1_000u128));
	volumes.insert(Level::Tier4, None);

	let builder = ExtBuilder::default()
		.with_endowed_accounts(vec![(2, 5, 10), (3, 2, 20)])
		.with_shares(vec![(2, 7)])
		.with_shares(vec![(3, 9)])
		.with_tiers(vec![(5, Level::Tier0, tier)])
		.with_tier_volumes(volumes);

	assert_eq!(
		builder.endowed_accounts(),
		&[(ALICE, HDX, INITIAL_ALICE_BALANCE), (2, 5, 10), (3, 2, 20)][..]
	);
	assert_eq!(builder.shares(), &[(2, 7), (3, 9)][..]);
	assert_eq!(builder.tiers(), &[(5, Level::Tier0, tier)][..]);
	assert_eq!(builder.tier_volumes().volumes().get(&Level::Tier1), Some(&Some(1_000)));
	assert_eq!(builder.tier_volumes().volumes().get(&Level::Tier4), Some(&None));
	assert_eq!(builder.tier_volumes().volumes().len(), 2);
}
