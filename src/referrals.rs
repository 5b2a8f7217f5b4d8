//! Genesis configuration of a referrals pallet: accounts endowed with
//! assets, referral shares, reward tiers per asset and level, and the trade
//! volume that each level requires.
use std::collections::HashMap;
use vstd::prelude::*;

use crate::types::{Balance, Permill};

verus! {

pub type AccountId = u64;

pub type AssetId = u32;

/// One whole unit of a twelve-decimal asset.
pub const ONE: Balance = 1_000_000_000_000;

pub const HDX: AssetId = 0;

pub const ALICE: AccountId = 1;

pub const INITIAL_ALICE_BALANCE: Balance = 1_000 * ONE;

/// A referrer's level.
#[derive(Clone, Copy, Debug, PartialEq, Eq, Hash, Structural)]
pub enum Level {
    Tier0,
    Tier1,
    Tier2,
    Tier3,
    Tier4,
}

/// The reward fractions that a level earns: the referrer's and the trader's.
#[derive(Clone, Copy, Debug, PartialEq, Eq, Structural)]
pub struct Tier {
    pub referrer: Permill,
    pub trader: Permill,
}

/// The trade volume that each level requires; `None` marks a level that no
/// volume reaches.
pub struct Volume {
    volumes: HashMap<Level, Option<Balance>>,
}

impl Volume {
    pub closed spec fn spec_volumes(&self) -> Map<Level, Option<Balance>> {
        self.volumes@
    }

    pub fn volumes(&self) -> (r: &HashMap<Level, Option<Balance>>)
        ensures
            r@ == self.spec_volumes(),
    {
        &self.volumes
    }

    pub fn new(volumes: HashMap<Level, Option<Balance>>) -> (r: Self)
        ensures
            r.spec_volumes() == volumes@,
    {
        Volume { volumes }
    }
}

/// Collects the genesis configuration, one builder call at a time.
pub struct ExtBuilder {
    endowed_accounts: Vec<(AccountId, AssetId, Balance)>,
    shares: Vec<(AccountId, Balance)>,
    tiers: Vec<(AssetId, Level, Tier)>,
    tier_volumes: Volume,
}

impl ExtBuilder {
    /// Accounts endowed with an amount of an asset, in the order given.
    pub closed spec fn spec_endowed_accounts(&self) -> Seq<(AccountId, AssetId, Balance)> {
        self.endowed_accounts@
    }

    /// Referral shares held by accounts, in the order given.
    pub closed spec fn spec_shares(&self) -> Seq<(AccountId, Balance)> {
        self.shares@
    }

    /// Reward tiers per asset and level, in the order given.
    pub closed spec fn spec_tiers(&self) -> Seq<(AssetId, Level, Tier)> {
        self.tiers@
    }

    /// The trade volume that each level requires.
    pub closed spec fn spec_tier_volumes(&self) -> Map<Level, Option<Balance>> {
        self.tier_volumes.spec_volumes()
    }

    pub fn endowed_accounts(&self) -> (r: &[(AccountId, AssetId, Balance)])
        ensures
            r@ == self.spec_endowed_accounts(),
    {
        self.endowed_accounts.as_slice()
    }

    pub fn shares(&self) -> (r: &[(AccountId, Balance)])
        ensures
            r@ == self.spec_shares(),
    {
        self.shares.as_slice()
    }

    pub fn tiers(&self) -> (r: &[(AssetId, Level, Tier)])
        ensures
            r@ == self.spec_tiers(),
    {
        self.tiers.as_slice()
    }

    pub fn tier_volumes(&self) -> (r: &Volume)
        ensures
            r.spec_volumes() == self.spec_tier_volumes(),
    {
        &self.tier_volumes
    }

    pub fn with_endowed_accounts(self, accounts: Vec<(AccountId, AssetId, Balance)>) -> (r: Self)
        ensures
            r.spec_endowed_accounts() == self.spec_endowed_accounts() + accounts@,
            r.spec_shares() == self.spec_shares(),
            r.spec_tiers() == self.spec_tiers(),
            r.spec_tier_volumes() == self.spec_tier_volumes(),
    {
        let mut builder = self;
        let mut accounts = accounts;
        builder.endowed_accounts.append(&mut accounts);
        builder
    }

    pub fn with_shares(self, shares: Vec<(AccountId, Balance)>) -> (r: Self)
        ensures
            r.spec_shares() == self.spec_shares() + shares@,
            r.spec_endowed_accounts() == self.spec_endowed_accounts(),
            r.spec_tiers() == self.spec_tiers(),
            r.spec_tier_volumes() == self.spec_tier_volumes(),
    {
        let mut builder = self;
        let mut shares = shares;
        builder.shares.append(&mut shares);
        builder
    }

    pub fn with_tiers(self, tiers: Vec<(AssetId, Level, Tier)>) -> (r: Self)
        ensures
            r.spec_tiers() == self.spec_tiers() + tiers@,
            r.spec_endowed_accounts() == self.spec_endowed_accounts(),
            r.spec_shares() == self.spec_shares(),
            r.spec_tier_volumes() == self.spec_tier_volumes(),
    {
        let mut builder = self;
        let mut tiers = tiers;
        builder.tiers.append(&mut tiers);
        builder
    }

    /// Replaces the trade volumes that the levels require.
    pub fn with_tier_volumes(self, volumes: HashMap<Level, Option<Balance>>) -> (r: Self)
        ensures
            r.spec_tier_volumes() == volumes@,
            r.spec_endowed_accounts() == self.spec_endowed_accounts(),
            r.spec_shares() == self.spec_shares(),
            r.spec_tiers() == self.spec_tiers(),
    {
        let mut builder = self;
        builder.tier_volumes = Volume::new(volumes);
        builder
    }
}

impl Default for ExtBuilder {
    /// Alice endowed with the native asset; no shares, tiers or volumes.
    fn default() -> (r: Self)
        ensures
            r.spec_endowed_accounts() == seq![(ALICE, HDX, INITIAL_ALICE_BALANCE)],
            r.spec_shares() == Seq::<(AccountId, Balance)>::empty(),
            r.spec_tiers() == Seq::<(AssetId, Level, Tier)>::empty(),
            r.spec_tier_volumes() == Map::<Level, Option<Balance>>::empty(),
    {
        let mut endowed_accounts = Vec::new();
        endowed_accounts.push((ALICE, HDX, INITIAL_ALICE_BALANCE));
        ExtBuilder {
            endowed_accounts,
            shares: Vec::new(),
            tiers: Vec::new(),
            tier_volumes: Volume::new(HashMap::new()),
        }
    }
}

} // verus!
