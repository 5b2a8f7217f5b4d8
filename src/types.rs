use vstd::prelude::*;

verus! {

/// The amount type of the engine: reserves, trade amounts, shares and issuance.
pub type Balance = u128;

/// One asset's pool balance in its native precision.
#[derive(Clone, Copy, Debug, PartialEq, Eq, Structural)]
pub struct AssetReserve {
    pub amount: Balance,
    pub decimals: u8,
}

impl AssetReserve {
    pub fn new(amount: Balance, decimals: u8) -> (r: Self)
        ensures
            r.amount == amount,
            r.decimals == decimals,
    {
        AssetReserve { amount, decimals }
    }
}

/// The denominator of a `Permill`.
pub const PERMILL_ACCURACY: u32 = 1_000_000;

/// A fraction in [0, 1], counted in parts per million.
#[derive(Clone, Copy, Debug, PartialEq, Eq, Structural)]
pub struct Permill {
    parts: u32,
}

impl Permill {
    #[verifier::type_invariant]
    spec fn bounded(self) -> bool {
        self.parts <= PERMILL_ACCURACY
    }

    /// The numerator of the fraction, over one million.
    pub closed spec fn parts(self) -> nat {
        self.parts as nat
    }

    /// `parts` parts per million; values above one million stand for the whole.
    pub fn from_parts(parts: u32) -> (r: Self)
        ensures
            r.parts() == if parts <= PERMILL_ACCURACY { parts as nat } else { PERMILL_ACCURACY as nat },
    {
        let parts = if parts <= PERMILL_ACCURACY { parts } else { PERMILL_ACCURACY };
        Permill { parts }
    }

    /// `percent` hundredths; values above one hundred stand for the whole.
    pub fn from_percent(percent: u32) -> (r: Self)
        ensures
            r.parts() == if percent <= 100 { percent * 10_000 } else { PERMILL_ACCURACY as int },
    {
        let percent = if percent <= 100 { percent } else { 100 };
        Permill { parts: percent * 10_000 }
    }

    pub fn zero() -> (r: Self)
        ensures
            r.parts() == 0,
    {
        Permill { parts: 0 }
    }

    pub fn one() -> (r: Self)
        ensures
            r.parts() == PERMILL_ACCURACY,
    {
        Permill { parts: PERMILL_ACCURACY }
    }

    pub fn deconstruct(self) -> (r: u32)
        ensures
            r == self.parts(),
            r <= PERMILL_ACCURACY,
    {
        proof {
            use_type_invariant(self);
        }
        self.parts
    }
}

} // verus!
