//! Accounts, dispatch origins and the configured limits.

use vstd::prelude::*;

verus! {

/// Identifies an owner.
pub type AccountId = u64;

/// Where a call comes from.
#[derive(Clone, Copy, Debug, PartialEq, Eq, Structural)]
pub enum Origin {
    /// The system itself.
    Root,
    /// An account that signed the call.
    Signed(AccountId),
    /// Nobody: the call carries no signature.
    Unsigned,
}

impl Origin {
    /// The origin of the system itself.
    pub fn root() -> (origin: Origin)
        ensures
            origin == Origin::Root,
    {
        Origin::Root
    }

    /// The origin of a call that `who` signed.
    pub fn signed(who: AccountId) -> (origin: Origin)
        ensures
            origin == Origin::Signed(who),
    {
        Origin::Signed(who)
    }

    /// The origin of a call that nobody signed.
    pub fn none() -> (origin: Origin)
        ensures
            origin == Origin::Unsigned,
    {
        Origin::Unsigned
    }
}

/// The parameters of one class of commodity.
#[derive(Clone, Copy, Debug, PartialEq, Eq, Structural)]
pub struct Config {
    /// The dispatch origin that is able to mint new commodities.
    pub commodity_admin: Origin,
    /// The maximum number of commodities that may exist (minted - burned).
    pub commodity_limit: u128,
    /// The maximum number of commodities that any single account may own.
    pub user_commodity_limit: u64,
}

impl Config {
    /// Whether one more commodity may exist beside `total` existing ones.
    pub fn admits_commodity(&self, total: u128) -> (r: bool)
        ensures
            r == (total < self.commodity_limit),
    {
        total < self.commodity_limit
    }

    /// Whether an account that owns `held` commodities may own one more.
    pub fn admits_holding(&self, held: u64) -> (r: bool)
        ensures
            r == (held < self.user_commodity_limit),
    {
        held < self.user_commodity_limit
    }

    /// Whether `origin` is the one that may mint.
    pub fn is_admin(&self, origin: Origin) -> (r: bool)
        ensures
            r == (origin == self.commodity_admin),
    {
        origin == self.commodity_admin
    }
}

} // verus!
