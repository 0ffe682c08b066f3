//! The ledger as a mathematical value: who owns which commodity, and how the
//! three operations change that.

use crate::asset_id::AssetId;
use crate::config::{AccountId, Config};
use vstd::prelude::*;

verus! {

/// Why an operation was refused.
#[derive(Clone, Copy, Debug, PartialEq, Eq, Structural)]
pub enum Error {
    /// An attempt to mint a commodity that exists already.
    CommodityExists,
    /// An attempt to burn or transfer a commodity that does not exist.
    NonexistentCommodity,
    /// Someone who is not the owner of a commodity attempted to transfer or
    /// burn it.
    NotCommodityOwner,
    /// An attempt to mint while the maximum number of commodities exists.
    TooManyCommodities,
    /// An attempt to mint or transfer a commodity to an account that already
    /// owns the maximum number of commodities.
    TooManyCommoditiesForAccount,
}

/// The state of the ledger: every existing commodity with its owner, and the
/// number of commodities burned so far.
#[verifier::ext_equal]
pub struct Ledger {
    pub owners: Map<AssetId, AccountId>,
    pub burned: u128,
}

impl Ledger {
    /// The ledger in which nothing was minted or burned yet.
    pub open spec fn empty() -> Ledger {
        Ledger { owners: Map::empty(), burned: 0 }
    }

    /// Finitely many commodities exist.
    pub open spec fn finite(self) -> bool {
        self.owners.dom().finite()
    }

    /// The number of commodities that exist.
    pub open spec fn total(self) -> nat {
        self.owners.dom().len()
    }

    /// The owner of `id`, if `id` exists.
    pub open spec fn owner_of(self, id: AssetId) -> Option<AccountId> {
        if self.owners.contains_key(id) {
            Some(self.owners[id])
        } else {
            None
        }
    }

    /// The commodities that `account` owns.
    pub open spec fn holding(self, account: AccountId) -> Set<AssetId> {
        Set::new(|id: AssetId| self.owners.contains_key(id) && self.owners[id] == account)
    }

    /// The number of commodities that `account` owns.
    pub open spec fn count(self, account: AccountId) -> nat {
        self.holding(account).len()
    }

    /// The accounts that own at least one commodity.
    pub open spec fn holders(self) -> Set<AccountId> {
        self.owners.values()
    }

    /// The count of burned commodities after one more burn. It starts again
    /// at zero after `u128::MAX`.
    pub open spec fn burned_once_more(self) -> u128 {
        if self.burned == u128::MAX {
            0
        } else {
            (self.burned + 1) as u128
        }
    }

    /// Minting `id` for `owner`: refused if `id` exists, if `owner` has
    /// reached the limit for one account, or if the limit for all
    /// commodities is reached, in this order of precedence.
    pub open spec fn mint(self, config: Config, owner: AccountId, id: AssetId) -> Result<
        Ledger,
        Error,
    > {
        if self.owners.contains_key(id) {
            Err(Error::CommodityExists)
        } else if self.count(owner) >= config.user_commodity_limit {
            Err(Error::TooManyCommoditiesForAccount)
        } else if self.total() >= config.commodity_limit {
            Err(Error::TooManyCommodities)
        } else {
            Ok(Ledger { owners: self.owners.insert(id, owner), burned: self.burned })
        }
    }

    /// Burning `id`: refused if `id` does not exist.
    pub open spec fn burn(self, id: AssetId) -> Result<Ledger, Error> {
        if !self.owners.contains_key(id) {
            Err(Error::NonexistentCommodity)
        } else {
            Ok(Ledger { owners: self.owners.remove(id), burned: self.burned_once_more() })
        }
    }

    /// Transferring `id` to `dest`: refused if `id` does not exist, or if
    /// `dest` has reached the limit for one account.
    pub open spec fn transfer(self, config: Config, dest: AccountId, id: AssetId) -> Result<
        Ledger,
        Error,
    > {
        if !self.owners.contains_key(id) {
            Err(Error::NonexistentCommodity)
        } else if self.count(dest) >= config.user_commodity_limit {
            Err(Error::TooManyCommoditiesForAccount)
        } else {
            Ok(Ledger { owners: self.owners.insert(id, dest), burned: self.burned })
        }
    }

    /// What one account owns is part of what exists.
    pub proof fn lemma_holding_bounded(self, account: AccountId)
        requires
            self.finite(),
        ensures
            self.holding(account).finite(),
            self.holding(account).subset_of(self.owners.dom()),
            self.count(account) <= self.total(),
    {
        vstd::set_lib::lemma_len_subset(self.holding(account), self.owners.dom());
    }
}

} // verus!
