//! What each account owns: a count and an ascending list of identifiers for
//! every account. An account that was never recorded owns nothing.

use crate::asset_id::AssetId;
use crate::config::AccountId;
use crate::ordered::{ascending, enumerates, insert, remove};
use std::collections::HashMap;
use vstd::prelude::*;

verus! {

/// The number of commodities that each account owns.
pub struct OwnerCounts {
    counts: HashMap<AccountId, u64>,
}

impl OwnerCounts {
    /// The count recorded for `account`; zero if there is none.
    pub closed spec fn of(&self, account: AccountId) -> u64 {
        if self.counts@.contains_key(account) {
            self.counts@[account]
        } else {
            0
        }
    }

    /// Every account at zero.
    pub fn new() -> (counts: OwnerCounts)
        ensures
            forall|account: AccountId| counts.of(account) == 0,
    {
        OwnerCounts { counts: HashMap::new() }
    }

    /// The count of `account`.
    pub fn get(&self, account: AccountId) -> (n: u64)
        ensures
            n == self.of(account),
    {
        match self.counts.get(&account) {
            Some(n) => *n,
            None => 0,
        }
    }

    /// Records `n` as the count of `account`.
    pub fn set(&mut self, account: AccountId, n: u64)
        ensures
            final(self).of(account) == n,
            forall|other: AccountId| other != account ==> final(self).of(other) == old(self).of(other),
    {
        self.counts.insert(account, n);
    }
}

/// The commodities that each account owns, in ascending order.
pub struct OwnedSets {
    sets: HashMap<AccountId, Vec<AssetId>>,
}

impl OwnedSets {
    /// The list recorded for `account`; empty if there is none.
    pub closed spec fn of(&self, account: AccountId) -> Seq<AssetId> {
        if self.sets@.contains_key(account) {
            self.sets@[account]@
        } else {
            Seq::empty()
        }
    }

    /// Every list is ascending.
    pub closed spec fn wf(&self) -> bool {
        forall|account: AccountId| ascending(#[trigger] self.of(account))
    }

    /// The list of any account is ascending.
    pub proof fn lemma_ascending(&self, account: AccountId)
        requires
            self.wf(),
        ensures
            ascending(self.of(account)),
    {
    }

    /// Every account with an empty list.
    pub fn new() -> (sets: OwnedSets)
        ensures
            sets.wf(),
            forall|account: AccountId| sets.of(account) == Seq::<AssetId>::empty(),
    {
        OwnedSets { sets: HashMap::new() }
    }

    /// A copy of the list of `account`.
    pub fn list(&self, account: AccountId) -> (list: Vec<AssetId>)
        ensures
            list@ == self.of(account),
    {
        let mut list: Vec<AssetId> = Vec::new();
        match self.sets.get(&account) {
            Some(held) => {
                let mut i: usize = 0;
                while i < held.len()
                    invariant
                        i <= held.len(),
                        list@ == held@.subrange(0, i as int),
                    decreases held.len() - i,
                {
                    list.push(held[i]);
                    i += 1;
                }
            },
            None => {},
        }
        list
    }

    /// Puts `id` into the list of `account`, at its sorted position, unless
    /// it is there already. Returns whether it was added.
    pub fn add(&mut self, account: AccountId, id: AssetId) -> (added: bool)
        requires
            old(self).wf(),
        ensures
            final(self).wf(),
            enumerates(final(self).of(account), old(self).of(account).to_set().insert(id)),
            added == !old(self).of(account).contains(id),
            added ==> final(self).of(account).len() == old(self).of(account).len() + 1,
            !added ==> final(self).of(account) == old(self).of(account),
            forall|other: AccountId| other != account ==> final(self).of(other) == old(self).of(other),
    {
        proof {
            old(self).lemma_ascending(account);
        }
        let mut held: Vec<AssetId> = match self.sets.remove(&account) {
            Some(held) => held,
            None => Vec::new(),
        };
        let added = insert(&mut held, id);
        self.sets.insert(account, held);
        proof {
            assert forall|other: AccountId| ascending(#[trigger] self.of(other)) by {
                if other != account {
                    old(self).lemma_ascending(other);
                }
            }
        }
        added
    }

    /// Takes `id`, which `account` owns, out of the list of `account`.
    pub fn take(&mut self, account: AccountId, id: &AssetId)
        requires
            old(self).wf(),
            old(self).of(account).contains(*id),
        ensures
            final(self).wf(),
            enumerates(final(self).of(account), old(self).of(account).to_set().remove(*id)),
            final(self).of(account).len() == old(self).of(account).len() - 1,
            forall|other: AccountId| other != account ==> final(self).of(other) == old(self).of(other),
    {
        proof {
            old(self).lemma_ascending(account);
        }
        let mut held: Vec<AssetId> = match self.sets.remove(&account) {
            Some(held) => held,
            None => Vec::new(),
        };
        remove(&mut held, id);
        self.sets.insert(account, held);
        proof {
            assert forall|other: AccountId| ascending(#[trigger] self.of(other)) by {
                if other != account {
                    old(self).lemma_ascending(other);
                }
            }
        }
    }
}

} // verus!
