//! The commodities pallet: the ledger as a value that is kept in four
//! agreeing records, and the three operations on it.
//!
//! Commodities that share a common structure are created and distributed by
//! the commodity admin. Owners burn their commodities or transfer them. The
//! configuration limits how many commodities may exist and how many any one
//! account may own. A commodity is identified by the digest of the
//! information that defines it.

use crate::asset_id::{derive_id, derived_id, AssetId};
use crate::config::{AccountId, Config, Origin};
use crate::dispatch::{burning, ensure_signed, minting, transferring, DispatchError, Event};
use crate::holdings::{OwnedSets, OwnerCounts};
use crate::ledger::{Error, Ledger};
use crate::nft::UniqueAssets;
use crate::ordered::{enumerates, lemma_ascending_distinct};
use crate::owner_index::{ascending_ids, distinct_ids, lemma_recorded_keys, recorded, OwnerIndex};
use vstd::prelude::*;

verus! {

/// The ledger of one class of commodity.
///
/// It keeps the number of existing and of burned commodities, for each
/// account the number and the ascending list of what it owns, and for each
/// commodity its owner. `wf` says that these records agree.
pub struct Pallet {
    config: Config,
    total: u128,
    burned: u128,
    counts: OwnerCounts,
    owned: OwnedSets,
    index: OwnerIndex,
}

impl View for Pallet {
    type V = Ledger;

    closed spec fn view(&self) -> Ledger {
        Ledger { owners: self.index@, burned: self.burned }
    }
}

impl Pallet {
    /// The four records agree: the total is the number of owned commodities,
    /// each count is the length of the account's list, and a commodity is in
    /// the list of an account exactly if that account is its owner.
    closed spec fn agrees(&self) -> bool {
        &&& self.index.wf()
        &&& self.owned.wf()
        &&& self.total == self.index@.dom().len()
        &&& forall|account: AccountId| #[trigger]
            self.counts.of(account) == self.owned.of(account).len()
        &&& forall|account: AccountId, id: AssetId| #[trigger]
            self.owned.of(account).contains(id) <==> (self.index@.contains_key(id)
                && self.index@[id] == account)
    }

    /// In a consistent pallet the list of an account enumerates what the
    /// account owns in the ledger, and its count is their number.
    proof fn lemma_account(&self, account: AccountId)
        requires
            self.agrees(),
        ensures
            self@.finite(),
            enumerates(self.owned.of(account), self@.holding(account)),
            self.owned.of(account).len() == self@.count(account),
            self.counts.of(account) == self@.count(account),
    {
        self.index.lemma_finite();
        self.owned.lemma_ascending(account);
        let held = self.owned.of(account);
        assert forall|id: AssetId| held.to_set().contains(id) <==> self@.holding(account).contains(
            id,
        ) by {
            assert(held.to_set().contains(id) <==> held.contains(id));
        }
        assert(held.to_set() =~= self@.holding(account));
        lemma_ascending_distinct(held);
    }

    /// A consistent pallet stands for a ledger of finitely many
    /// commodities.
    pub proof fn lemma_finite(&self)
        requires
            self.wf(),
        ensures
            self@.finite(),
    {
        self.index.lemma_finite();
    }

    /// A pallet in which nothing was minted yet.
    pub fn new(config: Config) -> (pallet: Pallet)
        ensures
            pallet.wf(),
            pallet.limits() == config,
            pallet@ == Ledger::empty(),
    {
        let pallet = Pallet {
            config,
            total: 0,
            burned: 0,
            counts: OwnerCounts::new(),
            owned: OwnedSets::new(),
            index: OwnerIndex::new(),
        };
        proof {
            assert(pallet@ =~= Ledger::empty());
        }
        pallet
    }

    /// Creates the commodity `commodity_id` and gives it to `owner_account`.
    ///
    /// Refused, with nothing changed, if the commodity exists already, if the
    /// owner has reached the limit for one account, or if the limit for all
    /// commodities is reached.
    pub fn mint_id(&mut self, owner_account: &AccountId, commodity_id: AssetId) -> (r: Result<
        AssetId,
        Error,
    >)
        requires
            old(self).wf(),
        ensures
            final(self).wf(),
            final(self).limits() == old(self).limits(),
            match old(self)@.mint(old(self).limits(), *owner_account, commodity_id) {
                Ok(next) => r == Ok::<AssetId, Error>(commodity_id) && final(self)@ == next,
                Err(e) => r == Err::<AssetId, Error>(e) && *final(self) == *old(self),
            },
    {
        let owner = *owner_account;
        proof {
            self.lemma_account(owner);
        }
        match self.index.get(&commodity_id) {
            Some(_) => {
                return Err(Error::CommodityExists);
            },
            None => {},
        }
        if !self.config.admits_holding(self.counts.get(owner)) {
            return Err(Error::TooManyCommoditiesForAccount);
        }
        if !self.config.admits_commodity(self.total) {
            return Err(Error::TooManyCommodities);
        }
        self.record(owner, commodity_id);
        Ok(commodity_id)
    }

    /// Enters the new commodity `id` with its owner into all four records.
    fn record(&mut self, owner: AccountId, id: AssetId)
        requires
            old(self).agrees(),
            !old(self)@.owners.contains_key(id),
            old(self)@.count(owner) < u64::MAX,
            old(self)@.total() < u128::MAX,
        ensures
            final(self).agrees(),
            final(self).config == old(self).config,
            final(self)@ == (Ledger {
                owners: old(self)@.owners.insert(id, owner),
                burned: old(self)@.burned,
            }),
    {
        proof {
            self.lemma_account(owner);
        }
        let held = self.counts.get(owner);
        self.total = self.total + 1;
        self.counts.set(owner, held + 1);
        self.owned.add(owner, id);
        self.index.set(id, owner);
        proof {
            assert(!old(self).owned.of(owner).contains(id));
            assert forall|account: AccountId, other: AssetId| #[trigger]
                self.owned.of(account).contains(other) <==> (self.index@.contains_key(other)
                    && self.index@[other] == account) by {
                assert(old(self).owned.of(account).contains(other) <==> (old(
                    self,
                ).index@.contains_key(other) && old(self).index@[other] == account));
                if account == owner {
                    assert(self.owned.of(owner).to_set().contains(other) <==> self.owned.of(
                        owner,
                    ).contains(other));
                    assert(old(self).owned.of(owner).to_set().contains(other) <==> old(
                        self,
                    ).owned.of(owner).contains(other));
                }
            }
        }
    }

    /// Every commodity with its owner, in ascending order of identifier:
    /// what has to be stored, beside the count of burned commodities, to
    /// build the pallet again with `restore`.
    pub fn owners(&self) -> (owners: Vec<(AssetId, AccountId)>)
        requires
            self.wf(),
        ensures
            ascending_ids(owners@),
            recorded(owners@) == self@.owners,
    {
        self.index.entries()
    }

    /// Builds the pallet in which each commodity of `owners` belongs to the
    /// account beside it, and `burned` commodities have been burned. `None`
    /// if an identifier comes twice. The limits of `config` hold for what is
    /// minted and transferred from then on.
    pub fn restore(config: Config, burned: u128, owners: &Vec<(AssetId, AccountId)>) -> (r: Option<
        Pallet,
    >)
        ensures
            r is Some <==> distinct_ids(owners@),
            r is Some ==> {
                &&& r->Some_0.wf()
                &&& r->Some_0.limits() == config
                &&& r->Some_0@ == (Ledger { owners: recorded(owners@), burned })
            },
    {
        let mut pallet = Pallet::new(config);
        pallet.burned = burned;
        let mut i: usize = 0;
        proof {
            assert(owners@.take(0) =~= Seq::<(AssetId, AccountId)>::empty());
        }
        while i < owners.len()
            invariant
                i <= owners.len(),
                pallet.agrees(),
                pallet.config == config,
                pallet.burned == burned,
                pallet.total == i,
                pallet@.owners == recorded(owners@.take(i as int)),
                distinct_ids(owners@.take(i as int)),
            decreases owners.len() - i,
        {
            let id = owners[i].0;
            let owner = owners[i].1;
            proof {
                lemma_recorded_keys(owners@.take(i as int));
                pallet.lemma_account(owner);
                pallet@.lemma_holding_bounded(owner);
                assert(owners@.take(i + 1).drop_last() =~= owners@.take(i as int));
            }
            match pallet.index.get(&id) {
                Some(_) => {
                    proof {
                        let k = choose|k: int|
                            0 <= k < i && (#[trigger] owners@.take(i as int)[k]).0 == id;
                        assert(owners@[k].0 == owners@[i as int].0);
                    }
                    return None;
                },
                None => {},
            }
            pallet.record(owner, id);
            proof {
                assert forall|a: int, b: int| 0 <= a < b < i + 1 implies (
                #[trigger] owners@.take(i + 1)[a]).0 != (#[trigger] owners@.take(i + 1)[b]).0 by {
                    if b < i {
                        assert(owners@.take(i as int)[a].0 != owners@.take(i as int)[b].0);
                    } else {
                        assert(owners@.take(i as int)[a].0 == owners@[a].0);
                    }
                }
            }
            i += 1;
        }
        proof {
            assert(owners@.take(i as int) =~= owners@);
        }
        Some(pallet)
    }
}

impl UniqueAssets for Pallet {
    open spec fn ledger(&self) -> Ledger {
        self@
    }

    closed spec fn limits(&self) -> Config {
        self.config
    }

    closed spec fn wf(&self) -> bool {
        self.agrees()
    }

    fn total(&self) -> (n: u128) {
        self.total
    }

    fn burned(&self) -> (n: u128) {
        self.burned
    }

    fn total_for_account(&self, account: &AccountId) -> (n: u64) {
        proof {
            self.lemma_account(*account);
        }
        self.counts.get(*account)
    }

    fn assets_for_account(&self, account: &AccountId) -> (assets: Vec<AssetId>) {
        proof {
            self.lemma_account(*account);
        }
        self.owned.list(*account)
    }

    fn owner_of(&self, asset_id: &AssetId) -> (owner: Option<AccountId>) {
        self.index.get(asset_id)
    }

    fn mint(&mut self, owner_account: &AccountId, asset_info: Vec<u8>) -> (r: Result<
        AssetId,
        Error,
    >) {
        let id = derive_id(&asset_info);
        self.mint_id(owner_account, id)
    }

    fn burn(&mut self, asset_id: &AssetId) -> (r: Result<(), Error>) {
        let owner = match self.index.get(asset_id) {
            Some(owner) => owner,
            None => {
                return Err(Error::NonexistentCommodity);
            },
        };
        proof {
            self.lemma_account(owner);
            self@.lemma_holding_bounded(owner);
            assert(self.owned.of(owner).contains(*asset_id));
        }
        let held = self.counts.get(owner);
        self.total = self.total - 1;
        self.burned = self.burned.wrapping_add(1);
        self.counts.set(owner, held - 1);
        self.owned.take(owner, asset_id);
        self.index.unset(asset_id);
        proof {
            assert forall|account: AccountId, id: AssetId| #[trigger]
                self.owned.of(account).contains(id) <==> (self.index@.contains_key(id)
                    && self.index@[id] == account) by {
                assert(old(self).owned.of(account).contains(id) <==> (old(
                    self,
                ).index@.contains_key(id) && old(self).index@[id] == account));
                if account == owner {
                    assert(self.owned.of(owner).to_set().contains(id) <==> self.owned.of(
                        owner,
                    ).contains(id));
                    assert(old(self).owned.of(owner).to_set().contains(id) <==> old(
                        self,
                    ).owned.of(owner).contains(id));
                }
            }
        }
        Ok(())
    }

    fn transfer(&mut self, dest_account: &AccountId, asset_id: &AssetId) -> (r: Result<(), Error>) {
        let dest = *dest_account;
        let owner = match self.index.get(asset_id) {
            Some(owner) => owner,
            None => {
                return Err(Error::NonexistentCommodity);
            },
        };
        proof {
            self.lemma_account(owner);
            self.lemma_account(dest);
            assert(self.owned.of(owner).contains(*asset_id));
        }
        if !self.config.admits_holding(self.counts.get(dest)) {
            return Err(Error::TooManyCommoditiesForAccount);
        }
        let owner_held = self.counts.get(owner);
        self.counts.set(owner, owner_held - 1);
        let dest_held = self.counts.get(dest);
        self.counts.set(dest, dest_held + 1);
        self.owned.take(owner, asset_id);
        let ghost taken = self.owned;
        self.owned.add(dest, *asset_id);
        self.index.set(*asset_id, dest);
        proof {
            assert(taken.of(owner).to_set().contains(*asset_id) <==> taken.of(owner).contains(
                *asset_id,
            ));
            assert(old(self).owned.of(dest).contains(*asset_id) <==> dest == owner);
            assert(!taken.of(dest).contains(*asset_id));
            assert forall|account: AccountId, id: AssetId| #[trigger]
                self.owned.of(account).contains(id) <==> (self.index@.contains_key(id)
                    && self.index@[id] == account) by {
                assert(old(self).owned.of(account).contains(id) <==> (old(
                    self,
                ).index@.contains_key(id) && old(self).index@[id] == account));
                assert(self.owned.of(account).to_set().contains(id) <==> self.owned.of(
                    account,
                ).contains(id));
                assert(taken.of(account).to_set().contains(id) <==> taken.of(account).contains(
                    id,
                ));
                assert(old(self).owned.of(account).to_set().contains(id) <==> old(
                    self,
                ).owned.of(account).contains(id));
            }
            assert(self@.owners =~= old(self)@.owners.insert(*asset_id, dest));
        }
        Ok(())
    }
}

impl Pallet {
    /// Creates a new commodity from `commodity_info` and makes
    /// `owner_account` its owner. The identifier of the new commodity is the
    /// digest of the information that defines it.
    ///
    /// The origin must be the commodity admin. The call is refused if the
    /// commodity exists already, if the owner already owns the maximum
    /// number of commodities, or if the maximum number of commodities
    /// exists.
    pub fn mint(&mut self, origin: Origin, owner_account: AccountId, commodity_info: Vec<u8>) -> (r:
        Result<Event, DispatchError>)
        requires
            old(self).wf(),
            commodity_info@.len() <= u32::MAX,
        ensures
            final(self).wf(),
            final(self).limits() == old(self).limits(),
            match minting(
                old(self)@,
                old(self).limits(),
                origin,
                owner_account,
                derived_id(commodity_info@),
            ) {
                Ok((next, event)) => r == Ok::<Event, DispatchError>(event) && final(self)@ == next,
                Err(e) => r == Err::<Event, DispatchError>(e) && *final(self) == *old(self),
            },
    {
        if !self.config.is_admin(origin) {
            return Err(DispatchError::BadOrigin);
        }
        match UniqueAssets::mint(self, &owner_account, commodity_info) {
            Ok(commodity_id) => Ok(Event::Minted(commodity_id, owner_account)),
            Err(e) => Err(DispatchError::Module(e)),
        }
    }

    /// Destroys the commodity `commodity_id`.
    ///
    /// The origin must be signed by the owner of the commodity.
    pub fn burn(&mut self, origin: Origin, commodity_id: AssetId) -> (r: Result<
        Event,
        DispatchError,
    >)
        requires
            old(self).wf(),
        ensures
            final(self).wf(),
            final(self).limits() == old(self).limits(),
            match burning(old(self)@, origin, commodity_id) {
                Ok((next, event)) => r == Ok::<Event, DispatchError>(event) && final(self)@ == next,
                Err(e) => r == Err::<Event, DispatchError>(e) && *final(self) == *old(self),
            },
    {
        let who = match ensure_signed(origin) {
            Ok(who) => who,
            Err(e) => {
                return Err(e);
            },
        };
        if !self.is_owner(who, &commodity_id) {
            return Err(DispatchError::Module(Error::NotCommodityOwner));
        }
        match UniqueAssets::burn(self, &commodity_id) {
            Ok(()) => Ok(Event::Burned(commodity_id)),
            Err(e) => Err(DispatchError::Module(e)),
        }
    }

    /// Transfers the commodity `commodity_id` to `dest_account`.
    ///
    /// The origin must be signed by the owner of the commodity. The call is
    /// refused if the new owner already owns the maximum number of
    /// commodities.
    pub fn transfer(&mut self, origin: Origin, dest_account: AccountId, commodity_id: AssetId) -> (r:
        Result<Event, DispatchError>)
        requires
            old(self).wf(),
        ensures
            final(self).wf(),
            final(self).limits() == old(self).limits(),
            match transferring(
                old(self)@,
                old(self).limits(),
                origin,
                dest_account,
                commodity_id,
            ) {
                Ok((next, event)) => r == Ok::<Event, DispatchError>(event) && final(self)@ == next,
                Err(e) => r == Err::<Event, DispatchError>(e) && *final(self) == *old(self),
            },
    {
        let who = match ensure_signed(origin) {
            Ok(who) => who,
            Err(e) => {
                return Err(e);
            },
        };
        if !self.is_owner(who, &commodity_id) {
            return Err(DispatchError::Module(Error::NotCommodityOwner));
        }
        match UniqueAssets::transfer(self, &dest_account, &commodity_id) {
            Ok(()) => Ok(Event::Transferred(commodity_id, dest_account)),
            Err(e) => Err(DispatchError::Module(e)),
        }
    }

    /// Whether `who` owns the commodity `commodity_id`.
    pub fn is_owner(&self, who: AccountId, commodity_id: &AssetId) -> (r: bool)
        requires
            self.wf(),
        ensures
            r == (self@.owner_of(*commodity_id) == Some(who)),
    {
        match self.index.get(commodity_id) {
            Some(owner) => owner == who,
            None => false,
        }
    }

    /// The number of commodities that exist (minted - burned).
    pub fn total(&self) -> (n: u128)
        requires
            self.wf(),
        ensures
            n == self@.total(),
    {
        self.total
    }

    /// The number of commodities that have been burned.
    pub fn burned(&self) -> (n: u128)
        requires
            self.wf(),
        ensures
            n == self@.burned,
    {
        self.burned
    }

    /// The number of commodities that `account` owns.
    pub fn total_for_account(&self, account: AccountId) -> (n: u64)
        requires
            self.wf(),
        ensures
            n == self@.count(account),
    {
        UniqueAssets::total_for_account(self, &account)
    }

    /// The commodities that `account` owns, in ascending order of
    /// identifier.
    pub fn commodities_for_account(&self, account: AccountId) -> (commodities: Vec<AssetId>)
        requires
            self.wf(),
        ensures
            enumerates(commodities@, self@.holding(account)),
            commodities@.len() == self@.count(account),
    {
        UniqueAssets::assets_for_account(self, &account)
    }

    /// The account that owns `commodity_id`, or `None` if no such commodity
    /// exists.
    pub fn account_for_commodity(&self, commodity_id: AssetId) -> (owner: Option<AccountId>)
        requires
            self.wf(),
        ensures
            owner == self@.owner_of(commodity_id),
    {
        self.index.get(&commodity_id)
    }
}

} // verus!
