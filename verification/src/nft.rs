//! An interface over a set of unique assets, also known as non-fungible
//! tokens.
//!
//! A unique asset has an owner, named by an account, and is defined by its
//! asset information, from which its identifier is derived. Assets are
//! minted, burned and transferred. The interface states each operation over
//! the [`Ledger`] that an implementation stands for.

use crate::asset_id::{derived_id, AssetId};
use crate::config::{AccountId, Config};
use crate::ledger::{Error, Ledger};
use crate::ordered::enumerates;
use vstd::prelude::*;

verus! {

/// A set of unique assets with their owners.
pub trait UniqueAssets: Sized {
    /// The ledger that this value stands for.
    spec fn ledger(&self) -> Ledger;

    /// The limits under which assets are minted and transferred.
    spec fn limits(&self) -> Config;

    /// The value is consistent. Every operation keeps it so.
    spec fn wf(&self) -> bool;

    /// The number of assets that exist (minted - burned).
    fn total(&self) -> (n: u128)
        requires
            self.wf(),
        ensures
            n == self.ledger().total(),
    ;

    /// The number of assets that have been burned. It starts again at zero
    /// after `u128::MAX`.
    fn burned(&self) -> (n: u128)
        requires
            self.wf(),
        ensures
            n == self.ledger().burned,
    ;

    /// The number of assets that `account` owns.
    fn total_for_account(&self, account: &AccountId) -> (n: u64)
        requires
            self.wf(),
        ensures
            n == self.ledger().count(*account),
    ;

    /// The assets that `account` owns, in ascending order of identifier.
    fn assets_for_account(&self, account: &AccountId) -> (assets: Vec<AssetId>)
        requires
            self.wf(),
        ensures
            enumerates(assets@, self.ledger().holding(*account)),
            assets@.len() == self.ledger().count(*account),
    ;

    /// The account that owns `asset_id`, or `None` if no such asset exists.
    fn owner_of(&self, asset_id: &AssetId) -> (owner: Option<AccountId>)
        requires
            self.wf(),
        ensures
            owner == self.ledger().owner_of(*asset_id),
    ;

    /// Creates the asset that `asset_info` defines and gives it to
    /// `owner_account`. Returns its identifier.
    ///
    /// Refused, with nothing changed, if the asset exists already, if the
    /// owner has reached the limit for one account, or if the limit for all
    /// assets is reached.
    fn mint(&mut self, owner_account: &AccountId, asset_info: Vec<u8>) -> (r: Result<
        AssetId,
        Error,
    >)
        requires
            old(self).wf(),
            asset_info@.len() <= u32::MAX,
        ensures
            final(self).wf(),
            final(self).limits() == old(self).limits(),
            match old(self).ledger().mint(
                old(self).limits(),
                *owner_account,
                derived_id(asset_info@),
            ) {
                Ok(next) => r == Ok::<AssetId, Error>(derived_id(asset_info@)) && final(self).ledger() == next,
                Err(e) => r == Err::<AssetId, Error>(e) && *final(self) == *old(self),
            },
    ;

    /// Destroys the asset `asset_id`.
    ///
    /// Refused, with nothing changed, if no such asset exists.
    fn burn(&mut self, asset_id: &AssetId) -> (r: Result<(), Error>)
        requires
            old(self).wf(),
        ensures
            final(self).wf(),
            final(self).limits() == old(self).limits(),
            match old(self).ledger().burn(*asset_id) {
                Ok(next) => r == Ok::<(), Error>(()) && final(self).ledger() == next,
                Err(e) => r == Err::<(), Error>(e) && *final(self) == *old(self),
            },
    ;

    /// Makes `dest_account` the owner of the asset `asset_id`.
    ///
    /// Refused, with nothing changed, if no such asset exists, or if the
    /// destination has reached the limit for one account.
    fn transfer(&mut self, dest_account: &AccountId, asset_id: &AssetId) -> (r: Result<(), Error>)
        requires
            old(self).wf(),
        ensures
            final(self).wf(),
            final(self).limits() == old(self).limits(),
            match old(self).ledger().transfer(old(self).limits(), *dest_account, *asset_id) {
                Ok(next) => r == Ok::<(), Error>(()) && final(self).ledger() == next,
                Err(e) => r == Err::<(), Error>(e) && *final(self) == *old(self),
            },
    ;
}

} // verus!
