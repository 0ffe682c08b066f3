//! Calls as they arrive from outside: who may make which call, and what is
//! announced when it succeeds.

use crate::asset_id::AssetId;
use crate::config::{AccountId, Config, Origin};
use crate::ledger::{Error, Ledger};
use vstd::prelude::*;

verus! {

/// Why a call was refused.
#[derive(Clone, Copy, Debug, PartialEq, Eq, Structural)]
pub enum DispatchError {
    /// The call came from an origin that may not make it.
    BadOrigin,
    /// The pallet refused the operation.
    Module(Error),
}

/// What a successful call announces.
#[derive(Clone, Copy, Debug, PartialEq, Eq)]
pub enum Event {
    /// The commodity has been burned.
    Burned(AssetId),
    /// The commodity has been minted and distributed to the account.
    Minted(AssetId, AccountId),
    /// Ownership of the commodity has been transferred to the account.
    Transferred(AssetId, AccountId),
}

/// The account that signed, where the origin is a signed one.
pub open spec fn signer(origin: Origin) -> Result<AccountId, DispatchError> {
    match origin {
        Origin::Signed(who) => Ok(who),
        _ => Err(DispatchError::BadOrigin),
    }
}

/// Requires a signed origin and gives the account that signed.
pub fn ensure_signed(origin: Origin) -> (r: Result<AccountId, DispatchError>)
    ensures
        r == signer(origin),
{
    match origin {
        Origin::Signed(who) => Ok(who),
        _ => Err(DispatchError::BadOrigin),
    }
}

/// A call to mint `id` for `owner`. Only the commodity admin may make it. It
/// announces `Minted`.
pub open spec fn minting(
    ledger: Ledger,
    config: Config,
    origin: Origin,
    owner: AccountId,
    id: AssetId,
) -> Result<(Ledger, Event), DispatchError> {
    if origin != config.commodity_admin {
        Err(DispatchError::BadOrigin)
    } else {
        match ledger.mint(config, owner, id) {
            Ok(next) => Ok((next, Event::Minted(id, owner))),
            Err(e) => Err(DispatchError::Module(e)),
        }
    }
}

/// A call to burn `id`. Only the account that owns `id` may make it; a
/// commodity that does not exist has no owner. It announces `Burned`.
pub open spec fn burning(ledger: Ledger, origin: Origin, id: AssetId) -> Result<
    (Ledger, Event),
    DispatchError,
> {
    match signer(origin) {
        Err(e) => Err(e),
        Ok(who) => if ledger.owner_of(id) != Some(who) {
            Err(DispatchError::Module(Error::NotCommodityOwner))
        } else {
            match ledger.burn(id) {
                Ok(next) => Ok((next, Event::Burned(id))),
                Err(e) => Err(DispatchError::Module(e)),
            }
        },
    }
}

/// A call to transfer `id` to `dest`. Only the account that owns `id` may
/// make it; a commodity that does not exist has no owner. It announces
/// `Transferred`.
pub open spec fn transferring(
    ledger: Ledger,
    config: Config,
    origin: Origin,
    dest: AccountId,
    id: AssetId,
) -> Result<(Ledger, Event), DispatchError> {
    match signer(origin) {
        Err(e) => Err(e),
        Ok(who) => if ledger.owner_of(id) != Some(who) {
            Err(DispatchError::Module(Error::NotCommodityOwner))
        } else {
            match ledger.transfer(config, dest, id) {
                Ok(next) => Ok((next, Event::Transferred(id, dest))),
                Err(e) => Err(DispatchError::Module(e)),
            }
        },
    }
}

} // verus!
