//! # Commodities: a verified ledger of unique assets
//!
//! Unique assets, also known as non-fungible tokens, are minted for an
//! account, transferred between accounts and burned. The ledger limits how
//! many assets may exist and how many any one account may own. An asset is
//! identified by the BLAKE2b-256 digest of the information that defines it.
//!
//! - [`ledger`] says what the ledger is as a mathematical value, and what
//!   each operation does to it.
//! - [`nft`] is the interface over a set of unique assets, stated over that
//!   value.
//! - [`pallet`] is the executable ledger. It keeps four records that always
//!   agree: the totals, the count of each account, the ascending list of
//!   each account, and the owner of each asset.
//! - [`dispatch`] and [`config`] say which origin may make which call.
//! - [`genesis`] builds the ledger that exists from the start.
//! - [`laws`] proves what holds of every ledger and of every run of
//!   operations.
//! - [`asset_id`], [`ordered`], [`owner_index`] and [`holdings`] are the
//!   parts that the records are made of.

pub mod asset_id;
pub mod config;
pub mod dispatch;
pub mod genesis;
pub mod holdings;
pub mod laws;
pub mod ledger;
pub mod nft;
pub mod ordered;
pub mod owner_index;
pub mod pallet;

pub use crate::asset_id::{derive_id, AssetId, Order};
pub use crate::config::{AccountId, Config, Origin};
pub use crate::dispatch::{ensure_signed, DispatchError, Event};
pub use crate::genesis::GenesisConfig;
pub use crate::ledger::{Error, Ledger};
pub use crate::nft::UniqueAssets;
pub use crate::pallet::Pallet;
