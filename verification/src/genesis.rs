//! The commodities that exist from the start.

use crate::asset_id::{derive_id, derived_id};
use crate::config::{AccountId, Config};
use crate::ledger::{Error, Ledger};
use crate::nft::UniqueAssets;
use crate::pallet::Pallet;
use vstd::prelude::*;

verus! {

/// The initial distribution: for each account, the information of the
/// commodities that are minted for it before any call is served.
pub struct GenesisConfig {
    pub balances: Vec<(AccountId, Vec<Vec<u8>>)>,
}

/// Minting the commodities that `assets` define for `who`, one after the
/// other. The first refusal ends the run.
pub open spec fn minting_each(
    ledger: Ledger,
    config: Config,
    who: AccountId,
    assets: Seq<Vec<u8>>,
) -> Result<Ledger, Error>
    decreases assets.len(),
{
    if assets.len() == 0 {
        Ok(ledger)
    } else {
        match ledger.mint(config, who, derived_id(assets[0]@)) {
            Ok(next) => minting_each(next, config, who, assets.skip(1)),
            Err(e) => Err(e),
        }
    }
}

/// Minting for each account of `balances` in turn what it is to own. The
/// first refusal ends the run.
pub open spec fn preloading(
    ledger: Ledger,
    config: Config,
    balances: Seq<(AccountId, Vec<Vec<u8>>)>,
) -> Result<Ledger, Error>
    decreases balances.len(),
{
    if balances.len() == 0 {
        Ok(ledger)
    } else {
        match minting_each(ledger, config, balances[0].0, balances[0].1@) {
            Ok(next) => preloading(next, config, balances.skip(1)),
            Err(e) => Err(e),
        }
    }
}

impl GenesisConfig {
    /// No piece of information is longer than the encoder accepts.
    pub open spec fn encodable(&self) -> bool {
        forall|i: int, j: int|
            0 <= i < self.balances@.len() && 0 <= j < self.balances@[i].1@.len() ==> (
            #[trigger] self.balances@[i].1@[j])@.len() <= u32::MAX
    }

    /// Builds the pallet that holds the initial distribution, by minting
    /// every commodity in the order given. The first mint that is refused
    /// ends the build with its error.
    pub fn build(&self, config: Config) -> (r: Result<Pallet, Error>)
        requires
            self.encodable(),
        ensures
            match preloading(Ledger::empty(), config, self.balances@) {
                Ok(ledger) => r is Ok && r->Ok_0.wf() && r->Ok_0.limits() == config && r->Ok_0@
                    == ledger,
                Err(e) => r is Err && r->Err_0 == e,
            },
    {
        let mut pallet = Pallet::new(config);
        let mut i: usize = 0;
        proof {
            assert(self.balances@.skip(0) =~= self.balances@);
        }
        while i < self.balances.len()
            invariant
                i <= self.balances.len(),
                self.encodable(),
                pallet.wf(),
                pallet.limits() == config,
                preloading(Ledger::empty(), config, self.balances@) == preloading(
                    pallet@,
                    config,
                    self.balances@.skip(i as int),
                ),
            decreases self.balances.len() - i,
        {
            let who = self.balances[i].0;
            let assets = &self.balances[i].1;
            let ghost rest = self.balances@.skip(i as int);
            let ghost start = pallet@;
            proof {
                assert(rest[0] == self.balances@[i as int]);
                assert(rest.skip(1) =~= self.balances@.skip(i + 1));
                assert(assets@.skip(0) =~= assets@);
            }
            let mut j: usize = 0;
            while j < assets.len()
                invariant
                    j <= assets.len(),
                    i < self.balances.len(),
                    self.encodable(),
                    *assets == self.balances@[i as int].1,
                    pallet.wf(),
                    pallet.limits() == config,
                    rest.len() > 0,
                    rest[0] == self.balances@[i as int],
                    who == rest[0].0,
                    preloading(Ledger::empty(), config, self.balances@) == preloading(
                        start,
                        config,
                        rest,
                    ),
                    minting_each(start, config, who, assets@) == minting_each(
                        pallet@,
                        config,
                        who,
                        assets@.skip(j as int),
                    ),
                decreases assets.len() - j,
            {
                proof {
                    assert(assets@.skip(j as int)[0] == assets@[j as int]);
                    assert(assets@.skip(j as int).skip(1) =~= assets@.skip(j + 1));
                    assert(self.balances@[i as int].1@[j as int]@.len() <= u32::MAX);
                }
                let id = derive_id(&assets[j]);
                match pallet.mint_id(&who, id) {
                    Ok(_) => {},
                    Err(e) => {
                        return Err(e);
                    },
                }
                j += 1;
            }
            i += 1;
        }
        Ok(pallet)
    }
}

impl Default for GenesisConfig {
    /// The distribution in which nobody owns anything.
    fn default() -> (genesis: GenesisConfig)
        ensures
            genesis.balances@.len() == 0,
    {
        GenesisConfig { balances: Vec::new() }
    }
}

} // verus!
