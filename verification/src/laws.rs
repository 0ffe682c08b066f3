//! What holds of every ledger, and of every run of the operations.

use crate::asset_id::AssetId;
use crate::config::{AccountId, Config};
use crate::ledger::{Error, Ledger};
use crate::ordered::{enumerates, lemma_ascending_distinct, lemma_enumeration_unique};
use crate::owner_index::{ascending_ids, distinct_ids, recorded};
use vstd::prelude::*;

verus! {

/// The order of the identifiers is a strict total order: no identifier
/// precedes itself, the order is transitive, and of two different
/// identifiers one precedes the other.
pub proof fn identifiers_are_totally_ordered(a: AssetId, b: AssetId, c: AssetId)
    ensures
        !a.precedes(a),
        a.precedes(b) && b.precedes(c) ==> a.precedes(c),
        a.precedes(b) ==> !b.precedes(a),
        a != b ==> a.precedes(b) || b.precedes(a),
{
    a.lemma_irreflexive();
    a.lemma_total(b);
    if a.precedes(b) {
        a.lemma_asymmetric(b);
        if b.precedes(c) {
            a.lemma_transitive(b, c);
        }
    }
}

/// The counts of the accounts in `accounts`, added up.
pub open spec fn sum_of_counts(ledger: Ledger, accounts: Set<AccountId>) -> nat
    decreases accounts.len(),
{
    if accounts.finite() && accounts.len() > 0 {
        let account = accounts.choose();
        ledger.count(account) + sum_of_counts(ledger, accounts.remove(account))
    } else {
        0
    }
}

/// The commodities whose owner is one of `accounts`.
pub open spec fn owned_among(ledger: Ledger, accounts: Set<AccountId>) -> Set<AssetId> {
    Set::new(|id: AssetId| ledger.owners.contains_key(id) && accounts.contains(ledger.owners[id]))
}

/// The counts of finitely many accounts add up to the number of
/// commodities that they own together.
pub proof fn lemma_sum_of_counts(ledger: Ledger, accounts: Set<AccountId>)
    requires
        ledger.finite(),
        accounts.finite(),
    ensures
        owned_among(ledger, accounts).finite(),
        sum_of_counts(ledger, accounts) == owned_among(ledger, accounts).len(),
    decreases accounts.len(),
{
    let all = owned_among(ledger, accounts);
    vstd::set_lib::lemma_len_subset(all, ledger.owners.dom());
    if accounts.len() == 0 {
        assert(all =~= Set::<AssetId>::empty());
    } else {
        let account = accounts.choose();
        let others = owned_among(ledger, accounts.remove(account));
        let own = ledger.holding(account);
        lemma_sum_of_counts(ledger, accounts.remove(account));
        ledger.lemma_holding_bounded(account);
        assert(all =~= others + own);
        assert(others.disjoint(own));
        vstd::set_lib::lemma_set_disjoint_lens(others, own);
    }
}

/// The number of existing commodities is the sum, over the accounts that own
/// any, of the number that each owns.
pub proof fn total_is_sum_of_counts(ledger: Ledger)
    requires
        ledger.finite(),
    ensures
        ledger.holders().finite(),
        ledger.total() == sum_of_counts(ledger, ledger.holders()),
{
    vstd::map_lib::lemma_values_finite(ledger.owners);
    lemma_sum_of_counts(ledger, ledger.holders());
    assert(owned_among(ledger, ledger.holders()) =~= ledger.owners.dom());
}

/// An ascending list of what an account owns is as long as the account's
/// count says, and there is only one such list.
pub proof fn count_is_length_of_enumeration(
    ledger: Ledger,
    account: AccountId,
    assets: Seq<AssetId>,
    again: Seq<AssetId>,
)
    requires
        enumerates(assets, ledger.holding(account)),
        enumerates(again, ledger.holding(account)),
    ensures
        assets.len() == ledger.count(account),
        assets == again,
{
    lemma_ascending_distinct(assets);
    lemma_enumeration_unique(assets, again);
}

/// A commodity that was minted exists, and its owner is the account that it
/// was minted for. What other commodities exist, and who owns them, is as
/// before.
pub proof fn minted_commodity_is_owned(
    ledger: Ledger,
    config: Config,
    owner: AccountId,
    id: AssetId,
)
    requires
        ledger.finite(),
        ledger.mint(config, owner, id) is Ok,
    ensures
        ledger.mint(config, owner, id)->Ok_0.owner_of(id) == Some(owner),
        ledger.mint(config, owner, id)->Ok_0.finite(),
        ledger.mint(config, owner, id)->Ok_0.total() == ledger.total() + 1,
        ledger.mint(config, owner, id)->Ok_0.count(owner) == ledger.count(owner) + 1,
        ledger.mint(config, owner, id)->Ok_0.burned == ledger.burned,
        forall|other: AssetId|
            other != id ==> ledger.mint(config, owner, id)->Ok_0.owner_of(other) == ledger.owner_of(
                other,
            ),
{
    let next = ledger.mint(config, owner, id)->Ok_0;
    ledger.lemma_holding_bounded(owner);
    assert(next.holding(owner) =~= ledger.holding(owner).insert(id));
}

/// Minting a commodity that was minted before, and not burned since, is
/// refused because it exists, whoever it is minted for.
pub proof fn second_mint_is_refused(
    ledger: Ledger,
    config: Config,
    first: AccountId,
    second: AccountId,
    id: AssetId,
)
    requires
        ledger.mint(config, first, id) is Ok,
    ensures
        ledger.mint(config, first, id)->Ok_0.mint(config, second, id) == Err::<Ledger, Error>(
            Error::CommodityExists,
        ),
{
}

/// A commodity that was burned no longer exists; the count of burned
/// commodities went up by one, and the total and the owner's count went down
/// by one.
pub proof fn burned_commodity_is_gone(ledger: Ledger, id: AssetId)
    requires
        ledger.finite(),
        ledger.burn(id) is Ok,
    ensures
        ledger.burn(id)->Ok_0.owner_of(id) == None::<AccountId>,
        ledger.burn(id)->Ok_0.finite(),
        ledger.burn(id)->Ok_0.total() == ledger.total() - 1,
        ledger.burn(id)->Ok_0.count(ledger.owners[id]) == ledger.count(ledger.owners[id]) - 1,
        ledger.burned < u128::MAX ==> ledger.burn(id)->Ok_0.burned == ledger.burned + 1,
        forall|other: AssetId|
            other != id ==> ledger.burn(id)->Ok_0.owner_of(other) == ledger.owner_of(other),
{
    let next = ledger.burn(id)->Ok_0;
    let owner = ledger.owners[id];
    ledger.lemma_holding_bounded(owner);
    assert(next.holding(owner) =~= ledger.holding(owner).remove(id));
}

/// A transfer changes the owner of one commodity and nothing else: the total
/// and the count of burned commodities stay, the count of the former owner
/// goes down by one and that of the new owner up by one, unless they are the
/// same account.
pub proof fn transferred_commodity_moves(
    ledger: Ledger,
    config: Config,
    dest: AccountId,
    id: AssetId,
)
    requires
        ledger.finite(),
        ledger.transfer(config, dest, id) is Ok,
    ensures
        ledger.transfer(config, dest, id)->Ok_0.owner_of(id) == Some(dest),
        ledger.transfer(config, dest, id)->Ok_0.finite(),
        ledger.transfer(config, dest, id)->Ok_0.total() == ledger.total(),
        ledger.transfer(config, dest, id)->Ok_0.burned == ledger.burned,
        dest == ledger.owners[id] ==> ledger.transfer(config, dest, id)->Ok_0 == ledger,
        dest != ledger.owners[id] ==> {
            &&& ledger.transfer(config, dest, id)->Ok_0.count(dest) == ledger.count(dest) + 1
            &&& ledger.transfer(config, dest, id)->Ok_0.count(ledger.owners[id]) == ledger.count(
                ledger.owners[id],
            ) - 1
        },
        forall|other: AccountId|
            other != dest && other != ledger.owners[id] ==> ledger.transfer(
                config,
                dest,
                id,
            )->Ok_0.holding(other) == ledger.holding(other),
{
    let next = ledger.transfer(config, dest, id)->Ok_0;
    let owner = ledger.owners[id];
    ledger.lemma_holding_bounded(owner);
    ledger.lemma_holding_bounded(dest);
    assert(next.owners.dom() =~= ledger.owners.dom());
    if dest == owner {
        assert(next.owners =~= ledger.owners);
    } else {
        assert(next.holding(dest) =~= ledger.holding(dest).insert(id));
        assert(next.holding(owner) =~= ledger.holding(owner).remove(id));
    }
    assert forall|other: AccountId| other != dest && other != owner implies next.holding(other)
        == ledger.holding(other) by {
        assert(next.holding(other) =~= ledger.holding(other));
    }
}

/// Transferring a commodity from its owner to another account and back
/// restores the ledger: both accounts own what they owned, in the same
/// ascending order, and their counts are what they were. The total and the
/// count of burned commodities stay the same throughout.
pub proof fn transfer_there_and_back(
    ledger: Ledger,
    config: Config,
    owner: AccountId,
    other: AccountId,
    id: AssetId,
    before: Seq<AssetId>,
    after: Seq<AssetId>,
)
    requires
        ledger.finite(),
        ledger.owner_of(id) == Some(owner),
        ledger.transfer(config, other, id) is Ok,
        ledger.transfer(config, other, id)->Ok_0.transfer(config, owner, id) is Ok,
        enumerates(before, ledger.holding(owner)),
        enumerates(
            after,
            ledger.transfer(config, other, id)->Ok_0.transfer(config, owner, id)->Ok_0.holding(
                owner,
            ),
        ),
    ensures
        ledger.transfer(config, other, id)->Ok_0.transfer(config, owner, id)->Ok_0 == ledger,
        after == before,
        ledger.transfer(config, other, id)->Ok_0.total() == ledger.total(),
        ledger.transfer(config, other, id)->Ok_0.burned == ledger.burned,
{
    let there = ledger.transfer(config, other, id)->Ok_0;
    let back = there.transfer(config, owner, id)->Ok_0;
    assert(back.owners =~= ledger.owners);
    assert(there.owners.dom() =~= ledger.owners.dom());
    lemma_enumeration_unique(before, after);
}

/// A list of the owners in ascending order of identifier, as a pallet hands
/// it out to be stored, holds no identifier twice: a pallet can be restored
/// from it, and stands for the same ledger again.
pub proof fn stored_owners_restore_the_ledger(
    ledger: Ledger,
    entries: Seq<(AssetId, AccountId)>,
)
    requires
        ascending_ids(entries),
        recorded(entries) == ledger.owners,
    ensures
        distinct_ids(entries),
        (Ledger { owners: recorded(entries), burned: ledger.burned }) == ledger,
{
    assert forall|i: int, j: int| 0 <= i < j < entries.len() implies (#[trigger] entries[i]).0 != (
    #[trigger] entries[j]).0 by {
        assert(entries[i].0.precedes(entries[j].0));
        entries[i].0.lemma_irreflexive();
    }
}

/// The limits hold of `ledger`: no more commodities exist than may, and no
/// account owns more than it may.
pub open spec fn within_limits(ledger: Ledger, config: Config) -> bool {
    &&& ledger.total() <= config.commodity_limit
    &&& forall|account: AccountId| #[trigger] ledger.count(account) <= config.user_commodity_limit
}

/// The empty ledger holds nothing: no commodity exists, no account owns
/// any, and so the limits hold of it, whatever they are.
pub proof fn empty_ledger_holds_nothing(config: Config)
    ensures
        Ledger::empty().finite(),
        Ledger::empty().total() == 0,
        forall|account: AccountId| #[trigger] Ledger::empty().count(account) == 0,
        within_limits(Ledger::empty(), config),
{
    assert forall|account: AccountId| #[trigger] Ledger::empty().count(account) == 0 by {
        assert(Ledger::empty().holding(account) =~= Set::<AssetId>::empty());
    }
}

/// No operation that succeeds breaks the limits.
pub proof fn limits_are_kept(ledger: Ledger, config: Config, account: AccountId, id: AssetId)
    requires
        ledger.finite(),
        within_limits(ledger, config),
    ensures
        ledger.mint(config, account, id) is Ok ==> within_limits(
            ledger.mint(config, account, id)->Ok_0,
            config,
        ),
        ledger.burn(id) is Ok ==> within_limits(ledger.burn(id)->Ok_0, config),
        ledger.transfer(config, account, id) is Ok ==> within_limits(
            ledger.transfer(config, account, id)->Ok_0,
            config,
        ),
{
    if ledger.mint(config, account, id) is Ok {
        let next = ledger.mint(config, account, id)->Ok_0;
        minted_commodity_is_owned(ledger, config, account, id);
        assert forall|any: AccountId| #[trigger] next.count(any) <= config.user_commodity_limit by {
            if any != account {
                assert(next.holding(any) =~= ledger.holding(any));
            }
            assert(ledger.count(any) <= config.user_commodity_limit);
        }
    }
    if ledger.burn(id) is Ok {
        let next = ledger.burn(id)->Ok_0;
        burned_commodity_is_gone(ledger, id);
        assert forall|any: AccountId| #[trigger] next.count(any) <= config.user_commodity_limit by {
            if any != ledger.owners[id] {
                assert(next.holding(any) =~= ledger.holding(any));
            }
            assert(ledger.count(any) <= config.user_commodity_limit);
        }
    }
    if ledger.transfer(config, account, id) is Ok {
        let next = ledger.transfer(config, account, id)->Ok_0;
        transferred_commodity_moves(ledger, config, account, id);
        assert forall|any: AccountId| #[trigger] next.count(any) <= config.user_commodity_limit by {
            assert(ledger.count(any) <= config.user_commodity_limit);
        }
    }
}

/// One operation on the ledger.
pub enum Operation {
    Mint(AccountId, AssetId),
    Burn(AssetId),
    Transfer(AccountId, AssetId),
}

/// The ledger after `operation`. An operation that is refused leaves the
/// ledger as it was.
pub open spec fn after(ledger: Ledger, config: Config, operation: Operation) -> Ledger {
    let outcome = match operation {
        Operation::Mint(owner, id) => ledger.mint(config, owner, id),
        Operation::Burn(id) => ledger.burn(id),
        Operation::Transfer(dest, id) => ledger.transfer(config, dest, id),
    };
    match outcome {
        Ok(next) => next,
        Err(_) => ledger,
    }
}

/// The ledger that a run of operations leaves, starting with nothing minted
/// or burned.
pub open spec fn after_all(config: Config, operations: Seq<Operation>) -> Ledger
    decreases operations.len(),
{
    if operations.len() == 0 {
        Ledger::empty()
    } else {
        after(after_all(config, operations.drop_last()), config, operations.last())
    }
}

/// Whatever operations are run from the start, in whatever order, finitely
/// many commodities exist afterwards, and the limits hold of them.
pub proof fn every_run_keeps_the_limits(config: Config, operations: Seq<Operation>)
    ensures
        after_all(config, operations).finite(),
        within_limits(after_all(config, operations), config),
    decreases operations.len(),
{
    if operations.len() == 0 {
        empty_ledger_holds_nothing(config);
    } else {
        let before = after_all(config, operations.drop_last());
        every_run_keeps_the_limits(config, operations.drop_last());
        match operations.last() {
            Operation::Mint(owner, id) => {
                limits_are_kept(before, config, owner, id);
                if before.mint(config, owner, id) is Ok {
                    minted_commodity_is_owned(before, config, owner, id);
                }
            },
            Operation::Burn(id) => {
                limits_are_kept(before, config, 0, id);
                if before.burn(id) is Ok {
                    burned_commodity_is_gone(before, id);
                }
            },
            Operation::Transfer(dest, id) => {
                limits_are_kept(before, config, dest, id);
                if before.transfer(config, dest, id) is Ok {
                    transferred_commodity_moves(before, config, dest, id);
                }
            },
        }
    }
}

} // verus!
