//! The map from each existing commodity to the account that owns it, kept as
//! two parallel vectors sorted by identifier.

use crate::asset_id::AssetId;
use crate::config::AccountId;
use crate::ordered::{ascending, lemma_ascending_distinct, lemma_insert_keeps_order, lemma_remove_keeps_order, search};
use vstd::prelude::*;

verus! {

/// The map that the parallel sequences stand for: `ids[i]` is owned by
/// `owners[i]`.
pub open spec fn table(ids: Seq<AssetId>, owners: Seq<AccountId>) -> Map<AssetId, AccountId> {
    Map::new(|id: AssetId| ids.contains(id), |id: AssetId| owners[ids.index_of(id)])
}

/// In an ascending table each row is found under its own identifier.
pub proof fn lemma_table_row(ids: Seq<AssetId>, owners: Seq<AccountId>, i: int)
    requires
        ascending(ids),
        ids.len() == owners.len(),
        0 <= i < ids.len(),
    ensures
        table(ids, owners).contains_key(ids[i]),
        table(ids, owners)[ids[i]] == owners[i],
{
    lemma_ascending_distinct(ids);
    assert(ids.contains(ids[i]));
    let j = ids.index_of(ids[i]);
    assert(0 <= j < ids.len() && ids[j] == ids[i]);
}

/// The table has one key for each row.
pub proof fn lemma_table_size(ids: Seq<AssetId>, owners: Seq<AccountId>)
    requires
        ascending(ids),
    ensures
        table(ids, owners).dom() == ids.to_set(),
        table(ids, owners).dom().finite(),
        table(ids, owners).dom().len() == ids.len(),
{
    lemma_ascending_distinct(ids);
    assert(table(ids, owners).dom() =~= ids.to_set());
}

/// A new row at the sorted position adds one entry to the map.
pub proof fn lemma_table_insert(
    ids: Seq<AssetId>,
    owners: Seq<AccountId>,
    at: int,
    id: AssetId,
    owner: AccountId,
)
    requires
        ascending(ids),
        ids.len() == owners.len(),
        0 <= at <= ids.len(),
        forall|j: int| 0 <= j < at ==> (#[trigger] ids[j]).precedes(id),
        forall|j: int| at <= j < ids.len() ==> id.precedes(#[trigger] ids[j]),
    ensures
        ascending(ids.insert(at, id)),
        table(ids.insert(at, id), owners.insert(at, owner)) == table(ids, owners).insert(id, owner),
{
    let ids2 = ids.insert(at, id);
    let owners2 = owners.insert(at, owner);
    let before = table(ids, owners);
    let after = table(ids2, owners2);
    lemma_insert_keeps_order(ids, at, id);
    assert forall|k: AssetId| after.contains_key(k) <==> before.insert(id, owner).contains_key(
        k,
    ) by {
        assert(ids2.to_set().contains(k) <==> ids.to_set().insert(id).contains(k));
    }
    assert forall|k: AssetId| after.contains_key(k) implies after[k] == before.insert(id, owner)[k] by {
        let j = choose|j: int| 0 <= j < ids2.len() && ids2[j] == k;
        lemma_table_row(ids2, owners2, j);
        if j < at {
            lemma_table_row(ids, owners, j);
        } else if j > at {
            lemma_table_row(ids, owners, j - 1);
        }
        if k == id && j != at {
            id.lemma_irreflexive();
            if j < at {
                assert(ids[j].precedes(id));
            } else {
                assert(id.precedes(ids[j - 1]));
            }
        }
    }
    assert(after =~= before.insert(id, owner));
}

/// A new owner in row `i` changes the entry of that row's identifier.
pub proof fn lemma_table_update(ids: Seq<AssetId>, owners: Seq<AccountId>, i: int, owner: AccountId)
    requires
        ascending(ids),
        ids.len() == owners.len(),
        0 <= i < ids.len(),
    ensures
        table(ids, owners.update(i, owner)) == table(ids, owners).insert(ids[i], owner),
{
    let owners2 = owners.update(i, owner);
    let before = table(ids, owners);
    let after = table(ids, owners2);
    lemma_table_row(ids, owners, i);
    assert forall|k: AssetId| after.contains_key(k) implies after[k] == before.insert(
        ids[i],
        owner,
    )[k] by {
        let j = choose|j: int| 0 <= j < ids.len() && ids[j] == k;
        lemma_table_row(ids, owners2, j);
        lemma_table_row(ids, owners, j);
        lemma_table_row(ids, owners2, i);
    }
    assert(after =~= before.insert(ids[i], owner));
}

/// Taking out row `i` takes the entry of that row's identifier out of the map.
pub proof fn lemma_table_remove(ids: Seq<AssetId>, owners: Seq<AccountId>, i: int)
    requires
        ascending(ids),
        ids.len() == owners.len(),
        0 <= i < ids.len(),
    ensures
        ascending(ids.remove(i)),
        table(ids.remove(i), owners.remove(i)) == table(ids, owners).remove(ids[i]),
{
    let ids2 = ids.remove(i);
    let owners2 = owners.remove(i);
    let before = table(ids, owners);
    let after = table(ids2, owners2);
    lemma_remove_keeps_order(ids, i);
    assert forall|k: AssetId| after.contains_key(k) <==> before.remove(ids[i]).contains_key(k) by {
        assert(ids2.to_set().contains(k) <==> ids.to_set().remove(ids[i]).contains(k));
    }
    assert forall|k: AssetId| after.contains_key(k) implies after[k] == before.remove(ids[i])[k] by {
        let j = choose|j: int| 0 <= j < ids2.len() && ids2[j] == k;
        lemma_table_row(ids2, owners2, j);
        if j < i {
            lemma_table_row(ids, owners, j);
        } else {
            lemma_table_row(ids, owners, j + 1);
        }
    }
    assert(after =~= before.remove(ids[i]));
}

/// The map that a list of entries stands for, each entry an identifier with
/// its owner. Where an identifier comes twice, its last entry counts.
pub open spec fn recorded(entries: Seq<(AssetId, AccountId)>) -> Map<AssetId, AccountId>
    decreases entries.len(),
{
    if entries.len() == 0 {
        Map::empty()
    } else {
        recorded(entries.drop_last()).insert(entries.last().0, entries.last().1)
    }
}

/// No identifier comes twice in `entries`.
pub open spec fn distinct_ids(entries: Seq<(AssetId, AccountId)>) -> bool {
    forall|i: int, j: int| 0 <= i < j < entries.len() ==> (#[trigger] entries[i]).0 != (
    #[trigger] entries[j]).0
}

/// The entries are sorted by identifier, so that no identifier comes twice.
pub open spec fn ascending_ids(entries: Seq<(AssetId, AccountId)>) -> bool {
    forall|i: int, j: int| 0 <= i < j < entries.len() ==> (#[trigger] entries[i]).0.precedes(
        (#[trigger] entries[j]).0,
    )
}

/// The keys of the recorded map are the identifiers of the entries.
pub proof fn lemma_recorded_keys(entries: Seq<(AssetId, AccountId)>)
    ensures
        recorded(entries).dom().finite(),
        forall|id: AssetId|
            recorded(entries).contains_key(id) <==> exists|k: int|
                0 <= k < entries.len() && (#[trigger] entries[k]).0 == id,
    decreases entries.len(),
{
    if entries.len() > 0 {
        let front = entries.drop_last();
        lemma_recorded_keys(front);
        assert forall|id: AssetId|
            recorded(entries).contains_key(id) <==> exists|k: int|
                0 <= k < entries.len() && (#[trigger] entries[k]).0 == id by {
            if recorded(front).contains_key(id) {
                let k = choose|k: int| 0 <= k < front.len() && (#[trigger] front[k]).0 == id;
                assert(entries[k].0 == id);
            }
            if exists|k: int| 0 <= k < entries.len() && (#[trigger] entries[k]).0 == id {
                let k = choose|k: int| 0 <= k < entries.len() && (#[trigger] entries[k]).0 == id;
                if k < front.len() {
                    assert(front[k].0 == id);
                }
            }
        }
    }
}

/// The map from each existing commodity to the account that owns it.
pub struct OwnerIndex {
    ids: Vec<AssetId>,
    owners: Vec<AccountId>,
}

impl View for OwnerIndex {
    type V = Map<AssetId, AccountId>;

    closed spec fn view(&self) -> Map<AssetId, AccountId> {
        table(self.ids@, self.owners@)
    }
}

impl OwnerIndex {
    /// The rows are sorted by identifier, one owner for each.
    pub closed spec fn wf(&self) -> bool {
        ascending(self.ids@) && self.ids@.len() == self.owners@.len()
    }

    /// The index holds finitely many entries.
    pub proof fn lemma_finite(&self)
        requires
            self.wf(),
        ensures
            self@.dom().finite(),
    {
        lemma_table_size(self.ids@, self.owners@);
    }

    /// The empty index.
    pub fn new() -> (index: OwnerIndex)
        ensures
            index.wf(),
            index@ == Map::<AssetId, AccountId>::empty(),
    {
        let index = OwnerIndex { ids: Vec::new(), owners: Vec::new() };
        proof {
            assert(index@ =~= Map::<AssetId, AccountId>::empty());
        }
        index
    }

    /// The number of commodities that have an owner.
    pub fn len(&self) -> (n: usize)
        requires
            self.wf(),
        ensures
            self@.dom().finite(),
            n == self@.dom().len(),
    {
        proof {
            lemma_table_size(self.ids@, self.owners@);
        }
        self.ids.len()
    }

    /// The owner of `id`, if it has one.
    pub fn get(&self, id: &AssetId) -> (owner: Option<AccountId>)
        requires
            self.wf(),
        ensures
            owner == (if self@.contains_key(*id) {
                Some(self@[*id])
            } else {
                None
            }),
    {
        match search(&self.ids, id) {
            Ok(i) => {
                proof {
                    lemma_table_row(self.ids@, self.owners@, i as int);
                }
                Some(self.owners[i])
            },
            Err(_at) => None,
        }
    }

    /// Every identifier with its owner, in ascending order of identifier.
    pub fn entries(&self) -> (entries: Vec<(AssetId, AccountId)>)
        requires
            self.wf(),
        ensures
            ascending_ids(entries@),
            recorded(entries@) == self@,
    {
        let mut entries: Vec<(AssetId, AccountId)> = Vec::new();
        let mut i: usize = 0;
        proof {
            assert(self.ids@.take(0) =~= Seq::<AssetId>::empty());
            assert(table(self.ids@.take(0), self.owners@.take(0)) =~= Map::<
                AssetId,
                AccountId,
            >::empty());
        }
        while i < self.ids.len()
            invariant
                self.wf(),
                i <= self.ids.len(),
                entries@.len() == i,
                forall|k: int| 0 <= k < i ==> #[trigger] entries@[k] == (self.ids@[k], self.owners@[k]),
                recorded(entries@) == table(self.ids@.take(i as int), self.owners@.take(i as int)),
            decreases self.ids.len() - i,
        {
            let ghost before = entries@;
            entries.push((self.ids[i], self.owners[i]));
            proof {
                let ids = self.ids@.take(i as int);
                let owners = self.owners@.take(i as int);
                assert(entries@.drop_last() =~= before);
                assert(ids.insert(i as int, self.ids@[i as int]) =~= self.ids@.take(i + 1));
                assert(owners.insert(i as int, self.owners@[i as int]) =~= self.owners@.take(
                    i + 1,
                ));
                assert forall|j: int| 0 <= j < i implies (#[trigger] ids[j]).precedes(
                    self.ids@[i as int],
                ) by {
                    assert(self.ids@[j].precedes(self.ids@[i as int]));
                }
                assert(ascending(ids)) by {
                    assert forall|a: int, b: int| 0 <= a < b < ids.len() implies (
                    #[trigger] ids[a]).precedes(#[trigger] ids[b]) by {
                        assert(self.ids@[a].precedes(self.ids@[b]));
                    }
                }
                lemma_table_insert(ids, owners, i as int, self.ids@[i as int], self.owners@[i as int]);
            }
            i += 1;
        }
        proof {
            assert(self.ids@.take(i as int) =~= self.ids@);
            assert(self.owners@.take(i as int) =~= self.owners@);
            assert forall|a: int, b: int| 0 <= a < b < entries@.len() implies (
            #[trigger] entries@[a]).0.precedes((#[trigger] entries@[b]).0) by {
                assert(self.ids@[a].precedes(self.ids@[b]));
            }
        }
        entries
    }

    /// Makes `owner` the owner of `id`, whether or not `id` had one.
    pub fn set(&mut self, id: AssetId, owner: AccountId)
        requires
            old(self).wf(),
        ensures
            final(self).wf(),
            final(self)@ == old(self)@.insert(id, owner),
    {
        match search(&self.ids, &id) {
            Ok(i) => {
                proof {
                    lemma_table_update(self.ids@, self.owners@, i as int, owner);
                }
                self.owners.set(i, owner);
            },
            Err(at) => {
                proof {
                    lemma_table_insert(self.ids@, self.owners@, at as int, id, owner);
                }
                self.ids.insert(at, id);
                self.owners.insert(at, owner);
            },
        }
    }

    /// Leaves `id` without an owner.
    pub fn unset(&mut self, id: &AssetId)
        requires
            old(self).wf(),
        ensures
            final(self).wf(),
            final(self)@ == old(self)@.remove(*id),
    {
        match search(&self.ids, id) {
            Ok(i) => {
                proof {
                    lemma_table_remove(self.ids@, self.owners@, i as int);
                }
                self.ids.remove(i);
                self.owners.remove(i);
            },
            Err(_at) => {
                proof {
                    assert(self@ =~= self@.remove(*id));
                }
            },
        }
    }
}

} // verus!
