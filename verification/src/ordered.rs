//! Strictly ascending vectors of identifiers: binary search, insertion and
//! removal that keep the order.

use crate::asset_id::{AssetId, Order};
use vstd::prelude::*;

verus! {

/// Each element precedes every later one: the sequence is sorted and holds no
/// identifier twice.
pub open spec fn ascending(s: Seq<AssetId>) -> bool {
    forall|i: int, j: int| 0 <= i < j < s.len() ==> (#[trigger] s[i]).precedes(#[trigger] s[j])
}

/// `s` lists exactly the members of `set`, in ascending order.
pub open spec fn enumerates(s: Seq<AssetId>, set: Set<AssetId>) -> bool {
    ascending(s) && s.to_set() == set
}

/// An ascending sequence holds no identifier twice, so it is as long as its
/// set of members is large.
pub proof fn lemma_ascending_distinct(s: Seq<AssetId>)
    requires
        ascending(s),
    ensures
        s.no_duplicates(),
        s.to_set().finite(),
        s.to_set().len() == s.len(),
{
    assert forall|i: int, j: int| 0 <= i < s.len() && 0 <= j < s.len() && i != j implies s[i]
        != s[j] by {
        s[i].lemma_irreflexive();
        if i < j {
            assert(s[i].precedes(s[j]));
        } else {
            assert(s[j].precedes(s[i]));
        }
    }
    s.unique_seq_to_set();
}

/// The first element of a non-empty ascending sequence is the least member.
proof fn lemma_head_is_least(s: Seq<AssetId>, x: AssetId)
    requires
        ascending(s),
        s.contains(x),
    ensures
        s[0] == x || s[0].precedes(x),
{
    let i = choose|i: int| 0 <= i < s.len() && s[i] == x;
    if i > 0 {
        assert(s[0].precedes(s[i]));
    }
}

/// A set has at most one ascending enumeration.
pub proof fn lemma_enumeration_unique(s1: Seq<AssetId>, s2: Seq<AssetId>)
    requires
        ascending(s1),
        ascending(s2),
        s1.to_set() == s2.to_set(),
    ensures
        s1 == s2,
    decreases s1.len(),
{
    lemma_ascending_distinct(s1);
    lemma_ascending_distinct(s2);
    if s1.len() == 0 {
        assert(s1 =~= s2);
    } else {
        assert(s1.to_set().contains(s1[0]));
        assert(s2.to_set().contains(s2[0]));
        assert(s2.contains(s1[0]));
        assert(s1.contains(s2[0]));
        lemma_head_is_least(s1, s2[0]);
        lemma_head_is_least(s2, s1[0]);
        if s1[0] != s2[0] {
            s1[0].lemma_asymmetric(s2[0]);
        }
        let t1 = s1.subrange(1, s1.len() as int);
        let t2 = s2.subrange(1, s2.len() as int);
        assert(ascending(t1)) by {
            assert forall|i: int, j: int| 0 <= i < j < t1.len() implies (#[trigger] t1[i]).precedes(
                #[trigger] t1[j],
            ) by {
                assert(s1[i + 1].precedes(s1[j + 1]));
            }
        }
        assert(ascending(t2)) by {
            assert forall|i: int, j: int| 0 <= i < j < t2.len() implies (#[trigger] t2[i]).precedes(
                #[trigger] t2[j],
            ) by {
                assert(s2[i + 1].precedes(s2[j + 1]));
            }
        }
        assert forall|x: AssetId| t1.to_set().contains(x) <==> t2.to_set().contains(x) by {
            lemma_tail_members(s1, x);
            lemma_tail_members(s2, x);
            assert(s1.to_set().contains(x) <==> s2.to_set().contains(x));
        }
        assert(t1.to_set() =~= t2.to_set());
        lemma_enumeration_unique(t1, t2);
        assert(s1 =~= s2) by {
            assert forall|i: int| 0 <= i < s1.len() implies s1[i] == s2[i] by {
                if i > 0 {
                    assert(t1[i - 1] == t2[i - 1]);
                }
            }
        }
    }
}

/// The members of the tail of an ascending sequence are its members other
/// than the head.
proof fn lemma_tail_members(s: Seq<AssetId>, x: AssetId)
    requires
        ascending(s),
        s.len() > 0,
    ensures
        s.subrange(1, s.len() as int).to_set().contains(x) <==> (s.to_set().contains(x) && x
            != s[0]),
{
    let t = s.subrange(1, s.len() as int);
    if t.to_set().contains(x) {
        let i = choose|i: int| 0 <= i < t.len() && t[i] == x;
        assert(s[i + 1] == x);
        assert(s[0].precedes(s[i + 1]));
        s[0].lemma_irreflexive();
    }
    if s.to_set().contains(x) && x != s[0] {
        let i = choose|i: int| 0 <= i < s.len() && s[i] == x;
        assert(t[i - 1] == x);
    }
}

/// Looks `id` up in an ascending vector by binary search: `Ok` with its
/// position, or `Err` with the position at which it would have to be inserted.
pub fn search(v: &Vec<AssetId>, id: &AssetId) -> (r: Result<usize, usize>)
    requires
        ascending(v@),
    ensures
        match r {
            Ok(i) => i < v.len() && v@[i as int] == *id,
            Err(i) => {
                &&& i <= v.len()
                &&& !v@.contains(*id)
                &&& forall|j: int| 0 <= j < i ==> (#[trigger] v@[j]).precedes(*id)
                &&& forall|j: int| i <= j < v.len() ==> id.precedes(#[trigger] v@[j])
            },
        },
{
    let mut lo: usize = 0;
    let mut hi: usize = v.len();
    while lo < hi
        invariant
            lo <= hi <= v.len(),
            ascending(v@),
            forall|j: int| 0 <= j < lo ==> (#[trigger] v@[j]).precedes(*id),
            forall|j: int| hi <= j < v.len() ==> id.precedes(#[trigger] v@[j]),
        decreases hi - lo,
    {
        let mid: usize = lo + (hi - lo) / 2;
        match v[mid].compare(id) {
            Order::Equal => {
                return Ok(mid);
            },
            Order::Before => {
                proof {
                    assert forall|j: int| 0 <= j < mid + 1 implies (#[trigger] v@[j]).precedes(
                        *id,
                    ) by {
                        if j < mid {
                            assert(v@[j].precedes(v@[mid as int]));
                            v@[j].lemma_transitive(v@[mid as int], *id);
                        }
                    }
                }
                lo = mid + 1;
            },
            Order::After => {
                proof {
                    assert forall|j: int| mid <= j < v.len() implies id.precedes(
                        #[trigger] v@[j],
                    ) by {
                        if mid < j {
                            assert(v@[mid as int].precedes(v@[j]));
                            id.lemma_transitive(v@[mid as int], v@[j]);
                        }
                    }
                }
                hi = mid;
            },
        }
    }
    proof {
        id.lemma_irreflexive();
        assert forall|j: int| 0 <= j < v.len() implies v@[j] != *id by {
            if j < lo {
                assert(v@[j].precedes(*id));
            } else {
                assert(id.precedes(v@[j]));
            }
        }
    }
    Err(lo)
}

/// Putting `id` at the position that `search` names keeps the order and adds
/// `id` to the members.
pub proof fn lemma_insert_keeps_order(s: Seq<AssetId>, at: int, id: AssetId)
    requires
        ascending(s),
        0 <= at <= s.len(),
        forall|j: int| 0 <= j < at ==> (#[trigger] s[j]).precedes(id),
        forall|j: int| at <= j < s.len() ==> id.precedes(#[trigger] s[j]),
    ensures
        ascending(s.insert(at, id)),
        s.insert(at, id).to_set() == s.to_set().insert(id),
{
    let t = s.insert(at, id);
    assert forall|i: int, j: int| 0 <= i < j < t.len() implies (#[trigger] t[i]).precedes(
        #[trigger] t[j],
    ) by {
        if j < at {
            assert(s[i].precedes(s[j]));
        } else if j == at {
            assert(s[i].precedes(id));
        } else if i < at {
            assert(s[i].precedes(s[j - 1]));
        } else if i == at {
            assert(id.precedes(s[j - 1]));
        } else {
            assert(s[i - 1].precedes(s[j - 1]));
        }
    }
    assert forall|x: AssetId| t.to_set().contains(x) <==> s.to_set().insert(id).contains(x) by {
        if t.to_set().contains(x) {
            let i = choose|i: int| 0 <= i < t.len() && t[i] == x;
            if i < at {
                assert(s[i] == x);
            } else if i > at {
                assert(s[i - 1] == x);
            }
        }
        if s.to_set().contains(x) {
            let i = choose|i: int| 0 <= i < s.len() && s[i] == x;
            if i < at {
                assert(t[i] == x);
            } else {
                assert(t[i + 1] == x);
            }
        }
        if x == id {
            assert(t[at] == x);
        }
    }
    assert(t.to_set() =~= s.to_set().insert(id));
}

/// Taking out the element at `at` keeps the order and takes that element out
/// of the members.
pub proof fn lemma_remove_keeps_order(s: Seq<AssetId>, at: int)
    requires
        ascending(s),
        0 <= at < s.len(),
    ensures
        ascending(s.remove(at)),
        s.remove(at).to_set() == s.to_set().remove(s[at]),
{
    let t = s.remove(at);
    lemma_ascending_distinct(s);
    assert forall|i: int, j: int| 0 <= i < j < t.len() implies (#[trigger] t[i]).precedes(
        #[trigger] t[j],
    ) by {
        if j < at {
            assert(s[i].precedes(s[j]));
        } else if i < at {
            assert(s[i].precedes(s[j + 1]));
        } else {
            assert(s[i + 1].precedes(s[j + 1]));
        }
    }
    assert forall|x: AssetId| t.to_set().contains(x) <==> s.to_set().remove(s[at]).contains(x) by {
        if t.to_set().contains(x) {
            let i = choose|i: int| 0 <= i < t.len() && t[i] == x;
            if i < at {
                assert(s[i] == x);
            } else {
                assert(s[i + 1] == x);
            }
        }
        if s.to_set().contains(x) && x != s[at] {
            let i = choose|i: int| 0 <= i < s.len() && s[i] == x;
            if i < at {
                assert(t[i] == x);
            } else {
                assert(t[i - 1] == x);
            }
        }
    }
    assert(t.to_set() =~= s.to_set().remove(s[at]));
}

/// Inserts `id` at its sorted position unless the vector holds it already.
/// Returns whether it was added.
pub fn insert(v: &mut Vec<AssetId>, id: AssetId) -> (added: bool)
    requires
        ascending(old(v)@),
    ensures
        enumerates(final(v)@, old(v)@.to_set().insert(id)),
        added == !old(v)@.contains(id),
        added ==> final(v)@.len() == old(v)@.len() + 1,
        !added ==> final(v)@ == old(v)@,
{
    match search(v, &id) {
        Ok(_at) => {
            proof {
                assert(v@.to_set().insert(id) =~= v@.to_set());
            }
            false
        },
        Err(at) => {
            proof {
                lemma_insert_keeps_order(v@, at as int, id);
            }
            v.insert(at, id);
            true
        },
    }
}

/// Removes `id`, which the vector holds, from its sorted position.
pub fn remove(v: &mut Vec<AssetId>, id: &AssetId)
    requires
        ascending(old(v)@),
        old(v)@.contains(*id),
    ensures
        enumerates(final(v)@, old(v)@.to_set().remove(*id)),
        final(v)@.len() == old(v)@.len() - 1,
{
    match search(v, id) {
        Ok(at) => {
            proof {
                lemma_remove_keeps_order(v@, at as int);
            }
            v.remove(at);
        },
        Err(_at) => {},
    }
}

} // verus!
