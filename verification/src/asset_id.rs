//! Commodity identifiers: 32-byte digests, ordered byte by byte, as arrays
//! and slices of bytes are.

use sp_runtime::traits::BlakeTwo256;
use vstd::prelude::*;

verus! {

/// Identifies a commodity: the 256-bit digest of the information that defines it.
#[derive(Clone, Copy, Debug, PartialEq, Eq, PartialOrd, Ord, Hash)]
pub struct AssetId {
    pub bytes: [u8; 32],
}

/// How one identifier stands to another in the byte-wise order.
#[derive(Clone, Copy, Debug, PartialEq, Eq)]
pub enum Order {
    Before,
    Equal,
    After,
}

impl View for AssetId {
    type V = Seq<u8>;

    open spec fn view(&self) -> Seq<u8> {
        self.bytes@
    }
}

/// The first `k` bytes of `a` and `b` are the same.
pub open spec fn agree_before(a: Seq<u8>, b: Seq<u8>, k: int) -> bool {
    forall|j: int| 0 <= j < k ==> a[j] == b[j]
}

impl AssetId {
    /// Strict lexicographic order on the 32 bytes: the identifiers agree up to
    /// some position, and there `self` holds the smaller byte.
    pub open spec fn precedes(self, other: AssetId) -> bool {
        exists|k: int|
            0 <= k < 32 && #[trigger] agree_before(self@, other@, k) && self@[k] < other@[k]
    }

    /// Identifiers with the same bytes are the same identifier.
    pub proof fn lemma_bytes_determine(self, other: AssetId)
        requires
            self@ == other@,
        ensures
            self == other,
    {
        assert(self.bytes =~= other.bytes);
    }

    /// No identifier precedes itself.
    pub proof fn lemma_irreflexive(self)
        ensures
            !self.precedes(self),
    {
    }

    /// The order is transitive.
    pub proof fn lemma_transitive(self, mid: AssetId, last: AssetId)
        requires
            self.precedes(mid),
            mid.precedes(last),
        ensures
            self.precedes(last),
    {
        let k1 = choose|k: int|
            0 <= k < 32 && #[trigger] agree_before(self@, mid@, k) && self@[k] < mid@[k];
        let k2 = choose|k: int|
            0 <= k < 32 && #[trigger] agree_before(mid@, last@, k) && mid@[k] < last@[k];
        let k = if k1 <= k2 {
            k1
        } else {
            k2
        };
        assert(agree_before(self@, last@, k));
        assert(self@[k] < last@[k]);
    }

    /// Two identifiers never precede each other.
    pub proof fn lemma_asymmetric(self, other: AssetId)
        requires
            self.precedes(other),
        ensures
            !other.precedes(self),
    {
        if other.precedes(self) {
            self.lemma_transitive(other, self);
            self.lemma_irreflexive();
        }
    }

    /// Of two identifiers, one precedes the other or they are the same.
    pub proof fn lemma_total(self, other: AssetId)
        ensures
            self.precedes(other) || self == other || other.precedes(self),
    {
        if self != other {
            let k = first_difference(self@, other@, 32);
            lemma_first_difference(self@, other@, 32);
            if k == 32 {
                assert(self@ =~= other@);
                self.lemma_bytes_determine(other);
            }
            if self@[k] < other@[k] {
                assert(self.precedes(other));
            } else {
                assert(agree_before(other@, self@, k));
                assert(other.precedes(self));
            }
        }
    }

    /// Wraps 32 bytes as an identifier.
    pub fn from_bytes(bytes: [u8; 32]) -> (id: AssetId)
        ensures
            id.bytes == bytes,
            id@ == bytes@,
    {
        AssetId { bytes }
    }

    /// The 32 bytes of the identifier.
    pub fn to_bytes(&self) -> (bytes: [u8; 32])
        ensures
            bytes == self.bytes,
    {
        self.bytes
    }

    /// Three-way comparison in the byte-wise order.
    pub fn compare(&self, other: &AssetId) -> (o: Order)
        ensures
            (o is Before) == self.precedes(*other),
            (o is Equal) == (*self == *other),
            (o is After) == other.precedes(*self),
    {
        let mut i: usize = 0;
        while i < 32
            invariant
                i <= 32,
                agree_before(self@, other@, i as int),
            decreases 32 - i,
        {
            if self.bytes[i] < other.bytes[i] {
                proof {
                    assert(self.precedes(*other));
                    self.lemma_asymmetric(*other);
                }
                return Order::Before;
            }
            if self.bytes[i] > other.bytes[i] {
                proof {
                    assert(agree_before(other@, self@, i as int));
                    assert(other.precedes(*self));
                    other.lemma_asymmetric(*self);
                }
                return Order::After;
            }
            i += 1;
        }
        proof {
            assert(self@ =~= other@);
            self.lemma_bytes_determine(*other);
            self.lemma_irreflexive();
        }
        Order::Equal
    }
}

/// The least position below `n` at which `a` and `b` differ, or `n` if there is none.
pub open spec fn first_difference(a: Seq<u8>, b: Seq<u8>, n: int) -> int
    decreases n,
{
    if n <= 0 {
        0
    } else {
        let k = first_difference(a, b, n - 1);
        if k < n - 1 || a[n - 1] != b[n - 1] {
            k
        } else {
            n
        }
    }
}

/// `first_difference` names a position up to which the sequences agree, and at
/// which they differ unless it is `n`.
pub proof fn lemma_first_difference(a: Seq<u8>, b: Seq<u8>, n: int)
    requires
        0 <= n,
    ensures
        0 <= first_difference(a, b, n) <= n,
        agree_before(a, b, first_difference(a, b, n)),
        first_difference(a, b, n) < n ==> a[first_difference(a, b, n)] != b[first_difference(
            a,
            b,
            n,
        )],
    decreases n,
{
    if n > 0 {
        lemma_first_difference(a, b, n - 1);
    }
}

/// The digest that BLAKE2b-256 gives for the SCALE encoding of the byte
/// string `info`.
pub uninterp spec fn blake2_256_of_encoded(info: Seq<u8>) -> Seq<u8>;

/// The identifier of the commodity that `info` defines.
pub open spec fn derived_id(info: Seq<u8>) -> AssetId {
    choose|id: AssetId| id@ == blake2_256_of_encoded(info)
}

/// Calls `sp_runtime::traits::Hash::hash_of` of `BlakeTwo256` on `info`: the
/// BLAKE2b-256 digest of the SCALE encoding of `info`, which is the number of
/// its bytes in compact form and then the bytes.
///
/// Trusted, not proved: the same bytes always give the same digest. The
/// encoder panics on more than `u32::MAX` elements, so longer input is left
/// out.
#[verifier::external_body]
fn hash_of_info(info: &Vec<u8>) -> (id: AssetId)
    requires
        info@.len() <= u32::MAX,
    ensures
        id@ == blake2_256_of_encoded(info@),
{
    AssetId { bytes: <BlakeTwo256 as sp_runtime::traits::Hash>::hash_of(info).0 }
}

/// Derives the identifier of the commodity that `info` defines. Equal
/// information always gives the same identifier.
pub fn derive_id(info: &Vec<u8>) -> (id: AssetId)
    requires
        info@.len() <= u32::MAX,
    ensures
        id@ == blake2_256_of_encoded(info@),
        id == derived_id(info@),
{
    let id = hash_of_info(info);
    proof {
        id.lemma_bytes_determine(derived_id(info@));
    }
    id
}

} // verus!
