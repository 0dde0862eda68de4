//! Block hashes as plain 32-byte values.
use vstd::prelude::*;

verus! {

broadcast use vstd::array::group_array_axioms;

/// A 32-byte block hash, compared byte by byte.
#[derive(Clone, Copy, Debug)]
pub struct BlockHash(pub [u8; 32]);

impl BlockHash {
    /// The hash's bytes, in order.
    pub open spec fn bytes(self) -> Seq<u8> {
        self.0@
    }

    /// Whether two hashes hold the same bytes.
    pub fn same_as(&self, other: &BlockHash) -> (r: bool)
        ensures
            r == (*self == *other),
    {
        let mut i: usize = 0;
        while i < 32
            invariant
                i <= 32,
                forall|j: int| 0 <= j < i ==> self.0[j] == other.0[j],
            decreases 32 - i,
        {
            if self.0[i] != other.0[i] {
                return false;
            }
            i = i + 1;
        }
        assert(self.0 =~= other.0);
        true
    }
}

impl PartialEq for BlockHash {
    fn eq(&self, other: &BlockHash) -> (r: bool) {
        self.same_as(other)
    }
}

impl Eq for BlockHash {}

impl vstd::std_specs::cmp::PartialEqSpecImpl for BlockHash {
    open spec fn obeys_eq_spec() -> bool {
        true
    }

    open spec fn eq_spec(&self, other: &BlockHash) -> bool {
        *self == *other
    }
}

} // verus!
