//! Checkpoints, block headers and the finality a consumer follows.
use vstd::prelude::*;
use crate::hash::BlockHash;

verus! {

/// The last block durably processed by a consumer, exclusive on the next poll.
#[derive(Clone, Copy, Debug)]
pub struct Checkpoint {
    /// Hash anchors both branch identity and restart ancestry.
    pub hash: BlockHash,
    /// Height validates the saved hash; skipped heights are allowed.
    pub height: u64,
}

/// Minimal ancestry and finality context of one block.
#[derive(Clone, Copy, Debug)]
pub struct Header {
    /// This block's hash.
    pub hash: BlockHash,
    /// Parent hash, which need not have height `height - 1`.
    pub prev_hash: BlockHash,
    /// This block's height.
    pub height: u64,
    /// Finality marker recorded in this block, not a separately sampled head.
    pub last_final_block: BlockHash,
}

/// Which head to follow. Optimistic consumers must implement rollback.
#[derive(Clone, Copy, Debug, PartialEq, Eq, Structural)]
pub enum Finality {
    /// Fully finalized head; any attempted rollback is an error.
    Final,
    /// Latest head, which can be replaced even at the same height.
    Optimistic,
}

impl Header {
    /// The checkpoint that names this block.
    pub open spec fn as_checkpoint(self) -> Checkpoint {
        Checkpoint { hash: self.hash, height: self.height }
    }

    /// Construct the checkpoint to persist after processing this block.
    pub fn checkpoint(&self) -> (c: Checkpoint)
        ensures
            c == self.as_checkpoint(),
    {
        Checkpoint { hash: self.hash, height: self.height }
    }

    /// Whether two headers agree in every field.
    pub fn same_as(&self, other: &Header) -> (r: bool)
        ensures
            r == (*self == *other),
    {
        self.hash.same_as(&other.hash) && self.prev_hash.same_as(&other.prev_hash)
            && self.height == other.height && self.last_final_block.same_as(
            &other.last_final_block,
        )
    }
}

impl Checkpoint {
    /// Whether two checkpoints name the same block at the same height.
    pub fn same_as(&self, other: &Checkpoint) -> (r: bool)
        ensures
            r == (*self == *other),
    {
        self.hash.same_as(&other.hash) && self.height == other.height
    }
}

impl PartialEq for Header {
    fn eq(&self, other: &Header) -> (r: bool) {
        self.same_as(other)
    }
}

impl Eq for Header {}

impl vstd::std_specs::cmp::PartialEqSpecImpl for Header {
    open spec fn obeys_eq_spec() -> bool {
        true
    }

    open spec fn eq_spec(&self, other: &Header) -> bool {
        *self == *other
    }
}

impl PartialEq for Checkpoint {
    fn eq(&self, other: &Checkpoint) -> (r: bool) {
        self.same_as(other)
    }
}

impl Eq for Checkpoint {}

impl vstd::std_specs::cmp::PartialEqSpecImpl for Checkpoint {
    open spec fn obeys_eq_spec() -> bool {
        true
    }

    open spec fn eq_spec(&self, other: &Checkpoint) -> bool {
        *self == *other
    }
}

} // verus!
