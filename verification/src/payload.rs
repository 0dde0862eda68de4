//! What the client reads of a fetched indexer payload, and the checks that a
//! fetch applies to it.
use vstd::prelude::*;
use std::collections::BTreeSet;
use crate::error::Error;
use crate::hash::BlockHash;
use crate::header::Header;

verus! {

broadcast use {vstd::std_specs::btree::group_btree_axioms, vstd::laws_cmp::group_laws_cmp};

/// The plain values of an indexer payload that the client checks: the block
/// header, the shard of each chunk in the block, the shards that the serving
/// node reports as tracked, and the shard of each execution entry supplied.
#[derive(Clone, Debug)]
pub struct PayloadSummary {
    /// The header of the returned block.
    pub header: Header,
    /// Shard id of each chunk of the block, in order.
    pub chunk_shards: Vec<u64>,
    /// Shards tracked by the serving node.
    pub tracked_shards: Vec<u64>,
    /// Shard id of each shard entry supplied with the block, in order.
    pub shard_ids: Vec<u64>,
}

/// Every shard of the block is supplied exactly once: the three lists name the
/// same set of shards, and none of them names a shard twice.
pub open spec fn exact_coverage(chunks: Seq<u64>, reported: Seq<u64>, shards: Seq<u64>) -> bool {
    let expected = chunks.to_set();
    &&& reported.to_set() == expected
    &&& shards.to_set() == expected
    &&& chunks.len() == expected.len()
    &&& shards.len() == expected.len()
    &&& reported.len() == expected.len()
}

impl PayloadSummary {
    /// The payload supplies every shard of its block exactly once.
    pub open spec fn covers_all_shards(&self) -> bool {
        exact_coverage(self.chunk_shards@, self.tracked_shards@, self.shard_ids@)
    }
}

/// The set of the items of `v`.
fn collect_set(v: &Vec<u64>) -> (s: BTreeSet<u64>)
    ensures
        s@ == v@.to_set(),
{
    let mut s: BTreeSet<u64> = BTreeSet::new();
    let mut i: usize = 0;
    while i < v.len()
        invariant
            i <= v.len(),
            s@ == v@.take(i as int).to_set(),
        decreases v.len() - i,
    {
        s.insert(v[i]);
        proof {
            assert(v@.take(i + 1) == v@.take(i as int).push(v[i as int]));
            v@.take(i as int).lemma_push_to_set_commute(v[i as int]);
        }
        i = i + 1;
    }
    assert(v@.take(v.len() as int) == v@);
    s
}

/// Whether every item of `v` is in `s`.
fn all_in(v: &Vec<u64>, s: &BTreeSet<u64>) -> (r: bool)
    ensures
        r == v@.to_set().subset_of(s@),
{
    let mut i: usize = 0;
    while i < v.len()
        invariant
            i <= v.len(),
            forall|j: int| 0 <= j < i ==> s@.contains(#[trigger] v@[j]),
        decreases v.len() - i,
    {
        if !s.contains(&v[i]) {
            assert(v@.to_set().contains(v@[i as int]));
            return false;
        }
        i = i + 1;
    }
    assert forall|x: u64| v@.to_set().contains(x) implies s@.contains(x) by {
        let j = choose|j: int| 0 <= j < v.len() && v@[j] == x;
    }
    true
}

/// Whether `v` and `s` hold the same items and `v` names none twice.
fn matches_set(v: &Vec<u64>, s: &BTreeSet<u64>) -> (r: bool)
    requires
        s@.finite(),
    ensures
        r == (v@.to_set() == s@ && v@.len() == s@.len()),
{
    let vs = collect_set(v);
    if !all_in(v, s) {
        return false;
    }
    if vs.len() != s.len() {
        return false;
    }
    if v.len() != s.len() {
        return false;
    }
    proof {
        vstd::seq_lib::seq_to_set_is_finite(v@);
        vstd::set_lib::lemma_subset_equality(v@.to_set(), s@);
    }
    true
}

/// What a fetch makes of the payload returned for `requested`: the payload
/// must name the requested block, and it must cover every shard of that block
/// exactly once.
pub open spec fn fetched_block_verdict(requested: BlockHash, payload: PayloadSummary) -> Result<(), Error> {
    if payload.header.hash != requested {
        Err(Error::InvalidData("requested hash differs from returned block"))
    } else if !payload.covers_all_shards() {
        Err(Error::InvalidData("node must supply every block shard exactly once"))
    } else {
        Ok(())
    }
}

/// The checks that a fetch applies to the payload returned for `requested`:
/// the payload names the requested block, and it covers every shard of that
/// block exactly once.
pub fn check_fetched_block(requested: &BlockHash, payload: &PayloadSummary) -> (r: Result<(), Error>)
    ensures
        r == fetched_block_verdict(*requested, *payload),
{
    if !payload.header.hash.same_as(requested) {
        return Err(Error::InvalidData("requested hash differs from returned block"));
    }
    let expected = collect_set(&payload.chunk_shards);
    proof {
        vstd::seq_lib::seq_to_set_is_finite(payload.chunk_shards@);
    }
    let complete = matches_set(&payload.tracked_shards, &expected) && matches_set(
        &payload.shard_ids,
        &expected,
    ) && payload.chunk_shards.len() == expected.len();
    if !complete {
        return Err(Error::InvalidData("node must supply every block shard exactly once"));
    }
    Ok(())
}

/// Restore the explicit nulls that decoding lost in optional-optional fields:
/// entry `i` becomes `Some(None)` where the JSON held an explicit null, and
/// every other entry, including those past the end of `explicit_null`, stays
/// as decoded.
pub fn restore_explicit_nulls<T>(fields: Vec<Option<Option<T>>>, explicit_null: &Vec<bool>) -> (r: Vec<
    Option<Option<T>>,
>)
    ensures
        r@.len() == fields@.len(),
        forall|i: int|
            0 <= i < fields@.len() ==> #[trigger] r@[i] == if i < explicit_null@.len()
                && explicit_null@[i] {
                Some(None)
            } else {
                fields@[i]
            },
{
    let mut out: Vec<Option<Option<T>>> = Vec::new();
    let mut rest = fields;
    let ghost decoded = rest@;
    let mut kept: Vec<Option<Option<T>>> = Vec::new();
    // Take entries from the back so that each one moves exactly once.
    while rest.len() > 0
        invariant
            rest@ == decoded.take(rest@.len() as int),
            kept@.len() + rest@.len() == decoded.len(),
            forall|k: int|
                0 <= k < kept@.len() ==> #[trigger] kept@[k] == decoded[decoded.len() - 1 - k],
        decreases rest@.len(),
    {
        let last = rest.pop().unwrap();
        kept.push(last);
    }
    let mut i: usize = 0;
    while kept.len() > 0
        invariant
            kept@.len() + out@.len() == decoded.len(),
            i == out@.len(),
            forall|k: int|
                0 <= k < kept@.len() ==> #[trigger] kept@[k] == decoded[decoded.len() - 1 - k],
            forall|k: int|
                0 <= k < out@.len() ==> #[trigger] out@[k] == if k < explicit_null@.len()
                    && explicit_null@[k] {
                    Some(None)
                } else {
                    decoded[k]
                },
        decreases kept@.len(),
    {
        let field = kept.pop().unwrap();
        if i < explicit_null.len() && explicit_null[i] {
            out.push(Some(None));
        } else {
            out.push(field);
        }
        i = out.len();
    }
    out
}

} // verus!
