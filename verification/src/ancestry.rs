//! Parent links between block headers, and the shape of the ancestry walked
//! between a checkpoint and a head.
use vstd::prelude::*;
use crate::error::Error;
use crate::hash::BlockHash;
use crate::header::Header;

verus! {

/// `parent` is the parent of `child`: it has the child's parent hash and
/// stands strictly lower.
pub open spec fn is_parent(child: Header, parent: Header) -> bool {
    parent.hash == child.prev_hash && parent.height < child.height
}

/// Newest first, each header's parent is the header after it.
pub open spec fn is_descent(chain: Seq<Header>) -> bool {
    forall|i: int, j: int|
        0 <= i && j == i + 1 && j < chain.len() ==> #[trigger] is_parent(chain[i], chain[j])
}

/// `chain` followed by `bottom` is a descent that starts at `top`: walking
/// parents from `top` passes through `chain` and reaches `bottom`.
pub open spec fn descends_to(top: Header, chain: Seq<Header>, bottom: Header) -> bool {
    &&& is_descent(chain.push(bottom))
    &&& chain.push(bottom)[0] == top
}

/// `rollback` (newest first) leads from the checkpoint's block `base` down to
/// `ancestor`, and `apply` (oldest first) leads from `ancestor` up to `head`.
pub open spec fn is_reorg_path(
    base: Header,
    head: Header,
    rollback: Seq<Header>,
    apply: Seq<Header>,
    ancestor: Header,
) -> bool {
    &&& descends_to(base, rollback, ancestor)
    &&& descends_to(head, apply.reverse(), ancestor)
}

/// Among `headers`, equal hashes come with equal heights: a node that answers
/// consistently never gives two heights for one block.
pub open spec fn heights_agree(headers: Seq<Header>) -> bool {
    forall|x: Header, y: Header|
        #![trigger headers.contains(x), headers.contains(y)]
        headers.contains(x) && headers.contains(y) && x.hash == y.hash ==> x.height == y.height
}

/// No header of `a` has the hash of a header of `b`.
pub open spec fn disjoint_hashes(a: Seq<Header>, b: Seq<Header>) -> bool {
    forall|i: int, k: int|
        #![trigger a[i], b[k]]
        0 <= i < a.len() && 0 <= k < b.len() ==> a[i].hash != b[k].hash
}

/// No header of `a` has the hash `h`.
pub open spec fn avoids_hash(a: Seq<Header>, h: BlockHash) -> bool {
    forall|i: int| 0 <= i < a.len() ==> #[trigger] a[i].hash != h
}

/// The walk met at the latest common ancestor: the replaced blocks and the
/// applied blocks share no hash, and neither holds the ancestor's hash.
pub open spec fn meets_at_latest(rollback: Seq<Header>, apply: Seq<Header>, ancestor: Header) -> bool {
    &&& disjoint_hashes(rollback, apply)
    &&& avoids_hash(rollback, ancestor.hash)
    &&& avoids_hash(apply, ancestor.hash)
}

/// The check made of a header fetched as the parent of `child`.
pub fn check_parent(child: &Header, parent: &Header) -> (r: Result<(), Error>)
    ensures
        is_parent(*child, *parent) ==> r is Ok,
        !is_parent(*child, *parent) ==> r == Err::<(), Error>(
            Error::InvalidData("broken ancestry or no common ancestor"),
        ),
{
    if !parent.hash.same_as(&child.prev_hash) || parent.height >= child.height {
        return Err(Error::InvalidData("broken ancestry or no common ancestor"));
    }
    Ok(())
}

} // verus!
