//! Laws of polling and fetching, proved over the session's state.
use vstd::prelude::*;
use crate::ancestry::{heights_agree, is_descent, is_parent, is_reorg_path, meets_at_latest};
use crate::error::Error;
use crate::header::{Finality, Header};
use crate::hash::BlockHash;
use crate::payload::{exact_coverage, fetched_block_verdict, PayloadSummary};
use crate::session::{lemma_after_header_keeps_wf, Join, PollState, Request, Stage};

verus! {

/// A complete update keeps every promise of a poll: a `Final` update never
/// rolls back; rollback plus apply blocks stay within the bound; without a
/// checkpoint the update applies the head alone; with one, the rollback
/// descends from the checkpoint's block to a common ancestor and the applied
/// blocks climb from that ancestor to the head; a pinned head has the pinned
/// hash.
pub proof fn law_complete_update(s: PollState)
    requires
        s.wf(),
        s.is_complete(),
    ensures
        s.finality == Finality::Final ==> s.rollback.len() == 0,
        s.rollback.len() + s.apply.len() <= s.max_ancestry,
        s.checkpoint is None ==> s.rollback.len() == 0 && s.apply == seq![s.head()],
        s.checkpoint matches Some(cp) ==> exists|base: Header, ancestor: Header|
            base.as_checkpoint() == cp && #[trigger] is_reorg_path(
                base,
                s.head(),
                s.rollback,
                s.apply,
                ancestor,
            ),
        s.target matches Some(t) ==> s.head().hash == t,
{
    match s.stage {
        Stage::Fetch { head, join } => match join {
            Some(j) => {
                assert(is_reorg_path(j.base, s.head(), s.rollback, s.apply, j.ancestor));
                assert(j.base.as_checkpoint() == s.checkpoint->Some_0);
            },
            None => {},
        },
        _ => {},
    }
}

/// Once the walk has joined, the rollback is newest first and the applied
/// blocks are oldest first: the rollback starts at the checkpoint's block and
/// each entry's parent is the next, down to the common ancestor; the first
/// applied block is a child of the ancestor, each later one a child of the one
/// before, and the last is the head. The checkpoint is exclusive: when nothing
/// is rolled back, the checkpoint's block is the ancestor and every applied
/// block stands above it.
pub proof fn law_update_order(s: PollState)
    requires
        s.wf(),
        s.stage matches Stage::Fetch { join: Some(_), .. },
    ensures
        ({
            let j = s.stage->join->Some_0;
            let head = s.head();
            &&& s.rollback.len() > 0 ==> s.rollback[0] == j.base && s.rollback.last().prev_hash
                == j.ancestor.hash
            &&& s.rollback.len() == 0 ==> j.base == j.ancestor
            &&& forall|i: int|
                0 <= i < s.rollback.len() - 1 ==> s.rollback[i].prev_hash == #[trigger] s.rollback[i
                    + 1].hash
            &&& s.apply.len() > 0 ==> s.apply[0].prev_hash == j.ancestor.hash && s.apply.last()
                == head
            &&& s.apply.len() == 0 ==> head == j.ancestor
            &&& forall|i: int|
                0 <= i < s.apply.len() - 1 ==> #[trigger] s.apply[i + 1].prev_hash == s.apply[i].hash
                    && s.apply[i].height < s.apply[i + 1].height
            &&& forall|i: int| 0 <= i < s.apply.len() ==> #[trigger] s.apply[i].height > j.ancestor.height
        }),
{
    let j = s.stage->join->Some_0;
    let head = s.head();
    let rb = s.rollback.push(j.ancestor);
    let down = s.apply.reverse().push(j.ancestor);
    let n = s.apply.len() as int;
    assert(is_descent(rb) && rb[0] == j.base);
    assert(is_descent(down) && down[0] == head);
    assert forall|i: int| 0 <= i < s.rollback.len() - 1 implies s.rollback[i].prev_hash
        == #[trigger] s.rollback[i + 1].hash by {
        assert(is_parent(rb[i], rb[i + 1]));
    }
    if s.rollback.len() > 0 {
        let k = s.rollback.len() - 1;
        assert(is_parent(rb[k], rb[k + 1]));
    }
    // `down[k]` is `apply[n - 1 - k]` for `k < n`, and `down[n]` is the ancestor.
    assert forall|i: int| 0 <= i < n - 1 implies #[trigger] s.apply[i + 1].prev_hash
        == s.apply[i].hash && s.apply[i].height < s.apply[i + 1].height by {
        let k = n - 2 - i;
        assert(is_parent(down[k], down[k + 1]));
        assert(down[k] == s.apply[i + 1]);
        assert(down[k + 1] == s.apply[i]);
    }
    if n > 0 {
        assert(is_parent(down[n - 1], down[n]));
        assert(down[n - 1] == s.apply[0]);
        assert(down[0] == s.apply[n - 1]);
    }
    // Heights fall strictly along the descent from the head to the ancestor.
    assert forall|k: int| 0 <= k <= n implies #[trigger] down[k].height >= j.ancestor.height
        + (n - k) by {
        lemma_descent_heights(down, k);
    }
    assert forall|i: int| 0 <= i < n implies #[trigger] s.apply[i].height > j.ancestor.height by {
        assert(down[n - 1 - i] == s.apply[i]);
        assert(down[n - 1 - i].height >= j.ancestor.height + (i + 1));
    }
}

/// When the node gives one height per hash, the walk stops at the latest
/// common ancestor: the replaced blocks and the applied blocks share no hash,
/// and neither holds the ancestor's hash.
pub proof fn law_latest_common_ancestor(s: PollState)
    requires
        s.wf(),
        s.stage matches Stage::Fetch { join: Some(_), .. },
        heights_agree(s.rollback + s.apply + seq![s.stage->join->Some_0.ancestor]),
    ensures
        meets_at_latest(s.rollback, s.apply, s.stage->join->Some_0.ancestor),
{
}

/// Along a descent, the header `k` places above the bottom stands at least
/// `len - 1 - k` heights above it.
proof fn lemma_descent_heights(chain: Seq<Header>, k: int)
    requires
        is_descent(chain),
        0 <= k < chain.len(),
    ensures
        chain[k].height >= chain.last().height + (chain.len() - 1 - k),
    decreases chain.len() - k,
{
    if k < chain.len() - 1 {
        lemma_descent_heights(chain, k + 1);
        assert(is_parent(chain[k], chain[k + 1]));
    }
}

/// A head that is the checkpoint's own block gives an empty update: once the
/// checkpoint's header arrives, nothing is rolled back, nothing is applied,
/// and no payload is fetched.
pub proof fn law_unchanged_head(s: PollState, h: Header)
    requires
        s.wf(),
        s.stage == (Stage::AwaitBase { head: h }),
        s.checkpoint == Some(h.as_checkpoint()),
    ensures
        s.after_header(h) matches Ok(m) && m.rollback.len() == 0 && m.apply.len() == 0
            && m.is_complete() && m.pending() == Request::Complete,
{
    assert(Seq::<Header>::empty().reverse() =~= Seq::<Header>::empty());
}

/// Without a checkpoint a poll starts with the current head only: the head's
/// header is the one block to fetch.
pub proof fn law_initial_head_only(s: PollState, h: Header)
    requires
        s.wf(),
        s.stage == Stage::AwaitHead,
        s.checkpoint is None,
        s.head_ok(h),
    ensures
        s.after_header(h) matches Ok(m) && m.rollback.len() == 0 && m.apply == seq![h]
            && m.pending() == Request::BlockOf(h.hash),
{
}

/// Each parent header that the walk accepts adds exactly one block to the
/// rollback or the apply list, so a walk asks for at most `max_ancestry`
/// parents; when one more step would reach the bound without meeting, the
/// answer is `AncestryLimit`, never a truncated plan.
pub proof fn law_walk_is_bounded(s: PollState, h: Header)
    requires
        s.wf(),
        s.stage is Walk,
    ensures
        s.after_header(h) matches Ok(m) ==> m.rollback.len() + m.apply.len() == s.rollback.len()
            + s.apply.len() + 1 && m.rollback.len() + m.apply.len() <= m.max_ancestry,
        s.after_header(h) matches Err(Error::AncestryLimit(n)) ==> n == s.max_ancestry
            && s.rollback.len() + s.apply.len() + 1 == s.max_ancestry,
{
    lemma_after_header_keeps_wf(s, h);
    if let Ok(m) = s.after_header(h) {
        if m.stage is Fetch {
            assert(m.apply.len() == m.apply.reverse().len());
        }
    }
}

/// A `Final` poll never hands out a rollback: a walk that would end with one
/// is answered `FinalityViolation`, before any payload is fetched.
pub proof fn law_final_refuses_rollback(s: PollState, h: Header)
    requires
        s.wf(),
        s.awaits_header(),
        s.finality == Finality::Final,
    ensures
        s.after_header(h) matches Ok(m) ==> (m.stage is Fetch ==> m.rollback.len() == 0),
{
    lemma_after_header_keeps_wf(s, h);
}

/// No payload is requested before the ancestry walk has ended and been
/// accepted: a poll that fails while walking, or is refused for finality,
/// has fetched no payload.
pub proof fn law_no_payload_before_plan(s: PollState)
    requires
        s.wf(),
        !(s.stage is Fetch),
    ensures
        !(s.pending() is BlockOf),
        !(s.pending() is Complete),
        s.fetched == 0,
{
}

/// A payload is accepted only when it is the planned block: its header is the
/// planned header in every field, and it covers every shard exactly once.
pub proof fn law_accepted_payload_is_planned(s: PollState, p: PayloadSummary)
    requires
        s.wf(),
        s.awaits_block(),
        s.after_block(p) is Ok,
    ensures
        p.header == s.apply[s.fetched as int],
        p.covers_all_shards(),
{
}

/// A sequence's set has at most as many items as the sequence, and exactly as
/// many when no item occurs twice.
proof fn lemma_set_len_and_duplicates(s: Seq<u64>)
    ensures
        s.to_set().finite(),
        s.to_set().len() <= s.len(),
        s.to_set().len() == s.len() <==> s.no_duplicates(),
    decreases s.len(),
{
    vstd::seq_lib::seq_to_set_is_finite(s);
    if s.len() == 0 {
        assert(s.to_set() =~= Set::<u64>::empty());
    } else {
        let r = s.drop_last();
        let x = s.last();
        lemma_set_len_and_duplicates(r);
        assert(s == r.push(x));
        assert(s.to_set() =~= r.to_set().insert(x)) by {
            assert forall|y: u64| s.to_set().contains(y) <==> r.to_set().insert(x).contains(y) by {
                if s.contains(y) {
                    let k = choose|k: int| 0 <= k < s.len() && s[k] == y;
                    if k < r.len() {
                        assert(r[k] == y);
                    }
                }
                if r.contains(y) {
                    let k = choose|k: int| 0 <= k < r.len() && r[k] == y;
                    assert(s[k] == y);
                }
                if y == x {
                    assert(s[s.len() - 1] == y);
                }
            }
        }
        if r.contains(x) {
            let k = choose|k: int| 0 <= k < r.len() && r[k] == x;
            assert(s[k] == s[s.len() - 1]);
            assert(r.to_set().insert(x) =~= r.to_set());
            assert(!s.no_duplicates());
        } else {
            assert(!r.to_set().contains(x));
            assert(s.no_duplicates() <==> r.no_duplicates()) by {
                if r.no_duplicates() {
                    assert forall|i: int, j: int|
                        0 <= i < s.len() && 0 <= j < s.len() && i != j implies s[i] != s[j] by {
                        if i < r.len() && j < r.len() {
                            assert(r[i] != r[j]);
                        } else if i < r.len() {
                            assert(r.contains(r[i]));
                        } else {
                            assert(r.contains(r[j]));
                        }
                    }
                }
                if s.no_duplicates() {
                    assert forall|i: int, j: int|
                        0 <= i < r.len() && 0 <= j < r.len() && i != j implies r[i] != r[j] by {
                        assert(s[i] != s[j]);
                    }
                }
            }
        }
    }
}

/// Exact coverage means that the block's chunks, the node's reported shards and
/// the supplied shard entries name the same shards, each exactly once.
pub proof fn law_exact_coverage_is_each_shard_once(
    chunks: Seq<u64>,
    reported: Seq<u64>,
    shards: Seq<u64>,
)
    ensures
        exact_coverage(chunks, reported, shards) <==> {
            &&& chunks.no_duplicates()
            &&& reported.no_duplicates()
            &&& shards.no_duplicates()
            &&& reported.to_set() == chunks.to_set()
            &&& shards.to_set() == chunks.to_set()
        },
{
    lemma_set_len_and_duplicates(chunks);
    lemma_set_len_and_duplicates(reported);
    lemma_set_len_and_duplicates(shards);
}

/// A poll asks first for the head at its own finality, or for the pinned
/// target's header: an optimistic poll samples the latest head, a final poll
/// the finalized one.
pub proof fn law_first_request_follows_mode(
    finality: Finality,
    target: BlockHash,
    checkpoint: Option<crate::header::Checkpoint>,
    max_ancestry: usize,
    s: PollState,
)
    ensures
        PollState::initial(finality, None, checkpoint, max_ancestry).pending() == Request::HeadAt(
            finality,
        ),
        PollState::initial(finality, Some(target), checkpoint, max_ancestry).pending()
            == Request::HeaderOf(target),
        s.stage == Stage::AwaitHead && s.target is None ==> s.pending() == Request::HeadAt(s.finality),
{
}

/// Only a `Final` poll is refused for finality, and only when its walk has
/// just met with something to roll back; an `Optimistic` poll never is. No
/// payload answer is ever refused for finality or for the bound.
pub proof fn law_only_final_refuses_rollback(s: PollState, h: Header, p: PayloadSummary)
    requires
        s.wf(),
    ensures
        s.awaits_header() && s.finality == Finality::Optimistic ==> !(s.after_header(h) matches Err(
            Error::FinalityViolation,
        )),
        s.awaits_header() && s.after_header(h) == Err::<PollState, Error>(Error::FinalityViolation)
            ==> s.finality == Finality::Final && s.stage is Walk,
        s.awaits_block() ==> !(s.after_block(p) matches Err(Error::FinalityViolation)),
        s.awaits_block() ==> !(s.after_block(p) matches Err(Error::AncestryLimit(_))),
{
}

/// The bound is reached only by a walk: the head's header and the
/// checkpoint's header are never answered `AncestryLimit`, and a walk step is
/// answered so exactly when it brings the block count to the bound without the
/// frontiers meeting.
pub proof fn law_limit_only_at_bound(s: PollState, h: Header)
    requires
        s.wf(),
        s.awaits_header(),
    ensures
        !(s.stage is Walk) ==> !(s.after_header(h) matches Err(Error::AncestryLimit(_))),
        s.after_header(h) matches Err(Error::AncestryLimit(n)) ==> n == s.max_ancestry
            && s.rollback.len() + s.apply.len() + 1 == s.max_ancestry,
{
}

/// What the head's header does to a fresh poll: a pinned poll refuses a header
/// of another block; an acceptable head leads to the checkpoint's header, or,
/// without a checkpoint, to fetching the head alone.
pub proof fn law_head_answer(s: PollState, h: Header)
    requires
        s.wf(),
        s.stage == Stage::AwaitHead,
    ensures
        (s.target matches Some(t) && h.hash != t) ==> s.after_header(h) matches Err(
            Error::InvalidData(_),
        ),
        s.head_ok(h) && s.checkpoint is Some ==> (s.after_header(h) matches Ok(m) && m.stage == (
        Stage::AwaitBase { head: h }) && m.pending() == Request::HeaderOf(s.checkpoint->Some_0.hash)),
        s.head_ok(h) && s.checkpoint is None ==> (s.after_header(h) matches Ok(m) && !m.is_complete()
            && m.pending() == Request::BlockOf(h.hash)),
{
}

/// What the checkpoint's header does: a header that does not match the saved
/// checkpoint is refused; a matching one starts the walk from it and from the
/// head, with nothing walked yet, or ends at once when it is the head itself.
pub proof fn law_base_answer(s: PollState, h: Header)
    requires
        s.wf(),
        s.stage is AwaitBase,
    ensures
        Some(h.as_checkpoint()) != s.checkpoint ==> s.after_header(h) matches Err(
            Error::InvalidData(_),
        ),
        Some(h.as_checkpoint()) == s.checkpoint && h.hash != s.head().hash ==> (s.after_header(h) matches Ok(m)
            && m.stage == (Stage::Walk { head: s.head(), base: h, from_base: h, from_head: s.head() })
            && m.rollback.len() == 0 && m.apply.len() == 0),
        Some(h.as_checkpoint()) == s.checkpoint && h == s.head() ==> (s.after_header(h) matches Ok(m)
            && m.is_complete() && m.rollback.len() == 0 && m.apply.len() == 0),
{
    assert(Seq::<Header>::empty().reverse() =~= Seq::<Header>::empty());
}

/// A walk asks for the parent of the frontier that stands no lower than the
/// other, the checkpoint's side on a tie.
pub proof fn law_walk_request(s: PollState)
    requires
        s.wf(),
        s.stage is Walk,
    ensures
        ({
            let b = s.stage->from_base;
            let x = s.stage->from_head;
            s.pending() matches Request::HeaderOf(p) && ((b.height >= x.height && p == b.prev_hash)
                || (b.height < x.height && p == x.prev_hash))
        }),
{
}

/// What a parent's header does to a walk. A header that is not the parent of
/// the stepped frontier is refused. A valid parent is added to its side: the
/// walk goes on while the frontiers differ and the bound is not reached, and
/// when they meet in one header the plan is complete, with the stepped block
/// counted, unless a `Final` poll would roll back.
pub proof fn law_walk_answer(s: PollState, h: Header)
    requires
        s.wf(),
        s.stage is Walk,
    ensures
        ({
            let b = s.stage->from_base;
            let x = s.stage->from_head;
            let base_side = b.height >= x.height;
            let stepped = if base_side { b } else { x };
            let new_base = if base_side { h } else { b };
            let new_head = if base_side { x } else { h };
            let rollback = if base_side { s.rollback.push(b) } else { s.rollback };
            let apply = if base_side { s.apply } else { s.apply.push(x) };
            let count = s.rollback.len() + s.apply.len() + 1;
            &&& (!is_parent(stepped, h) ==> (s.after_header(h) matches Err(Error::InvalidData(_))))
            &&& (is_parent(stepped, h) && new_base.hash != new_head.hash && count < s.max_ancestry
                ==> (s.after_header(h) matches Ok(m) && m.stage == (Stage::Walk {
                head: s.head(),
                base: s.stage->base,
                from_base: new_base,
                from_head: new_head,
            }) && m.rollback == rollback && m.apply == apply))
            &&& (is_parent(stepped, h) && new_base.hash != new_head.hash && count >= s.max_ancestry
                ==> s.after_header(h) == Err::<PollState, Error>(Error::AncestryLimit(s.max_ancestry)))
            &&& (is_parent(stepped, h) && new_base.hash == new_head.hash && new_base != new_head
                ==> (s.after_header(h) matches Err(Error::InvalidData(_))))
            &&& (is_parent(stepped, h) && new_base == new_head && s.finality == Finality::Final
                && rollback.len() > 0 ==> s.after_header(h) == Err::<PollState, Error>(
                Error::FinalityViolation,
            ))
            &&& (is_parent(stepped, h) && new_base == new_head && (s.finality == Finality::Optimistic
                || rollback.len() == 0) ==> (s.after_header(h) matches Ok(m) && m.stage == (
            Stage::Fetch {
                head: s.head(),
                join: Some(Join { base: s.stage->base, ancestor: h }),
            }) && m.rollback == rollback && m.apply == apply.reverse() && m.fetched == 0))
        }),
{
}

/// A fetched payload is judged only by the block it names and its shard
/// coverage: it passes exactly when it names the requested block and the
/// block's chunks, the reported shards and the supplied shards are the same
/// shards, none named twice, whatever their number.
pub proof fn law_fetch_verdict(requested: BlockHash, p: PayloadSummary)
    ensures
        fetched_block_verdict(requested, p) is Ok <==> {
            &&& p.header.hash == requested
            &&& p.chunk_shards@.no_duplicates()
            &&& p.tracked_shards@.no_duplicates()
            &&& p.shard_ids@.no_duplicates()
            &&& p.tracked_shards@.to_set() == p.chunk_shards@.to_set()
            &&& p.shard_ids@.to_set() == p.chunk_shards@.to_set()
        },
        fetched_block_verdict(requested, p) is Err ==> fetched_block_verdict(requested, p) matches Err(
            Error::InvalidData(_),
        ),
{
    law_exact_coverage_is_each_shard_once(p.chunk_shards@, p.tracked_shards@, p.shard_ids@);
}

/// Every correct payload is accepted: one that names the planned block with
/// the planned header and supplies each of its shards exactly once moves the
/// poll on by one accepted payload and changes nothing else.
pub proof fn law_correct_payload_accepted(s: PollState, p: PayloadSummary)
    requires
        s.wf(),
        s.awaits_block(),
        p.header == s.apply[s.fetched as int],
        p.chunk_shards@.no_duplicates(),
        p.tracked_shards@.no_duplicates(),
        p.shard_ids@.no_duplicates(),
        p.tracked_shards@.to_set() == p.chunk_shards@.to_set(),
        p.shard_ids@.to_set() == p.chunk_shards@.to_set(),
    ensures
        s.after_block(p) == Ok::<PollState, Error>((PollState { fetched: s.fetched + 1, ..s })),
{
    law_fetch_verdict(p.header.hash, p);
}

/// A payload that disagrees with the planned header in any field is refused,
/// and an accepted payload changes nothing but the count of accepted payloads.
pub proof fn law_payload_answer(s: PollState, p: PayloadSummary)
    requires
        s.wf(),
        s.awaits_block(),
    ensures
        p.header != s.apply[s.fetched as int] ==> s.after_block(p) matches Err(Error::InvalidData(_)),
        s.after_block(p) matches Ok(m) ==> m == (PollState { fetched: s.fetched + 1, ..s }),
{
}

/// A fresh poll holds exactly what it was started with, and nothing walked or
/// fetched.
pub proof fn law_initial_state(
    finality: Finality,
    target: Option<BlockHash>,
    checkpoint: Option<crate::header::Checkpoint>,
    max_ancestry: usize,
)
    ensures
        ({
            let s = PollState::initial(finality, target, checkpoint, max_ancestry);
            &&& s.finality == finality
            &&& s.target == target
            &&& s.checkpoint == checkpoint
            &&& s.max_ancestry == max_ancestry
            &&& s.stage == Stage::AwaitHead
            &&& s.rollback.len() == 0
            &&& s.apply.len() == 0
            &&& s.fetched == 0
            &&& (max_ancestry > 0 ==> s.wf())
        }),
{
}

/// Payloads are fetched in the order of application, one per planned block,
/// and the poll is complete once each has been accepted.
pub proof fn law_fetch_request(s: PollState)
    requires
        s.wf(),
        s.stage is Fetch,
    ensures
        s.fetched < s.apply.len() ==> s.pending() == Request::BlockOf(s.apply[s.fetched as int].hash),
        s.fetched == s.apply.len() ==> s.pending() == Request::Complete && s.is_complete(),
        s.head() == s.stage->Fetch_head,
{
}

/// A parent is a header with the child's parent hash that stands strictly
/// lower; heights may skip.
pub proof fn law_parent_link(child: Header, parent: Header)
    ensures
        is_parent(child, parent) <==> (parent.hash == child.prev_hash && parent.height < child.height),
{
}

/// A block's checkpoint names that block at its height.
pub proof fn law_checkpoint_names_block(h: Header)
    ensures
        h.as_checkpoint().hash == h.hash,
        h.as_checkpoint().height == h.height,
{
}

} // verus!
