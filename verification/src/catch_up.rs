//! Catching up against a node that answers consistently: the whole ancestry
//! walk as a function of the node's answers, and the law that catching up in
//! two steps applies what catching up in one does.
use vstd::prelude::*;
use crate::ancestry::is_parent;
use crate::error::Error;
use crate::hash::BlockHash;
use crate::header::{Checkpoint, Finality, Header};
use crate::laws::law_walk_is_bounded;
use crate::session::{lemma_after_header_keeps_wf, PollState, Stage};

verus! {

/// The state where the ancestry walk from `s` ends when every parent request
/// is answered by `node`, which gives the header it holds for each hash.
pub open spec fn walk_with(s: PollState, node: spec_fn(BlockHash) -> Header) -> Result<
    PollState,
    Error,
>
    decreases s.max_ancestry - (s.rollback.len() + s.apply.len()),
{
    if s.wf() && s.stage is Walk {
        let answer = node(s.pending()->HeaderOf_0);
        match s.after_header(answer) {
            Ok(m) => {
                proof {
                    law_walk_is_bounded(s, answer);
                }
                walk_with(m, node)
            },
            Err(e) => Err(e),
        }
    } else {
        Ok(s)
    }
}

/// The state a poll from `checkpoint` reaches once its ancestry walk ends, when
/// the head is `head` and every header lookup is answered by `node`.
pub open spec fn catch_up(
    node: spec_fn(BlockHash) -> Header,
    checkpoint: Checkpoint,
    head: Header,
    finality: Finality,
    max_ancestry: usize,
) -> Result<PollState, Error> {
    if max_ancestry == 0 {
        Err(Error::AncestryLimit(0))
    } else {
        match PollState::initial(finality, None, Some(checkpoint), max_ancestry).after_header(head) {
            Ok(s) => match s.after_header(node(checkpoint.hash)) {
                Ok(m) => walk_with(m, node),
                Err(e) => Err(e),
            },
            Err(e) => Err(e),
        }
    }
}

/// The state an update pinned to `target` from `checkpoint` reaches once its
/// ancestry walk ends, when every header lookup is answered by `node`.
pub open spec fn pinned_catch_up(
    node: spec_fn(BlockHash) -> Header,
    checkpoint: Checkpoint,
    target: BlockHash,
    max_ancestry: usize,
) -> Result<PollState, Error> {
    if max_ancestry == 0 {
        Err(Error::AncestryLimit(0))
    } else {
        match PollState::initial(Finality::Optimistic, Some(target), Some(checkpoint), max_ancestry).after_header(
            node(target),
        ) {
            Ok(s) => match s.after_header(node(checkpoint.hash)) {
                Ok(m) => walk_with(m, node),
                Err(e) => Err(e),
            },
            Err(e) => Err(e),
        }
    }
}

/// The `k` headers met walking parents from `x` through `node`, newest first.
pub open spec fn chain_from(node: spec_fn(BlockHash) -> Header, x: Header, k: nat) -> Seq<Header>
    decreases k,
{
    if k == 0 {
        Seq::empty()
    } else {
        seq![x] + chain_from(node, node(x.prev_hash), (k - 1) as nat)
    }
}

/// Walking parents from `x` through `node`, the `k`-th parent is `base`, and
/// every header before it is a valid child standing above `base` with another
/// hash.
pub open spec fn climbs_to(node: spec_fn(BlockHash) -> Header, x: Header, k: nat, base: Header) -> bool
    decreases k,
{
    if k == 0 {
        false
    } else {
        &&& x.hash != base.hash
        &&& base.height < x.height
        &&& is_parent(x, node(x.prev_hash))
        &&& if k == 1 {
            node(x.prev_hash) == base
        } else {
            climbs_to(node, node(x.prev_hash), (k - 1) as nat, base)
        }
    }
}

proof fn lemma_chain_len(node: spec_fn(BlockHash) -> Header, x: Header, k: nat)
    ensures
        chain_from(node, x, k).len() == k,
    decreases k,
{
    if k > 0 {
        lemma_chain_len(node, node(x.prev_hash), (k - 1) as nat);
    }
}

/// A walk never shortens its rollback.
proof fn lemma_rollback_grows(s: PollState, node: spec_fn(BlockHash) -> Header)
    requires
        walk_with(s, node) is Ok,
    ensures
        walk_with(s, node)->Ok_0.rollback.len() >= s.rollback.len(),
    decreases s.max_ancestry - (s.rollback.len() + s.apply.len()),
{
    if s.wf() && s.stage is Walk {
        let answer = node(s.pending()->HeaderOf_0);
        law_walk_is_bounded(s, answer);
        if let Ok(m) = s.after_header(answer) {
            lemma_rollback_grows(m, node);
        }
    }
}

/// A walk that ends with nothing to roll back only ever stepped the head's
/// side: it climbed from the head's frontier down to the checkpoint's block.
proof fn lemma_walk_without_rollback(
    s: PollState,
    node: spec_fn(BlockHash) -> Header,
    head: Header,
    base: Header,
    b: Header,
    x: Header,
) -> (k: nat)
    requires
        s.wf(),
        s.stage == (Stage::Walk { head, base, from_base: b, from_head: x }),
        s.rollback.len() == 0,
        walk_with(s, node) matches Ok(m) && m.rollback.len() == 0,
    ensures
        climbs_to(node, x, k, b),
        walk_with(s, node)->Ok_0.stage is Fetch,
        walk_with(s, node)->Ok_0.apply == (s.apply + chain_from(node, x, k)).reverse(),
    decreases s.max_ancestry - (s.rollback.len() + s.apply.len()),
{
    let answer = node(s.pending()->HeaderOf_0);
    law_walk_is_bounded(s, answer);
    lemma_after_header_keeps_wf(s, answer);
    let m1 = s.after_header(answer)->Ok_0;
    if b.height >= x.height {
        if m1.stage is Walk {
            lemma_rollback_grows(m1, node);
        }
        assert(false);
        0
    } else {
        assert(answer == node(x.prev_hash));
        if m1.stage is Fetch {
            assert(chain_from(node, node(x.prev_hash), 0) =~= Seq::<Header>::empty());
        assert(chain_from(node, x, 1) =~= seq![x]);
            assert(s.apply + seq![x] =~= s.apply.push(x));
            1
        } else {
            let k1 = lemma_walk_without_rollback(m1, node, head, base, b, answer);
            assert(chain_from(node, x, k1 + 1) == seq![x] + chain_from(node, answer, k1));
            assert(s.apply.push(x) + chain_from(node, answer, k1) =~= s.apply + chain_from(
                node,
                x,
                k1 + 1,
            ));
            k1 + 1
        }
    }
}

/// A walk whose head's frontier climbs to the checkpoint's block within the
/// bound ends there, with nothing to roll back.
proof fn lemma_walk_climbs(
    s: PollState,
    node: spec_fn(BlockHash) -> Header,
    head: Header,
    base: Header,
    b: Header,
    x: Header,
    k: nat,
)
    requires
        s.wf(),
        s.stage == (Stage::Walk { head, base, from_base: b, from_head: x }),
        s.rollback.len() == 0,
        climbs_to(node, x, k, b),
        s.apply.len() + k <= s.max_ancestry,
    ensures
        walk_with(s, node) matches Ok(m) && m.stage is Fetch && m.rollback.len() == 0 && m.apply == (
        s.apply + chain_from(node, x, k)).reverse() && m.finality == s.finality,
    decreases k,
{
    let answer = node(x.prev_hash);
    assert(s.pending() == crate::session::Request::HeaderOf(x.prev_hash));
    law_walk_is_bounded(s, answer);
    lemma_after_header_keeps_wf(s, answer);
    if k == 1 {
        assert(chain_from(node, node(x.prev_hash), 0) =~= Seq::<Header>::empty());
        assert(chain_from(node, x, 1) =~= seq![x]);
        assert(s.apply + seq![x] =~= s.apply.push(x));
    } else {
        assert(climbs_to(node, answer, (k - 1) as nat, b));
        assert(answer.hash != b.hash);
        let m1 = s.after_header(answer)->Ok_0;
        assert(m1.stage == (Stage::Walk { head, base, from_base: b, from_head: answer }));
        lemma_walk_climbs(m1, node, head, base, b, answer, (k - 1) as nat);
        assert(s.apply.push(x) + chain_from(node, answer, (k - 1) as nat) =~= s.apply + chain_from(
            node,
            x,
            k,
        ));
    }
}

/// Two climbs through a block join into one climb, when the node's lookups
/// of the start and of the end agree with them.
proof fn lemma_climbs_join(
    node: spec_fn(BlockHash) -> Header,
    x: Header,
    k2: nat,
    mid: Header,
    k1: nat,
    base: Header,
)
    requires
        climbs_to(node, x, k2, mid),
        climbs_to(node, mid, k1, base),
        node(x.hash) == x,
        node(base.hash) == base,
    ensures
        climbs_to(node, x, k2 + k1, base),
        chain_from(node, x, k2 + k1) == chain_from(node, x, k2) + chain_from(node, mid, k1),
    decreases k2,
{
    let y = node(x.prev_hash);
    if k2 == 1 {
        assert(chain_from(node, node(x.prev_hash), 0) =~= Seq::<Header>::empty());
        assert(chain_from(node, x, 1) =~= seq![x]);
        assert(chain_from(node, x, k2 + k1) =~= seq![x] + chain_from(node, mid, k1));
    } else {
        lemma_climbs_join(node, y, (k2 - 1) as nat, mid, k1, base);
        assert(chain_from(node, x, k2 + k1) =~= seq![x] + chain_from(node, y, (k2 - 1 + k1) as nat));
        assert(chain_from(node, x, k2) =~= seq![x] + chain_from(node, y, (k2 - 1) as nat));
        assert(chain_from(node, x, k2 + k1) =~= chain_from(node, x, k2) + chain_from(node, mid, k1));
    }
}

/// The heights along a climb stand above its end.
proof fn lemma_climb_above(node: spec_fn(BlockHash) -> Header, x: Header, k: nat, base: Header)
    requires
        climbs_to(node, x, k, base),
    ensures
        base.height < x.height,
{
}

/// Catching up in two steps applies the same blocks, in the same order, as
/// catching up in one: if a poll from checkpoint `c` with head `h1` applies `a1`
/// and rolls back nothing, and a poll from `h1`'s checkpoint with head `h2`
/// applies `a2` and rolls back nothing, then a poll from `c` with head `h2`,
/// within the bound, applies `a1` followed by `a2` and rolls back nothing. The
/// node answers consistently: it holds one header per hash, and its lookups of
/// the two heads give the heads themselves.
pub proof fn law_two_step_catch_up(
    node: spec_fn(BlockHash) -> Header,
    finality: Finality,
    max_ancestry: usize,
    c: Checkpoint,
    h1: Header,
    h2: Header,
    a1: Seq<Header>,
    a2: Seq<Header>,
)
    requires
        node(h1.hash) == h1,
        node(h2.hash) == h2,
        catch_up(node, c, h1, finality, max_ancestry) matches Ok(m) && m.stage is Fetch
            && m.rollback.len() == 0 && m.apply == a1,
        catch_up(node, h1.as_checkpoint(), h2, finality, max_ancestry) matches Ok(m) && m.stage is Fetch
            && m.rollback.len() == 0 && m.apply == a2,
        a1.len() + a2.len() <= max_ancestry,
    ensures
        catch_up(node, c, h2, finality, max_ancestry) matches Ok(m) && m.stage is Fetch
            && m.rollback.len() == 0 && m.apply == a1 + a2,
{
    let cb = node(c.hash);
    let init = PollState::initial(finality, None, Some(c), max_ancestry);
    let p1 = init.after_header(h1)->Ok_0;
    let p3 = init.after_header(h2)->Ok_0;
    let init2 = PollState::initial(finality, None, Some(h1.as_checkpoint()), max_ancestry);
    let p2 = init2.after_header(h2)->Ok_0;
    lemma_after_header_keeps_wf(init, h1);
    lemma_after_header_keeps_wf(init, h2);
    lemma_after_header_keeps_wf(init2, h2);
    lemma_after_header_keeps_wf(p1, cb);
    lemma_after_header_keeps_wf(p3, cb);
    lemma_after_header_keeps_wf(p2, h1);
    assert(Seq::<Header>::empty().reverse() =~= Seq::<Header>::empty());
    assert(cb.as_checkpoint() == c);
    if cb.hash == h1.hash {
        assert(cb == h1);
        assert(a1 =~= Seq::<Header>::empty());
        assert(a1 + a2 =~= a2);
    } else {
        let w1 = p1.after_header(cb)->Ok_0;
        let k1 = lemma_walk_without_rollback(w1, node, h1, cb, cb, h1);
        assert(Seq::<Header>::empty() + chain_from(node, h1, k1) =~= chain_from(node, h1, k1));
        if h1.hash == h2.hash {
            assert(h1 == h2);
            assert(a2 =~= Seq::<Header>::empty());
            assert(a1 + a2 =~= a1);
        } else {
            let w2 = p2.after_header(h1)->Ok_0;
            let k2 = lemma_walk_without_rollback(w2, node, h2, h1, h1, h2);
            assert(Seq::<Header>::empty() + chain_from(node, h2, k2) =~= chain_from(node, h2, k2));
            lemma_climbs_join(node, h2, k2, h1, k1, cb);
            lemma_chain_len(node, h1, k1);
            lemma_chain_len(node, h2, k2);
            let ch1 = chain_from(node, h1, k1);
            let ch2 = chain_from(node, h2, k2);
            assert(a1.len() == k1 && a2.len() == k2);
            let w3 = p3.after_header(cb)->Ok_0;
            assert(w3.stage == (Stage::Walk { head: h2, base: cb, from_base: cb, from_head: h2 }));
            lemma_walk_climbs(w3, node, h2, cb, cb, h2, k2 + k1);
            assert(Seq::<Header>::empty() + chain_from(node, h2, k2 + k1) =~= ch2 + ch1);
            assert((ch2 + ch1).reverse() =~= ch1.reverse() + ch2.reverse());
        }
    }
}

/// A poll whose head climbs through the node's parents to the checkpoint's
/// block in `k` steps, with `k` within the bound, completes: it rolls back
/// nothing and applies exactly those `k` blocks, oldest first. Heights may skip:
/// only the number of blocks counts against the bound.
pub proof fn law_catch_up_within_bound(
    node: spec_fn(BlockHash) -> Header,
    c: Checkpoint,
    head: Header,
    finality: Finality,
    max_ancestry: usize,
    k: nat,
)
    requires
        node(c.hash).as_checkpoint() == c,
        climbs_to(node, head, k, node(c.hash)),
        k <= max_ancestry,
    ensures
        catch_up(node, c, head, finality, max_ancestry) matches Ok(m) && m.stage is Fetch
            && m.rollback.len() == 0 && m.apply.len() == k && m.apply == chain_from(
            node,
            head,
            k,
        ).reverse(),
{
    let cb = node(c.hash);
    let init = PollState::initial(finality, None, Some(c), max_ancestry);
    lemma_after_header_keeps_wf(init, head);
    let p = init.after_header(head)->Ok_0;
    lemma_after_header_keeps_wf(p, cb);
    let w = p.after_header(cb)->Ok_0;
    assert(w.stage == (Stage::Walk { head, base: cb, from_base: cb, from_head: head }));
    lemma_walk_climbs(w, node, head, cb, cb, head, k);
    assert(Seq::<Header>::empty() + chain_from(node, head, k) =~= chain_from(node, head, k));
    lemma_chain_len(node, head, k);
}

/// An update pinned to `target`, whose header climbs through the node's parents
/// to the checkpoint's block in `k` steps within the bound, completes without
/// claiming finality: it rolls back nothing and applies exactly those `k`
/// blocks, however far apart their heights are.
pub proof fn law_pinned_catch_up_within_bound(
    node: spec_fn(BlockHash) -> Header,
    c: Checkpoint,
    target: BlockHash,
    max_ancestry: usize,
    k: nat,
)
    requires
        node(target).hash == target,
        node(c.hash).as_checkpoint() == c,
        climbs_to(node, node(target), k, node(c.hash)),
        k <= max_ancestry,
    ensures
        pinned_catch_up(node, c, target, max_ancestry) matches Ok(m) && m.stage is Fetch
            && m.finality == Finality::Optimistic && m.rollback.len() == 0 && m.apply.len() == k
            && m.apply == chain_from(node, node(target), k).reverse(),
{
    let cb = node(c.hash);
    let head = node(target);
    let init = PollState::initial(Finality::Optimistic, Some(target), Some(c), max_ancestry);
    lemma_after_header_keeps_wf(init, head);
    let p = init.after_header(head)->Ok_0;
    lemma_after_header_keeps_wf(p, cb);
    let w = p.after_header(cb)->Ok_0;
    assert(w.stage == (Stage::Walk { head, base: cb, from_base: cb, from_head: head }));
    lemma_walk_climbs(w, node, head, cb, cb, head, k);
    assert(Seq::<Header>::empty() + chain_from(node, head, k) =~= chain_from(node, head, k));
    lemma_chain_len(node, head, k);
}

} // verus!
