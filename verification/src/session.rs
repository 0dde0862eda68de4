//! The decisions of one poll, as a state machine driven by its caller.
//!
//! The caller asks [`PollSession::next_request`] what to fetch, performs the
//! fetch, and hands the answer back through [`PollSession::on_header`] or
//! [`PollSession::on_block`]; each answer is judged before the session moves
//! on. When nothing is left to fetch, [`PollSession::finish`] gives the update.
use vstd::prelude::*;
use crate::ancestry::{
    avoids_hash, check_parent, descends_to, disjoint_hashes, heights_agree, is_descent, is_parent,
    is_reorg_path, meets_at_latest,
};
use crate::error::Error;
use crate::hash::BlockHash;
use crate::header::{Checkpoint, Finality, Header};
use crate::payload::{check_fetched_block, fetched_block_verdict, PayloadSummary};

verus! {

/// What the caller must fetch next.
#[derive(Clone, Copy, Debug)]
pub enum Request {
    /// The header of the current head at this finality.
    HeadAt(Finality),
    /// The header of the block with this hash.
    HeaderOf(BlockHash),
    /// The complete indexer payload of the block with this hash.
    BlockOf(BlockHash),
    /// Nothing: the update is complete.
    Complete,
}

/// Where the checkpoint's ancestry met the head's.
#[derive(Clone, Copy, Debug)]
pub struct Join {
    /// The block that the checkpoint names.
    pub base: Header,
    /// The first block that both ancestries reach.
    pub ancestor: Header,
}

/// How far a poll has come.
#[derive(Clone, Copy, Debug)]
pub enum Stage {
    /// Waiting for the head's header.
    AwaitHead,
    /// Waiting for the header of the checkpoint's block.
    AwaitBase { head: Header },
    /// Walking parents: `from_base` descends from the checkpoint's block, `from_head` from
    /// the head, until both reach the same hash.
    Walk { head: Header, base: Header, from_base: Header, from_head: Header },
    /// Fetching the payloads of the blocks to apply; `join` is `None` when
    /// there was no checkpoint.
    Fetch { head: Header, join: Option<Join> },
}

/// The mathematical state of a poll.
pub struct PollState {
    /// Finality reported by the update; `Final` refuses any rollback.
    pub finality: Finality,
    /// The hash the head must have, when the caller pinned it.
    pub target: Option<BlockHash>,
    /// Bound on rollback plus apply blocks.
    pub max_ancestry: usize,
    /// The consumer's saved checkpoint, exclusive.
    pub checkpoint: Option<Checkpoint>,
    /// How far the poll has come.
    pub stage: Stage,
    /// Headers to undo, newest first.
    pub rollback: Seq<Header>,
    /// Headers to apply: newest first while walking, oldest first once fetching.
    pub apply: Seq<Header>,
    /// How many payloads have been accepted.
    pub fetched: nat,
}

/// What the walk's rule of stepping the higher side keeps: every replaced
/// block stands at least as high as the head's frontier, every applied block
/// stands above the checkpoint's frontier, and, when the node gave one height
/// per hash, the two sides have shared no hash so far.
pub open spec fn walk_meets_first(
    rollback: Seq<Header>,
    apply: Seq<Header>,
    from_base: Header,
    from_head: Header,
) -> bool {
    &&& forall|i: int| 0 <= i < rollback.len() ==> #[trigger] rollback[i].height >= from_head.height
    &&& forall|k: int| 0 <= k < apply.len() ==> #[trigger] apply[k].height > from_base.height
    &&& heights_agree(rollback + apply + seq![from_base, from_head]) ==> {
        &&& disjoint_hashes(rollback, apply)
        &&& avoids_hash(rollback, from_head.hash)
        &&& avoids_hash(apply, from_base.hash)
    }
}

impl PollState {
    /// The state of a poll that has fetched nothing yet.
    pub open spec fn initial(
        finality: Finality,
        target: Option<BlockHash>,
        checkpoint: Option<Checkpoint>,
        max_ancestry: usize,
    ) -> PollState {
        PollState {
            finality,
            target,
            max_ancestry,
            checkpoint,
            stage: Stage::AwaitHead,
            rollback: Seq::empty(),
            apply: Seq::empty(),
            fetched: 0,
        }
    }

    /// A head is acceptable when it has the pinned hash, if any.
    pub open spec fn head_ok(self, head: Header) -> bool {
        self.target matches Some(t) ==> head.hash == t
    }

    /// The invariant that every step keeps.
    pub open spec fn wf(self) -> bool {
        &&& self.max_ancestry > 0
        &&& match self.stage {
            Stage::AwaitHead => {
                &&& self.rollback.len() == 0
                &&& self.apply.len() == 0
                &&& self.fetched == 0
            },
            Stage::AwaitBase { head } => {
                &&& self.checkpoint is Some
                &&& self.head_ok(head)
                &&& self.rollback.len() == 0
                &&& self.apply.len() == 0
                &&& self.fetched == 0
            },
            Stage::Walk { head, base, from_base, from_head } => {
                &&& self.checkpoint == Some(base.as_checkpoint())
                &&& self.head_ok(head)
                &&& from_base.hash != from_head.hash
                &&& self.rollback.len() + self.apply.len() < self.max_ancestry
                &&& descends_to(base, self.rollback, from_base)
                &&& descends_to(head, self.apply, from_head)
                &&& self.fetched == 0
                &&& walk_meets_first(self.rollback, self.apply, from_base, from_head)
            },
            Stage::Fetch { head, join } => {
                &&& self.head_ok(head)
                &&& self.fetched <= self.apply.len()
                &&& (self.finality == Finality::Final ==> self.rollback.len() == 0)
                &&& self.rollback.len() + self.apply.len() <= self.max_ancestry
                &&& match join {
                    None => {
                        &&& self.checkpoint is None
                        &&& self.rollback.len() == 0
                        &&& self.apply == seq![head]
                    },
                    Some(j) => {
                        &&& self.checkpoint == Some(j.base.as_checkpoint())
                        &&& is_reorg_path(j.base, head, self.rollback, self.apply, j.ancestor)
                        &&& heights_agree(self.rollback + self.apply + seq![j.ancestor])
                            ==> meets_at_latest(self.rollback, self.apply, j.ancestor)
                    },
                }
            },
        }
    }

    /// What the caller must fetch next.
    pub open spec fn pending(self) -> Request {
        match self.stage {
            Stage::AwaitHead => match self.target {
                Some(t) => Request::HeaderOf(t),
                None => Request::HeadAt(self.finality),
            },
            Stage::AwaitBase { .. } => Request::HeaderOf(self.checkpoint->Some_0.hash),
            Stage::Walk { from_base, from_head, .. } => if from_base.height >= from_head.height {
                Request::HeaderOf(from_base.prev_hash)
            } else {
                Request::HeaderOf(from_head.prev_hash)
            },
            Stage::Fetch { .. } => if self.fetched < self.apply.len() {
                Request::BlockOf(self.apply[self.fetched as int].hash)
            } else {
                Request::Complete
            },
        }
    }

    /// The poll is waiting for a header.
    pub open spec fn awaits_header(self) -> bool {
        !(self.stage is Fetch)
    }

    /// The poll is waiting for a block payload.
    pub open spec fn awaits_block(self) -> bool {
        self.stage is Fetch && self.fetched < self.apply.len()
    }

    /// Every payload has been accepted.
    pub open spec fn is_complete(self) -> bool {
        self.stage is Fetch && self.fetched == self.apply.len()
    }

    /// The head of a poll that has one.
    pub open spec fn head(self) -> Header {
        match self.stage {
            Stage::AwaitHead => arbitrary(),
            Stage::AwaitBase { head } => head,
            Stage::Walk { head, .. } => head,
            Stage::Fetch { head, .. } => head,
        }
    }

    /// The end of one walk step: `from_base` and `from_head` are the walk's new frontiers.
    /// Matching hashes end the walk; otherwise the walk goes on unless the
    /// ancestry bound is reached.
    pub open spec fn settle(self, head: Header, base: Header, from_base: Header, from_head: Header) -> Result<
        PollState,
        Error,
    > {
        if from_base.hash == from_head.hash {
            if from_base != from_head {
                Err(Error::InvalidData("same hash returned inconsistent headers"))
            } else if self.finality == Finality::Final && self.rollback.len() > 0 {
                Err(Error::FinalityViolation)
            } else {
                Ok(
                    PollState {
                        stage: Stage::Fetch { head, join: Some(Join { base, ancestor: from_base }) },
                        apply: self.apply.reverse(),
                        ..self
                    },
                )
            }
        } else if self.rollback.len() + self.apply.len() >= self.max_ancestry {
            Err(Error::AncestryLimit(self.max_ancestry))
        } else {
            Ok(PollState { stage: Stage::Walk { head, base, from_base, from_head }, ..self })
        }
    }

    /// The poll after the header `h` answers a header request.
    pub open spec fn after_header(self, h: Header) -> Result<PollState, Error> {
        match self.stage {
            Stage::AwaitHead => if !self.head_ok(h) {
                Err(Error::InvalidData("requested hash differs from returned header"))
            } else if self.checkpoint is None {
                Ok(PollState { stage: Stage::Fetch { head: h, join: None }, apply: seq![h], ..self })
            } else {
                Ok(PollState { stage: Stage::AwaitBase { head: h }, ..self })
            },
            Stage::AwaitBase { head } => if Some(h.as_checkpoint()) != self.checkpoint {
                Err(Error::InvalidData("checkpoint does not match node history"))
            } else {
                self.settle(head, h, h, head)
            },
            Stage::Walk { head, base, from_base, from_head } => if from_base.height >= from_head.height {
                if !is_parent(from_base, h) {
                    Err(Error::InvalidData("broken ancestry or no common ancestor"))
                } else {
                    PollState { rollback: self.rollback.push(from_base), ..self }.settle(head, base, h, from_head)
                }
            } else {
                if !is_parent(from_head, h) {
                    Err(Error::InvalidData("broken ancestry or no common ancestor"))
                } else {
                    PollState { apply: self.apply.push(from_head), ..self }.settle(head, base, from_base, h)
                }
            },
            Stage::Fetch { .. } => Ok(self),
        }
    }

    /// The poll after `payload` answers a block request.
    pub open spec fn after_block(self, payload: PayloadSummary) -> Result<PollState, Error> {
        let expected = self.apply[self.fetched as int];
        match fetched_block_verdict(expected.hash, payload) {
            Err(e) => Err(e),
            Ok(_) => if payload.header != expected {
                Err(Error::InvalidData("indexer payload differs from ancestry header"))
            } else {
                Ok(PollState { fetched: self.fetched + 1, ..self })
            },
        }
    }
}

/// Work to apply atomically with its checkpoint; dropping it acknowledges nothing.
#[derive(Debug)]
pub struct Update<B> {
    /// Finality of the sampled head.
    pub finality: Finality,
    /// Sampled head and its recorded finality marker.
    pub head: Header,
    /// Undo this replaced ancestry in newest-first order.
    pub rollback: Vec<Header>,
    /// Process these complete payloads in oldest-first order.
    pub blocks: Vec<B>,
    /// Persist only after successfully processing the entire update.
    pub next_checkpoint: Checkpoint,
}

/// One poll in progress; `B` is the caller's payload type.
pub struct PollSession<B> {
    finality: Finality,
    target: Option<BlockHash>,
    max_ancestry: usize,
    checkpoint: Option<Checkpoint>,
    stage: Stage,
    rollback: Vec<Header>,
    apply: Vec<Header>,
    blocks: Vec<B>,
}

impl<B> View for PollSession<B> {
    type V = PollState;

    closed spec fn view(&self) -> PollState {
        PollState {
            finality: self.finality,
            target: self.target,
            max_ancestry: self.max_ancestry,
            checkpoint: self.checkpoint,
            stage: self.stage,
            rollback: self.rollback@,
            apply: self.apply@,
            fetched: self.blocks@.len(),
        }
    }
}

/// The items of `v` in reverse order.
fn reversed(v: &Vec<Header>) -> (r: Vec<Header>)
    ensures
        r@ == v@.reverse(),
{
    let mut r: Vec<Header> = Vec::new();
    let mut k: usize = v.len();
    while k > 0
        invariant
            k <= v.len(),
            r@.len() == v.len() - k,
            forall|j: int| 0 <= j < r@.len() ==> r@[j] == v@[v.len() - 1 - j],
        decreases k,
    {
        k = k - 1;
        r.push(v[k]);
    }
    assert(r@ =~= v@.reverse());
    r
}

impl<B> PollSession<B> {
    /// The payloads accepted so far, in order.
    pub closed spec fn payloads(&self) -> Seq<B> {
        self.blocks@
    }

    /// One payload has been accepted for each fetched block.
    pub proof fn lemma_payload_count(&self)
        ensures
            self.payloads().len() == self@.fetched,
    {
    }

    /// Start a poll. `target` pins the head to one hash; `None` samples the
    /// head at `finality`. A zero bound rejects the poll.
    pub fn start(
        finality: Finality,
        target: Option<BlockHash>,
        checkpoint: Option<Checkpoint>,
        max_ancestry: usize,
    ) -> (r: Result<PollSession<B>, Error>)
        ensures
            max_ancestry == 0 ==> r == Err::<PollSession<B>, Error>(Error::AncestryLimit(0)),
            max_ancestry > 0 ==> r is Ok,
            r matches Ok(s) ==> s@ == PollState::initial(finality, target, checkpoint, max_ancestry)
                && s.payloads() == Seq::<B>::empty() && s@.wf(),
    {
        if max_ancestry == 0 {
            return Err(Error::AncestryLimit(0));
        }
        let s = PollSession {
            finality,
            target,
            max_ancestry,
            checkpoint,
            stage: Stage::AwaitHead,
            rollback: Vec::new(),
            apply: Vec::new(),
            blocks: Vec::new(),
        };
        assert(s@.rollback =~= Seq::<Header>::empty());
        assert(s@.apply =~= Seq::<Header>::empty());
        Ok(s)
    }

    /// What the caller must fetch next.
    pub fn next_request(&self) -> (r: Request)
        requires
            self@.wf(),
        ensures
            r == self@.pending(),
    {
        match self.stage {
            Stage::AwaitHead => match self.target {
                Some(t) => Request::HeaderOf(t),
                None => Request::HeadAt(self.finality),
            },
            Stage::AwaitBase { .. } => {
                let cp = self.checkpoint.unwrap();
                Request::HeaderOf(cp.hash)
            },
            Stage::Walk { from_base, from_head, .. } => if from_base.height >= from_head.height {
                Request::HeaderOf(from_base.prev_hash)
            } else {
                Request::HeaderOf(from_head.prev_hash)
            },
            Stage::Fetch { .. } => if self.blocks.len() < self.apply.len() {
                Request::BlockOf(self.apply[self.blocks.len()].hash)
            } else {
                Request::Complete
            },
        }
    }

    /// End a walk step with frontiers `from_base` and `from_head`.
    fn settle(&mut self, head: Header, base: Header, from_base: Header, from_head: Header) -> (r: Result<(), Error>)
        requires
            old(self)@.rollback.len() + old(self)@.apply.len() <= old(self)@.max_ancestry,
        ensures
            match old(self)@.settle(head, base, from_base, from_head) {
                Ok(m) => r is Ok && final(self)@ == m,
                Err(e) => r == Err::<(), Error>(e),
            },
            final(self).payloads() == old(self).payloads(),
    {
        if from_base.hash.same_as(&from_head.hash) {
            if !from_base.same_as(&from_head) {
                return Err(Error::InvalidData("same hash returned inconsistent headers"));
            }
            if self.finality == Finality::Final && self.rollback.len() > 0 {
                return Err(Error::FinalityViolation);
            }
            let applied = reversed(&self.apply);
            self.apply = applied;
            self.stage = Stage::Fetch { head, join: Some(Join { base, ancestor: from_base }) };
            Ok(())
        } else if self.rollback.len() + self.apply.len() >= self.max_ancestry {
            Err(Error::AncestryLimit(self.max_ancestry))
        } else {
            self.stage = Stage::Walk { head, base, from_base, from_head };
            Ok(())
        }
    }

    /// Hand back the header that answers a header request.
    pub fn on_header(&mut self, h: Header) -> (r: Result<(), Error>)
        requires
            old(self)@.wf(),
            old(self)@.awaits_header(),
        ensures
            match old(self)@.after_header(h) {
                Ok(m) => r is Ok && final(self)@ == m,
                Err(e) => r == Err::<(), Error>(e),
            },
            final(self).payloads() == old(self).payloads(),
            r is Ok ==> final(self)@.wf(),
    {
        proof {
            lemma_after_header_keeps_wf(self@, h);
        }
        match self.stage {
            Stage::AwaitHead => {
                if let Some(t) = self.target {
                    if !h.hash.same_as(&t) {
                        return Err(Error::InvalidData("requested hash differs from returned header"));
                    }
                }
                match self.checkpoint {
                    None => {
                        self.apply.push(h);
                        self.stage = Stage::Fetch { head: h, join: None };
                        assert(self@.apply =~= seq![h]);
                    },
                    Some(_) => {
                        self.stage = Stage::AwaitBase { head: h };
                    },
                }
                Ok(())
            },
            Stage::AwaitBase { head } => {
                let cp = self.checkpoint.unwrap();
                if !h.checkpoint().same_as(&cp) {
                    return Err(Error::InvalidData("checkpoint does not match node history"));
                }
                self.settle(head, h, h, head)
            },
            Stage::Walk { head, base, from_base, from_head } => {
                if from_base.height >= from_head.height {
                    check_parent(&from_base, &h)?;
                    self.rollback.push(from_base);
                    self.settle(head, base, h, from_head)
                } else {
                    check_parent(&from_head, &h)?;
                    self.apply.push(from_head);
                    self.settle(head, base, from_base, h)
                }
            },
            Stage::Fetch { .. } => Ok(()),
        }
    }

    /// Hand back the payload that answers a block request: `payload` holds
    /// what the checks read of `block`.
    pub fn on_block(&mut self, payload: &PayloadSummary, block: B) -> (r: Result<(), Error>)
        requires
            old(self)@.wf(),
            old(self)@.awaits_block(),
        ensures
            match old(self)@.after_block(*payload) {
                Ok(m) => r is Ok && final(self)@ == m && final(self).payloads() == old(
                    self,
                ).payloads().push(block),
                Err(e) => r == Err::<(), Error>(e),
            },
            r is Ok ==> final(self)@.wf(),
    {
        let expected = self.apply[self.blocks.len()];
        check_fetched_block(&expected.hash, payload)?;
        if !payload.header.same_as(&expected) {
            return Err(Error::InvalidData("indexer payload differs from ancestry header"));
        }
        self.blocks.push(block);
        Ok(())
    }

    /// The finished update.
    pub fn finish(self) -> (u: Update<B>)
        requires
            self@.wf(),
            self@.is_complete(),
        ensures
            u.finality == self@.finality,
            u.head == self@.head(),
            u.rollback@ == self@.rollback,
            u.blocks@ == self.payloads(),
            u.blocks@.len() == self@.apply.len(),
            u.next_checkpoint == self@.head().as_checkpoint(),
    {
        let head = match self.stage {
            Stage::Fetch { head, .. } => head,
            _ => vstd::pervasive::unreached(),
        };
        Update {
            finality: self.finality,
            head,
            rollback: self.rollback,
            blocks: self.blocks,
            next_checkpoint: head.checkpoint(),
        }
    }
}

/// Extending a descent by the parent of its last header keeps it a descent
/// from the same top.
proof fn lemma_descends_extend(top: Header, chain: Seq<Header>, bottom: Header, parent: Header)
    requires
        descends_to(top, chain, bottom),
        is_parent(bottom, parent),
    ensures
        descends_to(top, chain.push(bottom), parent),
{
    let s = chain.push(bottom);
    let t = s.push(parent);
    assert forall|i: int, j: int| 0 <= i && j == i + 1 && j < t.len() implies #[trigger] is_parent(
        t[i],
        t[j],
    ) by {
        if j < s.len() {
            assert(is_parent(s[i], s[j]));
        }
    }
}

/// Agreement of heights carries over to any sequence whose headers all occur
/// in an agreeing one.
proof fn lemma_agree_within(small: Seq<Header>, big: Seq<Header>)
    requires
        heights_agree(big),
        forall|x: Header| small.contains(x) ==> big.contains(x),
    ensures
        heights_agree(small),
{
    assert forall|x: Header, y: Header|
        small.contains(x) && small.contains(y) && x.hash == y.hash implies x.height == y.height by {
        assert(big.contains(x) && big.contains(y));
    }
}

/// Stepping the checkpoint's side keeps the walk's meeting facts.
proof fn lemma_base_step(r: Seq<Header>, a: Seq<Header>, from_base: Header, from_head: Header, p: Header)
    requires
        walk_meets_first(r, a, from_base, from_head),
        from_base.hash != from_head.hash,
        from_base.height >= from_head.height,
        is_parent(from_base, p),
    ensures
        walk_meets_first(r.push(from_base), a, p, from_head),
{
    let r2 = r.push(from_base);
    let before = r + a + seq![from_base, from_head];
    let after = r2 + a + seq![p, from_head];
    assert forall|i: int| 0 <= i < r2.len() implies #[trigger] r2[i].height >= from_head.height by {
        if i < r.len() {
            assert(r2[i] == r[i]);
        }
    }
    if heights_agree(after) {
        assert forall|x: Header| before.contains(x) implies after.contains(x) by {
            let n = choose|n: int| 0 <= n < before.len() && before[n] == x;
            if n < r.len() {
                assert(after[n] == x);
            } else if n < r.len() + a.len() {
                assert(after[n + 1] == x);
            } else if n == r.len() + a.len() {
                assert(after[r.len() as int] == x);
            } else {
                assert(after[n + 1] == x);
            }
        }
        lemma_agree_within(before, after);
        assert forall|i: int, k: int|
            0 <= i < r2.len() && 0 <= k < a.len() implies #[trigger] r2[i].hash != #[trigger] a[k].hash by {
            if i < r.len() {
                assert(r2[i] == r[i]);
                assert(r[i].hash != a[k].hash);
            } else {
                assert(a[k].hash != from_base.hash);
            }
        }
        assert forall|i: int| 0 <= i < r2.len() implies #[trigger] r2[i].hash != from_head.hash by {
            if i < r.len() {
                assert(r2[i] == r[i]);
            }
        }
        assert forall|k: int| 0 <= k < a.len() implies #[trigger] a[k].hash != p.hash by {
            assert(after[r2.len() + k] == a[k]);
            assert(after[r2.len() + a.len() as int] == p);
            assert(after.contains(a[k]) && after.contains(p));
            assert(a[k].height > from_base.height);
        }
    }
}

/// Stepping the head's side keeps the walk's meeting facts.
proof fn lemma_head_step(r: Seq<Header>, a: Seq<Header>, from_base: Header, from_head: Header, p: Header)
    requires
        walk_meets_first(r, a, from_base, from_head),
        from_base.hash != from_head.hash,
        from_base.height < from_head.height,
        is_parent(from_head, p),
    ensures
        walk_meets_first(r, a.push(from_head), from_base, p),
{
    let a2 = a.push(from_head);
    let before = r + a + seq![from_base, from_head];
    let after = r + a2 + seq![from_base, p];
    assert forall|k: int| 0 <= k < a2.len() implies #[trigger] a2[k].height > from_base.height by {
        if k < a.len() {
            assert(a2[k] == a[k]);
        }
    }
    if heights_agree(after) {
        assert forall|x: Header| before.contains(x) implies after.contains(x) by {
            let n = choose|n: int| 0 <= n < before.len() && before[n] == x;
            if n < r.len() + a.len() {
                assert(after[n] == x);
            } else if n == r.len() + a.len() {
                assert(after[n + 1] == x);
            } else {
                assert(after[r.len() + a.len() as int] == x);
            }
        }
        lemma_agree_within(before, after);
        assert forall|i: int, k: int|
            0 <= i < r.len() && 0 <= k < a2.len() implies #[trigger] r[i].hash != #[trigger] a2[k].hash by {
            if k < a.len() {
                assert(a2[k] == a[k]);
                assert(r[i].hash != a[k].hash);
            } else {
                assert(r[i].hash != from_head.hash);
            }
        }
        assert forall|i: int| 0 <= i < r.len() implies #[trigger] r[i].hash != p.hash by {
            assert(after[i] == r[i]);
            assert(after[r.len() + a2.len() as int + 1] == p);
            assert(after.contains(r[i]) && after.contains(p));
            assert(r[i].height >= from_head.height);
        }
        assert forall|k: int| 0 <= k < a2.len() implies #[trigger] a2[k].hash != from_base.hash by {
            if k < a.len() {
                assert(a2[k] == a[k]);
            }
        }
    }
}

/// When the walk's frontiers meet, the meeting facts become the update's.
proof fn lemma_meet(r: Seq<Header>, a: Seq<Header>, ancestor: Header)
    requires
        walk_meets_first(r, a, ancestor, ancestor),
    ensures
        heights_agree(r + a.reverse() + seq![ancestor]) ==> meets_at_latest(r, a.reverse(), ancestor),
{
    let before = r + a + seq![ancestor, ancestor];
    let after = r + a.reverse() + seq![ancestor];
    let n = a.len() as int;
    if heights_agree(after) {
        assert forall|x: Header| before.contains(x) implies after.contains(x) by {
            let m = choose|m: int| 0 <= m < before.len() && before[m] == x;
            if m < r.len() {
                assert(after[m] == x);
            } else if m < r.len() + n {
                let k = m - r.len();
                assert(a.reverse()[n - 1 - k] == a[k]);
                assert(after[r.len() + n - 1 - k] == x);
            } else {
                assert(after[r.len() + n] == x);
            }
        }
        lemma_agree_within(before, after);
        assert forall|i: int, k: int|
            0 <= i < r.len() && 0 <= k < a.reverse().len() implies #[trigger] r[i].hash
            != #[trigger] a.reverse()[k].hash by {
            assert(a.reverse()[k] == a[n - 1 - k]);
            assert(r[i].hash != a[n - 1 - k].hash);
        }
        assert forall|k: int| 0 <= k < a.reverse().len() implies #[trigger] a.reverse()[k].hash
            != ancestor.hash by {
            assert(a.reverse()[k] == a[n - 1 - k]);
        }
    }
}

/// Every header answer that the poll accepts keeps its invariant.
pub proof fn lemma_after_header_keeps_wf(s: PollState, h: Header)
    requires
        s.wf(),
        s.awaits_header(),
    ensures
        s.after_header(h) matches Ok(m) ==> m.wf(),
{
    match s.stage {
        Stage::AwaitHead => {},
        Stage::AwaitBase { head } => {
            assert(descends_to(h, Seq::<Header>::empty(), h)) by {
                assert(Seq::<Header>::empty().push(h) =~= seq![h]);
            }
            assert(descends_to(head, Seq::<Header>::empty(), head)) by {
                assert(Seq::<Header>::empty().push(head) =~= seq![head]);
            }
            assert(Seq::<Header>::empty().reverse() =~= Seq::<Header>::empty());
            lemma_meet(Seq::<Header>::empty(), Seq::<Header>::empty(), h);
        },
        Stage::Walk { head, base, from_base, from_head } => {
            if from_base.height >= from_head.height {
                if is_parent(from_base, h) {
                    lemma_descends_extend(base, s.rollback, from_base, h);
                    lemma_base_step(s.rollback, s.apply, from_base, from_head, h);
                    let t = PollState { rollback: s.rollback.push(from_base), ..s };
                    assert(t.apply.reverse().reverse() =~= t.apply);
                    if h == from_head {
                        lemma_meet(t.rollback, t.apply, h);
                    }
                }
            } else {
                if is_parent(from_head, h) {
                    lemma_descends_extend(head, s.apply, from_head, h);
                    lemma_head_step(s.rollback, s.apply, from_base, from_head, h);
                    let t = PollState { apply: s.apply.push(from_head), ..s };
                    assert(t.apply.reverse().reverse() =~= t.apply);
                    if h == from_base {
                        lemma_meet(t.rollback, t.apply, h);
                    }
                }
            }
        },
        Stage::Fetch { .. } => {},
    }
}

/// Every payload that the poll accepts keeps its invariant.
pub proof fn lemma_after_block_keeps_wf(s: PollState, payload: PayloadSummary)
    requires
        s.wf(),
        s.awaits_block(),
    ensures
        s.after_block(payload) matches Ok(m) ==> m.wf(),
{
}

} // verus!
