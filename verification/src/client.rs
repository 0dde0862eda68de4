//! The client's configuration and the polls it starts.
use vstd::prelude::*;
use crate::error::Error;
use crate::hash::BlockHash;
use crate::header::{Checkpoint, Finality};
use crate::session::{PollSession, PollState};

verus! {

/// Sequential, pull-based indexing; consumer speed supplies backpressure.
///
/// `R` is the RPC transport that performs the fetches a poll asks for; it
/// controls timeouts and retries. There is no background task, queue or
/// database.
pub struct Client<R> {
    rpc: R,
    finality: Finality,
    max_ancestry: usize,
}

/// The checkpoint behind an optional reference, by value.
pub open spec fn saved(checkpoint: Option<&Checkpoint>) -> Option<Checkpoint> {
    match checkpoint {
        Some(c) => Some(*c),
        None => None,
    }
}

impl<R> Client<R> {
    /// The transport the client was built with.
    pub closed spec fn transport(&self) -> R {
        self.rpc
    }

    /// The finality of the heads that polls follow.
    pub closed spec fn mode(&self) -> Finality {
        self.finality
    }

    /// The bound on rollback plus apply blocks in one update.
    pub closed spec fn bound(&self) -> usize {
        self.max_ancestry
    }

    /// Configure head finality and a positive bound on rollback + apply blocks.
    ///
    /// Zero rejects all polls. Exceeding the bound returns an error, never a
    /// partial batch.
    pub fn new(rpc: R, finality: Finality, max_ancestry: usize) -> (c: Self)
        ensures
            c.transport() == rpc,
            c.mode() == finality,
            c.bound() == max_ancestry,
    {
        Client { rpc, finality, max_ancestry }
    }

    /// The transport the client was built with.
    pub fn rpc(&self) -> (r: &R)
        ensures
            *r == self.transport(),
    {
        &self.rpc
    }

    /// The finality of the heads that polls follow.
    pub fn finality(&self) -> (f: Finality)
        ensures
            f == self.mode(),
    {
        self.finality
    }

    /// The bound on rollback plus apply blocks in one update.
    pub fn max_ancestry(&self) -> (n: usize)
        ensures
            n == self.bound(),
    {
        self.max_ancestry
    }

    /// Start a poll that samples the head at the client's finality and
    /// resumes exclusively after `checkpoint`; `None` starts with the head only.
    pub fn start_poll<B>(&self, checkpoint: Option<&Checkpoint>) -> (r: Result<PollSession<B>, Error>)
        ensures
            self.bound() == 0 ==> r == Err::<PollSession<B>, Error>(Error::AncestryLimit(0)),
            self.bound() > 0 ==> r is Ok,
            r matches Ok(s) ==> s@ == PollState::initial(self.mode(), None, saved(checkpoint), self.bound())
                && s.payloads() == Seq::<B>::empty() && s@.wf(),
    {
        let saved_checkpoint = match checkpoint {
            Some(c) => Some(*c),
            None => None,
        };
        PollSession::start(self.finality, None, saved_checkpoint, self.max_ancestry)
    }

    /// Start an update to the explicit `target` block, without sampling a
    /// head: the update does not claim finality, so it is `Optimistic`.
    pub fn start_update_to<B>(&self, checkpoint: Option<&Checkpoint>, target: BlockHash) -> (r: Result<
        PollSession<B>,
        Error,
    >)
        ensures
            self.bound() == 0 ==> r == Err::<PollSession<B>, Error>(Error::AncestryLimit(0)),
            self.bound() > 0 ==> r is Ok,
            r matches Ok(s) ==> s@ == PollState::initial(
                Finality::Optimistic,
                Some(target),
                saved(checkpoint),
                self.bound(),
            ) && s.payloads() == Seq::<B>::empty() && s@.wf(),
    {
        let saved_checkpoint = match checkpoint {
            Some(c) => Some(*c),
            None => None,
        };
        PollSession::start(Finality::Optimistic, Some(target), saved_checkpoint, self.max_ancestry)
    }
}

} // verus!
