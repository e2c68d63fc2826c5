//! The requests of a guest's channel on their way to the coordinator.

use vstd::prelude::*;

use crate::bgworker_model::BgWorkerRequest;
use crate::io::{RequestSink, SinkCall};

verus! {

/// Requests in the order they were sent. Once the coordinator is gone, no more
/// are taken.
pub struct RequestQueue {
    /// What waits for the coordinator.
    pub requests: Vec<BgWorkerRequest>,
    /// The coordinator no longer listens.
    pub gone: bool,
    /// What was sent, and whether it was taken.
    pub log: Ghost<Seq<SinkCall>>,
}

impl RequestQueue {
    /// A queue to a coordinator that listens.
    pub fn new() -> (r: RequestQueue)
        ensures
            r.requests@ == Seq::<BgWorkerRequest>::empty(),
            !r.gone,
            r.calls() == Seq::<SinkCall>::empty(),
    {
        RequestQueue { requests: Vec::new(), gone: false, log: Ghost(Seq::empty()) }
    }

    /// What was sent since the last call, in order.
    pub fn take(&mut self) -> (r: Vec<BgWorkerRequest>)
        ensures
            r@ == old(self).requests@,
            final(self).requests@ == Seq::<BgWorkerRequest>::empty(),
            final(self).gone == old(self).gone,
            final(self).calls() == old(self).calls(),
    {
        let mut taken: Vec<BgWorkerRequest> = Vec::new();
        std::mem::swap(&mut taken, &mut self.requests);
        taken
    }
}

impl RequestSink for RequestQueue {
    open spec fn calls(&self) -> Seq<SinkCall> {
        self.log@
    }

    fn send_fetch(&mut self, stripe_id: usize) -> (there: bool)
        ensures
            there == !old(self).gone,
            final(self).gone == old(self).gone,
            final(self).requests@ == if there {
                old(self).requests@.push(BgWorkerRequest::Fetch { stripe_id })
            } else {
                old(self).requests@
            },
    {
        let there: bool = !self.gone;
        if there {
            self.requests.push(BgWorkerRequest::Fetch { stripe_id });
        }
        self.log = Ghost(self.log@.push(SinkCall::Fetch { stripe_id, there }));
        there
    }

    fn send_set_written(&mut self, stripe_id: usize) -> (there: bool)
        ensures
            there == !old(self).gone,
            final(self).gone == old(self).gone,
            final(self).requests@ == if there {
                old(self).requests@.push(BgWorkerRequest::SetWritten { stripe_id })
            } else {
                old(self).requests@
            },
    {
        let there: bool = !self.gone;
        if there {
            self.requests.push(BgWorkerRequest::SetWritten { stripe_id });
        }
        self.log = Ghost(self.log@.push(SinkCall::SetWritten { stripe_id, there }));
        there
    }
}

} // verus!
