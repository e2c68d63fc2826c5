//! How a fork follows the snapshot it was made from, and how the server admits
//! forks.
//!
//! A fork keeps a subscription open and hands every pushed stripe to the
//! coordinator. While its first subscription is up the source is live; once
//! that ends, for whatever reason, it is not live again, because the pushes
//! missed in a gap were copied out and are refused on pull.

use vstd::prelude::*;
use vstd::string::StringExecFns;

use crate::bgworker_model::BgWorkerRequest;
use crate::metadata::shared_state::{SharedMetadataState, StateModel};
use crate::push_gate::PushPermit;

verus! {

/// Milliseconds to wait before reconnecting a dropped subscription.
pub const RECONNECT_DELAY_MS: u64 = 1000;

/// Seconds a push may take to reach a fork before that fork is considered
/// gone. Generous: a fork that is merely busy must not be dropped, and a fork
/// whose machine was destroyed is caught by keepalive instead.
pub const PUSH_WRITE_TIMEOUT_SECS: u64 = 30;

/// Seconds of silence before a push connection is probed.
pub const KEEPALIVE_IDLE_SECS: i32 = 5;

/// Seconds between probes.
pub const KEEPALIVE_INTERVAL_SECS: i32 = 2;

/// Probes without an answer before the peer is gone.
pub const KEEPALIVE_PROBES: i32 = 3;

/// What a subscription delivers.
#[derive(Debug)]
pub enum PushedFrame {
    /// A stripe's content before it was overwritten.
    Stripe {
        /// The stripe.
        stripe_id: u64,
        /// Its content.
        data: Vec<u8>,
    },
    /// The snapshot was released.
    End,
}

/// Which snapshot a subscription attached to.
#[derive(Debug, Clone, Copy, PartialEq, Eq, Structural)]
pub enum Attached {
    /// The first this process subscribed to.
    First,
    /// The same as before.
    Again,
    /// Another one than before.
    Different {
        /// The one before.
        first: u64,
    },
}

/// The snapshot of the first subscription, kept across reconnects so that the
/// source is live with it and never again.
#[derive(Debug, Clone, Copy, PartialEq, Eq, Structural)]
pub struct Subscription {
    /// The generation of the first subscription.
    pub first_generation: Option<u64>,
}

impl Subscription {
    /// No subscription was made yet.
    pub fn new() -> (r: Subscription)
        ensures
            r.first_generation is None,
    {
        Subscription { first_generation: None }
    }

    /// This subscription with `generation` remembered if it is the first.
    pub open spec fn after_attach(self, generation: u64) -> Subscription {
        Subscription {
            first_generation: match self.first_generation {
                None => Some(generation),
                Some(first) => Some(first),
            },
        }
    }

    /// The state once a subscription to some generation is up.
    pub open spec fn state_after_attach(self, s: StateModel) -> StateModel {
        if self.first_generation is None {
            StateModel { live: true, ..s }
        } else {
            s
        }
    }

    /// A subscription to `generation` is up.
    pub fn attach(&mut self, state: &mut SharedMetadataState, generation: u64) -> (r: Attached)
        ensures
            *final(self) == old(self).after_attach(generation),
            final(state)@ == old(self).state_after_attach(old(state)@),
            r == match old(self).first_generation {
                None => Attached::First,
                Some(first) => if first != generation {
                    Attached::Different { first }
                } else {
                    Attached::Again
                },
            },
    {
        match self.first_generation {
            None => {
                self.first_generation = Some(generation);
                state.set_source_live(true);
                Attached::First
            },
            Some(first) => if first != generation {
                Attached::Different { first }
            } else {
                Attached::Again
            },
        }
    }

    /// The subscription ended, well or not.
    pub fn detach(&self, state: &mut SharedMetadataState)
        ensures
            final(state)@ == (StateModel { live: false, ..old(state)@ }),
    {
        state.set_source_live(false);
    }
}

/// What happens to a subscription.
#[derive(Debug, Clone, Copy, PartialEq, Eq, Structural)]
pub enum LinkEvent {
    /// It attached to a generation.
    Attach {
        /// The generation.
        generation: u64,
    },
    /// It ended.
    Detach,
}

/// The subscription and whether the source is live, after some events.
pub open spec fn after_link_events(sub: Subscription, live: bool, events: Seq<LinkEvent>) -> (
    Subscription,
    bool,
)
    decreases events.len(),
{
    if events.len() == 0 {
        (sub, live)
    } else {
        let before = after_link_events(sub, live, events.drop_last());
        match events.last() {
            LinkEvent::Attach { generation } => (
                before.0.after_attach(generation),
                if before.0.first_generation is None {
                    true
                } else {
                    before.1
                },
            ),
            LinkEvent::Detach => (before.0, false),
        }
    }
}

/// Once the first subscription has ended the source is never live again,
/// whatever it reconnects to.
pub proof fn law_reconnecting_never_revives_the_source(
    sub: Subscription,
    events: Seq<LinkEvent>,
)
    requires
        sub.first_generation is Some,
    ensures
        !after_link_events(sub, false, events).1,
        after_link_events(sub, false, events).0 == sub,
    decreases events.len(),
{
    if events.len() > 0 {
        law_reconnecting_never_revives_the_source(sub, events.drop_last());
    }
}

/// The first attachment among the events is at `k`.
pub open spec fn first_attachment(events: Seq<LinkEvent>, k: int) -> bool {
    &&& 0 <= k < events.len()
    &&& events[k] is Attach
    &&& forall|j: int| 0 <= j < k ==> (#[trigger] events[j]) !is Attach
}

/// The source is live exactly while the first subscription is up: from the
/// first attachment on, until something ends.
pub proof fn law_source_is_live_from_first_attachment_to_its_end(events: Seq<LinkEvent>)
    ensures
        after_link_events(Subscription { first_generation: None }, false, events).1 == exists|
            k: int,
        |
            #[trigger] first_attachment(events, k) && forall|j: int|
                k <= j < events.len() ==> (#[trigger] events[j]) !is Detach,
        after_link_events(
            Subscription { first_generation: None },
            false,
            events,
        ).0.first_generation is Some == exists|k: int| first_attachment(events, k),
    decreases events.len(),
{
    let start = Subscription { first_generation: None };
    if events.len() > 0 {
        let before = events.drop_last();
        let last = events.len() - 1;
        law_source_is_live_from_first_attachment_to_its_end(before);
        assert forall|k: int| 0 <= k < last implies #[trigger] first_attachment(events, k)
            == first_attachment(before, k) by {
            if first_attachment(events, k) {
                assert forall|j: int| 0 <= j < k implies (#[trigger] before[j]) !is Attach by {
                    assert(events[j] == before[j]);
                }
            }
            if first_attachment(before, k) {
                assert forall|j: int| 0 <= j < k implies (#[trigger] events[j]) !is Attach by {
                    assert(events[j] == before[j]);
                }
            }
        }
        let had = exists|k: int| first_attachment(before, k);
        if had {
            let k = choose|k: int| first_attachment(before, k);
            assert(first_attachment(events, k));
            assert forall|i: int| #[trigger] first_attachment(events, i) implies i == k by {
                if i < k {
                    assert(events[i] is Attach && before[i] == events[i]);
                } else if k < i {
                    assert(events[k] is Attach);
                }
            }
            assert forall|i: int| #[trigger] first_attachment(before, i) implies i == k by {
                if i < k {
                    assert(before[i] is Attach);
                } else if k < i {
                    assert(before[k] is Attach);
                }
            }
            if after_link_events(start, false, before).1 && events[last] !is Detach {
                assert forall|j: int| k <= j < events.len() implies (#[trigger] events[j])
                    !is Detach by {
                    if j < last {
                        assert(before[j] == events[j]);
                    }
                }
            }
            if forall|j: int| k <= j < events.len() ==> (#[trigger] events[j]) !is Detach {
                assert(events[last] !is Detach);
                assert forall|j: int| k <= j < before.len() implies (#[trigger] before[j])
                    !is Detach by {
                    assert(before[j] == events[j]);
                }
            }
        } else {
            assert forall|j: int| 0 <= j < last implies (#[trigger] events[j]) !is Attach by {
                lemma_some_attachment(before, j);
                assert(before[j] == events[j]);
            }
            if events[last] is Attach {
                assert(first_attachment(events, last));
            }
            assert forall|i: int| #[trigger] first_attachment(events, i) implies i == last by {
            }
        }
    }
}

/// Where something attached, something attached first.
proof fn lemma_some_attachment(events: Seq<LinkEvent>, at: int)
    requires
        0 <= at < events.len(),
    ensures
        events[at] is Attach ==> exists|k: int| first_attachment(events, k),
    decreases at,
{
    if events[at] is Attach {
        if exists|j: int| 0 <= j < at && (#[trigger] events[j]) is Attach {
            let j = choose|j: int| 0 <= j < at && (#[trigger] events[j]) is Attach;
            lemma_some_attachment(events, j);
        } else {
            assert(first_attachment(events, at));
        }
    }
}

/// What the relay does with what the subscription delivered.
#[derive(Debug)]
pub enum RelayStep {
    /// Hand a stripe to the coordinator, once there is room for it.
    Forward {
        /// The stripe.
        stripe_id: usize,
        /// Its content.
        data: Vec<u8>,
    },
    /// The snapshot is over. Anything not pushed by now is still there to pull.
    Finished,
    /// The server closed the connection; connect again.
    Closed,
}

/// What to do with the next frame; no frame stands for a closed connection.
pub fn relay_step(frame: Option<PushedFrame>) -> (r: RelayStep)
    ensures
        r == match frame {
            Some(PushedFrame::Stripe { stripe_id, data }) => RelayStep::Forward {
                stripe_id: stripe_id as usize,
                data,
            },
            Some(PushedFrame::End) => RelayStep::Finished,
            None => RelayStep::Closed,
        },
{
    match frame {
        Some(PushedFrame::Stripe { stripe_id, data }) => RelayStep::Forward {
            stripe_id: stripe_id as usize,
            data,
        },
        Some(PushedFrame::End) => RelayStep::Finished,
        None => RelayStep::Closed,
    }
}

/// What the coordinator is asked to do with a pushed stripe.
pub fn pushed_request(stripe_id: usize, data: Vec<u8>, permit: PushPermit) -> (r: BgWorkerRequest)
    ensures
        r == (BgWorkerRequest::PushedStripe { stripe_id, data, permit }),
{
    BgWorkerRequest::PushedStripe { stripe_id, data, permit }
}

/// How long to wait before subscribing again after a subscription ended, or
/// nothing when it ended well: the snapshot is over, or the coordinator is
/// gone.
pub fn reconnect_after(ended_well: bool) -> (r: Option<u64>)
    ensures
        r == if ended_well {
            None::<u64>
        } else {
            Some(RECONNECT_DELAY_MS)
        },
{
    if ended_well {
        None
    } else {
        Some(RECONNECT_DELAY_MS)
    }
}

/// What the server does with a connection.
#[derive(Debug, Clone, Copy, PartialEq, Eq, Structural)]
pub enum AdmitStep {
    /// Wait for a fork to connect.
    Accept,
    /// Limit how long a push may block.
    SetWriteTimeout,
    /// Notice a peer that stops answering.
    SetKeepalive,
    /// Serve the fork.
    StartSession,
}

impl AdmitStep {
    /// What follows a step that went well or did not. A connection that cannot
    /// be limited is dropped: a fork must never be able to block the server's
    /// writes.
    pub open spec fn after(self, ok: bool) -> AdmitStep {
        if !ok {
            AdmitStep::Accept
        } else {
            match self {
                AdmitStep::Accept => AdmitStep::SetWriteTimeout,
                AdmitStep::SetWriteTimeout => AdmitStep::SetKeepalive,
                AdmitStep::SetKeepalive => AdmitStep::StartSession,
                AdmitStep::StartSession => AdmitStep::Accept,
            }
        }
    }

    /// What follows this step, which went well or did not.
    pub fn next(&self, ok: bool) -> (r: AdmitStep)
        ensures
            r == self.after(ok),
    {
        if !ok {
            return AdmitStep::Accept;
        }
        match *self {
            AdmitStep::Accept => AdmitStep::SetWriteTimeout,
            AdmitStep::SetWriteTimeout => AdmitStep::SetKeepalive,
            AdmitStep::SetKeepalive => AdmitStep::StartSession,
            AdmitStep::StartSession => AdmitStep::Accept,
        }
    }

    /// What is said of a step that failed.
    pub fn complaint(&self) -> (r: String)
        ensures
            r@ == match *self {
                AdmitStep::Accept => "Failed to accept a snapshot client"@,
                AdmitStep::SetWriteTimeout => "Failed to set the push write timeout"@,
                AdmitStep::SetKeepalive =>
                    "Failed to set keepalive on a snapshot connection"@,
                AdmitStep::StartSession => "Failed to spawn a snapshot session thread"@,
            },
    {
        match *self {
            AdmitStep::Accept => String::from_str("Failed to accept a snapshot client"),
            AdmitStep::SetWriteTimeout => String::from_str("Failed to set the push write timeout"),
            AdmitStep::SetKeepalive => String::from_str(
                "Failed to set keepalive on a snapshot connection",
            ),
            AdmitStep::StartSession => String::from_str(
                "Failed to spawn a snapshot session thread",
            ),
        }
    }
}

/// A session starts only on a connection whose write timeout and keepalive were
/// both set, and any failure sends the server back to accepting.
pub proof fn law_sessions_only_on_limited_connections(step: AdmitStep, ok: bool)
    ensures
        step.after(ok) == AdmitStep::StartSession <==> ok && step == AdmitStep::SetKeepalive,
        step.after(ok) == AdmitStep::SetKeepalive <==> ok && step == AdmitStep::SetWriteTimeout,
        step.after(ok) == AdmitStep::SetWriteTimeout <==> ok && step == AdmitStep::Accept,
        step.after(false) == AdmitStep::Accept,
{
}

/// The first subscription makes the source live and is remembered; a later one
/// does neither.
pub proof fn law_only_the_first_subscription_counts(
    sub: Subscription,
    s: StateModel,
    generation: u64,
)
    ensures
        sub.first_generation is None ==> sub.after_attach(generation).first_generation == Some(
            generation,
        ) && sub.state_after_attach(s).live,
        sub.first_generation is Some ==> sub.after_attach(generation) == sub
            && sub.state_after_attach(s) == s,
        sub.state_after_attach(s).fetch == s.fetch,
        sub.state_after_attach(s).flags == s.flags,
{
}

} // verus!
