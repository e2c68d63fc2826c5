//! The guest's side of a lazy device: a channel that passes requests to the
//! base device when every stripe they touch is local, and holds them back
//! until then.

use std::collections::{HashMap, HashSet, VecDeque};
use vstd::prelude::*;
use crate::counting::bump;
use crate::io::{Answer, IoCall, IoChannel, IoError, RequestSink, SinkCall};
use crate::metadata::shared_state::{
    Evicted, Evicting, Failed, Fetched, GATE_FAIL, GATE_OPEN, NoSource, NotFetched,
    SharedMetadataState, StateModel, Written,
};
use crate::metadata::stripe_flags;

verus! {

broadcast use vstd::std_specs::hash::group_hash_axioms;

/// How often a queued request whose front stripe is Evicting or Evicted asks
/// the coordinator for it again. The first fetch may have been consumed by an
/// eviction that then completed, or never sent at all.
pub const FETCH_RESEND_INTERVAL: u64 = 100_000_000;

/// Which way data goes.
#[derive(Debug, Clone, Copy, PartialEq, Eq, Structural)]
pub enum RequestType {
    /// A read.
    In,
    /// A write.
    Out,
}

/// What the stripes of a request are waiting for.
#[derive(Debug, Clone, Copy, PartialEq, Eq, Structural)]
pub enum StripesFetchStatus {
    /// A stripe is not here yet.
    Pending,
    /// All are here.
    Complete,
    /// A stripe will not come.
    Failed { stripe_id: usize },
}

/// A read or a write.
#[derive(Debug)]
pub struct RWRequest<B> {
    /// What the guest calls it.
    pub id: usize,
    /// Which way.
    pub kind: RequestType,
    /// Where.
    pub sector_offset: u64,
    /// How much.
    pub sector_count: u32,
    /// Into or from.
    pub buf: B,
    /// First stripe touched.
    pub stripe_id_first: usize,
    /// Last stripe touched.
    pub stripe_id_last: usize,
    /// When a fetch was last sent on behalf of this request, if ever.
    pub fetch_sent_at: Option<u64>,
}

/// The channel as mathematical values.
#[verifier::ext_equal]
#[verifier::reject_recursive_types(B)]
pub struct ChannelModel<B> {
    /// Requests that wait, in order.
    pub queue: Seq<RWRequest<B>>,
    /// Requests that are done without the base device, and whether they
    /// succeeded.
    pub finished: Seq<(usize, bool)>,
    /// Stripes already asked for.
    pub requested: Set<usize>,
    /// A write waits until its stripes count as written.
    pub track_written: bool,
    /// A read of one missing stripe is served by the image.
    pub has_image: bool,
    /// The stripes of every request with the base device.
    pub pinned: Map<usize, (usize, usize)>,
    /// Requests given to the base device since its last hand-over.
    pub unsubmitted: Seq<usize>,
}

/// A stripe in this state is here, as far as a request is concerned.
pub open spec fn here(state: u8) -> bool {
    state == Fetched || state == NoSource
}

/// A stripe in this state is not here yet.
pub open spec fn awaited(state: u8) -> bool {
    state == NotFetched || state == Evicting || state == Evicted
}

/// What the stripes from `from` to `last` are waiting for: the first that is
/// not here decides. A state nobody knows is an error.
pub open spec fn status_from(s: StateModel, from: int, last: int) -> StripesFetchStatus
    decreases last + 1 - from,
{
    if from > last {
        StripesFetchStatus::Complete
    } else if here(s.fetch[from]) {
        status_from(s, from + 1, last)
    } else if awaited(s.fetch[from]) {
        StripesFetchStatus::Pending
    } else {
        StripesFetchStatus::Failed { stripe_id: from as usize }
    }
}

/// The shared state after that was looked up: an unknown state is an anomaly.
pub open spec fn state_after_status(s: StateModel, first: int, last: int) -> StateModel {
    match status_from(s, first, last) {
        StripesFetchStatus::Failed { stripe_id } => if s.fetch[stripe_id as int] != Failed {
            s.with_anomaly()
        } else {
            s
        },
        _ => s,
    }
}

/// All stripes of the range are here.
pub open spec fn all_here(s: StateModel, first: int, last: int) -> bool {
    forall|i: int| first <= i <= last ==> here(#[trigger] s.fetch[i])
}

/// All stripes of the range count as written.
pub open spec fn all_written(s: StateModel, first: int, last: int) -> bool {
    forall|i: int| first <= i <= last ==> (#[trigger] s.write[i]) == Written
}

/// The stripes of the range that satisfy `p`, in order.
pub open spec fn stripes_where(first: int, last: int, p: spec_fn(int) -> bool) -> Seq<usize>
    decreases last + 1 - first,
{
    if first > last {
        Seq::empty()
    } else {
        let before = stripes_where(first, last - 1, p);
        if p(last) {
            before.push(last as usize)
        } else {
            before
        }
    }
}

/// Stripes that were evicted or are being evicted.
pub open spec fn leaving(s: StateModel) -> spec_fn(int) -> bool {
    |i: int| s.fetch[i] == Evicting || s.fetch[i] == Evicted
}

/// Stripes that do not count as written.
pub open spec fn unwritten(s: StateModel) -> spec_fn(int) -> bool {
    |i: int| s.write[i] != Written
}

/// The first `count` of `ids` count as written.
pub open spec fn marked_written(s: StateModel, ids: Seq<usize>, count: nat) -> StateModel
    decreases count,
{
    if count == 0 {
        s
    } else {
        marked_written(s, ids, (count - 1) as nat).after_mark_written(ids[count - 1] as int)
    }
}

/// The reference bits of a range set.
pub open spec fn touched(s: StateModel, first: int, last: int) -> StateModel {
    StateModel {
        flags: Seq::new(
            s.flags.len(),
            |i: int|
                if first <= i <= last {
                    s.flags[i] | stripe_flags::REFERENCED
                } else {
                    s.flags[i]
                },
        ),
        ..s
    }
}

/// Requests with the base device that touch stripe `i`.
pub open spec fn pins_on(pinned: Map<usize, (usize, usize)>, i: int) -> Set<usize> {
    pinned.dom().filter(|id: usize| pinned[id].0 <= i <= pinned[id].1)
}

/// The coordinator is asked for stripes in turn, until all of `ids` or only
/// the first `sent` of them could be sent.
pub open spec fn fetch_calls(ids: Seq<usize>, sent: nat) -> Seq<SinkCall> {
    sent_fetches(ids, sent) + if sent < ids.len() {
        seq![SinkCall::Fetch { stripe_id: ids[sent as int], there: false }]
    } else {
        Seq::empty()
    }
}

/// The first `sent` of `ids` were asked for.
pub open spec fn sent_fetches(ids: Seq<usize>, sent: nat) -> Seq<SinkCall> {
    Seq::new(sent, |i: int| SinkCall::Fetch { stripe_id: ids[i], there: true })
}

/// The coordinator is told of written stripes in turn, until all of `ids` or
/// only the first `sent` of them could be sent.
pub open spec fn written_calls(ids: Seq<usize>, sent: nat) -> Seq<SinkCall> {
    sent_written(ids, sent) + if sent < ids.len() {
        seq![SinkCall::SetWritten { stripe_id: ids[sent as int], there: false }]
    } else {
        Seq::empty()
    }
}

/// The first `sent` of `ids` were told of.
pub open spec fn sent_written(ids: Seq<usize>, sent: nat) -> Seq<SinkCall> {
    Seq::new(sent, |i: int| SinkCall::SetWritten { stripe_id: ids[i], there: true })
}

impl<B> RWRequest<B> {
    /// What a device is asked to serve this request.
    pub open spec fn call(self) -> IoCall<B> {
        match self.kind {
            RequestType::In => IoCall::Read {
                sector_offset: self.sector_offset,
                sector_count: self.sector_count,
                buf: self.buf,
                id: self.id,
            },
            RequestType::Out => IoCall::Write {
                sector_offset: self.sector_offset,
                sector_count: self.sector_count,
                buf: self.buf,
                id: self.id,
            },
        }
    }
}

impl<B> ChannelModel<B> {
    /// A read of one missing stripe is served by the image.
    pub open spec fn served_by_image(self, s: StateModel, r: RWRequest<B>) -> bool {
        &&& self.has_image
        &&& !self.passes(s, r)
        &&& r.stripe_id_first == r.stripe_id_last
        &&& status_from(s, r.stripe_id_first as int, r.stripe_id_last as int) is Pending
    }

    /// What the base device is asked when a request comes in.
    pub open spec fn base_calls(self, s: StateModel, r: RWRequest<B>) -> Seq<IoCall<B>> {
        if self.passes(s, r) && !(r.kind == RequestType::Out && s.gate == GATE_FAIL) {
            seq![r.call()]
        } else {
            Seq::empty()
        }
    }

    /// What the image is asked when a read comes in.
    pub open spec fn image_calls(self, s: StateModel, r: RWRequest<B>) -> Seq<IoCall<B>> {
        if self.served_by_image(s, r) {
            seq![r.call()]
        } else {
            Seq::empty()
        }
    }

    /// What the coordinator is asked when a read comes in.
    pub open spec fn read_sink_calls(self, s: StateModel, r: RWRequest<B>, asked: nat) -> Seq<
        SinkCall,
    > {
        if self.passes(s, r) || self.served_by_image(s, r) || status_from(
            s,
            r.stripe_id_first as int,
            r.stripe_id_last as int,
        ) is Failed {
            Seq::empty()
        } else {
            fetch_calls(self.fetches_wanted(s, r), asked)
        }
    }

    /// What the coordinator is asked and told when a write comes in.
    pub open spec fn write_sink_calls(
        self,
        s: StateModel,
        r: RWRequest<B>,
        asked: nat,
        told: nat,
    ) -> Seq<SinkCall> {
        let first = r.stripe_id_first as int;
        let last = r.stripe_id_last as int;
        let wanted = self.fetches_wanted(s, r);
        if s.gate == GATE_FAIL || self.passes(s, r) || status_from(s, first, last) is Failed {
            Seq::empty()
        } else if asked == wanted.len() && self.track_written {
            fetch_calls(wanted, asked) + written_calls(
                stripes_where(first, last, unwritten(s)),
                told,
            )
        } else {
            fetch_calls(wanted, asked)
        }
    }

    /// What the base device is asked while the waiting requests are worked
    /// through.
    pub open spec fn worked_calls(self, s: StateModel, now: u64) -> Seq<IoCall<B>>
        decreases self.queue.len(),
    {
        if self.queue.len() == 0 {
            Seq::empty()
        } else {
            let r = self.queue[0];
            let popped = ChannelModel { queue: self.queue.drop_first(), ..self };
            let first = r.stripe_id_first as int;
            let last = r.stripe_id_last as int;
            let looked = state_after_status(s, first, last);
            let failed = popped.after_finish(r.id, false);
            match status_from(s, first, last) {
                StripesFetchStatus::Pending => if s.gate == GATE_FAIL {
                    failed.worked_calls(looked, now)
                } else {
                    Seq::empty()
                },
                StripesFetchStatus::Failed { stripe_id } => failed.worked_calls(looked, now),
                StripesFetchStatus::Complete => if r.kind == RequestType::Out && s.gate
                    == GATE_FAIL {
                    failed.worked_calls(looked, now)
                } else if !popped.passes(looked, r) {
                    Seq::empty()
                } else {
                    seq![r.call()] + popped.after_pass(r).after_served(r).worked_calls(
                        ChannelModel::state_after_pass(looked, r),
                        now,
                    )
                },
            }
        }
    }

    /// What the coordinator is asked for a request that goes on waiting: its
    /// leaving stripes again, if that is due.
    pub open spec fn resend_calls(s: StateModel, r: RWRequest<B>, resent: nat, now: u64) -> Seq<
        SinkCall,
    > {
        if ChannelModel::resend_due(r, now) {
            fetch_calls(
                stripes_where(r.stripe_id_first as int, r.stripe_id_last as int, leaving(s)),
                resent,
            )
        } else {
            Seq::empty()
        }
    }

    /// What the coordinator is asked while the waiting requests are worked
    /// through.
    pub open spec fn worked_sink_calls(self, s: StateModel, resent: nat, now: u64) -> Seq<SinkCall>
        decreases self.queue.len(),
    {
        if self.queue.len() == 0 {
            Seq::empty()
        } else {
            let r = self.queue[0];
            let popped = ChannelModel { queue: self.queue.drop_first(), ..self };
            let first = r.stripe_id_first as int;
            let last = r.stripe_id_last as int;
            let looked = state_after_status(s, first, last);
            let failed = popped.after_finish(r.id, false);
            match status_from(s, first, last) {
                StripesFetchStatus::Pending => if s.gate == GATE_FAIL {
                    failed.worked_sink_calls(looked, resent, now)
                } else {
                    ChannelModel::resend_calls(looked, r, resent, now)
                },
                StripesFetchStatus::Failed { stripe_id } => failed.worked_sink_calls(
                    looked,
                    resent,
                    now,
                ),
                StripesFetchStatus::Complete => if r.kind == RequestType::Out && s.gate
                    == GATE_FAIL {
                    failed.worked_sink_calls(looked, resent, now)
                } else if !popped.passes(looked, r) {
                    Seq::empty()
                } else {
                    popped.after_pass(r).after_served(r).worked_sink_calls(
                        ChannelModel::state_after_pass(looked, r),
                        resent,
                        now,
                    )
                },
            }
        }
    }

    /// What the base device is asked before it is polled: what passes, in one
    /// hand-over.
    pub open spec fn handed_calls(self, s: StateModel, now: u64, answer: Answer) -> Seq<
        IoCall<B>,
    > {
        let passed = self.worked_calls(s, now);
        if passed.len() == 0 {
            passed
        } else {
            passed.push(IoCall::Submit { result: answer })
        }
    }

    /// Every request touches stripes of the device, and every stripe is pinned
    /// at least once for every request with the base device that touches it.
    pub open spec fn wf(self, s: StateModel) -> bool {
        &&& self.pinned.dom().finite()
        &&& forall|id: usize| #[trigger]
            self.pinned.contains_key(id) ==> self.pinned[id].0 <= self.pinned[id].1
                < s.fetch.len()
        &&& forall|i: int|
            0 <= i < self.queue.len() ==> (#[trigger] self.queue[i]).stripe_id_first
                <= self.queue[i].stripe_id_last < s.fetch.len()
        &&& forall|i: int|
            0 <= i < s.inflight.len() ==> pins_on(self.pinned, i).len()
                <= #[trigger] s.inflight[i]
    }

    /// The stripes of a request have room for a pin.
    pub open spec fn room_for(s: StateModel, r: RWRequest<B>) -> bool {
        forall|i: int|
            r.stripe_id_first <= i <= r.stripe_id_last ==> (#[trigger] s.inflight[i]) < u16::MAX
    }

    /// Every stripe has room for a pin by each waiting request that touches it.
    pub open spec fn room(self, s: StateModel) -> bool {
        forall|i: int|
            0 <= i < s.inflight.len() ==> (#[trigger] s.inflight[i]) + touching(self.queue, i)
                <= u16::MAX
    }

    /// A request may go to the base device: its stripes are here, and a write
    /// finds the write gate open and its stripes, if that matters, written.
    pub open spec fn passes(self, s: StateModel, r: RWRequest<B>) -> bool {
        let first = r.stripe_id_first as int;
        let last = r.stripe_id_last as int;
        &&& all_here(s, first, last)
        &&& r.kind == RequestType::In || ((!self.track_written || all_written(s, first, last))
            && s.gate == GATE_OPEN)
    }

    /// A request goes to the base device.
    pub open spec fn after_pass(self, r: RWRequest<B>) -> ChannelModel<B> {
        ChannelModel {
            pinned: self.pinned.insert(r.id, (r.stripe_id_first, r.stripe_id_last)),
            unsubmitted: self.unsubmitted.push(r.id),
            ..self
        }
    }

    /// What that does to the shared state: the stripes are pinned and count as
    /// used.
    pub open spec fn state_after_pass(s: StateModel, r: RWRequest<B>) -> StateModel {
        touched(
            s.with_pins(r.stripe_id_first as int, r.stripe_id_last as int, 1),
            r.stripe_id_first as int,
            r.stripe_id_last as int,
        )
    }

    /// The pin of a request is undone, if there still is one.
    pub open spec fn after_release(self, id: usize) -> ChannelModel<B> {
        ChannelModel { pinned: self.pinned.remove(id), ..self }
    }

    /// What that does to the shared state.
    pub open spec fn state_after_release(self, s: StateModel, id: usize) -> StateModel {
        if self.pinned.contains_key(id) {
            s.with_pins(self.pinned[id].0 as int, self.pinned[id].1 as int, -1)
        } else {
            s
        }
    }

    /// The pins of the first `count` of `ids` are undone.
    pub open spec fn after_releases(self, ids: Seq<usize>, count: nat) -> ChannelModel<B>
        decreases count,
    {
        if count == 0 {
            self
        } else {
            self.after_releases(ids, (count - 1) as nat).after_release(ids[count - 1])
        }
    }

    /// What that does to the shared state.
    pub open spec fn state_after_releases(
        self,
        s: StateModel,
        ids: Seq<usize>,
        count: nat,
    ) -> StateModel
        decreases count,
    {
        if count == 0 {
            s
        } else {
            self.after_releases(ids, (count - 1) as nat).state_after_release(
                self.state_after_releases(s, ids, (count - 1) as nat),
                ids[count - 1],
            )
        }
    }

    /// The stripes of a request that are not here and were not asked for.
    pub open spec fn fetches_wanted(self, s: StateModel, r: RWRequest<B>) -> Seq<usize> {
        stripes_where(
            r.stripe_id_first as int,
            r.stripe_id_last as int,
            |i: int| !here(s.fetch[i]) && !self.requested.contains(i as usize),
        )
    }

    /// The first `count` of `ids` were asked for.
    pub open spec fn after_asking(self, ids: Seq<usize>, count: nat) -> ChannelModel<B> {
        ChannelModel { requested: self.requested.union(ids.take(count as int).to_set()), ..self }
    }

    /// A request is done without the base device.
    pub open spec fn after_finish(self, id: usize, ok: bool) -> ChannelModel<B> {
        ChannelModel { finished: self.finished.push((id, ok)), ..self }
    }

    /// A request waits.
    pub open spec fn after_queue(self, r: RWRequest<B>, sent: Option<u64>) -> ChannelModel<B> {
        ChannelModel {
            queue: self.queue.push(RWRequest { fetch_sent_at: sent, ..r }),
            ..self
        }
    }

    /// A new request whose stripes are to be asked for: the first `asked` of
    /// them could be. It waits if all could be, and fails otherwise.
    pub open spec fn after_ask_and_queue(
        self,
        s: StateModel,
        r: RWRequest<B>,
        asked: nat,
        now: u64,
    ) -> ChannelModel<B> {
        let wanted = self.fetches_wanted(s, r);
        let told = self.after_asking(wanted, asked);
        if asked < wanted.len() {
            told.after_finish(r.id, false)
        } else {
            told.after_queue(
                r,
                if asked > 0 {
                    Some(now)
                } else {
                    r.fetch_sent_at
                },
            )
        }
    }

    /// A read was asked for; `asked` is how many of its missing stripes could
    /// be asked for in turn.
    pub open spec fn after_add_read(
        self,
        s: StateModel,
        r: RWRequest<B>,
        asked: nat,
        now: u64,
    ) -> ChannelModel<B> {
        let first = r.stripe_id_first as int;
        let last = r.stripe_id_last as int;
        if self.passes(s, r) {
            self.after_pass(r)
        } else {
            match status_from(s, first, last) {
                StripesFetchStatus::Failed { stripe_id } => self.after_finish(r.id, false),
                StripesFetchStatus::Pending => if first == last && self.has_image {
                    self
                } else {
                    self.after_ask_and_queue(s, r, asked, now)
                },
                StripesFetchStatus::Complete => self.after_ask_and_queue(s, r, asked, now),
            }
        }
    }

    /// What that does to the shared state.
    pub open spec fn state_after_add_read(self, s: StateModel, r: RWRequest<B>) -> StateModel {
        if self.passes(s, r) {
            ChannelModel::state_after_pass(s, r)
        } else {
            state_after_status(s, r.stripe_id_first as int, r.stripe_id_last as int)
        }
    }

    /// A write was asked for; `asked` is how many of its missing stripes could
    /// be asked for, and `told` how many could be reported as written.
    pub open spec fn after_add_write(
        self,
        s: StateModel,
        r: RWRequest<B>,
        asked: nat,
        told: nat,
        now: u64,
    ) -> ChannelModel<B> {
        let first = r.stripe_id_first as int;
        let last = r.stripe_id_last as int;
        if s.gate == GATE_FAIL {
            self.after_finish(r.id, false)
        } else if self.passes(s, r) {
            self.after_pass(r)
        } else if status_from(s, first, last) is Failed {
            self.after_finish(r.id, false)
        } else {
            let wanted = self.fetches_wanted(s, r);
            if asked == wanted.len() && self.track_written && told < stripes_where(
                first,
                last,
                unwritten(s),
            ).len() {
                self.after_asking(wanted, asked).after_finish(r.id, false)
            } else {
                self.after_ask_and_queue(s, r, asked, now)
            }
        }
    }

    /// What that does to the shared state: stripes count as written from the
    /// moment the write is queued.
    pub open spec fn state_after_add_write(
        self,
        s: StateModel,
        r: RWRequest<B>,
        asked: nat,
        told: nat,
    ) -> StateModel {
        let first = r.stripe_id_first as int;
        let last = r.stripe_id_last as int;
        if s.gate == GATE_FAIL {
            s
        } else if self.passes(s, r) {
            ChannelModel::state_after_pass(s, r)
        } else {
            let looked = state_after_status(s, first, last);
            if !(status_from(s, first, last) is Failed) && asked == self.fetches_wanted(
                s,
                r,
            ).len() && self.track_written {
                marked_written(looked, stripes_where(first, last, unwritten(s)), told)
            } else {
                looked
            }
        }
    }

    /// A fetch is to be sent again on behalf of a request.
    pub open spec fn resend_due(r: RWRequest<B>, now: u64) -> bool {
        !(r.fetch_sent_at matches Some(sent) && (now < sent || now - sent
            < FETCH_RESEND_INTERVAL))
    }

    /// The front request, after fetches for its leaving stripes were sent
    /// again; `resent` is how many could be.
    pub open spec fn after_resend(
        s: StateModel,
        r: RWRequest<B>,
        resent: nat,
        now: u64,
    ) -> RWRequest<B> {
        let ids = stripes_where(r.stripe_id_first as int, r.stripe_id_last as int, leaving(s));
        if ChannelModel::resend_due(r, now) && resent == ids.len() && ids.len() > 0 {
            RWRequest { fetch_sent_at: Some(now), ..r }
        } else {
            r
        }
    }

    /// The stripes of a request are no longer asked for.
    pub open spec fn after_served(self, r: RWRequest<B>) -> ChannelModel<B> {
        ChannelModel {
            requested: self.requested.filter(
                |id: usize| !(r.stripe_id_first <= id <= r.stripe_id_last),
            ),
            ..self
        }
    }

    /// The waiting requests are worked through in order, until one has to go
    /// on waiting: the channel, the shared state, and how many went to the
    /// base device.
    pub open spec fn worked_through(
        self,
        s: StateModel,
        resent: nat,
        now: u64,
    ) -> (ChannelModel<B>, StateModel, nat)
        decreases self.queue.len(),
    {
        if self.queue.len() == 0 {
            (self, s, 0)
        } else {
            let r = self.queue[0];
            let popped = ChannelModel { queue: self.queue.drop_first(), ..self };
            let first = r.stripe_id_first as int;
            let last = r.stripe_id_last as int;
            let looked = state_after_status(s, first, last);
            match status_from(s, first, last) {
                StripesFetchStatus::Pending => if s.gate == GATE_FAIL {
                    popped.after_finish(r.id, false).worked_through(looked, resent, now)
                } else {
                    (
                        ChannelModel {
                            queue: self.queue.update(
                                0,
                                ChannelModel::after_resend(looked, r, resent, now),
                            ),
                            ..self
                        },
                        looked,
                        0,
                    )
                },
                StripesFetchStatus::Failed { stripe_id } => popped.after_finish(
                    r.id,
                    false,
                ).worked_through(looked, resent, now),
                StripesFetchStatus::Complete => if r.kind == RequestType::Out && s.gate
                    == GATE_FAIL {
                    popped.after_finish(r.id, false).worked_through(looked, resent, now)
                } else if !popped.passes(looked, r) {
                    (self, looked, 0)
                } else {
                    let rest = popped.after_pass(r).after_served(r).worked_through(
                        ChannelModel::state_after_pass(looked, r),
                        resent,
                        now,
                    );
                    (rest.0, rest.1, rest.2 + 1)
                },
            }
        }
    }

    /// The base device was handed what it was given, or refused it.
    pub open spec fn after_submit(self, ok: bool) -> ChannelModel<B> {
        let kept = if ok {
            self
        } else {
            self.after_releases(self.unsubmitted, self.unsubmitted.len())
        };
        ChannelModel { unsubmitted: Seq::empty(), ..kept }
    }

    /// What that does to the shared state.
    pub open spec fn state_after_submit(self, s: StateModel, ok: bool) -> StateModel {
        if ok {
            s
        } else {
            self.state_after_releases(s, self.unsubmitted, self.unsubmitted.len())
        }
    }

    /// Every one of `ids` failed.
    pub open spec fn all_failed(self, ids: Seq<usize>) -> ChannelModel<B> {
        ChannelModel {
            finished: self.finished + ids.map_values(|id: usize| (id, false)),
            ..self
        }
    }
}

/// One more request on a stripe, at most.
proof fn lemma_pins_insert(
    pinned: Map<usize, (usize, usize)>,
    id: usize,
    range: (usize, usize),
    i: int,
)
    requires
        pinned.dom().finite(),
    ensures
        pins_on(pinned.insert(id, range), i).len() <= pins_on(pinned, i).len() + (if range.0 <= i
            <= range.1 {
            1nat
        } else {
            0nat
        }),
{
    let before = pins_on(pinned, i);
    let after = pins_on(pinned.insert(id, range), i);
    assert(before.subset_of(pinned.dom()));
    vstd::set_lib::lemma_set_subset_finite(pinned.dom(), before);
    if range.0 <= i <= range.1 {
        assert(after.subset_of(before.insert(id)));
        vstd::set_lib::lemma_len_subset(after, before.insert(id));
    } else {
        assert(after.subset_of(before));
        vstd::set_lib::lemma_len_subset(after, before);
    }
}

/// One request fewer on the stripes it touched.
proof fn lemma_pins_remove(pinned: Map<usize, (usize, usize)>, id: usize, i: int)
    requires
        pinned.dom().finite(),
        pinned.contains_key(id),
    ensures
        pins_on(pinned.remove(id), i).len() == pins_on(pinned, i).len() - (if pinned[id].0 <= i
            <= pinned[id].1 {
            1int
        } else {
            0
        }),
{
    let before = pins_on(pinned, i);
    let after = pins_on(pinned.remove(id), i);
    assert(before.subset_of(pinned.dom()));
    vstd::set_lib::lemma_set_subset_finite(pinned.dom(), before);
    if pinned[id].0 <= i <= pinned[id].1 {
        assert(after =~= before.remove(id));
        assert(before.contains(id));
    } else {
        assert(after =~= before);
    }
}

/// Giving a request to the base device keeps a channel well-formed.
proof fn lemma_pass_wf<B>(m: ChannelModel<B>, s: StateModel, r: RWRequest<B>)
    requires
        m.wf(s),
        s.wf(),
        r.stripe_id_first <= r.stripe_id_last < s.fetch.len(),
        forall|i: int|
            r.stripe_id_first <= i <= r.stripe_id_last ==> (#[trigger] s.inflight[i]) < u16::MAX,
    ensures
        m.after_pass(r).wf(ChannelModel::state_after_pass(s, r)),
{
    let after = ChannelModel::state_after_pass(s, r);
    assert forall|i: int| 0 <= i < after.inflight.len() implies pins_on(
        m.after_pass(r).pinned,
        i,
    ).len() <= #[trigger] after.inflight[i] by {
        lemma_pins_insert(m.pinned, r.id, (r.stripe_id_first, r.stripe_id_last), i);
        assert(pins_on(m.pinned, i).len() <= s.inflight[i]);
    }
}

/// Undoing a pin keeps a channel well-formed, and the stripes it pinned were
/// pinned.
proof fn lemma_release_wf<B>(m: ChannelModel<B>, s: StateModel, id: usize)
    requires
        m.wf(s),
        s.wf(),
    ensures
        m.after_release(id).wf(m.state_after_release(s, id)),
        m.pinned.contains_key(id) ==> forall|i: int|
            m.pinned[id].0 <= i <= m.pinned[id].1 ==> (#[trigger] s.inflight[i]) > 0,
{
    let after = m.state_after_release(s, id);
    if m.pinned.contains_key(id) {
        assert forall|i: int| m.pinned[id].0 <= i <= m.pinned[id].1 implies (
        #[trigger] s.inflight[i]) > 0 by {
            lemma_pins_remove(m.pinned, id, i);
            assert(pins_on(m.pinned, i).len() <= s.inflight[i]);
        }
        assert forall|i: int| 0 <= i < after.inflight.len() implies pins_on(
            m.after_release(id).pinned,
            i,
        ).len() <= #[trigger] after.inflight[i] by {
            lemma_pins_remove(m.pinned, id, i);
            assert(pins_on(m.pinned, i).len() <= s.inflight[i]);
        }
    } else {
        assert(m.after_release(id).pinned =~= m.pinned);
    }
}

/// Guards the base device: requests wait until their stripes are local.
pub struct LazyIoChannel<B> {
    /// Requests that wait, in order.
    pub queued_rw_requests: VecDeque<RWRequest<B>>,
    /// Requests that are done without the base device.
    pub finished_requests: Vec<(usize, bool)>,
    /// Stripes already asked for.
    pub stripe_fetches_requested: HashSet<usize>,
    /// A write waits until its stripes count as written.
    pub track_written: bool,
    /// A read of one missing stripe is served by the image.
    pub has_image: bool,
    /// Stripe range of every read or write handed to the base device, by
    /// completion id, so that a completion unpins the right stripes. Flushes
    /// leave none. This map, not the id, decides whether a completion unpins
    /// anything.
    pub pinned_by_id: HashMap<usize, (usize, usize)>,
    /// Ids given to the base device since its last hand-over. If that fails,
    /// the base device will never complete them, so their pins are released.
    pub unsubmitted: Vec<usize>,
}

impl<B> View for LazyIoChannel<B> {
    type V = ChannelModel<B>;

    open spec fn view(&self) -> ChannelModel<B> {
        ChannelModel {
            queue: self.queued_rw_requests@,
            finished: self.finished_requests@,
            requested: self.stripe_fetches_requested@,
            track_written: self.track_written,
            has_image: self.has_image,
            pinned: self.pinned_by_id@,
            unsubmitted: self.unsubmitted@,
        }
    }
}

impl<B> LazyIoChannel<B> {
    /// A channel with nothing to do.
    pub fn new(has_image: bool, track_written: bool) -> (r: LazyIoChannel<B>)
        ensures
            r@ == (ChannelModel::<B> {
                queue: Seq::empty(),
                finished: Seq::empty(),
                requested: Set::empty(),
                track_written,
                has_image,
                pinned: Map::empty(),
                unsubmitted: Seq::empty(),
            }),
            forall|s: StateModel| s.wf() ==> #[trigger] r@.wf(s),
    {
        let r = LazyIoChannel {
            queued_rw_requests: VecDeque::new(),
            finished_requests: Vec::new(),
            stripe_fetches_requested: HashSet::new(),
            track_written,
            has_image,
            pinned_by_id: HashMap::new(),
            unsubmitted: Vec::new(),
        };
        assert forall|s: StateModel| s.wf() implies #[trigger] r@.wf(s) by {
            assert forall|i: int| 0 <= i < s.inflight.len() implies pins_on(r@.pinned, i).len()
                <= #[trigger] s.inflight[i] by {
                assert(pins_on(r@.pinned, i) =~= Set::empty());
            }
        }
        r
    }

    /// What the stripes of a request are waiting for. Neither a hole nor a
    /// hang: a state this code does not know is an error.
    pub fn request_stripes_fetch_status(
        &self,
        state: &mut SharedMetadataState,
        request: &RWRequest<B>,
    ) -> (r: StripesFetchStatus)
        requires
            old(state)@.wf(),
            request.stripe_id_first <= request.stripe_id_last < old(state)@.fetch.len(),
        ensures
            r == status_from(
                old(state)@,
                request.stripe_id_first as int,
                request.stripe_id_last as int,
            ),
            final(state)@ == state_after_status(
                old(state)@,
                request.stripe_id_first as int,
                request.stripe_id_last as int,
            ),
    {
        let stripes: usize = state.stripe_count();
        let mut stripe_id: usize = request.stripe_id_first;
        while stripe_id <= request.stripe_id_last
            invariant
                request.stripe_id_first <= stripe_id <= request.stripe_id_last + 1,
                request.stripe_id_last < stripes,
                stripes == state@.fetch.len(),
                state@ == old(state)@,
                state@.wf(),
                status_from(
                    state@,
                    request.stripe_id_first as int,
                    request.stripe_id_last as int,
                ) == status_from(state@, stripe_id as int, request.stripe_id_last as int),
            decreases request.stripe_id_last + 1 - stripe_id,
        {
            let fetch_state: u8 = state.stripe_fetch_state(stripe_id);
            if fetch_state == Fetched || fetch_state == NoSource {
                stripe_id = stripe_id + 1;
                continue ;
            }
            if fetch_state == NotFetched || fetch_state == Evicting || fetch_state == Evicted {
                return StripesFetchStatus::Pending;
            }
            if fetch_state != Failed {
                state.spill.degraded_reasons = bump(state.spill.degraded_reasons);
                assert(state@ =~= old(state)@.with_anomaly());
            }
            return StripesFetchStatus::Failed { stripe_id };
        }
        StripesFetchStatus::Complete
    }

    /// Whether every stripe of the request is here right now.
    pub fn request_stripes_resident(
        &self,
        state: &SharedMetadataState,
        request: &RWRequest<B>,
    ) -> (r: bool)
        requires
            state@.wf(),
            request.stripe_id_first <= request.stripe_id_last < state@.fetch.len(),
        ensures
            r == all_here(
                state@,
                request.stripe_id_first as int,
                request.stripe_id_last as int,
            ),
    {
        let stripes: usize = state.stripe_count();
        let mut stripe_id: usize = request.stripe_id_first;
        while stripe_id <= request.stripe_id_last
            invariant
                request.stripe_id_first <= stripe_id <= request.stripe_id_last + 1,
                request.stripe_id_last < stripes,
                stripes == state@.fetch.len(),
                forall|i: int|
                    request.stripe_id_first <= i < stripe_id ==> here(#[trigger] state@.fetch[i]),
            decreases request.stripe_id_last + 1 - stripe_id,
        {
            let fetch_state: u8 = state.stripe_fetch_state(stripe_id);
            if fetch_state != Fetched && fetch_state != NoSource {
                assert(!here(state@.fetch[stripe_id as int]));
                return false;
            }
            stripe_id = stripe_id + 1;
        }
        true
    }

    /// Whether every stripe of the request counts as written.
    pub fn request_stripes_written(
        &self,
        state: &SharedMetadataState,
        request: &RWRequest<B>,
    ) -> (r: bool)
        requires
            state@.wf(),
            request.stripe_id_first <= request.stripe_id_last < state@.fetch.len(),
        ensures
            r == all_written(
                state@,
                request.stripe_id_first as int,
                request.stripe_id_last as int,
            ),
    {
        let stripes: usize = state.stripe_count();
        let mut stripe_id: usize = request.stripe_id_first;
        while stripe_id <= request.stripe_id_last
            invariant
                request.stripe_id_first <= stripe_id <= request.stripe_id_last + 1,
                request.stripe_id_last < stripes,
                stripes == state@.fetch.len(),
                state@.wf(),
                forall|i: int|
                    request.stripe_id_first <= i < stripe_id ==> (#[trigger] state@.write[i])
                        == Written,
            decreases request.stripe_id_last + 1 - stripe_id,
        {
            if !state.stripe_written(stripe_id) {
                assert(state@.write[stripe_id as int] != Written);
                return false;
            }
            stripe_id = stripe_id + 1;
        }
        true
    }

    /// Pin, check, note. Nothing stays pinned if the request cannot go to the
    /// base device right now. The pin comes before the check: the evictor
    /// claims a stripe and then looks at the in-flight count once, so either
    /// it sees this pin, or this check sees its claim.
    pub fn try_pass_to_base(
        &mut self,
        state: &mut SharedMetadataState,
        request: &RWRequest<B>,
    ) -> (passed: bool)
        requires
            old(self)@.wf(old(state)@),
            old(state)@.wf(),
            request.stripe_id_first <= request.stripe_id_last < old(state)@.fetch.len(),
            forall|i: int|
                request.stripe_id_first <= i <= request.stripe_id_last ==> (
                #[trigger] old(state)@.inflight[i]) < u16::MAX,
        ensures
            passed == old(self)@.passes(old(state)@, *request),
            passed ==> final(self)@ == old(self)@.after_pass(*request) && final(state)@
                == ChannelModel::state_after_pass(old(state)@, *request),
            !passed ==> final(self)@ == old(self)@ && final(state)@ == old(state)@,
            final(self)@.wf(final(state)@),
            final(state)@.wf(),
            final(state)@.fetch.len() == old(state)@.fetch.len(),
    {
        let first: usize = request.stripe_id_first;
        let last: usize = request.stripe_id_last;
        proof {
            lemma_pass_wf(self@, state@, *request);
        }
        state.pin_inflight(first, last);
        let can_pass = self.request_stripes_resident(state, request) && (request.kind
            == RequestType::In || ((!self.track_written || self.request_stripes_written(
            state,
            request,
        )) && state.write_gate() == GATE_OPEN));
        if !can_pass {
            proof {
                crate::metadata::state_laws::law_unpin_undoes_pin(
                    old(state)@,
                    first as int,
                    last as int,
                );
            }
            state.unpin_inflight(first, last);
            return false;
        }
        state.touch(first, last);
        self.pinned_by_id.insert(request.id, (first, last));
        self.unsubmitted.push(request.id);
        assert(self@ =~= old(self)@.after_pass(*request));
        assert(state@ =~= ChannelModel::state_after_pass(old(state)@, *request));
        true
    }

    /// Undo the pin recorded for `id`, if there still is one.
    pub fn release_pin(&mut self, state: &mut SharedMetadataState, id: usize)
        requires
            old(self)@.wf(old(state)@),
            old(state)@.wf(),
        ensures
            final(self)@ == old(self)@.after_release(id),
            final(state)@ == old(self)@.state_after_release(old(state)@, id),
            final(self)@.wf(final(state)@),
            final(state)@.wf(),
            final(state)@.fetch.len() == old(state)@.fetch.len(),
    {
        proof {
            lemma_release_wf(self@, state@, id);
        }
        let range = match self.pinned_by_id.get(&id) {
            Some(range) => Some(*range),
            None => None,
        };
        if let Some((first, last)) = range {
            self.pinned_by_id.remove(&id);
            state.unpin_inflight(first, last);
        }
        assert(self@ =~= old(self)@.after_release(id));
    }

    /// Release the pins of everything given to the base device since its last
    /// hand-over, which failed: it will never complete them.
    pub fn release_unsubmitted(&mut self, state: &mut SharedMetadataState) -> (ids: Vec<usize>)
        requires
            old(self)@.wf(old(state)@),
            old(state)@.wf(),
        ensures
            ids@ == old(self)@.unsubmitted,
            final(self)@ == old(self)@.after_submit(false),
            final(state)@ == old(self)@.state_after_submit(old(state)@, false),
            final(self)@.wf(final(state)@),
            final(state)@.wf(),
            final(state)@.fetch.len() == old(state)@.fetch.len(),
    {
        let mut ids: Vec<usize> = Vec::new();
        std::mem::swap(&mut ids, &mut self.unsubmitted);
        let ghost emptied = ChannelModel { unsubmitted: Seq::empty(), ..old(self)@ };
        assert(self@ =~= emptied);
        let mut i: usize = 0;
        while i < ids.len()
            invariant
                i <= ids@.len(),
                self@ == (ChannelModel {
                    unsubmitted: Seq::empty(),
                    ..old(self)@.after_releases(ids@, i as nat)
                }),
                state@ == old(self)@.state_after_releases(old(state)@, ids@, i as nat),
                self@.wf(state@),
                state@.wf(),
                state@.fetch.len() == old(state)@.fetch.len(),
            decreases ids@.len() - i,
        {
            self.release_pin(state, ids[i]);
            i = i + 1;
            assert(self@ =~= ChannelModel {
                unsubmitted: Seq::empty(),
                ..old(self)@.after_releases(ids@, i as nat)
            });
        }
        ids
    }

    /// Ask the coordinator for the stripes of a request that are not here and
    /// were not asked for; says whether it is still there.
    fn start_stripe_fetches<Q: RequestSink>(
        &mut self,
        state: &SharedMetadataState,
        request: &RWRequest<B>,
        sink: &mut Q,
    ) -> (r: (bool, bool, Ghost<nat>))
        requires
            old(self)@.wf(state@),
            state@.wf(),
            request.stripe_id_first <= request.stripe_id_last < state@.fetch.len(),
        ensures
            ({
                let wanted = old(self)@.fetches_wanted(state@, *request);
                &&& r.2@ <= wanted.len()
                &&& r.0 == (r.2@ == wanted.len())
                &&& r.1 == (r.2@ > 0)
                &&& final(self)@ == old(self)@.after_asking(wanted, r.2@)
                &&& final(sink).calls() == old(sink).calls() + fetch_calls(wanted, r.2@)
            }),
            final(self)@.wf(state@),
    {
        let ghost first = request.stripe_id_first as int;
        let ghost wants = |i: int|
            !here(state@.fetch[i]) && !old(self)@.requested.contains(i as usize);
        let ghost wanted = old(self)@.fetches_wanted(state@, *request);
        let ghost mut asked: nat = 0;
        let mut sent = false;
        let stripes: usize = state.stripe_count();
        let mut stripe_id: usize = request.stripe_id_first;
        proof {
            lemma_asking_none(old(self)@, wanted);
            assert(sink.calls() =~= sink.calls() + sent_fetches(wanted, 0));
        }
        while stripe_id <= request.stripe_id_last
            invariant
                first == request.stripe_id_first,
                request.stripe_id_first <= stripe_id <= request.stripe_id_last + 1,
                request.stripe_id_last < stripes,
                stripes == state@.fetch.len(),
                state@.wf(),
                wants == (|i: int|
                    !here(state@.fetch[i]) && !old(self)@.requested.contains(i as usize)),
                wanted == stripes_where(first, request.stripe_id_last as int, wants),
                asked == stripes_where(first, stripe_id - 1, wants).len(),
                asked <= wanted.len(),
                stripes_where(first, stripe_id - 1, wants) == wanted.take(asked as int),
                sent == (asked > 0),
                self@ == old(self)@.after_asking(wanted, asked),
                sink.calls() == old(sink).calls() + sent_fetches(wanted, asked),
                self@.wf(state@),
            decreases request.stripe_id_last + 1 - stripe_id,
        {
            proof {
                lemma_stripes_where(first, stripe_id - 1, wants);
                lemma_stripes_prefix(
                    first,
                    stripe_id as int,
                    request.stripe_id_last as int,
                    wants,
                );
                lemma_asked(old(self)@, wanted, asked, stripe_id, first, wants);
            }
            if !state.stripe_fetched_if_needed(stripe_id)
                && !self.stripe_fetches_requested.contains(&stripe_id) {
                assert(wants(stripe_id as int));
                assert(wanted[asked as int] == stripe_id);
                if !sink.send_fetch(stripe_id) {
                    assert(sink.calls() =~= old(sink).calls() + fetch_calls(wanted, asked));
                    return (false, sent, Ghost(asked));
                }
                assert(sink.calls() =~= old(sink).calls() + sent_fetches(wanted, asked + 1));
                self.stripe_fetches_requested.insert(stripe_id);
                proof {
                    lemma_ask_one(old(self)@, wanted, asked);
                    asked = asked + 1;
                }
                sent = true;
                assert(self@ =~= old(self)@.after_asking(wanted, asked));
            } else {
                assert(!wants(stripe_id as int));
            }
            stripe_id = stripe_id + 1;
        }
        assert(sink.calls() =~= old(sink).calls() + fetch_calls(wanted, asked));
        (true, sent, Ghost(asked))
    }

    /// Say that the stripes of a request are written; says whether the
    /// coordinator is still there. Persisting the bit happens later, but the
    /// in-memory state is what a fork is served, so it changes now.
    fn start_stripe_set_written<Q: RequestSink>(
        &self,
        state: &mut SharedMetadataState,
        request: &RWRequest<B>,
        sink: &mut Q,
    ) -> (r: (bool, Ghost<nat>))
        requires
            self@.wf(old(state)@),
            old(state)@.wf(),
            request.stripe_id_first <= request.stripe_id_last < old(state)@.fetch.len(),
        ensures
            ({
                let ids = stripes_where(
                    request.stripe_id_first as int,
                    request.stripe_id_last as int,
                    unwritten(old(state)@),
                );
                &&& r.1@ <= ids.len()
                &&& r.0 == (r.1@ == ids.len())
                &&& final(state)@ == marked_written(old(state)@, ids, r.1@)
                &&& final(sink).calls() == old(sink).calls() + written_calls(ids, r.1@)
            }),
            self@.wf(final(state)@),
            final(state)@.wf(),
            final(state)@.fetch.len() == old(state)@.fetch.len(),
    {
        let ghost s = state@;
        let ghost first = request.stripe_id_first as int;
        let ghost p = unwritten(s);
        let ghost ids = stripes_where(first, request.stripe_id_last as int, p);
        let ghost mut told: nat = 0;
        assert(sink.calls() =~= sink.calls() + sent_written(ids, 0));
        let stripes: usize = state.stripe_count();
        let mut stripe_id: usize = request.stripe_id_first;
        while stripe_id <= request.stripe_id_last
            invariant
                first == request.stripe_id_first,
                request.stripe_id_first <= stripe_id <= request.stripe_id_last + 1,
                request.stripe_id_last < stripes,
                stripes == state@.fetch.len(),
                s == old(state)@,
                s.wf(),
                p == unwritten(s),
                ids == stripes_where(first, request.stripe_id_last as int, p),
                told == stripes_where(first, stripe_id - 1, p).len(),
                told <= ids.len(),
                stripes_where(first, stripe_id - 1, p) == ids.take(told as int),
                state@ == marked_written(s, ids, told),
                sink.calls() == old(sink).calls() + sent_written(ids, told),
                state@.wf(),
                state@.fetch == s.fetch,
                state@.inflight == s.inflight,
                state@.write.len() == s.write.len(),
                forall|i: int|
                    stripe_id <= i < s.write.len() ==> (#[trigger] state@.write[i])
                        == s.write[i],
                self@.wf(state@),
            decreases request.stripe_id_last + 1 - stripe_id,
        {
            proof {
                lemma_stripes_prefix(first, stripe_id as int, request.stripe_id_last as int, p);
            }
            if !state.stripe_written(stripe_id) {
                assert(p(stripe_id as int));
                assert(ids[told as int] == stripe_id);
                if !sink.send_set_written(stripe_id) {
                    assert(sink.calls() =~= old(sink).calls() + written_calls(ids, told));
                    return (false, Ghost(told));
                }
                assert(sink.calls() =~= old(sink).calls() + sent_written(ids, told + 1));
                state.mark_stripe_written(stripe_id);
                proof {
                    told = told + 1;
                }
            } else {
                assert(!p(stripe_id as int));
            }
            stripe_id = stripe_id + 1;
        }
        assert(sink.calls() =~= old(sink).calls() + written_calls(ids, told));
        (true, Ghost(told))
    }

    /// Ask again for every stripe of a waiting request that is leaving or
    /// gone, at most once per interval, whatever was asked for before.
    fn resend_fetches_if_due<Q: RequestSink>(
        &self,
        state: &SharedMetadataState,
        front: &mut RWRequest<B>,
        sink: &mut Q,
        now: u64,
    ) -> (resent: Ghost<nat>)
        requires
            old(front).stripe_id_first <= old(front).stripe_id_last < state@.fetch.len(),
        ensures
            *final(front) == ChannelModel::after_resend(state@, *old(front), resent@, now),
            final(sink).calls() == old(sink).calls() + ChannelModel::resend_calls(
                state@,
                *old(front),
                resent@,
                now,
            ),
    {
        if let Some(sent) = front.fetch_sent_at {
            if now.saturating_sub(sent) < FETCH_RESEND_INTERVAL {
                assert(sink.calls() =~= sink.calls() + ChannelModel::resend_calls(
                    state@,
                    *front,
                    0,
                    now,
                ));
                return Ghost(0);
            }
        }
        let ghost first = front.stripe_id_first as int;
        let ghost p = leaving(state@);
        let ghost ids = stripes_where(first, front.stripe_id_last as int, p);
        let ghost mut resent: nat = 0;
        assert(sink.calls() =~= sink.calls() + sent_fetches(ids, 0));
        let mut sent = false;
        let stripes: usize = state.stripe_count();
        let mut stripe_id: usize = front.stripe_id_first;
        while stripe_id <= front.stripe_id_last
            invariant
                *front == *old(front),
                first == front.stripe_id_first,
                front.stripe_id_first <= stripe_id <= front.stripe_id_last + 1,
                front.stripe_id_last < stripes,
                stripes == state@.fetch.len(),
                p == leaving(state@),
                ids == stripes_where(first, front.stripe_id_last as int, p),
                resent == stripes_where(first, stripe_id - 1, p).len(),
                resent <= ids.len(),
                stripes_where(first, stripe_id - 1, p) == ids.take(resent as int),
                sent == (resent > 0),
                sink.calls() == old(sink).calls() + sent_fetches(ids, resent),
                ChannelModel::resend_due(*front, now),
            decreases front.stripe_id_last + 1 - stripe_id,
        {
            proof {
                lemma_stripes_prefix(first, stripe_id as int, front.stripe_id_last as int, p);
            }
            let fetch_state: u8 = state.stripe_fetch_state(stripe_id);
            if fetch_state == Evicting || fetch_state == Evicted {
                assert(p(stripe_id as int));
                assert(ids[resent as int] == stripe_id);
                if !sink.send_fetch(stripe_id) {
                    assert(sink.calls() =~= old(sink).calls() + fetch_calls(ids, resent));
                    return Ghost(resent);
                }
                assert(sink.calls() =~= old(sink).calls() + sent_fetches(ids, resent + 1));
                sent = true;
                proof {
                    resent = resent + 1;
                }
            } else {
                assert(!p(stripe_id as int));
            }
            stripe_id = stripe_id + 1;
        }
        assert(sink.calls() =~= old(sink).calls() + fetch_calls(ids, resent));
        if sent {
            front.fetch_sent_at = Some(now);
        }
        Ghost(resent)
    }
}

/// The sectors are the device's.
pub open spec fn addresses(s: StateModel, sector_offset: u64, sector_count: u32) -> bool {
    &&& sector_count > 0
    &&& sector_offset + sector_count - 1 <= u64::MAX
    &&& ((sector_offset + sector_count - 1) as u64 >> s.shift) < s.fetch.len()
}

/// How many of the requests touch stripe `i`.
pub open spec fn touching<B>(queue: Seq<RWRequest<B>>, i: int) -> nat
    decreases queue.len(),
{
    if queue.len() == 0 {
        0
    } else {
        touching(queue.drop_first(), i) + (if queue[0].stripe_id_first <= i
            <= queue[0].stripe_id_last {
            1nat
        } else {
            0nat
        })
    }
}

/// A request for the sectors.
pub open spec fn request_for<B>(
    s: StateModel,
    kind: RequestType,
    sector_offset: u64,
    sector_count: u32,
    buf: B,
    id: usize,
) -> RWRequest<B> {
    RWRequest {
        id,
        kind,
        sector_offset,
        sector_count,
        buf,
        stripe_id_first: (sector_offset >> s.shift) as usize,
        stripe_id_last: ((sector_offset + sector_count - 1) as u64 >> s.shift) as usize,
        fetch_sent_at: None,
    }
}

/// Build a request.
fn make_request<B>(
    state: &SharedMetadataState,
    kind: RequestType,
    sector_offset: u64,
    sector_count: u32,
    buf: B,
    id: usize,
) -> (r: RWRequest<B>)
    requires
        state@.wf(),
        addresses(state@, sector_offset, sector_count),
    ensures
        r == request_for(state@, kind, sector_offset, sector_count, buf, id),
        r.stripe_id_first <= r.stripe_id_last < state@.fetch.len(),
{
    let last: u64 = sector_offset + (sector_count as u64 - 1);
    let stripes: usize = state.stripe_count();
    proof {
        let shift = state@.shift;
        assert(sector_offset <= last && shift < 64 ==> (sector_offset >> shift) <= (last >> shift))
            by (bit_vector);
    }
    RWRequest {
        id,
        kind,
        sector_offset,
        sector_count,
        buf,
        stripe_id_first: state.sector_to_stripe_id(sector_offset),
        stripe_id_last: state.sector_to_stripe_id(last),
        fetch_sent_at: None,
    }
}

impl<B> LazyIoChannel<B> {
    /// Read sectors. A read of stripes that are here passes to the base
    /// device; a read of one missing stripe is served by the image, if there
    /// is one; any other waits for its stripes.
    pub fn add_read<C: IoChannel<B>, I: IoChannel<B>, Q: RequestSink>(
        &mut self,
        state: &mut SharedMetadataState,
        sector_offset: u64,
        sector_count: u32,
        buf: B,
        id: usize,
        base: &mut C,
        image: &mut I,
        sink: &mut Q,
        now: u64,
    )
        requires
            old(self)@.wf(old(state)@),
            old(state)@.wf(),
            addresses(old(state)@, sector_offset, sector_count),
            ChannelModel::room_for(
                old(state)@,
                request_for(
                    old(state)@,
                    RequestType::In,
                    sector_offset,
                    sector_count,
                    buf,
                    id,
                ),
            ),
        ensures
            ({
                let r = request_for(
                    old(state)@,
                    RequestType::In,
                    sector_offset,
                    sector_count,
                    buf,
                    id,
                );
                &&& final(state)@ == old(self)@.state_after_add_read(old(state)@, r)
                &&& final(base).calls() == old(base).calls() + old(self)@.base_calls(
                    old(state)@,
                    r,
                )
                &&& final(image).calls() == old(image).calls() + old(self)@.image_calls(
                    old(state)@,
                    r,
                )
                &&& exists|asked: nat|
                    {
                        &&& asked <= old(self)@.fetches_wanted(old(state)@, r).len()
                        &&& final(self)@ == #[trigger] old(self)@.after_add_read(
                            old(state)@,
                            r,
                            asked,
                            now,
                        )
                        &&& final(sink).calls() == old(sink).calls() + old(self)@.read_sink_calls(
                            old(state)@,
                            r,
                            asked,
                        )
                    }
            }),
            final(self)@.wf(final(state)@),
            final(state)@.wf(),
            final(state)@.fetch.len() == old(state)@.fetch.len(),
    {
        let ghost m = self@;
        let ghost s = state@;
        let mut request = make_request(
            state,
            RequestType::In,
            sector_offset,
            sector_count,
            buf,
            id,
        );
        let ghost r = request;
        let ghost none = Seq::<IoCall<B>>::empty();
        assert(base.calls() + none =~= base.calls());
        assert(image.calls() + none =~= image.calls());
        assert(sink.calls() + Seq::<SinkCall>::empty() =~= sink.calls());
        if self.try_pass_to_base(state, &request) {
            base.add_read(sector_offset, sector_count, request.buf, id);
            assert(base.calls() =~= old(base).calls() + m.base_calls(s, r));
            assert(self@ == m.after_add_read(s, r, 0, now));
            return;
        }
        match self.request_stripes_fetch_status(state, &request) {
            StripesFetchStatus::Complete => {},
            StripesFetchStatus::Pending => {
                if request.stripe_id_first == request.stripe_id_last && self.has_image {
                    image.add_read(sector_offset, sector_count, request.buf, id);
                    assert(image.calls() =~= old(image).calls() + m.image_calls(s, r));
                    assert(self@ == m.after_add_read(s, r, 0, now));
                    return;
                }
            },
            StripesFetchStatus::Failed { stripe_id } => {
                self.finished_requests.push((id, false));
                assert(self@ =~= m.after_add_read(s, r, 0, now));
                return;
            },
        }
        let (ok, sent, asked) = self.start_stripe_fetches(state, &request, sink);
        if ok {
            if sent {
                request.fetch_sent_at = Some(now);
            }
            self.queued_rw_requests.push_back(request);
        } else {
            self.finished_requests.push((id, false));
        }
        assert(self@ =~= m.after_add_read(s, r, asked@, now));
    }

    /// Write sectors. A write under a failing write gate fails; a write of
    /// stripes that are here, and written if that is tracked, passes to the
    /// base device; any other waits, and its stripes count as written from now
    /// on.
    pub fn add_write<C: IoChannel<B>, Q: RequestSink>(
        &mut self,
        state: &mut SharedMetadataState,
        sector_offset: u64,
        sector_count: u32,
        buf: B,
        id: usize,
        base: &mut C,
        sink: &mut Q,
        now: u64,
    )
        requires
            old(self)@.wf(old(state)@),
            old(state)@.wf(),
            addresses(old(state)@, sector_offset, sector_count),
            ChannelModel::room_for(
                old(state)@,
                request_for(
                    old(state)@,
                    RequestType::Out,
                    sector_offset,
                    sector_count,
                    buf,
                    id,
                ),
            ),
        ensures
            exists|asked: nat, told: nat| #[trigger]
                write_outcome(
                    old(self)@,
                    old(state)@,
                    request_for(
                        old(state)@,
                        RequestType::Out,
                        sector_offset,
                        sector_count,
                        buf,
                        id,
                    ),
                    asked,
                    told,
                    now,
                    final(self)@,
                    final(state)@,
                ) && final(sink).calls() == old(sink).calls() + old(self)@.write_sink_calls(
                    old(state)@,
                    request_for(
                        old(state)@,
                        RequestType::Out,
                        sector_offset,
                        sector_count,
                        buf,
                        id,
                    ),
                    asked,
                    told,
                ),
            final(base).calls() == old(base).calls() + old(self)@.base_calls(
                old(state)@,
                request_for(
                    old(state)@,
                    RequestType::Out,
                    sector_offset,
                    sector_count,
                    buf,
                    id,
                ),
            ),
            final(self)@.wf(final(state)@),
            final(state)@.wf(),
            final(state)@.fetch.len() == old(state)@.fetch.len(),
    {
        let ghost m = self@;
        let ghost s = state@;
        let mut request = make_request(
            state,
            RequestType::Out,
            sector_offset,
            sector_count,
            buf,
            id,
        );
        let ghost r = request;
        assert(base.calls() + Seq::<IoCall<B>>::empty() =~= base.calls());
        assert(sink.calls() + Seq::<SinkCall>::empty() =~= sink.calls());
        if state.write_gate() == GATE_FAIL {
            self.finished_requests.push((id, false));
            assert(self@ =~= m.after_add_write(s, r, 0, 0, now));
            assert(write_outcome(m, s, r, 0, 0, now, self@, state@));
            return;
        }
        if self.try_pass_to_base(state, &request) {
            base.add_write(sector_offset, sector_count, request.buf, id);
            assert(base.calls() =~= old(base).calls() + m.base_calls(s, r));
            assert(self@ == m.after_add_write(s, r, 0, 0, now));
            assert(write_outcome(m, s, r, 0, 0, now, self@, state@));
            return;
        }
        if let StripesFetchStatus::Failed { stripe_id } = self.request_stripes_fetch_status(
            state,
            &request,
        ) {
            self.finished_requests.push((id, false));
            assert(self@ =~= m.after_add_write(s, r, 0, 0, now));
            assert(write_outcome(m, s, r, 0, 0, now, self@, state@));
            return;
        }
        let (ok, sent, asked) = self.start_stripe_fetches(state, &request, sink);
        if !ok {
            self.finished_requests.push((id, false));
            assert(self@ =~= m.after_add_write(s, r, asked@, 0, now));
            assert(write_outcome(m, s, r, asked@, 0, now, self@, state@));
            return;
        }
        let ghost mut told: nat = 0;
        if self.track_written {
            let (ok, count) = self.start_stripe_set_written(state, &request, sink);
            proof {
                told = count@;
                assert(sink.calls() =~= old(sink).calls() + m.write_sink_calls(
                    s,
                    r,
                    asked@,
                    told,
                ));
            }
            if !ok {
                self.finished_requests.push((id, false));
                assert(self@ =~= m.after_add_write(s, r, asked@, told, now));
                assert(write_outcome(m, s, r, asked@, told, now, self@, state@));
                return;
            }
        }
        if sent {
            request.fetch_sent_at = Some(now);
        }
        self.queued_rw_requests.push_back(request);
        assert(self@ =~= m.after_add_write(s, r, asked@, told, now));
        assert(write_outcome(m, s, r, asked@, told, now, self@, state@));
    }

    /// Make everything written so far durable.
    pub fn add_flush<C: IoChannel<B>>(&self, id: usize, base: &mut C)
        ensures
            final(base).calls() == old(base).calls().push(IoCall::Flush { id }),
    {
        base.add_flush(id);
    }

    /// Hand over what was collected. If the base device refuses, it will never
    /// complete what it was given, so those pins are released. An image that
    /// refuses leaves everything as it is.
    pub fn submit<C: IoChannel<B>, I: IoChannel<B>>(
        &mut self,
        state: &mut SharedMetadataState,
        base: &mut C,
        image: &mut I,
    ) -> (r: Result<(), IoError>)
        requires
            old(self)@.wf(old(state)@),
            old(state)@.wf(),
        ensures
            exists|image_answer: Answer|
                {
                    &&& final(image).calls() == #[trigger] image_handed(
                        old(image).calls(),
                        old(self)@.has_image,
                        image_answer,
                    )
                    &&& if old(self)@.has_image && image_answer is Err {
                        &&& r == image_answer
                        &&& final(base).calls() == old(base).calls()
                        &&& final(self)@ == old(self)@
                        &&& final(state)@ == old(state)@
                    } else {
                        &&& final(base).calls() == old(base).calls().push(
                            IoCall::Submit { result: r },
                        )
                        &&& final(self)@ == old(self)@.after_submit(r is Ok)
                        &&& final(state)@ == old(self)@.state_after_submit(old(state)@, r is Ok)
                    }
                },
            final(self)@.wf(final(state)@),
            final(state)@.wf(),
            final(state)@.fetch.len() == old(state)@.fetch.len(),
    {
        let ghost seen = image.calls();
        let ghost mut image_answer: Answer = Ok(());
        if self.has_image {
            let answer = image.submit();
            proof {
                image_answer = answer;
            }
            if answer.is_err() {
                assert(image.calls() == image_handed(seen, true, image_answer));
                return answer;
            }
        }
        assert(image.calls() == image_handed(seen, old(self)@.has_image, image_answer));
        let answer = base.submit();
        if answer.is_ok() {
            self.unsubmitted.clear();
            assert(self@ =~= old(self)@.after_submit(true));
        } else {
            let _ = self.release_unsubmitted(state);
        }
        answer
    }

    /// Work through the waiting requests in order, until one has to go on
    /// waiting: a write that waits for its stripes to count as written or for
    /// the write gate holds everything behind it.
    fn process_queued_rw_requests<C: IoChannel<B>, Q: RequestSink>(
        &mut self,
        state: &mut SharedMetadataState,
        base: &mut C,
        sink: &mut Q,
        now: u64,
    ) -> (r: (Ghost<nat>, Ghost<Answer>))
        requires
            old(self)@.wf(old(state)@),
            old(state)@.wf(),
            old(self)@.room(old(state)@),
        ensures
            ({
                let through = old(self)@.worked_through(old(state)@, r.0@, now);
                let (m, s) = through.0.handed_over(through.1, through.2, r.1@ is Ok);
                final(self)@ == m && final(state)@ == s
            }),
            final(base).calls() == old(base).calls() + old(self)@.handed_calls(
                old(state)@,
                now,
                r.1@,
            ),
            final(sink).calls() == old(sink).calls() + old(self)@.worked_sink_calls(
                old(state)@,
                r.0@,
                now,
            ),
            final(self)@.wf(final(state)@),
            final(state)@.wf(),
            final(state)@.fetch.len() == old(state)@.fetch.len(),
    {
        let ghost mut resent: nat = 0;
        let ghost mut before = 0nat;
        let ghost mut so_far = Seq::<IoCall<B>>::empty();
        assert(base.calls() + so_far =~= base.calls());
        assert(sink.calls() + Seq::<SinkCall>::empty() =~= sink.calls());
        let mut added = false;
        let ghost m = self@;
        let ghost s = state@;
        let stripes: usize = state.stripe_count();
        let mut left: usize = self.queued_rw_requests.len();
        let mut waiting = false;
        while left > 0 && !waiting
            invariant
                !waiting ==> left == self@.queue.len(),
                !waiting ==> forall|k: nat|
                    {
                        let x = #[trigger] m.worked_through(s, k, now);
                        let y = self@.worked_through(state@, k, now);
                        x.0 == y.0 && x.1 == y.1 && x.2 == y.2 + before
                    },
                waiting ==> m.worked_through(s, resent, now) == (self@, state@, before),
                base.calls() == old(base).calls() + so_far,
                so_far.len() == before,
                !waiting ==> m.worked_calls(s, now) == so_far + self@.worked_calls(state@, now),
                waiting ==> m.worked_calls(s, now) == so_far,
                !waiting ==> sink.calls() == old(sink).calls(),
                !waiting ==> forall|k: nat| #[trigger]
                    m.worked_sink_calls(s, k, now) == self@.worked_sink_calls(state@, k, now),
                waiting ==> sink.calls() == old(sink).calls() + m.worked_sink_calls(
                    s,
                    resent,
                    now,
                ),
                !waiting ==> self@.room(state@),
                added == (before > 0),
                self@.wf(state@),
                state@.wf(),
                state@.fetch.len() == s.fetch.len(),
                stripes == s.fetch.len(),
            decreases left,
        {
            let ghost m0 = self@;
            let ghost s0 = state@;
            let mut front = match self.queued_rw_requests.pop_front() {
                Some(front) => front,
                None => {
                    return (Ghost(0), Ghost(Ok(())));
                },
            };
            let ghost r = front;
            let ghost popped = ChannelModel { queue: m0.queue.drop_first(), ..m0 };
            assert(r == m0.queue[0]);
            assert(self@ =~= popped);
            assert forall|i: int| 0 <= i < self@.queue.len() implies (
            #[trigger] self@.queue[i]).stripe_id_first <= self@.queue[i].stripe_id_last
                < state@.fetch.len() by {
                assert(self@.queue[i] == m0.queue[i + 1]);
            }
            left = left - 1;
            assert forall|i: int| 0 <= i < s0.inflight.len() implies (#[trigger] s0.inflight[i])
                + touching(popped.queue, i) + (if r.stripe_id_first <= i <= r.stripe_id_last {
                1int
            } else {
                0
            }) <= u16::MAX by {
                assert(s0.inflight[i] + touching(m0.queue, i) <= u16::MAX);
            }
            let write_gate: u8 = state.write_gate();
            match self.request_stripes_fetch_status(state, &front) {
                StripesFetchStatus::Complete => {
                    if front.kind == RequestType::Out && write_gate == GATE_FAIL {
                        self.finished_requests.push((front.id, false));
                        assert(self@ =~= popped.after_finish(r.id, false));
                    } else if !self.try_pass_to_base(state, &front) {
                        self.queued_rw_requests.push_front(front);
                        waiting = true;
                        assert(self@.queue =~= m0.queue);
                        assert(self@ =~= m0);
                        assert(m0.worked_calls(s0, now) =~= Seq::empty());
                        assert(so_far + m0.worked_calls(s0, now) =~= so_far);
                        assert(m.worked_sink_calls(s, resent, now) == m0.worked_sink_calls(
                            s0,
                            resent,
                            now,
                        ));
                        assert(sink.calls() =~= sink.calls() + m.worked_sink_calls(
                            s,
                            resent,
                            now,
                        ));
                    } else {
                        let ghost passed = self@;
                        self.forget_requested(front.stripe_id_first, front.stripe_id_last);
                        assert(self@ =~= popped.after_pass(r).after_served(r));
                        self.pass(front, base);
                        added = true;
                        proof {
                            before = before + 1;
                            let more = so_far.push(r.call());
                            assert(base.calls() =~= old(base).calls() + more);
                            assert(so_far + m0.worked_calls(s0, now) =~= more
                                + self@.worked_calls(state@, now));
                            so_far = more;
                        }
                    }
                },
                StripesFetchStatus::Pending => {
                    if write_gate == GATE_FAIL {
                        self.finished_requests.push((front.id, false));
                        assert(self@ =~= popped.after_finish(r.id, false));
                    } else {
                        let k = self.resend_fetches_if_due(state, &mut front, sink, now);
                        proof {
                            resent = k@;
                        }
                        self.queued_rw_requests.push_front(front);
                        waiting = true;
                        assert(self@.queue =~= m0.queue.update(
                            0,
                            ChannelModel::after_resend(state@, r, resent, now),
                        ));
                        assert(so_far + m0.worked_calls(s0, now) =~= so_far);
                        assert(m.worked_sink_calls(s, resent, now) == m0.worked_sink_calls(
                            s0,
                            resent,
                            now,
                        ));
                    }
                },
                StripesFetchStatus::Failed { stripe_id } => {
                    self.finished_requests.push((front.id, false));
                    assert(self@ =~= popped.after_finish(r.id, false));
                },
            }
        }
        assert(m.worked_through(s, resent, now) == (self@, state@, before));
        assert(m.worked_calls(s, now) =~= so_far);
        assert(sink.calls() =~= old(sink).calls() + m.worked_sink_calls(s, resent, now));
        let mut answer: Answer = Ok(());
        if added {
            answer = base.submit();
            if answer.is_ok() {
                self.unsubmitted.clear();
                assert(self@ =~= m.worked_through(s, resent, now).0.after_submit(true));
            } else {
                let ids = self.release_unsubmitted(state);
                self.fail_all(&ids);
            }
        }
        assert(base.calls() =~= old(base).calls() + m.handed_calls(s, now, answer));
        (Ghost(resent), Ghost(answer))
    }

    /// Give a request to the base device.
    fn pass<C: IoChannel<B>>(&self, request: RWRequest<B>, base: &mut C)
        ensures
            final(base).calls() == old(base).calls().push(request.call()),
    {
        match request.kind {
            RequestType::In => {
                base.add_read(
                    request.sector_offset,
                    request.sector_count,
                    request.buf,
                    request.id,
                );
            },
            RequestType::Out => {
                base.add_write(
                    request.sector_offset,
                    request.sector_count,
                    request.buf,
                    request.id,
                );
            },
        }
    }

    /// The stripes of a range are no longer asked for.
    fn forget_requested(&mut self, first: usize, last: usize)
        requires
            first <= last < usize::MAX,
        ensures
            final(self)@ == (ChannelModel {
                requested: old(self)@.requested.filter(|id: usize| !(first <= id <= last)),
                ..old(self)@
            }),
    {
        let mut stripe_id: usize = first;
        while stripe_id <= last
            invariant
                first <= stripe_id <= last + 1,
                last < usize::MAX,
                self@ == (ChannelModel { requested: self@.requested, ..old(self)@ }),
                forall|id: usize| #[trigger]
                    self@.requested.contains(id) == (old(self)@.requested.contains(id) && !(first
                        <= id < stripe_id)),
            decreases last + 1 - stripe_id,
        {
            self.stripe_fetches_requested.remove(&stripe_id);
            stripe_id = stripe_id + 1;
        }
        assert(self@ =~= ChannelModel {
            requested: old(self)@.requested.filter(|id: usize| !(first <= id <= last)),
            ..old(self)@
        });
    }

    /// Report every one of `ids` as failed.
    fn fail_all(&mut self, ids: &Vec<usize>)
        ensures
            final(self)@ == old(self)@.all_failed(ids@),
    {
        let mut i: usize = 0;
        while i < ids.len()
            invariant
                i <= ids@.len(),
                self@ == old(self)@.all_failed(ids@.take(i as int)),
            decreases ids@.len() - i,
        {
            self.finished_requests.push((ids[i], false));
            i = i + 1;
            assert(self@ =~= old(self)@.all_failed(ids@.take(i as int)));
        }
        assert(ids@.take(i as int) =~= ids@);
        assert(self@ =~= old(self)@.all_failed(ids@));
    }

    /// Requests that finished, each with whether it succeeded: those that were
    /// done without the base device, then those the base device and the image
    /// report.
    pub fn poll<C: IoChannel<B>, I: IoChannel<B>, Q: RequestSink>(
        &mut self,
        state: &mut SharedMetadataState,
        base: &mut C,
        image: &mut I,
        sink: &mut Q,
        now: u64,
    ) -> (results: Vec<(usize, bool)>)
        requires
            old(self)@.wf(old(state)@),
            old(state)@.wf(),
            old(self)@.room(old(state)@),
        ensures
            exists|
                resent: nat,
                answer: Answer,
                done: Seq<(usize, bool)>,
                served: Seq<(usize, bool)>,
            |
                {
                    &&& #[trigger] polled(
                        old(self)@,
                        old(state)@,
                        now,
                        resent,
                        answer,
                        done,
                        served,
                    ) == (final(self)@, final(state)@, results@)
                    &&& final(base).calls() == (old(base).calls() + old(self)@.handed_calls(
                        old(state)@,
                        now,
                        answer,
                    )).push(IoCall::Poll { done })
                    &&& final(sink).calls() == old(sink).calls() + old(self)@.worked_sink_calls(
                        old(state)@,
                        resent,
                        now,
                    )
                    &&& if old(self)@.has_image {
                        final(image).calls() == old(image).calls().push(
                            IoCall::Poll { done: served },
                        )
                    } else {
                        served.len() == 0 && final(image).calls() == old(image).calls()
                    }
                },
            final(self)@.wf(final(state)@),
            final(state)@.wf(),
            final(state)@.fetch.len() == old(state)@.fetch.len(),
    {
        let ghost m = self@;
        let ghost s = state@;
        let has_image = self.has_image;
        let (resent, answer) = self.process_queued_rw_requests(state, base, sink, now);
        let ghost through = m.worked_through(s, resent@, now);
        let ghost over = through.0.handed_over(through.1, through.2, answer@ is Ok);
        let mut results: Vec<(usize, bool)> = Vec::new();
        std::mem::swap(&mut results, &mut self.finished_requests);
        let ghost emptied = ChannelModel { finished: Seq::empty(), ..over.0 };
        assert(self@ =~= emptied);
        let done = base.poll();
        let ghost ids = ids_of(done@);
        let mut i: usize = 0;
        while i < done.len()
            invariant
                i <= done@.len(),
                ids == ids_of(done@),
                emptied == (ChannelModel { finished: Seq::empty(), ..over.0 }),
                self@ == emptied.after_releases(ids, i as nat),
                state@ == over.0.state_after_releases(over.1, ids, i as nat),
                emptied.after_releases(ids, i as nat).pinned == over.0.after_releases(
                    ids,
                    i as nat,
                ).pinned,
                results@ == over.0.finished + done@.take(i as int),
                self@.wf(state@),
                state@.wf(),
                state@.fetch.len() == s.fetch.len(),
            decreases done@.len() - i,
        {
            let (id, ok) = done[i];
            assert(ids[i as int] == id);
            self.release_pin(state, id);
            results.push((id, ok));
            i = i + 1;
            assert(results@ =~= over.0.finished + done@.take(i as int));
        }
        assert(done@.take(i as int) =~= done@);
        let ghost mut served: Seq<(usize, bool)> = Seq::empty();
        if has_image {
            let mut more = image.poll();
            proof {
                served = more@;
            }
            results.append(&mut more);
        }
        assert(results@ =~= all_results(over.0.finished, done@, served));
        assert(polled(m, s, now, resent@, answer@, done@, served) == (
            self@,
            state@,
            results@,
        ));
        results
    }

    /// Whether a request is outstanding.
    pub fn busy(&self, base_busy: bool, image_busy: bool) -> (r: bool)
        ensures
            r == (base_busy || (self@.has_image && image_busy) || self@.queue.len() > 0),
    {
        base_busy || (self.has_image && image_busy) || self.queued_rw_requests.len() > 0
    }
}

/// The image, if there is one, was handed what it was given.
pub open spec fn image_handed<B>(
    calls: Seq<IoCall<B>>,
    has_image: bool,
    answer: Answer,
) -> Seq<IoCall<B>> {
    if has_image {
        calls.push(IoCall::Submit { result: answer })
    } else {
        calls
    }
}

/// The requests of completions.
pub open spec fn ids_of(done: Seq<(usize, bool)>) -> Seq<usize> {
    done.map_values(|d: (usize, bool)| d.0)
}

/// The channel after a write was asked for, whatever the coordinator said.
pub open spec fn write_outcome<B>(
    m: ChannelModel<B>,
    s: StateModel,
    r: RWRequest<B>,
    asked: nat,
    told: nat,
    now: u64,
    after: ChannelModel<B>,
    state_after: StateModel,
) -> bool {
    &&& asked <= m.fetches_wanted(s, r).len()
    &&& told <= stripes_where(
        r.stripe_id_first as int,
        r.stripe_id_last as int,
        unwritten(s),
    ).len()
    &&& after == m.after_add_write(s, r, asked, told, now)
    &&& state_after == m.state_after_add_write(s, r, asked, told)
}

/// A poll: the channel, the shared state and the results. `resent` is how many
/// fetches could be sent again, `answer` whether the base device took what was
/// given to it, and `done` and `served` are what the base device and the image
/// reported.
pub open spec fn polled<B>(
    m: ChannelModel<B>,
    s: StateModel,
    now: u64,
    resent: nat,
    answer: Answer,
    done: Seq<(usize, bool)>,
    served: Seq<(usize, bool)>,
) -> (ChannelModel<B>, StateModel, Seq<(usize, bool)>) {
    let through = m.worked_through(s, resent, now);
    let over = through.0.handed_over(through.1, through.2, answer is Ok);
    (
        ChannelModel { finished: Seq::empty(), ..over.0 }.after_releases(
            ids_of(done),
            done.len(),
        ),
        over.0.state_after_releases(over.1, ids_of(done), done.len()),
        all_results(over.0.finished, done, served),
    )
}

/// All results of a poll, in order.
pub open spec fn all_results(
    finished: Seq<(usize, bool)>,
    done: Seq<(usize, bool)>,
    served: Seq<(usize, bool)>,
) -> Seq<(usize, bool)> {
    finished + done + served
}

impl<B> ChannelModel<B> {
    /// What went to the base device while the queue was worked through was
    /// handed over, if anything went, or was refused: then it failed.
    pub open spec fn handed_over(
        self,
        s: StateModel,
        added: nat,
        ok: bool,
    ) -> (ChannelModel<B>, StateModel) {
        if added == 0 {
            (self, s)
        } else if ok {
            (self.after_submit(true), s)
        } else {
            (
                self.after_submit(false).all_failed(self.unsubmitted),
                self.state_after_submit(s, false),
            )
        }
    }
}

/// The stripes of a range that satisfy `p` lie in the range.
proof fn lemma_stripes_where(first: int, last: int, p: spec_fn(int) -> bool)
    requires
        0 <= first <= last + 1 <= usize::MAX,
    ensures
        forall|k: int|
            0 <= k < stripes_where(first, last, p).len() ==> first <= (
            #[trigger] stripes_where(first, last, p)[k]) <= last && p(
                stripes_where(first, last, p)[k] as int,
            ),
    decreases last + 1 - first,
{
    if first <= last {
        lemma_stripes_where(first, last - 1, p);
        let before = stripes_where(first, last - 1, p);
        let all = stripes_where(first, last, p);
        assert forall|k: int| 0 <= k < all.len() implies first <= (#[trigger] all[k]) <= last && p(
            all[k] as int,
        ) by {
            if k < before.len() {
                assert(first <= before[k] <= last - 1);
            }
        }
    }
}

/// A longer range starts with the stripes of a shorter one.
proof fn lemma_stripes_prefix(first: int, at: int, last: int, p: spec_fn(int) -> bool)
    requires
        first <= at <= last,
    ensures
        ({
            let short = stripes_where(first, at, p);
            let whole = stripes_where(first, last, p);
            short.len() <= whole.len() && short == whole.take(short.len() as int)
        }),
        stripes_where(first, at, p) == (if p(at) {
            stripes_where(first, at - 1, p).push(at as usize)
        } else {
            stripes_where(first, at - 1, p)
        }),
        p(at) ==> stripes_where(first, at - 1, p).len() < stripes_where(first, last, p).len()
            && stripes_where(first, last, p)[stripes_where(first, at - 1, p).len() as int]
            == at as usize,
    decreases last - at,
{
    let short = stripes_where(first, at, p);
    let whole = stripes_where(first, last, p);
    if at < last {
        lemma_stripes_prefix(first, at, last - 1, p);
        let almost = stripes_where(first, last - 1, p);
        assert(whole.take(short.len() as int) =~= almost.take(short.len() as int));
    } else {
        assert(whole.take(short.len() as int) =~= short);
    }
    if p(at) {
        let k = stripes_where(first, at - 1, p).len() as int;
        assert(short[k] == at as usize);
        assert(whole.take(short.len() as int)[k] == whole[k]);
    }
}

/// Asking for nothing changes nothing.
proof fn lemma_asking_none<B>(m: ChannelModel<B>, ids: Seq<usize>)
    ensures
        m.after_asking(ids, 0) == m,
{
    assert(m.after_asking(ids, 0).requested =~= m.requested);
}

/// Asking for one more.
proof fn lemma_ask_one<B>(m: ChannelModel<B>, ids: Seq<usize>, asked: nat)
    requires
        asked < ids.len(),
    ensures
        m.after_asking(ids, asked + 1).requested == m.after_asking(ids, asked).requested.insert(
            ids[asked as int],
        ),
{
    let a = ids.take(asked as int);
    let b = ids.take(asked as int + 1);
    assert(b =~= a.push(ids[asked as int]));
    assert forall|x: usize| b.to_set().contains(x) == (a.to_set().contains(x) || x
        == ids[asked as int]) by {
        if a.contains(x) {
            let k = a.index_of(x);
            assert(b[k] == x);
        }
        if x == ids[asked as int] {
            assert(b[asked as int] == x);
        }
        if b.contains(x) {
            let k = b.index_of(x);
            if k < asked {
                assert(a[k] == x);
            }
        }
    }
    assert(m.after_asking(ids, asked + 1).requested =~= m.after_asking(
        ids,
        asked,
    ).requested.insert(ids[asked as int]));
}

/// A stripe that has not been reached yet was not asked for on the way.
proof fn lemma_asked<B>(
    m: ChannelModel<B>,
    ids: Seq<usize>,
    asked: nat,
    id: usize,
    first: int,
    p: spec_fn(int) -> bool,
)
    requires
        0 <= first <= id,
        asked <= ids.len(),
        stripes_where(first, id - 1, p) == ids.take(asked as int),
    ensures
        m.after_asking(ids, asked).requested.contains(id) == m.requested.contains(id),
{
    lemma_stripes_where(first, id - 1, p);
    let done = ids.take(asked as int);
    if done.to_set().contains(id) {
        let k = done.index_of(id);
        assert(stripes_where(first, id - 1, p)[k] <= id - 1);
    }
}

/// A device whose stripes are fetched when they are needed.
#[derive(Debug, Clone, Copy, PartialEq, Eq, Structural)]
pub struct LazyBlockDevice {
    /// Sectors of the local device.
    pub sector_count: u64,
    /// Whether reads of stripes that are not here yet can go to an image.
    pub has_image: bool,
    /// Whether guest writes are recorded in the metadata.
    pub track_written: bool,
}

impl LazyBlockDevice {
    /// A lazy device over a local device of `sector_count` sectors.
    pub fn new(sector_count: u64, has_image: bool, track_written: bool) -> (r: LazyBlockDevice)
        ensures
            r == (LazyBlockDevice { sector_count, has_image, track_written }),
    {
        LazyBlockDevice { sector_count, has_image, track_written }
    }

    /// A channel for requests to the device.
    pub fn create_channel<B>(&self) -> (r: LazyIoChannel<B>)
        ensures
            r@ == (ChannelModel::<B> {
                queue: Seq::empty(),
                finished: Seq::empty(),
                requested: Set::empty(),
                track_written: self.track_written,
                has_image: self.has_image,
                pinned: Map::empty(),
                unsubmitted: Seq::empty(),
            }),
            forall|s: StateModel| s.wf() ==> #[trigger] r@.wf(s),
    {
        LazyIoChannel::new(self.has_image, self.track_written)
    }

    /// Sectors of the device: those of the local one.
    pub fn sector_count(&self) -> (r: u64)
        ensures
            r == self.sector_count,
    {
        self.sector_count
    }
}

} // verus!
