//! The coordinator as mathematical values: what it knows, and how each event
//! moves it and the shared state.

use vstd::prelude::*;
use crate::counting::add_wrapping;
use crate::ingest_pool::{ascending, owns, IngestRequest};
use crate::io::{Answer, IoCall, PunchCall, SourceCall, StoreCall};
use crate::metadata::metadata_flags;
use crate::metadata::shared_state::{Evicted, Evicting, StateModel};
use crate::metadata::stripe_flags;
use crate::metadata_flusher::{
    poll_outcome, polled, start_outcome, state_after_finished, update_calls, FlusherModel,
    PersistOutcome, PersistResult,
};
use crate::push_gate::PushPermit;
use crate::spill::evictor_model::{
    tick_of, EvictorModel, FetchDisposition, PushDisposition, ReleasedPush, TickInputs, TickModel,
};
use crate::stripe_fetcher::{fetch_tick, fitted, local, FetchInputs, FetcherModel};
use crate::SECTOR_SIZE;

verus! {

/// How long the coordinator waits for a request when an evictor exists and
/// nothing is busy. The evictor has deadlines of its own, so the loop must
/// come round without a request.
pub const EVICTOR_IDLE_WAIT: u64 = 250_000_000;

/// Times a release header is issued again before the coordinator gives up.
pub const MAX_RELEASE_RETRIES: u8 = 3;

/// What the coordinator is asked to do.
#[derive(Debug)]
pub enum BgWorkerRequest {
    /// A guest wants a stripe.
    Fetch { stripe_id: usize },
    /// A stripe the snapshot server pushed to this fork. The permit is the
    /// subscriber's slot, released once this request has been handled, so the
    /// fork stops reading pushes it cannot keep up with.
    PushedStripe { stripe_id: usize, data: Vec<u8>, permit: PushPermit },
    /// A guest wrote to a stripe.
    SetWritten { stripe_id: usize },
    /// An ingest worker finished with a stripe. Only the coordinator touches
    /// metadata, so the workers hand their results back.
    FetchCompleted { stripe_id: usize, success: bool },
    /// Stop.
    Shutdown,
}

/// A stripe whose data has landed and whose header op is with the flusher: a
/// re-materialised stripe's EVICTED-clearing header, or, with spill, any
/// landed stripe's FETCHED header. The guest may not see either as resident
/// before that header is durable.
#[derive(Debug, Clone, Copy, PartialEq, Eq, Structural)]
pub struct PendingRelease {
    /// The stripe.
    pub stripe_id: usize,
    /// Times the op was issued again.
    pub retries: u8,
    /// Evicted, or Failed with the header still saying EVICTED: lands through
    /// `mark_stripe_resident`. Otherwise a NotFetched stripe landing under
    /// spill, which the header completion itself lands.
    pub from_evicted: bool,
}

/// Where stripes are taken in.
pub enum IngestModel {
    /// By one fetcher, driven by the coordinator.
    Inline(FetcherModel),
    /// By workers with ranges of their own: where each range starts, whether
    /// they run, and the requests for them.
    Pool(Seq<usize>, bool, Seq<(usize, IngestRequest)>),
}

/// What the coordinator knows.
#[verifier::ext_equal]
pub struct CoordModel {
    /// Where stripes are taken in.
    pub ingest: IngestModel,
    /// The flusher.
    pub f: FlusherModel,
    /// The evictor, with spill.
    pub e: Option<EvictorModel>,
    /// Stripes that wait for their header, by the token of its op.
    pub pending: Map<u64, PendingRelease>,
    /// The token of the next release.
    pub token: u64,
    /// Stripes that were not local when they went to the ingest, until it
    /// reports back.
    pub landing: Set<usize>,
    /// The coordinator is to stop.
    pub done: bool,
    /// Slots of pushes that were handled.
    pub dropped: Seq<PushPermit>,
}

/// The coordinator and the shared state.
#[verifier::ext_equal]
pub struct Coord {
    /// The coordinator.
    pub m: CoordModel,
    /// The shared state.
    pub s: StateModel,
}

impl CoordModel {
    /// Slots to be given back: the coordinator's own, then the evictor's, then
    /// those of its fetcher.
    pub open spec fn dropped_slots(self) -> Seq<PushPermit> {
        self.dropped + (match self.e {
            Some(e) => e.dropped,
            None => Seq::empty(),
        }) + (match self.ingest {
            IngestModel::Inline(fetcher) => fetcher.dropped,
            IngestModel::Pool(starts, running, outbox) => Seq::empty(),
        })
    }

    /// Those slots have been given back.
    pub open spec fn without_dropped(self) -> CoordModel {
        CoordModel {
            dropped: Seq::empty(),
            e: match self.e {
                Some(e) => Some(EvictorModel { dropped: Seq::empty(), ..e }),
                None => None,
            },
            ingest: match self.ingest {
                IngestModel::Inline(fetcher) => IngestModel::Inline(
                    FetcherModel { dropped: Seq::empty(), ..fetcher },
                ),
                IngestModel::Pool(starts, running, outbox) => self.ingest,
            },
            ..self
        }
    }
}

/// The two together.
pub open spec fn coord_of(m: CoordModel, s: StateModel) -> Coord {
    Coord { m, s }
}

/// The stripe is not local, by its state or by its header.
pub open spec fn gone(s: StateModel, id: usize) -> bool {
    s.fetch[id as int] == Evicted || s.flag(id as int, stripe_flags::WAS_EVICTED)
}

/// The worker that owns a stripe.
pub open spec fn owner_of(starts: Seq<usize>, id: usize) -> int {
    choose|worker: int| owns(starts, id, worker)
}

/// The stripe of a request, if it has one.
pub open spec fn request_stripe(req: BgWorkerRequest) -> Option<usize> {
    match req {
        BgWorkerRequest::Fetch { stripe_id } => Some(stripe_id),
        BgWorkerRequest::PushedStripe { stripe_id, data, permit } => Some(stripe_id),
        BgWorkerRequest::SetWritten { stripe_id } => Some(stripe_id),
        BgWorkerRequest::FetchCompleted { stripe_id, success } => Some(stripe_id),
        BgWorkerRequest::Shutdown => None,
    }
}

impl CoordModel {
    /// A stripe's data is local with its header in flight.
    pub open spec fn release_pending(self, id: usize) -> bool {
        exists|token: u64| #[trigger]
            self.pending.dom().contains(token) && self.pending[token].stripe_id == id
    }

    /// A fetch of the stripe has nothing to do: its data is local with its
    /// header in flight, or a pull or push for it is with the ingest already.
    pub open spec fn local_or_landing(self, id: usize) -> bool {
        self.release_pending(id) || self.landing.contains(id)
    }
}

/// What the outside world answered while the coordinator ticked.
pub struct UpdateInputs {
    /// The source and the target.
    pub fetch: FetchInputs,
    /// Whether the metadata device took the header writes.
    pub started: Answer,
    /// What the metadata device finished.
    pub completions: Seq<(usize, bool)>,
    /// Whether it took the flushes.
    pub flushed: Answer,
    /// What the evictor was answered.
    pub tick: TickInputs,
    /// When the evictor ticked.
    pub tick_now: u64,
    /// Whether each released push could be handed over.
    pub submits: Seq<Answer>,
    /// Whether the source was busy at the end.
    pub source_busy: bool,
    /// Whether the target was.
    pub target_busy: bool,
}

impl Coord {
    /// All parts describe the same stripes, and each is well-formed.
    pub open spec fn wf(self) -> bool {
        let n = self.s.fetch.len();
        &&& self.s.wf()
        &&& self.m.f.wf()
        &&& self.m.f.headers.len() == n
        &&& self.m.e matches Some(e) ==> e.wf(n)
        &&& match self.m.ingest {
            IngestModel::Inline(fetcher) => fetcher.wf(n),
            IngestModel::Pool(starts, running, outbox) => ascending(starts),
        }
        &&& forall|token: u64| #[trigger]
            self.m.pending.dom().contains(token) ==> self.m.pending[token].stripe_id < n
                && self.m.pending[token].retries <= MAX_RELEASE_RETRIES
    }

    /// A slot is to be given back.
    pub open spec fn with_dropped(self, permit: PushPermit) -> Coord {
        Coord { m: CoordModel { dropped: self.m.dropped.push(permit), ..self.m }, ..self }
    }

    /// A stripe that is not local goes to the ingest.
    pub open spec fn noted(self, id: usize) -> Coord {
        if gone(self.s, id) {
            Coord { m: CoordModel { landing: self.m.landing.insert(id), ..self.m }, ..self }
        } else {
            self
        }
    }

    /// A fetch goes to the ingest.
    pub open spec fn routed_fetch(self, id: usize) -> Coord {
        let t = self.noted(id);
        Coord {
            m: CoordModel {
                ingest: match self.m.ingest {
                    IngestModel::Inline(fetcher) => IngestModel::Inline(
                        fetcher.after_request(self.s, id),
                    ),
                    IngestModel::Pool(starts, running, outbox) => IngestModel::Pool(
                        starts,
                        running,
                        if running {
                            outbox.push(
                                (
                                    owner_of(starts, id) as usize,
                                    IngestRequest::Fetch { stripe_id: id },
                                ),
                            )
                        } else {
                            outbox
                        },
                    ),
                },
                ..t.m
            },
            ..t
        }
    }

    /// A push goes to the ingest. `submitted` says whether its write, if it is
    /// written at once, could be handed over.
    pub open spec fn routed_push(
        self,
        id: usize,
        data: Vec<u8>,
        permit: PushPermit,
        submitted: bool,
        now: u64,
    ) -> Coord {
        let t = self.noted(id);
        match self.m.ingest {
            IngestModel::Inline(fetcher) => {
                let taken = fetch_tick(fetcher.after_push(self.s, id, data@, permit), self.s);
                let over = if fetcher.push_writes(self.s, id) && !submitted {
                    taken.completed(id, false, now)
                } else {
                    taken
                };
                Coord {
                    m: CoordModel { ingest: IngestModel::Inline(over.m), ..t.m },
                    s: over.s,
                }
            },
            IngestModel::Pool(starts, running, outbox) => if running {
                Coord {
                    m: CoordModel {
                        ingest: IngestModel::Pool(
                            starts,
                            running,
                            outbox.push(
                                (
                                    owner_of(starts, id) as usize,
                                    IngestRequest::Pushed { stripe_id: id, data, permit },
                                ),
                            ),
                        ),
                        ..t.m
                    },
                    ..t
                }
            } else {
                t.with_dropped(permit)
            },
        }
    }

    /// The target is given a pushed stripe that is written at once.
    pub open spec fn routed_push_calls(self, id: usize, data: Seq<u8>, submitted: Answer) -> Seq<
        IoCall<Seq<u8>>,
    > {
        match self.m.ingest {
            IngestModel::Inline(fetcher) => if fetcher.push_writes(self.s, id) {
                fetcher.write_calls(
                    id,
                    fitted(data, (fetcher.stripe_sectors * SECTOR_SIZE) as nat),
                    submitted,
                )
            } else {
                Seq::empty()
            },
            IngestModel::Pool(starts, running, outbox) => Seq::empty(),
        }
    }

    /// A guest wants a stripe.
    pub open spec fn fetch_requested(self, id: usize, now: u64) -> Coord {
        if self.m.local_or_landing(id) {
            self
        } else {
            match self.m.e {
                None => self.routed_fetch(id),
                Some(e) => {
                    let disposition = e.fetch_disposition(self.s, id);
                    let t = Coord {
                        m: CoordModel {
                            e: Some(e.after_fetch_request(self.s, id, now)),
                            ..self.m
                        },
                        s: if disposition == FetchDisposition::Aborted {
                            e.state_after_abort(self.s, id)
                        } else {
                            self.s
                        },
                    };
                    if disposition != FetchDisposition::Forward || local(t.s, id) {
                        t
                    } else {
                        t.routed_fetch(id)
                    }
                },
            }
        }
    }

    /// With spill, every push is recorded whatever becomes of it: the server
    /// refuses a re-pull after copy-out, so the stripe is dirty from now on.
    pub open spec fn push_recorded(self, id: usize) -> Coord {
        if self.m.e is Some {
            Coord {
                m: CoordModel {
                    f: self.m.f.queued(id, metadata_flags::PUSHED, 0, 0),
                    ..self.m
                },
                s: self.s.with_flags_set(id as int, stripe_flags::PUSHED),
            }
        } else {
            self
        }
    }

    /// A stripe was pushed.
    pub open spec fn pushed(
        self,
        id: usize,
        data: Vec<u8>,
        permit: PushPermit,
        copy: Vec<u8>,
        submitted: bool,
        now: u64,
    ) -> Coord {
        let t = self.push_recorded(id);
        if t.m.release_pending(id) {
            t.with_dropped(permit)
        } else {
            match t.m.e {
                None => t.routed_push(id, data, permit, submitted, now),
                Some(e) => {
                    let disposition = e.push_disposition(t.s, id);
                    let u = Coord {
                        m: CoordModel {
                            e: Some(e.after_pushed_stripe(t.s, id, copy, permit, now)),
                            ..t.m
                        },
                        s: if disposition == PushDisposition::AbortedEviction {
                            e.state_after_abort(t.s, id)
                        } else {
                            t.s
                        },
                    };
                    if disposition != PushDisposition::Forward {
                        u
                    } else if local(u.s, id) {
                        u.with_dropped(permit)
                    } else {
                        u.routed_push(id, data, permit, submitted, now)
                    }
                },
            }
        }
    }

    /// What the target is asked for a push: to write it, unless the stripe's
    /// header is in flight, the evictor takes the push, or it is not needed.
    pub open spec fn pushed_calls(self, id: usize, data: Seq<u8>, submitted: Answer) -> Seq<
        IoCall<Seq<u8>>,
    > {
        let t = self.push_recorded(id);
        if t.m.release_pending(id) || (t.m.e matches Some(e) && (e.push_disposition(t.s, id)
            != PushDisposition::Forward || local(t.s, id))) {
            Seq::empty()
        } else {
            t.routed_push_calls(id, data, submitted)
        }
    }

    /// A request was processed, and the target answered.
    pub open spec fn answered(
        self,
        req: BgWorkerRequest,
        copy: Vec<u8>,
        submitted: Answer,
        now: u64,
    ) -> Coord {
        self.processed(req, copy, submitted is Ok, now)
    }

    /// What the target is asked for a request.
    pub open spec fn processed_calls(self, req: BgWorkerRequest, submitted: Answer) -> Seq<
        IoCall<Seq<u8>>,
    > {
        match req {
            BgWorkerRequest::PushedStripe { stripe_id, data, permit } => self.pushed_calls(
                stripe_id,
                data@,
                submitted,
            ),
            _ => Seq::empty(),
        }
    }

    /// The header op that lands a stripe once durable is with the flusher.
    pub open spec fn release_issued(self, id: usize, retries: u8, from_evicted: bool) -> Coord {
        Coord {
            m: CoordModel {
                pending: self.m.pending.insert(
                    self.m.token,
                    PendingRelease { stripe_id: id, retries, from_evicted },
                ),
                token: add_wrapping(self.m.token, 2),
                f: self.m.f.queued(
                    id,
                    metadata_flags::FETCHED,
                    metadata_flags::EVICTED,
                    self.m.token,
                ),
                ..self.m
            },
            ..self
        }
    }

    /// A stripe is no longer on its way.
    pub open spec fn not_landing(self, id: usize) -> Coord {
        Coord { m: CoordModel { landing: self.m.landing.remove(id), ..self.m }, ..self }
    }

    /// A stripe lands without waiting for its header.
    pub open spec fn landed_at_once(self, id: usize) -> Coord {
        Coord {
            m: CoordModel {
                f: self.m.f.queued(id, metadata_flags::FETCHED, metadata_flags::EVICTED, 0),
                ..self.m
            },
            s: self.s.after_mark_fetched(id as int),
        }
    }

    /// The ingest finished with a stripe.
    pub open spec fn landed(self, id: usize, success: bool) -> Coord {
        let t = self.not_landing(id);
        if !success {
            t
        } else if self.s.fetch[id as int] == Evicting {
            Coord { s: self.s.with_anomaly(), ..t }
        } else if !gone(self.s, id) && self.m.e is None {
            t.landed_at_once(id)
        } else if self.m.release_pending(id) {
            t
        } else {
            t.release_issued(id, 0, gone(self.s, id))
        }
    }

    /// The first `count` of the finished stripes landed.
    pub open spec fn all_landed(self, finished: Seq<(usize, bool)>, count: nat) -> Coord
        decreases count,
    {
        if count == 0 {
            self
        } else {
            self.all_landed(finished, (count - 1) as nat).landed(
                finished[count - 1].0,
                finished[count - 1].1,
            )
        }
    }

    /// The flusher finished a release op.
    pub open spec fn release_over(self, o: PersistOutcome) -> Coord {
        if !self.m.pending.dom().contains(o.token) {
            self
        } else {
            let p = self.m.pending[o.token];
            let taken = Coord {
                m: CoordModel { pending: self.m.pending.remove(o.token), ..self.m },
                ..self
            };
            if o.result != PersistResult::Durable && p.retries < MAX_RELEASE_RETRIES {
                taken.release_issued(p.stripe_id, (p.retries + 1) as u8, p.from_evicted)
            } else {
                let t = taken.not_landing(p.stripe_id);
                if o.result == PersistResult::Durable {
                    if p.from_evicted {
                        Coord { s: t.s.after_mark_resident(p.stripe_id as int), ..t }
                    } else {
                        Coord { s: t.s.after_mark_fetched(p.stripe_id as int), ..t }
                    }
                } else if p.from_evicted {
                    Coord { s: t.s.with_anomaly(), ..t }
                } else {
                    Coord { s: t.s.with_anomaly(), ..t }.landed_at_once(p.stripe_id)
                }
            }
        }
    }

    /// The first `count` outcomes that are the coordinator's were applied.
    pub open spec fn releases_over(self, outcomes: Seq<PersistOutcome>, count: nat) -> Coord
        decreases count,
    {
        if count == 0 {
            self
        } else {
            let t = self.releases_over(outcomes, (count - 1) as nat);
            if outcomes[count - 1].token & 1 == 1 {
                t
            } else {
                t.release_over(outcomes[count - 1])
            }
        }
    }

    /// A request was handled. `copy` is the evictor's copy of pushed data, and
    /// `submitted` says whether a pushed stripe's write could be handed over.
    pub open spec fn processed(
        self,
        req: BgWorkerRequest,
        copy: Vec<u8>,
        submitted: bool,
        now: u64,
    ) -> Coord {
        match req {
            BgWorkerRequest::Fetch { stripe_id } => self.fetch_requested(stripe_id, now),
            BgWorkerRequest::PushedStripe { stripe_id, data, permit } => self.pushed(
                stripe_id,
                data,
                permit,
                copy,
                submitted,
                now,
            ),
            BgWorkerRequest::SetWritten { stripe_id } => Coord {
                m: CoordModel {
                    f: self.m.f.queued(stripe_id, metadata_flags::WRITTEN, 0, 0),
                    ..self.m
                },
                ..self
            },
            BgWorkerRequest::FetchCompleted { stripe_id, success } => self.landed(
                stripe_id,
                success,
            ),
            BgWorkerRequest::Shutdown => Coord {
                m: CoordModel { done: true, ..self.m },
                ..self
            },
        }
    }

    /// The coordinator's own fetcher ticked, and what it finished landed.
    #[verifier::opaque]
    pub open spec fn ingested(self, inputs: FetchInputs, now: u64) -> Coord {
        match self.m.ingest {
            IngestModel::Inline(fetcher) => {
                let t = fetch_tick(fetcher, self.s).ticked(inputs, now);
                Coord {
                    m: CoordModel {
                        ingest: IngestModel::Inline(
                            FetcherModel { finished: Seq::empty(), ..t.m },
                        ),
                        ..self.m
                    },
                    s: t.s,
                }.all_landed(t.m.finished, t.m.finished.len())
            },
            IngestModel::Pool(starts, running, outbox) => self,
        }
    }

    /// The source was asked for as many stripes as the coordinator's own fetcher
    /// asks for in a tick.
    #[verifier::opaque]
    pub open spec fn ingest_asks_all(self, inputs: FetchInputs, now: u64) -> bool {
        match self.m.ingest {
            IngestModel::Inline(fetcher) => fetch_tick(fetcher, self.s).asks_all(inputs, now),
            IngestModel::Pool(starts, running, outbox) => true,
        }
    }

    /// What the source is asked meanwhile.
    #[verifier::opaque]
    pub open spec fn ingest_source_calls(self, inputs: FetchInputs, now: u64) -> Seq<SourceCall> {
        match self.m.ingest {
            IngestModel::Inline(fetcher) => fetch_tick(fetcher, self.s).source_calls(inputs, now),
            IngestModel::Pool(starts, running, outbox) => Seq::empty(),
        }
    }

    /// What the target is asked meanwhile.
    #[verifier::opaque]
    pub open spec fn ingest_target_calls(self, inputs: FetchInputs, now: u64) -> Seq<
        IoCall<Seq<u8>>,
    > {
        match self.m.ingest {
            IngestModel::Inline(fetcher) => fetch_tick(fetcher, self.s).target_calls(inputs, now),
            IngestModel::Pool(starts, running, outbox) => Seq::empty(),
        }
    }

    /// The flusher ticked.
    #[verifier::opaque]
    pub open spec fn flushed(
        self,
        started: bool,
        completions: Seq<(usize, bool)>,
        flushed: bool,
    ) -> Coord {
        let f = start_outcome(self.m.f, started);
        Coord {
            m: CoordModel { f: poll_outcome(f, completions, flushed), ..self.m },
            s: state_after_finished(self.s, polled(f, completions).finished),
        }
    }

    /// The coordinator's outcomes were handed out.
    pub open spec fn own_outcomes_handled(self) -> Coord {
        Coord {
            m: CoordModel { f: FlusherModel { outcomes: Seq::empty(), ..self.m.f }, ..self.m },
            ..self
        }.releases_over(self.m.f.outcomes, self.m.f.outcomes.len())
    }

    /// The evictor, once the coordinator's outcomes were handed out.
    pub open spec fn tick(self) -> Option<TickModel> {
        let t = self.own_outcomes_handled();
        match t.m.e {
            None => None,
            Some(e) => Some(tick_of(e, t.s, t.m.f)),
        }
    }

    /// What the data device is asked while the evictor ticks.
    #[verifier::opaque]
    pub open spec fn tick_read_calls(self, tick: TickInputs, now: u64) -> Seq<IoCall<Seq<u8>>> {
        match self.tick() {
            None => Seq::empty(),
            Some(t) => t.read_calls(self.m.f.outcomes, tick, now),
        }
    }

    /// What the store is asked while the evictor ticks.
    #[verifier::opaque]
    pub open spec fn tick_store_calls(self, tick: TickInputs, now: u64) -> Seq<StoreCall> {
        match self.tick() {
            None => Seq::empty(),
            Some(t) => t.store_calls(self.m.f.outcomes, tick, now),
        }
    }

    /// What the puncher is asked while the evictor ticks.
    #[verifier::opaque]
    pub open spec fn tick_punch_calls(self, tick: TickInputs, now: u64) -> Seq<PunchCall> {
        match self.tick() {
            None => Seq::empty(),
            Some(t) => t.punch_calls(self.m.f.outcomes, tick, now),
        }
    }

    /// What the clock is read for the evictor.
    #[verifier::opaque]
    pub open spec fn tick_readings(self, tick: TickInputs, now: u64) -> Seq<u64> {
        match self.tick() {
            None => Seq::empty(),
            Some(t) => t.clock_readings(self.m.f.outcomes, tick, now),
        }
    }

    /// What became of the evictor's reads can become of their data.
    #[verifier::opaque]
    pub open spec fn tick_encoded(self, tick: TickInputs, now: u64) -> bool {
        match self.tick() {
            None => true,
            Some(t) => t.encoded(self.m.f.outcomes, tick, now),
        }
    }

    /// The flusher's outcomes were handed out: the coordinator's first, then
    /// the evictor ticked with its own.
    #[verifier::opaque]
    pub open spec fn outcomes_handled(self, tick: TickInputs, now: u64) -> Coord {
        let outcomes = self.m.f.outcomes;
        let t = self.own_outcomes_handled();
        match t.m.e {
            None => t,
            Some(e) => {
                let u = tick_of(e, t.s, t.m.f).ticked(outcomes, tick, now);
                Coord { m: CoordModel { e: Some(u.m), f: u.f, ..t.m }, s: u.s }
            },
        }
    }

    /// The first `count` released fetches were routed, but those that have
    /// nothing to do.
    pub open spec fn fetches_routed(self, fetches: Seq<usize>, count: nat) -> Coord
        decreases count,
    {
        if count == 0 {
            self
        } else {
            let t = self.fetches_routed(fetches, (count - 1) as nat);
            if t.m.local_or_landing(fetches[count - 1]) {
                t
            } else {
                t.routed_fetch(fetches[count - 1])
            }
        }
    }

    /// The first `count` released pushes were routed.
    pub open spec fn pushes_routed(
        self,
        pushes: Seq<ReleasedPush>,
        submits: Seq<Answer>,
        now: u64,
        count: nat,
    ) -> Coord
        decreases count,
    {
        if count == 0 {
            self
        } else {
            let p = pushes[count - 1];
            self.pushes_routed(pushes, submits, now, (count - 1) as nat).routed_push(
                p.stripe_id,
                p.data,
                p.permit,
                submits[count - 1] is Ok,
                now,
            )
        }
    }

    /// What the target is asked for the first `count` released pushes.
    pub open spec fn all_routed_calls(
        self,
        pushes: Seq<ReleasedPush>,
        submits: Seq<Answer>,
        now: u64,
        count: nat,
    ) -> Seq<IoCall<Seq<u8>>>
        decreases count,
    {
        if count == 0 {
            Seq::empty()
        } else {
            let p = pushes[count - 1];
            self.all_routed_calls(pushes, submits, now, (count - 1) as nat) + self.pushes_routed(
                pushes,
                submits,
                now,
                (count - 1) as nat,
            ).routed_push_calls(p.stripe_id, p.data@, submits[count - 1])
        }
    }

    /// The evictor's released fetches were routed, and its pushes are taken.
    pub open spec fn released_fetches_routed(self, e: EvictorModel) -> Coord {
        Coord {
            m: CoordModel {
                e: Some(
                    EvictorModel {
                        released_fetches: Seq::empty(),
                        released_pushes: Seq::empty(),
                        ..e
                    },
                ),
                ..self.m
            },
            ..self
        }.fetches_routed(e.released_fetches, e.released_fetches.len())
    }

    /// What the target is asked for what the evictor released.
    #[verifier::opaque]
    pub open spec fn released_calls(self, submits: Seq<Answer>, now: u64) -> Seq<
        IoCall<Seq<u8>>,
    > {
        match self.m.e {
            None => Seq::empty(),
            Some(e) => self.released_fetches_routed(e).all_routed_calls(
                e.released_pushes,
                submits,
                now,
                e.released_pushes.len(),
            ),
        }
    }

    /// What the evictor released was routed.
    #[verifier::opaque]
    pub open spec fn released_routed(self, submits: Seq<Answer>, now: u64) -> Coord {
        match self.m.e {
            None => self,
            Some(e) => self.released_fetches_routed(e).pushes_routed(
                e.released_pushes,
                submits,
                now,
                e.released_pushes.len(),
            ),
        }
    }

    /// The source is no longer needed from now on.
    pub open spec fn lets_go(self, source_busy: bool, target_busy: bool) -> bool {
        match self.m.ingest {
            IngestModel::Inline(fetcher) => fetcher.may_disconnect(
                self.s,
                fetcher.is_busy(source_busy, target_busy),
            ),
            IngestModel::Pool(starts, running, outbox) => false,
        }
    }

    /// The source was let go of, if it is no longer needed.
    #[verifier::opaque]
    pub open spec fn source_checked(self, source_busy: bool, target_busy: bool) -> Coord {
        match self.m.ingest {
            IngestModel::Inline(fetcher) => {
                let busy = fetcher.is_busy(source_busy, target_busy);
                Coord {
                    m: CoordModel {
                        ingest: IngestModel::Inline(
                            FetcherModel {
                                disconnected: fetcher.disconnected || fetcher.may_disconnect(
                                    self.s,
                                    busy,
                                ),
                                ..fetcher
                            },
                        ),
                        ..self.m
                    },
                    ..self
                }
            },
            IngestModel::Pool(starts, running, outbox) => self,
        }
    }

    /// One tick of the coordinator.
    pub open spec fn updated(self, x: UpdateInputs, now: u64) -> Coord {
        self.before_check(x, now).source_checked(x.source_busy, x.target_busy)
    }

    /// A tick but for the check of the source.
    pub open spec fn before_check(self, x: UpdateInputs, now: u64) -> Coord {
        self.after_flush(x, now).outcomes_handled(x.tick, x.tick_now).released_routed(
            x.submits,
            now,
        )
    }

    /// A tick once the flusher ticked.
    pub open spec fn after_flush(self, x: UpdateInputs, now: u64) -> Coord {
        self.ingested(x.fetch, now).flushed(x.started is Ok, x.completions, x.flushed is Ok)
    }

    /// What the target is asked in a tick.
    pub open spec fn target_calls(self, x: UpdateInputs, now: u64) -> Seq<IoCall<Seq<u8>>> {
        self.ingest_target_calls(x.fetch, now) + self.after_flush(x, now).outcomes_handled(
            x.tick,
            x.tick_now,
        ).released_calls(x.submits, now)
    }

    /// What the metadata device is asked in a tick.
    pub open spec fn metadata_calls(self, x: UpdateInputs, now: u64) -> Seq<IoCall<Seq<u8>>> {
        update_calls(self.ingested(x.fetch, now).m.f, x.started, x.completions, x.flushed)
    }

    /// Something is going on: with a pool the workers block on queues of their
    /// own, so only the flusher and the evictor count.
    pub open spec fn is_busy(self, source_busy: bool, target_busy: bool, now: u64) -> bool {
        ||| (self.m.ingest matches IngestModel::Inline(fetcher) && fetcher.is_busy(
            source_busy,
            target_busy,
        ))
        ||| self.m.f.is_busy()
        ||| (self.m.e matches Some(e) && e.is_busy(self.s, now))
    }

    /// How long the coordinator waits for a request: for good (`None`) only
    /// without an evictor and with nothing going on.
    pub open spec fn wait(self, busy: bool) -> Option<u64> {
        if busy {
            Some(0)
        } else if self.m.e is Some {
            Some(EVICTOR_IDLE_WAIT)
        } else {
            None
        }
    }
}

} // verus!
