//! The coordinator: takes requests, routes stripes to the ingest, owns the
//! metadata, and drives the flusher and the evictor.

use std::collections::{HashMap, HashSet};
use vstd::prelude::*;
use crate::bgworker_model::{
    coord_of, owner_of, request_stripe, BgWorkerRequest, Coord, CoordModel, EVICTOR_IDLE_WAIT,
    IngestModel, MAX_RELEASE_RETRIES, PendingRelease, UpdateInputs,
};
use crate::counting::{bump, bump_by};
use crate::ingest_pool::{law_a_stripe_has_one_owner, owns, IngestPool, IngestRequest};
use crate::io::{
    calls_bytes, Answer, ArchiveStore, Clock, HolePuncher, IoCall, IoChannel, StripeSource,
};
use crate::metadata::metadata_flags;
use crate::metadata::shared_state::{Evicted, Evicting, SharedMetadataState, StateModel};
use crate::metadata::stripe_flags;
use crate::metadata_flusher::{
    poll_outcome, polled, start_outcome, state_after_finished, update_calls, FlusherModel,
    MetadataFlusher, PersistOutcome, PersistResult,
};
use crate::push_gate::PushPermit;
use crate::spill::evictor::Evictor;
use crate::spill::evictor_model::{
    tick_of, EvictorModel, FetchDisposition, ReleasedPush, TickInputs,
};
use crate::stripe_fetcher::{fetch_tick, submit_write, FetchInputs, FetcherModel, StripeFetcher};

verus! {

broadcast use vstd::std_specs::hash::group_hash_axioms;

/// Where stripes are taken in.
#[derive(Debug)]
pub enum Ingest {
    /// By one fetcher, driven by the coordinator's own loop.
    Inline(StripeFetcher),
    /// By several workers, each with its own range of the device. They report
    /// finished stripes back as `FetchCompleted`.
    Pool(IngestPool),
}

impl View for Ingest {
    type V = IngestModel;

    open spec fn view(&self) -> IngestModel {
        match *self {
            Ingest::Inline(fetcher) => IngestModel::Inline(fetcher@),
            Ingest::Pool(pool) => IngestModel::Pool(
                pool.range_starts@,
                pool.running,
                pool.outbox@,
            ),
        }
    }
}

/// The coordinator.
pub struct BgWorker {
    /// Where stripes are taken in.
    pub ingest: Ingest,
    /// Writes header changes.
    pub metadata_flusher: MetadataFlusher,
    /// Present with spill.
    pub evictor: Option<Evictor>,
    /// Stripes whose data has landed and whose header is with the flusher, by
    /// the token of the header op.
    pub pending_release: HashMap<u64, PendingRelease>,
    /// Even tokens are the coordinator's; odd ones the evictor's.
    pub next_release_token: u64,
    /// Stripes that were not local when a fetch or push for them was handed
    /// to the ingest, until the ingest reports back. A re-sent fetch for one
    /// of them is dropped rather than forwarded: it could reach the fetcher
    /// after the pull has landed but before the coordinator has taken the
    /// completion in, and start a second pull whose write lands after the
    /// guest has the stripe back.
    pub landing: HashSet<usize>,
    /// The coordinator is to stop.
    pub done: bool,
    /// Slots of pushes that were handled.
    pub dropped_permits: Vec<PushPermit>,
}

impl View for BgWorker {
    type V = CoordModel;

    open spec fn view(&self) -> CoordModel {
        CoordModel {
            ingest: self.ingest@,
            f: self.metadata_flusher@,
            e: match self.evictor {
                Some(evictor) => Some(evictor@),
                None => None,
            },
            pending: self.pending_release@,
            token: self.next_release_token,
            landing: self.landing@,
            done: self.done,
            dropped: self.dropped_permits@,
        }
    }
}

impl BgWorker {
    /// A coordinator that takes stripes in with a fetcher of its own. With an
    /// evictor the source is never let go of.
    pub fn new(
        fetcher: StripeFetcher,
        metadata_flusher: MetadataFlusher,
        expects_pushes: bool,
        evictor: Option<Evictor>,
    ) -> (r: BgWorker)
        ensures
            r@ == (CoordModel {
                ingest: IngestModel::Inline(
                    FetcherModel {
                        expects_pushes,
                        never_disconnect: evictor is Some,
                        ..fetcher@
                    },
                ),
                f: metadata_flusher@,
                e: match evictor {
                    Some(evictor) => Some(evictor@),
                    None => None,
                },
                pending: Map::empty(),
                token: 2,
                landing: Set::empty(),
                done: false,
                dropped: Seq::empty(),
            }),
    {
        let mut fetcher = fetcher;
        fetcher.set_expects_pushes(expects_pushes);
        fetcher.set_never_disconnect(evictor.is_some());
        BgWorker {
            ingest: Ingest::Inline(fetcher),
            metadata_flusher,
            evictor,
            pending_release: HashMap::new(),
            next_release_token: 2,
            landing: HashSet::new(),
            done: false,
            dropped_permits: Vec::new(),
        }
    }

    /// A coordinator whose stripes are taken in by a pool of workers.
    pub fn with_ingest_pool(
        pool: IngestPool,
        metadata_flusher: MetadataFlusher,
        evictor: Option<Evictor>,
    ) -> (r: BgWorker)
        ensures
            r@ == (CoordModel {
                ingest: IngestModel::Pool(pool.range_starts@, pool.running, pool.outbox@),
                f: metadata_flusher@,
                e: match evictor {
                    Some(evictor) => Some(evictor@),
                    None => None,
                },
                pending: Map::empty(),
                token: 2,
                landing: Set::empty(),
                done: false,
                dropped: Seq::empty(),
            }),
    {
        BgWorker {
            ingest: Ingest::Pool(pool),
            metadata_flusher,
            evictor,
            pending_release: HashMap::new(),
            next_release_token: 2,
            landing: HashSet::new(),
            done: false,
            dropped_permits: Vec::new(),
        }
    }

    /// Whether a stripe's data is local with its header in flight.
    pub fn release_pending(&self, stripe_id: usize) -> (r: bool)
        ensures
            r == self@.release_pending(stripe_id),
    {
        for pending in it: self.pending_release.values()
            invariant
                it.seq().unref().to_set() == self@.pending.values(),
                forall|j: int|
                    0 <= j < it.index() ==> (#[trigger] it.seq()[j]).stripe_id != stripe_id,
        {
            if pending.stripe_id == stripe_id {
                assert(it.seq().unref()[it.index() as int] == *pending);
                assert(it.seq().unref().to_set().contains(*pending));
                return true;
            }
        }
        assert forall|token: u64| #[trigger] self@.pending.dom().contains(token) implies
            self@.pending[token].stripe_id != stripe_id by {
            assert(self@.pending.values().contains(self@.pending[token]));
        }
        false
    }

    /// Whether a fetch of the stripe has nothing to do. Every route a fetch
    /// takes to the ingest, the guest's request and the evictor's released
    /// ones alike, asks here.
    pub fn stripe_local_or_landing(&self, stripe_id: usize) -> (r: bool)
        ensures
            r == self@.local_or_landing(stripe_id),
    {
        self.release_pending(stripe_id) || self.landing.contains(&stripe_id)
    }

    /// Remember a stripe that is not local when it goes to the ingest, so that
    /// re-sent fetches for it are dropped until it has landed.
    fn note_landing(&mut self, state: &SharedMetadataState, stripe_id: usize)
        requires
            coord_of(old(self)@, state@).wf(),
            state@.valid(stripe_id as int),
        ensures
            coord_of(final(self)@, state@) == coord_of(old(self)@, state@).noted(stripe_id),
            coord_of(final(self)@, state@).wf(),
            final(self).ingest == old(self).ingest,
    {
        if state.stripe_fetch_state(stripe_id) == Evicted || state.stripe_flags(stripe_id)
            & stripe_flags::WAS_EVICTED != 0 {
            self.landing.insert(stripe_id);
            assert(self@ =~= coord_of(old(self)@, state@).noted(stripe_id).m);
        }
    }

    /// Hand a fetch to the ingest.
    fn route_fetch(&mut self, state: &SharedMetadataState, stripe_id: usize)
        requires
            coord_of(old(self)@, state@).wf(),
            state@.valid(stripe_id as int),
        ensures
            coord_of(final(self)@, state@) == coord_of(old(self)@, state@).routed_fetch(
                stripe_id,
            ),
            coord_of(final(self)@, state@).wf(),
    {
        self.note_landing(state, stripe_id);
        match &mut self.ingest {
            Ingest::Inline(fetcher) => {
                fetcher.handle_fetch_request(state, stripe_id);
            },
            Ingest::Pool(pool) => {
                let ghost starts = pool.range_starts@;
                pool.send(stripe_id, IngestRequest::Fetch { stripe_id });
                proof {
                    lemma_owner(starts, stripe_id);
                }
            },
        }
        assert(self@ =~= coord_of(old(self)@, state@).routed_fetch(stripe_id).m);
    }

    /// Hand a push to the ingest.
    fn route_push<C: IoChannel<Vec<u8>>>(
        &mut self,
        state: &mut SharedMetadataState,
        stripe_id: usize,
        data: Vec<u8>,
        permit: PushPermit,
        target: &mut C,
        now: u64,
    ) -> (submitted: Ghost<Answer>)
        requires
            coord_of(old(self)@, old(state)@).wf(),
            old(state)@.valid(stripe_id as int),
        ensures
            coord_of(final(self)@, final(state)@) == coord_of(
                old(self)@,
                old(state)@,
            ).routed_push(stripe_id, data, permit, submitted@ is Ok, now),
            calls_bytes(final(target).calls()) == calls_bytes(old(target).calls()) + coord_of(
                old(self)@,
                old(state)@,
            ).routed_push_calls(stripe_id, data@, submitted@),
            coord_of(final(self)@, final(state)@).wf(),
            final(state)@.fetch.len() == old(state)@.fetch.len(),
    {
        let ghost before = coord_of(self@, state@);
        let ghost given = calls_bytes(target.calls());
        let ghost bytes = data@;
        self.note_landing(state, stripe_id);
        let mut submitted: Answer = Ok(());
        match &mut self.ingest {
            Ingest::Inline(fetcher) => {
                if let Some(w) = fetcher.accept_pushed_stripe(
                    state,
                    stripe_id,
                    data.as_slice(),
                    permit,
                ) {
                    submitted = submit_write(target, w);
                    if submitted.is_err() {
                        fetcher.fetch_completed(state, stripe_id, false, now);
                    }
                }
            },
            Ingest::Pool(pool) => {
                if pool.running {
                    let ghost starts = pool.range_starts@;
                    pool.send(stripe_id, IngestRequest::Pushed { stripe_id, data, permit });
                    proof {
                        lemma_owner(starts, stripe_id);
                    }
                } else {
                    self.dropped_permits.push(permit);
                }
            },
        }
        assert(coord_of(self@, state@) =~= before.routed_push(
            stripe_id,
            data,
            permit,
            submitted is Ok,
            now,
        ));
        assert(calls_bytes(target.calls()) =~= given + before.routed_push_calls(
            stripe_id,
            bytes,
            submitted,
        ));
        Ghost(submitted)
    }

    /// A guest wants a stripe.
    fn fetch_requested(&mut self, state: &mut SharedMetadataState, stripe_id: usize, now: u64)
        requires
            coord_of(old(self)@, old(state)@).wf(),
            old(state)@.valid(stripe_id as int),
        ensures
            coord_of(final(self)@, final(state)@) == coord_of(
                old(self)@,
                old(state)@,
            ).fetch_requested(stripe_id, now),
            coord_of(final(self)@, final(state)@).wf(),
            final(state)@.fetch.len() == old(state)@.fetch.len(),
    {
        if self.stripe_local_or_landing(stripe_id) {
            return;
        }
        if let Some(evictor) = &mut self.evictor {
            let disposition = evictor.on_fetch_request(state, stripe_id, now);
            if disposition != FetchDisposition::Forward {
                return;
            }
            if state.stripe_fetched_if_needed(stripe_id) {
                return;
            }
        }
        self.route_fetch(state, stripe_id);
    }

    /// With spill, record a push.
    fn record_push(&mut self, state: &mut SharedMetadataState, stripe_id: usize)
        requires
            coord_of(old(self)@, old(state)@).wf(),
            old(state)@.valid(stripe_id as int),
        ensures
            coord_of(final(self)@, final(state)@) == coord_of(
                old(self)@,
                old(state)@,
            ).push_recorded(stripe_id),
            coord_of(final(self)@, final(state)@).wf(),
            final(state)@.fetch.len() == old(state)@.fetch.len(),
    {
        if self.evictor.is_some() {
            state.set_stripe_flags(stripe_id, stripe_flags::PUSHED);
            assert((0x20u8 | 0u8) & !0x3bu8 == 0) by (bit_vector);
            self.metadata_flusher.update_stripe_header(stripe_id, metadata_flags::PUSHED, 0, 0);
            assert(self@ =~= coord_of(old(self)@, old(state)@).push_recorded(stripe_id).m);
        }
    }

    /// A stripe was pushed.
    fn pushed<C: IoChannel<Vec<u8>>>(
        &mut self,
        state: &mut SharedMetadataState,
        stripe_id: usize,
        data: Vec<u8>,
        permit: PushPermit,
        target: &mut C,
        now: u64,
    ) -> (r: (Ghost<Vec<u8>>, Ghost<Answer>))
        requires
            coord_of(old(self)@, old(state)@).wf(),
            old(state)@.valid(stripe_id as int),
        ensures
            r.0@@ == data@,
            coord_of(final(self)@, final(state)@) == coord_of(old(self)@, old(state)@).pushed(
                stripe_id,
                data,
                permit,
                r.0@,
                r.1@ is Ok,
                now,
            ),
            calls_bytes(final(target).calls()) == calls_bytes(old(target).calls()) + coord_of(
                old(self)@,
                old(state)@,
            ).pushed_calls(stripe_id, data@, r.1@),
            coord_of(final(self)@, final(state)@).wf(),
            final(state)@.fetch.len() == old(state)@.fetch.len(),
    {
        let ghost before = coord_of(self@, state@);
        let ghost given = calls_bytes(target.calls());
        assert(given + Seq::<IoCall<Seq<u8>>>::empty() =~= given);
        self.record_push(state, stripe_id);
        let ghost recorded = coord_of(self@, state@);
        if self.release_pending(stripe_id) {
            self.dropped_permits.push(permit);
            assert(self@ =~= recorded.with_dropped(permit).m);
            return (Ghost(data), Ghost(Ok(())));
        }
        let ghost slot = permit;
        let ghost mut copy = data;
        let mut permit = permit;
        let spill = self.evictor.is_some();
        if let Some(evictor) = &mut self.evictor {
            let ghost e = evictor@;
            let ghost s = state@;
            let (disposition, back) = evictor.on_pushed_stripe(
                state,
                stripe_id,
                data.as_slice(),
                permit,
                now,
            );
            proof {
                copy = choose|copy: Vec<u8>|
                    copy@ == data@ && evictor@ == #[trigger] e.after_pushed_stripe(
                        s,
                        stripe_id,
                        copy,
                        slot,
                        now,
                    );
            }
            match back {
                Some(back) => {
                    permit = back;
                },
                None => {
                    return (Ghost(copy), Ghost(Ok(())));
                },
            }
        }
        if spill && state.stripe_fetched_if_needed(stripe_id) {
            self.dropped_permits.push(permit);
            assert(coord_of(self@, state@) =~= before.pushed(
                stripe_id,
                data,
                slot,
                copy,
                true,
                now,
            ));
            return (Ghost(copy), Ghost(Ok(())));
        }
        let submitted = self.route_push(state, stripe_id, data, permit, target, now);
        (Ghost(copy), submitted)
    }

    /// Hand the flusher the tokened {set FETCHED, clear EVICTED} op that lands
    /// a stripe once durable, and remember it under the token.
    fn issue_release(
        &mut self,
        stripe_id: usize,
        retries: u8,
        from_evicted: bool,
        Ghost(s): Ghost<StateModel>,
    )
        requires
            coord_of(old(self)@, s).wf(),
            s.valid(stripe_id as int),
            retries <= MAX_RELEASE_RETRIES,
        ensures
            coord_of(final(self)@, s) == coord_of(old(self)@, s).release_issued(
                stripe_id,
                retries,
                from_evicted,
            ),
            coord_of(final(self)@, s).wf(),
    {
        let token: u64 = self.next_release_token;
        self.next_release_token = bump_by(self.next_release_token, 2);
        self.pending_release.insert(token, PendingRelease { stripe_id, retries, from_evicted });
        assert((0x01u8 | 0x08u8) & !0x3bu8 == 0) by (bit_vector);
        self.metadata_flusher.update_stripe_header(
            stripe_id,
            metadata_flags::FETCHED,
            metadata_flags::EVICTED,
            token,
        );
        assert(self@ =~= coord_of(old(self)@, s).release_issued(
            stripe_id,
            retries,
            from_evicted,
        ).m);
    }

    /// The ingest finished with a stripe. Without spill it lands at once and
    /// the FETCHED header follows whenever the flusher gets to it: a header
    /// that says a stripe is missing only costs fetching it again.
    ///
    /// With spill every landing waits for its header. An evicted stripe may
    /// not be seen as resident before the header clearing EVICTED is on disk,
    /// because the startup pass punches every stripe whose header says so. A
    /// never-evicted stripe waits for FETCHED because a guest write to a
    /// stripe that is resident in memory is acknowledged, and a crash before
    /// FETCHED reaches the disk would fetch the base image over it. A landing
    /// reported while the evictor owns the stripe leaves its header alone.
    pub fn stripe_landed(
        &mut self,
        state: &mut SharedMetadataState,
        stripe_id: usize,
        success: bool,
    )
        requires
            coord_of(old(self)@, old(state)@).wf(),
            old(state)@.valid(stripe_id as int),
        ensures
            coord_of(final(self)@, final(state)@) == coord_of(old(self)@, old(state)@).landed(
                stripe_id,
                success,
            ),
            coord_of(final(self)@, final(state)@).wf(),
            final(state)@.fetch.len() == old(state)@.fetch.len(),
    {
        let ghost before = coord_of(self@, state@);
        self.landing.remove(&stripe_id);
        assert(self@ =~= before.not_landing(stripe_id).m);
        if !success {
            return;
        }
        if state.stripe_fetch_state(stripe_id) == Evicting {
            state.spill.degraded_reasons = bump(state.spill.degraded_reasons);
            assert(state@ =~= before.s.with_anomaly());
            return;
        }
        let from_evicted = state.stripe_fetch_state(stripe_id) == Evicted || state.stripe_flags(
            stripe_id,
        ) & stripe_flags::WAS_EVICTED != 0;
        if !from_evicted && self.evictor.is_none() {
            self.land_at_once(state, stripe_id);
            return;
        }
        if self.release_pending(stripe_id) {
            return;
        }
        self.issue_release(stripe_id, 0, from_evicted, Ghost(state@));
    }

    /// Land a stripe without waiting for its header.
    fn land_at_once(&mut self, state: &mut SharedMetadataState, stripe_id: usize)
        requires
            coord_of(old(self)@, old(state)@).wf(),
            old(state)@.valid(stripe_id as int),
        ensures
            coord_of(final(self)@, final(state)@) == coord_of(
                old(self)@,
                old(state)@,
            ).landed_at_once(stripe_id),
            coord_of(final(self)@, final(state)@).wf(),
            final(state)@.fetch.len() == old(state)@.fetch.len(),
    {
        state.mark_stripe_fetched(stripe_id);
        self.metadata_flusher.set_stripe_fetched(stripe_id);
        assert(self@ =~= coord_of(old(self)@, old(state)@).landed_at_once(stripe_id).m);
    }

    /// The flusher finished a release op. Durable lands the stripe; anything
    /// else is retried a few times with a fresh token and then given up on: an
    /// evicted stripe is left Evicted for the guest's next fetch to write
    /// again, another is released the way a stripe lands without spill.
    pub fn apply_release_outcome(
        &mut self,
        state: &mut SharedMetadataState,
        outcome: &PersistOutcome,
    )
        requires
            coord_of(old(self)@, old(state)@).wf(),
        ensures
            coord_of(final(self)@, final(state)@) == coord_of(
                old(self)@,
                old(state)@,
            ).release_over(*outcome),
            coord_of(final(self)@, final(state)@).wf(),
            final(state)@.fetch.len() == old(state)@.fetch.len(),
    {
        let ghost before = coord_of(self@, state@);
        let pending = match self.pending_release.remove(&outcome.token) {
            Some(pending) => pending,
            None => {
                assert(self@ =~= before.m);
                return ;
            },
        };
        let ghost taken = Coord {
            m: CoordModel { pending: before.m.pending.remove(outcome.token), ..before.m },
            ..before
        };
        assert(self@ =~= taken.m);
        let stripe_id: usize = pending.stripe_id;
        let durable = outcome.result == PersistResult::Durable;
        if !durable && pending.retries < MAX_RELEASE_RETRIES {
            self.issue_release(
                stripe_id,
                pending.retries + 1,
                pending.from_evicted,
                Ghost(state@),
            );
            return;
        }
        self.landing.remove(&stripe_id);
        assert(self@ =~= taken.not_landing(stripe_id).m);
        if durable {
            if pending.from_evicted {
                state.mark_stripe_resident(stripe_id);
            } else {
                state.mark_stripe_fetched(stripe_id);
            }
        } else {
            state.spill.degraded_reasons = bump(state.spill.degraded_reasons);
            assert(state@ =~= before.s.with_anomaly());
            if !pending.from_evicted {
                self.land_at_once(state, stripe_id);
            }
        }
    }

    /// Handle one request.
    pub fn process_request<C: IoChannel<Vec<u8>>>(
        &mut self,
        state: &mut SharedMetadataState,
        req: BgWorkerRequest,
        target: &mut C,
        now: u64,
    )
        requires
            coord_of(old(self)@, old(state)@).wf(),
            request_stripe(req) matches Some(id) ==> old(state)@.valid(id as int),
        ensures
            exists|copy: Vec<u8>, submitted: Answer|
                #![trigger coord_of(old(self)@, old(state)@).answered(req, copy, submitted, now)]
                {
                    let c = coord_of(old(self)@, old(state)@);
                    &&& req matches BgWorkerRequest::PushedStripe {
                        stripe_id,
                        data,
                        permit,
                    } ==> copy@ == data@
                    &&& coord_of(final(self)@, final(state)@) == c.answered(
                        req,
                        copy,
                        submitted,
                        now,
                    )
                    &&& calls_bytes(final(target).calls()) == calls_bytes(old(target).calls())
                        + c.processed_calls(req, submitted)
                },
            coord_of(final(self)@, final(state)@).wf(),
            final(state)@.fetch.len() == old(state)@.fetch.len(),
    {
        let ghost before = coord_of(self@, state@);
        let ghost given = calls_bytes(target.calls());
        assert(given + Seq::<IoCall<Seq<u8>>>::empty() =~= given);
        let ghost whole = req;
        let ghost fine: Answer = Ok(());
        let ghost none = arbitrary::<Vec<u8>>();
        match req {
            BgWorkerRequest::Fetch { stripe_id } => {
                self.fetch_requested(state, stripe_id, now);
                assert(coord_of(self@, state@) == before.answered(whole, none, fine, now));
            },
            BgWorkerRequest::PushedStripe { stripe_id, data, permit } => {
                let (copy, submitted) = self.pushed(state, stripe_id, data, permit, target, now);
                assert(coord_of(self@, state@) == before.answered(
                    whole,
                    copy@,
                    submitted@,
                    now,
                ));
            },
            BgWorkerRequest::SetWritten { stripe_id } => {
                self.metadata_flusher.set_stripe_written(stripe_id);
                assert(coord_of(self@, state@) =~= before.answered(whole, none, fine, now));
            },
            BgWorkerRequest::FetchCompleted { stripe_id, success } => {
                self.stripe_landed(state, stripe_id, success);
                assert(coord_of(self@, state@) == before.answered(whole, none, fine, now));
            },
            BgWorkerRequest::Shutdown => {
                self.done = true;
                assert(coord_of(self@, state@) =~= before.answered(whole, none, fine, now));
            },
        }
    }

    /// The coordinator's own fetcher ticks, and what it finished lands.
    fn update_ingest<S: StripeSource, C: IoChannel<Vec<u8>>>(
        &mut self,
        state: &mut SharedMetadataState,
        source: &mut S,
        target: &mut C,
        now: u64,
    ) -> (inputs: Ghost<FetchInputs>)
        requires
            coord_of(old(self)@, old(state)@).wf(),
        ensures
            coord_of(final(self)@, final(state)@) == coord_of(old(self)@, old(state)@).ingested(
                inputs@,
                now,
            ),
            final(source).calls() == old(source).calls() + coord_of(
                old(self)@,
                old(state)@,
            ).ingest_source_calls(inputs@, now),
            calls_bytes(final(target).calls()) == calls_bytes(old(target).calls()) + coord_of(
                old(self)@,
                old(state)@,
            ).ingest_target_calls(inputs@, now),
            coord_of(old(self)@, old(state)@).ingest_asks_all(inputs@, now),
            coord_of(final(self)@, final(state)@).wf(),
            final(state)@.fetch.len() == old(state)@.fetch.len(),
    {
        proof {
            reveal(Coord::ingested);
            reveal(Coord::ingest_source_calls);
            reveal(Coord::ingest_target_calls);
            reveal(Coord::ingest_asks_all);
        }
        let ghost before = coord_of(self@, state@);
        let ghost asked = source.calls();
        let ghost given = calls_bytes(target.calls());
        let ghost mut inputs = arbitrary::<FetchInputs>();
        let finished = match &mut self.ingest {
            Ingest::Inline(fetcher) => {
                let ghost t = fetch_tick(fetcher@, state@);
                fetcher.update(state, source, target, now);
                proof {
                    inputs = choose|inputs: FetchInputs|
                        fetch_tick(fetcher@, state@) == #[trigger] t.ticked(inputs, now)
                            && t.asks_all(inputs, now) && source.calls() == asked + t.source_calls(inputs, now)
                            && calls_bytes(target.calls()) == given + t.target_calls(inputs, now);
                }
                fetcher.take_finished_fetches()
            },
            Ingest::Pool(_) => {
                assert(asked =~= asked + before.ingest_source_calls(inputs, now));
                assert(given =~= given + before.ingest_target_calls(inputs, now));
                return Ghost(inputs);
            },
        };
        let ghost start = coord_of(self@, state@);
        assert(start =~= (match before.m.ingest {
            IngestModel::Inline(fetcher) => {
                let t = fetch_tick(fetcher, before.s).ticked(inputs, now);
                Coord {
                    m: CoordModel {
                        ingest: IngestModel::Inline(
                            FetcherModel { finished: Seq::empty(), ..t.m },
                        ),
                        ..before.m
                    },
                    s: t.s,
                }
            },
            IngestModel::Pool(starts, running, outbox) => before,
        }));
        let mut i: usize = 0;
        while i < finished.len()
            invariant
                i <= finished@.len(),
                coord_of(self@, state@) == start.all_landed(finished@, i as nat),
                coord_of(self@, state@).wf(),
                state@.fetch.len() == old(state)@.fetch.len(),
                forall|k: int|
                    0 <= k < finished@.len() ==> (#[trigger] finished@[k]).0
                        < state@.fetch.len(),
            decreases finished@.len() - i,
        {
            let (stripe_id, success) = finished[i];
            self.stripe_landed(state, stripe_id, success);
            i = i + 1;
        }
        Ghost(inputs)
    }

    /// The flusher ticks.
    fn update_flusher<M: IoChannel<Vec<u8>>>(
        &mut self,
        state: &mut SharedMetadataState,
        metadata_channel: &mut M,
    ) -> (r: (Ghost<Answer>, Ghost<Seq<(usize, bool)>>, Ghost<Answer>))
        requires
            coord_of(old(self)@, old(state)@).wf(),
        ensures
            coord_of(final(self)@, final(state)@) == coord_of(old(self)@, old(state)@).flushed(
                r.0@ is Ok,
                r.1@,
                r.2@ is Ok,
            ),
            calls_bytes(final(metadata_channel).calls()) == calls_bytes(
                old(metadata_channel).calls(),
            ) + update_calls(old(self)@.f, r.0@, r.1@, r.2@),
            coord_of(final(self)@, final(state)@).wf(),
            final(state)@.fetch.len() == old(state)@.fetch.len(),
    {
        let ghost f = self.metadata_flusher@;
        let ghost s = state@;
        let ghost asked = calls_bytes(metadata_channel.calls());
        self.metadata_flusher.update(metadata_channel, state);
        let ghost x = choose|
            started: Answer,
            completions: Seq<(usize, bool)>,
            flushed: Answer,
        |
            {
                let m = start_outcome(f, started is Ok);
                &&& calls_bytes(metadata_channel.calls()) == asked + #[trigger] update_calls(
                    f,
                    started,
                    completions,
                    flushed,
                )
                &&& self.metadata_flusher@ == poll_outcome(m, completions, flushed is Ok)
                &&& state@ == state_after_finished(s, polled(m, completions).finished)
            };
        assert(coord_of(self@, state@) =~= coord_of(old(self)@, old(state)@).flushed(
            x.0 is Ok,
            x.1,
            x.2 is Ok,
        )) by {
            reveal(Coord::flushed);
        }
        assert(self@.pending == old(self)@.pending);
        (Ghost(x.0), Ghost(x.1), Ghost(x.2))
    }

    /// Hand out the coordinator's outcomes.
    fn hand_out_releases(
        &mut self,
        state: &mut SharedMetadataState,
        outcomes: &Vec<PersistOutcome>,
    )
        requires
            coord_of(old(self)@, old(state)@).wf(),
        ensures
            coord_of(final(self)@, final(state)@) == coord_of(
                old(self)@,
                old(state)@,
            ).releases_over(outcomes@, outcomes@.len()),
            coord_of(final(self)@, final(state)@).wf(),
            final(state)@.fetch.len() == old(state)@.fetch.len(),
    {
        let ghost start = coord_of(self@, state@);
        let mut i: usize = 0;
        while i < outcomes.len()
            invariant
                i <= outcomes@.len(),
                coord_of(self@, state@) == start.releases_over(outcomes@, i as nat),
                coord_of(self@, state@).wf(),
                state@.fetch.len() == old(state)@.fetch.len(),
            decreases outcomes@.len() - i,
        {
            if !Evictor::owns_token(outcomes[i].token) {
                self.apply_release_outcome(state, &outcomes[i]);
            }
            i = i + 1;
        }
    }

    /// The evictor ticks, if there is one.
    fn tick_evictor<E: IoChannel<Vec<u8>>, A: ArchiveStore, P: HolePuncher, K: Clock>(
        &mut self,
        state: &mut SharedMetadataState,
        outcomes: &Vec<PersistOutcome>,
        read_channel: &mut E,
        store: &mut A,
        puncher: &mut P,
        clock: &mut K,
    ) -> (r: (Ghost<TickInputs>, Ghost<u64>))
        requires
            coord_of(old(self)@, old(state)@).wf(),
        ensures
            ({
                let c = coord_of(old(self)@, old(state)@);
                match c.m.e {
                    None => {
                        &&& coord_of(final(self)@, final(state)@) == c
                        &&& *final(read_channel) == *old(read_channel)
                        &&& *final(store) == *old(store)
                        &&& *final(puncher) == *old(puncher)
                        &&& *final(clock) == *old(clock)
                    },
                    Some(e) => {
                        let t = tick_of(e, c.s, c.m.f);
                        let u = t.ticked(outcomes@, r.0@, r.1@);
                        &&& coord_of(final(self)@, final(state)@) == (Coord {
                            m: CoordModel { e: Some(u.m), f: u.f, ..c.m },
                            s: u.s,
                        })
                        &&& t.encoded(outcomes@, r.0@, r.1@)
                        &&& calls_bytes(final(read_channel).calls()) == calls_bytes(
                            old(read_channel).calls(),
                        ) + t.read_calls(outcomes@, r.0@, r.1@)
                        &&& final(store).calls() == old(store).calls() + t.store_calls(
                            outcomes@,
                            r.0@,
                            r.1@,
                        )
                        &&& final(puncher).calls() == old(puncher).calls() + t.punch_calls(
                            outcomes@,
                            r.0@,
                            r.1@,
                        )
                        &&& final(clock).readings() == old(clock).readings() + t.clock_readings(
                            outcomes@,
                            r.0@,
                            r.1@,
                        )
                    },
                }
            }),
            coord_of(final(self)@, final(state)@).wf(),
            final(state)@.fetch.len() == old(state)@.fetch.len(),
    {
        let ghost mut inputs = arbitrary::<TickInputs>();
        let ghost mut at = 0u64;
        let ghost reading = calls_bytes(read_channel.calls());
        let ghost storing = store.calls();
        let ghost punching = puncher.calls();
        let ghost time = clock.readings();
        if let Some(evictor) = &mut self.evictor {
            let ghost t = tick_of(evictor@, state@, self.metadata_flusher@);
            evictor.update(
                state,
                &mut self.metadata_flusher,
                outcomes,
                read_channel,
                store,
                puncher,
                clock,
            );
            proof {
                let x = choose|inputs: TickInputs, now: u64|
                    {
                        &&& tick_of(evictor@, state@, self.metadata_flusher@)
                            == #[trigger] t.ticked(outcomes@, inputs, now)
                        &&& t.encoded(outcomes@, inputs, now)
                        &&& calls_bytes(read_channel.calls()) == reading + t.read_calls(
                            outcomes@,
                            inputs,
                            now,
                        )
                        &&& store.calls() == storing + t.store_calls(outcomes@, inputs, now)
                        &&& puncher.calls() == punching + t.punch_calls(outcomes@, inputs, now)
                        &&& clock.readings() == time + t.clock_readings(outcomes@, inputs, now)
                    };
                inputs = x.0;
                at = x.1;
            }
        }
        (Ghost(inputs), Ghost(at))
    }

    /// Hand out the flusher's outcomes: to the coordinator's releases first,
    /// then to the evictor, which ticks.
    fn update_evictor<E: IoChannel<Vec<u8>>, A: ArchiveStore, P: HolePuncher, K: Clock>(
        &mut self,
        state: &mut SharedMetadataState,
        read_channel: &mut E,
        store: &mut A,
        puncher: &mut P,
        clock: &mut K,
    ) -> (r: (Ghost<TickInputs>, Ghost<u64>))
        requires
            coord_of(old(self)@, old(state)@).wf(),
        ensures
            ({
                let c = coord_of(old(self)@, old(state)@);
                &&& coord_of(final(self)@, final(state)@) == c.outcomes_handled(r.0@, r.1@)
                &&& c.tick_encoded(r.0@, r.1@)
                &&& calls_bytes(final(read_channel).calls()) == calls_bytes(
                    old(read_channel).calls(),
                ) + c.tick_read_calls(r.0@, r.1@)
                &&& final(store).calls() == old(store).calls() + c.tick_store_calls(r.0@, r.1@)
                &&& final(puncher).calls() == old(puncher).calls() + c.tick_punch_calls(
                    r.0@,
                    r.1@,
                )
                &&& final(clock).readings() == old(clock).readings() + c.tick_readings(
                    r.0@,
                    r.1@,
                )
            }),
            coord_of(final(self)@, final(state)@).wf(),
            final(state)@.fetch.len() == old(state)@.fetch.len(),
    {
        let ghost before = coord_of(self@, state@);
        let ghost reading = calls_bytes(read_channel.calls());
        let ghost storing = store.calls();
        let ghost punching = puncher.calls();
        let outcomes = self.metadata_flusher.take_persist_outcomes();
        assert(coord_of(self@, state@) =~= Coord {
            m: CoordModel {
                f: FlusherModel { outcomes: Seq::empty(), ..before.m.f },
                ..before.m
            },
            ..before
        });
        self.hand_out_releases(state, &outcomes);
        assert(coord_of(self@, state@) == before.own_outcomes_handled());
        let (inputs, at) = self.tick_evictor(
            state,
            &outcomes,
            read_channel,
            store,
            puncher,
            clock,
        );
        proof {
            reveal(Coord::outcomes_handled);
            reveal(Coord::tick_read_calls);
            reveal(Coord::tick_store_calls);
            reveal(Coord::tick_punch_calls);
            reveal(Coord::tick_encoded);
            reveal(Coord::tick_readings);
            if before.tick() is None {
                assert(clock.readings() =~= clock.readings() + before.tick_readings(inputs@, at@));
                assert(reading =~= reading + before.tick_read_calls(inputs@, at@));
                assert(storing =~= storing + before.tick_store_calls(inputs@, at@));
                assert(punching =~= punching + before.tick_punch_calls(inputs@, at@));
            }
        }
        (inputs, at)
    }

    /// Route what the evictor released. A fetch held for space may have been
    /// overtaken by a push that has since landed.
    fn route_released<C: IoChannel<Vec<u8>>>(
        &mut self,
        state: &mut SharedMetadataState,
        target: &mut C,
        now: u64,
    ) -> (submits: Ghost<Seq<Answer>>)
        requires
            coord_of(old(self)@, old(state)@).wf(),
        ensures
            coord_of(final(self)@, final(state)@) == coord_of(
                old(self)@,
                old(state)@,
            ).released_routed(submits@, now),
            calls_bytes(final(target).calls()) == calls_bytes(old(target).calls()) + coord_of(
                old(self)@,
                old(state)@,
            ).released_calls(submits@, now),
            coord_of(final(self)@, final(state)@).wf(),
            final(state)@.fetch.len() == old(state)@.fetch.len(),
    {
        proof {
            reveal(Coord::released_routed);
            reveal(Coord::released_calls);
        }
        let ghost before = coord_of(self@, state@);
        let ghost given = calls_bytes(target.calls());
        let (fetches, pushes) = match &mut self.evictor {
            Some(evictor) => evictor.take_released(),
            None => {
                assert(given =~= given + before.released_calls(Seq::empty(), now));
                return Ghost(Seq::empty());
            },
        };
        let ghost start = coord_of(self@, state@);
        assert(start =~= Coord {
            m: CoordModel {
                e: Some(
                    EvictorModel {
                        released_fetches: Seq::empty(),
                        released_pushes: Seq::empty(),
                        ..before.m.e->0
                    },
                ),
                ..before.m
            },
            ..before
        });
        let mut i: usize = 0;
        while i < fetches.len()
            invariant
                i <= fetches@.len(),
                coord_of(self@, state@) == start.fetches_routed(fetches@, i as nat),
                coord_of(self@, state@).wf(),
                state@.fetch.len() == old(state)@.fetch.len(),
                forall|k: int|
                    0 <= k < fetches@.len() ==> (#[trigger] fetches@[k]) < state@.fetch.len(),
            decreases fetches@.len() - i,
        {
            let stripe_id: usize = fetches[i];
            if !self.stripe_local_or_landing(stripe_id) {
                self.route_fetch(state, stripe_id);
            }
            i = i + 1;
        }
        let ghost middle = coord_of(self@, state@);
        let ghost all = pushes@;
        let total: usize = pushes.len();
        let ghost mut submits: Seq<Answer> = Seq::empty();
        let mut pushes = pushes;
        let mut k: usize = 0;
        assert(given =~= given + middle.all_routed_calls(all, submits, now, 0));
        while pushes.len() > 0
            invariant
                k <= all.len(),
                all.len() == total,
                pushes@ == all.skip(k as int),
                submits.len() == k,
                coord_of(self@, state@) == middle.pushes_routed(all, submits, now, k as nat),
                calls_bytes(target.calls()) == given + middle.all_routed_calls(
                    all,
                    submits,
                    now,
                    k as nat,
                ),
                coord_of(self@, state@).wf(),
                state@.fetch.len() == old(state)@.fetch.len(),
                forall|j: int|
                    0 <= j < all.len() ==> (#[trigger] all[j]).stripe_id < state@.fetch.len(),
            decreases pushes@.len(),
        {
            let push = pushes.remove(0);
            assert(push == all[k as int]);
            assert(pushes@ =~= all.skip(k + 1));
            let submitted = self.route_push(
                state,
                push.stripe_id,
                push.data,
                push.permit,
                target,
                now,
            );
            proof {
                lemma_routed_same(
                    middle,
                    all,
                    submits,
                    submits.push(submitted@),
                    now,
                    k as nat,
                );
                submits = submits.push(submitted@);
                assert(calls_bytes(target.calls()) =~= given + middle.all_routed_calls(
                    all,
                    submits,
                    now,
                    (k + 1) as nat,
                ));
            }
            k = k + 1;
        }
        Ghost(submits)
    }

    /// One tick: take stripes in, flush headers, hand out outcomes, drive the
    /// evictor, and route what it released. Says whether the source is no
    /// longer needed, once and for all.
    pub fn update<
        S: StripeSource,
        C: IoChannel<Vec<u8>>,
        M: IoChannel<Vec<u8>>,
        E: IoChannel<Vec<u8>>,
        A: ArchiveStore,
        P: HolePuncher,
        K: Clock,
    >(
        &mut self,
        state: &mut SharedMetadataState,
        source: &mut S,
        target: &mut C,
        metadata_channel: &mut M,
        read_channel: &mut E,
        store: &mut A,
        puncher: &mut P,
        clock: &mut K,
    ) -> (disconnect: bool)
        requires
            coord_of(old(self)@, old(state)@).wf(),
        ensures
            exists|x: UpdateInputs, now: u64|
                #![trigger coord_of(old(self)@, old(state)@).updated(x, now)]
                {
                    let c = coord_of(old(self)@, old(state)@);
                    let f = c.after_flush(x, now);
                    &&& coord_of(final(self)@, final(state)@) == c.updated(x, now)
                    &&& f.tick_encoded(x.tick, x.tick_now)
                    &&& c.ingest_asks_all(x.fetch, now)
                    &&& final(source).calls() == old(source).calls() + c.ingest_source_calls(
                        x.fetch,
                        now,
                    )
                    &&& calls_bytes(final(target).calls()) == calls_bytes(old(target).calls())
                        + c.target_calls(x, now)
                    &&& calls_bytes(final(metadata_channel).calls()) == calls_bytes(
                        old(metadata_channel).calls(),
                    ) + c.metadata_calls(x, now)
                    &&& calls_bytes(final(read_channel).calls()) == calls_bytes(
                        old(read_channel).calls(),
                    ) + f.tick_read_calls(x.tick, x.tick_now)
                    &&& final(store).calls() == old(store).calls() + f.tick_store_calls(
                        x.tick,
                        x.tick_now,
                    )
                    &&& final(puncher).calls() == old(puncher).calls() + f.tick_punch_calls(
                        x.tick,
                        x.tick_now,
                    )
                    &&& final(clock).readings() == old(clock).readings().push(now)
                        + f.tick_readings(x.tick, x.tick_now)
                    &&& disconnect == c.before_check(x, now).lets_go(
                        x.source_busy,
                        x.target_busy,
                    )
                },
            coord_of(final(self)@, final(state)@).wf(),
            final(state)@.fetch.len() == old(state)@.fetch.len(),
    {
        let now = clock.now_ns();
        let ghost before = coord_of(self@, state@);
        let ghost given = calls_bytes(target.calls());
        let fetch = self.update_ingest(state, source, target, now);
        let (started, completions, flushed) = self.update_flusher(state, metadata_channel);
        let (tick, tick_now) = self.update_evictor(state, read_channel, store, puncher, clock);
        let submits = self.route_released(state, target, now);
        let source_busy = source.busy();
        let target_busy = target.busy();
        let disconnect = self.check_source(state, source_busy, target_busy);
        let ghost x = UpdateInputs {
            fetch: fetch@,
            started: started@,
            completions: completions@,
            flushed: flushed@,
            tick: tick@,
            tick_now: tick_now@,
            submits: submits@,
            source_busy,
            target_busy,
        };
        assert(coord_of(self@, state@) == before.updated(x, now));
        assert(calls_bytes(target.calls()) =~= given + before.target_calls(x, now));
        disconnect
    }

    /// Let go of the source, if it is no longer needed.
    fn check_source(
        &mut self,
        state: &SharedMetadataState,
        source_busy: bool,
        target_busy: bool,
    ) -> (disconnect: bool)
        requires
            coord_of(old(self)@, state@).wf(),
        ensures
            coord_of(final(self)@, state@) == coord_of(old(self)@, state@).source_checked(
                source_busy,
                target_busy,
            ),
            coord_of(final(self)@, state@).wf(),
            disconnect == coord_of(old(self)@, state@).lets_go(source_busy, target_busy),
    {
        proof {
            reveal(Coord::source_checked);
        }
        let disconnect = match &mut self.ingest {
            Ingest::Inline(fetcher) => fetcher.disconnect_from_source_if_all_fetched(
                state,
                source_busy,
                target_busy,
            ),
            Ingest::Pool(_) => false,
        };
        assert(self@ =~= coord_of(old(self)@, state@).source_checked(
            source_busy,
            target_busy,
        ).m);
        disconnect
    }

    /// Whether anything is going on; `source_busy` and `target_busy` are what
    /// the source and the target's channel say of themselves.
    pub fn busy(
        &self,
        state: &SharedMetadataState,
        source_busy: bool,
        target_busy: bool,
        now: u64,
    ) -> (r: bool)
        ensures
            r == coord_of(self@, state@).is_busy(source_busy, target_busy, now),
    {
        let ingesting = match &self.ingest {
            Ingest::Inline(fetcher) => fetcher.busy(source_busy, target_busy),
            Ingest::Pool(_) => false,
        };
        let evicting = match &self.evictor {
            Some(evictor) => evictor.busy(state, now),
            None => false,
        };
        ingesting || self.metadata_flusher.busy() || evicting
    }

    /// How long to wait for a request, in nanoseconds; for good without an
    /// evictor and with nothing going on.
    pub fn request_wait(&self, busy: bool) -> (r: Option<u64>)
        ensures
            forall|s: StateModel| r == #[trigger] coord_of(self@, s).wait(busy),
    {
        if busy {
            Some(0)
        } else if self.evictor.is_some() {
            Some(EVICTOR_IDLE_WAIT)
        } else {
            None
        }
    }

    /// Slots to be given back since the last call.
    pub fn take_dropped_permits(&mut self) -> (r: Vec<PushPermit>)
        ensures
            r@ == old(self)@.dropped_slots(),
            final(self)@ == old(self)@.without_dropped(),
    {
        let mut permits: Vec<PushPermit> = Vec::new();
        std::mem::swap(&mut permits, &mut self.dropped_permits);
        if let Some(evictor) = &mut self.evictor {
            let mut more = evictor.take_dropped_permits();
            permits.append(&mut more);
        }
        if let Ingest::Inline(fetcher) = &mut self.ingest {
            let mut more = fetcher.take_dropped_permits();
            permits.append(&mut more);
        }
        assert(permits@ =~= old(self)@.dropped_slots());
        assert(self@ =~= old(self)@.without_dropped());
        permits
    }
}

/// The first pushes do not depend on later answers.
proof fn lemma_routed_same(
    t: Coord,
    pushes: Seq<ReleasedPush>,
    a: Seq<Answer>,
    b: Seq<Answer>,
    now: u64,
    count: nat,
)
    requires
        count <= a.len(),
        a.is_prefix_of(b),
    ensures
        t.pushes_routed(pushes, a, now, count) == t.pushes_routed(pushes, b, now, count),
        t.all_routed_calls(pushes, a, now, count) == t.all_routed_calls(pushes, b, now, count),
    decreases count,
{
    if count > 0 {
        lemma_routed_same(t, pushes, a, b, now, (count - 1) as nat);
        assert(a[count - 1] == b[count - 1]);
    }
}

/// Some worker owns every stripe, and it is the one that `owner_of` names.
proof fn lemma_owner(starts: Seq<usize>, id: usize)
    ensures
        forall|worker: int| #[trigger] owns(starts, id, worker) ==> worker == owner_of(starts, id),
{
    assert forall|worker: int| #[trigger] owns(starts, id, worker) implies worker == owner_of(
        starts,
        id,
    ) by {
        law_a_stripe_has_one_owner(starts, id, worker, owner_of(starts, id));
    }
}

} // verus!
