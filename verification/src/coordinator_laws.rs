//! What the coordinator does with each request and each report.

use vstd::prelude::*;
use crate::bgworker_model::{
    BgWorkerRequest, Coord, CoordModel, IngestModel, PendingRelease, UpdateInputs,
};
use crate::fetch_laws::{law_a_requested_stripe_is_queued, writes_stripe};
use crate::ingest_pool::{owns, IngestRequest};
use crate::io::{Answer, IoCall};
use crate::metadata::shared_state::{
    Evicted, Evicting, Failed, Fetched, GATE_FAIL, GATE_HOLD, NoSource, NotFetched, StateModel,
};
use crate::metadata_flusher::{MetadataFlusherRequest, PersistOutcome, PersistResult};
use crate::push_gate::PushPermit;
use crate::spill::evictor_model::{lemma_find, lemma_tracks};
use crate::stripe_fetcher::{fetch_tick, FetchInputs, FetchState, FetcherModel};

verus! {

/// The stripe neither waits for its header nor is on its way in.
pub open spec fn free_to_fetch(c: Coord, id: usize) -> bool {
    &&& forall|token: u64| #[trigger]
        c.m.pending.dom().contains(token) ==> c.m.pending[token].stripe_id != id
    &&& !c.m.landing.contains(id)
}

/// The stripe left the device, by its state or by its header.
pub open spec fn left(s: StateModel, id: usize) -> bool {
    s.fetch[id as int] == Evicted || s.flags[id as int] & 0x08 != 0
}

/// A fetch that goes to the ingest is queued by the coordinator's own fetcher,
/// or handed to the worker whose range holds the stripe, as long as there are
/// workers; a stripe that left the device is remembered until it is back.
pub proof fn law_where_a_fetch_goes(c: Coord, id: usize, worker: usize)
    requires
        c.m.ingest matches IngestModel::Pool(starts, running, outbox) ==> owns(
            starts,
            id,
            worker as int,
        ),
    ensures
        ({
            let after = c.routed_fetch(id);
            let state = c.s.fetch[id as int];
            &&& after.s == c.s
            &&& after.m.landing == if left(c.s, id) {
                c.m.landing.insert(id)
            } else {
                c.m.landing
            }
            &&& after.m.f == c.m.f && after.m.pending == c.m.pending && after.m.e == c.m.e
            &&& match c.m.ingest {
                IngestModel::Inline(fetcher) => state != Fetched && state != NoSource
                    && !fetcher.states.contains_key(id) ==> after.m.ingest == IngestModel::Inline(
                    FetcherModel {
                        queue: fetcher.queue.push(id),
                        states: fetcher.states.insert(id, FetchState::Queued),
                        ..fetcher
                    },
                ),
                IngestModel::Pool(starts, running, outbox) => after.m.ingest == IngestModel::Pool(
                    starts,
                    running,
                    if running {
                        outbox.push((worker, IngestRequest::Fetch { stripe_id: id }))
                    } else {
                        outbox
                    },
                ),
            }
        }),
{
    match c.m.ingest {
        IngestModel::Inline(fetcher) => {
            law_a_requested_stripe_is_queued(fetcher, c.s, id);
        },
        IngestModel::Pool(starts, running, outbox) => {
            assert(owns(starts, id, worker as int));
            let chosen = crate::bgworker_model::owner_of(starts, id);
            assert(owns(starts, id, chosen));
            crate::ingest_pool::law_a_stripe_has_one_owner(starts, id, chosen, worker as int);
        },
    }
}

/// A guest's fetch goes to the ingest, unless the stripe is on its way already.
/// With spill it does not if the stripe is here, is being evicted, or is to be
/// taken in while writes are held or refused.
pub proof fn law_a_guests_fetch_is_routed(
    c: Coord,
    id: usize,
    copy: Vec<u8>,
    submitted: bool,
    now: u64,
)
    ensures
        ({
            let after = c.processed(
                BgWorkerRequest::Fetch { stripe_id: id },
                copy,
                submitted,
                now,
            );
            &&& !free_to_fetch(c, id) ==> after == c
            &&& free_to_fetch(c, id) && c.m.e is None ==> after == c.routed_fetch(id)
            &&& free_to_fetch(c, id) && c.m.e is Some && (forall|k: int|
                0 <= k < c.m.e->0.records.len() ==> (
                #[trigger] c.m.e->0.records[k]).stripe_id != id) && c.s.gate != GATE_HOLD
                && c.s.gate != GATE_FAIL ==> if c.s.fetch[id as int] == Fetched || c.s.fetch[id as int]
                == NoSource {
                after == c
            } else {
                after == c.routed_fetch(id)
            }
        }),
{
    if !free_to_fetch(c, id) && !c.m.landing.contains(id) {
        let token = choose|token: u64| #[trigger]
            c.m.pending.dom().contains(token) && c.m.pending[token].stripe_id == id;
        assert(c.m.pending.dom().contains(token));
        assert(c.m.release_pending(id));
    }
    if c.m.e is Some {
        lemma_tracks(c.m.e->0.records, id);
        lemma_find(c.m.e->0.records, id, 0);
    }
}

/// A stripe that the guest wrote has WRITTEN set in its header, and nothing else
/// happens.
pub proof fn law_a_written_stripe_is_noted_for_the_disk(
    c: Coord,
    id: usize,
    copy: Vec<u8>,
    submitted: bool,
    now: u64,
)
    ensures
        ({
            let after = c.processed(
                BgWorkerRequest::SetWritten { stripe_id: id },
                copy,
                submitted,
                now,
            );
            &&& after.s == c.s
            &&& after.m.f.queue == c.m.f.queue.push(
                MetadataFlusherRequest { stripe_id: id, set: 0x02, clear: 0, token: 0 },
            )
            &&& after.m.f.headers == c.m.f.headers && after.m.f.updates == c.m.f.updates
            &&& after.m.ingest == c.m.ingest && after.m.e == c.m.e && after.m.pending
                == c.m.pending && after.m.landing == c.m.landing && after.m.done == c.m.done
        }),
{
}

/// The coordinator is done once it is told to stop, and not before.
pub proof fn law_only_a_shutdown_ends_the_coordinator(
    c: Coord,
    req: BgWorkerRequest,
    copy: Vec<u8>,
    submitted: bool,
    now: u64,
)
    ensures
        c.processed(req, copy, submitted, now).m.done == (c.m.done || req
            == BgWorkerRequest::Shutdown),
{
}

/// A stripe that was taken in: without spill, and if it never left, it is here
/// at once and FETCHED goes to its header. Otherwise FETCHED goes to its header
/// under a token of its own, EVICTED is cleared with it, and the stripe waits
/// for that. One that is being evicted, or whose header is on its way already,
/// is left alone, and so is one that could not be taken in.
pub proof fn law_a_stripe_that_was_taken_in_lands(c: Coord, id: usize, success: bool)
    requires
        c.s.wf(),
        id < c.s.fetch.len(),
        c.m.token < u64::MAX - 2,
    ensures
        ({
            let after = c.landed(id, success);
            let state = c.s.fetch[id as int];
            let waits = exists|token: u64| #[trigger]
                c.m.pending.dom().contains(token) && c.m.pending[token].stripe_id == id;
            &&& !after.m.landing.contains(id)
            &&& !success || state == Evicting ==> after.m.f == c.m.f && after.m.pending
                == c.m.pending && after.s.fetch == c.s.fetch
            &&& success && state != Evicting && c.m.e is None && !left(c.s, id) ==> {
                &&& after.m.f.queue == c.m.f.queue.push(
                    MetadataFlusherRequest { stripe_id: id, set: 0x01, clear: 0x08, token: 0 },
                )
                &&& after.m.pending == c.m.pending
                &&& state == NotFetched || state == Failed ==> after.s.fetch == c.s.fetch.update(
                    id as int,
                    if c.s.flags[id as int] & 0x04 != 0 {
                        Fetched
                    } else {
                        NoSource
                    },
                )
            }
            &&& success && state != Evicting && (c.m.e is Some || left(c.s, id)) && !waits ==> {
                &&& after.m.f.queue == c.m.f.queue.push(
                    MetadataFlusherRequest {
                        stripe_id: id,
                        set: 0x01,
                        clear: 0x08,
                        token: c.m.token,
                    },
                )
                &&& after.m.pending == c.m.pending.insert(
                    c.m.token,
                    PendingRelease { stripe_id: id, retries: 0, from_evicted: left(c.s, id) },
                )
                &&& after.m.token == c.m.token + 2
                &&& after.s == c.s
            }
            &&& success && state != Evicting && (c.m.e is Some || left(c.s, id)) && waits
                ==> after.m.f == c.m.f && after.m.pending == c.m.pending && after.s == c.s
        }),
{
}

/// A stripe whose header became durable is here: one that left the device comes
/// back, and any other comes in. One whose header did not is tried three times
/// more, each time under a new token; then one that left stays away, and any
/// other comes in all the same.
pub proof fn law_a_durable_header_lets_the_stripe_in(c: Coord, o: PersistOutcome)
    requires
        c.s.wf(),
        c.m.pending.dom().contains(o.token),
        c.m.pending[o.token].stripe_id < c.s.fetch.len(),
        c.m.token < u64::MAX - 2,
    ensures
        ({
            let p = c.m.pending[o.token];
            let id = p.stripe_id as int;
            let after = c.release_over(o);
            let rest = c.m.pending.remove(o.token);
            let durable = o.result == PersistResult::Durable;
            &&& durable ==> {
                &&& after.m.pending == rest
                &&& !after.m.landing.contains(p.stripe_id)
                &&& after.m.f == c.m.f
                &&& p.from_evicted && c.s.fetch[id] == Evicted && c.s.flags[id] & 0x08 == 0
                    ==> after.s.fetch == c.s.fetch.update(
                    id,
                    if c.s.flags[id] & 0x04 != 0 {
                        Fetched
                    } else {
                        NoSource
                    },
                )
                &&& !p.from_evicted && c.s.fetch[id] == NotFetched && c.s.flags[id] & 0x08 == 0
                    ==> after.s.fetch == c.s.fetch.update(
                    id,
                    if c.s.flags[id] & 0x04 != 0 {
                        Fetched
                    } else {
                        NoSource
                    },
                )
            }
            &&& !durable && p.retries < 3 ==> {
                &&& after.m.pending == rest.insert(
                    c.m.token,
                    PendingRelease { retries: (p.retries + 1) as u8, ..p },
                )
                &&& after.m.f.queue == c.m.f.queue.push(
                    MetadataFlusherRequest {
                        stripe_id: p.stripe_id,
                        set: 0x01,
                        clear: 0x08,
                        token: c.m.token,
                    },
                )
                &&& after.s == c.s
            }
            &&& !durable && p.retries >= 3 ==> {
                &&& after.m.pending == rest
                &&& !after.m.landing.contains(p.stripe_id)
                &&& p.from_evicted ==> after.s.fetch == c.s.fetch && after.m.f == c.m.f
                &&& !p.from_evicted && c.s.fetch[id] == NotFetched && c.s.flags[id] & 0x08 == 0
                    ==> after.s.fetch == c.s.fetch.update(
                    id,
                    if c.s.flags[id] & 0x04 != 0 {
                        Fetched
                    } else {
                        NoSource
                    },
                )
            }
        }),
{
}

/// Of the outcomes of header updates the coordinator takes those under even
/// tokens, each in turn, and leaves those under odd ones to the evictor.
pub proof fn law_the_coordinator_takes_even_tokens(
    c: Coord,
    outcomes: Seq<PersistOutcome>,
    count: nat,
)
    requires
        0 < count <= outcomes.len(),
    ensures
        ({
            let before = c.releases_over(outcomes, (count - 1) as nat);
            let o = outcomes[count - 1];
            c.releases_over(outcomes, count) == if o.token % 2 == 1 {
                before
            } else {
                before.release_over(o)
            }
        }),
        c.releases_over(outcomes, 0) == c,
{
    let token = outcomes[count - 1].token;
    assert(token & 1 == token % 2) by (bit_vector);
}

/// With spill a pushed stripe is marked as pushed in memory and in its header.
pub proof fn law_a_push_is_marked(c: Coord, id: usize)
    requires
        id < c.s.flags.len(),
    ensures
        ({
            let after = c.push_recorded(id);
            if c.m.e is Some {
                &&& after.s.flags == c.s.flags.update(id as int, c.s.flags[id as int] | 0x20)
                &&& after.m.f.queue == c.m.f.queue.push(
                    MetadataFlusherRequest { stripe_id: id, set: 0x20, clear: 0, token: 0 },
                )
                &&& after.s.fetch == c.s.fetch
            } else {
                after == c
            }
        }),
{
}

/// A push that goes to the coordinator's own fetcher, of a stripe that is
/// neither here nor on its way, is written to its place on the target, byte for
/// byte, if there is a buffer, and has failed if that write cannot be handed
/// over; one that goes to a pool is handed to the worker
/// whose range holds the stripe, with its data and its slot.
pub proof fn law_where_a_push_goes(
    c: Coord,
    id: usize,
    data: Vec<u8>,
    permit: PushPermit,
    submitted: Answer,
    now: u64,
    worker: usize,
)
    requires
        c.wf(),
        id < c.s.fetch.len(),
        c.m.ingest matches IngestModel::Pool(starts, running, outbox) ==> owns(
            starts,
            id,
            worker as int,
        ),
        c.m.ingest matches IngestModel::Inline(fetcher) ==> fetcher.stripe_sectors <= u32::MAX,
    ensures
        ({
            let after = c.routed_push(id, data, permit, submitted is Ok, now);
            let calls = c.routed_push_calls(id, data@, submitted);
            let state = c.s.fetch[id as int];
            match c.m.ingest {
                IngestModel::Inline(fetcher) => {
                    let free = state != Fetched && state != NoSource && fetcher.free > 0 && !(
                    fetcher.states.contains_key(id) && fetcher.states[id] != FetchState::Fetched);
                    &&& free ==> calls.len() == 2 && writes_stripe(fetcher, calls[0], id, data@)
                        && calls[1] == IoCall::<Seq<u8>>::Submit { result: submitted }
                    &&& !free ==> calls == Seq::<IoCall<Seq<u8>>>::empty()
                    &&& !(free && submitted is Err) ==> after.s == c.s && after.m.ingest
                        == IngestModel::Inline(fetcher.after_push(c.s, id, data@, permit))
                    &&& free && submitted is Err ==> ({
                        let failed = fetch_tick(
                            fetcher.after_push(c.s, id, data@, permit),
                            c.s,
                        ).completed(id, false, now);
                        after.s == failed.s && after.m.ingest == IngestModel::Inline(failed.m)
                    })
                },
                IngestModel::Pool(starts, running, outbox) => {
                    &&& calls == Seq::<IoCall<Seq<u8>>>::empty()
                    &&& running ==> after.m.ingest == IngestModel::Pool(
                        starts,
                        running,
                        outbox.push(
                            (worker, IngestRequest::Pushed { stripe_id: id, data, permit }),
                        ),
                    )
                    &&& !running ==> after.m.dropped == c.m.dropped.push(permit)
                        && after.m.ingest == c.m.ingest
                },
            }
        }),
{
    match c.m.ingest {
        IngestModel::Inline(fetcher) => {
            crate::fetch_laws::lemma_write_calls(
                fetcher,
                c.s.fetch.len(),
                id,
                data@,
                submitted,
            );
        },
        IngestModel::Pool(starts, running, outbox) => {
            assert(owns(starts, id, worker as int));
            let chosen = crate::bgworker_model::owner_of(starts, id);
            assert(owns(starts, id, chosen));
            crate::ingest_pool::law_a_stripe_has_one_owner(starts, id, chosen, worker as int);
        },
    }
}

/// A push of a stripe whose header is on its way is dropped, and its slot comes
/// back; without spill any other goes to the ingest; with spill it does unless
/// the stripe is here, is being evicted, or left with its data in the store.
pub proof fn law_a_push_is_routed(
    c: Coord,
    id: usize,
    data: Vec<u8>,
    permit: PushPermit,
    copy: Vec<u8>,
    submitted: bool,
    now: u64,
)
    requires
        id < c.s.flags.len(),
    ensures
        ({
            let after = c.pushed(id, data, permit, copy, submitted, now);
            let marked = c.push_recorded(id);
            let waits = exists|token: u64| #[trigger]
                c.m.pending.dom().contains(token) && c.m.pending[token].stripe_id == id;
            let state = c.s.fetch[id as int];
            let flags = c.s.flags[id as int];
            &&& waits ==> after.m.ingest == c.m.ingest && after.m.dropped == c.m.dropped.push(
                permit,
            ) && after.s.fetch == c.s.fetch
            &&& !waits && c.m.e is None ==> after == c.routed_push(
                id,
                data,
                permit,
                submitted,
                now,
            )
            &&& !waits && c.m.e is Some && (forall|k: int|
                0 <= k < c.m.e->0.records.len() ==> (#[trigger] c.m.e->0.records[k]).stripe_id
                    != id) ==> if (state == Evicted || flags & 0x08 != 0) && flags & 0x10 != 0 {
                after.m.ingest == c.m.ingest && after.s.fetch == c.s.fetch
            } else if state == Fetched || state == NoSource {
                after.m.ingest == c.m.ingest && after.m.dropped == c.m.dropped.push(permit)
            } else {
                after == marked.routed_push(id, data, permit, submitted, now)
            }
        }),
{
    let flags = c.s.flags[id as int];
    assert((flags | 0x20) & 0x08 == flags & 0x08 && (flags | 0x20) & 0x10 == flags & 0x10)
        by (bit_vector);
    if c.m.e is Some {
        lemma_tracks(c.m.e->0.records, id);
        lemma_find(c.m.e->0.records, id, 0);
    }
}

/// Stripes that the ingest reports land one by one, in order, none left out.
pub proof fn law_every_reported_stripe_lands(c: Coord, finished: Seq<(usize, bool)>, count: nat)
    requires
        0 < count <= finished.len(),
    ensures
        c.all_landed(finished, count) == c.all_landed(finished, (count - 1) as nat).landed(
            finished[count - 1].0,
            finished[count - 1].1,
        ),
        c.all_landed(finished, 0) == c,
{
}

/// A fetch that the evictor releases goes to the ingest unless its stripe is on
/// its way already.
pub proof fn law_released_fetches_are_routed(c: Coord, fetches: Seq<usize>, count: nat)
    requires
        0 < count <= fetches.len(),
    ensures
        ({
            let before = c.fetches_routed(fetches, (count - 1) as nat);
            let id = fetches[count - 1];
            c.fetches_routed(fetches, count) == if free_to_fetch(before, id) {
                before.routed_fetch(id)
            } else {
                before
            }
        }),
        c.fetches_routed(fetches, 0) == c,
{
    let before = c.fetches_routed(fetches, (count - 1) as nat);
    let id = fetches[count - 1];
    if !free_to_fetch(before, id) && !before.m.landing.contains(id) {
        let token = choose|token: u64| #[trigger]
            before.m.pending.dom().contains(token) && before.m.pending[token].stripe_id == id;
        assert(before.m.pending.dom().contains(token));
    }
}

/// The coordinator waits for a request: not at all while something is going on,
/// a quarter of a second with an evictor, and for good otherwise.
pub proof fn law_how_long_the_coordinator_waits(c: Coord, busy: bool)
    ensures
        c.wait(busy) == if busy {
            Some(0u64)
        } else if c.m.e is Some {
            Some(250_000_000u64)
        } else {
            None
        },
{
}

/// Something is going on as long as a header update waits or is under way, or
/// the coordinator's own fetcher has a stripe to pull, to report, or with the
/// source or the target.
pub proof fn law_when_the_coordinator_is_busy(
    c: Coord,
    source_busy: bool,
    target_busy: bool,
    now: u64,
)
    ensures
        c.m.f.queue.len() > 0 ==> c.is_busy(source_busy, target_busy, now),
        c.m.f.sectors.len() > 0 ==> c.is_busy(source_busy, target_busy, now),
        c.m.ingest matches IngestModel::Inline(fetcher) ==> (source_busy || target_busy
            || fetcher.queue.len() > 0 || fetcher.auto_queue.len() > 0 || fetcher.finished.len()
            > 0 ==> c.is_busy(source_busy, target_busy, now)),
        c.m.e is None && c.m.f.queue.len() == 0 && c.m.f.sectors.len() == 0 && (
        c.m.ingest matches IngestModel::Inline(fetcher) ==> !source_busy && !target_busy
            && fetcher.queue.len() == 0 && fetcher.auto_queue.len() == 0
            && fetcher.finished.len() == 0) ==> !c.is_busy(source_busy, target_busy, now),
        c.m.e matches Some(e) ==> (e.released_fetches.len() > 0 || e.released_pushes.len() > 0
            ==> c.is_busy(source_busy, target_busy, now)),
{
}

/// A tick never marks the coordinator as done: only a request does.
pub proof fn law_a_tick_never_ends_the_coordinator(c: Coord, x: UpdateInputs, now: u64)
    ensures
        c.updated(x, now).m.done == c.m.done,
{
    reveal(Coord::ingested);
    reveal(Coord::flushed);
    reveal(Coord::outcomes_handled);
    reveal(Coord::released_routed);
    reveal(Coord::source_checked);
    let a = c.ingested(x.fetch, now);
    match c.m.ingest {
        IngestModel::Inline(fetcher) => {
            let t = crate::stripe_fetcher::fetch_tick(fetcher, c.s).ticked(x.fetch, now);
            let start = Coord {
                m: CoordModel {
                    ingest: IngestModel::Inline(FetcherModel { finished: Seq::empty(), ..t.m }),
                    ..c.m
                },
                s: t.s,
            };
            lemma_all_landed_done(start, t.m.finished, t.m.finished.len());
        },
        IngestModel::Pool(starts, running, outbox) => {},
    }
    let b = a.flushed(x.started is Ok, x.completions, x.flushed is Ok);
    let emptied = Coord {
        m: CoordModel {
            f: crate::metadata_flusher::FlusherModel { outcomes: Seq::empty(), ..b.m.f },
            ..b.m
        },
        ..b
    };
    lemma_releases_done(emptied, b.m.f.outcomes, b.m.f.outcomes.len());
    let d = b.outcomes_handled(x.tick, x.tick_now);
    match d.m.e {
        None => {},
        Some(e) => {
            let taken = Coord {
                m: CoordModel {
                    e: Some(
                        crate::spill::evictor_model::EvictorModel {
                            released_fetches: Seq::empty(),
                            released_pushes: Seq::empty(),
                            ..e
                        },
                    ),
                    ..d.m
                },
                ..d
            };
            lemma_fetches_done(taken, e.released_fetches, e.released_fetches.len());
            lemma_pushes_done(
                d.released_fetches_routed(e),
                e.released_pushes,
                x.submits,
                now,
                e.released_pushes.len(),
            );
        },
    }
}

/// Landing touches no mark.
proof fn lemma_all_landed_done(c: Coord, finished: Seq<(usize, bool)>, count: nat)
    ensures
        c.all_landed(finished, count).m.done == c.m.done,
    decreases count,
{
    if count > 0 {
        lemma_all_landed_done(c, finished, (count - 1) as nat);
    }
}

/// Nor do outcomes.
proof fn lemma_releases_done(c: Coord, outcomes: Seq<PersistOutcome>, count: nat)
    ensures
        c.releases_over(outcomes, count).m.done == c.m.done,
    decreases count,
{
    if count > 0 {
        lemma_releases_done(c, outcomes, (count - 1) as nat);
    }
}

/// Nor do released fetches.
proof fn lemma_fetches_done(c: Coord, fetches: Seq<usize>, count: nat)
    ensures
        c.fetches_routed(fetches, count).m.done == c.m.done,
    decreases count,
{
    if count > 0 {
        lemma_fetches_done(c, fetches, (count - 1) as nat);
    }
}

/// Nor do released pushes.
proof fn lemma_pushes_done(
    c: Coord,
    pushes: Seq<crate::spill::evictor_model::ReleasedPush>,
    submits: Seq<Answer>,
    now: u64,
    count: nat,
)
    ensures
        c.pushes_routed(pushes, submits, now, count).m.done == c.m.done,
    decreases count,
{
    if count > 0 {
        lemma_pushes_done(c, pushes, submits, now, (count - 1) as nat);
    }
}

/// All slots that are to be given back are given back together, the
/// coordinator's own, the evictor's and those of its fetcher, and none stays.
pub proof fn law_every_slot_is_given_back_once(m: CoordModel)
    ensures
        ({
            let own = m.dropped.len();
            let evictors = match m.e {
                Some(e) => e.dropped.len(),
                None => 0nat,
            };
            let fetchers = match m.ingest {
                IngestModel::Inline(fetcher) => fetcher.dropped.len(),
                IngestModel::Pool(starts, running, outbox) => 0nat,
            };
            let slots = m.dropped_slots();
            let after = m.without_dropped();
            &&& slots.len() == own + evictors + fetchers
            &&& slots.subrange(0, own as int) == m.dropped
            &&& m.e matches Some(e) ==> slots.subrange(own as int, (own + evictors) as int)
                == e.dropped
            &&& m.ingest matches IngestModel::Inline(fetcher) ==> slots.subrange(
                (own + evictors) as int,
                slots.len() as int,
            ) == fetcher.dropped
            &&& after.dropped_slots().len() == 0
            &&& after.pending == m.pending && after.f == m.f && after.landing == m.landing
        }),
{
}

/// The source that was let go stays so, and is let go once every stripe it holds
/// is here and nothing is waiting or under way, unless it is to be kept.
pub proof fn law_the_source_stays_let_go(c: Coord, source_busy: bool, target_busy: bool)
    ensures
        ({
            let after = c.source_checked(source_busy, target_busy);
            &&& after.s == c.s && after.m.f == c.m.f && after.m.e == c.m.e
            &&& match c.m.ingest {
                IngestModel::Inline(fetcher) => {
                    let idle = fetcher.queue.len() == 0 && fetcher.auto_queue.len() == 0
                        && fetcher.finished.len() == 0 && !source_busy && !target_busy;
                    let whole = c.s.source == c.s.fetched && !fetcher.never_disconnect;
                    after.m.ingest == IngestModel::Inline(
                        FetcherModel {
                            disconnected: fetcher.disconnected || (idle && whole),
                            ..fetcher
                        },
                    )
                },
                IngestModel::Pool(starts, running, outbox) => after.m.ingest == c.m.ingest,
            }
        }),
{
    reveal(Coord::source_checked);
}

/// A tick of the coordinator: its fetcher, then the flusher, then the outcomes
/// of header updates, its own before the evictor's, then what the evictor
/// released, and last the source.
pub proof fn law_the_order_of_a_coordinators_tick(c: Coord, x: UpdateInputs, now: u64)
    ensures
        ({
            let a = c.ingested(x.fetch, now);
            let b = a.flushed(x.started is Ok, x.completions, x.flushed is Ok);
            let d = b.outcomes_handled(x.tick, x.tick_now);
            let e = d.released_routed(x.submits, now);
            &&& c.updated(x, now) == e.source_checked(x.source_busy, x.target_busy)
            &&& c.target_calls(x, now) == c.ingest_target_calls(x.fetch, now) + d.released_calls(
                x.submits,
                now,
            )
        }),
{
}

/// The coordinator's own fetcher ticks, and every stripe it reports lands.
pub proof fn law_the_coordinators_fetcher_ticks(c: Coord, inputs: FetchInputs, now: u64)
    ensures
        ({
            let after = c.ingested(inputs, now);
            match c.m.ingest {
                IngestModel::Inline(fetcher) => {
                    let t = fetch_tick(fetcher, c.s).ticked(inputs, now);
                    let taken = Coord {
                        m: CoordModel {
                            ingest: IngestModel::Inline(
                                FetcherModel { finished: Seq::empty(), ..t.m },
                            ),
                            ..c.m
                        },
                        s: t.s,
                    };
                    after == taken.all_landed(t.m.finished, t.m.finished.len())
                },
                IngestModel::Pool(starts, running, outbox) => after == c,
            }
        }),
{
    reveal(Coord::ingested);
}

} // verus!
