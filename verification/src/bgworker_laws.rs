//! What the coordinator promises as a whole.

use vstd::prelude::*;
use crate::bgworker_model::{
    gone, Coord, CoordModel, IngestModel, MAX_RELEASE_RETRIES, PendingRelease,
};
use crate::counting::add_wrapping;
use crate::ingest_pool::IngestRequest;
use crate::metadata::metadata_flags;
use crate::metadata::shared_state::{Evicting, StateModel};
use crate::metadata::stripe_flags;
use crate::metadata_flusher::{next_header, PersistOutcome, PersistResult};
use crate::fetcher_laws::{fetcher_slots, law_a_push_leaves_its_slot_with_the_fetcher};
use crate::push_gate::PushPermit;
use crate::spill::evictor_laws::{law_a_push_leaves_its_slot_unless_forwarded, slots};
use crate::stripe_fetcher::local;

verus! {

/// Release tokens stay even, so none is ever the evictor's.
pub proof fn law_release_tokens_are_even(c: Coord, id: usize, retries: u8, from_evicted: bool)
    requires
        c.m.token & 1 == 0,
        forall|token: u64| #[trigger]
            c.m.pending.dom().contains(token) ==> token & 1 == 0,
    ensures
        c.release_issued(id, retries, from_evicted).m.token & 1 == 0,
        forall|token: u64| #[trigger]
            c.release_issued(id, retries, from_evicted).m.pending.dom().contains(token) ==> token
                & 1 == 0,
{
    let token = c.m.token;
    let next = add_wrapping(token, 2);
    assert(token & 1 == 0 ==> token == 0xffff_ffff_ffff_fffe || token + 2 <= u64::MAX)
        by (bit_vector);
    if token + 2 <= u64::MAX {
        assert(next == token + 2);
        assert(token & 1 == 0 && next == token + 2 ==> next & 1 == 0) by (bit_vector);
    } else {
        assert(next == 0);
        assert(0u64 & 1 == 0) by (bit_vector);
    }
}

/// With spill, and for a stripe that is not local, a landing changes no
/// stripe's state: the guest sees the stripe only once its header is durable.
pub proof fn law_landing_waits_for_the_header(c: Coord, id: usize, success: bool)
    requires
        c.m.e is Some || gone(c.s, id),
    ensures
        c.landed(id, success).s.fetch == c.s.fetch,
        c.landed(id, success).s.resident == c.s.resident,
        success && c.s.fetch[id as int] != Evicting && !c.m.release_pending(id) ==> {
            let op = c.landed(id, success).m.f.queue.last();
            op.stripe_id == id && op.set == metadata_flags::FETCHED && op.clear
                == metadata_flags::EVICTED && op.token == c.m.token
        },
{
}

/// Without spill a stripe that never left lands at once.
pub proof fn law_without_spill_a_stripe_lands_at_once(c: Coord, id: usize)
    requires
        c.m.e is None,
        !gone(c.s, id),
        c.s.fetch[id as int] != Evicting,
    ensures
        c.landed(id, true).s == c.s.after_mark_fetched(id as int),
{
}

/// A landing reported for a stripe that is being evicted touches no header and
/// no state.
pub proof fn law_landing_leaves_an_evicting_stripe_alone(c: Coord, id: usize, success: bool)
    requires
        c.s.fetch[id as int] == Evicting,
    ensures
        c.landed(id, success).m.f == c.m.f,
        c.landed(id, success).s.fetch == c.s.fetch,
        c.landed(id, success).m.pending == c.m.pending,
{
}

/// An evicted stripe becomes resident again only through a durable header.
pub proof fn law_only_a_durable_header_releases_an_evicted_stripe(c: Coord, o: PersistOutcome)
    requires
        c.m.pending.dom().contains(o.token),
        c.m.pending[o.token].from_evicted,
        o.result != PersistResult::Durable,
    ensures
        c.release_over(o).s.fetch == c.s.fetch,
        c.release_over(o).s.resident == c.s.resident,
{
}

/// A release that fails is issued again under a fresh token, a bounded number
/// of times.
pub proof fn law_a_failed_release_is_retried(c: Coord, o: PersistOutcome)
    requires
        c.m.pending.dom().contains(o.token),
        o.result != PersistResult::Durable,
    ensures
        ({
            let p = c.m.pending[o.token];
            let rest = c.m.pending.remove(o.token);
            let after = c.release_over(o).m.pending;
            if p.retries < MAX_RELEASE_RETRIES {
                after == rest.insert(
                    c.m.token,
                    PendingRelease { retries: (p.retries + 1) as u8, ..p },
                )
            } else {
                after == rest
            }
        }),
{
}

/// An outcome under a token that no release waits for changes nothing.
pub proof fn law_an_unknown_release_outcome_is_ignored(c: Coord, o: PersistOutcome)
    requires
        !c.m.pending.dom().contains(o.token),
    ensures
        c.release_over(o) == c,
{
}

/// A fetch of a stripe whose release is pending, or that is being taken in,
/// does nothing: it would start a second pull whose write lands after the
/// guest has the stripe back.
pub proof fn law_a_fetch_of_a_landing_stripe_is_dropped(c: Coord, id: usize, now: u64)
    requires
        c.m.local_or_landing(id),
    ensures
        c.fetch_requested(id, now) == c,
{
}

/// Once a fetch of a stripe that is not local has gone to the ingest, another
/// one does nothing until the ingest reports back.
pub proof fn law_a_routed_fetch_is_not_repeated(c: Coord, id: usize, now: u64)
    requires
        gone(c.s, id),
    ensures
        c.routed_fetch(id).fetch_requested(id, now) == c.routed_fetch(id),
        !c.routed_fetch(id).landed(id, false).m.landing.contains(id),
{
}

/// With spill every push is recorded, in memory and on its way to the disk,
/// whatever becomes of it.
pub proof fn law_every_push_is_recorded(c: Coord, id: usize)
    requires
        c.m.e is Some,
        0 <= id < c.s.flags.len(),
    ensures
        c.push_recorded(id).s.flag(id as int, stripe_flags::PUSHED),
        c.push_recorded(id).m.f.queue.last().stripe_id == id,
        c.push_recorded(id).m.f.queue.last().set == metadata_flags::PUSHED,
{
    crate::metadata::stripe_flags::lemma_set_bits(
        c.s.flags[id as int],
        stripe_flags::PUSHED,
        stripe_flags::PUSHED,
    );
    assert(0x20u8 & 0x20u8 != 0) by (bit_vector);
}

/// With spill a fetch or a push of a stripe that is local by now never reaches
/// the ingest.
pub proof fn law_local_stripes_stay_with_the_coordinator(
    c: Coord,
    id: usize,
    data: Vec<u8>,
    permit: PushPermit,
    copy: Vec<u8>,
    submitted: bool,
    now: u64,
)
    requires
        c.m.e is Some,
        local(c.s, id),
        c.m.e->0.evicting(id) ==> c.s.fetch[id as int] == Evicting,
    ensures
        c.fetch_requested(id, now).m.ingest == c.m.ingest,
        c.pushed(id, data, permit, copy, submitted, now).m.ingest == c.m.ingest,
{
}

/// Requests for workers that carry a push.
pub open spec fn pushes_in(outbox: Seq<(usize, IngestRequest)>) -> nat
    decreases outbox.len(),
{
    if outbox.len() == 0 {
        0
    } else {
        pushes_in(outbox.drop_last()) + (if outbox.last().1 is Pushed {
            1nat
        } else {
            0nat
        })
    }
}

/// Slots the coordinator has in its hands: to be given back, with the evictor,
/// with its own fetcher, or on their way to a worker.
pub open spec fn coordinator_slots(m: CoordModel) -> nat {
    m.dropped.len() + (match m.e {
        Some(e) => slots(e),
        None => 0,
    }) + (match m.ingest {
        IngestModel::Inline(fetcher) => fetcher_slots(fetcher),
        IngestModel::Pool(starts, running, outbox) => pushes_in(outbox),
    })
}

/// Routing a push keeps its slot.
proof fn lemma_routed_push_keeps_the_slot(
    c: Coord,
    id: usize,
    data: Vec<u8>,
    permit: PushPermit,
    submitted: bool,
    now: u64,
)
    ensures
        coordinator_slots(c.routed_push(id, data, permit, submitted, now).m)
            == coordinator_slots(c.m) + 1,
{
    if let IngestModel::Inline(fetcher) = c.m.ingest {
        law_a_push_leaves_its_slot_with_the_fetcher(fetcher, c.s, id, data@, permit);
    }
    if let IngestModel::Pool(starts, running, outbox) = c.m.ingest {
        if let IngestModel::Pool(s2, r2, after) = c.routed_push(
            id,
            data,
            permit,
            submitted,
            now,
        ).m.ingest {
            if running {
                assert(after.drop_last() =~= outbox);
            }
        }
    }
}

/// Every push's slot ends up in exactly one place, whatever becomes of the
/// push: it is never lost and never given back twice.
pub proof fn law_a_push_keeps_its_slot(
    c: Coord,
    id: usize,
    data: Vec<u8>,
    permit: PushPermit,
    copy: Vec<u8>,
    submitted: bool,
    now: u64,
)
    ensures
        coordinator_slots(c.pushed(id, data, permit, copy, submitted, now).m)
            == coordinator_slots(c.m) + 1,
{
    let t = c.push_recorded(id);
    assert(coordinator_slots(t.m) == coordinator_slots(c.m));
    if !t.m.release_pending(id) {
        match t.m.e {
            None => {
                lemma_routed_push_keeps_the_slot(t, id, data, permit, submitted, now);
            },
            Some(e) => {
                law_a_push_leaves_its_slot_unless_forwarded(e, t.s, id, copy, permit, now);
                let u = Coord {
                    m: CoordModel {
                        e: Some(e.after_pushed_stripe(t.s, id, copy, permit, now)),
                        ..t.m
                    },
                    s: t.s,
                };
                lemma_routed_push_keeps_the_slot(u, id, data, permit, submitted, now);
            },
        }
    }
}

/// A device that opens after a landing's header reached the disk serves the
/// stripe from its own blocks. One whose header did not get there fetches the
/// stripe again, if it was evicted.
pub proof fn law_a_durable_landing_opens_as_local(headers: Seq<u8>, shift: u8, id: usize)
    requires
        id < headers.len(),
    ensures
        ({
            let byte = next_header(
                headers[id as int],
                metadata_flags::FETCHED,
                metadata_flags::EVICTED,
            );
            local(StateModel::opened(headers.update(id as int, byte), shift), id)
        }),
        headers[id as int] & metadata_flags::EVICTED != 0 && headers[id as int]
            & metadata_flags::FETCHED == 0 ==> !local(StateModel::opened(headers, shift), id),
{
    let h = headers[id as int];
    assert(((h | 0x01) & !0x08u8) & 0x08 == 0 && ((h | 0x01) & !0x08u8) & 0x01 != 0)
        by (bit_vector);
}

} // verus!
