//! What the evictor promises as a whole.

use vstd::prelude::*;
use crate::io::{Answer, IoError, PunchCall};
use crate::metadata::metadata_flags;
use crate::metadata::shared_state::{
    header_write_state, Evicted, Evicting, GATE_FAIL, GATE_HOLD, GATE_OPEN, StateModel, Written,
};
use crate::metadata::stripe_flags;
use crate::metadata_flusher::{next_header, FlusherModel, PersistOutcome, PersistResult};
use crate::push_gate::PushPermit;
use crate::spill::evictor_model::{
    count_records, find, header_clear, header_set, is_active_dirty, lemma_count_push,
    lemma_count_remove, lemma_count_update, lemma_find, sat_sub, state_after_begin, stripe_named,
    token_of, Eviction, EvictorModel, FetchDisposition, Kind, OnFull, PushDisposition, ReadResult,
    Stage, SweepModel, TickModel,
};
use crate::spill::codec::{law_object_name_roundtrip, SpillError};

verus! {

/// Every token of the evictor is odd, so none is the coordinator's, and
/// different claims have different tokens.
pub proof fn law_tokens_are_odd_and_distinct(a: u64, b: u64)
    requires
        a < 0x8000_0000_0000_0000,
        b < 0x8000_0000_0000_0000,
        a != b,
    ensures
        token_of(a) & 1 == 1,
        token_of(a) != token_of(b),
{
    assert(((a << 1) | 1) & 1 == 1 && (a < 0x8000_0000_0000_0000 && b < 0x8000_0000_0000_0000
        && a != b ==> (a << 1) | 1 != (b << 1) | 1)) by (bit_vector);
}

/// A header outcome makes a stripe Evicted only if it says that the stripe's
/// own header op, under the token last issued for it, is durable.
pub proof fn law_evicted_only_after_a_durable_header(
    m: EvictorModel,
    s: StateModel,
    o: PersistOutcome,
    punched: Result<(), IoError>,
    id: usize,
)
    requires
        m.wf(s.fetch.len()),
        s.wf(),
        id < s.fetch.len(),
        s.fetch[id as int] == Evicting,
        m.tracks(o.stripe_id) ==> m.record(o.stripe_id).previous != Evicted,
        m.state_after_outcome(s, o, punched).fetch[id as int] == Evicted,
    ensures
        o.stripe_id == id,
        o.result == PersistResult::Durable,
        m.record(id).stage == (Stage::WritingHeader { token: o.token }),
{
    lemma_find(m.records, o.stripe_id, 0);
}

/// Whatever outcomes come, blocks are given back only of stripes whose own
/// header op is durable: each punch belongs to an outcome that says so.
pub proof fn law_blocks_are_punched_only_after_a_durable_header(
    t: TickModel,
    outcomes: Seq<PersistOutcome>,
    punches: Seq<Answer>,
    now: u64,
    count: nat,
)
    ensures
        forall|k: int|
            0 <= k < t.all_outcome_calls(outcomes, punches, now, count).len() ==> punch_is_owed(
                t,
                outcomes,
                punches,
                now,
                count,
                #[trigger] t.all_outcome_calls(outcomes, punches, now, count)[k],
            ),
    decreases count,
{
    if count > 0 {
        let last = (count - 1) as nat;
        law_blocks_are_punched_only_after_a_durable_header(t, outcomes, punches, now, last);
        let before = t.all_outcome_calls(outcomes, punches, now, last);
        let all = t.all_outcome_calls(outcomes, punches, now, count);
        assert forall|k: int| 0 <= k < all.len() implies punch_is_owed(
            t,
            outcomes,
            punches,
            now,
            count,
            #[trigger] all[k],
        ) by {
            if k < before.len() {
                assert(all[k] == before[k]);
                let j = choose|j: int|
                    0 <= j < last && punched_by(t, outcomes, punches, now, j, before[k]);
                assert(punched_by(t, outcomes, punches, now, j, all[k]));
            } else {
                assert(punched_by(t, outcomes, punches, now, last as int, all[k]));
            }
        }
    }
}

/// One of the first `count` outcomes calls for the punch.
pub open spec fn punch_is_owed(
    t: TickModel,
    outcomes: Seq<PersistOutcome>,
    punches: Seq<Answer>,
    now: u64,
    count: nat,
    call: PunchCall,
) -> bool {
    exists|j: int| 0 <= j < count && punched_by(t, outcomes, punches, now, j, call)
}

/// `call` punches the blocks of the stripe of outcome `j`, which says that the
/// stripe's header op, under the token issued for it, is durable.
pub open spec fn punched_by(
    t: TickModel,
    outcomes: Seq<PersistOutcome>,
    punches: Seq<Answer>,
    now: u64,
    j: int,
    call: PunchCall,
) -> bool {
    let m = t.outcomes_applied(outcomes, punches, now, j as nat).m;
    let o = outcomes[j];
    &&& o.result == PersistResult::Durable
    &&& m.evicting(o.stripe_id)
    &&& m.record(o.stripe_id).stage == (Stage::WritingHeader { token: o.token })
    &&& call == m.punch_call(o.stripe_id, punches[j])
}

/// What is uploaded for a stripe bears the stripe's name and decodes to the
/// stripe's data as it was read.
pub proof fn law_an_upload_decodes_to_the_stripe(
    t: TickModel,
    id: usize,
    ok: bool,
    data: Option<Seq<u8>>,
    result: ReadResult,
    now: u64,
    capacity: usize,
)
    requires
        t.m.read_to_encode(id, ok) ==> t.m.encodes(id, data, result),
        t.m.data_len(id) <= capacity,
    ensures
        t.read_puts(id, ok, data, result, now).len() <= 1,
        t.read_puts(id, ok, data, result, now).len() == 1 ==> {
            let call = t.read_puts(id, ok, data, result, now)[0];
            &&& call is Put
            &&& stripe_named(call->Put_name) == Some(id)
            &&& t.m.codec.decoded(id, call->Put_data, capacity) == Ok::<Seq<u8>, SpillError>(
                data->Some_0.take(t.m.data_len(id)),
            )
        },
{
    if t.read_puts(id, ok, data, result, now).len() == 1 {
        law_object_name_roundtrip(t.m.cfg.device_id@, id);
        let object = t.m.object(id, data->Some_0);
        assert(t.m.codec.decoded(id, object, capacity) == Ok::<Seq<u8>, SpillError>(
            data->Some_0.take(t.m.data_len(id)),
        ));
    }
}

/// Once the disk may say EVICTED, only a durable header ends the eviction: a
/// failed or uncertain write leaves the stripe claimed, and its record in
/// place.
pub proof fn law_a_committed_eviction_is_never_aborted(
    m: EvictorModel,
    s: StateModel,
    o: PersistOutcome,
    punched: Result<(), IoError>,
    now: u64,
    id: usize,
)
    requires
        m.wf(s.fetch.len()),
        s.wf(),
        m.evicting(id),
        m.record(id).committed,
        o.result != PersistResult::Durable,
        o.stripe_id == id,
    ensures
        m.state_after_outcome(s, o, punched).fetch == s.fetch,
        m.after_outcome(o, punched, now).records.len() == m.records.len(),
{
    lemma_find(m.records, id, 0);
}

/// An uncertain outcome commits the eviction.
pub proof fn law_an_uncertain_outcome_commits(
    m: EvictorModel,
    o: PersistOutcome,
    punched: Result<(), IoError>,
    now: u64,
)
    requires
        m.evicting(o.stripe_id),
        m.record(o.stripe_id).stage == (Stage::WritingHeader { token: o.token }),
        o.token & 1 == 1,
        o.result == PersistResult::Uncertain,
    ensures
        m.after_outcome(o, punched, now).records[find(m.records, o.stripe_id)].committed,
{
    lemma_find(m.records, o.stripe_id, 0);
}

/// An outcome under another token, or for a stripe that is not being evicted,
/// changes nothing.
pub proof fn law_a_stale_outcome_is_ignored(
    m: EvictorModel,
    s: StateModel,
    o: PersistOutcome,
    punched: Result<(), IoError>,
    now: u64,
)
    requires
        !m.evicting(o.stripe_id) || m.record(o.stripe_id).stage != (Stage::WritingHeader {
            token: o.token,
        }),
    ensures
        m.after_outcome(o, punched, now) == m,
        m.state_after_outcome(s, o, punched) == s,
{
}

/// A draining stripe's header op never says IN_S3: that takes an upload.
pub proof fn law_draining_never_claims_an_upload(
    m: EvictorModel,
    s: StateModel,
    f: FlusherModel,
    id: usize,
    now: u64,
)
    ensures
        m.flusher_after_drain(s, f, id, now) != f ==> m.flusher_after_drain(
            s,
            f,
            id,
            now,
        ).queue.last().set == metadata_flags::EVICTED,
{
}

/// An upload hands the flusher a header op only if it succeeded, for the
/// stripe whose object it stored.
pub proof fn law_a_header_op_follows_a_successful_upload(
    m: EvictorModel,
    f: FlusherModel,
    stripe: Option<usize>,
    ok: bool,
)
    ensures
        m.flusher_after_put(f, stripe, ok) != f ==> ok && stripe is Some && m.flusher_after_put(
            f,
            stripe,
            ok,
        ).queue.last().stripe_id == stripe->0,
        !ok ==> m.flusher_after_put(f, stripe, ok) == f,
{
}

/// Aborting a claim puts the stripe back in the state it was claimed from, and
/// leaves all other stripes alone.
pub proof fn law_abort_restores_the_stripe(
    m: EvictorModel,
    s: StateModel,
    id: usize,
    kind: Kind,
    now: u64,
)
    requires
        m.wf(s.fetch.len()),
        s.wf(),
        id < s.fetch.len(),
        s.claimable(id as int),
        !m.tracks(id),
    ensures
        m.after_begin(s, id, kind, now).state_after_abort(state_after_begin(s, id), id).fetch
            == s.fetch,
        m.after_begin(s, id, kind, now).state_after_abort(state_after_begin(s, id), id).resident
            == s.resident,
{
    let begun = m.after_begin(s, id, kind, now);
    lemma_find(m.records, id, 0);
    lemma_find(begun.records, id, 0);
    assert(begun.records[m.records.len() as int].stripe_id == id);
    assert forall|i: int| 0 <= i < m.records.len() implies begun.records[i].stripe_id != id by {
        assert(m.records[i].stripe_id != id);
    }
    assert(find(begun.records, id) == m.records.len());
    assert(begun.state_after_abort(state_after_begin(s, id), id).fetch =~= s.fetch);
}

/// A guest's fetch of a stripe that is being evicted and whose header op has
/// not been issued makes the stripe local again.
pub proof fn law_a_fetch_aborts_an_uncommitted_eviction(m: EvictorModel, s: StateModel, id: usize)
    requires
        m.wf(s.fetch.len()),
        s.wf(),
        m.evicting(id),
        !(m.record(id).stage is WritingHeader),
        s.fetch[id as int] == Evicting,
    ensures
        m.fetch_disposition(s, id) == FetchDisposition::Aborted,
        m.state_after_abort(s, id).fetch == s.fetch.update(id as int, m.record(id).previous),
{
    lemma_find(m.records, id, 0);
}

/// A stripe that was written, that was pushed, that came back from the store,
/// that the source does not hold, or that landed while the source was not
/// live is never dropped clean; nor is any stripe once the source is gone or
/// while clean eviction is off.
pub proof fn law_clean_needs_a_live_untouched_source(m: EvictorModel, s: StateModel, id: int)
    ensures
        s.write[id] == Written ==> !m.clean(s, id),
        s.flag(id, stripe_flags::PUSHED) ==> !m.clean(s, id),
        s.flag(id, stripe_flags::IN_S3) ==> !m.clean(s, id),
        !s.flag(id, stripe_flags::HAS_SOURCE) ==> !m.clean(s, id),
        !s.flag(id, stripe_flags::FETCHED_LIVE) ==> !m.clean(s, id),
        !s.live ==> !m.clean(s, id),
        !m.cfg.clean_eviction ==> !m.clean(s, id),
{
}

/// While the store is degraded no upload starts before the pause has passed,
/// and afterwards only one at a time.
pub proof fn law_a_degraded_store_is_probed_once(m: EvictorModel, s: StateModel, now: u64)
    requires
        s.spill.degraded,
    ensures
        m.degraded_until matches Some(until) && now < until ==> !m.dirty_allowed(s, now),
        count_records(m.records, is_active_dirty()) > 0 ==> !m.dirty_allowed(s, now),
{
}

/// A failing store is paused twice as long each time, up to the longest pause;
/// one success starts over.
pub proof fn law_pauses_grow_and_start_over(m: EvictorModel, now: u64)
    requires
        m.backoff <= crate::spill::evictor_model::BACKOFF_MAX,
    ensures
        m.after_store_failure(now).backoff >= m.backoff,
        m.after_store_failure(now).backoff <= crate::spill::evictor_model::BACKOFF_MAX,
        m.after_store_failure(now).after_recovery().backoff
            == crate::spill::evictor_model::BACKOFF_MIN,
        m.after_store_failure(now).after_recovery().degraded_until is None,
{
}

/// The write gate closes exactly under hard pressure, opens only once there
/// is none and enough space is free again, and otherwise stays as it is.
pub proof fn law_the_write_gate_has_hysteresis(m: EvictorModel, s: StateModel)
    requires
        s.gate == GATE_OPEN || s.gate == GATE_HOLD || s.gate == GATE_FAIL,
    ensures
        m.state_after_assess(s).gate == GATE_OPEN <==> !m.hard_pressure(s) && (s.gate
            == GATE_OPEN || !m.free_below(m.cfg.min_free_bytes)),
        m.hard_pressure(s) ==> m.state_after_assess(s).gate == (match m.cfg.on_full {
            OnFull::Stall => GATE_HOLD,
            OnFull::Fail => GATE_FAIL,
        }),
{
}

/// When the write gate opens, every fetch held for space is released, and
/// none is before.
pub proof fn law_an_opening_write_gate_releases_held_fetches(m: EvictorModel, s: StateModel)
    ensures
        s.gate != GATE_OPEN && m.state_after_assess(s).gate == GATE_OPEN ==> m.after_assess(
            s,
        ).held.len() == 0 && m.after_assess(s).released_fetches == m.released_fetches + m.held,
        m.state_after_assess(s).gate != GATE_OPEN ==> m.after_assess(s).held == m.held
            && m.after_assess(s).released_fetches == m.released_fetches,
{
}

/// Once over the ceiling, the device stays under pressure until it is down to
/// the low-water mark and short of space no more.
pub proof fn law_pressure_lasts_to_the_low_water_mark(m: EvictorModel, s: StateModel)
    requires
        m.to_low_water,
    ensures
        m.after_assess(s).pressed == (m.over_limit(s) || m.resident_bytes(s) > sat_sub(
            m.cfg.max_local_bytes,
            m.cfg.low_water_bytes,
        )),
        m.after_assess(s).to_low_water == m.after_assess(s).pressed,
{
}

/// A pushed pre-image never replaces the fork's own data: not while the
/// stripe is being uploaded, and not once the store holds it.
pub proof fn law_a_push_never_replaces_spilled_data(m: EvictorModel, s: StateModel, id: usize)
    requires
        (m.evicting(id) && m.record(id).kind == Kind::Dirty) || (!m.evicting(id) && (
        s.fetch[id as int] == Evicted || s.flag(id as int, stripe_flags::WAS_EVICTED)) && s.flag(
            id as int,
            stripe_flags::IN_S3,
        )),
    ensures
        m.push_disposition(s, id) == PushDisposition::Ignore,
{
}

/// A stripe used since the hand last passed keeps its place for one more
/// revolution: the hand takes its reference bit and claims nothing.
pub proof fn law_a_referenced_stripe_gets_a_second_chance(
    x: SweepModel,
    clean_possible: bool,
    dirty_possible: bool,
    now: u64,
)
    requires
        x.s.flag(x.m.hand as int, stripe_flags::REFERENCED),
    ensures
        x.step(clean_possible, dirty_possible, now).m.records == x.m.records,
        x.step(clean_possible, dirty_possible, now).claimed == x.claimed,
        x.step(clean_possible, dirty_possible, now).deferred == x.deferred,
{
}

/// While clean stripes can be dropped, the hand claims no dirty one before the
/// batch is over.
pub proof fn law_clean_stripes_go_first(x: SweepModel, dirty_possible: bool, now: u64)
    ensures
        ({
            let y = x.step(true, dirty_possible, now);
            y.m.records.len() > x.m.records.len() ==> y.m.records.last().kind == Kind::Clean
        }),
{
}

/// The hand claims only stripes that occupy local blocks, are not yet being
/// evicted and were not just asked for.
pub proof fn law_the_hand_claims_only_resident_stripes(
    x: SweepModel,
    clean_possible: bool,
    dirty_possible: bool,
    now: u64,
)
    ensures
        ({
            let y = x.step(clean_possible, dirty_possible, now);
            let id = x.m.hand;
            y.m.records.len() > x.m.records.len() ==> x.s.is_resident(id as int) && !x.m.tracks(
                id,
            ) && !crate::spill::evictor_model::skipped(x.m.recent, id)
                && y.m.records.last().stripe_id == id
        }),
{
}

/// Records that hold a push.
pub open spec fn has_push() -> spec_fn(Eviction) -> bool {
    |r: Eviction| r.deferred_push is Some
}

/// Slots the evictor has in its hands: of pushes it holds, of pushes it
/// released, and of pushes it dropped.
pub open spec fn slots(m: EvictorModel) -> nat {
    m.dropped.len() + m.released_pushes.len() + count_records(m.records, has_push())
}

/// An abort loses no slot.
pub proof fn law_abort_keeps_slots(m: EvictorModel, id: usize, now: u64)
    ensures
        slots(m.after_abort(id, now)) == slots(m),
{
    lemma_find(m.records, id, 0);
    if m.evicting(id) {
        let at = find(m.records, id);
        let r = m.record(id);
        lemma_count_remove(m.records, has_push(), at);
        lemma_count_update(
            m.records,
            has_push(),
            at,
            Eviction { deferred_fetch: false, deferred_push: None, aborted: true, ..r },
        );
    }
}

/// A completed eviction loses no slot.
pub proof fn law_completion_keeps_slots(
    m: EvictorModel,
    id: usize,
    punched: Result<(), IoError>,
)
    ensures
        slots(m.after_complete(id, punched)) == slots(m),
{
    lemma_find(m.records, id, 0);
    if m.tracks(id) {
        lemma_count_remove(m.records, has_push(), find(m.records, id));
    }
}

/// The slot of a push stays with the evictor exactly if the push is not
/// forwarded.
pub proof fn law_a_push_leaves_its_slot_unless_forwarded(
    m: EvictorModel,
    s: StateModel,
    id: usize,
    data: Vec<u8>,
    permit: PushPermit,
    now: u64,
)
    ensures
        slots(m.after_pushed_stripe(s, id, data, permit, now)) == slots(m) + (if m.push_disposition(
            s,
            id,
        ) == PushDisposition::Forward {
            0int
        } else {
            1
        }),
{
    law_abort_keeps_slots(m, id, now);
    lemma_find(m.records, id, 0);
    if m.tracks(id) {
        lemma_count_update(
            m.records,
            has_push(),
            find(m.records, id),
            Eviction {
                deferred_push: Some(crate::spill::evictor_model::HeldPush { data, permit }),
                ..m.record(id)
            },
        );
    }
}

/// A claim brings no slot.
pub proof fn law_a_claim_brings_no_slot(
    m: EvictorModel,
    s: StateModel,
    id: usize,
    kind: Kind,
    now: u64,
)
    ensures
        slots(m.after_begin(s, id, kind, now)) == slots(m),
{
    if s.claimable(id as int) {
        lemma_count_push(
            m.records,
            has_push(),
            m.after_begin(s, id, kind, now).records.last(),
        );
    }
}

/// A device that opens after an eviction's header reached the disk takes the
/// stripe for evicted, so it never serves the blocks that were given back. It
/// looks for the stripe in the store exactly when the stripe was uploaded. What
/// the header said of writes, the source and pushes stays, and so do the other
/// stripes.
pub proof fn law_a_durable_eviction_opens_as_evicted(
    headers: Seq<u8>,
    shift: u8,
    id: int,
    kind: Kind,
)
    requires
        0 <= id < headers.len(),
    ensures
        ({
            let before = StateModel::opened(headers, shift);
            let byte = next_header(headers[id], header_set(kind), header_clear(kind));
            let after = StateModel::opened(headers.update(id, byte), shift);
            &&& after.fetch[id] == Evicted
            &&& !after.is_resident(id)
            &&& after.flag(id, stripe_flags::IN_S3) == (kind == Kind::Dirty)
            &&& after.write[id] == header_write_state(headers[id])
            &&& after.flag(id, stripe_flags::HAS_SOURCE) == before.flag(
                id,
                stripe_flags::HAS_SOURCE,
            )
            &&& after.flag(id, stripe_flags::PUSHED) == before.flag(id, stripe_flags::PUSHED)
            &&& forall|other: int|
                0 <= other < headers.len() && other != id ==> #[trigger] after.fetch[other]
                    == before.fetch[other] && after.write[other] == before.write[other]
                    && after.flags[other] == before.flags[other]
        }),
{
    let h = headers[id];
    let set = header_set(kind);
    let clear = header_clear(kind);
    let byte = next_header(h, set, clear);
    assert(0x01u8 | 0x10 == 0x11 && 0x08u8 | 0x10 == 0x18) by (bit_vector);
    assert(byte & 0x08 != 0 && byte & 0x01 == 0 && ((byte & 0x34) & 0x10 != 0) == (set != 0x08)
        && byte & 0x02 == h & 0x02 && (byte & 0x34) & 0x04 == (h & 0x34) & 0x04 && (byte & 0x34)
        & 0x20 == (h & 0x34) & 0x20) by (bit_vector)
        requires
            byte == (h | set) & !clear,
            (set == 0x08 && clear == 0x11) || (set == 0x18 && clear == 0x01),
    ;
    let after = StateModel::opened(headers.update(id, byte), shift);
    assert(after.fetch[id] == Evicted);
}

} // verus!
