//! When the device is short of space, and what follows from it.

use vstd::prelude::*;
use crate::metadata::shared_state::{
    Evicting, Fetched, GATE_FAIL, GATE_HOLD, GATE_OPEN, NoSource, StateModel, Written,
};
use crate::metadata_flusher::PersistOutcome;
use crate::spill::evictor_model::{
    count_records, find, is_active, is_active_dirty, lemma_find, lemma_tracks, Eviction,
    EvictorModel, FetchDisposition, Kind, OnFull, Stage, SweepModel, TickInputs, TickModel,
};

verus! {

/// After the space was judged the device is under pressure if its resident
/// stripes take more than the ceiling, or the filesystem last had less space
/// than is to be kept; beyond that only if it was on its way down to the
/// low-water mark and is not there yet.
pub proof fn law_a_device_over_its_limits_is_under_pressure(m: EvictorModel, s: StateModel)
    requires
        m.cfg.stripe_sector_count * 512 <= u64::MAX,
        m.cfg.max_local_bytes < u64::MAX,
    ensures
        ({
            let used = s.resident * (m.cfg.stripe_sector_count * 512);
            let short = m.free_bytes matches Some(free) && free < m.cfg.min_free_bytes;
            let after = m.after_assess(s);
            &&& used > m.cfg.max_local_bytes ==> after.pressed
            &&& short ==> after.pressed
            &&& !(used > m.cfg.max_local_bytes) && !short ==> after.pressed == (m.to_low_water
                && used > 0 && used + m.cfg.low_water_bytes > m.cfg.max_local_bytes)
            &&& after.to_low_water == after.pressed
        }),
{
    let size = m.cfg.stripe_sector_count * 512;
    assert(s.resident * size >= 0) by (nonlinear_arith)
        requires
            size >= 0,
    ;
}

/// After the space was judged guest writes are held or refused, as configured,
/// if resident stripes take more than the ceiling and the margin above it, or
/// less than half of the space to be kept is free. Otherwise a gate that is
/// open stays open, and one that is closed opens unless less space is free than
/// is to be kept.
pub proof fn law_the_write_gate_follows_the_space_left(m: EvictorModel, s: StateModel)
    requires
        m.cfg.stripe_sector_count * 512 <= u64::MAX,
        m.cfg.max_local_bytes + m.cfg.hard_margin_bytes < u64::MAX,
    ensures
        ({
            let used = s.resident * (m.cfg.stripe_sector_count * 512);
            let short = m.free_bytes matches Some(free) && free < m.cfg.min_free_bytes;
            let dire = m.free_bytes matches Some(free) && 2 * (free + 1) <= m.cfg.min_free_bytes;
            let after = m.state_after_assess(s);
            &&& used > m.cfg.max_local_bytes + m.cfg.hard_margin_bytes || dire ==> after.gate
                == match m.cfg.on_full {
                OnFull::Stall => GATE_HOLD,
                OnFull::Fail => GATE_FAIL,
            }
            &&& !(used > m.cfg.max_local_bytes + m.cfg.hard_margin_bytes) && !dire ==> after.gate
                == if short {
                s.gate
            } else {
                GATE_OPEN
            }
            &&& after.fetch == s.fetch && after.write == s.write && after.flags == s.flags
            &&& after.inflight == s.inflight && after.resident == s.resident
        }),
{
}

/// The stripe at the hand, where a record of it exists or not.
pub open spec fn has_record(m: EvictorModel, id: usize) -> bool {
    exists|i: int| 0 <= i < m.records.len() && (#[trigger] m.records[i]).stripe_id == id
}

/// The stripe's blocks are in use.
pub open spec fn in_use(s: StateModel, id: int) -> bool {
    s.fetch[id] == Fetched || (s.fetch[id] == NoSource && s.write[id] == Written)
}

/// The source can serve the stripe again: it holds it, was live when the stripe
/// came and still is, and the stripe was neither written nor pushed nor stored
/// since.
pub open spec fn served_again(m: EvictorModel, s: StateModel, id: int) -> bool {
    &&& m.cfg.clean_eviction && s.live
    &&& s.write[id] != Written
    &&& s.flags[id] & 0x20 == 0
    &&& s.flags[id] & 0x10 == 0
    &&& s.flags[id] & 0x04 != 0
    &&& s.flags[id] & 0x80 != 0
}

/// A claim at its beginning: nothing was read, stored or written, and nothing
/// waits for it.
pub open spec fn fresh_claim(id: usize, kind: Kind, previous: u8, epoch: u64, now: u64) -> Eviction {
    Eviction {
        stripe_id: id,
        previous,
        kind,
        stage: Stage::Draining,
        epoch,
        holds_buffer: false,
        object_len: 0,
        started: now,
        committed: false,
        retry_at: None,
        deferred_fetch: false,
        deferred_push: None,
        io_outstanding: false,
        resubmit_read: false,
        aborted: false,
    }
}

/// The hand looks at one stripe and moves to the next, round the device. It
/// passes by one that is not in use, has a record or was just put back. It
/// spares one that was used since it last came by, taking its mark. It claims
/// one that the source can serve again, to be dropped.
pub proof fn law_the_hand_claims_a_cold_clean_stripe(
    x: SweepModel,
    dirty_possible: bool,
    now: u64,
)
    requires
        x.m.hand < x.s.fetch.len() <= usize::MAX,
        x.s.wf(),
    ensures
        ({
            let id = x.m.hand as int;
            let y = x.step(true, dirty_possible, now);
            let examined = in_use(x.s, id) && !has_record(x.m, x.m.hand)
                && !x.m.recent.contains_key(x.m.hand);
            &&& y.examined == x.examined + 1
            &&& y.m.hand == if id + 1 == x.s.fetch.len() {
                0
            } else {
                id + 1
            }
            &&& !examined ==> y.m.records == x.m.records && y.s == x.s && y.deferred == x.deferred
            &&& examined && served_again(x.m, x.s, id) && x.s.flags[id] & 0x40 != 0 ==> {
                &&& y.m.records == x.m.records && y.claimed == x.claimed
                &&& y.s.flags == x.s.flags.update(id, x.s.flags[id] & !0x40u8)
                &&& y.s.fetch == x.s.fetch
            }
            &&& examined && served_again(x.m, x.s, id) && x.s.flags[id] & 0x40 == 0 ==> {
                &&& y.m.records == x.m.records.push(
                    fresh_claim(x.m.hand, Kind::Clean, x.s.fetch[id], y.m.epoch, now),
                )
                &&& x.m.epoch < u64::MAX ==> y.m.epoch == x.m.epoch + 1
                &&& y.claimed == x.claimed + 1
                &&& y.s.fetch == x.s.fetch.update(id, Evicting)
            }
            &&& examined && !served_again(x.m, x.s, id) && dirty_possible && x.s.flags[id] & 0x40
                == 0 && x.deferred.len() < x.m.cfg.max_concurrent_evictions ==> {
                &&& y.deferred == x.deferred.push(x.m.hand)
                &&& y.m.records == x.m.records && y.s.fetch == x.s.fetch
            }
        }),
{
    lemma_tracks(x.m.records, x.m.hand);
    let n = x.s.fetch.len() as int;
    let next = x.m.hand + 1;
    if next < n {
        vstd::arithmetic::div_mod::lemma_small_mod(next as nat, n as nat);
    } else {
        vstd::arithmetic::div_mod::lemma_mod_self_0(n);
    }
}

/// Without a source that can serve stripes again, the hand claims a cold stripe
/// to be uploaded, if the store can take one now.
pub proof fn law_the_hand_claims_a_cold_dirty_stripe(x: SweepModel, now: u64)
    requires
        x.m.hand < x.s.fetch.len(),
        x.s.wf(),
        in_use(x.s, x.m.hand as int),
        !has_record(x.m, x.m.hand),
        !x.m.recent.contains_key(x.m.hand),
        !served_again(x.m, x.s, x.m.hand as int),
        x.s.flags[x.m.hand as int] & 0x40 == 0,
        x.m.has_store,
        x.m.puts < x.m.cfg.max_concurrent_evictions,
        !x.s.spill.degraded,
    ensures
        ({
            let id = x.m.hand as int;
            let y = x.step(false, true, now);
            &&& y.m.records == x.m.records.push(
                fresh_claim(x.m.hand, Kind::Dirty, x.s.fetch[id], y.m.epoch, now),
            )
            &&& x.m.epoch < u64::MAX ==> y.m.epoch == x.m.epoch + 1
            &&& y.s.fetch == x.s.fetch.update(id, Evicting)
            &&& y.claimed == x.claimed + 1
        }),
{
    lemma_tracks(x.m.records, x.m.hand);
}

/// The store can take an upload if there is one, fewer uploads than evictions
/// are allowed are in flight, and the store is not failing; while it is, one
/// upload at a time tries it once its pause is over.
pub proof fn law_when_the_store_can_take_an_upload(m: EvictorModel, s: StateModel, now: u64)
    ensures
        ({
            let room = m.has_store && m.puts < m.cfg.max_concurrent_evictions;
            let paused = m.degraded_until matches Some(until) && now < until;
            &&& !room ==> !m.dirty_allowed(s, now)
            &&& room && !s.spill.degraded ==> m.dirty_allowed(s, now)
            &&& room && s.spill.degraded && paused ==> !m.dirty_allowed(s, now)
            &&& room && s.spill.degraded && !paused ==> m.dirty_allowed(s, now) == (forall|i: int|
                0 <= i < m.records.len() ==> (#[trigger] m.records[i]).aborted
                    || m.records[i].kind == Kind::Clean)
        }),
{
    lemma_none_counted(m.records, is_active_dirty());
    if forall|i: int|
        0 <= i < m.records.len() ==> (#[trigger] m.records[i]).aborted || m.records[i].kind
            == Kind::Clean {
        assert forall|i: int| 0 <= i < m.records.len() implies !is_active_dirty()(
            #[trigger] m.records[i],
        ) by {
            assert(m.records[i].aborted || m.records[i].kind == Kind::Clean);
        }
    } else {
        let i = choose|i: int|
            0 <= i < m.records.len() && !((#[trigger] m.records[i]).aborted || m.records[i].kind
                == Kind::Clean);
        assert(is_active_dirty()(m.records[i]));
    }
}

/// Nothing is counted exactly if nothing satisfies the predicate.
pub proof fn lemma_none_counted(
    records: Seq<Eviction>,
    p: spec_fn(Eviction) -> bool,
)
    ensures
        (count_records(records, p) == 0) == (forall|i: int|
            0 <= i < records.len() ==> !p(#[trigger] records[i])),
    decreases records.len(),
{
    if records.len() > 0 {
        let front = records.drop_last();
        lemma_none_counted(front, p);
        assert(forall|i: int| 0 <= i < front.len() ==> front[i] == records[i]);
        if forall|i: int| 0 <= i < records.len() ==> !p(#[trigger] records[i]) {
            assert forall|i: int| 0 <= i < front.len() implies !p(#[trigger] front[i]) by {
                assert(!p(records[i]));
            }
            assert(!p(records[records.len() - 1]));
        } else {
            let i = choose|i: int| 0 <= i < records.len() && p(#[trigger] records[i]);
            if i < front.len() {
                assert(p(front[i]));
            }
        }
    }
}

/// More evictions are needed as long as, with those under way done, the
/// resident stripes would still take more than the ceiling, or less space
/// would be free than is to be kept, or the low-water mark would not be
/// reached.
pub proof fn law_how_many_evictions_are_needed(m: EvictorModel, s: StateModel, active: u64)
    requires
        count_records(m.records, is_active()) == active,
        active <= s.resident,
        m.cfg.max_local_bytes < u64::MAX,
        m.cfg.stripe_sector_count * 512 <= u64::MAX,
        m.free_bytes matches Some(free) ==> free + active * (m.cfg.stripe_sector_count * 512)
            <= u64::MAX,
    ensures
        ({
            let size = m.cfg.stripe_sector_count * 512;
            let left = (s.resident - active) * size;
            m.more_needed(s) <==> {
                ||| left > m.cfg.max_local_bytes
                ||| m.free_bytes matches Some(free) && free + active * size < m.cfg.min_free_bytes
                ||| m.to_low_water && left > 0 && left + m.cfg.low_water_bytes
                    > m.cfg.max_local_bytes
            }
        }),
{
    let size = m.cfg.stripe_sector_count * 512;
    assert((s.resident - active) * size >= 0 && active * size >= 0) by (nonlinear_arith)
        requires
            size >= 0,
            active <= s.resident,
    ;
}

/// A device without pressure claims nothing. One under pressure, whose blocks
/// can be given back and that can drop or upload stripes at all, sweeps: it looks
/// at the stripe at the hand whenever there is room for an eviction and need of
/// one, keeps the claims, and counts what it looked at in vain.
pub proof fn law_pressure_moves_the_hand(m: EvictorModel, s: StateModel, now: u64)
    requires
        m.hand < s.fetch.len(),
        s.wf(),
    ensures
        !m.pressed || !m.punch_supported ==> m.after_select(s, now) == m && m.state_after_select(
            s,
            now,
        ) == s,
        m.pressed && m.punch_supported && ((m.cfg.clean_eviction && s.live) || m.dirty_allowed(
            s,
            now,
        )) ==> {
            let end = m.sweep(s, now);
            let after = m.after_select(s, now);
            &&& m.cfg.sweep_batch > 0 && m.records.len() < m.cfg.max_concurrent_evictions
                && m.more_needed(s) ==> end.examined > 0
            &&& after.records == end.m.records && after.hand == end.m.hand
            &&& m.state_after_select(s, now) == end.s
            &&& end.claimed == 0 && end.m.idle_examined + end.examined <= usize::MAX
                ==> after.idle_examined == end.m.idle_examined + end.examined
            &&& end.claimed > 0 ==> after == end.m
        },
{
    let clean_possible = m.clean_possible(s);
    let dirty_possible = m.dirty_allowed(s, now);
    let start = SweepModel { m, s, deferred: Seq::empty(), examined: 0, claimed: 0 };
    if start.goes_on() {
        let next = start.step(clean_possible, dirty_possible, now);
        lemma_examined_grows(next, clean_possible, dirty_possible, now);
        lemma_deferred_keeps_examined(start.swept(clean_possible, dirty_possible, now), 0, now);
    }
}

/// A sweep never examines fewer stripes as it goes on.
proof fn lemma_examined_grows(
    x: SweepModel,
    clean_possible: bool,
    dirty_possible: bool,
    now: u64,
)
    requires
        x.examined <= x.m.cfg.sweep_batch,
    ensures
        x.swept(clean_possible, dirty_possible, now).examined >= x.examined,
    decreases x.m.cfg.sweep_batch - x.examined,
{
    if x.goes_on() {
        lemma_examined_grows(
            x.step(clean_possible, dirty_possible, now),
            clean_possible,
            dirty_possible,
            now,
        );
    }
}

/// Claiming what was put off examines nothing.
proof fn lemma_deferred_keeps_examined(x: SweepModel, from: nat, now: u64)
    ensures
        x.claimed_deferred(from, now).examined == x.examined,
    decreases x.deferred.len() - from,
{
    if !(from >= x.deferred.len() || x.m.records.len() >= x.m.cfg.max_concurrent_evictions
        || !x.m.more_needed(x.s) || !x.m.dirty_allowed(x.s, now)) {
        lemma_deferred_keeps_examined(
            x.with_claim(x.deferred[from as int], Kind::Dirty, now),
            from + 1,
            now,
        );
    }
}

/// What becomes of a guest's fetch: of a stripe under eviction it waits for the
/// end once the header is being written, and puts the stripe back before that;
/// of any other it is kept while writes are held or refused and the stripe
/// takes no space yet, and goes on otherwise.
pub proof fn law_what_becomes_of_a_guests_fetch(m: EvictorModel, s: StateModel, id: usize, k: int)
    requires
        0 <= k < m.records.len() ==> m.records[k].stripe_id == id && !m.records[k].aborted,
        0 <= k < m.records.len() || forall|i: int|
            0 <= i < m.records.len() ==> (#[trigger] m.records[i]).stripe_id != id
                || m.records[i].aborted,
        forall|i: int, j: int|
            0 <= i < j < m.records.len() ==> (#[trigger] m.records[i]).stripe_id != (
            #[trigger] m.records[j]).stripe_id,
    ensures
        m.fetch_disposition(s, id) == if 0 <= k < m.records.len() {
            if m.records[k].stage is WritingHeader {
                FetchDisposition::Deferred
            } else {
                FetchDisposition::Aborted
            }
        } else if in_use(s, id as int) || (s.gate != GATE_HOLD && s.gate != GATE_FAIL) {
            FetchDisposition::Forward
        } else if s.gate == GATE_HOLD {
            FetchDisposition::HeldForSpace
        } else {
            FetchDisposition::Refused
        },
{
    lemma_find(m.records, id, 0);
    let at = find(m.records, id);
    if 0 <= k < m.records.len() {
        if at < k {
            assert(m.records[at].stripe_id != m.records[k].stripe_id);
        } else if k < at {
            assert(m.records[k].stripe_id != id);
        }
    }
}

/// A sweep changes none of what the pressure is judged by.
proof fn lemma_step_keeps_the_judgement(
    x: SweepModel,
    clean_possible: bool,
    dirty_possible: bool,
    now: u64,
)
    ensures
        same_judgement(x, x.step(clean_possible, dirty_possible, now)),
{
}

/// The limits, the free space, the judgement, the number of resident stripes and
/// the write gate are the same.
pub open spec fn same_judgement(x: SweepModel, y: SweepModel) -> bool {
    &&& y.m.cfg == x.m.cfg && y.m.free_bytes == x.m.free_bytes
    &&& y.m.pressed == x.m.pressed && y.m.to_low_water == x.m.to_low_water
    &&& y.s.resident == x.s.resident && y.s.gate == x.s.gate
}

/// Nor does all of it.
proof fn lemma_swept_keeps_the_judgement(
    x: SweepModel,
    clean_possible: bool,
    dirty_possible: bool,
    now: u64,
)
    requires
        x.examined <= x.m.cfg.sweep_batch,
    ensures
        same_judgement(x, x.swept(clean_possible, dirty_possible, now)),
    decreases x.m.cfg.sweep_batch - x.examined,
{
    if x.goes_on() {
        lemma_step_keeps_the_judgement(x, clean_possible, dirty_possible, now);
        lemma_swept_keeps_the_judgement(
            x.step(clean_possible, dirty_possible, now),
            clean_possible,
            dirty_possible,
            now,
        );
    }
}

/// Nor does claiming what was put off.
proof fn lemma_deferred_keeps_the_judgement(x: SweepModel, from: nat, now: u64)
    ensures
        same_judgement(x, x.claimed_deferred(from, now)),
    decreases x.deferred.len() - from,
{
    if !(from >= x.deferred.len() || x.m.records.len() >= x.m.cfg.max_concurrent_evictions
        || !x.m.more_needed(x.s) || !x.m.dirty_allowed(x.s, now)) {
        lemma_deferred_keeps_the_judgement(
            x.with_claim(x.deferred[from as int], Kind::Dirty, now),
            from + 1,
            now,
        );
    }
}

/// After a tick the device is under pressure whenever its resident stripes take
/// more than the ceiling, and whenever the filesystem last had less space than
/// is to be kept; and guest writes are not let through whenever the stripes take
/// more than the margin above the ceiling, or less than half of that space is
/// free.
pub proof fn law_a_tick_judges_the_space(
    t: TickModel,
    outcomes: Seq<PersistOutcome>,
    inputs: TickInputs,
    now: u64,
)
    requires
        ({
            let after = t.ticked(outcomes, inputs, now);
            &&& after.m.cfg.stripe_sector_count * 512 <= u64::MAX
            &&& after.m.cfg.max_local_bytes + after.m.cfg.hard_margin_bytes < u64::MAX
        }),
    ensures
        ({
            let after = t.ticked(outcomes, inputs, now);
            let used = after.s.resident * (after.m.cfg.stripe_sector_count * 512);
            &&& used > after.m.cfg.max_local_bytes ==> after.m.pressed
            &&& after.m.free_bytes matches Some(free) ==> (free < after.m.cfg.min_free_bytes
                ==> after.m.pressed)
            &&& used > after.m.cfg.max_local_bytes + after.m.cfg.hard_margin_bytes ==> after.s.gate
                != GATE_OPEN
            &&& after.m.free_bytes matches Some(free) ==> (2 * (free + 1)
                <= after.m.cfg.min_free_bytes ==> after.s.gate != GATE_OPEN)
        }),
{
    let judged = t.after_reads(outcomes, inputs, now).store_polled(inputs.puts, now).advanced(
        inputs.submits,
        now,
    ).headers_retried(now).expired(now);
    let assessed = judged.assessed();
    let after = assessed.selected(now);
    assert(after == t.ticked(outcomes, inputs, now));
    reveal(TickModel::assessed);
    reveal(TickModel::selected);
    let start = SweepModel {
        m: assessed.m,
        s: assessed.s,
        deferred: Seq::empty(),
        examined: 0,
        claimed: 0,
    };
    let clean_possible = assessed.m.clean_possible(assessed.s);
    let dirty_possible = assessed.m.dirty_allowed(assessed.s, now);
    lemma_swept_keeps_the_judgement(start, clean_possible, dirty_possible, now);
    lemma_deferred_keeps_the_judgement(
        start.swept(clean_possible, dirty_possible, now),
        0,
        now,
    );
    assert(assessed.m.cfg == judged.m.cfg && after.m.cfg == judged.m.cfg);
    law_a_device_over_its_limits_is_under_pressure(judged.m, judged.s);
    law_the_write_gate_follows_the_space_left(judged.m, judged.s);
}

/// The hand looks at one stripe after the other for as long as its batch is not
/// over, there is room for another eviction and need of one; and stops then.
pub proof fn law_how_far_the_hand_goes(
    x: SweepModel,
    clean_possible: bool,
    dirty_possible: bool,
    now: u64,
)
    requires
        x.examined <= x.m.cfg.sweep_batch,
    ensures
        x.swept(clean_possible, dirty_possible, now) == if x.examined < x.m.cfg.sweep_batch
            && x.m.records.len() < x.m.cfg.max_concurrent_evictions && x.m.more_needed(x.s) {
            x.step(clean_possible, dirty_possible, now).swept(clean_possible, dirty_possible, now)
        } else {
            x
        },
        ({
            let start = SweepModel {
                m: x.m,
                s: x.s,
                deferred: Seq::empty(),
                examined: 0,
                claimed: 0,
            };
            x.m.sweep(x.s, now) == start.swept(
                x.m.cfg.clean_eviction && x.s.live,
                x.m.dirty_allowed(x.s, now),
                now,
            ).claimed_deferred(0, now)
        }),
{
}

} // verus!
