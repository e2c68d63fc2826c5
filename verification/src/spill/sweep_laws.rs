//! What a whole sweep of the hand claims, and what it leaves alone.

use vstd::prelude::*;
use vstd::arithmetic::div_mod::lemma_add_mod_noop_right;
use crate::metadata::shared_state::{Evicting, StateModel};
use crate::metadata::stripe_flags;
use crate::metadata::stripe_flags::{lemma_bits_distinct, lemma_clear_bits};
use crate::spill::evictor_model::{skipped, Eviction, EvictorModel, Kind, Stage, SweepModel};

verus! {

/// The hand may claim the stripe: it occupies local blocks, it was not just
/// asked for, and there is a store for it unless it can be dropped clean.
pub open spec fn may_be_claimed(m: EvictorModel, s: StateModel, id: usize) -> bool {
    &&& s.is_resident(id as int)
    &&& !skipped(m.recent, id)
    &&& m.clean(s, id as int) || m.has_store
}

/// The kind of eviction that suits the stripe.
pub open spec fn fitting_kind(m: EvictorModel, s: StateModel, id: usize) -> Kind {
    if m.clean(s, id as int) {
        Kind::Clean
    } else {
        Kind::Dirty
    }
}

/// A record is of a stripe that a sweep from `m` and `s` claimed.
pub open spec fn claimed_by_sweep(m: EvictorModel, s: StateModel, r: Eviction, now: u64) -> bool {
    &&& r.stripe_id < s.fetch.len()
    &&& may_be_claimed(m, s, r.stripe_id)
    &&& r.kind == fitting_kind(m, s, r.stripe_id)
    &&& r.previous == s.fetch[r.stripe_id as int]
    &&& r.stage == Stage::Draining
    &&& r.started == now
    &&& !r.committed && !r.aborted
}

/// `id` has a record among those from number `from` on.
pub open spec fn recorded_from(records: Seq<Eviction>, from: int, id: int) -> bool {
    exists|k: int| from <= k < records.len() && (#[trigger] records[k]).stripe_id == id
}

/// What a sweep from `m` and `s` has done so far.
pub open spec fn sweeping(m: EvictorModel, s: StateModel, x: SweepModel, now: u64) -> bool {
    let n = s.fetch.len();
    let old_records = m.records.len() as int;
    &&& x.m.cfg == m.cfg
    &&& x.m.recent == m.recent
    &&& x.m.has_store == m.has_store
    &&& x.s.fetch.len() == n
    &&& x.s.flags.len() == n
    &&& x.s.write == s.write
    &&& x.s.live == s.live
    &&& x.examined <= m.cfg.sweep_batch
    &&& x.m.hand == (m.hand + x.examined) % n as int
    &&& x.m.records.len() <= m.cfg.max_concurrent_evictions
    &&& m.records.is_prefix_of(x.m.records)
    &&& forall|i: int|
        0 <= i < n ==> (#[trigger] x.s.flags[i]) == s.flags[i] || x.s.flags[i] == s.flags[i]
            & !stripe_flags::REFERENCED
    &&& forall|k: int|
        old_records <= k < x.m.records.len() ==> claimed_by_sweep(
            m,
            s,
            #[trigger] x.m.records[k],
            now,
        ) && x.s.fetch[x.m.records[k].stripe_id as int] == Evicting && !x.s.flag(
            x.m.records[k].stripe_id as int,
            stripe_flags::REFERENCED,
        )
    &&& forall|i: int|
        0 <= i < n ==> (#[trigger] x.s.fetch[i]) == s.fetch[i] || (x.s.fetch[i] == Evicting
            && recorded_from(x.m.records, old_records, i))
    &&& forall|k: int|
        0 <= k < x.deferred.len() ==> {
            let id = #[trigger] x.deferred[k];
            &&& id < n
            &&& may_be_claimed(m, s, id)
            &&& !m.clean(s, id as int)
            &&& !x.s.flag(id as int, stripe_flags::REFERENCED)
        }
}

/// Taking a reference bit makes no stripe clean or dirty.
proof fn lemma_same_cleanliness(m: EvictorModel, s: StateModel, x: SweepModel, now: u64, id: int)
    requires
        sweeping(m, s, x, now),
        0 <= id < s.fetch.len(),
    ensures
        x.m.clean(x.s, id) == m.clean(s, id),
{
    lemma_bits_distinct();
    let f = s.flags[id];
    lemma_clear_bits(f, stripe_flags::REFERENCED, stripe_flags::PUSHED);
    lemma_clear_bits(f, stripe_flags::REFERENCED, stripe_flags::IN_S3);
    lemma_clear_bits(f, stripe_flags::REFERENCED, stripe_flags::HAS_SOURCE);
    lemma_clear_bits(f, stripe_flags::REFERENCED, stripe_flags::FETCHED_LIVE);
    assert(x.s.flags[id] == f || x.s.flags[id] == f & !stripe_flags::REFERENCED);
}

/// A claim keeps what a sweep promises.
proof fn lemma_claim_sweeping(
    m: EvictorModel,
    s: StateModel,
    x: SweepModel,
    id: usize,
    kind: Kind,
    now: u64,
)
    requires
        sweeping(m, s, x, now),
        s.wf(),
        id < s.fetch.len(),
        x.m.records.len() < m.cfg.max_concurrent_evictions,
        may_be_claimed(m, s, id),
        kind == fitting_kind(m, s, id),
        !x.s.flag(id as int, stripe_flags::REFERENCED),
    ensures
        sweeping(m, s, x.with_claim(id, kind, now), now),
{
    let y = x.with_claim(id, kind, now);
    let old_records = m.records.len() as int;
    if x.s.claimable(id as int) {
        assert(x.s.fetch[id as int] == s.fetch[id as int] || x.s.fetch[id as int] == Evicting);
        let last = x.m.records.len() as int;
        assert(y.m.records[last].stripe_id == id);
        assert forall|k: int| 0 <= k < x.m.records.len() implies y.m.records[k]
            == x.m.records[k] by {}
        assert forall|k: int| old_records <= k < y.m.records.len() implies claimed_by_sweep(
            m,
            s,
            #[trigger] y.m.records[k],
            now,
        ) && y.s.fetch[y.m.records[k].stripe_id as int] == Evicting && !y.s.flag(
            y.m.records[k].stripe_id as int,
            stripe_flags::REFERENCED,
        ) by {
            if k < last {
                assert(claimed_by_sweep(m, s, x.m.records[k], now));
            }
        }
        assert forall|i: int| 0 <= i < s.fetch.len() implies (#[trigger] y.s.fetch[i])
            == s.fetch[i] || (y.s.fetch[i] == Evicting && recorded_from(
            y.m.records,
            old_records,
            i,
        )) by {
            if i == id {
                assert(y.m.records[last].stripe_id == i);
            } else if x.s.fetch[i] != s.fetch[i] {
                let k = choose|k: int|
                    old_records <= k < x.m.records.len() && (
                    #[trigger] x.m.records[k]).stripe_id == i;
                assert(y.m.records[k].stripe_id == i);
            }
        }
    }
}

/// One step of the hand keeps what a sweep promises.
proof fn lemma_step_sweeping(
    m: EvictorModel,
    s: StateModel,
    x: SweepModel,
    clean_possible: bool,
    dirty_possible: bool,
    now: u64,
)
    requires
        sweeping(m, s, x, now),
        s.wf(),
        s.fetch.len() > 0,
        s.fetch.len() <= usize::MAX,
        x.goes_on(),
        dirty_possible ==> m.has_store,
    ensures
        sweeping(m, s, x.step(clean_possible, dirty_possible, now), now),
{
    let n = s.fetch.len();
    let id = x.m.hand;
    let on = x.moved(x.s.fetch.len());
    lemma_add_mod_noop_right(1, m.hand + x.examined, n as int);
    assert(on.m.hand == (m.hand + on.examined) % n as int);
    assert(id < n);
    assert(sweeping(m, s, on, now));
    let taken = on.unreferenced(id);
    lemma_bits_distinct();
    lemma_clear_bits(x.s.flags[id as int], stripe_flags::REFERENCED, stripe_flags::REFERENCED);
    lemma_clear_bits(
        s.flags[id as int] & !stripe_flags::REFERENCED,
        stripe_flags::REFERENCED,
        stripe_flags::REFERENCED,
    );
    let f = s.flags[id as int];
    assert((f & !0x40u8) & !0x40u8 == f & !0x40u8) by (bit_vector);
    assert(sweeping(m, s, taken, now)) by {
        assert forall|i: int| 0 <= i < n implies (#[trigger] taken.s.flags[i]) == s.flags[i]
            || taken.s.flags[i] == s.flags[i] & !stripe_flags::REFERENCED by {
            assert(x.s.flags[i] == s.flags[i] || x.s.flags[i] == s.flags[i]
                & !stripe_flags::REFERENCED);
        }
        assert forall|k: int| m.records.len() <= k < taken.m.records.len() implies claimed_by_sweep(
            m,
            s,
            #[trigger] taken.m.records[k],
            now,
        ) && taken.s.fetch[taken.m.records[k].stripe_id as int] == Evicting && !taken.s.flag(
            taken.m.records[k].stripe_id as int,
            stripe_flags::REFERENCED,
        ) by {
            assert(claimed_by_sweep(m, s, x.m.records[k], now));
        }
    }
    lemma_same_cleanliness(m, s, x, now, id as int);
    if !(x.m.tracks(id) || skipped(x.m.recent, id) || !x.s.is_resident(id as int)) {
        assert(x.s.fetch[id as int] == s.fetch[id as int]);
        let clean = x.m.clean(x.s, id as int);
        if clean || dirty_possible {
            if clean {
                lemma_claim_sweeping(m, s, taken, id, Kind::Clean, now);
            } else {
                lemma_claim_sweeping(m, s, taken, id, Kind::Dirty, now);
                let put_off = SweepModel { deferred: taken.deferred.push(id), ..taken };
                assert(sweeping(m, s, put_off, now));
            }
        }
    }
}

/// The hand, for as long as it goes on.
proof fn lemma_swept(
    m: EvictorModel,
    s: StateModel,
    x: SweepModel,
    clean_possible: bool,
    dirty_possible: bool,
    now: u64,
)
    requires
        sweeping(m, s, x, now),
        s.wf(),
        s.fetch.len() > 0,
        s.fetch.len() <= usize::MAX,
        dirty_possible ==> m.has_store,
    ensures
        sweeping(m, s, x.swept(clean_possible, dirty_possible, now), now),
    decreases m.cfg.sweep_batch - x.examined,
{
    if x.goes_on() {
        lemma_step_sweeping(m, s, x, clean_possible, dirty_possible, now);
        lemma_swept(
            m,
            s,
            x.step(clean_possible, dirty_possible, now),
            clean_possible,
            dirty_possible,
            now,
        );
    }
}

/// The candidates that were put off.
proof fn lemma_claimed_deferred(
    m: EvictorModel,
    s: StateModel,
    x: SweepModel,
    from: nat,
    now: u64,
)
    requires
        sweeping(m, s, x, now),
        s.wf(),
    ensures
        sweeping(m, s, x.claimed_deferred(from, now), now),
    decreases x.deferred.len() - from,
{
    if !(from >= x.deferred.len() || x.m.records.len() >= x.m.cfg.max_concurrent_evictions
        || !x.m.more_needed(x.s) || !x.m.dirty_allowed(x.s, now)) {
        let id = x.deferred[from as int];
        lemma_claim_sweeping(m, s, x, id, Kind::Dirty, now);
        lemma_claimed_deferred(m, s, x.with_claim(id, Kind::Dirty, now), from + 1, now);
    }
}

/// A sweep, the candidates it puts off included, newly claims only stripes
/// that occupy local blocks and were not just asked for, whose reference bit is
/// clear by then, and for which there is a store unless they can be dropped
/// clean; each gets a record of the fitting kind. It claims none without
/// pressure or where holes cannot be punched. It leaves every other stripe's
/// state, all records there were and what was written, has no more evictions
/// in progress than are allowed, and moves the hand by at most its batch.
pub proof fn law_a_sweep_claims_only_cold_resident_stripes(
    m: EvictorModel,
    s: StateModel,
    now: u64,
)
    requires
        m.wf(s.fetch.len()),
        s.wf(),
        s.fetch.len() <= usize::MAX,
        m.records.len() <= m.cfg.max_concurrent_evictions,
    ensures
        ({
            let m2 = m.after_select(s, now);
            let s2 = m.state_after_select(s, now);
            let n = s.fetch.len();
            &&& forall|i: int|
                0 <= i < n && (#[trigger] s2.fetch[i]) != s.fetch[i] ==> {
                    &&& s2.fetch[i] == Evicting
                    &&& m.pressed && m.punch_supported
                    &&& may_be_claimed(m, s, i as usize)
                    &&& !s2.flag(i, stripe_flags::REFERENCED)
                    &&& recorded_from(m2.records, m.records.len() as int, i)
                }
            &&& m.records.is_prefix_of(m2.records)
            &&& forall|k: int|
                m.records.len() <= k < m2.records.len() ==> claimed_by_sweep(
                    m,
                    s,
                    #[trigger] m2.records[k],
                    now,
                )
            &&& m2.records.len() <= m.cfg.max_concurrent_evictions
            &&& s2.write == s.write
            &&& n > 0 ==> exists|moved: nat|
                moved <= m.cfg.sweep_batch && m2.hand == #[trigger] (m.hand + moved) % n as int
        }),
{
    let n = s.fetch.len();
    if m.sweeps(s, now) {
        let start = SweepModel { m, s, deferred: Seq::empty(), examined: 0, claimed: 0 };
        assert(m.hand == (m.hand + 0) % n as int) by {
            vstd::arithmetic::div_mod::lemma_small_mod(m.hand as nat, n);
        }
        assert(sweeping(m, s, start, now));
        lemma_swept(m, s, start, m.clean_possible(s), m.dirty_allowed(s, now), now);
        let end = start.swept(m.clean_possible(s), m.dirty_allowed(s, now), now);
        lemma_claimed_deferred(m, s, end, 0, now);
        let x = m.sweep(s, now);
        assert(sweeping(m, s, x, now));
        let m2 = m.after_select(s, now);
        assert(m2.records == x.m.records && m2.hand == x.m.hand);
        assert forall|i: int| 0 <= i < n && (#[trigger] x.s.fetch[i]) != s.fetch[i] implies {
            &&& x.s.fetch[i] == Evicting
            &&& may_be_claimed(m, s, i as usize)
            &&& !x.s.flag(i, stripe_flags::REFERENCED)
            &&& recorded_from(m2.records, m.records.len() as int, i)
        } by {
            let k = choose|k: int|
                m.records.len() <= k < x.m.records.len() && (
                #[trigger] x.m.records[k]).stripe_id == i;
            assert(claimed_by_sweep(m, s, x.m.records[k], now));
        }
        let moved = x.examined;
        assert(m2.hand == (m.hand + moved) % n as int);
    } else if n > 0 {
        vstd::arithmetic::div_mod::lemma_small_mod(m.hand as nat, n);
        assert(m.hand == (m.hand + 0nat) % n as int);
    }
}

} // verus!
