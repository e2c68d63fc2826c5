//! The way of a header byte to the disk, step by step.

use vstd::prelude::*;
use crate::io::{Answer, IoCall};
use crate::metadata::layout_laws::law_a_header_sector_holds_its_group;
use crate::metadata::shared_state::StateModel;
use crate::metadata::types::sector_of;
use crate::metadata_flusher::{
    after_finished, lemma_carrying, lemma_rides_alone, lemma_start_one_shorter, next_header,
    poll_calls, poll_outcome, polled, riding, start_calls, start_outcome, state_after_finished,
    write_ids, FinishedUpdate, FlusherModel, HeaderUpdateStatus, PersistOutcome, PersistResult,
    PollModel, RequestStage, RidingUpdate,
};

verus! {

/// A request leaves each bit it clears clear, each other bit it sets set, and
/// all the rest as they were.
pub proof fn law_a_request_changes_the_bits_it_names(previous: u8, set: u8, clear: u8, bit: u8)
    requires
        bit == 0x01 || bit == 0x02 || bit == 0x04 || bit == 0x08 || bit == 0x10 || bit == 0x20
            || bit == 0x40 || bit == 0x80,
    ensures
        next_header(previous, set, clear) & bit == if clear & bit != 0 {
            0
        } else if set & bit != 0 {
            bit
        } else {
            previous & bit
        },
{
    assert(bit == 0x01 || bit == 0x02 || bit == 0x04 || bit == 0x08 || bit == 0x10 || bit == 0x20
        || bit == 0x40 || bit == 0x80 ==> ((previous | set) & !clear) & bit == if clear & bit
        != 0 {
        0
    } else if set & bit != 0 {
        bit
    } else {
        previous & bit
    }) by (bit_vector);
}

/// The next request of which no outcome is awaited is written, in the sector of
/// its stripe, whose other header bytes are as they were, unless the byte
/// already is as requested: then it is dropped.
pub proof fn law_the_next_request_is_written(m: FlusherModel)
    requires
        m.wf(),
        m.queue.len() > 0,
        m.free > 0,
        m.queue[0].token == 0,
        !m.sectors.contains((1 + m.queue[0].stripe_id as int / 508) as u64),
        m.headers.len() <= usize::MAX,
    ensures
        ({
            let r = m.queue[0];
            let id = r.stripe_id as int;
            let g = id / 508;
            let previous = m.headers[id];
            let next = (previous | r.set) & !r.clear;
            let after = m.after_start_one();
            let write = m.write_started();
            &&& m.can_start()
            &&& after.queue == m.queue.drop_first()
            &&& after.outcomes == m.outcomes
            &&& m.starts_write() == (next != previous)
            &&& next == previous ==> after.headers == m.headers && after.updates == m.updates
                && after.sectors == m.sectors && after.free == m.free
            &&& next != previous ==> {
                &&& after.headers == m.headers.update(id, next)
                &&& after.sectors == m.sectors.insert((1 + g) as u64)
                &&& after.updates == m.updates.insert(
                    r.stripe_id,
                    HeaderUpdateStatus {
                        stage: RequestStage::Writing,
                        stripe_id: r.stripe_id,
                        header: next,
                        previous,
                        token: 0,
                        sector: (1 + g) as u64,
                    },
                )
                &&& after.free == m.free - 1
                &&& after.riders == m.riders
                &&& write.sector == 1 + g && write.stripe_id == r.stripe_id
                &&& write.data.len() == 512
                &&& write.data[id % 508] == next
                &&& forall|k: int|
                    0 <= k < 508 && k != id % 508 && g * 508 + k < m.headers.len() ==> (
                    #[trigger] write.data[k]) == m.headers[g * 508 + k]
            }
        }),
{
    let r = m.queue[0];
    let id = r.stripe_id as int;
    assert(r.stripe_id < m.headers.len());
    assert(sector_of(id) == 1 + id / 508);
    lemma_rides_alone(m.queue, m.queue.len());
    assert(m.queue.subrange(1, m.queue.len() as int) =~= m.queue.drop_first());
    let after = m.after_start_one();
    lemma_carrying(m.led(), riding(m.queue, m.queue.len()));
    law_a_header_sector_holds_its_group(after.headers, id);
}

/// The next request whose outcome is awaited is written even where the byte
/// already is as requested, and noted under its token.
pub proof fn law_the_next_awaited_request_is_written(m: FlusherModel)
    requires
        m.wf(),
        m.queue.len() > 0,
        m.free > 0,
        m.queue[0].token != 0,
        !m.sectors.contains((1 + m.queue[0].stripe_id as int / 508) as u64),
        m.headers.len() <= usize::MAX,
    ensures
        ({
            let r = m.queue[0];
            let id = r.stripe_id as int;
            let next = (m.headers[id] | r.set) & !r.clear;
            let after = m.after_start_one();
            &&& m.can_start() && m.starts_write()
            &&& after.updates == m.updates.insert(
                r.stripe_id,
                HeaderUpdateStatus {
                    stage: RequestStage::Writing,
                    stripe_id: r.stripe_id,
                    header: next,
                    previous: m.headers[id],
                    token: r.token,
                    sector: (1 + id / 508) as u64,
                },
            )
            &&& after.free == m.free - 1
            &&& after.outcomes == m.outcomes
            &&& m.write_started().sector == 1 + id / 508
            &&& m.write_started().stripe_id == r.stripe_id
        }),
{
    assert(sector_of(m.queue[0].stripe_id as int) == 1 + m.queue[0].stripe_id as int / 508);
    lemma_carrying(m.led(), riding(m.queue, m.queue.len()));
}

/// Requests start until none is left, no buffer is free, or the sector of the
/// next one is already on its way.
pub proof fn law_requests_start_until_one_cannot(m: FlusherModel)
    ensures
        ({
            let after = m.after_start_writes();
            ||| after.queue.len() == 0
            ||| after.free == 0
            ||| after.sectors.contains((1 + after.queue[0].stripe_id as int / 508) as u64)
        }),
    decreases m.queue.len(),
{
    if m.can_start() {
        lemma_start_one_shorter(m);
        law_requests_start_until_one_cannot(m.after_start_one());
    }
}

/// Every sector that starts is handed to the metadata device, in order, each in
/// one write of its own, and all of them in one hand-over; without any, the
/// device is not asked.
pub proof fn law_started_sectors_are_handed_over(m: FlusherModel, started: Answer)
    ensures
        ({
            let writes = m.writes_started();
            let calls = start_calls(m, started);
            if writes.len() == 0 {
                calls == Seq::<IoCall<Seq<u8>>>::empty()
            } else {
                &&& calls.len() == writes.len() + 1
                &&& calls.last() == IoCall::<Seq<u8>>::Submit { result: started }
                &&& forall|k: int|
                    0 <= k < writes.len() ==> (#[trigger] calls[k]) == (IoCall::Write {
                        sector_offset: writes[k].sector,
                        sector_count: 1,
                        buf: writes[k].data,
                        id: writes[k].stripe_id,
                    })
            }
        }),
        m.can_start() && m.starts_write() ==> m.writes_started().len() > 0 && m.writes_started()[0]
            == m.write_started(),
{
    if m.can_start() {
        lemma_start_one_shorter(m);
    }
}

/// A header byte that is on its way: its write done, it is to be flushed, and
/// its buffer is free; its flush done, it is on disk, and its sector is free.
pub proof fn law_a_written_header_is_flushed_and_then_done(p: PollModel, id: usize)
    requires
        p.m.updates.contains_key(id),
    ensures
        ({
            let u = p.m.updates[id];
            let after = p.step(id, true);
            &&& u.stage == RequestStage::Writing ==> {
                &&& after.flushing == p.flushing.push(id)
                &&& after.finished == p.finished
                &&& after.m.updates == p.m.updates.insert(
                    id,
                    HeaderUpdateStatus { stage: RequestStage::Flushing, ..u },
                )
                &&& after.m.free == p.m.free + 1
                &&& after.m.headers == p.m.headers && after.m.sectors == p.m.sectors
                &&& after.m.outcomes == p.m.outcomes
            }
            &&& u.stage == RequestStage::Flushing ==> {
                &&& after.flushing == p.flushing
                &&& p.finished.is_prefix_of(after.finished)
                &&& after.finished.len() > p.finished.len()
                &&& after.finished[p.finished.len() as int] == (FinishedUpdate {
                    stripe_id: u.stripe_id,
                    header: u.header,
                    token: u.token,
                })
                &&& after.m.sectors == p.m.sectors.remove(u.sector)
                &&& after.m.headers == p.m.headers && after.m.free == p.m.free
            }
        }),
{
}

/// What goes to disk with a sector is on disk with it: each such update is
/// listed once the flush is done, and none of another sector.
pub proof fn law_a_flushed_sector_carries_what_went_along(p: PollModel, id: usize, k: int)
    requires
        p.m.updates.contains_key(id),
        p.m.updates[id].stage == RequestStage::Flushing,
        0 <= k < p.m.riders.len(),
        p.m.riders[k].sector == p.m.updates[id].sector,
    ensures
        p.step(id, true).finished.contains(
            FinishedUpdate {
                stripe_id: p.m.riders[k].stripe_id,
                header: p.m.riders[k].header,
                token: p.m.riders[k].token,
            },
        ),
{
    let sector = p.m.updates[id].sector;
    lemma_aboard_contains(p.m.riders, sector, k);
    let along = crate::metadata_flusher::aboard(p.m.riders, sector);
    let j = along.index_of(p.m.riders[k]);
    let all = p.step(id, true).finished;
    let at = p.finished.len() + 1 + j;
    assert(all[at] == crate::metadata_flusher::landed(along)[j]);
}

/// An update for the sector is among those for the sector.
proof fn lemma_aboard_contains(riders: Seq<RidingUpdate>, sector: u64, k: int)
    requires
        0 <= k < riders.len(),
        riders[k].sector == sector,
    ensures
        crate::metadata_flusher::aboard(riders, sector).contains(riders[k]),
    decreases riders.len(),
{
    reveal(Seq::filter);
    let all = crate::metadata_flusher::aboard(riders, sector);
    let front = crate::metadata_flusher::aboard(riders.drop_last(), sector);
    if k < riders.len() - 1 {
        lemma_aboard_contains(riders.drop_last(), sector, k);
        let j = front.index_of(riders[k]);
        assert(all[j] == riders[k]);
    } else {
        assert(all[all.len() - 1] == riders[k]);
    }
}

/// A header byte whose write failed is what it was, on disk and in memory, and
/// whoever awaits it is told so; one whose flush failed may be either, and is
/// kept as it is to be if somebody awaits it.
pub proof fn law_a_failed_header_update_is_told(p: PollModel, id: usize)
    requires
        p.m.wf(),
        p.m.updates.contains_key(id),
        forall|k: int|
            0 <= k < p.m.riders.len() ==> (#[trigger] p.m.riders[k]).sector
                != p.m.updates[id].sector,
    ensures
        ({
            let u = p.m.updates[id];
            let after = p.step(id, false).m;
            let old_byte = p.m.headers.update(id as int, u.previous);
            &&& after.headers == if u.stage == RequestStage::Writing || u.token == 0 {
                old_byte
            } else {
                p.m.headers
            }
            &&& after.outcomes == if u.token == 0 {
                p.m.outcomes
            } else {
                p.m.outcomes.push(
                    PersistOutcome {
                        stripe_id: id,
                        token: u.token,
                        result: if u.stage == RequestStage::Writing {
                            PersistResult::NotWritten
                        } else {
                            PersistResult::Uncertain
                        },
                    },
                )
            }
            &&& !after.updates.contains_key(id)
            &&& after.sectors == p.m.sectors.remove(u.sector)
            &&& after.free == p.m.free + if u.stage == RequestStage::Writing {
                1nat
            } else {
                0nat
            }
        }),
{
    let u = p.m.updates[id];
    assert(p.m.update_ok(id));
    lemma_none_aboard(p.m.riders, u.sector);
}

/// No update is for a sector that none is for.
proof fn lemma_none_aboard(riders: Seq<RidingUpdate>, sector: u64)
    requires
        forall|k: int| 0 <= k < riders.len() ==> (#[trigger] riders[k]).sector != sector,
    ensures
        crate::metadata_flusher::aboard(riders, sector) == Seq::<RidingUpdate>::empty(),
    decreases riders.len(),
{
    reveal(Seq::filter);
    if riders.len() > 0 {
        assert forall|k: int| 0 <= k < riders.drop_last().len() implies (
        #[trigger] riders.drop_last()[k]).sector != sector by {
            assert(riders[k].sector != sector);
        }
        lemma_none_aboard(riders.drop_last(), sector);
        assert(riders[riders.len() - 1].sector != sector);
    }
}

/// An update on disk leaves the flusher; whoever awaits it is told that it is
/// durable; and the shared state takes its byte over.
pub proof fn law_an_update_on_disk_is_told_and_takes_effect(
    m: FlusherModel,
    s: StateModel,
    finished: Seq<FinishedUpdate>,
)
    requires
        finished.len() > 0,
    ensures
        ({
            let f = finished.last();
            let before = after_finished(m, finished.drop_last());
            let after = after_finished(m, finished);
            &&& after.updates == before.updates.remove(f.stripe_id)
            &&& after.outcomes == if f.token == 0 {
                before.outcomes
            } else {
                before.outcomes.push(
                    PersistOutcome {
                        stripe_id: f.stripe_id,
                        token: f.token,
                        result: PersistResult::Durable,
                    },
                )
            }
            &&& after.headers == before.headers
            &&& state_after_finished(s, finished) == state_after_finished(
                s,
                finished.drop_last(),
            ).after_set_header(f.stripe_id as int, f.header)
        }),
{
}

/// Every write that is done is flushed in the same poll, all flushes in one
/// hand-over.
pub proof fn law_done_writes_are_flushed(
    m: FlusherModel,
    completions: Seq<(usize, bool)>,
    flushed: Answer,
)
    ensures
        ({
            let ids = polled(m, completions).flushing;
            let calls = poll_calls(m, completions, flushed);
            &&& calls[0] == IoCall::<Seq<u8>>::Poll { done: completions }
            &&& ids.len() == 0 ==> calls.len() == 1
            &&& ids.len() > 0 ==> {
                &&& calls.len() == ids.len() + 2
                &&& forall|k: int|
                    0 <= k < ids.len() ==> (#[trigger] calls[k + 1]) == (IoCall::<
                        Seq<u8>,
                    >::Flush { id: ids[k] })
                &&& calls.last() == IoCall::<Seq<u8>>::Submit { result: flushed }
            }
        }),
{
}

/// Completions are worked through one by one, in order, none left out.
pub proof fn law_every_completion_is_worked_through(
    m: FlusherModel,
    completions: Seq<(usize, bool)>,
)
    requires
        completions.len() > 0,
    ensures
        polled(m, completions) == polled(m, completions.drop_last()).step(
            completions.last().0,
            completions.last().1,
        ),
        polled(m, Seq::empty()).m == m,
        polled(m, Seq::empty()).finished.len() == 0,
        polled(m, Seq::empty()).flushing.len() == 0,
{
}

/// Updates that could not be handed over fail one by one, each at the stage it
/// is in, and give their buffers back where they hold one.
pub proof fn law_updates_that_were_not_handed_over_fail(
    m: FlusherModel,
    ids: Seq<usize>,
    return_buffer: bool,
)
    requires
        ids.len() > 0,
    ensures
        ({
            let before = m.after_cleanup(ids.drop_last(), return_buffer);
            let after = m.after_cleanup(ids, return_buffer);
            let failed = before.after_failure(ids.last());
            if before.updates.contains_key(ids.last()) {
                &&& after.headers == failed.headers && after.outcomes == failed.outcomes
                &&& after.updates == failed.updates && after.sectors == failed.sectors
                &&& after.free == failed.free + if return_buffer {
                    1nat
                } else {
                    0nat
                }
            } else {
                after == before
            }
        }),
        m.after_cleanup(Seq::empty(), return_buffer) == m,
{
}

/// Failing touches no update but the one that fails.
proof fn lemma_riders_failed_frame(
    m: FlusherModel,
    riders: Seq<RidingUpdate>,
    stage: RequestStage,
)
    ensures
        m.after_riders_failed(riders, stage).updates == m.updates,
        m.after_riders_failed(riders, stage).sectors == m.sectors,
        m.after_riders_failed(riders, stage).queue == m.queue,
        m.after_riders_failed(riders, stage).free == m.free,
    decreases riders.len(),
{
    if riders.len() > 0 {
        lemma_riders_failed_frame(m, riders.drop_last(), stage);
    }
}

/// No update of the given stripes is left.
proof fn lemma_cleaned_up(m: FlusherModel, ids: Seq<usize>, return_buffer: bool)
    ensures
        forall|k: int|
            0 <= k < ids.len() ==> !m.after_cleanup(ids, return_buffer).updates.contains_key(
                #[trigger] ids[k],
            ),
        forall|id: usize| #[trigger]
            m.after_cleanup(ids, return_buffer).updates.contains_key(id)
                ==> m.updates.contains_key(id),
    decreases ids.len(),
{
    if ids.len() > 0 {
        let front = ids.drop_last();
        lemma_cleaned_up(m, front, return_buffer);
        let before = m.after_cleanup(front, return_buffer);
        let after = m.after_cleanup(ids, return_buffer);
        let id = ids.last();
        if before.updates.contains_key(id) {
            let u = before.updates[id];
            let along = crate::metadata_flusher::aboard(before.riders, u.sector);
            lemma_riders_failed_frame(before.without(id).after_not_written(u), along, u.stage);
            lemma_riders_failed_frame(before.without(id).after_uncertain(u), along, u.stage);
            assert(after.updates == before.updates.remove(id));
        }
        assert forall|k: int| 0 <= k < ids.len() implies !after.updates.contains_key(
            #[trigger] ids[k],
        ) by {
            if k < front.len() {
                assert(front[k] == ids[k]);
            }
        }
    }
}

/// If the metadata device refuses what was to be written or flushed, none of
/// those updates stays in flight: each has failed. If it takes it, they are on
/// their way.
pub proof fn law_a_refused_hand_over_leaves_nothing_in_flight(
    m: FlusherModel,
    completions: Seq<(usize, bool)>,
    k: int,
)
    ensures
        0 <= k < m.writes_started().len() ==> !start_outcome(m, false).updates.contains_key(
            m.writes_started()[k].stripe_id,
        ),
        start_outcome(m, true) == m.after_start_writes(),
        0 <= k < polled(m, completions).flushing.len() ==> !poll_outcome(
            m,
            completions,
            false,
        ).updates.contains_key(polled(m, completions).flushing[k]),
        poll_outcome(m, completions, true) == after_finished(
            polled(m, completions).m,
            polled(m, completions).finished,
        ),
{
    let ids = write_ids(m.writes_started());
    lemma_cleaned_up(m.after_start_writes(), ids, true);
    if 0 <= k < m.writes_started().len() {
        assert(ids[k] == m.writes_started()[k].stripe_id);
    }
    let p = polled(m, completions);
    lemma_cleaned_up(after_finished(p.m, p.finished), p.flushing, false);
}

} // verus!
