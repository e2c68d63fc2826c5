//! What the flusher promises about the bytes on disk.

use vstd::prelude::*;
use crate::metadata::metadata_flags;
use crate::metadata::load::{
    law_load_gives_back_what_save_wrote, lemma_groups_image_sector, loadable,
};
use crate::metadata::save::lemma_groups_image_len;
use crate::metadata::types::{
    group_count, group_headers, groups_image, lemma_sector_image_intact, sector_image, sector_of,
    UbiMetadata,
};
use crate::metadata_flusher::{
    aboard, after_finished, is_rider, landed, lemma_carrying, lemma_failure, lemma_picked,
    lemma_rides_alone, lemma_riding_apart, lemma_start_one, lemma_start_one_wf, lemma_staying,
    next_header, others, poll_outcome, polled, rides, riding, staying, FinishedUpdate, FlusherModel,
    MetadataFlusherRequest, PersistOutcome, PersistResult, PollModel, RequestStage, RidingUpdate,
};
use crate::SECTOR_SIZE;

verus! {

/// At most one write per metadata sector is in flight.
pub proof fn law_one_update_per_sector(m: FlusherModel, a: usize, b: usize)
    requires
        m.wf(),
        m.updates.dom().contains(a),
        m.updates.dom().contains(b),
        a != b,
    ensures
        m.updates[a].sector != m.updates[b].sector,
        sector_of(a as int) != sector_of(b as int),
{
    assert(m.update_ok(a));
    assert(m.update_ok(b));
}

/// The header byte says at most one of FETCHED and EVICTED.
pub open spec fn sound_header(header: u8) -> bool {
    header & metadata_flags::FETCHED == 0 || header & metadata_flags::EVICTED == 0
}

/// A request that sets one of FETCHED and EVICTED clears the other.
pub open spec fn sound_request(set: u8, clear: u8) -> bool {
    &&& set & metadata_flags::FETCHED != 0 ==> clear & metadata_flags::EVICTED != 0
    &&& set & metadata_flags::EVICTED != 0 ==> clear & metadata_flags::FETCHED != 0
}

/// FETCHED and EVICTED never both reach disk: requests that set one and clear
/// the other keep every header byte sound.
pub proof fn law_fetched_and_evicted_never_meet(previous: u8, set: u8, clear: u8)
    requires
        sound_header(previous),
        sound_request(set, clear),
    ensures
        sound_header(next_header(previous, set, clear)),
{
    assert((previous & 0x01 == 0 || previous & 0x08 == 0) && (set & 0x01 != 0 ==> clear & 0x08 != 0)
        && (set & 0x08 != 0 ==> clear & 0x01 != 0) ==> (((previous | set) & !clear) & 0x01 == 0 || ((
    previous | set) & !clear) & 0x08 == 0)) by (bit_vector);
}

/// Landing a stripe clears EVICTED whatever the byte said before.
pub proof fn law_set_fetched_clears_evicted(previous: u8)
    ensures
        next_header(previous, metadata_flags::FETCHED, metadata_flags::EVICTED)
            & metadata_flags::FETCHED != 0,
        next_header(previous, metadata_flags::FETCHED, metadata_flags::EVICTED)
            & metadata_flags::EVICTED == 0,
{
    assert(((previous | 0x01) & !0x08u8) & 0x01 != 0 && ((previous | 0x01) & !0x08u8) & 0x08 == 0)
        by (bit_vector);
}

/// A tokened request is written even when the byte already is as requested;
/// one without a token is not.
pub proof fn law_only_untokened_requests_are_skipped(m: FlusherModel)
    requires
        m.wf(),
        m.can_start(),
    ensures
        m.queue[0].token != 0 ==> m.starts_write(),
        m.queue[0].token == 0 && next_header(
            m.headers[m.queue[0].stripe_id as int],
            m.queue[0].set,
            m.queue[0].clear,
        ) == m.headers[m.queue[0].stripe_id as int] ==> m.after_start_one().headers == m.headers
            && m.after_start_one().updates == m.updates,
{
}

/// The next request and those that go to disk with it.
pub open spec fn batch(queue: Seq<MetadataFlusherRequest>) -> Seq<MetadataFlusherRequest> {
    seq![queue[0]] + riding(queue, queue.len())
}

/// One outcome for each request.
pub open spec fn answers(
    reqs: Seq<MetadataFlusherRequest>,
    result: PersistResult,
) -> Seq<PersistOutcome> {
    Seq::new(
        reqs.len(),
        |i: int| PersistOutcome { stripe_id: reqs[i].stripe_id, token: reqs[i].token, result },
    )
}

/// One outcome for each update that went along with another.
pub open spec fn rider_answers(
    riders: Seq<RidingUpdate>,
    result: PersistResult,
) -> Seq<PersistOutcome> {
    Seq::new(
        riders.len(),
        |i: int|
            PersistOutcome { stripe_id: riders[i].stripe_id, token: riders[i].token, result },
    )
}

/// Which bytes change when requests go along with another.
proof fn lemma_carried_bytes(m: FlusherModel, reqs: Seq<MetadataFlusherRequest>)
    requires
        forall|k: int| 0 <= k < reqs.len() ==> (#[trigger] reqs[k]).stripe_id < m.headers.len(),
        forall|j: int, k: int|
            0 <= j < k < reqs.len() ==> (#[trigger] reqs[j]).stripe_id != (
            #[trigger] reqs[k]).stripe_id,
    ensures
        ({
            let n = m.carrying(reqs);
            &&& n.headers.len() == m.headers.len()
            &&& forall|k: int|
                0 <= k < reqs.len() ==> {
                    let r = #[trigger] reqs[k];
                    let rider = n.riders[m.riders.len() + k];
                    &&& n.headers[r.stripe_id as int] == next_header(
                        m.headers[r.stripe_id as int],
                        r.set,
                        r.clear,
                    )
                    &&& rider.previous == m.headers[r.stripe_id as int]
                }
            &&& forall|i: int|
                0 <= i < m.headers.len() && (forall|k: int|
                    0 <= k < reqs.len() ==> (#[trigger] reqs[k]).stripe_id != i)
                    ==> #[trigger] n.headers[i] == m.headers[i]
        }),
    decreases reqs.len(),
{
    lemma_carrying(m, reqs);
    if reqs.len() > 0 {
        let front = reqs.drop_last();
        let last = reqs.len() - 1;
        assert(forall|k: int| 0 <= k < front.len() ==> front[k] == reqs[k]);
        lemma_carried_bytes(m, front);
        lemma_carrying(m, front);
        let before = m.carrying(front);
        let n = m.carrying(reqs);
        assert(reqs.last() == reqs[last]);
        assert forall|k: int| 0 <= k < front.len() implies (#[trigger] front[k]).stripe_id
            != reqs[last].stripe_id by {
            assert(reqs[k].stripe_id != reqs[last].stripe_id);
        }
        assert(before.headers[reqs[last].stripe_id as int]
            == m.headers[reqs[last].stripe_id as int]);
        assert forall|k: int| 0 <= k < reqs.len() implies {
            let r = #[trigger] reqs[k];
            let rider = n.riders[m.riders.len() + k];
            &&& n.headers[r.stripe_id as int] == next_header(
                m.headers[r.stripe_id as int],
                r.set,
                r.clear,
            )
            &&& rider.previous == m.headers[r.stripe_id as int]
        } by {
            if k < last {
                assert(front[k] == reqs[k]);
                assert(n.riders[m.riders.len() + k] == before.riders[m.riders.len() + k]);
                assert(reqs[k].stripe_id != reqs[last].stripe_id);
            }
        }
        assert forall|i: int|
            0 <= i < m.headers.len() && (forall|k: int|
                0 <= k < reqs.len() ==> (#[trigger] reqs[k]).stripe_id
                    != i) implies #[trigger] n.headers[i] == m.headers[i] by {
            assert(reqs[last].stripe_id != i);
            assert(forall|k: int| 0 <= k < front.len() ==> (#[trigger] front[k]).stripe_id != i);
            assert(before.headers[i] == m.headers[i]);
        }
    }
}

/// What updates that fail along with another leave: old bytes where the write
/// failed, and one outcome each.
proof fn lemma_failed_bytes(m: FlusherModel, riders: Seq<RidingUpdate>, stage: RequestStage)
    requires
        forall|k: int|
            0 <= k < riders.len() ==> (#[trigger] riders[k]).stripe_id < m.headers.len()
                && riders[k].token != 0,
    ensures
        ({
            let n = m.after_riders_failed(riders, stage);
            let result = match stage {
                RequestStage::Writing => PersistResult::NotWritten,
                RequestStage::Flushing => PersistResult::Uncertain,
            };
            &&& n.headers.len() == m.headers.len()
            &&& n.outcomes == m.outcomes + rider_answers(riders, result)
            &&& stage == RequestStage::Flushing ==> n.headers == m.headers
            &&& forall|i: int|
                0 <= i < m.headers.len() && (forall|k: int|
                    0 <= k < riders.len() ==> (#[trigger] riders[k]).stripe_id != i)
                    ==> #[trigger] n.headers[i] == m.headers[i]
            &&& forall|old: Seq<u8>| #![trigger restores(riders, old)]
                stage == RequestStage::Writing && restores(riders, old) ==> forall|k: int|
                    0 <= k < riders.len() ==> n.headers[(
                    #[trigger] riders[k]).stripe_id as int] == old[riders[k].stripe_id as int]
        }),
    decreases riders.len(),
{
    let n = m.after_riders_failed(riders, stage);
    let result = match stage {
        RequestStage::Writing => PersistResult::NotWritten,
        RequestStage::Flushing => PersistResult::Uncertain,
    };
    if riders.len() == 0 {
        assert(m.outcomes + rider_answers(riders, result) =~= m.outcomes);
    } else {
        let front = riders.drop_last();
        let last = riders.len() - 1;
        assert(forall|k: int| 0 <= k < front.len() ==> front[k] == riders[k]);
        assert(riders.last() == riders[last]);
        lemma_failed_bytes(m, front, stage);
        let before = m.after_riders_failed(front, stage);
        assert(n.outcomes =~= m.outcomes + rider_answers(riders, result));
        assert forall|i: int|
            0 <= i < m.headers.len() && (forall|k: int|
                0 <= k < riders.len() ==> (#[trigger] riders[k]).stripe_id
                    != i) implies #[trigger] n.headers[i] == m.headers[i] by {
            assert(riders[last].stripe_id != i);
            assert(forall|k: int| 0 <= k < front.len() ==> (#[trigger] front[k]).stripe_id != i);
            assert(before.headers[i] == m.headers[i]);
        }
        assert forall|old: Seq<u8>| #![trigger restores(riders, old)]
            stage == RequestStage::Writing && restores(riders, old) implies forall|k: int|
            0 <= k < riders.len() ==> n.headers[(#[trigger] riders[k]).stripe_id as int]
                == old[riders[k].stripe_id as int] by {
            assert(restores(front, old)) by {
                assert(forall|k: int|
                    0 <= k < front.len() ==> (#[trigger] front[k]).previous
                        == old[riders[k].stripe_id as int]);
            }
            assert forall|k: int| 0 <= k < riders.len() implies n.headers[(
            #[trigger] riders[k]).stripe_id as int] == old[riders[k].stripe_id as int] by {
                assert(riders[last].previous == old[riders[last].stripe_id as int]);
                if k < last {
                    assert(front[k] == riders[k]);
                    assert(before.headers[front[k].stripe_id as int]
                        == old[front[k].stripe_id as int]);
                }
            }
        }
    }
}

/// The bytes that these updates put back are those of `old`.
spec fn restores(riders: Seq<RidingUpdate>, old: Seq<u8>) -> bool {
    forall|k: int|
        0 <= k < riders.len() ==> (#[trigger] riders[k]).previous
            == old[riders[k].stripe_id as int]
}

/// With a sector that had nothing in flight go exactly the updates that just
/// started along with it.
proof fn lemma_just_aboard(m: FlusherModel)
    requires
        m.wf(),
        m.can_start(),
        m.starts_write(),
    ensures
        ({
            let n = m.after_start_one();
            let sector = sector_of(m.queue[0].stripe_id as int) as u64;
            let count = m.riders.len() as int;
            &&& aboard(n.riders, sector) == n.riders.subrange(count, n.riders.len() as int)
            &&& others(n.riders, sector) == m.riders
        }),
{
    let n = m.after_start_one();
    let sector = sector_of(m.queue[0].stripe_id as int) as u64;
    let reqs = riding(m.queue, m.queue.len());
    lemma_start_one(m);
    lemma_staying(m.queue, m.queue.len());
    assert forall|k: int| 0 <= k < m.riders.len() implies (#[trigger] n.riders[k]).sector
        != sector by {
        assert(m.rider_ok(k));
        assert(n.riders[k] == m.riders[k]);
    }
    assert forall|k: int| m.riders.len() <= k < n.riders.len() implies (
    #[trigger] n.riders[k]).sector == sector by {
        let r = reqs[k - m.riders.len()];
        assert(is_rider(m.queue, m.queue.len(), r));
    }
    lemma_aboard_from(n.riders, sector, m.riders.len() as int, n.riders.len() as int);
    assert(n.riders.take(n.riders.len() as int) =~= n.riders);
    assert(n.riders.take(m.riders.len() as int) =~= m.riders);
}

/// Updates of which the first are for other sectors, and the rest for one.
proof fn lemma_aboard_from(riders: Seq<RidingUpdate>, sector: u64, count: int, n: int)
    requires
        0 <= count <= riders.len(),
        0 <= n <= riders.len(),
        forall|k: int| 0 <= k < count ==> (#[trigger] riders[k]).sector != sector,
        forall|k: int| count <= k < riders.len() ==> (#[trigger] riders[k]).sector == sector,
    ensures
        n >= count ==> aboard(riders.take(n), sector) == riders.subrange(count, n) && others(
            riders.take(n),
            sector,
        ) == riders.take(count),
        n < count ==> aboard(riders.take(n), sector) == Seq::<RidingUpdate>::empty() && others(
            riders.take(n),
            sector,
        ) == riders.take(n),
    decreases n,
{
    reveal(Seq::filter);
    if n > 0 {
        lemma_aboard_from(riders, sector, count, n - 1);
        assert(riders.take(n).drop_last() =~= riders.take(n - 1));
        assert(riders.take(n).last() == riders[n - 1]);
        if n - 1 >= count {
            assert(riders.subrange(count, n) =~= riders.subrange(count, n - 1).push(riders[n - 1]));
        } else {
            assert(riders.take(n) =~= riders.take(n - 1).push(riders[n - 1]));
            if n == count {
                assert(riders.subrange(count, n) =~= Seq::empty());
            }
        }
    } else {
        assert(riders.take(0) =~= Seq::empty());
        assert(riders.subrange(0, 0) =~= Seq::empty());
    }
}

/// One sector write carries every queued request of its sector whose caller
/// waits, one per stripe, each in the order of its stripe: all their bytes
/// change, nothing else does, and the sector that is written says so. What
/// stays in the queue is all the rest.
pub proof fn law_one_write_carries_the_waiting_updates_of_its_sector(m: FlusherModel)
    requires
        m.wf(),
        m.can_start(),
        m.queue[0].token != 0,
    ensures
        ({
            let n = m.after_start_one();
            let id = m.queue[0].stripe_id as int;
            &&& forall|i: int|
                0 <= i < m.queue.len() && (i == 0 || rides(m.queue, i)) ==> {
                    let r = #[trigger] m.queue[i];
                    n.headers[r.stripe_id as int] == next_header(
                        m.headers[r.stripe_id as int],
                        r.set,
                        r.clear,
                    )
                }
            &&& forall|s: int|
                0 <= s < m.headers.len() && (forall|i: int|
                    0 <= i < m.queue.len() && (i == 0 || rides(m.queue, i)) ==> (
                    #[trigger] m.queue[i]).stripe_id != s) ==> #[trigger] n.headers[s]
                    == m.headers[s]
            &&& m.write_started().sector == sector_of(id)
            &&& m.write_started().data == sector_image(group_headers(n.headers, sector_of(id) - 1))
            &&& n.queue == staying(m.queue, m.queue.len())
            &&& n.queue.len() + batch(m.queue).len() == m.queue.len()
            &&& forall|i: int|
                0 < i < m.queue.len() && !rides(m.queue, i) && (#[trigger] m.queue[i]).token != 0
                    && sector_of(m.queue[i].stripe_id as int) == sector_of(id) ==> exists|j: int|
                    0 <= j < i && (#[trigger] m.queue[j]).stripe_id == m.queue[i].stripe_id
        }),
{
    let n = m.after_start_one();
    let reqs = riding(m.queue, m.queue.len());
    lemma_start_one(m);
    lemma_batch(m);
    lemma_staying(m.queue, m.queue.len());
    lemma_carried_bytes(m.led(), reqs);
    assert forall|i: int| 0 <= i < m.queue.len() && (i == 0 || rides(m.queue, i)) implies {
        let r = #[trigger] m.queue[i];
        n.headers[r.stripe_id as int] == next_header(
            m.headers[r.stripe_id as int],
            r.set,
            r.clear,
        )
    } by {
        if i > 0 {
            lemma_rider_found(m.queue, m.queue.len(), i);
            let k = choose|k: int| 0 <= k < reqs.len() && reqs[k] == m.queue[i];
            assert(reqs[k].stripe_id != m.queue[0].stripe_id);
        }
    }
    assert forall|s: int|
        0 <= s < m.headers.len() && (forall|i: int|
            0 <= i < m.queue.len() && (i == 0 || rides(m.queue, i)) ==> (
            #[trigger] m.queue[i]).stripe_id != s) implies #[trigger] n.headers[s]
        == m.headers[s] by {
        assert(m.queue[0].stripe_id != s);
        assert forall|k: int| 0 <= k < reqs.len() implies (#[trigger] reqs[k]).stripe_id != s by {
            assert(is_rider(m.queue, m.queue.len(), reqs[k]));
            let i = choose|i: int|
                0 < i < m.queue.len() && #[trigger] rides(m.queue, i) && m.queue[i] == reqs[k];
            assert(m.queue[i].stripe_id != s);
        }
        assert(m.led().headers[s] == m.headers[s]);
    }
}

/// The requests that go along name other stripes of the device.
proof fn lemma_batch(m: FlusherModel)
    requires
        m.wf(),
        m.queue.len() > 0,
    ensures
        ({
            let reqs = riding(m.queue, m.queue.len());
            &&& m.queue[0].stripe_id < m.headers.len()
            &&& forall|k: int|
                0 <= k < reqs.len() ==> (#[trigger] reqs[k]).stripe_id < m.led().headers.len()
                    && reqs[k].token != 0 && reqs[k].stripe_id != m.queue[0].stripe_id
            &&& forall|j: int, k: int|
                0 <= j < k < reqs.len() ==> (#[trigger] reqs[j]).stripe_id != (
                #[trigger] reqs[k]).stripe_id
            &&& batch(m.queue).len() + staying(m.queue, m.queue.len()).len() == m.queue.len()
        }),
{
    let reqs = riding(m.queue, m.queue.len());
    lemma_staying(m.queue, m.queue.len());
    lemma_riding_apart(m.queue, m.queue.len());
    assert(m.queue[0].stripe_id < m.headers.len());
    assert forall|k: int| 0 <= k < reqs.len() implies (#[trigger] reqs[k]).stripe_id
        < m.led().headers.len() && reqs[k].token != 0 && reqs[k].stripe_id
        != m.queue[0].stripe_id by {
        assert(is_rider(m.queue, m.queue.len(), reqs[k]));
        let i = choose|i: int|
            0 < i < m.queue.len() && #[trigger] rides(m.queue, i) && m.queue[i] == reqs[k];
        assert(m.queue[i].stripe_id < m.headers.len());
    }
}

/// A request that may go along does.
proof fn lemma_rider_found(queue: Seq<MetadataFlusherRequest>, n: nat, i: int)
    requires
        0 < i < n <= queue.len(),
        rides(queue, i),
    ensures
        exists|k: int| 0 <= k < riding(queue, n).len() && riding(queue, n)[k] == queue[i],
    decreases n,
{
    let front = riding(queue, (n - 1) as nat);
    if i == n - 1 {
        assert(riding(queue, n)[front.len() as int] == queue[i]);
    } else {
        lemma_rider_found(queue, (n - 1) as nat, i);
        let k = choose|k: int| 0 <= k < front.len() && front[k] == queue[i];
        assert(riding(queue, n)[k] == queue[i]);
    }
}

/// A write that fails puts the whole bytes back, cleared bits included, those
/// that went along too, and every tokened caller hears that nothing was
/// written.
pub proof fn law_failed_write_restores_the_bytes(m: FlusherModel)
    requires
        m.wf(),
        m.can_start(),
        m.starts_write(),
    ensures
        ({
            let failed = m.after_start_one().after_failure(m.queue[0].stripe_id);
            &&& failed.headers == m.headers
            &&& failed.sectors == m.sectors
            &&& failed.updates == m.updates
            &&& failed.riders == m.riders
            &&& m.queue[0].token != 0 ==> failed.outcomes == m.outcomes + answers(
                batch(m.queue),
                PersistResult::NotWritten,
            )
            &&& m.queue[0].token == 0 ==> failed.outcomes == m.outcomes
        }),
{
    let id = m.queue[0].stripe_id;
    let started = m.after_start_one();
    let failed = started.after_failure(id);
    let reqs = riding(m.queue, m.queue.len());
    let sector = sector_of(id as int) as u64;
    lemma_start_one(m);
    lemma_start_one_wf(m);
    lemma_batch(m);
    lemma_carried_bytes(m.led(), reqs);
    lemma_just_aboard(m);
    assert(started.update_ok(id));
    lemma_failure(started, id);
    let along = aboard(started.riders, sector);
    assert(failed.sectors =~= m.sectors);
    assert(failed.updates =~= m.updates);
    let led = started.without(id).after_not_written(started.updates[id]);
    assert forall|k: int| 0 <= k < along.len() implies (#[trigger] along[k]).stripe_id
        == reqs[k].stripe_id && along[k].token == reqs[k].token && along[k].previous
        == m.headers[along[k].stripe_id as int] by {
        assert(along[k] == started.riders[m.riders.len() + k]);
        assert(reqs[k].stripe_id != id);
    }
    assert forall|k: int| 0 <= k < along.len() implies (#[trigger] along[k]).stripe_id
        < led.headers.len() && along[k].token != 0 by {
        assert(reqs[k].token != 0);
    }
    lemma_failed_bytes(led, along, RequestStage::Writing);
    assert(restores(along, m.headers));
    assert forall|i: int| 0 <= i < m.headers.len() implies failed.headers[i] == m.headers[i] by {
        if forall|k: int| 0 <= k < along.len() ==> (#[trigger] along[k]).stripe_id != i {
            assert(failed.headers[i] == led.headers[i]);
            assert forall|k: int| 0 <= k < reqs.len() implies (#[trigger] reqs[k]).stripe_id
                != i by {
                assert(along[k].stripe_id != i);
            }
            if i != id {
                assert(started.headers[i] == m.led().headers[i]);
            }
        } else {
            let k = choose|k: int| 0 <= k < along.len() && (#[trigger] along[k]).stripe_id == i;
            assert(failed.headers[along[k].stripe_id as int]
                == m.headers[along[k].stripe_id as int]);
        }
    }
    assert(failed.headers =~= m.headers);
    if m.queue[0].token != 0 {
        assert(failed.outcomes =~= m.outcomes + answers(
            batch(m.queue),
            PersistResult::NotWritten,
        ));
    } else {
        lemma_rides_alone(m.queue, m.queue.len());
        assert(failed.outcomes =~= m.outcomes);
    }
}

/// A tokened update is reported durable only when its flush completed: the
/// completion of its write reports nothing and leaves it to be flushed. Those
/// that went along are reported with it.
pub proof fn law_durable_only_after_flush(m: FlusherModel, id: usize)
    requires
        m.wf(),
        m.updates.dom().contains(id),
    ensures
        m.updates[id].stage == RequestStage::Writing ==> {
            let after = poll_outcome(m, seq![(id, true)], true);
            &&& after.outcomes == m.outcomes
            &&& after.updates.dom().contains(id)
            &&& after.updates[id].stage == RequestStage::Flushing
            &&& polled(m, seq![(id, true)]).flushing == seq![id]
            &&& polled(m, seq![(id, true)]).finished == Seq::<FinishedUpdate>::empty()
        },
        m.updates[id].stage == RequestStage::Flushing && m.updates[id].token != 0 ==> {
            let after = poll_outcome(m, seq![(id, true)], true);
            &&& !after.updates.dom().contains(id)
            &&& after.headers == m.headers
            &&& after.outcomes == m.outcomes.push(
                PersistOutcome {
                    stripe_id: id,
                    token: m.updates[id].token,
                    result: PersistResult::Durable,
                },
            ) + rider_answers(
                aboard(m.riders, m.updates[id].sector),
                PersistResult::Durable,
            )
        },
{
    let c = seq![(id, true)];
    let start = PollModel { m, finished: Seq::empty(), flushing: Seq::empty() };
    assert(m.update_ok(id));
    assert(c.drop_last() =~= Seq::empty());
    assert(start.steps(c.drop_last()) == start);
    let p = polled(m, c);
    assert(p == start.step(id, true));
    if m.updates[id].stage == RequestStage::Writing {
        assert(p.flushing =~= seq![id]);
        assert(p.finished =~= Seq::<FinishedUpdate>::empty());
    } else if m.updates[id].token != 0 {
        let u = m.updates[id];
        let along = aboard(m.riders, u.sector);
        let first = seq![FinishedUpdate { stripe_id: id, header: u.header, token: u.token }];
        assert(p.finished =~= first + landed(along));
        lemma_picked(m.riders, u.sector);
        assert forall|k: int| 0 <= k < along.len() implies (#[trigger] along[k]).token != 0 by {
            let i = choose|i: int| 0 <= i < m.riders.len() && m.riders[i] == along[k];
            assert(m.rider_ok(i));
        }
        lemma_durable_answers(p.m, first[0], along);
    }
}

/// Finished updates are reported in order.
proof fn lemma_durable_answers(m: FlusherModel, f: FinishedUpdate, along: Seq<RidingUpdate>)
    requires
        f.token != 0,
        forall|k: int| 0 <= k < along.len() ==> (#[trigger] along[k]).token != 0,
    ensures
        ({
            let n = after_finished(m, seq![f] + landed(along));
            &&& n.headers == m.headers
            &&& !n.updates.dom().contains(f.stripe_id)
            &&& n.outcomes == m.outcomes.push(
                PersistOutcome {
                    stripe_id: f.stripe_id,
                    token: f.token,
                    result: PersistResult::Durable,
                },
            ) + rider_answers(along, PersistResult::Durable)
        }),
    decreases along.len(),
{
    let all = seq![f] + landed(along);
    if along.len() == 0 {
        assert(all.drop_last() =~= Seq::empty());
        assert(after_finished(m, all.drop_last()) == m);
        assert(all.last() == f);
        assert(rider_answers(along, PersistResult::Durable) =~= Seq::empty());
    } else {
        let front = along.drop_last();
        assert(forall|k: int| 0 <= k < front.len() ==> front[k] == along[k]);
        assert(along[along.len() - 1].token != 0);
        lemma_durable_answers(m, f, front);
        assert(all.drop_last() =~= seq![f] + landed(front));
    }
    let n = after_finished(m, all);
    assert(n.outcomes =~= m.outcomes.push(
        PersistOutcome { stripe_id: f.stripe_id, token: f.token, result: PersistResult::Durable },
    ) + rider_answers(along, PersistResult::Durable));
}

/// A flush that fails leaves tokened updates uncertain, with the new bytes in
/// memory for the retry; without a token the byte reverts.
pub proof fn law_failed_flush_is_uncertain(m: FlusherModel, id: usize)
    requires
        m.wf(),
        m.updates.dom().contains(id),
        m.updates[id].stage == RequestStage::Flushing,
    ensures
        ({
            let u = m.updates[id];
            let failed = m.after_failure(id);
            let along = rider_answers(aboard(m.riders, u.sector), PersistResult::Uncertain);
            &&& u.token != 0 ==> failed.headers == m.headers && failed.outcomes
                == m.outcomes.push(
                PersistOutcome {
                    stripe_id: id,
                    token: u.token,
                    result: PersistResult::Uncertain,
                },
            ) + along
            &&& u.token == 0 ==> failed.headers == m.headers.update(id as int, u.previous)
                && failed.outcomes == m.outcomes + along
            &&& !failed.updates.dom().contains(id)
        }),
{
    let u = m.updates[id];
    let along = aboard(m.riders, u.sector);
    assert(m.update_ok(id));
    lemma_failure(m, id);
    lemma_picked(m.riders, u.sector);
    let led = m.without(id).after_uncertain(u);
    assert forall|k: int| 0 <= k < along.len() implies (#[trigger] along[k]).stripe_id
        < led.headers.len() && along[k].token != 0 by {
        let i = choose|i: int| 0 <= i < m.riders.len() && m.riders[i] == along[k];
        assert(m.rider_ok(i));
    }
    lemma_failed_bytes(led, along, RequestStage::Flushing);
}

/// A file one sector of which was overwritten.
pub open spec fn overwritten(file: Seq<u8>, sector: int, data: Seq<u8>) -> Seq<u8> {
    file.subrange(0, sector * SECTOR_SIZE) + data + file.subrange(
        (sector + 1) * SECTOR_SIZE,
        file.len() as int,
    )
}

/// The header bytes of a file in which the sector of `id` was overwritten with
/// what the headers in memory say.
pub open spec fn merged(disk: Seq<u8>, memory: Seq<u8>, id: int) -> Seq<u8> {
    Seq::new(
        disk.len(),
        |i: int|
            if sector_of(i) == sector_of(id) {
                memory[i]
            } else {
                disk[i]
            },
    )
}

/// Sector `sector` of a metadata file.
proof fn lemma_image_sector(m: UbiMetadata, sector: int)
    requires
        0 <= sector <= group_count(m.stripe_headers@.len()),
    ensures
        m.image().len() == m.size(),
        m.image().subrange(sector * SECTOR_SIZE, (sector + 1) * SECTOR_SIZE) == if sector == 0 {
            sector_image(m.description())
        } else {
            sector_image(group_headers(m.stripe_headers@, sector - 1))
        },
{
    let headers = m.stripe_headers@;
    let groups = group_count(headers.len());
    lemma_sector_image_intact(m.description());
    lemma_groups_image_len(headers, groups);
    if sector == 0 {
        assert(m.image().subrange(0, SECTOR_SIZE as int) =~= sector_image(m.description()));
    } else {
        lemma_groups_image_sector(headers, groups, sector - 1);
        assert(m.image().subrange(sector * SECTOR_SIZE, (sector + 1) * SECTOR_SIZE)
            =~= groups_image(headers, groups).subrange(
            (sector - 1) * SECTOR_SIZE,
            sector * SECTOR_SIZE,
        ));
    }
}

/// The sector that a request writes turns a metadata file into another whole
/// one: the stripe's sector then says what memory says, the byte the request
/// asked for among it, and nothing else changes. So the file loads before the
/// write and after it.
pub proof fn law_a_header_write_leaves_a_whole_file(
    m: FlusherModel,
    before: UbiMetadata,
    after: UbiMetadata,
)
    requires
        m.wf(),
        m.can_start(),
        m.starts_write(),
        before.readable(),
        before.stripe_headers@.len() == m.headers.len() <= u64::MAX,
        after.magic == before.magic,
        after.version_major == before.version_major,
        after.version_minor == before.version_minor,
        after.stripe_sector_count_shift == before.stripe_sector_count_shift,
        after.stripe_headers@ == merged(
            before.stripe_headers@,
            m.after_start_one().headers,
            m.queue[0].stripe_id as int,
        ),
        after.readable(),
    ensures
        overwritten(before.image(), m.write_started().sector as int, m.write_started().data)
            == after.image(),
        after.stripe_headers@[m.queue[0].stripe_id as int] == next_header(
            m.headers[m.queue[0].stripe_id as int],
            m.queue[0].set,
            m.queue[0].clear,
        ),
        loadable(before.image()),
        loadable(after.image()),
{
    let id = m.queue[0].stripe_id as int;
    let memory = m.after_start_one().headers;
    let count = before.stripe_headers@.len();
    let groups = group_count(count);
    let w = m.write_started();
    let sector = sector_of(id);
    assert(id < m.headers.len());
    lemma_batch(m);
    lemma_carried_bytes(m.led(), riding(m.queue, m.queue.len()));
    assert(memory[id] == m.led().headers[id]);
    let left = overwritten(before.image(), sector, w.data);
    let right = after.image();
    lemma_image_sector(before, 0);
    lemma_image_sector(after, 0);
    lemma_sector_image_intact(group_headers(memory, sector - 1));
    assert(group_headers(after.stripe_headers@, sector - 1) =~= group_headers(memory, sector - 1));
    assert forall|k: int| 0 <= k < right.len() implies left[k] == right[k] by {
        let s = k / SECTOR_SIZE as int;
        let at = k % SECTOR_SIZE as int;
        lemma_image_sector(before, s);
        lemma_image_sector(after, s);
        assert(right[k] == right.subrange(s * SECTOR_SIZE, (s + 1) * SECTOR_SIZE)[at]);
        if s != sector {
            assert(before.image()[k] == before.image().subrange(
                s * SECTOR_SIZE,
                (s + 1) * SECTOR_SIZE,
            )[at]);
            if s > 0 {
                assert(group_headers(after.stripe_headers@, s - 1) =~= group_headers(
                    before.stripe_headers@,
                    s - 1,
                ));
            }
        }
    }
    assert(left =~= right);
    law_load_gives_back_what_save_wrote(before, Seq::empty());
    law_load_gives_back_what_save_wrote(after, Seq::empty());
    assert(before.image() + Seq::<u8>::empty() =~= before.image());
    assert(after.image() + Seq::<u8>::empty() =~= after.image());
}

} // verus!
