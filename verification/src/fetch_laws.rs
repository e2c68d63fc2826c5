//! What becomes of a stripe on its way from the source, or from a push, to the
//! target device.

use vstd::prelude::*;
use crate::io::{Answer, IoCall, SourceCall};
use crate::metadata::shared_state::{Evicted, Failed, Fetched, NoSource, StateModel};
use crate::metadata::stripe_flags;
use crate::push_gate::PushPermit;
use crate::stripe_fetcher::{
    fitted, lemma_pending, local, pending_from, ready_ids, FetchInputs, FetchState, FetchTick,
    FetcherModel, Handover,
};
use crate::SECTOR_SIZE;

verus! {

/// The call writes stripe `id` with `data`: at the stripe's place, as many
/// sectors as the target has of it, from a buffer of a whole stripe that holds
/// the bytes of `data` each at its own position, and zeros behind them.
pub open spec fn writes_stripe(
    m: FetcherModel,
    call: IoCall<Seq<u8>>,
    id: usize,
    data: Seq<u8>,
) -> bool {
    &&& call matches IoCall::Write { sector_offset, sector_count, buf, id: under }
    &&& under == id
    &&& sector_offset == id * m.stripe_sectors
    &&& sector_count == m.stripe_sectors || sector_offset + sector_count == m.target_sectors
    &&& 0 < sector_count <= m.stripe_sectors
    &&& sector_offset + sector_count <= m.target_sectors
    &&& buf.len() == m.stripe_sectors * 512
    &&& forall|i: int|
        0 <= i < buf.len() ==> (#[trigger] buf[i]) == if i < data.len() {
            data[i]
        } else {
            0u8
        }
}

/// The write of a stripe, spelled out.
pub proof fn lemma_write_calls(m: FetcherModel, n: nat, id: usize, data: Seq<u8>, result: Answer)
    requires
        m.wf(n),
        id < n,
        m.stripe_sectors <= u32::MAX,
    ensures
        ({
            let size = (m.stripe_sectors * SECTOR_SIZE) as nat;
            let calls = m.write_calls(id, fitted(data, size), result);
            &&& calls.len() == 2
            &&& writes_stripe(m, calls[0], id, data)
            &&& calls[1] == IoCall::<Seq<u8>>::Submit { result }
        }),
{
    let c = m.stripe_sectors as int;
    let i = id as int;
    assert(0 <= i * c <= (n - 1) * c) by (nonlinear_arith)
        requires
            0 <= i <= n - 1,
            0 <= c,
    ;
}

/// A stripe that comes from the source while a buffer is kept for it is written
/// to its place on the target, byte for byte, and handed over; nothing else is
/// written for a report of the source.
pub proof fn law_an_arriving_stripe_is_written_in_place(
    t: FetchTick,
    id: usize,
    ok: bool,
    write: Handover,
)
    requires
        t.wf(),
        t.m.stripe_sectors <= u32::MAX,
    ensures
        ({
            let calls = t.arrival_calls(id, ok, write);
            if t.m.buffers.contains(id) && ok && write.data is Some {
                &&& calls.len() == 2
                &&& writes_stripe(t.m, calls[0], id, write.data->Some_0)
                &&& calls[1] == IoCall::<Seq<u8>>::Submit { result: write.result }
            } else {
                calls == Seq::<IoCall<Seq<u8>>>::empty()
            }
        }),
{
    if t.m.buffers.contains(id) && write.data is Some {
        lemma_write_calls(t.m, t.s.fetch.len(), id, write.data->Some_0, write.result);
    }
}

/// A pushed copy that waited is written to its stripe's place, byte for byte, if
/// the stripe is not here and there is a buffer; nothing is written otherwise.
pub proof fn law_a_pushed_copy_that_waited_is_written_in_place(
    t: FetchTick,
    at: int,
    submitted: Answer,
)
    requires
        t.wf(),
        t.m.stripe_sectors <= u32::MAX,
        0 <= at < t.m.pending.len(),
        forall|i: int| 0 <= i < at ==> (#[trigger] t.m.pending[i]).0 != t.m.pending[at].0,
    ensures
        ({
            let id = t.m.pending[at].0;
            let state = t.s.fetch[id as int];
            let calls = t.push_calls(id, submitted);
            if state == Fetched || state == NoSource || t.m.free == 0 {
                calls == Seq::<IoCall<Seq<u8>>>::empty()
            } else {
                &&& calls.len() == 2
                &&& writes_stripe(t.m, calls[0], id, t.m.pending[at].1)
                &&& calls[1] == IoCall::<Seq<u8>>::Submit { result: submitted }
            }
        }),
{
    let id = t.m.pending[at].0;
    lemma_pending(t.m.pending, id, 0);
    let found = pending_from(t.m.pending, id, 0);
    assert(found == at) by {
        if at < found {
            assert(t.m.pending[at].0 != id);
        } else if found < at {
            assert(t.m.pending[found].0 != id);
        }
    }
    lemma_write_calls(t.m, t.s.fetch.len(), id, t.m.pending[at].1, submitted);
}

/// What a report of the source leaves of the buffers of other stripes.
proof fn lemma_arrivals_keep_buffers(
    t: FetchTick,
    arrivals: Seq<(usize, bool)>,
    writes: Seq<Handover>,
    now: u64,
    count: nat,
    id: usize,
)
    requires
        count <= arrivals.len(),
        forall|k: int| 0 <= k < count ==> (#[trigger] arrivals[k]).0 != id,
    ensures
        ({
            let after = t.all_arrived(arrivals, writes, now, count);
            &&& after.m.buffers.contains(id) == t.m.buffers.contains(id)
            &&& after.m.stripe_sectors == t.m.stripe_sectors
            &&& after.m.target_sectors == t.m.target_sectors
        }),
    decreases count,
{
    if count > 0 {
        lemma_arrivals_keep_buffers(t, arrivals, writes, now, (count - 1) as nat, id);
        assert(arrivals[count - 1].0 != id);
    }
}

/// Every stripe the source reports with its data, and that a buffer is kept for,
/// is written: none of a list of reports is left out.
pub proof fn law_every_arriving_stripe_is_written(
    t: FetchTick,
    arrivals: Seq<(usize, bool)>,
    writes: Seq<Handover>,
    now: u64,
    count: nat,
    k: int,
)
    requires
        t.wf(),
        t.m.stripe_sectors <= u32::MAX,
        count <= arrivals.len(),
        0 <= k < count,
        forall|j: int| 0 <= j < k ==> (#[trigger] arrivals[j]).0 != arrivals[k].0,
        t.m.buffers.contains(arrivals[k].0),
        arrivals[k].1,
        writes[k].data is Some,
    ensures
        exists|j: int|
            0 <= j < t.all_arrival_calls(arrivals, writes, now, count).len() - 1 && writes_stripe(
                t.m,
                #[trigger] t.all_arrival_calls(arrivals, writes, now, count)[j],
                arrivals[k].0,
                writes[k].data->Some_0,
            ) && t.all_arrival_calls(arrivals, writes, now, count)[j + 1] == (IoCall::<
                Seq<u8>,
            >::Submit { result: writes[k].result }),
    decreases count,
{
    let id = arrivals[k].0;
    let before = t.all_arrival_calls(arrivals, writes, now, (count - 1) as nat);
    let at = t.all_arrived(arrivals, writes, now, (count - 1) as nat);
    let more = at.arrival_calls(
        arrivals[count - 1].0,
        arrivals[count - 1].1,
        writes[count - 1],
    );
    let all = t.all_arrival_calls(arrivals, writes, now, count);
    assert(all == before + more);
    if k == count - 1 {
        lemma_arrivals_keep_buffers(t, arrivals, writes, now, (count - 1) as nat, id);
        let data = writes[k].data->Some_0;
        let size = (t.m.stripe_sectors * SECTOR_SIZE) as nat;
        lemma_write_calls(t.m, t.s.fetch.len(), id, data, writes[k].result);
        assert(more == t.m.write_calls(id, fitted(data, size), writes[k].result));
        let j = before.len() as int;
        assert(all[j] == more[0]);
        assert(all[j + 1] == more[1]);
    } else {
        law_every_arriving_stripe_is_written(t, arrivals, writes, now, (count - 1) as nat, k);
        let j = choose|j: int|
            0 <= j < before.len() - 1 && writes_stripe(
                t.m,
                #[trigger] before[j],
                id,
                writes[k].data->Some_0,
            ) && before[j + 1] == (IoCall::<Seq<u8>>::Submit { result: writes[k].result });
        assert(all[j] == before[j]);
        assert(all[j + 1] == before[j + 1]);
    }
}

/// What a tick asks of the target: the pushed copies that may be written, every
/// stripe that came, a look at what is done, the flushes that follow from it,
/// and the pushed copies that may be written by then.
pub proof fn law_a_tick_writes_what_came(t: FetchTick, inputs: FetchInputs, now: u64, k: int)
    requires
        ({
            let pulled = t.autofetched().ready_applied(inputs.early_submits, now).started(
                inputs.requests,
                now,
            );
            &&& pulled.wf()
            &&& pulled.m.stripe_sectors <= u32::MAX
            &&& pulled.m.buffers.contains(inputs.arrivals[k].0)
        }),
        0 <= k < inputs.arrivals.len(),
        forall|j: int| 0 <= j < k ==> (#[trigger] inputs.arrivals[j]).0 != inputs.arrivals[k].0,
        inputs.arrivals[k].1,
        inputs.writes[k].data is Some,
    ensures
        ({
            let pulled = t.autofetched().ready_applied(inputs.early_submits, now).started(
                inputs.requests,
                now,
            );
            exists|j: int|
                0 <= j < t.target_calls(inputs, now).len() - 1 && writes_stripe(
                    pulled.m,
                    #[trigger] t.target_calls(inputs, now)[j],
                    inputs.arrivals[k].0,
                    inputs.writes[k].data->Some_0,
                ) && t.target_calls(inputs, now)[j + 1] == (IoCall::<Seq<u8>>::Submit {
                    result: inputs.writes[k].result,
                })
        }),
{
    let begun = t.autofetched();
    let pulled = begun.ready_applied(inputs.early_submits, now).started(inputs.requests, now);
    let count = inputs.arrivals.len();
    let part = pulled.all_arrival_calls(inputs.arrivals, inputs.writes, now, count);
    let id = inputs.arrivals[k].0;
    let data = inputs.writes[k].data->Some_0;
    law_every_arriving_stripe_is_written(pulled, inputs.arrivals, inputs.writes, now, count, k);
    let j = choose|j: int|
        0 <= j < part.len() - 1 && writes_stripe(pulled.m, #[trigger] part[j], id, data)
            && part[j + 1] == (IoCall::<Seq<u8>>::Submit { result: inputs.writes[k].result });
    let ahead = begun.ready_calls(inputs.early_submits, now).len();
    let all = t.target_calls(inputs, now);
    assert(all[ahead + j] == part[j]);
    assert(all[ahead + j + 1] == part[j + 1]);
}

/// A stripe whose write is done is flushed, and one whose flush is done is
/// reported as here, its buffer back; other stripes are left alone.
pub proof fn law_a_written_stripe_is_flushed_and_then_reported(
    t: FetchTick,
    id: usize,
    flushed: Answer,
    now: u64,
)
    requires
        id < t.s.fetch.len(),
        t.m.states.contains_key(id),
    ensures
        t.m.states[id] == FetchState::Fetching ==> {
            let after = t.target_done(id, true, flushed is Ok, now);
            &&& t.done_calls(id, true, flushed) == seq![
                IoCall::<Seq<u8>>::Flush { id },
                IoCall::Submit { result: flushed },
            ]
            &&& flushed is Ok ==> after.s == t.s && after.m == (FetcherModel {
                states: t.m.states.insert(id, FetchState::Flushing),
                ..t.m
            })
        },
        t.m.states[id] == FetchState::Flushing ==> {
            let after = t.target_done(id, true, flushed is Ok, now);
            &&& t.done_calls(id, true, flushed) == Seq::<IoCall<Seq<u8>>>::empty()
            &&& after.m.finished == t.m.finished.push((id, true))
            &&& after.m.states == t.m.states.insert(id, FetchState::Fetched)
            &&& after.m.buffers == t.m.buffers.remove(id)
            &&& after.m.free == t.m.free + if t.m.buffers.contains(id) {
                1nat
            } else {
                0nat
            }
            &&& after.m.retries == t.m.retries.remove(id)
            &&& after.m.queue == t.m.queue && after.m.pending == t.m.pending
            &&& after.s == t.s
        },
{
}

/// A write or a flush that fails, or a flush that cannot be handed over, counts
/// against the stripe: its buffer comes back, and without pushes to wait for it
/// goes to the end of the queue, until it has been tried again three times; then
/// it is reported as failed and marked so.
pub proof fn law_a_failed_stripe_is_tried_again(
    t: FetchTick,
    id: usize,
    ok: bool,
    flushed: bool,
    now: u64,
)
    requires
        t.wf(),
        id < t.s.fetch.len(),
        !ok || (t.m.states.contains_key(id) && t.m.states[id] == FetchState::Fetching && !flushed),
        !t.m.expects_pushes,
    ensures
        ({
            let after = t.target_done(id, ok, flushed, now);
            let tried = if t.m.retries.contains_key(id) {
                t.m.retries[id] as int
            } else {
                0
            };
            &&& !after.m.buffers.contains(id)
            &&& after.m.free == t.m.free + if t.m.buffers.contains(id) {
                1nat
            } else {
                0nat
            }
            &&& after.m.pending == t.m.pending
            &&& if tried < 3 {
                &&& after.m.queue == t.m.queue.push(id)
                &&& after.m.states == t.m.states.insert(id, FetchState::Queued)
                &&& after.m.retries == t.m.retries.insert(id, (tried + 1) as u8)
                &&& after.m.finished == t.m.finished
                &&& after.s == t.s
            } else {
                &&& after.m.queue == t.m.queue
                &&& !after.m.states.contains_key(id)
                &&& !after.m.retries.contains_key(id)
                &&& after.m.finished == t.m.finished.push((id, false))
                &&& after.s.fetch == t.s.fetch.update(id as int, Failed)
            }
        }),
{
}

/// A fork whose pull was refused waits for the push: for a minute from the first
/// refusal the stripe goes back on the queue and does not count as tried, and
/// after that a copy that is already here is waited for.
pub proof fn law_a_fork_tries_again_while_a_push_may_come(
    t: FetchTick,
    id: usize,
    now: u64,
)
    requires
        t.m.expects_pushes,
        id < t.s.fetch.len(),
    ensures
        ({
            let after = t.target_done(id, false, false, now);
            let since = if t.m.first_failure.contains_key(id) {
                t.m.first_failure[id]
            } else {
                now
            };
            let waits = exists|k: int|
                0 <= k < t.m.pending.len() && (#[trigger] t.m.pending[k]).0 == id;
            &&& after.m.first_failure == t.m.first_failure.insert(id, since)
            &&& now < since + 60_000_000_000 ==> {
                &&& after.m.queue == t.m.queue.push(id)
                &&& !after.m.states.contains_key(id)
                &&& after.m.retries == t.m.retries
                &&& after.m.finished == t.m.finished
                &&& after.s == t.s
            }
            &&& now >= since + 60_000_000_000 && waits ==> {
                &&& after.m.queue == t.m.queue
                &&& !after.m.states.contains_key(id)
                &&& after.m.finished == t.m.finished
                &&& after.s == t.s
            }
        }),
{
    lemma_pending(t.m.pending, id, 0);
    if exists|k: int| 0 <= k < t.m.pending.len() && (#[trigger] t.m.pending[k]).0 == id {
        let k = choose|k: int| 0 <= k < t.m.pending.len() && (#[trigger] t.m.pending[k]).0 == id;
        if pending_from(t.m.pending, id, 0) == t.m.pending.len() {
            assert(t.m.pending[k].0 != id);
        }
    }
}

/// A stripe that is asked for is put at the end of the queue, unless it is here,
/// has no source, or is on its way or done already; one that was done and has
/// been evicted since is queued anew.
pub proof fn law_a_requested_stripe_is_queued(m: FetcherModel, s: StateModel, id: usize)
    ensures
        ({
            let after = m.after_request(s, id);
            let state = s.fetch[id as int];
            let gone = state == Evicted || s.flags[id as int] & stripe_flags::WAS_EVICTED != 0;
            let known = m.states.contains_key(id) && !(m.states[id] == FetchState::Fetched && gone);
            if state == Fetched || state == NoSource || known {
                after == m
            } else {
                after == (FetcherModel {
                    queue: m.queue.push(id),
                    states: m.states.insert(id, FetchState::Queued),
                    ..m
                })
            }
        }),
{
}

/// Without requests, a fetcher that is to pull everything takes the next stripe
/// of its own list; with a request waiting, or without that order, it does not.
pub proof fn law_a_fetcher_without_requests_pulls_the_next_stripe(m: FetcherModel, s: StateModel)
    ensures
        ({
            let after = m.after_autofetch(s);
            if m.autofetch && m.queue.len() == 0 && m.auto_queue.len() > 0 {
                let id = m.auto_queue[0];
                let state = s.fetch[id as int];
                &&& after.auto_queue == m.auto_queue.drop_first()
                &&& state != Fetched && state != NoSource && !m.states.contains_key(id)
                    ==> after.queue == seq![id] && after.states == m.states.insert(
                    id,
                    FetchState::Queued,
                )
            } else {
                after == m
            }
        }),
{
}

/// A new fetcher that is to pull everything lists each stripe that holds a
/// sector of the source once, in order; one that is not lists none. No stripe is
/// on its way, and sixteen buffers are free.
pub proof fn law_a_new_fetcher_lists_every_stripe_of_the_source(
    source_sectors: u64,
    target_sectors: u64,
    stripe_sectors: u64,
    autofetch: bool,
)
    requires
        stripe_sectors > 0,
    ensures
        ({
            let m = FetcherModel::idle(source_sectors, target_sectors, stripe_sectors, autofetch);
            let count = m.auto_queue.len() as int;
            &&& forall|i: int| 0 <= i < count ==> i <= usize::MAX ==> (#[trigger] m.auto_queue[i])
                == i
            &&& autofetch ==> source_sectors <= count * stripe_sectors
            &&& autofetch && source_sectors > 0 ==> count > 0 && (count - 1) * stripe_sectors
                < source_sectors
            &&& !autofetch || source_sectors == 0 ==> count == 0
            &&& m.queue.len() == 0 && m.pending.len() == 0 && m.finished.len() == 0
            &&& m.states == Map::<usize, FetchState>::empty()
            &&& m.free == 16
            &&& m.source_sectors == source_sectors && m.target_sectors == target_sectors
            &&& m.stripe_sectors == stripe_sectors && m.autofetch == autofetch
            &&& !m.disconnected && !m.never_disconnect && !m.expects_pushes
        }),
{
    let c = stripe_sectors as int;
    let a = source_sectors as int;
    let whole = a / c;
    let rest = a % c;
    vstd::arithmetic::div_mod::lemma_fundamental_div_mod(a, c);
    vstd::arithmetic::div_mod::lemma_div_pos_is_pos(a, c);
    assert(c * whole == whole * c && (whole - 1) * c == whole * c - c && (whole + 1) * c == whole
        * c + c) by (nonlinear_arith);
    if whole == 0 {
        assert(c * 0 == 0);
    }
    let m = FetcherModel::idle(source_sectors, target_sectors, stripe_sectors, autofetch);
    assert(autofetch ==> m.auto_queue.len() == if rest == 0 {
        whole
    } else {
        whole + 1
    });
}

/// The first waiting stripe is pulled: a buffer is taken for it and the source
/// is asked for it, and if the source accepts, it is on its way. One that is
/// here by now, or has no source, is dropped from the queue, and the source is
/// not asked.
pub proof fn law_the_first_waiting_stripe_is_pulled(t: FetchTick, accepted: Answer, now: u64)
    requires
        t.m.queue.len() > 0,
        t.m.free > 0,
    ensures
        ({
            let id = t.m.queue[0];
            let state = t.s.fetch[id as int];
            let after = t.started_one(accepted is Ok, now);
            if state == Fetched || state == NoSource {
                &&& t.start_calls(accepted) == Seq::<SourceCall>::empty()
                &&& after.m.queue == t.m.queue.drop_first()
                &&& after.m.states == t.m.states.insert(id, FetchState::Fetched)
                &&& after.m.free == t.m.free && after.m.buffers == t.m.buffers
            } else {
                &&& t.start_calls(accepted) == seq![
                    SourceCall::Request { stripe_id: id, result: accepted },
                ]
                &&& accepted is Ok ==> {
                    &&& after.m.queue == t.m.queue.drop_first()
                    &&& after.m.states == t.m.states.insert(id, FetchState::Fetching)
                    &&& after.m.buffers == t.m.buffers.insert(id)
                    &&& after.m.free == t.m.free - 1
                    &&& after.s == t.s
                }
                &&& accepted is Err && !t.m.expects_pushes && (!t.m.retries.contains_key(id)
                    || t.m.retries[id] < 3) ==> {
                    &&& after.m.queue == t.m.queue.drop_first().push(id)
                    &&& after.m.free == t.m.free
                    &&& !after.m.buffers.contains(id)
                    &&& after.s == t.s
                }
            }
        }),
{
}

/// A report of the source that a stripe failed, or came without data, or could
/// not be handed over, counts against a stripe that a buffer is kept for; any
/// other report changes nothing.
pub proof fn law_a_report_without_data_counts_against_the_stripe(
    t: FetchTick,
    id: usize,
    ok: bool,
    write: Handover,
    now: u64,
)
    ensures
        ({
            let after = t.arrived(id, ok, write.done(), now);
            let came = ok && write.data is Some && write.result is Ok;
            if !t.m.buffers.contains(id) || came {
                after == t
            } else {
                &&& !after.m.buffers.contains(id)
                &&& after.m.free == t.m.free + 1
                &&& !t.m.expects_pushes && (!t.m.retries.contains_key(id) || t.m.retries[id] < 3)
                    ==> after.m.queue == t.m.queue.push(id) && after.s == t.s
                &&& after.m.finished == t.m.finished || after.m.finished == t.m.finished.push(
                    (id, false),
                )
            }
        }),
        t.take_calls(id, write) == if t.m.buffers.contains(id) {
            seq![SourceCall::Take { stripe_id: id, data: write.data }]
        } else {
            Seq::empty()
        },
{
}

/// A pushed copy waits exactly while a pull or write of its stripe is on its
/// way: any other copy that waits is looked at.
pub proof fn law_every_free_pushed_copy_is_looked_at(m: FetcherModel, at: int)
    requires
        0 <= at < m.pending.len(),
    ensures
        ({
            let id = m.pending[at].0;
            let busy = m.states.contains_key(id) && m.states[id] != FetchState::Fetched;
            ready_ids(m, m.pending).contains(id) == !busy
        }),
{
    lemma_ready(m, m.pending, at);
    lemma_ready_free(m, m.pending);
    let id = m.pending[at].0;
    if m.in_flight(id) && ready_ids(m, m.pending).contains(id) {
        let k = ready_ids(m, m.pending).index_of(id);
        assert(!m.in_flight(ready_ids(m, m.pending)[k]));
    }
}

/// A copy no pull stands in the way of is listed.
proof fn lemma_ready(m: FetcherModel, pending: Seq<(usize, Seq<u8>, PushPermit)>, at: int)
    requires
        0 <= at < pending.len(),
    ensures
        !m.in_flight(pending[at].0) ==> ready_ids(m, pending).contains(pending[at].0),
    decreases pending.len(),
{
    let before = ready_ids(m, pending.drop_last());
    let all = ready_ids(m, pending);
    let id = pending[at].0;
    if !m.in_flight(id) {
        if at < pending.len() - 1 {
            lemma_ready(m, pending.drop_last(), at);
            let k = before.index_of(id);
            assert(all[k] == id);
        } else {
            assert(all.last() == id);
            assert(all[all.len() - 1] == id);
        }
    }
}

/// Only such copies are listed.
proof fn lemma_ready_free(m: FetcherModel, pending: Seq<(usize, Seq<u8>, PushPermit)>)
    ensures
        forall|k: int|
            0 <= k < ready_ids(m, pending).len() ==> !m.in_flight(
                #[trigger] ready_ids(m, pending)[k],
            ),
    decreases pending.len(),
{
    if pending.len() > 0 {
        lemma_ready_free(m, pending.drop_last());
        let before = ready_ids(m, pending.drop_last());
        let all = ready_ids(m, pending);
        assert forall|k: int| 0 <= k < all.len() implies !m.in_flight(#[trigger] all[k]) by {
            if k < before.len() {
                assert(all[k] == before[k]);
            }
        }
    }
}

/// The source is let go exactly when every stripe it holds is here, nothing is
/// waiting or under way, it was not let go before and is not to be kept.
pub proof fn law_the_source_is_let_go_once_everything_is_here(
    m: FetcherModel,
    s: StateModel,
    source_busy: bool,
    target_busy: bool,
)
    ensures
        m.may_disconnect(s, m.is_busy(source_busy, target_busy)) <==> {
            &&& !m.disconnected && !m.never_disconnect
            &&& s.fetched == s.source
            &&& m.queue.len() == 0 && m.auto_queue.len() == 0 && m.finished.len() == 0
            &&& !source_busy && !target_busy
        },
{
}

/// A pushed copy of a stripe that is here, or has no source, is dropped and its
/// slot comes back; one whose stripe is on its way is kept, with its data; any
/// other is written at once if there is a buffer.
pub proof fn law_what_becomes_of_a_pushed_copy(
    m: FetcherModel,
    s: StateModel,
    id: usize,
    data: Seq<u8>,
    permit: PushPermit,
)
    requires
        forall|k: int| 0 <= k < m.pending.len() ==> (#[trigger] m.pending[k]).0 != id,
    ensures
        ({
            let after = m.after_push(s, id, data, permit);
            let state = s.fetch[id as int];
            let under_way = m.states.contains_key(id) && m.states[id] != FetchState::Fetched;
            if state == Fetched || state == NoSource {
                &&& after == (FetcherModel { dropped: m.dropped.push(permit), ..m })
                &&& !m.push_writes(s, id)
            } else if under_way {
                &&& after == (FetcherModel { pending: m.pending.push((id, data, permit)), ..m })
                &&& !m.push_writes(s, id)
            } else if m.free == 0 {
                &&& after.pending == m.pending.push((id, data, permit))
                &&& after.dropped == m.dropped
                &&& !m.push_writes(s, id)
            } else {
                &&& m.push_writes(s, id)
                &&& after.pending == m.pending
                &&& after.dropped == m.dropped.push(permit)
                &&& after.states == m.states.insert(id, FetchState::Fetching)
                &&& after.buffers == m.buffers.insert(id)
                &&& after.free == m.free - 1
            }
        }),
{
    lemma_pending(m.pending, id, 0);
}

/// A newer pushed copy of a stripe takes the place of one that waits, whose slot
/// comes back.
pub proof fn law_a_newer_pushed_copy_replaces_the_older(
    m: FetcherModel,
    s: StateModel,
    id: usize,
    data: Seq<u8>,
    permit: PushPermit,
    at: int,
)
    requires
        !local(s, id),
        m.states.contains_key(id),
        m.states[id] != FetchState::Fetched,
        0 <= at < m.pending.len(),
        m.pending[at].0 == id,
        forall|k: int| 0 <= k < at ==> (#[trigger] m.pending[k]).0 != id,
    ensures
        m.after_push(s, id, data, permit) == (FetcherModel {
            pending: m.pending.update(at, (id, data, permit)),
            dropped: m.dropped.push(m.pending[at].2),
            ..m
        }),
{
    lemma_pending(m.pending, id, 0);
    let found = pending_from(m.pending, id, 0);
    if found > at {
        assert(m.pending[at].0 != id);
    } else if found < at {
        assert(m.pending[found].0 != id);
    }
}

/// A pushed copy that waited: if its stripe is here by now it is dropped;
/// without a buffer it waits on; otherwise it is on its way to the target, and
/// what was queued to be pulled for the stripe is dropped. Its slot comes back
/// unless it waits on.
pub proof fn law_what_becomes_of_a_copy_that_waited(t: FetchTick, at: int, now: u64)
    requires
        0 <= at < t.m.pending.len(),
        forall|i: int|
            0 <= i < t.m.pending.len() && i != at ==> (#[trigger] t.m.pending[i]).0
                != t.m.pending[at].0,
    ensures
        ({
            let (id, data, permit) = t.m.pending[at];
            let state = t.s.fetch[id as int];
            let after = t.push_applied(id, true, now);
            let rest = t.m.pending.remove(at);
            &&& after.s == t.s
            &&& state == Fetched || state == NoSource ==> after.m == (FetcherModel {
                pending: rest,
                dropped: t.m.dropped.push(permit),
                ..t.m
            })
            &&& state != Fetched && state != NoSource && t.m.free == 0 ==> after.m.pending
                == rest.push((id, data, permit)) && after.m.dropped == t.m.dropped
            &&& state != Fetched && state != NoSource && t.m.free > 0 ==> {
                &&& after.m.pending == rest
                &&& after.m.dropped == t.m.dropped.push(permit)
                &&& after.m.states == t.m.states.insert(id, FetchState::Fetching)
                &&& after.m.buffers == t.m.buffers.insert(id)
                &&& after.m.free == t.m.free - 1
                &&& !after.m.retries.contains_key(id)
            }
        }),
{
    let (id, data, permit) = t.m.pending[at];
    lemma_pending(t.m.pending, id, 0);
    let found = pending_from(t.m.pending, id, 0);
    assert(found == at) by {
        if found < at {
            assert(t.m.pending[found].0 != id);
        } else if at < found {
            assert(t.m.pending[at].0 != id);
        }
    }
    let rest = t.m.pending.remove(at);
    assert forall|i: int| 0 <= i < rest.len() implies (#[trigger] rest[i]).0 != id by {
        if i < at {
            assert(rest[i] == t.m.pending[i]);
        } else {
            assert(rest[i] == t.m.pending[i + 1]);
        }
    }
    lemma_pending(rest, id, 0);
}

/// The copies that may be written are taken one by one, in order, and none is
/// left out; so are the pulls, the reports of the source and those of the
/// target, each on what the one before left.
pub proof fn law_a_tick_works_item_by_item(
    t: FetchTick,
    ids: Seq<usize>,
    submits: Seq<Answer>,
    requests: Seq<Answer>,
    arrivals: Seq<(usize, bool)>,
    writes: Seq<Handover>,
    completions: Seq<(usize, bool)>,
    flushes: Seq<Answer>,
    now: u64,
    count: nat,
)
    requires
        count > 0,
        requests.len() == count,
    ensures
        ({
            let before = t.pushes_applied(ids, submits, now, (count - 1) as nat);
            let id = ids[count - 1];
            let submit = submits[count - 1];
            &&& t.pushes_applied(ids, submits, now, count) == before.push_applied(
                id,
                submit is Ok,
                now,
            )
            &&& t.pushes_calls(ids, submits, now, count) == t.pushes_calls(
                ids,
                submits,
                now,
                (count - 1) as nat,
            ) + before.push_calls(id, submit)
        }),
        ({
            let front = requests.drop_last();
            let before = t.started(front, now);
            &&& t.started(requests, now) == before.started_one(requests.last() is Ok, now)
            &&& t.started_calls(requests, now) == t.started_calls(front, now)
                + before.start_calls(requests.last())
        }),
        ({
            let before = t.all_arrived(arrivals, writes, now, (count - 1) as nat);
            let (id, ok) = arrivals[count - 1];
            let write = writes[count - 1];
            &&& t.all_arrived(arrivals, writes, now, count) == before.arrived(
                id,
                ok,
                write.data is Some && write.result is Ok,
                now,
            )
            &&& t.all_arrival_calls(arrivals, writes, now, count) == t.all_arrival_calls(
                arrivals,
                writes,
                now,
                (count - 1) as nat,
            ) + before.arrival_calls(id, ok, write)
        }),
        ({
            let before = t.all_done(completions, flushes, now, (count - 1) as nat);
            let (id, ok) = completions[count - 1];
            let flush = flushes[count - 1];
            &&& t.all_done(completions, flushes, now, count) == before.target_done(
                id,
                ok,
                flush is Ok,
                now,
            )
            &&& t.all_done_calls(completions, flushes, now, count) == t.all_done_calls(
                completions,
                flushes,
                now,
                (count - 1) as nat,
            ) + before.done_calls(id, ok, flush)
        }),
{
}

/// Every stripe whose write the target reports as done is flushed within the
/// tick.
pub proof fn law_a_tick_flushes_what_was_written(
    t: FetchTick,
    inputs: FetchInputs,
    now: u64,
    k: int,
)
    requires
        0 <= k < inputs.completions.len(),
    ensures
        ({
            let come = t.autofetched().ready_applied(inputs.early_submits, now).started(
                inputs.requests,
                now,
            ).all_arrived(inputs.arrivals, inputs.writes, now, inputs.arrivals.len());
            let at = come.all_done(inputs.completions, inputs.flushes, now, k as nat);
            let (id, ok) = inputs.completions[k];
            ok && id < at.s.fetch.len() && at.m.states.contains_key(id) && at.m.states[id]
                == FetchState::Fetching ==> t.target_calls(inputs, now).contains(
                IoCall::Flush { id },
            )
        }),
{
    let begun = t.autofetched();
    let pulled = begun.ready_applied(inputs.early_submits, now).started(inputs.requests, now);
    let come = pulled.all_arrived(inputs.arrivals, inputs.writes, now, inputs.arrivals.len());
    let at = come.all_done(inputs.completions, inputs.flushes, now, k as nat);
    let (id, ok) = inputs.completions[k];
    if ok && id < at.s.fetch.len() && at.m.states.contains_key(id) && at.m.states[id]
        == FetchState::Fetching {
        let count = inputs.completions.len();
        let part = come.all_done_calls(inputs.completions, inputs.flushes, now, count);
        lemma_flush_is_asked(come, inputs.completions, inputs.flushes, now, count, k);
        let j = part.index_of(IoCall::Flush { id });
        let first = begun.ready_calls(inputs.early_submits, now) + pulled.all_arrival_calls(
            inputs.arrivals,
            inputs.writes,
            now,
            inputs.arrivals.len(),
        ) + seq![IoCall::Poll { done: inputs.completions }];
        let all = t.target_calls(inputs, now);
        assert(all[first.len() + j] == part[j]);
    }
}

/// A flush that a report calls for is among the calls.
proof fn lemma_flush_is_asked(
    t: FetchTick,
    completions: Seq<(usize, bool)>,
    flushes: Seq<Answer>,
    now: u64,
    count: nat,
    k: int,
)
    requires
        0 <= k < count <= completions.len(),
        ({
            let at = t.all_done(completions, flushes, now, k as nat);
            let (id, ok) = completions[k];
            ok && id < at.s.fetch.len() && at.m.states.contains_key(id) && at.m.states[id]
                == FetchState::Fetching
        }),
    ensures
        t.all_done_calls(completions, flushes, now, count).contains(
            IoCall::Flush { id: completions[k].0 },
        ),
    decreases count,
{
    let id = completions[k].0;
    let before = t.all_done_calls(completions, flushes, now, (count - 1) as nat);
    let all = t.all_done_calls(completions, flushes, now, count);
    if k == count - 1 {
        assert(all[before.len() as int] == IoCall::<Seq<u8>>::Flush { id });
    } else {
        lemma_flush_is_asked(t, completions, flushes, now, (count - 1) as nat, k);
        let j = before.index_of(IoCall::Flush { id });
        assert(all[j] == before[j]);
    }
}

/// The pushed copies that no pull stands in the way of are all written, or
/// dropped, at the start and at the end of a tick.
pub proof fn law_ready_copies_are_all_taken(t: FetchTick, submits: Seq<Answer>, now: u64)
    ensures
        ({
            let ids = ready_ids(t.m, t.m.pending);
            &&& t.ready_applied(submits, now) == t.pushes_applied(ids, submits, now, ids.len())
            &&& t.ready_calls(submits, now) == t.pushes_calls(ids, submits, now, ids.len())
        }),
{
    reveal(FetchTick::ready_applied);
    reveal(FetchTick::ready_calls);
}

/// A tick begins with the stripe that is pulled for want of requests and the
/// pushed copies that may be written, goes on with the pulls, what the source
/// reports and what the target reports, and ends with the copies that may be
/// written by then.
pub proof fn law_the_order_of_a_fetchers_tick(t: FetchTick, x: FetchInputs, now: u64)
    ensures
        ({
            let begun = FetchTick { m: t.m.after_autofetch(t.s), ..t };
            let ready = begun.ready_applied(x.early_submits, now);
            let pulled = ready.started(x.requests, now);
            let come = pulled.all_arrived(x.arrivals, x.writes, now, x.arrivals.len());
            let done = come.all_done(x.completions, x.flushes, now, x.completions.len());
            &&& t.ticked(x, now) == done.ready_applied(x.late_submits, now)
            &&& t.target_calls(x, now) == begun.ready_calls(x.early_submits, now)
                + pulled.all_arrival_calls(x.arrivals, x.writes, now, x.arrivals.len()) + seq![
                IoCall::Poll { done: x.completions },
            ] + come.all_done_calls(x.completions, x.flushes, now, x.completions.len())
                + done.ready_calls(x.late_submits, now)
            &&& t.source_calls(x, now) == ready.started_calls(x.requests, now) + seq![
                SourceCall::Poll { arrived: x.arrivals },
            ] + pulled.all_take_calls(x.arrivals, x.writes, now, x.arrivals.len())
        }),
{
    reveal(FetchTick::autofetched);
}

} // verus!
