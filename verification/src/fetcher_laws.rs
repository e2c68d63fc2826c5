//! What the fetcher promises as a whole.

use vstd::prelude::*;
use crate::io::Answer;
use crate::metadata::shared_state::StateModel;
use crate::push_gate::PushPermit;
use crate::stripe_fetcher::{
    lemma_pending, local, other_than, pending_from, FetchState, FetchTick, FetcherModel,
    MAX_FETCH_RETRIES,
};

verus! {

/// Asking again for a stripe that is on its way changes nothing.
pub proof fn law_repeat_requests_are_ignored(m: FetcherModel, s: StateModel, id: usize)
    ensures
        m.after_request(s, id).after_request(s, id) == m.after_request(s, id),
{
}

/// A stripe that is here, or that the source never had, is never queued.
pub proof fn law_local_stripes_are_not_queued(m: FetcherModel, s: StateModel, id: usize)
    requires
        local(s, id),
    ensures
        m.after_request(s, id) == m,
{
}

/// A pushed copy of a stripe that is not here is never lost: it is on its way
/// to the disk, or kept for later.
pub proof fn law_a_pushed_copy_is_never_lost(
    m: FetcherModel,
    s: StateModel,
    id: usize,
    data: Seq<u8>,
    permit: PushPermit,
)
    requires
        !local(s, id),
    ensures
        ({
            let after = m.after_push(s, id, data, permit);
            let at = pending_from(after.pending, id, 0);
            ||| m.push_writes(s, id) && after.buffers.contains(id) && after.states[id]
                == FetchState::Fetching
            ||| at < after.pending.len() && after.pending[at] == (id, data, permit)
        }),
{
    let before = if m.in_flight(id) {
        m
    } else {
        m.without_pull(id)
    };
    lemma_pending(before.pending, id, 0);
    lemma_pending(before.with_pending(id, data, permit).pending, id, 0);
    let at = pending_from(before.pending, id, 0);
    let kept = before.with_pending(id, data, permit).pending;
    assert(kept[at] == (id, data, permit));
    let found = pending_from(kept, id, 0);
    if found < at {
        assert(before.pending[found].0 != id);
    }
}

/// A pushed copy that is written takes the stripe off the queue: the pull
/// would fail, and its completion would be taken for the write.
pub proof fn law_a_pushed_copy_drops_the_queued_pull(
    m: FetcherModel,
    id: usize,
    data: Seq<u8>,
    permit: PushPermit,
)
    ensures
        !m.after_push_write(id, data, permit).queue.contains(id),
        !m.after_push_write(id, data, permit).retries.contains_key(id),
        !m.after_push_write(id, data, permit).first_failure.contains_key(id),
{
    lemma_filter_leaves_out(m.queue, id);
}

/// Slots the fetcher has in its hands: of copies that wait, and of copies that
/// wait no longer.
pub open spec fn fetcher_slots(m: FetcherModel) -> nat {
    m.pending.len() + m.dropped.len()
}

/// A push leaves its slot with the fetcher, whatever becomes of the copy, and
/// no slot comes back while the copy it stands for waits.
pub proof fn law_a_push_leaves_its_slot_with_the_fetcher(
    m: FetcherModel,
    s: StateModel,
    id: usize,
    data: Seq<u8>,
    permit: PushPermit,
)
    ensures
        fetcher_slots(m.after_push(s, id, data, permit)) == fetcher_slots(m) + 1,
        !local(s, id) && !m.push_writes(s, id) && !m.has_pending(id) ==> m.after_push(
            s,
            id,
            data,
            permit,
        ).dropped == m.dropped,
{
    lemma_pending(m.pending, id, 0);
}

/// Writing a copy that waited, or finding it no longer needed, moves its slot
/// and loses none.
pub proof fn law_applying_a_push_keeps_slots(t: FetchTick, id: usize, submitted: bool, now: u64)
    ensures
        fetcher_slots(t.push_applied(id, submitted, now).m) == fetcher_slots(t.m),
{
    lemma_pending(t.m.pending, id, 0);
    let at = pending_from(t.m.pending, id, 0);
    if at < t.m.pending.len() {
        lemma_pending(t.m.pending.remove(at), id, 0);
    }
}

/// A queue without `id` does not hold `id`.
proof fn lemma_filter_leaves_out(queue: Seq<usize>, id: usize)
    ensures
        !queue.filter(other_than(id)).contains(id),
    decreases queue.len(),
{
    reveal(Seq::filter);
    if queue.len() > 0 {
        lemma_filter_leaves_out(queue.drop_last(), id);
        let before = queue.drop_last().filter(other_than(id));
        let after = queue.filter(other_than(id));
        assert forall|i: int| 0 <= i < after.len() implies after[i] != id by {
            if i < before.len() {
                assert(before.contains(before[i]));
            }
        }
    }
}

/// Without a snapshot behind it, a stripe is tried once and then again as
/// often as the retries allow before it is given up, and each failed attempt
/// but the last puts it back on the queue.
pub proof fn law_a_stripe_is_given_up_after_its_retries(m: FetcherModel, id: usize, now: u64)
    requires
        !m.expects_pushes,
        m.retried(id) <= MAX_FETCH_RETRIES,
    ensures
        m.gives_up(id, now) == (m.retried(id) == MAX_FETCH_RETRIES),
        !m.gives_up(id, now) ==> m.after_completed(id, false, now).retried(id) == m.retried(id)
            + 1 && m.after_completed(id, false, now).queue == m.queue.push(id),
        m.gives_up(id, now) ==> m.after_completed(id, false, now).finished
            == m.finished.push((id, false)),
{
}

/// A fork never gives up a refused stripe while its push may still be on the
/// way, or is already here and waits to be written.
pub proof fn law_a_fork_waits_for_the_push(
    m: FetcherModel,
    s: StateModel,
    id: usize,
    now: u64,
)
    requires
        m.expects_pushes,
        m.awaits_push(id, now) || m.has_pending(id),
    ensures
        m.state_after_completed(s, id, false, now) == s,
        m.after_completed(id, false, now).finished == m.finished,
{
}

/// A queued stripe that has arrived meanwhile is not pulled.
pub proof fn law_an_arrived_stripe_is_not_pulled(t: FetchTick, accepted: bool, now: u64)
    requires
        t.m.queue.len() > 0,
        local(t.s, t.m.queue[0]),
    ensures
        t.started_one(accepted, now).m.buffers == t.m.buffers,
        t.started_one(accepted, now).m.free == t.m.free,
        t.started_one(accepted, now).s == t.s,
{
}

/// A stripe is reported as here only once its flush has succeeded.
pub proof fn law_a_stripe_is_here_only_once_flushed(
    t: FetchTick,
    id: usize,
    ok: bool,
    flushed: bool,
    now: u64,
)
    ensures
        t.target_done(id, ok, flushed, now).m.finished == t.m.finished.push((id, true)) ==> ok
            && t.m.states.contains_key(id) && t.m.states[id] == FetchState::Flushing,
{
    if t.target_done(id, ok, flushed, now).m.finished == t.m.finished.push((id, true)) {
        assert(t.target_done(id, ok, flushed, now).m.finished.last() == (id, true));
    }
}

/// How many stripes wait after pulls that the source all accepts.
proof fn lemma_accepted_pulls(t: FetchTick, requests: Seq<Answer>, now: u64)
    requires
        forall|k: int| 0 <= k < requests.len() ==> (#[trigger] requests[k]) is Ok,
        forall|k: int| 0 <= k < requests.len() ==> #[trigger] t.pulls_at(requests, now, k),
    ensures
        t.started(requests, now).m.queue.len() + requests.len() == t.m.queue.len(),
    decreases requests.len(),
{
    if requests.len() > 0 {
        let front = requests.drop_last();
        let last = requests.len() - 1;
        assert forall|k: int| 0 <= k < front.len() implies #[trigger] t.pulls_at(
            front,
            now,
            k,
        ) by {
            assert(t.pulls_at(requests, now, k));
            assert(front.take(k) =~= requests.take(k));
        }
        assert(forall|k: int| 0 <= k < front.len() ==> front[k] == requests[k]);
        lemma_accepted_pulls(t, front, now);
        assert(t.pulls_at(requests, now, last));
        assert(requests.take(last) =~= front);
        assert(requests[last] == requests.last());
    }
}

/// A tick asks a source that accepts everything for every stripe that waits, as
/// long as there are buffers.
pub proof fn law_an_accepting_source_is_asked_for_every_waiting_stripe(
    t: FetchTick,
    requests: Seq<Answer>,
    now: u64,
)
    requires
        t.pulls_all(requests, now),
        forall|k: int| 0 <= k < requests.len() ==> (#[trigger] requests[k]) is Ok,
        t.m.queue.len() < usize::MAX,
    ensures
        t.started(requests, now).m.queue.len() == 0 || t.started(requests, now).m.free == 0,
        requests.len() + t.started(requests, now).m.queue.len() == t.m.queue.len(),
{
    lemma_accepted_pulls(t, requests, now);
}

} // verus!
