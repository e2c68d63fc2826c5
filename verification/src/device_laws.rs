//! What the lazy channel promises as a whole.

use vstd::prelude::*;
use crate::device::{
    all_here, here, leaving, marked_written, state_after_status, status_from, stripes_where,
    unwritten, ChannelModel, RWRequest, RequestType, StripesFetchStatus,
};
use crate::io::IoCall;
use crate::metadata::shared_state::{
    Evicted, Evicting, Failed, GATE_FAIL, GATE_OPEN, NotFetched, StateModel, Written,
};

verus! {

/// All stripes are here exactly if nothing is waited for.
pub proof fn law_complete_means_all_here(s: StateModel, first: int, last: int)
    requires
        first <= last + 1,
    ensures
        (status_from(s, first, last) == StripesFetchStatus::Complete) == all_here(s, first, last),
    decreases last + 1 - first,
{
    if first <= last {
        law_complete_means_all_here(s, first + 1, last);
        if here(s.fetch[first]) && all_here(s, first + 1, last) {
            assert forall|i: int| first <= i <= last implies here(#[trigger] s.fetch[i]) by {
                if i > first {
                    assert(here(s.fetch[i]));
                }
            }
        }
    }
}

/// A request that touches a stripe that is being evicted, that was evicted or
/// that has not arrived never passes to the base device.
pub proof fn law_missing_stripes_never_pass<B>(
    m: ChannelModel<B>,
    s: StateModel,
    r: RWRequest<B>,
    i: int,
)
    requires
        r.stripe_id_first <= i <= r.stripe_id_last,
        s.fetch[i] == Evicting || s.fetch[i] == Evicted || s.fetch[i] == NotFetched
            || s.fetch[i] == Failed,
    ensures
        !m.passes(s, r),
{
    assert(!here(s.fetch[i]));
}

/// Reads of stripes that are here pass whatever the write gate says; writes
/// pass only while it is open.
pub proof fn law_the_write_gate_holds_writes_only<B>(
    m: ChannelModel<B>,
    s: StateModel,
    r: RWRequest<B>,
)
    ensures
        r.kind == RequestType::In && all_here(
            s,
            r.stripe_id_first as int,
            r.stripe_id_last as int,
        ) ==> m.passes(s, r),
        r.kind == RequestType::Out && s.gate != GATE_OPEN ==> !m.passes(s, r),
{
}

/// While a request is with the base device every stripe it touches is pinned
/// once more than before, and its completion takes exactly those pins back.
pub proof fn law_completion_takes_the_pins_back<B>(
    m: ChannelModel<B>,
    s: StateModel,
    r: RWRequest<B>,
)
    requires
        s.wf(),
        forall|i: int|
            r.stripe_id_first <= i <= r.stripe_id_last ==> (#[trigger] s.inflight[i]) < u16::MAX,
    ensures
        forall|i: int|
            0 <= i < s.inflight.len() && r.stripe_id_first <= i <= r.stripe_id_last ==> (
            #[trigger] ChannelModel::state_after_pass(s, r).inflight[i]) == s.inflight[i] + 1,
        m.after_pass(r).state_after_release(
            ChannelModel::state_after_pass(s, r),
            r.id,
        ).inflight == s.inflight,
        !m.after_pass(r).after_release(r.id).pinned.contains_key(r.id),
{
    assert(m.after_pass(r).state_after_release(
        ChannelModel::state_after_pass(s, r),
        r.id,
    ).inflight =~= s.inflight);
}

/// A completion of something that pinned nothing, such as a flush, unpins
/// nothing.
pub proof fn law_other_completions_touch_no_pin<B>(m: ChannelModel<B>, s: StateModel, id: usize)
    requires
        !m.pinned.contains_key(id),
    ensures
        m.state_after_release(s, id) == s,
{
}

/// After a refused hand-over nothing that was given to the base device since
/// the last one is pinned any more.
pub proof fn law_a_refused_hand_over_releases_its_pins<B>(m: ChannelModel<B>, id: usize)
    requires
        m.unsubmitted.contains(id),
    ensures
        !m.after_submit(false).pinned.contains_key(id),
{
    lemma_released(m, m.unsubmitted, m.unsubmitted.len(), m.unsubmitted.index_of(id));
}

/// A pin that was undone stays undone.
proof fn lemma_released<B>(m: ChannelModel<B>, ids: Seq<usize>, count: nat, k: int)
    requires
        0 <= k < count <= ids.len(),
    ensures
        !m.after_releases(ids, count).pinned.contains_key(ids[k]),
    decreases count,
{
    if k < count - 1 {
        lemma_released(m, ids, (count - 1) as nat, k);
    }
}

/// A write that arrives under a failing write gate fails at once and asks for
/// nothing.
pub proof fn law_a_failing_write_gate_fails_writes<B>(
    m: ChannelModel<B>,
    s: StateModel,
    r: RWRequest<B>,
    asked: nat,
    told: nat,
    now: u64,
)
    requires
        s.gate == GATE_FAIL,
    ensures
        m.after_add_write(s, r, asked, told, now) == m.after_finish(r.id, false),
        m.state_after_add_write(s, r, asked, told) == s,
{
}

/// A stripe counts as written from the moment a write to it waits.
pub proof fn law_a_queued_write_counts_as_written<B>(
    m: ChannelModel<B>,
    s: StateModel,
    r: RWRequest<B>,
    asked: nat,
    told: nat,
    now: u64,
)
    requires
        s.wf(),
        m.track_written,
        r.stripe_id_first <= r.stripe_id_last < s.fetch.len(),
        s.fetch.len() <= usize::MAX,
        asked <= m.fetches_wanted(s, r).len(),
        told == stripes_where(
            r.stripe_id_first as int,
            r.stripe_id_last as int,
            unwritten(s),
        ).len(),
        m.after_add_write(s, r, asked, told, now).queue.len() > m.queue.len(),
    ensures
        forall|i: int|
            r.stripe_id_first <= i <= r.stripe_id_last ==> (#[trigger] m.state_after_add_write(
                s,
                r,
                asked,
                told,
            ).write[i]) == Written,
{
    let first = r.stripe_id_first as int;
    let last = r.stripe_id_last as int;
    let looked = state_after_status(s, first, last);
    lemma_marked(looked, first, last, unwritten(s), told);
    let ids = stripes_where(first, last, unwritten(s));
    let after = marked_written(looked, ids, told);
    assert forall|i: int| first <= i <= last implies after.write[i] == Written by {
        if looked.write[i] != Written {
            lemma_listed(first, last, unwritten(s), i);
        }
    }
}

/// A stripe of the range that satisfies `p` is listed.
pub proof fn lemma_listed(first: int, last: int, p: spec_fn(int) -> bool, i: int)
    requires
        0 <= first <= i <= last < usize::MAX,
        p(i),
    ensures
        stripes_where(first, last, p).contains(i as usize),
    decreases last - first,
{
    let all = stripes_where(first, last, p);
    if i == last {
        assert(all[all.len() - 1] == i as usize);
    } else {
        lemma_listed(first, last - 1, p, i);
        let before = stripes_where(first, last - 1, p);
        let k = before.index_of(i as usize);
        assert(all[k] == i as usize);
    }
}

/// Marking stripes as written marks them, and unmarks none.
pub proof fn lemma_marked(s: StateModel, first: int, last: int, p: spec_fn(int) -> bool, count: nat)
    requires
        s.wf(),
        0 <= first <= last < s.fetch.len(),
        s.fetch.len() <= usize::MAX,
        count <= stripes_where(first, last, p).len(),
    ensures
        ({
            let ids = stripes_where(first, last, p);
            let after = marked_written(s, ids, count);
            &&& after.write.len() == s.write.len()
            &&& forall|i: int|
                0 <= i < s.write.len() && s.write[i] == Written ==> (#[trigger] after.write[i])
                    == Written
            &&& forall|k: int|
                0 <= k < count ==> after.write[#[trigger] ids[k] as int] == Written
        }),
    decreases count,
{
    let ids = stripes_where(first, last, p);
    if count > 0 {
        lemma_marked(s, first, last, p, (count - 1) as nat);
        lemma_in_range(first, last, p);
        let before = marked_written(s, ids, (count - 1) as nat);
        let after = marked_written(s, ids, count);
        assert(first <= ids[count - 1] <= last);
        assert forall|k: int| 0 <= k < count implies after.write[#[trigger] ids[k] as int]
            == Written by {
            assert(first <= ids[k] <= last);
            if k < count - 1 {
                assert(before.write[ids[k] as int] == Written);
            }
        }
    }
}

/// Listed stripes lie in the range.
pub proof fn lemma_in_range(first: int, last: int, p: spec_fn(int) -> bool)
    requires
        0 <= first <= last + 1 <= usize::MAX,
    ensures
        forall|k: int|
            0 <= k < stripes_where(first, last, p).len() ==> first <= (
            #[trigger] stripes_where(first, last, p)[k]) <= last,
    decreases last + 1 - first,
{
    if first <= last {
        lemma_in_range(first, last - 1, p);
        let before = stripes_where(first, last - 1, p);
        let all = stripes_where(first, last, p);
        assert forall|k: int| 0 <= k < all.len() implies first <= (#[trigger] all[k]) <= last by {
            if k < before.len() {
                assert(first <= before[k] <= last - 1);
            }
        }
    }
}

/// A waiting request none of whose stripes is leaving or gone asks for nothing
/// again: such a stripe is the fetcher's to finish.
pub proof fn law_only_leaving_stripes_are_asked_for_again<B>(
    s: StateModel,
    r: RWRequest<B>,
    resent: nat,
    now: u64,
)
    requires
        forall|i: int|
            r.stripe_id_first <= i <= r.stripe_id_last ==> (#[trigger] s.fetch[i]) != Evicting
                && s.fetch[i] != Evicted,
    ensures
        stripes_where(r.stripe_id_first as int, r.stripe_id_last as int, leaving(s)).len() == 0,
        ChannelModel::after_resend(s, r, resent, now) == r,
{
    lemma_none(r.stripe_id_first as int, r.stripe_id_last as int, leaving(s));
}

/// Where nothing satisfies `p`, nothing is listed.
proof fn lemma_none(first: int, last: int, p: spec_fn(int) -> bool)
    requires
        forall|i: int| first <= i <= last ==> !(#[trigger] p(i)),
    ensures
        stripes_where(first, last, p).len() == 0,
    decreases last + 1 - first,
{
    if first <= last {
        lemma_none(first, last - 1, p);
        assert(!p(last));
    }
}

/// Requests never overtake one another: what still waits after the queue was
/// worked through is the end of what waited before, in the same order.
pub proof fn law_waiting_requests_keep_their_order<B>(
    m: ChannelModel<B>,
    s: StateModel,
    resent: nat,
    now: u64,
)
    ensures
        ({
            let left = m.worked_through(s, resent, now).0.queue;
            &&& left.len() <= m.queue.len()
            &&& forall|i: int|
                0 <= i < left.len() ==> (#[trigger] left[i]).id == m.queue[m.queue.len()
                    - left.len() + i].id
        }),
    decreases m.queue.len(),
{
    if m.queue.len() > 0 {
        let r = m.queue[0];
        let popped = ChannelModel { queue: m.queue.drop_first(), ..m };
        let first = r.stripe_id_first as int;
        let last = r.stripe_id_last as int;
        let looked = state_after_status(s, first, last);
        law_waiting_requests_keep_their_order(
            popped.after_finish(r.id, false),
            looked,
            resent,
            now,
        );
        law_waiting_requests_keep_their_order(
            popped.after_pass(r).after_served(r),
            ChannelModel::state_after_pass(looked, r),
            resent,
            now,
        );
        let left = m.worked_through(s, resent, now).0.queue;
        assert forall|i: int| 0 <= i < left.len() implies (#[trigger] left[i]).id
            == m.queue[m.queue.len() - left.len() + i].id by {
            if left.len() < m.queue.len() {
                assert(popped.queue[popped.queue.len() - left.len() + i] == m.queue[m.queue.len()
                    - left.len() + i]);
            }
        }
    }
}

/// `call` serves one of the waiting requests, whose stripes are all here and
/// which, if it is a write, finds the write gate open.
pub open spec fn serves_local<B>(
    queue: Seq<RWRequest<B>>,
    s: StateModel,
    call: IoCall<B>,
) -> bool {
    exists|j: int|
        0 <= j < queue.len() && call == (#[trigger] queue[j]).call() && all_here(
            s,
            queue[j].stripe_id_first as int,
            queue[j].stripe_id_last as int,
        ) && (queue[j].kind == RequestType::Out ==> s.gate == GATE_OPEN)
}

/// A request that comes in reaches the base device only if all its stripes are
/// here and, if it is a write, the write gate is open; and it reaches the base
/// device or the image, never both.
pub proof fn law_only_local_requests_reach_the_base_device<B>(
    m: ChannelModel<B>,
    s: StateModel,
    r: RWRequest<B>,
)
    ensures
        m.base_calls(s, r).len() > 0 ==> {
            &&& m.base_calls(s, r) == seq![r.call()]
            &&& all_here(s, r.stripe_id_first as int, r.stripe_id_last as int)
            &&& r.kind == RequestType::Out ==> s.gate == GATE_OPEN
        },
        m.base_calls(s, r).len() + m.image_calls(s, r).len() <= 1,
{
}

/// What the base device is given of the waiting requests is local too, and as
/// many requests are given as are counted.
pub proof fn law_only_local_stripes_reach_the_base_device<B>(
    m: ChannelModel<B>,
    s: StateModel,
    resent: nat,
    now: u64,
)
    ensures
        m.worked_calls(s, now).len() == m.worked_through(s, resent, now).2,
        forall|k: int|
            0 <= k < m.worked_calls(s, now).len() ==> serves_local(
                m.queue,
                s,
                #[trigger] m.worked_calls(s, now)[k],
            ),
    decreases m.queue.len(),
{
    if m.queue.len() > 0 {
        let r = m.queue[0];
        let popped = ChannelModel { queue: m.queue.drop_first(), ..m };
        let first = r.stripe_id_first as int;
        let last = r.stripe_id_last as int;
        let looked = state_after_status(s, first, last);
        let passed = ChannelModel::state_after_pass(looked, r);
        law_only_local_stripes_reach_the_base_device(
            popped.after_finish(r.id, false),
            looked,
            resent,
            now,
        );
        law_only_local_stripes_reach_the_base_device(
            popped.after_pass(r).after_served(r),
            passed,
            resent,
            now,
        );
        let calls = m.worked_calls(s, now);
        assert forall|k: int| 0 <= k < calls.len() implies serves_local(
            m.queue,
            s,
            #[trigger] calls[k],
        ) by {
            let failed = popped.after_finish(r.id, false).worked_calls(looked, now);
            let rest = popped.after_pass(r).after_served(r).worked_calls(passed, now);
            if calls == failed {
                lemma_serves_more(m.queue, looked, s, calls[k]);
            } else {
                assert(calls == seq![r.call()] + rest);
                if k == 0 {
                    assert(m.queue[0].call() == calls[0]);
                    assert(all_here(looked, first, last));
                    assert(all_here(s, first, last));
                } else {
                    assert(calls[k] == rest[k - 1]);
                    lemma_serves_more(m.queue, passed, s, calls[k]);
                }
            }
        }
    }
}

/// What serves one of the later requests serves one of all.
proof fn lemma_serves_more<B>(
    queue: Seq<RWRequest<B>>,
    later: StateModel,
    s: StateModel,
    call: IoCall<B>,
)
    requires
        queue.len() > 0,
        later.fetch == s.fetch,
        later.gate == s.gate,
        serves_local(queue.drop_first(), later, call),
    ensures
        serves_local(queue, s, call),
{
    let rest = queue.drop_first();
    let j = choose|j: int|
        0 <= j < rest.len() && call == (#[trigger] rest[j]).call() && all_here(
            later,
            rest[j].stripe_id_first as int,
            rest[j].stripe_id_last as int,
        ) && (rest[j].kind == RequestType::Out ==> later.gate == GATE_OPEN);
    assert(queue[j + 1] == rest[j]);
    assert(all_here(s, rest[j].stripe_id_first as int, rest[j].stripe_id_last as int));
}

} // verus!
