//! What becomes of a guest's reads and writes.

use vstd::arithmetic::power2::pow2;
use vstd::prelude::*;
use crate::device::{
    addresses, all_here, all_written, awaited, fetch_calls, here, ids_of, leaving, marked_written,
    polled, request_for, state_after_status, status_from, stripes_where, unwritten, write_outcome,
    written_calls, ChannelModel, FETCH_RESEND_INTERVAL, RWRequest, RequestType, StripesFetchStatus,
};
use crate::device_laws::{lemma_listed, lemma_marked};
use crate::io::{Answer, IoCall, SinkCall};
use crate::metadata::shared_state::{
    Evicted, Evicting, Failed, Fetched, GATE_FAIL, GATE_OPEN, NoSource, NotFetched, StateModel,
    Written,
};
use crate::metadata::stripe_flags;

verus! {

/// A guest's request keeps the guest's own identifier, sectors and buffer, and
/// touches exactly the stripes that hold one of its sectors.
pub proof fn law_a_request_touches_the_stripes_of_its_sectors<B>(
    s: StateModel,
    kind: RequestType,
    sector_offset: u64,
    sector_count: u32,
    buf: B,
    id: usize,
)
    requires
        s.shift < 64,
        s.fetch.len() <= usize::MAX,
        addresses(s, sector_offset, sector_count),
    ensures
        ({
            let r = request_for(s, kind, sector_offset, sector_count, buf, id);
            let stripe = pow2(s.shift as nat) as int;
            let end = sector_offset + sector_count;
            &&& r.id == id && r.kind == kind && r.buf == buf
            &&& r.sector_offset == sector_offset && r.sector_count == sector_count
            &&& r.fetch_sent_at is None
            &&& r.stripe_id_first * stripe <= sector_offset < (r.stripe_id_first + 1) * stripe
            &&& r.stripe_id_last * stripe < end <= (r.stripe_id_last + 1) * stripe
            &&& r.stripe_id_first <= r.stripe_id_last < s.fetch.len()
        }),
{
    let end = (sector_offset + sector_count - 1) as u64;
    let stripe = pow2(s.shift as nat) as int;
    vstd::arithmetic::power2::lemma_pow2_pos(s.shift as nat);
    vstd::bits::lemma_u64_shr_is_div(sector_offset, s.shift as u64);
    vstd::bits::lemma_u64_shr_is_div(end, s.shift as u64);
    let shift = s.shift;
    assert(sector_offset >> shift == sector_offset >> (shift as u64) && end >> shift == end >> (
    shift as u64) && (sector_offset <= end && shift < 64 ==> (sector_offset >> shift) <= (end
        >> shift))) by (bit_vector);
    vstd::arithmetic::div_mod::lemma_fundamental_div_mod(sector_offset as int, stripe);
    vstd::arithmetic::div_mod::lemma_fundamental_div_mod(end as int, stripe);
    let a = sector_offset as int / stripe;
    let b = end as int / stripe;
    assert(stripe * a == a * stripe && (a + 1) * stripe == a * stripe + stripe) by (nonlinear_arith);
    assert(stripe * b == b * stripe && (b + 1) * stripe == b * stripe + stripe) by (nonlinear_arith);
}

/// Listed stripes satisfy `p`, and none is listed twice.
pub proof fn lemma_listed_hold(first: int, last: int, p: spec_fn(int) -> bool)
    requires
        0 <= first,
        last < usize::MAX,
    ensures
        forall|k: int|
            0 <= k < stripes_where(first, last, p).len() ==> first <= (#[trigger] stripes_where(
                first,
                last,
                p,
            )[k]) <= last && p(stripes_where(first, last, p)[k] as int),
        forall|j: int, k: int|
            0 <= j < k < stripes_where(first, last, p).len() ==> (#[trigger] stripes_where(
                first,
                last,
                p,
            )[j]) < (#[trigger] stripes_where(first, last, p)[k]),
    decreases last + 1 - first,
{
    if first <= last {
        lemma_listed_hold(first, last - 1, p);
        let before = stripes_where(first, last - 1, p);
        let all = stripes_where(first, last, p);
        assert forall|k: int| 0 <= k < all.len() implies first <= (#[trigger] all[k]) <= last && p(
            all[k] as int,
        ) by {
            if k < before.len() {
                assert(all[k] == before[k]);
            }
        }
        assert forall|j: int, k: int| 0 <= j < k < all.len() implies (#[trigger] all[j]) < (
        #[trigger] all[k]) by {
            assert(all[j] == before[j]);
            if k < before.len() {
                assert(all[k] == before[k]);
            }
        }
    }
}

/// Among `calls` the coordinator was asked for the stripe, and was there.
pub open spec fn asked_for(calls: Seq<SinkCall>, stripe_id: int) -> bool {
    exists|k: int|
        0 <= k < calls.len() && (#[trigger] calls[k]) == (SinkCall::Fetch {
            stripe_id: stripe_id as usize,
            there: true,
        })
}

/// Among `calls` the coordinator was told that the stripe is written, and was
/// there.
pub open spec fn told_written(calls: Seq<SinkCall>, stripe_id: int) -> bool {
    exists|k: int|
        0 <= k < calls.len() && (#[trigger] calls[k]) == (SinkCall::SetWritten {
            stripe_id: stripe_id as usize,
            there: true,
        })
}

/// What asking for all wanted stripes asks for.
proof fn lemma_asked<B>(m: ChannelModel<B>, s: StateModel, r: RWRequest<B>, more: Seq<SinkCall>)
    requires
        r.stripe_id_first <= r.stripe_id_last < s.fetch.len() <= usize::MAX,
    ensures
        ({
            let wanted = m.fetches_wanted(s, r);
            let after = m.after_asking(wanted, wanted.len());
            let calls = fetch_calls(wanted, wanted.len()) + more;
            forall|i: int|
                r.stripe_id_first <= i <= r.stripe_id_last && (#[trigger] s.fetch[i]) != Fetched
                    && s.fetch[i] != NoSource ==> after.requested.contains(i as usize) && (
                !m.requested.contains(i as usize) ==> asked_for(calls, i))
        }),
{
    let wanted = m.fetches_wanted(s, r);
    let after = m.after_asking(wanted, wanted.len());
    let calls = fetch_calls(wanted, wanted.len()) + more;
    let first = r.stripe_id_first as int;
    let last = r.stripe_id_last as int;
    let p = |i: int| !here(s.fetch[i]) && !m.requested.contains(i as usize);
    assert forall|i: int|
        first <= i <= last && (#[trigger] s.fetch[i]) != Fetched && s.fetch[i]
            != NoSource implies after.requested.contains(i as usize) && (!m.requested.contains(
        i as usize,
    ) ==> asked_for(calls, i)) by {
        if !m.requested.contains(i as usize) {
            assert(p(i));
            lemma_listed(first, last, p, i);
            let k = wanted.index_of(i as usize);
            assert(wanted[k] == i as usize);
            assert(wanted.take(wanted.len() as int) =~= wanted);
            assert(wanted.to_set().contains(wanted[k]));
            assert(calls[k] == SinkCall::Fetch { stripe_id: i as usize, there: true });
        }
    }
}

/// A read that waits has been asked for in full: each of its stripes that is
/// neither here nor without a source counts as asked for, and the coordinator
/// was asked for it now unless it had been before.
pub proof fn law_a_waiting_read_asked_for_every_missing_stripe<B>(
    m: ChannelModel<B>,
    s: StateModel,
    r: RWRequest<B>,
    asked: nat,
    now: u64,
)
    requires
        r.stripe_id_first <= r.stripe_id_last < s.fetch.len() <= usize::MAX,
        asked <= m.fetches_wanted(s, r).len(),
        m.after_add_read(s, r, asked, now).queue != m.queue,
    ensures
        ({
            let after = m.after_add_read(s, r, asked, now);
            let calls = m.read_sink_calls(s, r, asked);
            &&& after.queue.len() == m.queue.len() + 1
            &&& after.queue.last().id == r.id && after.queue.last().call() == r.call()
            &&& forall|i: int|
                r.stripe_id_first <= i <= r.stripe_id_last && (#[trigger] s.fetch[i]) != Fetched
                    && s.fetch[i] != NoSource ==> after.requested.contains(i as usize) && (
                !m.requested.contains(i as usize) ==> asked_for(calls, i))
        }),
{
    let wanted = m.fetches_wanted(s, r);
    lemma_asked(m, s, r, Seq::empty());
    assert(fetch_calls(wanted, asked) + Seq::<SinkCall>::empty() =~= fetch_calls(wanted, asked));
}

/// The same of a write.
pub proof fn law_a_waiting_write_asked_for_every_missing_stripe<B>(
    m: ChannelModel<B>,
    s: StateModel,
    r: RWRequest<B>,
    asked: nat,
    told: nat,
    now: u64,
    after: ChannelModel<B>,
    s_after: StateModel,
)
    requires
        r.stripe_id_first <= r.stripe_id_last < s.fetch.len() <= usize::MAX,
        write_outcome(m, s, r, asked, told, now, after, s_after),
        after.queue != m.queue,
    ensures
        ({
            let calls = m.write_sink_calls(s, r, asked, told);
            &&& after.queue.len() == m.queue.len() + 1
            &&& after.queue.last().id == r.id && after.queue.last().call() == r.call()
            &&& forall|i: int|
                r.stripe_id_first <= i <= r.stripe_id_last && (#[trigger] s.fetch[i]) != Fetched
                    && s.fetch[i] != NoSource ==> after.requested.contains(i as usize) && (
                !m.requested.contains(i as usize) ==> asked_for(calls, i))
        }),
{
    let wanted = m.fetches_wanted(s, r);
    let ids = stripes_where(r.stripe_id_first as int, r.stripe_id_last as int, unwritten(s));
    lemma_asked(m, s, r, Seq::empty());
    lemma_asked(m, s, r, written_calls(ids, told));
    assert(fetch_calls(wanted, asked) + Seq::<SinkCall>::empty() =~= fetch_calls(wanted, asked));
}

/// Only missing stripes of the request are asked for, none twice and none that
/// had been asked for.
pub proof fn law_only_missing_stripes_are_asked_for<B>(
    m: ChannelModel<B>,
    s: StateModel,
    r: RWRequest<B>,
    asked: nat,
    told: nat,
)
    requires
        r.stripe_id_first <= r.stripe_id_last < s.fetch.len() <= usize::MAX,
        asked <= m.fetches_wanted(s, r).len(),
        told <= stripes_where(
            r.stripe_id_first as int,
            r.stripe_id_last as int,
            unwritten(s),
        ).len(),
    ensures
        only_missing(m, s, r, m.read_sink_calls(s, r, asked)),
        only_missing(m, s, r, m.write_sink_calls(s, r, asked, told)),
        forall|k: int|
            0 <= k < m.read_sink_calls(s, r, asked).len() ==> (#[trigger] m.read_sink_calls(
                s,
                r,
                asked,
            )[k]) is Fetch,
{
    let first = r.stripe_id_first as int;
    let last = r.stripe_id_last as int;
    lemma_listed_hold(
        first,
        last,
        |i: int| !here(s.fetch[i]) && !m.requested.contains(i as usize),
    );
    lemma_listed_hold(first, last, unwritten(s));
}

/// Every fetch among `calls` is of a stripe of the request that is neither here
/// nor without a source and that had not been asked for, and no two are of one
/// stripe.
pub open spec fn only_missing<B>(
    m: ChannelModel<B>,
    s: StateModel,
    r: RWRequest<B>,
    calls: Seq<SinkCall>,
) -> bool {
    &&& forall|k: int|
        0 <= k < calls.len() ==> ((#[trigger] calls[k]) matches SinkCall::Fetch {
            stripe_id,
            there,
        } ==> {
            &&& r.stripe_id_first <= stripe_id <= r.stripe_id_last
            &&& s.fetch[stripe_id as int] != Fetched && s.fetch[stripe_id as int] != NoSource
            &&& !m.requested.contains(stripe_id)
        })
    &&& forall|j: int, k: int|
        0 <= j < k < calls.len() ==> ((#[trigger] calls[j]) matches SinkCall::Fetch {
            stripe_id: a,
            there: x,
        } ==> (#[trigger] calls[k]) matches SinkCall::Fetch { stripe_id: b, there: y } ==> a != b)
}

/// A tracked write that waits is recorded: the coordinator was told of every
/// stripe of the request that did not count as written, each of them counts as
/// written from now on, and every stripe that newly counts as written is one
/// the coordinator was told of.
pub proof fn law_a_waiting_write_is_recorded<B>(
    m: ChannelModel<B>,
    s: StateModel,
    r: RWRequest<B>,
    asked: nat,
    told: nat,
    now: u64,
    after: ChannelModel<B>,
    s_after: StateModel,
)
    requires
        s.wf(),
        r.stripe_id_first <= r.stripe_id_last < s.fetch.len() <= usize::MAX,
        write_outcome(m, s, r, asked, told, now, after, s_after),
        m.track_written,
    ensures
        ({
            let calls = m.write_sink_calls(s, r, asked, told);
            &&& after.queue != m.queue ==> forall|i: int|
                r.stripe_id_first <= i <= r.stripe_id_last ==> (#[trigger] s_after.write[i])
                    == Written && (s.write[i] != Written ==> told_written(calls, i))
            &&& s_after.write.len() == s.write.len()
            &&& forall|i: int|
                0 <= i < s.write.len() && (#[trigger] s_after.write[i]) != s.write[i] ==> {
                    &&& r.stripe_id_first <= i <= r.stripe_id_last
                    &&& s_after.write[i] == Written
                    &&& told_written(calls, i)
                }
            &&& forall|k: int|
                0 <= k < calls.len() ==> ((#[trigger] calls[k]) matches SinkCall::SetWritten {
                    stripe_id,
                    there,
                } ==> r.stripe_id_first <= stripe_id <= r.stripe_id_last
                    && s.write[stripe_id as int] != Written)
        }),
{
    let first = r.stripe_id_first as int;
    let last = r.stripe_id_last as int;
    let p = unwritten(s);
    let ids = stripes_where(first, last, p);
    let wanted = m.fetches_wanted(s, r);
    let calls = m.write_sink_calls(s, r, asked, told);
    let looked = state_after_status(s, first, last);
    lemma_listed_hold(first, last, p);
    lemma_listed_hold(
        first,
        last,
        |i: int| !here(s.fetch[i]) && !m.requested.contains(i as usize),
    );
    lemma_marked(looked, first, last, p, told);
    lemma_marked_only(looked, ids, told);
    if calls.len() > 0 && asked == wanted.len() {
        assert(calls == fetch_calls(wanted, asked) + written_calls(ids, told));
        assert forall|k: int| 0 <= k < told implies told_written(
            calls,
            #[trigger] ids[k] as int,
        ) by {
            assert(calls[wanted.len() + k] == SinkCall::SetWritten {
                stripe_id: ids[k],
                there: true,
            });
        }
    }
    if after.queue != m.queue {
        let marked = marked_written(looked, ids, told);
        assert(s_after == marked);
        assert(told == ids.len());
        assert forall|i: int| first <= i <= last implies (#[trigger] s_after.write[i]) == Written
            && (s.write[i] != Written ==> told_written(calls, i)) by {
            if s.write[i] != Written {
                assert(p(i));
                lemma_listed(first, last, p, i);
                let k = ids.index_of(i as usize);
                assert(ids[k] == i as usize);
                assert(calls == fetch_calls(wanted, asked) + written_calls(ids, told));
                assert(calls[wanted.len() + k] == SinkCall::SetWritten {
                    stripe_id: ids[k],
                    there: true,
                });
            }
        }
    }
    assert forall|i: int| 0 <= i < s.write.len() && (#[trigger] s_after.write[i])
        != s.write[i] implies first <= i <= last && s_after.write[i] == Written && told_written(
        calls,
        i,
    ) by {
        let marked = marked_written(looked, ids, told);
        assert(s_after == marked);
        let k = choose|k: int| 0 <= k < told && (#[trigger] ids[k]) as int == i;
        assert(calls == fetch_calls(wanted, asked) + written_calls(ids, told));
        assert(calls[wanted.len() + k] == SinkCall::SetWritten { stripe_id: ids[k], there: true });
    }
}

/// Marking stripes as written changes no other stripe's write state.
proof fn lemma_marked_only(s: StateModel, ids: Seq<usize>, count: nat)
    requires
        count <= ids.len(),
        forall|k: int| 0 <= k < ids.len() ==> (#[trigger] ids[k]) < s.write.len(),
    ensures
        ({
            let after = marked_written(s, ids, count);
            &&& after.write.len() == s.write.len()
            &&& after.fetch == s.fetch
            &&& forall|i: int|
                0 <= i < s.write.len() && (#[trigger] after.write[i]) != s.write[i] ==> after.write[i]
                    == Written && exists|k: int| 0 <= k < count && (#[trigger] ids[k]) as int == i
        }),
    decreases count,
{
    if count > 0 {
        lemma_marked_only(s, ids, (count - 1) as nat);
        let before = marked_written(s, ids, (count - 1) as nat);
        let after = marked_written(s, ids, count);
        assert forall|i: int| 0 <= i < s.write.len() && (#[trigger] after.write[i])
            != s.write[i] implies after.write[i] == Written && exists|k: int|
            0 <= k < count && (#[trigger] ids[k]) as int == i by {
            if i == ids[count - 1] {
            } else {
                assert(before.write[i] != s.write[i]);
            }
        }
    }
}

/// Where a request goes. It goes to the base device, as the guest made it, if
/// each of its stripes is here or has no source, and a write moreover finds the
/// write gate open and, where writes are tracked, its stripes written;
/// otherwise it does not.
pub proof fn law_where_a_request_goes<B>(m: ChannelModel<B>, s: StateModel, r: RWRequest<B>)
    ensures
        ({
            let local = forall|i: int|
                r.stripe_id_first <= i <= r.stripe_id_last ==> (#[trigger] s.fetch[i]) == Fetched
                    || s.fetch[i] == NoSource;
            let written = forall|i: int|
                r.stripe_id_first <= i <= r.stripe_id_last ==> (#[trigger] s.write[i]) == Written;
            &&& m.base_calls(s, r) == match r.kind {
                RequestType::In => if local {
                    seq![
                        IoCall::Read {
                            sector_offset: r.sector_offset,
                            sector_count: r.sector_count,
                            buf: r.buf,
                            id: r.id,
                        },
                    ]
                } else {
                    Seq::empty()
                },
                RequestType::Out => if local && s.gate == GATE_OPEN && (m.track_written
                    ==> written) {
                    seq![
                        IoCall::Write {
                            sector_offset: r.sector_offset,
                            sector_count: r.sector_count,
                            buf: r.buf,
                            id: r.id,
                        },
                    ]
                } else {
                    Seq::empty()
                },
            }
        }),
{
    assert(GATE_OPEN != GATE_FAIL);
    let first = r.stripe_id_first as int;
    let last = r.stripe_id_last as int;
    if forall|i: int|
        first <= i <= last ==> (#[trigger] s.fetch[i]) == Fetched || s.fetch[i] == NoSource {
        assert(all_here(s, first, last));
    } else {
        let i = choose|i: int|
            first <= i <= last && !((#[trigger] s.fetch[i]) == Fetched || s.fetch[i] == NoSource);
        assert(!here(s.fetch[i]));
    }
    if forall|i: int| first <= i <= last ==> (#[trigger] s.write[i]) == Written {
        assert(all_written(s, first, last));
    } else {
        let i = choose|i: int| first <= i <= last && (#[trigger] s.write[i]) != Written;
        assert(s.write[i] != Written);
    }
}

/// The image serves exactly the reads of one stripe that has not arrived or has
/// left, as the guest made them; the base device and the coordinator then hear
/// nothing, and nothing waits.
pub proof fn law_the_image_serves_one_missing_stripe<B>(
    m: ChannelModel<B>,
    s: StateModel,
    r: RWRequest<B>,
    asked: nat,
    now: u64,
)
    requires
        r.kind == RequestType::In,
        r.stripe_id_first == r.stripe_id_last,
    ensures
        ({
            let state = s.fetch[r.stripe_id_first as int];
            if m.has_image && (state == NotFetched || state == Evicting || state == Evicted) {
                &&& m.image_calls(s, r) == seq![
                    IoCall::Read {
                        sector_offset: r.sector_offset,
                        sector_count: r.sector_count,
                        buf: r.buf,
                        id: r.id,
                    },
                ]
                &&& m.read_sink_calls(s, r, asked) == Seq::<SinkCall>::empty()
                &&& m.after_add_read(s, r, asked, now) == m
            } else {
                m.image_calls(s, r) == Seq::<IoCall<B>>::empty()
            }
        }),
{
    let id = r.stripe_id_first as int;
    assert(status_from(s, id + 1, id) == StripesFetchStatus::Complete);
    if here(s.fetch[id]) {
        assert(all_here(s, id, id));
    } else {
        assert(!all_here(s, id, id)) by {
            assert(!here(s.fetch[id]));
        }
    }
}

/// What the stripes of a range wait for: a failed stripe, if all before it are
/// here.
proof fn lemma_status_failed(s: StateModel, from: int, at: int, last: int)
    requires
        from <= at <= last,
        forall|i: int|
            from <= i < at ==> (#[trigger] s.fetch[i]) == Fetched || s.fetch[i] == NoSource,
        s.fetch[at] == Failed,
    ensures
        status_from(s, from, last) == (StripesFetchStatus::Failed { stripe_id: at as usize }),
    decreases at - from,
{
    if from < at {
        assert(here(s.fetch[from]));
        lemma_status_failed(s, from + 1, at, last);
    }
}

/// A request that meets a stripe that failed, before any that is missing, fails
/// at once: it is reported under its identifier and asks for nothing.
pub proof fn law_a_request_for_a_failed_stripe_fails<B>(
    m: ChannelModel<B>,
    s: StateModel,
    r: RWRequest<B>,
    at: int,
    asked: nat,
    told: nat,
    now: u64,
)
    requires
        r.stripe_id_first <= at <= r.stripe_id_last,
        forall|i: int|
            r.stripe_id_first <= i < at ==> (#[trigger] s.fetch[i]) == Fetched || s.fetch[i]
                == NoSource,
        s.fetch[at] == Failed,
    ensures
        ({
            let failed = ChannelModel { finished: m.finished.push((r.id, false)), ..m };
            &&& m.after_add_read(s, r, asked, now) == failed
            &&& m.after_add_write(s, r, asked, told, now) == failed
            &&& m.read_sink_calls(s, r, asked) == Seq::<SinkCall>::empty()
            &&& m.write_sink_calls(s, r, asked, told) == Seq::<SinkCall>::empty()
            &&& m.base_calls(s, r) == Seq::<IoCall<B>>::empty()
        }),
{
    lemma_status_failed(s, r.stripe_id_first as int, at, r.stripe_id_last as int);
    assert(!here(s.fetch[at]));
}

/// A request may go to the base device.
pub open spec fn may_go<B>(m: ChannelModel<B>, s: StateModel, r: RWRequest<B>) -> bool {
    &&& forall|i: int|
        r.stripe_id_first <= i <= r.stripe_id_last ==> (#[trigger] s.fetch[i]) == Fetched
            || s.fetch[i] == NoSource
    &&& r.kind == RequestType::Out ==> {
        &&& s.gate == GATE_OPEN
        &&& m.track_written ==> forall|i: int|
            r.stripe_id_first <= i <= r.stripe_id_last ==> (#[trigger] s.write[i]) == Written
    }
}

/// Waiting requests go on in order: while the first of them may go to the base
/// device they do, each as the guest made it, and wait no longer.
pub proof fn law_waiting_requests_go_on_once_their_stripes_are_here<B>(
    m: ChannelModel<B>,
    s: StateModel,
    resent: nat,
    now: u64,
    count: nat,
)
    requires
        count <= m.queue.len(),
        forall|j: int| 0 <= j < count ==> may_go(m, s, #[trigger] m.queue[j]),
    ensures
        m.worked_calls(s, now).len() >= count,
        forall|j: int|
            0 <= j < count ==> {
                let r = #[trigger] m.queue[j];
                m.worked_calls(s, now)[j] == match r.kind {
                    RequestType::In => IoCall::Read {
                        sector_offset: r.sector_offset,
                        sector_count: r.sector_count,
                        buf: r.buf,
                        id: r.id,
                    },
                    RequestType::Out => IoCall::Write {
                        sector_offset: r.sector_offset,
                        sector_count: r.sector_count,
                        buf: r.buf,
                        id: r.id,
                    },
                }
            },
        m.worked_through(s, resent, now).0.queue.len() + count <= m.queue.len(),
        m.worked_through(s, resent, now).2 == m.worked_calls(s, now).len(),
    decreases m.queue.len(),
{
    crate::device_laws::law_only_local_stripes_reach_the_base_device(m, s, resent, now);
    crate::device_laws::law_waiting_requests_keep_their_order(m, s, resent, now);
    if count > 0 {
        let r = m.queue[0];
        let first = r.stripe_id_first as int;
        let last = r.stripe_id_last as int;
        let popped = ChannelModel { queue: m.queue.drop_first(), ..m };
        let next = popped.after_pass(r).after_served(r);
        let looked = state_after_status(s, first, last);
        let passed = ChannelModel::state_after_pass(looked, r);
        assert(may_go(m, s, m.queue[0]));
        lemma_local_complete(s, first, last);
        assert(looked == s);
        assert(all_here(s, first, last));
        assert(popped.passes(looked, r));
        assert forall|j: int| 0 <= j < count - 1 implies may_go(
            next,
            passed,
            #[trigger] next.queue[j],
        ) by {
            assert(next.queue[j] == m.queue[j + 1]);
            assert(may_go(m, s, m.queue[j + 1]));
        }
        law_waiting_requests_go_on_once_their_stripes_are_here(
            next,
            passed,
            resent,
            now,
            (count - 1) as nat,
        );
        let rest = next.worked_calls(passed, now);
        assert(m.worked_calls(s, now) == seq![r.call()] + rest);
        assert forall|j: int| 0 <= j < count implies {
            let r = #[trigger] m.queue[j];
            m.worked_calls(s, now)[j] == match r.kind {
                RequestType::In => IoCall::Read {
                    sector_offset: r.sector_offset,
                    sector_count: r.sector_count,
                    buf: r.buf,
                    id: r.id,
                },
                RequestType::Out => IoCall::Write {
                    sector_offset: r.sector_offset,
                    sector_count: r.sector_count,
                    buf: r.buf,
                    id: r.id,
                },
            }
        } by {
            if j > 0 {
                assert(next.queue[j - 1] == m.queue[j]);
                assert(m.worked_calls(s, now)[j] == rest[j - 1]);
            }
        }
    }
}

/// A range that is here waits for nothing.
proof fn lemma_local_complete(s: StateModel, first: int, last: int)
    requires
        forall|i: int|
            first <= i <= last ==> (#[trigger] s.fetch[i]) == Fetched || s.fetch[i] == NoSource,
    ensures
        status_from(s, first, last) == StripesFetchStatus::Complete,
    decreases last + 1 - first,
{
    if first <= last {
        assert(here(s.fetch[first]));
        lemma_local_complete(s, first + 1, last);
    }
}

/// A range whose first stripe that is not here has not arrived or has left is
/// waited for.
proof fn lemma_status_pending(s: StateModel, from: int, at: int, last: int)
    requires
        from <= at <= last,
        forall|i: int|
            from <= i < at ==> (#[trigger] s.fetch[i]) == Fetched || s.fetch[i] == NoSource,
        s.fetch[at] == NotFetched || s.fetch[at] == Evicting || s.fetch[at] == Evicted,
    ensures
        status_from(s, from, last) == StripesFetchStatus::Pending,
    decreases at - from,
{
    if from < at {
        assert(here(s.fetch[from]));
        lemma_status_pending(s, from + 1, at, last);
    }
}

/// A request at the front that meets a missing stripe before any that failed
/// stays there, and holds all behind it, unless writes fail for want of space:
/// then it fails. While it waits, each of its stripes that is leaving or gone is
/// asked for again once the last time is long enough ago.
pub proof fn law_the_front_request_waits_for_its_stripes<B>(
    m: ChannelModel<B>,
    s: StateModel,
    at: int,
    resent: nat,
    now: u64,
)
    requires
        m.queue.len() > 0,
        m.queue[0].stripe_id_first <= at <= m.queue[0].stripe_id_last,
        m.queue[0].stripe_id_last < usize::MAX,
        forall|i: int|
            m.queue[0].stripe_id_first <= i < at ==> (#[trigger] s.fetch[i]) == Fetched
                || s.fetch[i] == NoSource,
        s.fetch[at] == NotFetched || s.fetch[at] == Evicting || s.fetch[at] == Evicted,
        s.gate != GATE_FAIL,
    ensures
        ({
            let r = m.queue[0];
            let after = m.worked_through(s, resent, now);
            let calls = m.worked_sink_calls(s, resent, now);
            let due = match r.fetch_sent_at {
                Some(sent) => now >= sent + FETCH_RESEND_INTERVAL,
                None => true,
            };
            &&& m.worked_calls(s, now) == Seq::<IoCall<B>>::empty()
            &&& after.0.queue.len() == m.queue.len()
            &&& after.0.queue[0].id == r.id && after.0.queue[0].call() == r.call()
            &&& forall|j: int| 0 < j < m.queue.len() ==> #[trigger] after.0.queue[j] == m.queue[j]
            &&& after.0.finished == m.finished
            &&& after.1 == s
            &&& !due ==> calls == Seq::<SinkCall>::empty() && after.0.queue == m.queue
            &&& due && resent == stripes_where(
                r.stripe_id_first as int,
                r.stripe_id_last as int,
                leaving(s),
            ).len() ==> forall|i: int|
                r.stripe_id_first <= i <= r.stripe_id_last && ((#[trigger] s.fetch[i]) == Evicting
                    || s.fetch[i] == Evicted) ==> asked_for(calls, i)
                    && after.0.queue[0].fetch_sent_at == Some(now)
        }),
{
    let r = m.queue[0];
    let first = r.stripe_id_first as int;
    let last = r.stripe_id_last as int;
    lemma_status_pending(s, first, at, last);
    let ids = stripes_where(first, last, leaving(s));
    let calls = m.worked_sink_calls(s, resent, now);
    assert(state_after_status(s, first, last) == s);
    let due = match r.fetch_sent_at {
        Some(sent) => now >= sent + FETCH_RESEND_INTERVAL,
        None => true,
    };
    assert(ChannelModel::resend_due(r, now) == due);
    if due && resent == ids.len() {
        assert forall|i: int|
            first <= i <= last && ((#[trigger] s.fetch[i]) == Evicting || s.fetch[i]
                == Evicted) implies asked_for(calls, i)
            && m.worked_through(s, resent, now).0.queue[0].fetch_sent_at == Some(now) by {
            assert(leaving(s)(i));
            lemma_listed(first, last, leaving(s), i);
            let k = ids.index_of(i as usize);
            assert(ids[k] == i as usize);
            assert(calls[k] == SinkCall::Fetch { stripe_id: i as usize, there: true });
        }
    }
    if !due {
        assert(m.queue.update(0, r) =~= m.queue);
    }
}

/// A request at the front that meets a failed stripe before any that is missing
/// is reported as failed, and so is, whatever its stripes, any that waits while
/// writes fail for want of space.
pub proof fn law_a_waiting_request_for_a_failed_stripe_fails<B>(
    m: ChannelModel<B>,
    s: StateModel,
    at: int,
    resent: nat,
    now: u64,
)
    requires
        m.queue.len() > 0,
        m.queue[0].stripe_id_first <= at <= m.queue[0].stripe_id_last,
        forall|i: int|
            m.queue[0].stripe_id_first <= i < at ==> (#[trigger] s.fetch[i]) == Fetched
                || s.fetch[i] == NoSource,
        s.fetch[at] == Failed || (s.gate == GATE_FAIL && (s.fetch[at] == NotFetched
            || s.fetch[at] == Evicting || s.fetch[at] == Evicted)),
    ensures
        m.worked_through(s, resent, now).0.finished.contains((m.queue[0].id, false)),
{
    let r = m.queue[0];
    let first = r.stripe_id_first as int;
    let last = r.stripe_id_last as int;
    if s.fetch[at] == Failed {
        lemma_status_failed(s, first, at, last);
    } else {
        lemma_status_pending(s, first, at, last);
    }
    let popped = ChannelModel { queue: m.queue.drop_first(), ..m };
    let looked = state_after_status(s, first, last);
    let failed = popped.after_finish(r.id, false);
    lemma_finished_grows(failed, looked, resent, now);
    let done = m.worked_through(s, resent, now).0.finished;
    assert(failed.finished[m.finished.len() as int] == (r.id, false));
    assert(done[m.finished.len() as int] == (r.id, false));
}

/// What is reported stays reported.
proof fn lemma_finished_grows<B>(m: ChannelModel<B>, s: StateModel, resent: nat, now: u64)
    ensures
        m.finished.is_prefix_of(m.worked_through(s, resent, now).0.finished),
    decreases m.queue.len(),
{
    if m.queue.len() > 0 {
        let r = m.queue[0];
        let first = r.stripe_id_first as int;
        let last = r.stripe_id_last as int;
        let popped = ChannelModel { queue: m.queue.drop_first(), ..m };
        let looked = state_after_status(s, first, last);
        lemma_finished_grows(popped.after_finish(r.id, false), looked, resent, now);
        lemma_finished_grows(
            popped.after_pass(r).after_served(r),
            ChannelModel::state_after_pass(looked, r),
            resent,
            now,
        );
    }
}

/// A poll reports, under its identifier and with its result, every completion of
/// the base device and of the image, and everything that was done without them;
/// and each completion of the base device takes back exactly the pins of its
/// request.
pub proof fn law_a_poll_reports_every_completion<B>(
    m: ChannelModel<B>,
    s: StateModel,
    now: u64,
    resent: nat,
    answer: Answer,
    done: Seq<(usize, bool)>,
    served: Seq<(usize, bool)>,
)
    ensures
        ({
            let (after, s_after, results) = polled(m, s, now, resent, answer, done, served);
            &&& forall|k: int| 0 <= k < done.len() ==> results.contains(#[trigger] done[k])
            &&& forall|k: int| 0 <= k < served.len() ==> results.contains(#[trigger] served[k])
            &&& forall|k: int| 0 <= k < m.finished.len() ==> results.contains(
                #[trigger] m.finished[k],
            )
            &&& after.finished == Seq::<(usize, bool)>::empty()
            &&& forall|k: int|
                0 <= k < done.len() ==> !after.pinned.contains_key((#[trigger] done[k]).0)
        }),
{
    let through = m.worked_through(s, resent, now);
    let over = through.0.handed_over(through.1, through.2, answer is Ok);
    let (after, s_after, results) = polled(m, s, now, resent, answer, done, served);
    lemma_finished_grows(m, s, resent, now);
    lemma_releases_frame(through.0, through.0.unsubmitted, through.0.unsubmitted.len());
    let base = over.0.finished;
    assert(m.finished.is_prefix_of(base));
    assert forall|k: int| 0 <= k < done.len() implies results.contains(#[trigger] done[k]) by {
        assert(results[base.len() + k] == done[k]);
    }
    assert forall|k: int| 0 <= k < served.len() implies results.contains(#[trigger] served[k]) by {
        assert(results[base.len() + done.len() + k] == served[k]);
    }
    assert forall|k: int| 0 <= k < m.finished.len() implies results.contains(
        #[trigger] m.finished[k],
    ) by {
        assert(results[k] == m.finished[k]);
    }
    let emptied = ChannelModel { finished: Seq::empty(), ..over.0 };
    lemma_releases_frame(emptied, ids_of(done), done.len());
    assert forall|k: int| 0 <= k < done.len() implies !after.pinned.contains_key(
        (#[trigger] done[k]).0,
    ) by {
        assert(ids_of(done)[k] == done[k].0);
        lemma_unpinned(emptied, ids_of(done), done.len(), k);
    }
}

/// Undoing pins touches nothing else of a channel.
proof fn lemma_releases_frame<B>(m: ChannelModel<B>, ids: Seq<usize>, count: nat)
    ensures
        m.after_releases(ids, count).finished == m.finished,
        m.after_releases(ids, count).queue == m.queue,
        m.after_releases(ids, count).unsubmitted == m.unsubmitted,
    decreases count,
{
    if count > 0 {
        lemma_releases_frame(m, ids, (count - 1) as nat);
    }
}

/// A pin that was undone stays undone.
proof fn lemma_unpinned<B>(m: ChannelModel<B>, ids: Seq<usize>, count: nat, k: int)
    requires
        0 <= k < count <= ids.len(),
    ensures
        !m.after_releases(ids, count).pinned.contains_key(ids[k]),
    decreases count,
{
    if k < count - 1 {
        lemma_unpinned(m, ids, (count - 1) as nat, k);
    }
}

/// If the base device refuses what the poll gave it, each of those requests is
/// reported as failed.
pub proof fn law_refused_requests_are_reported<B>(
    m: ChannelModel<B>,
    s: StateModel,
    now: u64,
    resent: nat,
    answer: Answer,
    done: Seq<(usize, bool)>,
    served: Seq<(usize, bool)>,
    k: int,
)
    requires
        answer is Err,
        m.worked_through(s, resent, now).2 > 0,
        0 <= k < m.worked_through(s, resent, now).0.unsubmitted.len(),
    ensures
        polled(m, s, now, resent, answer, done, served).2.contains(
            (m.worked_through(s, resent, now).0.unsubmitted[k], false),
        ),
{
    let through = m.worked_through(s, resent, now);
    let ids = through.0.unsubmitted;
    let over = through.0.handed_over(through.1, through.2, answer is Ok);
    lemma_releases_frame(through.0, ids, ids.len());
    let results = polled(m, s, now, resent, answer, done, served).2;
    let at = through.0.finished.len() + k;
    assert(over.0.finished[at] == (ids[k], false));
    assert(results[at] == (ids[k], false));
}

/// What goes to the base device is noted until it is handed over, so that a
/// refusal can be told of.
pub proof fn law_what_goes_to_the_base_device_is_noted<B>(
    m: ChannelModel<B>,
    s: StateModel,
    r: RWRequest<B>,
    i: int,
)
    requires
        s.wf(),
        0 <= i < s.fetch.len(),
        r.stripe_id_first <= i <= r.stripe_id_last ==> s.inflight[i] < u16::MAX,
    ensures
        ({
            let after = m.after_pass(r);
            let s_after = ChannelModel::state_after_pass(s, r);
            let inside = r.stripe_id_first <= i <= r.stripe_id_last;
            &&& after.unsubmitted == m.unsubmitted.push(r.id)
            &&& after.pinned == m.pinned.insert(r.id, (r.stripe_id_first, r.stripe_id_last))
            &&& after.queue == m.queue && after.finished == m.finished
            &&& s_after.inflight[i] == s.inflight[i] + if inside {
                1int
            } else {
                0
            }
            &&& s_after.flags[i] == if inside {
                s.flags[i] | stripe_flags::REFERENCED
            } else {
                s.flags[i]
            }
            &&& s_after.fetch == s.fetch && s_after.write == s.write && s_after.gate == s.gate
        }),
{
}

/// A new read that misses a stripe before any that failed, and that the image
/// does not serve, waits behind the others if the coordinator was there for all
/// it was asked; else it is reported as failed.
pub proof fn law_a_new_read_waits_for_its_stripes<B>(
    m: ChannelModel<B>,
    s: StateModel,
    r: RWRequest<B>,
    at: int,
    asked: nat,
    now: u64,
)
    requires
        r.kind == RequestType::In,
        r.stripe_id_first <= at <= r.stripe_id_last,
        forall|i: int|
            r.stripe_id_first <= i < at ==> (#[trigger] s.fetch[i]) == Fetched || s.fetch[i]
                == NoSource,
        s.fetch[at] == NotFetched || s.fetch[at] == Evicting || s.fetch[at] == Evicted,
        !(m.has_image && r.stripe_id_first == r.stripe_id_last),
        asked <= m.fetches_wanted(s, r).len(),
    ensures
        ({
            let after = m.after_add_read(s, r, asked, now);
            let calls = m.read_sink_calls(s, r, asked);
            if all_there(calls) {
                &&& after.queue == m.queue.push(
                    RWRequest {
                        fetch_sent_at: if calls.len() > 0 {
                            Some(now)
                        } else {
                            r.fetch_sent_at
                        },
                        ..r
                    },
                )
                &&& after.finished == m.finished
            } else {
                after.queue == m.queue && after.finished == m.finished.push((r.id, false))
            }
        }),
        m.state_after_add_read(s, r) == s,
{
    lemma_status_pending(s, r.stripe_id_first as int, at, r.stripe_id_last as int);
    assert(!here(s.fetch[at]));
    let wanted = m.fetches_wanted(s, r);
    let calls = m.read_sink_calls(s, r, asked);
    if asked < wanted.len() {
        assert(!call_there(calls[asked as int]));
    }
}

/// The coordinator was there for the call.
pub open spec fn call_there(call: SinkCall) -> bool {
    match call {
        SinkCall::Fetch { stripe_id, there } => there,
        SinkCall::SetWritten { stripe_id, there } => there,
    }
}

/// The coordinator was there for all of them.
pub open spec fn all_there(calls: Seq<SinkCall>) -> bool {
    forall|k: int| 0 <= k < calls.len() ==> #[trigger] call_there(calls[k])
}

/// A new write fails at once while writes fail for want of space. Otherwise,
/// if it may not go to the base device and meets no failed stripe before a
/// missing one, it waits behind the others if the coordinator was there for all
/// it was asked and told; else it is reported as failed.
pub proof fn law_a_new_write_waits_for_its_stripes<B>(
    m: ChannelModel<B>,
    s: StateModel,
    r: RWRequest<B>,
    at: int,
    asked: nat,
    told: nat,
    now: u64,
    after: ChannelModel<B>,
    s_after: StateModel,
)
    requires
        r.kind == RequestType::Out,
        write_outcome(m, s, r, asked, told, now, after, s_after),
        r.stripe_id_first <= at <= r.stripe_id_last + 1,
        forall|i: int|
            r.stripe_id_first <= i < at ==> (#[trigger] s.fetch[i]) == Fetched || s.fetch[i]
                == NoSource,
        at <= r.stripe_id_last ==> s.fetch[at] == NotFetched || s.fetch[at] == Evicting
            || s.fetch[at] == Evicted,
        !may_go(m, s, r),
    ensures
        ({
            let calls = m.write_sink_calls(s, r, asked, told);
            if s.gate == GATE_FAIL {
                &&& calls == Seq::<SinkCall>::empty()
                &&& after.queue == m.queue && after.finished == m.finished.push((r.id, false))
                &&& s_after == s
            } else if all_there(calls) {
                &&& after.queue == m.queue.push(
                    RWRequest {
                        fetch_sent_at: if exists|k: int|
                            0 <= k < calls.len() && (#[trigger] calls[k]) is Fetch {
                            Some(now)
                        } else {
                            r.fetch_sent_at
                        },
                        ..r
                    },
                )
                &&& after.finished == m.finished
            } else {
                after.queue == m.queue && after.finished == m.finished.push((r.id, false))
            }
        }),
{
    let first = r.stripe_id_first as int;
    let last = r.stripe_id_last as int;
    if at <= last {
        lemma_status_pending(s, first, at, last);
        assert(!here(s.fetch[at]));
    } else {
        lemma_local_complete(s, first, last);
    }
    law_where_a_request_goes(m, s, r);
    let wanted = m.fetches_wanted(s, r);
    let ids = stripes_where(first, last, unwritten(s));
    let calls = m.write_sink_calls(s, r, asked, told);
    if m.passes(s, r) {
        assert(m.base_calls(s, r).len() == 1);
    }
    if s.gate != GATE_FAIL {
        assert(!m.passes(s, r));
        if asked < wanted.len() {
            assert(!call_there(calls[asked as int]));
        } else if m.track_written && told < ids.len() {
            assert(!call_there(calls[(asked + told) as int]));
        } else {
            if asked > 0 {
                assert(calls[0] is Fetch);
            } else {
                assert forall|k: int| 0 <= k < calls.len() implies !((#[trigger] calls[k]) is Fetch) by {
                    assert(fetch_calls(wanted, asked).len() == 0);
                }
            }
            assert(all_there(calls));
        }
    }
}

/// Once a request has gone to the base device, its stripes count as asked for no
/// more, and all others as before.
pub proof fn law_a_served_request_may_be_asked_for_again<B>(
    m: ChannelModel<B>,
    r: RWRequest<B>,
    id: usize,
)
    ensures
        m.after_served(r).requested.contains(id) <==> m.requested.contains(id) && !(
        r.stripe_id_first <= id <= r.stripe_id_last),
        m.after_served(r).queue == m.queue,
        m.after_served(r).finished == m.finished,
{
}

/// A write at the front whose stripes are all here waits all the same while
/// writes are held, or where its stripes are still to be recorded as written;
/// nothing is asked, and it holds all behind it.
pub proof fn law_a_held_write_waits<B>(m: ChannelModel<B>, s: StateModel, resent: nat, now: u64)
    requires
        m.queue.len() > 0,
        m.queue[0].kind == RequestType::Out,
        forall|i: int|
            m.queue[0].stripe_id_first <= i <= m.queue[0].stripe_id_last ==> (#[trigger] s.fetch[i])
                == Fetched || s.fetch[i] == NoSource,
        s.gate != GATE_FAIL,
        s.gate != GATE_OPEN || (m.track_written && exists|i: int|
            m.queue[0].stripe_id_first <= i <= m.queue[0].stripe_id_last && (#[trigger] s.write[i])
                != Written),
    ensures
        m.worked_through(s, resent, now) == (m, s, 0nat),
        m.worked_calls(s, now) == Seq::<IoCall<B>>::empty(),
        m.worked_sink_calls(s, resent, now) == Seq::<SinkCall>::empty(),
{
    let r = m.queue[0];
    let first = r.stripe_id_first as int;
    let last = r.stripe_id_last as int;
    lemma_local_complete(s, first, last);
    assert(!all_written(s, first, last) || s.gate != GATE_OPEN || !m.track_written) by {
        if s.gate == GATE_OPEN && m.track_written {
            let i = choose|i: int| first <= i <= last && (#[trigger] s.write[i]) != Written;
            assert(s.write[i] != Written);
        }
    }
}

/// A write at the front whose stripes are all here fails while writes fail for
/// want of space.
pub proof fn law_a_waiting_write_fails_for_want_of_space<B>(
    m: ChannelModel<B>,
    s: StateModel,
    resent: nat,
    now: u64,
)
    requires
        m.queue.len() > 0,
        m.queue[0].kind == RequestType::Out,
        forall|i: int|
            m.queue[0].stripe_id_first <= i <= m.queue[0].stripe_id_last ==> (#[trigger] s.fetch[i])
                == Fetched || s.fetch[i] == NoSource,
        s.gate == GATE_FAIL,
    ensures
        m.worked_through(s, resent, now).0.finished.contains((m.queue[0].id, false)),
{
    let r = m.queue[0];
    lemma_local_complete(s, r.stripe_id_first as int, r.stripe_id_last as int);
    let popped = ChannelModel { queue: m.queue.drop_first(), ..m };
    let failed = popped.after_finish(r.id, false);
    lemma_finished_grows(failed, s, resent, now);
    let done = m.worked_through(s, resent, now).0.finished;
    assert(failed.finished[m.finished.len() as int] == (r.id, false));
    assert(done[m.finished.len() as int] == (r.id, false));
}

/// What passes during a poll is handed to the base device in one go; without
/// anything, nothing is handed over.
pub proof fn law_what_passes_is_handed_over<B>(
    m: ChannelModel<B>,
    s: StateModel,
    now: u64,
    answer: Answer,
)
    ensures
        ({
            let passed = m.worked_calls(s, now);
            let calls = m.handed_calls(s, now, answer);
            if passed.len() == 0 {
                calls == Seq::<IoCall<B>>::empty()
            } else {
                &&& calls.len() == passed.len() + 1
                &&& forall|k: int| 0 <= k < passed.len() ==> #[trigger] calls[k] == passed[k]
                &&& calls.last() == IoCall::<B>::Submit { result: answer }
            }
        }),
{
}

/// Once the base device was handed what it was given, nothing is noted any more;
/// if it refused, the pins of those requests are undone. The waiting requests
/// and the results stay.
pub proof fn law_after_a_hand_over_nothing_is_noted<B>(m: ChannelModel<B>, ok: bool, k: int)
    requires
        0 <= k < m.unsubmitted.len(),
    ensures
        ({
            let after = m.after_submit(ok);
            &&& after.unsubmitted == Seq::<usize>::empty()
            &&& after.queue == m.queue && after.finished == m.finished
            &&& ok ==> after.pinned == m.pinned
            &&& !ok ==> !after.pinned.contains_key(m.unsubmitted[k])
        }),
{
    lemma_releases_frame(m, m.unsubmitted, m.unsubmitted.len());
    lemma_unpinned(m, m.unsubmitted, m.unsubmitted.len(), k);
}

/// A hand-over that the base device takes leaves the stripes pinned. One that it
/// refuses undoes the pins of what was noted, request by request: each stripe of
/// a request that was pinned has one request less in flight, and no other.
pub proof fn law_a_refused_hand_over_undoes_the_pins<B>(
    m: ChannelModel<B>,
    s: StateModel,
    count: nat,
    i: int,
)
    requires
        0 < count <= m.unsubmitted.len(),
    ensures
        m.state_after_submit(s, true) == s,
        m.state_after_submit(s, false) == m.state_after_releases(
            s,
            m.unsubmitted,
            m.unsubmitted.len(),
        ),
        m.state_after_releases(s, m.unsubmitted, 0) == s,
        ({
            let id = m.unsubmitted[count - 1];
            let pinned = m.after_releases(m.unsubmitted, (count - 1) as nat).pinned;
            let before = m.state_after_releases(s, m.unsubmitted, (count - 1) as nat);
            let after = m.state_after_releases(s, m.unsubmitted, count);
            let covers = pinned.contains_key(id) && pinned[id].0 <= i <= pinned[id].1;
            &&& 0 <= i < before.inflight.len() && before.inflight[i] > 0 ==> after.inflight[i]
                == before.inflight[i] - if covers {
                1int
            } else {
                0
            }
            &&& after.inflight.len() == before.inflight.len()
            &&& after.fetch == before.fetch && after.write == before.write
            &&& after.flags == before.flags && after.gate == before.gate
            &&& after.spill == before.spill && after.resident == before.resident
        }),
{
}

/// Looking up the stripes of a request changes nothing, unless one of them is in
/// a state that no stripe can be in: that is counted as an anomaly.
pub proof fn law_looking_up_stripes_changes_nothing(s: StateModel, first: int, last: int)
    requires
        0 <= first <= last < s.fetch.len() <= usize::MAX,
        s.spill.degraded_reasons < u64::MAX,
    ensures
        ({
            let after = state_after_status(s, first, last);
            &&& after.fetch == s.fetch && after.write == s.write && after.flags == s.flags
            &&& after.inflight == s.inflight && after.resident == s.resident
            &&& after.gate == s.gate
            &&& after.spill.degraded_reasons == s.spill.degraded_reasons
                || after.spill.degraded_reasons == s.spill.degraded_reasons + 1
            &&& (forall|i: int| first <= i <= last ==> (#[trigger] s.fetch[i]) <= 5) ==> after == s
        }),
{
    lemma_status_names(s, first, last);
}

/// The stripe that failed is one of the range.
proof fn lemma_status_names(s: StateModel, from: int, last: int)
    requires
        0 <= from,
        last < s.fetch.len() <= usize::MAX,
    ensures
        status_from(s, from, last) matches StripesFetchStatus::Failed { stripe_id } ==> ({
            &&& from <= stripe_id <= last
            &&& !here(s.fetch[stripe_id as int])
            &&& !awaited(s.fetch[stripe_id as int])
        }),
    decreases last + 1 - from,
{
    if from <= last && here(s.fetch[from]) {
        lemma_status_names(s, from + 1, last);
    }
}

} // verus!
