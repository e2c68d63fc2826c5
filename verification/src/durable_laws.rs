//! What a caller may take from an outcome that says durable.

use vstd::prelude::*;
use crate::metadata::types::sector_of;
use crate::metadata_flusher::{
    aboard, after_finished, is_rider, landed, lemma_cleanup_wf, lemma_failure, lemma_picked,
    lemma_poll_done_wf, lemma_start_one, lemma_start_one_wf, lemma_started, lemma_staying,
    lemma_steps_wf, poll_outcome, polled, riding, write_ids, FinishedUpdate, FlusherModel,
    PersistOutcome, PersistResult, PollModel, RequestStage, RidingUpdate,
};
use crate::outcome_laws::{lemma_stepped_wf, ran, stepped, told, FlusherStep};

verus! {

/// The update of `id` under `token` is in flight and goes to disk on behalf of
/// `lead`.
pub open spec fn covers(m: FlusherModel, lead: usize, id: usize, token: u64) -> bool {
    &&& m.updates.dom().contains(lead)
    &&& {
        ||| lead == id && m.updates[lead].token == token
        ||| exists|k: int|
            0 <= k < m.riders.len() && (#[trigger] m.riders[k]).sector == m.updates[lead].sector
                && m.riders[k].stripe_id == id && m.riders[k].token == token
    }
}

/// In step `at` the device reports that the request of `lead` completed, while
/// that carries the update of `id` under `token` and is at `stage`.
pub open spec fn completes(
    m: FlusherModel,
    steps: Seq<FlusherStep>,
    at: int,
    lead: usize,
    id: usize,
    token: u64,
    stage: RequestStage,
) -> bool {
    let before = ran(m, steps.take(at));
    &&& steps[at] matches FlusherStep::Poll { completions, .. } && completions.contains(
        (lead, true),
    )
    &&& covers(before, lead, id, token)
    &&& before.updates[lead].stage == stage
}

/// In step `at` the sector that carries the update of `id` under `token` was
/// written, and the device took the flush behind it.
pub open spec fn written_at(
    m: FlusherModel,
    steps: Seq<FlusherStep>,
    at: int,
    lead: usize,
    id: usize,
    token: u64,
) -> bool {
    &&& 0 <= at < steps.len()
    &&& completes(m, steps, at, lead, id, token, RequestStage::Writing)
    &&& steps[at] matches FlusherStep::Poll { taken, .. } && taken
}

/// The sector that carries the update of `id` under `token` was written, and
/// in a later step flushed.
pub open spec fn flushed_after_write(
    m: FlusherModel,
    steps: Seq<FlusherStep>,
    id: usize,
    token: u64,
) -> bool {
    exists|wrote: int, flushed: int, lead: usize|
        {
            &&& #[trigger] written_at(m, steps, wrote, lead, id, token)
            &&& wrote < flushed < steps.len()
            &&& #[trigger] completes(
                m,
                steps,
                flushed,
                lead,
                id,
                token,
                RequestStage::Flushing,
            )
        }
}

/// No update whose write completes in a poll completes again in that poll: its
/// flush is only handed over afterwards.
pub open spec fn flushes_follow(m: FlusherModel, completions: Seq<(usize, bool)>) -> bool
    decreases completions.len(),
{
    completions.len() == 0 || {
        &&& flushes_follow(m, completions.drop_last())
        &&& !polled(m, completions.drop_last()).flushing.contains(completions.last().0)
    }
}

/// Every step names stripes of the device, and no flush completes before it was
/// handed over.
pub open spec fn in_order(m: FlusherModel, steps: Seq<FlusherStep>) -> bool
    decreases steps.len(),
{
    steps.len() == 0 || {
        let before = ran(m, steps.drop_last());
        &&& in_order(m, steps.drop_last())
        &&& match steps.last() {
            FlusherStep::Queue { stripe_id, .. } => stripe_id < before.headers.len(),
            FlusherStep::Poll { completions, .. } => flushes_follow(before, completions),
            _ => true,
        }
    }
}

/// `n` follows `m`, and nothing was written or became durable in between.
spec fn calm(m: FlusherModel, n: FlusherModel) -> bool {
    &&& forall|lead: usize, id: usize, token: u64| #[trigger]
        covers(n, lead, id, token) && n.updates[lead].stage == RequestStage::Flushing ==> covers(
            m,
            lead,
            id,
            token,
        ) && m.updates[lead].stage == RequestStage::Flushing
    &&& forall|k: int|
        0 <= k < n.outcomes.len() && (#[trigger] n.outcomes[k]).result == PersistResult::Durable
            ==> m.outcomes.contains(n.outcomes[k])
}

/// One thing after the other.
proof fn lemma_calm_twice(a: FlusherModel, b: FlusherModel, c: FlusherModel)
    requires
        calm(a, b),
        calm(b, c),
    ensures
        calm(a, c),
{
    assert forall|k: int|
        0 <= k < c.outcomes.len() && (#[trigger] c.outcomes[k]).result
            == PersistResult::Durable implies a.outcomes.contains(c.outcomes[k]) by {
        assert(b.outcomes.contains(c.outcomes[k]));
        let j = choose|j: int| 0 <= j < b.outcomes.len() && b.outcomes[j] == c.outcomes[k];
        assert(a.outcomes.contains(b.outcomes[j]));
    }
}

/// Outcomes of updates that failed along with another say nothing is durable.
proof fn lemma_riders_failed_outcomes(
    m: FlusherModel,
    riders: Seq<RidingUpdate>,
    stage: RequestStage,
)
    ensures
        ({
            let n = m.after_riders_failed(riders, stage);
            forall|k: int|
                0 <= k < n.outcomes.len() && (#[trigger] n.outcomes[k]).result
                    == PersistResult::Durable ==> m.outcomes.contains(n.outcomes[k])
        }),
    decreases riders.len(),
{
    if riders.len() > 0 {
        lemma_riders_failed_outcomes(m, riders.drop_last(), stage);
        let before = m.after_riders_failed(riders.drop_last(), stage);
        let n = m.after_riders_failed(riders, stage);
        assert forall|k: int|
            0 <= k < n.outcomes.len() && (#[trigger] n.outcomes[k]).result
                == PersistResult::Durable implies m.outcomes.contains(n.outcomes[k]) by {
            if k < before.outcomes.len() {
                assert(n.outcomes[k] == before.outcomes[k]);
            }
        }
    }
}

/// What fewer updates cover, more cover too.
proof fn lemma_covers_fewer(m: FlusherModel, n: FlusherModel, lead: usize, id: usize, token: u64)
    requires
        covers(n, lead, id, token),
        m.updates.dom().contains(lead),
        m.updates[lead].sector == n.updates[lead].sector,
        m.updates[lead].token == n.updates[lead].token,
        forall|k: int|
            0 <= k < n.riders.len() && (#[trigger] n.riders[k]).sector == n.updates[lead].sector
                ==> m.riders.contains(n.riders[k]),
    ensures
        covers(m, lead, id, token),
{
    if !(lead == id && n.updates[lead].token == token) {
        let k = choose|k: int|
            0 <= k < n.riders.len() && (#[trigger] n.riders[k]).sector == n.updates[lead].sector
                && n.riders[k].stripe_id == id && n.riders[k].token == token;
        assert(m.riders.contains(n.riders[k]));
        let j = choose|j: int| 0 <= j < m.riders.len() && m.riders[j] == n.riders[k];
        assert(m.riders[j].sector == m.updates[lead].sector);
    }
}

/// A failure makes nothing durable.
proof fn lemma_failure_calm(m: FlusherModel, id: usize)
    requires
        m.updates.dom().contains(id),
        m.update_ok(id),
        forall|k: int| 0 <= k < m.riders.len() ==> #[trigger] m.rider_ok(k),
    ensures
        calm(m, m.after_failure(id)),
{
    let u = m.updates[id];
    let n = m.after_failure(id);
    let along = aboard(m.riders, u.sector);
    let led = match u.stage {
        RequestStage::Writing => m.without(id).after_not_written(u),
        RequestStage::Flushing => m.without(id).after_uncertain(u),
    };
    lemma_failure(m, id);
    lemma_picked(m.riders, u.sector);
    lemma_riders_failed_outcomes(led, along, u.stage);
    assert forall|k: int|
        0 <= k < n.outcomes.len() && (#[trigger] n.outcomes[k]).result
            == PersistResult::Durable implies m.outcomes.contains(n.outcomes[k]) by {
        assert(led.outcomes.contains(n.outcomes[k]));
        let j = choose|j: int| 0 <= j < led.outcomes.len() && led.outcomes[j] == n.outcomes[k];
        assert(m.outcomes[j] == led.outcomes[j]);
    }
    assert forall|lead: usize, i: usize, token: u64| #[trigger]
        covers(n, lead, i, token) && n.updates[lead].stage
            == RequestStage::Flushing implies covers(m, lead, i, token) && m.updates[lead].stage
        == RequestStage::Flushing by {
        lemma_covers_fewer(m, n, lead, i, token);
    }
}

/// Nor do updates that were not handed over.
proof fn lemma_cleanup_calm(m: FlusherModel, ids: Seq<usize>, return_buffer: bool)
    requires
        m.wf(),
        forall|k: int|
            0 <= k < ids.len() && m.updates.dom().contains(#[trigger] ids[k]) ==> (
            m.updates[ids[k]].stage == RequestStage::Writing) == return_buffer,
    ensures
        calm(m, m.after_cleanup(ids, return_buffer)),
        forall|k: int|
            0 <= k < ids.len() ==> !m.after_cleanup(ids, return_buffer).updates.dom().contains(
                #[trigger] ids[k],
            ),
    decreases ids.len(),
{
    if ids.len() > 0 {
        let front = ids.drop_last();
        assert(forall|k: int| 0 <= k < front.len() ==> front[k] == ids[k]);
        lemma_cleanup_calm(m, front, return_buffer);
        lemma_cleanup_wf(m, front, return_buffer);
        let before = m.after_cleanup(front, return_buffer);
        let n = m.after_cleanup(ids, return_buffer);
        let id = ids.last();
        if before.updates.dom().contains(id) {
            assert(before.update_ok(id));
            lemma_failure(before, id);
            lemma_failure_calm(before, id);
            assert(calm(before.after_failure(id), n));
            lemma_calm_twice(before, before.after_failure(id), n);
        }
        lemma_calm_twice(m, before, n);
        assert forall|k: int| 0 <= k < ids.len() implies !n.updates.dom().contains(
            #[trigger] ids[k],
        ) by {
            if k < front.len() {
                assert(!before.updates.dom().contains(front[k]));
            }
        }
    }
}

/// Nor does starting requests.
proof fn lemma_start_calm(m: FlusherModel)
    requires
        m.wf(),
    ensures
        calm(m, m.after_start_writes()),
    decreases m.queue.len(),
{
    if m.can_start() {
        lemma_start_one_wf(m);
        lemma_start_one(m);
        lemma_staying(m.queue, m.queue.len());
        let n = m.after_start_one();
        let sector = sector_of(m.queue[0].stripe_id as int) as u64;
        assert(calm(m, n)) by {
            assert forall|lead: usize, id: usize, token: u64| #[trigger]
                covers(n, lead, id, token) && n.updates[lead].stage
                    == RequestStage::Flushing implies covers(m, lead, id, token)
                && m.updates[lead].stage == RequestStage::Flushing by {
                assert(m.updates.dom().contains(lead) && m.updates[lead] == n.updates[lead]);
                assert(m.sectors.contains(m.updates[lead].sector));
                if m.starts_write() {
                    assert forall|k: int|
                        0 <= k < n.riders.len() && (#[trigger] n.riders[k]).sector
                            == n.updates[lead].sector implies m.riders.contains(n.riders[k]) by {
                        if k < m.riders.len() {
                            assert(n.riders[k] == m.riders[k]);
                        } else {
                            let r = riding(m.queue, m.queue.len())[k - m.riders.len()];
                            assert(is_rider(m.queue, m.queue.len(), r));
                            assert(n.riders[k].sector == sector);
                        }
                    }
                } else {
                    assert(forall|k: int|
                        0 <= k < n.riders.len() ==> #[trigger] n.riders[k] == m.riders[k]);
                }
                lemma_covers_fewer(m, n, lead, id, token);
            }
        }
        lemma_start_calm(n);
        lemma_calm_twice(m, n, n.after_start_writes());
    }
}

/// While completions are worked through: an update is as it was, or its write
/// completed and it is to be flushed; what finished was flushing and completed;
/// nothing else became durable.
spec fn tracks(m: FlusherModel, completions: Seq<(usize, bool)>, p: PollModel) -> bool {
    &&& forall|lead: usize| #[trigger]
        p.m.updates.dom().contains(lead) ==> {
            &&& m.updates.dom().contains(lead)
            &&& p.m.updates[lead].sector == m.updates[lead].sector
            &&& p.m.updates[lead].token == m.updates[lead].token
            &&& {
                ||| p.m.updates[lead].stage == m.updates[lead].stage
                ||| m.updates[lead].stage == RequestStage::Writing && p.flushing.contains(lead)
                    && completions.contains((lead, true))
            }
        }
    &&& forall|k: int| 0 <= k < p.m.riders.len() ==> m.riders.contains(#[trigger] p.m.riders[k])
    &&& forall|k: int|
        0 <= k < p.m.outcomes.len() && (#[trigger] p.m.outcomes[k]).result
            == PersistResult::Durable ==> m.outcomes.contains(p.m.outcomes[k])
    &&& forall|k: int|
        0 <= k < p.finished.len() ==> ended(m, completions, #[trigger] p.finished[k])
}

/// An update was flushing, and its flush completed.
spec fn ended(m: FlusherModel, completions: Seq<(usize, bool)>, f: FinishedUpdate) -> bool {
    exists|lead: usize| #[trigger]
        covers(m, lead, f.stripe_id, f.token) && m.updates[lead].stage == RequestStage::Flushing
            && completions.contains((lead, true))
}

/// More completions.
proof fn lemma_ended_more(
    m: FlusherModel,
    completions: Seq<(usize, bool)>,
    c: (usize, bool),
    f: FinishedUpdate,
)
    requires
        ended(m, completions, f),
    ensures
        ended(m, completions.push(c), f),
{
    let lead = choose|lead: usize| #[trigger]
        covers(m, lead, f.stripe_id, f.token) && m.updates[lead].stage == RequestStage::Flushing
            && completions.contains((lead, true));
    let i = choose|i: int| 0 <= i < completions.len() && completions[i] == (lead, true);
    assert(completions.push(c)[i] == (lead, true));
    assert(covers(m, lead, f.stripe_id, f.token));
}

/// Working through completions.
proof fn lemma_steps_track(m: FlusherModel, completions: Seq<(usize, bool)>)
    requires
        m.wf(),
        flushes_follow(m, completions),
    ensures
        tracks(m, completions, polled(m, completions)),
    decreases completions.len(),
{
    let start = PollModel { m, finished: Seq::empty(), flushing: Seq::empty() };
    if completions.len() == 0 {
        assert forall|k: int| 0 <= k < m.riders.len() implies m.riders.contains(
            #[trigger] m.riders[k],
        ) by {}
    } else {
        let done = completions.drop_last();
        let (at, success) = completions.last();
        lemma_steps_track(m, done);
        lemma_steps_wf(start, done);
        let p = polled(m, done);
        let q = polled(m, completions);
        assert(q == p.step(at, success));
        assert(completions =~= done.push((at, success)));
        assert(completions[completions.len() - 1] == (at, success));
        assert forall|lead: usize| done.contains((lead, true)) implies #[trigger]
            completions.contains((lead, true)) by {
            let i = choose|i: int| 0 <= i < done.len() && done[i] == (lead, true);
            assert(completions[i] == (lead, true));
        }
        assert forall|k: int| 0 <= k < p.finished.len() implies ended(
            m,
            completions,
            #[trigger] p.finished[k],
        ) by {
            lemma_ended_more(m, done, (at, success), p.finished[k]);
        }
        if p.m.updates.dom().contains(at) {
            let u = p.m.updates[at];
            assert(p.m.update_ok(at));
            lemma_picked(p.m.riders, u.sector);
            if !success {
                lemma_failure(p.m, at);
                lemma_failure_calm(p.m, at);
                let failed = p.m.after_failure(at);
                assert forall|k: int| 0 <= k < q.m.riders.len() implies m.riders.contains(
                    #[trigger] q.m.riders[k],
                ) by {
                    let i = choose|i: int|
                        0 <= i < p.m.riders.len() && p.m.riders[i] == q.m.riders[k];
                    assert(m.riders.contains(p.m.riders[i]));
                }
                assert forall|k: int|
                    0 <= k < q.m.outcomes.len() && (#[trigger] q.m.outcomes[k]).result
                        == PersistResult::Durable implies m.outcomes.contains(q.m.outcomes[k]) by {
                    assert(failed.outcomes[k] == q.m.outcomes[k]);
                    assert(p.m.outcomes.contains(q.m.outcomes[k]));
                    let i = choose|i: int|
                        0 <= i < p.m.outcomes.len() && p.m.outcomes[i] == q.m.outcomes[k];
                    assert(m.outcomes.contains(p.m.outcomes[i]));
                }
            } else if u.stage == RequestStage::Writing {
                assert(q.flushing[p.flushing.len() as int] == at);
                assert forall|lead: usize| p.flushing.contains(lead) implies #[trigger]
                    q.flushing.contains(lead) by {
                    let i = choose|i: int| 0 <= i < p.flushing.len() && p.flushing[i] == lead;
                    assert(q.flushing[i] == lead);
                }
                assert(q.m.updates.dom() =~= p.m.updates.dom());
            } else {
                let along = aboard(p.m.riders, u.sector);
                assert(!p.flushing.contains(at));
                assert(completions.contains((at, true)));
                assert(m.updates[at].stage == RequestStage::Flushing);
                assert(q.finished == p.finished.push(
                    FinishedUpdate { stripe_id: u.stripe_id, header: u.header, token: u.token },
                ) + landed(along));
                assert forall|k: int| 0 <= k < q.finished.len() implies ended(
                    m,
                    completions,
                    #[trigger] q.finished[k],
                ) by {
                    if k < p.finished.len() {
                        assert(q.finished[k] == p.finished[k]);
                    } else if k == p.finished.len() {
                        assert(q.finished[k].stripe_id == at && q.finished[k].token == u.token);
                        assert(covers(m, at, at, u.token));
                    } else {
                        let r = along[k - p.finished.len() - 1];
                        assert(q.finished[k].stripe_id == r.stripe_id && q.finished[k].token
                            == r.token);
                        let i = choose|i: int| 0 <= i < p.m.riders.len() && p.m.riders[i] == r;
                        assert(m.riders.contains(p.m.riders[i]));
                        let j = choose|j: int| 0 <= j < m.riders.len() && m.riders[j] == r;
                        assert(m.riders[j].sector == m.updates[at].sector);
                        assert(covers(m, at, r.stripe_id, r.token));
                    }
                }
                assert forall|k: int| 0 <= k < q.m.riders.len() implies m.riders.contains(
                    #[trigger] q.m.riders[k],
                ) by {
                    let i = choose|i: int|
                        0 <= i < p.m.riders.len() && p.m.riders[i] == q.m.riders[k];
                    assert(m.riders.contains(p.m.riders[i]));
                }
            }
        }
    }
}

/// Finished updates leave, and become durable.
proof fn lemma_finished_durable(m: FlusherModel, finished: Seq<FinishedUpdate>)
    ensures
        ({
            let n = after_finished(m, finished);
            &&& n.riders == m.riders
            &&& forall|i: usize| #[trigger]
                n.updates.dom().contains(i) ==> m.updates.dom().contains(i) && n.updates[i]
                    == m.updates[i]
            &&& forall|k: int|
                0 <= k < n.outcomes.len() ==> m.outcomes.contains(#[trigger] n.outcomes[k])
                    || reports(finished, n.outcomes[k])
        }),
    decreases finished.len(),
{
    if finished.len() == 0 {
        assert forall|k: int| 0 <= k < m.outcomes.len() implies m.outcomes.contains(
            #[trigger] m.outcomes[k],
        ) by {}
    } else {
        let front = finished.drop_last();
        lemma_finished_durable(m, front);
        let before = after_finished(m, front);
        let n = after_finished(m, finished);
        assert forall|k: int| 0 <= k < n.outcomes.len() implies m.outcomes.contains(
            #[trigger] n.outcomes[k],
        ) || reports(finished, n.outcomes[k]) by {
            if k < before.outcomes.len() {
                assert(n.outcomes[k] == before.outcomes[k]);
                if reports(front, before.outcomes[k]) {
                    let j = choose|j: int|
                        0 <= j < front.len() && (#[trigger] front[j]).stripe_id
                            == before.outcomes[k].stripe_id && front[j].token
                            == before.outcomes[k].token;
                    assert(finished[j] == front[j]);
                }
            } else {
                assert(finished[finished.len() - 1].stripe_id == n.outcomes[k].stripe_id);
            }
        }
    }
}

/// The outcome is of one of the finished updates.
spec fn reports(finished: Seq<FinishedUpdate>, o: PersistOutcome) -> bool {
    exists|j: int|
        0 <= j < finished.len() && (#[trigger] finished[j]).stripe_id == o.stripe_id
            && finished[j].token == o.token
}

/// A poll: what is to be flushed now was so before or was written and its flush
/// taken; what became durable was flushing, and its flush completed.
proof fn lemma_poll_durable(m: FlusherModel, completions: Seq<(usize, bool)>, taken: bool)
    requires
        m.wf(),
        flushes_follow(m, completions),
    ensures
        ({
            let n = poll_outcome(m, completions, taken);
            &&& forall|lead: usize, id: usize, token: u64| #[trigger]
                covers(n, lead, id, token) && n.updates[lead].stage == RequestStage::Flushing
                    ==> covers(m, lead, id, token) && {
                    ||| m.updates[lead].stage == RequestStage::Flushing
                    ||| m.updates[lead].stage == RequestStage::Writing && taken
                        && completions.contains((lead, true))
                }
            &&& forall|k: int|
                0 <= k < n.outcomes.len() && (#[trigger] n.outcomes[k]).result
                    == PersistResult::Durable ==> m.outcomes.contains(n.outcomes[k]) || exists|
                    lead: usize,
                | #[trigger]
                    covers(m, lead, n.outcomes[k].stripe_id, n.outcomes[k].token)
                        && m.updates[lead].stage == RequestStage::Flushing && completions.contains(
                        (lead, true),
                    )
        }),
{
    let start = PollModel { m, finished: Seq::empty(), flushing: Seq::empty() };
    let p = polled(m, completions);
    let done = after_finished(p.m, p.finished);
    let n = poll_outcome(m, completions, taken);
    lemma_steps_track(m, completions);
    lemma_steps_wf(start, completions);
    lemma_poll_done_wf(p);
    lemma_finished_durable(p.m, p.finished);
    lemma_cleanup_calm(done, p.flushing, false);
    assert(n == done || n == done.after_cleanup(p.flushing, false));
    assert(calm(done, done)) by {
        assert forall|k: int| 0 <= k < done.outcomes.len() implies done.outcomes.contains(
            #[trigger] done.outcomes[k],
        ) by {}
    }
    assert(calm(done, n));
    assert forall|lead: usize, id: usize, token: u64| #[trigger]
        covers(n, lead, id, token) && n.updates[lead].stage
            == RequestStage::Flushing implies covers(m, lead, id, token) && {
        ||| m.updates[lead].stage == RequestStage::Flushing
        ||| m.updates[lead].stage == RequestStage::Writing && taken && completions.contains(
            (lead, true),
        )
    } by {
        assert(covers(done, lead, id, token));
        assert(p.m.updates.dom().contains(lead));
        lemma_covers_fewer(m, done, lead, id, token);
        if m.updates[lead].stage == RequestStage::Writing && !taken {
            assert(p.flushing.contains(lead));
            let i = choose|i: int| 0 <= i < p.flushing.len() && p.flushing[i] == lead;
            assert(!n.updates.dom().contains(p.flushing[i]));
        }
    }
    assert forall|k: int|
        0 <= k < n.outcomes.len() && (#[trigger] n.outcomes[k]).result
            == PersistResult::Durable implies m.outcomes.contains(n.outcomes[k]) || exists|
        lead: usize,
    | #[trigger]
        covers(m, lead, n.outcomes[k].stripe_id, n.outcomes[k].token) && m.updates[lead].stage
            == RequestStage::Flushing && completions.contains((lead, true)) by {
        let o = n.outcomes[k];
        assert(done.outcomes.contains(o));
        let i = choose|i: int| 0 <= i < done.outcomes.len() && done.outcomes[i] == o;
        if p.m.outcomes.contains(done.outcomes[i]) {
            let j = choose|j: int| 0 <= j < p.m.outcomes.len() && p.m.outcomes[j] == o;
            assert(m.outcomes.contains(p.m.outcomes[j]));
        } else {
            assert(reports(p.finished, done.outcomes[i]));
            let j = choose|j: int|
                0 <= j < p.finished.len() && (#[trigger] p.finished[j]).stripe_id == o.stripe_id
                    && p.finished[j].token == o.token;
            assert(ended(m, completions, p.finished[j]));
        }
    }
}

/// What happened stays what happened.
proof fn lemma_later(
    m: FlusherModel,
    steps: Seq<FlusherStep>,
    step: FlusherStep,
    at: int,
    lead: usize,
    id: usize,
    token: u64,
    stage: RequestStage,
)
    requires
        0 <= at < steps.len(),
        completes(m, steps, at, lead, id, token, stage),
    ensures
        completes(m, steps.push(step), at, lead, id, token, stage),
{
    assert(steps.push(step).take(at) =~= steps.take(at));
    assert(steps.push(step)[at] == steps[at]);
}

/// The same, of a write.
proof fn lemma_later_written(
    m: FlusherModel,
    steps: Seq<FlusherStep>,
    step: FlusherStep,
    at: int,
    lead: usize,
    id: usize,
    token: u64,
)
    requires
        written_at(m, steps, at, lead, id, token),
    ensures
        written_at(m, steps.push(step), at, lead, id, token),
{
    lemma_later(m, steps, step, at, lead, id, token, RequestStage::Writing);
    assert(steps.push(step)[at] == steps[at]);
}

/// The same, of an update that was flushed after its write.
proof fn lemma_later_flushed(
    m: FlusherModel,
    steps: Seq<FlusherStep>,
    step: FlusherStep,
    id: usize,
    token: u64,
)
    requires
        flushed_after_write(m, steps, id, token),
    ensures
        flushed_after_write(m, steps.push(step), id, token),
{
    let (wrote, flushed, lead) = choose|wrote: int, flushed: int, lead: usize|
        {
            &&& #[trigger] written_at(m, steps, wrote, lead, id, token)
            &&& wrote < flushed < steps.len()
            &&& #[trigger] completes(
                m,
                steps,
                flushed,
                lead,
                id,
                token,
                RequestStage::Flushing,
            )
        };
    lemma_later_written(m, steps, step, wrote, lead, id, token);
    lemma_later(m, steps, step, flushed, lead, id, token, RequestStage::Flushing);
}

/// Updates that are being flushed were written.
spec fn flushing_written(m: FlusherModel, steps: Seq<FlusherStep>) -> bool {
    let n = ran(m, steps);
    forall|lead: usize, id: usize, token: u64| #[trigger]
        covers(n, lead, id, token) && n.updates[lead].stage == RequestStage::Flushing ==> exists|
            at: int,
        | #[trigger]
            written_at(m, steps, at, lead, id, token)
}

/// Outcomes that say durable say the truth.
spec fn durable_flushed(
    m: FlusherModel,
    steps: Seq<FlusherStep>,
    outcomes: Seq<PersistOutcome>,
) -> bool {
    forall|k: int|
        0 <= k < outcomes.len() && (#[trigger] outcomes[k]).result == PersistResult::Durable
            ==> flushed_after_write(m, steps, outcomes[k].stripe_id, outcomes[k].token)
}

/// One step more.
proof fn lemma_step_durable(m: FlusherModel, steps: Seq<FlusherStep>, step: FlusherStep)
    requires
        ran(m, steps).wf(),
        flushing_written(m, steps),
        durable_flushed(m, steps, ran(m, steps).outcomes),
        in_order(m, steps.push(step)),
    ensures
        flushing_written(m, steps.push(step)),
        durable_flushed(m, steps.push(step), ran(m, steps.push(step)).outcomes),
{
    let before = ran(m, steps);
    let more = steps.push(step);
    assert(more.drop_last() =~= steps);
    let n = ran(m, more);
    assert(n == stepped(before, step));
    let last = steps.len() as int;
    assert(more.take(last) =~= steps);
    match step {
        FlusherStep::Poll { completions, taken } => {
            lemma_poll_durable(before, completions, taken);
        },
        FlusherStep::Start { taken } => {
            lemma_start_calm(before);
            lemma_started(before);
            let started = before.after_start_writes();
            let ids = write_ids(before.writes_started());
            assert forall|k: int|
                0 <= k < ids.len() && started.updates.dom().contains(
                    #[trigger] ids[k],
                ) implies started.updates[ids[k]].stage == RequestStage::Writing by {
                assert(ids[k] == before.writes_started()[k].stripe_id);
            }
            lemma_cleanup_calm(started, ids, true);
            lemma_calm_twice(before, started, started.after_cleanup(ids, true));
            assert(calm(before, n));
        },
        _ => {},
    }
    assert forall|lead: usize, id: usize, token: u64| #[trigger]
        covers(n, lead, id, token) && n.updates[lead].stage
            == RequestStage::Flushing implies exists|at: int| #[trigger]
        written_at(m, more, at, lead, id, token) by {
        assert(covers(before, lead, id, token));
        if before.updates[lead].stage == RequestStage::Flushing {
            let at = choose|at: int| #[trigger] written_at(m, steps, at, lead, id, token);
            lemma_later_written(m, steps, step, at, lead, id, token);
        } else {
            assert(written_at(m, more, last, lead, id, token));
        }
    }
    assert forall|k: int|
        0 <= k < n.outcomes.len() && (#[trigger] n.outcomes[k]).result
            == PersistResult::Durable implies flushed_after_write(
        m,
        more,
        n.outcomes[k].stripe_id,
        n.outcomes[k].token,
    ) by {
        let o = n.outcomes[k];
        if before.outcomes.contains(o) {
            let j = choose|j: int| 0 <= j < before.outcomes.len() && before.outcomes[j] == o;
            assert(before.outcomes[j].result == PersistResult::Durable);
            lemma_later_flushed(m, steps, step, o.stripe_id, o.token);
        } else {
            match step {
                FlusherStep::Poll { completions, taken } => {
                    let lead = choose|lead: usize| #[trigger]
                        covers(before, lead, o.stripe_id, o.token) && before.updates[lead].stage
                            == RequestStage::Flushing && completions.contains((lead, true));
                    let at = choose|at: int| #[trigger]
                        written_at(m, steps, at, lead, o.stripe_id, o.token);
                    lemma_later_written(m, steps, step, at, lead, o.stripe_id, o.token);
                    assert(completes(
                        m,
                        more,
                        last,
                        lead,
                        o.stripe_id,
                        o.token,
                        RequestStage::Flushing,
                    ));
                },
                _ => {
                    assert(before.outcomes.contains(n.outcomes[k]));
                },
            }
        }
    }
}

/// An outcome says durable only of an update whose sector was written and, in a
/// later step, flushed: whatever is done with a flusher, in any order, for each
/// such outcome there is a poll that found the write of the sector complete and
/// in which the device took the flush, and a later one that found the flush
/// complete. Left out are devices that complete a request again in the poll
/// that found its write complete, before its flush is handed over.
pub proof fn law_durable_means_written_and_flushed(m: FlusherModel, steps: Seq<FlusherStep>)
    requires
        m.wf(),
        m.updates.dom() == Set::<usize>::empty(),
        m.outcomes.len() == 0,
        in_order(m, steps),
    ensures
        forall|k: int|
            0 <= k < told(m, steps).len() && (#[trigger] told(m, steps)[k]).result
                == PersistResult::Durable ==> flushed_after_write(
                m,
                steps,
                told(m, steps)[k].stripe_id,
                told(m, steps)[k].token,
            ),
        forall|k: int|
            0 <= k < ran(m, steps).outcomes.len() && (#[trigger] ran(
                m,
                steps,
            ).outcomes[k]).result == PersistResult::Durable ==> flushed_after_write(
                m,
                steps,
                ran(m, steps).outcomes[k].stripe_id,
                ran(m, steps).outcomes[k].token,
            ),
{
    lemma_ran_durable(m, steps);
    assert(durable_flushed(m, steps, told(m, steps)));
    assert(durable_flushed(m, steps, ran(m, steps).outcomes));
}

/// The same, for each number of steps.
proof fn lemma_ran_durable(m: FlusherModel, steps: Seq<FlusherStep>)
    requires
        m.wf(),
        m.updates.dom() == Set::<usize>::empty(),
        m.outcomes.len() == 0,
        in_order(m, steps),
    ensures
        ran(m, steps).wf(),
        flushing_written(m, steps),
        durable_flushed(m, steps, told(m, steps)),
        durable_flushed(m, steps, ran(m, steps).outcomes),
    decreases steps.len(),
{
    if steps.len() > 0 {
        let front = steps.drop_last();
        let step = steps.last();
        lemma_ran_durable(m, front);
        lemma_stepped_wf(ran(m, front), step);
        assert(front.push(step) =~= steps);
        lemma_step_durable(m, front, step);
        let before = told(m, front);
        let now = told(m, steps);
        assert forall|k: int|
            0 <= k < now.len() && (#[trigger] now[k]).result
                == PersistResult::Durable implies flushed_after_write(
            m,
            steps,
            now[k].stripe_id,
            now[k].token,
        ) by {
            if k < before.len() {
                assert(before[k] == now[k]);
            } else {
                assert(ran(m, front).outcomes[k - before.len()] == now[k]);
            }
            lemma_later_flushed(m, front, step, now[k].stripe_id, now[k].token);
        }
    }
}

} // verus!
