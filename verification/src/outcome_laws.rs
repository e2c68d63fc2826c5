//! Every header update with a token is answered, once.

use vstd::prelude::*;
use crate::metadata::types::sector_of;
use crate::metadata_flusher::{
    aboard, after_finished, landed, lemma_cleanup_wf, lemma_failure, lemma_picked,
    lemma_poll_done_wf, lemma_poll_outcome_wf, lemma_rides_alone, lemma_start_one,
    lemma_start_one_wf, lemma_start_outcome_wf, lemma_started, lemma_steps_wf, others, poll_outcome,
    polled, riding, start_outcome, staying, write_ids, FinishedUpdate, FlusherModel,
    MetadataFlusherRequest, PersistOutcome, PollModel, RequestStage, RidingUpdate,
};

verus! {

/// One, if `b`.
pub open spec fn one_if(b: bool) -> nat {
    if b {
        1
    } else {
        0
    }
}

/// How many requests of `queue` update the header of `id` under `token`.
pub open spec fn requests_for(
    queue: Seq<MetadataFlusherRequest>,
    id: usize,
    token: u64,
) -> nat
    decreases queue.len(),
{
    if queue.len() == 0 {
        0
    } else {
        one_if(queue[0].stripe_id == id && queue[0].token == token) + requests_for(
            queue.drop_first(),
            id,
            token,
        )
    }
}

/// How many of the outcomes are of `id` under `token`.
pub open spec fn outcomes_for(outcomes: Seq<PersistOutcome>, id: usize, token: u64) -> nat
    decreases outcomes.len(),
{
    if outcomes.len() == 0 {
        0
    } else {
        outcomes_for(outcomes.drop_last(), id, token) + one_if(
            outcomes.last().stripe_id == id && outcomes.last().token == token,
        )
    }
}

/// How many updates that go along with another are of `id` under `token`.
pub open spec fn riders_for(riders: Seq<RidingUpdate>, id: usize, token: u64) -> nat
    decreases riders.len(),
{
    if riders.len() == 0 {
        0
    } else {
        riders_for(riders.drop_last(), id, token) + one_if(
            riders.last().stripe_id == id && riders.last().token == token,
        )
    }
}

/// How often the flusher has still to answer for `id` under `token`: requests
/// that wait, the update in flight, whether it holds its sector or goes along
/// with one that does, and outcomes not yet taken.
pub open spec fn owed(m: FlusherModel, id: usize, token: u64) -> nat {
    requests_for(m.queue, id, token) + one_if(
        m.updates.dom().contains(id) && m.updates[id].token == token && m.sectors.contains(
            m.updates[id].sector,
        ),
    ) + riders_for(m.riders, id, token) + outcomes_for(m.outcomes, id, token)
}

/// No outcome is without a token.
pub open spec fn sound_outcomes(m: FlusherModel) -> bool {
    forall|k: int| 0 <= k < m.outcomes.len() ==> (#[trigger] m.outcomes[k]).token != 0
}

/// Updates for one sector and for the others are all there are.
proof fn lemma_riders_split(riders: Seq<RidingUpdate>, sector: u64, id: usize, token: u64)
    ensures
        riders_for(riders, id, token) == riders_for(aboard(riders, sector), id, token)
            + riders_for(others(riders, sector), id, token),
    decreases riders.len(),
{
    reveal(Seq::filter);
    if riders.len() > 0 {
        lemma_riders_split(riders.drop_last(), sector, id, token);
        let r = riders.last();
        if r.sector == sector {
            assert(aboard(riders, sector).drop_last() =~= aboard(riders.drop_last(), sector));
        } else {
            assert(others(riders, sector).drop_last() =~= others(riders.drop_last(), sector));
        }
    }
}

/// Updates that fail along with another are answered for.
proof fn lemma_riders_failed_owed(
    m: FlusherModel,
    riders: Seq<RidingUpdate>,
    stage: RequestStage,
    id: usize,
    token: u64,
)
    requires
        sound_outcomes(m),
        forall|k: int| 0 <= k < riders.len() ==> (#[trigger] riders[k]).token != 0,
    ensures
        ({
            let n = m.after_riders_failed(riders, stage);
            &&& outcomes_for(n.outcomes, id, token) == outcomes_for(m.outcomes, id, token)
                + riders_for(riders, id, token)
            &&& sound_outcomes(n)
        }),
    decreases riders.len(),
{
    if riders.len() > 0 {
        let front = riders.drop_last();
        assert(forall|k: int| 0 <= k < front.len() ==> front[k] == riders[k]);
        lemma_riders_failed_owed(m, front, stage, id, token);
        let before = m.after_riders_failed(front, stage);
        let n = m.after_riders_failed(riders, stage);
        assert(riders[riders.len() - 1].token != 0);
        lemma_outcomes_push(before.outcomes, n.outcomes.last(), id, token);
        assert(n.outcomes =~= before.outcomes.push(n.outcomes.last()));
    }
}

/// One request more.
proof fn lemma_requests_push(
    queue: Seq<MetadataFlusherRequest>,
    r: MetadataFlusherRequest,
    id: usize,
    token: u64,
)
    ensures
        requests_for(queue.push(r), id, token) == requests_for(queue, id, token) + one_if(
            r.stripe_id == id && r.token == token,
        ),
    decreases queue.len(),
{
    let more = queue.push(r);
    if queue.len() == 0 {
        assert(more.drop_first() =~= Seq::empty());
        assert(requests_for(more.drop_first(), id, token) == 0);
    } else {
        lemma_requests_push(queue.drop_first(), r, id, token);
        assert(more.drop_first() =~= queue.drop_first().push(r));
    }
}

/// One outcome more.
proof fn lemma_outcomes_push(
    outcomes: Seq<PersistOutcome>,
    o: PersistOutcome,
    id: usize,
    token: u64,
)
    ensures
        outcomes_for(outcomes.push(o), id, token) == outcomes_for(outcomes, id, token) + one_if(
            o.stripe_id == id && o.token == token,
        ),
{
    assert(outcomes.push(o).drop_last() =~= outcomes);
}

/// A failed update is answered for, if it has a token, and so are those that
/// went along. It held its sector.
proof fn lemma_failure_owed(m: FlusherModel, at: usize, id: usize, token: u64)
    requires
        sound_outcomes(m),
        m.updates.dom().contains(at),
        m.update_ok(at),
        m.updates[at].token == 0 || m.sectors.contains(m.updates[at].sector),
        forall|k: int| 0 <= k < m.riders.len() ==> #[trigger] m.rider_ok(k),
        apart(m),
        token != 0,
    ensures
        owed(m.after_failure(at), id, token) == owed(m, id, token),
        sound_outcomes(m.after_failure(at)),
{
    let u = m.updates[at];
    let n = m.after_failure(at);
    let led = match u.stage {
        RequestStage::Writing => m.without(at).after_not_written(u),
        RequestStage::Flushing => m.without(at).after_uncertain(u),
    };
    let along = aboard(m.riders, u.sector);
    lemma_failure(m, at);
    lemma_picked(m.riders, u.sector);
    assert forall|k: int| 0 <= k < along.len() implies (#[trigger] along[k]).token != 0 by {
        let i = choose|i: int| 0 <= i < m.riders.len() && m.riders[i] == along[k];
        assert(m.rider_ok(i));
    }
    if u.token != 0 {
        lemma_outcomes_push(m.outcomes, led.outcomes.last(), id, token);
        assert(led.outcomes =~= m.outcomes.push(led.outcomes.last()));
    }
    lemma_riders_failed_owed(led, along, u.stage, id, token);
    lemma_riders_split(m.riders, u.sector, id, token);
    if m.updates.dom().contains(id) && id != at {
        assert(m.updates[id].sector != m.updates[at].sector);
    }
}

/// No two updates hold one sector.
pub open spec fn apart(m: FlusherModel) -> bool {
    forall|a: usize, b: usize|
        m.updates.dom().contains(a) && m.updates.dom().contains(b)
            && #[trigger] m.updates[a].sector == #[trigger] m.updates[b].sector ==> a == b
}

/// Failed updates are answered for.
proof fn lemma_cleanup_owed(
    m: FlusherModel,
    ids: Seq<usize>,
    return_buffer: bool,
    id: usize,
    token: u64,
)
    requires
        m.wf(),
        forall|k: int|
            0 <= k < ids.len() && m.updates.dom().contains(#[trigger] ids[k]) ==> (
            m.updates[ids[k]].stage == RequestStage::Writing) == return_buffer,
        sound_outcomes(m),
        token != 0,
    ensures
        owed(m.after_cleanup(ids, return_buffer), id, token) == owed(m, id, token),
        sound_outcomes(m.after_cleanup(ids, return_buffer)),
    decreases ids.len(),
{
    if ids.len() > 0 {
        let front = ids.drop_last();
        assert(forall|k: int| 0 <= k < front.len() ==> front[k] == ids[k]);
        lemma_cleanup_owed(m, front, return_buffer, id, token);
        lemma_cleanup_wf(m, front, return_buffer);
        let n = m.after_cleanup(front, return_buffer);
        if n.updates.dom().contains(ids.last()) {
            assert(n.update_ok(ids.last()));
            lemma_failure_owed(n, ids.last(), id, token);
        }
    }
}

/// Starting requests answers for none and loses none.
proof fn lemma_start_owed(m: FlusherModel, id: usize, token: u64)
    requires
        m.wf(),
        sound_outcomes(m),
        token != 0,
    ensures
        owed(m.after_start_writes(), id, token) == owed(m, id, token),
        sound_outcomes(m.after_start_writes()),
    decreases m.queue.len(),
{
    if m.can_start() {
        lemma_start_one_wf(m);
        lemma_start_one(m);
        let n = m.after_start_one();
        let req = m.queue[0];
        let count = m.queue.len();
        lemma_requests_split(m.queue, count, id, token);
        assert(m.queue.take(count as int) =~= m.queue);
        if m.starts_write() {
            lemma_carried_owed(m.led(), riding(m.queue, count), id, token);
            let sector = sector_of(req.stripe_id as int) as u64;
            if m.updates.dom().contains(req.stripe_id) {
                assert(m.update_ok(req.stripe_id));
            }
            if m.updates.dom().contains(id) {
                assert(m.update_ok(id));
            }
        } else {
            lemma_rides_alone(m.queue, count);
        }
        lemma_start_owed(n, id, token);
    }
}

/// Requests that start or wait on are all there are.
proof fn lemma_requests_split(
    queue: Seq<MetadataFlusherRequest>,
    n: nat,
    id: usize,
    token: u64,
)
    requires
        0 < n <= queue.len(),
    ensures
        requests_for(queue.take(n as int), id, token) == one_if(
            queue[0].stripe_id == id && queue[0].token == token,
        ) + requests_for(riding(queue, n), id, token) + requests_for(
            staying(queue, n),
            id,
            token,
        ),
    decreases n,
{
    let last = queue[n - 1];
    assert(queue.take(n as int) =~= queue.take(n - 1).push(last));
    lemma_requests_push(queue.take(n - 1), last, id, token);
    if n == 1 {
        assert(queue.take(0) =~= Seq::empty());
    } else {
        lemma_requests_split(queue, (n - 1) as nat, id, token);
        lemma_requests_push(riding(queue, (n - 1) as nat), last, id, token);
        lemma_requests_push(staying(queue, (n - 1) as nat), last, id, token);
    }
}

/// Requests that go along with another are owed as before.
proof fn lemma_carried_owed(
    m: FlusherModel,
    reqs: Seq<MetadataFlusherRequest>,
    id: usize,
    token: u64,
)
    ensures
        riders_for(m.carrying(reqs).riders, id, token) == riders_for(m.riders, id, token)
            + requests_for(reqs, id, token),
    decreases reqs.len(),
{
    if reqs.len() > 0 {
        let front = reqs.drop_last();
        lemma_carried_owed(m, front, id, token);
        lemma_requests_push(front, reqs.last(), id, token);
        assert(front.push(reqs.last()) =~= reqs);
        let riders = m.carrying(reqs).riders;
        assert(riders.drop_last() =~= m.carrying(front).riders);
    }
}

/// No update with a token completes again in a poll that finished it: a device
/// reports a flush once.
pub open spec fn each_finishes_once(m: FlusherModel, completions: Seq<(usize, bool)>) -> bool
    decreases completions.len(),
{
    completions.len() == 0 || {
        let at = completions.last().0;
        let n = polled(m, completions.drop_last()).m;
        &&& each_finishes_once(m, completions.drop_last())
        &&& n.updates.dom().contains(at) && n.updates[at].token != 0 ==> n.sectors.contains(
            n.updates[at].sector,
        )
    }
}

/// How many of the finished updates are of `id` under `token`.
pub open spec fn finished_for(finished: Seq<FinishedUpdate>, id: usize, token: u64) -> nat
    decreases finished.len(),
{
    if finished.len() == 0 {
        0
    } else {
        finished_for(finished.drop_last(), id, token) + one_if(
            finished.last().stripe_id == id && finished.last().token == token,
        )
    }
}

/// One finished update more, and those that went along with it.
proof fn lemma_finished_more(
    finished: Seq<FinishedUpdate>,
    f: FinishedUpdate,
    along: Seq<RidingUpdate>,
    id: usize,
    token: u64,
)
    ensures
        finished_for(finished.push(f) + landed(along), id, token) == finished_for(
            finished,
            id,
            token,
        ) + one_if(f.stripe_id == id && f.token == token) + riders_for(along, id, token),
    decreases along.len(),
{
    let all = finished.push(f) + landed(along);
    if along.len() == 0 {
        assert(all =~= finished.push(f));
        assert(all.drop_last() =~= finished);
    } else {
        lemma_finished_more(finished, f, along.drop_last(), id, token);
        assert(all.drop_last() =~= finished.push(f) + landed(along.drop_last()));
    }
}

/// Completions answer for failed updates and lose none.
proof fn lemma_steps_owed(
    m: FlusherModel,
    completions: Seq<(usize, bool)>,
    id: usize,
    token: u64,
)
    requires
        m.wf(),
        sound_outcomes(m),
        each_finishes_once(m, completions),
        token != 0,
    ensures
        ({
            let p = polled(m, completions);
            &&& owed(p.m, id, token) + finished_for(p.finished, id, token) == owed(m, id, token)
            &&& sound_outcomes(p.m)
        }),
    decreases completions.len(),
{
    if completions.len() > 0 {
        let done = completions.drop_last();
        let (at, success) = completions.last();
        lemma_steps_owed(m, done, id, token);
        let start = PollModel { m, finished: Seq::empty(), flushing: Seq::empty() };
        lemma_steps_wf(start, done);
        let p = polled(m, done);
        let q = polled(m, completions);
        assert(q == p.step(at, success));
        if p.m.updates.dom().contains(at) {
            let u = p.m.updates[at];
            assert(p.m.update_ok(at));
            if !success {
                lemma_failure_owed(p.m, at, id, token);
            } else if u.stage == RequestStage::Flushing {
                let f = FinishedUpdate {
                    stripe_id: u.stripe_id,
                    header: u.header,
                    token: u.token,
                };
                lemma_finished_more(p.finished, f, aboard(p.m.riders, u.sector), id, token);
                lemma_riders_split(p.m.riders, u.sector, id, token);
                if p.m.updates.dom().contains(id) && id != at {
                    assert(p.m.updates[id].sector != p.m.updates[at].sector);
                }
            }
        }
    }
}

/// Durable updates are answered for.
proof fn lemma_finished_owed(
    m: FlusherModel,
    finished: Seq<FinishedUpdate>,
    id: usize,
    token: u64,
)
    requires
        sound_outcomes(m),
        token != 0,
        forall|k: int|
            0 <= k < finished.len() && m.updates.dom().contains(
                (#[trigger] finished[k]).stripe_id,
            ) ==> !m.sectors.contains(m.updates[finished[k].stripe_id].sector),
    ensures
        ({
            let n = after_finished(m, finished);
            &&& owed(n, id, token) == owed(m, id, token) + finished_for(finished, id, token)
            &&& sound_outcomes(n)
            &&& n.queue == m.queue
            &&& n.sectors == m.sectors
            &&& n.riders == m.riders
            &&& forall|i: usize| #[trigger]
                n.updates.dom().contains(i) ==> m.updates.dom().contains(i) && n.updates[i]
                    == m.updates[i]
        }),
    decreases finished.len(),
{
    if finished.len() > 0 {
        let front = finished.drop_last();
        let f = finished.last();
        assert(forall|k: int| 0 <= k < front.len() ==> front[k] == finished[k]);
        lemma_finished_owed(m, front, id, token);
        let before = after_finished(m, front);
        let n = after_finished(m, finished);
        assert(finished[finished.len() - 1] == f);
        assert(n.updates == before.updates.remove(f.stripe_id));
        if f.token != 0 {
            lemma_outcomes_push(before.outcomes, n.outcomes.last(), id, token);
            assert(n.outcomes =~= before.outcomes.push(n.outcomes.last()));
        }
    }
}

/// What can be done with a flusher.
pub enum FlusherStep {
    /// A header update is queued.
    Queue { stripe_id: usize, set: u8, clear: u8, token: u64 },
    /// Requests start; the device took their writes, or not.
    Start { taken: bool },
    /// The device is polled; it took the flushes, or not.
    Poll { completions: Seq<(usize, bool)>, taken: bool },
    /// The outcomes are taken.
    Take,
}

/// A step that names stripes of the device, and in which no update completes
/// again once it is finished.
pub open spec fn step_ok(m: FlusherModel, step: FlusherStep) -> bool {
    match step {
        FlusherStep::Queue { stripe_id, .. } => stripe_id < m.headers.len(),
        FlusherStep::Poll { completions, .. } => each_finishes_once(m, completions),
        _ => true,
    }
}

/// The flusher after a step.
pub open spec fn stepped(m: FlusherModel, step: FlusherStep) -> FlusherModel {
    match step {
        FlusherStep::Queue { stripe_id, set, clear, token } => m.queued(
            stripe_id,
            set,
            clear,
            token,
        ),
        FlusherStep::Start { taken } => start_outcome(m, taken),
        FlusherStep::Poll { completions, taken } => poll_outcome(m, completions, taken),
        FlusherStep::Take => FlusherModel { outcomes: Seq::empty(), ..m },
    }
}

/// The flusher after all steps.
pub open spec fn ran(m: FlusherModel, steps: Seq<FlusherStep>) -> FlusherModel
    decreases steps.len(),
{
    if steps.len() == 0 {
        m
    } else {
        stepped(ran(m, steps.drop_last()), steps.last())
    }
}

/// Every step is one that `step_ok` allows.
pub open spec fn steps_ok(m: FlusherModel, steps: Seq<FlusherStep>) -> bool
    decreases steps.len(),
{
    steps.len() == 0 || (steps_ok(m, steps.drop_last()) && step_ok(
        ran(m, steps.drop_last()),
        steps.last(),
    ))
}

/// How often the steps ask for an update of `id` under `token`.
pub open spec fn asked(steps: Seq<FlusherStep>, id: usize, token: u64) -> nat
    decreases steps.len(),
{
    if steps.len() == 0 {
        0
    } else {
        asked(steps.drop_last(), id, token) + one_if(
            steps.last() matches FlusherStep::Queue { stripe_id, token: t, .. } && stripe_id == id
                && t == token,
        )
    }
}

/// All outcomes that the steps took, in order.
pub open spec fn told(m: FlusherModel, steps: Seq<FlusherStep>) -> Seq<PersistOutcome>
    decreases steps.len(),
{
    if steps.len() == 0 {
        Seq::empty()
    } else {
        let before = told(m, steps.drop_last());
        if steps.last() is Take {
            before + ran(m, steps.drop_last()).outcomes
        } else {
            before
        }
    }
}

/// Outcomes of two sequences.
proof fn lemma_outcomes_add(
    a: Seq<PersistOutcome>,
    b: Seq<PersistOutcome>,
    id: usize,
    token: u64,
)
    ensures
        outcomes_for(a + b, id, token) == outcomes_for(a, id, token) + outcomes_for(b, id, token),
    decreases b.len(),
{
    if b.len() == 0 {
        assert(a + b =~= a);
    } else {
        lemma_outcomes_add(a, b.drop_last(), id, token);
        assert((a + b).drop_last() =~= a + b.drop_last());
        assert((a + b).last() == b.last());
    }
}

/// Changing only the queue and the outcomes keeps a flusher well-formed.
proof fn lemma_waiting_wf(m: FlusherModel, n: FlusherModel)
    requires
        m.wf(),
        n.headers == m.headers,
        n.sectors == m.sectors,
        n.updates == m.updates,
        n.riders == m.riders,
        n.free == m.free,
        forall|i: int|
            0 <= i < n.queue.len() ==> (#[trigger] n.queue[i]).stripe_id < n.headers.len(),
    ensures
        n.wf(),
{
    assert forall|i: usize| #[trigger] n.updates.dom().contains(i) implies n.update_ok(i)
        && n.sectors.contains(n.updates[i].sector) by {
        assert(m.update_ok(i));
    }
    assert forall|k: int| 0 <= k < n.riders.len() implies #[trigger] n.rider_ok(k) by {
        assert(m.rider_ok(k));
    }
}

/// A step that names stripes of the device keeps a flusher well-formed.
pub proof fn lemma_stepped_wf(m: FlusherModel, step: FlusherStep)
    requires
        m.wf(),
        step matches FlusherStep::Queue { stripe_id, .. } ==> stripe_id < m.headers.len(),
    ensures
        stepped(m, step).wf(),
        stepped(m, step).headers.len() == m.headers.len(),
{
    match step {
        FlusherStep::Start { taken } => {
            lemma_start_outcome_wf(m, taken);
        },
        FlusherStep::Poll { completions, taken } => {
            lemma_poll_outcome_wf(m, completions, taken);
        },
        _ => {
            lemma_waiting_wf(m, stepped(m, step));
        },
    }
}

/// One step: what is asked for is owed, and what is owed stays owed until its
/// outcome is taken.
proof fn lemma_step_owed(m: FlusherModel, step: FlusherStep, id: usize, token: u64)
    requires
        m.wf(),
        sound_outcomes(m),
        step_ok(m, step),
        token != 0,
    ensures
        ({
            let n = stepped(m, step);
            &&& n.wf()
            &&& sound_outcomes(n)
            &&& n.headers.len() == m.headers.len()
            &&& owed(n, id, token) + (if step is Take {
                outcomes_for(m.outcomes, id, token)
            } else {
                0
            }) == owed(m, id, token) + one_if(
                step matches FlusherStep::Queue { stripe_id, token: t, .. } && stripe_id == id && t
                    == token,
            )
        }),
{
    let n = stepped(m, step);
    lemma_stepped_wf(m, step);
    match step {
        FlusherStep::Queue { stripe_id, set, clear, token: t } => {
            let r = MetadataFlusherRequest { stripe_id, set, clear, token: t };
            lemma_requests_push(m.queue, r, id, token);
            assert(n.queue == m.queue.push(r));
        },
        FlusherStep::Start { taken } => {
            lemma_start_owed(m, id, token);
            lemma_started(m);
            let ids = write_ids(m.writes_started());
            assert forall|k: int|
                0 <= k < ids.len() && m.after_start_writes().updates.dom().contains(
                    #[trigger] ids[k],
                ) implies m.after_start_writes().updates[ids[k]].stage == RequestStage::Writing by {
                assert(ids[k] == m.writes_started()[k].stripe_id);
            }
            lemma_cleanup_owed(
                m.after_start_writes(),
                write_ids(m.writes_started()),
                true,
                id,
                token,
            );
        },
        FlusherStep::Poll { completions, taken } => {
            lemma_steps_owed(m, completions, id, token);
            let start = PollModel { m, finished: Seq::empty(), flushing: Seq::empty() };
            lemma_steps_wf(start, completions);
            let p = polled(m, completions);
            assert forall|k: int|
                0 <= k < p.finished.len() && p.m.updates.dom().contains(
                    (#[trigger] p.finished[k]).stripe_id,
                ) implies !p.m.sectors.contains(p.m.updates[p.finished[k].stripe_id].sector) by {
                assert(p.finished_ok(k));
                assert(p.m.update_ok(p.finished[k].stripe_id));
            }
            lemma_finished_owed(p.m, p.finished, id, token);
            lemma_poll_done_wf(p);
            lemma_cleanup_owed(after_finished(p.m, p.finished), p.flushing, false, id, token);
        },
        FlusherStep::Take => {},
    }
}

/// Every header update with a token is answered exactly once. Whatever is done
/// with a flusher, in any order, the outcomes taken for a stripe and a token,
/// those still to be taken, the update in flight and the requests that wait
/// are together as many as the updates asked for. So once the flusher has
/// nothing to do, each update has its outcome, and none has two. Requests
/// without a token have none. Left out are devices that complete an update
/// again in the poll that finished it, which is answered twice.
pub proof fn law_every_tokened_update_is_answered_once(
    m: FlusherModel,
    steps: Seq<FlusherStep>,
    id: usize,
    token: u64,
)
    requires
        m.wf(),
        m.queue.len() == 0,
        m.updates.dom() == Set::<usize>::empty(),
        m.outcomes.len() == 0,
        steps_ok(m, steps),
        token != 0,
    ensures
        ({
            let n = ran(m, steps);
            &&& outcomes_for(told(m, steps), id, token) + owed(n, id, token) == asked(
                steps,
                id,
                token,
            )
            &&& !n.is_busy() ==> outcomes_for(
                told(m, steps) + n.outcomes,
                id,
                token,
            ) == asked(steps, id, token)
            &&& forall|k: int|
                0 <= k < told(m, steps).len() ==> (#[trigger] told(m, steps)[k]).token != 0
            &&& forall|k: int| 0 <= k < n.outcomes.len() ==> (#[trigger] n.outcomes[k]).token != 0
        }),
{
    lemma_ran_owed(m, steps, id, token);
    let n = ran(m, steps);
    lemma_outcomes_add(told(m, steps), n.outcomes, id, token);
    if !n.is_busy() {
        let held = n.updates.dom().map(|i: usize| n.updates[i].sector);
        n.updates.dom().lemma_map_finite(|i: usize| n.updates[i].sector);
        assert forall|s: u64| #[trigger] n.sectors.contains(s) implies held.contains(s) by {
            let i = choose|i: usize| #[trigger]
                n.updates.dom().contains(i) && n.updates[i].sector == s;
            assert(n.updates.dom().contains(i));
        }
        vstd::set_lib::lemma_set_subset_finite(held, n.sectors);
        if n.updates.dom().contains(id) {
            assert(n.sectors.contains(n.updates[id].sector));
        }
        if n.riders.len() > 0 {
            assert(n.rider_ok(0));
        }
    }
}

/// The same, for each number of steps.
proof fn lemma_ran_owed(m: FlusherModel, steps: Seq<FlusherStep>, id: usize, token: u64)
    requires
        m.wf(),
        m.queue.len() == 0,
        m.updates.dom() == Set::<usize>::empty(),
        m.outcomes.len() == 0,
        steps_ok(m, steps),
        token != 0,
    ensures
        ran(m, steps).wf(),
        sound_outcomes(ran(m, steps)),
        outcomes_for(told(m, steps), id, token) + owed(ran(m, steps), id, token) == asked(
            steps,
            id,
            token,
        ),
        forall|k: int| 0 <= k < told(m, steps).len() ==> (#[trigger] told(m, steps)[k]).token != 0,
    decreases steps.len(),
{
    if steps.len() > 0 {
        let front = steps.drop_last();
        lemma_ran_owed(m, front, id, token);
        lemma_step_owed(ran(m, front), steps.last(), id, token);
        if steps.last() is Take {
            lemma_outcomes_add(told(m, front), ran(m, front).outcomes, id, token);
        }
    } else {
        assert(!m.updates.dom().contains(id));
        if m.riders.len() > 0 {
            assert(m.rider_ok(0));
        }
    }
}

} // verus!
