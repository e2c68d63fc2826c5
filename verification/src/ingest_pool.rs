//! Several workers taking stripes in at once.
//!
//! The pool splits the device into contiguous ranges and gives each worker its
//! own range, its own connections and its own channel to the target, so
//! nothing is shared and no two workers ever want the same stripe. Ranges are
//! contiguous rather than striped so each worker writes its own region in
//! order, which is what a disk wants.

use vstd::prelude::*;
use crate::metadata::shared_state::SharedMetadataState;
use crate::metadata_flusher::stripes_covering;
use crate::push_gate::PushPermit;
use crate::stripe_fetcher::{fitted, within, FetcherError, FetcherModel, StripeFetcher, StripeWrite};
use crate::SECTOR_SIZE;

verus! {

/// What a worker is asked to do.
#[derive(Debug)]
pub enum IngestRequest {
    /// Pull a stripe.
    Fetch { stripe_id: usize },
    /// Take a pushed stripe. The permit is the subscriber's slot.
    Pushed { stripe_id: usize, data: Vec<u8>, permit: PushPermit },
}

/// How a pool is to be set up.
#[derive(Debug, Clone, Copy, PartialEq, Eq, Structural)]
pub struct IngestPoolConfig {
    /// Pull everything sooner or later.
    pub autofetch: bool,
    /// A refused pull means that the push is on its way.
    pub expects_pushes: bool,
    /// Workers wanted.
    pub workers: usize,
    /// Connections to the source, to be shared among the workers.
    pub connections: usize,
    /// Keep the source once everything is fetched: with spill, an evicted
    /// clean stripe is pulled from it again.
    pub never_disconnect: bool,
}

/// One worker's part.
#[derive(Debug, Clone, Copy, PartialEq, Eq, Structural)]
pub struct IngestWorker {
    /// Its number.
    pub index: usize,
    /// First stripe of its range.
    pub start: usize,
    /// First stripe behind its range.
    pub end: usize,
    /// Its connections to the source.
    pub connections: usize,
    /// Pull its range sooner or later.
    pub autofetch: bool,
    /// A refused pull means that the push is on its way.
    pub expects_pushes: bool,
    /// Keep the source once everything is fetched.
    pub never_disconnect: bool,
}

/// Routes requests to the workers that own their stripes.
#[derive(Debug)]
pub struct IngestPool {
    /// First stripe of each worker's range.
    pub range_starts: Vec<usize>,
    /// Requests to be handed out, each with the worker it is for.
    pub outbox: Vec<(usize, IngestRequest)>,
    /// Whether there are still workers to hand them to.
    pub running: bool,
}

/// Where the range of worker `index` of `workers` starts on a device of `n`
/// stripes.
pub open spec fn range_start(n: nat, workers: nat, index: nat) -> nat {
    n * index / workers
}

/// How many workers there will be: at least one, and no more than stripes.
pub open spec fn worker_count(n: nat, wanted: nat) -> nat {
    if n == 0 || wanted == 0 {
        1
    } else if wanted > n {
        n
    } else {
        wanted
    }
}

/// Each worker's share of the connections, at least one.
pub open spec fn share(connections: nat, workers: nat) -> nat {
    if connections / workers == 0 {
        1
    } else {
        connections / workers
    }
}

/// The starts of ranges ascend.
pub open spec fn ascending(starts: Seq<usize>) -> bool {
    forall|i: int, j: int| 0 <= i < j < starts.len() ==> starts[i] < starts[j]
}

/// The worker owning `id`: the last whose range starts at or before it, or the
/// first.
pub open spec fn owns(starts: Seq<usize>, id: usize, worker: int) -> bool {
    &&& 0 <= worker
    &&& worker < starts.len() || worker == 0
    &&& worker > 0 ==> starts[worker] <= id
    &&& forall|i: int| worker < i < starts.len() ==> id < #[trigger] starts[i]
}

/// The worker owning `stripe_id`, given where each one's range starts.
pub fn worker_for(range_starts: &[usize], stripe_id: usize) -> (r: usize)
    requires
        ascending(range_starts@),
    ensures
        owns(range_starts@, stripe_id, r as int),
{
    let mut low: usize = 0;
    let mut high: usize = range_starts.len();
    while low < high
        invariant
            low <= high <= range_starts@.len(),
            ascending(range_starts@),
            forall|i: int| 0 <= i < low ==> #[trigger] range_starts@[i] <= stripe_id,
            forall|i: int| high <= i < range_starts@.len() ==> stripe_id
                < #[trigger] range_starts@[i],
        decreases high - low,
    {
        let middle: usize = low + (high - low) / 2;
        if range_starts[middle] <= stripe_id {
            low = middle + 1;
        } else {
            high = middle;
        }
    }
    if low == 0 {
        0
    } else {
        low - 1
    }
}

/// Only one worker owns a stripe.
pub proof fn law_a_stripe_has_one_owner(starts: Seq<usize>, id: usize, a: int, b: int)
    requires
        owns(starts, id, a),
        owns(starts, id, b),
    ensures
        a == b,
{
}

/// The ranges of a pool.
pub open spec fn ranges(n: nat, workers: nat) -> Seq<usize> {
    Seq::new(workers, |i: int| range_start(n, workers, i as nat) as usize)
}

/// Bounds of a share of the stripes.
proof fn lemma_range(n: nat, workers: nat, index: nat)
    requires
        0 < workers <= n || workers == 1,
        index <= workers,
    ensures
        0 <= range_start(n, workers, index) <= n,
        index == 0 ==> range_start(n, workers, index) == 0,
        index == workers ==> range_start(n, workers, index) == n,
        index < workers && workers <= n ==> range_start(n, workers, index) < range_start(
            n,
            workers,
            index + 1,
        ),
{
    let a = n as int;
    let w = workers as int;
    let i = index as int;
    assert(0 <= a * i / w <= a) by (nonlinear_arith)
        requires
            0 <= a,
            0 <= i <= w,
            w > 0,
    ;
    if i == w {
        assert(a * w / w == a) by (nonlinear_arith)
            requires
                w > 0,
        ;
    }
    assert(a * 0 / w == 0) by (nonlinear_arith)
        requires
            w > 0,
    ;
    if i < w && w <= a {
        assert(a * i / w < a * (i + 1) / w) by (nonlinear_arith)
            requires
                0 <= i,
                0 < w <= a,
        {
            assert(a * (i + 1) == a * i + a);
            let q = a * i / w;
            let r = a * i % w;
            assert(a * i == w * q + r && 0 <= r < w);
            assert(a * i + a >= w * (q + 1));
            assert((w * (q + 1)) / w == q + 1);
            assert(a * (i + 1) / w >= q + 1);
        }
    }
}

/// The ranges ascend from the first stripe.
proof fn lemma_ranges_ascend(n: nat, workers: nat)
    requires
        0 < workers <= n || workers == 1,
        n <= usize::MAX,
    ensures
        ascending(ranges(n, workers)),
        ranges(n, workers)[0] == 0,
{
    let starts = ranges(n, workers);
    lemma_range(n, workers, 0);
    assert forall|i: int, j: int| 0 <= i < j < starts.len() implies starts[i] < starts[j] by {
        lemma_ranges_ascend_from(n, workers, i as nat, j as nat);
        lemma_range(n, workers, i as nat);
        lemma_range(n, workers, j as nat);
    }
}

/// A later range starts later.
proof fn lemma_ranges_ascend_from(n: nat, workers: nat, i: nat, j: nat)
    requires
        0 < workers <= n,
        i < j <= workers,
    ensures
        range_start(n, workers, i) < range_start(n, workers, j),
    decreases j,
{
    if i + 1 == j {
        lemma_range(n, workers, i);
    } else {
        lemma_ranges_ascend_from(n, workers, i, (j - 1) as nat);
        lemma_range(n, workers, (j - 1) as nat);
    }
}

/// Every stripe belongs to exactly one worker, whose range holds it, and no
/// worker is left without a stripe.
pub proof fn law_every_stripe_belongs_to_the_worker_whose_range_holds_it(
    n: nat,
    wanted: nat,
    id: usize,
    worker: int,
)
    requires
        id < n,
        n <= usize::MAX,
        owns(ranges(n, worker_count(n, wanted)), id, worker),
    ensures
        0 <= worker < worker_count(n, wanted),
        range_start(n, worker_count(n, wanted), worker as nat) <= id,
        id < range_start(n, worker_count(n, wanted), (worker + 1) as nat),
        forall|i: nat|
            i < worker_count(n, wanted) ==> #[trigger] range_start(n, worker_count(n, wanted), i)
                < range_start(n, worker_count(n, wanted), i + 1),
{
    let w = worker_count(n, wanted);
    let starts = ranges(n, w);
    lemma_range(n, w, worker as nat);
    lemma_range(n, w, (worker + 1) as nat);
    if worker + 1 < w {
        assert(id < starts[worker + 1]);
    }
    assert forall|i: nat| i < w implies #[trigger] range_start(n, w, i) < range_start(
        n,
        w,
        i + 1,
    ) by {
        lemma_range(n, w, i);
    }
}

/// The stripes are shared out evenly and in order: the ranges start at the first
/// stripe, end behind the last, and of any number of first workers all shares
/// together are that part of the stripes, rounded down. There are as many
/// workers as wanted, but at least one and at most as many as stripes, and each
/// has an equal part of the connections, rounded down, but at least one.
pub proof fn law_the_stripes_are_shared_evenly(
    n: nat,
    wanted: nat,
    connections: nat,
    index: nat,
)
    requires
        index <= worker_count(n, wanted),
    ensures
        ({
            let workers = worker_count(n, wanted);
            let start = range_start(n, workers, index);
            &&& workers >= 1
            &&& 1 <= wanted <= n ==> workers == wanted
            &&& wanted > n && n > 0 ==> workers == n
            &&& wanted == 0 || n == 0 ==> workers == 1
            &&& start * workers <= n * index < (start + 1) * workers
            &&& range_start(n, workers, 0) == 0
            &&& range_start(n, workers, workers) == n
            &&& share(connections, workers) >= 1
            &&& connections >= workers ==> share(connections, workers) * workers <= connections < (
            share(connections, workers) + 1) * workers
            &&& connections < workers ==> share(connections, workers) == 1
        }),
{
    let workers = worker_count(n, wanted);
    lemma_range(n, workers, 0);
    lemma_range(n, workers, workers);
    let w = workers as int;
    let product = (n * index) as int;
    vstd::arithmetic::div_mod::lemma_fundamental_div_mod(product, w);
    vstd::arithmetic::div_mod::lemma_fundamental_div_mod(connections as int, w);
    let start = product / w;
    let each = connections as int / w;
    assert(w * start == start * w && (start + 1) * w == start * w + w && w * each == each * w && (
    each + 1) * w == each * w + w) by (nonlinear_arith);
    if connections < workers {
        vstd::arithmetic::div_mod::lemma_basic_div(connections as int, w);
    } else {
        assert(each >= 1) by (nonlinear_arith)
            requires
                connections >= w,
                w > 0,
                each == connections as int / w,
        ;
    }
}

/// A worker lists exactly the stripes of its range, of all that there are to
/// pull.
pub proof fn law_a_worker_lists_its_own_stripes(
    queue: Seq<usize>,
    start: usize,
    end: usize,
    id: usize,
)
    ensures
        queue.filter(within(start, end)).contains(id) <==> queue.contains(id) && start <= id
            < end,
    decreases queue.len(),
{
    reveal(Seq::filter);
    if queue.len() > 0 {
        let front = queue.drop_last();
        let last = queue.last();
        law_a_worker_lists_its_own_stripes(front, start, end, id);
        let listed = queue.filter(within(start, end));
        let before = front.filter(within(start, end));
        if listed.contains(id) {
            let k = listed.index_of(id);
            if k < before.len() {
                assert(before[k] == id);
                assert(before.contains(id));
                let j = front.index_of(id);
                assert(queue[j] == id);
            } else {
                assert(queue[queue.len() - 1] == id);
            }
        }
        if queue.contains(id) && start <= id < end {
            let j = queue.index_of(id);
            if j < front.len() {
                assert(front[j] == id);
                let k = before.index_of(id);
                assert(listed[k] == id);
            } else {
                assert(listed[listed.len() - 1] == id);
            }
        }
    }
}

/// The part of worker `index`.
pub open spec fn part(config: IngestPoolConfig, n: nat, index: nat) -> IngestWorker {
    let workers = worker_count(n, config.workers as nat);
    IngestWorker {
        index: index as usize,
        start: range_start(n, workers, index) as usize,
        end: range_start(n, workers, index + 1) as usize,
        connections: share(config.connections as nat, workers) as usize,
        autofetch: config.autofetch,
        expects_pushes: config.expects_pushes,
        never_disconnect: config.never_disconnect,
    }
}

/// Where the range of a worker starts.
fn range_start_of(stripe_count: usize, workers: usize, index: usize) -> (r: usize)
    requires
        0 < workers <= stripe_count || workers == 1,
        index <= workers,
    ensures
        r == range_start(stripe_count as nat, workers as nat, index as nat),
{
    proof {
        lemma_range(stripe_count as nat, workers as nat, index as nat);
        let a = stripe_count as int;
        let b = index as int;
        assert(0 <= a * b <= u64::MAX * u64::MAX) by (nonlinear_arith)
            requires
                0 <= a <= u64::MAX,
                0 <= b <= u64::MAX,
        ;
    }
    (stripe_count as u128 * index as u128 / workers as u128) as usize
}

impl IngestPool {
    /// The ranges of a device's stripes and what each worker is to do.
    pub fn new(config: IngestPoolConfig, state: &SharedMetadataState) -> (r: (
        IngestPool,
        Vec<IngestWorker>,
    ))
        ensures
            r.0.wf(),
            r.0.running,
            r.0.outbox@ == Seq::<(usize, IngestRequest)>::empty(),
            r.0.range_starts@ == ranges(
                state@.fetch.len(),
                worker_count(state@.fetch.len(), config.workers as nat),
            ),
            r.1@ == Seq::new(
                worker_count(state@.fetch.len(), config.workers as nat),
                |i: int| part(config, state@.fetch.len(), i as nat),
            ),
    {
        let stripe_count = state.stripe_count();
        let workers: usize = if stripe_count == 0 || config.workers == 0 {
            1
        } else if config.workers > stripe_count {
            stripe_count
        } else {
            config.workers
        };
        let divided: usize = config.connections / workers;
        let connections: usize = if divided == 0 {
            1
        } else {
            divided
        };
        let mut range_starts: Vec<usize> = Vec::new();
        let mut parts: Vec<IngestWorker> = Vec::new();
        let mut index: usize = 0;
        while index < workers
            invariant
                index <= workers,
                0 < workers <= stripe_count || workers == 1,
                stripe_count == state@.fetch.len(),
                workers == worker_count(state@.fetch.len(), config.workers as nat),
                connections == share(config.connections as nat, workers as nat),
                range_starts@ == ranges(stripe_count as nat, workers as nat).take(index as int),
                parts@ == Seq::new(
                    index as nat,
                    |i: int| part(config, state@.fetch.len(), i as nat),
                ),
            decreases workers - index,
        {
            let start = range_start_of(stripe_count, workers, index);
            let end = range_start_of(stripe_count, workers, index + 1);
            range_starts.push(start);
            parts.push(
                IngestWorker {
                    index,
                    start,
                    end,
                    connections,
                    autofetch: config.autofetch,
                    expects_pushes: config.expects_pushes,
                    never_disconnect: config.never_disconnect,
                },
            );
            index = index + 1;
            assert(range_starts@ =~= ranges(stripe_count as nat, workers as nat).take(
                index as int,
            ));
            assert(parts@ =~= Seq::new(
                index as nat,
                |i: int| part(config, state@.fetch.len(), i as nat),
            ));
        }
        proof {
            lemma_ranges_ascend(stripe_count as nat, workers as nat);
        }
        assert(range_starts@ =~= ranges(stripe_count as nat, workers as nat));
        (IngestPool { range_starts, outbox: Vec::new(), running: true }, parts)
    }

    /// The starts of the ranges ascend.
    pub open spec fn wf(self) -> bool {
        ascending(self.range_starts@)
    }

    /// The worker owning `stripe_id`.
    pub fn worker_for(&self, stripe_id: usize) -> (r: usize)
        requires
            self.wf(),
        ensures
            owns(self.range_starts@, stripe_id, r as int),
    {
        worker_for(self.range_starts.as_slice(), stripe_id)
    }

    /// Queue a request for the worker that owns its stripe. With the workers
    /// gone it is dropped.
    pub fn send(&mut self, stripe_id: usize, request: IngestRequest)
        requires
            old(self).wf(),
        ensures
            final(self).wf(),
            final(self).range_starts@ == old(self).range_starts@,
            final(self).running == old(self).running,
            old(self).running ==> exists|worker: usize| #[trigger]
                owns(old(self).range_starts@, stripe_id, worker as int) && final(self).outbox@
                    == old(self).outbox@.push((worker, request)),
            !old(self).running ==> final(self).outbox@ == old(self).outbox@,
    {
        if self.running {
            let worker = self.worker_for(stripe_id);
            self.outbox.push((worker, request));
        }
    }

    /// Requests queued since the last call, each with the worker it is for.
    pub fn take_outbox(&mut self) -> (r: Vec<(usize, IngestRequest)>)
        ensures
            r@ == old(self).outbox@,
            final(self).outbox@ == Seq::<(usize, IngestRequest)>::empty(),
            final(self).range_starts@ == old(self).range_starts@,
            final(self).running == old(self).running,
    {
        let mut taken: Vec<(usize, IngestRequest)> = Vec::new();
        std::mem::swap(&mut taken, &mut self.outbox);
        taken
    }

    /// No more requests: the workers stop.
    pub fn shutdown(&mut self)
        ensures
            !final(self).running,
            final(self).range_starts@ == old(self).range_starts@,
            final(self).outbox@ == old(self).outbox@,
    {
        self.running = false;
    }
}

impl IngestWorker {
    /// A fetcher for this worker's part of the device.
    pub fn build(
        &self,
        source_sector_count: u64,
        target_sector_count: u64,
        stripe_sector_count: u64,
    ) -> (r: Result<StripeFetcher, FetcherError>)
        requires
            stripe_sector_count > 0,
            stripe_sector_count * SECTOR_SIZE <= u64::MAX ==> stripe_sector_count * SECTOR_SIZE
                <= usize::MAX,
            stripes_covering(target_sector_count, stripe_sector_count) <= usize::MAX,
        ensures
            r is Ok == (stripe_sector_count * SECTOR_SIZE <= u64::MAX && target_sector_count
                >= source_sector_count),
            r matches Err(e) ==> e == if stripe_sector_count * SECTOR_SIZE > u64::MAX {
                FetcherError::StripeTooLarge { stripe_sector_count }
            } else {
                FetcherError::TargetTooSmall { target_sector_count, source_sector_count }
            },
            r matches Ok(f) ==> {
                let whole = FetcherModel::idle(
                    source_sector_count,
                    target_sector_count,
                    stripe_sector_count,
                    self.autofetch,
                );
                f@ == (FetcherModel {
                    expects_pushes: self.expects_pushes,
                    never_disconnect: self.never_disconnect,
                    auto_queue: whole.auto_queue.filter(within(self.start, self.end)),
                    ..whole
                }) && f@.wf(stripes_covering(target_sector_count, stripe_sector_count) as nat)
            },
    {
        let mut fetcher = StripeFetcher::new(
            source_sector_count,
            target_sector_count,
            stripe_sector_count,
            self.autofetch,
        )?;
        fetcher.set_expects_pushes(self.expects_pushes);
        fetcher.set_never_disconnect(self.never_disconnect);
        let ghost n = stripes_covering(target_sector_count, stripe_sector_count) as nat;
        assert(fetcher@.wf(n));
        fetcher.restrict_autofetch_to(self.start, self.end);
        assert(fetcher@.wf(n));
        Ok(fetcher)
    }

    /// Give a worker's fetcher a request. A push may have to be written at
    /// once; its slot is with the fetcher.
    pub fn apply(
        fetcher: &mut StripeFetcher,
        state: &SharedMetadataState,
        request: IngestRequest,
    ) -> (r: Option<StripeWrite>)
        requires
            old(fetcher)@.wf(state@.fetch.len()),
            state@.wf(),
            state@.valid(requested(request) as int),
        ensures
            match request {
                IngestRequest::Fetch { stripe_id } => {
                    &&& r is None
                    &&& final(fetcher)@ == old(fetcher)@.after_request(state@, stripe_id)
                },
                IngestRequest::Pushed { stripe_id, data, permit } => {
                    &&& r is Some == old(fetcher)@.push_writes(state@, stripe_id)
                    &&& r matches Some(w) ==> w.stripe_id == stripe_id && w.sector_offset
                        == old(fetcher)@.stripe_offset(stripe_id) && w.sector_count
                        == old(fetcher)@.stripe_len(stripe_id) && w.data@ == fitted(
                        data@,
                        (old(fetcher)@.stripe_sectors * SECTOR_SIZE) as nat,
                    )
                    &&& final(fetcher)@ == old(fetcher)@.after_push(
                        state@,
                        stripe_id,
                        data@,
                        permit,
                    )
                },
            },
            final(fetcher)@.wf(state@.fetch.len()),
    {
        match request {
            IngestRequest::Fetch { stripe_id } => {
                fetcher.handle_fetch_request(state, stripe_id);
                None
            },
            IngestRequest::Pushed { stripe_id, data, permit } => {
                fetcher.accept_pushed_stripe(state, stripe_id, data.as_slice(), permit)
            },
        }
    }
}

/// The stripe of a request.
pub open spec fn requested(request: IngestRequest) -> usize {
    match request {
        IngestRequest::Fetch { stripe_id } => stripe_id,
        IngestRequest::Pushed { stripe_id, data, permit } => stripe_id,
    }
}

} // verus!
