//! Takes stripes in: pulls them from their source, or accepts the copies a
//! snapshot server pushes, writes them to the target device and flushes them.

use std::collections::{HashMap, HashSet, VecDeque};
use vstd::prelude::*;
use vstd::string::StringExecFns;
use crate::crypt::copy_bytes;
use crate::io::{
    bytes_of, calls_bytes, lemma_calls_bytes_push, Answer, IoCall, IoChannel, SourceCall,
    StripeSource,
};
use crate::metadata::shared_state::{Evicted, Fetched, NoSource, SharedMetadataState, StateModel};
use crate::metadata::stripe_flags;
use crate::metadata_flusher::{div_ceil, stripes_covering};
use crate::push_gate::PushPermit;
use crate::text::{decimal, push_decimal};
use crate::SECTOR_SIZE;

verus! {

broadcast use {vstd::std_specs::hash::group_hash_axioms, lemma_calls_bytes_push};

/// Stripes taken in at once.
pub const MAX_CONCURRENT_FETCHES: usize = 16;

/// Times a failed fetch is tried again.
pub const MAX_FETCH_RETRIES: u8 = 3;

/// How long a fork keeps retrying a stripe its snapshot server refuses to
/// serve. The server stops serving a stripe the moment it copies it out, and
/// the copy it pushed is already on the wire by then, so the pull that just
/// failed will succeed as soon as that push has been written locally. Long
/// enough to cover a server that is busy with other forks.
pub const PUSH_WAIT: u64 = 60_000_000_000;

/// How far a stripe has got.
#[derive(Debug, Clone, Copy, PartialEq, Eq, Structural)]
pub enum FetchState {
    /// It waits to be pulled.
    Queued,
    /// It is being pulled or written.
    Fetching,
    /// It is being flushed.
    Flushing,
    /// It is here.
    Fetched,
}

/// A fetcher that cannot be built.
#[derive(Debug, Clone, Copy, PartialEq, Eq, Structural)]
pub enum FetcherError {
    /// A stripe's bytes have no 64-bit number.
    StripeTooLarge { stripe_sector_count: u64 },
    /// The target device cannot hold the source.
    TargetTooSmall { target_sector_count: u64, source_sector_count: u64 },
}

impl FetcherError {
    /// The message for this error.
    pub open spec fn message(self) -> Seq<char> {
        match self {
            FetcherError::StripeTooLarge { stripe_sector_count } => "stripe size too large"@,
            FetcherError::TargetTooSmall { target_sector_count, source_sector_count } =>
                "target device too small ("@ + decimal(target_sector_count as nat)
                + " sectors) for source device ("@ + decimal(source_sector_count as nat)
                + " sectors)"@,
        }
    }

    /// The message as a string.
    pub fn describe(&self) -> (r: String)
        ensures
            r@ == self.message(),
    {
        let mut out = String::new();
        match *self {
            FetcherError::StripeTooLarge { stripe_sector_count } => {
                out.append("stripe size too large");
            },
            FetcherError::TargetTooSmall { target_sector_count, source_sector_count } => {
                out.append("target device too small (");
                push_decimal(&mut out, target_sector_count);
                out.append(" sectors) for source device (");
                push_decimal(&mut out, source_sector_count);
                out.append(" sectors)");
            },
        }
        assert(out@ =~= self.message());
        out
    }
}

/// The fetcher as mathematical values.
#[verifier::ext_equal]
pub struct FetcherModel {
    /// Sectors of the source.
    pub source_sectors: u64,
    /// Sectors of the target.
    pub target_sectors: u64,
    /// Sectors of a stripe.
    pub stripe_sectors: u64,
    /// Stripes to pull, in order.
    pub queue: Seq<usize>,
    /// Stripes to pull when nobody asks for others.
    pub auto_queue: Seq<usize>,
    /// How far each stripe has got.
    pub states: Map<usize, FetchState>,
    /// Retries so far.
    pub retries: Map<usize, u8>,
    /// When each stripe was first refused.
    pub first_failure: Map<usize, u64>,
    /// Stripes with a buffer.
    pub buffers: Set<usize>,
    /// Buffers not in use.
    pub free: nat,
    /// Pushed stripes that wait for a pull to get out of the way, each with the
    /// subscriber's slot.
    pub pending: Seq<(usize, Seq<u8>, PushPermit)>,
    /// Slots of pushes that wait no longer.
    pub dropped: Seq<PushPermit>,
    /// Stripes that are done, and whether they are here.
    pub finished: Seq<(usize, bool)>,
    /// A refused pull means that the push is on its way.
    pub expects_pushes: bool,
    /// Pull everything sooner or later.
    pub autofetch: bool,
    /// The source is no longer needed.
    pub disconnected: bool,
    /// The source is kept even when everything is here.
    pub never_disconnect: bool,
}

/// The stripe needs no fetch: it is here, or the source never had it.
pub open spec fn local(s: StateModel, id: usize) -> bool {
    s.fetch[id as int] == Fetched || s.fetch[id as int] == NoSource
}

/// Where the pushed copy of `id` is; the number of copies if there is none.
pub open spec fn pending_from(
    pending: Seq<(usize, Seq<u8>, PushPermit)>,
    id: usize,
    from: int,
) -> int
    decreases pending.len() - from,
{
    if from >= pending.len() {
        pending.len() as int
    } else if pending[from].0 == id {
        from
    } else {
        pending_from(pending, id, from + 1)
    }
}

/// Where a search ends: at the copy, or behind the last.
pub proof fn lemma_pending(pending: Seq<(usize, Seq<u8>, PushPermit)>, id: usize, from: int)
    requires
        0 <= from <= pending.len(),
    ensures
        from <= pending_from(pending, id, from) <= pending.len(),
        pending_from(pending, id, from) < pending.len() ==> pending[pending_from(
            pending,
            id,
            from,
        )].0 == id,
        forall|i: int|
            from <= i < pending_from(pending, id, from) ==> (#[trigger] pending[i]).0 != id,
    decreases pending.len() - from,
{
    if from < pending.len() && pending[from].0 != id {
        lemma_pending(pending, id, from + 1);
    }
}

/// Stripes other than `id`.
pub open spec fn other_than(id: usize) -> spec_fn(usize) -> bool {
    |q: usize| q != id
}

/// Stripes from `start` up to `end`.
pub open spec fn within(start: usize, end: usize) -> spec_fn(usize) -> bool {
    |q: usize| start <= q && q < end
}

/// `data` cut or filled with zeros to `size` bytes.
pub open spec fn fitted(data: Seq<u8>, size: nat) -> Seq<u8> {
    if data.len() >= size {
        data.take(size as int)
    } else {
        data + Seq::new((size - data.len()) as nat, |i: int| 0u8)
    }
}

/// What is to be written to the target device.
#[derive(Debug)]
pub struct StripeWrite {
    /// The stripe.
    pub stripe_id: usize,
    /// Its first sector.
    pub sector_offset: u64,
    /// Its sectors.
    pub sector_count: u64,
    /// Its bytes.
    pub data: Vec<u8>,
}

impl FetcherModel {
    /// What holds of a fetcher of a device of `n` stripes: the target holds
    /// them, every stripe it knows is one of them, and no more buffers are in
    /// use than there are.
    pub open spec fn wf(self, n: nat) -> bool {
        &&& self.stripe_sectors > 0
        &&& self.stripe_sectors * SECTOR_SIZE <= usize::MAX
        &&& n > 0 ==> (n - 1) * self.stripe_sectors < self.target_sectors
        &&& forall|i: int| 0 <= i < self.queue.len() ==> (#[trigger] self.queue[i]) < n
        &&& forall|i: int| 0 <= i < self.auto_queue.len() ==> (#[trigger] self.auto_queue[i]) < n
        &&& forall|i: int| 0 <= i < self.pending.len() ==> (#[trigger] self.pending[i]).0 < n
        &&& forall|i: int| 0 <= i < self.finished.len() ==> (#[trigger] self.finished[i]).0 < n
        &&& forall|id: usize| #[trigger] self.buffers.contains(id) ==> id < n
        &&& self.buffers.finite()
        &&& self.buffers.len() + self.free <= MAX_CONCURRENT_FETCHES
        &&& forall|id: usize| #[trigger]
            self.retries.contains_key(id) ==> self.retries[id] <= MAX_FETCH_RETRIES
    }

    /// A pull or a write of the stripe is on its way.
    pub open spec fn in_flight(self, id: usize) -> bool {
        self.states.contains_key(id) && self.states[id] != FetchState::Fetched
    }

    /// An entry of a stripe that was here once and has been evicted since.
    pub open spec fn stale(self, s: StateModel, id: usize) -> bool {
        &&& self.states.contains_key(id)
        &&& self.states[id] == FetchState::Fetched
        &&& s.fetch[id as int] == Evicted || s.flag(id as int, stripe_flags::WAS_EVICTED)
    }

    /// A fetch of `id` was asked for.
    pub open spec fn after_request(self, s: StateModel, id: usize) -> FetcherModel {
        if local(s, id) || (self.states.contains_key(id) && !self.stale(s, id)) {
            self
        } else {
            FetcherModel {
                queue: self.queue.push(id),
                states: self.states.insert(id, FetchState::Queued),
                ..self
            }
        }
    }

    /// A slot is to be given back.
    pub open spec fn with_dropped(self, permit: PushPermit) -> FetcherModel {
        FetcherModel { dropped: self.dropped.push(permit), ..self }
    }

    /// A pushed copy waits, in place of an earlier one.
    pub open spec fn with_pending(
        self,
        id: usize,
        data: Seq<u8>,
        permit: PushPermit,
    ) -> FetcherModel {
        let at = pending_from(self.pending, id, 0);
        if at < self.pending.len() {
            FetcherModel { pending: self.pending.update(at, (id, data, permit)), ..self }
                .with_dropped(self.pending[at].2)
        } else {
            FetcherModel { pending: self.pending.push((id, data, permit)), ..self }
        }
    }

    /// A pushed copy of `id` waits.
    pub open spec fn has_pending(self, id: usize) -> bool {
        pending_from(self.pending, id, 0) < self.pending.len()
    }

    /// Nothing is to be pulled for `id` any more.
    pub open spec fn without_pull(self, id: usize) -> FetcherModel {
        FetcherModel {
            queue: self.queue.filter(other_than(id)),
            retries: self.retries.remove(id),
            first_failure: self.first_failure.remove(id),
            ..self
        }
    }

    /// A pushed copy is written, or waits for a buffer.
    pub open spec fn after_push_write(
        self,
        id: usize,
        data: Seq<u8>,
        permit: PushPermit,
    ) -> FetcherModel {
        let cleared = self.without_pull(id);
        if self.free == 0 {
            cleared.with_pending(id, data, permit)
        } else {
            FetcherModel {
                buffers: self.buffers.insert(id),
                free: (self.free - 1) as nat,
                states: self.states.insert(id, FetchState::Fetching),
                ..cleared
            }.with_dropped(permit)
        }
    }

    /// A pushed copy arrived. Its slot comes back once the copy is written or
    /// not needed, so copies that wait hold the subscriber back.
    pub open spec fn after_push(
        self,
        s: StateModel,
        id: usize,
        data: Seq<u8>,
        permit: PushPermit,
    ) -> FetcherModel {
        if local(s, id) {
            self.with_dropped(permit)
        } else if self.in_flight(id) {
            self.with_pending(id, data, permit)
        } else {
            self.after_push_write(id, data, permit)
        }
    }

    /// A pushed copy that arrives is written at once.
    pub open spec fn push_writes(self, s: StateModel, id: usize) -> bool {
        !local(s, id) && !self.in_flight(id) && self.free > 0
    }

    /// The buffer of `id` is back.
    pub open spec fn released(self, id: usize) -> FetcherModel {
        FetcherModel {
            buffers: self.buffers.remove(id),
            free: self.free + (if self.buffers.contains(id) {
                1nat
            } else {
                0nat
            }),
            ..self
        }
    }

    /// When `id` was first refused, now if never before.
    pub open spec fn refused_since(self, id: usize, now: u64) -> u64 {
        if self.first_failure.contains_key(id) {
            self.first_failure[id]
        } else {
            now
        }
    }

    /// A refused stripe still waits for its push.
    pub open spec fn awaits_push(self, id: usize, now: u64) -> bool {
        now < self.refused_since(id, now) || now - self.refused_since(id, now) < PUSH_WAIT
    }

    /// How often `id` was tried again.
    pub open spec fn retried(self, id: usize) -> u8 {
        if self.retries.contains_key(id) {
            self.retries[id]
        } else {
            0
        }
    }

    /// The failed fetch of `id` is given up.
    pub open spec fn gives_up(self, id: usize, now: u64) -> bool {
        &&& !(self.expects_pushes && (self.awaits_push(id, now) || self.has_pending(id)))
        &&& self.retried(id) >= MAX_FETCH_RETRIES
    }

    /// The fetch of `id` is over.
    pub open spec fn after_completed(self, id: usize, success: bool, now: u64) -> FetcherModel {
        let back = self.released(id);
        if success {
            FetcherModel {
                states: self.states.insert(id, FetchState::Fetched),
                retries: self.retries.remove(id),
                first_failure: self.first_failure.remove(id),
                finished: self.finished.push((id, true)),
                ..back
            }
        } else {
            let noted = if self.expects_pushes {
                FetcherModel {
                    first_failure: self.first_failure.insert(id, self.refused_since(id, now)),
                    ..back
                }
            } else {
                back
            };
            if self.expects_pushes && self.awaits_push(id, now) {
                FetcherModel {
                    queue: self.queue.push(id),
                    states: self.states.remove(id),
                    ..noted
                }
            } else if self.expects_pushes && self.has_pending(id) {
                FetcherModel { states: self.states.remove(id), ..noted }
            } else if self.retried(id) < MAX_FETCH_RETRIES {
                FetcherModel {
                    retries: self.retries.insert(id, (self.retried(id) + 1) as u8),
                    queue: self.queue.push(id),
                    states: self.states.insert(id, FetchState::Queued),
                    ..noted
                }
            } else {
                FetcherModel {
                    states: self.states.remove(id),
                    retries: self.retries.remove(id),
                    finished: self.finished.push((id, false)),
                    ..noted
                }
            }
        }
    }

    /// What that does to the shared state.
    pub open spec fn state_after_completed(
        self,
        s: StateModel,
        id: usize,
        success: bool,
        now: u64,
    ) -> StateModel {
        if !success && self.gives_up(id, now) {
            s.after_set_failed(id as int)
        } else {
            s
        }
    }

    /// A stripe is pulled for want of other requests.
    pub open spec fn after_autofetch(self, s: StateModel) -> FetcherModel {
        if self.autofetch && self.queue.len() == 0 && self.auto_queue.len() > 0 {
            FetcherModel { auto_queue: self.auto_queue.drop_first(), ..self }.after_request(
                s,
                self.auto_queue[0],
            )
        } else {
            self
        }
    }

    /// The first queued stripe is pulled, or turns out to be here.
    pub open spec fn after_start(self, s: StateModel) -> FetcherModel {
        let id = self.queue[0];
        let popped = FetcherModel { queue: self.queue.drop_first(), ..self };
        if local(s, id) {
            FetcherModel {
                states: self.states.insert(id, FetchState::Fetched),
                first_failure: self.first_failure.remove(id),
                retries: self.retries.remove(id),
                ..popped
            }
        } else {
            FetcherModel {
                buffers: self.buffers.insert(id),
                free: (self.free - 1) as nat,
                ..popped
            }
        }
    }

    /// The pull of `id` is with the source.
    pub open spec fn after_pull_started(self, id: usize) -> FetcherModel {
        FetcherModel { states: self.states.insert(id, FetchState::Fetching), ..self }
    }

    /// The flush of `id` is with the target.
    pub open spec fn after_flush_started(self, id: usize) -> FetcherModel {
        FetcherModel { states: self.states.insert(id, FetchState::Flushing), ..self }
    }

    /// The source is no longer needed: nothing is going on and every stripe it
    /// holds is here.
    pub open spec fn may_disconnect(self, s: StateModel, busy: bool) -> bool {
        !self.disconnected && !self.never_disconnect && !busy && s.source == s.fetched
    }

    /// Something is going on.
    pub open spec fn is_busy(self, source_busy: bool, target_busy: bool) -> bool {
        ||| self.queue.len() > 0
        ||| source_busy
        ||| target_busy
        ||| self.finished.len() > 0
        ||| self.auto_queue.len() > 0
    }

    /// Where a stripe starts.
    pub open spec fn stripe_offset(self, id: usize) -> int {
        id * self.stripe_sectors
    }

    /// What the target is asked to write a stripe, and whether it took that.
    pub open spec fn write_calls(self, id: usize, data: Seq<u8>, result: Answer) -> Seq<
        IoCall<Seq<u8>>,
    > {
        seq![
            IoCall::Write {
                sector_offset: self.stripe_offset(id) as u64,
                sector_count: self.stripe_len(id) as u32,
                buf: data,
                id,
            },
            IoCall::Submit { result },
        ]
    }

    /// Sectors of a stripe; the last may be short.
    pub open spec fn stripe_len(self, id: usize) -> int {
        let rest = self.target_sectors - self.stripe_offset(id);
        if self.stripe_sectors < rest {
            self.stripe_sectors as int
        } else {
            rest
        }
    }
}

/// Takes stripes in.
#[derive(Debug)]
pub struct StripeFetcher {
    /// Sectors of the source.
    pub source_sector_count: u64,
    /// Sectors of the target.
    pub target_sector_count: u64,
    /// Sectors of a stripe.
    pub stripe_sector_count: u64,
    /// Stripes to pull, in order.
    pub fetch_queue: VecDeque<usize>,
    /// Stripes to pull when nobody asks for others.
    pub autofetch_queue: VecDeque<usize>,
    /// How far each stripe has got.
    pub stripe_states: HashMap<usize, FetchState>,
    /// Retries so far.
    pub stripe_fetch_retries: HashMap<usize, u8>,
    /// Set when this device forks another one, so a refused pull means "the
    /// push is on its way" rather than "this stripe is unavailable".
    pub expects_pushes: bool,
    /// When each stripe was first refused.
    pub first_failure: HashMap<usize, u64>,
    /// Stripes with a buffer.
    pub allocated_buffers: HashSet<usize>,
    /// Buffers not in use.
    pub free_buffers: usize,
    /// Stripes the snapshot server pushed while a pull for them was in flight.
    /// Applied once that pull finishes: after a copy-out the server refuses to
    /// serve the stripe, so the pushed copy is the only correct one.
    pub pending_pushes: Vec<(usize, Vec<u8>, PushPermit)>,
    /// Slots of pushes that wait no longer.
    pub dropped_permits: Vec<PushPermit>,
    /// Stripes that are done, and whether they are here.
    pub finished_fetches: Vec<(usize, bool)>,
    /// Pull everything sooner or later.
    pub autofetch: bool,
    /// The source is no longer needed.
    pub disconnected: bool,
    /// The source is kept even when everything is here.
    pub never_disconnect: bool,
}

/// A pushed copy as mathematical values.
pub open spec fn pending_model(pending: Seq<(usize, Vec<u8>, PushPermit)>) -> Seq<
    (usize, Seq<u8>, PushPermit),
> {
    pending.map_values(|p: (usize, Vec<u8>, PushPermit)| (p.0, p.1@, p.2))
}

impl View for StripeFetcher {
    type V = FetcherModel;

    open spec fn view(&self) -> FetcherModel {
        FetcherModel {
            source_sectors: self.source_sector_count,
            target_sectors: self.target_sector_count,
            stripe_sectors: self.stripe_sector_count,
            queue: self.fetch_queue@,
            auto_queue: self.autofetch_queue@,
            states: self.stripe_states@,
            retries: self.stripe_fetch_retries@,
            first_failure: self.first_failure@,
            buffers: self.allocated_buffers@,
            free: self.free_buffers as nat,
            pending: pending_model(self.pending_pushes@),
            dropped: self.dropped_permits@,
            finished: self.finished_fetches@,
            expects_pushes: self.expects_pushes,
            autofetch: self.autofetch,
            disconnected: self.disconnected,
            never_disconnect: self.never_disconnect,
        }
    }
}

impl StripeFetcher {
    /// A fetcher with nothing to do but, with `autofetch`, to pull every
    /// stripe of the source.
    pub fn new(
        source_sector_count: u64,
        target_sector_count: u64,
        stripe_sector_count: u64,
        autofetch: bool,
    ) -> (r: Result<StripeFetcher, FetcherError>)
        requires
            stripe_sector_count > 0,
            stripe_sector_count * SECTOR_SIZE <= u64::MAX ==> stripe_sector_count * SECTOR_SIZE
                <= usize::MAX,
            stripes_covering(target_sector_count, stripe_sector_count) <= usize::MAX,
        ensures
            match r {
                Ok(f) => {
                    &&& stripe_sector_count * SECTOR_SIZE <= u64::MAX
                    &&& target_sector_count >= source_sector_count
                    &&& f@ == FetcherModel::idle(
                        source_sector_count,
                        target_sector_count,
                        stripe_sector_count,
                        autofetch,
                    )
                    &&& f@.wf(stripes_covering(target_sector_count, stripe_sector_count) as nat)
                },
                Err(FetcherError::StripeTooLarge { stripe_sector_count: c }) => c
                    == stripe_sector_count && c * SECTOR_SIZE > u64::MAX,
                Err(
                    FetcherError::TargetTooSmall {
                        target_sector_count: t,
                        source_sector_count: s,
                    },
                ) => stripe_sector_count * SECTOR_SIZE <= u64::MAX && t == target_sector_count
                    && s == source_sector_count && t < s,
            },
    {
        if stripe_sector_count.checked_mul(SECTOR_SIZE as u64).is_none() {
            return Err(FetcherError::StripeTooLarge { stripe_sector_count });
        }
        if target_sector_count < source_sector_count {
            return Err(FetcherError::TargetTooSmall { target_sector_count, source_sector_count });
        }
        let count: u64 = div_ceil(source_sector_count, stripe_sector_count);
        proof {
            lemma_covering_monotone(
                source_sector_count,
                target_sector_count,
                stripe_sector_count,
            );
        }
        let mut autofetch_queue: VecDeque<usize> = VecDeque::new();
        if autofetch {
            let mut i: u64 = 0;
            while i < count
                invariant
                    i <= count,
                    count <= usize::MAX,
                    autofetch_queue@ == first_stripes(i as nat),
                decreases count - i,
            {
                autofetch_queue.push_back(i as usize);
                i = i + 1;
                assert(autofetch_queue@ =~= first_stripes(i as nat));
            }
        } else {
            assert(autofetch_queue@ =~= Seq::empty());
        }
        let f = StripeFetcher {
            source_sector_count,
            target_sector_count,
            stripe_sector_count,
            fetch_queue: VecDeque::new(),
            autofetch_queue,
            stripe_states: HashMap::new(),
            stripe_fetch_retries: HashMap::new(),
            expects_pushes: false,
            first_failure: HashMap::new(),
            allocated_buffers: HashSet::new(),
            free_buffers: MAX_CONCURRENT_FETCHES,
            pending_pushes: Vec::new(),
            dropped_permits: Vec::new(),
            finished_fetches: Vec::new(),
            autofetch,
            disconnected: false,
            never_disconnect: false,
        };
        assert(f@ =~= FetcherModel::idle(
            source_sector_count,
            target_sector_count,
            stripe_sector_count,
            autofetch,
        ));
        Ok(f)
    }
}

/// Leaving stripes out adds none.
proof fn lemma_filter_bound(queue: Seq<usize>, p: spec_fn(usize) -> bool, n: nat)
    requires
        forall|i: int| 0 <= i < queue.len() ==> (#[trigger] queue[i]) < n,
    ensures
        forall|i: int|
            0 <= i < queue.filter(p).len() ==> (#[trigger] queue.filter(p)[i]) < n,
    decreases queue.len(),
{
    reveal(Seq::filter);
    if queue.len() > 0 {
        lemma_filter_bound(queue.drop_last(), p, n);
        let before = queue.drop_last().filter(p);
        let after = queue.filter(p);
        assert(after == (if p(queue.last()) {
            before.push(queue.last())
        } else {
            before
        }));
        assert forall|i: int| 0 <= i < after.len() implies (#[trigger] after[i]) < n by {
            if i < before.len() {
                assert(before[i] < n);
            }
        }
    }
}

/// A queue without `id`.
fn retain_others(queue: &VecDeque<usize>, id: usize) -> (r: VecDeque<usize>)
    ensures
        r@ == queue@.filter(other_than(id)),
{
    let mut kept: VecDeque<usize> = VecDeque::new();
    let n: usize = queue.len();
    let mut i: usize = 0;
    assert(queue@.take(0).filter(other_than(id)) =~= Seq::empty()) by {
        reveal(Seq::filter);
    }
    while i < n
        invariant
            i <= n,
            n == queue@.len(),
            kept@ == queue@.take(i as int).filter(other_than(id)),
        decreases n - i,
    {
        assert(queue@.take(i + 1).drop_last() =~= queue@.take(i as int));
        reveal(Seq::filter);
        if queue[i] != id {
            kept.push_back(queue[i]);
        }
        i = i + 1;
    }
    assert(queue@.take(i as int) =~= queue@);
    kept
}

impl StripeFetcher {
    /// Whether anything is going on; `source_busy` and `target_busy` are what
    /// the source and the target's channel say of themselves.
    pub fn busy(&self, source_busy: bool, target_busy: bool) -> (r: bool)
        ensures
            r == self@.is_busy(source_busy, target_busy),
    {
        self.fetch_queue.len() > 0 || source_busy || target_busy || self.finished_fetches.len() > 0
            || self.autofetch_queue.len() > 0
    }

    /// Pull a stripe, unless it is here or on its way. An entry of a stripe
    /// that was here once and has been evicted since is stale.
    pub fn handle_fetch_request(&mut self, state: &SharedMetadataState, stripe_id: usize)
        requires
            old(self)@.wf(state@.fetch.len()),
            state@.wf(),
            state@.valid(stripe_id as int),
        ensures
            final(self)@ == old(self)@.after_request(state@, stripe_id),
            final(self)@.wf(state@.fetch.len()),
    {
        if state.stripe_fetched_if_needed(stripe_id) {
            return;
        }
        if let Some(entry) = self.stripe_states.get(&stripe_id) {
            let gone = state.stripe_fetch_state(stripe_id) == Evicted || state.stripe_flags(
                stripe_id,
            ) & stripe_flags::WAS_EVICTED != 0;
            if !(gone && *entry == FetchState::Fetched) {
                return;
            }
        }
        self.fetch_queue.push_back(stripe_id);
        self.stripe_states.insert(stripe_id, FetchState::Queued);
        assert(self@ =~= old(self)@.after_request(state@, stripe_id));
    }

    /// Whether this device subscribes to a snapshot, so that stripes its
    /// source refuses are coming over the push channel instead.
    pub fn set_expects_pushes(&mut self, expects_pushes: bool)
        ensures
            final(self)@ == (FetcherModel { expects_pushes, ..old(self)@ }),
    {
        self.expects_pushes = expects_pushes;
    }

    /// Whether the source is kept once everything is here: with spill, an
    /// evicted clean stripe is pulled from it again.
    pub fn set_never_disconnect(&mut self, never_disconnect: bool)
        ensures
            final(self)@ == (FetcherModel { never_disconnect, ..old(self)@ }),
    {
        self.never_disconnect = never_disconnect;
    }

    /// Pull of its own accord only stripes from `start` up to `end`.
    pub fn restrict_autofetch_to(&mut self, start: usize, end: usize)
        ensures
            final(self)@ == (FetcherModel {
                auto_queue: old(self)@.auto_queue.filter(within(start, end)),
                ..old(self)@
            }),
            forall|n: nat| old(self)@.wf(n) ==> #[trigger] final(self)@.wf(n),
    {
        let mut kept: VecDeque<usize> = VecDeque::new();
        let n: usize = self.autofetch_queue.len();
        let mut i: usize = 0;
        let ghost inside = within(start, end);
        assert(self@.auto_queue.take(0).filter(inside) =~= Seq::empty()) by {
            reveal(Seq::filter);
        }
        while i < n
            invariant
                i <= n,
                n == self@.auto_queue.len(),
                self@ == old(self)@,
                inside == within(start, end),
                kept@ == self@.auto_queue.take(i as int).filter(inside),
            decreases n - i,
        {
            assert(self@.auto_queue.take(i + 1).drop_last() =~= self@.auto_queue.take(i as int));
            reveal(Seq::filter);
            let id: usize = self.autofetch_queue[i];
            if start <= id && id < end {
                kept.push_back(id);
            }
            i = i + 1;
        }
        assert(self@.auto_queue.take(i as int) =~= self@.auto_queue);
        self.autofetch_queue = kept;
        assert(self@ =~= FetcherModel {
            auto_queue: old(self)@.auto_queue.filter(inside),
            ..old(self)@
        });
        assert forall|n: nat| old(self)@.wf(n) implies #[trigger] self@.wf(n) by {
            lemma_filter_bound(old(self)@.auto_queue, inside, n);
        }
    }

    /// Whether a pull or a write of the stripe is on its way.
    pub fn fetch_in_flight(&self, stripe_id: usize) -> (r: bool)
        ensures
            r == self@.in_flight(stripe_id),
    {
        match self.stripe_states.get(&stripe_id) {
            Some(entry) => *entry != FetchState::Fetched,
            None => false,
        }
    }

    /// Where the pushed copy of `id` is, or the number of copies.
    fn pending_position(&self, id: usize) -> (at: usize)
        ensures
            at == pending_from(self@.pending, id, 0),
            at <= self@.pending.len(),
            at < self@.pending.len() ==> self@.pending[at as int].0 == id,
    {
        let mut at: usize = 0;
        while at < self.pending_pushes.len() && self.pending_pushes[at].0 != id
            invariant
                at <= self@.pending.len(),
                pending_from(self@.pending, id, 0) == pending_from(
                    self@.pending,
                    id,
                    at as int,
                ),
            decreases self@.pending.len() - at,
        {
            at = at + 1;
        }
        at
    }

    /// Keep a pushed copy, in place of an earlier one.
    fn keep_push(
        &mut self,
        stripe_id: usize,
        data: Vec<u8>,
        permit: PushPermit,
        Ghost(n): Ghost<nat>,
    )
        requires
            old(self)@.wf(n),
            stripe_id < n,
        ensures
            final(self)@ == old(self)@.with_pending(stripe_id, data@, permit),
            final(self)@.wf(n),
    {
        let ghost copy = data@;
        let ghost slot = permit;
        let at = self.pending_position(stripe_id);
        if at < self.pending_pushes.len() {
            let (_, _, earlier) = self.pending_pushes.remove(at);
            self.pending_pushes.insert(at, (stripe_id, data, permit));
            self.dropped_permits.push(earlier);
        } else {
            self.pending_pushes.push((stripe_id, data, permit));
        }
        assert(self@.pending =~= old(self)@.with_pending(stripe_id, copy, slot).pending);
        assert(self@ =~= old(self)@.with_pending(stripe_id, copy, slot));
    }

    /// What writing a stripe to the target takes.
    fn write_of(&self, stripe_id: usize, data: Vec<u8>, Ghost(n): Ghost<nat>) -> (w: StripeWrite)
        requires
            self@.wf(n),
            stripe_id < n,
        ensures
            w.stripe_id == stripe_id,
            w.sector_offset == self@.stripe_offset(stripe_id),
            w.sector_offset == stripe_id * self@.stripe_sectors,
            w.sector_count == self@.stripe_len(stripe_id),
            w.data@ == data@,
    {
        proof {
            let c = self@.stripe_sectors as int;
            let i = stripe_id as int;
            assert(0 <= i * c <= (n - 1) * c) by (nonlinear_arith)
                requires
                    0 <= i <= n - 1,
                    0 <= c,
            ;
        }
        let sector_offset: u64 = stripe_id as u64 * self.stripe_sector_count;
        let rest: u64 = self.target_sector_count - sector_offset;
        let sector_count: u64 = if self.stripe_sector_count < rest {
            self.stripe_sector_count
        } else {
            rest
        };
        StripeWrite { stripe_id, sector_offset, sector_count, data }
    }

    /// Write a pushed copy, or keep it until there is a buffer. A pull of the
    /// stripe that is still queued failed because this copy exists: retrying
    /// it would fail again, and its completion would land on top of this write
    /// and be taken for it.
    fn write_pushed_stripe(
        &mut self,
        stripe_id: usize,
        data: &[u8],
        permit: PushPermit,
        Ghost(n): Ghost<nat>,
    ) -> (w: Option<StripeWrite>)
        requires
            old(self)@.wf(n),
            stripe_id < n,
        ensures
            final(self)@ == old(self)@.after_push_write(stripe_id, data@, permit),
            final(self)@.wf(n),
            w is Some == (old(self)@.free > 0),
            w matches Some(w) ==> {
                &&& w.stripe_id == stripe_id
                &&& w.sector_offset == old(self)@.stripe_offset(stripe_id)
                &&& w.sector_count == old(self)@.stripe_len(stripe_id)
                &&& w.data@ == fitted(
                    data@,
                    (old(self)@.stripe_sectors * SECTOR_SIZE) as nat,
                )
                &&& w.data@.len() == old(self)@.stripe_sectors * SECTOR_SIZE
                &&& forall|i: int|
                    0 <= i < w.data@.len() ==> (#[trigger] w.data@[i]) == if i < data@.len() {
                        data@[i]
                    } else {
                        0u8
                    }
            },
    {
        let queue = retain_others(&self.fetch_queue, stripe_id);
        self.fetch_queue = queue;
        self.stripe_fetch_retries.remove(&stripe_id);
        self.first_failure.remove(&stripe_id);
        assert(self@ =~= old(self)@.without_pull(stripe_id));
        proof {
            lemma_filter_bound(old(self)@.queue, other_than(stripe_id), n);
        }
        if self.free_buffers == 0 {
            self.keep_push(stripe_id, copy_bytes(data), permit, Ghost(n));
            return None;
        }
        let size: usize = self.stripe_sector_count as usize * SECTOR_SIZE;
        let buffer = fit(data, size);
        self.free_buffers = self.free_buffers - 1;
        self.allocated_buffers.insert(stripe_id);
        self.stripe_states.insert(stripe_id, FetchState::Fetching);
        let ghost slot = permit;
        self.dropped_permits.push(permit);
        assert(self@ =~= old(self)@.after_push_write(stripe_id, data@, slot));
        Some(self.write_of(stripe_id, buffer, Ghost(n)))
    }

    /// Take a stripe the snapshot server pushed: the content this fork must
    /// see, handed over just before the server overwrites it. It is to be
    /// written like a fetched stripe, unless it is here already. While a pull
    /// of it is in flight the copy is held, and the subscriber's slot with it;
    /// that pull cannot succeed.
    pub fn accept_pushed_stripe(
        &mut self,
        state: &SharedMetadataState,
        stripe_id: usize,
        data: &[u8],
        permit: PushPermit,
    ) -> (w: Option<StripeWrite>)
        requires
            old(self)@.wf(state@.fetch.len()),
            state@.valid(stripe_id as int),
        ensures
            final(self)@ == old(self)@.after_push(state@, stripe_id, data@, permit),
            final(self)@.wf(state@.fetch.len()),
            w is Some == old(self)@.push_writes(state@, stripe_id),
            w matches Some(w) ==> {
                &&& w.stripe_id == stripe_id
                &&& w.sector_offset == old(self)@.stripe_offset(stripe_id)
                &&& w.sector_count == old(self)@.stripe_len(stripe_id)
                &&& w.data@ == fitted(
                    data@,
                    (old(self)@.stripe_sectors * SECTOR_SIZE) as nat,
                )
                &&& w.data@.len() == old(self)@.stripe_sectors * SECTOR_SIZE
                &&& forall|i: int|
                    0 <= i < w.data@.len() ==> (#[trigger] w.data@[i]) == if i < data@.len() {
                        data@[i]
                    } else {
                        0u8
                    }
            },
    {
        if state.stripe_fetched_if_needed(stripe_id) {
            let ghost slot = permit;
            self.dropped_permits.push(permit);
            assert(self@ =~= old(self)@.with_dropped(slot));
            return None;
        }
        if self.fetch_in_flight(stripe_id) {
            self.keep_push(stripe_id, copy_bytes(data), permit, Ghost(state@.fetch.len()));
            return None;
        }
        self.write_pushed_stripe(stripe_id, data, permit, Ghost(state@.fetch.len()))
    }

    /// Slots to be given back since the last call.
    pub fn take_dropped_permits(&mut self) -> (r: Vec<PushPermit>)
        ensures
            r@ == old(self)@.dropped,
            final(self)@ == (FetcherModel { dropped: Seq::empty(), ..old(self)@ }),
    {
        let mut permits: Vec<PushPermit> = Vec::new();
        std::mem::swap(&mut permits, &mut self.dropped_permits);
        assert(self@ =~= FetcherModel { dropped: Seq::empty(), ..old(self)@ });
        permits
    }

    /// The fetch of a stripe is over. A failed one is tried again; on a fork
    /// it waits for the push first.
    pub fn fetch_completed(
        &mut self,
        state: &mut SharedMetadataState,
        stripe_id: usize,
        success: bool,
        now: u64,
    )
        requires
            old(self)@.wf(old(state)@.fetch.len()),
            old(state)@.wf(),
            old(state)@.valid(stripe_id as int),
        ensures
            final(self)@ == old(self)@.after_completed(stripe_id, success, now),
            final(state)@ == old(self)@.state_after_completed(
                old(state)@,
                stripe_id,
                success,
                now,
            ),
            final(self)@.wf(final(state)@.fetch.len()),
            final(state)@.wf(),
            final(state)@.fetch.len() == old(state)@.fetch.len(),
    {
        let ghost n = state@.fetch.len();
        if self.allocated_buffers.remove(&stripe_id) {
            self.free_buffers = self.free_buffers + 1;
        }
        assert(self@ =~= old(self)@.released(stripe_id));
        if success {
            self.stripe_states.insert(stripe_id, FetchState::Fetched);
            self.stripe_fetch_retries.remove(&stripe_id);
            self.first_failure.remove(&stripe_id);
            self.finished_fetches.push((stripe_id, true));
            assert(self@ =~= old(self)@.after_completed(stripe_id, success, now));
            return;
        }
        if self.expects_pushes {
            let since: u64 = match self.first_failure.get(&stripe_id) {
                Some(since) => *since,
                None => now,
            };
            self.first_failure.insert(stripe_id, since);
            if now.saturating_sub(since) < PUSH_WAIT {
                self.fetch_queue.push_back(stripe_id);
                self.stripe_states.remove(&stripe_id);
                assert(self@ =~= old(self)@.after_completed(stripe_id, success, now));
                return;
            }
            if self.pending_position(stripe_id) < self.pending_pushes.len() {
                self.stripe_states.remove(&stripe_id);
                assert(self@ =~= old(self)@.after_completed(stripe_id, success, now));
                return;
            }
        }
        let retries: u8 = match self.stripe_fetch_retries.get(&stripe_id) {
            Some(retries) => *retries,
            None => 0,
        };
        if retries < MAX_FETCH_RETRIES {
            self.stripe_fetch_retries.insert(stripe_id, retries + 1);
            self.fetch_queue.push_back(stripe_id);
            self.stripe_states.insert(stripe_id, FetchState::Queued);
        } else {
            state.set_stripe_failed(stripe_id);
            self.stripe_states.remove(&stripe_id);
            self.stripe_fetch_retries.remove(&stripe_id);
            self.finished_fetches.push((stripe_id, false));
        }
        assert(self@ =~= old(self)@.after_completed(stripe_id, success, now));
    }

    /// Pull a stripe of the fetcher's own accord, if nobody asks for others.
    pub fn update_autofetch(&mut self, state: &SharedMetadataState)
        requires
            old(self)@.wf(state@.fetch.len()),
            state@.wf(),
        ensures
            final(self)@ == old(self)@.after_autofetch(state@),
            final(self)@.wf(state@.fetch.len()),
    {
        if self.autofetch && self.fetch_queue.len() == 0 {
            if let Some(stripe_id) = self.autofetch_queue.pop_front() {
                assert(self@ =~= FetcherModel {
                    auto_queue: old(self)@.auto_queue.drop_first(),
                    ..old(self)@
                });
                assert(stripe_id == old(self)@.auto_queue[0]);
                self.handle_fetch_request(state, stripe_id);
            }
        }
    }

    /// Take the first stripe off the queue. Unless it has arrived meanwhile,
    /// it is to be pulled.
    pub fn start_next(&mut self, state: &SharedMetadataState) -> (pull: Option<usize>)
        requires
            old(self)@.wf(state@.fetch.len()),
            old(self)@.queue.len() > 0,
            old(self)@.free > 0,
        ensures
            final(self)@ == old(self)@.after_start(state@),
            final(self)@.wf(state@.fetch.len()),
            pull == (if local(state@, old(self)@.queue[0]) {
                None
            } else {
                Some(old(self)@.queue[0])
            }),
    {
        let stripe_id: usize = match self.fetch_queue.pop_front() {
            Some(stripe_id) => stripe_id,
            None => {
                return None;
            },
        };
        assert(stripe_id == old(self)@.queue[0]);
        if state.stripe_fetched_if_needed(stripe_id) {
            self.stripe_states.insert(stripe_id, FetchState::Fetched);
            self.first_failure.remove(&stripe_id);
            self.stripe_fetch_retries.remove(&stripe_id);
            assert(self@ =~= old(self)@.after_start(state@));
            return None;
        }
        self.free_buffers = self.free_buffers - 1;
        self.allocated_buffers.insert(stripe_id);
        assert(self@ =~= old(self)@.after_start(state@));
        Some(stripe_id)
    }

    /// The source took the request for a stripe.
    pub fn pull_started(&mut self, stripe_id: usize)
        ensures
            final(self)@ == old(self)@.after_pull_started(stripe_id),
    {
        self.stripe_states.insert(stripe_id, FetchState::Fetching);
        assert(self@ =~= old(self)@.after_pull_started(stripe_id));
    }

    /// The target took the flush of a stripe.
    pub fn flush_started(&mut self, stripe_id: usize)
        ensures
            final(self)@ == old(self)@.after_flush_started(stripe_id),
    {
        self.stripe_states.insert(stripe_id, FetchState::Flushing);
        assert(self@ =~= old(self)@.after_flush_started(stripe_id));
    }

    /// Stripes that are done since the last call, and whether they are here.
    pub fn take_finished_fetches(&mut self) -> (r: Vec<(usize, bool)>)
        ensures
            r@ == old(self)@.finished,
            final(self)@ == (FetcherModel { finished: Seq::empty(), ..old(self)@ }),
    {
        let mut taken: Vec<(usize, bool)> = Vec::new();
        std::mem::swap(&mut taken, &mut self.finished_fetches);
        assert(self@ =~= FetcherModel { finished: Seq::empty(), ..old(self)@ });
        taken
    }

    /// Whether the source is no longer needed, once and for all: its owner
    /// then lets go of it.
    pub fn disconnect_from_source_if_all_fetched(
        &mut self,
        state: &SharedMetadataState,
        source_busy: bool,
        target_busy: bool,
    ) -> (r: bool)
        ensures
            r == old(self)@.may_disconnect(
                state@,
                old(self)@.is_busy(source_busy, target_busy),
            ),
            final(self)@ == (FetcherModel {
                disconnected: old(self)@.disconnected || r,
                ..old(self)@
            }),
    {
        if !self.disconnected && !self.never_disconnect && !self.busy(source_busy, target_busy)
            && state.source_stripes() == state.fetched_stripes() {
            self.disconnected = true;
            return true;
        }
        false
    }

    /// Stripes of the source.
    pub fn source_stripe_count(&self) -> (r: u64)
        requires
            self@.stripe_sectors > 0,
        ensures
            r == stripes_covering(self@.source_sectors, self@.stripe_sectors),
    {
        div_ceil(self.source_sector_count, self.stripe_sector_count)
    }
}

/// `data` cut or filled with zeros to `size` bytes.
fn fit(data: &[u8], size: usize) -> (r: Vec<u8>)
    ensures
        r@ == fitted(data@, size as nat),
        r@.len() == size,
        forall|i: int|
            0 <= i < size ==> (#[trigger] r@[i]) == if i < data@.len() {
                data@[i]
            } else {
                0u8
            },
{
    let mut out: Vec<u8> = Vec::new();
    let mut i: usize = 0;
    while i < size
        invariant
            i <= size,
            out@.len() == i,
            forall|j: int|
                0 <= j < i ==> #[trigger] out@[j] == (if j < data@.len() {
                    data@[j]
                } else {
                    0u8
                }),
        decreases size - i,
    {
        if i < data.len() {
            out.push(data[i]);
        } else {
            out.push(0);
        }
        i = i + 1;
    }
    assert(out@ =~= fitted(data@, size as nat));
    out
}

/// The fetcher and the shared state.
#[verifier::ext_equal]
pub struct FetchTick {
    /// The fetcher.
    pub m: FetcherModel,
    /// The shared state.
    pub s: StateModel,
}

/// The two together.
pub open spec fn fetch_tick(m: FetcherModel, s: StateModel) -> FetchTick {
    FetchTick { m, s }
}

/// What the source and the target answered during a tick.
pub struct FetchInputs {
    /// Whether each pushed copy could be handed over, before the pulls.
    pub early_submits: Seq<Answer>,
    /// Whether the source took each request.
    pub requests: Seq<Answer>,
    /// Stripes the source reports, and whether they came.
    pub arrivals: Seq<(usize, bool)>,
    /// The data of each, and whether it could be handed over to the target.
    pub writes: Seq<Handover>,
    /// Writes and flushes the target reports, and whether they succeeded.
    pub completions: Seq<(usize, bool)>,
    /// Whether each flush could be handed over.
    pub flushes: Seq<Answer>,
    /// Whether each pushed copy could be handed over, after the pulls.
    pub late_submits: Seq<Answer>,
}

/// A stripe on its way from the source to the target.
pub struct Handover {
    /// What the source gave.
    pub data: Option<Seq<u8>>,
    /// Whether the target took it.
    pub result: Answer,
}

impl Handover {
    /// There was something to hand over, and the target took it.
    pub open spec fn done(self) -> bool {
        self.data is Some && self.result is Ok
    }
}

impl FetchTick {
    /// Both describe the same stripes, and each is well-formed.
    pub open spec fn wf(self) -> bool {
        self.m.wf(self.s.fetch.len()) && self.s.wf()
    }

    /// A fetch is over.
    pub open spec fn completed(self, id: usize, success: bool, now: u64) -> FetchTick {
        FetchTick {
            m: self.m.after_completed(id, success, now),
            s: self.m.state_after_completed(self.s, id, success, now),
        }
    }

    /// A pushed copy that waited is written, unless the stripe is here by
    /// now; `submitted` says whether the write could be handed over.
    pub open spec fn push_applied(self, id: usize, submitted: bool, now: u64) -> FetchTick {
        let at = pending_from(self.m.pending, id, 0);
        if at >= self.m.pending.len() {
            self
        } else {
            let data = self.m.pending[at].1;
            let permit = self.m.pending[at].2;
            let taken = FetcherModel { pending: self.m.pending.remove(at), ..self.m };
            if local(self.s, id) {
                FetchTick { m: taken.with_dropped(permit), ..self }
            } else {
                let t = FetchTick { m: taken.after_push_write(id, data, permit), ..self };
                if taken.free > 0 && !submitted {
                    t.completed(id, false, now)
                } else {
                    t
                }
            }
        }
    }

    /// The first `count` of the pushed copies `ids` were applied.
    pub open spec fn pushes_applied(
        self,
        ids: Seq<usize>,
        submits: Seq<Answer>,
        now: u64,
        count: nat,
    ) -> FetchTick
        decreases count,
    {
        if count == 0 {
            self
        } else {
            self.pushes_applied(ids, submits, now, (count - 1) as nat).push_applied(
                ids[count - 1],
                submits[count - 1] is Ok,
                now,
            )
        }
    }

    /// What the target is asked for a pushed copy that waited.
    pub open spec fn push_calls(self, id: usize, submitted: Answer) -> Seq<IoCall<Seq<u8>>> {
        let at = pending_from(self.m.pending, id, 0);
        if at >= self.m.pending.len() || local(self.s, id) || self.m.free == 0 {
            Seq::empty()
        } else {
            self.m.write_calls(
                id,
                fitted(self.m.pending[at].1, (self.m.stripe_sectors * SECTOR_SIZE) as nat),
                submitted,
            )
        }
    }

    /// What the target is asked for the first `count` of the pushed copies
    /// `ids`.
    pub open spec fn pushes_calls(
        self,
        ids: Seq<usize>,
        submits: Seq<Answer>,
        now: u64,
        count: nat,
    ) -> Seq<IoCall<Seq<u8>>>
        decreases count,
    {
        if count == 0 {
            Seq::empty()
        } else {
            self.pushes_calls(ids, submits, now, (count - 1) as nat) + self.pushes_applied(
                ids,
                submits,
                now,
                (count - 1) as nat,
            ).push_calls(ids[count - 1], submits[count - 1])
        }
    }

    /// Pushed copies that no pull stands in the way of are written.
    #[verifier::opaque]
    pub open spec fn ready_applied(self, submits: Seq<Answer>, now: u64) -> FetchTick {
        let ids = ready_ids(self.m, self.m.pending);
        self.pushes_applied(ids, submits, now, ids.len())
    }

    /// What the target is asked for them.
    #[verifier::opaque]
    pub open spec fn ready_calls(self, submits: Seq<Answer>, now: u64) -> Seq<IoCall<Seq<u8>>> {
        let ids = ready_ids(self.m, self.m.pending);
        self.pushes_calls(ids, submits, now, ids.len())
    }

    /// A stripe is pulled for want of other requests.
    #[verifier::opaque]
    pub open spec fn autofetched(self) -> FetchTick {
        FetchTick { m: self.m.after_autofetch(self.s), ..self }
    }

    /// The first queued stripe is pulled; `accepted` says whether the source
    /// took the request.
    pub open spec fn started_one(self, accepted: bool, now: u64) -> FetchTick {
        let id = self.m.queue[0];
        let t = FetchTick { m: self.m.after_start(self.s), ..self };
        if local(self.s, id) {
            t
        } else if accepted {
            FetchTick { m: t.m.after_pull_started(id), ..t }
        } else {
            t.completed(id, false, now)
        }
    }

    /// As many queued stripes as there are answers are pulled.
    pub open spec fn started(self, requests: Seq<Answer>, now: u64) -> FetchTick
        decreases requests.len(),
    {
        if requests.len() == 0 {
            self
        } else {
            self.started(requests.drop_last(), now).started_one(requests.last() is Ok, now)
        }
    }

    /// As many stripes were pulled as a tick pulls: until no stripe waits or no
    /// buffer is free. A source that refuses is asked again for each stripe as
    /// often as the retries allow.
    pub open spec fn pulls_all(self, requests: Seq<Answer>, now: u64) -> bool {
        let after = self.started(requests, now).m;
        let most = self.m.queue.len() * (MAX_FETCH_RETRIES + 1);
        &&& forall|k: int| 0 <= k < requests.len() ==> #[trigger] self.pulls_at(requests, now, k)
        &&& requests.len() <= most
        &&& {
            ||| after.queue.len() == 0
            ||| after.free == 0
            ||| requests.len() == most
            ||| requests.len() == usize::MAX
        }
    }

    /// After `k` pulls a stripe waits and a buffer is free.
    pub open spec fn pulls_at(self, requests: Seq<Answer>, now: u64, k: int) -> bool {
        let m = self.started(requests.take(k), now).m;
        m.queue.len() > 0 && m.free > 0
    }

    /// The source was asked for as many stripes as a tick asks for.
    pub open spec fn asks_all(self, inputs: FetchInputs, now: u64) -> bool {
        self.autofetched().ready_applied(inputs.early_submits, now).pulls_all(
            inputs.requests,
            now,
        )
    }

    /// What the source is asked for the first queued stripe.
    pub open spec fn start_calls(self, accepted: Answer) -> Seq<SourceCall> {
        if local(self.s, self.m.queue[0]) {
            Seq::empty()
        } else {
            seq![SourceCall::Request { stripe_id: self.m.queue[0], result: accepted }]
        }
    }

    /// What the source is asked for as many queued stripes as there are
    /// answers.
    pub open spec fn started_calls(self, requests: Seq<Answer>, now: u64) -> Seq<SourceCall>
        decreases requests.len(),
    {
        if requests.len() == 0 {
            Seq::empty()
        } else {
            self.started_calls(requests.drop_last(), now) + self.started(
                requests.drop_last(),
                now,
            ).start_calls(requests.last())
        }
    }

    /// The source reports a stripe; `written` says whether it came with its
    /// data and could be handed over to the target.
    pub open spec fn arrived(self, id: usize, ok: bool, written: bool, now: u64) -> FetchTick {
        if !self.m.buffers.contains(id) || (ok && written) {
            self
        } else {
            self.completed(id, false, now)
        }
    }

    /// The first `count` reports of the source are applied.
    pub open spec fn all_arrived(
        self,
        arrivals: Seq<(usize, bool)>,
        writes: Seq<Handover>,
        now: u64,
        count: nat,
    ) -> FetchTick
        decreases count,
    {
        if count == 0 {
            self
        } else {
            self.all_arrived(arrivals, writes, now, (count - 1) as nat).arrived(
                arrivals[count - 1].0,
                arrivals[count - 1].1,
                writes[count - 1].done(),
                now,
            )
        }
    }

    /// The source is asked for the data of a stripe that somebody waits for.
    pub open spec fn take_calls(self, id: usize, write: Handover) -> Seq<SourceCall> {
        if self.m.buffers.contains(id) {
            seq![SourceCall::Take { stripe_id: id, data: write.data }]
        } else {
            Seq::empty()
        }
    }

    /// The target is given a stripe that came, filled up to a whole one.
    pub open spec fn arrival_calls(self, id: usize, ok: bool, write: Handover) -> Seq<
        IoCall<Seq<u8>>,
    > {
        if self.m.buffers.contains(id) && ok && write.data is Some {
            self.m.write_calls(
                id,
                fitted(write.data->Some_0, (self.m.stripe_sectors * SECTOR_SIZE) as nat),
                write.result,
            )
        } else {
            Seq::empty()
        }
    }

    /// What the source is asked for the first `count` of its reports.
    pub open spec fn all_take_calls(
        self,
        arrivals: Seq<(usize, bool)>,
        writes: Seq<Handover>,
        now: u64,
        count: nat,
    ) -> Seq<SourceCall>
        decreases count,
    {
        if count == 0 {
            Seq::empty()
        } else {
            self.all_take_calls(arrivals, writes, now, (count - 1) as nat) + self.all_arrived(
                arrivals,
                writes,
                now,
                (count - 1) as nat,
            ).take_calls(arrivals[count - 1].0, writes[count - 1])
        }
    }

    /// What the target is asked for the first `count` reports of the source.
    pub open spec fn all_arrival_calls(
        self,
        arrivals: Seq<(usize, bool)>,
        writes: Seq<Handover>,
        now: u64,
        count: nat,
    ) -> Seq<IoCall<Seq<u8>>>
        decreases count,
    {
        if count == 0 {
            Seq::empty()
        } else {
            self.all_arrival_calls(arrivals, writes, now, (count - 1) as nat) + self.all_arrived(
                arrivals,
                writes,
                now,
                (count - 1) as nat,
            ).arrival_calls(arrivals[count - 1].0, arrivals[count - 1].1, writes[count - 1])
        }
    }

    /// The target reports a write or a flush: a written stripe is flushed, a
    /// flushed one is here. A report for a stripe the device does not have is
    /// ignored.
    pub open spec fn target_done(self, id: usize, ok: bool, flushed: bool, now: u64) -> FetchTick {
        if id >= self.s.fetch.len() {
            self
        } else if !ok {
            self.completed(id, false, now)
        } else if self.m.states.contains_key(id) && self.m.states[id] == FetchState::Fetching {
            if flushed {
                FetchTick { m: self.m.after_flush_started(id), ..self }
            } else {
                self.completed(id, false, now)
            }
        } else if self.m.states.contains_key(id) && self.m.states[id] == FetchState::Flushing {
            self.completed(id, true, now)
        } else {
            self
        }
    }

    /// The first `count` reports of the target are applied.
    pub open spec fn all_done(
        self,
        completions: Seq<(usize, bool)>,
        flushes: Seq<Answer>,
        now: u64,
        count: nat,
    ) -> FetchTick
        decreases count,
    {
        if count == 0 {
            self
        } else {
            self.all_done(completions, flushes, now, (count - 1) as nat).target_done(
                completions[count - 1].0,
                completions[count - 1].1,
                flushes[count - 1] is Ok,
                now,
            )
        }
    }

    /// The target is asked to flush a stripe that was written.
    pub open spec fn done_calls(self, id: usize, ok: bool, flushed: Answer) -> Seq<
        IoCall<Seq<u8>>,
    > {
        if id < self.s.fetch.len() && ok && self.m.states.contains_key(id) && self.m.states[id]
            == FetchState::Fetching {
            seq![IoCall::Flush { id }, IoCall::Submit { result: flushed }]
        } else {
            Seq::empty()
        }
    }

    /// What the target is asked for the first `count` of its reports.
    pub open spec fn all_done_calls(
        self,
        completions: Seq<(usize, bool)>,
        flushes: Seq<Answer>,
        now: u64,
        count: nat,
    ) -> Seq<IoCall<Seq<u8>>>
        decreases count,
    {
        if count == 0 {
            Seq::empty()
        } else {
            self.all_done_calls(completions, flushes, now, (count - 1) as nat) + self.all_done(
                completions,
                flushes,
                now,
                (count - 1) as nat,
            ).done_calls(completions[count - 1].0, completions[count - 1].1, flushes[count - 1])
        }
    }

    /// One tick: pushed copies, then new pulls, then what the source and the
    /// target report, then pushed copies again.
    pub open spec fn ticked(self, inputs: FetchInputs, now: u64) -> FetchTick {
        self.autofetched().ready_applied(inputs.early_submits, now).started(
            inputs.requests,
            now,
        ).all_arrived(inputs.arrivals, inputs.writes, now, inputs.arrivals.len()).all_done(
            inputs.completions,
            inputs.flushes,
            now,
            inputs.completions.len(),
        ).ready_applied(inputs.late_submits, now)
    }

    /// What the source is asked in a tick.
    pub open spec fn source_calls(self, inputs: FetchInputs, now: u64) -> Seq<SourceCall> {
        let ready = self.autofetched().ready_applied(inputs.early_submits, now);
        ready.started_calls(inputs.requests, now) + seq![
            SourceCall::Poll { arrived: inputs.arrivals },
        ] + ready.started(inputs.requests, now).all_take_calls(
            inputs.arrivals,
            inputs.writes,
            now,
            inputs.arrivals.len(),
        )
    }

    /// What the target is asked in a tick.
    pub open spec fn target_calls(self, inputs: FetchInputs, now: u64) -> Seq<IoCall<Seq<u8>>> {
        let begun = self.autofetched();
        let pulled = begun.ready_applied(inputs.early_submits, now).started(inputs.requests, now);
        let come = pulled.all_arrived(inputs.arrivals, inputs.writes, now, inputs.arrivals.len());
        let done = come.all_done(
            inputs.completions,
            inputs.flushes,
            now,
            inputs.completions.len(),
        );
        begun.ready_calls(inputs.early_submits, now) + pulled.all_arrival_calls(
            inputs.arrivals,
            inputs.writes,
            now,
            inputs.arrivals.len(),
        ) + seq![IoCall::Poll { done: inputs.completions }] + come.all_done_calls(
            inputs.completions,
            inputs.flushes,
            now,
            inputs.completions.len(),
        ) + done.ready_calls(inputs.late_submits, now)
    }
}

/// The stripes of the pushed copies that no pull stands in the way of.
pub open spec fn ready_ids(
    m: FetcherModel,
    pending: Seq<(usize, Seq<u8>, PushPermit)>,
) -> Seq<usize>
    decreases pending.len(),
{
    if pending.len() == 0 {
        Seq::empty()
    } else {
        let before = ready_ids(m, pending.drop_last());
        if m.in_flight(pending.last().0) {
            before
        } else {
            before.push(pending.last().0)
        }
    }
}

/// The first copies do not depend on later answers.
proof fn lemma_pushes_same(
    t: FetchTick,
    ids: Seq<usize>,
    a: Seq<Answer>,
    b: Seq<Answer>,
    now: u64,
    count: nat,
)
    requires
        count <= a.len(),
        a.is_prefix_of(b),
    ensures
        t.pushes_applied(ids, a, now, count) == t.pushes_applied(ids, b, now, count),
        t.pushes_calls(ids, a, now, count) == t.pushes_calls(ids, b, now, count),
    decreases count,
{
    if count > 0 {
        lemma_pushes_same(t, ids, a, b, now, (count - 1) as nat);
        assert(a[count - 1] == b[count - 1]);
    }
}

/// The first reports do not depend on later answers.
proof fn lemma_arrived_same(
    t: FetchTick,
    arrivals: Seq<(usize, bool)>,
    a: Seq<Handover>,
    b: Seq<Handover>,
    now: u64,
    count: nat,
)
    requires
        count <= a.len(),
        a.is_prefix_of(b),
    ensures
        t.all_arrived(arrivals, a, now, count) == t.all_arrived(arrivals, b, now, count),
        t.all_take_calls(arrivals, a, now, count) == t.all_take_calls(arrivals, b, now, count),
        t.all_arrival_calls(arrivals, a, now, count) == t.all_arrival_calls(
            arrivals,
            b,
            now,
            count,
        ),
    decreases count,
{
    if count > 0 {
        lemma_arrived_same(t, arrivals, a, b, now, (count - 1) as nat);
        assert(a[count - 1] == b[count - 1]);
    }
}

/// The first reports do not depend on later answers.
proof fn lemma_done_same(
    t: FetchTick,
    completions: Seq<(usize, bool)>,
    a: Seq<Answer>,
    b: Seq<Answer>,
    now: u64,
    count: nat,
)
    requires
        count <= a.len(),
        a.is_prefix_of(b),
    ensures
        t.all_done(completions, a, now, count) == t.all_done(completions, b, now, count),
        t.all_done_calls(completions, a, now, count) == t.all_done_calls(
            completions,
            b,
            now,
            count,
        ),
    decreases count,
{
    if count > 0 {
        lemma_done_same(t, completions, a, b, now, (count - 1) as nat);
        assert(a[count - 1] == b[count - 1]);
    }
}

/// Hand a write over to the target; says whether the target took it.
pub fn submit_write<C: IoChannel<Vec<u8>>>(target: &mut C, w: StripeWrite) -> (r: Answer)
    ensures
        calls_bytes(final(target).calls()) == calls_bytes(old(target).calls()) + seq![
            IoCall::Write {
                sector_offset: w.sector_offset,
                sector_count: w.sector_count as u32,
                buf: w.data@,
                id: w.stripe_id,
            },
            IoCall::Submit { result: r },
        ],
{
    let ghost asked = calls_bytes(target.calls());
    let ghost call = IoCall::Write {
        sector_offset: w.sector_offset,
        sector_count: w.sector_count as u32,
        buf: w.data@,
        id: w.stripe_id,
    };
    target.add_write(w.sector_offset, w.sector_count as u32, w.data, w.stripe_id);
    let r = target.submit();
    assert(calls_bytes(target.calls()) =~= asked + seq![call, IoCall::Submit { result: r }]);
    r
}

impl StripeFetcher {
    /// Take a waiting pushed copy.
    fn take_pending(&mut self, stripe_id: usize, Ghost(n): Ghost<nat>) -> (r: Option<
        (Vec<u8>, PushPermit),
    >)
        requires
            old(self)@.wf(n),
        ensures
            ({
                let at = pending_from(old(self)@.pending, stripe_id, 0);
                if at < old(self)@.pending.len() {
                    &&& r is Some
                    &&& r->Some_0.0@ == old(self)@.pending[at].1
                    &&& r->Some_0.1 == old(self)@.pending[at].2
                    &&& stripe_id < n
                    &&& final(self)@ == (FetcherModel {
                        pending: old(self)@.pending.remove(at),
                        ..old(self)@
                    })
                } else {
                    r is None && final(self)@ == old(self)@
                }
            }),
            final(self)@.wf(n),
    {
        let at = self.pending_position(stripe_id);
        if at >= self.pending_pushes.len() {
            return None;
        }
        assert(self@.pending[at as int].0 < n);
        let (_, data, permit) = self.pending_pushes.remove(at);
        assert(self@.pending =~= old(self)@.pending.remove(at as int));
        assert forall|i: int| 0 <= i < self@.pending.len() implies (#[trigger] self@.pending[i]).0
            < n by {
            assert(self@.pending[i] == old(self)@.pending[if i < at {
                i
            } else {
                i + 1
            }]);
        }
        assert(self@ =~= FetcherModel {
            pending: old(self)@.pending.remove(at as int),
            ..old(self)@
        });
        Some((data, permit))
    }

    /// The stripes of the pushed copies that no pull stands in the way of.
    fn ready(&self) -> (ids: Vec<usize>)
        ensures
            ids@ == ready_ids(self@, self@.pending),
    {
        let mut ids: Vec<usize> = Vec::new();
        let mut i: usize = 0;
        while i < self.pending_pushes.len()
            invariant
                i <= self@.pending.len(),
                ids@ == ready_ids(self@, self@.pending.take(i as int)),
            decreases self@.pending.len() - i,
        {
            assert(self@.pending.take(i + 1).drop_last() =~= self@.pending.take(i as int));
            let id: usize = self.pending_pushes[i].0;
            if !self.fetch_in_flight(id) {
                ids.push(id);
            }
            i = i + 1;
        }
        assert(self@.pending.take(i as int) =~= self@.pending);
        ids
    }

    /// Write out pushed stripes whose racing pull has finished.
    fn apply_pending_pushes<C: IoChannel<Vec<u8>>>(
        &mut self,
        state: &mut SharedMetadataState,
        target: &mut C,
        now: u64,
    ) -> (submits: Ghost<Seq<Answer>>)
        requires
            fetch_tick(old(self)@, old(state)@).wf(),
        ensures
            fetch_tick(final(self)@, final(state)@) == fetch_tick(
                old(self)@,
                old(state)@,
            ).ready_applied(submits@, now),
            calls_bytes(final(target).calls()) == calls_bytes(old(target).calls()) + fetch_tick(
                old(self)@,
                old(state)@,
            ).ready_calls(submits@, now),
            fetch_tick(final(self)@, final(state)@).wf(),
            final(state)@.fetch.len() == old(state)@.fetch.len(),
    {
        proof {
            reveal(FetchTick::ready_applied);
            reveal(FetchTick::ready_calls);
        }
        let ids = self.ready();
        let ghost t = fetch_tick(self@, state@);
        let ghost asked = calls_bytes(target.calls());
        let ghost mut submits: Seq<Answer> = Seq::empty();
        let mut i: usize = 0;
        assert(asked + t.pushes_calls(ids@, submits, now, 0) =~= asked);
        while i < ids.len()
            invariant
                i <= ids@.len(),
                submits.len() == i,
                fetch_tick(self@, state@) == t.pushes_applied(ids@, submits, now, i as nat),
                calls_bytes(target.calls()) == asked + t.pushes_calls(
                    ids@,
                    submits,
                    now,
                    i as nat,
                ),
                fetch_tick(self@, state@).wf(),
                state@.fetch.len() == old(state)@.fetch.len(),
            decreases ids@.len() - i,
        {
            let stripe_id: usize = ids[i];
            let ghost before = fetch_tick(self@, state@);
            let ghost so_far = calls_bytes(target.calls());
            let mut submitted: Answer = Ok(());
            if let Some((data, permit)) = self.take_pending(
                stripe_id,
                Ghost(state@.fetch.len()),
            ) {
                if state.stripe_fetched_if_needed(stripe_id) {
                    self.dropped_permits.push(permit);
                } else if let Some(w) = self.write_pushed_stripe(
                    stripe_id,
                    data.as_slice(),
                    permit,
                    Ghost(state@.fetch.len()),
                ) {
                    submitted = submit_write(target, w);
                    if submitted.is_err() {
                        self.fetch_completed(state, stripe_id, false, now);
                    }
                }
            }
            assert(fetch_tick(self@, state@) == before.push_applied(
                stripe_id,
                submitted is Ok,
                now,
            ));
            assert(calls_bytes(target.calls()) =~= so_far + before.push_calls(
                stripe_id,
                submitted,
            ));
            proof {
                lemma_pushes_same(t, ids@, submits, submits.push(submitted), now, i as nat);
                submits = submits.push(submitted);
                assert(calls_bytes(target.calls()) =~= asked + t.pushes_calls(
                    ids@,
                    submits,
                    now,
                    (i + 1) as nat,
                ));
            }
            i = i + 1;
        }
        Ghost(submits)
    }

    /// Pull queued stripes for as long as there are buffers. A source that
    /// refuses everything is asked no more often than the retries allow;
    /// what is left waits for the next tick.
    fn start_fetches<S: StripeSource>(
        &mut self,
        state: &mut SharedMetadataState,
        source: &mut S,
        now: u64,
    ) -> (requests: Ghost<Seq<Answer>>)
        requires
            fetch_tick(old(self)@, old(state)@).wf(),
        ensures
            fetch_tick(final(self)@, final(state)@) == fetch_tick(
                old(self)@,
                old(state)@,
            ).started(requests@, now),
            final(source).calls() == old(source).calls() + fetch_tick(
                old(self)@,
                old(state)@,
            ).started_calls(requests@, now),
            fetch_tick(final(self)@, final(state)@).wf(),
            final(state)@.fetch.len() == old(state)@.fetch.len(),
            fetch_tick(old(self)@, old(state)@).pulls_all(requests@, now),
    {
        let ghost t = fetch_tick(self@, state@);
        let ghost asked = source.calls();
        let ghost mut requests: Seq<Answer> = Seq::empty();
        assert(asked + t.started_calls(requests, now) =~= asked);
        let queued: usize = self.fetch_queue.len();
        let fuel: usize = match queued.checked_mul(4) {
            Some(fuel) => fuel,
            None => usize::MAX,
        };
        let mut left: usize = fuel;
        while left > 0 && self.fetch_queue.len() > 0 && self.free_buffers > 0
            invariant
                left <= fuel,
                forall|k: int| 0 <= k < requests.len() ==> #[trigger] t.pulls_at(requests, now, k),
                requests.len() == fuel - left,
                fetch_tick(self@, state@) == t.started(requests, now),
                source.calls() == asked + t.started_calls(requests, now),
                fetch_tick(self@, state@).wf(),
                state@.fetch.len() == old(state)@.fetch.len(),
            decreases left,
        {
            left = left - 1;
            let ghost before = fetch_tick(self@, state@);
            let ghost so_far = source.calls();
            let mut accepted: Answer = Ok(());
            if let Some(stripe_id) = self.start_next(state) {
                accepted = source.request(stripe_id);
                if accepted.is_ok() {
                    self.pull_started(stripe_id);
                } else {
                    self.fetch_completed(state, stripe_id, false, now);
                }
            }
            assert(fetch_tick(self@, state@) == before.started_one(accepted is Ok, now));
            assert(source.calls() =~= so_far + before.start_calls(accepted));
            proof {
                let more = requests.push(accepted);
                assert(more.drop_last() =~= requests);
                assert forall|k: int| 0 <= k < more.len() implies #[trigger] t.pulls_at(
                    more,
                    now,
                    k,
                ) by {
                    if k < requests.len() {
                        assert(t.pulls_at(requests, now, k));
                        assert(more.take(k) =~= requests.take(k));
                    } else {
                        assert(more.take(k) =~= requests);
                    }
                }
                assert(source.calls() =~= asked + t.started_calls(more, now));
                requests = more;
            }
        }
        Ghost(requests)
    }

    /// Collect what the source has: write it to the target.
    fn poll_source<S: StripeSource, C: IoChannel<Vec<u8>>>(
        &mut self,
        state: &mut SharedMetadataState,
        source: &mut S,
        target: &mut C,
        now: u64,
    ) -> (r: (Ghost<Seq<(usize, bool)>>, Ghost<Seq<Handover>>))
        requires
            fetch_tick(old(self)@, old(state)@).wf(),
        ensures
            fetch_tick(final(self)@, final(state)@) == fetch_tick(
                old(self)@,
                old(state)@,
            ).all_arrived(r.0@, r.1@, now, r.0@.len()),
            final(source).calls() == old(source).calls().push(
                SourceCall::Poll { arrived: r.0@ },
            ) + fetch_tick(old(self)@, old(state)@).all_take_calls(
                r.0@,
                r.1@,
                now,
                r.0@.len(),
            ),
            calls_bytes(final(target).calls()) == calls_bytes(old(target).calls()) + fetch_tick(
                old(self)@,
                old(state)@,
            ).all_arrival_calls(r.0@, r.1@, now, r.0@.len()),
            fetch_tick(final(self)@, final(state)@).wf(),
            final(state)@.fetch.len() == old(state)@.fetch.len(),
    {
        let ghost t = fetch_tick(self@, state@);
        let ghost given = calls_bytes(target.calls());
        let arrivals = source.poll();
        let ghost asked = source.calls();
        let ghost mut writes: Seq<Handover> = Seq::empty();
        assert(asked + t.all_take_calls(arrivals@, writes, now, 0) =~= asked);
        assert(given + t.all_arrival_calls(arrivals@, writes, now, 0) =~= given);
        let mut i: usize = 0;
        while i < arrivals.len()
            invariant
                i <= arrivals@.len(),
                writes.len() == i,
                fetch_tick(self@, state@) == t.all_arrived(arrivals@, writes, now, i as nat),
                source.calls() == asked + t.all_take_calls(arrivals@, writes, now, i as nat),
                calls_bytes(target.calls()) == given + t.all_arrival_calls(
                    arrivals@,
                    writes,
                    now,
                    i as nat,
                ),
                fetch_tick(self@, state@).wf(),
                state@.fetch.len() == old(state)@.fetch.len(),
            decreases arrivals@.len() - i,
        {
            let (stripe_id, ok) = arrivals[i];
            let ghost before = fetch_tick(self@, state@);
            let ghost asked_before = source.calls();
            let ghost given_before = calls_bytes(target.calls());
            let ghost mut write = Handover { data: None, result: Ok(()) };
            if self.allocated_buffers.contains(&stripe_id) {
                assert(self@.buffers.contains(stripe_id));
                let data = source.take_stripe(stripe_id);
                let mut result: Answer = Ok(());
                proof {
                    write = Handover { data: bytes_of(data), result };
                }
                let mut written = false;
                if let Some(data) = data {
                    if ok {
                        let size: usize = self.stripe_sector_count as usize * SECTOR_SIZE;
                        let whole = fit(data.as_slice(), size);
                        let w = self.write_of(stripe_id, whole, Ghost(state@.fetch.len()));
                        result = submit_write(target, w);
                        written = result.is_ok();
                        proof {
                            write = Handover { result, ..write };
                        }
                    }
                }
                if !written {
                    self.fetch_completed(state, stripe_id, false, now);
                }
            }
            assert(fetch_tick(self@, state@) == before.arrived(stripe_id, ok, write.done(), now));
            assert(source.calls() =~= asked_before + before.take_calls(stripe_id, write));
            assert(calls_bytes(target.calls()) =~= given_before + before.arrival_calls(
                stripe_id,
                ok,
                write,
            ));
            proof {
                lemma_arrived_same(t, arrivals@, writes, writes.push(write), now, i as nat);
                writes = writes.push(write);
                assert(source.calls() =~= asked + t.all_take_calls(
                    arrivals@,
                    writes,
                    now,
                    (i + 1) as nat,
                ));
                assert(calls_bytes(target.calls()) =~= given + t.all_arrival_calls(
                    arrivals@,
                    writes,
                    now,
                    (i + 1) as nat,
                ));
            }
            i = i + 1;
        }
        (Ghost(arrivals@), Ghost(writes))
    }

    /// Collect what the target has finished: flush what was written, and
    /// count what was flushed as here.
    fn poll_target<C: IoChannel<Vec<u8>>>(
        &mut self,
        state: &mut SharedMetadataState,
        target: &mut C,
        now: u64,
    ) -> (r: (Ghost<Seq<(usize, bool)>>, Ghost<Seq<Answer>>))
        requires
            fetch_tick(old(self)@, old(state)@).wf(),
        ensures
            fetch_tick(final(self)@, final(state)@) == fetch_tick(
                old(self)@,
                old(state)@,
            ).all_done(r.0@, r.1@, now, r.0@.len()),
            calls_bytes(final(target).calls()) == calls_bytes(old(target).calls()).push(
                IoCall::Poll { done: r.0@ },
            ) + fetch_tick(old(self)@, old(state)@).all_done_calls(
                r.0@,
                r.1@,
                now,
                r.0@.len(),
            ),
            fetch_tick(final(self)@, final(state)@).wf(),
            final(state)@.fetch.len() == old(state)@.fetch.len(),
    {
        let ghost t = fetch_tick(self@, state@);
        let completions = target.poll();
        let ghost asked = calls_bytes(target.calls());
        let ghost mut flushes: Seq<Answer> = Seq::empty();
        assert(asked + t.all_done_calls(completions@, flushes, now, 0) =~= asked);
        let mut i: usize = 0;
        while i < completions.len()
            invariant
                i <= completions@.len(),
                flushes.len() == i,
                fetch_tick(self@, state@) == t.all_done(completions@, flushes, now, i as nat),
                calls_bytes(target.calls()) == asked + t.all_done_calls(
                    completions@,
                    flushes,
                    now,
                    i as nat,
                ),
                fetch_tick(self@, state@).wf(),
                state@.fetch.len() == old(state)@.fetch.len(),
            decreases completions@.len() - i,
        {
            let (stripe_id, ok) = completions[i];
            let ghost before = fetch_tick(self@, state@);
            let ghost so_far = calls_bytes(target.calls());
            let mut flushed: Answer = Ok(());
            if stripe_id < state.stripe_count() {
                if !ok {
                    self.fetch_completed(state, stripe_id, false, now);
                } else {
                    let entry = match self.stripe_states.get(&stripe_id) {
                        Some(entry) => Some(*entry),
                        None => None,
                    };
                    match entry {
                        Some(FetchState::Fetching) => {
                            target.add_flush(stripe_id);
                            flushed = target.submit();
                            if flushed.is_ok() {
                                self.flush_started(stripe_id);
                            } else {
                                self.fetch_completed(state, stripe_id, false, now);
                            }
                        },
                        Some(FetchState::Flushing) => {
                            self.fetch_completed(state, stripe_id, true, now);
                        },
                        _ => {},
                    }
                }
            }
            assert(fetch_tick(self@, state@) == before.target_done(
                stripe_id,
                ok,
                flushed is Ok,
                now,
            ));
            assert(calls_bytes(target.calls()) =~= so_far + before.done_calls(
                stripe_id,
                ok,
                flushed,
            ));
            proof {
                lemma_done_same(t, completions@, flushes, flushes.push(flushed), now, i as nat);
                flushes = flushes.push(flushed);
                assert(calls_bytes(target.calls()) =~= asked + t.all_done_calls(
                    completions@,
                    flushes,
                    now,
                    (i + 1) as nat,
                ));
            }
            i = i + 1;
        }
        (Ghost(completions@), Ghost(flushes))
    }

    /// One tick. A stripe is read from the source, written to the target,
    /// flushed, and then reported as finished.
    pub fn update<S: StripeSource, C: IoChannel<Vec<u8>>>(
        &mut self,
        state: &mut SharedMetadataState,
        source: &mut S,
        target: &mut C,
        now: u64,
    )
        requires
            old(self)@.wf(old(state)@.fetch.len()),
            old(state)@.wf(),
        ensures
            exists|inputs: FetchInputs|
                #![trigger fetch_tick(old(self)@, old(state)@).ticked(inputs, now)]
                {
                    let t = fetch_tick(old(self)@, old(state)@);
                    &&& fetch_tick(final(self)@, final(state)@) == t.ticked(inputs, now)
                    &&& t.asks_all(inputs, now)
                    &&& final(source).calls() == old(source).calls() + t.source_calls(inputs, now)
                    &&& calls_bytes(final(target).calls()) == calls_bytes(old(target).calls())
                        + t.target_calls(inputs, now)
                },
            final(self)@.wf(final(state)@.fetch.len()),
            final(state)@.wf(),
            final(state)@.fetch.len() == old(state)@.fetch.len(),
    {
        let ghost t = fetch_tick(self@, state@);
        let ghost asked = source.calls();
        let ghost given = calls_bytes(target.calls());
        self.update_autofetch(state);
        assert(fetch_tick(self@, state@) == t.autofetched()) by {
            reveal(FetchTick::autofetched);
        }
        let early = self.apply_pending_pushes(state, target, now);
        let requests = self.start_fetches(state, source, now);
        let (arrivals, writes) = self.poll_source(state, source, target, now);
        let (completions, flushes) = self.poll_target(state, target, now);
        let late = self.apply_pending_pushes(state, target, now);
        let ghost inputs = FetchInputs {
            early_submits: early@,
            requests: requests@,
            arrivals: arrivals@,
            writes: writes@,
            completions: completions@,
            flushes: flushes@,
            late_submits: late@,
        };
        assert(fetch_tick(self@, state@) == t.ticked(inputs, now));
        assert(source.calls() =~= asked + t.source_calls(inputs, now));
        assert(calls_bytes(target.calls()) =~= given + t.target_calls(inputs, now));
    }
}

/// The first `count` stripes.
pub open spec fn first_stripes(count: nat) -> Seq<usize> {
    Seq::new(count, |i: int| i as usize)
}

impl FetcherModel {
    /// A fetcher with nothing to do but to pull every stripe of the source.
    pub open spec fn idle(
        source_sectors: u64,
        target_sectors: u64,
        stripe_sectors: u64,
        autofetch: bool,
    ) -> FetcherModel {
        FetcherModel {
            source_sectors,
            target_sectors,
            stripe_sectors,
            queue: Seq::empty(),
            auto_queue: if autofetch {
                first_stripes(stripes_covering(source_sectors, stripe_sectors) as nat)
            } else {
                Seq::empty()
            },
            states: Map::empty(),
            retries: Map::empty(),
            first_failure: Map::empty(),
            buffers: Set::empty(),
            free: MAX_CONCURRENT_FETCHES as nat,
            pending: Seq::empty(),
            dropped: Seq::empty(),
            finished: Seq::empty(),
            expects_pushes: false,
            autofetch,
            disconnected: false,
            never_disconnect: false,
        }
    }
}

/// More sectors take no fewer stripes, and the stripes that cover them start
/// within them.
proof fn lemma_covering_monotone(a: u64, b: u64, c: u64)
    requires
        a <= b,
        c > 0,
    ensures
        0 <= stripes_covering(a, c) <= stripes_covering(b, c),
        stripes_covering(b, c) > 0 ==> (stripes_covering(b, c) - 1) * c < b,
{
    let x = a as int;
    let y = b as int;
    let d = c as int;
    assert(x / d <= y / d && x == d * (x / d) + x % d && y == d * (y / d) + y % d && 0 <= x % d
        && 0 <= y % d < d && 0 <= x / d) by (nonlinear_arith)
        requires
            0 <= x <= y,
            d > 0,
    ;
    let q = y / d;
    if x / d == q && x % d != 0 {
        assert(y % d != 0) by (nonlinear_arith)
            requires
                x == d * q + x % d,
                y == d * q + y % d,
                x <= y,
                x % d > 0,
        ;
    }
    assert((q - 1) * d < d * q && d * q == q * d) by (nonlinear_arith)
        requires
            d > 0,
    ;
}

} // verus!
