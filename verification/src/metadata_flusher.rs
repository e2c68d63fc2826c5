//! Writes changed header bytes to the metadata device, one write at a time
//! per sector, each followed by a flush. Updates whose callers wait for them
//! share the write and the flush of their sector.

use vstd::prelude::*;
use std::collections::{HashMap, HashSet, VecDeque};
use vstd::slice::slice_subrange;
use crate::io::{calls_bytes, lemma_calls_bytes_push, IoCall, IoChannel, IoError};
use crate::metadata::metadata_flags;
use crate::metadata::shared_state::{SharedMetadataState, StateModel};
use crate::metadata::types::{
    group_headers, sector_image, sector_of, write_sector_with_crc32, FileFormat, MetadataError,
    STRIPE_HEADERS_PER_SECTOR, UbiMetadata,
};

verus! {

broadcast use {vstd::std_specs::hash::group_hash_axioms, lemma_calls_bytes_push};

/// Writes in flight at most.
pub const MAX_CONCURRENT_CHANGES: usize = 16;

/// Header bits a request may set or clear. The rest of the byte is reserved.
pub const UPDATABLE_MASK: u8 = 0x3b;

/// A change of one header byte.
#[derive(Debug, Clone, Copy, PartialEq, Eq, Structural)]
pub struct MetadataFlusherRequest {
    /// The stripe whose header changes.
    pub stripe_id: usize,
    /// Bits to set.
    pub set: u8,
    /// Bits to clear.
    pub clear: u8,
    /// Zero: skipped when the byte already has the requested value, and not
    /// reported. Non-zero: always written and flushed, and reported under
    /// this token.
    pub token: u64,
}

/// How far a header update has got.
#[derive(Debug, Clone, Copy, PartialEq, Eq, Structural)]
pub enum RequestStage {
    /// The sector is being written.
    Writing,
    /// The sector is written and being flushed.
    Flushing,
}

/// A header update in flight.
#[derive(Debug, Clone, Copy, PartialEq, Eq, Structural)]
pub struct HeaderUpdateStatus {
    /// How far it has got.
    pub stage: RequestStage,
    /// The stripe whose header changes.
    pub stripe_id: usize,
    /// The byte being written.
    pub header: u8,
    /// The byte before this update, restored when the write fails. A mask of
    /// what was added could not undo a clear.
    pub previous: u8,
    /// The request's token.
    pub token: u64,
    /// The sector being written.
    pub sector: u64,
}

/// A header update that goes to disk with another one of its sector.
#[derive(Debug, Clone, Copy, PartialEq, Eq, Structural)]
pub struct RidingUpdate {
    /// The stripe whose header changes.
    pub stripe_id: usize,
    /// The byte being written.
    pub header: u8,
    /// The byte before this update, restored when the write fails.
    pub previous: u8,
    /// The request's token; never zero.
    pub token: u64,
    /// The sector being written.
    pub sector: u64,
}

/// How far a tokened header update got. A caller may act on "the disk now
/// says so" only once it holds `Durable`.
#[derive(Debug, Clone, Copy, PartialEq, Eq, Structural)]
pub enum PersistResult {
    /// Sector write and flush both completed. The byte is on disk.
    Durable,
    /// The write or its submit failed. The disk still holds the previous
    /// byte, and so does memory.
    NotWritten,
    /// The write completed but the flush or its submit failed. The disk may
    /// hold either byte. Memory keeps the new one so a retry rewrites it.
    Uncertain,
}

/// The completion of one tokened header update, handed back to whoever issued
/// it: odd tokens are the evictor's, even ones the coordinator's.
#[derive(Debug, Clone, Copy, PartialEq, Eq, Structural)]
pub struct PersistOutcome {
    /// The stripe whose header was updated.
    pub stripe_id: usize,
    /// The token of the request.
    pub token: u64,
    /// What happened to the update.
    pub result: PersistResult,
}

/// A sector to be written.
#[derive(Debug)]
pub struct SectorWrite {
    /// Where.
    pub sector: u64,
    /// What.
    pub data: Vec<u8>,
    /// The stripe on whose behalf.
    pub stripe_id: usize,
}

/// A flush that completed.
#[derive(Debug, Clone, Copy, PartialEq, Eq, Structural)]
pub struct FinishedUpdate {
    /// The stripe whose header is on disk.
    pub stripe_id: usize,
    /// The byte that is on disk.
    pub header: u8,
    /// The request's token.
    pub token: u64,
}

/// The flusher's state as mathematical values.
#[verifier::ext_equal]
pub struct FlusherModel {
    /// What the metadata file says of itself, as loaded.
    pub format: FileFormat,
    /// The header bytes: as loaded, plus every update applied since.
    pub headers: Seq<u8>,
    /// Sectors with an update in flight.
    pub sectors: Set<u64>,
    /// Updates in flight, by the stripe on whose behalf the sector is written.
    pub updates: Map<usize, HeaderUpdateStatus>,
    /// Updates that go to disk with one of those, in the order they came.
    pub riders: Seq<RidingUpdate>,
    /// Requests that wait.
    pub queue: Seq<MetadataFlusherRequest>,
    /// Outcomes of tokened requests, in completion order, until taken.
    pub outcomes: Seq<PersistOutcome>,
    /// Sector buffers not in use.
    pub free: nat,
}

/// A sector write as mathematical values.
#[verifier::ext_equal]
pub struct WriteModel {
    /// Where.
    pub sector: u64,
    /// What.
    pub data: Seq<u8>,
    /// The stripe on whose behalf.
    pub stripe_id: usize,
}

impl View for SectorWrite {
    type V = WriteModel;

    open spec fn view(&self) -> WriteModel {
        WriteModel { sector: self.sector, data: self.data@, stripe_id: self.stripe_id }
    }
}

/// The byte a request leaves.
pub open spec fn next_header(previous: u8, set: u8, clear: u8) -> u8 {
    (previous | set) & !clear
}

/// Whether the request at `i` goes to disk with the first one: both have
/// callers that wait for them, they share a sector, and no earlier request is
/// for the same stripe.
pub open spec fn rides(queue: Seq<MetadataFlusherRequest>, i: int) -> bool {
    &&& queue[0].token != 0
    &&& queue[i].token != 0
    &&& sector_of(queue[i].stripe_id as int) == sector_of(queue[0].stripe_id as int)
    &&& forall|j: int|
        0 <= j < i ==> (#[trigger] queue[j]).stripe_id != queue[i].stripe_id
}

/// `r` is one of the first `n` requests and goes to disk with the first one.
pub open spec fn is_rider(
    queue: Seq<MetadataFlusherRequest>,
    n: nat,
    r: MetadataFlusherRequest,
) -> bool {
    exists|i: int| 0 < i < n && #[trigger] rides(queue, i) && queue[i] == r
}

/// Those of the first `n` requests that go to disk with the first one.
pub open spec fn riding(queue: Seq<MetadataFlusherRequest>, n: nat) -> Seq<MetadataFlusherRequest>
    decreases n,
{
    if n <= 1 {
        Seq::empty()
    } else {
        let front = riding(queue, (n - 1) as nat);
        if rides(queue, n - 1) {
            front.push(queue[n - 1])
        } else {
            front
        }
    }
}

/// Those of the first `n` requests that wait on when the first one starts.
pub open spec fn staying(queue: Seq<MetadataFlusherRequest>, n: nat) -> Seq<MetadataFlusherRequest>
    decreases n,
{
    if n <= 1 {
        Seq::empty()
    } else {
        let front = staying(queue, (n - 1) as nat);
        if rides(queue, n - 1) {
            front
        } else {
            front.push(queue[n - 1])
        }
    }
}

/// Fewer requests wait once one started, and each is one that waited.
pub proof fn lemma_staying(queue: Seq<MetadataFlusherRequest>, n: nat)
    requires
        n <= queue.len(),
    ensures
        n > 0 ==> staying(queue, n).len() + riding(queue, n).len() + 1 == n,
        forall|k: int|
            0 <= k < staying(queue, n).len() ==> exists|i: int|
                0 < i < n && queue[i] == #[trigger] staying(queue, n)[k],
        forall|k: int|
            0 <= k < riding(queue, n).len() ==> is_rider(
                queue,
                n,
                #[trigger] riding(queue, n)[k],
            ),
    decreases n,
{
    if n > 1 {
        let m = (n - 1) as nat;
        lemma_staying(queue, m);
        assert forall|k: int| 0 <= k < staying(queue, n).len() implies exists|i: int|
            0 < i < n && queue[i] == #[trigger] staying(queue, n)[k] by {
            if k < staying(queue, m).len() {
                assert(staying(queue, n)[k] == staying(queue, m)[k]);
            } else {
                assert(queue[n - 1] == staying(queue, n)[k]);
            }
        }
        assert forall|k: int| 0 <= k < riding(queue, n).len() implies is_rider(
            queue,
            n,
            #[trigger] riding(queue, n)[k],
        ) by {
            if k < riding(queue, m).len() {
                assert(is_rider(queue, m, riding(queue, m)[k]));
                let i = choose|i: int|
                    0 < i < m && #[trigger] rides(queue, i) && queue[i] == riding(queue, m)[k];
                assert(rides(queue, i) && queue[i] == riding(queue, n)[k]);
            } else {
                assert(rides(queue, n - 1) && queue[n - 1] == riding(queue, n)[k]);
            }
        }
    }
}

/// No two requests that go to disk together are for one stripe.
pub proof fn lemma_riding_apart(queue: Seq<MetadataFlusherRequest>, n: nat)
    requires
        n <= queue.len(),
    ensures
        forall|k: int|
            0 <= k < riding(queue, n).len() ==> (#[trigger] riding(queue, n)[k]).stripe_id
                != queue[0].stripe_id,
        forall|j: int, k: int|
            0 <= j < k < riding(queue, n).len() ==> (#[trigger] riding(queue, n)[j]).stripe_id != (
            #[trigger] riding(queue, n)[k]).stripe_id,
    decreases n,
{
    if n > 1 {
        let m = (n - 1) as nat;
        lemma_riding_apart(queue, m);
        lemma_staying(queue, m);
        if rides(queue, n - 1) {
            assert forall|j: int| 0 <= j < riding(queue, m).len() implies (
            #[trigger] riding(queue, m)[j]).stripe_id != queue[n - 1].stripe_id by {
                assert(is_rider(queue, m, riding(queue, m)[j]));
                let i = choose|i: int|
                    0 < i < m && #[trigger] rides(queue, i) && queue[i] == riding(queue, m)[j];
                assert(queue[i].stripe_id != queue[n - 1].stripe_id);
            }
            assert(queue[0].stripe_id != queue[n - 1].stripe_id);
            assert forall|j: int, k: int| 0 <= j < k < riding(queue, n).len() implies (
            #[trigger] riding(queue, n)[j]).stripe_id != (
            #[trigger] riding(queue, n)[k]).stripe_id by {
                assert(riding(queue, n)[j] == riding(queue, m)[j]);
                if k < riding(queue, m).len() {
                    assert(riding(queue, n)[k] == riding(queue, m)[k]);
                }
            }
        }
    }
}

/// Nothing goes to disk with a request that nobody waits for.
pub proof fn lemma_rides_alone(queue: Seq<MetadataFlusherRequest>, n: nat)
    requires
        0 < n <= queue.len(),
        queue[0].token == 0,
    ensures
        riding(queue, n) == Seq::<MetadataFlusherRequest>::empty(),
        staying(queue, n) == queue.subrange(1, n as int),
    decreases n,
{
    if n > 1 {
        lemma_rides_alone(queue, (n - 1) as nat);
        assert(queue.subrange(1, n as int) =~= queue.subrange(1, n - 1).push(queue[n - 1]));
    } else {
        assert(queue.subrange(1, 1) =~= Seq::empty());
    }
}

/// Updates that are on disk, of those that went there with another.
pub open spec fn landed(riders: Seq<RidingUpdate>) -> Seq<FinishedUpdate> {
    Seq::new(
        riders.len(),
        |i: int|
            FinishedUpdate {
                stripe_id: riders[i].stripe_id,
                header: riders[i].header,
                token: riders[i].token,
            },
    )
}

/// The updates among `riders` that are not for `sector`.
pub open spec fn others(riders: Seq<RidingUpdate>, sector: u64) -> Seq<RidingUpdate> {
    riders.filter(|r: RidingUpdate| r.sector != sector)
}

/// The updates among `riders` for `sector`.
pub open spec fn aboard(riders: Seq<RidingUpdate>, sector: u64) -> Seq<RidingUpdate> {
    riders.filter(|r: RidingUpdate| r.sector == sector)
}

/// Updates whose sector write is outstanding.
pub open spec fn writing(updates: Map<usize, HeaderUpdateStatus>) -> Set<usize> {
    updates.dom().filter(|id: usize| updates[id].stage == RequestStage::Writing)
}

impl FlusherModel {
    /// Whether the update of `id` holds its sector.
    pub open spec fn update_ok(self, id: usize) -> bool {
        let u = self.updates[id];
        &&& u.stripe_id == id
        &&& id < self.headers.len()
        &&& u.sector == sector_of(id as int)
    }

    /// The update at `k` goes to disk with a sector that is on its way.
    pub open spec fn rider_ok(self, k: int) -> bool {
        let r = self.riders[k];
        &&& r.stripe_id < self.headers.len()
        &&& r.sector == sector_of(r.stripe_id as int)
        &&& r.token != 0
        &&& self.sectors.contains(r.sector)
    }

    /// Each update in flight holds its own sector, nothing else holds one,
    /// other updates go to disk only with one that holds their sector, every
    /// buffer is free or being written from, and waiting requests name stripes
    /// of the device.
    pub open spec fn wf(self) -> bool {
        &&& self.updates.dom().finite()
        &&& forall|id: usize| #[trigger]
            self.updates.dom().contains(id) ==> self.update_ok(id) && self.sectors.contains(
                self.updates[id].sector,
            )
        &&& forall|a: usize, b: usize|
            self.updates.dom().contains(a) && self.updates.dom().contains(b)
                && #[trigger] self.updates[a].sector == #[trigger] self.updates[b].sector ==> a == b
        &&& forall|s: u64| #[trigger]
            self.sectors.contains(s) ==> exists|id: usize| #[trigger]
                self.updates.dom().contains(id) && self.updates[id].sector == s
        &&& forall|k: int| 0 <= k < self.riders.len() ==> #[trigger] self.rider_ok(k)
        &&& writing(self.updates).len() + self.free == MAX_CONCURRENT_CHANGES
        &&& forall|i: int|
            0 <= i < self.queue.len() ==> (#[trigger] self.queue[i]).stripe_id < self.headers.len()
    }

    /// The update of `id` is gone with those that went along, and its sector
    /// is free.
    pub open spec fn without(self, id: usize) -> FlusherModel {
        FlusherModel {
            updates: self.updates.remove(id),
            sectors: self.sectors.remove(self.updates[id].sector),
            riders: others(self.riders, self.updates[id].sector),
            ..self
        }
    }

    /// An outcome for a tokened request.
    pub open spec fn reported(
        self,
        stripe_id: usize,
        token: u64,
        result: PersistResult,
    ) -> FlusherModel {
        if token != 0 {
            FlusherModel {
                outcomes: self.outcomes.push(PersistOutcome { stripe_id, token, result }),
                ..self
            }
        } else {
            self
        }
    }

    /// The disk provably still holds the old byte: memory goes back to match.
    pub open spec fn after_not_written(self, u: HeaderUpdateStatus) -> FlusherModel {
        FlusherModel {
            headers: self.headers.update(u.stripe_id as int, u.previous),
            ..self
        }.reported(u.stripe_id, u.token, PersistResult::NotWritten)
    }

    /// The sector was written but never made durable. A tokened caller keeps
    /// the new byte in memory; a fire-and-forget request reverts, since an
    /// unflushed SetFetched only costs a re-fetch.
    pub open spec fn after_uncertain(self, u: HeaderUpdateStatus) -> FlusherModel {
        if u.token != 0 {
            self.reported(u.stripe_id, u.token, PersistResult::Uncertain)
        } else {
            FlusherModel {
                headers: self.headers.update(u.stripe_id as int, u.previous),
                ..self
            }
        }
    }

    /// Updates that went along with one that failed at `stage`: a write that
    /// failed leaves the old bytes, a flush that failed leaves it open.
    pub open spec fn after_riders_failed(
        self,
        riders: Seq<RidingUpdate>,
        stage: RequestStage,
    ) -> FlusherModel
        decreases riders.len(),
    {
        if riders.len() == 0 {
            self
        } else {
            let m = self.after_riders_failed(riders.drop_last(), stage);
            let r = riders.last();
            match stage {
                RequestStage::Writing => FlusherModel {
                    headers: m.headers.update(r.stripe_id as int, r.previous),
                    ..m
                }.reported(r.stripe_id, r.token, PersistResult::NotWritten),
                RequestStage::Flushing => m.reported(
                    r.stripe_id,
                    r.token,
                    PersistResult::Uncertain,
                ),
            }
        }
    }

    /// The update of `id` failed at the stage it is in, and with it those that
    /// went along.
    pub open spec fn after_failure(self, id: usize) -> FlusherModel {
        let u = self.updates[id];
        match u.stage {
            RequestStage::Writing => self.without(id).after_not_written(u),
            RequestStage::Flushing => self.without(id).after_uncertain(u),
        }.after_riders_failed(aboard(self.riders, u.sector), u.stage)
    }

    /// A buffer came back.
    pub open spec fn buffer_back(self) -> FlusherModel {
        FlusherModel { free: self.free + 1, ..self }
    }

    /// Updates that were not submitted fail; those that hold a buffer give it
    /// back if `return_buffer`.
    pub open spec fn after_cleanup(self, ids: Seq<usize>, return_buffer: bool) -> FlusherModel
        decreases ids.len(),
    {
        if ids.len() == 0 {
            self
        } else {
            let m = self.after_cleanup(ids.drop_last(), return_buffer);
            let id = ids.last();
            if m.updates.dom().contains(id) {
                let failed = m.after_failure(id);
                if return_buffer {
                    failed.buffer_back()
                } else {
                    failed
                }
            } else {
                m
            }
        }
    }

    /// The next request can start: there is one, a buffer is free, and its
    /// sector has nothing in flight.
    pub open spec fn can_start(self) -> bool {
        &&& self.queue.len() > 0
        &&& self.free > 0
        &&& !self.sectors.contains(sector_of(self.queue[0].stripe_id as int) as u64)
    }

    /// The bytes that `reqs` ask for change in memory and are on their way to
    /// disk with another update of their sector.
    pub open spec fn carrying(self, reqs: Seq<MetadataFlusherRequest>) -> FlusherModel
        decreases reqs.len(),
    {
        if reqs.len() == 0 {
            self
        } else {
            let m = self.carrying(reqs.drop_last());
            let r = reqs.last();
            let previous = m.headers[r.stripe_id as int];
            let next = next_header(previous, r.set, r.clear);
            FlusherModel {
                headers: m.headers.update(r.stripe_id as int, next),
                riders: m.riders.push(
                    RidingUpdate {
                        stripe_id: r.stripe_id,
                        header: next,
                        previous,
                        token: r.token,
                        sector: sector_of(r.stripe_id as int) as u64,
                    },
                ),
                ..m
            }
        }
    }

    /// The next request is taken off the queue. Without a token it is skipped
    /// when the byte already is as requested. Otherwise the byte changes in
    /// memory and its sector is on its way to disk; a request with a token
    /// takes along all that may go with it.
    pub open spec fn after_start_one(self) -> FlusherModel {
        let req = self.queue[0];
        let previous = self.headers[req.stripe_id as int];
        if req.token == 0 && next_header(previous, req.set, req.clear) == previous {
            FlusherModel { queue: staying(self.queue, self.queue.len()), ..self }
        } else {
            self.led().carrying(riding(self.queue, self.queue.len()))
        }
    }

    /// The next request is on its way to disk, nothing yet along with it.
    pub open spec fn led(self) -> FlusherModel {
        let req = self.queue[0];
        let previous = self.headers[req.stripe_id as int];
        let next = next_header(previous, req.set, req.clear);
        let sector = sector_of(req.stripe_id as int) as u64;
        FlusherModel {
            headers: self.headers.update(req.stripe_id as int, next),
            sectors: self.sectors.insert(sector),
            updates: self.updates.insert(
                req.stripe_id,
                HeaderUpdateStatus {
                    stage: RequestStage::Writing,
                    stripe_id: req.stripe_id,
                    header: next,
                    previous,
                    token: req.token,
                    sector,
                },
            ),
            free: (self.free - 1) as nat,
            queue: staying(self.queue, self.queue.len()),
            ..self
        }
    }

    /// Whether taking the next request off the queue writes a sector.
    pub open spec fn starts_write(self) -> bool {
        let req = self.queue[0];
        let previous = self.headers[req.stripe_id as int];
        !(req.token == 0 && next_header(previous, req.set, req.clear) == previous)
    }

    /// The sector that taking the next request off the queue writes: the
    /// stripe's whole group, with every byte changed that goes along.
    pub open spec fn write_started(self) -> WriteModel {
        let req = self.queue[0];
        WriteModel {
            sector: sector_of(req.stripe_id as int) as u64,
            data: sector_image(
                group_headers(
                    self.after_start_one().headers,
                    req.stripe_id as int / STRIPE_HEADERS_PER_SECTOR as int,
                ),
            ),
            stripe_id: req.stripe_id,
        }
    }

    /// Requests start until one cannot; then this is the state.
    pub open spec fn after_start_writes(self) -> FlusherModel
        decreases self.queue.len(),
    {
        if self.can_start() {
            proof {
                lemma_start_one_shorter(self);
            }
            self.after_start_one().after_start_writes()
        } else {
            self
        }
    }

    /// The sectors written when requests start until one cannot, in order.
    pub open spec fn writes_started(self) -> Seq<WriteModel>
        decreases self.queue.len(),
    {
        if self.can_start() {
            proof {
                lemma_start_one_shorter(self);
            }
            let rest = self.after_start_one().writes_started();
            if self.starts_write() {
                seq![self.write_started()] + rest
            } else {
                rest
            }
        } else {
            Seq::empty()
        }
    }
}

/// Bytes that change along with another leave everything else as it is.
pub proof fn lemma_carrying(m: FlusherModel, reqs: Seq<MetadataFlusherRequest>)
    ensures
        ({
            let n = m.carrying(reqs);
            &&& n.format == m.format
            &&& n.sectors == m.sectors
            &&& n.updates == m.updates
            &&& n.queue == m.queue
            &&& n.outcomes == m.outcomes
            &&& n.free == m.free
            &&& (forall|k: int|
                0 <= k < reqs.len() ==> (#[trigger] reqs[k]).stripe_id < m.headers.len())
                ==> n.headers.len() == m.headers.len()
            &&& n.riders.len() == m.riders.len() + reqs.len()
            &&& forall|k: int| 0 <= k < m.riders.len() ==> n.riders[k] == #[trigger] m.riders[k]
            &&& forall|k: int|
                0 <= k < reqs.len() ==> {
                    let r = n.riders[m.riders.len() + k];
                    &&& r.stripe_id == (#[trigger] reqs[k]).stripe_id
                    &&& r.token == reqs[k].token
                    &&& r.sector == sector_of(reqs[k].stripe_id as int) as u64
                }
        }),
    decreases reqs.len(),
{
    if reqs.len() > 0 {
        lemma_carrying(m, reqs.drop_last());
        let n = m.carrying(reqs.drop_last());
        assert(forall|k: int| 0 <= k < reqs.len() - 1 ==> reqs.drop_last()[k] == reqs[k]);
        assert(m.carrying(reqs).riders.drop_last() =~= n.riders);
        assert(reqs.last() == reqs[reqs.len() - 1]);
        assert forall|k: int| 0 <= k < reqs.len() implies {
            let r = m.carrying(reqs).riders[m.riders.len() + k];
            &&& r.stripe_id == (#[trigger] reqs[k]).stripe_id
            &&& r.token == reqs[k].token
            &&& r.sector == sector_of(reqs[k].stripe_id as int) as u64
        } by {
            if k < reqs.len() - 1 {
                assert(reqs.drop_last()[k] == reqs[k]);
            }
        }
    }
}

/// Fewer requests wait once one started.
pub proof fn lemma_start_one_shorter(m: FlusherModel)
    requires
        m.queue.len() > 0,
    ensures
        m.after_start_one().queue == staying(m.queue, m.queue.len()),
        m.after_start_one().queue.len() < m.queue.len(),
{
    lemma_staying(m.queue, m.queue.len());
    lemma_carrying(m.led(), riding(m.queue, m.queue.len()));
}

/// The flusher while it works through completions.
#[verifier::ext_equal]
pub struct PollModel {
    /// The flusher.
    pub m: FlusherModel,
    /// Flushes that completed.
    pub finished: Seq<FinishedUpdate>,
    /// Writes that completed and are to be flushed now.
    pub flushing: Seq<usize>,
}

impl PollModel {
    /// One completion: a failed one fails its update, a completed write moves
    /// on to its flush, a completed flush frees its sector; so it goes for all
    /// that went along. One that no update waits for is ignored.
    pub open spec fn step(self, id: usize, success: bool) -> PollModel {
        if !self.m.updates.dom().contains(id) {
            self
        } else {
            let u = self.m.updates[id];
            if !success {
                PollModel {
                    m: match u.stage {
                        RequestStage::Writing => self.m.after_failure(id).buffer_back(),
                        RequestStage::Flushing => self.m.after_failure(id),
                    },
                    ..self
                }
            } else {
                match u.stage {
                    RequestStage::Writing => PollModel {
                        m: FlusherModel {
                            updates: self.m.updates.insert(
                                id,
                                HeaderUpdateStatus { stage: RequestStage::Flushing, ..u },
                            ),
                            ..self.m
                        }.buffer_back(),
                        flushing: self.flushing.push(id),
                        ..self
                    },
                    RequestStage::Flushing => PollModel {
                        m: FlusherModel {
                            sectors: self.m.sectors.remove(u.sector),
                            riders: others(self.m.riders, u.sector),
                            ..self.m
                        },
                        finished: self.finished.push(
                            FinishedUpdate {
                                stripe_id: u.stripe_id,
                                header: u.header,
                                token: u.token,
                            },
                        ) + landed(aboard(self.m.riders, u.sector)),
                        ..self
                    },
                }
            }
        }
    }

    /// All completions, in order.
    pub open spec fn steps(self, completions: Seq<(usize, bool)>) -> PollModel
        decreases completions.len(),
    {
        if completions.len() == 0 {
            self
        } else {
            self.steps(completions.drop_last()).step(completions.last().0, completions.last().1)
        }
    }
}

/// Updates that are on disk leave the flusher and are reported as durable.
pub open spec fn after_finished(m: FlusherModel, finished: Seq<FinishedUpdate>) -> FlusherModel
    decreases finished.len(),
{
    if finished.len() == 0 {
        m
    } else {
        let before = after_finished(m, finished.drop_last());
        let f = finished.last();
        FlusherModel { updates: before.updates.remove(f.stripe_id), ..before }.reported(
            f.stripe_id,
            f.token,
            PersistResult::Durable,
        )
    }
}

/// Updates that are on disk take effect in the shared state.
pub open spec fn state_after_finished(
    state: StateModel,
    finished: Seq<FinishedUpdate>,
) -> StateModel
    decreases finished.len(),
{
    if finished.len() == 0 {
        state
    } else {
        let f = finished.last();
        state_after_finished(state, finished.drop_last()).after_set_header(
            f.stripe_id as int,
            f.header,
        )
    }
}

/// The flusher after a batch of completions.
pub open spec fn polled(m: FlusherModel, completions: Seq<(usize, bool)>) -> PollModel {
    PollModel { m, finished: Seq::empty(), flushing: Seq::empty() }.steps(completions)
}

/// Persists header bytes.
pub struct MetadataFlusher {
    /// The metadata as loaded plus every update applied since.
    pub metadata: UbiMetadata,
    /// Sectors with an update in flight.
    pub sectors_being_updated: HashSet<u64>,
    /// Updates in flight, by the stripe on whose behalf the sector is written.
    pub header_updates: HashMap<usize, HeaderUpdateStatus>,
    /// Updates that go to disk with one of those, in the order they came.
    pub riding_updates: Vec<RidingUpdate>,
    /// Requests that wait.
    pub queued_requests: VecDeque<MetadataFlusherRequest>,
    /// Sector buffers not in use.
    pub free_buffers: usize,
    /// Outcomes of tokened requests, in completion order, until taken.
    pub persist_outcomes: Vec<PersistOutcome>,
}

impl View for MetadataFlusher {
    type V = FlusherModel;

    open spec fn view(&self) -> FlusherModel {
        FlusherModel {
            format: self.metadata.format(),
            headers: self.metadata.stripe_headers@,
            sectors: self.sectors_being_updated@,
            updates: self.header_updates@,
            riders: self.riding_updates@,
            queue: self.queued_requests@,
            outcomes: self.persist_outcomes@,
            free: self.free_buffers as nat,
        }
    }
}

/// Updates picked from `riders` are some of them.
pub proof fn lemma_picked(riders: Seq<RidingUpdate>, sector: u64)
    ensures
        forall|k: int|
            0 <= k < others(riders, sector).len() ==> (#[trigger] others(riders, sector)[k]).sector
                != sector && exists|i: int|
                0 <= i < riders.len() && riders[i] == others(riders, sector)[k],
        forall|k: int|
            0 <= k < aboard(riders, sector).len() ==> (#[trigger] aboard(riders, sector)[k]).sector
                == sector && exists|i: int|
                0 <= i < riders.len() && riders[i] == aboard(riders, sector)[k],
    decreases riders.len(),
{
    reveal(Seq::filter);
    if riders.len() > 0 {
        let front = riders.drop_last();
        lemma_picked(front, sector);
        assert forall|k: int| 0 <= k < others(riders, sector).len() implies (
        #[trigger] others(riders, sector)[k]).sector != sector && exists|i: int|
            0 <= i < riders.len() && riders[i] == others(riders, sector)[k] by {
            if k < others(front, sector).len() {
                assert(others(riders, sector)[k] == others(front, sector)[k]);
                let i = choose|i: int|
                    0 <= i < front.len() && front[i] == others(front, sector)[k];
                assert(riders[i] == others(riders, sector)[k]);
            } else {
                assert(riders[riders.len() - 1] == others(riders, sector)[k]);
            }
        }
        assert forall|k: int| 0 <= k < aboard(riders, sector).len() implies (
        #[trigger] aboard(riders, sector)[k]).sector == sector && exists|i: int|
            0 <= i < riders.len() && riders[i] == aboard(riders, sector)[k] by {
            if k < aboard(front, sector).len() {
                assert(aboard(riders, sector)[k] == aboard(front, sector)[k]);
                let i = choose|i: int|
                    0 <= i < front.len() && front[i] == aboard(front, sector)[k];
                assert(riders[i] == aboard(riders, sector)[k]);
            } else {
                assert(riders[riders.len() - 1] == aboard(riders, sector)[k]);
            }
        }
    }
}

/// Updates that failed along with another change bytes and outcomes only.
pub proof fn lemma_riders_failed(m: FlusherModel, riders: Seq<RidingUpdate>, stage: RequestStage)
    ensures
        ({
            let n = m.after_riders_failed(riders, stage);
            &&& n.format == m.format
            &&& n.sectors == m.sectors
            &&& n.updates == m.updates
            &&& n.riders == m.riders
            &&& n.queue == m.queue
            &&& n.free == m.free
            &&& (forall|k: int|
                0 <= k < riders.len() ==> (#[trigger] riders[k]).stripe_id < m.headers.len())
                ==> n.headers.len() == m.headers.len()
        }),
    decreases riders.len(),
{
    if riders.len() > 0 {
        assert(forall|k: int| 0 <= k < riders.len() - 1 ==> riders.drop_last()[k] == riders[k]);
        assert(riders.last() == riders[riders.len() - 1]);
        lemma_riders_failed(m, riders.drop_last(), stage);
    }
}

/// An update that fails leaves with those that went along.
pub proof fn lemma_failure(m: FlusherModel, id: usize)
    requires
        m.updates[id].stripe_id < m.headers.len(),
        forall|k: int| 0 <= k < m.riders.len() ==> #[trigger] m.rider_ok(k),
    ensures
        ({
            let n = m.after_failure(id);
            let sector = m.updates[id].sector;
            &&& n.format == m.format
            &&& n.sectors == m.sectors.remove(sector)
            &&& n.updates == m.updates.remove(id)
            &&& n.riders == others(m.riders, sector)
            &&& n.queue == m.queue
            &&& n.free == m.free
            &&& n.headers.len() == m.headers.len()
        }),
{
    let u = m.updates[id];
    let led = match u.stage {
        RequestStage::Writing => m.without(id).after_not_written(u),
        RequestStage::Flushing => m.without(id).after_uncertain(u),
    };
    let along = aboard(m.riders, u.sector);
    lemma_picked(m.riders, u.sector);
    assert forall|k: int| 0 <= k < along.len() implies (#[trigger] along[k]).stripe_id
        < led.headers.len() by {
        let i = choose|i: int| 0 <= i < m.riders.len() && m.riders[i] == along[k];
        assert(m.rider_ok(i));
    }
    lemma_riders_failed(led, along, u.stage);
}

/// Updates that stay when a sector is let go of still go to disk with a sector
/// that is on its way.
proof fn lemma_others_ok(m: FlusherModel, n: FlusherModel, sector: u64)
    requires
        forall|k: int| 0 <= k < m.riders.len() ==> #[trigger] m.rider_ok(k),
        n.riders == others(m.riders, sector),
        n.sectors == m.sectors.remove(sector),
        n.headers.len() == m.headers.len(),
    ensures
        forall|k: int| 0 <= k < n.riders.len() ==> #[trigger] n.rider_ok(k),
{
    lemma_picked(m.riders, sector);
    assert forall|k: int| 0 <= k < n.riders.len() implies #[trigger] n.rider_ok(k) by {
        let r = others(m.riders, sector)[k];
        let i = choose|i: int| 0 <= i < m.riders.len() && m.riders[i] == r;
        assert(m.rider_ok(i));
    }
}

/// What a started request changes.
pub proof fn lemma_start_one(m: FlusherModel)
    requires
        m.queue.len() > 0,
        forall|i: int|
            0 <= i < m.queue.len() ==> (#[trigger] m.queue[i]).stripe_id < m.headers.len(),
    ensures
        ({
            let n = m.after_start_one();
            let riders = riding(m.queue, m.queue.len());
            &&& m.starts_write() ==> {
                &&& n.sectors == m.led().sectors
                &&& n.updates == m.led().updates
                &&& n.free == m.led().free
                &&& n.riders.len() == m.riders.len() + riders.len()
                &&& forall|k: int|
                    0 <= k < m.riders.len() ==> n.riders[k] == #[trigger] m.riders[k]
                &&& forall|k: int|
                    0 <= k < riders.len() ==> {
                        let r = n.riders[m.riders.len() + k];
                        &&& r.stripe_id == (#[trigger] riders[k]).stripe_id
                        &&& r.token == riders[k].token
                        &&& r.sector == sector_of(riders[k].stripe_id as int) as u64
                    }
            }
            &&& !m.starts_write() ==> n == (FlusherModel { queue: n.queue, ..m })
            &&& n.queue == staying(m.queue, m.queue.len())
            &&& n.queue.len() < m.queue.len()
            &&& n.headers.len() == m.headers.len()
            &&& n.outcomes == m.outcomes
            &&& n.format == m.format
        }),
{
    lemma_start_one_shorter(m);
    lemma_staying(m.queue, m.queue.len());
    let riders = riding(m.queue, m.queue.len());
    assert(m.queue[0].stripe_id < m.headers.len());
    assert forall|k: int| 0 <= k < riders.len() implies (#[trigger] riders[k]).stripe_id
        < m.headers.len() by {
        assert(is_rider(m.queue, m.queue.len(), riders[k]));
        let i = choose|i: int|
            0 < i < m.queue.len() && #[trigger] rides(m.queue, i) && m.queue[i] == riders[k];
        assert(m.queue[i].stripe_id < m.headers.len());
    }
    lemma_carrying(m.led(), riders);
}

/// An update that starts to be written joins the writing ones.
proof fn lemma_writing_insert(
    updates: Map<usize, HeaderUpdateStatus>,
    id: usize,
    u: HeaderUpdateStatus,
)
    requires
        updates.dom().finite(),
        !updates.dom().contains(id),
        u.stage == RequestStage::Writing,
    ensures
        writing(updates.insert(id, u)).len() == writing(updates).len() + 1,
{
    updates.dom().lemma_len_filter(|id: usize| updates[id].stage == RequestStage::Writing);
    assert(writing(updates.insert(id, u)) =~= writing(updates).insert(id));
}

/// An update that leaves, or moves on to its flush, leaves the writing ones.
proof fn lemma_writing_leave(
    updates: Map<usize, HeaderUpdateStatus>,
    id: usize,
    u: HeaderUpdateStatus,
)
    requires
        updates.dom().finite(),
        updates.dom().contains(id),
        u.stage == RequestStage::Flushing,
    ensures
        updates[id].stage == RequestStage::Writing ==> writing(updates.remove(id)).len() + 1
            == writing(updates).len(),
        updates[id].stage == RequestStage::Flushing ==> writing(updates.remove(id)).len()
            == writing(updates).len(),
        updates[id].stage == RequestStage::Writing ==> writing(updates.insert(id, u)).len() + 1
            == writing(updates).len(),
{
    updates.dom().lemma_len_filter(|id: usize| updates[id].stage == RequestStage::Writing);
    if updates[id].stage == RequestStage::Writing {
        assert(writing(updates.remove(id)) =~= writing(updates).remove(id));
        assert(writing(updates.insert(id, u)) =~= writing(updates).remove(id));
        assert(writing(updates).contains(id));
    } else {
        assert(writing(updates.remove(id)) =~= writing(updates));
    }
}

/// Starting a request keeps the flusher well-formed.
pub proof fn lemma_start_one_wf(m: FlusherModel)
    requires
        m.wf(),
        m.can_start(),
    ensures
        m.after_start_one().wf(),
        m.starts_write() ==> !m.updates.dom().contains(m.queue[0].stripe_id),
{
    let m2 = m.after_start_one();
    let req = m.queue[0];
    let id = req.stripe_id;
    let sector = sector_of(id as int) as u64;
    let riders = riding(m.queue, m.queue.len());
    lemma_start_one(m);
    lemma_staying(m.queue, m.queue.len());
    assert forall|i: int| 0 <= i < m2.queue.len() implies (#[trigger] m2.queue[i]).stripe_id
        < m2.headers.len() by {
        let j = choose|j: int|
            0 < j < m.queue.len() && m.queue[j] == staying(m.queue, m.queue.len())[i];
        assert(m.queue[j].stripe_id < m.headers.len());
    }
    assert(req.stripe_id < m.headers.len());
    assert forall|k: int| 0 <= k < m2.riders.len() implies #[trigger] m2.rider_ok(k) by {
        if k < m.riders.len() {
            assert(m.rider_ok(k));
            assert(m2.riders[k] == m.riders[k]);
        } else {
            let r = riders[k - m.riders.len()];
            assert(is_rider(m.queue, m.queue.len(), r));
            let j = choose|j: int|
                0 < j < m.queue.len() && #[trigger] rides(m.queue, j) && m.queue[j] == r;
            assert(m.queue[j].stripe_id < m.headers.len());
        }
    }
    if m.starts_write() {
        if m.updates.dom().contains(id) {
            assert(m.update_ok(id));
            assert(false);
        }
        lemma_writing_insert(m.updates, id, m2.updates[id]);
        assert forall|a: usize, b: usize|
            m2.updates.dom().contains(a) && m2.updates.dom().contains(b)
                && #[trigger] m2.updates[a].sector
                == #[trigger] m2.updates[b].sector implies a == b by {
            if a == id && b != id {
                assert(m.updates.dom().contains(b));
                assert(m.sectors.contains(m.updates[b].sector));
            } else if b == id && a != id {
                assert(m.updates.dom().contains(a));
                assert(m.sectors.contains(m.updates[a].sector));
            } else if a != id && b != id {
                assert(m.updates[a].sector == m.updates[b].sector);
            }
        }
        assert forall|i: usize| #[trigger] m2.updates.dom().contains(i) implies m2.update_ok(i)
            && m2.sectors.contains(m2.updates[i].sector) by {
            if i != id {
                assert(m.updates.dom().contains(i));
                assert(m.update_ok(i));
            }
        }
        assert forall|s: u64| #[trigger] m2.sectors.contains(s) implies exists|i: usize| #[trigger]
            m2.updates.dom().contains(i) && m2.updates[i].sector == s by {
            if s == sector {
                assert(m2.updates.dom().contains(id));
            } else {
                assert(m.sectors.contains(s));
                let w = choose|i: usize| #[trigger]
                    m.updates.dom().contains(i) && m.updates[i].sector == s;
                assert(m2.updates.dom().contains(w));
            }
        }
    } else {
        assert forall|i: usize| #[trigger] m2.updates.dom().contains(i) implies m2.update_ok(i)
            && m2.sectors.contains(m2.updates[i].sector) by {
            assert(m.update_ok(i));
        }
    }
}

/// An update that fails at its stage leaves the flusher well-formed, once the
/// buffer of one that was being written came back.
proof fn lemma_failure_wf(m: FlusherModel, id: usize)
    requires
        m.wf(),
        m.updates.dom().contains(id),
    ensures
        m.updates[id].stage == RequestStage::Writing ==> m.after_failure(id).buffer_back().wf(),
        m.updates[id].stage == RequestStage::Flushing ==> m.after_failure(id).wf(),
        m.after_failure(id).headers.len() == m.headers.len(),
{
    let m2 = if m.updates[id].stage == RequestStage::Writing {
        m.after_failure(id).buffer_back()
    } else {
        m.after_failure(id)
    };
    let u = m.updates[id];
    lemma_writing_leave(
        m.updates,
        id,
        HeaderUpdateStatus { stage: RequestStage::Flushing, ..u },
    );
    lemma_failure(m, id);
    lemma_others_ok(m, m2, u.sector);
    assert forall|i: usize| #[trigger] m2.updates.dom().contains(i) implies m2.update_ok(i)
        && m2.sectors.contains(m2.updates[i].sector) by {
        assert(m.updates.dom().contains(i));
        assert(m.update_ok(i));
        assert(m.updates[i].sector != m.updates[id].sector);
    }
    assert forall|s: u64| #[trigger] m2.sectors.contains(s) implies exists|i: usize| #[trigger]
        m2.updates.dom().contains(i) && m2.updates[i].sector == s by {
        assert(m.sectors.contains(s));
        let w = choose|i: usize| #[trigger]
            m.updates.dom().contains(i) && m.updates[i].sector == s;
        assert(m2.updates.dom().contains(w));
    }
    assert forall|a: usize, b: usize|
        m2.updates.dom().contains(a) && m2.updates.dom().contains(b)
            && #[trigger] m2.updates[a].sector
            == #[trigger] m2.updates[b].sector implies a == b by {
        assert(m.updates[a].sector == m.updates[b].sector);
    }
}

impl PollModel {
    /// What holds while completions are worked through: a finished update has
    /// already let go of its sector.
    pub open spec fn wf(self) -> bool {
        let m = self.m;
        &&& m.updates.dom().finite()
        &&& forall|id: usize| #[trigger] m.updates.dom().contains(id) ==> m.update_ok(id)
        &&& forall|a: usize, b: usize|
            m.updates.dom().contains(a) && m.updates.dom().contains(b)
                && #[trigger] m.updates[a].sector == #[trigger] m.updates[b].sector ==> a == b
        &&& forall|s: u64| #[trigger]
            m.sectors.contains(s) ==> exists|id: usize| #[trigger]
                m.updates.dom().contains(id) && m.updates[id].sector == s
        &&& forall|k: int| 0 <= k < m.riders.len() ==> #[trigger] m.rider_ok(k)
        &&& writing(m.updates).len() + m.free == MAX_CONCURRENT_CHANGES
        &&& forall|i: int|
            0 <= i < m.queue.len() ==> (#[trigger] m.queue[i]).stripe_id < m.headers.len()
        &&& forall|id: usize| #[trigger]
            m.updates.dom().contains(id) ==> m.sectors.contains(m.updates[id].sector)
                || self.is_finished(id)
        &&& forall|k: int| 0 <= k < self.finished.len() ==> #[trigger] self.finished_ok(k)
        &&& forall|k: int|
            0 <= k < self.flushing.len() ==> m.updates.dom().contains(#[trigger] self.flushing[k])
                ==> m.updates[self.flushing[k]].stage == RequestStage::Flushing
    }

    /// The flush of `id` completed in this batch.
    pub open spec fn is_finished(self, id: usize) -> bool {
        exists|k: int| 0 <= k < self.finished.len() && (#[trigger] self.finished[k]).stripe_id == id
    }

    /// A finished update named a stripe of the device, let go of its sector
    /// and is past its write.
    pub open spec fn finished_ok(self, k: int) -> bool {
        let id = self.finished[k].stripe_id;
        &&& id < self.m.headers.len()
        &&& !self.m.sectors.contains(sector_of(id as int) as u64)
        &&& self.m.updates.dom().contains(id) ==> self.m.updates[id].stage
            == RequestStage::Flushing
    }
}

/// One completion keeps the work well-formed.
proof fn lemma_poll_step_wf(p: PollModel, id: usize, success: bool)
    requires
        p.wf(),
    ensures
        p.step(id, success).wf(),
        p.step(id, success).m.headers.len() == p.m.headers.len(),
        p.step(id, success).m.queue == p.m.queue,
{
    let q = p.step(id, success);
    let m = p.m;
    let m2 = q.m;
    if m.updates.dom().contains(id) {
        let u = m.updates[id];
        assert(m.update_ok(id));
        lemma_writing_leave(
            m.updates,
            id,
            HeaderUpdateStatus { stage: RequestStage::Flushing, ..u },
        );
        let moved = success && u.stage == RequestStage::Writing;
        let finished = success && u.stage == RequestStage::Flushing;
        let along = aboard(m.riders, u.sector);
        if moved {
            assert(m2.updates.dom() =~= m.updates.dom());
            assert forall|k: int| 0 <= k < m2.riders.len() implies #[trigger] m2.rider_ok(k) by {
                assert(m.rider_ok(k));
            }
        } else {
            lemma_failure(m, id);
            lemma_others_ok(m, m2, u.sector);
        }
        lemma_picked(m.riders, u.sector);
        assert forall|i: usize| #[trigger] m2.updates.dom().contains(i) implies m2.update_ok(i)
            && m.updates.dom().contains(i) && m2.updates[i].sector == m.updates[i].sector && (i
            != id ==> m2.updates[i] == m.updates[i]) by {
            assert(m.updates.dom().contains(i));
            assert(m.update_ok(i));
        }
        assert forall|a: usize, b: usize|
            m2.updates.dom().contains(a) && m2.updates.dom().contains(b)
                && #[trigger] m2.updates[a].sector
                == #[trigger] m2.updates[b].sector implies a == b by {
            assert(m.updates[a].sector == m.updates[b].sector);
        }
        assert forall|s: u64| #[trigger] m2.sectors.contains(s) implies exists|i: usize| #[trigger]
            m2.updates.dom().contains(i) && m2.updates[i].sector == s by {
            assert(m.sectors.contains(s));
            let w = choose|i: usize| #[trigger]
                m.updates.dom().contains(i) && m.updates[i].sector == s;
            assert(m2.updates.dom().contains(w));
        }
        assert forall|k: int| 0 <= k < p.finished.len() implies q.finished[k] == p.finished[k] by {}
        assert forall|i: usize| #[trigger] m2.updates.dom().contains(i) implies m2.sectors.contains(
            m2.updates[i].sector,
        ) || q.is_finished(i) by {
            assert(m.updates.dom().contains(i));
            if p.is_finished(i) {
                let k = choose|k: int|
                    0 <= k < p.finished.len() && (#[trigger] p.finished[k]).stripe_id == i;
                assert(q.finished[k].stripe_id == i);
            } else {
                assert(m.sectors.contains(m.updates[i].sector));
                if i == id {
                    if finished {
                        assert(q.finished[p.finished.len() as int].stripe_id == i);
                    }
                } else {
                    assert(m.updates[i].sector != m.updates[id].sector);
                }
            }
        }
        assert forall|k: int| 0 <= k < q.finished.len() implies #[trigger] q.finished_ok(k) by {
            if k < p.finished.len() {
                assert(p.finished_ok(k));
                assert(q.finished[k] == p.finished[k]);
            } else if k == p.finished.len() {
                assert(q.finished[k].stripe_id == id);
            } else {
                let r = along[k - p.finished.len() - 1];
                let i = choose|i: int| 0 <= i < m.riders.len() && m.riders[i] == r;
                assert(m.rider_ok(i));
                assert(q.finished[k].stripe_id == r.stripe_id);
                if m.updates.dom().contains(r.stripe_id) {
                    assert(m.update_ok(r.stripe_id));
                    assert(m.updates[r.stripe_id].sector == m.updates[id].sector);
                }
            }
        }
        assert forall|k: int|
            0 <= k < q.flushing.len() && m2.updates.dom().contains(
                #[trigger] q.flushing[k],
            ) implies m2.updates[q.flushing[k]].stage == RequestStage::Flushing by {
            if k < p.flushing.len() {
                assert(q.flushing[k] == p.flushing[k]);
                assert(m.updates.dom().contains(p.flushing[k]));
            }
        }
    }
}

/// Finished updates leave.
proof fn lemma_after_finished(p: PollModel, k: nat)
    requires
        p.wf(),
        k <= p.finished.len(),
    ensures
        ({
            let m = after_finished(p.m, p.finished.subrange(0, k as int));
            &&& m.headers == p.m.headers
            &&& m.sectors == p.m.sectors
            &&& m.queue == p.m.queue
            &&& m.free == p.m.free
            &&& m.riders == p.m.riders
            &&& m.updates.dom().finite()
            &&& writing(m.updates).len() == writing(p.m.updates).len()
            &&& forall|id: usize| #[trigger]
                m.updates.dom().contains(id) <==> p.m.updates.dom().contains(id) && !(exists|j: int|
                    0 <= j < k && (#[trigger] p.finished[j]).stripe_id == id)
            &&& forall|id: usize| #[trigger]
                m.updates.dom().contains(id) ==> m.updates[id] == p.m.updates[id]
        }),
    decreases k,
{
    let part = p.finished.subrange(0, k as int);
    if k == 0 {
        assert(part.len() == 0);
    } else {
        lemma_after_finished(p, (k - 1) as nat);
        assert(part.drop_last() =~= p.finished.subrange(0, k - 1));
        let before = after_finished(p.m, p.finished.subrange(0, k - 1));
        let m = after_finished(p.m, part);
        let f = part.last();
        assert(f == p.finished[k - 1]);
        assert(p.finished_ok(k - 1));
        assert(m.updates == before.updates.remove(f.stripe_id));
        if before.updates.dom().contains(f.stripe_id) {
            assert(p.m.updates.dom().contains(f.stripe_id));
            let u = before.updates[f.stripe_id];
            lemma_writing_leave(
                before.updates,
                f.stripe_id,
                HeaderUpdateStatus { stage: RequestStage::Flushing, ..u },
            );
        } else {
            assert(before.updates.remove(f.stripe_id) =~= before.updates);
        }
        assert forall|id: usize| #[trigger] m.updates.dom().contains(id) implies
            p.m.updates.dom().contains(id) && !(exists|j: int|
            0 <= j < k && (#[trigger] p.finished[j]).stripe_id == id) by {
            assert(before.updates.dom().contains(id));
            if exists|j: int| 0 <= j < k && (#[trigger] p.finished[j]).stripe_id == id {
                let j = choose|j: int| 0 <= j < k && (#[trigger] p.finished[j]).stripe_id == id;
                if j < k - 1 {
                    assert(false);
                } else {
                    assert(id == f.stripe_id);
                }
            }
        }
        assert forall|id: usize|
            p.m.updates.dom().contains(id) && !(exists|j: int|
                0 <= j < k && (#[trigger] p.finished[j]).stripe_id
                    == id) implies #[trigger] m.updates.dom().contains(id) by {
            assert(p.finished[k - 1].stripe_id != id);
            if !before.updates.dom().contains(id) {
                let j = choose|j: int| 0 <= j < k - 1 && (#[trigger] p.finished[j]).stripe_id == id;
                assert(p.finished[j].stripe_id == id);
            }
        }
    }
}

/// After all finished updates left, the flusher is well-formed, and what is
/// to be flushed has been written.
pub proof fn lemma_poll_done_wf(p: PollModel)
    requires
        p.wf(),
    ensures
        after_finished(p.m, p.finished).wf(),
        after_finished(p.m, p.finished).headers == p.m.headers,
        forall|k: int|
            0 <= k < p.flushing.len() && after_finished(p.m, p.finished).updates.dom().contains(
                #[trigger] p.flushing[k],
            ) ==> after_finished(p.m, p.finished).updates[p.flushing[k]].stage
                == RequestStage::Flushing,
{
    lemma_after_finished(p, p.finished.len());
    assert(p.finished.subrange(0, p.finished.len() as int) =~= p.finished);
    let m = after_finished(p.m, p.finished);
    assert forall|k: int| 0 <= k < m.riders.len() implies #[trigger] m.rider_ok(k) by {
        assert(p.m.rider_ok(k));
    }
    assert forall|id: usize| #[trigger] m.updates.dom().contains(id) implies m.update_ok(id)
        && m.sectors.contains(m.updates[id].sector) by {
        assert(p.m.updates.dom().contains(id));
        assert(p.m.update_ok(id));
    }
    assert forall|a: usize, b: usize|
        m.updates.dom().contains(a) && m.updates.dom().contains(b)
            && #[trigger] m.updates[a].sector == #[trigger] m.updates[b].sector implies a == b by {
        assert(p.m.updates[a].sector == p.m.updates[b].sector);
    }
    assert forall|s: u64| #[trigger] m.sectors.contains(s) implies exists|i: usize| #[trigger]
        m.updates.dom().contains(i) && m.updates[i].sector == s by {
        assert(p.m.sectors.contains(s));
        let w = choose|i: usize| #[trigger]
            p.m.updates.dom().contains(i) && p.m.updates[i].sector == s;
        assert(p.m.update_ok(w));
        if exists|j: int|
            0 <= j < p.finished.len() && (#[trigger] p.finished[j]).stripe_id == w {
            let j = choose|j: int|
                0 <= j < p.finished.len() && (#[trigger] p.finished[j]).stripe_id == w;
            assert(p.finished_ok(j));
            assert(false);
        }
        assert(m.updates.dom().contains(w));
    }
}

impl MetadataFlusher {
    /// A flusher for `metadata`, which was loaded from the metadata device. A
    /// source with more stripes than the metadata is refused.
    pub fn new(metadata: UbiMetadata, source_sector_count: u64) -> (r: Result<
        MetadataFlusher,
        MetadataError,
    >)
        requires
            metadata.wf(),
        ensures
            ({
                let source_stripes = stripes_covering(
                    source_sector_count,
                    1u64 << metadata.stripe_sector_count_shift,
                );
                match r {
                    Ok(f) => source_stripes <= metadata.stripe_headers@.len() && f@
                        == FlusherModel::idle(metadata) && f.metadata == metadata
                        && f@.wf(),
                    Err(e) => source_stripes > metadata.stripe_headers@.len() && e
                        == (MetadataError::SourceTooLarge {
                        source_stripes: source_stripes as u64,
                        metadata_stripes: metadata.stripe_headers@.len() as u64,
                    }),
                }
            }),
    {
        let shift: u8 = metadata.stripe_sector_count_shift;
        assert(1u64 << shift >= 1) by (bit_vector)
            requires
                shift < 64,
        ;
        let stripe_sectors = metadata.stripe_sector_count();
        let source_stripes = div_ceil(source_sector_count, stripe_sectors);
        let metadata_stripes = metadata.stripe_count();
        if source_stripes > metadata_stripes {
            return Err(MetadataError::SourceTooLarge { source_stripes, metadata_stripes });
        }
        let f = MetadataFlusher {
            metadata,
            sectors_being_updated: HashSet::new(),
            header_updates: HashMap::new(),
            riding_updates: Vec::new(),
            queued_requests: VecDeque::new(),
            free_buffers: MAX_CONCURRENT_CHANGES,
            persist_outcomes: Vec::new(),
        };
        assert(f@ =~= FlusherModel::idle(metadata));
        assert(writing(f@.updates) =~= Set::empty());
        Ok(f)
    }

    /// Whether an update is in flight or waits.
    pub fn busy(&self) -> (r: bool)
        ensures
            r == self@.is_busy(),
    {
        self.sectors_being_updated.len() > 0 || self.queued_requests.len() > 0
    }

    /// Set FETCHED and clear EVICTED, without a token. Clearing EVICTED here
    /// is belt and braces: FETCHED and EVICTED must never both reach disk.
    pub fn set_stripe_fetched(&mut self, stripe_id: usize)
        requires
            old(self)@.wf(),
            stripe_id < old(self)@.headers.len(),
        ensures
            final(self)@ == old(self)@.queued(
                stripe_id,
                metadata_flags::FETCHED,
                metadata_flags::EVICTED,
                0,
            ),
            final(self)@.wf(),
    {
        self.enqueue(stripe_id, metadata_flags::FETCHED, metadata_flags::EVICTED, 0);
    }

    /// Set WRITTEN, without a token.
    pub fn set_stripe_written(&mut self, stripe_id: usize)
        requires
            old(self)@.wf(),
            stripe_id < old(self)@.headers.len(),
        ensures
            final(self)@ == old(self)@.queued(stripe_id, metadata_flags::WRITTEN, 0, 0),
            final(self)@.wf(),
    {
        self.enqueue(stripe_id, metadata_flags::WRITTEN, 0, 0);
    }

    /// Masked update of the bits that may change. With a non-zero `token` it
    /// is always written and flushed, and its outcome reported under that
    /// token. Without one it is skipped when the byte already reads as
    /// requested, and not reported.
    pub fn update_stripe_header(&mut self, stripe_id: usize, set: u8, clear: u8, token: u64)
        requires
            old(self)@.wf(),
            stripe_id < old(self)@.headers.len(),
            (set | clear) & !UPDATABLE_MASK == 0,
        ensures
            final(self)@ == old(self)@.queued(stripe_id, set, clear, token),
            final(self)@.wf(),
    {
        self.enqueue(stripe_id, set, clear, token);
    }

    /// Add a request to the queue.
    fn enqueue(&mut self, stripe_id: usize, set: u8, clear: u8, token: u64)
        requires
            old(self)@.wf(),
            stripe_id < old(self)@.headers.len(),
        ensures
            final(self)@ == old(self)@.queued(stripe_id, set, clear, token),
            final(self)@.wf(),
    {
        self.queued_requests.push_back(MetadataFlusherRequest { stripe_id, set, clear, token });
        assert(self@ =~= old(self)@.queued(stripe_id, set, clear, token));
        proof {
            lemma_same_updates_wf(*old(self), *self);
        }
    }

    /// Outcomes completed since the last call, in completion order.
    pub fn take_persist_outcomes(&mut self) -> (r: Vec<PersistOutcome>)
        requires
            old(self)@.wf(),
        ensures
            r@ == old(self)@.outcomes,
            final(self)@ == (FlusherModel { outcomes: Seq::empty(), ..old(self)@ }),
            final(self)@.wf(),
    {
        let mut taken: Vec<PersistOutcome> = Vec::new();
        std::mem::swap(&mut taken, &mut self.persist_outcomes);
        assert(self@ =~= FlusherModel { outcomes: Seq::empty(), ..old(self)@ });
        proof {
            lemma_same_updates_wf(*old(self), *self);
        }
        taken
    }

    /// The flusher's current byte, which the next write starts from; zero for
    /// a stripe the device does not have.
    pub fn header(&self, stripe_id: usize) -> (r: u8)
        ensures
            stripe_id < self@.headers.len() ==> r == self@.headers[stripe_id as int],
            stripe_id >= self@.headers.len() ==> r == 0,
    {
        if stripe_id < self.metadata.stripe_headers.len() {
            self.metadata.stripe_headers[stripe_id]
        } else {
            0
        }
    }

    /// The metadata as loaded at construction plus every update applied since.
    pub fn metadata(&self) -> (r: &UbiMetadata)
        ensures
            *r == self.metadata,
            r.format() == self@.format,
            r.stripe_headers@ == self@.headers,
    {
        &self.metadata
    }

    /// Take out the updates that go to disk with `sector`.
    fn take_riders(&mut self, sector: u64) -> (along: Vec<RidingUpdate>)
        ensures
            along@ == aboard(old(self)@.riders, sector),
            final(self)@ == (FlusherModel {
                riders: others(old(self)@.riders, sector),
                ..old(self)@
            }),
            final(self).metadata == old(self).metadata,
    {
        let mut along: Vec<RidingUpdate> = Vec::new();
        let mut rest: Vec<RidingUpdate> = Vec::new();
        let mut k: usize = 0;
        let ghost riders = self@.riders;
        proof {
            reveal(Seq::filter);
        }
        while k < self.riding_updates.len()
            invariant
                k <= riders.len(),
                *self == *old(self),
                riders == self.riding_updates@,
                along@ == aboard(riders.take(k as int), sector),
                rest@ == others(riders.take(k as int), sector),
            decreases riders.len() - k,
        {
            reveal(Seq::filter);
            assert(riders.take(k + 1).drop_last() =~= riders.take(k as int));
            let r = self.riding_updates[k];
            if r.sector == sector {
                along.push(r);
            } else {
                rest.push(r);
            }
            k = k + 1;
        }
        assert(riders.take(k as int) =~= riders);
        self.riding_updates = rest;
        assert(self@ =~= FlusherModel { riders: others(old(self)@.riders, sector), ..old(self)@ });
        along
    }

    /// Updates that went along with one that failed at `stage`.
    fn fail_riders(&mut self, along: &Vec<RidingUpdate>, stage: RequestStage)
        requires
            forall|k: int|
                0 <= k < along@.len() ==> (#[trigger] along@[k]).stripe_id
                    < old(self)@.headers.len() && along@[k].token != 0,
        ensures
            final(self)@ == old(self)@.after_riders_failed(along@, stage),
    {
        let ghost before = self@;
        let mut k: usize = 0;
        assert(along@.take(0) =~= Seq::empty());
        while k < along.len()
            invariant
                k <= along@.len(),
                self@.headers.len() == before.headers.len(),
                self@ == before.after_riders_failed(along@.take(k as int), stage),
                forall|k: int|
                    0 <= k < along@.len() ==> (#[trigger] along@[k]).stripe_id
                        < before.headers.len() && along@[k].token != 0,
            decreases along@.len() - k,
        {
            let ghost now = self@;
            let r = along[k];
            proof {
                assert(along@.take(k + 1).drop_last() =~= along@.take(k as int));
                assert(along@.take(k + 1).last() == r);
            }
            let result = match stage {
                RequestStage::Writing => {
                    self.metadata.stripe_headers.set(r.stripe_id, r.previous);
                    PersistResult::NotWritten
                },
                RequestStage::Flushing => PersistResult::Uncertain,
            };
            self.persist_outcomes.push(
                PersistOutcome { stripe_id: r.stripe_id, token: r.token, result },
            );
            k = k + 1;
            assert(self@ =~= before.after_riders_failed(along@.take(k as int), stage));
        }
        assert(along@.take(k as int) =~= along@);
    }

    /// The update of `id` failed at the stage it is in: it leaves with those
    /// that went along, its sector is free, and tokened callers hear of it.
    fn fail_update(&mut self, id: usize)
        requires
            old(self)@.updates.dom().contains(id),
            old(self)@.updates[id].stripe_id < old(self)@.headers.len(),
            forall|k: int| 0 <= k < old(self)@.riders.len() ==> #[trigger] old(self)@.rider_ok(k),
        ensures
            final(self)@ == old(self)@.after_failure(id),
    {
        match self.header_updates.remove(&id) {
            None => {},
            Some(status) => {
                match status.stage {
                    RequestStage::Writing => {
                        self.metadata.stripe_headers.set(status.stripe_id, status.previous);
                        if status.token != 0 {
                            self.persist_outcomes.push(
                                PersistOutcome {
                                    stripe_id: status.stripe_id,
                                    token: status.token,
                                    result: PersistResult::NotWritten,
                                },
                            );
                        }
                    },
                    RequestStage::Flushing => {
                        if status.token != 0 {
                            self.persist_outcomes.push(
                                PersistOutcome {
                                    stripe_id: status.stripe_id,
                                    token: status.token,
                                    result: PersistResult::Uncertain,
                                },
                            );
                        } else {
                            self.metadata.stripe_headers.set(status.stripe_id, status.previous);
                        }
                    },
                }
                self.sectors_being_updated.remove(&status.sector);
                let along = self.take_riders(status.sector);
                proof {
                    let riders = old(self)@.riders;
                    lemma_picked(riders, status.sector);
                    assert forall|k: int| 0 <= k < along@.len() implies (
                    #[trigger] along@[k]).stripe_id < self@.headers.len() && along@[k].token
                        != 0 by {
                        let i = choose|i: int| 0 <= i < riders.len() && riders[i] == along@[k];
                        assert(old(self)@.rider_ok(i));
                    }
                    let u = old(self)@.updates[id];
                    assert(self@ =~= match u.stage {
                        RequestStage::Writing => old(self)@.without(id).after_not_written(u),
                        RequestStage::Flushing => old(self)@.without(id).after_uncertain(u),
                    });
                }
                self.fail_riders(&along, status.stage);
            },
        }
        assert(self@ =~= old(self)@.after_failure(id));
    }

    /// The device never received these requests, so no completion will come:
    /// their updates fail, and those that hold a buffer give it back.
    pub fn cleanup_failed_submission(&mut self, stripe_ids: &Vec<usize>, return_buffer: bool)
        requires
            old(self)@.wf(),
            forall|k: int|
                0 <= k < stripe_ids@.len() && old(self)@.updates.dom().contains(
                    #[trigger] stripe_ids@[k],
                ) ==> (old(self)@.updates[stripe_ids@[k]].stage == RequestStage::Writing)
                    == return_buffer,
        ensures
            final(self)@ == old(self)@.after_cleanup(stripe_ids@, return_buffer),
            final(self)@.wf(),
            final(self)@.headers.len() == old(self)@.headers.len(),
    {
        let ghost before = self@;
        let mut k: usize = 0;
        while k < stripe_ids.len()
            invariant
                k <= stripe_ids@.len(),
                before.wf(),
                self@.wf(),
                self@.headers.len() == before.headers.len(),
                self@ == before.after_cleanup(stripe_ids@.subrange(0, k as int), return_buffer),
                forall|id: usize| #[trigger]
                    self@.updates.dom().contains(id) ==> before.updates.dom().contains(id)
                        && self@.updates[id] == before.updates[id],
                forall|k: int|
                    0 <= k < stripe_ids@.len() && before.updates.dom().contains(
                        #[trigger] stripe_ids@[k],
                    ) ==> (before.updates[stripe_ids@[k]].stage == RequestStage::Writing)
                        == return_buffer,
            decreases stripe_ids@.len() - k,
        {
            let id: usize = stripe_ids[k];
            let ghost now = self@;
            proof {
                let done = stripe_ids@.subrange(0, k as int);
                let next = stripe_ids@.subrange(0, k + 1);
                assert(next.drop_last() =~= done);
                assert(next.last() == id);
            }
            if self.header_updates.contains_key(&id) {
                proof {
                    assert(now.update_ok(id));
                    assert(before.updates.dom().contains(stripe_ids@[k as int]));
                    lemma_failure_wf(now, id);
                    lemma_failure(now, id);
                    lemma_free_bound(now);
                }
                self.fail_update(id);
                if return_buffer {
                    self.free_buffers = self.free_buffers + 1;
                    assert(self@ =~= now.after_failure(id).buffer_back());
                }
            }
            k = k + 1;
        }
        assert(stripe_ids@.subrange(0, k as int) =~= stripe_ids@);
    }

    /// Work through completions: a failed one fails its update, a completed
    /// write is to be flushed, a completed flush takes effect in the shared
    /// state and is reported as durable. Gives back the writes to flush.
    pub fn complete(&mut self, completions: &Vec<(usize, bool)>, state: &mut SharedMetadataState)
        -> (flushing: Vec<usize>)
        requires
            old(self)@.wf(),
            old(state)@.wf(),
            old(state)@.fetch.len() == old(self)@.headers.len(),
        ensures
            ({
                let p = polled(old(self)@, completions@);
                &&& flushing@ == p.flushing
                &&& final(self)@ == after_finished(p.m, p.finished)
                &&& final(state)@ == state_after_finished(old(state)@, p.finished)
            }),
            final(self)@.wf(),
            final(self)@.headers.len() == old(self)@.headers.len(),
            final(state)@.wf(),
            final(state)@.fetch.len() == old(state)@.fetch.len(),
            forall|k: int|
                0 <= k < flushing@.len() && final(self)@.updates.dom().contains(
                    #[trigger] flushing@[k],
                ) ==> final(self)@.updates[flushing@[k]].stage == RequestStage::Flushing,
    {
        let ghost before = self@;
        let mut finished: Vec<FinishedUpdate> = Vec::new();
        let mut flushing: Vec<usize> = Vec::new();
        let ghost start = PollModel { m: before, finished: Seq::empty(), flushing: Seq::empty() };
        let mut k: usize = 0;
        assert(completions@.subrange(0, 0) =~= Seq::empty());
        while k < completions.len()
            invariant
                k <= completions@.len(),
                start == (PollModel { m: before, finished: Seq::empty(), flushing: Seq::empty() }),
                self@.headers.len() == before.headers.len(),
                ({
                    let p = PollModel { m: self@, finished: finished@, flushing: flushing@ };
                    p == start.steps(completions@.subrange(0, k as int)) && p.wf()
                }),
            decreases completions@.len() - k,
        {
            let (id, success) = completions[k];
            let ghost p = PollModel { m: self@, finished: finished@, flushing: flushing@ };
            let ghost q = p.step(id, success);
            proof {
                let done = completions@.subrange(0, k as int);
                let next = completions@.subrange(0, k + 1);
                assert(next.drop_last() =~= done);
                assert(next.last() == completions@[k as int]);
                lemma_poll_step_wf(p, id, success);
            }
            match self.header_updates.get(&id) {
                None => {},
                Some(status) => {
                    let status = *status;
                    proof {
                        assert(p.m.updates.dom().contains(id));
                        assert(p.m.update_ok(id));
                        lemma_free_bound_in_poll(p);
                    }
                    if !success {
                        self.fail_update(id);
                        match status.stage {
                            RequestStage::Writing => {
                                self.free_buffers = self.free_buffers + 1;
                            },
                            RequestStage::Flushing => {},
                        }
                    } else {
                        match status.stage {
                            RequestStage::Writing => {
                                self.free_buffers = self.free_buffers + 1;
                                self.header_updates.insert(
                                    id,
                                    HeaderUpdateStatus { stage: RequestStage::Flushing, ..status },
                                );
                                flushing.push(id);
                            },
                            RequestStage::Flushing => {
                                self.sectors_being_updated.remove(&status.sector);
                                finished.push(
                                    FinishedUpdate {
                                        stripe_id: status.stripe_id,
                                        header: status.header,
                                        token: status.token,
                                    },
                                );
                                let along = self.take_riders(status.sector);
                                finish_riders(&along, &mut finished);
                            },
                        }
                    }
                },
            }
            k = k + 1;
            assert(self@ =~= q.m);
            assert(finished@ =~= q.finished);
            assert(flushing@ =~= q.flushing);
        }
        assert(completions@.subrange(0, k as int) =~= completions@);
        let ghost p = PollModel { m: self@, finished: finished@, flushing: flushing@ };
        let ghost state_before = state@;
        let mut j: usize = 0;
        assert(finished@.subrange(0, 0) =~= Seq::empty());
        while j < finished.len()
            invariant
                j <= finished@.len(),
                p.wf(),
                p.finished == finished@,
                state_before.wf(),
                state_before.fetch.len() == p.m.headers.len(),
                self@ == after_finished(p.m, finished@.subrange(0, j as int)),
                state@ == state_after_finished(state_before, finished@.subrange(0, j as int)),
                state@.wf(),
                state@.fetch.len() == state_before.fetch.len(),
            decreases finished@.len() - j,
        {
            let f = finished[j];
            proof {
                let done = finished@.subrange(0, j as int);
                let next = finished@.subrange(0, j + 1);
                assert(next.drop_last() =~= done);
                assert(next.last() == finished@[j as int]);
                assert(p.finished_ok(j as int));
            }
            let ghost now = self@;
            self.header_updates.remove(&f.stripe_id);
            state.set_stripe_header(f.stripe_id, f.header);
            if f.token != 0 {
                self.persist_outcomes.push(
                    PersistOutcome {
                        stripe_id: f.stripe_id,
                        token: f.token,
                        result: PersistResult::Durable,
                    },
                );
            }
            assert(self@ =~= FlusherModel { updates: now.updates.remove(f.stripe_id), ..now }.reported(
                f.stripe_id,
                f.token,
                PersistResult::Durable,
            ));
            j = j + 1;
        }
        assert(finished@.subrange(0, j as int) =~= finished@);
        proof {
            lemma_poll_done_wf(p);
        }
        flushing
    }

    /// Take the next request off the queue and those that go to disk with it.
    fn take_batch(&mut self) -> (along: Vec<MetadataFlusherRequest>)
        requires
            old(self)@.queue.len() > 0,
        ensures
            along@ == riding(old(self)@.queue, old(self)@.queue.len()),
            final(self)@ == (FlusherModel {
                queue: staying(old(self)@.queue, old(self)@.queue.len()),
                ..old(self)@
            }),
            final(self).metadata == old(self).metadata,
    {
        let ghost queue = self@.queue;
        let first = self.queued_requests[0];
        if first.token == 0 {
            let _ = self.queued_requests.pop_front();
            proof {
                lemma_rides_alone(queue, queue.len());
                assert(self.queued_requests@ =~= queue.subrange(1, queue.len() as int));
            }
            assert(self@ =~= FlusherModel { queue: staying(queue, queue.len()), ..old(self)@ });
            return Vec::new();
        }
        let sector = UbiMetadata::stripe_id_to_sector(first.stripe_id);
        let mut along: Vec<MetadataFlusherRequest> = Vec::new();
        let mut rest: VecDeque<MetadataFlusherRequest> = VecDeque::new();
        let mut earlier: HashSet<usize> = HashSet::new();
        earlier.insert(first.stripe_id);
        let mut k: usize = 1;
        while k < self.queued_requests.len()
            invariant
                1 <= k <= queue.len(),
                *self == *old(self),
                queue == self.queued_requests@,
                first == queue[0],
                first.token != 0,
                sector == sector_of(first.stripe_id as int),
                along@ == riding(queue, k as nat),
                rest@ == staying(queue, k as nat),
                forall|id: usize| #[trigger]
                    earlier@.contains(id) ==> exists|j: int|
                        0 <= j < k && (#[trigger] queue[j]).stripe_id == id,
                forall|j: int| 0 <= j < k ==> earlier@.contains((#[trigger] queue[j]).stripe_id),
            decreases queue.len() - k,
        {
            let ghost seen = earlier@;
            let r = self.queued_requests[k];
            let goes = r.token != 0 && UbiMetadata::stripe_id_to_sector(r.stripe_id) == sector
                && !earlier.contains(&r.stripe_id);
            assert(goes == rides(queue, k as int)) by {
                if r.token != 0 && sector_of(r.stripe_id as int) == sector && seen.contains(
                    r.stripe_id,
                ) {
                    let j = choose|j: int|
                        0 <= j < k && (#[trigger] queue[j]).stripe_id == r.stripe_id;
                    assert(queue[j].stripe_id == queue[k as int].stripe_id);
                }
            }
            if goes {
                along.push(r);
            } else {
                rest.push_back(r);
            }
            earlier.insert(r.stripe_id);
            k = k + 1;
            assert forall|id: usize| #[trigger] earlier@.contains(id) implies exists|j: int|
                0 <= j < k && (#[trigger] queue[j]).stripe_id == id by {
                if seen.contains(id) {
                    let j = choose|j: int| 0 <= j < k - 1 && (#[trigger] queue[j]).stripe_id == id;
                    assert(queue[j].stripe_id == id);
                } else {
                    assert(queue[k - 1].stripe_id == id);
                }
            }
        }
        self.queued_requests = rest;
        assert(self@ =~= FlusherModel { queue: staying(queue, queue.len()), ..old(self)@ });
        along
    }

    /// The bytes that `along` ask for change, to go to disk with the update of
    /// their sector that was just started.
    fn carry(&mut self, along: &Vec<MetadataFlusherRequest>)
        requires
            forall|k: int|
                0 <= k < along@.len() ==> (#[trigger] along@[k]).stripe_id
                    < old(self)@.headers.len(),
        ensures
            final(self)@ == old(self)@.carrying(along@),
    {
        let ghost before = self@;
        let mut k: usize = 0;
        assert(along@.take(0) =~= Seq::empty());
        while k < along.len()
            invariant
                k <= along@.len(),
                self@.headers.len() == before.headers.len(),
                self@ == before.carrying(along@.take(k as int)),
                forall|k: int|
                    0 <= k < along@.len() ==> (#[trigger] along@[k]).stripe_id
                        < before.headers.len(),
            decreases along@.len() - k,
        {
            let r = along[k];
            proof {
                assert(along@.take(k + 1).drop_last() =~= along@.take(k as int));
                assert(along@.take(k + 1).last() == r);
            }
            let previous: u8 = self.metadata.stripe_headers[r.stripe_id];
            let next: u8 = (previous | r.set) & !r.clear;
            self.metadata.stripe_headers.set(r.stripe_id, next);
            self.riding_updates.push(
                RidingUpdate {
                    stripe_id: r.stripe_id,
                    header: next,
                    previous,
                    token: r.token,
                    sector: UbiMetadata::stripe_id_to_sector(r.stripe_id),
                },
            );
            k = k + 1;
            assert(self@ =~= before.carrying(along@.take(k as int)));
        }
        assert(along@.take(k as int) =~= along@);
    }

    /// Take requests off the queue until none can start. Gives back the
    /// sectors to write.
    pub fn take_writes(&mut self) -> (writes: Vec<SectorWrite>)
        requires
            old(self)@.wf(),
        ensures
            final(self)@ == old(self)@.after_start_writes(),
            write_models(writes@) == old(self)@.writes_started(),
            final(self)@.wf(),
            final(self)@.headers.len() == old(self)@.headers.len(),
            forall|k: int|
                0 <= k < writes@.len() ==> final(self)@.updates.dom().contains(
                    (#[trigger] writes@[k]).stripe_id,
                ) && final(self)@.updates[writes@[k].stripe_id].stage == RequestStage::Writing,
    {
        let ghost before = self@;
        let mut writes: Vec<SectorWrite> = Vec::new();
        assert(write_models(writes@) + self@.writes_started() =~= before.writes_started());
        while self.queued_requests.len() > 0 && self.free_buffers > 0
            invariant_except_break
                self@.wf(),
                self@.headers.len() == before.headers.len(),
                self@.after_start_writes() == before.after_start_writes(),
                write_models(writes@) + self@.writes_started() == before.writes_started(),
                forall|k: int|
                    0 <= k < writes@.len() ==> self@.updates.dom().contains(
                        (#[trigger] writes@[k]).stripe_id,
                    ) && self@.updates[writes@[k].stripe_id].stage == RequestStage::Writing,
            ensures
                self@.wf(),
                self@.headers.len() == before.headers.len(),
                self@ == before.after_start_writes(),
                write_models(writes@) == before.writes_started(),
                forall|k: int|
                    0 <= k < writes@.len() ==> self@.updates.dom().contains(
                        (#[trigger] writes@[k]).stripe_id,
                    ) && self@.updates[writes@[k].stripe_id].stage == RequestStage::Writing,
            decreases self@.queue.len(),
        {
            let ghost now = self@;
            let req = self.queued_requests[0];
            let group = UbiMetadata::stripe_id_to_group(req.stripe_id);
            let sector = UbiMetadata::stripe_id_to_sector(req.stripe_id);
            assert(req == now.queue[0]);
            if self.sectors_being_updated.contains(&sector) {
                // Updates to each sector are serialized.
                assert(!now.can_start());
                assert(write_models(writes@) =~= before.writes_started());
                break;
            }
            assert(now.can_start());
            proof {
                lemma_start_one_wf(now);
            }
            let along = self.take_batch();
            let previous: u8 = self.metadata.stripe_headers[req.stripe_id];
            let next: u8 = (previous | req.set) & !req.clear;
            if req.token == 0 && next == previous {
                // Already as requested. A tokened update is written
                // regardless: its caller wants the byte on disk.
                assert(self@ =~= now.after_start_one());
                proof {
                    lemma_start_one(now);
                }
                continue ;
            }
            self.free_buffers = self.free_buffers - 1;
            self.metadata.stripe_headers.set(req.stripe_id, next);
            self.sectors_being_updated.insert(sector);
            self.header_updates.insert(
                req.stripe_id,
                HeaderUpdateStatus {
                    stage: RequestStage::Writing,
                    stripe_id: req.stripe_id,
                    header: next,
                    previous,
                    token: req.token,
                    sector,
                },
            );
            proof {
                assert(self@ =~= now.led());
                lemma_staying(now.queue, now.queue.len());
                assert forall|k: int| 0 <= k < along@.len() implies (
                #[trigger] along@[k]).stripe_id < now.headers.len() by {
                    assert(is_rider(now.queue, now.queue.len(), along@[k]));
                    let j = choose|j: int|
                        0 < j < now.queue.len() && #[trigger] rides(now.queue, j) && now.queue[j]
                            == along@[k];
                    assert(now.queue[j].stripe_id < now.headers.len());
                }
            }
            self.carry(&along);
            assert(self@ == now.after_start_one());
            proof {
                lemma_start_one(now);
            }
            let count: usize = self.metadata.stripe_headers.len();
            let start: usize = group * STRIPE_HEADERS_PER_SECTOR;
            let end: usize = if count - start > STRIPE_HEADERS_PER_SECTOR {
                start + STRIPE_HEADERS_PER_SECTOR
            } else {
                count
            };
            let headers = slice_subrange(self.metadata.stripe_headers.as_slice(), start, end);
            assert(headers@ =~= group_headers(self@.headers, group as int));
            let data = write_sector_with_crc32(headers);
            let ghost written = writes@;
            writes.push(SectorWrite { sector, data, stripe_id: req.stripe_id });
            proof {
                assert(writes@.last()@ =~= now.write_started());
                assert(write_models(writes@) =~= write_models(written).push(now.write_started()));
                assert(write_models(writes@) + self@.writes_started() =~= write_models(written)
                    + now.writes_started());
                assert forall|k: int| 0 <= k < writes@.len() implies self@.updates.dom().contains(
                    (#[trigger] writes@[k]).stripe_id,
                ) && self@.updates[writes@[k].stripe_id].stage == RequestStage::Writing by {
                    if k < written.len() {
                        assert(writes@[k] == written[k]);
                        assert(now.updates.dom().contains(written[k].stripe_id));
                    }
                }
            }
        }
        writes
    }

    /// Poll the metadata device, work through what finished, and flush what
    /// was written.
    pub fn poll_channel<C: IoChannel<Vec<u8>>>(
        &mut self,
        channel: &mut C,
        state: &mut SharedMetadataState,
    )
        requires
            old(self)@.wf(),
            old(state)@.wf(),
            old(state)@.fetch.len() == old(self)@.headers.len(),
        ensures
            exists|completions: Seq<(usize, bool)>, flushed: Result<(), IoError>|
                {
                    &&& calls_bytes(final(channel).calls()) == calls_bytes(old(channel).calls())
                        + #[trigger] poll_calls(old(self)@, completions, flushed)
                    &&& final(self)@ == poll_outcome(old(self)@, completions, flushed is Ok)
                    &&& final(state)@ == state_after_finished(
                        old(state)@,
                        polled(old(self)@, completions).finished,
                    )
                },
            final(self)@.wf(),
            final(self)@.headers.len() == old(self)@.headers.len(),
            final(state)@.wf(),
            final(state)@.fetch.len() == old(state)@.fetch.len(),
    {
        let ghost before = self@;
        let ghost asked = calls_bytes(channel.calls());
        let completions = channel.poll();
        let ghost taken = asked.push(IoCall::Poll { done: completions@ });
        let flushing = self.complete(&completions, state);
        if flushing.len() == 0 {
            assert(calls_bytes(channel.calls()) =~= asked + poll_calls(
                before,
                completions@,
                Ok(()),
            ));
            return;
        }
        let mut k: usize = 0;
        assert(taken + flush_calls(flushing@.take(0)) =~= taken);
        while k < flushing.len()
            invariant
                k <= flushing@.len(),
                calls_bytes(channel.calls()) == taken + flush_calls(flushing@.take(k as int)),
            decreases flushing@.len() - k,
        {
            channel.add_flush(flushing[k]);
            k = k + 1;
            assert(flush_calls(flushing@.take(k as int)) =~= flush_calls(
                flushing@.take(k - 1),
            ).push(IoCall::Flush { id: flushing@[k - 1] }));
            assert(calls_bytes(channel.calls()) =~= taken + flush_calls(
                flushing@.take(k as int),
            ));
        }
        assert(flushing@.take(k as int) =~= flushing@);
        let flushed = channel.submit();
        assert(calls_bytes(channel.calls()) =~= asked + poll_calls(before, completions@, flushed));
        if flushed.is_err() {
            // The device never received the flushes: their updates fail,
            // rather than block their sectors for good.
            self.cleanup_failed_submission(&flushing, false);
        }
    }

    /// Start the requests that can start.
    pub fn start_writes<C: IoChannel<Vec<u8>>>(&mut self, channel: &mut C)
        requires
            old(self)@.wf(),
        ensures
            exists|started: Result<(), IoError>|
                {
                    &&& calls_bytes(final(channel).calls()) == calls_bytes(old(channel).calls())
                        + #[trigger] start_calls(old(self)@, started)
                    &&& final(self)@ == start_outcome(old(self)@, started is Ok)
                },
            final(self)@.wf(),
            final(self)@.headers.len() == old(self)@.headers.len(),
    {
        let ghost before = self@;
        let ghost asked = calls_bytes(channel.calls());
        let writes = self.take_writes();
        if writes.len() == 0 {
            assert(asked + start_calls(before, Ok(())) =~= asked);
            return;
        }
        let ghost started = writes@;
        let ghost models = write_models(started);
        let mut ids: Vec<usize> = Vec::new();
        let mut writes = writes;
        let mut k: usize = 0;
        assert(ids@ =~= write_ids(models).subrange(0, 0));
        assert(asked + write_calls(models.take(0)) =~= asked);
        while writes.len() > 0
            invariant
                writes@ == started.subrange(k as int, started.len() as int),
                k <= started.len(),
                started.len() <= usize::MAX,
                models == write_models(started),
                ids@ == write_ids(models).subrange(0, k as int),
                calls_bytes(channel.calls()) == asked + write_calls(models.take(k as int)),
            decreases writes@.len(),
        {
            let write = writes.remove(0);
            assert(write == started[k as int]);
            ids.push(write.stripe_id);
            channel.add_write(write.sector, 1, write.data, write.stripe_id);
            k = k + 1;
            assert(writes@ =~= started.subrange(k as int, started.len() as int));
            assert(ids@ =~= write_ids(models).subrange(0, k as int));
            assert(write_calls(models.take(k as int)) =~= write_calls(models.take(k - 1)).push(
                IoCall::Write {
                    sector_offset: write.sector,
                    sector_count: 1,
                    buf: write.data@,
                    id: write.stripe_id,
                },
            ));
            assert(calls_bytes(channel.calls()) =~= asked + write_calls(models.take(k as int)));
        }
        assert(ids@ =~= write_ids(models));
        assert(models.take(k as int) =~= models);
        let handed = channel.submit();
        assert(calls_bytes(channel.calls()) =~= asked + start_calls(before, handed));
        if handed.is_err() {
            // The device never received the writes, so no completion will
            // arrive: revert what was just started.
            assert forall|k: int|
                0 <= k < ids@.len() && self@.updates.dom().contains(
                    #[trigger] ids@[k],
                ) implies self@.updates[ids@[k]].stage == RequestStage::Writing by {
                assert(ids@[k] == started[k].stripe_id);
            }
            self.cleanup_failed_submission(&ids, true);
        }
    }

    /// One tick: start what can start, then work through what finished.
    pub fn update<C: IoChannel<Vec<u8>>>(
        &mut self,
        channel: &mut C,
        state: &mut SharedMetadataState,
    )
        requires
            old(self)@.wf(),
            old(state)@.wf(),
            old(state)@.fetch.len() == old(self)@.headers.len(),
        ensures
            exists|
                started: Result<(), IoError>,
                completions: Seq<(usize, bool)>,
                flushed: Result<(), IoError>,
            |
                {
                    let m = start_outcome(old(self)@, started is Ok);
                    &&& calls_bytes(final(channel).calls()) == calls_bytes(old(channel).calls())
                        + #[trigger] update_calls(old(self)@, started, completions, flushed)
                    &&& final(self)@ == poll_outcome(m, completions, flushed is Ok)
                    &&& final(state)@ == state_after_finished(
                        old(state)@,
                        polled(m, completions).finished,
                    )
                },
            final(self)@.wf(),
            final(self)@.headers.len() == old(self)@.headers.len(),
            final(state)@.wf(),
            final(state)@.fetch.len() == old(state)@.fetch.len(),
    {
        let ghost before = self@;
        let ghost state_before = state@;
        let ghost asked = calls_bytes(channel.calls());
        self.start_writes(channel);
        let ghost middle = self@;
        let ghost between = calls_bytes(channel.calls());
        self.poll_channel(channel, state);
        proof {
            let started = choose|started: Result<(), IoError>|
                between == asked + #[trigger] start_calls(before, started) && middle
                    == start_outcome(before, started is Ok);
            let (completions, flushed) = choose|
                completions: Seq<(usize, bool)>,
                flushed: Result<(), IoError>,
            |
                {
                    &&& calls_bytes(channel.calls()) == between + #[trigger] poll_calls(
                        middle,
                        completions,
                        flushed,
                    )
                    &&& self@ == poll_outcome(middle, completions, flushed is Ok)
                    &&& state@ == state_after_finished(
                        state_before,
                        polled(middle, completions).finished,
                    )
                };
            assert(calls_bytes(channel.calls()) =~= asked + update_calls(
                before,
                started,
                completions,
                flushed,
            ));
        }
    }
}

/// Updates that went along with one that is on disk are on disk.
fn finish_riders(along: &Vec<RidingUpdate>, finished: &mut Vec<FinishedUpdate>)
    ensures
        final(finished)@ == old(finished)@ + landed(along@),
{
    let mut k: usize = 0;
    assert(old(finished)@ + landed(along@).take(0) =~= old(finished)@);
    while k < along.len()
        invariant
            k <= along@.len(),
            finished@ == old(finished)@ + landed(along@).take(k as int),
        decreases along@.len() - k,
    {
        let r = along[k];
        finished.push(
            FinishedUpdate { stripe_id: r.stripe_id, header: r.header, token: r.token },
        );
        k = k + 1;
        assert(landed(along@).take(k as int) =~= landed(along@).take(k - 1).push(
            landed(along@)[k - 1],
        ));
        assert(finished@ =~= old(finished)@ + landed(along@).take(k as int));
    }
    assert(landed(along@).take(k as int) =~= landed(along@));
}

/// Sectors to be written, as the metadata device is asked for them.
pub open spec fn write_calls(writes: Seq<WriteModel>) -> Seq<IoCall<Seq<u8>>> {
    Seq::new(
        writes.len(),
        |i: int|
            IoCall::Write {
                sector_offset: writes[i].sector,
                sector_count: 1,
                buf: writes[i].data,
                id: writes[i].stripe_id,
            },
    )
}

/// Flushes, as the metadata device is asked for them.
pub open spec fn flush_calls(ids: Seq<usize>) -> Seq<IoCall<Seq<u8>>> {
    Seq::new(ids.len(), |i: int| IoCall::Flush { id: ids[i] })
}

/// What the metadata device is asked when requests start: to write their
/// sectors, in one hand-over.
pub open spec fn start_calls(m: FlusherModel, started: Result<(), IoError>) -> Seq<
    IoCall<Seq<u8>>,
> {
    if m.writes_started().len() == 0 {
        Seq::empty()
    } else {
        write_calls(m.writes_started()).push(IoCall::Submit { result: started })
    }
}

/// What the metadata device is asked in a poll that finds `completions`: to
/// flush the writes among them, in one hand-over.
pub open spec fn poll_calls(
    m: FlusherModel,
    completions: Seq<(usize, bool)>,
    flushed: Result<(), IoError>,
) -> Seq<IoCall<Seq<u8>>> {
    let flushing = polled(m, completions).flushing;
    seq![IoCall::<Seq<u8>>::Poll { done: completions }] + if flushing.len() == 0 {
        Seq::empty()
    } else {
        flush_calls(flushing).push(IoCall::Submit { result: flushed })
    }
}

/// What the metadata device is asked in a tick.
pub open spec fn update_calls(
    m: FlusherModel,
    started: Result<(), IoError>,
    completions: Seq<(usize, bool)>,
    flushed: Result<(), IoError>,
) -> Seq<IoCall<Seq<u8>>> {
    start_calls(m, started) + poll_calls(
        start_outcome(m, started is Ok),
        completions,
        flushed,
    )
}

/// The flusher after a poll that found `completions`, if handing over the
/// flushes succeeded or not.
pub open spec fn poll_outcome(
    m: FlusherModel,
    completions: Seq<(usize, bool)>,
    submitted: bool,
) -> FlusherModel {
    let p = polled(m, completions);
    let done = after_finished(p.m, p.finished);
    if submitted || p.flushing.len() == 0 {
        done
    } else {
        done.after_cleanup(p.flushing, false)
    }
}

/// The flusher after starting what can start, if handing over the writes
/// succeeded or not.
pub open spec fn start_outcome(m: FlusherModel, submitted: bool) -> FlusherModel {
    if submitted || m.writes_started().len() == 0 {
        m.after_start_writes()
    } else {
        m.after_start_writes().after_cleanup(write_ids(m.writes_started()), true)
    }
}

/// The stripes on whose behalf sectors are written.
pub open spec fn write_ids(writes: Seq<WriteModel>) -> Seq<usize> {
    Seq::new(writes.len(), |i: int| writes[i].stripe_id)
}

/// Sector writes as mathematical values.
pub open spec fn write_models(writes: Seq<SectorWrite>) -> Seq<WriteModel> {
    Seq::new(writes.len(), |i: int| writes[i]@)
}

/// How many stripes of `stripe_sectors` sectors cover `sectors` sectors.
pub open spec fn stripes_covering(sectors: u64, stripe_sectors: u64) -> int {
    if sectors % stripe_sectors == 0 {
        (sectors / stripe_sectors) as int
    } else {
        sectors / stripe_sectors + 1
    }
}

/// Division, rounded up.
pub fn div_ceil(a: u64, b: u64) -> (r: u64)
    requires
        b > 0,
    ensures
        r == stripes_covering(a, b),
{
    let whole: u64 = a / b;
    if a % b == 0 {
        whole
    } else {
        assert(whole < u64::MAX) by (nonlinear_arith)
            requires
                whole == a / b,
                a % b != 0,
                b > 0,
                a <= u64::MAX,
        ;
        whole + 1
    }
}

impl FlusherModel {
    /// A flusher with nothing to do.
    pub open spec fn idle(metadata: UbiMetadata) -> FlusherModel {
        FlusherModel {
            format: metadata.format(),
            headers: metadata.stripe_headers@,
            sectors: Set::empty(),
            updates: Map::empty(),
            riders: Seq::empty(),
            queue: Seq::empty(),
            outcomes: Seq::empty(),
            free: MAX_CONCURRENT_CHANGES as nat,
        }
    }

    /// One more request waits.
    pub open spec fn queued(
        self,
        stripe_id: usize,
        set: u8,
        clear: u8,
        token: u64,
    ) -> FlusherModel {
        FlusherModel {
            queue: self.queue.push(MetadataFlusherRequest { stripe_id, set, clear, token }),
            ..self
        }
    }

    /// An update is in flight or waits.
    pub open spec fn is_busy(self) -> bool {
        self.sectors.len() > 0 || self.queue.len() > 0
    }
}

/// Changing only the queue and the outcomes keeps a flusher well-formed.
proof fn lemma_same_updates_wf(a: MetadataFlusher, b: MetadataFlusher)
    requires
        a@.wf(),
        b@.headers == a@.headers,
        b@.sectors == a@.sectors,
        b@.updates == a@.updates,
        b@.riders == a@.riders,
        b@.free == a@.free,
        forall|i: int|
            0 <= i < b@.queue.len() ==> (#[trigger] b@.queue[i]).stripe_id < b@.headers.len(),
    ensures
        b@.wf(),
{
    assert forall|id: usize| #[trigger] b@.updates.dom().contains(id) implies b@.update_ok(id)
        && b@.sectors.contains(b@.updates[id].sector) by {
        assert(a@.update_ok(id));
    }
    assert forall|k: int| 0 <= k < b@.riders.len() implies #[trigger] b@.rider_ok(k) by {
        assert(a@.rider_ok(k));
    }
}

/// Updates that were not submitted leave the flusher well-formed, if exactly
/// those that hold a buffer give it back.
pub proof fn lemma_cleanup_wf(m: FlusherModel, ids: Seq<usize>, return_buffer: bool)
    requires
        m.wf(),
        forall|k: int|
            0 <= k < ids.len() && m.updates.dom().contains(#[trigger] ids[k]) ==> (
            m.updates[ids[k]].stage == RequestStage::Writing) == return_buffer,
    ensures
        m.after_cleanup(ids, return_buffer).wf(),
        m.after_cleanup(ids, return_buffer).headers.len() == m.headers.len(),
        forall|id: usize| #[trigger]
            m.after_cleanup(ids, return_buffer).updates.dom().contains(id)
                ==> m.updates.dom().contains(id) && m.after_cleanup(
                ids,
                return_buffer,
            ).updates[id] == m.updates[id],
    decreases ids.len(),
{
    if ids.len() > 0 {
        let front = ids.drop_last();
        assert forall|k: int|
            0 <= k < front.len() && m.updates.dom().contains(#[trigger] front[k]) implies (
        m.updates[front[k]].stage == RequestStage::Writing) == return_buffer by {
            assert(front[k] == ids[k]);
        }
        lemma_cleanup_wf(m, front, return_buffer);
        let n = m.after_cleanup(front, return_buffer);
        let id = ids.last();
        assert(id == ids[ids.len() - 1]);
        if n.updates.dom().contains(id) {
            assert(n.update_ok(id));
            lemma_failure_wf(n, id);
            lemma_failure(n, id);
        }
    }
}

/// What started is being written.
pub proof fn lemma_started(m: FlusherModel)
    requires
        m.wf(),
    ensures
        m.after_start_writes().wf(),
        m.after_start_writes().headers.len() == m.headers.len(),
        forall|id: usize|
            m.updates.dom().contains(id) ==> #[trigger] m.after_start_writes().updates.dom().contains(
            id) && m.after_start_writes().updates[id] == m.updates[id],
        forall|k: int|
            0 <= k < m.writes_started().len() ==> {
                let id = (#[trigger] m.writes_started()[k]).stripe_id;
                &&& m.after_start_writes().updates.dom().contains(id)
                &&& m.after_start_writes().updates[id].stage == RequestStage::Writing
            },
    decreases m.queue.len(),
{
    if m.can_start() {
        lemma_start_one_wf(m);
        lemma_start_one(m);
        let n = m.after_start_one();
        lemma_started(n);
        let last = n.after_start_writes();
        assert(m.after_start_writes() == last);
        assert forall|id: usize| m.updates.dom().contains(id) implies #[trigger]
            last.updates.dom().contains(id) && last.updates[id] == m.updates[id] by {
            assert(n.updates.dom().contains(id) && n.updates[id] == m.updates[id]);
            assert(last.updates.dom().contains(id));
        }
        assert forall|k: int| 0 <= k < m.writes_started().len() implies {
            let id = (#[trigger] m.writes_started()[k]).stripe_id;
            &&& last.updates.dom().contains(id)
            &&& last.updates[id].stage == RequestStage::Writing
        } by {
            if m.starts_write() {
                let id = m.queue[0].stripe_id;
                if k == 0 {
                    assert(m.writes_started()[k].stripe_id == id);
                    assert(n.updates.dom().contains(id));
                    assert(last.updates.dom().contains(id));
                } else {
                    assert(m.writes_started()[k] == n.writes_started()[k - 1]);
                }
            }
        }
    }
}

/// Starting requests keeps the flusher well-formed, whether or not the device
/// takes their writes.
pub proof fn lemma_start_outcome_wf(m: FlusherModel, submitted: bool)
    requires
        m.wf(),
    ensures
        start_outcome(m, submitted).wf(),
        start_outcome(m, submitted).headers.len() == m.headers.len(),
{
    lemma_started(m);
    let ids = write_ids(m.writes_started());
    assert forall|k: int|
        0 <= k < ids.len() && m.after_start_writes().updates.dom().contains(
            #[trigger] ids[k],
        ) implies m.after_start_writes().updates[ids[k]].stage == RequestStage::Writing by {
        assert(ids[k] == m.writes_started()[k].stripe_id);
    }
    lemma_cleanup_wf(m.after_start_writes(), ids, true);
}

/// Working through completions keeps the work well-formed.
pub proof fn lemma_steps_wf(p: PollModel, completions: Seq<(usize, bool)>)
    requires
        p.wf(),
    ensures
        p.steps(completions).wf(),
        p.steps(completions).m.headers.len() == p.m.headers.len(),
    decreases completions.len(),
{
    if completions.len() > 0 {
        lemma_steps_wf(p, completions.drop_last());
        lemma_poll_step_wf(
            p.steps(completions.drop_last()),
            completions.last().0,
            completions.last().1,
        );
    }
}

/// Polling the device keeps the flusher well-formed, whether or not it takes
/// the flushes.
pub proof fn lemma_poll_outcome_wf(
    m: FlusherModel,
    completions: Seq<(usize, bool)>,
    submitted: bool,
)
    requires
        m.wf(),
    ensures
        poll_outcome(m, completions, submitted).wf(),
        poll_outcome(m, completions, submitted).headers.len() == m.headers.len(),
{
    let start = PollModel { m, finished: Seq::empty(), flushing: Seq::empty() };
    lemma_steps_wf(start, completions);
    let p = polled(m, completions);
    lemma_poll_done_wf(p);
    lemma_cleanup_wf(after_finished(p.m, p.finished), p.flushing, false);
}

/// No more buffers are free than there are.
proof fn lemma_free_bound(m: FlusherModel)
    requires
        m.wf(),
    ensures
        m.free <= MAX_CONCURRENT_CHANGES,
{
}

/// No more buffers are free than there are.
proof fn lemma_free_bound_in_poll(p: PollModel)
    requires
        p.wf(),
    ensures
        p.m.free <= MAX_CONCURRENT_CHANGES,
{
}

} // verus!
