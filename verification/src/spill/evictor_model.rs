//! Evictions as mathematical values: what the evictor knows, and how each
//! event moves it and the shared state.

use vstd::prelude::*;
use crate::counting::{add_wrapping, inc};
use crate::io::{Answer, IoCall, IoError, PunchCall, StoreCall};
use crate::metadata::metadata_flags;
use crate::metadata::shared_state::{
    Evicted, GATE_FAIL, GATE_HOLD, GATE_OPEN, SpillCounters, StateModel, Written,
};
use crate::metadata::stripe_flags;
use crate::metadata::types::header_evicted;
use crate::metadata_flusher::{FlusherModel, PersistOutcome, PersistResult, UPDATABLE_MASK};
use crate::push_gate::PushPermit;
use crate::metadata::save::zeros;
use crate::spill::codec::{named_stripe, object_name, SpillCodec};
use crate::SECTOR_SIZE;

verus! {

/// How long a claimed stripe may wait for its in-flight guest I/O. A request
/// pinned this long has lost its completion.
pub const DRAIN_TIMEOUT: u64 = 5_000_000_000;

/// How long the hand skips a stripe after an aborted eviction: the guest just
/// asked for it.
pub const ABORT_SKIP: u64 = 1_000_000_000;

/// How often the filesystem is asked how much room it has left.
pub const STATFS_INTERVAL: u64 = 250_000_000;

/// Pause before an uncertain header op is issued again.
pub const HEADER_RETRY: u64 = 1_000_000_000;

/// First pause after an upload failure.
pub const BACKOFF_MIN: u64 = 1_000_000_000;

/// Longest pause after an upload failure.
pub const BACKOFF_MAX: u64 = 60_000_000_000;

/// The operation is not supported on this filesystem.
pub const EOPNOTSUPP: i32 = 95;

/// What a guest write meets when space runs out.
#[derive(Debug, Clone, Copy, PartialEq, Eq, Structural)]
pub enum OnFull {
    /// It waits.
    Stall,
    /// It fails.
    Fail,
}

/// What the coordinator does with a guest's fetch of a stripe.
#[derive(Debug, Clone, Copy, PartialEq, Eq, Structural)]
pub enum FetchDisposition {
    /// Not the evictor's business: route to the ingest.
    Forward,
    /// The stripe was being evicted in an abortable stage and is resident
    /// again. Nothing to route.
    Aborted,
    /// The stripe's eviction is committed; the fetch is replayed once it is
    /// Evicted.
    Deferred,
    /// Space is exhausted and writes stall; replayed when the write gate opens.
    HeldForSpace,
    /// Space is exhausted and writes fail. Nothing to route now, but the
    /// fetch is kept like a held one and replayed when the write gate opens.
    Refused,
}

/// What the coordinator does with a pushed stripe. That it was pushed is
/// already recorded.
#[derive(Debug, Clone, Copy, PartialEq, Eq, Structural)]
pub enum PushDisposition {
    /// Route to the ingest.
    Forward,
    /// Local or spilled content is newer or equal; drop the push.
    Ignore,
    /// The stripe was being evicted clean and abortable: eviction aborted,
    /// local copy kept, push dropped.
    AbortedEviction,
    /// The stripe is being evicted clean and committed: the push is kept and
    /// applied once the stripe is Evicted.
    Deferred,
}

/// The evictor's limits. Byte fields are in bytes.
#[derive(Debug, Clone)]
pub struct EvictorConfig {
    /// The file whose blocks are punched.
    pub data_path: String,
    /// Prefix of every object this device writes.
    pub device_id: String,
    /// Sectors per stripe.
    pub stripe_sector_count: u64,
    /// Sectors on the device, so the last stripe's punch can be shortened.
    pub target_sector_count: u64,
    /// Ceiling on resident bytes.
    pub max_local_bytes: u64,
    /// Evict this far below the ceiling once over it.
    pub low_water_bytes: u64,
    /// Gate guest writes this far above the ceiling.
    pub hard_margin_bytes: u64,
    /// Free space to keep; writes are gated below half of it.
    pub min_free_bytes: u64,
    /// Drop clean stripes the live snapshot can serve again.
    pub clean_eviction: bool,
    /// What a guest write meets when space runs out.
    pub on_full: OnFull,
    /// Evictions, and so uploads, in flight at once.
    pub max_concurrent_evictions: usize,
    /// Stripes the hand examines per tick.
    pub sweep_batch: usize,
    /// Buffer alignment for the reads that feed an upload.
    pub alignment: usize,
}

/// Where an eviction is. Abortable up to and including `Putting`; once the
/// header op is with the flusher only its outcome ends the eviction.
#[derive(Debug, Clone, Copy, PartialEq, Eq, Structural)]
pub enum Stage {
    /// Claimed; waiting for the stripe's requests in flight to finish.
    Draining,
    /// The stripe's data is being read from the local device.
    Reading,
    /// The object is with the store.
    Putting,
    /// The header op carrying this token is with the flusher.
    WritingHeader { token: u64 },
}

/// Whether the stripe is dropped or uploaded first.
#[derive(Debug, Clone, Copy, PartialEq, Eq, Structural)]
pub enum Kind {
    /// Dropped: the live snapshot can serve it again.
    Clean,
    /// Uploaded first.
    Dirty,
}

/// A push held back during an eviction.
#[derive(Debug)]
pub struct HeldPush {
    /// The stripe's bytes.
    pub data: Vec<u8>,
    /// The subscriber's slot.
    pub permit: PushPermit,
}

/// One eviction.
#[derive(Debug)]
pub struct Eviction {
    /// The stripe.
    pub stripe_id: usize,
    /// The state it was claimed from.
    pub previous: u8,
    /// Dropped or uploaded.
    pub kind: Kind,
    /// How far it has got.
    pub stage: Stage,
    /// Distinguishes this attempt's header outcome from an earlier attempt's
    /// on the same stripe.
    pub epoch: u64,
    /// A buffer is held from the read until the object is encoded.
    pub holds_buffer: bool,
    /// Bytes of the object.
    pub object_len: u64,
    /// When it was claimed.
    pub started: u64,
    /// Set on the first uncertain header outcome: from here only a durable
    /// header ends the eviction.
    pub committed: bool,
    /// When to issue the header op again.
    pub retry_at: Option<u64>,
    /// A fetch waits for the eviction to end.
    pub deferred_fetch: bool,
    /// A push waits for the eviction to end.
    pub deferred_push: Option<HeldPush>,
    /// A read or upload has been started and its completion not yet seen.
    pub io_outstanding: bool,
    /// The read's submit failed; its completion is still owed, and the
    /// channel is asked to submit again each tick until one succeeds.
    pub resubmit_read: bool,
    /// The stripe is resident again but a completion is still owed.
    pub aborted: bool,
}

/// A push held back during an eviction and released afterwards.
#[derive(Debug)]
pub struct ReleasedPush {
    /// The stripe.
    pub stripe_id: usize,
    /// Its bytes.
    pub data: Vec<u8>,
    /// The subscriber's slot.
    pub permit: PushPermit,
}

/// What the evictor knows.
#[verifier::ext_equal]
pub struct EvictorModel {
    /// Its limits.
    pub cfg: EvictorConfig,
    /// Turns stripes into objects.
    pub codec: SpillCodec,
    /// Whether there is a store; without one only clean stripes go.
    pub has_store: bool,
    /// Evictions in progress and aborted ones owed a completion.
    pub records: Seq<Eviction>,
    /// Claims so far.
    pub epoch: u64,
    /// Uploads in flight.
    pub puts: usize,
    /// The next stripe the sweep examines.
    pub hand: usize,
    /// Stripes the hand skips, and since when.
    pub recent: Map<usize, u64>,
    /// While the store is degraded, when one upload may probe it.
    pub degraded_until: Option<u64>,
    /// The next pause.
    pub backoff: u64,
    /// When the filesystem was last asked for its free space.
    pub last_statfs: Option<u64>,
    /// What it answered.
    pub free_bytes: Option<u64>,
    /// Over the ceiling once; keep going down to the low-water mark.
    pub to_low_water: bool,
    /// The last tick found the device under pressure.
    pub pressed: bool,
    /// Stripes examined since the hand last claimed one.
    pub idle_examined: usize,
    /// Fetches held for space.
    pub held: Seq<usize>,
    /// Fetches to be routed.
    pub released_fetches: Seq<usize>,
    /// Pushes to be routed.
    pub released_pushes: Seq<ReleasedPush>,
    /// Slots of pushes that were dropped.
    pub dropped: Seq<PushPermit>,
    /// Whether holes can be punched.
    pub punch_supported: bool,
    /// Read buffers not in use.
    pub free_buffers: nat,
}

/// Multiplication that stops at the largest number.
pub open spec fn sat_mul(a: u64, b: u64) -> u64 {
    if a * b > u64::MAX {
        u64::MAX
    } else {
        (a * b) as u64
    }
}

/// Addition that stops at the largest number.
pub open spec fn sat_add(a: u64, b: u64) -> u64 {
    if a + b > u64::MAX {
        u64::MAX
    } else {
        (a + b) as u64
    }
}

/// Subtraction that stops at zero.
pub open spec fn sat_sub(a: u64, b: u64) -> u64 {
    if a < b {
        0
    } else {
        (a - b) as u64
    }
}

/// How many records satisfy `p`.
pub open spec fn count_records(records: Seq<Eviction>, p: spec_fn(Eviction) -> bool) -> nat
    decreases records.len(),
{
    if records.len() == 0 {
        0
    } else {
        count_records(records.drop_last(), p) + (if p(records.last()) {
            1nat
        } else {
            0nat
        })
    }
}

/// Evictions that are not aborted.
pub open spec fn is_active() -> spec_fn(Eviction) -> bool {
    |r: Eviction| !r.aborted
}

/// Uploads that are not aborted.
pub open spec fn is_active_dirty() -> spec_fn(Eviction) -> bool {
    |r: Eviction| !r.aborted && r.kind == Kind::Dirty
}

/// Records that hold a read buffer.
pub open spec fn holds_buffer() -> spec_fn(Eviction) -> bool {
    |r: Eviction| r.holds_buffer
}

/// Records with an upload in flight.
pub open spec fn is_putting() -> spec_fn(Eviction) -> bool {
    |r: Eviction| r.stage == Stage::Putting && r.io_outstanding
}

/// Where the record of `id` is, searching from `from`; the number of records
/// if there is none.
pub open spec fn find_from(records: Seq<Eviction>, id: usize, from: int) -> int
    decreases records.len() - from,
{
    if from >= records.len() {
        records.len() as int
    } else if records[from].stripe_id == id {
        from
    } else {
        find_from(records, id, from + 1)
    }
}

/// Where the record of `id` is.
pub open spec fn find(records: Seq<Eviction>, id: usize) -> int {
    find_from(records, id, 0)
}

/// A stripe of the device starts here, in sectors.
pub open spec fn sector_offset(cfg: EvictorConfig, id: int) -> int {
    id * cfg.stripe_sector_count
}

/// Sectors of a stripe; the last may be short.
pub open spec fn sector_len(cfg: EvictorConfig, id: int) -> int {
    let offset = sector_offset(cfg, id);
    let rest = if cfg.target_sector_count < offset {
        0
    } else {
        cfg.target_sector_count - offset
    };
    if cfg.stripe_sector_count < rest {
        cfg.stripe_sector_count as int
    } else {
        rest
    }
}

/// Bytes of a whole stripe.
pub open spec fn stripe_size(cfg: EvictorConfig) -> int {
    cfg.stripe_sector_count * SECTOR_SIZE
}

/// The token of a claim's header op: odd, and different for every claim.
pub open spec fn token_of(epoch: u64) -> u64 {
    (epoch << 1) | 1
}

/// The bits a header op sets.
pub open spec fn header_set(kind: Kind) -> u8 {
    match kind {
        Kind::Clean => metadata_flags::EVICTED,
        Kind::Dirty => metadata_flags::EVICTED | metadata_flags::IN_S3,
    }
}

/// The bits a header op clears. A stripe dropped clean loses IN_S3 too: under
/// EVICTED a stale hint would read as authoritative.
pub open spec fn header_clear(kind: Kind) -> u8 {
    match kind {
        Kind::Clean => metadata_flags::FETCHED | metadata_flags::IN_S3,
        Kind::Dirty => metadata_flags::FETCHED,
    }
}

impl EvictorConfig {
    /// The evictor can run with these limits on a device of `n` stripes.
    pub open spec fn usable(self, n: nat) -> bool {
        &&& self.stripe_sector_count > 0
        &&& self.max_concurrent_evictions > 0
        &&& self.sweep_batch > 0
        &&& n * stripe_size(self) <= u64::MAX
        &&& stripe_size(self) <= usize::MAX
    }
}

impl EvictorModel {
    /// A record of `id` exists.
    pub open spec fn tracks(self, id: usize) -> bool {
        find(self.records, id) < self.records.len()
    }

    /// The record of `id`.
    pub open spec fn record(self, id: usize) -> Eviction {
        self.records[find(self.records, id)]
    }

    /// The record of `id` replaced.
    pub open spec fn with_record(self, id: usize, r: Eviction) -> EvictorModel {
        EvictorModel { records: self.records.update(find(self.records, id), r), ..self }
    }

    /// The record of `id` gone.
    pub open spec fn without_record(self, id: usize) -> EvictorModel {
        EvictorModel { records: self.records.remove(find(self.records, id)), ..self }
    }

    /// `id` is being evicted: a record of it exists and is not aborted.
    pub open spec fn evicting(self, id: usize) -> bool {
        self.tracks(id) && !self.record(id).aborted
    }

    /// What holds of a record on a device of `n` stripes.
    pub open spec fn record_ok(r: Eviction, n: nat) -> bool {
        &&& r.stripe_id < n
        &&& r.holds_buffer ==> r.stage == Stage::Reading && r.io_outstanding
        &&& r.retry_at is Some ==> r.stage is WritingHeader
    }

    /// No stripe has two records, records fit the limit, every buffer is free
    /// or held, and no more uploads are counted than are in flight.
    pub open spec fn records_ok(
        records: Seq<Eviction>,
        free_buffers: int,
        puts: int,
        limit: usize,
        n: nat,
    ) -> bool {
        &&& forall|i: int|
            0 <= i < records.len() ==> EvictorModel::record_ok(#[trigger] records[i], n)
        &&& forall|i: int, j: int|
            0 <= i < j < records.len() ==> (#[trigger] records[i]).stripe_id != (
            #[trigger] records[j]).stripe_id
        &&& records.len() <= limit
        &&& count_records(records, holds_buffer()) + free_buffers == limit
        &&& puts <= count_records(records, is_putting())
    }

    /// What holds of an evictor of a device of `n` stripes.
    pub open spec fn wf(self, n: nat) -> bool {
        &&& self.cfg.usable(n)
        &&& self.codec.wf()
        &&& forall|id: usize| id < n ==> #[trigger] self.codec.addresses(id)
        &&& EvictorModel::records_ok(
            self.records,
            self.free_buffers as int,
            self.puts as int,
            self.cfg.max_concurrent_evictions,
            n,
        )
        &&& n > 0 ==> self.hand < n
        &&& self.backoff <= BACKOFF_MAX
        &&& forall|i: int| 0 <= i < self.held.len() ==> (#[trigger] self.held[i]) < n
        &&& forall|i: int|
            0 <= i < self.released_fetches.len() ==> (#[trigger] self.released_fetches[i]) < n
        &&& forall|i: int|
            0 <= i < self.released_pushes.len() ==> (
            #[trigger] self.released_pushes[i]).stripe_id < n
    }

    /// An evictor with nothing in progress.
    pub open spec fn idle(cfg: EvictorConfig, has_store: bool, codec: SpillCodec) -> EvictorModel {
        EvictorModel {
            cfg,
            codec,
            has_store,
            records: Seq::empty(),
            epoch: 0,
            puts: 0,
            hand: 0,
            recent: Map::empty(),
            degraded_until: None,
            backoff: BACKOFF_MIN,
            last_statfs: None,
            free_bytes: None,
            to_low_water: false,
            pressed: false,
            idle_examined: 0,
            held: Seq::empty(),
            released_fetches: Seq::empty(),
            released_pushes: Seq::empty(),
            dropped: Seq::empty(),
            punch_supported: true,
            free_buffers: cfg.max_concurrent_evictions as nat,
        }
    }

    /// Put the stripe back where it was. A record that is owed a completion
    /// stays for it; a held push is dropped with its slot.
    pub open spec fn after_abort(self, id: usize, now: u64) -> EvictorModel {
        if !self.evicting(id) {
            self
        } else {
            let r = self.record(id);
            let noted = EvictorModel {
                recent: self.recent.insert(id, now),
                dropped: match r.deferred_push {
                    Some(push) => self.dropped.push(push.permit),
                    None => self.dropped,
                },
                ..self
            };
            if r.io_outstanding {
                noted.with_record(
                    id,
                    Eviction { deferred_fetch: false, deferred_push: None, aborted: true, ..r },
                )
            } else {
                noted.without_record(id)
            }
        }
    }

    /// What an abort does to the shared state: the stripe is back, counts as
    /// referenced, and the abort is counted.
    pub open spec fn state_after_abort(self, s: StateModel, id: usize) -> StateModel {
        if !self.evicting(id) {
            s
        } else {
            let back = s.after_abort_evicting(id as int, self.record(id).previous).with_flags_set(
                id as int,
                stripe_flags::REFERENCED,
            );
            back.with_spill(
                SpillCounters {
                    evictions_aborted: inc(back.spill.evictions_aborted),
                    ..back.spill
                },
            )
        }
    }

    /// The header op of `id` is with the flusher.
    pub open spec fn after_header_op(self, id: usize) -> EvictorModel {
        if !self.tracks(id) {
            self
        } else {
            let r = self.record(id);
            self.with_record(
                id,
                Eviction {
                    stage: Stage::WritingHeader { token: token_of(r.epoch) },
                    retry_at: None,
                    ..r
                },
            )
        }
    }

    /// What the flusher is handed for it.
    pub open spec fn flusher_after_header_op(self, f: FlusherModel, id: usize) -> FlusherModel {
        if !self.tracks(id) {
            f
        } else {
            let r = self.record(id);
            f.queued(id, header_set(r.kind), header_clear(r.kind), token_of(r.epoch))
        }
    }

    /// A punch failed; without support nothing more is evicted.
    pub open spec fn after_punch_failure(self, errno: i32) -> EvictorModel {
        EvictorModel {
            punch_supported: self.punch_supported && errno != EOPNOTSUPP,
            ..self
        }
    }

    /// The EVICTED header of `id` is durable and its blocks were punched, or
    /// could not be: the record ends, and what waited for it is released.
    pub open spec fn after_complete(self, id: usize, punched: Result<(), IoError>) -> EvictorModel {
        if !self.tracks(id) {
            self
        } else {
            let r = self.record(id);
            let ended = self.without_record(id);
            let told = match punched {
                Ok(_) => ended,
                Err(e) => ended.after_punch_failure(e.errno),
            };
            EvictorModel {
                released_fetches: if r.deferred_fetch {
                    told.released_fetches.push(id)
                } else {
                    told.released_fetches
                },
                released_pushes: match r.deferred_push {
                    Some(push) => told.released_pushes.push(
                        ReleasedPush { stripe_id: id, data: push.data, permit: push.permit },
                    ),
                    None => told.released_pushes,
                },
                ..told
            }
        }
    }

    /// What that does to the shared state.
    pub open spec fn state_after_complete(
        self,
        s: StateModel,
        id: usize,
        punched: Result<(), IoError>,
    ) -> StateModel {
        if !self.tracks(id) {
            s
        } else {
            let r = self.record(id);
            state_evicted(state_punched(s, punched), id as int, r.previous, r.kind)
        }
    }

    /// The free space is below `threshold`, if the filesystem answered at all.
    pub open spec fn free_below(self, threshold: u64) -> bool {
        self.free_bytes matches Some(free) && free < threshold
    }

    /// Bytes that resident stripes occupy.
    pub open spec fn resident_bytes(self, s: StateModel) -> u64 {
        sat_mul(s.resident, stripe_size(self.cfg) as u64)
    }

    /// Over the ceiling by more than the margin, or almost out of space: the
    /// gate closes.
    pub open spec fn hard_pressure(self, s: StateModel) -> bool {
        self.resident_bytes(s) > sat_add(self.cfg.max_local_bytes, self.cfg.hard_margin_bytes)
            || self.free_below((self.cfg.min_free_bytes / 2) as u64)
    }

    /// Over the ceiling, or short of space.
    pub open spec fn over_limit(self, s: StateModel) -> bool {
        self.resident_bytes(s) > self.cfg.max_local_bytes || self.free_below(
            self.cfg.min_free_bytes,
        )
    }

    /// Over the limit, or over it before and not yet down to the low-water
    /// mark: evict.
    pub open spec fn soft_pressure(self, s: StateModel) -> bool {
        self.over_limit(s) || (self.to_low_water && self.resident_bytes(s) > sat_sub(
            self.cfg.max_local_bytes,
            self.cfg.low_water_bytes,
        ))
    }

    /// Where the write gate goes: closed under hard pressure, open again once there
    /// is none and free space is back above the minimum.
    pub open spec fn next_gate(self, s: StateModel) -> u8 {
        if self.hard_pressure(s) {
            match self.cfg.on_full {
                OnFull::Stall => GATE_HOLD,
                OnFull::Fail => GATE_FAIL,
            }
        } else if s.gate != GATE_OPEN && !self.free_below(self.cfg.min_free_bytes) {
            GATE_OPEN
        } else {
            s.gate
        }
    }

    /// `assess_pressure`. An opening write gate releases the fetches held for space.
    pub open spec fn after_assess(self, s: StateModel) -> EvictorModel {
        let soft = self.soft_pressure(s);
        let judged = EvictorModel {
            to_low_water: soft && (self.to_low_water || self.over_limit(s)),
            pressed: soft,
            ..self
        };
        if self.next_gate(s) != s.gate && self.next_gate(s) == GATE_OPEN {
            EvictorModel {
                released_fetches: self.released_fetches + self.held,
                held: Seq::empty(),
                ..judged
            }
        } else {
            judged
        }
    }

    /// What that does to the shared state.
    pub open spec fn state_after_assess(self, s: StateModel) -> StateModel {
        if self.next_gate(s) == s.gate {
            s
        } else {
            s.after_set_gate(self.next_gate(s))
        }
    }

    /// Completing the evictions in flight would leave the device over a limit.
    pub open spec fn more_needed(self, s: StateModel) -> bool {
        let active = count_records(self.records, is_active()) as u64;
        let size = stripe_size(self.cfg) as u64;
        let resident = sat_mul(sat_sub(s.resident, active), size);
        ||| resident > self.cfg.max_local_bytes
        ||| (self.free_bytes matches Some(free) && sat_add(free, sat_mul(active, size))
            < self.cfg.min_free_bytes)
        ||| (self.to_low_water && resident > sat_sub(
            self.cfg.max_local_bytes,
            self.cfg.low_water_bytes,
        ))
    }

    /// The live snapshot can serve the stripe again: nothing written or
    /// pushed, the source holds it, it became resident while the subscription
    /// was up, and it never went through the store.
    pub open spec fn clean(self, s: StateModel, id: int) -> bool {
        &&& self.cfg.clean_eviction
        &&& s.live
        &&& s.write[id] != Written
        &&& !s.flag(id, stripe_flags::PUSHED)
        &&& !s.flag(id, stripe_flags::IN_S3)
        &&& s.flag(id, stripe_flags::HAS_SOURCE)
        &&& s.flag(id, stripe_flags::FETCHED_LIVE)
    }

    /// An upload may start now: a store, room for one, and a store that is
    /// not degraded, or one probe once its pause has passed.
    pub open spec fn dirty_allowed(self, s: StateModel, now: u64) -> bool {
        &&& self.has_store
        &&& self.puts < self.cfg.max_concurrent_evictions
        &&& !s.spill.degraded || ((self.degraded_until matches Some(until) ==> now >= until)
            && count_records(self.records, is_active_dirty()) == 0)
    }

    /// The store took an upload.
    pub open spec fn after_recovery(self) -> EvictorModel {
        EvictorModel { degraded_until: None, backoff: BACKOFF_MIN, ..self }
    }

    /// The store refused an upload: pause, twice as long each time.
    pub open spec fn after_store_failure(self, now: u64) -> EvictorModel {
        EvictorModel {
            degraded_until: Some(sat_add(now, self.backoff)),
            backoff: if self.backoff * 2 < BACKOFF_MAX {
                (self.backoff * 2) as u64
            } else {
                BACKOFF_MAX
            },
            ..self
        }
    }

    /// `id` is claimed.
    pub open spec fn after_begin(
        self,
        s: StateModel,
        id: usize,
        kind: Kind,
        now: u64,
    ) -> EvictorModel {
        if s.claimable(id as int) {
            EvictorModel {
                epoch: inc(self.epoch),
                idle_examined: 0,
                records: self.records.push(
                    Eviction {
                        stripe_id: id,
                        previous: s.fetch[id as int],
                        kind,
                        stage: Stage::Draining,
                        epoch: inc(self.epoch),
                        holds_buffer: false,
                        object_len: 0,
                        started: now,
                        committed: false,
                        retry_at: None,
                        deferred_fetch: false,
                        deferred_push: None,
                        io_outstanding: false,
                        resubmit_read: false,
                        aborted: false,
                    },
                ),
                ..self
            }
        } else {
            self
        }
    }
}

/// What an outcome of a header op means for the eviction it belongs to.
#[derive(Debug, Clone, Copy, PartialEq, Eq, Structural)]
pub enum OutcomeAction {
    /// It belongs to no eviction, or to an earlier attempt.
    Ignore,
    /// The header is durable.
    Complete,
    /// The disk provably holds the old byte.
    Abort,
    /// The disk may hold either byte.
    Retry,
}

impl EvictorModel {
    /// What `o` means.
    pub open spec fn outcome_action(self, o: PersistOutcome) -> OutcomeAction {
        if o.token & 1 != 1 || !self.evicting(o.stripe_id) || self.record(o.stripe_id).stage
            != (Stage::WritingHeader { token: o.token }) {
            OutcomeAction::Ignore
        } else if o.result == PersistResult::Durable {
            OutcomeAction::Complete
        } else if o.result == PersistResult::NotWritten && !self.record(o.stripe_id).committed {
            OutcomeAction::Abort
        } else {
            OutcomeAction::Retry
        }
    }

    /// The header op is issued again later, and from here only a durable
    /// header ends the eviction.
    pub open spec fn after_uncertain(self, id: usize, now: u64) -> EvictorModel {
        self.with_record(
            id,
            Eviction {
                committed: true,
                retry_at: Some(sat_add(now, HEADER_RETRY)),
                ..self.record(id)
            },
        )
    }

    /// `o` is applied; `punched` is what the punch gave where it took place.
    pub open spec fn after_outcome(
        self,
        o: PersistOutcome,
        punched: Result<(), IoError>,
        now: u64,
    ) -> EvictorModel {
        match self.outcome_action(o) {
            OutcomeAction::Ignore => self,
            OutcomeAction::Complete => self.after_complete(o.stripe_id, punched),
            OutcomeAction::Abort => self.after_abort(o.stripe_id, now),
            OutcomeAction::Retry => self.after_uncertain(o.stripe_id, now),
        }
    }

    /// What that does to the shared state.
    pub open spec fn state_after_outcome(
        self,
        s: StateModel,
        o: PersistOutcome,
        punched: Result<(), IoError>,
    ) -> StateModel {
        match self.outcome_action(o) {
            OutcomeAction::Ignore => s,
            OutcomeAction::Complete => self.state_after_complete(s, o.stripe_id, punched),
            OutcomeAction::Abort => self.state_after_abort(s, o.stripe_id),
            OutcomeAction::Retry => s.with_anomaly(),
        }
    }

    /// The completion of a read that this evictor started and still waits
    /// for.
    pub open spec fn read_is_owed(self, id: usize) -> bool {
        self.tracks(id) && self.record(id).stage == Stage::Reading
    }

    /// The record of `id` with its read over and its buffer back.
    pub open spec fn after_read_over(self, id: usize) -> EvictorModel {
        let r = self.record(id);
        EvictorModel {
            free_buffers: if r.holds_buffer {
                self.free_buffers + 1
            } else {
                self.free_buffers
            },
            ..self.with_record(id, Eviction { io_outstanding: false, holds_buffer: false, ..r })
        }
    }

    /// The read of `id` finished and its data is to be encoded.
    pub open spec fn read_to_encode(self, id: usize, ok: bool) -> bool {
        self.read_is_owed(id) && self.record(id).holds_buffer && !self.record(id).aborted && ok
    }

    /// A read completion is applied, short of encoding the data.
    pub open spec fn after_read(self, id: usize, ok: bool, now: u64) -> EvictorModel {
        if !self.read_is_owed(id) {
            self
        } else {
            let over = self.after_read_over(id);
            if !self.record(id).holds_buffer {
                over
            } else if self.record(id).aborted {
                over.without_record(id)
            } else if !ok {
                over.after_abort(id, now)
            } else {
                over
            }
        }
    }

    /// What that does to the shared state.
    pub open spec fn state_after_read(self, s: StateModel, id: usize, ok: bool) -> StateModel {
        if self.read_is_owed(id) && self.record(id).holds_buffer && !self.record(id).aborted
            && !ok {
            self.after_read_over(id).state_after_abort(s, id)
        } else {
            s
        }
    }

    /// An object of `len` bytes is on its way to the store.
    pub open spec fn starts_put(self, id: usize) -> bool {
        self.has_store && self.tracks(id)
    }

    /// The upload of `id` starts, or the eviction is abandoned for want of a
    /// store.
    pub open spec fn after_start_put(self, id: usize, len: u64, now: u64) -> EvictorModel {
        if !self.has_store {
            self.after_abort(id, now)
        } else if !self.tracks(id) {
            self
        } else {
            EvictorModel {
                puts: (self.puts + 1) as usize,
                ..self.with_record(
                    id,
                    Eviction {
                        object_len: len,
                        stage: Stage::Putting,
                        io_outstanding: true,
                        ..self.record(id)
                    },
                )
            }
        }
    }

    /// What that does to the shared state.
    pub open spec fn state_after_start_put(self, s: StateModel, id: usize) -> StateModel {
        if !self.has_store {
            self.state_after_abort(s, id)
        } else if !self.tracks(id) {
            s
        } else {
            s.with_spill(SpillCounters { puts: inc(s.spill.puts), ..s.spill })
        }
    }

    /// One upload fewer is in flight.
    pub open spec fn one_put_less(self) -> EvictorModel {
        EvictorModel {
            puts: if self.puts > 0 {
                (self.puts - 1) as usize
            } else {
                0
            },
            ..self
        }
    }

    /// The completion of an upload that this evictor still waits for.
    pub open spec fn put_is_owed(self, stripe: Option<usize>) -> bool {
        stripe matches Some(id) && self.tracks(id) && self.record(id).stage == Stage::Putting
    }

    /// The record of `id` with its upload over.
    pub open spec fn after_put_over(self, id: usize) -> EvictorModel {
        self.one_put_less().with_record(
            id,
            Eviction { io_outstanding: false, ..self.record(id) },
        )
    }

    /// An upload completion is applied: `stripe` is what the object's name
    /// denotes.
    pub open spec fn after_put(self, stripe: Option<usize>, ok: bool, now: u64) -> EvictorModel {
        if !self.put_is_owed(stripe) {
            self.one_put_less()
        } else {
            let id = stripe->0;
            let over = self.after_put_over(id);
            if self.record(id).aborted {
                over.without_record(id)
            } else if ok {
                over.after_recovery().after_header_op(id)
            } else {
                over.after_store_failure(now).after_abort(id, now)
            }
        }
    }

    /// What that does to the shared state.
    pub open spec fn state_after_put(
        self,
        s: StateModel,
        stripe: Option<usize>,
        ok: bool,
        now: u64,
    ) -> StateModel {
        if !self.put_is_owed(stripe) || self.record(stripe->0).aborted {
            s
        } else if ok {
            s.with_spill(
                SpillCounters {
                    put_bytes: add_wrapping(
                        s.spill.put_bytes,
                        self.record(stripe->0).object_len,
                    ),
                    degraded: false,
                    ..s.spill
                },
            )
        } else {
            self.after_put_over(stripe->0).after_store_failure(now).state_after_abort(
                s.with_spill(
                    SpillCounters {
                        put_failures: inc(s.spill.put_failures),
                        degraded: true,
                        ..s.spill
                    },
                ),
                stripe->0,
            )
        }
    }

    /// What it hands to the flusher.
    pub open spec fn flusher_after_put(
        self,
        f: FlusherModel,
        stripe: Option<usize>,
        ok: bool,
    ) -> FlusherModel {
        if self.put_is_owed(stripe) && !self.record(stripe->0).aborted && ok {
            self.after_put_over(stripe->0).after_recovery().flusher_after_header_op(f, stripe->0)
        } else {
            f
        }
    }

    /// `id` is claimed and waits for its requests in flight.
    pub open spec fn is_draining(self, id: usize) -> bool {
        self.evicting(id) && self.record(id).stage == Stage::Draining
    }

    /// What becomes of a drained stripe: a clean one that is clean no more is
    /// uploaded if that is allowed; otherwise it is left alone.
    pub open spec fn drained_kind(self, s: StateModel, id: usize, now: u64) -> Option<Kind> {
        let kind = self.record(id).kind;
        if kind == Kind::Clean && !self.clean(s, id as int) {
            if self.dirty_allowed(s, now) {
                Some(Kind::Dirty)
            } else {
                None
            }
        } else {
            Some(kind)
        }
    }

    /// The requests of `id` have not finished in time.
    pub open spec fn drain_timed_out(self, id: usize, now: u64) -> bool {
        sat_sub(now, self.record(id).started) > DRAIN_TIMEOUT
    }

    /// The record of `id` under another kind.
    pub open spec fn with_kind(self, id: usize, kind: Kind) -> EvictorModel {
        self.with_record(id, Eviction { kind, ..self.record(id) })
    }

    /// The read of `id` is with the device.
    pub open spec fn after_start_read(self, id: usize) -> EvictorModel {
        if self.free_buffers == 0 {
            self
        } else {
            EvictorModel {
                free_buffers: (self.free_buffers - 1) as nat,
                ..self.with_record(
                    id,
                    Eviction {
                        holds_buffer: true,
                        stage: Stage::Reading,
                        io_outstanding: true,
                        ..self.record(id)
                    },
                )
            }
        }
    }

    /// The next step of a draining stripe is a read.
    pub open spec fn drain_reads(self, s: StateModel, id: usize, now: u64) -> bool {
        self.is_draining(id) && s.inflight[id as int] == 0 && self.drained_kind(s, id, now)
            == Some(Kind::Dirty) && self.free_buffers > 0
    }

    /// A draining stripe takes its next step.
    pub open spec fn after_drain(self, s: StateModel, id: usize, now: u64) -> EvictorModel {
        if !self.is_draining(id) {
            self
        } else if s.inflight[id as int] != 0 {
            if self.drain_timed_out(id, now) {
                self.after_abort(id, now)
            } else {
                self
            }
        } else {
            match self.drained_kind(s, id, now) {
                None => self.after_abort(id, now),
                Some(Kind::Clean) => self.after_header_op(id),
                Some(Kind::Dirty) => self.with_kind(id, Kind::Dirty).after_start_read(id),
            }
        }
    }

    /// What that does to the shared state.
    pub open spec fn state_after_drain(self, s: StateModel, id: usize, now: u64) -> StateModel {
        if !self.is_draining(id) {
            s
        } else if s.inflight[id as int] != 0 {
            if self.drain_timed_out(id, now) {
                self.state_after_abort(s.with_anomaly(), id)
            } else {
                s
            }
        } else if self.drained_kind(s, id, now) is None {
            self.state_after_abort(s, id)
        } else {
            s
        }
    }

    /// What it hands to the flusher.
    pub open spec fn flusher_after_drain(
        self,
        s: StateModel,
        f: FlusherModel,
        id: usize,
        now: u64,
    ) -> FlusherModel {
        if self.is_draining(id) && s.inflight[id as int] == 0 && self.drained_kind(s, id, now)
            == Some(Kind::Clean) {
            self.flusher_after_header_op(f, id)
        } else {
            f
        }
    }

    /// The read of `id` could not be handed over. Its completion is still
    /// owed, so the record and its buffer wait for it.
    pub open spec fn after_unsubmitted(self, id: usize, now: u64) -> EvictorModel {
        if !self.tracks(id) {
            self
        } else {
            self.with_record(id, Eviction { resubmit_read: true, ..self.record(id) }).after_abort(
                id,
                now,
            )
        }
    }

    /// What that does to the shared state.
    pub open spec fn state_after_unsubmitted(self, s: StateModel, id: usize) -> StateModel {
        if !self.tracks(id) {
            s.with_anomaly()
        } else {
            self.with_record(
                id,
                Eviction { resubmit_read: true, ..self.record(id) },
            ).state_after_abort(s.with_anomaly(), id)
        }
    }

    /// The header op of `id` is to be issued again now.
    pub open spec fn retry_due(self, id: usize, now: u64) -> bool {
        self.evicting(id) && (self.record(id).retry_at matches Some(at) && at <= now)
    }

    /// The stripes the hand skips, without those that have waited long enough.
    pub open spec fn still_skipped(recent: Map<usize, u64>, now: u64) -> Map<usize, u64> {
        recent.filter_keys(|id: usize| sat_sub(now, recent[id]) < ABORT_SKIP)
    }
}

/// A sweep of the hand: the evictor and the state as they are, dirty
/// candidates that wait for the rest of the batch, and how many stripes were
/// examined and claimed.
#[verifier::ext_equal]
pub struct SweepModel {
    /// The evictor.
    pub m: EvictorModel,
    /// The shared state.
    pub s: StateModel,
    /// Dirty candidates put off.
    pub deferred: Seq<usize>,
    /// Stripes examined.
    pub examined: nat,
    /// Stripes claimed.
    pub claimed: nat,
}

impl SweepModel {
    /// What holds of a sweep of a device of `n` stripes: a candidate put off
    /// that has a record is already claimed.
    pub open spec fn ok(self, n: nat) -> bool {
        &&& n > 0
        &&& self.m.wf(n)
        &&& self.s.wf()
        &&& self.s.fetch.len() == n
        &&& self.examined <= self.m.cfg.sweep_batch
        &&& forall|k: int|
            0 <= k < self.deferred.len() ==> (#[trigger] self.deferred[k]) < n
        &&& forall|k: int|
            0 <= k < self.deferred.len() ==> !(self.m.tracks(#[trigger] self.deferred[k])
                && self.s.claimable(self.deferred[k] as int))
    }

    /// The hand goes on: within its batch, with room for another eviction and
    /// need of one.
    pub open spec fn goes_on(self) -> bool {
        &&& self.examined < self.m.cfg.sweep_batch
        &&& self.m.records.len() < self.m.cfg.max_concurrent_evictions
        &&& self.m.more_needed(self.s)
    }

    /// `id` claimed as `kind`, if it can be.
    pub open spec fn with_claim(self, id: usize, kind: Kind, now: u64) -> SweepModel {
        if self.s.claimable(id as int) {
            SweepModel {
                m: self.m.after_begin(self.s, id, kind, now),
                s: state_after_begin(self.s, id),
                claimed: self.claimed + 1,
                ..self
            }
        } else {
            self
        }
    }

    /// The hand moves past one stripe.
    pub open spec fn moved(self, n: nat) -> SweepModel {
        SweepModel {
            m: EvictorModel { hand: ((self.m.hand + 1) % (n as int)) as usize, ..self.m },
            examined: self.examined + 1,
            ..self
        }
    }

    /// A stripe whose reference bit was taken.
    pub open spec fn unreferenced(self, id: usize) -> SweepModel {
        SweepModel {
            s: self.s.with_flags_cleared(id as int, stripe_flags::REFERENCED),
            ..self
        }
    }

    /// The hand examines one stripe. With clean eviction possible a dirty
    /// candidate waits for the rest of the batch.
    pub open spec fn step(
        self,
        clean_possible: bool,
        dirty_possible: bool,
        now: u64,
    ) -> SweepModel {
        let id = self.m.hand;
        let on = self.moved(self.s.fetch.len());
        if self.m.tracks(id) || skipped(self.m.recent, id) || !self.s.is_resident(id as int) {
            on
        } else {
            let clean = self.m.clean(self.s, id as int);
            if !clean && !dirty_possible {
                on
            } else {
                let taken = on.unreferenced(id);
                if self.s.flag(id as int, stripe_flags::REFERENCED) {
                    taken
                } else if clean {
                    if clean_possible {
                        taken.with_claim(id, Kind::Clean, now)
                    } else {
                        taken
                    }
                } else if clean_possible {
                    if self.deferred.len() < self.m.cfg.max_concurrent_evictions {
                        SweepModel { deferred: self.deferred.push(id), ..taken }
                    } else {
                        taken
                    }
                } else if taken.m.dirty_allowed(taken.s, now) {
                    taken.with_claim(id, Kind::Dirty, now)
                } else {
                    taken
                }
            }
        }
    }

    /// The hand examines stripes for as long as it goes on.
    pub open spec fn swept(
        self,
        clean_possible: bool,
        dirty_possible: bool,
        now: u64,
    ) -> SweepModel
        decreases self.m.cfg.sweep_batch - self.examined,
        when self.examined <= self.m.cfg.sweep_batch
    {
        if self.goes_on() {
            self.step(clean_possible, dirty_possible, now).swept(
                clean_possible,
                dirty_possible,
                now,
            )
        } else {
            self
        }
    }

    /// The dirty candidates from number `from` on are claimed for as long as
    /// there is room, need and leave.
    pub open spec fn claimed_deferred(self, from: nat, now: u64) -> SweepModel
        decreases self.deferred.len() - from,
    {
        if from >= self.deferred.len() || self.m.records.len()
            >= self.m.cfg.max_concurrent_evictions || !self.m.more_needed(self.s)
            || !self.m.dirty_allowed(self.s, now) {
            self
        } else {
            self.with_claim(self.deferred[from as int], Kind::Dirty, now).claimed_deferred(
                from + 1,
                now,
            )
        }
    }
}

impl EvictorModel {
    /// A stripe may be dropped clean at all.
    pub open spec fn clean_possible(self, s: StateModel) -> bool {
        self.cfg.clean_eviction && s.live
    }

    /// The hand sweeps at all.
    pub open spec fn sweeps(self, s: StateModel, now: u64) -> bool {
        &&& self.pressed
        &&& self.punch_supported
        &&& s.fetch.len() > 0
        &&& self.clean_possible(s) || self.dirty_allowed(s, now)
    }

    /// The sweep of one tick.
    pub open spec fn sweep(self, s: StateModel, now: u64) -> SweepModel {
        let start = SweepModel { m: self, s, deferred: Seq::empty(), examined: 0, claimed: 0 };
        start.swept(self.clean_possible(s), self.dirty_allowed(s, now), now).claimed_deferred(
            0,
            now,
        )
    }

    /// `select_victims`. A sweep without a claim counts towards the
    /// revolution after which the hand rests.
    pub open spec fn after_select(self, s: StateModel, now: u64) -> EvictorModel {
        if !self.sweeps(s, now) {
            self
        } else {
            let end = self.sweep(s, now);
            if end.claimed == 0 {
                EvictorModel {
                    idle_examined: if end.m.idle_examined + end.examined > usize::MAX {
                        usize::MAX
                    } else {
                        (end.m.idle_examined + end.examined) as usize
                    },
                    ..end.m
                }
            } else {
                end.m
            }
        }
    }

    /// What that does to the shared state.
    pub open spec fn state_after_select(self, s: StateModel, now: u64) -> StateModel {
        if !self.sweeps(s, now) {
            s
        } else {
            self.sweep(s, now).s
        }
    }

    /// What becomes of a guest's fetch of `id`.
    pub open spec fn fetch_disposition(self, s: StateModel, id: usize) -> FetchDisposition {
        if self.evicting(id) {
            if self.record(id).stage is WritingHeader {
                FetchDisposition::Deferred
            } else {
                FetchDisposition::Aborted
            }
        } else if !s.is_resident(id as int) && s.gate == GATE_HOLD {
            FetchDisposition::HeldForSpace
        } else if !s.is_resident(id as int) && s.gate == GATE_FAIL {
            FetchDisposition::Refused
        } else {
            FetchDisposition::Forward
        }
    }

    /// What the evictor notes of it. A held fetch is noted once.
    pub open spec fn after_fetch_request(self, s: StateModel, id: usize, now: u64) -> EvictorModel {
        match self.fetch_disposition(s, id) {
            FetchDisposition::Deferred => self.with_record(
                id,
                Eviction { deferred_fetch: true, ..self.record(id) },
            ),
            FetchDisposition::Aborted => self.after_abort(id, now),
            FetchDisposition::Forward => self,
            _ => if self.held.contains(id) {
                self
            } else {
                EvictorModel { held: self.held.push(id), ..self }
            },
        }
    }

    /// What becomes of a pushed stripe. A pre-image must not replace the
    /// fork's own data, on the disk or in the store.
    pub open spec fn push_disposition(self, s: StateModel, id: usize) -> PushDisposition {
        if self.evicting(id) {
            if self.record(id).kind == Kind::Dirty {
                PushDisposition::Ignore
            } else if self.record(id).stage is WritingHeader {
                PushDisposition::Deferred
            } else {
                PushDisposition::AbortedEviction
            }
        } else if (s.fetch[id as int] == Evicted || s.flag(id as int, stripe_flags::WAS_EVICTED))
            && s.flag(id as int, stripe_flags::IN_S3) {
            PushDisposition::Ignore
        } else {
            PushDisposition::Forward
        }
    }

    /// What the evictor keeps of it. A push that an earlier one already waits
    /// for replaces it, and the earlier one's slot comes back.
    pub open spec fn after_pushed_stripe(
        self,
        s: StateModel,
        id: usize,
        data: Vec<u8>,
        permit: PushPermit,
        now: u64,
    ) -> EvictorModel {
        match self.push_disposition(s, id) {
            PushDisposition::Forward => self,
            PushDisposition::Ignore => EvictorModel { dropped: self.dropped.push(permit), ..self },
            PushDisposition::AbortedEviction => {
                let aborted = self.after_abort(id, now);
                EvictorModel { dropped: aborted.dropped.push(permit), ..aborted }
            },
            PushDisposition::Deferred => EvictorModel {
                dropped: match self.record(id).deferred_push {
                    Some(earlier) => self.dropped.push(earlier.permit),
                    None => self.dropped,
                },
                ..self.with_record(
                    id,
                    Eviction {
                        deferred_push: Some(HeldPush { data, permit }),
                        ..self.record(id)
                    },
                )
            },
        }
    }

    /// A sweep is worth spinning for until the hand has been round once
    /// without a claim.
    pub open spec fn sweep_may_progress(self, s: StateModel, now: u64) -> bool {
        &&& self.punch_supported
        &&& self.records.len() < self.cfg.max_concurrent_evictions
        &&& self.idle_examined < s.fetch.len()
        &&& self.clean_possible(s) || self.dirty_allowed(s, now)
    }

    /// An eviction is in progress, something released waits to be routed, or
    /// the device is over its ceiling and a sweep could still find a victim.
    pub open spec fn is_busy(self, s: StateModel, now: u64) -> bool {
        ||| count_records(self.records, is_active()) > 0
        ||| self.released_fetches.len() > 0
        ||| self.released_pushes.len() > 0
        ||| (self.pressed && self.sweep_may_progress(s, now))
    }
}

impl EvictorModel {
    /// The filesystem is to be asked for its free space again.
    pub open spec fn statfs_due(self, now: u64) -> bool {
        !(self.last_statfs matches Some(at) && sat_sub(now, at) < STATFS_INTERVAL)
    }

    /// It was asked, and gave `answer`.
    pub open spec fn after_statfs(self, answer: Result<u64, IoError>, now: u64) -> EvictorModel {
        EvictorModel {
            last_statfs: Some(now),
            free_bytes: match answer {
                Ok(free) => Some(free),
                Err(_) => self.free_bytes,
            },
            ..self
        }
    }

    /// A read is to be handed over again.
    pub open spec fn resubmit_wanted(self) -> bool {
        exists|i: int| 0 <= i < self.records.len() && (#[trigger] self.records[i]).resubmit_read
    }

    /// The reads were handed over.
    pub open spec fn after_resubmit(self) -> EvictorModel {
        EvictorModel { records: self.records.map_values(resubmitted()), ..self }
    }

    /// The stripes whose records satisfy `p`, in the order of the records.
    pub open spec fn ids_where(self, p: spec_fn(Eviction) -> bool) -> Seq<usize> {
        ids_where(self.records, p)
    }
}

/// A record whose read was handed over.
pub open spec fn resubmitted() -> spec_fn(Eviction) -> Eviction {
    |r: Eviction| Eviction { resubmit_read: false, ..r }
}

/// The stripes whose records satisfy `p`, in the order of the records.
pub open spec fn ids_where(records: Seq<Eviction>, p: spec_fn(Eviction) -> bool) -> Seq<usize>
    decreases records.len(),
{
    if records.len() == 0 {
        Seq::empty()
    } else {
        let before = ids_where(records.drop_last(), p);
        if p(records.last()) {
            before.push(records.last().stripe_id)
        } else {
            before
        }
    }
}

/// Claims that wait for their requests in flight.
pub open spec fn drains() -> spec_fn(Eviction) -> bool {
    |r: Eviction| !r.aborted && r.stage == Stage::Draining
}

/// Evictions whose header op is to be issued again.
pub open spec fn retries(now: u64) -> spec_fn(Eviction) -> bool {
    |r: Eviction| !r.aborted && (r.retry_at matches Some(at) && at <= now)
}

/// The shared state after the filesystem was asked for its free space.
pub open spec fn state_after_statfs(s: StateModel, answer: Result<u64, IoError>) -> StateModel {
    match answer {
        Ok(free) => s.with_spill(SpillCounters { free_bytes: free, ..s.spill }),
        Err(_) => s,
    }
}

/// What became of a stripe that was read.
pub enum ReadResult {
    /// Its data was missing or too short.
    Unusable,
    /// Its data could not be encoded; that began at `start`.
    Refused { start: u64 },
    /// It was encoded into `len` bytes, from `start` to `end`.
    Encoded { len: u64, start: u64, end: u64 },
}

impl ReadResult {
    /// What the clock was read for it.
    pub open spec fn readings(self) -> Seq<u64> {
        match self {
            ReadResult::Unusable => Seq::empty(),
            ReadResult::Refused { start } => seq![start],
            ReadResult::Encoded { len, start, end } => seq![start, end],
        }
    }
}

/// What the outside world answered during a tick.
pub struct TickInputs {
    /// The free space on the filesystem.
    pub free: Result<u64, IoError>,
    /// The punch for each header outcome.
    pub punches: Seq<Result<(), IoError>>,
    /// Whether the reads could be handed over again.
    pub resubmitted: Answer,
    /// Reads that finished.
    pub reads: Seq<(usize, bool)>,
    /// What each read.
    pub data: Seq<Option<Seq<u8>>>,
    /// What became of each.
    pub results: Seq<ReadResult>,
    /// Uploads that finished.
    pub puts: Seq<(String, bool)>,
    /// Whether each draining stripe's read could be handed over.
    pub submits: Seq<Answer>,
}

impl EvictorModel {
    /// What the puncher is asked to give a stripe's blocks back.
    pub open spec fn punch_call(self, id: usize, result: Answer) -> PunchCall {
        PunchCall::Punch {
            offset: (sector_offset(self.cfg, id as int) * SECTOR_SIZE) as u64,
            len: (sector_len(self.cfg, id as int) * SECTOR_SIZE) as u64,
            result,
        }
    }

    /// What the data device is asked to read a stripe, and whether it took
    /// that.
    pub open spec fn read_calls(self, id: usize, result: Answer) -> Seq<IoCall<Seq<u8>>> {
        seq![
            IoCall::Read {
                sector_offset: sector_offset(self.cfg, id as int) as u64,
                sector_count: sector_len(self.cfg, id as int) as u32,
                buf: zeros(stripe_size(self.cfg) as nat),
                id,
            },
            IoCall::Submit { result },
        ]
    }

    /// Bytes of a stripe's data.
    pub open spec fn data_len(self, id: usize) -> int {
        sector_len(self.cfg, id as int) * SECTOR_SIZE
    }

    /// The object that a stripe's data becomes.
    pub open spec fn object(self, id: usize, data: Seq<u8>) -> Seq<u8> {
        self.codec.encoded(id, data.take(self.data_len(id)))->Ok_0
    }

    /// `result` becomes of a stripe of which `data` was read: an object that
    /// decodes to the data, unless the data is missing, short or has none.
    pub open spec fn encodes(self, id: usize, data: Option<Seq<u8>>, result: ReadResult) -> bool {
        match result {
            ReadResult::Unusable => match data {
                None => true,
                Some(data) => data.len() < self.data_len(id),
            },
            ReadResult::Refused { start } => match data {
                None => false,
                Some(data) => self.data_len(id) <= data.len() && self.codec.encoded(
                    id,
                    data.take(self.data_len(id)),
                ) is Err,
            },
            ReadResult::Encoded { len, start, end } => match data {
                None => false,
                Some(data) => {
                    let plain = data.take(self.data_len(id));
                    &&& self.data_len(id) <= data.len()
                    &&& self.codec.encoded(id, plain) is Ok
                    &&& len == self.object(id, data).len()
                    &&& self.codec.decodes(id, plain, self.object(id, data))
                },
            },
        }
    }
}

/// The evictor, the shared state and the flusher.
#[verifier::ext_equal]
pub struct TickModel {
    /// The evictor.
    pub m: EvictorModel,
    /// The shared state.
    pub s: StateModel,
    /// The flusher.
    pub f: FlusherModel,
}

/// The three together.
pub open spec fn tick_of(m: EvictorModel, s: StateModel, f: FlusherModel) -> TickModel {
    TickModel { m, s, f }
}

impl TickModel {
    /// All three describe the same stripes, and each is well-formed.
    pub open spec fn wf(self) -> bool {
        &&& self.m.wf(self.s.fetch.len())
        &&& self.s.wf()
        &&& self.f.wf()
        &&& self.f.headers.len() == self.s.fetch.len()
    }

    /// The free space was asked for, if it was due.
    #[verifier::opaque]
    pub open spec fn refreshed(self, answer: Result<u64, IoError>, now: u64) -> TickModel {
        if self.m.statfs_due(now) {
            TickModel {
                m: self.m.after_statfs(answer, now),
                s: state_after_statfs(self.s, answer),
                ..self
            }
        } else {
            self
        }
    }

    /// The first `count` header outcomes were applied.
    pub open spec fn outcomes_applied(
        self,
        outcomes: Seq<PersistOutcome>,
        punches: Seq<Result<(), IoError>>,
        now: u64,
        count: nat,
    ) -> TickModel
        decreases count,
    {
        if count == 0 {
            self
        } else {
            let t = self.outcomes_applied(outcomes, punches, now, (count - 1) as nat);
            let o = outcomes[count - 1];
            let punched = punches[count - 1];
            TickModel {
                m: t.m.after_outcome(o, punched, now),
                s: t.m.state_after_outcome(t.s, o, punched),
                ..t
            }
        }
    }

    /// What the puncher is asked for the free space.
    #[verifier::opaque]
    pub open spec fn refresh_calls(self, answer: Result<u64, IoError>, now: u64) -> Seq<PunchCall> {
        if self.m.statfs_due(now) {
            seq![PunchCall::FreeBytes { free: answer }]
        } else {
            Seq::empty()
        }
    }

    /// The puncher is asked for a stripe's blocks where an outcome completes
    /// the stripe's eviction.
    pub open spec fn outcome_calls(self, o: PersistOutcome, punched: Answer) -> Seq<PunchCall> {
        if self.m.outcome_action(o) == OutcomeAction::Complete {
            seq![self.m.punch_call(o.stripe_id, punched)]
        } else {
            Seq::empty()
        }
    }

    /// What the puncher is asked for the first `count` header outcomes.
    pub open spec fn all_outcome_calls(
        self,
        outcomes: Seq<PersistOutcome>,
        punches: Seq<Answer>,
        now: u64,
        count: nat,
    ) -> Seq<PunchCall>
        decreases count,
    {
        if count == 0 {
            Seq::empty()
        } else {
            self.all_outcome_calls(outcomes, punches, now, (count - 1) as nat)
                + self.outcomes_applied(outcomes, punches, now, (count - 1) as nat).outcome_calls(
                outcomes[count - 1],
                punches[count - 1],
            )
        }
    }

    /// The data device is handed the reads again.
    #[verifier::opaque]
    pub open spec fn resubmit_calls(self, result: Answer) -> Seq<IoCall<Seq<u8>>> {
        if self.m.resubmit_wanted() {
            seq![IoCall::Submit { result }]
        } else {
            Seq::empty()
        }
    }

    /// Reads that could not be handed over were handed over again, if that
    /// succeeded.
    #[verifier::opaque]
    pub open spec fn resubmitted(self, ok: bool) -> TickModel {
        if self.m.resubmit_wanted() && ok {
            TickModel { m: self.m.after_resubmit(), ..self }
        } else {
            self
        }
    }

    /// A read finished.
    pub open spec fn read(self, id: usize, ok: bool, result: ReadResult, now: u64) -> TickModel {
        let t = TickModel {
            m: self.m.after_read(id, ok, now),
            s: self.m.state_after_read(self.s, id, ok),
            ..self
        };
        if self.m.read_to_encode(id, ok) {
            match result {
                ReadResult::Encoded { len, start, end } => TickModel {
                    m: t.m.after_start_put(id, len, now),
                    s: t.m.state_after_start_put(
                        t.s.with_spill(t.s.spill.with_encode_time(sat_sub(end, start))),
                        id,
                    ),
                    ..t
                },
                _ => TickModel {
                    m: t.m.after_abort(id, now),
                    s: t.m.state_after_abort(t.s, id),
                    ..t
                },
            }
        } else {
            t
        }
    }

    /// The first `count` reads finished.
    pub open spec fn reads_done(
        self,
        reads: Seq<(usize, bool)>,
        results: Seq<ReadResult>,
        now: u64,
        count: nat,
    ) -> TickModel
        decreases count,
    {
        if count == 0 {
            self
        } else {
            self.reads_done(reads, results, now, (count - 1) as nat).read(
                reads[count - 1].0,
                reads[count - 1].1,
                results[count - 1],
                now,
            )
        }
    }

    /// The store is given the object of a stripe that was read.
    pub open spec fn read_puts(
        self,
        id: usize,
        ok: bool,
        data: Option<Seq<u8>>,
        result: ReadResult,
        now: u64,
    ) -> Seq<StoreCall> {
        if self.m.read_to_encode(id, ok) && result is Encoded && self.m.after_read(
            id,
            ok,
            now,
        ).starts_put(id) {
            seq![
                StoreCall::Put {
                    name: object_name(self.m.cfg.device_id@, id as nat),
                    data: self.m.object(id, data->Some_0),
                },
            ]
        } else {
            Seq::empty()
        }
    }

    /// What the store is given for the first `count` reads.
    pub open spec fn all_read_puts(
        self,
        reads: Seq<(usize, bool)>,
        data: Seq<Option<Seq<u8>>>,
        results: Seq<ReadResult>,
        now: u64,
        count: nat,
    ) -> Seq<StoreCall>
        decreases count,
    {
        if count == 0 {
            Seq::empty()
        } else {
            self.all_read_puts(reads, data, results, now, (count - 1) as nat) + self.reads_done(
                reads,
                results,
                now,
                (count - 1) as nat,
            ).read_puts(
                reads[count - 1].0,
                reads[count - 1].1,
                data[count - 1],
                results[count - 1],
                now,
            )
        }
    }

    /// What the clock is read for a stripe that was read.
    pub open spec fn read_readings(self, id: usize, ok: bool, result: ReadResult) -> Seq<u64> {
        if self.m.read_to_encode(id, ok) {
            result.readings()
        } else {
            Seq::empty()
        }
    }

    /// What the clock is read for the first `count` reads.
    pub open spec fn all_read_readings(
        self,
        reads: Seq<(usize, bool)>,
        results: Seq<ReadResult>,
        now: u64,
        count: nat,
    ) -> Seq<u64>
        decreases count,
    {
        if count == 0 {
            Seq::empty()
        } else {
            self.all_read_readings(reads, results, now, (count - 1) as nat) + self.reads_done(
                reads,
                results,
                now,
                (count - 1) as nat,
            ).read_readings(reads[count - 1].0, reads[count - 1].1, results[count - 1])
        }
    }

    /// What became of the first `count` reads can become of their data.
    pub open spec fn reads_encode(
        self,
        reads: Seq<(usize, bool)>,
        data: Seq<Option<Seq<u8>>>,
        results: Seq<ReadResult>,
        now: u64,
        count: nat,
    ) -> bool
        decreases count,
    {
        count == 0 || {
            let t = self.reads_done(reads, results, now, (count - 1) as nat);
            &&& self.reads_encode(reads, data, results, now, (count - 1) as nat)
            &&& t.m.read_to_encode(reads[count - 1].0, reads[count - 1].1) ==> t.m.encodes(
                reads[count - 1].0,
                data[count - 1],
                results[count - 1],
            )
        }
    }

    /// An upload finished.
    pub open spec fn put(self, name: Seq<char>, ok: bool, now: u64) -> TickModel {
        let stripe = stripe_named(name);
        TickModel {
            m: self.m.after_put(stripe, ok, now),
            s: self.m.state_after_put(self.s, stripe, ok, now),
            f: self.m.flusher_after_put(self.f, stripe, ok),
        }
    }

    /// The first `count` uploads finished.
    pub open spec fn puts_done(self, puts: Seq<(String, bool)>, now: u64, count: nat) -> TickModel
        decreases count,
    {
        if count == 0 {
            self
        } else {
            self.puts_done(puts, now, (count - 1) as nat).put(
                puts[count - 1].0@,
                puts[count - 1].1,
                now,
            )
        }
    }

    /// A draining stripe took its next step; `submitted` says whether its
    /// read, if it was one, could be handed over.
    pub open spec fn drained(self, id: usize, submitted: bool, now: u64) -> TickModel {
        let t = TickModel {
            m: self.m.after_drain(self.s, id, now),
            s: self.m.state_after_drain(self.s, id, now),
            f: self.m.flusher_after_drain(self.s, self.f, id, now),
        };
        if self.m.drain_reads(self.s, id, now) && !submitted {
            TickModel {
                m: t.m.after_unsubmitted(id, now),
                s: t.m.state_after_unsubmitted(t.s, id),
                ..t
            }
        } else {
            t
        }
    }

    /// The first `count` of the draining stripes `ids` took their next step.
    pub open spec fn all_drained(
        self,
        ids: Seq<usize>,
        submits: Seq<Answer>,
        now: u64,
        count: nat,
    ) -> TickModel
        decreases count,
    {
        if count == 0 {
            self
        } else {
            self.all_drained(ids, submits, now, (count - 1) as nat).drained(
                ids[count - 1],
                submits[count - 1] is Ok,
                now,
            )
        }
    }

    /// The data device is asked to read a stripe that drained.
    pub open spec fn drain_calls(self, id: usize, submitted: Answer, now: u64) -> Seq<
        IoCall<Seq<u8>>,
    > {
        if self.m.drain_reads(self.s, id, now) {
            self.m.read_calls(id, submitted)
        } else {
            Seq::empty()
        }
    }

    /// What the data device is asked for the first `count` of the draining
    /// stripes `ids`.
    pub open spec fn all_drain_calls(
        self,
        ids: Seq<usize>,
        submits: Seq<Answer>,
        now: u64,
        count: nat,
    ) -> Seq<IoCall<Seq<u8>>>
        decreases count,
    {
        if count == 0 {
            Seq::empty()
        } else {
            self.all_drain_calls(ids, submits, now, (count - 1) as nat) + self.all_drained(
                ids,
                submits,
                now,
                (count - 1) as nat,
            ).drain_calls(ids[count - 1], submits[count - 1], now)
        }
    }

    /// A header op that is due was issued again.
    pub open spec fn retried(self, id: usize, now: u64) -> TickModel {
        if self.m.retry_due(id, now) {
            TickModel {
                m: self.m.after_header_op(id),
                f: self.m.flusher_after_header_op(self.f, id),
                ..self
            }
        } else {
            self
        }
    }

    /// The first `count` header ops of `ids` were issued again.
    pub open spec fn all_retried(self, ids: Seq<usize>, now: u64, count: nat) -> TickModel
        decreases count,
    {
        if count == 0 {
            self
        } else {
            self.all_retried(ids, now, (count - 1) as nat).retried(ids[count - 1], now)
        }
    }

    /// Stripes that were skipped long enough are skipped no more.
    #[verifier::opaque]
    pub open spec fn expired(self, now: u64) -> TickModel {
        TickModel {
            m: EvictorModel {
                recent: EvictorModel::still_skipped(self.m.recent, now),
                ..self.m
            },
            ..self
        }
    }

    /// The pressure was judged and the write gate moved.
    #[verifier::opaque]
    pub open spec fn assessed(self) -> TickModel {
        TickModel {
            m: self.m.after_assess(self.s),
            s: self.m.state_after_assess(self.s),
            ..self
        }
    }

    /// New evictions were started.
    #[verifier::opaque]
    pub open spec fn selected(self, now: u64) -> TickModel {
        TickModel {
            m: self.m.after_select(self.s, now),
            s: self.m.state_after_select(self.s, now),
            ..self
        }
    }

    /// The uploads of a tick, which only a store reports.
    #[verifier::opaque]
    pub open spec fn store_polled(self, puts: Seq<(String, bool)>, now: u64) -> TickModel {
        if self.m.has_store {
            self.puts_done(puts, now, puts.len())
        } else {
            self
        }
    }

    /// Draining stripes took their next step.
    #[verifier::opaque]
    pub open spec fn advanced(self, submits: Seq<Answer>, now: u64) -> TickModel {
        let ids = self.m.ids_where(drains());
        self.all_drained(ids, submits, now, ids.len())
    }

    /// What the data device is asked for them.
    #[verifier::opaque]
    pub open spec fn advance_calls(self, submits: Seq<Answer>, now: u64) -> Seq<IoCall<Seq<u8>>> {
        let ids = self.m.ids_where(drains());
        self.all_drain_calls(ids, submits, now, ids.len())
    }

    /// The store is asked for finished uploads, if there is one.
    #[verifier::opaque]
    pub open spec fn poll_put_calls(self, puts: Seq<(String, bool)>) -> Seq<StoreCall> {
        if self.m.has_store {
            seq![StoreCall::PollPuts { done: puts }]
        } else {
            Seq::empty()
        }
    }

    /// Header ops that are due were issued again.
    #[verifier::opaque]
    pub open spec fn headers_retried(self, now: u64) -> TickModel {
        let ids = self.m.ids_where(retries(now));
        self.all_retried(ids, now, ids.len())
    }

    /// One tick: outcomes first, then completions, then new work.
    pub open spec fn ticked(
        self,
        outcomes: Seq<PersistOutcome>,
        inputs: TickInputs,
        now: u64,
    ) -> TickModel {
        self.refreshed(inputs.free, now).outcomes_applied(
            outcomes,
            inputs.punches,
            now,
            outcomes.len(),
        ).resubmitted(inputs.resubmitted is Ok).reads_done(
            inputs.reads,
            inputs.results,
            now,
            inputs.reads.len(),
        ).store_polled(inputs.puts, now).advanced(inputs.submits, now).headers_retried(
            now,
        ).expired(now).assessed().selected(now)
    }

    /// A tick once the header outcomes were applied.
    pub open spec fn with_outcomes(
        self,
        outcomes: Seq<PersistOutcome>,
        inputs: TickInputs,
        now: u64,
    ) -> TickModel {
        self.refreshed(inputs.free, now).outcomes_applied(
            outcomes,
            inputs.punches,
            now,
            outcomes.len(),
        )
    }

    /// A tick once the reads were handed over again.
    pub open spec fn before_reads(
        self,
        outcomes: Seq<PersistOutcome>,
        inputs: TickInputs,
        now: u64,
    ) -> TickModel {
        self.with_outcomes(outcomes, inputs, now).resubmitted(inputs.resubmitted is Ok)
    }

    /// A tick once the finished reads were taken.
    pub open spec fn after_reads(
        self,
        outcomes: Seq<PersistOutcome>,
        inputs: TickInputs,
        now: u64,
    ) -> TickModel {
        self.before_reads(outcomes, inputs, now).reads_done(
            inputs.reads,
            inputs.results,
            now,
            inputs.reads.len(),
        )
    }

    /// What the puncher is asked in a tick.
    pub open spec fn punch_calls(
        self,
        outcomes: Seq<PersistOutcome>,
        inputs: TickInputs,
        now: u64,
    ) -> Seq<PunchCall> {
        self.refresh_calls(inputs.free, now) + self.refreshed(inputs.free, now).all_outcome_calls(
            outcomes,
            inputs.punches,
            now,
            outcomes.len(),
        )
    }

    /// What the data device is asked in a tick.
    pub open spec fn read_calls(
        self,
        outcomes: Seq<PersistOutcome>,
        inputs: TickInputs,
        now: u64,
    ) -> Seq<IoCall<Seq<u8>>> {
        self.with_outcomes(outcomes, inputs, now).resubmit_calls(inputs.resubmitted) + seq![
            IoCall::Poll { done: inputs.reads },
        ] + take_calls(inputs.reads, inputs.data) + self.after_reads(
            outcomes,
            inputs,
            now,
        ).store_polled(inputs.puts, now).advance_calls(inputs.submits, now)
    }

    /// What the store is asked in a tick.
    pub open spec fn store_calls(
        self,
        outcomes: Seq<PersistOutcome>,
        inputs: TickInputs,
        now: u64,
    ) -> Seq<StoreCall> {
        self.before_reads(outcomes, inputs, now).all_read_puts(
            inputs.reads,
            inputs.data,
            inputs.results,
            now,
            inputs.reads.len(),
        ) + self.after_reads(outcomes, inputs, now).poll_put_calls(inputs.puts)
    }

    /// What the clock is read during a tick.
    pub open spec fn clock_readings(
        self,
        outcomes: Seq<PersistOutcome>,
        inputs: TickInputs,
        now: u64,
    ) -> Seq<u64> {
        seq![now] + self.before_reads(outcomes, inputs, now).all_read_readings(
            inputs.reads,
            inputs.results,
            now,
            inputs.reads.len(),
        )
    }

    /// What became of the reads of a tick can become of their data.
    pub open spec fn encoded(
        self,
        outcomes: Seq<PersistOutcome>,
        inputs: TickInputs,
        now: u64,
    ) -> bool {
        self.before_reads(outcomes, inputs, now).reads_encode(
            inputs.reads,
            inputs.data,
            inputs.results,
            now,
            inputs.reads.len(),
        )
    }
}

/// The data of finished reads, as the data device is asked for it.
pub open spec fn take_calls(
    reads: Seq<(usize, bool)>,
    data: Seq<Option<Seq<u8>>>,
) -> Seq<IoCall<Seq<u8>>> {
    Seq::new(data.len(), |i: int| IoCall::TakeRead { id: reads[i].0, data: data[i] })
}

/// The stripe an object's name denotes.
pub open spec fn stripe_named(name: Seq<char>) -> Option<usize> {
    match named_stripe(name) {
        Some(v) => Some(v as usize),
        None => None,
    }
}

/// Runs of consecutive numbers, each as its first and last, in a sequence of
/// ascending numbers.
pub open spec fn runs_of(ids: Seq<usize>) -> Seq<(usize, usize)>
    decreases ids.len(),
{
    if ids.len() == 0 {
        Seq::empty()
    } else {
        let before = runs_of(ids.drop_last());
        let id = ids.last();
        if before.len() > 0 && id == before.last().1 + 1 {
            before.drop_last().push((before.last().0, id))
        } else {
            before.push((id, id))
        }
    }
}

/// How many numbers the runs hold.
pub open spec fn runs_len(runs: Seq<(usize, usize)>) -> int
    decreases runs.len(),
{
    if runs.len() == 0 {
        0
    } else {
        runs_len(runs.drop_last()) + (runs.last().1 - runs.last().0 + 1)
    }
}

/// Where a run starts on the device, in bytes.
pub open spec fn run_offset(cfg: EvictorConfig, run: (usize, usize)) -> int {
    sector_offset(cfg, run.0 as int) * SECTOR_SIZE
}

/// Bytes of a run; a short last stripe makes it shorter.
pub open spec fn run_bytes(cfg: EvictorConfig, run: (usize, usize)) -> int {
    sector_offset(cfg, run.1 as int) * SECTOR_SIZE - run_offset(cfg, run) + sector_len(
        cfg,
        run.1 as int,
    ) * SECTOR_SIZE
}

/// What the puncher is asked in the startup pass.
pub open spec fn run_calls(
    cfg: EvictorConfig,
    runs: Seq<(usize, usize)>,
    punches: Seq<Answer>,
) -> Seq<PunchCall> {
    Seq::new(
        punches.len(),
        |i: int|
            PunchCall::Punch {
                offset: run_offset(cfg, runs[i]) as u64,
                len: run_bytes(cfg, runs[i]) as u64,
                result: punches[i],
            },
    )
}

/// The startup pass over the first `count` runs: the evictor, the shared state
/// and the stripes covered.
pub open spec fn runs_punched(
    m: EvictorModel,
    s: StateModel,
    runs: Seq<(usize, usize)>,
    punches: Seq<Result<(), IoError>>,
    count: nat,
) -> (EvictorModel, StateModel, int)
    decreases count,
{
    if count == 0 {
        (m, s, 0)
    } else {
        let before = runs_punched(m, s, runs, punches, (count - 1) as nat);
        match punches[count - 1] {
            Ok(_) => (
                before.0,
                before.1.with_spill(
                    SpillCounters {
                        startup_punches: inc(before.1.spill.startup_punches),
                        ..before.1.spill
                    },
                ),
                before.2 + (runs[count - 1].1 - runs[count - 1].0 + 1),
            ),
            Err(e) => (
                before.0.after_punch_failure(e.errno),
                state_after_punch_failure(before.1),
                before.2,
            ),
        }
    }
}

/// Runs of ascending numbers are in order, and hold exactly the numbers.
pub proof fn law_runs_hold_the_numbers(ids: Seq<usize>)
    requires
        forall|j: int, k: int| 0 <= j < k < ids.len() ==> ids[j] < ids[k],
    ensures
        runs_len(runs_of(ids)) == ids.len(),
        ids.len() > 0 ==> runs_of(ids).len() > 0 && runs_of(ids).last().1 == ids.last(),
        forall|k: int|
            0 <= k < runs_of(ids).len() ==> (#[trigger] runs_of(ids)[k]).0 <= runs_of(ids)[k].1,
        forall|k: int|
            0 <= k < runs_of(ids).len() ==> ids.contains((#[trigger] runs_of(ids)[k]).1)
                && ids.contains(runs_of(ids)[k].0),
        forall|id: usize| #[trigger] in_runs(runs_of(ids), id) == ids.contains(id),
    decreases ids.len(),
{
    if ids.len() > 0 {
        let rest = ids.drop_last();
        law_runs_hold_the_numbers(rest);
        let before = runs_of(rest);
        let id = ids.last();
        let runs = runs_of(ids);
        assert forall|x: usize| rest.contains(x) implies ids.contains(x) by {
            let k = rest.index_of(x);
            assert(ids[k] == x);
        }
        assert(ids[ids.len() - 1] == id);
        assert(ids.contains(id));
        if before.len() > 0 && id == before.last().1 + 1 {
            let first = before.last().0;
            assert(runs.drop_last() =~= before.drop_last());
            assert(runs_len(runs) == runs_len(before) + 1);
            assert forall|x: usize| #[trigger] in_runs(runs, x) == ids.contains(x) by {
                if in_runs(runs, x) {
                    let k = choose|k: int|
                        0 <= k < runs.len() && (#[trigger] runs[k]).0 <= x <= runs[k].1;
                    if x != id {
                        assert(before[k].0 <= x <= before[k].1);
                        assert(in_runs(before, x));
                        assert(rest.contains(x));
                    }
                }
                if ids.contains(x) {
                    if x == id {
                        assert(runs[runs.len() - 1].0 <= x <= runs[runs.len() - 1].1);
                    } else {
                        let j = ids.index_of(x);
                        assert(rest[j] == x);
                        assert(in_runs(before, x));
                        let k = choose|k: int|
                            0 <= k < before.len() && (#[trigger] before[k]).0 <= x
                                <= before[k].1;
                        assert(runs[k].0 <= x <= runs[k].1);
                    }
                }
            }
        } else {
            assert(runs.drop_last() =~= before);
            assert forall|x: usize| #[trigger] in_runs(runs, x) == ids.contains(x) by {
                if in_runs(runs, x) {
                    let k = choose|k: int|
                        0 <= k < runs.len() && (#[trigger] runs[k]).0 <= x <= runs[k].1;
                    if x != id {
                        assert(before[k].0 <= x <= before[k].1);
                        assert(in_runs(before, x));
                        assert(rest.contains(x));
                    }
                }
                if ids.contains(x) {
                    if x == id {
                        assert(runs[runs.len() - 1].0 <= x <= runs[runs.len() - 1].1);
                    } else {
                        let j = ids.index_of(x);
                        assert(rest[j] == x);
                        assert(in_runs(before, x));
                        let k = choose|k: int|
                            0 <= k < before.len() && (#[trigger] before[k]).0 <= x
                                <= before[k].1;
                        assert(runs[k].0 <= x <= runs[k].1);
                    }
                }
            }
        }
    }
}

/// Some run holds `id`.
pub open spec fn in_runs(runs: Seq<(usize, usize)>, id: usize) -> bool {
    exists|k: int| 0 <= k < runs.len() && (#[trigger] runs[k]).0 <= id <= runs[k].1
}

/// A claimed stripe in the shared state.
pub open spec fn state_after_begin(s: StateModel, id: usize) -> StateModel {
    if s.claimable(id as int) {
        s.with_fetch(id as int, crate::metadata::shared_state::Evicting)
    } else {
        s
    }
}

/// A punch is counted.
pub open spec fn state_punched(s: StateModel, punched: Result<(), IoError>) -> StateModel {
    match punched {
        Ok(_) => s.with_spill(SpillCounters { punches: inc(s.spill.punches), ..s.spill }),
        Err(e) => state_after_punch_failure(s),
    }
}

/// A stripe is gone, and counted by its kind.
pub open spec fn state_evicted(s: StateModel, id: int, previous: u8, kind: Kind) -> StateModel {
    let gone = s.after_finish_evicting(id, previous, kind == Kind::Dirty);
    gone.with_spill(
        match kind {
            Kind::Clean => SpillCounters {
                evicted_clean: inc(gone.spill.evicted_clean),
                ..gone.spill
            },
            Kind::Dirty => SpillCounters {
                evicted_dirty: inc(gone.spill.evicted_dirty),
                ..gone.spill
            },
        },
    )
}

/// A failed punch is counted, and is an anomaly.
pub open spec fn state_after_punch_failure(s: StateModel) -> StateModel {
    s.with_spill(
        SpillCounters {
            punch_failures: inc(s.spill.punch_failures),
            degraded_reasons: inc(s.spill.degraded_reasons),
            ..s.spill
        },
    )
}

/// The hand skips `id`.
pub open spec fn skipped(recent: Map<usize, u64>, id: usize) -> bool {
    recent.dom().contains(id)
}

/// Where a search ends: at the record, or behind the last.
pub proof fn lemma_find(records: Seq<Eviction>, id: usize, from: int)
    requires
        0 <= from <= records.len(),
    ensures
        from <= find_from(records, id, from) <= records.len(),
        find_from(records, id, from) < records.len() ==> records[find_from(
            records,
            id,
            from,
        )].stripe_id == id,
        forall|i: int|
            from <= i < find_from(records, id, from) ==> (#[trigger] records[i]).stripe_id != id,
    decreases records.len() - from,
{
    if from < records.len() && records[from].stripe_id != id {
        lemma_find(records, id, from + 1);
    }
}

/// Counting after one record changed.
pub proof fn lemma_count_update(
    records: Seq<Eviction>,
    p: spec_fn(Eviction) -> bool,
    at: int,
    r: Eviction,
)
    requires
        0 <= at < records.len(),
    ensures
        count_records(records.update(at, r), p) == count_records(records, p) + (if p(r) {
            1int
        } else {
            0
        }) - (if p(records[at]) {
            1int
        } else {
            0
        }),
    decreases records.len(),
{
    let changed = records.update(at, r);
    if at == records.len() - 1 {
        assert(changed.drop_last() =~= records.drop_last());
    } else {
        lemma_count_update(records.drop_last(), p, at, r);
        assert(changed.drop_last() =~= records.drop_last().update(at, r));
    }
}

/// Counting after one record left.
pub proof fn lemma_count_remove(records: Seq<Eviction>, p: spec_fn(Eviction) -> bool, at: int)
    requires
        0 <= at < records.len(),
    ensures
        count_records(records.remove(at), p) == count_records(records, p) - (if p(records[at]) {
            1int
        } else {
            0
        }),
    decreases records.len(),
{
    let left = records.remove(at);
    if at == records.len() - 1 {
        assert(left =~= records.drop_last());
    } else {
        lemma_count_remove(records.drop_last(), p, at);
        assert(left.drop_last() =~= records.drop_last().remove(at));
        assert(left.last() == records.last());
    }
}

/// Counting after one record joined.
pub proof fn lemma_count_push(records: Seq<Eviction>, p: spec_fn(Eviction) -> bool, r: Eviction)
    ensures
        count_records(records.push(r), p) == count_records(records, p) + (if p(r) {
            1nat
        } else {
            0nat
        }),
{
    assert(records.push(r).drop_last() =~= records);
}

/// No more records satisfy a predicate than there are.
pub proof fn lemma_count_records_bound(records: Seq<Eviction>, p: spec_fn(Eviction) -> bool)
    ensures
        count_records(records, p) <= records.len(),
    decreases records.len(),
{
    if records.len() > 0 {
        lemma_count_records_bound(records.drop_last(), p);
    }
}

/// Whether a stripe has a record, in terms of the records.
pub proof fn lemma_tracks(records: Seq<Eviction>, id: usize)
    ensures
        (find(records, id) < records.len()) == (exists|i: int|
            0 <= i < records.len() && (#[trigger] records[i]).stripe_id == id),
        0 <= find(records, id) <= records.len(),
        find(records, id) < records.len() ==> records[find(records, id)].stripe_id == id,
{
    lemma_find(records, id, 0);
}

/// A record that changes in place keeps what holds of the records.
pub proof fn lemma_records_update(
    records: Seq<Eviction>,
    free: int,
    puts: int,
    limit: usize,
    n: nat,
    at: int,
    r: Eviction,
    free_after: int,
    puts_after: int,
)
    requires
        EvictorModel::records_ok(records, free, puts, limit, n),
        0 <= at < records.len(),
        r.stripe_id == records[at].stripe_id,
        EvictorModel::record_ok(r, n),
        free_after == free + (if records[at].holds_buffer {
            1int
        } else {
            0
        }) - (if r.holds_buffer {
            1int
        } else {
            0
        }),
        puts_after <= 0 || puts_after <= puts + (if is_putting()(r) {
            1int
        } else {
            0
        }) - (if is_putting()(records[at]) {
            1int
        } else {
            0
        }),
    ensures
        EvictorModel::records_ok(records.update(at, r), free_after, puts_after, limit, n),
{
    lemma_count_update(records, holds_buffer(), at, r);
    lemma_count_update(records, is_putting(), at, r);
    let changed = records.update(at, r);
    assert forall|i: int, j: int| 0 <= i < j < changed.len() implies (
    #[trigger] changed[i]).stripe_id != (#[trigger] changed[j]).stripe_id by {
        assert(records[i].stripe_id != records[j].stripe_id);
    }
}

/// A record that leaves keeps what holds of the others.
pub proof fn lemma_records_remove(
    records: Seq<Eviction>,
    free: int,
    puts: int,
    limit: usize,
    n: nat,
    at: int,
    puts_after: int,
)
    requires
        EvictorModel::records_ok(records, free, puts, limit, n),
        0 <= at < records.len(),
        !records[at].holds_buffer,
        puts_after <= 0 || puts_after <= puts - (if is_putting()(records[at]) {
            1int
        } else {
            0
        }),
    ensures
        EvictorModel::records_ok(records.remove(at), free, puts_after, limit, n),
{
    lemma_count_remove(records, holds_buffer(), at);
    lemma_count_remove(records, is_putting(), at);
    let left = records.remove(at);
    assert forall|i: int| 0 <= i < left.len() implies EvictorModel::record_ok(
        #[trigger] left[i],
        n,
    ) by {
        assert(left[i] == records[if i < at {
            i
        } else {
            i + 1
        }]);
    }
    assert forall|i: int, j: int| 0 <= i < j < left.len() implies (#[trigger] left[i]).stripe_id
        != (#[trigger] left[j]).stripe_id by {
        let a = if i < at {
            i
        } else {
            i + 1
        };
        let b = if j < at {
            j
        } else {
            j + 1
        };
        assert(records[a].stripe_id != records[b].stripe_id);
    }
}

/// A claim of a stripe that has no record keeps what holds of the records.
pub proof fn lemma_records_push(
    records: Seq<Eviction>,
    free: int,
    puts: int,
    limit: usize,
    n: nat,
    r: Eviction,
)
    requires
        EvictorModel::records_ok(records, free, puts, limit, n),
        records.len() < limit,
        find(records, r.stripe_id) == records.len(),
        EvictorModel::record_ok(r, n),
        !r.holds_buffer,
        !is_putting()(r),
    ensures
        EvictorModel::records_ok(records.push(r), free, puts, limit, n),
{
    lemma_count_push(records, holds_buffer(), r);
    lemma_count_push(records, is_putting(), r);
    lemma_find(records, r.stripe_id, 0);
}

/// A search finds the same place when no record's stripe changed.
pub proof fn lemma_find_same(a: Seq<Eviction>, b: Seq<Eviction>, id: usize)
    requires
        a.len() == b.len(),
        forall|i: int|
            0 <= i < a.len() ==> (#[trigger] a[i]).stripe_id == (#[trigger] b[i]).stripe_id,
    ensures
        find(a, id) == find(b, id),
{
    lemma_find(a, id, 0);
    lemma_find(b, id, 0);
    let x = find(a, id);
    let y = find(b, id);
    if x < a.len() {
        assert(a[x].stripe_id == b[x].stripe_id);
    }
    if y < b.len() {
        assert(a[y].stripe_id == b[y].stripe_id);
    }
}

/// Header ops touch only bits that may change.
pub proof fn lemma_header_bits()
    ensures
        forall|kind: Kind|
            (#[trigger] header_set(kind) | header_clear(kind)) & !UPDATABLE_MASK == 0,
{
    assert(((0x08u8 | 0x10u8) | 0x01u8) & !0x3bu8 == 0 && (0x08u8 | (0x01u8 | 0x10u8)) & !0x3bu8
        == 0) by (bit_vector);
}

/// A stripe of the device lies within addressable bytes.
pub proof fn lemma_stripe_fits(m: EvictorModel, n: nat, id: usize)
    requires
        m.wf(n),
        id < n,
    ensures
        0 <= sector_offset(m.cfg, id as int) * SECTOR_SIZE,
        sector_offset(m.cfg, id as int) * SECTOR_SIZE + stripe_size(m.cfg) <= u64::MAX,
        0 <= sector_len(m.cfg, id as int) <= m.cfg.stripe_sector_count,
        sector_len(m.cfg, id as int) * SECTOR_SIZE <= stripe_size(m.cfg),
{
    let c = m.cfg.stripe_sector_count as int;
    let i = id as int;
    assert(0 <= i * c && i * c * 512 + c * 512 <= n * (c * 512)) by (nonlinear_arith)
        requires
            0 <= i,
            i + 1 <= n,
            0 <= c,
    ;
}

/// An abort keeps an evictor well-formed.
pub proof fn lemma_abort_wf(m: EvictorModel, id: usize, now: u64, n: nat)
    requires
        m.wf(n),
    ensures
        m.after_abort(id, now).wf(n),
{
    lemma_find(m.records, id, 0);
    if m.evicting(id) {
        let at = find(m.records, id);
        let r = m.record(id);
        if r.io_outstanding {
            lemma_records_update(
                m.records,
                m.free_buffers as int,
                m.puts as int,
                m.cfg.max_concurrent_evictions,
                n,
                at,
                Eviction { deferred_fetch: false, deferred_push: None, aborted: true, ..r },
                m.free_buffers as int,
                m.puts as int,
            );
        } else {
            lemma_records_remove(
                m.records,
                m.free_buffers as int,
                m.puts as int,
                m.cfg.max_concurrent_evictions,
                n,
                at,
                m.puts as int,
            );
        }
    }
}

/// A read that is over leaves an evictor well-formed, and its record in place.
pub proof fn lemma_read_over_wf(m: EvictorModel, id: usize, n: nat)
    requires
        m.wf(n),
        m.tracks(id),
        m.record(id).stage == Stage::Reading,
    ensures
        m.after_read_over(id).wf(n),
        m.after_read_over(id).tracks(id),
        find(m.after_read_over(id).records, id) == find(m.records, id),
        m.after_read_over(id).record(id) == (Eviction {
            io_outstanding: false,
            holds_buffer: false,
            ..m.record(id)
        }),
        m.after_read_over(id).free_buffers <= m.cfg.max_concurrent_evictions,
{
    lemma_find(m.records, id, 0);
    let over = m.after_read_over(id);
    lemma_records_update(
        m.records,
        m.free_buffers as int,
        m.puts as int,
        m.cfg.max_concurrent_evictions,
        n,
        find(m.records, id),
        Eviction { io_outstanding: false, holds_buffer: false, ..m.record(id) },
        over.free_buffers as int,
        m.puts as int,
    );
    lemma_find_same(m.records, over.records, id);
}

/// A read completion keeps an evictor well-formed.
pub proof fn lemma_read_wf(m: EvictorModel, id: usize, ok: bool, now: u64, n: nat)
    requires
        m.wf(n),
    ensures
        m.after_read(id, ok, now).wf(n),
{
    if m.read_is_owed(id) {
        lemma_read_over_wf(m, id, n);
        let over = m.after_read_over(id);
        lemma_abort_wf(over, id, now, n);
        if m.record(id).holds_buffer && m.record(id).aborted {
            lemma_find(over.records, id, 0);
            lemma_records_remove(
                over.records,
                over.free_buffers as int,
                over.puts as int,
                over.cfg.max_concurrent_evictions,
                n,
                find(over.records, id),
                over.puts as int,
            );
        }
    }
}

/// A header op keeps an evictor well-formed.
pub proof fn lemma_header_op_wf(m: EvictorModel, id: usize, n: nat)
    requires
        m.wf(n),
        m.tracks(id) ==> !m.record(id).holds_buffer && !is_putting()(m.record(id)),
    ensures
        m.after_header_op(id).wf(n),
{
    if m.tracks(id) {
        lemma_find(m.records, id, 0);
        lemma_records_update(
            m.records,
            m.free_buffers as int,
            m.puts as int,
            m.cfg.max_concurrent_evictions,
            n,
            find(m.records, id),
            Eviction {
                stage: Stage::WritingHeader { token: token_of(m.record(id).epoch) },
                retry_at: None,
                ..m.record(id)
            },
            m.free_buffers as int,
            m.puts as int,
        );
    }
}

/// An upload that is over leaves an evictor well-formed, and its record in
/// place.
pub proof fn lemma_put_over_wf(m: EvictorModel, id: usize, n: nat)
    requires
        m.wf(n),
        m.tracks(id),
        m.record(id).stage == Stage::Putting,
    ensures
        m.after_put_over(id).wf(n),
        m.after_put_over(id).tracks(id),
        find(m.after_put_over(id).records, id) == find(m.records, id),
        m.after_put_over(id).record(id) == (Eviction { io_outstanding: false, ..m.record(id) }),
{
    lemma_find(m.records, id, 0);
    let over = m.after_put_over(id);
    lemma_records_update(
        m.records,
        m.free_buffers as int,
        m.puts as int,
        m.cfg.max_concurrent_evictions,
        n,
        find(m.records, id),
        Eviction { io_outstanding: false, ..m.record(id) },
        m.free_buffers as int,
        over.puts as int,
    );
    lemma_find_same(m.records, over.records, id);
}

/// An upload completion keeps an evictor well-formed.
pub proof fn lemma_put_wf(m: EvictorModel, stripe: Option<usize>, ok: bool, now: u64, n: nat)
    requires
        m.wf(n),
    ensures
        m.after_put(stripe, ok, now).wf(n),
{
    if m.put_is_owed(stripe) {
        let id = stripe->0;
        lemma_put_over_wf(m, id, n);
        let over = m.after_put_over(id);
        if m.record(id).aborted {
            lemma_find(over.records, id, 0);
            lemma_records_remove(
                over.records,
                over.free_buffers as int,
                over.puts as int,
                over.cfg.max_concurrent_evictions,
                n,
                find(over.records, id),
                over.puts as int,
            );
        } else if ok {
            lemma_find(over.records, id, 0);
            assert(EvictorModel::record_ok(over.records[find(over.records, id)], n));
            lemma_header_op_wf(over.after_recovery(), id, n);
        } else {
            lemma_abort_wf(over.after_store_failure(now), id, now, n);
        }
    }
}

/// Another kind keeps an evictor well-formed, and the record in place.
pub proof fn lemma_kind_wf(m: EvictorModel, id: usize, kind: Kind, n: nat)
    requires
        m.wf(n),
        m.tracks(id),
    ensures
        m.with_kind(id, kind).wf(n),
        m.with_kind(id, kind).tracks(id),
        find(m.with_kind(id, kind).records, id) == find(m.records, id),
        m.with_kind(id, kind).record(id) == (Eviction { kind, ..m.record(id) }),
{
    lemma_find(m.records, id, 0);
    lemma_records_update(
        m.records,
        m.free_buffers as int,
        m.puts as int,
        m.cfg.max_concurrent_evictions,
        n,
        find(m.records, id),
        Eviction { kind, ..m.record(id) },
        m.free_buffers as int,
        m.puts as int,
    );
    lemma_find_same(m.records, m.with_kind(id, kind).records, id);
}

/// A read that starts keeps an evictor well-formed, and the record in place.
pub proof fn lemma_start_read_wf(m: EvictorModel, id: usize, n: nat)
    requires
        m.wf(n),
        m.tracks(id),
        m.record(id).stage == Stage::Draining,
    ensures
        m.after_start_read(id).wf(n),
        m.after_start_read(id).tracks(id),
        find(m.after_start_read(id).records, id) == find(m.records, id),
        m.free_buffers > 0 ==> m.after_start_read(id).record(id) == (Eviction {
            holds_buffer: true,
            stage: Stage::Reading,
            io_outstanding: true,
            ..m.record(id)
        }),
{
    lemma_find(m.records, id, 0);
    if m.free_buffers > 0 {
        lemma_records_update(
            m.records,
            m.free_buffers as int,
            m.puts as int,
            m.cfg.max_concurrent_evictions,
            n,
            find(m.records, id),
            Eviction {
                holds_buffer: true,
                stage: Stage::Reading,
                io_outstanding: true,
                ..m.record(id)
            },
            m.free_buffers - 1,
            m.puts as int,
        );
        lemma_find_same(m.records, m.after_start_read(id).records, id);
    }
}

/// The next step of a draining stripe keeps an evictor well-formed.
pub proof fn lemma_drain_wf(m: EvictorModel, s: StateModel, id: usize, now: u64)
    requires
        m.wf(s.fetch.len()),
    ensures
        m.after_drain(s, id, now).wf(s.fetch.len()),
        m.drain_reads(s, id, now) ==> m.after_drain(s, id, now).tracks(id) && m.after_drain(
            s,
            id,
            now,
        ).record(id).io_outstanding,
{
    let n = s.fetch.len();
    if m.is_draining(id) {
        lemma_find(m.records, id, 0);
        assert(EvictorModel::record_ok(m.records[find(m.records, id)], n));
        lemma_abort_wf(m, id, now, n);
        lemma_header_op_wf(m, id, n);
        lemma_kind_wf(m, id, Kind::Dirty, n);
        lemma_start_read_wf(m.with_kind(id, Kind::Dirty), id, n);
    }
}

/// A claim keeps an evictor well-formed, and only the claimed stripe gains a
/// record.
pub proof fn lemma_begin_wf(m: EvictorModel, s: StateModel, id: usize, kind: Kind, now: u64)
    requires
        m.wf(s.fetch.len()),
        id < s.fetch.len(),
        s.claimable(id as int) ==> !m.tracks(id) && m.records.len()
            < m.cfg.max_concurrent_evictions,
    ensures
        m.after_begin(s, id, kind, now).wf(s.fetch.len()),
        forall|other: usize| #[trigger]
            m.after_begin(s, id, kind, now).tracks(other) ==> m.tracks(other) || (other == id
                && s.claimable(id as int)),
{
    let after = m.after_begin(s, id, kind, now);
    lemma_find(m.records, id, 0);
    if s.claimable(id as int) {
        lemma_records_push(
            m.records,
            m.free_buffers as int,
            m.puts as int,
            m.cfg.max_concurrent_evictions,
            s.fetch.len(),
            after.records.last(),
        );
    }
    assert forall|other: usize| #[trigger] after.tracks(other) implies m.tracks(other) || (other
        == id && s.claimable(id as int)) by {
        lemma_tracks(after.records, other);
        lemma_tracks(m.records, other);
        let i = find(after.records, other);
        if i < m.records.len() {
            assert(m.records[i].stripe_id == other);
        }
    }
}

/// A claim keeps a sweep in order.
pub proof fn lemma_claim_ok(x: SweepModel, id: usize, kind: Kind, now: u64, n: nat)
    requires
        x.ok(n),
        id < n,
        x.s.claimable(id as int) ==> !x.m.tracks(id) && x.m.records.len()
            < x.m.cfg.max_concurrent_evictions,
    ensures
        x.with_claim(id, kind, now).ok(n),
{
    lemma_begin_wf(x.m, x.s, id, kind, now);
    let y = x.with_claim(id, kind, now);
    assert forall|k: int| 0 <= k < y.deferred.len() implies !(y.m.tracks(
        #[trigger] y.deferred[k],
    ) && y.s.claimable(y.deferred[k] as int)) by {
        assert(!(x.m.tracks(x.deferred[k]) && x.s.claimable(x.deferred[k] as int)));
    }
}

/// Examining one stripe keeps a sweep in order.
pub proof fn lemma_step_ok(
    x: SweepModel,
    clean_possible: bool,
    dirty_possible: bool,
    now: u64,
    n: nat,
)
    requires
        x.ok(n),
        x.goes_on(),
    ensures
        x.step(clean_possible, dirty_possible, now).ok(n),
        x.moved(n).ok(n),
        x.moved(n).unreferenced(x.m.hand).ok(n),
        x.step(clean_possible, dirty_possible, now).m.cfg == x.m.cfg,
{
    let id = x.m.hand;
    let on = x.moved(n);
    assert((x.m.hand + 1) % (n as int) < n) by (nonlinear_arith)
        requires
            n > 0,
    ;
    assert forall|k: int| 0 <= k < on.deferred.len() implies !(on.m.tracks(
        #[trigger] on.deferred[k],
    ) && on.s.claimable(on.deferred[k] as int)) by {
        assert(!(x.m.tracks(x.deferred[k]) && x.s.claimable(x.deferred[k] as int)));
    }
    let taken = on.unreferenced(id);
    assert forall|k: int| 0 <= k < taken.deferred.len() implies !(taken.m.tracks(
        #[trigger] taken.deferred[k],
    ) && taken.s.claimable(taken.deferred[k] as int)) by {
        assert(!(x.m.tracks(x.deferred[k]) && x.s.claimable(x.deferred[k] as int)));
    }
    if !x.m.tracks(id) {
        lemma_claim_ok(taken, id, Kind::Clean, now, n);
        lemma_claim_ok(taken, id, Kind::Dirty, now, n);
        let put_off = SweepModel { deferred: x.deferred.push(id), ..taken };
        assert forall|k: int| 0 <= k < put_off.deferred.len() implies !(put_off.m.tracks(
            #[trigger] put_off.deferred[k],
        ) && put_off.s.claimable(put_off.deferred[k] as int)) by {
            if k < x.deferred.len() {
                assert(!(x.m.tracks(x.deferred[k]) && x.s.claimable(x.deferred[k] as int)));
            }
        }
        assert(put_off.ok(n));
    }
}

/// A stripe that is asked for keeps an evictor well-formed.
pub proof fn lemma_fetch_request_wf(m: EvictorModel, s: StateModel, id: usize, now: u64)
    requires
        m.wf(s.fetch.len()),
        id < s.fetch.len(),
    ensures
        m.after_fetch_request(s, id, now).wf(s.fetch.len()),
{
    lemma_abort_wf(m, id, now, s.fetch.len());
    if m.evicting(id) {
        lemma_find(m.records, id, 0);
        lemma_records_update(
            m.records,
            m.free_buffers as int,
            m.puts as int,
            m.cfg.max_concurrent_evictions,
            s.fetch.len(),
            find(m.records, id),
            Eviction { deferred_fetch: true, ..m.record(id) },
            m.free_buffers as int,
            m.puts as int,
        );
    }
}

/// A stripe that is pushed keeps an evictor well-formed.
pub proof fn lemma_pushed_stripe_wf(
    m: EvictorModel,
    s: StateModel,
    id: usize,
    data: Vec<u8>,
    permit: PushPermit,
    now: u64,
)
    requires
        m.wf(s.fetch.len()),
    ensures
        m.after_pushed_stripe(s, id, data, permit, now).wf(s.fetch.len()),
{
    lemma_abort_wf(m, id, now, s.fetch.len());
    if m.evicting(id) {
        lemma_find(m.records, id, 0);
        lemma_records_update(
            m.records,
            m.free_buffers as int,
            m.puts as int,
            m.cfg.max_concurrent_evictions,
            s.fetch.len(),
            find(m.records, id),
            Eviction { deferred_push: Some(HeldPush { data, permit }), ..m.record(id) },
            m.free_buffers as int,
            m.puts as int,
        );
    }
}

/// Counting records by what a change leaves alone.
pub proof fn lemma_count_mapped(
    records: Seq<Eviction>,
    change: spec_fn(Eviction) -> Eviction,
    p: spec_fn(Eviction) -> bool,
)
    requires
        forall|r: Eviction| p(#[trigger] change(r)) == p(r),
    ensures
        count_records(records.map_values(change), p) == count_records(records, p),
    decreases records.len(),
{
    if records.len() > 0 {
        lemma_count_mapped(records.drop_last(), change, p);
        assert(records.map_values(change).drop_last() =~= records.drop_last().map_values(
            change,
        ));
        assert(records.map_values(change).last() == change(records.last()));
    }
}

/// Reads handed over again keep an evictor well-formed.
pub proof fn lemma_resubmit_wf(m: EvictorModel, n: nat)
    requires
        m.wf(n),
    ensures
        m.after_resubmit().wf(n),
{
    let after = m.after_resubmit();
    lemma_count_mapped(m.records, resubmitted(), holds_buffer());
    lemma_count_mapped(m.records, resubmitted(), is_putting());
    assert forall|i: int| 0 <= i < after.records.len() implies EvictorModel::record_ok(
        #[trigger] after.records[i],
        n,
    ) by {
        assert(EvictorModel::record_ok(m.records[i], n));
    }
    assert forall|i: int, j: int| 0 <= i < j < after.records.len() implies (
    #[trigger] after.records[i]).stripe_id != (#[trigger] after.records[j]).stripe_id by {
        assert(m.records[i].stripe_id != m.records[j].stripe_id);
    }
}

/// `ids` are the evicted stripes, in ascending order.
pub open spec fn lists_evicted(ids: Seq<usize>, headers: Seq<u8>) -> bool {
    &&& forall|j: int, k: int| 0 <= j < k < ids.len() ==> ids[j] < ids[k]
    &&& forall|k: int|
        0 <= k < ids.len() ==> (#[trigger] ids[k]) < headers.len() && header_evicted(
            headers[ids[k] as int],
        )
    &&& forall|i: int|
        0 <= i < headers.len() && header_evicted(#[trigger] headers[i]) ==> ids.contains(
            i as usize,
        )
}

/// There are no more ascending numbers below `n` than `n`.
pub proof fn lemma_ascending_len(ids: Seq<usize>, n: nat)
    requires
        forall|j: int, k: int| 0 <= j < k < ids.len() ==> ids[j] < ids[k],
        forall|k: int| 0 <= k < ids.len() ==> (#[trigger] ids[k]) < n,
    ensures
        ids.len() <= n,
    decreases ids.len(),
{
    if ids.len() > 0 {
        let rest = ids.drop_last();
        assert forall|k: int| 0 <= k < rest.len() implies (#[trigger] rest[k]) < ids.last() by {
            assert(ids[k] < ids[ids.len() - 1]);
        }
        lemma_ascending_len(rest, ids.last() as nat);
    }
}

/// A pass over the first runs does not depend on later answers.
pub proof fn lemma_runs_punched_same(
    m: EvictorModel,
    s: StateModel,
    runs: Seq<(usize, usize)>,
    a: Seq<Result<(), IoError>>,
    b: Seq<Result<(), IoError>>,
    count: nat,
)
    requires
        count <= a.len(),
        a.is_prefix_of(b),
    ensures
        runs_punched(m, s, runs, a, count) == runs_punched(m, s, runs, b, count),
    decreases count,
{
    if count > 0 {
        lemma_runs_punched_same(m, s, runs, a, b, (count - 1) as nat);
        assert(a[count - 1] == b[count - 1]);
    }
}

/// Fewer runs hold no more numbers.
pub proof fn lemma_runs_len_take(runs: Seq<(usize, usize)>, count: int)
    requires
        0 <= count <= runs.len(),
        forall|k: int| 0 <= k < runs.len() ==> (#[trigger] runs[k]).0 <= runs[k].1,
    ensures
        0 <= runs_len(runs.take(count)) <= runs_len(runs),
    decreases runs.len(),
{
    if count == runs.len() {
        assert(runs.take(count) =~= runs);
        if runs.len() > 0 {
            lemma_runs_len_take(runs.drop_last(), count - 1);
            assert(runs.drop_last().take(count - 1) =~= runs.drop_last());
        }
    } else {
        lemma_runs_len_take(runs.drop_last(), count);
        assert(runs.drop_last().take(count) =~= runs.take(count));
    }
}

/// The first outcomes do not depend on later answers.
pub proof fn lemma_outcomes_same(
    t: TickModel,
    outcomes: Seq<PersistOutcome>,
    a: Seq<Result<(), IoError>>,
    b: Seq<Result<(), IoError>>,
    now: u64,
    count: nat,
)
    requires
        count <= a.len(),
        a.is_prefix_of(b),
    ensures
        t.outcomes_applied(outcomes, a, now, count) == t.outcomes_applied(
            outcomes,
            b,
            now,
            count,
        ),
        t.all_outcome_calls(outcomes, a, now, count) == t.all_outcome_calls(
            outcomes,
            b,
            now,
            count,
        ),
    decreases count,
{
    if count > 0 {
        lemma_outcomes_same(t, outcomes, a, b, now, (count - 1) as nat);
        assert(a[count - 1] == b[count - 1]);
    }
}

/// The first reads do not depend on later answers.
pub proof fn lemma_reads_same(
    t: TickModel,
    reads: Seq<(usize, bool)>,
    d: Seq<Option<Seq<u8>>>,
    e: Seq<Option<Seq<u8>>>,
    a: Seq<ReadResult>,
    b: Seq<ReadResult>,
    now: u64,
    count: nat,
)
    requires
        count <= a.len(),
        a.is_prefix_of(b),
        count <= d.len(),
        d.is_prefix_of(e),
    ensures
        t.reads_done(reads, a, now, count) == t.reads_done(reads, b, now, count),
        t.all_read_puts(reads, d, a, now, count) == t.all_read_puts(reads, e, b, now, count),
        t.all_read_readings(reads, a, now, count) == t.all_read_readings(reads, b, now, count),
        t.reads_encode(reads, d, a, now, count) == t.reads_encode(reads, e, b, now, count),
    decreases count,
{
    if count > 0 {
        lemma_reads_same(t, reads, d, e, a, b, now, (count - 1) as nat);
        assert(a[count - 1] == b[count - 1]);
        assert(d[count - 1] == e[count - 1]);
    }
}

/// One read more.
pub proof fn lemma_reads_next(
    t: TickModel,
    reads: Seq<(usize, bool)>,
    data: Seq<Option<Seq<u8>>>,
    results: Seq<ReadResult>,
    read: Option<Seq<u8>>,
    result: ReadResult,
    now: u64,
)
    requires
        data.len() == results.len() < reads.len(),
    ensures
        ({
            let count = results.len();
            let (id, ok) = reads[count as int];
            let u = t.reads_done(reads, results, now, count);
            let more = data.push(read);
            let next = results.push(result);
            &&& t.reads_done(reads, next, now, count + 1) == u.read(id, ok, result, now)
            &&& t.all_read_puts(reads, more, next, now, count + 1) == t.all_read_puts(
                reads,
                data,
                results,
                now,
                count,
            ) + u.read_puts(id, ok, read, result, now)
            &&& t.all_read_readings(reads, next, now, count + 1) == t.all_read_readings(
                reads,
                results,
                now,
                count,
            ) + u.read_readings(id, ok, result)
            &&& t.reads_encode(reads, more, next, now, count + 1) == (t.reads_encode(
                reads,
                data,
                results,
                now,
                count,
            ) && (u.m.read_to_encode(id, ok) ==> u.m.encodes(id, read, result)))
            &&& take_calls(reads, more) == take_calls(reads, data).push(
                IoCall::TakeRead { id, data: read },
            )
        }),
{
    let count = results.len();
    lemma_reads_same(
        t,
        reads,
        data,
        data.push(read),
        results,
        results.push(result),
        now,
        count,
    );
    assert(take_calls(reads, data.push(read)) =~= take_calls(reads, data).push(
        IoCall::TakeRead { id: reads[count as int].0, data: read },
    ));
}

/// The first steps do not depend on later answers.
pub proof fn lemma_drained_same(
    t: TickModel,
    ids: Seq<usize>,
    a: Seq<Answer>,
    b: Seq<Answer>,
    now: u64,
    count: nat,
)
    requires
        count <= a.len(),
        a.is_prefix_of(b),
    ensures
        t.all_drained(ids, a, now, count) == t.all_drained(ids, b, now, count),
        t.all_drain_calls(ids, a, now, count) == t.all_drain_calls(ids, b, now, count),
    decreases count,
{
    if count > 0 {
        lemma_drained_same(t, ids, a, b, now, (count - 1) as nat);
        assert(a[count - 1] == b[count - 1]);
    }
}

} // verus!
