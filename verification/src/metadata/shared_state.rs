//! The state of every stripe in memory: where its data is, whether it was
//! written, its side bits, how many requests it has in flight, and how many
//! stripes are in each condition.

use vstd::prelude::*;
use crate::counting::{bump, count_where, dec, drop_one, inc};
use crate::metadata::metadata_flags;
use crate::metadata::stripe_flags;
use crate::metadata::stripe_flags::any_set;
use crate::metadata::types::UbiMetadata;

verus! {

/// The source holds the stripe and it is not here yet.
pub const NotFetched: u8 = 0;

/// The stripe's data is here and came from the source.
pub const Fetched: u8 = 1;

/// Fetching the stripe failed for good.
pub const Failed: u8 = 2;

/// The source does not hold the stripe.
pub const NoSource: u8 = 3;

/// Claimed by the evictor. New guest I/O queues and re-sends Fetch; the
/// coordinator may abort back to the previous state until the header write
/// is handed to the flusher.
pub const Evicting: u8 = 4;

/// Not local. The composite source routes a fetch by IN_S3, then source_live.
pub const Evicted: u8 = 5;

/// The stripe was never written.
pub const NotWritten: u8 = 0;

/// The stripe was written.
pub const Written: u8 = 1;

/// Writes pass.
pub const GATE_OPEN: u8 = 0;

/// The channel queues new writes; the coordinator holds fetches for
/// non-resident stripes.
pub const GATE_HOLD: u8 = 1;

/// The channel fails new writes and queued requests that wait on a
/// non-resident stripe.
pub const GATE_FAIL: u8 = 2;

/// Spill activity since the process started. Monotonic except `degraded` and
/// `free_bytes`, which describe the present.
#[derive(Debug, Clone, Copy, PartialEq, Eq, Structural)]
pub struct SpillCounters {
    /// Evictions that dropped a stripe the live snapshot can serve again.
    pub evicted_clean: u64,
    /// Evictions that uploaded the stripe first.
    pub evicted_dirty: u64,
    /// Evictions abandoned before the header op because the guest touched the
    /// stripe or a step failed.
    pub evictions_aborted: u64,
    /// PUTs started.
    pub puts: u64,
    /// PUTs that failed.
    pub put_failures: u64,
    /// GETs started.
    pub gets: u64,
    /// GETs that failed or decoded to garbage.
    pub get_failures: u64,
    /// Object bytes uploaded.
    pub put_bytes: u64,
    /// Object bytes downloaded.
    pub get_bytes: u64,
    /// Successful hole punches after an eviction.
    pub punches: u64,
    /// Failed hole punches, at eviction or at startup.
    pub punch_failures: u64,
    /// Runs of EVICTED stripes punched by the startup pass.
    pub startup_punches: u64,
    /// Gate transitions open to hold or open to fail.
    pub stalls: u64,
    /// Set while the store is refusing PUTs; dirty evictions pause.
    pub degraded: bool,
    /// Anomalies: FETCHED and EVICTED both on disk, unknown fetch state, lost
    /// completion on drain, uncertain header outcome and the like.
    pub degraded_reasons: u64,
    /// Evicted clean stripes whose re-pull was refused.
    pub clean_unrecoverable: u64,
    /// Time spent compressing and encrypting objects.
    pub encode_ns: u64,
    /// Time spent decrypting and decompressing objects.
    pub decode_ns: u64,
    /// Bytes available on the filesystem holding the data, when last asked.
    pub free_bytes: u64,
}

/// Counters at zero.
pub open spec fn zero_counters() -> SpillCounters {
    SpillCounters {
        evicted_clean: 0,
        evicted_dirty: 0,
        evictions_aborted: 0,
        puts: 0,
        put_failures: 0,
        gets: 0,
        get_failures: 0,
        put_bytes: 0,
        get_bytes: 0,
        punches: 0,
        punch_failures: 0,
        startup_punches: 0,
        stalls: 0,
        degraded: false,
        degraded_reasons: 0,
        clean_unrecoverable: 0,
        encode_ns: 0,
        decode_ns: 0,
        free_bytes: 0,
    }
}

impl Default for SpillCounters {
    fn default() -> (r: Self)
        ensures
            r == zero_counters(),
    {
        SpillCounters {
            evicted_clean: 0,
            evicted_dirty: 0,
            evictions_aborted: 0,
            puts: 0,
            put_failures: 0,
            gets: 0,
            get_failures: 0,
            put_bytes: 0,
            get_bytes: 0,
            punches: 0,
            punch_failures: 0,
            startup_punches: 0,
            stalls: 0,
            degraded: false,
            degraded_reasons: 0,
            clean_unrecoverable: 0,
            encode_ns: 0,
            decode_ns: 0,
            free_bytes: 0,
        }
    }
}

/// The state of all stripes as mathematical values.
#[verifier::ext_equal]
pub struct StateModel {
    /// Where each stripe's data is.
    pub fetch: Seq<u8>,
    /// Whether each stripe was written.
    pub write: Seq<u8>,
    /// Each stripe's side bits.
    pub flags: Seq<u8>,
    /// Requests in flight on each stripe.
    pub inflight: Seq<u16>,
    /// A stripe has two to this many sectors.
    pub shift: u8,
    /// Stripes that came from the source and are here.
    pub fetched: u64,
    /// Stripes that the source holds.
    pub source: u64,
    /// Stripes whose data occupies local blocks.
    pub resident: u64,
    /// Stripes that are not local.
    pub evicted: u64,
    /// Stripes that are not local and have an object in the store.
    pub in_s3: u64,
    /// Whether the snapshot subscription is up.
    pub live: bool,
    /// What a guest write meets.
    pub gate: u8,
    /// Activity counters.
    pub spill: SpillCounters,
}

/// The state a header byte stands for when a device is opened. FETCHED wins
/// over EVICTED: had the punch happened, the flush before it would have
/// cleared FETCHED.
pub open spec fn header_fetch_state(header: u8) -> u8 {
    if header & metadata_flags::EVICTED != 0 && header & metadata_flags::FETCHED == 0 {
        Evicted
    } else if header & metadata_flags::HAS_SOURCE == 0 {
        NoSource
    } else if header & metadata_flags::FETCHED != 0 {
        Fetched
    } else {
        NotFetched
    }
}

/// The write state a header byte stands for.
pub open spec fn header_write_state(header: u8) -> u8 {
    if header & metadata_flags::WRITTEN != 0 {
        Written
    } else {
        NotWritten
    }
}

/// Whether a stripe in this condition occupies local blocks.
pub open spec fn occupies(fetch: u8, write: u8) -> bool {
    fetch == Fetched || (fetch == NoSource && write == Written)
}

impl StateModel {
    /// Every stripe has an entry of each kind, and the stripe size fits.
    pub open spec fn wf(self) -> bool {
        &&& self.write.len() == self.fetch.len()
        &&& self.flags.len() == self.fetch.len()
        &&& self.inflight.len() == self.fetch.len()
        &&& self.shift < 64
    }

    /// `id` is a stripe of the device.
    pub open spec fn valid(self, id: int) -> bool {
        0 <= id < self.fetch.len()
    }

    /// Whether a side bit is set.
    pub open spec fn flag(self, id: int, bit: u8) -> bool {
        any_set(self.flags[id], bit)
    }

    /// The stripe occupies local blocks.
    pub open spec fn is_resident(self, id: int) -> bool {
        occupies(self.fetch[id], self.write[id])
    }

    /// Bits added to a stripe's side bits.
    pub open spec fn with_flags_set(self, id: int, bits: u8) -> StateModel {
        StateModel { flags: self.flags.update(id, self.flags[id] | bits), ..self }
    }

    /// Bits removed from a stripe's side bits.
    pub open spec fn with_flags_cleared(self, id: int, bits: u8) -> StateModel {
        StateModel { flags: self.flags.update(id, self.flags[id] & !bits), ..self }
    }

    /// A stripe in another state.
    pub open spec fn with_fetch(self, id: int, state: u8) -> StateModel {
        StateModel { fetch: self.fetch.update(id, state), ..self }
    }

    /// One more anomaly.
    pub open spec fn with_anomaly(self) -> StateModel {
        StateModel {
            spill: SpillCounters {
                degraded_reasons: inc(self.spill.degraded_reasons),
                ..self.spill
            },
            ..self
        }
    }

    /// The counters replaced.
    pub open spec fn with_spill(self, spill: SpillCounters) -> StateModel {
        StateModel { spill, ..self }
    }

    /// The state a landed stripe rests in.
    pub open spec fn landed(self, id: int) -> u8 {
        if self.flag(id, stripe_flags::HAS_SOURCE) {
            Fetched
        } else {
            NoSource
        }
    }

    /// A stripe landed: it is in `landed`, carries FETCHED_LIVE if the source
    /// is live, and is counted.
    pub open spec fn after_landing(self, id: int) -> StateModel {
        let target = self.landed(id);
        let live = if self.live {
            self.with_flags_set(id, stripe_flags::FETCHED_LIVE)
        } else {
            self
        };
        StateModel {
            fetch: self.fetch.update(id, target),
            flags: live.flags,
            fetched: if target == Fetched {
                inc(self.fetched)
            } else {
                self.fetched
            },
            resident: inc(self.resident),
            ..self
        }
    }

    /// `mark_stripe_fetched`.
    pub open spec fn after_mark_fetched(self, id: int) -> StateModel {
        if self.flag(id, stripe_flags::WAS_EVICTED) {
            self.with_anomaly()
        } else if self.fetch[id] == NotFetched || self.fetch[id] == Failed {
            self.after_landing(id)
        } else {
            self
        }
    }

    /// A stripe left the evicted counts.
    pub open spec fn minus_evicted(self, id: int) -> StateModel {
        StateModel {
            evicted: dec(self.evicted),
            in_s3: if self.flag(id, stripe_flags::IN_S3) {
                dec(self.in_s3)
            } else {
                self.in_s3
            },
            ..self
        }
    }

    /// `mark_stripe_resident`.
    pub open spec fn after_mark_resident(self, id: int) -> StateModel {
        if self.flag(id, stripe_flags::WAS_EVICTED) {
            if self.fetch[id] == Failed {
                self.after_landing(id).with_flags_cleared(id, stripe_flags::WAS_EVICTED)
            } else {
                self.with_anomaly()
            }
        } else if self.fetch[id] == Evicted {
            self.after_landing(id).minus_evicted(id)
        } else {
            self.with_anomaly()
        }
    }

    /// `mark_stripe_written`.
    pub open spec fn after_mark_written(self, id: int) -> StateModel {
        StateModel {
            write: self.write.update(id, Written),
            resident: if self.write[id] == NotWritten && self.fetch[id] == NoSource {
                inc(self.resident)
            } else {
                self.resident
            },
            ..self
        }
    }

    /// `set_stripe_header`.
    pub open spec fn after_set_header(self, id: int, header: u8) -> StateModel {
        let landed = if header & metadata_flags::FETCHED != 0 && !self.flag(
            id,
            stripe_flags::WAS_EVICTED,
        ) {
            self.after_mark_fetched(id)
        } else {
            self
        };
        StateModel {
            write: if header & metadata_flags::WRITTEN != 0 {
                landed.write.update(id, Written)
            } else {
                landed.write
            },
            flags: landed.flags.update(
                id,
                landed.flags[id] | (header & stripe_flags::PERSISTED_MASK),
            ),
            ..landed
        }
    }

    /// `set_stripe_failed`.
    pub open spec fn after_set_failed(self, id: int) -> StateModel {
        let failed = self.with_fetch(id, Failed);
        if self.fetch[id] == Evicted {
            failed.minus_evicted(id).with_flags_set(id, stripe_flags::WAS_EVICTED)
        } else {
            failed
        }
    }

    /// The evictor may claim the stripe.
    pub open spec fn claimable(self, id: int) -> bool {
        occupies(self.fetch[id], self.write[id])
    }

    /// `abort_evicting`.
    pub open spec fn after_abort_evicting(self, id: int, previous: u8) -> StateModel {
        if self.fetch[id] == Evicting {
            self.with_fetch(id, previous)
        } else {
            self.with_anomaly()
        }
    }

    /// `finish_evicting`.
    pub open spec fn after_finish_evicting(
        self,
        id: int,
        previous: u8,
        in_s3: bool,
    ) -> StateModel {
        let marked = if in_s3 {
            self.with_flags_set(id, stripe_flags::IN_S3)
        } else {
            self
        };
        let cleared = marked.with_flags_cleared(id, stripe_flags::FETCHED_LIVE);
        if self.fetch[id] == Evicting {
            StateModel {
                fetch: self.fetch.update(id, Evicted),
                flags: cleared.flags,
                fetched: if previous == Fetched {
                    dec(self.fetched)
                } else {
                    self.fetched
                },
                resident: dec(self.resident),
                evicted: inc(self.evicted),
                in_s3: if in_s3 {
                    inc(self.in_s3)
                } else {
                    self.in_s3
                },
                ..self
            }
        } else {
            cleared.with_anomaly()
        }
    }

    /// Every in-flight count from `first` to `last` moved by `by`.
    pub open spec fn with_pins(self, first: int, last: int, by: int) -> StateModel {
        StateModel {
            inflight: Seq::new(
                self.inflight.len(),
                |i: int|
                    if first <= i <= last {
                        (self.inflight[i] + by) as u16
                    } else {
                        self.inflight[i]
                    },
            ),
            ..self
        }
    }

    /// `set_write_gate`.
    pub open spec fn after_set_gate(self, gate: u8) -> StateModel {
        StateModel {
            gate,
            spill: if self.gate == GATE_OPEN && gate != GATE_OPEN {
                SpillCounters { stalls: inc(self.spill.stalls), ..self.spill }
            } else {
                self.spill
            },
            ..self
        }
    }

    /// The state that `headers` stand for when a device is opened.
    pub open spec fn opened(headers: Seq<u8>, shift: u8) -> StateModel {
        let fetch = headers.map_values(|h: u8| header_fetch_state(h));
        let write = headers.map_values(|h: u8| header_write_state(h));
        StateModel {
            fetch,
            write,
            flags: headers.map_values(|h: u8| h & stripe_flags::PERSISTED_MASK),
            inflight: headers.map_values(|h: u8| 0u16),
            shift,
            fetched: tally(headers, opens_fetched()),
            source: tally(headers, opens_with_source()),
            resident: tally(headers, opens_resident()),
            evicted: tally(headers, opens_evicted()),
            in_s3: tally(headers, opens_in_s3()),
            live: false,
            gate: GATE_OPEN,
            spill: SpillCounters {
                degraded_reasons: tally(headers, contradicts()),
                ..zero_counters()
            },
        }
    }
}

/// Headers of stripes that are here and came from the source.
pub open spec fn opens_fetched() -> spec_fn(u8) -> bool {
    |h: u8| header_fetch_state(h) == Fetched
}

/// Headers of stripes that the source holds.
pub open spec fn opens_with_source() -> spec_fn(u8) -> bool {
    |h: u8| h & metadata_flags::HAS_SOURCE != 0
}

/// Headers of stripes that occupy local blocks.
pub open spec fn opens_resident() -> spec_fn(u8) -> bool {
    |h: u8| occupies(header_fetch_state(h), header_write_state(h))
}

/// Headers of stripes that are not local.
pub open spec fn opens_evicted() -> spec_fn(u8) -> bool {
    |h: u8| header_fetch_state(h) == Evicted
}

/// Headers of stripes that are not local and have an object in the store.
pub open spec fn opens_in_s3() -> spec_fn(u8) -> bool {
    |h: u8| header_fetch_state(h) == Evicted && h & metadata_flags::IN_S3 != 0
}

/// Headers that say both FETCHED and EVICTED, which no writer sets.
pub open spec fn contradicts() -> spec_fn(u8) -> bool {
    |h: u8| h & metadata_flags::EVICTED != 0 && h & metadata_flags::FETCHED != 0
}

/// Whether the header at an index satisfies `p`.
pub open spec fn header_satisfies(headers: Seq<u8>, p: spec_fn(u8) -> bool) -> spec_fn(
    int,
) -> bool {
    |i: int| p(headers[i])
}

/// How many of `headers` satisfy `p`, as a counter.
pub open spec fn tally(headers: Seq<u8>, p: spec_fn(u8) -> bool) -> u64 {
    count_where(headers.len(), header_satisfies(headers, p)) as u64
}

/// Where every stripe's data is, and how many are where. One owner holds it;
/// components borrow it for the length of a call.
#[derive(Debug, Clone)]
pub struct SharedMetadataState {
    /// Where each stripe's data is.
    pub stripe_fetch_states: Vec<u8>,
    /// Whether each stripe was written.
    pub stripe_write_states: Vec<u8>,
    /// Each stripe's side bits.
    pub stripe_flags: Vec<u8>,
    /// Requests in flight on each stripe.
    pub stripe_inflight: Vec<u16>,
    /// A stripe has two to this many sectors.
    pub stripe_sector_count_shift: u8,
    /// Stripes that came from the source and are here.
    pub fetched_stripes_count: u64,
    /// Stripes that the source holds.
    pub source_stripes_count: u64,
    /// Stripes whose data occupies local blocks: Fetched, or NoSource and
    /// Written.
    pub resident_stripes_count: u64,
    /// Stripes that are Evicted.
    pub evicted_stripes_count: u64,
    /// Stripes that are Evicted and carry IN_S3.
    pub in_s3_stripes_count: u64,
    /// Starts false; set once the snapshot subscription is up and cleared for
    /// good when it ends.
    pub source_live: bool,
    /// Starts open; moved by the evictor under space pressure.
    pub write_gate: u8,
    /// Activity counters.
    pub spill: SpillCounters,
}

impl View for SharedMetadataState {
    type V = StateModel;

    open spec fn view(&self) -> StateModel {
        StateModel {
            fetch: self.stripe_fetch_states@,
            write: self.stripe_write_states@,
            flags: self.stripe_flags@,
            inflight: self.stripe_inflight@,
            shift: self.stripe_sector_count_shift,
            fetched: self.fetched_stripes_count,
            source: self.source_stripes_count,
            resident: self.resident_stripes_count,
            evicted: self.evicted_stripes_count,
            in_s3: self.in_s3_stripes_count,
            live: self.source_live,
            gate: self.write_gate,
            spill: self.spill,
        }
    }
}

impl SharedMetadataState {
    /// The state that a device's metadata stands for.
    pub fn new(metadata: &UbiMetadata) -> (state: SharedMetadataState)
        requires
            metadata.wf(),
        ensures
            state@ == StateModel::opened(
                metadata.stripe_headers@,
                metadata.stripe_sector_count_shift,
            ),
            state@.wf(),
    {
        let mut spill = SpillCounters::default();
        let mut fetch_states: Vec<u8> = Vec::new();
        let mut write_states: Vec<u8> = Vec::new();
        let mut flags: Vec<u8> = Vec::new();
        let mut inflight: Vec<u16> = Vec::new();
        let mut fetched: u64 = 0;
        let mut source: u64 = 0;
        let mut resident: u64 = 0;
        let mut evicted: u64 = 0;
        let mut in_s3: u64 = 0;
        let mut contradictions: u64 = 0;
        let ghost headers = metadata.stripe_headers@;
        let stripes: usize = metadata.stripe_headers.len();
        let mut stripe_id: usize = 0;
        while stripe_id < stripes
            invariant
                stripe_id <= headers.len(),
                headers == metadata.stripe_headers@,
                headers.len() == stripes,
                fetch_states@ == Seq::new(
                    stripe_id as nat,
                    |i: int| header_fetch_state(headers[i]),
                ),
                write_states@ == Seq::new(
                    stripe_id as nat,
                    |i: int| header_write_state(headers[i]),
                ),
                flags@ == Seq::new(
                    stripe_id as nat,
                    |i: int| headers[i] & stripe_flags::PERSISTED_MASK,
                ),
                inflight@ == Seq::new(stripe_id as nat, |i: int| 0u16),
                fetched <= stripe_id,
                source <= stripe_id,
                resident <= stripe_id,
                evicted <= stripe_id,
                in_s3 <= stripe_id,
                contradictions <= stripe_id,
                fetched == count_where(
                    stripe_id as nat,
                    header_satisfies(headers, opens_fetched()),
                ),
                source == count_where(
                    stripe_id as nat,
                    header_satisfies(headers, opens_with_source()),
                ),
                resident == count_where(
                    stripe_id as nat,
                    header_satisfies(headers, opens_resident()),
                ),
                evicted == count_where(
                    stripe_id as nat,
                    header_satisfies(headers, opens_evicted()),
                ),
                in_s3 == count_where(
                    stripe_id as nat,
                    header_satisfies(headers, opens_in_s3()),
                ),
                contradictions == count_where(
                    stripe_id as nat,
                    header_satisfies(headers, contradicts()),
                ),
            decreases headers.len() - stripe_id,
        {
            let header = metadata.stripe_headers[stripe_id];
            let write_state: u8 = if header & metadata_flags::WRITTEN != 0 {
                Written
            } else {
                NotWritten
            };
            let fetch_state: u8 = if header & metadata_flags::EVICTED != 0 && header
                & metadata_flags::FETCHED == 0 {
                Evicted
            } else if header & metadata_flags::HAS_SOURCE == 0 {
                NoSource
            } else if header & metadata_flags::FETCHED != 0 {
                Fetched
            } else {
                NotFetched
            };
            // No writer sets both. If both are read, the punch never happened,
            // so the data is still local and FETCHED wins.
            if header & metadata_flags::EVICTED != 0 && header & metadata_flags::FETCHED != 0 {
                contradictions = contradictions + 1;
            }
            if header & metadata_flags::HAS_SOURCE != 0 {
                source = source + 1;
            }
            if fetch_state == Fetched {
                fetched = fetched + 1;
            }
            if fetch_state == Evicted {
                evicted = evicted + 1;
                if header & metadata_flags::IN_S3 != 0 {
                    in_s3 = in_s3 + 1;
                }
            }
            if fetch_state == Fetched || (fetch_state == NoSource && write_state == Written) {
                resident = resident + 1;
            }
            fetch_states.push(fetch_state);
            write_states.push(write_state);
            flags.push(header & stripe_flags::PERSISTED_MASK);
            inflight.push(0);
            stripe_id = stripe_id + 1;
            assert(fetch_states@ =~= Seq::new(
                stripe_id as nat,
                |i: int| header_fetch_state(headers[i]),
            ));
            assert(write_states@ =~= Seq::new(
                stripe_id as nat,
                |i: int| header_write_state(headers[i]),
            ));
            assert(flags@ =~= Seq::new(
                stripe_id as nat,
                |i: int| headers[i] & stripe_flags::PERSISTED_MASK,
            ));
            assert(inflight@ =~= Seq::new(stripe_id as nat, |i: int| 0u16));
        }
        spill.degraded_reasons = contradictions;
        let state = SharedMetadataState {
            stripe_fetch_states: fetch_states,
            stripe_write_states: write_states,
            stripe_flags: flags,
            stripe_inflight: inflight,
            stripe_sector_count_shift: metadata.stripe_sector_count_shift,
            fetched_stripes_count: fetched,
            source_stripes_count: source,
            resident_stripes_count: resident,
            evicted_stripes_count: evicted,
            in_s3_stripes_count: in_s3,
            source_live: false,
            write_gate: GATE_OPEN,
            spill,
        };
        assert(state@ =~= StateModel::opened(headers, metadata.stripe_sector_count_shift));
        state
    }

    /// Sectors in a stripe.
    pub fn stripe_sector_count(&self) -> (r: u64)
        requires
            self@.shift < 64,
        ensures
            r == 1u64 << self@.shift,
    {
        1u64 << self.stripe_sector_count_shift
    }

    /// How many stripes the device has.
    pub fn stripe_count(&self) -> (r: usize)
        ensures
            r == self@.fetch.len(),
    {
        self.stripe_fetch_states.len()
    }

    /// The stripe that holds a sector.
    pub fn sector_to_stripe_id(&self, sector: u64) -> (r: usize)
        requires
            self@.shift < 64,
        ensures
            r == (sector >> self@.shift) as usize,
    {
        (sector >> self.stripe_sector_count_shift) as usize
    }

    /// The stripe is here, or the source does not hold it.
    pub fn stripe_fetched_if_needed(&self, stripe_id: usize) -> (r: bool)
        requires
            self@.valid(stripe_id as int),
        ensures
            r == (self@.fetch[stripe_id as int] == Fetched || self@.fetch[stripe_id as int]
                == NoSource),
    {
        let state = self.stripe_fetch_states[stripe_id];
        state == Fetched || state == NoSource
    }

    /// The stripe is here and came from the source.
    pub fn stripe_fetched(&self, stripe_id: usize) -> (r: bool)
        requires
            self@.valid(stripe_id as int),
        ensures
            r == (self@.fetch[stripe_id as int] == Fetched),
    {
        self.stripe_fetch_states[stripe_id] == Fetched
    }

    /// The stripe was written.
    pub fn stripe_written(&self, stripe_id: usize) -> (r: bool)
        requires
            self@.wf(),
            self@.valid(stripe_id as int),
        ensures
            r == (self@.write[stripe_id as int] == Written),
    {
        self.stripe_write_states[stripe_id] == Written
    }

    /// Where the stripe's data is.
    pub fn stripe_fetch_state(&self, stripe_id: usize) -> (r: u8)
        requires
            self@.valid(stripe_id as int),
        ensures
            r == self@.fetch[stripe_id as int],
    {
        self.stripe_fetch_states[stripe_id]
    }

    /// Poke the raw state byte, into no valid state if need be. Counters are
    /// not adjusted.
    pub fn set_stripe_fetch_state_for_test(&mut self, stripe_id: usize, state: u8)
        requires
            old(self)@.valid(stripe_id as int),
        ensures
            final(self)@ == old(self)@.with_fetch(stripe_id as int, state),
    {
        self.stripe_fetch_states.set(stripe_id, state);
    }

    /// All side bits of a stripe.
    pub fn stripe_flags(&self, stripe_id: usize) -> (r: u8)
        requires
            self@.wf(),
            self@.valid(stripe_id as int),
        ensures
            r == self@.flags[stripe_id as int],
    {
        self.stripe_flags[stripe_id]
    }

    /// OR `bits` into the stripe's side bits.
    pub fn set_stripe_flags(&mut self, stripe_id: usize, bits: u8)
        requires
            old(self)@.wf(),
            old(self)@.valid(stripe_id as int),
        ensures
            final(self)@ == old(self)@.with_flags_set(stripe_id as int, bits),
    {
        let flags: u8 = self.stripe_flags[stripe_id];
        self.stripe_flags.set(stripe_id, flags | bits);
    }

    /// Clear `bits` from the stripe's side bits.
    pub fn clear_stripe_flags(&mut self, stripe_id: usize, bits: u8)
        requires
            old(self)@.wf(),
            old(self)@.valid(stripe_id as int),
        ensures
            final(self)@ == old(self)@.with_flags_cleared(stripe_id as int, bits),
    {
        let flags: u8 = self.stripe_flags[stripe_id];
        self.stripe_flags.set(stripe_id, flags & !bits);
    }

    /// The snapshot holds this stripe.
    pub fn stripe_has_source(&self, stripe_id: usize) -> (r: bool)
        requires
            self@.wf(),
            self@.valid(stripe_id as int),
        ensures
            r == self@.flag(stripe_id as int, stripe_flags::HAS_SOURCE),
    {
        self.stripe_flags[stripe_id] & stripe_flags::HAS_SOURCE != 0
    }

    /// The spill store holds an object for this stripe.
    pub fn stripe_in_s3(&self, stripe_id: usize) -> (r: bool)
        requires
            self@.wf(),
            self@.valid(stripe_id as int),
        ensures
            r == self@.flag(stripe_id as int, stripe_flags::IN_S3),
    {
        self.stripe_flags[stripe_id] & stripe_flags::IN_S3 != 0
    }

    /// A snapshot push for this stripe was received.
    pub fn stripe_pushed(&self, stripe_id: usize) -> (r: bool)
        requires
            self@.wf(),
            self@.valid(stripe_id as int),
        ensures
            r == self@.flag(stripe_id as int, stripe_flags::PUSHED),
    {
        self.stripe_flags[stripe_id] & stripe_flags::PUSHED != 0
    }

    /// The stripe became resident while the source was live.
    pub fn stripe_fetched_live(&self, stripe_id: usize) -> (r: bool)
        requires
            self@.wf(),
            self@.valid(stripe_id as int),
        ensures
            r == self@.flag(stripe_id as int, stripe_flags::FETCHED_LIVE),
    {
        self.stripe_flags[stripe_id] & stripe_flags::FETCHED_LIVE != 0
    }

    /// Fetched, or NoSource and Written: the stripe occupies local blocks.
    pub fn stripe_resident(&self, stripe_id: usize) -> (r: bool)
        requires
            self@.wf(),
            self@.valid(stripe_id as int),
        ensures
            r == self@.is_resident(stripe_id as int),
    {
        let state = self.stripe_fetch_state(stripe_id);
        state == Fetched || (state == NoSource && self.stripe_written(stripe_id))
    }

    /// Mark every stripe in `first..=last` as recently used.
    pub fn touch(&mut self, first: usize, last: usize)
        requires
            old(self)@.wf(),
            first <= last ==> last < old(self)@.fetch.len(),
        ensures
            final(self)@.wf(),
            final(self)@ == (StateModel { flags: final(self)@.flags, ..old(self)@ }),
            final(self)@.flags == Seq::new(
                old(self)@.flags.len(),
                |i: int|
                    if first <= i <= last {
                        old(self)@.flags[i] | stripe_flags::REFERENCED
                    } else {
                        old(self)@.flags[i]
                    },
            ),
    {
        let ghost before = self@;
        if first > last {
            assert(self@.flags =~= Seq::new(
                before.flags.len(),
                |i: int|
                    if first <= i <= last {
                        before.flags[i] | stripe_flags::REFERENCED
                    } else {
                        before.flags[i]
                    },
            ));
            return;
        }
        let stripes: usize = self.stripe_fetch_states.len();
        let mut stripe_id: usize = first;
        while stripe_id <= last
            invariant
                first <= stripe_id <= last + 1,
                last < before.fetch.len(),
                before.fetch.len() == stripes,
                before.wf(),
                self@ == (StateModel { flags: self@.flags, ..before }),
                self@.flags == Seq::new(
                    before.flags.len(),
                    |i: int|
                        if first <= i < stripe_id {
                            before.flags[i] | stripe_flags::REFERENCED
                        } else {
                            before.flags[i]
                        },
                ),
            decreases last + 1 - stripe_id,
        {
            self.set_stripe_flags(stripe_id, stripe_flags::REFERENCED);
            stripe_id = stripe_id + 1;
            assert(self@.flags =~= Seq::new(
                before.flags.len(),
                |i: int|
                    if first <= i < stripe_id {
                        before.flags[i] | stripe_flags::REFERENCED
                    } else {
                        before.flags[i]
                    },
            ));
        }
        assert(self@.flags =~= Seq::new(
            before.flags.len(),
            |i: int|
                if first <= i <= last {
                    before.flags[i] | stripe_flags::REFERENCED
                } else {
                    before.flags[i]
                },
        ));
    }

    /// Clear REFERENCED and report whether it was set.
    pub fn take_reference(&mut self, stripe_id: usize) -> (r: bool)
        requires
            old(self)@.wf(),
            old(self)@.valid(stripe_id as int),
        ensures
            final(self)@ == old(self)@.with_flags_cleared(
                stripe_id as int,
                stripe_flags::REFERENCED,
            ),
            r == old(self)@.flag(stripe_id as int, stripe_flags::REFERENCED),
    {
        let flags: u8 = self.stripe_flags[stripe_id];
        self.stripe_flags.set(stripe_id, flags & !stripe_flags::REFERENCED);
        flags & stripe_flags::REFERENCED != 0
    }

    /// Count a request that is about to pass to base on every stripe in
    /// `first..=last`.
    pub fn pin_inflight(&mut self, first: usize, last: usize)
        requires
            old(self)@.wf(),
            first <= last ==> last < old(self)@.fetch.len(),
            forall|i: int|
                first <= i <= last ==> (#[trigger] old(self)@.inflight[i]) < u16::MAX,
        ensures
            final(self)@ == old(self)@.with_pins(first as int, last as int, 1),
    {
        let ghost before = self@;
        if first > last {
            assert(self@ =~= before.with_pins(first as int, last as int, 1));
            return;
        }
        let stripes: usize = self.stripe_fetch_states.len();
        let mut stripe_id: usize = first;
        while stripe_id <= last
            invariant
                first <= stripe_id <= last + 1,
                last < before.fetch.len(),
                before.fetch.len() == stripes,
                before.wf(),
                forall|i: int| first <= i <= last ==> (#[trigger] before.inflight[i]) < u16::MAX,
                self@ == before.with_pins(first as int, stripe_id - 1, 1),
            decreases last + 1 - stripe_id,
        {
            let pins: u16 = self.stripe_inflight[stripe_id];
            assert(pins == before.inflight[stripe_id as int]);
            self.stripe_inflight.set(stripe_id, pins + 1);
            stripe_id = stripe_id + 1;
            assert(self@ =~= before.with_pins(first as int, stripe_id - 1, 1));
        }
    }

    /// Undo `pin_inflight` once the request completed or was turned away.
    pub fn unpin_inflight(&mut self, first: usize, last: usize)
        requires
            old(self)@.wf(),
            first <= last ==> last < old(self)@.fetch.len(),
            forall|i: int| first <= i <= last ==> (#[trigger] old(self)@.inflight[i]) > 0,
        ensures
            final(self)@ == old(self)@.with_pins(first as int, last as int, -1),
    {
        let ghost before = self@;
        if first > last {
            assert(self@ =~= before.with_pins(first as int, last as int, -1));
            return;
        }
        let stripes: usize = self.stripe_fetch_states.len();
        let mut stripe_id: usize = first;
        while stripe_id <= last
            invariant
                first <= stripe_id <= last + 1,
                last < before.fetch.len(),
                before.fetch.len() == stripes,
                before.wf(),
                forall|i: int| first <= i <= last ==> (#[trigger] before.inflight[i]) > 0,
                self@ == before.with_pins(first as int, stripe_id - 1, -1),
            decreases last + 1 - stripe_id,
        {
            let pins: u16 = self.stripe_inflight[stripe_id];
            assert(pins == before.inflight[stripe_id as int]);
            self.stripe_inflight.set(stripe_id, pins - 1);
            stripe_id = stripe_id + 1;
            assert(self@ =~= before.with_pins(first as int, stripe_id - 1, -1));
        }
    }

    /// Requests pinned on the stripe right now.
    pub fn stripe_inflight(&self, stripe_id: usize) -> (r: u16)
        requires
            self@.wf(),
            self@.valid(stripe_id as int),
        ensures
            r == self@.inflight[stripe_id as int],
    {
        self.stripe_inflight[stripe_id]
    }

    /// The state a landed stripe rests in: Fetched if the source holds it,
    /// NoSource otherwise.
    fn landed_state(&self, stripe_id: usize) -> (r: u8)
        requires
            self@.wf(),
            self@.valid(stripe_id as int),
        ensures
            r == self@.landed(stripe_id as int),
    {
        if self.stripe_has_source(stripe_id) {
            Fetched
        } else {
            NoSource
        }
    }

    /// One more anomaly.
    pub(crate) fn count_anomaly(&mut self)
        ensures
            final(self)@ == old(self)@.with_anomaly(),
    {
        self.spill.degraded_reasons = bump(self.spill.degraded_reasons);
    }

    /// Move a stripe to the state it lands in, note whether it landed while
    /// the source is live, and count it.
    fn land(&mut self, stripe_id: usize)
        requires
            old(self)@.wf(),
            old(self)@.valid(stripe_id as int),
        ensures
            final(self)@ == old(self)@.after_landing(stripe_id as int),
    {
        let target = self.landed_state(stripe_id);
        self.stripe_fetch_states.set(stripe_id, target);
        if self.source_live {
            self.set_stripe_flags(stripe_id, stripe_flags::FETCHED_LIVE);
        }
        if target == Fetched {
            self.fetched_stripes_count = bump(self.fetched_stripes_count);
        }
        self.resident_stripes_count = bump(self.resident_stripes_count);
        assert(self@ =~= old(self)@.after_landing(stripe_id as int));
    }

    /// Record that a stripe's data is on this device, before the flusher has
    /// persisted the metadata saying so. A guest waiting for the stripe is
    /// unblocked by this state; persisting late only costs fetching it again.
    ///
    /// NotFetched or Failed becomes Fetched or NoSource. Evicting and Evicted
    /// are never overwritten: a late completion for a stripe the evictor has
    /// since claimed must not release guest I/O.
    ///
    /// A stripe carrying WAS_EVICTED is refused and counted as an anomaly: its
    /// header still says EVICTED, so it lands through `mark_stripe_resident`.
    pub fn mark_stripe_fetched(&mut self, stripe_id: usize)
        requires
            old(self)@.wf(),
            old(self)@.valid(stripe_id as int),
        ensures
            final(self)@ == old(self)@.after_mark_fetched(stripe_id as int),
    {
        if self.stripe_flags[stripe_id] & stripe_flags::WAS_EVICTED != 0 {
            self.count_anomaly();
            return;
        }
        let current: u8 = self.stripe_fetch_states[stripe_id];
        if current != NotFetched && current != Failed {
            return;
        }
        self.land(stripe_id);
    }

    /// Evicted becomes Fetched or NoSource, only after the header clearing
    /// EVICTED is durable: the startup pass punches every stripe whose header
    /// says EVICTED. IN_S3 is left set as a purge hint.
    ///
    /// Also Failed becomes resident for a stripe carrying WAS_EVICTED.
    /// `set_stripe_failed` already took it out of the evicted counts, so only
    /// the bit is cleared.
    pub fn mark_stripe_resident(&mut self, stripe_id: usize)
        requires
            old(self)@.wf(),
            old(self)@.valid(stripe_id as int),
        ensures
            final(self)@ == old(self)@.after_mark_resident(stripe_id as int),
    {
        let was_evicted = self.stripe_flags[stripe_id] & stripe_flags::WAS_EVICTED != 0;
        let from: u8 = if was_evicted {
            Failed
        } else {
            Evicted
        };
        if self.stripe_fetch_states[stripe_id] != from {
            self.count_anomaly();
            return;
        }
        self.land(stripe_id);
        if was_evicted {
            self.clear_stripe_flags(stripe_id, stripe_flags::WAS_EVICTED);
        } else {
            self.leave_evicted(stripe_id);
        }
    }

    /// Take a stripe out of the evicted counts.
    fn leave_evicted(&mut self, stripe_id: usize)
        requires
            old(self)@.wf(),
            old(self)@.valid(stripe_id as int),
        ensures
            final(self)@ == old(self)@.minus_evicted(stripe_id as int),
    {
        self.evicted_stripes_count = drop_one(self.evicted_stripes_count);
        if self.stripe_in_s3(stripe_id) {
            self.in_s3_stripes_count = drop_one(self.in_s3_stripes_count);
        }
    }

    /// Record that a stripe has been written, before the flusher has persisted
    /// it: a fork told a stripe holds nothing reads zeros there for good. A
    /// first write into a NoSource stripe allocates its local blocks, so it
    /// becomes resident here.
    pub fn mark_stripe_written(&mut self, stripe_id: usize)
        requires
            old(self)@.wf(),
            old(self)@.valid(stripe_id as int),
        ensures
            final(self)@ == old(self)@.after_mark_written(stripe_id as int),
    {
        let was_nosource = self.stripe_fetch_states[stripe_id] == NoSource;
        let previous: u8 = self.stripe_write_states[stripe_id];
        self.stripe_write_states.set(stripe_id, Written);
        if previous == NotWritten && was_nosource {
            self.resident_stripes_count = bump(self.resident_stripes_count);
        }
    }

    /// A header update is on disk. FETCHED lands the stripe, unless its header
    /// said EVICTED when it failed: such a stripe is landed by whoever issued
    /// the update. WRITTEN is recorded, and the persisted side bits are OR-ed
    /// in. EVICTED does nothing: the evictor moves the stripe itself.
    pub fn set_stripe_header(&mut self, stripe_id: usize, header: u8)
        requires
            old(self)@.wf(),
            old(self)@.valid(stripe_id as int),
        ensures
            final(self)@ == old(self)@.after_set_header(stripe_id as int, header),
    {
        if header & metadata_flags::FETCHED != 0 && self.stripe_flags[stripe_id]
            & stripe_flags::WAS_EVICTED == 0 {
            self.mark_stripe_fetched(stripe_id);
        }
        if header & metadata_flags::WRITTEN != 0 {
            self.stripe_write_states.set(stripe_id, Written);
        }
        self.set_stripe_flags(stripe_id, header & stripe_flags::PERSISTED_MASK);
        assert(self@ =~= old(self)@.after_set_header(stripe_id as int, header));
    }

    /// A fetch failed for good: guest I/O to the stripe gets an error until it
    /// lands. From Evicted the stripe leaves the evicted counts and keeps
    /// WAS_EVICTED, because its header still says EVICTED.
    pub fn set_stripe_failed(&mut self, stripe_id: usize)
        requires
            old(self)@.wf(),
            old(self)@.valid(stripe_id as int),
        ensures
            final(self)@ == old(self)@.after_set_failed(stripe_id as int),
    {
        let previous: u8 = self.stripe_fetch_states[stripe_id];
        self.stripe_fetch_states.set(stripe_id, Failed);
        if previous == Evicted {
            self.leave_evicted(stripe_id);
            self.set_stripe_flags(stripe_id, stripe_flags::WAS_EVICTED);
        }
    }

    /// Fetching the stripe failed for good.
    pub fn is_stripe_failed(&self, stripe_id: usize) -> (r: bool)
        requires
            self@.valid(stripe_id as int),
        ensures
            r == (self@.fetch[stripe_id as int] == Failed),
    {
        self.stripe_fetch_states[stripe_id] == Failed
    }

    /// Claim a resident stripe for eviction. Returns the previous state so an
    /// abort can restore it.
    pub fn try_begin_evicting(&mut self, stripe_id: usize) -> (r: Option<u8>)
        requires
            old(self)@.wf(),
            old(self)@.valid(stripe_id as int),
        ensures
            old(self)@.claimable(stripe_id as int) ==> r == Some(
                old(self)@.fetch[stripe_id as int],
            ) && final(self)@ == old(self)@.with_fetch(stripe_id as int, Evicting),
            !old(self)@.claimable(stripe_id as int) ==> r is None && final(self)@ == old(self)@,
    {
        let state: u8 = self.stripe_fetch_states[stripe_id];
        if state == Fetched {
            self.stripe_fetch_states.set(stripe_id, Evicting);
            return Some(Fetched);
        }
        if self.stripe_written(stripe_id) && state == NoSource {
            self.stripe_fetch_states.set(stripe_id, Evicting);
            return Some(NoSource);
        }
        None
    }

    /// Evicting becomes `previous` again; anything else is an anomaly.
    pub fn abort_evicting(&mut self, stripe_id: usize, previous: u8)
        requires
            old(self)@.wf(),
            old(self)@.valid(stripe_id as int),
        ensures
            final(self)@ == old(self)@.after_abort_evicting(stripe_id as int, previous),
    {
        if self.stripe_fetch_states[stripe_id] == Evicting {
            self.stripe_fetch_states.set(stripe_id, previous);
        } else {
            self.count_anomaly();
        }
    }

    /// Evicting becomes Evicted after the punch; anything else is an anomaly.
    /// Sets IN_S3 if the store has the stripe. FETCHED_LIVE describes how the
    /// stripe became resident, so it is cleared with the residency.
    pub fn finish_evicting(&mut self, stripe_id: usize, previous: u8, in_s3: bool)
        requires
            old(self)@.wf(),
            old(self)@.valid(stripe_id as int),
        ensures
            final(self)@ == old(self)@.after_finish_evicting(stripe_id as int, previous, in_s3),
    {
        if in_s3 {
            self.set_stripe_flags(stripe_id, stripe_flags::IN_S3);
        }
        self.clear_stripe_flags(stripe_id, stripe_flags::FETCHED_LIVE);
        if self.stripe_fetch_states[stripe_id] != Evicting {
            self.count_anomaly();
            return;
        }
        self.stripe_fetch_states.set(stripe_id, Evicted);
        if previous == Fetched {
            self.fetched_stripes_count = drop_one(self.fetched_stripes_count);
        }
        self.resident_stripes_count = drop_one(self.resident_stripes_count);
        self.evicted_stripes_count = bump(self.evicted_stripes_count);
        if in_s3 {
            self.in_s3_stripes_count = bump(self.in_s3_stripes_count);
        }
    }

    /// Stripes that came from the source and are here.
    pub fn fetched_stripes(&self) -> (r: u64)
        ensures
            r == self@.fetched,
    {
        self.fetched_stripes_count
    }

    /// Stripes that the source holds.
    pub fn source_stripes(&self) -> (r: u64)
        ensures
            r == self@.source,
    {
        self.source_stripes_count
    }

    /// Stripes occupying local blocks.
    pub fn resident_stripes(&self) -> (r: u64)
        ensures
            r == self@.resident,
    {
        self.resident_stripes_count
    }

    /// Stripes that are not local.
    pub fn evicted_stripes(&self) -> (r: u64)
        ensures
            r == self@.evicted,
    {
        self.evicted_stripes_count
    }

    /// Stripes that are not local and whose data is in the spill store.
    pub fn in_s3_stripes(&self) -> (r: u64)
        ensures
            r == self@.in_s3,
    {
        self.in_s3_stripes_count
    }

    /// Whether the snapshot subscription is up, so a clean stripe could be
    /// pulled again after being dropped.
    pub fn source_live(&self) -> (r: bool)
        ensures
            r == self@.live,
    {
        self.source_live
    }

    /// The subscription came up, or ended.
    pub fn set_source_live(&mut self, live: bool)
        ensures
            final(self)@ == (StateModel { live, ..old(self)@ }),
    {
        self.source_live = live;
    }

    /// What a guest write meets right now.
    pub fn write_gate(&self) -> (r: u8)
        ensures
            r == self@.gate,
    {
        self.write_gate
    }

    /// Move the write gate; closing an open gate counts as a stall.
    pub fn set_write_gate(&mut self, gate: u8)
        ensures
            final(self)@ == old(self)@.after_set_gate(gate),
    {
        let previous: u8 = self.write_gate;
        self.write_gate = gate;
        if previous == GATE_OPEN && gate != GATE_OPEN {
            self.spill.stalls = bump(self.spill.stalls);
        }
    }

    /// The spill counters.
    pub fn spill(&self) -> (r: &SpillCounters)
        ensures
            *r == self@.spill,
    {
        &self.spill
    }

    /// A copy of the counters, for a component that outlives its borrow.
    pub fn spill_counters(&self) -> (r: SpillCounters)
        ensures
            r == self@.spill,
    {
        self.spill
    }
}

} // verus!
