//! The eviction state machine: which stripe goes, and the order in which its
//! data is read, uploaded, recorded and punched.
//!
//! An eviction claims a resident stripe, waits for guest I/O already handed
//! to the device to finish, then either records the stripe as EVICTED (clean)
//! or reads it, uploads it and records EVICTED | IN_S3 (dirty). Only once that
//! header is durable are the stripe's blocks punched and the state moved to
//! Evicted, so the disk never says "local" for punched blocks and never says
//! IN_S3 for an object that was not stored. A guest asking for the stripe
//! before the header op is handed to the flusher aborts the eviction;
//! afterwards it waits.

use std::collections::HashMap;
use vstd::prelude::*;
use vstd::slice::slice_subrange;
use vstd::string::StringExecFns;
use crate::counting::{bump, bump_by, inc};
use crate::crypt::copy_bytes;
use crate::io::{
    bytes_of, calls_bytes, lemma_calls_bytes_push, Answer, ArchiveStore, Clock, HolePuncher, IoCall,
    IoChannel, IoError, PunchCall,
};
use crate::metadata::metadata_flags;
use crate::metadata::save::zeros;
use crate::metadata::shared_state::{
    Evicted, GATE_FAIL, GATE_HOLD, GATE_OPEN, SharedMetadataState, SpillCounters, StateModel,
};
use crate::metadata::stripe_flags;
use crate::metadata::types::UbiMetadata;
use crate::metadata_flusher::{
    FlusherModel, MetadataFlusher, PersistOutcome, PersistResult, UPDATABLE_MASK,
};
use crate::push_gate::PushPermit;
use crate::spill::codec::{
    object_name, parse_spill_object_name, spill_object_name, SpillCodec, SpillError,
};
use crate::spill::evictor_model::{
    lemma_abort_wf, lemma_find, lemma_records_remove, lemma_records_update, ABORT_SKIP, BACKOFF_MAX,
    BACKOFF_MIN, DRAIN_TIMEOUT, EOPNOTSUPP, Eviction, EvictorConfig, EvictorModel, FetchDisposition,
    HEADER_RETRY, HeldPush, Kind, OnFull, OutcomeAction, PushDisposition, ReleasedPush,
    STATFS_INTERVAL, Stage,
};
use crate::spill::evictor_model::{
    count_records, drains, find, find_from, header_clear, header_set, holds_buffer, ids_where,
    is_active, is_active_dirty, is_putting, law_runs_hold_the_numbers, lemma_ascending_len,
    lemma_begin_wf, lemma_claim_ok, lemma_count_records_bound, lemma_drain_wf, lemma_drained_same,
    lemma_fetch_request_wf, lemma_header_bits, lemma_kind_wf, lemma_outcomes_same,
    lemma_pushed_stripe_wf, lemma_put_over_wf, lemma_put_wf, lemma_read_over_wf, lemma_read_wf,
    lemma_reads_next, lemma_resubmit_wf, lemma_runs_len_take, lemma_runs_punched_same,
    lemma_start_read_wf, lemma_step_ok, lemma_stripe_fits, lists_evicted, resubmitted, retries,
    run_bytes, run_calls, run_offset, runs_len, runs_of, runs_punched, sat_add, sat_mul, sat_sub,
    sector_len, sector_offset, skipped, state_after_begin, state_after_punch_failure,
    state_after_statfs, state_evicted, state_punched, stripe_named, stripe_size, take_calls,
    tick_of, token_of, ReadResult, SweepModel, TickInputs, TickModel,
};
use crate::text::{decimal, push_decimal};
use crate::SECTOR_SIZE;

verus! {

broadcast use lemma_calls_bytes_push;

/// Limits an evictor cannot run with.
#[derive(Debug, Clone, Copy, PartialEq, Eq, Structural)]
pub enum EvictorError {
    /// One of three limits is zero.
    ZeroLimit { stripe_sector_count: u64, max_concurrent_evictions: usize, sweep_batch: usize },
    /// The buffer alignment is no power of two.
    BadAlignment { alignment: usize },
}

impl EvictorError {
    /// The message for this error.
    pub open spec fn message(self) -> Seq<char> {
        match self {
            EvictorError::ZeroLimit {
                stripe_sector_count,
                max_concurrent_evictions,
                sweep_batch,
            } => "evictor needs stripe_sector_count, max_concurrent_evictions and "@
                + "sweep_batch above zero (got "@ + decimal(stripe_sector_count as nat) + ", "@
                + decimal(max_concurrent_evictions as nat) + ", "@ + decimal(sweep_batch as nat)
                + ")"@,
            EvictorError::BadAlignment { alignment } =>
                "evictor buffer alignment must be a power of two, got "@ + decimal(
                alignment as nat,
            ),
        }
    }

    /// The message as a string.
    pub fn describe(&self) -> (r: String)
        ensures
            r@ == self.message(),
    {
        let mut out = String::new();
        match *self {
            EvictorError::ZeroLimit {
                stripe_sector_count,
                max_concurrent_evictions,
                sweep_batch,
            } => {
                out.append("evictor needs stripe_sector_count, max_concurrent_evictions and ");
                out.append("sweep_batch above zero (got ");
                push_decimal(&mut out, stripe_sector_count);
                out.append(", ");
                push_decimal(&mut out, max_concurrent_evictions as u64);
                out.append(", ");
                push_decimal(&mut out, sweep_batch as u64);
                out.append(")");
            },
            EvictorError::BadAlignment { alignment } => {
                out.append("evictor buffer alignment must be a power of two, got ");
                push_decimal(&mut out, alignment as u64);
            },
        }
        assert(out@ =~= self.message());
        out
    }
}

/// A stripe that was read but cannot be uploaded.
#[derive(Debug, Clone, Copy, PartialEq, Eq, Structural)]
pub enum ReadError {
    /// The stripe is longer than what was read.
    ShortBuffer { len: u64, held: usize },
    /// The codec refused the data.
    Unencodable(SpillError),
}

/// Where the process can be made to abort, to see that a restart recovers.
#[derive(Debug, Clone, Copy, PartialEq, Eq, Structural)]
pub enum CrashPoint {
    /// The upload succeeded; the header op has not been issued.
    AfterPut,
    /// The EVICTED header is durable; the blocks are not yet punched.
    AfterHeaderFlush,
    /// The blocks are punched; the in-memory state is not yet Evicted.
    AfterPunch,
    /// A re-fetched stripe's data is written; its EVICTED-clearing header is
    /// not yet durable.
    DuringRefetch,
}

impl CrashPoint {
    /// The point's name.
    pub open spec fn name(self) -> Seq<char> {
        match self {
            CrashPoint::AfterPut => "after_put"@,
            CrashPoint::AfterHeaderFlush => "after_header_flush"@,
            CrashPoint::AfterPunch => "after_punch"@,
            CrashPoint::DuringRefetch => "during_refetch"@,
        }
    }

    /// The point called `name`.
    pub fn from_name(name: &String) -> (r: Option<CrashPoint>)
        ensures
            match r {
                Some(point) => name@ == point.name(),
                None => forall|point: CrashPoint| name@ != #[trigger] point.name(),
            },
    {
        if *name == String::from_str("after_put") {
            Some(CrashPoint::AfterPut)
        } else if *name == String::from_str("after_header_flush") {
            Some(CrashPoint::AfterHeaderFlush)
        } else if *name == String::from_str("after_punch") {
            Some(CrashPoint::AfterPunch)
        } else if *name == String::from_str("during_refetch") {
            Some(CrashPoint::DuringRefetch)
        } else {
            None
        }
    }
}

/// Drives stripes out of the local device when it is over its ceiling.
#[derive(Debug)]
pub struct Evictor {
    /// Its limits.
    pub cfg: EvictorConfig,
    /// Turns stripes into objects.
    pub codec: SpillCodec,
    /// Whether there is a store; without one only clean stripes go.
    pub has_store: bool,
    /// Evictions in progress and aborted ones owed a completion.
    pub in_progress: Vec<Eviction>,
    /// Claims so far.
    pub epoch: u64,
    /// Uploads in flight.
    pub puts_in_flight: usize,
    /// The hand: the next stripe the sweep examines.
    pub hand: usize,
    /// Skipped by the hand for a while after an abort.
    pub recently_aborted: HashMap<usize, u64>,
    /// While the store is degraded, when a single upload may probe it again.
    pub degraded_until: Option<u64>,
    /// The next pause.
    pub backoff: u64,
    /// When the filesystem was last asked for its free space.
    pub last_statfs: Option<u64>,
    /// The last answer; until the first one the free-space rules do not
    /// apply, rather than stalling the guest on a reading never taken.
    pub free_bytes: Option<u64>,
    /// Over the ceiling once; keep going down to the low-water mark.
    pub evicting_to_low_water: bool,
    /// The last tick found the device under pressure.
    pub under_pressure: bool,
    /// Stripes the hand has examined since it last claimed one.
    pub idle_examined: usize,
    /// Fetches held for space.
    pub held_for_space: Vec<usize>,
    /// Fetches to be routed.
    pub released_fetches: Vec<usize>,
    /// Pushes to be routed.
    pub released_pushes: Vec<ReleasedPush>,
    /// Slots of pushes that were dropped.
    pub dropped_permits: Vec<PushPermit>,
    /// Cleared when the filesystem cannot punch: no eviction can free space.
    pub punch_supported: bool,
    /// Read buffers not in use.
    pub free_buffers: usize,
}

impl View for Evictor {
    type V = EvictorModel;

    open spec fn view(&self) -> EvictorModel {
        EvictorModel {
            cfg: self.cfg,
            codec: self.codec,
            has_store: self.has_store,
            records: self.in_progress@,
            epoch: self.epoch,
            puts: self.puts_in_flight,
            hand: self.hand,
            recent: self.recently_aborted@,
            degraded_until: self.degraded_until,
            backoff: self.backoff,
            last_statfs: self.last_statfs,
            free_bytes: self.free_bytes,
            to_low_water: self.evicting_to_low_water,
            pressed: self.under_pressure,
            idle_examined: self.idle_examined,
            held: self.held_for_space@,
            released_fetches: self.released_fetches@,
            released_pushes: self.released_pushes@,
            dropped: self.dropped_permits@,
            punch_supported: self.punch_supported,
            free_buffers: self.free_buffers as nat,
        }
    }
}

/// Whether `x` is a power of two.
fn is_power_of_two(x: usize) -> (r: bool)
    ensures
        r == vstd::arithmetic::power2::is_pow2(x as int),
{
    let mut left: usize = x;
    while left > 1 && left % 2 == 0
        invariant
            vstd::arithmetic::power2::is_pow2(left as int)
                == vstd::arithmetic::power2::is_pow2(x as int),
        decreases left,
    {
        proof {
            reveal(vstd::arithmetic::power2::is_pow2);
        }
        left = left / 2;
    }
    proof {
        reveal(vstd::arithmetic::power2::is_pow2);
    }
    left == 1
}

/// Whether `needle` is in `haystack`.
fn contains(haystack: &Vec<usize>, needle: usize) -> (r: bool)
    ensures
        r == haystack@.contains(needle),
{
    let mut i: usize = 0;
    while i < haystack.len()
        invariant
            i <= haystack@.len(),
            forall|j: int| 0 <= j < i ==> haystack@[j] != needle,
        decreases haystack@.len() - i,
    {
        if haystack[i] == needle {
            return true;
        }
        i = i + 1;
    }
    false
}

/// Multiplication that stops at the largest number.
fn saturating_mul(a: u64, b: u64) -> (r: u64)
    ensures
        r == sat_mul(a, b),
{
    match a.checked_mul(b) {
        Some(product) => product,
        None => u64::MAX,
    }
}

/// Let the state say that a stripe is gone, and count it.
fn mark_evicted(state: &mut SharedMetadataState, stripe_id: usize, previous: u8, kind: Kind)
    requires
        old(state)@.wf(),
        old(state)@.valid(stripe_id as int),
    ensures
        final(state)@ == state_evicted(old(state)@, stripe_id as int, previous, kind),
        final(state)@.wf(),
        final(state)@.fetch.len() == old(state)@.fetch.len(),
{
    state.finish_evicting(stripe_id, previous, kind == Kind::Dirty);
    match kind {
        Kind::Clean => {
            state.spill.evicted_clean = bump(state.spill.evicted_clean);
        },
        Kind::Dirty => {
            state.spill.evicted_dirty = bump(state.spill.evicted_dirty);
        },
    }
    assert(state@ =~= state_evicted(old(state)@, stripe_id as int, previous, kind));
}

impl Evictor {
    /// An evictor with nothing in progress. Zero limits and odd alignments
    /// are refused.
    pub fn new(
        cfg: EvictorConfig,
        has_store: bool,
        codec: SpillCodec,
        state: &SharedMetadataState,
    ) -> (r: Result<Evictor, EvictorError>)
        requires
            state@.fetch.len() * stripe_size(cfg) <= u64::MAX,
            stripe_size(cfg) <= usize::MAX,
            codec.wf(),
            forall|id: usize| id < state@.fetch.len() ==> #[trigger] codec.addresses(id),
        ensures
            match r {
                Ok(e) => {
                    &&& cfg.stripe_sector_count != 0 && cfg.max_concurrent_evictions != 0
                        && cfg.sweep_batch != 0
                    &&& vstd::arithmetic::power2::is_pow2(cfg.alignment as int)
                    &&& e@ == EvictorModel::idle(cfg, has_store, codec)
                    &&& e@.wf(state@.fetch.len())
                },
                Err(EvictorError::ZeroLimit {
                    stripe_sector_count,
                    max_concurrent_evictions,
                    sweep_batch,
                }) => {
                    &&& stripe_sector_count == 0 || max_concurrent_evictions == 0 || sweep_batch
                        == 0
                    &&& stripe_sector_count == cfg.stripe_sector_count
                    &&& max_concurrent_evictions == cfg.max_concurrent_evictions
                    &&& sweep_batch == cfg.sweep_batch
                },
                Err(EvictorError::BadAlignment { alignment }) => {
                    &&& cfg.stripe_sector_count != 0 && cfg.max_concurrent_evictions != 0
                        && cfg.sweep_batch != 0
                    &&& alignment == cfg.alignment
                    &&& !vstd::arithmetic::power2::is_pow2(alignment as int)
                },
            },
    {
        if cfg.stripe_sector_count == 0 || cfg.max_concurrent_evictions == 0 || cfg.sweep_batch
            == 0 {
            return Err(
                EvictorError::ZeroLimit {
                    stripe_sector_count: cfg.stripe_sector_count,
                    max_concurrent_evictions: cfg.max_concurrent_evictions,
                    sweep_batch: cfg.sweep_batch,
                },
            );
        }
        if !is_power_of_two(cfg.alignment) {
            return Err(EvictorError::BadAlignment { alignment: cfg.alignment });
        }
        let free_buffers: usize = cfg.max_concurrent_evictions;
        let evictor = Evictor {
            cfg,
            codec,
            has_store,
            in_progress: Vec::new(),
            epoch: 0,
            puts_in_flight: 0,
            hand: 0,
            recently_aborted: HashMap::new(),
            degraded_until: None,
            backoff: BACKOFF_MIN,
            last_statfs: None,
            free_bytes: None,
            evicting_to_low_water: false,
            under_pressure: false,
            idle_examined: 0,
            held_for_space: Vec::new(),
            released_fetches: Vec::new(),
            released_pushes: Vec::new(),
            dropped_permits: Vec::new(),
            punch_supported: true,
            free_buffers,
        };
        assert(evictor@ =~= EvictorModel::idle(cfg, has_store, codec));
        Ok(evictor)
    }

    /// Where the record of `id` is, or the number of records.
    fn position(&self, id: usize) -> (at: usize)
        ensures
            at == find(self@.records, id),
            at <= self@.records.len(),
            at < self@.records.len() ==> self@.records[at as int].stripe_id == id,
    {
        let mut at: usize = 0;
        while at < self.in_progress.len() && self.in_progress[at].stripe_id != id
            invariant
                at <= self@.records.len(),
                find(self@.records, id) == find_from(self@.records, id, at as int),
            decreases self@.records.len() - at,
        {
            at = at + 1;
        }
        at
    }

    /// Put the stripe back where it was. Legal only before the header op is
    /// handed to the flusher, or when the disk provably still holds the old
    /// byte.
    pub fn abort(&mut self, state: &mut SharedMetadataState, stripe_id: usize, now: u64)
        requires
            old(self)@.wf(old(state)@.fetch.len()),
            old(state)@.wf(),
        ensures
            final(self)@ == old(self)@.after_abort(stripe_id, now),
            final(state)@ == old(self)@.state_after_abort(old(state)@, stripe_id),
            final(self)@.wf(final(state)@.fetch.len()),
            final(state)@.wf(),
            final(state)@.fetch.len() == old(state)@.fetch.len(),
    {
        let at = self.position(stripe_id);
        proof {
            lemma_abort_wf(self@, stripe_id, now, state@.fetch.len());
        }
        if at >= self.in_progress.len() || self.in_progress[at].aborted {
            return;
        }
        state.abort_evicting(stripe_id, self.in_progress[at].previous);
        state.set_stripe_flags(stripe_id, stripe_flags::REFERENCED);
        self.note_abort(stripe_id, now);
        state.spill.evictions_aborted = bump(state.spill.evictions_aborted);
        let record = &mut self.in_progress[at];
        record.deferred_fetch = false;
        let push = record.deferred_push.take();
        if record.io_outstanding {
            record.aborted = true;
        } else {
            let _ = self.in_progress.remove(at);
        }
        match push {
            Some(push) => {
                self.dropped_permits.push(push.permit);
            },
            None => {},
        }
        assert(self@ =~= old(self)@.after_abort(stripe_id, now));
        assert(state@ =~= old(self)@.state_after_abort(old(state)@, stripe_id));
    }

    /// The hand skips `stripe_id` from now on for a while.
    fn note_abort(&mut self, stripe_id: usize, now: u64)
        ensures
            final(self)@ == (EvictorModel {
                recent: old(self)@.recent.insert(stripe_id, now),
                ..old(self)@
            }),
    {
        broadcast use vstd::std_specs::hash::group_hash_axioms;

        self.recently_aborted.insert(stripe_id, now);
        assert(self@ =~= EvictorModel {
            recent: old(self)@.recent.insert(stripe_id, now),
            ..old(self)@
        });
    }

    /// Bytes of a whole stripe.
    pub fn stripe_size(&self) -> (r: u64)
        requires
            stripe_size(self@.cfg) <= u64::MAX,
        ensures
            r == stripe_size(self@.cfg),
    {
        self.cfg.stripe_sector_count * SECTOR_SIZE as u64
    }

    /// First sector and sector count of a stripe; the last stripe may be
    /// short.
    pub fn stripe_sectors(&self, stripe_id: usize) -> (r: (u64, u64))
        requires
            sector_offset(self@.cfg, stripe_id as int) <= u64::MAX,
        ensures
            r.0 == sector_offset(self@.cfg, stripe_id as int),
            r.1 == sector_len(self@.cfg, stripe_id as int),
    {
        assert(stripe_id as u64 * self.cfg.stripe_sector_count == sector_offset(
            self@.cfg,
            stripe_id as int,
        ));
        let offset: u64 = stripe_id as u64 * self.cfg.stripe_sector_count;
        let rest: u64 = self.cfg.target_sector_count.saturating_sub(offset);
        let count: u64 = if self.cfg.stripe_sector_count < rest {
            self.cfg.stripe_sector_count
        } else {
            rest
        };
        (offset, count)
    }

    /// Byte offset and length of a stripe's data in the data file.
    pub fn stripe_bytes(&self, stripe_id: usize) -> (r: (u64, u64))
        requires
            sector_offset(self@.cfg, stripe_id as int) * SECTOR_SIZE <= u64::MAX,
            stripe_size(self@.cfg) <= u64::MAX,
        ensures
            r.0 == sector_offset(self@.cfg, stripe_id as int) * SECTOR_SIZE,
            r.1 == sector_len(self@.cfg, stripe_id as int) * SECTOR_SIZE,
    {
        let sectors = self.stripe_sectors(stripe_id);
        (sectors.0 * SECTOR_SIZE as u64, sectors.1 * SECTOR_SIZE as u64)
    }

    /// Count a failed punch; without support no eviction can free space.
    pub fn record_punch_failure(&mut self, state: &mut SharedMetadataState, error: IoError)
        ensures
            final(self)@ == old(self)@.after_punch_failure(error.errno),
            final(state)@ == state_after_punch_failure(old(state)@),
    {
        state.spill.punch_failures = bump(state.spill.punch_failures);
        state.spill.degraded_reasons = bump(state.spill.degraded_reasons);
        if error.errno == EOPNOTSUPP && self.punch_supported {
            self.punch_supported = false;
        }
        assert(self@ =~= old(self)@.after_punch_failure(error.errno));
        assert(state@ =~= state_after_punch_failure(old(state)@));
    }

    /// The EVICTED header is durable and the stripe's blocks were punched, or
    /// could not be: let the state say the stripe is gone. The disk already
    /// says not-local, so the state follows whatever happened to the blocks.
    pub fn complete_eviction(
        &mut self,
        state: &mut SharedMetadataState,
        stripe_id: usize,
        punched: Result<(), IoError>,
    )
        requires
            old(self)@.wf(old(state)@.fetch.len()),
            old(state)@.wf(),
            old(self)@.tracks(stripe_id) ==> old(self)@.record(stripe_id).stage is WritingHeader,
        ensures
            final(self)@ == old(self)@.after_complete(stripe_id, punched),
            final(state)@ == old(self)@.state_after_complete(old(state)@, stripe_id, punched),
            final(self)@.wf(final(state)@.fetch.len()),
            final(state)@.wf(),
            final(state)@.fetch.len() == old(state)@.fetch.len(),
    {
        let at = self.position(stripe_id);
        if at >= self.in_progress.len() {
            return;
        }
        proof {
            lemma_records_remove(
                self@.records,
                self@.free_buffers as int,
                self@.puts as int,
                self@.cfg.max_concurrent_evictions,
                state@.fetch.len(),
                at as int,
                self@.puts as int,
            );
        }
        let eviction = self.in_progress.remove(at);
        self.settle_punch(state, punched);
        mark_evicted(state, stripe_id, eviction.previous, eviction.kind);
        if eviction.deferred_fetch {
            self.released_fetches.push(stripe_id);
        }
        match eviction.deferred_push {
            Some(push) => {
                self.released_pushes.push(
                    ReleasedPush { stripe_id, data: push.data, permit: push.permit },
                );
            },
            None => {},
        }
        assert(self@ =~= old(self)@.after_complete(stripe_id, punched));
    }

    /// Count a punch.
    fn settle_punch(&mut self, state: &mut SharedMetadataState, punched: Result<(), IoError>)
        ensures
            final(self)@ == (match punched {
                Ok(_) => old(self)@,
                Err(e) => old(self)@.after_punch_failure(e.errno),
            }),
            final(state)@ == state_punched(old(state)@, punched),
    {
        match punched {
            Ok(_) => {
                state.spill.punches = bump(state.spill.punches);
                assert(state@ =~= state_punched(old(state)@, punched));
            },
            Err(e) => {
                self.record_punch_failure(state, e);
            },
        }
    }

    /// What a header outcome means for the eviction it belongs to.
    pub fn outcome_action(&self, outcome: &PersistOutcome) -> (r: OutcomeAction)
        ensures
            r == self@.outcome_action(*outcome),
    {
        if !Evictor::owns_token(outcome.token) {
            return OutcomeAction::Ignore;
        }
        let at = self.position(outcome.stripe_id);
        if at >= self.in_progress.len() {
            return OutcomeAction::Ignore;
        }
        let token = match self.in_progress[at].stage {
            Stage::WritingHeader { token } => token,
            _ => {
                return OutcomeAction::Ignore;
            },
        };
        if token != outcome.token || self.in_progress[at].aborted {
            return OutcomeAction::Ignore;
        }
        match outcome.result {
            PersistResult::Durable => OutcomeAction::Complete,
            PersistResult::NotWritten => if self.in_progress[at].committed {
                OutcomeAction::Retry
            } else {
                OutcomeAction::Abort
            },
            PersistResult::Uncertain => OutcomeAction::Retry,
        }
    }

    /// Odd tokens belong to the evictor; even tokens to the coordinator.
    pub fn owns_token(token: u64) -> (r: bool)
        ensures
            r == (token & 1 == 1),
    {
        token & 1 == 1
    }

    /// Apply one header outcome; `punched` is what the punch gave where the
    /// outcome completes an eviction. An uncertain outcome never releases the
    /// stripe: the disk may already say EVICTED, and a write landing now would
    /// be punched by a restart.
    pub fn apply_outcome(
        &mut self,
        state: &mut SharedMetadataState,
        outcome: &PersistOutcome,
        punched: Result<(), IoError>,
        now: u64,
    )
        requires
            old(self)@.wf(old(state)@.fetch.len()),
            old(state)@.wf(),
        ensures
            final(self)@ == old(self)@.after_outcome(*outcome, punched, now),
            final(state)@ == old(self)@.state_after_outcome(old(state)@, *outcome, punched),
            final(self)@.wf(final(state)@.fetch.len()),
            final(state)@.wf(),
            final(state)@.fetch.len() == old(state)@.fetch.len(),
    {
        match self.outcome_action(outcome) {
            OutcomeAction::Ignore => {},
            OutcomeAction::Complete => {
                self.complete_eviction(state, outcome.stripe_id, punched);
            },
            OutcomeAction::Abort => {
                self.abort(state, outcome.stripe_id, now);
            },
            OutcomeAction::Retry => {
                let at = self.position(outcome.stripe_id);
                proof {
                    lemma_find(self@.records, outcome.stripe_id, 0);
                    lemma_records_update(
                        self@.records,
                        self@.free_buffers as int,
                        self@.puts as int,
                        self@.cfg.max_concurrent_evictions,
                        state@.fetch.len(),
                        at as int,
                        Eviction {
                            committed: true,
                            retry_at: Some(sat_add(now, HEADER_RETRY)),
                            ..self@.record(outcome.stripe_id)
                        },
                        self@.free_buffers as int,
                        self@.puts as int,
                    );
                }
                let record = &mut self.in_progress[at];
                record.committed = true;
                record.retry_at = Some(now.saturating_add(HEADER_RETRY));
                state.spill.degraded_reasons = bump(state.spill.degraded_reasons);
                assert(self@ =~= old(self)@.after_uncertain(outcome.stripe_id, now));
                assert(state@ =~= old(state)@.with_anomaly());
            },
        }
    }

    /// Hand the EVICTED header op to the flusher; from here the eviction ends
    /// only with its outcome.
    pub fn issue_header_op(
        &mut self,
        flusher: &mut MetadataFlusher,
        stripe_id: usize,
    )
        requires
            old(self)@.wf(old(flusher)@.headers.len()),
            old(flusher)@.wf(),
            old(self)@.tracks(stripe_id) ==> !old(self)@.record(stripe_id).holds_buffer
                && !is_putting()(old(self)@.record(stripe_id)),
        ensures
            final(self)@ == old(self)@.after_header_op(stripe_id),
            final(flusher)@ == old(self)@.flusher_after_header_op(old(flusher)@, stripe_id),
            final(self)@.wf(final(flusher)@.headers.len()),
            final(flusher)@.wf(),
            final(flusher)@.headers == old(flusher)@.headers,
    {
        let at = self.position(stripe_id);
        if at >= self.in_progress.len() {
            return;
        }
        proof {
            lemma_records_update(
                self@.records,
                self@.free_buffers as int,
                self@.puts as int,
                self@.cfg.max_concurrent_evictions,
                flusher@.headers.len(),
                at as int,
                Eviction {
                    stage: Stage::WritingHeader { token: token_of(self@.record(stripe_id).epoch) },
                    retry_at: None,
                    ..self@.record(stripe_id)
                },
                self@.free_buffers as int,
                self@.puts as int,
            );
            lemma_header_bits();
            let kind = self@.record(stripe_id).kind;
            assert((header_set(kind) | header_clear(kind)) & !UPDATABLE_MASK == 0);
        }
        let record = &mut self.in_progress[at];
        let token: u64 = (record.epoch << 1) | 1;
        let (set, clear) = match record.kind {
            Kind::Clean => (
                metadata_flags::EVICTED,
                metadata_flags::FETCHED | metadata_flags::IN_S3,
            ),
            Kind::Dirty => (
                metadata_flags::EVICTED | metadata_flags::IN_S3,
                metadata_flags::FETCHED,
            ),
        };
        record.stage = Stage::WritingHeader { token };
        record.retry_at = None;
        flusher.update_stripe_header(stripe_id, set, clear, token);
        assert(self@ =~= old(self)@.after_header_op(stripe_id));
    }

    /// The store took an upload.
    fn store_recovered(&mut self, state: &mut SharedMetadataState)
        ensures
            final(self)@ == old(self)@.after_recovery(),
            final(state)@ == old(state)@.with_spill(
                SpillCounters { degraded: false, ..old(state)@.spill },
            ),
    {
        state.spill.degraded = false;
        self.degraded_until = None;
        self.backoff = BACKOFF_MIN;
        assert(self@ =~= old(self)@.after_recovery());
        assert(state@ =~= old(state)@.with_spill(
            SpillCounters { degraded: false, ..old(state)@.spill },
        ));
    }

    /// The store refused an upload.
    fn store_failed(&mut self, state: &mut SharedMetadataState, now: u64)
        requires
            old(self)@.backoff <= BACKOFF_MAX,
        ensures
            final(self)@ == old(self)@.after_store_failure(now),
            final(state)@ == old(state)@.with_spill(
                SpillCounters { degraded: true, ..old(state)@.spill },
            ),
    {
        state.spill.degraded = true;
        self.degraded_until = Some(now.saturating_add(self.backoff));
        let doubled: u64 = self.backoff * 2;
        self.backoff = if doubled < BACKOFF_MAX {
            doubled
        } else {
            BACKOFF_MAX
        };
        assert(self@ =~= old(self)@.after_store_failure(now));
        assert(state@ =~= old(state)@.with_spill(
            SpillCounters { degraded: true, ..old(state)@.spill },
        ));
    }

    /// A read completed. Says whether its data is now to be encoded.
    pub fn finish_read(
        &mut self,
        state: &mut SharedMetadataState,
        stripe_id: usize,
        ok: bool,
        now: u64,
    ) -> (encode: bool)
        requires
            old(self)@.wf(old(state)@.fetch.len()),
            old(state)@.wf(),
        ensures
            encode == old(self)@.read_to_encode(stripe_id, ok),
            final(self)@ == old(self)@.after_read(stripe_id, ok, now),
            final(state)@ == old(self)@.state_after_read(old(state)@, stripe_id, ok),
            final(self)@.wf(final(state)@.fetch.len()),
            final(state)@.wf(),
            final(state)@.fetch.len() == old(state)@.fetch.len(),
            encode ==> {
                &&& final(self)@.tracks(stripe_id)
                &&& final(self)@.record(stripe_id).stage == Stage::Reading
                &&& !final(self)@.record(stripe_id).holds_buffer
                &&& !final(self)@.record(stripe_id).io_outstanding
            },
    {
        let at = self.position(stripe_id);
        if at >= self.in_progress.len() {
            return false;
        }
        match self.in_progress[at].stage {
            Stage::Reading => {},
            _ => {
                return false;
            },
        }
        let held: bool = self.in_progress[at].holds_buffer;
        let aborted: bool = self.in_progress[at].aborted;
        proof {
            lemma_read_over_wf(self@, stripe_id, state@.fetch.len());
            lemma_read_wf(self@, stripe_id, ok, now, state@.fetch.len());
        }
        self.read_over(at);
        assert(self@ =~= old(self)@.after_read_over(stripe_id));
        if !held {
            return false;
        }
        if aborted {
            let _ = self.in_progress.remove(at);
            assert(self@ =~= old(self)@.after_read(stripe_id, ok, now));
            return false;
        }
        if !ok {
            self.abort(state, stripe_id, now);
            return false;
        }
        true
    }

    /// The read of the record at `at` is over and its buffer is back.
    fn read_over(&mut self, at: usize)
        requires
            at < old(self)@.records.len(),
            old(self)@.records[at as int].holds_buffer ==> old(self)@.free_buffers < usize::MAX,
        ensures
            final(self)@ == (EvictorModel {
                records: old(self)@.records.update(
                    at as int,
                    Eviction {
                        io_outstanding: false,
                        holds_buffer: false,
                        ..old(self)@.records[at as int]
                    },
                ),
                free_buffers: old(self)@.free_buffers + (
                if old(self)@.records[at as int].holds_buffer {
                    1nat
                } else {
                    0nat
                }),
                ..old(self)@
            }),
    {
        let record = &mut self.in_progress[at];
        let held: bool = record.holds_buffer;
        record.io_outstanding = false;
        record.holds_buffer = false;
        if held {
            self.free_buffers = self.free_buffers + 1;
        }
        assert(self@.records =~= old(self)@.records.update(
            at as int,
            Eviction {
                io_outstanding: false,
                holds_buffer: false,
                ..old(self)@.records[at as int]
            },
        ));
    }

    /// The name and content of the object that a stripe's data becomes.
    pub fn object_for<K: Clock>(
        &self,
        state: &mut SharedMetadataState,
        stripe_id: usize,
        data: &Vec<u8>,
        clock: &mut K,
    ) -> (r: Result<(String, Vec<u8>), ReadError>)
        requires
            self@.wf(old(state)@.fetch.len()),
            stripe_id < old(state)@.fetch.len(),
        ensures
            ({
                let len = sector_len(self@.cfg, stripe_id as int) * SECTOR_SIZE;
                match r {
                    Ok((name, object)) => {
                        &&& len <= data@.len()
                        &&& name@ == object_name(self@.cfg.device_id@, stripe_id as nat)
                        &&& self@.codec.encodes_to(stripe_id, data@.take(len), Ok(object))
                        &&& exists|start: u64, end: u64|
                            {
                                &&& final(clock).readings() == #[trigger] old(
                                    clock,
                                ).readings().push(start).push(end)
                                &&& final(state)@ == old(state)@.with_spill(
                                    old(state)@.spill.with_encode_time(sat_sub(end, start)),
                                )
                            }
                    },
                    Err(ReadError::ShortBuffer { len: owed, held }) => {
                        &&& owed == len && held == data@.len() && len > data@.len()
                        &&& final(clock).readings() == old(clock).readings()
                        &&& final(state)@ == old(state)@
                    },
                    Err(ReadError::Unencodable(e)) => {
                        &&& len <= data@.len()
                        &&& self@.codec.encodes_to(stripe_id, data@.take(len), Err(e))
                        &&& exists|start: u64|
                            final(clock).readings() == #[trigger] old(clock).readings().push(start)
                        &&& final(state)@ == old(state)@
                    },
                }
            }),
    {
        proof {
            lemma_stripe_fits(self@, state@.fetch.len(), stripe_id);
        }
        let bytes = self.stripe_bytes(stripe_id);
        let len: u64 = bytes.1;
        if len > data.len() as u64 {
            return Err(ReadError::ShortBuffer { len, held: data.len() });
        }
        let plain = slice_subrange(data.as_slice(), 0, len as usize);
        assert(plain@ =~= data@.take(len as int));
        assert(self.codec.addresses(stripe_id));
        let mut counters = state.spill;
        match self.codec.encode_timed(stripe_id, plain, clock, &mut counters) {
            Ok(object) => {
                state.spill = counters;
                let ghost times = choose|start: u64, end: u64|
                    clock.readings() == #[trigger] old(clock).readings().push(start).push(end)
                        && counters == old(state)@.spill.with_encode_time(sat_sub(end, start));
                assert(state@ =~= old(state)@.with_spill(
                    old(state)@.spill.with_encode_time(sat_sub(times.1, times.0)),
                ));
                Ok((spill_object_name(self.cfg.device_id.as_str(), stripe_id), object))
            },
            Err(e) => Err(ReadError::Unencodable(e)),
        }
    }

    /// Note that the upload of a stripe starts. Says whether it does: without
    /// a store the eviction is abandoned.
    pub fn start_put(
        &mut self,
        state: &mut SharedMetadataState,
        stripe_id: usize,
        object_len: u64,
        now: u64,
    ) -> (send: bool)
        requires
            old(self)@.wf(old(state)@.fetch.len()),
            old(state)@.wf(),
            old(self)@.tracks(stripe_id) ==> old(self)@.record(stripe_id).stage
                == Stage::Reading && !old(self)@.record(stripe_id).holds_buffer,
        ensures
            send == old(self)@.starts_put(stripe_id),
            final(self)@ == old(self)@.after_start_put(stripe_id, object_len, now),
            final(state)@ == old(self)@.state_after_start_put(old(state)@, stripe_id),
            final(self)@.wf(final(state)@.fetch.len()),
            final(state)@.wf(),
            final(state)@.fetch.len() == old(state)@.fetch.len(),
    {
        if !self.has_store {
            self.abort(state, stripe_id, now);
            return false;
        }
        let at = self.position(stripe_id);
        if at >= self.in_progress.len() {
            return false;
        }
        let ghost started = Eviction {
            object_len,
            stage: Stage::Putting,
            io_outstanding: true,
            ..self@.record(stripe_id)
        };
        proof {
            lemma_records_update(
                self@.records,
                self@.free_buffers as int,
                self@.puts as int,
                self@.cfg.max_concurrent_evictions,
                state@.fetch.len(),
                at as int,
                started,
                self@.free_buffers as int,
                self@.puts + 1,
            );
            lemma_count_records_bound(self@.records.update(at as int, started), is_putting());
        }
        let record = &mut self.in_progress[at];
        record.object_len = object_len;
        record.stage = Stage::Putting;
        record.io_outstanding = true;
        self.puts_in_flight = self.puts_in_flight + 1;
        state.spill.puts = bump(state.spill.puts);
        assert(self@ =~= old(self)@.after_start_put(stripe_id, object_len, now));
        assert(state@ =~= old(self)@.state_after_start_put(old(state)@, stripe_id));
        true
    }

    /// An upload completed; `stripe` is what the object's name denotes.
    #[verifier::rlimit(60)]
    #[verifier::spinoff_prover]
    pub fn finish_put(
        &mut self,
        state: &mut SharedMetadataState,
        flusher: &mut MetadataFlusher,
        stripe: Option<usize>,
        ok: bool,
        now: u64,
    )
        requires
            old(self)@.wf(old(state)@.fetch.len()),
            old(state)@.wf(),
            old(flusher)@.wf(),
            old(flusher)@.headers.len() == old(state)@.fetch.len(),
        ensures
            final(self)@ == old(self)@.after_put(stripe, ok, now),
            final(state)@ == old(self)@.state_after_put(old(state)@, stripe, ok, now),
            final(flusher)@ == old(self)@.flusher_after_put(old(flusher)@, stripe, ok),
            final(self)@.wf(final(state)@.fetch.len()),
            final(state)@.wf(),
            final(state)@.fetch.len() == old(state)@.fetch.len(),
            final(flusher)@.wf(),
            final(flusher)@.headers == old(flusher)@.headers,
    {
        proof {
            lemma_put_wf(self@, stripe, ok, now, state@.fetch.len());
        }
        self.puts_in_flight = self.puts_in_flight.saturating_sub(1);
        assert(self@ =~= old(self)@.one_put_less());
        let stripe_id = match stripe {
            Some(stripe_id) => stripe_id,
            None => {
                return;
            },
        };
        let at = self.position(stripe_id);
        if at >= self.in_progress.len() {
            return;
        }
        match self.in_progress[at].stage {
            Stage::Putting => {},
            _ => {
                return;
            },
        }
        proof {
            lemma_put_over_wf(old(self)@, stripe_id, state@.fetch.len());
        }
        let record = &mut self.in_progress[at];
        record.io_outstanding = false;
        let object_len: u64 = record.object_len;
        let aborted: bool = record.aborted;
        assert(self@ =~= old(self)@.after_put_over(stripe_id));
        if aborted {
            let _ = self.in_progress.remove(at);
            assert(self@ =~= old(self)@.after_put(stripe, ok, now));
            return;
        }
        if ok {
            state.spill.put_bytes = bump_by(state.spill.put_bytes, object_len);
            self.store_recovered(state);
            assert(state@ =~= old(self)@.state_after_put(old(state)@, stripe, ok, now));
            self.issue_header_op(flusher, stripe_id);
        } else {
            state.spill.put_failures = bump(state.spill.put_failures);
            self.store_failed(state, now);
            assert(state@ =~= old(state)@.with_spill(
                SpillCounters {
                    put_failures: inc(old(state)@.spill.put_failures),
                    degraded: true,
                    ..old(state)@.spill
                },
            ));
            self.abort(state, stripe_id, now);
        }
    }

    /// A stripe is clean when the live snapshot can serve it again: nothing
    /// written or pushed, the source holds it, it became resident while the
    /// subscription was up, and it never went through the store. Only with
    /// clean eviction enabled.
    ///
    /// IN_S3 on a resident stripe means it came back from the store, and a
    /// stripe was uploaded because its content could not be trusted to match
    /// the snapshot. The round trip sets FETCHED_LIVE again, so without this
    /// term such a stripe would be dropped next time and the snapshot's
    /// pre-image served in its place.
    pub fn clean_predicate(&self, state: &SharedMetadataState, stripe_id: usize) -> (r: bool)
        requires
            state@.wf(),
            state@.valid(stripe_id as int),
        ensures
            r == self@.clean(state@, stripe_id as int),
    {
        self.cfg.clean_eviction && state.source_live() && !state.stripe_written(stripe_id)
            && !state.stripe_pushed(stripe_id) && !state.stripe_in_s3(stripe_id)
            && state.stripe_has_source(stripe_id) && state.stripe_fetched_live(stripe_id)
    }

    /// Evictions that are not aborted.
    fn active(&self) -> (r: usize)
        ensures
            r == count_records(self@.records, is_active()),
    {
        let mut count: usize = 0;
        let mut i: usize = 0;
        while i < self.in_progress.len()
            invariant
                i <= self@.records.len(),
                count <= i,
                count == count_records(self@.records.take(i as int), is_active()),
            decreases self@.records.len() - i,
        {
            assert(self@.records.take(i + 1).drop_last() =~= self@.records.take(i as int));
            if !self.in_progress[i].aborted {
                count = count + 1;
            }
            i = i + 1;
        }
        assert(self@.records.take(i as int) =~= self@.records);
        count
    }

    /// Whether an upload is in progress and not aborted.
    fn uploading(&self) -> (r: bool)
        ensures
            r == (count_records(self@.records, is_active_dirty()) > 0),
    {
        let mut found = false;
        let mut i: usize = 0;
        while i < self.in_progress.len()
            invariant
                i <= self@.records.len(),
                found == (count_records(self@.records.take(i as int), is_active_dirty()) > 0),
            decreases self@.records.len() - i,
        {
            assert(self@.records.take(i + 1).drop_last() =~= self@.records.take(i as int));
            if !self.in_progress[i].aborted && self.in_progress[i].kind == Kind::Dirty {
                found = true;
            }
            i = i + 1;
        }
        assert(self@.records.take(i as int) =~= self@.records);
        found
    }

    /// Whether an upload may start now: a store, room for one, and a store
    /// that is not degraded, or one probe once its pause has passed.
    pub fn dirty_allowed(&self, state: &SharedMetadataState, now: u64) -> (r: bool)
        ensures
            r == self@.dirty_allowed(state@, now),
    {
        if !self.has_store || self.puts_in_flight >= self.cfg.max_concurrent_evictions {
            return false;
        }
        if !state.spill.degraded {
            return true;
        }
        let backoff_passed = match self.degraded_until {
            Some(until) => now >= until,
            None => true,
        };
        backoff_passed && !self.uploading()
    }

    /// One draining stripe takes its next step: it goes on waiting, is
    /// abandoned, or has its header op issued. Otherwise its data is to be
    /// read, and where from comes back.
    pub fn advance_stripe(
        &mut self,
        state: &mut SharedMetadataState,
        flusher: &mut MetadataFlusher,
        stripe_id: usize,
        now: u64,
    ) -> (read: Option<(u64, u64)>)
        requires
            old(self)@.wf(old(state)@.fetch.len()),
            old(state)@.wf(),
            old(flusher)@.wf(),
            old(flusher)@.headers.len() == old(state)@.fetch.len(),
        ensures
            final(self)@ == old(self)@.after_drain(old(state)@, stripe_id, now),
            final(state)@ == old(self)@.state_after_drain(old(state)@, stripe_id, now),
            final(flusher)@ == old(self)@.flusher_after_drain(
                old(state)@,
                old(flusher)@,
                stripe_id,
                now,
            ),
            read is Some == old(self)@.drain_reads(old(state)@, stripe_id, now),
            read matches Some(from) ==> from.0 == sector_offset(
                old(self)@.cfg,
                stripe_id as int,
            ) && from.1 == sector_len(old(self)@.cfg, stripe_id as int),
            final(self)@.wf(final(state)@.fetch.len()),
            final(state)@.wf(),
            final(state)@.fetch.len() == old(state)@.fetch.len(),
            final(flusher)@.wf(),
            final(flusher)@.headers == old(flusher)@.headers,
    {
        proof {
            lemma_drain_wf(self@, state@, stripe_id, now);
        }
        let at = self.position(stripe_id);
        if at >= self.in_progress.len() || self.in_progress[at].aborted {
            return None;
        }
        match self.in_progress[at].stage {
            Stage::Draining => {},
            _ => {
                return None;
            },
        }
        assert(EvictorModel::record_ok(self@.records[at as int], state@.fetch.len()));
        if state.stripe_inflight(stripe_id) != 0 {
            if now.saturating_sub(self.in_progress[at].started) > DRAIN_TIMEOUT {
                state.spill.degraded_reasons = bump(state.spill.degraded_reasons);
                assert(state@ =~= old(state)@.with_anomaly());
                self.abort(state, stripe_id, now);
            }
            return None;
        }
        let mut kind = self.in_progress[at].kind;
        if kind == Kind::Clean && !self.clean_predicate(state, stripe_id) {
            if self.dirty_allowed(state, now) {
                kind = Kind::Dirty;
            } else {
                self.abort(state, stripe_id, now);
                return None;
            }
        }
        match kind {
            Kind::Clean => {
                self.issue_header_op(flusher, stripe_id);
                None
            },
            Kind::Dirty => {
                proof {
                    lemma_kind_wf(self@, stripe_id, Kind::Dirty, state@.fetch.len());
                    lemma_start_read_wf(
                        self@.with_kind(stripe_id, Kind::Dirty),
                        stripe_id,
                        state@.fetch.len(),
                    );
                    lemma_stripe_fits(self@, state@.fetch.len(), stripe_id);
                }
                let record = &mut self.in_progress[at];
                record.kind = Kind::Dirty;
                assert(self@ =~= old(self)@.with_kind(stripe_id, Kind::Dirty));
                self.start_read(stripe_id, at)
            },
        }
    }

    /// Take a buffer for the record at `at` and say what to read into it.
    /// Without a free buffer the stripe waits for the next tick.
    fn start_read(&mut self, stripe_id: usize, at: usize) -> (read: Option<(u64, u64)>)
        requires
            at == find(old(self)@.records, stripe_id),
            at < old(self)@.records.len(),
            sector_offset(old(self)@.cfg, stripe_id as int) <= u64::MAX,
        ensures
            final(self)@ == old(self)@.after_start_read(stripe_id),
            read is Some == (old(self)@.free_buffers > 0),
            read matches Some(from) ==> from.0 == sector_offset(
                old(self)@.cfg,
                stripe_id as int,
            ) && from.1 == sector_len(old(self)@.cfg, stripe_id as int),
    {
        if self.free_buffers == 0 {
            return None;
        }
        self.free_buffers = self.free_buffers - 1;
        let from = self.stripe_sectors(stripe_id);
        let record = &mut self.in_progress[at];
        record.holds_buffer = true;
        record.stage = Stage::Reading;
        record.io_outstanding = true;
        assert(self@ =~= old(self)@.after_start_read(stripe_id));
        Some(from)
    }

    /// The read of a stripe could not be handed over. A later hand-over may
    /// still carry it out, so the record keeps its buffer and waits for the
    /// completion. Returning the buffer now would let the late read land in a
    /// buffer of another eviction, and dropping the record would let the
    /// completion be taken for a new read of this stripe, uploading bytes read
    /// before the guest's later writes.
    pub fn read_unsubmitted(
        &mut self,
        state: &mut SharedMetadataState,
        stripe_id: usize,
        now: u64,
    )
        requires
            old(self)@.wf(old(state)@.fetch.len()),
            old(state)@.wf(),
        ensures
            final(self)@ == old(self)@.after_unsubmitted(stripe_id, now),
            final(state)@ == old(self)@.state_after_unsubmitted(old(state)@, stripe_id),
            final(self)@.wf(final(state)@.fetch.len()),
            final(state)@.wf(),
            final(state)@.fetch.len() == old(state)@.fetch.len(),
    {
        state.spill.degraded_reasons = bump(state.spill.degraded_reasons);
        assert(state@ =~= old(state)@.with_anomaly());
        let at = self.position(stripe_id);
        if at >= self.in_progress.len() {
            return;
        }
        proof {
            let r = Eviction { resubmit_read: true, ..self@.record(stripe_id) };
            lemma_records_update(
                self@.records,
                self@.free_buffers as int,
                self@.puts as int,
                self@.cfg.max_concurrent_evictions,
                state@.fetch.len(),
                at as int,
                r,
                self@.free_buffers as int,
                self@.puts as int,
            );
        }
        let record = &mut self.in_progress[at];
        record.resubmit_read = true;
        assert(self@ =~= old(self)@.with_record(
            stripe_id,
            Eviction { resubmit_read: true, ..old(self)@.record(stripe_id) },
        ));
        self.abort(state, stripe_id, now);
    }

    /// Free bytes below `threshold`, if the filesystem has answered at all.
    fn free_below(&self, threshold: u64) -> (r: bool)
        ensures
            r == self@.free_below(threshold),
    {
        match self.free_bytes {
            Some(free) => free < threshold,
            None => false,
        }
    }

    /// Soft pressure decides whether to evict; hard pressure closes the write
    /// gate. When it opens again, the fetches held for space are released.
    pub fn assess_pressure(&mut self, state: &mut SharedMetadataState)
        requires
            stripe_size(old(self)@.cfg) <= u64::MAX,
        ensures
            final(self)@ == old(self)@.after_assess(old(state)@),
            final(state)@ == old(self)@.state_after_assess(old(state)@),
    {
        let resident_bytes = saturating_mul(state.resident_stripes(), self.stripe_size());
        let max: u64 = self.cfg.max_local_bytes;
        let hard = resident_bytes > max.saturating_add(self.cfg.hard_margin_bytes)
            || self.free_below(self.cfg.min_free_bytes / 2);
        let over = resident_bytes > max || self.free_below(self.cfg.min_free_bytes);
        if over {
            self.evicting_to_low_water = true;
        }
        let soft = over || (self.evicting_to_low_water && resident_bytes > max.saturating_sub(
            self.cfg.low_water_bytes,
        ));
        if !soft {
            self.evicting_to_low_water = false;
        }
        self.under_pressure = soft;
        let current: u8 = state.write_gate();
        let next: u8 = if hard {
            match self.cfg.on_full {
                OnFull::Stall => GATE_HOLD,
                OnFull::Fail => GATE_FAIL,
            }
        } else if current != GATE_OPEN && !self.free_below(self.cfg.min_free_bytes) {
            GATE_OPEN
        } else {
            current
        };
        if next != current {
            state.set_write_gate(next);
            if next == GATE_OPEN {
                self.released_fetches.append(&mut self.held_for_space);
            }
        }
        assert(self@ =~= old(self)@.after_assess(old(state)@));
    }

    /// Would completing the evictions already in flight leave the device where
    /// it should be? If not, more are needed.
    pub fn more_evictions_needed(&self, state: &SharedMetadataState) -> (r: bool)
        requires
            stripe_size(self@.cfg) <= u64::MAX,
        ensures
            r == self@.more_needed(state@),
    {
        let active: u64 = self.active() as u64;
        let size = self.stripe_size();
        let resident = saturating_mul(state.resident_stripes().saturating_sub(active), size);
        let max: u64 = self.cfg.max_local_bytes;
        let short = match self.free_bytes {
            Some(free) => free.saturating_add(saturating_mul(active, size))
                < self.cfg.min_free_bytes,
            None => false,
        };
        resident > max || short || (self.evicting_to_low_water && resident > max.saturating_sub(
            self.cfg.low_water_bytes,
        ))
    }

    /// Claim a stripe; says whether it could be.
    pub fn begin_eviction(
        &mut self,
        state: &mut SharedMetadataState,
        stripe_id: usize,
        kind: Kind,
        now: u64,
    ) -> (claimed: bool)
        requires
            old(self)@.wf(old(state)@.fetch.len()),
            old(state)@.wf(),
            old(state)@.valid(stripe_id as int),
            old(state)@.claimable(stripe_id as int) ==> {
                &&& !old(self)@.tracks(stripe_id)
                &&& old(self)@.records.len() < old(self)@.cfg.max_concurrent_evictions
            },
        ensures
            claimed == old(state)@.claimable(stripe_id as int),
            final(self)@ == old(self)@.after_begin(old(state)@, stripe_id, kind, now),
            final(state)@ == state_after_begin(old(state)@, stripe_id),
            final(self)@.wf(final(state)@.fetch.len()),
            final(state)@.wf(),
            final(state)@.fetch.len() == old(state)@.fetch.len(),
    {
        proof {
            lemma_begin_wf(self@, state@, stripe_id, kind, now);
        }
        let previous = match state.try_begin_evicting(stripe_id) {
            Some(previous) => previous,
            None => {
                return false;
            },
        };
        self.epoch = bump(self.epoch);
        self.idle_examined = 0;
        let epoch: u64 = self.epoch;
        self.in_progress.push(
            Eviction {
                stripe_id,
                previous,
                kind,
                stage: Stage::Draining,
                epoch,
                holds_buffer: false,
                object_len: 0,
                started: now,
                committed: false,
                retry_at: None,
                deferred_fetch: false,
                deferred_push: None,
                io_outstanding: false,
                resubmit_read: false,
                aborted: false,
            },
        );
        assert(self@ =~= old(self)@.after_begin(old(state)@, stripe_id, kind, now));
        true
    }

    /// The hand examines one stripe; says whether it was claimed.
    fn examine(
        &mut self,
        state: &mut SharedMetadataState,
        deferred_dirty: &mut Vec<usize>,
        clean_possible: bool,
        dirty_possible: bool,
        now: u64,
        Ghost(x): Ghost<SweepModel>,
    ) -> (claimed: bool)
        requires
            x.ok(old(state)@.fetch.len()),
            x.goes_on(),
            x.m == old(self)@,
            x.s == old(state)@,
            x.deferred == old(deferred_dirty)@,
        ensures
            ({
                let y = x.step(clean_possible, dirty_possible, now);
                &&& final(self)@ == y.m
                &&& final(state)@ == y.s
                &&& final(deferred_dirty)@ == y.deferred
                &&& y.claimed == x.claimed + (if claimed {
                    1nat
                } else {
                    0nat
                })
            }),
    {
        let ghost n = state@.fetch.len();
        proof {
            lemma_step_ok(x, clean_possible, dirty_possible, now, n);
        }
        let stripe_count = state.stripe_count();
        let stripe_id: usize = self.hand;
        self.hand = (self.hand + 1) % stripe_count;
        assert(self@ =~= x.moved(n).m);
        let at = self.position(stripe_id);
        if at < self.in_progress.len() || self.skips(stripe_id) || !state.stripe_resident(stripe_id) {
            return false;
        }
        let clean = self.clean_predicate(state, stripe_id);
        if !clean && !dirty_possible {
            return false;
        }
        let referenced = state.take_reference(stripe_id);
        assert(state@ == x.moved(n).unreferenced(stripe_id).s);
        if referenced {
            return false;
        }
        if clean {
            if clean_possible {
                return self.begin_eviction(state, stripe_id, Kind::Clean, now);
            }
            return false;
        }
        if clean_possible {
            if deferred_dirty.len() < self.cfg.max_concurrent_evictions {
                deferred_dirty.push(stripe_id);
            }
            return false;
        }
        if self.dirty_allowed(state, now) {
            return self.begin_eviction(state, stripe_id, Kind::Dirty, now);
        }
        false
    }

    /// Sweep the hand over a batch of stripes and claim those that go. With
    /// clean eviction possible a dirty candidate waits for the rest of the
    /// batch in case a clean one turns up: dropping a stripe is cheaper than
    /// uploading one. A stripe used since the hand last passed keeps its place
    /// for one more revolution.
    pub fn select_victims(&mut self, state: &mut SharedMetadataState, now: u64)
        requires
            old(self)@.wf(old(state)@.fetch.len()),
            old(state)@.wf(),
        ensures
            final(self)@ == old(self)@.after_select(old(state)@, now),
            final(state)@ == old(self)@.state_after_select(old(state)@, now),
            final(self)@.wf(final(state)@.fetch.len()),
            final(state)@.wf(),
            final(state)@.fetch.len() == old(state)@.fetch.len(),
    {
        if !self.under_pressure || !self.punch_supported {
            return;
        }
        let stripe_count = state.stripe_count();
        if stripe_count == 0 {
            return;
        }
        let clean_possible = self.cfg.clean_eviction && state.source_live();
        let dirty_possible = self.dirty_allowed(state, now);
        if !clean_possible && !dirty_possible {
            return;
        }
        let ghost n = state@.fetch.len();
        let mut deferred_dirty: Vec<usize> = Vec::new();
        let mut examined: usize = 0;
        let mut claimed = false;
        let ghost start = SweepModel {
            m: self@,
            s: state@,
            deferred: deferred_dirty@,
            examined: 0,
            claimed: 0,
        };
        let ghost mut x = start;
        assert(start.deferred =~= Seq::empty());
        while examined < self.cfg.sweep_batch && self.in_progress.len()
            < self.cfg.max_concurrent_evictions && self.more_evictions_needed(state)
            invariant
                x.ok(n),
                n == state@.fetch.len(),
                x.m == self@,
                x.s == state@,
                x.deferred == deferred_dirty@,
                x.examined == examined,
                claimed == (x.claimed > 0),
                self.cfg == old(self)@.cfg,
                x.swept(clean_possible, dirty_possible, now) == start.swept(
                    clean_possible,
                    dirty_possible,
                    now,
                ),
            decreases old(self)@.cfg.sweep_batch - examined,
        {
            proof {
                lemma_step_ok(x, clean_possible, dirty_possible, now, n);
            }
            let taken = self.examine(
                state,
                &mut deferred_dirty,
                clean_possible,
                dirty_possible,
                now,
                Ghost(x),
            );
            examined = examined + 1;
            claimed = claimed || taken;
            proof {
                x = x.step(clean_possible, dirty_possible, now);
            }
        }
        assert(x == start.swept(clean_possible, dirty_possible, now));
        let ghost middle = x;
        let mut i: usize = 0;
        while i < deferred_dirty.len() && self.in_progress.len()
            < self.cfg.max_concurrent_evictions && self.more_evictions_needed(state)
            && self.dirty_allowed(state, now)
            invariant
                x.ok(n),
                n == state@.fetch.len(),
                x.m == self@,
                x.s == state@,
                x.deferred == deferred_dirty@,
                x.examined == examined,
                claimed == (x.claimed > 0),
                i <= deferred_dirty@.len(),
                x.claimed_deferred(i as nat, now) == middle.claimed_deferred(0, now),
            decreases deferred_dirty@.len() - i,
        {
            proof {
                lemma_claim_ok(x, deferred_dirty@[i as int], Kind::Dirty, now, n);
            }
            let taken = self.begin_eviction(state, deferred_dirty[i], Kind::Dirty, now);
            claimed = claimed || taken;
            proof {
                x = x.with_claim(deferred_dirty@[i as int], Kind::Dirty, now);
            }
            i = i + 1;
        }
        assert(x == old(self)@.sweep(old(state)@, now));
        if !claimed {
            self.idle_examined = self.idle_examined.saturating_add(examined);
        }
        assert(self@ =~= old(self)@.after_select(old(state)@, now));
    }

    /// A guest's fetch reached the coordinator: abort or defer an eviction of
    /// the stripe, hold or refuse the fetch under a closed write gate, else
    /// forward it.
    pub fn on_fetch_request(
        &mut self,
        state: &mut SharedMetadataState,
        stripe_id: usize,
        now: u64,
    ) -> (r: FetchDisposition)
        requires
            old(self)@.wf(old(state)@.fetch.len()),
            old(state)@.wf(),
            old(state)@.valid(stripe_id as int),
        ensures
            r == old(self)@.fetch_disposition(old(state)@, stripe_id),
            final(self)@ == old(self)@.after_fetch_request(old(state)@, stripe_id, now),
            final(state)@ == (if r == FetchDisposition::Aborted {
                old(self)@.state_after_abort(old(state)@, stripe_id)
            } else {
                old(state)@
            }),
            final(self)@.wf(final(state)@.fetch.len()),
            final(state)@.wf(),
            final(state)@.fetch.len() == old(state)@.fetch.len(),
    {
        proof {
            lemma_fetch_request_wf(self@, state@, stripe_id, now);
        }
        let at = self.position(stripe_id);
        if at < self.in_progress.len() && !self.in_progress[at].aborted {
            match self.in_progress[at].stage {
                Stage::WritingHeader { token } => {
                    let record = &mut self.in_progress[at];
                    record.deferred_fetch = true;
                    assert(self@ =~= old(self)@.after_fetch_request(old(state)@, stripe_id, now));
                    return FetchDisposition::Deferred;
                },
                _ => {
                    self.abort(state, stripe_id, now);
                    return FetchDisposition::Aborted;
                },
            }
        }
        if !state.stripe_resident(stripe_id) {
            let write_gate: u8 = state.write_gate();
            if write_gate == GATE_HOLD || write_gate == GATE_FAIL {
                if !contains(&self.held_for_space, stripe_id) {
                    self.held_for_space.push(stripe_id);
                }
                assert(self@ =~= old(self)@.after_fetch_request(old(state)@, stripe_id, now));
                return if write_gate == GATE_HOLD {
                    FetchDisposition::HeldForSpace
                } else {
                    FetchDisposition::Refused
                };
            }
        }
        FetchDisposition::Forward
    }

    /// A snapshot push reached the coordinator. The permit moves in; it comes
    /// back for `Forward`, is held for `Deferred`, and is dropped for the
    /// others.
    pub fn on_pushed_stripe(
        &mut self,
        state: &mut SharedMetadataState,
        stripe_id: usize,
        data: &[u8],
        permit: PushPermit,
        now: u64,
    ) -> (r: (PushDisposition, Option<PushPermit>))
        requires
            old(self)@.wf(old(state)@.fetch.len()),
            old(state)@.wf(),
            old(state)@.valid(stripe_id as int),
        ensures
            r.0 == old(self)@.push_disposition(old(state)@, stripe_id),
            r.1 == (if r.0 == PushDisposition::Forward {
                Some(permit)
            } else {
                None
            }),
            exists|copy: Vec<u8>|
                copy@ == data@ && final(self)@ == #[trigger] old(self)@.after_pushed_stripe(
                    old(state)@,
                    stripe_id,
                    copy,
                    permit,
                    now,
                ),
            final(state)@ == (if r.0 == PushDisposition::AbortedEviction {
                old(self)@.state_after_abort(old(state)@, stripe_id)
            } else {
                old(state)@
            }),
            final(self)@.wf(final(state)@.fetch.len()),
            final(state)@.wf(),
            final(state)@.fetch.len() == old(state)@.fetch.len(),
    {
        let ghost before = self@;
        let ghost slot = permit;
        let copy = copy_bytes(data);
        proof {
            lemma_pushed_stripe_wf(self@, state@, stripe_id, copy, permit, now);
        }
        let ghost after = before.after_pushed_stripe(state@, stripe_id, copy, permit, now);
        let at = self.position(stripe_id);
        if at < self.in_progress.len() && !self.in_progress[at].aborted {
            if self.in_progress[at].kind == Kind::Dirty {
                self.dropped_permits.push(permit);
                assert(self@ =~= after);
                return (PushDisposition::Ignore, None);
            }
            match self.in_progress[at].stage {
                Stage::WritingHeader { token } => {
                    let mut held = Some(HeldPush { data: copy, permit });
                    let record = &mut self.in_progress[at];
                    std::mem::swap(&mut held, &mut record.deferred_push);
                    if let Some(earlier) = held {
                        self.dropped_permits.push(earlier.permit);
                    }
                    assert(self@ =~= after);
                    return (PushDisposition::Deferred, None);
                },
                _ => {
                    self.abort(state, stripe_id, now);
                    self.dropped_permits.push(permit);
                    assert(self@ =~= after);
                    return (PushDisposition::AbortedEviction, None);
                },
            }
        }
        let gone = state.stripe_fetch_state(stripe_id) == Evicted || state.stripe_flags(
            stripe_id,
        ) & stripe_flags::WAS_EVICTED != 0;
        if gone && state.stripe_in_s3(stripe_id) {
            self.dropped_permits.push(permit);
            assert(self@ =~= after);
            return (PushDisposition::Ignore, None);
        }
        assert(self@ =~= after);
        (PushDisposition::Forward, Some(permit))
    }

    /// Fetches and pushes released since the last call, for the coordinator to
    /// route.
    pub fn take_released(&mut self) -> (r: (Vec<usize>, Vec<ReleasedPush>))
        ensures
            r.0@ == old(self)@.released_fetches,
            r.1@ == old(self)@.released_pushes,
            final(self)@ == (EvictorModel {
                released_fetches: Seq::empty(),
                released_pushes: Seq::empty(),
                ..old(self)@
            }),
    {
        let mut fetches: Vec<usize> = Vec::new();
        let mut pushes: Vec<ReleasedPush> = Vec::new();
        std::mem::swap(&mut fetches, &mut self.released_fetches);
        std::mem::swap(&mut pushes, &mut self.released_pushes);
        assert(self@ =~= EvictorModel {
            released_fetches: Seq::empty(),
            released_pushes: Seq::empty(),
            ..old(self)@
        });
        (fetches, pushes)
    }

    /// Slots of pushes dropped since the last call, to be given back.
    pub fn take_dropped_permits(&mut self) -> (r: Vec<PushPermit>)
        ensures
            r@ == old(self)@.dropped,
            final(self)@ == (EvictorModel { dropped: Seq::empty(), ..old(self)@ }),
    {
        let mut dropped: Vec<PushPermit> = Vec::new();
        std::mem::swap(&mut dropped, &mut self.dropped_permits);
        assert(self@ =~= EvictorModel { dropped: Seq::empty(), ..old(self)@ });
        dropped
    }

    /// True while an eviction is in progress, something released waits to be
    /// routed, or the device is over its ceiling and a sweep could still find
    /// a victim. An aborted record only waits for a completion it is owed,
    /// which the idle tick collects as well.
    pub fn busy(&self, state: &SharedMetadataState, now: u64) -> (r: bool)
        ensures
            r == self@.is_busy(state@, now),
    {
        self.active() > 0 || self.released_fetches.len() > 0 || self.released_pushes.len() > 0
            || (self.under_pressure && self.sweep_may_progress(state, now))
    }

    /// A sweep is worth spinning for until the hand has been round once
    /// without a claim; after that the idle tick is soon enough.
    pub fn sweep_may_progress(&self, state: &SharedMetadataState, now: u64) -> (r: bool)
        ensures
            r == self@.sweep_may_progress(state@, now),
    {
        self.punch_supported && self.in_progress.len() < self.cfg.max_concurrent_evictions
            && self.idle_examined < state.stripe_count() && ((self.cfg.clean_eviction
            && state.source_live()) || self.dirty_allowed(state, now))
    }

    /// Whether the filesystem is to be asked for its free space again.
    pub fn statfs_due(&self, now: u64) -> (r: bool)
        ensures
            r == self@.statfs_due(now),
    {
        match self.last_statfs {
            Some(at) => now.saturating_sub(at) >= STATFS_INTERVAL,
            None => true,
        }
    }

    /// The filesystem was asked and gave `answer`.
    pub fn record_statfs(
        &mut self,
        state: &mut SharedMetadataState,
        answer: Result<u64, IoError>,
        now: u64,
    )
        ensures
            final(self)@ == old(self)@.after_statfs(answer, now),
            final(state)@ == state_after_statfs(old(state)@, answer),
    {
        self.last_statfs = Some(now);
        match answer {
            Ok(free) => {
                self.free_bytes = Some(free);
                state.spill.free_bytes = free;
            },
            Err(_) => {},
        }
        assert(self@ =~= old(self)@.after_statfs(answer, now));
        assert(state@ =~= state_after_statfs(old(state)@, answer));
    }

    /// Whether a read is to be handed over again.
    pub fn resubmit_wanted(&self) -> (r: bool)
        ensures
            r == self@.resubmit_wanted(),
    {
        let mut i: usize = 0;
        while i < self.in_progress.len()
            invariant
                i <= self@.records.len(),
                forall|j: int| 0 <= j < i ==> !(#[trigger] self@.records[j]).resubmit_read,
            decreases self@.records.len() - i,
        {
            if self.in_progress[i].resubmit_read {
                return true;
            }
            i = i + 1;
        }
        false
    }

    /// The reads were handed over.
    pub fn reads_resubmitted(&mut self)
        ensures
            final(self)@ == old(self)@.after_resubmit(),
    {
        let mut i: usize = 0;
        while i < self.in_progress.len()
            invariant
                i <= self@.records.len(),
                self@.records.len() == old(self)@.records.len(),
                self@ == (EvictorModel { records: self@.records, ..old(self)@ }),
                forall|j: int|
                    0 <= j < i ==> #[trigger] self@.records[j] == resubmitted()(
                        old(self)@.records[j],
                    ),
                forall|j: int|
                    i <= j < self@.records.len() ==> #[trigger] self@.records[j]
                        == old(self)@.records[j],
            decreases self@.records.len() - i,
        {
            let record = &mut self.in_progress[i];
            record.resubmit_read = false;
            i = i + 1;
        }
        assert(self@ =~= old(self)@.after_resubmit());
    }

    /// The stripes that drain.
    fn draining_ids(&self) -> (ids: Vec<usize>)
        ensures
            ids@ == self@.ids_where(drains()),
    {
        let mut ids: Vec<usize> = Vec::new();
        let mut i: usize = 0;
        while i < self.in_progress.len()
            invariant
                i <= self@.records.len(),
                ids@ == ids_where(self@.records.take(i as int), drains()),
            decreases self@.records.len() - i,
        {
            assert(self@.records.take(i + 1).drop_last() =~= self@.records.take(i as int));
            if !self.in_progress[i].aborted && self.in_progress[i].stage == Stage::Draining {
                ids.push(self.in_progress[i].stripe_id);
            }
            i = i + 1;
        }
        assert(self@.records.take(i as int) =~= self@.records);
        ids
    }

    /// The stripes whose header op is to be issued again.
    fn retry_ids(&self, now: u64) -> (ids: Vec<usize>)
        ensures
            ids@ == self@.ids_where(retries(now)),
    {
        let mut ids: Vec<usize> = Vec::new();
        let mut i: usize = 0;
        while i < self.in_progress.len()
            invariant
                i <= self@.records.len(),
                ids@ == ids_where(self@.records.take(i as int), retries(now)),
            decreases self@.records.len() - i,
        {
            assert(self@.records.take(i + 1).drop_last() =~= self@.records.take(i as int));
            let due = match self.in_progress[i].retry_at {
                Some(at) => at <= now,
                None => false,
            };
            if !self.in_progress[i].aborted && due {
                ids.push(self.in_progress[i].stripe_id);
            }
            i = i + 1;
        }
        assert(self@.records.take(i as int) =~= self@.records);
        ids
    }

    /// Issue the header ops again that are due.
    pub fn retry_header_ops(
        &mut self,
        state: &SharedMetadataState,
        flusher: &mut MetadataFlusher,
        now: u64,
    )
        requires
            tick_of(old(self)@, state@, old(flusher)@).wf(),
        ensures
            ({
                let t = tick_of(old(self)@, state@, old(flusher)@);
                tick_of(final(self)@, state@, final(flusher)@) == t.headers_retried(
                    now,
                )
            }),
            tick_of(final(self)@, state@, final(flusher)@).wf(),
    {
        proof {
            reveal(TickModel::headers_retried);
        }
        let ids = self.retry_ids(now);
        let ghost t = tick_of(self@, state@, flusher@);
        let mut i: usize = 0;
        while i < ids.len()
            invariant
                i <= ids@.len(),
                tick_of(self@, state@, flusher@) == t.all_retried(
                    ids@,
                    now,
                    i as nat,
                ),
                tick_of(self@, state@, flusher@).wf(),
            decreases ids@.len() - i,
        {
            let at = self.position(ids[i]);
            if at < self.in_progress.len() && !self.in_progress[at].aborted {
                let due = match self.in_progress[at].retry_at {
                    Some(at) => at <= now,
                    None => false,
                };
                if due {
                    assert(EvictorModel::record_ok(
                        self@.records[at as int],
                        state@.fetch.len(),
                    ));
                    self.issue_header_op(flusher, ids[i]);
                }
            }
            i = i + 1;
        }
    }

    /// Let the hand look again at stripes that were skipped long enough.
    pub fn expire_recently_aborted(&mut self, now: u64)
        ensures
            final(self)@ == (EvictorModel {
                recent: EvictorModel::still_skipped(old(self)@.recent, now),
                ..old(self)@
            }),
    {
        broadcast use vstd::std_specs::hash::group_hash_axioms;

        let mut kept: HashMap<usize, u64> = HashMap::new();
        for (id, since) in it: self.recently_aborted.iter()
            invariant
                self@ == old(self)@,
                it.seq().unref().to_set() == self@.recent.kv_pairs(),
                forall|j: int|
                    0 <= j < it.index() && sat_sub(now, *(#[trigger] it.seq()[j]).1) < ABORT_SKIP
                        ==> kept@.dom().contains(*it.seq()[j].0),
                kept@.submap_of(EvictorModel::still_skipped(self@.recent, now)),
        {
            if now.saturating_sub(*since) < ABORT_SKIP {
                kept.insert(*id, *since);
            }
        }
        assert(kept@ =~= EvictorModel::still_skipped(self@.recent, now));
        self.recently_aborted = kept;
        assert(self@ =~= EvictorModel {
            recent: EvictorModel::still_skipped(old(self)@.recent, now),
            ..old(self)@
        });
    }

    /// The runs of consecutive evicted stripes.
    pub fn evicted_runs(metadata: &UbiMetadata) -> (runs: Vec<(usize, usize)>)
        ensures
            exists|ids: Seq<usize>| #[trigger]
                lists_evicted(ids, metadata.stripe_headers@) && runs@ == runs_of(ids),
    {
        let ids = metadata.evicted_stripe_ids();
        let mut runs: Vec<(usize, usize)> = Vec::new();
        let mut i: usize = 0;
        while i < ids.len()
            invariant
                i <= ids@.len(),
                lists_evicted(ids@, metadata.stripe_headers@),
                runs@ == runs_of(ids@.take(i as int)),
            decreases ids@.len() - i,
        {
            let ghost done = ids@.take(i as int);
            proof {
                assert(ids@.take(i + 1).drop_last() =~= done);
                law_runs_hold_the_numbers(done);
            }
            let id: usize = ids[i];
            let last: usize = runs.len();
            if last > 0 {
                let (start, end) = runs[last - 1];
                assert(done.contains(end));
                if end < id && id - end == 1 {
                    runs.set(last - 1, (start, id));
                    assert(runs@ =~= runs_of(ids@.take(i + 1)));
                } else {
                    runs.push((id, id));
                }
            } else {
                runs.push((id, id));
            }
            i = i + 1;
        }
        assert(ids@.take(i as int) =~= ids@);
        runs
    }

    /// Byte offset and length of the stripes from the first to the last of a
    /// run.
    pub fn run_range(&self, state: &SharedMetadataState, run: (usize, usize)) -> (r: (u64, u64))
        requires
            self@.wf(state@.fetch.len()),
            run.0 <= run.1,
            run.1 < state@.fetch.len(),
        ensures
            r.0 == run_offset(self@.cfg, run),
            r.1 == run_bytes(self@.cfg, run),
    {
        proof {
            lemma_stripe_fits(self@, state@.fetch.len(), run.0);
            lemma_stripe_fits(self@, state@.fetch.len(), run.1);
            let c = self@.cfg.stripe_sector_count as int;
            let a = run.0 as int;
            let b = run.1 as int;
            assert(a * c <= b * c) by (nonlinear_arith)
                requires
                    0 <= a <= b,
                    0 <= c,
            ;
        }
        let (offset, _) = self.stripe_bytes(run.0);
        let (last_offset, last_len) = self.stripe_bytes(run.1);
        (offset, last_offset.saturating_sub(offset) + last_len)
    }

    /// A run was punched, or could not be; says how many stripes that covered.
    pub fn record_run(
        &mut self,
        state: &mut SharedMetadataState,
        run: (usize, usize),
        punched: Result<(), IoError>,
    ) -> (covered: usize)
        requires
            run.0 <= run.1 < usize::MAX,
        ensures
            (final(self)@, final(state)@, covered as int) == runs_punched(
                old(self)@,
                old(state)@,
                seq![run],
                seq![punched],
                1,
            ),
    {
        proof {
            reveal_with_fuel(runs_punched, 2);
        }
        match punched {
            Ok(_) => {
                state.spill.startup_punches = bump(state.spill.startup_punches);
                assert(state@ =~= old(state)@.with_spill(
                    SpillCounters {
                        startup_punches: inc(old(state)@.spill.startup_punches),
                        ..old(state)@.spill
                    },
                ));
                run.1 - run.0 + 1
            },
            Err(e) => {
                self.record_punch_failure(state, e);
                0
            },
        }
    }

    /// Startup pass: punch every stripe with EVICTED set, coalescing runs of
    /// consecutive stripes into one call. Doing it again changes nothing on
    /// disk. Counts one startup punch per run and returns the number of
    /// stripes covered.
    pub fn punch_all_evicted<P: HolePuncher>(
        &mut self,
        state: &mut SharedMetadataState,
        metadata: &UbiMetadata,
        puncher: &mut P,
    ) -> (covered: usize)
        requires
            old(self)@.wf(old(state)@.fetch.len()),
            metadata.stripe_headers@.len() == old(state)@.fetch.len(),
        ensures
            exists|ids: Seq<usize>, punches: Seq<Result<(), IoError>>|
                #![trigger lists_evicted(ids, metadata.stripe_headers@), runs_punched(
                    old(self)@,
                    old(state)@,
                    runs_of(ids),
                    punches,
                    runs_of(ids).len(),
                )]
                {
                    &&& lists_evicted(ids, metadata.stripe_headers@)
                    &&& punches.len() == runs_of(ids).len()
                    &&& (final(self)@, final(state)@, covered as int) == runs_punched(
                        old(self)@,
                        old(state)@,
                        runs_of(ids),
                        punches,
                        runs_of(ids).len(),
                    )
                    &&& final(puncher).calls() == old(puncher).calls() + run_calls(
                        old(self)@.cfg,
                        runs_of(ids),
                        punches,
                    )
                },
            final(self)@.wf(final(state)@.fetch.len()),
            final(state)@.fetch == old(state)@.fetch,
            old(state)@.wf() ==> final(state)@.wf(),
    {
        let runs = Evictor::evicted_runs(metadata);
        let ghost ids = choose|ids: Seq<usize>| #[trigger]
            lists_evicted(ids, metadata.stripe_headers@) && runs@ == runs_of(ids);
        proof {
            law_runs_hold_the_numbers(ids);
            lemma_ascending_len(ids, metadata.stripe_headers@.len());
        }
        let stripe_count: usize = metadata.stripe_headers.len();
        let ghost mut punches: Seq<Result<(), IoError>> = Seq::empty();
        let mut covered: usize = 0;
        let mut i: usize = 0;
        assert(runs@.take(0) =~= Seq::empty());
        assert(puncher.calls() + run_calls(self@.cfg, runs@, punches) =~= puncher.calls());
        while i < runs.len()
            invariant
                i <= runs@.len(),
                punches.len() == i,
                lists_evicted(ids, metadata.stripe_headers@),
                runs@ == runs_of(ids),
                runs_len(runs@) == ids.len(),
                ids.len() <= stripe_count,
                stripe_count == metadata.stripe_headers@.len(),
                stripe_count == state@.fetch.len(),
                forall|k: int|
                    0 <= k < runs@.len() ==> (#[trigger] runs@[k]).0 <= runs@[k].1,
                forall|k: int| 0 <= k < runs@.len() ==> ids.contains((#[trigger] runs@[k]).1),
                (self@, state@, covered as int) == runs_punched(
                    old(self)@,
                    old(state)@,
                    runs@,
                    punches,
                    i as nat,
                ),
                covered <= runs_len(runs@.take(i as int)),
                self@.cfg == old(self)@.cfg,
                puncher.calls() == old(puncher).calls() + run_calls(
                    old(self)@.cfg,
                    runs@,
                    punches,
                ),
                self@.wf(state@.fetch.len()),
                state@.fetch == old(state)@.fetch,
                old(state)@.wf() ==> state@.wf(),
            decreases runs@.len() - i,
        {
            let run = runs[i];
            assert(ids.contains(run.1));
            assert(ids[ids.index_of(run.1)] == run.1);
            let (offset, len) = self.run_range(state, run);
            let punched = puncher.punch(offset, len);
            let ghost before = punches;
            proof {
                lemma_runs_punched_same(
                    old(self)@,
                    old(state)@,
                    runs@,
                    punches,
                    punches.push(punched),
                    i as nat,
                );
                reveal_with_fuel(runs_punched, 2);
                assert(runs@.take(i + 1).drop_last() =~= runs@.take(i as int));
                lemma_runs_len_take(runs@, i + 1);
                punches = punches.push(punched);
                assert(run_calls(self@.cfg, runs@, punches) =~= run_calls(
                    self@.cfg,
                    runs@,
                    before,
                ).push(PunchCall::Punch { offset, len, result: punched }));
                assert(puncher.calls() =~= old(puncher).calls() + run_calls(
                    old(self)@.cfg,
                    runs@,
                    punches,
                ));
            }
            let more = self.record_run(state, run, punched);
            covered = covered + more;
            i = i + 1;
        }
        covered
    }

    /// Ask the filesystem for its free space, if that is due.
    fn refresh_free_bytes<P: HolePuncher>(
        &mut self,
        state: &mut SharedMetadataState,
        puncher: &mut P,
        now: u64,
        Ghost(f): Ghost<FlusherModel>,
    ) -> (answer: Ghost<Result<u64, IoError>>)
        requires
            tick_of(old(self)@, old(state)@, f).wf(),
        ensures
            tick_of(final(self)@, final(state)@, f) == tick_of(
                old(self)@,
                old(state)@,
                f,
            ).refreshed(answer@, now),
            final(puncher).calls() == old(puncher).calls() + tick_of(
                old(self)@,
                old(state)@,
                f,
            ).refresh_calls(answer@, now),
            tick_of(final(self)@, final(state)@, f).wf(),
            final(state)@.fetch.len() == old(state)@.fetch.len(),
    {
        proof {
            reveal(TickModel::refreshed);
            reveal(TickModel::refresh_calls);
        }
        let ghost t = tick_of(self@, state@, f);
        if !self.statfs_due(now) {
            assert(puncher.calls() =~= puncher.calls() + t.refresh_calls(Ok(0), now));
            return Ghost(Ok(0));
        }
        let answer = puncher.free_bytes();
        assert(puncher.calls() =~= old(puncher).calls() + t.refresh_calls(answer, now));
        self.record_statfs(state, answer, now);
        Ghost(answer)
    }

    /// Apply the flusher's outcomes, punching where one completes an eviction.
    fn apply_outcomes<P: HolePuncher>(
        &mut self,
        state: &mut SharedMetadataState,
        outcomes: &Vec<PersistOutcome>,
        puncher: &mut P,
        now: u64,
        Ghost(f): Ghost<FlusherModel>,
    ) -> (punches: Ghost<Seq<Result<(), IoError>>>)
        requires
            tick_of(old(self)@, old(state)@, f).wf(),
        ensures
            tick_of(final(self)@, final(state)@, f) == tick_of(
                old(self)@,
                old(state)@,
                f,
            ).outcomes_applied(outcomes@, punches@, now, outcomes@.len()),
            final(puncher).calls() == old(puncher).calls() + tick_of(
                old(self)@,
                old(state)@,
                f,
            ).all_outcome_calls(outcomes@, punches@, now, outcomes@.len()),
            tick_of(final(self)@, final(state)@, f).wf(),
            final(state)@.fetch.len() == old(state)@.fetch.len(),
    {
        let ghost t = tick_of(self@, state@, f);
        let ghost mut punches: Seq<Answer> = Seq::empty();
        let mut i: usize = 0;
        assert(puncher.calls() =~= puncher.calls() + t.all_outcome_calls(
            outcomes@,
            punches,
            now,
            0,
        ));
        while i < outcomes.len()
            invariant
                i <= outcomes@.len(),
                punches.len() == i,
                tick_of(self@, state@, f) == t.outcomes_applied(
                    outcomes@,
                    punches,
                    now,
                    i as nat,
                ),
                puncher.calls() == old(puncher).calls() + t.all_outcome_calls(
                    outcomes@,
                    punches,
                    now,
                    i as nat,
                ),
                tick_of(self@, state@, f).wf(),
                state@.fetch.len() == old(state)@.fetch.len(),
            decreases outcomes@.len() - i,
        {
            let outcome = outcomes[i];
            let ghost before = tick_of(self@, state@, f);
            let ghost so_far = puncher.calls();
            let mut punched: Answer = Ok(());
            if let OutcomeAction::Complete = self.outcome_action(&outcome) {
                let at = self.position(outcome.stripe_id);
                proof {
                    lemma_find(self@.records, outcome.stripe_id, 0);
                    assert(EvictorModel::record_ok(
                        self@.records[at as int],
                        state@.fetch.len(),
                    ));
                    lemma_stripe_fits(self@, state@.fetch.len(), outcome.stripe_id);
                }
                let (offset, len) = self.stripe_bytes(outcome.stripe_id);
                punched = puncher.punch(offset, len);
            }
            assert(puncher.calls() =~= so_far + before.outcome_calls(outcome, punched));
            self.apply_outcome(state, &outcome, punched, now);
            proof {
                lemma_outcomes_same(
                    t,
                    outcomes@,
                    punches,
                    punches.push(punched),
                    now,
                    i as nat,
                );
                punches = punches.push(punched);
                assert(puncher.calls() =~= old(puncher).calls() + t.all_outcome_calls(
                    outcomes@,
                    punches,
                    now,
                    (i + 1) as nat,
                ));
            }
            i = i + 1;
        }
        Ghost(punches)
    }

    /// Hand over reads again whose hand-over failed, so that their completions
    /// can drain the aborted records.
    fn resubmit_reads<C: IoChannel<Vec<u8>>>(
        &mut self,
        channel: &mut C,
        Ghost(s): Ghost<StateModel>,
        Ghost(f): Ghost<FlusherModel>,
    ) -> (answer: Ghost<Answer>)
        requires
            tick_of(old(self)@, s, f).wf(),
        ensures
            tick_of(final(self)@, s, f) == tick_of(old(self)@, s, f).resubmitted(answer@ is Ok),
            calls_bytes(final(channel).calls()) == calls_bytes(old(channel).calls()) + tick_of(
                old(self)@,
                s,
                f,
            ).resubmit_calls(answer@),
            tick_of(final(self)@, s, f).wf(),
    {
        proof {
            reveal(TickModel::resubmitted);
            reveal(TickModel::resubmit_calls);
        }
        let ghost asked = calls_bytes(channel.calls());
        let ghost t = tick_of(self@, s, f);
        if !self.resubmit_wanted() {
            assert(asked =~= asked + t.resubmit_calls(Ok(())));
            return Ghost(Ok(()));
        }
        let answer = channel.submit();
        assert(calls_bytes(channel.calls()) =~= asked + t.resubmit_calls(answer));
        if answer.is_ok() {
            proof {
                lemma_resubmit_wf(self@, s.fetch.len());
            }
            self.reads_resubmitted();
        }
        Ghost(answer)
    }

    /// Collect finished reads, encode their stripes and start the uploads.
    #[verifier::rlimit(40)]
    #[verifier::spinoff_prover]
    fn poll_reads<C: IoChannel<Vec<u8>>, A: ArchiveStore, K: Clock>(
        &mut self,
        state: &mut SharedMetadataState,
        channel: &mut C,
        store: &mut A,
        clock: &mut K,
        now: u64,
        Ghost(f): Ghost<FlusherModel>,
    ) -> (r: (Ghost<Seq<(usize, bool)>>, Ghost<Seq<Option<Seq<u8>>>>, Ghost<Seq<ReadResult>>))
        requires
            tick_of(old(self)@, old(state)@, f).wf(),
        ensures
            ({
                let t = tick_of(old(self)@, old(state)@, f);
                let count = r.0@.len();
                &&& tick_of(final(self)@, final(state)@, f) == t.reads_done(
                    r.0@,
                    r.2@,
                    now,
                    count,
                )
                &&& t.reads_encode(r.0@, r.1@, r.2@, now, count)
                &&& calls_bytes(final(channel).calls()) == calls_bytes(old(channel).calls()).push(
                    IoCall::Poll { done: r.0@ },
                ) + take_calls(r.0@, r.1@)
                &&& final(store).calls() == old(store).calls() + t.all_read_puts(
                    r.0@,
                    r.1@,
                    r.2@,
                    now,
                    count,
                )
            }),
            r.1@.len() == r.0@.len(),
            final(clock).readings() == old(clock).readings() + tick_of(
                old(self)@,
                old(state)@,
                f,
            ).all_read_readings(r.0@, r.2@, now, r.0@.len()),
            tick_of(final(self)@, final(state)@, f).wf(),
            final(state)@.fetch.len() == old(state)@.fetch.len(),
    {
        let ghost t = tick_of(self@, state@, f);
        let ghost given = store.calls();
        let reads = channel.poll();
        let ghost asked = calls_bytes(channel.calls());
        let ghost mut all: Seq<Option<Seq<u8>>> = Seq::empty();
        let ghost mut results: Seq<ReadResult> = Seq::empty();
        let mut i: usize = 0;
        assert(asked + take_calls(reads@, all) =~= asked);
        assert(given + t.all_read_puts(reads@, all, results, now, 0) =~= given);
        assert(clock.readings() + t.all_read_readings(reads@, results, now, 0)
            =~= clock.readings());
        while i < reads.len()
            invariant
                i <= reads@.len(),
                results.len() == i,
                all.len() == i,
                tick_of(self@, state@, f) == t.reads_done(reads@, results, now, i as nat),
                t.reads_encode(reads@, all, results, now, i as nat),
                calls_bytes(channel.calls()) == asked + take_calls(reads@, all),
                store.calls() == given + t.all_read_puts(reads@, all, results, now, i as nat),
                clock.readings() == old(clock).readings() + t.all_read_readings(
                    reads@,
                    results,
                    now,
                    i as nat,
                ),
                tick_of(self@, state@, f).wf(),
                state@.fetch.len() == old(state)@.fetch.len(),
            decreases reads@.len() - i,
        {
            let (stripe_id, ok) = reads[i];
            let data = channel.take_read(stripe_id);
            let ghost read = bytes_of(data);
            let result = self.read_done(state, stripe_id, ok, data, store, clock, now, Ghost(f));
            proof {
                lemma_reads_next(t, reads@, all, results, read, result@, now);
                all = all.push(read);
                results = results.push(result@);
                assert(calls_bytes(channel.calls()) =~= asked + take_calls(reads@, all));
                assert(store.calls() =~= given + t.all_read_puts(
                    reads@,
                    all,
                    results,
                    now,
                    (i + 1) as nat,
                ));
                assert(clock.readings() =~= old(clock).readings() + t.all_read_readings(
                    reads@,
                    results,
                    now,
                    (i + 1) as nat,
                ));
            }
            i = i + 1;
        }
        (Ghost(reads@), Ghost(all), Ghost(results))
    }

    /// One read finished: encode the stripe and start its upload.
    #[verifier::rlimit(40)]
    #[verifier::spinoff_prover]
    fn read_done<A: ArchiveStore, K: Clock>(
        &mut self,
        state: &mut SharedMetadataState,
        stripe_id: usize,
        ok: bool,
        data: Option<Vec<u8>>,
        store: &mut A,
        clock: &mut K,
        now: u64,
        Ghost(f): Ghost<FlusherModel>,
    ) -> (result: Ghost<ReadResult>)
        requires
            tick_of(old(self)@, old(state)@, f).wf(),
        ensures
            ({
                let t = tick_of(old(self)@, old(state)@, f);
                &&& tick_of(final(self)@, final(state)@, f) == t.read(
                    stripe_id,
                    ok,
                    result@,
                    now,
                )
                &&& t.m.read_to_encode(stripe_id, ok) ==> t.m.encodes(
                    stripe_id,
                    bytes_of(data),
                    result@,
                )
                &&& final(store).calls() == old(store).calls() + t.read_puts(
                    stripe_id,
                    ok,
                    bytes_of(data),
                    result@,
                    now,
                )
                &&& final(clock).readings() == old(clock).readings() + t.read_readings(
                    stripe_id,
                    ok,
                    result@,
                )
            }),
            tick_of(final(self)@, final(state)@, f).wf(),
            final(state)@.fetch.len() == old(state)@.fetch.len(),
    {
        let ghost t = tick_of(self@, state@, f);
        let ghost given = store.calls();
        let ghost read = bytes_of(data);
        let ghost time = clock.readings();
        assert(time + t.read_readings(stripe_id, ok, ReadResult::Unusable) =~= time);
        if !self.finish_read(state, stripe_id, ok, now) {
            assert(given =~= given + t.read_puts(stripe_id, ok, read, ReadResult::Unusable, now));
            return Ghost(ReadResult::Unusable);
        }
        let data = match data {
            Some(data) => data,
            None => {
                self.abort(state, stripe_id, now);
                assert(given =~= given + t.read_puts(
                    stripe_id,
                    ok,
                    read,
                    ReadResult::Unusable,
                    now,
                ));
                return Ghost(ReadResult::Unusable);
            },
        };
        proof {
            lemma_find(self@.records, stripe_id, 0);
            assert(EvictorModel::record_ok(
                self@.records[find(self@.records, stripe_id)],
                state@.fetch.len(),
            ));
        }
        let ghost s = state@;
        match self.object_for(state, stripe_id, &data, clock) {
            Ok((name, object)) => {
                let ghost times = choose|start: u64, end: u64|
                    clock.readings() == #[trigger] time.push(start).push(end) && state@
                        == s.with_spill(s.spill.with_encode_time(sat_sub(end, start)));
                let len: u64 = object.len() as u64;
                let ghost result = ReadResult::Encoded { len, start: times.0, end: times.1 };
                assert(clock.readings() =~= time + t.read_readings(stripe_id, ok, result));
                if self.start_put(state, stripe_id, len, now) {
                    store.start_put_object(&name, object);
                }
                assert(store.calls() =~= given + t.read_puts(stripe_id, ok, read, result, now));
                Ghost(result)
            },
            Err(e) => {
                let ghost result = match e {
                    ReadError::ShortBuffer { len, held } => ReadResult::Unusable,
                    ReadError::Unencodable(_) => ReadResult::Refused {
                        start: choose|start: u64|
                            clock.readings() == #[trigger] time.push(start),
                    },
                };
                assert(clock.readings() =~= time + t.read_readings(stripe_id, ok, result));
                self.abort(state, stripe_id, now);
                assert(given =~= given + t.read_puts(stripe_id, ok, read, result, now));
                Ghost(result)
            },
        }
    }

    /// Collect finished uploads.
    fn poll_puts<A: ArchiveStore>(
        &mut self,
        state: &mut SharedMetadataState,
        flusher: &mut MetadataFlusher,
        store: &mut A,
        now: u64,
    ) -> (r: Ghost<Seq<(String, bool)>>)
        requires
            tick_of(old(self)@, old(state)@, old(flusher)@).wf(),
        ensures
            tick_of(final(self)@, final(state)@, final(flusher)@) == tick_of(
                old(self)@,
                old(state)@,
                old(flusher)@,
            ).store_polled(r@, now),
            final(store).calls() == old(store).calls() + tick_of(
                old(self)@,
                old(state)@,
                old(flusher)@,
            ).poll_put_calls(r@),
            tick_of(final(self)@, final(state)@, final(flusher)@).wf(),
            final(state)@.fetch.len() == old(state)@.fetch.len(),
    {
        proof {
            reveal(TickModel::store_polled);
            reveal(TickModel::poll_put_calls);
        }
        let ghost t = tick_of(self@, state@, flusher@);
        let ghost asked = store.calls();
        if !self.has_store {
            assert(asked =~= asked + t.poll_put_calls(Seq::empty()));
            return Ghost(Seq::empty());
        }
        let puts = store.poll_puts();
        assert(store.calls() =~= asked + t.poll_put_calls(puts@));
        let mut i: usize = 0;
        while i < puts.len()
            invariant
                i <= puts@.len(),
                tick_of(self@, state@, flusher@) == t.puts_done(puts@, now, i as nat),
                tick_of(self@, state@, flusher@).wf(),
                state@.fetch.len() == old(state)@.fetch.len(),
            decreases puts@.len() - i,
        {
            let stripe = parse_spill_object_name(puts[i].0.as_str());
            assert(stripe == stripe_named(puts@[i as int].0@));
            self.finish_put(state, flusher, stripe, puts[i].1, now);
            i = i + 1;
        }
        Ghost(puts@)
    }

    /// Draining stripes take their next step.
    fn advance_draining<C: IoChannel<Vec<u8>>>(
        &mut self,
        state: &mut SharedMetadataState,
        flusher: &mut MetadataFlusher,
        channel: &mut C,
        now: u64,
    ) -> (r: Ghost<Seq<Answer>>)
        requires
            tick_of(old(self)@, old(state)@, old(flusher)@).wf(),
        ensures
            tick_of(final(self)@, final(state)@, final(flusher)@) == tick_of(
                old(self)@,
                old(state)@,
                old(flusher)@,
            ).advanced(r@, now),
            calls_bytes(final(channel).calls()) == calls_bytes(old(channel).calls()) + tick_of(
                old(self)@,
                old(state)@,
                old(flusher)@,
            ).advance_calls(r@, now),
            tick_of(final(self)@, final(state)@, final(flusher)@).wf(),
            final(state)@.fetch.len() == old(state)@.fetch.len(),
    {
        proof {
            reveal(TickModel::advanced);
            reveal(TickModel::advance_calls);
        }
        let ids = self.draining_ids();
        let ghost t = tick_of(self@, state@, flusher@);
        let ghost asked = calls_bytes(channel.calls());
        let ghost mut submits: Seq<Answer> = Seq::empty();
        let mut i: usize = 0;
        assert(asked =~= asked + t.all_drain_calls(ids@, submits, now, 0));
        while i < ids.len()
            invariant
                i <= ids@.len(),
                submits.len() == i,
                tick_of(self@, state@, flusher@) == t.all_drained(ids@, submits, now, i as nat),
                calls_bytes(channel.calls()) == asked + t.all_drain_calls(
                    ids@,
                    submits,
                    now,
                    i as nat,
                ),
                tick_of(self@, state@, flusher@).wf(),
                state@.fetch.len() == old(state)@.fetch.len(),
            decreases ids@.len() - i,
        {
            let stripe_id: usize = ids[i];
            let ghost before = tick_of(self@, state@, flusher@);
            let ghost so_far = calls_bytes(channel.calls());
            let mut submitted: Answer = Ok(());
            if let Some((offset, count)) = self.advance_stripe(state, flusher, stripe_id, now) {
                let size: u64 = self.stripe_size();
                let buffer: Vec<u8> = vec![0u8; size as usize];
                assert(buffer@ =~= zeros(size as nat));
                channel.add_read(offset, count as u32, buffer, stripe_id);
                submitted = channel.submit();
                if submitted.is_err() {
                    self.read_unsubmitted(state, stripe_id, now);
                }
            }
            assert(calls_bytes(channel.calls()) =~= so_far + before.drain_calls(
                stripe_id,
                submitted,
                now,
            ));
            proof {
                lemma_drained_same(t, ids@, submits, submits.push(submitted), now, i as nat);
                submits = submits.push(submitted);
                assert(calls_bytes(channel.calls()) =~= asked + t.all_drain_calls(
                    ids@,
                    submits,
                    now,
                    (i + 1) as nat,
                ));
            }
            i = i + 1;
        }
        Ghost(submits)
    }

    /// Judge the pressure and start new evictions.
    fn find_new_work(
        &mut self,
        state: &mut SharedMetadataState,
        now: u64,
        Ghost(f): Ghost<FlusherModel>,
    )
        requires
            tick_of(old(self)@, old(state)@, f).wf(),
        ensures
            tick_of(final(self)@, final(state)@, f) == tick_of(
                old(self)@,
                old(state)@,
                f,
            ).expired(now).assessed().selected(now),
            tick_of(final(self)@, final(state)@, f).wf(),
            final(state)@.fetch.len() == old(state)@.fetch.len(),
    {
        proof {
            reveal(TickModel::expired);
            reveal(TickModel::assessed);
            reveal(TickModel::selected);
        }
        self.expire_recently_aborted(now);
        assert(tick_of(self@, state@, f).wf());
        self.assess_pressure(state);
        assert(tick_of(self@, state@, f).wf());
        self.select_victims(state, now);
    }

    /// One tick: apply the flusher's outcomes, collect finished reads and
    /// uploads, advance the evictions, punch, ask for the free space, move the
    /// write gate, and start new evictions while over the ceiling. The write
    /// gate is judged after the completions, so that it sees this tick's
    /// evictions rather than last tick's.
    #[verifier::rlimit(40)]
    #[verifier::spinoff_prover]
    pub fn update<C: IoChannel<Vec<u8>>, A: ArchiveStore, P: HolePuncher, K: Clock>(
        &mut self,
        state: &mut SharedMetadataState,
        flusher: &mut MetadataFlusher,
        outcomes: &Vec<PersistOutcome>,
        channel: &mut C,
        store: &mut A,
        puncher: &mut P,
        clock: &mut K,
    )
        requires
            tick_of(old(self)@, old(state)@, old(flusher)@).wf(),
        ensures
            exists|inputs: TickInputs, now: u64|
                #![trigger tick_of(old(self)@, old(state)@, old(flusher)@).ticked(
                    outcomes@,
                    inputs,
                    now,
                )]
                {
                    let t = tick_of(old(self)@, old(state)@, old(flusher)@);
                    &&& tick_of(final(self)@, final(state)@, final(flusher)@) == t.ticked(
                        outcomes@,
                        inputs,
                        now,
                    )
                    &&& t.encoded(outcomes@, inputs, now)
                    &&& calls_bytes(final(channel).calls()) == calls_bytes(old(channel).calls())
                        + t.read_calls(outcomes@, inputs, now)
                    &&& final(store).calls() == old(store).calls() + t.store_calls(
                        outcomes@,
                        inputs,
                        now,
                    )
                    &&& final(puncher).calls() == old(puncher).calls() + t.punch_calls(
                        outcomes@,
                        inputs,
                        now,
                    )
                    &&& final(clock).readings() == old(clock).readings() + t.clock_readings(
                        outcomes@,
                        inputs,
                        now,
                    )
                },
            tick_of(final(self)@, final(state)@, final(flusher)@).wf(),
            final(state)@.fetch.len() == old(state)@.fetch.len(),
    {
        let now = clock.now_ns();
        let ghost t = tick_of(self@, state@, flusher@);
        let ghost f = flusher@;
        let ghost asked = calls_bytes(channel.calls());
        let free = self.refresh_free_bytes(state, puncher, now, Ghost(f));
        let punches = self.apply_outcomes(state, outcomes, puncher, now, Ghost(f));
        let again = self.resubmit_reads(channel, Ghost(state@), Ghost(f));
        let (reads, data, results) = self.poll_reads(state, channel, store, clock, now, Ghost(f));
        let puts = self.poll_puts(state, flusher, store, now);
        let submits = self.advance_draining(state, flusher, channel, now);
        self.retry_header_ops(state, flusher, now);
        self.find_new_work(state, now, Ghost(flusher@));
        let ghost inputs = TickInputs {
            free: free@,
            punches: punches@,
            resubmitted: again@,
            reads: reads@,
            data: data@,
            results: results@,
            puts: puts@,
            submits: submits@,
        };
        assert(tick_of(self@, state@, flusher@) == t.ticked(outcomes@, inputs, now));
        assert(calls_bytes(channel.calls()) =~= asked + t.read_calls(outcomes@, inputs, now));
        assert(store.calls() =~= old(store).calls() + t.store_calls(outcomes@, inputs, now));
        assert(puncher.calls() =~= old(puncher).calls() + t.punch_calls(outcomes@, inputs, now));
        assert(clock.readings() =~= old(clock).readings() + t.clock_readings(
            outcomes@,
            inputs,
            now,
        ));
    }

    /// The kind and stage of the eviction of `stripe_id`, if one is in
    /// progress and not aborted.
    pub fn eviction(&self, stripe_id: usize) -> (r: Option<(Kind, Stage)>)
        ensures
            r == (if self@.evicting(stripe_id) {
                Some((self@.record(stripe_id).kind, self@.record(stripe_id).stage))
            } else {
                None
            }),
    {
        let at = self.position(stripe_id);
        if at < self.in_progress.len() && !self.in_progress[at].aborted {
            Some((self.in_progress[at].kind, self.in_progress[at].stage))
        } else {
            None
        }
    }

    /// Whether the hand skips `id`.
    fn skips(&self, id: usize) -> (r: bool)
        ensures
            r == skipped(self@.recent, id),
    {
        broadcast use vstd::std_specs::hash::group_hash_axioms;

        self.recently_aborted.contains_key(&id)
    }
}

} // verus!
