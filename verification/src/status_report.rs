//! What a device reports of itself: how far it has been fetched, and the spill
//! counters next to the configured limits.

use vstd::arithmetic::power2::pow2;
use vstd::prelude::*;

use crate::metadata::shared_state::{GATE_FAIL, GATE_HOLD, SharedMetadataState, StateModel};
use crate::SECTOR_SIZE;

verus! {

/// How many stripes there are, how many the source holds and how many of them
/// are here.
#[derive(Debug, Clone, Copy, PartialEq, Eq, Structural)]
pub struct StripesRecord {
    /// Stripes of the device.
    pub total: u64,
    /// Stripes the source holds.
    pub source: u64,
    /// Stripes that came from the source and are here.
    pub fetched: u64,
}

/// The spill counters as reported. Present only when spilling is configured.
#[derive(Debug, Clone)]
pub struct SpillRecord {
    pub resident: u64,
    pub resident_bytes: u64,
    pub max_local_bytes: u64,
    pub evicted: u64,
    pub evicted_clean: u64,
    pub evicted_dirty: u64,
    pub evictions_aborted: u64,
    pub in_s3: u64,
    pub puts: u64,
    pub put_failures: u64,
    pub gets: u64,
    pub get_failures: u64,
    pub put_bytes: u64,
    pub get_bytes: u64,
    pub punches: u64,
    pub punch_failures: u64,
    pub startup_punches: u64,
    pub stalls: u64,
    /// "open", "hold" or "fail"
    pub gate: String,
    pub degraded: bool,
    pub degraded_reasons: u64,
    pub clean_unrecoverable: u64,
    pub free_bytes: u64,
    pub source_live: bool,
    pub clean_eviction: bool,
    pub encode_ns: u64,
    pub decode_ns: u64,
}

/// The configured values the report shows next to the live counters.
#[derive(Debug, Clone, Copy, PartialEq, Eq, Structural)]
pub struct SpillReportConfig {
    /// Ceiling on resident bytes.
    pub max_local_bytes: u64,
    /// Whether clean stripes may be dropped.
    pub clean_eviction: bool,
}

/// Bytes in a stripe of `shift`.
pub open spec fn bytes_per_stripe(shift: u8) -> int {
    (1u64 << shift) * SECTOR_SIZE
}

/// The word for what a guest write meets.
pub open spec fn gate_word(gate: u8) -> Seq<char> {
    if gate == GATE_HOLD {
        "hold"@
    } else if gate == GATE_FAIL {
        "fail"@
    } else {
        "open"@
    }
}

impl SpillRecord {
    /// The record shows the counters of `s`, the limits of `config` and
    /// nothing else.
    pub open spec fn shows(self, s: StateModel, config: SpillReportConfig) -> bool {
        &&& self.resident == s.resident
        &&& self.resident_bytes == s.resident * bytes_per_stripe(s.shift)
        &&& self.max_local_bytes == config.max_local_bytes
        &&& self.evicted == s.evicted
        &&& self.evicted_clean == s.spill.evicted_clean
        &&& self.evicted_dirty == s.spill.evicted_dirty
        &&& self.evictions_aborted == s.spill.evictions_aborted
        &&& self.in_s3 == s.in_s3
        &&& self.puts == s.spill.puts
        &&& self.put_failures == s.spill.put_failures
        &&& self.gets == s.spill.gets
        &&& self.get_failures == s.spill.get_failures
        &&& self.put_bytes == s.spill.put_bytes
        &&& self.get_bytes == s.spill.get_bytes
        &&& self.punches == s.spill.punches
        &&& self.punch_failures == s.spill.punch_failures
        &&& self.startup_punches == s.spill.startup_punches
        &&& self.stalls == s.spill.stalls
        &&& self.gate@ == gate_word(s.gate)
        &&& self.degraded == s.spill.degraded
        &&& self.degraded_reasons == s.spill.degraded_reasons
        &&& self.clean_unrecoverable == s.spill.clean_unrecoverable
        &&& self.free_bytes == s.spill.free_bytes
        &&& self.source_live == s.live
        &&& self.clean_eviction == config.clean_eviction
        &&& self.encode_ns == s.spill.encode_ns
        &&& self.decode_ns == s.spill.decode_ns
    }
}

/// What a device reports of itself.
#[derive(Debug, Clone)]
pub struct StatusReport {
    /// How far the device has been fetched.
    pub stripes: StripesRecord,
    /// The spill counters, where spilling is configured.
    pub spill: Option<SpillRecord>,
}

impl StatusReport {
    /// A report of a device that does not spill.
    pub fn new(total: u64, source: u64, fetched: u64) -> (r: StatusReport)
        ensures
            r.stripes == (StripesRecord { total, source, fetched }),
            r.spill is None,
    {
        StatusReport { stripes: StripesRecord { total, source, fetched }, spill: None }
    }

    /// The spill counters, where spilling is configured.
    pub fn spill(&self) -> (r: Option<&SpillRecord>)
        ensures
            match self.spill {
                Some(record) => r == Some(&record),
                None => r is None,
            },
    {
        self.spill.as_ref()
    }
}

/// Reports on a device.
#[derive(Debug, Clone, Copy, PartialEq, Eq, Structural)]
pub struct StatusReporter {
    /// Sectors on the device.
    pub target_sector_count: u64,
    /// The configured limits, where spilling is configured.
    pub spill: Option<SpillReportConfig>,
}

/// How many stripes of `stripe` sectors hold `sectors` sectors.
pub open spec fn stripes_for(sectors: int, stripe: int) -> int {
    (sectors + stripe - 1) / stripe
}

impl StatusReporter {
    /// A reporter for a device of `target_sector_count` sectors.
    pub fn new(target_sector_count: u64, spill: Option<SpillReportConfig>) -> (r: StatusReporter)
        ensures
            r.target_sector_count == target_sector_count,
            r.spill == spill,
    {
        StatusReporter { target_sector_count, spill }
    }

    /// The bytes in the resident stripes can be counted.
    pub open spec fn countable(self, s: StateModel) -> bool {
        &&& s.shift < 64
        &&& self.spill is Some ==> bytes_per_stripe(s.shift) <= u64::MAX && s.resident
            * bytes_per_stripe(s.shift) <= u64::MAX
    }

    /// What the device reports right now.
    pub fn report(&self, state: &SharedMetadataState) -> (r: StatusReport)
        requires
            self.countable(state@),
        ensures
            r.stripes.total == stripes_for(
                self.target_sector_count as int,
                (1u64 << state@.shift) as int,
            ),
            r.stripes.source == state@.source,
            r.stripes.fetched == state@.fetched,
            match self.spill {
                Some(config) => r.spill is Some && r.spill->0.shows(state@, config),
                None => r.spill is None,
            },
    {
        let stripe: u64 = state.stripe_sector_count();
        proof {
            let shift = state@.shift;
            assert(1u64 << shift > 0) by (bit_vector)
                requires
                    shift < 64,
            ;
        }
        let sectors: u64 = self.target_sector_count;
        let total: u64 = if sectors % stripe == 0 {
            sectors / stripe
        } else {
            assert(sectors / stripe < u64::MAX) by (nonlinear_arith)
                requires
                    sectors % stripe != 0,
                    stripe > 0,
                    sectors <= u64::MAX,
            ;
            sectors / stripe + 1
        };
        proof {
            lemma_stripes_for(sectors as int, stripe as int);
        }
        let mut report = StatusReport::new(total, state.source_stripes(), state.fetched_stripes());
        if let Some(config) = self.spill {
            report.spill = Some(spill_record(state, config));
        }
        report
    }
}

/// Rounding up is adding one where something is left over.
proof fn lemma_stripes_for(sectors: int, stripe: int)
    requires
        sectors >= 0,
        stripe > 0,
    ensures
        stripes_for(sectors, stripe) == sectors / stripe + if sectors % stripe == 0 {
            0int
        } else {
            1int
        },
{
    let q = sectors / stripe;
    let m = sectors % stripe;
    vstd::arithmetic::div_mod::lemma_fundamental_div_mod(sectors, stripe);
    vstd::arithmetic::mul::lemma_mul_is_commutative(stripe, q);
    if m == 0 {
        vstd::arithmetic::div_mod::lemma_fundamental_div_mod_converse(
            sectors + stripe - 1,
            stripe,
            q,
            stripe - 1,
        );
    } else {
        vstd::arithmetic::mul::lemma_mul_is_distributive_add(stripe, q, 1);
        vstd::arithmetic::mul::lemma_mul_is_commutative(stripe, q + 1);
        vstd::arithmetic::div_mod::lemma_fundamental_div_mod_converse(
            sectors + stripe - 1,
            stripe,
            q + 1,
            m - 1,
        );
    }
}

/// The spill counters next to the configured limits.
fn spill_record(state: &SharedMetadataState, config: SpillReportConfig) -> (r: SpillRecord)
    requires
        state@.shift < 64,
        bytes_per_stripe(state@.shift) <= u64::MAX,
        state@.resident * bytes_per_stripe(state@.shift) <= u64::MAX,
    ensures
        r.shows(state@, config),
{
    let counters = state.spill_counters();
    let resident: u64 = state.resident_stripes();
    let stripe_size: u64 = state.stripe_sector_count() * SECTOR_SIZE as u64;
    let gate: u8 = state.write_gate();
    let word = if gate == GATE_HOLD {
        "hold"
    } else if gate == GATE_FAIL {
        "fail"
    } else {
        "open"
    };
    SpillRecord {
        resident,
        resident_bytes: resident * stripe_size,
        max_local_bytes: config.max_local_bytes,
        evicted: state.evicted_stripes(),
        evicted_clean: counters.evicted_clean,
        evicted_dirty: counters.evicted_dirty,
        evictions_aborted: counters.evictions_aborted,
        in_s3: state.in_s3_stripes(),
        puts: counters.puts,
        put_failures: counters.put_failures,
        gets: counters.gets,
        get_failures: counters.get_failures,
        put_bytes: counters.put_bytes,
        get_bytes: counters.get_bytes,
        punches: counters.punches,
        punch_failures: counters.punch_failures,
        startup_punches: counters.startup_punches,
        stalls: counters.stalls,
        gate: word.to_string(),
        degraded: counters.degraded,
        degraded_reasons: counters.degraded_reasons,
        clean_unrecoverable: counters.clean_unrecoverable,
        free_bytes: counters.free_bytes,
        source_live: state.source_live(),
        clean_eviction: config.clean_eviction,
        encode_ns: counters.encode_ns,
        decode_ns: counters.decode_ns,
    }
}

/// One shifted is a power of two.
pub proof fn lemma_one_shifted(shift: u8)
    requires
        shift < 64,
    ensures
        1u64 << shift == pow2(shift as nat),
        pow2(shift as nat) > 0,
{
    vstd::bits::lemma_u64_pow2_no_overflow(shift as nat);
    vstd::arithmetic::power2::lemma_pow2_pos(shift as nat);
    vstd::bits::lemma_u64_shl_is_mul(1, shift as u64);
    assert(1 * pow2(shift as nat) == pow2(shift as nat)) by (nonlinear_arith);
    assert(1u64 << shift == 1u64 << (shift as u64)) by (bit_vector);
}

/// The number of stripes of a report covers the device's sectors, and no stripe
/// more is counted than that takes.
pub proof fn law_the_reported_stripes_cover_the_device(sectors: int, stripe: int)
    requires
        sectors >= 0,
        stripe > 0,
    ensures
        sectors <= stripes_for(sectors, stripe) * stripe < sectors + stripe,
{
    let total = sectors + stripe - 1;
    vstd::arithmetic::div_mod::lemma_fundamental_div_mod(total, stripe);
    assert(stripe * (total / stripe) == (total / stripe) * stripe) by (nonlinear_arith);
}

/// What a spill report shows: the bytes of the resident stripes, the word for
/// what a guest write meets, and every counter under its own name.
pub proof fn law_what_a_spill_report_shows(
    r: SpillRecord,
    s: StateModel,
    config: SpillReportConfig,
)
    requires
        r.shows(s, config),
        s.shift < 64,
    ensures
        r.resident_bytes == s.resident * (pow2(s.shift as nat) * 512),
        s.gate == 0 ==> r.gate@ == "open"@,
        s.gate == 1 ==> r.gate@ == "hold"@,
        s.gate == 2 ==> r.gate@ == "fail"@,
        r.resident == s.resident && r.evicted == s.evicted && r.in_s3 == s.in_s3,
        r.max_local_bytes == config.max_local_bytes && r.clean_eviction == config.clean_eviction,
        r.source_live == s.live,
        r.evicted_clean == s.spill.evicted_clean && r.evicted_dirty == s.spill.evicted_dirty,
        r.evictions_aborted == s.spill.evictions_aborted,
        r.puts == s.spill.puts && r.put_failures == s.spill.put_failures,
        r.gets == s.spill.gets && r.get_failures == s.spill.get_failures,
        r.put_bytes == s.spill.put_bytes && r.get_bytes == s.spill.get_bytes,
        r.punches == s.spill.punches && r.punch_failures == s.spill.punch_failures,
        r.startup_punches == s.spill.startup_punches && r.stalls == s.spill.stalls,
        r.degraded == s.spill.degraded && r.degraded_reasons == s.spill.degraded_reasons,
        r.clean_unrecoverable == s.spill.clean_unrecoverable,
        r.free_bytes == s.spill.free_bytes,
        r.encode_ns == s.spill.encode_ns && r.decode_ns == s.spill.decode_ns,
{
    lemma_one_shifted(s.shift);
}

} // verus!
