//! Per-stripe side bits. Bits 2, 4 and 5 mirror the header byte exactly, so a
//! persisted header can be OR-ed in. Bits 3, 6 and 7 live only in memory.

use vstd::prelude::*;

verus! {

/// Mirrors the header's HAS_SOURCE: the snapshot holds this stripe.
pub const HAS_SOURCE: u8 = 0x04;

/// The header still says EVICTED although the state is Failed: a fetch of an
/// evicted stripe failed for good. While it is set the stripe may become
/// resident only once the header clearing EVICTED is durable.
pub const WAS_EVICTED: u8 = 0x08;

/// Mirrors the header's IN_S3: the spill store holds an object for this
/// stripe. Authoritative only while the stripe is Evicted.
pub const IN_S3: u8 = 0x10;

/// Mirrors the header's PUSHED: a snapshot push for this stripe arrived, so
/// the live replica will not serve it again.
pub const PUSHED: u8 = 0x20;

/// CLOCK reference bit: set by every request that passes to base on a
/// resident stripe, cleared by the evictor's hand.
pub const REFERENCED: u8 = 0x40;

/// The stripe became resident in this process while the source was live. Only
/// such stripes may be evicted clean.
pub const FETCHED_LIVE: u8 = 0x80;

/// The side bits a flusher completion may OR in from a header byte.
pub const PERSISTED_MASK: u8 = 0x34;

/// Whether any bit of `mask` is set in `flags`.
pub open spec fn any_set(flags: u8, mask: u8) -> bool {
    flags & mask != 0
}

/// Setting bits adds them and changes no others.
pub proof fn lemma_set_bits(flags: u8, bits: u8, mask: u8)
    ensures
        any_set(flags | bits, mask) == (any_set(flags, mask) || any_set(bits, mask)),
{
    assert(((flags | bits) & mask != 0) == (flags & mask != 0 || bits & mask != 0))
        by (bit_vector);
}

/// Clearing bits removes them and changes no others.
pub proof fn lemma_clear_bits(flags: u8, bits: u8, mask: u8)
    ensures
        !any_set(flags & !bits, bits),
        bits & mask == 0 ==> any_set(flags & !bits, mask) == any_set(flags, mask),
{
    assert((flags & !bits) & bits == 0) by (bit_vector);
    assert(bits & mask == 0 ==> (((flags & !bits) & mask != 0) == (flags & mask != 0)))
        by (bit_vector);
}

/// The named bits are distinct.
pub proof fn lemma_bits_distinct()
    ensures
        HAS_SOURCE & WAS_EVICTED == 0,
        HAS_SOURCE & IN_S3 == 0,
        HAS_SOURCE & FETCHED_LIVE == 0,
        HAS_SOURCE & REFERENCED == 0,
        WAS_EVICTED & HAS_SOURCE == 0,
        WAS_EVICTED & IN_S3 == 0,
        WAS_EVICTED & FETCHED_LIVE == 0,
        IN_S3 & WAS_EVICTED == 0,
        IN_S3 & HAS_SOURCE == 0,
        IN_S3 & PUSHED == 0,
        FETCHED_LIVE & WAS_EVICTED == 0,
        FETCHED_LIVE & IN_S3 == 0,
        FETCHED_LIVE & HAS_SOURCE == 0,
        FETCHED_LIVE & PUSHED == 0,
        REFERENCED & WAS_EVICTED == 0,
        REFERENCED & IN_S3 == 0,
        REFERENCED & HAS_SOURCE == 0,
        REFERENCED & PUSHED == 0,
        REFERENCED & FETCHED_LIVE == 0,
        REFERENCED & PERSISTED_MASK == 0,
        PUSHED & WAS_EVICTED == 0,
        PUSHED & IN_S3 == 0,
        PUSHED & HAS_SOURCE == 0,
        HAS_SOURCE & HAS_SOURCE != 0,
        WAS_EVICTED & WAS_EVICTED != 0,
        IN_S3 & IN_S3 != 0,
        PUSHED & PUSHED != 0,
        REFERENCED & REFERENCED != 0,
        FETCHED_LIVE & FETCHED_LIVE != 0,
{
    assert(0x04u8 & 0x08 == 0 && 0x04u8 & 0x10 == 0 && 0x04u8 & 0x80 == 0 && 0x04u8 & 0x40 == 0
        && 0x08u8 & 0x04 == 0 && 0x08u8 & 0x10 == 0 && 0x08u8 & 0x80 == 0 && 0x10u8 & 0x08 == 0
        && 0x10u8 & 0x04 == 0 && 0x10u8 & 0x20 == 0 && 0x80u8 & 0x08 == 0 && 0x80u8 & 0x10 == 0
        && 0x80u8 & 0x04 == 0 && 0x80u8 & 0x20 == 0 && 0x40u8 & 0x08 == 0 && 0x40u8 & 0x10 == 0
        && 0x40u8 & 0x04 == 0 && 0x40u8 & 0x20 == 0 && 0x40u8 & 0x80 == 0 && 0x40u8 & 0x34 == 0
        && 0x20u8 & 0x08 == 0 && 0x20u8 & 0x10 == 0 && 0x20u8 & 0x04 == 0 && 0x04u8 & 0x04 != 0
        && 0x08u8 & 0x08 != 0 && 0x10u8 & 0x10 != 0 && 0x20u8 & 0x20 != 0 && 0x40u8 & 0x40 != 0
        && 0x80u8 & 0x80 != 0) by (bit_vector);
}

} // verus!
