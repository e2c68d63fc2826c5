//! Bits of a stripe's header byte on disk.

use vstd::prelude::*;

verus! {

/// The stripe's data is on this device.
pub const FETCHED: u8 = 0x01;

/// The stripe has been written since the device was made.
pub const WRITTEN: u8 = 0x02;

/// The source holds this stripe.
pub const HAS_SOURCE: u8 = 0x04;

/// The stripe's local blocks were given back.
pub const EVICTED: u8 = 0x08;

/// The spill store holds an object for this stripe.
pub const IN_S3: u8 = 0x10;

/// A snapshot push for this stripe arrived.
pub const PUSHED: u8 = 0x20;

/// The bits that spilling maintains.
pub const SPILL_MASK: u8 = 0x38;

/// Bits that no version assigns a meaning to.
pub const RESERVED_MASK: u8 = 0xc0;

} // verus!
