//! Object header flags: how the payload was transformed, in the order compress
//! then encrypt.

use vstd::prelude::*;

verus! {

/// The payload is zstd-compressed.
pub const ZSTD: u16 = 0x1;

/// The payload is AES-XTS encrypted with the device's spill key.
pub const XTS: u16 = 0x2;

/// Every flag this version understands; others fail decoding.
pub const KNOWN: u16 = 0x3;

} // verus!
