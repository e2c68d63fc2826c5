//! The checksum that covers metadata sectors and spill objects.

use vstd::prelude::*;

verus! {

/// The CRC-32 of `bytes`, as `crc32fast` computes it.
pub uninterp spec fn crc32_of(bytes: Seq<u8>) -> u32;

/// Calls `crc32fast::Hasher`: `new`, `update` with `head`, `update` with
/// `tail`, `finalize`. The result is the CRC-32 of the two slices one behind
/// the other. What the checksum of given bytes is, beyond that the bytes
/// alone decide it, is left unsaid.
#[verifier::external_body]
pub(crate) fn crc32(head: &[u8], tail: &[u8]) -> (r: u32)
    requires
        head@.len() + tail@.len() <= u64::MAX,
    ensures
        r == crc32_of(head@ + tail@),
{
    let mut hasher = crc32fast::Hasher::new();
    hasher.update(head);
    hasher.update(tail);
    hasher.finalize()
}

} // verus!
