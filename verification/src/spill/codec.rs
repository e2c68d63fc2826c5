//! The object format for a spilled stripe, and the codec that produces and
//! consumes it.
//!
//! Object key: `<device_id>/<stripe_index>`, which the store prefixes. The
//! wrapped data key, when a key encryption key is configured, lives at
//! `<device_id>/spill-key`.

use vstd::prelude::*;
use vstd::slice::slice_subrange;
use vstd::string::StringExecFns;
use crate::compression::{unpacked, ArchiveCompressionAlgorithm};
use crate::counting::{add_wrapping, bump_by};
use crate::crc::{crc32, crc32_of};
use crate::crypt::{
    copy_bytes, gcm_opened, xts_decrypted, xts_encrypted, CipherMethod, CryptError, KEY_LEN,
    KeyEncryptionCipher, NONCE_LEN, TAG_LEN, XtsBlockCipher,
};
use crate::io::Clock;
use crate::le::{
    from_le16, from_le32, from_le64, le16, le32, le64, lemma_le16_roundtrip, lemma_le32_roundtrip,
    lemma_le64_roundtrip, read_le16, read_le32, read_le64,
};
use crate::metadata::save::zeros;
use crate::metadata::shared_state::SpillCounters;
use crate::spill::evictor_model::sat_sub;
use crate::spill::spill_flags;
use crate::text::{
    chars_of, decimal, digits_value, hexadecimal, hexadecimal_padded, is_digit, lemma_decimal_value,
    parse_number, parsed_number, push_decimal, push_hexadecimal, push_hexadecimal_padded,
};
use crate::SECTOR_SIZE;

verus! {

/// The only object format version this codec reads or writes.
pub const SPILL_OBJECT_VERSION: u16 = 1;

/// Bytes of header before the payload.
pub const SPILL_HEADER_LEN: usize = 36;

/// The bytes of the header the CRC covers: everything before the CRC itself.
pub const CRC_COVERED_LEN: usize = 32;

/// The first eight bytes of every spill object: `UBISPILL`.
pub open spec fn spill_magic() -> Seq<u8> {
    seq![85u8, 66, 73, 83, 80, 73, 76, 76]
}

/// What is wrong with a spill object, or with the data for one.
#[derive(Debug, Clone, Copy, PartialEq, Eq, Structural)]
pub enum SpillError {
    /// No room for a header.
    TooShort { len: usize },
    /// The object does not start with the magic; these are its first eight
    /// bytes as a little-endian number.
    MagicMismatch { found: u64 },
    /// A version this codec does not read.
    UnsupportedVersion { version: u16 },
    /// The reserved field is in use.
    ReservedField { reserved: u32 },
    /// The object is another stripe's.
    StripeMismatch { found: u64, expected: usize },
    /// The payload was transformed in a way this codec does not know.
    UnknownFlags { flags: u16 },
    /// The object is not as long as its header says.
    LengthMismatch { len: usize, total: u64 },
    /// The checksum does not cover the object.
    CrcMismatch { header: u32, computed: u32 },
    /// The stripe is empty, not whole sectors, or does not fit the buffer.
    InvalidUncompressedLen { len: usize, capacity: usize },
    /// An encrypted payload is not whole sectors.
    UnalignedPayload { len: usize },
    /// A plain object under a keyed device is a substitution, not data.
    NotEncrypted,
    /// The object is encrypted and there is no key.
    Encrypted,
    /// The payload is not what the compressor makes.
    DecompressionFailed,
    /// The payload does not hold what the header says.
    DecodedLength { len: usize, expected: usize },
    /// The data is empty or not whole sectors.
    BadDataLength { len: usize },
    /// The data's length does not fit its field.
    StripeTooLarge { len: usize },
    /// The compressor failed.
    CompressionFailed,
    /// The payload's length does not fit its field.
    PayloadTooLarge { len: usize },
}

/// The bytes of `found`, as a list of decimal numbers in brackets.
pub open spec fn byte_list(found: u64) -> Seq<char> {
    "["@ + decimal((found & 0xff) as nat) + ", "@ + decimal(((found >> 8) & 0xff) as nat) + ", "@
        + decimal(((found >> 16) & 0xff) as nat) + ", "@ + decimal(((found >> 24) & 0xff) as nat)
        + ", "@ + decimal(((found >> 32) & 0xff) as nat) + ", "@ + decimal(
        ((found >> 40) & 0xff) as nat,
    ) + ", "@ + decimal(((found >> 48) & 0xff) as nat) + ", "@ + decimal(
        ((found >> 56) & 0xff) as nat,
    ) + "]"@
}

impl SpillError {
    /// The message for this error.
    pub open spec fn message(self) -> Seq<char> {
        match self {
            SpillError::TooShort { len } => "spill object too short for a header: "@ + decimal(
                len as nat,
            ) + " < 36"@,
            SpillError::MagicMismatch { found } => "spill object magic mismatch: "@ + byte_list(
                found,
            ),
            SpillError::UnsupportedVersion { version } => "unsupported spill object version "@
                + decimal(version as nat) + " (expected 1)"@,
            SpillError::ReservedField { reserved } => "spill object reserved field is 0x"@
                + hexadecimal(reserved as nat) + ", expected 0"@,
            SpillError::StripeMismatch { found, expected } => "spill object is for stripe "@
                + decimal(found as nat) + " but stripe "@ + decimal(expected as nat)
                + " was requested"@,
            SpillError::UnknownFlags { flags } => "spill object has unknown flags 0x"@
                + hexadecimal_padded(flags as nat, 4),
            SpillError::LengthMismatch { len, total } => "spill object length "@ + decimal(
                len as nat,
            ) + " does not match header + payload "@ + decimal(total as nat),
            SpillError::CrcMismatch { header, computed } =>
                "spill object crc32 mismatch: header 0x"@ + hexadecimal_padded(header as nat, 8)
                + ", computed 0x"@ + hexadecimal_padded(computed as nat, 8),
            SpillError::InvalidUncompressedLen { len, capacity } =>
                "spill object uncompressed length "@ + decimal(len as nat)
                + " is invalid for a "@ + decimal(capacity as nat) + " byte buffer"@,
            SpillError::UnalignedPayload { len } => "encrypted spill payload of "@ + decimal(
                len as nat,
            ) + " bytes is not sector aligned"@,
            SpillError::NotEncrypted =>
                "spill object is not encrypted but this device has a spill key"@,
            SpillError::Encrypted =>
                "spill object is encrypted but this device has no spill key"@,
            SpillError::DecompressionFailed => "spill object does not decompress"@,
            SpillError::DecodedLength { len, expected } => "spill object decoded to "@ + decimal(
                len as nat,
            ) + " bytes but its header says "@ + decimal(expected as nat),
            SpillError::BadDataLength { len } => "spill payload length "@ + decimal(len as nat)
                + " is not a non-zero multiple of 512"@,
            SpillError::StripeTooLarge { len } => "stripe of "@ + decimal(len as nat)
                + " bytes does not fit a u32"@,
            SpillError::CompressionFailed => "spill payload does not compress"@,
            SpillError::PayloadTooLarge { len } => "payload of "@ + decimal(len as nat)
                + " bytes does not fit a u32"@,
        }
    }

    /// The message as a string.
    pub fn describe(&self) -> (r: String)
        ensures
            r@ == self.message(),
    {
        let mut out = String::new();
        match *self {
            SpillError::TooShort { len } => {
                out.append("spill object too short for a header: ");
                push_decimal(&mut out, len as u64);
                out.append(" < 36");
            },
            SpillError::MagicMismatch { found } => {
                out.append("spill object magic mismatch: ");
                push_byte_list(&mut out, found);
            },
            SpillError::UnsupportedVersion { version } => {
                out.append("unsupported spill object version ");
                push_decimal(&mut out, version as u64);
                out.append(" (expected 1)");
            },
            SpillError::ReservedField { reserved } => {
                out.append("spill object reserved field is 0x");
                push_hexadecimal(&mut out, reserved as u64);
                out.append(", expected 0");
            },
            SpillError::StripeMismatch { found, expected } => {
                out.append("spill object is for stripe ");
                push_decimal(&mut out, found);
                out.append(" but stripe ");
                push_decimal(&mut out, expected as u64);
                out.append(" was requested");
            },
            SpillError::UnknownFlags { flags } => {
                out.append("spill object has unknown flags 0x");
                push_hexadecimal_padded(&mut out, flags as u64, 4);
            },
            SpillError::LengthMismatch { len, total } => {
                out.append("spill object length ");
                push_decimal(&mut out, len as u64);
                out.append(" does not match header + payload ");
                push_decimal(&mut out, total);
            },
            SpillError::CrcMismatch { header, computed } => {
                out.append("spill object crc32 mismatch: header 0x");
                push_hexadecimal_padded(&mut out, header as u64, 8);
                out.append(", computed 0x");
                push_hexadecimal_padded(&mut out, computed as u64, 8);
            },
            SpillError::InvalidUncompressedLen { len, capacity } => {
                out.append("spill object uncompressed length ");
                push_decimal(&mut out, len as u64);
                out.append(" is invalid for a ");
                push_decimal(&mut out, capacity as u64);
                out.append(" byte buffer");
            },
            SpillError::UnalignedPayload { len } => {
                out.append("encrypted spill payload of ");
                push_decimal(&mut out, len as u64);
                out.append(" bytes is not sector aligned");
            },
            SpillError::NotEncrypted => {
                out.append("spill object is not encrypted but this device has a spill key");
            },
            SpillError::Encrypted => {
                out.append("spill object is encrypted but this device has no spill key");
            },
            SpillError::DecompressionFailed => {
                out.append("spill object does not decompress");
            },
            SpillError::DecodedLength { len, expected } => {
                out.append("spill object decoded to ");
                push_decimal(&mut out, len as u64);
                out.append(" bytes but its header says ");
                push_decimal(&mut out, expected as u64);
            },
            SpillError::BadDataLength { len } => {
                out.append("spill payload length ");
                push_decimal(&mut out, len as u64);
                out.append(" is not a non-zero multiple of 512");
            },
            SpillError::StripeTooLarge { len } => {
                out.append("stripe of ");
                push_decimal(&mut out, len as u64);
                out.append(" bytes does not fit a u32");
            },
            SpillError::CompressionFailed => {
                out.append("spill payload does not compress");
            },
            SpillError::PayloadTooLarge { len } => {
                out.append("payload of ");
                push_decimal(&mut out, len as u64);
                out.append(" bytes does not fit a u32");
            },
        }
        assert(out@ =~= self.message());
        out
    }
}

/// Append the bytes of `found` as a list.
fn push_byte_list(out: &mut String, found: u64)
    ensures
        final(out)@ == old(out)@ + byte_list(found),
{
    out.append("[");
    push_decimal(out, found & 0xff);
    out.append(", ");
    push_decimal(out, (found >> 8) & 0xff);
    out.append(", ");
    push_decimal(out, (found >> 16) & 0xff);
    out.append(", ");
    push_decimal(out, (found >> 24) & 0xff);
    out.append(", ");
    push_decimal(out, (found >> 32) & 0xff);
    out.append(", ");
    push_decimal(out, (found >> 40) & 0xff);
    out.append(", ");
    push_decimal(out, (found >> 48) & 0xff);
    out.append(", ");
    push_decimal(out, (found >> 56) & 0xff);
    out.append("]");
    assert(out@ =~= old(out)@ + byte_list(found));
}

/// Little-endian, fixed 36 bytes, followed by the payload:
///  0..8   magic "UBISPILL"
///  8..10  version u16 = 1
/// 10..12  flags u16
/// 12..16  reserved u32 = 0
/// 16..24  stripe_index u64
/// 24..28  uncompressed_len u32, plaintext bytes
/// 28..32  payload_len u32
/// 32..36  crc32 u32 over bytes 0..32 and the payload
#[derive(Debug, Clone, Copy, PartialEq, Eq, Structural)]
pub struct SpillObjectHeader {
    /// How the payload was transformed.
    pub flags: u16,
    /// The stripe.
    pub stripe_index: u64,
    /// Plaintext bytes.
    pub uncompressed_len: u32,
    /// Payload bytes.
    pub payload_len: u32,
    /// Checksum.
    pub crc32: u32,
}

impl SpillObjectHeader {
    /// The bytes the CRC covers.
    pub open spec fn covered(self) -> Seq<u8> {
        spill_magic() + le16(SPILL_OBJECT_VERSION) + le16(self.flags) + zeros(4) + le64(
            self.stripe_index,
        ) + le32(self.uncompressed_len) + le32(self.payload_len)
    }

    /// The header's wire form.
    pub open spec fn wire(self) -> Seq<u8> {
        self.covered() + le32(self.crc32)
    }

    /// The fields of a wire form.
    pub open spec fn read(bytes: Seq<u8>) -> SpillObjectHeader {
        SpillObjectHeader {
            flags: from_le16(bytes, 10),
            stripe_index: from_le64(bytes, 16),
            uncompressed_len: from_le32(bytes, 24),
            payload_len: from_le32(bytes, 28),
            crc32: from_le32(bytes, 32),
        }
    }

    /// What decoding a header gives.
    pub open spec fn decoded(bytes: Seq<u8>) -> Result<SpillObjectHeader, SpillError> {
        if bytes.len() < SPILL_HEADER_LEN {
            Err(SpillError::TooShort { len: bytes.len() as usize })
        } else if bytes.subrange(0, 8) != spill_magic() {
            Err(SpillError::MagicMismatch { found: from_le64(bytes, 0) })
        } else if from_le16(bytes, 8) != SPILL_OBJECT_VERSION {
            Err(SpillError::UnsupportedVersion { version: from_le16(bytes, 8) })
        } else if from_le32(bytes, 12) != 0 {
            Err(SpillError::ReservedField { reserved: from_le32(bytes, 12) })
        } else {
            Ok(SpillObjectHeader::read(bytes))
        }
    }

    /// The header's wire form. Magic, version and reserved are fixed; the
    /// caller has already computed the checksum.
    pub fn encode(&self) -> (bytes: [u8; 36])
        ensures
            bytes@ == self.wire(),
    {
        let f: u16 = self.flags;
        let s: u64 = self.stripe_index;
        let u: u32 = self.uncompressed_len;
        let p: u32 = self.payload_len;
        let c: u32 = self.crc32;
        let bytes: [u8; 36] = [
            85,
            66,
            73,
            83,
            80,
            73,
            76,
            76,
            1,
            0,
            (f & 0xff) as u8,
            ((f >> 8) & 0xff) as u8,
            0,
            0,
            0,
            0,
            (s & 0xff) as u8,
            ((s >> 8) & 0xff) as u8,
            ((s >> 16) & 0xff) as u8,
            ((s >> 24) & 0xff) as u8,
            ((s >> 32) & 0xff) as u8,
            ((s >> 40) & 0xff) as u8,
            ((s >> 48) & 0xff) as u8,
            ((s >> 56) & 0xff) as u8,
            (u & 0xff) as u8,
            ((u >> 8) & 0xff) as u8,
            ((u >> 16) & 0xff) as u8,
            ((u >> 24) & 0xff) as u8,
            (p & 0xff) as u8,
            ((p >> 8) & 0xff) as u8,
            ((p >> 16) & 0xff) as u8,
            ((p >> 24) & 0xff) as u8,
            (c & 0xff) as u8,
            ((c >> 8) & 0xff) as u8,
            ((c >> 16) & 0xff) as u8,
            ((c >> 24) & 0xff) as u8,
        ];
        assert((1u16 & 0xff) as u8 == 1 && ((1u16 >> 8) & 0xff) as u8 == 0) by (bit_vector);
        assert(bytes@ =~= self.wire());
        bytes
    }

    /// Checks magic, version and reserved. The CRC is checked by the codec
    /// because it covers the payload.
    pub fn decode(bytes: &[u8]) -> (r: Result<SpillObjectHeader, SpillError>)
        ensures
            r == SpillObjectHeader::decoded(bytes@),
    {
        if bytes.len() < SPILL_HEADER_LEN {
            return Err(SpillError::TooShort { len: bytes.len() });
        }
        if !(bytes[0] == 85 && bytes[1] == 66 && bytes[2] == 73 && bytes[3] == 83 && bytes[4] == 80
            && bytes[5] == 73 && bytes[6] == 76 && bytes[7] == 76) {
            assert(bytes@.subrange(0, 8) != spill_magic()) by {
                let a = bytes@.subrange(0, 8);
                let m = spill_magic();
                assert(a[0] == bytes@[0] && a[1] == bytes@[1] && a[2] == bytes@[2] && a[3]
                    == bytes@[3] && a[4] == bytes@[4] && a[5] == bytes@[5] && a[6] == bytes@[6]
                    && a[7] == bytes@[7]);
                assert(m[0] == 85 && m[1] == 66 && m[2] == 73 && m[3] == 83 && m[4] == 80 && m[5]
                    == 73 && m[6] == 76 && m[7] == 76);
            }
            return Err(SpillError::MagicMismatch { found: read_le64(bytes, 0) });
        }
        assert(bytes@.subrange(0, 8) =~= spill_magic());
        let version = read_le16(bytes, 8);
        if version != SPILL_OBJECT_VERSION {
            return Err(SpillError::UnsupportedVersion { version });
        }
        let reserved = read_le32(bytes, 12);
        if reserved != 0 {
            return Err(SpillError::ReservedField { reserved });
        }
        Ok(
            SpillObjectHeader {
                flags: read_le16(bytes, 10),
                stripe_index: read_le64(bytes, 16),
                uncompressed_len: read_le32(bytes, 24),
                payload_len: read_le32(bytes, 28),
                crc32: read_le32(bytes, 32),
            },
        )
    }
}

/// A header's wire form decodes to the header, whatever follows it.
pub proof fn law_header_roundtrip(h: SpillObjectHeader, tail: Seq<u8>)
    ensures
        SpillObjectHeader::decoded(h.wire() + tail) == Ok::<SpillObjectHeader, SpillError>(h),
        h.wire().len() == SPILL_HEADER_LEN,
{
    let bytes = h.wire() + tail;
    assert(bytes.subrange(0, 8) =~= spill_magic());
    assert(bytes.subrange(8, 10) =~= le16(SPILL_OBJECT_VERSION));
    lemma_le16_roundtrip(bytes, 8, SPILL_OBJECT_VERSION);
    assert(bytes.subrange(10, 12) =~= le16(h.flags));
    lemma_le16_roundtrip(bytes, 10, h.flags);
    assert(bytes.subrange(12, 16) =~= zeros(4));
    assert(le32(0) =~= zeros(4)) by {
        assert((0u32 & 0xff) as u8 == 0 && ((0u32 >> 8) & 0xff) as u8 == 0 && ((0u32 >> 16)
            & 0xff) as u8 == 0 && ((0u32 >> 24) & 0xff) as u8 == 0) by (bit_vector);
    }
    lemma_le32_roundtrip(bytes, 12, 0);
    assert(bytes.subrange(16, 24) =~= le64(h.stripe_index));
    lemma_le64_roundtrip(bytes, 16, h.stripe_index);
    assert(bytes.subrange(24, 28) =~= le32(h.uncompressed_len));
    lemma_le32_roundtrip(bytes, 24, h.uncompressed_len);
    assert(bytes.subrange(28, 32) =~= le32(h.payload_len));
    lemma_le32_roundtrip(bytes, 28, h.payload_len);
    assert(bytes.subrange(32, 36) =~= le32(h.crc32));
    lemma_le32_roundtrip(bytes, 32, h.crc32);
}

/// CRC over the header bytes before the CRC field, then the payload.
pub fn object_crc32(header_bytes: &[u8], payload: &[u8]) -> (r: u32)
    requires
        header_bytes@.len() >= CRC_COVERED_LEN,
        payload@.len() <= u32::MAX,
    ensures
        r == crc32_of(header_bytes@.subrange(0, CRC_COVERED_LEN as int) + payload@),
{
    crc32(slice_subrange(header_bytes, 0, CRC_COVERED_LEN), payload)
}

/// The name of a stripe's object.
pub open spec fn object_name(device_id: Seq<char>, stripe_index: nat) -> Seq<char> {
    device_id + "/"@ + decimal(stripe_index)
}

/// Object name of a stripe, before the store adds its prefix.
pub fn spill_object_name(device_id: &str, stripe_index: usize) -> (r: String)
    ensures
        r@ == object_name(device_id@, stripe_index as nat),
{
    let mut out = String::from_str(device_id);
    out.append("/");
    push_decimal(&mut out, stripe_index as u64);
    out
}

/// Object name of the device's wrapped spill key.
pub fn spill_key_object_name(device_id: &str) -> (r: String)
    ensures
        r@ == device_id@ + "/spill-key"@,
{
    let mut out = String::from_str(device_id);
    out.append("/spill-key");
    out
}

/// Where the part of a name behind its last slash starts.
pub open spec fn last_part_start(name: Seq<char>) -> int
    decreases name.len(),
{
    if name.len() == 0 {
        0
    } else if name.last() == '/' {
        name.len() as int
    } else {
        last_part_start(name.drop_last())
    }
}

/// The part of a name behind its last slash.
pub open spec fn last_part(name: Seq<char>) -> Seq<char> {
    name.subrange(last_part_start(name), name.len() as int)
}

/// The stripe that an object's name denotes: the number whose decimal text
/// stands behind the last slash.
pub open spec fn named_stripe(name: Seq<char>) -> Option<nat> {
    parsed_number(last_part(name), usize::MAX as nat)
}

/// The part behind the last slash lies within the name and holds no slash.
proof fn lemma_last_part(name: Seq<char>)
    ensures
        0 <= last_part_start(name) <= name.len(),
        last_part_start(name) > 0 ==> name[last_part_start(name) - 1] == '/',
        forall|i: int| last_part_start(name) <= i < name.len() ==> (#[trigger] name[i]) != '/',
    decreases name.len(),
{
    if name.len() > 0 && name.last() != '/' {
        lemma_last_part(name.drop_last());
        assert(forall|i: int| 0 <= i < name.len() - 1 ==> name.drop_last()[i] == name[i]);
    }
}

/// Only one place satisfies what `lemma_last_part` says.
proof fn lemma_last_part_unique(name: Seq<char>, at: int)
    requires
        0 <= at <= name.len(),
        at > 0 ==> name[at - 1] == '/',
        forall|i: int| at <= i < name.len() ==> (#[trigger] name[i]) != '/',
    ensures
        last_part_start(name) == at,
{
    lemma_last_part(name);
    let s = last_part_start(name);
    if s < at {
        assert(name[at - 1] == '/');
        assert(false);
    } else if at < s {
        assert(name[s - 1] == '/');
        assert(false);
    }
}

/// Inverse of `spill_object_name` for a name without prefix. None for the key
/// object and anything else that is not a stripe.
pub fn parse_spill_object_name(name: &str) -> (r: Option<usize>)
    ensures
        match named_stripe(name@) {
            Some(v) => r == Some(v as usize),
            None => r is None,
        },
        forall|n: usize|
            (r == Some(n)) == (last_part(name@) == #[trigger] decimal(n as nat)),
{
    let chars = chars_of(name);
    let mut at: usize = chars.len();
    while at > 0 && chars[at - 1] != '/'
        invariant
            at <= chars@.len(),
            chars@ == name@,
            forall|i: int| at <= i < chars@.len() ==> (#[trigger] chars@[i]) != '/',
        decreases at,
    {
        at = at - 1;
    }
    proof {
        lemma_last_part_unique(name@, at as int);
        assert forall|n: usize| last_part(name@) == #[trigger] decimal(n as nat) implies
            named_stripe(name@) == Some(n as nat) by {
            lemma_decimal_value(n as nat);
        }
    }
    parse_number(&chars, at)
}

/// A stripe's object name denotes the stripe.
pub proof fn law_object_name_roundtrip(device_id: Seq<char>, stripe_index: usize)
    ensures
        named_stripe(object_name(device_id, stripe_index as nat)) == Some(stripe_index as nat),
{
    let digits = decimal(stripe_index as nat);
    let name = object_name(device_id, stripe_index as nat);
    let at = device_id.len() + 1;
    lemma_decimal_value(stripe_index as nat);
    reveal_strlit("/");
    assert("/"@.len() == 1 && "/"@[0] == '/');
    assert(name[at - 1] == '/');
    assert forall|i: int| at <= i < name.len() implies (#[trigger] name[i]) != '/' by {
        assert(name[i] == digits[i - at]);
        assert(is_digit(digits[i - at]));
    }
    lemma_last_part_unique(name, at as int);
    assert(name.subrange(at as int, name.len() as int) =~= digits);
}

/// Names that denote one stripe end alike: no two names of a device do.
pub proof fn law_no_two_names_denote_one_stripe(a: Seq<char>, b: Seq<char>)
    requires
        named_stripe(a) is Some,
        named_stripe(a) == named_stripe(b),
    ensures
        last_part(a) == last_part(b),
        a.subrange(0, last_part_start(a)) == b.subrange(0, last_part_start(b)) ==> a == b,
{
    lemma_last_part(a);
    lemma_last_part(b);
    assert(a =~= a.subrange(0, last_part_start(a)) + last_part(a));
    assert(b =~= b.subrange(0, last_part_start(b)) + last_part(b));
}

/// The key object's name denotes no stripe.
pub proof fn law_key_object_is_no_stripe(device_id: Seq<char>)
    ensures
        named_stripe(device_id + "/spill-key"@) is None,
{
    let name = device_id + "/spill-key"@;
    reveal_strlit("/spill-key");
    let tail = "/spill-key"@;
    assert(tail.len() == 10);
    let at = device_id.len() + 1;
    assert(tail[0] == '/' && tail[1] == 's' && tail[2] == 'p' && tail[3] == 'i' && tail[4] == 'l'
        && tail[5] == 'l' && tail[6] == '-' && tail[7] == 'k' && tail[8] == 'e' && tail[9] == 'y');
    assert(name[at - 1] == '/');
    assert forall|i: int| at <= i < name.len() implies (#[trigger] name[i]) != '/' by {
        assert(name[i] == tail[i - device_id.len()]);
    }
    lemma_last_part_unique(name, at as int);
    let part = name.subrange(at as int, name.len() as int);
    assert(part[0] == tail[1]);
    assert(!is_digit(part[0]));
    lemma_decimal_value(digits_value(part));
}

/// An object: the header with its checksum, and the payload.
pub open spec fn object_bytes(
    flags: u16,
    stripe_index: u64,
    uncompressed_len: u32,
    payload: Seq<u8>,
) -> Seq<u8> {
    let unsummed = SpillObjectHeader {
        flags,
        stripe_index,
        uncompressed_len,
        payload_len: payload.len() as u32,
        crc32: 0,
    };
    SpillObjectHeader { crc32: crc32_of(unsummed.covered() + payload), ..unsummed }.wire() + payload
}

/// Put the header in front of a transformed payload.
pub fn frame_object(
    flags: u16,
    stripe_index: u64,
    uncompressed_len: u32,
    payload: &Vec<u8>,
) -> (object: Vec<u8>)
    requires
        payload@.len() <= u32::MAX,
    ensures
        object@ == object_bytes(flags, stripe_index, uncompressed_len, payload@),
{
    let mut header = SpillObjectHeader {
        flags,
        stripe_index,
        uncompressed_len,
        payload_len: payload.len() as u32,
        crc32: 0,
    };
    let unsummed = header.encode();
    assert(unsummed@.subrange(0, CRC_COVERED_LEN as int) =~= header.covered());
    header.crc32 = object_crc32(unsummed.as_slice(), payload.as_slice());
    let mut object = copy_bytes(header.encode().as_slice());
    let mut body = copy_bytes(payload.as_slice());
    object.append(&mut body);
    object
}

/// What a header that passed every check before the payload is looked at
/// says, or the first check that failed: header, stripe, flags, length,
/// checksum, uncompressed length, and whether key and object agree.
pub open spec fn checked_object(
    expected_stripe_index: usize,
    object: Seq<u8>,
    capacity: usize,
    keyed: bool,
) -> Result<SpillObjectHeader, SpillError> {
    match SpillObjectHeader::decoded(object) {
        Err(e) => Err(e),
        Ok(h) => {
            let computed = crc32_of(
                object.subrange(0, CRC_COVERED_LEN as int) + object.subrange(
                    SPILL_HEADER_LEN as int,
                    object.len() as int,
                ),
            );
            let encrypted = h.flags & spill_flags::XTS != 0;
            if h.stripe_index != expected_stripe_index {
                Err(
                    SpillError::StripeMismatch {
                        found: h.stripe_index,
                        expected: expected_stripe_index,
                    },
                )
            } else if h.flags & !spill_flags::KNOWN != 0 {
                Err(SpillError::UnknownFlags { flags: h.flags })
            } else if object.len() != SPILL_HEADER_LEN + h.payload_len {
                Err(
                    SpillError::LengthMismatch {
                        len: object.len() as usize,
                        total: (SPILL_HEADER_LEN + h.payload_len) as u64,
                    },
                )
            } else if computed != h.crc32 {
                Err(SpillError::CrcMismatch { header: h.crc32, computed })
            } else if h.uncompressed_len == 0 || h.uncompressed_len as nat % SECTOR_SIZE as nat != 0
                || h.uncompressed_len > capacity {
                Err(
                    SpillError::InvalidUncompressedLen {
                        len: h.uncompressed_len as usize,
                        capacity,
                    },
                )
            } else if keyed && !encrypted {
                Err(SpillError::NotEncrypted)
            } else if !keyed && encrypted {
                Err(SpillError::Encrypted)
            } else if encrypted && h.payload_len as nat % SECTOR_SIZE as nat != 0 {
                Err(SpillError::UnalignedPayload { len: h.payload_len as usize })
            } else {
                Ok(h)
            }
        },
    }
}

/// Check an object before any plaintext is produced. A key means every object
/// must be encrypted.
pub fn check_object(
    expected_stripe_index: usize,
    object: &[u8],
    capacity: usize,
    keyed: bool,
) -> (r: Result<SpillObjectHeader, SpillError>)
    ensures
        r == checked_object(expected_stripe_index, object@, capacity, keyed),
{
    let header = match SpillObjectHeader::decode(object) {
        Ok(header) => header,
        Err(e) => {
            return Err(e);
        },
    };
    if header.stripe_index != expected_stripe_index as u64 {
        return Err(
            SpillError::StripeMismatch {
                found: header.stripe_index,
                expected: expected_stripe_index,
            },
        );
    }
    if header.flags & !spill_flags::KNOWN != 0 {
        return Err(SpillError::UnknownFlags { flags: header.flags });
    }
    let total: u64 = SPILL_HEADER_LEN as u64 + header.payload_len as u64;
    if object.len() as u64 != total {
        return Err(SpillError::LengthMismatch { len: object.len(), total });
    }
    let payload = slice_subrange(object, SPILL_HEADER_LEN, object.len());
    let computed = object_crc32(object, payload);
    if computed != header.crc32 {
        return Err(SpillError::CrcMismatch { header: header.crc32, computed });
    }
    let len: usize = header.uncompressed_len as usize;
    if len == 0 || len % SECTOR_SIZE != 0 || len > capacity {
        return Err(SpillError::InvalidUncompressedLen { len, capacity });
    }
    let encrypted = header.flags & spill_flags::XTS != 0;
    if keyed && !encrypted {
        return Err(SpillError::NotEncrypted);
    }
    if !keyed && encrypted {
        return Err(SpillError::Encrypted);
    }
    if encrypted && payload.len() % SECTOR_SIZE != 0 {
        return Err(SpillError::UnalignedPayload { len: payload.len() });
    }
    Ok(header)
}

/// Put plaintext into a buffer that has room for it, zero-filling the rest,
/// if it is as long as the header said.
pub fn fill_stripe(plain: &Vec<u8>, uncompressed_len: usize, dst: &mut Vec<u8>) -> (r: Result<
    usize,
    SpillError,
>)
    requires
        uncompressed_len <= old(dst)@.len(),
    ensures
        plain@.len() == uncompressed_len ==> r == Ok::<usize, SpillError>(uncompressed_len)
            && final(dst)@ == plain@ + zeros((old(dst)@.len() - uncompressed_len) as nat),
        plain@.len() != uncompressed_len ==> r == Err::<usize, SpillError>(
            SpillError::DecodedLength { len: plain@.len() as usize, expected: uncompressed_len },
        ) && final(dst)@ == old(dst)@,
{
    if plain.len() != uncompressed_len {
        return Err(
            SpillError::DecodedLength { len: plain.len(), expected: uncompressed_len },
        );
    }
    let ghost before = dst@;
    let len: usize = dst.len();
    let mut i: usize = 0;
    while i < len
        invariant
            i <= len,
            len == before.len(),
            dst@.len() == len,
            uncompressed_len <= len,
            plain@.len() == uncompressed_len,
            forall|j: int|
                0 <= j < i ==> (#[trigger] dst@[j]) == (if j < uncompressed_len {
                    plain@[j]
                } else {
                    0u8
                }),
        decreases len - i,
    {
        let byte: u8 = if i < uncompressed_len {
            plain[i]
        } else {
            0
        };
        dst.set(i, byte);
        i = i + 1;
    }
    assert(dst@ =~= plain@ + zeros((before.len() - uncompressed_len) as nat));
    Ok(uncompressed_len)
}

/// Stripe bytes to object bytes and back. One per fetcher and one for the
/// evictor.
#[derive(Debug, Clone)]
pub struct SpillCodec {
    /// How new objects are compressed.
    pub compression: ArchiveCompressionAlgorithm,
    /// How objects are encrypted; without a cipher they are stored in the
    /// clear.
    pub cipher: Option<XtsBlockCipher>,
    /// Fixes the XTS tweak of each stripe.
    pub stripe_sector_count: u64,
}

impl SpillCodec {
    /// The cipher, if there is one, has proper keys.
    pub open spec fn wf(self) -> bool {
        self.cipher matches Some(c) ==> c.wf()
    }

    /// The stripe's first sector has a 64-bit number.
    pub open spec fn addresses(self, stripe_index: usize) -> bool {
        stripe_index * self.stripe_sector_count <= u64::MAX
    }

    /// The number of the stripe's first sector.
    pub open spec fn first_sector(self, stripe_index: usize) -> u64 {
        (stripe_index * self.stripe_sector_count) as u64
    }

    /// Compressed data, encrypted where there is a key.
    pub open spec fn sealed(self, stripe_index: usize, packed: Seq<u8>) -> Seq<u8> {
        match self.cipher {
            Some(c) => xts_encrypted(
                c.key1@,
                c.key2@,
                packed,
                SECTOR_SIZE,
                self.first_sector(stripe_index),
            ),
            None => packed,
        }
    }

    /// The flags of the objects this codec writes.
    pub open spec fn flags(self) -> u16 {
        (if self.compression is Zstd {
            spill_flags::ZSTD
        } else {
            0u16
        }) | (if self.cipher is Some {
            spill_flags::XTS
        } else {
            0u16
        })
    }

    /// Data that can be spilled: whole sectors, at least one, and a length
    /// that fits its field.
    pub open spec fn spillable(data: Seq<u8>) -> bool {
        data.len() > 0 && data.len() % SECTOR_SIZE as nat == 0 && data.len() <= u32::MAX
    }

    /// The object of a stripe's data, or the reason there is none: the data is
    /// not whole sectors, or too long, or does not compress, or its payload is
    /// too long.
    pub open spec fn encoded(self, stripe_index: usize, data: Seq<u8>) -> Result<
        Seq<u8>,
        SpillError,
    > {
        if data.len() == 0 || data.len() % SECTOR_SIZE as nat != 0 {
            Err(SpillError::BadDataLength { len: data.len() as usize })
        } else if data.len() > u32::MAX {
            Err(SpillError::StripeTooLarge { len: data.len() as usize })
        } else {
            match self.compression.packed(data) {
                None => Err(SpillError::CompressionFailed),
                Some(packed) => self.framed(stripe_index, data.len() as u32, packed),
            }
        }
    }

    /// The object around compressed data, or the reason there is none.
    pub open spec fn framed(
        self,
        stripe_index: usize,
        uncompressed_len: u32,
        packed: Seq<u8>,
    ) -> Result<Seq<u8>, SpillError> {
        let body = self.sealed(stripe_index, packed);
        if body.len() > u32::MAX {
            Err(SpillError::PayloadTooLarge { len: body.len() as usize })
        } else {
            Ok(object_bytes(self.flags(), stripe_index as u64, uncompressed_len, body))
        }
    }

    /// What a checked object's payload holds, by the object's flags and not
    /// this codec's setting: the setting may have changed since.
    pub open spec fn plain(
        self,
        stripe_index: usize,
        flags: u16,
        payload: Seq<u8>,
    ) -> Option<Seq<u8>> {
        let decrypted = if flags & spill_flags::XTS != 0 && self.cipher is Some {
            xts_decrypted(
                self.cipher->Some_0.key1@,
                self.cipher->Some_0.key2@,
                payload,
                SECTOR_SIZE,
                self.first_sector(stripe_index),
            )
        } else {
            payload
        };
        if flags & spill_flags::ZSTD != 0 {
            unpacked(decrypted)
        } else {
            Some(decrypted)
        }
    }

    /// What an object decodes to.
    pub open spec fn decoded(
        self,
        expected_stripe_index: usize,
        object: Seq<u8>,
        capacity: usize,
    ) -> Result<Seq<u8>, SpillError> {
        match checked_object(expected_stripe_index, object, capacity, self.cipher is Some) {
            Err(e) => Err(e),
            Ok(h) => match self.plain(
                expected_stripe_index,
                h.flags,
                object.subrange(SPILL_HEADER_LEN as int, object.len() as int),
            ) {
                None => Err(SpillError::DecompressionFailed),
                Some(plain) => if plain.len() != h.uncompressed_len {
                    Err(
                        SpillError::DecodedLength {
                            len: plain.len() as usize,
                            expected: h.uncompressed_len as usize,
                        },
                    )
                } else {
                    Ok(plain)
                },
            },
        }
    }

    /// A codec with the given settings.
    pub fn new(
        compression: ArchiveCompressionAlgorithm,
        cipher: Option<XtsBlockCipher>,
        stripe_sector_count: u64,
    ) -> (codec: SpillCodec)
        ensures
            codec.compression == compression,
            codec.cipher == cipher,
            codec.stripe_sector_count == stripe_sector_count,
    {
        SpillCodec { compression, cipher, stripe_sector_count }
    }

    /// XTS tweak base for a stripe: its first sector on the device, so an
    /// object encrypts like the device region it came from.
    fn sector_start(&self, stripe_index: usize) -> (r: u64)
        requires
            self.addresses(stripe_index),
        ensures
            r == self.first_sector(stripe_index),
    {
        stripe_index as u64 * self.stripe_sector_count
    }

    /// `r` is what encoding `data` gives: the stripe's object, which decodes to
    /// the data with any buffer that holds it, or the reason there is none.
    pub open spec fn encodes_to(
        self,
        stripe_index: usize,
        data: Seq<u8>,
        r: Result<Vec<u8>, SpillError>,
    ) -> bool {
        match r {
            Ok(object) => {
                &&& self.encoded(stripe_index, data) == Ok::<Seq<u8>, SpillError>(object@)
                &&& self.decodes(stripe_index, data, object@)
            },
            Err(e) => self.encoded(stripe_index, data) == Err::<Seq<u8>, SpillError>(e),
        }
    }

    /// The object decodes to the data with any buffer that holds it.
    pub open spec fn decodes(self, stripe_index: usize, data: Seq<u8>, object: Seq<u8>) -> bool {
        forall|capacity: usize|
            data.len() <= capacity ==> #[trigger] self.decoded(stripe_index, object, capacity)
                == Ok::<Seq<u8>, SpillError>(data)
    }

    /// The object around compressed data, encrypted where there is a key;
    /// without compressed data there is none.
    pub fn seal_object(
        &self,
        stripe_index: usize,
        uncompressed_len: u32,
        packed: Option<Vec<u8>>,
    ) -> (r: Result<Vec<u8>, SpillError>)
        requires
            self.wf(),
            self.addresses(stripe_index),
            self.cipher is Some && packed is Some ==> packed->Some_0@.len() % SECTOR_SIZE as nat
                == 0,
        ensures
            match packed {
                None => r == Err::<Vec<u8>, SpillError>(SpillError::CompressionFailed),
                Some(packed) => match r {
                    Ok(object) => self.framed(stripe_index, uncompressed_len, packed@) == Ok::<
                        Seq<u8>,
                        SpillError,
                    >(object@),
                    Err(e) => self.framed(stripe_index, uncompressed_len, packed@) == Err::<
                        Seq<u8>,
                        SpillError,
                    >(e),
                },
            },
            packed is Some && self.cipher is Some ==> xts_decrypted(
                self.cipher->Some_0.key1@,
                self.cipher->Some_0.key2@,
                self.sealed(stripe_index, packed->Some_0@),
                SECTOR_SIZE,
                self.first_sector(stripe_index),
            ) == packed->Some_0@,
            packed is Some ==> self.sealed(stripe_index, packed->Some_0@).len()
                == packed->Some_0@.len(),
    {
        let mut payload = match packed {
            Some(packed) => packed,
            None => {
                return Err(SpillError::CompressionFailed);
            },
        };
        let mut flags: u16 = match self.compression {
            ArchiveCompressionAlgorithm::Zstd { level } => spill_flags::ZSTD,
            ArchiveCompressionAlgorithm::Off => 0,
        };
        let sector_start = self.sector_start(stripe_index);
        match &self.cipher {
            Some(cipher) => {
                flags = flags | spill_flags::XTS;
                cipher.encrypt(&mut payload, sector_start);
            },
            None => {},
        }
        assert(flags == self.flags()) by {
            assert(0u16 | 0 == 0 && 1u16 | 0 == 1) by (bit_vector);
        }
        if payload.len() as u64 > u32::MAX as u64 {
            return Err(SpillError::PayloadTooLarge { len: payload.len() });
        }
        Ok(frame_object(flags, stripe_index as u64, uncompressed_len, &payload))
    }

    /// Compress, encrypt, then put the header in front. Whenever an object
    /// comes out, decoding it with this codec gives the data back.
    pub fn encode(&self, stripe_index: usize, data: &[u8]) -> (r: Result<Vec<u8>, SpillError>)
        requires
            self.wf(),
            self.addresses(stripe_index),
        ensures
            self.encodes_to(stripe_index, data@, r),
            self.compression is Off && SpillCodec::spillable(data@) ==> r is Ok,
    {
        if data.len() == 0 || data.len() % SECTOR_SIZE != 0 {
            return Err(SpillError::BadDataLength { len: data.len() });
        }
        if data.len() as u64 > u32::MAX as u64 {
            return Err(SpillError::StripeTooLarge { len: data.len() });
        }
        let packed = self.compression.compress(data);
        let ghost compressed = packed;
        let r = self.seal_object(stripe_index, data.len() as u32, packed);
        proof {
            if r is Ok {
                let body = self.sealed(stripe_index, compressed->Some_0@);
                self.lemma_flags();
                assert forall|capacity: usize|
                    data@.len() <= capacity implies #[trigger] self.decoded(
                    stripe_index,
                    r->Ok_0@,
                    capacity,
                ) == Ok::<Seq<u8>, SpillError>(data@) by {
                    self.lemma_object_decodes(
                        stripe_index,
                        data@,
                        body,
                        capacity,
                    );
                }
            }
        }
        r
    }

    /// Verifies the header, the checksum, the stripe and the lengths, then
    /// decrypts and decompresses into `dst`, zero-filling the rest. Returns
    /// the stripe's length. When anything fails, `dst` is untouched: a
    /// mis-keyed or mixed-up object fails on the stripe or the checksum
    /// before any plaintext is produced.
    pub fn decode_into(
        &self,
        expected_stripe_index: usize,
        object: &[u8],
        dst: &mut Vec<u8>,
    ) -> (r: Result<usize, SpillError>)
        requires
            self.wf(),
            self.addresses(expected_stripe_index),
        ensures
            match self.decoded(expected_stripe_index, object@, old(dst)@.len() as usize) {
                Ok(plain) => r == Ok::<usize, SpillError>(plain.len() as usize) && final(dst)@
                    == plain + zeros((old(dst)@.len() - plain.len()) as nat) && plain.len()
                    <= old(dst)@.len(),
                Err(e) => r == Err::<usize, SpillError>(e) && final(dst)@ == old(dst)@,
            },
    {
        let keyed = self.cipher.is_some();
        let header = match check_object(expected_stripe_index, object, dst.len(), keyed) {
            Ok(header) => header,
            Err(e) => {
                return Err(e);
            },
        };
        let sector_start = self.sector_start(expected_stripe_index);
        let mut payload = copy_bytes(slice_subrange(object, SPILL_HEADER_LEN, object.len()));
        match &self.cipher {
            Some(cipher) => {
                cipher.decrypt(&mut payload, sector_start);
            },
            None => {},
        }
        let plain = if header.flags & spill_flags::ZSTD != 0 {
            let zstd = ArchiveCompressionAlgorithm::Zstd { level: 0 };
            match zstd.decompress(&payload) {
                Some(plain) => plain,
                None => {
                    return Err(SpillError::DecompressionFailed);
                },
            }
        } else {
            payload
        };
        fill_stripe(&plain, header.uncompressed_len as usize, dst)
    }

    /// An object whose payload holds `data` decodes to it.
    proof fn lemma_object_decodes(
        self,
        stripe_index: usize,
        data: Seq<u8>,
        body: Seq<u8>,
        capacity: usize,
    )
        requires
            SpillCodec::spillable(data),
            data.len() <= capacity,
            body.len() <= u32::MAX,
            self.cipher is Some ==> body.len() % SECTOR_SIZE as nat == 0,
            self.plain(stripe_index, self.flags(), body) == Some(data),
        ensures
            self.decoded(
                stripe_index,
                object_bytes(self.flags(), stripe_index as u64, data.len() as u32, body),
                capacity,
            ) == Ok::<Seq<u8>, SpillError>(data),
    {
        let flags = self.flags();
        let object = object_bytes(flags, stripe_index as u64, data.len() as u32, body);
        let unsummed = SpillObjectHeader {
            flags,
            stripe_index: stripe_index as u64,
            uncompressed_len: data.len() as u32,
            payload_len: body.len() as u32,
            crc32: 0,
        };
        let crc = crc32_of(unsummed.covered() + body);
        let h = SpillObjectHeader { crc32: crc, ..unsummed };
        law_header_roundtrip(h, body);
        assert(object == h.wire() + body);
        assert(object.subrange(SPILL_HEADER_LEN as int, object.len() as int) =~= body);
        assert(object.subrange(0, CRC_COVERED_LEN as int) =~= unsummed.covered());
        self.lemma_flags();
    }

    /// The flags say how the payload was transformed, and no more.
    pub proof fn lemma_flags(self)
        ensures
            (self.flags() & spill_flags::XTS != 0) == (self.cipher is Some),
            (self.flags() & spill_flags::ZSTD != 0) == (self.compression is Zstd),
            self.flags() & !spill_flags::KNOWN == 0,
    {
        assert((0u16 | 2) & !0x3u16 == 0 && (1u16 | 2) & !0x3u16 == 0 && (0u16 | 0) & !0x3u16 == 0
            && (1u16 | 0) & !0x3u16 == 0 && (0u16 | 0) & 2 == 0 && (1u16 | 0) & 2 == 0 && (0u16 | 2)
            & 2 != 0 && (1u16 | 2) & 2 != 0 && (0u16 | 0) & 1 == 0 && (0u16 | 2) & 1 == 0 && (1u16
            | 0) & 1 != 0 && (1u16 | 2) & 1 != 0) by (bit_vector);
    }

    /// `encode`, adding the time it took to the counters.
    pub fn encode_timed<K: Clock>(
        &self,
        stripe_index: usize,
        data: &[u8],
        clock: &mut K,
        counters: &mut SpillCounters,
    ) -> (r: Result<Vec<u8>, SpillError>)
        requires
            self.wf(),
            self.addresses(stripe_index),
        ensures
            self.encodes_to(stripe_index, data@, r),
            r is Err ==> *final(counters) == *old(counters),
            r is Err ==> exists|start: u64|
                final(clock).readings() == #[trigger] old(clock).readings().push(start),
            r is Ok ==> exists|start: u64, end: u64|
                final(clock).readings() == #[trigger] old(clock).readings().push(start).push(end)
                    && *final(counters) == old(counters).with_encode_time(sat_sub(end, start)),
    {
        let start = clock.now_ns();
        match self.encode(stripe_index, data) {
            Ok(object) => {
                let end = clock.now_ns();
                let elapsed = end.saturating_sub(start);
                counters.encode_ns = bump_by(counters.encode_ns, elapsed);
                assert(*counters == old(counters).with_encode_time(sat_sub(end, start)));
                Ok(object)
            },
            Err(e) => Err(e),
        }
    }

    /// `decode_into`, adding the time it took to the counters.
    pub fn decode_into_timed<K: Clock>(
        &self,
        expected_stripe_index: usize,
        object: &[u8],
        dst: &mut Vec<u8>,
        clock: &mut K,
        counters: &mut SpillCounters,
    ) -> (r: Result<usize, SpillError>)
        requires
            self.wf(),
            self.addresses(expected_stripe_index),
        ensures
            match self.decoded(expected_stripe_index, object@, old(dst)@.len() as usize) {
                Ok(plain) => r == Ok::<usize, SpillError>(plain.len() as usize) && final(dst)@
                    == plain + zeros((old(dst)@.len() - plain.len()) as nat),
                Err(e) => r == Err::<usize, SpillError>(e) && final(dst)@ == old(dst)@,
            },
            r is Err ==> *final(counters) == *old(counters),
            r is Err ==> exists|start: u64|
                final(clock).readings() == #[trigger] old(clock).readings().push(start),
            r is Ok ==> exists|start: u64, end: u64|
                final(clock).readings() == #[trigger] old(clock).readings().push(start).push(end)
                    && *final(counters) == old(counters).with_decode_time(sat_sub(end, start)),
    {
        let start = clock.now_ns();
        match self.decode_into(expected_stripe_index, object, dst) {
            Ok(len) => {
                let end = clock.now_ns();
                let elapsed = end.saturating_sub(start);
                counters.decode_ns = bump_by(counters.decode_ns, elapsed);
                assert(*counters == old(counters).with_decode_time(sat_sub(end, start)));
                Ok(len)
            },
            Err(e) => Err(e),
        }
    }
}

impl SpillCounters {
    /// More time spent encoding.
    pub open spec fn with_encode_time(self, elapsed: u64) -> SpillCounters {
        SpillCounters { encode_ns: add_wrapping(self.encode_ns, elapsed), ..self }
    }

    /// More time spent decoding.
    pub open spec fn with_decode_time(self, elapsed: u64) -> SpillCounters {
        SpillCounters { decode_ns: add_wrapping(self.decode_ns, elapsed), ..self }
    }
}

/// An object is decoded by its own flags: codecs that share a key and a stripe
/// size decode it alike, whatever they compress with.
pub proof fn law_decoding_ignores_the_compression_setting(
    a: SpillCodec,
    b: SpillCodec,
    stripe_index: usize,
    object: Seq<u8>,
    capacity: usize,
)
    requires
        a.cipher == b.cipher,
        a.stripe_sector_count == b.stripe_sector_count,
    ensures
        a.decoded(stripe_index, object, capacity) == b.decoded(stripe_index, object, capacity),
{
}

/// An object never decodes as another stripe's.
pub proof fn law_objects_do_not_pass_for_other_stripes(
    codec: SpillCodec,
    wrong: usize,
    object: Seq<u8>,
    capacity: usize,
    header: SpillObjectHeader,
)
    requires
        SpillObjectHeader::decoded(object) == Ok::<SpillObjectHeader, SpillError>(header),
        header.stripe_index != wrong,
    ensures
        codec.decoded(wrong, object, capacity) == Err::<Seq<u8>, SpillError>(
            SpillError::StripeMismatch { found: header.stripe_index, expected: wrong },
        ),
{
}

/// An object without encryption does not decode under a key, and an encrypted
/// one does not decode without: what decodes agrees with the codec.
pub proof fn law_key_presence_must_match_object(
    codec: SpillCodec,
    stripe_index: usize,
    object: Seq<u8>,
    capacity: usize,
)
    requires
        codec.decoded(stripe_index, object, capacity) is Ok,
    ensures
        (SpillObjectHeader::read(object).flags & spill_flags::XTS != 0) == (codec.cipher is Some),
        SpillObjectHeader::read(object).stripe_index == stripe_index,
        codec.decoded(stripe_index, object, capacity)->Ok_0.len() <= capacity,
{
}

/// The cipher for the device's spill key: AES-256-GCM bound to
/// `ubiblk_spill`.
pub fn spill_kek(kek: &[u8]) -> (r: KeyEncryptionCipher)
    ensures
        r.method == CipherMethod::Aes256Gcm,
        r.key is Some,
        r.key->Some_0@ == kek@,
        r.auth_data is Some,
        r.auth_data->Some_0@ == spill_auth_data(),
{
    let auth: Vec<u8> = vec![117u8, 98, 105, 98, 108, 107, 95, 115, 112, 105, 108, 108];
    assert(auth@ =~= spill_auth_data());
    KeyEncryptionCipher {
        method: CipherMethod::Aes256Gcm,
        key: Some(copy_bytes(kek)),
        auth_data: Some(auth),
    }
}

/// `ubiblk_spill` as bytes.
pub open spec fn spill_auth_data() -> Seq<u8> {
    seq![117u8, 98, 105, 98, 108, 107, 95, 115, 112, 105, 108, 108]
}

/// Bytes of a key object under AES-GCM: the nonce, the two keys, the tag.
pub const WRAPPED_KEY_LEN: usize = 92;

/// The cipher's two keys, sealed under `kek`. What comes out unwraps to the
/// same keys.
pub fn wrap_spill_key(kek: &KeyEncryptionCipher, cipher: &XtsBlockCipher) -> (r: Result<
    Vec<u8>,
    CryptError,
>)
    requires
        cipher.wf(),
    ensures
        match r {
            Ok(v) => kek.usable() is None && kek.opens_to(v@, cipher.key1@ + cipher.key2@),
            Err(e) => Some(e) == kek.usable() || e == CryptError::NoRandomness,
        },
        kek.usable() matches Some(e) ==> r == Err::<Vec<u8>, CryptError>(e),
        kek.method == CipherMethod::Plain ==> r is Ok,
        kek.method == CipherMethod::Aes256Gcm && r is Ok ==> r->Ok_0@.len() == WRAPPED_KEY_LEN,
{
    cipher.encrypted_key(kek)
}

/// Inverse of `wrap_spill_key`: the cipher from the key object's bytes. Under
/// AES-GCM a key object of another length is refused, a cut one among them.
pub fn unwrap_spill_key(kek: &KeyEncryptionCipher, wrapped: &[u8]) -> (r: Result<
    XtsBlockCipher,
    CryptError,
>)
    ensures
        match r {
            Ok(c) => c.wf() && kek.opens_to(wrapped@, c.key1@ + c.key2@),
            Err(e) => match kek.opened(wrapped@) {
                Ok(data) => data.len() != 64 && e == (CryptError::KeyDataLength {
                    len: data.len() as usize,
                }),
                Err(f) => e == f,
            },
        },
        kek.method == CipherMethod::Aes256Gcm && r is Ok ==> wrapped@.len() == WRAPPED_KEY_LEN,
{
    XtsBlockCipher::from_encrypted_key(copy_bytes(wrapped), kek)
}

/// What a key object holds under the key encryption key `kek`.
pub open spec fn spill_key_opened(kek: Seq<u8>, wrapped: Seq<u8>) -> Result<Seq<u8>, CryptError> {
    if kek.len() != KEY_LEN {
        Err(CryptError::KeyLength { len: kek.len() as usize })
    } else if wrapped.len() < NONCE_LEN + TAG_LEN {
        Err(CryptError::TooShort { len: wrapped.len() as usize })
    } else {
        match gcm_opened(
            kek,
            wrapped.subrange(0, NONCE_LEN as int),
            spill_auth_data(),
            wrapped.subrange(NONCE_LEN as int, wrapped.len() as int),
        ) {
            Some(data) => Ok(data),
            None => Err(CryptError::NotAuthentic),
        }
    }
}

/// The cipher that `spill_kek` makes of `kek` opens a key object to what it
/// holds under `kek`.
pub proof fn lemma_spill_kek_opens(cipher: KeyEncryptionCipher, kek: Seq<u8>, wrapped: Seq<u8>)
    requires
        cipher.method == CipherMethod::Aes256Gcm,
        cipher.key is Some,
        cipher.key->Some_0@ == kek,
        cipher.auth_data is Some,
        cipher.auth_data->Some_0@ == spill_auth_data(),
    ensures
        cipher.opened(wrapped) == spill_key_opened(kek, wrapped),
        cipher.usable() == (if kek.len() != KEY_LEN {
            Some(CryptError::KeyLength { len: kek.len() as usize })
        } else {
            None
        }),
{
    assert(spill_auth_data().len() == 12);
}

/// What was wrapped unwraps to the same keys: any cipher that the wrapped
/// bytes stand for has them.
pub proof fn law_unwrap_gives_back_what_wrap_sealed(
    kek: KeyEncryptionCipher,
    wrapped: Seq<u8>,
    cipher: XtsBlockCipher,
    unwrapped: XtsBlockCipher,
)
    requires
        cipher.wf(),
        unwrapped.wf(),
        kek.opens_to(wrapped, cipher.key1@ + cipher.key2@),
        kek.opens_to(wrapped, unwrapped.key1@ + unwrapped.key2@),
    ensures
        unwrapped.key1@ == cipher.key1@,
        unwrapped.key2@ == cipher.key2@,
{
    let a = cipher.key1@ + cipher.key2@;
    let b = unwrapped.key1@ + unwrapped.key2@;
    assert(a == b);
    assert(unwrapped.key1@ =~= b.subrange(0, 32));
    assert(cipher.key1@ =~= a.subrange(0, 32));
    assert(unwrapped.key2@ =~= b.subrange(32, 64));
    assert(cipher.key2@ =~= a.subrange(32, 64));
}

} // verus!
