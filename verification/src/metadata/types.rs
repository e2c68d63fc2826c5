//! The metadata file: sector 0 describes the device, every later sector holds
//! a group of stripe header bytes, and each sector ends in a checksum.

use vstd::prelude::*;
use vstd::string::StringExecFns;
use crate::crc::{crc32, crc32_of};
use crate::le::{from_le16, from_le32, le32, le64};
use crate::le::lemma_le32_roundtrip;
use crate::le::{push_le32, read_le16};
use crate::metadata::metadata_flags;
use crate::text::{decimal, push_decimal};
use crate::SECTOR_SIZE;

verus! {

/// Bytes of the magic string.
pub const UBI_MAGIC_SIZE: usize = 9;

/// The format this code writes.
pub const METADATA_VERSION_MAJOR: u16 = 2;

/// The newest minor version this code reads, and the one it writes.
pub const METADATA_VERSION_MINOR: u16 = 1;

/// The oldest minor version this code reads.
pub const METADATA_VERSION_MINOR_MIN: u16 = 0;

/// Header bytes in one metadata sector; the rest is the checksum.
pub const STRIPE_HEADERS_PER_SECTOR: usize = 508;

/// Identifier of the write that saves metadata.
pub const METADATA_WRITE_ID: usize = 0;

/// Identifier of the flush behind that write.
pub const METADATA_FLUSH_ID: usize = 1;

/// Stripes of 2048 sectors unless a device says otherwise.
pub const DEFAULT_STRIPE_SECTOR_COUNT_SHIFT: u8 = 11;

/// Bytes of sector 0 that carry information.
pub const DESCRIPTION_LEN: usize = 22;

/// The magic string: `BDEV_UBI` and a zero.
pub open spec fn magic_bytes() -> Seq<u8> {
    seq![66u8, 68, 69, 86, 95, 85, 66, 73, 0]
}

/// What is wrong with a metadata file, or with the device that should hold it.
#[derive(Debug, Clone, Copy, PartialEq, Eq, Structural)]
pub enum MetadataError {
    /// The file cannot be addressed by one request.
    FileTooLarge,
    /// The device has more sectors than one write can carry.
    SectorCountTooLarge,
    /// The device's size in bytes does not fit the machine.
    DeviceTooLarge,
    /// The metadata does not fit the device.
    ExceedsCapacity { size: usize, capacity: usize },
    /// Not even sector 0 is there.
    TooShort { len: usize },
    /// Sector 0 does not start with the magic string.
    MagicMismatch,
    /// A version this code does not read.
    VersionMismatch { major: u16, minor: u16 },
    /// Sector 0 fails its checksum.
    DescriptionChecksum,
    /// The stripe size does not fit 64 bits.
    InvalidShift { shift: u8 },
    /// The file ends before its last header sector.
    Truncated { stripe_count: u64 },
    /// A header sector fails its checksum.
    GroupChecksum { group: usize },
    /// A header byte uses bits that have no meaning.
    ReservedBits { stripe_id: usize },
    /// The source has more stripes than the metadata.
    SourceTooLarge { source_stripes: u64, metadata_stripes: u64 },
}

impl MetadataError {
    /// The message for this error.
    pub open spec fn message(self) -> Seq<char> {
        match self {
            MetadataError::FileTooLarge => "Metadata file too large"@,
            MetadataError::SectorCountTooLarge => "Device sector count exceeds u32"@,
            MetadataError::DeviceTooLarge => "Metadata device too large"@,
            MetadataError::ExceedsCapacity { size, capacity } => "Metadata size "@ + decimal(
                size as nat,
            ) + " exceeds device capacity "@ + decimal(capacity as nat),
            MetadataError::TooShort { len } => "Metadata file too short: "@ + decimal(len as nat),
            MetadataError::MagicMismatch => "Metadata magic mismatch"@,
            MetadataError::VersionMismatch { major, minor } => "Metadata version mismatch: "@
                + decimal(major as nat) + "."@ + decimal(minor as nat)
                + ". Expected: 2.0..=2.1"@,
            MetadataError::DescriptionChecksum => "Metadata sector 0 checksum mismatch"@,
            MetadataError::InvalidShift { shift } => "Metadata stripe size shift is invalid: "@
                + decimal(shift as nat),
            MetadataError::Truncated { stripe_count } => "Metadata file too short for stripes: "@
                + decimal(stripe_count as nat),
            MetadataError::GroupChecksum { group } => "Metadata checksum mismatch in group "@
                + decimal(group as nat),
            MetadataError::ReservedBits { stripe_id } => "stripe header "@ + decimal(
                stripe_id as nat,
            ) + " has reserved bits set"@,
            MetadataError::SourceTooLarge { source_stripes, metadata_stripes } =>
                "Source stripe count "@ + decimal(source_stripes as nat)
                + " exceeds metadata stripe count "@ + decimal(metadata_stripes as nat),
        }
    }

    /// The message as a string.
    pub fn describe(&self) -> (r: String)
        ensures
            r@ == self.message(),
    {
        let mut out = String::new();
        match *self {
            MetadataError::FileTooLarge => {
                out.append("Metadata file too large");
            },
            MetadataError::SectorCountTooLarge => {
                out.append("Device sector count exceeds u32");
            },
            MetadataError::DeviceTooLarge => {
                out.append("Metadata device too large");
            },
            MetadataError::ExceedsCapacity { size, capacity } => {
                out.append("Metadata size ");
                push_decimal(&mut out, size as u64);
                out.append(" exceeds device capacity ");
                push_decimal(&mut out, capacity as u64);
            },
            MetadataError::TooShort { len } => {
                out.append("Metadata file too short: ");
                push_decimal(&mut out, len as u64);
            },
            MetadataError::MagicMismatch => {
                out.append("Metadata magic mismatch");
            },
            MetadataError::VersionMismatch { major, minor } => {
                out.append("Metadata version mismatch: ");
                push_decimal(&mut out, major as u64);
                out.append(".");
                push_decimal(&mut out, minor as u64);
                out.append(". Expected: 2.0..=2.1");
            },
            MetadataError::DescriptionChecksum => {
                out.append("Metadata sector 0 checksum mismatch");
            },
            MetadataError::InvalidShift { shift } => {
                out.append("Metadata stripe size shift is invalid: ");
                push_decimal(&mut out, shift as u64);
            },
            MetadataError::Truncated { stripe_count } => {
                out.append("Metadata file too short for stripes: ");
                push_decimal(&mut out, stripe_count);
            },
            MetadataError::GroupChecksum { group } => {
                out.append("Metadata checksum mismatch in group ");
                push_decimal(&mut out, group as u64);
            },
            MetadataError::ReservedBits { stripe_id } => {
                out.append("stripe header ");
                push_decimal(&mut out, stripe_id as u64);
                out.append(" has reserved bits set");
            },
            MetadataError::SourceTooLarge { source_stripes, metadata_stripes } => {
                out.append("Source stripe count ");
                push_decimal(&mut out, source_stripes);
                out.append(" exceeds metadata stripe count ");
                push_decimal(&mut out, metadata_stripes);
            },
        }
        assert(out@ =~= self.message());
        out
    }
}

/// A sector whose first bytes are `data`, zero-filled, with the checksum of
/// all that in its last four bytes.
pub open spec fn sector_body(data: Seq<u8>) -> Seq<u8> {
    data + Seq::new((STRIPE_HEADERS_PER_SECTOR - data.len()) as nat, |i: int| 0u8)
}

/// The sector as it is written.
pub open spec fn sector_image(data: Seq<u8>) -> Seq<u8> {
    sector_body(data) + le32(crc32_of(sector_body(data)))
}

/// Whether a sector's checksum covers its body.
pub open spec fn sector_intact(sector: Seq<u8>) -> bool {
    from_le32(sector, STRIPE_HEADERS_PER_SECTOR as int) == crc32_of(
        sector.subrange(0, STRIPE_HEADERS_PER_SECTOR as int),
    )
}

/// Lay `data` out as a checksummed sector.
pub fn write_sector_with_crc32(data: &[u8]) -> (sector: Vec<u8>)
    requires
        data@.len() <= STRIPE_HEADERS_PER_SECTOR,
    ensures
        sector@ == sector_image(data@),
        sector@.len() == SECTOR_SIZE,
{
    let mut out: Vec<u8> = Vec::new();
    let mut i: usize = 0;
    while i < data.len()
        invariant
            i <= data@.len(),
            out@ == data@.subrange(0, i as int),
        decreases data@.len() - i,
    {
        out.push(data[i]);
        i = i + 1;
        assert(out@ =~= data@.subrange(0, i as int));
    }
    assert(out@ =~= data@);
    while out.len() < STRIPE_HEADERS_PER_SECTOR
        invariant
            data@.len() <= out@.len() <= STRIPE_HEADERS_PER_SECTOR,
            out@ == data@ + Seq::new((out@.len() - data@.len()) as nat, |i: int| 0u8),
        decreases STRIPE_HEADERS_PER_SECTOR - out@.len(),
    {
        out.push(0);
        assert(out@ =~= data@ + Seq::new((out@.len() - data@.len()) as nat, |i: int| 0u8));
    }
    assert(out@ =~= sector_body(data@));
    let empty: Vec<u8> = Vec::new();
    let crc = crc32(out.as_slice(), empty.as_slice());
    assert(out@ + empty@ =~= out@);
    push_le32(&mut out, crc);
    out
}

/// A written sector is intact and starts with its data.
pub proof fn lemma_sector_image_intact(data: Seq<u8>)
    requires
        data.len() <= STRIPE_HEADERS_PER_SECTOR,
    ensures
        sector_image(data).len() == SECTOR_SIZE,
        sector_intact(sector_image(data)),
        sector_image(data).subrange(0, data.len() as int) == data,
{
    let s = sector_image(data);
    let body = sector_body(data);
    assert(body.len() == STRIPE_HEADERS_PER_SECTOR);
    assert(s.subrange(0, STRIPE_HEADERS_PER_SECTOR as int) =~= body);
    assert(s.subrange(
        STRIPE_HEADERS_PER_SECTOR as int,
        STRIPE_HEADERS_PER_SECTOR + 4,
    ) =~= le32(crc32_of(body)));
    lemma_le32_roundtrip(s, STRIPE_HEADERS_PER_SECTOR as int, crc32_of(body));
    assert(s.subrange(0, data.len() as int) =~= data);
}

/// Sectors that `stripe_count` header bytes take.
pub open spec fn group_count(stripe_count: nat) -> nat {
    ((stripe_count + STRIPE_HEADERS_PER_SECTOR - 1) / STRIPE_HEADERS_PER_SECTOR as int) as nat
}

/// The header bytes of one group.
pub open spec fn group_headers(headers: Seq<u8>, group: int) -> Seq<u8> {
    let start = group * STRIPE_HEADERS_PER_SECTOR;
    let end = if start + STRIPE_HEADERS_PER_SECTOR < headers.len() {
        start + STRIPE_HEADERS_PER_SECTOR
    } else {
        headers.len() as int
    };
    headers.subrange(start, end)
}

/// The first `groups` header sectors, one behind the other.
pub open spec fn groups_image(headers: Seq<u8>, groups: nat) -> Seq<u8>
    decreases groups,
{
    if groups == 0 {
        Seq::empty()
    } else {
        groups_image(headers, (groups - 1) as nat) + sector_image(
            group_headers(headers, groups - 1),
        )
    }
}

/// A metadata file in memory.
#[derive(Debug, Clone)]
pub struct UbiMetadata {
    /// The magic string.
    pub magic: [u8; 9],
    /// Format version, little-endian.
    pub version_major: [u8; 2],
    /// Format version, little-endian.
    pub version_minor: [u8; 2],
    /// A stripe has two to this many sectors.
    pub stripe_sector_count_shift: u8,
    /// One header byte per stripe.
    pub stripe_headers: Vec<u8>,
}

/// What a metadata file says of itself, apart from its stripes' headers.
pub struct FileFormat {
    /// The magic string.
    pub magic: [u8; 9],
    /// Format version, little-endian.
    pub version_major: [u8; 2],
    /// Format version, little-endian.
    pub version_minor: [u8; 2],
    /// A stripe has two to this many sectors.
    pub stripe_sector_count_shift: u8,
}

impl UbiMetadata {
    /// Everything but the headers.
    pub open spec fn format(self) -> FileFormat {
        FileFormat {
            magic: self.magic,
            version_major: self.version_major,
            version_minor: self.version_minor,
            stripe_sector_count_shift: self.stripe_sector_count_shift,
        }
    }

    /// The stripe size fits 64 bits.
    pub open spec fn wf(self) -> bool {
        self.stripe_sector_count_shift < 64
    }

    /// What sector 0 says.
    pub open spec fn description(self) -> Seq<u8> {
        self.magic@ + self.version_major@ + self.version_minor@ + seq![
            self.stripe_sector_count_shift,
        ] + le64(self.stripe_headers@.len() as u64)
    }

    /// The whole file.
    pub open spec fn image(self) -> Seq<u8> {
        sector_image(self.description()) + groups_image(
            self.stripe_headers@,
            group_count(self.stripe_headers@.len()),
        )
    }

    /// The file's size in bytes.
    pub open spec fn size(self) -> nat {
        ((1 + group_count(self.stripe_headers@.len())) * SECTOR_SIZE) as nat
    }

    /// This code writes such a file: its own magic, a version it reads, no
    /// reserved bits.
    pub open spec fn readable(self) -> bool {
        &&& self.wf()
        &&& self.magic@ == magic_bytes()
        &&& from_le16(self.version_major@, 0) == METADATA_VERSION_MAJOR
        &&& METADATA_VERSION_MINOR_MIN <= from_le16(self.version_minor@, 0)
            <= METADATA_VERSION_MINOR
        &&& forall|i: int|
            0 <= i < self.stripe_headers@.len() ==> #[trigger] self.stripe_headers@[i]
                & metadata_flags::RESERVED_MASK == 0
    }

    /// Metadata for `base_stripe_count` stripes of which the source holds the
    /// first `image_stripe_count`.
    pub fn new(
        stripe_sector_count_shift: u8,
        base_stripe_count: usize,
        image_stripe_count: usize,
    ) -> (m: UbiMetadata)
        ensures
            m.magic@ == magic_bytes(),
            from_le16(m.version_major@, 0) == METADATA_VERSION_MAJOR,
            from_le16(m.version_minor@, 0) == METADATA_VERSION_MINOR,
            m.stripe_sector_count_shift == stripe_sector_count_shift,
            m.stripe_headers@ == Seq::new(
                base_stripe_count as nat,
                |i: int|
                    if i < image_stripe_count {
                        metadata_flags::HAS_SOURCE
                    } else {
                        0
                    },
            ),
    {
        let mut stripe_headers: Vec<u8> = Vec::new();
        let mut i: usize = 0;
        while i < base_stripe_count
            invariant
                i <= base_stripe_count,
                stripe_headers@ == Seq::new(
                    i as nat,
                    |i: int|
                        if i < image_stripe_count {
                            metadata_flags::HAS_SOURCE
                        } else {
                            0
                        },
                ),
            decreases base_stripe_count - i,
        {
            stripe_headers.push(
                if i < image_stripe_count {
                    metadata_flags::HAS_SOURCE
                } else {
                    0
                },
            );
            i = i + 1;
            assert(stripe_headers@ =~= Seq::new(
                i as nat,
                |i: int|
                    if i < image_stripe_count {
                        metadata_flags::HAS_SOURCE
                    } else {
                        0
                    },
            ));
        }
        let m = UbiMetadata {
            magic: [66, 68, 69, 86, 95, 85, 66, 73, 0],
            version_major: [2, 0],
            version_minor: [1, 0],
            stripe_sector_count_shift,
            stripe_headers,
        };
        assert(m.magic@ =~= magic_bytes());
        assert(2u8 as u16 | (0u8 as u16) << 8 == 2 && 1u8 as u16 | (0u8 as u16) << 8 == 1)
            by (bit_vector);
        m
    }

    /// How many stripes the device has.
    pub fn stripe_count(&self) -> (r: u64)
        ensures
            r == self.stripe_headers@.len(),
    {
        self.stripe_headers.len() as u64
    }

    /// Sectors in a stripe.
    pub fn stripe_sector_count(&self) -> (r: u64)
        requires
            self.wf(),
        ensures
            r == 1u64 << self.stripe_sector_count_shift,
    {
        1u64 << self.stripe_sector_count_shift
    }

    /// A stripe's header byte.
    pub fn stripe_header(&self, stripe_id: usize) -> (r: u8)
        requires
            stripe_id < self.stripe_headers@.len(),
        ensures
            r == self.stripe_headers@[stripe_id as int],
    {
        self.stripe_headers[stripe_id]
    }

    /// Replace a stripe's header byte.
    pub fn set_stripe_header(&mut self, stripe_id: usize, header: u8)
        requires
            stripe_id < old(self).stripe_headers@.len(),
        ensures
            final(self).stripe_headers@ == old(self).stripe_headers@.update(
                stripe_id as int,
                header,
            ),
            final(self).magic == old(self).magic,
            final(self).version_major == old(self).version_major,
            final(self).version_minor == old(self).version_minor,
            final(self).stripe_sector_count_shift == old(self).stripe_sector_count_shift,
    {
        self.stripe_headers.set(stripe_id, header);
    }

    /// The stripes whose blocks were given back: EVICTED and not FETCHED, in
    /// ascending order.
    pub fn evicted_stripe_ids(&self) -> (r: Vec<usize>)
        ensures
            forall|k: int|
                0 <= k < r@.len() ==> (#[trigger] r@[k]) < self.stripe_headers@.len()
                    && header_evicted(self.stripe_headers@[r@[k] as int]),
            forall|j: int, k: int| 0 <= j < k < r@.len() ==> r@[j] < r@[k],
            forall|i: int|
                0 <= i < self.stripe_headers@.len() && header_evicted(
                    #[trigger] self.stripe_headers@[i],
                ) ==> r@.contains(i as usize),
    {
        let mut out: Vec<usize> = Vec::new();
        let mut i: usize = 0;
        while i < self.stripe_headers.len()
            invariant
                i <= self.stripe_headers@.len(),
                forall|k: int|
                    0 <= k < out@.len() ==> (#[trigger] out@[k]) < i && header_evicted(
                        self.stripe_headers@[out@[k] as int],
                    ),
                forall|j: int, k: int| 0 <= j < k < out@.len() ==> out@[j] < out@[k],
                forall|j: int|
                    0 <= j < i && header_evicted(#[trigger] self.stripe_headers@[j])
                        ==> out@.contains(j as usize),
            decreases self.stripe_headers@.len() - i,
        {
            let header = self.stripe_headers[i];
            let ghost before = out@;
            if header & metadata_flags::EVICTED != 0 && header & metadata_flags::FETCHED == 0 {
                out.push(i);
                assert(out@[out@.len() - 1] == i);
                assert forall|j: int|
                    0 <= j < i + 1 && header_evicted(
                        #[trigger] self.stripe_headers@[j],
                    ) implies out@.contains(j as usize) by {
                    if j < i {
                        let k = before.index_of(j as usize);
                        assert(out@[k] == j as usize);
                    }
                }
            }
            i = i + 1;
        }
        out
    }

    /// The major version.
    pub fn version_major_u16(&self) -> (r: u16)
        ensures
            r == from_le16(self.version_major@, 0),
    {
        read_le16(self.version_major.as_slice(), 0)
    }

    /// The minor version.
    pub fn version_minor_u16(&self) -> (r: u16)
        ensures
            r == from_le16(self.version_minor@, 0),
    {
        read_le16(self.version_minor.as_slice(), 0)
    }

    /// The group that holds a stripe's header.
    pub fn stripe_id_to_group(stripe_id: usize) -> (r: usize)
        ensures
            r == stripe_id as int / STRIPE_HEADERS_PER_SECTOR as int,
    {
        stripe_id / STRIPE_HEADERS_PER_SECTOR
    }

    /// The sector that holds a stripe's header.
    pub fn stripe_id_to_sector(stripe_id: usize) -> (r: u64)
        ensures
            r == sector_of(stripe_id as int),
    {
        (stripe_id / STRIPE_HEADERS_PER_SECTOR) as u64 + 1
    }
}

/// The sector that holds a stripe's header.
pub open spec fn sector_of(stripe_id: int) -> int {
    stripe_id / STRIPE_HEADERS_PER_SECTOR as int + 1
}

/// The header says the stripe's blocks were given back.
pub open spec fn header_evicted(header: u8) -> bool {
    header & metadata_flags::EVICTED != 0 && header & metadata_flags::FETCHED == 0
}

} // verus!
