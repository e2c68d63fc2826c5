//! Reading metadata back from the bytes of its file.

use vstd::prelude::*;
use vstd::slice::slice_subrange;
use crate::crc::crc32;
use crate::le::{from_le16, from_le64, le64, lemma_le64_roundtrip, read_le16, read_le32, read_le64};
use crate::metadata::metadata_flags;
use crate::metadata::save::lemma_groups_image_len;
use crate::metadata::types::{
    group_count, group_headers, groups_image, lemma_sector_image_intact, magic_bytes, sector_image,
    sector_intact, METADATA_VERSION_MAJOR, METADATA_VERSION_MINOR, METADATA_VERSION_MINOR_MIN,
    MetadataError, STRIPE_HEADERS_PER_SECTOR, UbiMetadata,
};
use crate::SECTOR_SIZE;

verus! {

/// The sector of a file that holds group `group`.
pub open spec fn group_sector(bytes: Seq<u8>, group: int) -> Seq<u8> {
    bytes.subrange((group + 1) * SECTOR_SIZE, (group + 2) * SECTOR_SIZE)
}

/// The header byte of a stripe in a file.
pub open spec fn header_at(bytes: Seq<u8>, stripe_id: int) -> u8 {
    bytes[(stripe_id / STRIPE_HEADERS_PER_SECTOR as int + 1) * SECTOR_SIZE + stripe_id
        % STRIPE_HEADERS_PER_SECTOR as int]
}

/// The file starts with the magic string.
pub open spec fn magic_ok(bytes: Seq<u8>) -> bool {
    bytes.subrange(0, 9) == magic_bytes()
}

/// The file has a version this code reads.
pub open spec fn version_ok(bytes: Seq<u8>) -> bool {
    from_le16(bytes, 9) == METADATA_VERSION_MAJOR && METADATA_VERSION_MINOR_MIN <= from_le16(
        bytes,
        11,
    ) <= METADATA_VERSION_MINOR
}

/// The stripe count that sector 0 gives.
pub open spec fn stripe_count_field(bytes: Seq<u8>) -> nat {
    from_le64(bytes, 14) as nat
}

/// All header sectors are there.
pub open spec fn long_enough(bytes: Seq<u8>) -> bool {
    (1 + group_count(stripe_count_field(bytes))) * SECTOR_SIZE <= bytes.len()
}

/// Sector 0 is there, is ours, and describes what the file holds.
pub open spec fn described(bytes: Seq<u8>) -> bool {
    &&& bytes.len() >= SECTOR_SIZE
    &&& magic_ok(bytes)
    &&& version_ok(bytes)
    &&& sector_intact(bytes.subrange(0, SECTOR_SIZE as int))
    &&& bytes[13] < 64
    &&& long_enough(bytes)
}

/// Whether a sector's last four bytes hold the checksum of the others.
fn check_sector(sector: &[u8]) -> (ok: bool)
    requires
        sector@.len() == SECTOR_SIZE,
    ensures
        ok == sector_intact(sector@),
{
    let body = slice_subrange(sector, 0, STRIPE_HEADERS_PER_SECTOR);
    let empty: Vec<u8> = Vec::new();
    let crc = crc32(body, empty.as_slice());
    assert(body@ + empty@ =~= sector@.subrange(0, STRIPE_HEADERS_PER_SECTOR as int));
    read_le32(sector, STRIPE_HEADERS_PER_SECTOR) == crc
}

/// What reading a file of `bytes` comes to: what it describes, or the first
/// thing that is wrong with it.
pub open spec fn load_result(bytes: Seq<u8>, r: Result<UbiMetadata, MetadataError>) -> bool {
    match r {
        Ok(m) => {
            &&& described(bytes)
            &&& forall|g: int|
                0 <= g < group_count(stripe_count_field(bytes)) ==> sector_intact(
                    #[trigger] group_sector(bytes, g),
                )
            &&& m.magic@ == bytes.subrange(0, 9)
            &&& m.version_major@ == bytes.subrange(9, 11)
            &&& m.version_minor@ == bytes.subrange(11, 13)
            &&& m.stripe_sector_count_shift == bytes[13]
            &&& m.stripe_headers@ == Seq::new(
                stripe_count_field(bytes),
                |i: int| header_at(bytes, i),
            )
            &&& m.readable()
        },
        Err(MetadataError::TooShort { len }) => len == bytes.len() && len < SECTOR_SIZE,
        Err(MetadataError::MagicMismatch) => bytes.len() >= SECTOR_SIZE && !magic_ok(
            bytes,
        ),
        Err(MetadataError::VersionMismatch { major, minor }) => bytes.len()
            >= SECTOR_SIZE && magic_ok(bytes) && !version_ok(bytes) && major
            == from_le16(bytes, 9) && minor == from_le16(bytes, 11),
        Err(MetadataError::DescriptionChecksum) => bytes.len() >= SECTOR_SIZE && magic_ok(
            bytes,
        ) && version_ok(bytes) && !sector_intact(
            bytes.subrange(0, SECTOR_SIZE as int),
        ),
        Err(MetadataError::InvalidShift { shift }) => bytes.len() >= SECTOR_SIZE
            && magic_ok(bytes) && version_ok(bytes) && sector_intact(
            bytes.subrange(0, SECTOR_SIZE as int),
        ) && shift == bytes[13] && shift >= 64,
        Err(MetadataError::Truncated { stripe_count }) => bytes.len() >= SECTOR_SIZE
            && magic_ok(bytes) && version_ok(bytes) && sector_intact(
            bytes.subrange(0, SECTOR_SIZE as int),
        ) && bytes[13] < 64 && stripe_count == stripe_count_field(bytes)
            && !long_enough(bytes),
        Err(MetadataError::GroupChecksum { group }) => {
            &&& described(bytes)
            &&& group < group_count(stripe_count_field(bytes))
            &&& !sector_intact(group_sector(bytes, group as int))
            &&& forall|g: int|
                0 <= g < group ==> sector_intact(#[trigger] group_sector(bytes, g))
        },
        Err(MetadataError::ReservedBits { stripe_id }) => {
            &&& described(bytes)
            &&& forall|g: int|
                0 <= g < group_count(stripe_count_field(bytes)) ==> sector_intact(
                    #[trigger] group_sector(bytes, g),
                )
            &&& stripe_id < stripe_count_field(bytes)
            &&& header_at(bytes, stripe_id as int) & metadata_flags::RESERVED_MASK != 0
            &&& forall|i: int|
                0 <= i < stripe_id ==> #[trigger] header_at(bytes, i)
                    & metadata_flags::RESERVED_MASK == 0
        },
        Err(_) => false,
    }
}

impl UbiMetadata {
    /// Read a metadata file. Each error is the first that applies, in the
    /// order of the error's variants.
    pub fn from_bytes(bytes: &[u8]) -> (r: Result<UbiMetadata, MetadataError>)
        ensures
            load_result(bytes@, r),
    {
        if bytes.len() < SECTOR_SIZE {
            return Err(MetadataError::TooShort { len: bytes.len() });
        }
        let magic: [u8; 9] = [
            bytes[0],
            bytes[1],
            bytes[2],
            bytes[3],
            bytes[4],
            bytes[5],
            bytes[6],
            bytes[7],
            bytes[8],
        ];
        assert(magic@ =~= bytes@.subrange(0, 9));
        if !(magic[0] == 66 && magic[1] == 68 && magic[2] == 69 && magic[3] == 86 && magic[4] == 95
            && magic[5] == 85 && magic[6] == 66 && magic[7] == 73 && magic[8] == 0) {
            assert(magic@ != magic_bytes()) by {
                let m = magic_bytes();
                assert(m[0] == 66 && m[1] == 68 && m[2] == 69 && m[3] == 86 && m[4] == 95 && m[5]
                    == 85 && m[6] == 66 && m[7] == 73 && m[8] == 0);
            }
            return Err(MetadataError::MagicMismatch);
        }
        assert(magic@ =~= magic_bytes());
        let major = read_le16(bytes, 9);
        let minor = read_le16(bytes, 11);
        if major != METADATA_VERSION_MAJOR || minor < METADATA_VERSION_MINOR_MIN || minor
            > METADATA_VERSION_MINOR {
            return Err(MetadataError::VersionMismatch { major, minor });
        }
        if !check_sector(slice_subrange(bytes, 0, SECTOR_SIZE)) {
            return Err(MetadataError::DescriptionChecksum);
        }
        let shift = bytes[13];
        if shift >= 64 {
            return Err(MetadataError::InvalidShift { shift });
        }
        let stripe_count = read_le64(bytes, 14);
        let len: usize = bytes.len();
        let sectors: u64 = (len / SECTOR_SIZE) as u64;
        let whole: u64 = stripe_count / (STRIPE_HEADERS_PER_SECTOR as u64);
        let groups: u64 = if stripe_count % (STRIPE_HEADERS_PER_SECTOR as u64) == 0 {
            whole
        } else {
            whole + 1
        };
        assert(groups == group_count(stripe_count as nat));
        if groups + 1 > sectors {
            assert(!long_enough(bytes@));
            return Err(MetadataError::Truncated { stripe_count });
        }
        assert(long_enough(bytes@));
        assert(stripe_count <= usize::MAX);
        let count: usize = stripe_count as usize;
        let groups: usize = groups as usize;
        let mut group: usize = 0;
        while group < groups
            invariant
                group <= groups,
                groups == group_count(stripe_count_field(bytes@)),
                len == bytes@.len(),
                described(bytes@),
                forall|g: int|
                    0 <= g < group ==> sector_intact(#[trigger] group_sector(bytes@, g)),
            decreases groups - group,
        {
            assert((group + 2) * SECTOR_SIZE <= len);
            let start: usize = (group + 1) * SECTOR_SIZE;
            let sector = slice_subrange(bytes, start, start + SECTOR_SIZE);
            assert(sector@ =~= group_sector(bytes@, group as int));
            if !check_sector(sector) {
                return Err(MetadataError::GroupChecksum { group });
            }
            group = group + 1;
        }
        let mut stripe_headers: Vec<u8> = Vec::new();
        let mut i: usize = 0;
        while i < count
            invariant
                i <= count,
                count == stripe_count_field(bytes@),
                len == bytes@.len(),
                described(bytes@),
                forall|g: int|
                    0 <= g < group_count(stripe_count_field(bytes@)) ==> sector_intact(
                        #[trigger] group_sector(bytes@, g),
                    ),
                stripe_headers@ == Seq::new(i as nat, |i: int| header_at(bytes@, i)),
                forall|j: int|
                    0 <= j < i ==> #[trigger] header_at(bytes@, j) & metadata_flags::RESERVED_MASK
                        == 0,
            decreases count - i,
        {
            assert(i as int / STRIPE_HEADERS_PER_SECTOR as int + 1 <= group_count(count as nat));
            assert((i as int / STRIPE_HEADERS_PER_SECTOR as int + 2) * SECTOR_SIZE <= len);
            let at: usize = (i / STRIPE_HEADERS_PER_SECTOR + 1) * SECTOR_SIZE + i
                % STRIPE_HEADERS_PER_SECTOR;
            let header = bytes[at];
            assert(header == header_at(bytes@, i as int));
            if header & metadata_flags::RESERVED_MASK != 0 {
                return Err(MetadataError::ReservedBits { stripe_id: i });
            }
            stripe_headers.push(header);
            i = i + 1;
            assert(stripe_headers@ =~= Seq::new(i as nat, |i: int| header_at(bytes@, i)));
        }
        let m = UbiMetadata {
            magic,
            version_major: [bytes[9], bytes[10]],
            version_minor: [bytes[11], bytes[12]],
            stripe_sector_count_shift: shift,
            stripe_headers,
        };
        assert(m.version_major@ =~= bytes@.subrange(9, 11));
        assert(m.version_minor@ =~= bytes@.subrange(11, 13));
        assert forall|i: int| 0 <= i < m.stripe_headers@.len() implies #[trigger]
            m.stripe_headers@[i] & metadata_flags::RESERVED_MASK == 0 by {
            assert(m.stripe_headers@[i] == header_at(bytes@, i));
        }
        Ok(m)
    }

    /// What a metadata device of `sector_count` sectors holds, given all its
    /// bytes. A device that one request cannot cover is refused.
    pub fn load_from_bdev(sector_count: u64, bytes: &[u8]) -> (r: Result<
        UbiMetadata,
        MetadataError,
    >)
        ensures
            sector_count > u32::MAX ==> r is Err && r->Err_0 == MetadataError::FileTooLarge,
            sector_count <= u32::MAX ==> {
                &&& load_result(bytes@, r)
                &&& (r matches Ok(m) ==> loads(bytes@, m))
                &&& (r is Ok <==> loadable(bytes@))
            },
    {
        if sector_count > u32::MAX as u64 {
            return Err(MetadataError::FileTooLarge);
        }
        let r = UbiMetadata::from_bytes(bytes);
        proof {
            if r is Ok {
                assert forall|i: int| 0 <= i < stripe_count_field(bytes@) implies #[trigger]
                    header_at(bytes@, i) & metadata_flags::RESERVED_MASK == 0 by {
                    assert(r->Ok_0.stripe_headers@[i] == header_at(bytes@, i));
                }
            }
        }
        r
    }
}

/// The file passes every check.
pub open spec fn loadable(bytes: Seq<u8>) -> bool {
    &&& described(bytes)
    &&& forall|g: int|
        0 <= g < group_count(stripe_count_field(bytes)) ==> sector_intact(
            #[trigger] group_sector(bytes, g),
        )
    &&& forall|i: int|
        0 <= i < stripe_count_field(bytes) ==> #[trigger] header_at(bytes, i)
            & metadata_flags::RESERVED_MASK == 0
}

/// `m` is what the file says.
pub open spec fn loads(bytes: Seq<u8>, m: UbiMetadata) -> bool {
    &&& m.magic@ == bytes.subrange(0, 9)
    &&& m.version_major@ == bytes.subrange(9, 11)
    &&& m.version_minor@ == bytes.subrange(11, 13)
    &&& m.stripe_sector_count_shift == bytes[13]
    &&& m.stripe_headers@ == Seq::new(stripe_count_field(bytes), |i: int| header_at(bytes, i))
}

/// The sector of a saved file that holds group `group`.
pub proof fn lemma_groups_image_sector(headers: Seq<u8>, groups: nat, group: int)
    requires
        0 <= group < groups <= group_count(headers.len()),
    ensures
        groups_image(headers, groups).subrange(group * SECTOR_SIZE, (group + 1) * SECTOR_SIZE)
            == sector_image(group_headers(headers, group)),
    decreases groups,
{
    lemma_groups_image_len(headers, groups);
    lemma_groups_image_len(headers, (groups - 1) as nat);
    let part = group_headers(headers, groups - 1);
    assert((groups - 1) * STRIPE_HEADERS_PER_SECTOR <= headers.len());
    lemma_sector_image_intact(part);
    let all = groups_image(headers, groups);
    let front = groups_image(headers, (groups - 1) as nat);
    if group == groups - 1 {
        assert(all.subrange(group * SECTOR_SIZE, (group + 1) * SECTOR_SIZE) =~= sector_image(
            part,
        ));
    } else {
        lemma_groups_image_sector(headers, (groups - 1) as nat, group);
        assert(all.subrange(group * SECTOR_SIZE, (group + 1) * SECTOR_SIZE) =~= front.subrange(
            group * SECTOR_SIZE,
            (group + 1) * SECTOR_SIZE,
        ));
    }
}

/// What is loaded from a saved file is what was saved: the file passes every
/// check, and any metadata it loads as has the same magic, version, stripe
/// size and header bytes. Bytes behind the file do not matter.
pub proof fn law_load_gives_back_what_save_wrote(m: UbiMetadata, tail: Seq<u8>)
    requires
        m.readable(),
        m.stripe_headers@.len() <= u64::MAX,
    ensures
        loadable(m.image() + tail),
        forall|loaded: UbiMetadata|
            #[trigger] loads(m.image() + tail, loaded) ==> {
                &&& loaded.magic@ == m.magic@
                &&& loaded.version_major@ == m.version_major@
                &&& loaded.version_minor@ == m.version_minor@
                &&& loaded.stripe_sector_count_shift == m.stripe_sector_count_shift
                &&& loaded.stripe_headers@ == m.stripe_headers@
            },
{
    let bytes = m.image() + tail;
    let headers = m.stripe_headers@;
    let count = headers.len();
    let groups = group_count(count);
    let d = m.description();
    lemma_sector_image_intact(d);
    lemma_groups_image_len(headers, groups);
    assert(bytes.subrange(0, SECTOR_SIZE as int) =~= sector_image(d));
    assert(sector_image(d).subrange(0, d.len() as int) == d);
    assert forall|i: int| 0 <= i < d.len() implies bytes[i] == d[i] by {
        assert(sector_image(d).subrange(0, d.len() as int)[i] == d[i]);
        assert(bytes[i] == bytes.subrange(0, SECTOR_SIZE as int)[i]);
    }
    assert(bytes.subrange(0, 9) =~= m.magic@);
    assert(bytes.subrange(9, 11) =~= m.version_major@);
    assert(bytes.subrange(11, 13) =~= m.version_minor@);
    assert(bytes[13] == m.stripe_sector_count_shift);
    assert(bytes.subrange(14, 22) =~= le64(count as u64));
    lemma_le64_roundtrip(bytes, 14, count as u64);
    assert(stripe_count_field(bytes) == count);
    assert(bytes[9] == m.version_major@[0] && bytes[10] == m.version_major@[1]);
    assert(bytes[11] == m.version_minor@[0] && bytes[12] == m.version_minor@[1]);
    assert forall|g: int| 0 <= g < groups implies #[trigger] group_sector(bytes, g)
        == sector_image(group_headers(headers, g)) && sector_intact(group_sector(bytes, g)) by {
        lemma_groups_image_sector(headers, groups, g);
        assert(group_sector(bytes, g) =~= groups_image(headers, groups).subrange(
            g * SECTOR_SIZE,
            (g + 1) * SECTOR_SIZE,
        ));
        assert(g * STRIPE_HEADERS_PER_SECTOR <= headers.len());
        lemma_sector_image_intact(group_headers(headers, g));
    }
    assert forall|i: int| 0 <= i < count implies #[trigger] header_at(bytes, i) == headers[i] by {
        let g = i / STRIPE_HEADERS_PER_SECTOR as int;
        let k = i % STRIPE_HEADERS_PER_SECTOR as int;
        let part = group_headers(headers, g);
        assert(0 <= g < groups);
        assert(group_sector(bytes, g) == sector_image(part));
        assert(g * STRIPE_HEADERS_PER_SECTOR <= headers.len());
        lemma_sector_image_intact(part);
        assert(k < part.len());
        assert(part[k] == headers[i]);
        assert(sector_image(part).subrange(0, part.len() as int)[k] == part[k]);
        assert(group_sector(bytes, g)[k] == bytes[(g + 1) * SECTOR_SIZE + k]);
    }
    assert forall|loaded: UbiMetadata| #[trigger] loads(bytes, loaded) implies
        loaded.stripe_headers@ == headers by {
        assert(loaded.stripe_headers@ =~= headers);
    }
}

} // verus!
