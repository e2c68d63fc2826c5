//! Where things lie in a metadata file.

use vstd::prelude::*;
use crate::crc::crc32_of;
use crate::le::{from_le16, from_le32, from_le64, le16, le32, le64, lemma_le64_roundtrip};
use crate::metadata::load::{
    group_sector, header_at, lemma_groups_image_sector, load_result, stripe_count_field,
};
use crate::metadata::save::lemma_groups_image_len;
use crate::metadata::types::{
    group_count, group_headers, groups_image, lemma_sector_image_intact, magic_bytes, sector_image,
    sector_of, MetadataError, STRIPE_HEADERS_PER_SECTOR, UbiMetadata,
};
use crate::SECTOR_SIZE;

verus! {

/// Numbers are laid out in base 256, the lowest digit first, and read back so.
pub proof fn law_numbers_are_laid_out_lowest_digit_first(a: u16, b: u32, c: u64)
    ensures
        le16(a) == seq![(a % 256) as u8, (a / 256) as u8],
        le32(b) == seq![
            (b % 256) as u8,
            (b / 256 % 256) as u8,
            (b / 65536 % 256) as u8,
            (b / 16777216) as u8,
        ],
        le64(c) == seq![
            (c % 256) as u8,
            (c / 256 % 256) as u8,
            (c / 65536 % 256) as u8,
            (c / 16777216 % 256) as u8,
            (c / 4294967296 % 256) as u8,
            (c / 1099511627776 % 256) as u8,
            (c / 281474976710656 % 256) as u8,
            (c / 72057594037927936) as u8,
        ],
{
    assert(a & 0xff == a % 256 && (a >> 8) & 0xff == a / 256 && b & 0xff == b % 256 && (b >> 8)
        & 0xff == b / 256 % 256 && (b >> 16) & 0xff == b / 65536 % 256 && (b >> 24) & 0xff == b
        / 16777216 && c & 0xff == c % 256 && (c >> 8) & 0xff == c / 256 % 256 && (c >> 16) & 0xff
        == c / 65536 % 256 && (c >> 24) & 0xff == c / 16777216 % 256 && (c >> 32) & 0xff == c
        / 4294967296 % 256 && (c >> 40) & 0xff == c / 1099511627776 % 256 && (c >> 48) & 0xff == c
        / 281474976710656 % 256 && (c >> 56) & 0xff == c / 72057594037927936) by (bit_vector);
}

/// The value of eight bytes, the lowest digit first.
pub open spec fn eight_bytes(s: Seq<u8>, at: int) -> int {
    s[at] + 256 * s[at + 1] + 65536 * s[at + 2] + 16777216 * s[at + 3] + 4294967296 * s[at + 4]
        + 1099511627776 * s[at + 5] + 281474976710656 * s[at + 6] + 72057594037927936 * s[at + 7]
}

/// The value of four bytes, the lowest digit first.
pub open spec fn four_bytes(s: Seq<u8>, at: int) -> int {
    s[at] + 256 * s[at + 1] + 65536 * s[at + 2] + 16777216 * s[at + 3]
}

/// Reading a number gives the value of its bytes.
pub proof fn lemma_read_values(s: Seq<u8>, at: int)
    ensures
        from_le16(s, at) == s[at] + 256 * s[at + 1],
        from_le32(s, at) == four_bytes(s, at),
        from_le64(s, at) == eight_bytes(s, at),
{
    let (a, b, c, d) = (s[at], s[at + 1], s[at + 2], s[at + 3]);
    let (e, f, g, h) = (s[at + 4], s[at + 5], s[at + 6], s[at + 7]);
    assert((a as u16) | ((b as u16) << 8) == a + 256 * b && (a as u32) | ((b as u32) << 8) | ((
    c as u32) << 16) | ((d as u32) << 24) == a + 256 * b + 65536 * c + 16777216 * d && (a as u64)
        | ((b as u64) << 8) | ((c as u64) << 16) | ((d as u64) << 24) | ((e as u64) << 32) | ((
    f as u64) << 40) | ((g as u64) << 48) | ((h as u64) << 56) == a + 256 * b + 65536 * c + 16777216
        * d + 4294967296 * e + 1099511627776 * f + 281474976710656 * g + 72057594037927936 * h)
        by (bit_vector);
}

/// The last four bytes of the sector at `at` hold the checksum of the 508
/// before them.
pub open spec fn checksummed(bytes: Seq<u8>, at: int) -> bool {
    four_bytes(bytes, at + 508) == crc32_of(bytes.subrange(at, at + 508))
}

/// How a saved file is laid out: a sector with the magic string, the version,
/// the stripe size and the number of stripes, then the header bytes, 508 to a
/// sector, each sector with its checksum; no sector more than that takes.
pub proof fn law_how_a_saved_file_is_laid_out(m: UbiMetadata)
    requires
        m.stripe_headers@.len() <= u64::MAX,
    ensures
        ({
            let file = m.image();
            let n = m.stripe_headers@.len() as int;
            let sectors = file.len() / 512;
            &&& file.len() == m.size()
            &&& file.len() % 512 == 0
            &&& n <= 508 * (sectors - 1)
            &&& n > 0 ==> 508 * (sectors - 2) < n
            &&& n == 0 ==> sectors == 1
            &&& forall|i: int| 0 <= i < 9 ==> #[trigger] file[i] == m.magic@[i]
            &&& file[9] == m.version_major@[0] && file[10] == m.version_major@[1]
            &&& file[11] == m.version_minor@[0] && file[12] == m.version_minor@[1]
            &&& file[13] == m.stripe_sector_count_shift
            &&& eight_bytes(file, 14) == n
            &&& checksummed(file, 0)
            &&& forall|i: int|
                0 <= i < n ==> (#[trigger] m.stripe_headers@[i]) == file[(1 + i / 508) * 512 + i
                    % 508]
        }),
{
    let file = m.image();
    let headers = m.stripe_headers@;
    let n = headers.len() as int;
    let groups = group_count(headers.len());
    let d = m.description();
    lemma_sector_image_intact(d);
    lemma_groups_image_len(headers, groups);
    let first = sector_image(d);
    let rest = groups_image(headers, groups);
    assert(file == first + rest);
    assert(first.len() == 512);
    assert(first.subrange(0, d.len() as int) == d);
    assert forall|i: int| 0 <= i < d.len() implies file[i] == d[i] by {
        assert(first.subrange(0, d.len() as int)[i] == d[i]);
    }
    assert forall|i: int| 0 <= i < 9 implies #[trigger] file[i] == m.magic@[i] by {
        assert(d[i] == m.magic@[i]);
    }
    assert(d[9] == m.version_major@[0] && d[10] == m.version_major@[1] && d[11]
        == m.version_minor@[0] && d[12] == m.version_minor@[1] && d[13]
        == m.stripe_sector_count_shift);
    let count = n as u64;
    assert(file.subrange(14, 22) =~= le64(count)) by {
        assert(d.subrange(14, 22) =~= le64(count));
        assert(file.subrange(14, 22) =~= d.subrange(14, 22));
    }
    lemma_le64_roundtrip(file, 14, count);
    lemma_read_values(file, 14);
    lemma_read_values(first, 508);
    assert(file.subrange(0, 508) =~= first.subrange(0, 508));
    assert forall|i: int| 0 <= i < n implies (#[trigger] headers[i]) == file[(1 + i / 508) * 512 + i
        % 508] by {
        let g = i / 508;
        lemma_groups_image_sector(headers, groups, g);
        let part = group_headers(headers, g);
        lemma_sector_image_intact(part);
        assert(part[i % 508] == headers[i]);
        assert(sector_image(part)[i % 508] == part[i % 508]);
        assert(rest.subrange(g * 512, (g + 1) * 512)[i % 508] == rest[g * 512 + i % 508]);
    }
}

/// The file can be read: it begins with the magic string, is of a version that
/// is known and of a stripe size that fits, is as long as its stripe count asks,
/// its checksums hold, and no header byte has a reserved bit.
pub open spec fn sound_file(bytes: Seq<u8>) -> bool {
    let n = eight_bytes(bytes, 14);
    &&& bytes.len() >= 512
    &&& bytes[0] == 66 && bytes[1] == 68 && bytes[2] == 69 && bytes[3] == 86 && bytes[4] == 95
    &&& bytes[5] == 85 && bytes[6] == 66 && bytes[7] == 73 && bytes[8] == 0
    &&& bytes[9] == 2 && bytes[10] == 0
    &&& bytes[11] <= 1 && bytes[12] == 0
    &&& bytes[13] < 64
    &&& checksummed(bytes, 0)
    &&& bytes.len() >= 512 * (1 + (n + 507) / 508)
    &&& forall|g: int| 0 <= g < (n + 507) / 508 ==> #[trigger] checksummed(bytes, 512 * (1 + g))
    &&& forall|i: int|
        0 <= i < n ==> #[trigger] bytes[(1 + i / 508) * 512 + i % 508] & 0xc0 == 0
}

/// A file is read exactly if it is sound, and what is read of it is what it
/// says.
pub proof fn law_a_file_is_read_exactly_if_it_is_sound(
    bytes: Seq<u8>,
    r: Result<UbiMetadata, MetadataError>,
)
    requires
        load_result(bytes, r),
    ensures
        r is Ok <==> sound_file(bytes),
        r matches Ok(m) ==> {
            &&& m.stripe_headers@.len() == eight_bytes(bytes, 14)
            &&& m.stripe_sector_count_shift == bytes[13]
            &&& forall|i: int|
                0 <= i < m.stripe_headers@.len() ==> (#[trigger] m.stripe_headers@[i]) == bytes[(1
                    + i / 508) * 512 + i % 508]
        },
{
    lemma_read_values(bytes, 9);
    lemma_read_values(bytes, 11);
    lemma_read_values(bytes, 14);
    let n = eight_bytes(bytes, 14);
    if bytes.len() >= 512 {
        let first = bytes.subrange(0, SECTOR_SIZE as int);
        lemma_read_values(first, 508);
        assert(first.subrange(0, 508) =~= bytes.subrange(0, 508));
        assert(bytes.subrange(0, 9) == magic_bytes() <==> bytes[0] == 66 && bytes[1] == 68
            && bytes[2] == 69 && bytes[3] == 86 && bytes[4] == 95 && bytes[5] == 85 && bytes[6]
            == 66 && bytes[7] == 73 && bytes[8] == 0) by {
            let magic = bytes.subrange(0, 9);
            let expected = magic_bytes();
            assert(expected[0] == 66 && expected[1] == 68 && expected[2] == 69 && expected[3] == 86
                && expected[4] == 95 && expected[5] == 85 && expected[6] == 66 && expected[7] == 73
                && expected[8] == 0);
            assert(magic[0] == bytes[0] && magic[1] == bytes[1] && magic[2] == bytes[2] && magic[3]
                == bytes[3] && magic[4] == bytes[4] && magic[5] == bytes[5] && magic[6] == bytes[6]
                && magic[7] == bytes[7] && magic[8] == bytes[8]);
            if bytes[0] == 66 && bytes[1] == 68 && bytes[2] == 69 && bytes[3] == 86 && bytes[4]
                == 95 && bytes[5] == 85 && bytes[6] == 66 && bytes[7] == 73 && bytes[8] == 0 {
                assert(magic =~= expected);
            }
        }
        if bytes.len() >= 512 * (1 + (n + 507) / 508) {
            assert forall|g: int| 0 <= g < (n + 507) / 508 implies #[trigger] checksummed(
                bytes,
                512 * (1 + g),
            ) == crate::metadata::types::sector_intact(group_sector(bytes, g)) by {
                let sector = group_sector(bytes, g);
                lemma_read_values(sector, 508);
                assert(sector.subrange(0, 508) =~= bytes.subrange(
                    512 * (1 + g),
                    512 * (1 + g) + 508,
                ));
            }
        }
    }
    if r is Ok {
        let m = r->Ok_0;
        assert forall|i: int| 0 <= i < n implies #[trigger] bytes[(1 + i / 508) * 512 + i % 508]
            & 0xc0 == 0 by {
            assert(m.stripe_headers@[i] == header_at(bytes, i));
        }
        assert forall|g: int| 0 <= g < (n + 507) / 508 implies #[trigger] checksummed(
            bytes,
            512 * (1 + g),
        ) by {
            assert(crate::metadata::types::sector_intact(group_sector(bytes, g)));
        }
    }
    if sound_file(bytes) && r is Err {
        assert forall|g: int| 0 <= g < (n + 507) / 508 implies crate::metadata::types::sector_intact(
            #[trigger] group_sector(bytes, g),
        ) by {
            assert(checksummed(bytes, 512 * (1 + g)));
        }
        assert forall|i: int| 0 <= i < stripe_count_field(bytes) implies #[trigger] header_at(
            bytes,
            i,
        ) & 0xc0 == 0 by {
            assert(bytes[(1 + i / 508) * 512 + i % 508] & 0xc0 == 0);
        }
    }
}

/// A stripe's header byte lies in the sector behind sector 0 that its number
/// divided by 508 gives, at the remainder; that sector, as written, holds every
/// header byte of its group there, and its checksum.
pub proof fn law_a_header_sector_holds_its_group(headers: Seq<u8>, id: int)
    requires
        0 <= id < headers.len(),
    ensures
        ({
            let g = id / 508;
            let sector = sector_image(group_headers(headers, g));
            &&& sector_of(id) == 1 + g
            &&& sector.len() == 512
            &&& checksummed(sector, 0)
            &&& forall|k: int|
                0 <= k < 508 ==> (#[trigger] sector[k]) == if g * 508 + k < headers.len() {
                    headers[g * 508 + k]
                } else {
                    0u8
                }
        }),
{
    let g = id / 508;
    let part = group_headers(headers, g);
    let sector = sector_image(part);
    lemma_sector_image_intact(part);
    lemma_read_values(sector, 508);
    assert(part.len() <= STRIPE_HEADERS_PER_SECTOR);
    assert forall|k: int| 0 <= k < 508 implies (#[trigger] sector[k]) == if g * 508 + k
        < headers.len() {
        headers[g * 508 + k]
    } else {
        0u8
    } by {
        if k < part.len() {
            assert(part[k] == headers[g * 508 + k]);
        }
    }
}

} // verus!
