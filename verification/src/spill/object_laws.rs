//! Where things lie in an object, and which objects are taken.

use vstd::prelude::*;
use crate::compression::{padded_frame, zstd_content, zstd_frame, ArchiveCompressionAlgorithm};
use crate::crc::crc32_of;
use crate::crypt::{xts_decrypted, xts_encrypted};
use crate::le::{from_le16, le32, lemma_le32_roundtrip};
use crate::metadata::layout_laws::{
    eight_bytes, four_bytes, law_numbers_are_laid_out_lowest_digit_first, lemma_read_values,
};
use crate::spill::codec::{
    checked_object, law_header_roundtrip, object_bytes, spill_magic, SpillCodec, SpillError,
    SpillObjectHeader,
};

verus! {

/// An object begins with `UBISPILL`, its version and four reserved bytes.
pub open spec fn object_begins(object: Seq<u8>) -> bool {
    &&& object[0] == 85 && object[1] == 66 && object[2] == 73 && object[3] == 83
    &&& object[4] == 80 && object[5] == 73 && object[6] == 76 && object[7] == 76
    &&& object[8] == 1 && object[9] == 0
    &&& object[12] == 0 && object[13] == 0 && object[14] == 0 && object[15] == 0
}

/// How an object is laid out: thirty-six bytes of header with the flags, the
/// stripe, the length of the plain data, the length of what follows and a
/// checksum of all but itself, and then the payload as it is.
pub proof fn law_how_an_object_is_laid_out(
    flags: u16,
    stripe_index: u64,
    uncompressed_len: u32,
    payload: Seq<u8>,
)
    requires
        payload.len() <= u32::MAX,
    ensures
        ({
            let object = object_bytes(flags, stripe_index, uncompressed_len, payload);
            &&& object.len() == 36 + payload.len()
            &&& object_begins(object)
            &&& object[10] + 256 * object[11] == flags
            &&& eight_bytes(object, 16) == stripe_index
            &&& four_bytes(object, 24) == uncompressed_len
            &&& four_bytes(object, 28) == payload.len()
            &&& four_bytes(object, 32) == crc32_of(object.subrange(0, 32) + payload)
            &&& object.subrange(36, object.len() as int) == payload
        }),
{
    let unsummed = SpillObjectHeader {
        flags,
        stripe_index,
        uncompressed_len,
        payload_len: payload.len() as u32,
        crc32: 0,
    };
    let crc = crc32_of(unsummed.covered() + payload);
    let h = SpillObjectHeader { crc32: crc, ..unsummed };
    let object = object_bytes(flags, stripe_index, uncompressed_len, payload);
    assert(object == h.wire() + payload);
    law_header_roundtrip(h, payload);
    assert(SpillObjectHeader::read(object) == h);
    lemma_read_values(object, 10);
    lemma_read_values(object, 16);
    lemma_read_values(object, 24);
    lemma_read_values(object, 28);
    lemma_read_values(object, 32);
    law_numbers_are_laid_out_lowest_digit_first(1, 0, 0);
    assert(object.subrange(0, 32) =~= unsummed.covered());
    assert(object.subrange(36, object.len() as int) =~= payload);
}

/// The object may be taken for stripe `index` by a device with a buffer of
/// `capacity` bytes: it is laid out as objects are, is whole and unharmed, is
/// that stripe's, knows no other flags, fits the buffer in whole sectors, and is
/// encrypted, in whole sectors, exactly if the device has a key.
pub open spec fn sound_object(
    index: usize,
    object: Seq<u8>,
    capacity: usize,
    keyed: bool,
) -> bool {
    let len = four_bytes(object, 24);
    &&& object.len() >= 36
    &&& object_begins(object)
    &&& object[10] < 4 && object[11] == 0
    &&& eight_bytes(object, 16) == index
    &&& object.len() == 36 + four_bytes(object, 28)
    &&& four_bytes(object, 32) == crc32_of(
        object.subrange(0, 32) + object.subrange(36, object.len() as int),
    )
    &&& 0 < len <= capacity && len % 512 == 0
    &&& (object[10] == 2 || object[10] == 3) == keyed
    &&& keyed ==> (object.len() - 36) % 512 == 0
}

/// The flags that are known, by their values.
proof fn lemma_flag_values(flags: u16)
    ensures
        (flags & !0x3u16 == 0) == (flags < 4),
        flags < 4 ==> (flags & 1 != 0) == (flags == 1 || flags == 3),
        flags < 4 ==> (flags & 2 != 0) == (flags == 2 || flags == 3),
{
    assert((flags & !0x3u16 == 0) == (flags < 4) && (flags < 4 ==> (flags & 1 != 0) == (flags == 1
        || flags == 3) && (flags & 2 != 0) == (flags == 2 || flags == 3))) by (bit_vector);
}

/// An object is taken exactly if it is sound, and what its header says is what
/// stands there.
pub proof fn law_an_object_is_taken_exactly_if_it_is_sound(
    index: usize,
    object: Seq<u8>,
    capacity: usize,
    keyed: bool,
)
    requires
        object.len() <= usize::MAX,
    ensures
        checked_object(index, object, capacity, keyed) is Ok <==> sound_object(
            index,
            object,
            capacity,
            keyed,
        ),
        checked_object(index, object, capacity, keyed) matches Ok(h) ==> {
            &&& h.stripe_index == index
            &&& h.uncompressed_len == four_bytes(object, 24)
            &&& h.payload_len == object.len() - 36
            &&& h.flags == object[10]
        },
{
    lemma_read_values(object, 8);
    lemma_read_values(object, 10);
    lemma_read_values(object, 12);
    lemma_read_values(object, 16);
    lemma_read_values(object, 24);
    lemma_read_values(object, 28);
    lemma_read_values(object, 32);
    if object.len() >= 36 {
        let magic = object.subrange(0, 8);
        let expected = spill_magic();
        assert(expected[0] == 85 && expected[1] == 66 && expected[2] == 73 && expected[3] == 83
            && expected[4] == 80 && expected[5] == 73 && expected[6] == 76 && expected[7] == 76);
        assert(magic[0] == object[0] && magic[1] == object[1] && magic[2] == object[2] && magic[3]
            == object[3] && magic[4] == object[4] && magic[5] == object[5] && magic[6] == object[6]
            && magic[7] == object[7]);
        if object_begins(object) {
            assert(magic =~= expected);
        }
        let flags = from_le16(object, 10);
        lemma_flag_values(flags);
    }
}

/// What is uploaded of a stripe: an object of that stripe and of the data's
/// length, marked as compressed or encrypted exactly if it is. Its payload is
/// the data, or its frame; under a key that is encrypted with the stripe's first
/// sector as the number of the first.
pub proof fn law_what_an_object_of_a_stripe_holds(
    codec: SpillCodec,
    index: usize,
    data: Seq<u8>,
    object: Seq<u8>,
)
    requires
        codec.encoded(index, data) == Ok::<Seq<u8>, SpillError>(object),
        codec.addresses(index),
    ensures
        data.len() > 0,
        data.len() % 512 == 0,
        eight_bytes(object, 16) == index,
        four_bytes(object, 24) == data.len(),
        object[10] == (if codec.compression is Zstd {
            1int
        } else {
            0
        }) + (if codec.cipher is Some {
            2int
        } else {
            0
        }),
        object[11] == 0,
        ({
            let payload = object.subrange(36, object.len() as int);
            let packed = match codec.compression {
                ArchiveCompressionAlgorithm::Off => data,
                ArchiveCompressionAlgorithm::Zstd { level } => padded_frame(
                    zstd_frame(data, level)->Some_0,
                ),
            };
            payload == match codec.cipher {
                None => packed,
                Some(cipher) => xts_encrypted(
                    cipher.key1@,
                    cipher.key2@,
                    packed,
                    512,
                    (index * codec.stripe_sector_count) as u64,
                ),
            }
        }),
{
    let packed = codec.compression.packed(data)->Some_0;
    let body = codec.sealed(index, packed);
    law_how_an_object_is_laid_out(codec.flags(), index as u64, data.len() as u32, body);
    codec.lemma_flags();
    let flags = codec.flags();
    lemma_flag_values(flags);
}

/// A frame is stored with its length in front, in four bytes, and zeros behind
/// it up to the next whole sector.
pub proof fn law_a_frame_is_padded_to_whole_sectors(frame: Seq<u8>)
    requires
        frame.len() <= u32::MAX,
    ensures
        ({
            let padded = padded_frame(frame);
            &&& padded.len() % 512 == 0
            &&& 4 + frame.len() <= padded.len() < 4 + frame.len() + 512
            &&& four_bytes(padded, 0) == frame.len()
            &&& padded.subrange(4, 4 + frame.len() as int) == frame
            &&& forall|i: int| 4 + frame.len() <= i < padded.len() ==> (#[trigger] padded[i]) == 0
        }),
{
    let padded = padded_frame(frame);
    let size = frame.len() as u32;
    assert(padded.subrange(0, 4) =~= le32(size));
    lemma_le32_roundtrip(padded, 0, size);
    lemma_read_values(padded, 0);
    assert(padded.subrange(4, 4 + frame.len() as int) =~= frame);
}

/// What a sound object decodes to: its payload, decrypted under a key, and taken
/// out of its frame if it says that it is compressed, provided that this is as
/// long as the object says.
pub proof fn law_what_an_object_decodes_to(
    codec: SpillCodec,
    index: usize,
    object: Seq<u8>,
    capacity: usize,
)
    requires
        object.len() <= usize::MAX,
        sound_object(index, object, capacity, codec.cipher is Some),
    ensures
        ({
            let payload = object.subrange(36, object.len() as int);
            let inner = match codec.cipher {
                None => payload,
                Some(cipher) => xts_decrypted(
                    cipher.key1@,
                    cipher.key2@,
                    payload,
                    512,
                    (index * codec.stripe_sector_count) as u64,
                ),
            };
            let r = codec.decoded(index, object, capacity);
            let compressed = object[10] == 1 || object[10] == 3;
            &&& !compressed ==> r is Ok == (inner.len() == four_bytes(object, 24))
            &&& !compressed && r is Ok ==> r->Ok_0 == inner
            &&& compressed && r is Ok ==> {
                let size = four_bytes(inner, 0);
                &&& 4 + size <= inner.len()
                &&& zstd_content(inner.subrange(4, 4 + size)) == Some(r->Ok_0)
                &&& r->Ok_0.len() == four_bytes(object, 24)
            }
        }),
{
    law_an_object_is_taken_exactly_if_it_is_sound(index, object, capacity, codec.cipher is Some);
    let h = checked_object(index, object, capacity, codec.cipher is Some)->Ok_0;
    let flags = h.flags;
    lemma_flag_values(flags);
    let payload = object.subrange(36, object.len() as int);
    let inner = match codec.cipher {
        None => payload,
        Some(cipher) => xts_decrypted(
            cipher.key1@,
            cipher.key2@,
            payload,
            512,
            (index * codec.stripe_sector_count) as u64,
        ),
    };
    lemma_read_values(inner, 0);
}

} // verus!
