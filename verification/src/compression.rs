//! How objects are compressed.

use vstd::prelude::*;
use vstd::slice::slice_subrange;
use crate::crypt::copy_bytes;
use crate::le::{from_le32, le32, lemma_le32_roundtrip, push_le32, read_le32};
use crate::metadata::save::zeros;
use crate::SECTOR_SIZE;

verus! {

/// Bytes of the size in front of a compressed frame.
pub const SIZE_LEN: usize = 4;

/// The frame zstd makes of `data` at `level`, if it makes one.
pub uninterp spec fn zstd_frame(data: Seq<u8>, level: i32) -> Option<Seq<u8>>;

/// What a zstd frame decompresses to, if it is one.
pub uninterp spec fn zstd_content(frame: Seq<u8>) -> Option<Seq<u8>>;

/// Calls `zstd::stream::encode_all`. Whether a frame comes back, and which,
/// depends on the data and the level alone; a frame decompresses to the data.
/// Which data and levels give one is left unsaid.
#[verifier::external_body]
fn zstd_compress(data: &[u8], level: i32) -> (r: Option<Vec<u8>>)
    ensures
        r is Some <==> zstd_frame(data@, level) is Some,
        r matches Some(v) ==> zstd_frame(data@, level) == Some(v@) && zstd_content(v@) == Some(
            data@,
        ),
{
    zstd::stream::encode_all(data, level).ok()
}

/// Calls `zstd::stream::decode_all`. What comes back, and whether anything
/// does, depends on the frame alone. Which bytes are a frame is left unsaid.
#[verifier::external_body]
fn zstd_decompress(frame: &[u8]) -> (r: Option<Vec<u8>>)
    ensures
        r is Some <==> zstd_content(frame@) is Some,
        r matches Some(v) ==> zstd_content(frame@) == Some(v@),
{
    zstd::stream::decode_all(frame).ok()
}

/// How objects are compressed.
#[derive(Debug, Clone, Copy, PartialEq, Eq, Structural)]
pub enum ArchiveCompressionAlgorithm {
    /// Not at all.
    Off,
    /// With zstd at some level.
    Zstd { level: i32 },
}

/// A frame with its size in front, zero-filled to whole sectors.
pub open spec fn padded_frame(frame: Seq<u8>) -> Seq<u8> {
    let sized = le32(frame.len() as u32) + frame;
    let rest = sized.len() % SECTOR_SIZE as nat;
    if rest == 0 {
        sized
    } else {
        sized + zeros((SECTOR_SIZE - rest) as nat)
    }
}

/// The frame inside a padded one, if the size in front fits.
pub open spec fn inner_frame(padded: Seq<u8>) -> Option<Seq<u8>> {
    if padded.len() < SIZE_LEN || from_le32(padded, 0) > padded.len() - SIZE_LEN {
        None
    } else {
        Some(padded.subrange(SIZE_LEN as int, SIZE_LEN + from_le32(padded, 0)))
    }
}

/// What a padded frame decompresses to.
pub open spec fn unpacked(padded: Seq<u8>) -> Option<Seq<u8>> {
    match inner_frame(padded) {
        None => None,
        Some(frame) => zstd_content(frame),
    }
}

/// The frame inside a padded one is the one that was padded.
pub proof fn lemma_padded_frame(frame: Seq<u8>)
    requires
        frame.len() <= u32::MAX,
    ensures
        inner_frame(padded_frame(frame)) == Some(frame),
        padded_frame(frame).len() % SECTOR_SIZE as nat == 0,
        padded_frame(frame).len() > 0,
        padded_frame(frame).len() <= frame.len() + SIZE_LEN + SECTOR_SIZE,
{
    let padded = padded_frame(frame);
    assert(padded.subrange(0, 4) =~= le32(frame.len() as u32));
    lemma_le32_roundtrip(padded, 0, frame.len() as u32);
    assert(padded.subrange(SIZE_LEN as int, SIZE_LEN + frame.len()) =~= frame);
}

/// Put a frame's size in front and fill it to whole sectors.
pub fn pad_frame(frame: &Vec<u8>) -> (r: Vec<u8>)
    requires
        frame@.len() <= u32::MAX,
    ensures
        r@ == padded_frame(frame@),
{
    let mut out: Vec<u8> = Vec::new();
    push_le32(&mut out, frame.len() as u32);
    let mut body = copy_bytes(frame.as_slice());
    out.append(&mut body);
    let ghost sized = out@;
    assert(sized =~= le32(frame@.len() as u32) + frame@);
    let rest: usize = out.len() % SECTOR_SIZE;
    if rest != 0 {
        let mut fill: usize = SECTOR_SIZE - rest;
        let total: usize = fill;
        while fill > 0
            invariant
                fill <= total,
                out@ == sized + zeros((total - fill) as nat),
            decreases fill,
        {
            out.push(0);
            fill = fill - 1;
            assert(out@ =~= sized + zeros((total - fill) as nat));
        }
    }
    out
}

/// The frame inside a padded one.
pub fn unpad_frame(padded: &Vec<u8>) -> (r: Option<Vec<u8>>)
    ensures
        match r {
            Some(frame) => inner_frame(padded@) == Some(frame@),
            None => inner_frame(padded@) is None,
        },
{
    if padded.len() < SIZE_LEN {
        return None;
    }
    let size: u32 = read_le32(padded.as_slice(), 0);
    if size as usize > padded.len() - SIZE_LEN {
        return None;
    }
    let frame = copy_bytes(
        slice_subrange(padded.as_slice(), SIZE_LEN, SIZE_LEN + size as usize),
    );
    assert(frame@ =~= padded@.subrange(SIZE_LEN as int, SIZE_LEN + from_le32(padded@, 0)));
    Some(frame)
}

impl ArchiveCompressionAlgorithm {
    /// What `data` is compressed to. Without compression this is the data; with
    /// zstd it is the padded frame, if zstd makes one and its size fits the
    /// size field.
    pub open spec fn packed(self, data: Seq<u8>) -> Option<Seq<u8>> {
        match self {
            ArchiveCompressionAlgorithm::Off => Some(data),
            ArchiveCompressionAlgorithm::Zstd { level } => match zstd_frame(data, level) {
                None => None,
                Some(frame) => if frame.len() <= u32::MAX {
                    Some(padded_frame(frame))
                } else {
                    None
                },
            },
        }
    }

    /// Compress `data`. A padded frame is whole sectors and decompresses to
    /// the data.
    pub fn compress(&self, data: &[u8]) -> (r: Option<Vec<u8>>)
        ensures
            match r {
                Some(v) => self.packed(data@) == Some(v@),
                None => self.packed(data@) is None,
            },
            *self is Off ==> r is Some && r->Some_0@ == data@,
            r is Some && *self is Zstd ==> r->Some_0@.len() % SECTOR_SIZE as nat == 0 && unpacked(
                r->Some_0@,
            ) == Some(data@),
    {
        match *self {
            ArchiveCompressionAlgorithm::Off => Some(copy_bytes(data)),
            ArchiveCompressionAlgorithm::Zstd { level } => match zstd_compress(data, level) {
                None => None,
                Some(frame) => {
                    if frame.len() > u32::MAX as usize {
                        return None;
                    }
                    proof {
                        lemma_padded_frame(frame@);
                    }
                    Some(pad_frame(&frame))
                },
            },
        }
    }

    /// Undo `compress`. With zstd, nothing comes back for bytes that are not
    /// a padded frame.
    pub fn decompress(&self, data: &Vec<u8>) -> (r: Option<Vec<u8>>)
        ensures
            match *self {
                ArchiveCompressionAlgorithm::Off => r is Some && r->Some_0@ == data@,
                ArchiveCompressionAlgorithm::Zstd { level } => match r {
                    Some(v) => unpacked(data@) == Some(v@),
                    None => unpacked(data@) is None,
                },
            },
    {
        match *self {
            ArchiveCompressionAlgorithm::Off => Some(copy_bytes(data.as_slice())),
            ArchiveCompressionAlgorithm::Zstd { level } => match unpad_frame(data) {
                None => None,
                Some(frame) => zstd_decompress(frame.as_slice()),
            },
        }
    }
}

} // verus!
