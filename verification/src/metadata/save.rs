//! Turning metadata into the bytes of its file.

use vstd::prelude::*;
use vstd::slice::slice_subrange;
use crate::le::{from_le16, push_le64};
use crate::metadata::types::{
    group_count, group_headers, groups_image, lemma_sector_image_intact, sector_image,
    write_sector_with_crc32, METADATA_VERSION_MAJOR, METADATA_VERSION_MINOR, MetadataError,
    STRIPE_HEADERS_PER_SECTOR, UbiMetadata,
};
use crate::SECTOR_SIZE;

verus! {

/// What `n` zero bytes look like.
pub open spec fn zeros(n: nat) -> Seq<u8> {
    Seq::new(n, |i: int| 0u8)
}

/// Header sectors take up a whole sector each.
pub proof fn lemma_groups_image_len(headers: Seq<u8>, groups: nat)
    requires
        groups <= group_count(headers.len()),
    ensures
        groups_image(headers, groups).len() == groups * SECTOR_SIZE,
    decreases groups,
{
    if groups > 0 {
        lemma_groups_image_len(headers, (groups - 1) as nat);
        let part = group_headers(headers, groups - 1);
        assert(part.len() <= STRIPE_HEADERS_PER_SECTOR) by {
            assert((groups - 1) * STRIPE_HEADERS_PER_SECTOR <= headers.len());
        }
        lemma_sector_image_intact(part);
    }
}

impl UbiMetadata {
    /// The file's size in bytes.
    pub fn metadata_size(&self) -> (r: usize)
        requires
            self.size() <= usize::MAX,
        ensures
            r == self.size(),
    {
        let stripes: usize = self.stripe_headers.len();
        let whole: usize = stripes / STRIPE_HEADERS_PER_SECTOR;
        if stripes % STRIPE_HEADERS_PER_SECTOR == 0 {
            assert(group_count(stripes as nat) == whole);
            (whole + 1) * SECTOR_SIZE
        } else {
            assert(group_count(stripes as nat) == whole + 1);
            (whole + 2) * SECTOR_SIZE
        }
    }

    /// Sector 0 as it is written.
    pub fn write_header_sector(&self) -> (sector: Vec<u8>)
        ensures
            sector@ == sector_image(self.description()),
            sector@.len() == SECTOR_SIZE,
    {
        let mut out: Vec<u8> = Vec::new();
        let mut i: usize = 0;
        while i < 9
            invariant
                i <= 9,
                out@ == self.magic@.subrange(0, i as int),
            decreases 9 - i,
        {
            out.push(self.magic[i]);
            i = i + 1;
            assert(out@ =~= self.magic@.subrange(0, i as int));
        }
        out.push(self.version_major[0]);
        out.push(self.version_major[1]);
        out.push(self.version_minor[0]);
        out.push(self.version_minor[1]);
        out.push(self.stripe_sector_count_shift);
        assert(out@ =~= self.magic@ + self.version_major@ + self.version_minor@ + seq![
            self.stripe_sector_count_shift,
        ]);
        push_le64(&mut out, self.stripe_headers.len() as u64);
        assert(out@ =~= self.description());
        write_sector_with_crc32(out.as_slice())
    }

    /// The whole file.
    pub fn write_to_buf(&self) -> (out: Vec<u8>)
        requires
            self.size() <= usize::MAX,
        ensures
            out@ == self.image(),
            out@.len() == self.size(),
    {
        let mut out = self.write_header_sector();
        let count: usize = self.stripe_headers.len();
        let groups: usize = if count % STRIPE_HEADERS_PER_SECTOR == 0 {
            count / STRIPE_HEADERS_PER_SECTOR
        } else {
            count / STRIPE_HEADERS_PER_SECTOR + 1
        };
        assert(groups == group_count(count as nat));
        let ghost first = out@;
        let mut group: usize = 0;
        assert(out@ =~= first + groups_image(self.stripe_headers@, 0));
        while group < groups
            invariant
                group <= groups,
                count == self.stripe_headers@.len(),
                groups == group_count(count as nat),
                out@ == first + groups_image(self.stripe_headers@, group as nat),
            decreases groups - group,
        {
            let start: usize = group * STRIPE_HEADERS_PER_SECTOR;
            let end: usize = if count - start > STRIPE_HEADERS_PER_SECTOR {
                start + STRIPE_HEADERS_PER_SECTOR
            } else {
                count
            };
            let part = slice_subrange(self.stripe_headers.as_slice(), start, end);
            assert(part@ =~= group_headers(self.stripe_headers@, group as int));
            let mut sector = write_sector_with_crc32(part);
            out.append(&mut sector);
            group = group + 1;
            assert(out@ =~= first + groups_image(self.stripe_headers@, group as nat));
        }
        proof {
            lemma_groups_image_len(self.stripe_headers@, groups as nat);
            lemma_sector_image_intact(self.description());
        }
        out
    }

    /// What is written to a metadata device of `sector_count` sectors to save
    /// this metadata: the file, zero-filled to the device's size. The caller
    /// writes it at sector 0 and flushes.
    pub fn save_to_bdev(&self, sector_count: u64) -> (r: Result<Vec<u8>, MetadataError>)
        requires
            self.size() <= usize::MAX,
        ensures
            match r {
                Ok(bytes) => sector_count <= u32::MAX && sector_count * SECTOR_SIZE <= usize::MAX
                    && self.size() <= sector_count * SECTOR_SIZE && bytes@ == self.image() + zeros(
                    (sector_count * SECTOR_SIZE - self.size()) as nat,
                ),
                Err(MetadataError::SectorCountTooLarge) => sector_count > u32::MAX,
                Err(MetadataError::DeviceTooLarge) => sector_count <= u32::MAX && sector_count
                    * SECTOR_SIZE > usize::MAX,
                Err(MetadataError::ExceedsCapacity { size, capacity }) => sector_count <= u32::MAX
                    && sector_count * SECTOR_SIZE <= usize::MAX && size == self.size() && capacity
                    == sector_count * SECTOR_SIZE && size > capacity,
                Err(_) => false,
            },
    {
        let metadata_size = self.metadata_size();
        if sector_count > u32::MAX as u64 {
            return Err(MetadataError::SectorCountTooLarge);
        }
        let total: u64 = sector_count * (SECTOR_SIZE as u64);
        if total > usize::MAX as u64 {
            return Err(MetadataError::DeviceTooLarge);
        }
        let total_size: usize = total as usize;
        if metadata_size > total_size {
            return Err(
                MetadataError::ExceedsCapacity { size: metadata_size, capacity: total_size },
            );
        }
        let mut out = self.write_to_buf();
        while out.len() < total_size
            invariant
                self.size() <= out@.len() <= total_size,
                out@ == self.image() + zeros((out@.len() - self.size()) as nat),
                self.image().len() == self.size(),
            decreases total_size - out@.len(),
        {
            out.push(0);
            assert(out@ =~= self.image() + zeros((out@.len() - self.size()) as nat));
        }
        Ok(out)
    }

    /// The file already has the version this code writes.
    pub open spec fn version_current(self) -> bool {
        from_le16(self.version_major@, 0) == METADATA_VERSION_MAJOR && from_le16(
            self.version_minor@,
            0,
        ) == METADATA_VERSION_MINOR
    }

    /// Bring the version up to the one this code writes. Gives back sector 0
    /// to be written and flushed, or nothing when the version is current.
    /// Header sectors are untouched, so a binary that does not know EVICTED
    /// refuses the file rather than reading a hole as data.
    pub fn upgrade_version_sector(&mut self) -> (r: Option<Vec<u8>>)
        ensures
            final(self).magic == old(self).magic,
            final(self).stripe_sector_count_shift == old(self).stripe_sector_count_shift,
            final(self).stripe_headers@ == old(self).stripe_headers@,
            final(self).version_current(),
            from_le16(final(self).version_major@, 0) == 2,
            from_le16(final(self).version_minor@, 0) == 1,
            match r {
                None => old(self).version_current() && final(self).version_major == old(
                    self,
                ).version_major && final(self).version_minor == old(self).version_minor,
                Some(sector) => !old(self).version_current() && sector@ == sector_image(
                    final(self).description(),
                ),
            },
    {
        if self.version_major_u16() == METADATA_VERSION_MAJOR && self.version_minor_u16()
            == METADATA_VERSION_MINOR {
            return None;
        }
        self.version_major = [2, 0];
        self.version_minor = [1, 0];
        assert(2u8 as u16 | (0u8 as u16) << 8 == 2 && 1u8 as u16 | (0u8 as u16) << 8 == 1)
            by (bit_vector);
        Some(self.write_header_sector())
    }
}

} // verus!
