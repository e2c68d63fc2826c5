use ubiblk::metadata::metadata_flags;
use ubiblk::metadata::types::{
    UbiMetadata, DEFAULT_STRIPE_SECTOR_COUNT_SHIFT, METADATA_VERSION_MAJOR,
    METADATA_VERSION_MINOR, METADATA_VERSION_MINOR_MIN,
};
use ubiblk::SECTOR_SIZE;

const SECTORS: u64 = 1024 * 1024 / SECTOR_SIZE as u64;

fn load(bytes: &[u8]) -> Result<UbiMetadata, String> {
    UbiMetadata::load_from_bdev(SECTORS, bytes).map_err(|e| e.describe())
}

/// Metadata of a given version and the device that holds it.
fn save_with_version(major: u16, minor: u16) -> (Vec<u8>, UbiMetadata) {
    let mut metadata = UbiMetadata::new(11, 16, 16);
    metadata.version_major = major.to_le_bytes();
    metadata.version_minor = minor.to_le_bytes();
    let bytes = metadata.save_to_bdev(SECTORS).expect("save metadata");
    (bytes, metadata)
}

#[test]
fn loads_2_0() {
    let (device, saved) = save_with_version(2, 0);

    let loaded = load(&device).expect("2.0 must load");
    assert_eq!(loaded.version_major_u16(), 2);
    assert_eq!(loaded.version_minor_u16(), 0);
    assert_eq!(loaded.stripe_headers, saved.stripe_headers);
}

#[test]
fn loads_2_1() {
    let mut metadata = UbiMetadata::new(11, 16, 16);
    assert_eq!(metadata.version_minor_u16(), METADATA_VERSION_MINOR);
    metadata.set_stripe_header(
        3,
        metadata_flags::EVICTED | metadata_flags::IN_S3 | metadata_flags::HAS_SOURCE,
    );
    metadata.set_stripe_header(4, metadata_flags::PUSHED | metadata_flags::HAS_SOURCE);
    let device = metadata.save_to_bdev(SECTORS).expect("save metadata");

    let loaded = load(&device).expect("2.1 must load");
    assert_eq!(loaded.version_minor_u16(), 1);
    assert_eq!(loaded.stripe_headers, metadata.stripe_headers);
    assert_eq!(loaded.evicted_stripe_ids(), vec![3]);
}

#[test]
fn rejects_2_2() {
    let (device, _) = save_with_version(2, 2);

    let err = load(&device).unwrap_err();
    assert!(err.contains("Metadata version mismatch"), "{err}");
    assert!(err.contains("Expected: 2.0..=2.1"), "{err}");
}

#[test]
fn rejects_1_x() {
    let (device, _) = save_with_version(1, METADATA_VERSION_MINOR_MIN);

    let err = load(&device).unwrap_err();
    assert!(err.contains("Metadata version mismatch"), "{err}");
}

#[test]
fn rejects_reserved_bits() {
    let mut metadata = UbiMetadata::new(11, 16, 16);
    metadata.set_stripe_header(5, metadata_flags::HAS_SOURCE | 0b0100_0000);
    let device = metadata.save_to_bdev(SECTORS).expect("save metadata");

    let err = load(&device).unwrap_err();
    assert!(
        err.contains("stripe header 5 has reserved bits set"),
        "{err}"
    );
}

#[test]
fn upgrade_version_sector_rewrites_only_sector_0() {
    let (mut device, saved) = save_with_version(METADATA_VERSION_MAJOR, 0);
    let header_sectors_before = device[SECTOR_SIZE..].to_vec();

    let mut metadata = load(&device).expect("load");
    let sector = metadata.upgrade_version_sector().expect("upgrade");
    assert_eq!(sector.len(), SECTOR_SIZE, "one sector is written");
    device[..SECTOR_SIZE].copy_from_slice(&sector);

    let mut loaded = load(&device).expect("load upgraded");
    assert_eq!(loaded.version_major_u16(), METADATA_VERSION_MAJOR);
    assert_eq!(loaded.version_minor_u16(), METADATA_VERSION_MINOR);
    assert_eq!(loaded.stripe_headers, saved.stripe_headers);
    assert_eq!(
        device[SECTOR_SIZE..].to_vec(),
        header_sectors_before,
        "header sectors must not be touched"
    );

    // Already current: nothing to do, nothing written.
    assert!(loaded.upgrade_version_sector().is_none());
}

#[test]
fn test_loads_metadata() {
    let mut metadata = UbiMetadata::new(11, 16, 16);

    for (i, header) in metadata.stripe_headers.iter_mut().enumerate() {
        *header = (i as u8) % 5;
    }

    let device = metadata.save_to_bdev(SECTORS).expect("save metadata");

    let loaded_metadata = load(&device).expect("load metadata");

    assert_eq!(metadata.magic, loaded_metadata.magic);
    assert_eq!(metadata.version_major, loaded_metadata.version_major);
    assert_eq!(metadata.version_minor, loaded_metadata.version_minor);
    assert_eq!(
        metadata.stripe_sector_count_shift,
        loaded_metadata.stripe_sector_count_shift
    );
    assert_eq!(
        metadata.stripe_headers,
        loaded_metadata.stripe_headers[..metadata.stripe_headers.len()]
    );
}

#[test]
fn test_invalid_magic() {
    let mut metadata = UbiMetadata::new(11, 16, 16);
    metadata.magic.copy_from_slice(b"BAD_MAGIC");
    let device = metadata.save_to_bdev(SECTORS).expect("save metadata");

    let result = load(&device);
    assert!(result.is_err());
    assert!(result.unwrap_err().contains("Metadata magic mismatch"));
}

#[test]
fn test_invalid_version() {
    let mut metadata = UbiMetadata::new(11, 16, 16);
    metadata.version_minor = (METADATA_VERSION_MINOR + 1).to_le_bytes();
    let device = metadata.save_to_bdev(SECTORS).expect("save metadata");

    let result = load(&device);
    assert!(result.is_err() && result.unwrap_err().contains("Metadata version mismatch"));
}

#[test]
fn test_errors_if_metadata_too_large() {
    let metadata = UbiMetadata::new(DEFAULT_STRIPE_SECTOR_COUNT_SHIFT, 4, 16);
    let result = metadata.save_to_bdev(0);
    assert!(result.is_err());
    assert!(result
        .err()
        .unwrap()
        .describe()
        .contains("exceeds device capacity"));
}

#[test]
fn test_sector_count_exceeds_u32() {
    let metadata = UbiMetadata::new(DEFAULT_STRIPE_SECTOR_COUNT_SHIFT, 4, 16);
    let result = metadata.save_to_bdev(u64::from(u32::MAX) + 1);
    assert!(result.is_err());
    assert!(result
        .err()
        .unwrap()
        .describe()
        .contains("Device sector count exceeds u32"));
}

#[test]
fn a_flipped_bit_fails_the_checksum() {
    let metadata = UbiMetadata::new(11, 600, 16);
    let device = metadata.save_to_bdev(SECTORS).expect("save metadata");
    for at in [20, SECTOR_SIZE + 3, 2 * SECTOR_SIZE + 3] {
        let mut torn = device.clone();
        torn[at] ^= 1;
        let err = load(&torn).unwrap_err();
        assert!(err.contains("checksum"), "{err}");
    }
}

#[test]
fn a_truncated_file_is_refused() {
    let metadata = UbiMetadata::new(11, 600, 16);
    let device = metadata.save_to_bdev(SECTORS).expect("save metadata");
    assert!(load(&device[..100]).is_err());
    assert!(load(&device[..2 * SECTOR_SIZE]).is_err());
    assert!(load(&device[..3 * SECTOR_SIZE]).is_ok());
    assert_eq!(metadata.metadata_size(), 3 * SECTOR_SIZE);
}

#[test]
fn a_device_too_large_for_one_request_is_refused() {
    let err = UbiMetadata::load_from_bdev(u64::from(u32::MAX) + 1, &[]).unwrap_err();
    assert_eq!(err.describe(), "Metadata file too large");
}
