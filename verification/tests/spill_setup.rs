use ubiblk::compression::ArchiveCompressionAlgorithm;
use ubiblk::config::{ArchiveStorageConfig, DeviceSection, ResolvedSecret, SpillSection};
use ubiblk::spill::codec::{
    spill_kek, unwrap_spill_key, SpillCodec, SpillObjectHeader, SPILL_HEADER_LEN,
};
use ubiblk::spill::evictor_model::OnFull;
use ubiblk::spill::spill_flags;
use ubiblk::spill_setup::{
    build_spill_runtime, check_spill_preconditions, get_resolved_secret, init_spill_key,
    preallocation_len, spill_key_wanted, spill_summary, SpillRuntime, SWEEP_BATCH,
};
use ubiblk::SECTOR_SIZE;

const STRIPE_SECTORS: u64 = 8;
const KEK_ID: &str = "spill-kek";

fn kek_secrets(kek_bytes: [u8; 32]) -> Vec<ResolvedSecret> {
    vec![ResolvedSecret {
        name: KEK_ID.to_string(),
        bytes: kek_bytes.to_vec(),
    }]
}

fn fs_store(path: &str) -> ArchiveStorageConfig {
    ArchiveStorageConfig::Filesystem {
        path: path.to_string(),
    }
}

fn section(store: Option<ArchiveStorageConfig>, kek: bool) -> SpillSection {
    SpillSection {
        max_local_bytes: 1 << 20,
        low_water_bytes: 4096,
        hard_margin_bytes: 8192,
        min_free_bytes: 16384,
        on_full: OnFull::Fail,
        clean_eviction: store.is_none(),
        max_concurrent_evictions: 2,
        compression: ArchiveCompressionAlgorithm::Off,
        kek: kek.then(|| KEK_ID.to_string()),
        store,
    }
}

fn device() -> DeviceSection {
    DeviceSection {
        data_path: "/disks/device.raw".to_string(),
        metadata_path: None,
        device_id: "fork-1".to_string(),
    }
}

fn build(
    section: &SpillSection,
    secrets: &Vec<ResolvedSecret>,
    key_object: Option<Vec<u8>>,
) -> Result<SpillRuntime, String> {
    build_spill_runtime(
        &device(),
        section,
        STRIPE_SECTORS,
        64,
        4096,
        secrets,
        &key_object,
    )
    .map_err(|e| e.describe(&device()))
}

fn encoded_flags(codec: &SpillCodec) -> u16 {
    let data = vec![0x5Au8; STRIPE_SECTORS as usize * SECTOR_SIZE];
    let object = codec.encode(3, &data).unwrap();
    SpillObjectHeader::decode(&object[..SPILL_HEADER_LEN])
        .unwrap()
        .flags
}

#[test]
fn preconditions_refuse_non_regular_data_path() {
    let err = check_spill_preconditions(false)
        .unwrap_err()
        .describe(&device());
    assert!(err.contains("regular file"), "{err}");
    assert!(err.contains("/disks/device.raw"), "{err}");
}

#[test]
fn preconditions_accept_a_regular_file() {
    check_spill_preconditions(true).unwrap();
}

#[test]
fn a_metadata_size_fits_a_file_offset() {
    assert_eq!(preallocation_len(4096), Ok(4096));
    let err = preallocation_len(usize::MAX).unwrap_err();
    assert!(err.describe(&device()).contains("does not fit an off_t"));
}

#[test]
fn build_spill_runtime_without_store_is_clean_only() {
    let section = section(None, false);

    let runtime = build(&section, &Vec::new(), None).unwrap();

    assert!(runtime.store_budget.is_none());
    assert!(runtime.store_workers(4).is_none());
    assert_eq!(runtime.device_id, "fork-1");
    assert_eq!(runtime.cfg.data_path, "/disks/device.raw");
    assert_eq!(runtime.cfg.stripe_sector_count, STRIPE_SECTORS);
    assert_eq!(runtime.cfg.target_sector_count, 64);
    assert_eq!(runtime.cfg.max_local_bytes, 1 << 20);
    assert_eq!(runtime.cfg.low_water_bytes, 4096);
    assert_eq!(runtime.cfg.hard_margin_bytes, 8192);
    assert_eq!(runtime.cfg.min_free_bytes, 16384);
    assert!(runtime.cfg.clean_eviction);
    assert_eq!(runtime.cfg.on_full, OnFull::Fail);
    assert_eq!(runtime.cfg.max_concurrent_evictions, 2);
    assert_eq!(runtime.cfg.sweep_batch, SWEEP_BATCH);
    assert_eq!(runtime.cfg.alignment, 4096);
    assert_eq!(encoded_flags(&runtime.codec) & spill_flags::XTS, 0);
}

#[test]
fn build_spill_runtime_with_store_builds_a_store_per_call() {
    let runtime = build(&section(Some(fs_store("/spill")), false), &Vec::new(), None).unwrap();
    assert_eq!(runtime.store_workers(4), Some(1), "one connection to files");
    assert!(!runtime.cfg.clean_eviction);

    let s3 = ArchiveStorageConfig::S3 {
        bucket: "forks".to_string(),
        prefix: None,
        region: None,
        connections: 3,
    };
    let runtime = build(&section(Some(s3), false), &Vec::new(), None).unwrap();
    assert_eq!(runtime.store_workers(4), Some(3), "no more than the budget");
    assert_eq!(runtime.store_workers(2), Some(2));
    assert_eq!(runtime.store_workers(0), Some(1), "at least one");
}

#[test]
fn build_spill_runtime_with_kek_unwraps_key() {
    let secrets = kek_secrets([7u8; 32]);
    let section = section(Some(fs_store("/spill")), true);
    let key = init_spill_key(&section, "fork-1", &secrets)
        .unwrap()
        .expect("a key object");
    assert_eq!(key.name, "fork-1/spill-key");
    assert_eq!(
        spill_key_wanted(&section, "fork-1", &secrets),
        Ok(Some("fork-1/spill-key".to_string()))
    );

    let runtime = build(&section, &secrets, Some(key.bytes.clone())).unwrap();

    // The runtime's codec encrypts, and with the key the store holds: a codec
    // built from the key object directly decodes its objects.
    let data: Vec<u8> = (0..STRIPE_SECTORS as usize * SECTOR_SIZE)
        .map(|i| i as u8)
        .collect();
    let object = runtime.codec.encode(3, &data).unwrap();
    let header = SpillObjectHeader::decode(&object[..SPILL_HEADER_LEN]).unwrap();
    assert_ne!(header.flags & spill_flags::XTS, 0);

    let cipher = unwrap_spill_key(&spill_kek(&[7u8; 32]), &key.bytes).unwrap();
    let from_store = SpillCodec::new(
        ArchiveCompressionAlgorithm::Off,
        Some(cipher),
        STRIPE_SECTORS,
    );
    let mut decoded = vec![0u8; data.len()];
    from_store.decode_into(3, &object, &mut decoded).unwrap();
    assert_eq!(decoded, data);
}

#[test]
fn build_spill_runtime_fails_without_key_object() {
    let secrets = kek_secrets([7u8; 32]);
    let section = section(Some(fs_store("/spill")), true);

    let err = build(&section, &secrets, None).err().unwrap();
    assert!(err.contains("spill key object fork-1/spill-key"), "{err}");
}

#[test]
fn build_spill_runtime_fails_with_wrong_kek() {
    let section = section(Some(fs_store("/spill")), true);
    let key = init_spill_key(&section, "fork-1", &kek_secrets([7u8; 32]))
        .unwrap()
        .unwrap();

    let err = build(&section, &kek_secrets([8u8; 32]), Some(key.bytes))
        .err()
        .unwrap();
    assert!(err.contains("does not decrypt"), "{err}");
}

#[test]
fn build_spill_runtime_rejects_kek_without_store() {
    let secrets = kek_secrets([7u8; 32]);
    let section = section(None, true);

    let err = build(&section, &secrets, None).err().unwrap();
    assert!(err.contains("spill.kek needs spill.store"), "{err}");
    let err = init_spill_key(&section, "fork-1", &secrets)
        .unwrap_err()
        .describe(&device());
    assert!(err.contains("spill.kek needs spill.store"), "{err}");
}

#[test]
fn init_spill_key_writes_key_object() {
    let secrets = kek_secrets([9u8; 32]);
    let section = section(Some(fs_store("/spill")), true);

    let key = init_spill_key(&section, "fork-1", &secrets)
        .unwrap()
        .unwrap();

    let wrapped = key.bytes;
    unwrap_spill_key(&spill_kek(&[9u8; 32]), &wrapped).expect("wrapped under the KEK");
    assert!(unwrap_spill_key(&spill_kek(&[1u8; 32]), &wrapped).is_err());

    // A second init writes a fresh key: forks start from a truncated metadata
    // file and nothing under the old key is read again.
    let again = init_spill_key(&section, "fork-1", &secrets)
        .unwrap()
        .unwrap();
    assert_ne!(again.bytes, wrapped);
}

#[test]
fn init_spill_key_without_kek_writes_nothing() {
    let section = section(Some(fs_store("/spill")), false);
    assert!(init_spill_key(&section, "fork-1", &Vec::new())
        .unwrap()
        .is_none());
    assert_eq!(
        spill_key_wanted(&section, "fork-1", &Vec::new()),
        Ok(None)
    );
}

#[test]
fn a_secret_that_is_not_configured_is_an_error() {
    let section = section(Some(fs_store("/spill")), true);
    assert!(init_spill_key(&section, "fork-1", &Vec::new()).is_err());
    let secrets = kek_secrets([3u8; 32]);
    assert_eq!(
        get_resolved_secret(&KEK_ID.to_string(), &secrets),
        Some(vec![3u8; 32])
    );
    assert_eq!(get_resolved_secret(&"other".to_string(), &secrets), None);
}

#[test]
fn a_kek_of_the_wrong_length_is_an_error() {
    let secrets = vec![ResolvedSecret {
        name: KEK_ID.to_string(),
        bytes: vec![1; 16],
    }];
    let section = section(Some(fs_store("/spill")), true);
    assert!(init_spill_key(&section, "fork-1", &secrets).is_err());
    assert!(build(&section, &secrets, Some(vec![0; 92])).is_err());
}

#[test]
fn spill_summary_names_every_setting() {
    let fs = spill_summary(&section(Some(fs_store("/spill")), true));
    assert_eq!(
        fs,
        "ceiling 1048576, low water 4096, hard margin 8192, min free 16384, store fs /spill, clean_eviction off, on_full fail, kek set"
    );

    let mut clean_only = section(None, false);
    clean_only.on_full = OnFull::Stall;
    assert_eq!(
        spill_summary(&clean_only),
        "ceiling 1048576, low water 4096, hard margin 8192, min free 16384, store none (clean-only), clean_eviction on, on_full stall, kek unset"
    );

    let s3 = ArchiveStorageConfig::S3 {
        bucket: "forks".to_string(),
        prefix: Some("pg".to_string()),
        region: None,
        connections: 3,
    };
    assert!(spill_summary(&section(Some(s3), false)).contains("store s3 forks/pg,"));
}
