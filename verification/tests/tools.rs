use std::collections::BTreeSet;

use ubiblk::compression::ArchiveCompressionAlgorithm;
use ubiblk::config::{ArchiveStorageConfig, SpillSection, StripeSourceConfig};
use ubiblk::dump_metadata::{describe_metadata, format_list, format_source_info, stripes_with};
use ubiblk::io::{ArchiveStore, IoError};
use ubiblk::metadata::metadata_flags;
use ubiblk::metadata::types::{UbiMetadata, DEFAULT_STRIPE_SECTOR_COUNT_SHIFT};
use ubiblk::spill::evictor_model::OnFull;
use ubiblk::spill_purge::{
    check_purge, purge, purge_closing, purge_heading, purge_listing, purge_object_names,
};

#[test]
fn dump_metadata_lists_new_bits() {
    let mut metadata = UbiMetadata::new(11, 8, 6);
    assert_eq!(metadata.version_minor_u16(), 1, "a 2.1 file");
    metadata.stripe_headers[0] |= metadata_flags::FETCHED;
    metadata.stripe_headers[1] |= metadata_flags::FETCHED | metadata_flags::WRITTEN;
    metadata.stripe_headers[2] |= metadata_flags::EVICTED | metadata_flags::IN_S3;
    metadata.stripe_headers[3] |= metadata_flags::EVICTED | metadata_flags::IN_S3;
    metadata.stripe_headers[4] |= metadata_flags::EVICTED | metadata_flags::PUSHED;
    metadata.stripe_headers[7] |= metadata_flags::PUSHED | metadata_flags::WRITTEN;

    let lines = describe_metadata(&metadata);

    assert_eq!(
        lines,
        vec![
            "metadata version: 2.1".to_string(),
            "stripe size: 1048576 bytes".to_string(),
            "fetched stripes: 0, 1".to_string(),
            "written stripes: 1, 7".to_string(),
            "has-source stripes: 0-5".to_string(),
            "evicted stripes: 2-4".to_string(),
            "in-s3 stripes: 2, 3".to_string(),
            "pushed stripes: 4, 7".to_string(),
        ]
    );
}

#[test]
fn dump_metadata_prints_empty_lists_for_a_clean_file() {
    let metadata = UbiMetadata::new(11, 4, 0);
    let lines = describe_metadata(&metadata);
    assert!(lines.contains(&"evicted stripes: ".to_string()));
    assert!(lines.contains(&"in-s3 stripes: ".to_string()));
    assert!(lines.contains(&"pushed stripes: ".to_string()));
}

#[test]
fn format_list_coalesces_runs() {
    assert_eq!(format_list(&[]), "");
    assert_eq!(format_list(&[3]), "3");
    assert_eq!(format_list(&[3, 4]), "3, 4");
    assert_eq!(format_list(&[3, 4, 5, 9]), "3-5, 9");
}

#[test]
fn stripes_are_listed_in_order() {
    let metadata = UbiMetadata::new(11, 5, 3);
    assert_eq!(
        stripes_with(&metadata, metadata_flags::HAS_SOURCE),
        vec![0, 1, 2]
    );
    assert!(stripes_with(&metadata, metadata_flags::EVICTED).is_empty());
}

#[test]
fn sources_are_described() {
    let raw = StripeSourceConfig::Raw {
        image_path: "/images/base.raw".to_string(),
    };
    assert_eq!(
        format_source_info(&Some(raw), 16),
        "raw (path: /images/base.raw, size: 8192 bytes)"
    );
    let remote = StripeSourceConfig::Remote {
        address: "10.0.0.1:4555".to_string(),
        psk_identity: Some("fork".to_string()),
    };
    assert_eq!(
        format_source_info(&Some(remote), 0),
        "remote (address: 10.0.0.1:4555, psk_identity: fork)"
    );
    let files = ArchiveStorageConfig::Filesystem {
        path: "/archive".to_string(),
    };
    assert_eq!(
        format_source_info(&Some(StripeSourceConfig::Archive(files)), 0),
        "archive filesystem (path: /archive)"
    );
    let bucket = ArchiveStorageConfig::S3 {
        bucket: "forks".to_string(),
        prefix: None,
        region: Some("eu".to_string()),
        connections: 1,
    };
    assert_eq!(
        format_source_info(&Some(StripeSourceConfig::Archive(bucket)), 0),
        "archive s3 (bucket: forks, prefix: None, region: eu)"
    );
    assert_eq!(format_source_info(&None, 0), "None");
}

/// A store that only remembers how big each delete batch was.
#[derive(Default)]
struct BatchRecorder {
    batches: Vec<usize>,
    deleted: Vec<String>,
    fail_batch: Option<usize>,
}

impl ArchiveStore for BatchRecorder {
    fn start_put_object(&mut self, _name: &String, _data: Vec<u8>) {}
    fn start_get_object(&mut self, _name: &String) {}
    fn poll_puts(&mut self) -> Vec<(String, bool)> {
        Vec::new()
    }
    fn poll_gets(&mut self) -> Vec<(String, Option<Vec<u8>>)> {
        Vec::new()
    }
    fn delete_objects(&mut self, names: &Vec<String>) -> Result<(), IoError> {
        if self.fail_batch == Some(self.batches.len()) {
            return Err(IoError { errno: 5 });
        }
        self.batches.push(names.len());
        self.deleted.extend(names.iter().cloned());
        Ok(())
    }
}

#[test]
fn purge_object_names_covers_every_index_and_the_key() {
    let names = purge_object_names("fork-1", 3);
    assert_eq!(
        names,
        ["fork-1/0", "fork-1/1", "fork-1/2", "fork-1/spill-key"]
    );
}

#[test]
fn purge_batches_by_1000() {
    let names = purge_object_names("fork-1", 2000);
    let mut store = BatchRecorder::default();
    let deleted = purge(&mut store, &names, false).unwrap();
    assert_eq!(deleted, 2001);
    assert_eq!(store.batches, [1000, 1000, 1]);
    assert_eq!(store.deleted, names, "every name once, in order");
}

#[test]
fn purge_dry_run_touches_no_store() {
    let names = purge_object_names("fork-1", 2);
    let mut store = BatchRecorder::default();
    let deleted = purge(&mut store, &names, true).unwrap();
    assert_eq!(deleted, 0);
    assert!(store.batches.is_empty());
    let mut out = String::new();
    for line in purge_listing(&names) {
        out.push_str(&line);
        out.push('\n');
    }
    assert_eq!(
        out,
        "would delete fork-1/0\nwould delete fork-1/1\nwould delete fork-1/spill-key\n"
    );
}

/// A store in memory.
struct MemoryStore {
    objects: BTreeSet<String>,
}

impl ArchiveStore for MemoryStore {
    fn start_put_object(&mut self, name: &String, _data: Vec<u8>) {
        self.objects.insert(name.clone());
    }
    fn start_get_object(&mut self, _name: &String) {}
    fn poll_puts(&mut self) -> Vec<(String, bool)> {
        Vec::new()
    }
    fn poll_gets(&mut self) -> Vec<(String, Option<Vec<u8>>)> {
        Vec::new()
    }
    fn delete_objects(&mut self, names: &Vec<String>) -> Result<(), IoError> {
        for name in names {
            self.objects.remove(name);
        }
        Ok(())
    }
}

/// A store with objects under index 1 and 3, the key, and another device's
/// object.
fn seed_store() -> MemoryStore {
    let mut store = MemoryStore {
        objects: BTreeSet::new(),
    };
    for name in ["fork-1/1", "fork-1/3", "fork-1/spill-key", "other/1"] {
        store.start_put_object(&name.to_string(), b"object".to_vec());
    }
    store
}

/// What the purge tool prints for a device with four stripes.
fn run_purge(store: &mut MemoryStore, dry_run: bool) -> String {
    let metadata = UbiMetadata::new(DEFAULT_STRIPE_SECTOR_COUNT_SHIFT, 4, 0);
    let names = purge_object_names("fork-1", metadata.stripe_count());
    let mut lines = vec![purge_heading(
        "fork-1",
        metadata.stripe_count(),
        names.len(),
    )];
    if dry_run {
        lines.extend(purge_listing(&names));
    }
    let deleted = purge(store, &names, dry_run).unwrap();
    lines.push(purge_closing(dry_run, deleted, names.len()));
    lines.push(String::new());
    lines.join("\n")
}

#[test]
fn purge_dry_run_lists_all_indices_and_key() {
    let mut store = seed_store();
    let out = run_purge(&mut store, true);

    for expected in [
        "fork-1/0",
        "fork-1/1",
        "fork-1/2",
        "fork-1/3",
        "fork-1/spill-key",
    ] {
        assert!(out.contains(&format!("would delete {expected}\n")), "{out}");
    }
    assert!(!out.contains("other/"), "{out}");
    assert!(out.contains("4 stripes, 5 objects to delete"), "{out}");
    assert!(out.contains("dry run: nothing deleted"), "{out}");
    for still_there in ["fork-1/1", "fork-1/3", "fork-1/spill-key", "other/1"] {
        assert!(
            store.objects.contains(still_there),
            "{still_there} must survive a dry run"
        );
    }
}

#[test]
fn purge_deletes_the_devices_objects_and_nothing_else() {
    let mut store = seed_store();
    let out = run_purge(&mut store, false);

    assert!(out.contains("deleted 5 objects in 1 batches"), "{out}");
    for gone in ["fork-1/1", "fork-1/3", "fork-1/spill-key"] {
        assert!(!store.objects.contains(gone), "{gone}");
    }
    assert!(store.objects.contains("other/1"));
}

#[test]
fn a_failed_batch_ends_the_purge() {
    let names = purge_object_names("fork-1", 2000);
    let mut store = BatchRecorder {
        fail_batch: Some(1),
        ..BatchRecorder::default()
    };
    assert!(purge(&mut store, &names, false).is_err());
    assert_eq!(store.batches, [1000]);
}

#[test]
fn a_purge_says_what_it_does() {
    assert_eq!(
        purge_heading("fork-1", 4, 5),
        "device fork-1: 4 stripes, 5 objects to delete (every stripe index plus spill-key)"
    );
    assert_eq!(purge_closing(true, 0, 5), "dry run: nothing deleted");
    assert_eq!(
        purge_closing(false, 5, 5),
        "deleted 5 objects in 1 batches"
    );
    assert_eq!(
        purge_closing(false, 2001, 2001),
        "deleted 2001 objects in 3 batches"
    );
}

fn section(store: Option<ArchiveStorageConfig>) -> SpillSection {
    SpillSection {
        max_local_bytes: 1 << 30,
        low_water_bytes: 0,
        hard_margin_bytes: 0,
        min_free_bytes: 0,
        on_full: OnFull::Stall,
        clean_eviction: false,
        max_concurrent_evictions: 1,
        compression: ArchiveCompressionAlgorithm::Off,
        kek: None,
        store,
    }
}

#[test]
fn purge_refuses_a_config_without_a_store() {
    let metadata_path = Some("device.meta".to_string());
    let err = check_purge(&Some(section(None)), &metadata_path)
        .unwrap_err()
        .describe();
    assert!(err.contains("has no store"), "{err}");

    let err = check_purge(&None, &metadata_path).unwrap_err().describe();
    assert!(err.contains("no [spill] section"), "{err}");

    let store = ArchiveStorageConfig::Filesystem {
        path: "spill".to_string(),
    };
    let spill = Some(section(Some(store)));
    let err = check_purge(&spill, &None).unwrap_err().describe();
    assert_eq!(err, "metadata_path is none");
    assert!(check_purge(&spill, &metadata_path).is_ok());
}
