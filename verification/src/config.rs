//! The parts of a device's configuration that the library decides on.

use vstd::prelude::*;

use crate::compression::ArchiveCompressionAlgorithm;
use crate::spill::evictor_model::OnFull;

verus! {

/// Where objects are stored.
#[derive(Debug, Clone)]
pub enum ArchiveStorageConfig {
    /// In files under a directory.
    Filesystem {
        /// The directory.
        path: String,
    },
    /// In a bucket.
    S3 {
        /// The bucket.
        bucket: String,
        /// What object names start with.
        prefix: Option<String>,
        /// Where the bucket is.
        region: Option<String>,
        /// Connections to open at most.
        connections: usize,
    },
}

/// Where the stripes of a device come from.
#[derive(Debug, Clone)]
pub enum StripeSourceConfig {
    /// An image file.
    Raw {
        /// The image.
        image_path: String,
    },
    /// A server.
    Remote {
        /// Where the server listens.
        address: String,
        /// Who the device says it is.
        psk_identity: Option<String>,
    },
    /// An archive.
    Archive(ArchiveStorageConfig),
}

/// A secret by its name and its bytes.
#[derive(Debug, Clone)]
pub struct ResolvedSecret {
    /// What the configuration calls it.
    pub name: String,
    /// The secret.
    pub bytes: Vec<u8>,
}

/// How a device spills.
#[derive(Debug, Clone)]
pub struct SpillSection {
    /// Ceiling on resident bytes.
    pub max_local_bytes: u64,
    /// Evict this far below the ceiling once over it.
    pub low_water_bytes: u64,
    /// Gate guest writes this far above the ceiling.
    pub hard_margin_bytes: u64,
    /// Free space to keep.
    pub min_free_bytes: u64,
    /// What a guest write meets when space runs out.
    pub on_full: OnFull,
    /// Drop clean stripes the live snapshot can serve again.
    pub clean_eviction: bool,
    /// Evictions in flight at once.
    pub max_concurrent_evictions: usize,
    /// How objects are compressed.
    pub compression: ArchiveCompressionAlgorithm,
    /// The secret that the spill key is wrapped under.
    pub kek: Option<String>,
    /// Where evicted stripes go; without it only clean stripes are evicted.
    pub store: Option<ArchiveStorageConfig>,
}

/// A device's own settings.
#[derive(Debug, Clone)]
pub struct DeviceSection {
    /// The file that holds the device's data.
    pub data_path: String,
    /// The file that holds its metadata.
    pub metadata_path: Option<String>,
    /// What its objects are named after.
    pub device_id: String,
}

} // verus!
