//! Lazily fetched block devices whose cold stripes spill to an object store.

#![allow(non_upper_case_globals)]

use vstd::prelude::*;

pub mod archive;
pub mod bgworker;
pub mod bgworker_laws;
pub mod bgworker_model;
pub mod compression;
pub mod config;
pub mod coordinator_laws;
pub mod counting;
pub mod crc;
pub mod crypt;
pub mod device;
pub mod device_laws;
pub mod dump_metadata;
pub mod durable_laws;
pub mod fetch_laws;
pub mod fetcher_laws;
pub mod flusher_laws;
pub mod guest_laws;
pub mod header_laws;
pub mod ingest_pool;
pub mod io;
pub mod le;
pub mod metadata;
pub mod metadata_flusher;
pub mod outcome_laws;
pub mod push_gate;
pub mod request_queue;
pub mod snapshot_service;
pub mod spill;
pub mod spill_purge;
pub mod spill_setup;
pub mod status_report;
pub mod stripe_fetcher;
pub mod text;

verus! {

/// Bytes in a device sector.
pub const SECTOR_SIZE: usize = 512;

} // verus!
