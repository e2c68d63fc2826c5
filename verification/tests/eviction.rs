use std::cell::RefCell;
use std::collections::{HashMap, HashSet};
use std::rc::Rc;

use ubiblk::archive::test_store::{ObjectMap, TestObjectStore};
use ubiblk::bgworker::{BgWorker, Ingest};
use ubiblk::bgworker_model::BgWorkerRequest;
use ubiblk::compression::ArchiveCompressionAlgorithm;
use ubiblk::device::LazyIoChannel;
use ubiblk::ingest_pool::{IngestPool, IngestPoolConfig, IngestRequest};
use ubiblk::io::{ArchiveStore, IoChannel, IoError, ManualClock, StripeSource};
use ubiblk::metadata::metadata_flags;
use ubiblk::metadata::shared_state::{
    Evicted, Evicting, Failed, Fetched, NoSource, NotFetched, SharedMetadataState, SpillCounters,
    GATE_FAIL, GATE_HOLD, GATE_OPEN,
};
use ubiblk::metadata::stripe_flags;
use ubiblk::metadata::types::UbiMetadata;
use ubiblk::metadata_flusher::{MetadataFlusher, PersistOutcome, PersistResult};
use ubiblk::push_gate::{PushGate, PushPermit};
use ubiblk::request_queue::RequestQueue;
use ubiblk::spill::codec::SpillCodec;
use ubiblk::spill::evictor::{CrashPoint, Evictor, EvictorError};
use ubiblk::spill::evictor_model::{
    EvictorConfig, FetchDisposition, Kind, OnFull, PushDisposition, Stage, EOPNOTSUPP,
};
use ubiblk::spill::punch::RecordingPuncher;
use ubiblk::stripe_fetcher::StripeFetcher;
use ubiblk::SECTOR_SIZE;

const STRIPE_SECTORS: u64 = 8;
const STRIPE_BYTES: u64 = STRIPE_SECTORS * SECTOR_SIZE as u64;
const STRIPES: usize = 8;
const TARGET_SECTORS: u64 = STRIPE_SECTORS * STRIPES as u64;
const DEVICE_ID: &str = "fork-1";
const SECOND: u64 = 1_000_000_000;

/// A resident stripe the fork has written: it has to be uploaded.
const DIRTY: u8 = metadata_flags::FETCHED | metadata_flags::WRITTEN | metadata_flags::HAS_SOURCE;
/// A resident copy of a snapshot stripe, untouched.
const CLEAN: u8 = metadata_flags::FETCHED | metadata_flags::HAS_SOURCE;

fn object_name(stripe_id: usize) -> String {
    format!("{DEVICE_ID}/{stripe_id}")
}

fn stripes_bytes(stripes: u64) -> u64 {
    stripes * STRIPE_BYTES
}

#[derive(Default)]
struct DeviceState {
    mem: Vec<u8>,
    reads: usize,
    writes: usize,
    flushes: usize,
    /// The next request fails.
    fail_next: bool,
    /// The next flush fails.
    fail_next_flush: bool,
    /// The next submit fails.
    fail_submit: bool,
    /// A failed submit keeps its requests for the next one.
    keep_requests_on_failed_submit: bool,
    /// Finished requests are not reported.
    hold_completions: bool,
}

/// A device in memory.
#[derive(Clone)]
struct TestDevice(Rc<RefCell<DeviceState>>);

impl TestDevice {
    fn new(size: u64) -> Self {
        TestDevice(Rc::new(RefCell::new(DeviceState {
            mem: vec![0; size as usize],
            ..DeviceState::default()
        })))
    }

    fn channel<B: Buffer>(&self) -> TestChannel<B> {
        TestChannel {
            device: self.clone(),
            collected: Vec::new(),
            finished: Vec::new(),
            reads: HashMap::new(),
        }
    }

    fn sector_count(&self) -> u64 {
        (self.0.borrow().mem.len() / SECTOR_SIZE) as u64
    }

    fn reads(&self) -> usize {
        self.0.borrow().reads
    }

    fn writes(&self) -> usize {
        self.0.borrow().writes
    }

    fn io_counts(&self) -> (usize, usize) {
        let state = self.0.borrow();
        (state.writes, state.flushes)
    }

    fn fail_next(&self) {
        self.0.borrow_mut().fail_next = true;
    }

    fn fail_next_flush(&self) {
        self.0.borrow_mut().fail_next_flush = true;
    }

    fn stripe(&self, stripe_id: usize) -> Vec<u8> {
        let start = stripe_id * STRIPE_BYTES as usize;
        self.0.borrow().mem[start..start + STRIPE_BYTES as usize].to_vec()
    }

    fn fill_stripes(&self, pattern: impl Fn(usize) -> u8) {
        let mut state = self.0.borrow_mut();
        for (stripe_id, chunk) in state.mem.chunks_mut(STRIPE_BYTES as usize).enumerate() {
            chunk.fill(pattern(stripe_id));
        }
    }

    fn save(&self, metadata: &UbiMetadata) {
        let bytes = metadata.save_to_bdev(self.sector_count()).unwrap();
        self.0.borrow_mut().mem = bytes;
    }

    fn load(&self) -> UbiMetadata {
        UbiMetadata::load_from_bdev(self.sector_count(), &self.0.borrow().mem)
            .expect("load metadata")
    }

    fn header(&self, stripe_id: usize) -> u8 {
        self.load().stripe_header(stripe_id)
    }
}

/// A buffer that can be read into and written from.
trait Buffer {
    fn fill(&mut self, bytes: &[u8]);
    fn bytes(&self) -> Vec<u8>;
}

impl Buffer for Vec<u8> {
    fn fill(&mut self, bytes: &[u8]) {
        self.resize(bytes.len(), 0);
        self.copy_from_slice(bytes);
    }

    fn bytes(&self) -> Vec<u8> {
        self.clone()
    }
}

type SharedBuffer = Rc<RefCell<Vec<u8>>>;

impl Buffer for SharedBuffer {
    fn fill(&mut self, bytes: &[u8]) {
        self.borrow_mut()[..bytes.len()].copy_from_slice(bytes);
    }

    fn bytes(&self) -> Vec<u8> {
        self.borrow().clone()
    }
}

struct TestChannel<B> {
    device: TestDevice,
    collected: Vec<(usize, bool)>,
    finished: Vec<(usize, bool)>,
    reads: HashMap<usize, B>,
}

fn range(offset: u64, count: u32) -> std::ops::Range<usize> {
    let start = offset as usize * SECTOR_SIZE;
    start..start + count as usize * SECTOR_SIZE
}

impl<B: Buffer> IoChannel<B> for TestChannel<B> {
    fn add_read(&mut self, sector_offset: u64, sector_count: u32, mut buf: B, id: usize) {
        let mut state = self.device.0.borrow_mut();
        state.reads += 1;
        let ok = !std::mem::take(&mut state.fail_next);
        if ok {
            buf.fill(&state.mem[range(sector_offset, sector_count)]);
        }
        self.reads.insert(id, buf);
        self.collected.push((id, ok));
    }

    fn add_write(&mut self, sector_offset: u64, sector_count: u32, buf: B, id: usize) {
        let mut state = self.device.0.borrow_mut();
        state.writes += 1;
        let ok = !std::mem::take(&mut state.fail_next);
        if ok {
            let range = range(sector_offset, sector_count);
            let len = range.len();
            state.mem[range].copy_from_slice(&buf.bytes()[..len]);
        }
        self.collected.push((id, ok));
    }

    fn add_flush(&mut self, id: usize) {
        let mut state = self.device.0.borrow_mut();
        if std::mem::take(&mut state.fail_next_flush) {
            self.collected.push((id, false));
        } else {
            state.flushes += 1;
            let ok = !std::mem::take(&mut state.fail_next);
            self.collected.push((id, ok));
        }
    }

    fn submit(&mut self) -> Result<(), IoError> {
        let mut state = self.device.0.borrow_mut();
        if std::mem::take(&mut state.fail_submit) {
            if !state.keep_requests_on_failed_submit {
                self.collected.clear();
            }
            return Err(IoError { errno: 5 });
        }
        self.finished.append(&mut self.collected);
        Ok(())
    }

    fn poll(&mut self) -> Vec<(usize, bool)> {
        if self.device.0.borrow().hold_completions {
            return Vec::new();
        }
        std::mem::take(&mut self.finished)
    }

    fn take_read(&mut self, id: usize) -> Option<B> {
        self.reads.remove(&id)
    }

    fn busy(&self) -> bool {
        !self.collected.is_empty() || !self.finished.is_empty()
    }
}

/// A store whose objects a test can look at.
#[derive(Clone)]
struct StoreHandle(Rc<RefCell<(TestObjectStore, ObjectMap)>>);

impl StoreHandle {
    fn new() -> Self {
        StoreHandle(Rc::new(RefCell::new((
            TestObjectStore::new(),
            ObjectMap::new(),
        ))))
    }

    fn hold_puts(&self, hold: bool) {
        self.0.borrow_mut().0.hold_puts = hold;
    }

    fn fail_put(&self, name: String) {
        self.0.borrow_mut().0.fail_puts.push_back(name);
    }

    fn release_puts(&self) {
        let mut inner = self.0.borrow_mut();
        let (store, objects) = &mut *inner;
        store.release_puts(objects);
    }

    fn put_order(&self) -> Vec<String> {
        self.0.borrow().0.put_order.clone()
    }

    fn object(&self, name: &str) -> Vec<u8> {
        self.0
            .borrow()
            .1
            .get(&name.to_string())
            .expect("object in store")
    }

    /// The stripe bytes an object in the store decodes to.
    fn decode_object(&self, stripe_id: usize) -> Vec<u8> {
        let object = self.object(&object_name(stripe_id));
        let codec = SpillCodec::new(ArchiveCompressionAlgorithm::Off, None, STRIPE_SECTORS);
        let mut dst = vec![0u8; STRIPE_BYTES as usize];
        let len = codec.decode_into(stripe_id, &object, &mut dst).unwrap();
        dst.truncate(len);
        dst
    }
}

impl ArchiveStore for StoreHandle {
    fn start_put_object(&mut self, name: &String, data: Vec<u8>) {
        let mut inner = self.0.borrow_mut();
        let (store, objects) = &mut *inner;
        store.start_put_object(objects, name, data, 0);
    }

    fn start_get_object(&mut self, name: &String) {
        let mut inner = self.0.borrow_mut();
        let (store, objects) = &mut *inner;
        store.start_get_object(objects, name);
    }

    fn poll_puts(&mut self) -> Vec<(String, bool)> {
        self.0.borrow_mut().0.poll_puts()
    }

    fn poll_gets(&mut self) -> Vec<(String, Option<Vec<u8>>)> {
        self.0.borrow_mut().0.poll_gets()
    }

    fn delete_objects(&mut self, _names: &Vec<String>) -> Result<(), IoError> {
        Ok(())
    }
}

/// A source over a device, which can refuse stripes.
struct TestSource {
    device: TestDevice,
    stripe_sectors: u64,
    arrived: Vec<(usize, bool)>,
    stripes: HashMap<usize, Vec<u8>>,
    refused: HashSet<usize>,
    failures: HashMap<usize, usize>,
}

impl TestSource {
    fn new(device: &TestDevice, stripe_sectors: u64) -> Self {
        TestSource {
            device: device.clone(),
            stripe_sectors,
            arrived: Vec::new(),
            stripes: HashMap::new(),
            refused: HashSet::new(),
            failures: HashMap::new(),
        }
    }
}

impl StripeSource for TestSource {
    fn request(&mut self, stripe_id: usize) -> Result<(), IoError> {
        if self.refused.contains(&stripe_id) {
            return Err(IoError { errno: 5 });
        }
        if let Some(left) = self.failures.get_mut(&stripe_id) {
            if *left > 0 {
                *left -= 1;
                self.arrived.push((stripe_id, false));
                return Ok(());
            }
        }
        let mut state = self.device.0.borrow_mut();
        state.reads += 1;
        let size = self.stripe_sectors as usize * SECTOR_SIZE;
        let start = (stripe_id * size).min(state.mem.len());
        let end = (start + size).min(state.mem.len());
        let mut data = state.mem[start..end].to_vec();
        data.resize(size, 0);
        self.stripes.insert(stripe_id, data);
        self.arrived.push((stripe_id, true));
        Ok(())
    }

    fn poll(&mut self) -> Vec<(usize, bool)> {
        std::mem::take(&mut self.arrived)
    }

    fn take_stripe(&mut self, stripe_id: usize) -> Option<Vec<u8>> {
        self.stripes.remove(&stripe_id)
    }

    fn busy(&self) -> bool {
        !self.arrived.is_empty()
    }

    fn sector_count(&self) -> u64 {
        self.device.sector_count()
    }
}

fn base_config(target_sector_count: u64) -> EvictorConfig {
    EvictorConfig {
        data_path: "/tmp/device.raw".to_string(),
        device_id: DEVICE_ID.to_string(),
        stripe_sector_count: STRIPE_SECTORS,
        target_sector_count,
        max_local_bytes: stripes_bytes(STRIPES as u64),
        low_water_bytes: 0,
        hard_margin_bytes: STRIPE_BYTES,
        min_free_bytes: stripes_bytes(4),
        clean_eviction: false,
        on_full: OnFull::Stall,
        max_concurrent_evictions: 2,
        sweep_batch: 4096,
        alignment: 4096,
    }
}

/// Metadata for `STRIPES` stripes, every one with a source, with the given
/// headers overriding the default of NotFetched.
fn metadata_with(headers: &[(usize, u8)]) -> UbiMetadata {
    let mut metadata = UbiMetadata::new(3, STRIPES, STRIPES);
    for (stripe_id, header) in headers {
        metadata.set_stripe_header(*stripe_id, *header);
    }
    metadata
}

/// Every stripe of the target holds its own pattern, so an object can be
/// checked against what was read.
fn pattern(stripe_id: usize) -> u8 {
    stripe_id as u8 + 1
}

fn plain_codec() -> SpillCodec {
    SpillCodec::new(ArchiveCompressionAlgorithm::Off, None, STRIPE_SECTORS)
}

/// The evictor with everything it talks to, driven one tick at a time.
struct Rig {
    evictor: Evictor,
    state: SharedMetadataState,
    flusher: MetadataFlusher,
    metadata_dev: TestDevice,
    metadata_channel: TestChannel<Vec<u8>>,
    target_dev: TestDevice,
    read_channel: TestChannel<Vec<u8>>,
    store: StoreHandle,
    puncher: RecordingPuncher,
    clock: ManualClock,
}

impl Rig {
    fn build(
        headers: &[(usize, u8)],
        with_store: bool,
        tune: impl FnOnce(&mut EvictorConfig),
    ) -> Self {
        let mut cfg = base_config(TARGET_SECTORS);
        tune(&mut cfg);

        let target_dev = TestDevice::new(cfg.target_sector_count * SECTOR_SIZE as u64);
        target_dev.fill_stripes(pattern);
        let metadata_dev = TestDevice::new(16 * 1024);
        metadata_dev.save(&metadata_with(headers));
        let metadata = metadata_dev.load();
        let state = SharedMetadataState::new(&metadata);
        let flusher = MetadataFlusher::new(metadata, cfg.target_sector_count).unwrap();
        // Plenty of room unless a test says otherwise: a default of zero
        // would read as a full filesystem.
        let mut puncher = RecordingPuncher::new();
        puncher.free = 1 << 40;
        let evictor = Evictor::new(cfg, with_store, plain_codec(), &state).unwrap();
        Rig {
            evictor,
            state,
            flusher,
            metadata_channel: metadata_dev.channel(),
            metadata_dev,
            read_channel: target_dev.channel(),
            target_dev,
            store: StoreHandle::new(),
            puncher,
            clock: ManualClock::new(SECOND),
        }
    }

    /// Dirty resident stripes `0..count`, store present, ceiling `max_local`
    /// stripes, one eviction at a time.
    fn dirty(count: usize, max_local: u64) -> Self {
        let headers: Vec<(usize, u8)> = (0..count).map(|s| (s, DIRTY)).collect();
        Rig::build(&headers, true, |cfg| {
            cfg.max_local_bytes = stripes_bytes(max_local);
            cfg.max_concurrent_evictions = 1;
        })
    }

    fn update_evictor(&mut self, outcomes: Vec<PersistOutcome>) {
        self.evictor.update(
            &mut self.state,
            &mut self.flusher,
            &outcomes,
            &mut self.read_channel,
            &mut self.store,
            &mut self.puncher,
            &mut self.clock,
        );
    }

    /// The coordinator's tick: flusher first, its outcomes to the evictor.
    fn tick(&mut self) {
        self.flusher
            .update(&mut self.metadata_channel, &mut self.state);
        let outcomes = self.flusher.take_persist_outcomes();
        self.update_evictor(outcomes);
    }

    fn ticks(&mut self, count: usize) {
        for _ in 0..count {
            self.tick();
        }
    }

    /// Tick until `cond` holds, giving up after `max` ticks.
    fn run_until(&mut self, max: usize, cond: impl Fn(&Rig) -> bool) -> bool {
        for _ in 0..max {
            if cond(self) {
                return true;
            }
            self.tick();
        }
        cond(self)
    }

    fn advance(&mut self, seconds: u64) {
        self.clock.now += seconds * SECOND;
    }

    fn fetch(&mut self, stripe_id: usize) -> FetchDisposition {
        self.evictor
            .on_fetch_request(&mut self.state, stripe_id, self.clock.now)
    }

    /// A push, with the slots it left behind given back to `gate`.
    fn push(
        &mut self,
        stripe_id: usize,
        data: &[u8],
        gate: &mut PushGate,
    ) -> (PushDisposition, Option<PushPermit>) {
        let permit = gate.acquire().unwrap();
        let result =
            self.evictor
                .on_pushed_stripe(&mut self.state, stripe_id, data, permit, self.clock.now);
        for permit in self.evictor.take_dropped_permits() {
            gate.release(permit);
        }
        result
    }

    fn busy(&self) -> bool {
        self.evictor.busy(&self.state, self.clock.now)
    }

    fn records(&self) -> usize {
        self.evictor.in_progress.len()
    }

    fn punch_all_evicted(&mut self, metadata: &UbiMetadata) -> usize {
        self.evictor
            .punch_all_evicted(&mut self.state, metadata, &mut self.puncher)
    }

    fn stage(&self, stripe_id: usize) -> Option<Stage> {
        self.evictor.eviction(stripe_id).map(|(_, stage)| stage)
    }

    fn kind(&self, stripe_id: usize) -> Option<Kind> {
        self.evictor.eviction(stripe_id).map(|(kind, _)| kind)
    }

    fn fetch_state(&self, stripe_id: usize) -> u8 {
        self.state.stripe_fetch_state(stripe_id)
    }

    /// Metadata writes and flushes since construction.
    fn metadata_io(&self) -> (usize, usize) {
        self.metadata_dev.io_counts()
    }

    fn header(&self, stripe_id: usize) -> u8 {
        self.metadata_dev.header(stripe_id)
    }

    fn punches(&self) -> Vec<(u64, u64)> {
        self.puncher.punches.clone()
    }

    fn put_order(&self) -> Vec<String> {
        self.store.put_order()
    }

    fn counter(&self, pick: impl Fn(&SpillCounters) -> u64) -> u64 {
        pick(self.state.spill())
    }

    fn degraded(&self) -> bool {
        self.state.spill().degraded
    }

    fn decode_object(&self, stripe_id: usize) -> Vec<u8> {
        self.store.decode_object(stripe_id)
    }

    fn make_clean_evictable(&mut self, stripe_ids: &[usize]) {
        self.state.set_source_live(true);
        for stripe_id in stripe_ids {
            self.state
                .set_stripe_flags(*stripe_id, stripe_flags::FETCHED_LIVE);
        }
    }
}

/// A coordinator with an evictor and a fetcher of its own, or a pool.
struct CoordRig {
    worker: BgWorker,
    state: SharedMetadataState,
    source: TestSource,
    source_dev: TestDevice,
    target_dev: TestDevice,
    target_channel: TestChannel<Vec<u8>>,
    metadata_dev: TestDevice,
    metadata_channel: TestChannel<Vec<u8>>,
    read_channel: TestChannel<Vec<u8>>,
    store: StoreHandle,
    puncher: RecordingPuncher,
    clock: ManualClock,
    gate: PushGate,
}

struct CoordSetup {
    max_local_bytes: Option<u64>,
    autofetch: bool,
    expects_pushes: bool,
    spill: bool,
    pool: bool,
}

impl CoordRig {
    fn build(headers: &[(usize, u8)], tune: impl FnOnce(&mut EvictorConfig)) -> Self {
        let setup = CoordSetup {
            max_local_bytes: None,
            autofetch: false,
            expects_pushes: false,
            spill: true,
            pool: false,
        };
        CoordRig::with(headers, setup, tune)
    }

    fn with(
        headers: &[(usize, u8)],
        setup: CoordSetup,
        tune: impl FnOnce(&mut EvictorConfig),
    ) -> Self {
        let mut cfg = base_config(TARGET_SECTORS);
        if let Some(max_local_bytes) = setup.max_local_bytes {
            cfg.max_local_bytes = max_local_bytes;
            cfg.hard_margin_bytes = STRIPES as u64 * STRIPE_BYTES;
            cfg.min_free_bytes = 4096;
            cfg.max_concurrent_evictions = 1;
        }
        tune(&mut cfg);

        let source_dev = TestDevice::new(TARGET_SECTORS * SECTOR_SIZE as u64);
        // The source holds a different pattern from the fork's own data.
        source_dev.fill_stripes(|stripe_id| 0x80 | pattern(stripe_id));
        let target_dev = TestDevice::new(TARGET_SECTORS * SECTOR_SIZE as u64);
        target_dev.fill_stripes(pattern);
        let metadata_dev = TestDevice::new(16 * 1024);
        metadata_dev.save(&metadata_with(headers));
        let metadata = metadata_dev.load();
        let state = SharedMetadataState::new(&metadata);
        let flusher = MetadataFlusher::new(metadata, TARGET_SECTORS).unwrap();
        let mut puncher = RecordingPuncher::new();
        puncher.free = 1 << 40;
        let evictor = if setup.spill {
            Some(Evictor::new(cfg, true, plain_codec(), &state).unwrap())
        } else {
            None
        };
        let source = TestSource::new(&source_dev, STRIPE_SECTORS);
        let worker = if setup.pool {
            let config = IngestPoolConfig {
                autofetch: setup.autofetch,
                expects_pushes: setup.expects_pushes,
                workers: 1,
                connections: 1,
                never_disconnect: setup.spill,
            };
            let (pool, _workers) = IngestPool::new(config, &state);
            BgWorker::with_ingest_pool(pool, flusher, evictor)
        } else {
            let fetcher = StripeFetcher::new(
                source.sector_count(),
                target_dev.sector_count(),
                STRIPE_SECTORS,
                setup.autofetch,
            )
            .unwrap();
            BgWorker::new(fetcher, flusher, setup.expects_pushes, evictor)
        };
        CoordRig {
            worker,
            state,
            source,
            source_dev,
            target_channel: target_dev.channel(),
            read_channel: target_dev.channel(),
            target_dev,
            metadata_channel: metadata_dev.channel(),
            metadata_dev,
            store: StoreHandle::new(),
            puncher,
            clock: ManualClock::new(SECOND),
            gate: PushGate::new(4),
        }
    }

    fn update(&mut self) {
        self.worker.update(
            &mut self.state,
            &mut self.source,
            &mut self.target_channel,
            &mut self.metadata_channel,
            &mut self.read_channel,
            &mut self.store,
            &mut self.puncher,
            &mut self.clock,
        );
        self.give_back();
    }

    fn give_back(&mut self) {
        for permit in self.worker.take_dropped_permits() {
            self.gate.release(permit);
        }
    }

    fn updates(&mut self, count: usize) {
        for _ in 0..count {
            self.update();
        }
    }

    fn request(&mut self, request: BgWorkerRequest) {
        self.worker.process_request(
            &mut self.state,
            request,
            &mut self.target_channel,
            self.clock.now,
        );
        self.give_back();
    }

    fn fetch(&mut self, stripe_id: usize) {
        self.request(BgWorkerRequest::Fetch { stripe_id });
    }

    fn push(&mut self, stripe_id: usize, data: Vec<u8>) {
        let permit = self.gate.acquire().unwrap();
        self.request(BgWorkerRequest::PushedStripe {
            stripe_id,
            data,
            permit,
        });
    }

    fn landed(&mut self, stripe_id: usize, success: bool) {
        self.request(BgWorkerRequest::FetchCompleted { stripe_id, success });
    }

    fn fetcher(&self) -> &StripeFetcher {
        match &self.worker.ingest {
            Ingest::Inline(fetcher) => fetcher,
            Ingest::Pool(_) => panic!("inline ingest expected"),
        }
    }

    fn fetcher_busy(&self) -> bool {
        self.fetcher()
            .busy(self.source.busy(), self.target_channel.busy())
    }

    /// The fetcher runs ahead of the coordinator, as a pool worker would.
    fn run_fetcher(&mut self, count: usize) {
        for _ in 0..count {
            match &mut self.worker.ingest {
                Ingest::Inline(fetcher) => fetcher.update(
                    &mut self.state,
                    &mut self.source,
                    &mut self.target_channel,
                    self.clock.now,
                ),
                Ingest::Pool(_) => panic!("inline ingest expected"),
            }
        }
    }

    /// What the pool's workers were asked to do since the last call.
    fn take_outbox(&mut self) -> Vec<(usize, IngestRequest)> {
        match &mut self.worker.ingest {
            Ingest::Inline(_) => panic!("a pool expected"),
            Ingest::Pool(pool) => pool.take_outbox(),
        }
    }

    /// Metadata writes and flushes since construction.
    fn metadata_io(&self) -> (usize, usize) {
        self.metadata_dev.io_counts()
    }

    fn run_until(&mut self, max: usize, cond: impl Fn(&CoordRig) -> bool) -> bool {
        for _ in 0..max {
            if cond(self) {
                return true;
            }
            self.update();
        }
        cond(self)
    }

    fn source_reads(&self) -> usize {
        self.source_dev.reads()
    }

    fn target_stripe(&self, stripe_id: usize) -> Vec<u8> {
        self.target_dev.stripe(stripe_id)
    }

    fn decode_object(&self, stripe_id: usize) -> Vec<u8> {
        self.store.decode_object(stripe_id)
    }

    fn degraded_reasons(&self) -> u64 {
        self.state.spill().degraded_reasons
    }

    fn pending_retries(&self, token: u64) -> u8 {
        self.pending(token).retries
    }

    fn pending(&self, token: u64) -> ubiblk::bgworker_model::PendingRelease {
        self.worker.pending_release[&token]
    }
}

fn shared_buffer(size: usize) -> SharedBuffer {
    Rc::new(RefCell::new(vec![0; size]))
}

/// A guest's channel to a lazy device.
struct Guest {
    lazy: LazyIoChannel<SharedBuffer>,
    base: TestChannel<SharedBuffer>,
    image: TestChannel<SharedBuffer>,
    sink: RequestQueue,
}

impl Guest {
    fn new(target: &TestDevice, track_written: bool) -> Self {
        Guest {
            lazy: LazyIoChannel::new(false, track_written),
            base: target.channel(),
            image: target.channel(),
            sink: RequestQueue::new(),
        }
    }

    fn take_fetches(&mut self) -> Vec<usize> {
        let mut fetches = Vec::new();
        for request in self.sink.take() {
            if let BgWorkerRequest::Fetch { stripe_id } = request {
                fetches.push(stripe_id);
            }
        }
        fetches
    }

    fn read(
        &mut self,
        state: &mut SharedMetadataState,
        offset: u64,
        count: u32,
        buf: &SharedBuffer,
        id: usize,
        now: u64,
    ) {
        self.lazy.add_read(
            state,
            offset,
            count,
            buf.clone(),
            id,
            &mut self.base,
            &mut self.image,
            &mut self.sink,
            now,
        );
        self.lazy
            .submit(state, &mut self.base, &mut self.image)
            .unwrap();
    }

    fn poll(&mut self, state: &mut SharedMetadataState, now: u64) -> Vec<(usize, bool)> {
        self.lazy.poll(
            state,
            &mut self.base,
            &mut self.image,
            &mut self.sink,
            now,
        )
    }

    fn busy(&self) -> bool {
        self.lazy.busy(self.base.busy(), self.image.busy())
    }
}

// ---- ordering

#[test]
fn dirty_eviction_puts_then_flushes_header_then_punches() {
    let mut rig = Rig::dirty(2, 1);
    rig.store.hold_puts(true);

    assert!(rig.run_until(10, |r| r.stage(0) == Some(Stage::Putting)));
    assert_eq!(rig.kind(0), Some(Kind::Dirty));
    assert_eq!(rig.fetch_state(0), Evicting);
    assert_eq!(rig.put_order(), vec![object_name(0)]);
    assert_eq!(rig.counter(|c| c.puts), 1);

    // Held upload: nothing may move.
    rig.ticks(5);
    assert_eq!(rig.stage(0), Some(Stage::Putting));
    assert_eq!(
        rig.metadata_io(),
        (0, 0),
        "no header op before the PUT returns"
    );
    assert!(rig.punches().is_empty(), "no punch before the PUT returns");
    assert_eq!(rig.header(0), DIRTY);
    assert!(!rig.flusher.busy());

    // The PUT completes: the header op is issued, still nothing punched.
    rig.store.release_puts();
    rig.tick();
    assert!(matches!(rig.stage(0), Some(Stage::WritingHeader { .. })));
    assert!(rig.punches().is_empty());
    assert_eq!(
        rig.counter(|c| c.put_bytes) as usize,
        rig.store.object(&object_name(0)).len()
    );

    // Written and flushed before the punch.
    rig.tick();
    assert_eq!(rig.metadata_io(), (1, 1));
    assert!(
        rig.punches().is_empty(),
        "the flush completion has not been seen yet"
    );
    assert_eq!(rig.fetch_state(0), Evicting);

    rig.tick();
    assert_eq!(rig.punches(), vec![(0, STRIPE_BYTES)]);
    assert_eq!(rig.fetch_state(0), Evicted);
    assert_eq!(
        rig.header(0),
        (DIRTY | metadata_flags::EVICTED | metadata_flags::IN_S3) & !metadata_flags::FETCHED
    );
    assert!(rig.state.stripe_in_s3(0));
    assert_eq!(rig.state.in_s3_stripes(), 1);
    assert_eq!(rig.state.evicted_stripes(), 1);
    assert_eq!(rig.state.resident_stripes(), 1);
    assert_eq!(rig.state.fetched_stripes(), 1);
    assert_eq!(rig.counter(|c| c.evicted_dirty), 1);
    assert_eq!(rig.counter(|c| c.punches), 1);
    assert_eq!(
        rig.decode_object(0),
        vec![pattern(0); STRIPE_BYTES as usize]
    );
    assert_eq!(rig.stage(0), None);

    // One stripe over the ceiling of one: done, and no longer busy.
    rig.ticks(5);
    assert_eq!(rig.state.evicted_stripes(), 1);
    assert!(!rig.busy());
}

/// A stripe carrying the store's IN_S3 hint is never clean (see
/// `in_s3_hint_makes_a_resident_stripe_dirty`), so a clean eviction starts
/// from a stripe without it; the header op still clears the bit, belt and
/// braces against a hint that would read as authoritative under EVICTED.
#[test]
fn clean_eviction_writes_header_then_punches_without_put() {
    let mut rig = Rig::build(&[(0, CLEAN)], true, |cfg| {
        cfg.clean_eviction = true;
        cfg.max_local_bytes = 0;
    });
    rig.make_clean_evictable(&[0]);

    assert!(rig.run_until(10, |r| r.fetch_state(0) == Evicted));
    assert!(
        rig.put_order().is_empty(),
        "a clean eviction uploads nothing"
    );
    assert_eq!(rig.metadata_io(), (1, 1));
    assert_eq!(rig.punches(), vec![(0, STRIPE_BYTES)]);
    assert_eq!(
        rig.header(0),
        metadata_flags::EVICTED | metadata_flags::HAS_SOURCE
    );
    assert!(!rig.state.stripe_in_s3(0));
    assert_eq!(rig.state.in_s3_stripes(), 0);
    assert_eq!(rig.counter(|c| c.evicted_clean), 1);
    assert_eq!(rig.counter(|c| c.evicted_dirty), 0);
    assert!(!rig.state.stripe_fetched_live(0));
}

#[test]
fn nothing_is_punched_when_put_fails_and_store_is_degraded() {
    let mut rig = Rig::dirty(2, 0);
    rig.store.fail_put(object_name(0));

    assert!(rig.run_until(10, |r| r.counter(|c| c.put_failures) == 1));
    assert_eq!(rig.fetch_state(0), Fetched, "back where it was");
    assert!(rig.punches().is_empty());
    assert_eq!(rig.metadata_io(), (0, 0));
    assert_eq!(rig.header(0), DIRTY);
    assert!(rig.degraded());
    assert_eq!(rig.counter(|c| c.evictions_aborted), 1);
    assert!(!rig.state.stripe_in_s3(0));

    // Stripe 1 is dirty and over the ceiling, but the store is degraded.
    rig.ticks(10);
    assert_eq!(rig.records(), 0);
    assert_eq!(rig.put_order().len(), 1);
    assert_eq!(rig.state.evicted_stripes(), 0);
}

#[test]
fn nothing_is_punched_when_header_write_fails() {
    // Stripe 0 came from the source, stripe 1 is a written NoSource stripe:
    // both previous states have to come back.
    let mut rig = Rig::build(&[(0, DIRTY), (1, metadata_flags::WRITTEN)], true, |cfg| {
        cfg.max_local_bytes = 0;
        cfg.max_concurrent_evictions = 1;
    });
    assert_eq!(rig.fetch_state(1), NoSource);
    let (fetched, resident) = (rig.state.fetched_stripes(), rig.state.resident_stripes());

    for (stripe_id, previous) in [(0usize, Fetched), (1usize, NoSource)] {
        assert!(rig.run_until(10, |r| {
            matches!(r.stage(stripe_id), Some(Stage::WritingHeader { .. }))
        }));
        // The header op is queued; the write it becomes fails.
        rig.metadata_dev.fail_next();
        rig.tick();
        assert_eq!(rig.stage(stripe_id), None);
        assert_eq!(rig.fetch_state(stripe_id), previous);
        assert!(rig.punches().is_empty());
        assert_eq!(rig.metadata_io().1, 0, "nothing was flushed");
        assert_eq!(rig.flusher.header(stripe_id), rig.header(stripe_id));
        assert_eq!(rig.header(stripe_id) & metadata_flags::EVICTED, 0);
        assert_eq!(rig.state.fetched_stripes(), fetched);
        assert_eq!(rig.state.resident_stripes(), resident);
        // The aborted stripe is skipped for a second, so the hand moves on.
    }
    assert_eq!(rig.counter(|c| c.evictions_aborted), 2);
    assert_eq!(rig.state.evicted_stripes(), 0);
}

#[test]
fn uncertain_header_outcome_is_retried_not_aborted() {
    let mut rig = Rig::dirty(1, 0);
    assert!(rig.run_until(10, |r| {
        matches!(r.stage(0), Some(Stage::WritingHeader { .. }))
    }));
    let degraded_before = rig.counter(|c| c.degraded_reasons);

    // The write lands; the fsync after it fails.
    rig.metadata_dev.fail_next_flush();
    rig.tick();
    rig.tick();
    assert!(matches!(rig.stage(0), Some(Stage::WritingHeader { .. })));
    assert_eq!(rig.fetch_state(0), Evicting, "never aborted");
    assert!(rig.punches().is_empty());
    assert_eq!(rig.counter(|c| c.degraded_reasons), degraded_before + 1);
    assert_eq!(rig.metadata_io().0, 1);

    // Committed: a guest asking for it now waits rather than aborting.
    assert_eq!(rig.fetch(0), FetchDisposition::Deferred);
    // A NotWritten after an Uncertain would not abort either; here the retry
    // simply has not happened yet.
    rig.ticks(3);
    assert_eq!(rig.metadata_io().0, 1, "the retry waits for its backoff");
    assert_eq!(rig.fetch_state(0), Evicting);

    rig.advance(2);
    assert!(rig.run_until(10, |r| r.fetch_state(0) == Evicted));
    assert_eq!(rig.metadata_io(), (2, 1), "written twice, flushed once");
    assert_eq!(
        rig.punches(),
        vec![(0, STRIPE_BYTES)],
        "punched exactly once"
    );
    assert_eq!(
        rig.header(0) & metadata_flags::EVICTED,
        metadata_flags::EVICTED
    );
    let (fetches, pushes) = rig.evictor.take_released();
    assert_eq!(fetches, vec![0], "the deferred fetch is replayed");
    assert!(pushes.is_empty());
}

#[test]
fn punch_covers_only_the_short_last_stripe() {
    let last = STRIPES - 1;
    let short_sectors = 4;
    let mut rig = Rig::build(&[(last, DIRTY)], true, |cfg| {
        cfg.target_sector_count = TARGET_SECTORS - (STRIPE_SECTORS - short_sectors);
        cfg.max_local_bytes = 0;
    });

    assert!(rig.run_until(10, |r| r.fetch_state(last) == Evicted));
    let short_len = short_sectors * SECTOR_SIZE as u64;
    assert_eq!(rig.punches(), vec![(last as u64 * STRIPE_BYTES, short_len)]);
    assert_eq!(
        rig.decode_object(last),
        vec![pattern(last); short_len as usize],
        "only the sectors that exist are uploaded"
    );
}

#[test]
fn in_s3_is_set_only_after_the_put_succeeds() {
    let mut rig = Rig::dirty(1, 0);
    rig.store.hold_puts(true);

    assert!(rig.run_until(10, |r| r.stage(0) == Some(Stage::Putting)));
    assert!(!rig.state.stripe_in_s3(0));
    assert_eq!(rig.state.in_s3_stripes(), 0);
    assert_eq!(rig.flusher.header(0) & metadata_flags::IN_S3, 0);

    rig.store.release_puts();
    rig.tick();
    assert!(matches!(rig.stage(0), Some(Stage::WritingHeader { .. })));
    // The object is stored, but IN_S3 is authoritative only under EVICTED,
    // so memory waits for the header.
    assert!(!rig.state.stripe_in_s3(0));
    assert_eq!(rig.state.in_s3_stripes(), 0);

    assert!(rig.run_until(10, |r| r.fetch_state(0) == Evicted));
    assert!(rig.state.stripe_in_s3(0));
    assert_eq!(rig.state.in_s3_stripes(), 1);
    assert_eq!(rig.header(0) & metadata_flags::IN_S3, metadata_flags::IN_S3);
}

// ---- concurrency

#[test]
fn evictor_waits_for_inflight_zero_before_reading() {
    let mut rig = Rig::dirty(1, 0);
    rig.state.pin_inflight(0, 0);

    assert!(rig.run_until(5, |r| r.stage(0) == Some(Stage::Draining)));
    assert_eq!(rig.fetch_state(0), Evicting);
    rig.ticks(5);
    assert_eq!(rig.stage(0), Some(Stage::Draining));
    assert_eq!(rig.target_dev.reads(), 0);

    rig.state.unpin_inflight(0, 0);
    rig.tick();
    assert_ne!(rig.stage(0), Some(Stage::Draining));
    assert_eq!(rig.target_dev.reads(), 1);
    assert!(rig.run_until(10, |r| r.fetch_state(0) == Evicted));
}

#[test]
fn drain_timeout_aborts_with_degraded_reason() {
    let mut rig = Rig::dirty(1, 0);
    rig.state.pin_inflight(0, 0);
    assert!(rig.run_until(5, |r| r.stage(0) == Some(Stage::Draining)));
    let degraded_before = rig.counter(|c| c.degraded_reasons);

    rig.ticks(3);
    assert_eq!(rig.stage(0), Some(Stage::Draining), "within the timeout");

    rig.advance(6);
    rig.tick();
    assert_eq!(rig.stage(0), None);
    assert_eq!(rig.records(), 0);
    assert_eq!(rig.fetch_state(0), Fetched);
    assert_eq!(rig.counter(|c| c.degraded_reasons), degraded_before + 1);
    assert_eq!(rig.counter(|c| c.evictions_aborted), 1);
    assert!(rig.punches().is_empty());
}

#[test]
fn fetch_during_draining_aborts_and_restores_previous_state() {
    let mut rig = Rig::build(&[(0, DIRTY), (1, metadata_flags::WRITTEN)], true, |cfg| {
        cfg.max_local_bytes = 0;
        cfg.max_concurrent_evictions = 1;
    });
    let (fetched, resident) = (rig.state.fetched_stripes(), rig.state.resident_stripes());
    rig.state.pin_inflight(0, 1);

    for (stripe_id, previous) in [(0usize, Fetched), (1usize, NoSource)] {
        assert!(rig.run_until(5, |r| r.stage(stripe_id) == Some(Stage::Draining)));
        assert_eq!(rig.fetch_state(stripe_id), Evicting);
        assert_eq!(
            rig.fetch(stripe_id),
            FetchDisposition::Aborted
        );
        assert_eq!(rig.fetch_state(stripe_id), previous);
        assert_eq!(rig.stage(stripe_id), None);
        assert_eq!(
            rig.records(),
            0,
            "nothing outstanding to drain"
        );
        assert_eq!(rig.state.fetched_stripes(), fetched);
        assert_eq!(rig.state.resident_stripes(), resident);
        assert_ne!(
            rig.state.stripe_flags(stripe_id) & stripe_flags::REFERENCED,
            0
        );
    }
    assert_eq!(rig.counter(|c| c.evictions_aborted), 2);
    assert!(rig.punches().is_empty());
    assert_eq!(rig.metadata_io(), (0, 0));
}

#[test]
fn fetch_during_putting_aborts_and_stale_put_completion_is_ignored() {
    let mut rig = Rig::dirty(1, 0);
    rig.store.hold_puts(true);
    assert!(rig.run_until(10, |r| r.stage(0) == Some(Stage::Putting)));

    assert_eq!(rig.fetch(0), FetchDisposition::Aborted);
    assert_eq!(rig.fetch_state(0), Fetched);
    assert_eq!(rig.stage(0), None, "not an active eviction any more");
    assert_eq!(
        rig.records(),
        1,
        "the record waits for the PUT completion"
    );
    assert_eq!(rig.evictor.puts_in_flight, 1);

    // A second fetch while the record drains is simply forwarded.
    assert_eq!(rig.fetch(0), FetchDisposition::Forward);

    rig.store.release_puts();
    rig.tick();
    assert_eq!(rig.evictor.puts_in_flight, 0);
    assert_eq!(rig.records(), 0);
    assert_eq!(rig.fetch_state(0), Fetched);
    assert_eq!(
        rig.metadata_io(),
        (0, 0),
        "the stale PUT issues no header op"
    );
    assert!(rig.punches().is_empty());
    assert!(
        !rig.state.stripe_in_s3(0),
        "the orphan object is not claimed"
    );
}

#[test]
fn fetch_during_writing_header_is_deferred_and_replayed_after_evicted() {
    let mut rig = Rig::dirty(1, 0);
    assert!(rig.run_until(10, |r| {
        matches!(r.stage(0), Some(Stage::WritingHeader { .. }))
    }));

    assert_eq!(rig.fetch(0), FetchDisposition::Deferred);
    assert_eq!(rig.fetch(0), FetchDisposition::Deferred);
    assert_eq!(rig.fetch_state(0), Evicting);
    assert!(rig.evictor.take_released().0.is_empty());

    assert!(rig.run_until(10, |r| r.fetch_state(0) == Evicted));
    let (fetches, pushes) = rig.evictor.take_released();
    assert_eq!(fetches, vec![0]);
    assert!(pushes.is_empty());
    assert!(rig.evictor.take_released().0.is_empty(), "released once");
}

#[test]
fn stale_set_fetched_completion_does_not_release_an_evicting_stripe() {
    let mut rig = Rig::build(&[(0, metadata_flags::HAS_SOURCE)], true, |cfg| {
        cfg.max_local_bytes = 0;
    });
    assert_eq!(rig.fetch_state(0), NotFetched);

    // The coordinator lands the stripe in memory and queues the header; the
    // evictor claims it before the flusher gets to the queue.
    rig.state.mark_stripe_fetched(0);
    rig.state.mark_stripe_written(0);
    rig.flusher.set_stripe_fetched(0);
    rig.flusher.set_stripe_written(0);
    rig.update_evictor(Vec::new());
    assert_eq!(rig.fetch_state(0), Evicting);
    let fetched = rig.state.fetched_stripes();

    rig.tick();
    rig.tick();
    assert_ne!(
        rig.header(0) & metadata_flags::FETCHED,
        0,
        "the stale write landed"
    );
    assert_eq!(
        rig.fetch_state(0),
        Evicting,
        "but did not release the stripe"
    );
    assert_eq!(rig.state.fetched_stripes(), fetched);

    assert!(rig.run_until(15, |r| r.fetch_state(0) == Evicted));
    assert_eq!(
        rig.header(0),
        metadata_flags::EVICTED
            | metadata_flags::IN_S3
            | metadata_flags::HAS_SOURCE
            | metadata_flags::WRITTEN
    );
}

#[test]
fn abort_marks_referenced_and_skips_stripe_for_a_second() {
    let mut rig = Rig::dirty(2, 0);
    rig.state.pin_inflight(0, 0);
    assert!(rig.run_until(5, |r| r.stage(0) == Some(Stage::Draining)));
    assert_eq!(rig.state.stripe_flags(0) & stripe_flags::REFERENCED, 0);

    assert_eq!(rig.fetch(0), FetchDisposition::Aborted);
    assert_ne!(rig.state.stripe_flags(0) & stripe_flags::REFERENCED, 0);
    rig.state.unpin_inflight(0, 0);

    // The hand moves on to stripe 1 and evicts it.
    assert!(rig.run_until(15, |r| r.fetch_state(1) == Evicted));
    // Still over the ceiling, but stripe 0 was just aborted.
    rig.ticks(5);
    assert_eq!(rig.fetch_state(0), Fetched);
    assert_eq!(rig.records(), 0);

    rig.advance(2);
    // Its reference bit buys one more pass; the sweep clears it and comes
    // round again within the same batch.
    assert!(rig.run_until(15, |r| r.fetch_state(0) == Evicted));
    assert_eq!(rig.state.stripe_flags(0) & stripe_flags::REFERENCED, 0);
}

// ---- pushes

#[test]
fn push_for_dirty_evicting_stripe_is_ignored_and_pushed_recorded() {
    let mut rig = CoordRig::build(&[(0, DIRTY)], |cfg| cfg.max_local_bytes = 0);
    rig.store.hold_puts(true);
    assert!(rig.run_until(15, |r| {
        r.state.stripe_fetch_state(0) == Evicting && r.store.put_order().len() == 1
    }));
    let target_writes = rig.target_dev.writes();

    let pre_image = vec![0xEEu8; STRIPE_BYTES as usize];
    rig.push(0, pre_image);

    assert!(
        rig.state.stripe_pushed(0),
        "PUSHED recorded before disposition"
    );
    assert_eq!(rig.gate.queued(), 0, "the permit was dropped with the push");
    assert_eq!(
        rig.state.stripe_fetch_state(0),
        Evicting,
        "eviction continues"
    );
    rig.update();
    rig.update();
    assert_ne!(
        rig.metadata_dev.header(0) & metadata_flags::PUSHED,
        0,
        "PUSHED on disk"
    );
    assert_eq!(
        rig.target_dev.writes(),
        target_writes,
        "the pre-image never reached the device"
    );

    rig.store.release_puts();
    assert!(rig.run_until(15, |r| r.state.stripe_fetch_state(0) == Evicted));
    assert_eq!(
        rig.decode_object(0),
        vec![pattern(0); STRIPE_BYTES as usize]
    );
}

#[test]
fn push_for_clean_evicting_stripe_aborts_eviction() {
    let mut rig = Rig::build(&[(0, CLEAN)], true, |cfg| {
        cfg.clean_eviction = true;
        cfg.max_local_bytes = 0;
    });
    rig.make_clean_evictable(&[0]);
    rig.state.pin_inflight(0, 0);
    assert!(rig.run_until(5, |r| r.stage(0) == Some(Stage::Draining)));
    assert_eq!(rig.kind(0), Some(Kind::Clean));

    let mut gate = PushGate::new(4);
    let (disposition, permit) = rig.push(0, &[0u8; 512], &mut gate);
    assert_eq!(disposition, PushDisposition::AbortedEviction);
    assert!(permit.is_none());
    assert_eq!(gate.queued(), 0, "the duplicate's permit is released");
    assert_eq!(rig.fetch_state(0), Fetched, "the local copy stands");
    assert_eq!(rig.stage(0), None);
    assert_eq!(rig.counter(|c| c.evictions_aborted), 1);
    assert!(rig.punches().is_empty());
}

#[test]
fn push_for_committed_clean_eviction_is_deferred_then_applied() {
    let mut rig = Rig::build(&[(0, CLEAN)], true, |cfg| {
        cfg.clean_eviction = true;
        cfg.max_local_bytes = 0;
    });
    rig.make_clean_evictable(&[0]);
    assert!(rig.run_until(10, |r| {
        matches!(r.stage(0), Some(Stage::WritingHeader { .. }))
    }));

    let mut gate = PushGate::new(4);
    let data = vec![0xABu8; STRIPE_BYTES as usize];
    let (disposition, permit) = rig.push(0, &data, &mut gate);
    assert_eq!(disposition, PushDisposition::Deferred);
    assert!(permit.is_none());
    assert_eq!(gate.queued(), 1, "the permit is held with the bytes");
    assert!(rig.evictor.take_released().1.is_empty());

    assert!(rig.run_until(10, |r| r.fetch_state(0) == Evicted));
    let (fetches, mut pushes) = rig.evictor.take_released();
    assert!(fetches.is_empty());
    assert_eq!(pushes.len(), 1);
    let released = pushes.remove(0);
    assert_eq!(released.stripe_id, 0);
    assert_eq!(released.data, data);
    assert_eq!(gate.queued(), 1);
    gate.release(released.permit);
    assert_eq!(gate.queued(), 0);
}

/// WRITTEN on an evicted stripe is a write queued behind the eviction (the
/// channel sets it at queue time), not data on disk: a stripe evicted without
/// IN_S3 held the snapshot's content. The replica refuses the pull once it has
/// pushed, so the push is the only copy the fork can get and must go through.
#[test]
fn push_for_evicted_written_stripe_is_forwarded() {
    let mut rig = Rig::build(
        &[(
            0,
            metadata_flags::EVICTED | metadata_flags::WRITTEN | metadata_flags::HAS_SOURCE,
        )],
        true,
        |_| {},
    );
    assert_eq!(rig.fetch_state(0), Evicted);
    assert!(rig.state.stripe_written(0));
    let mut gate = PushGate::new(4);
    let (disposition, permit) = rig.push(0, &[0u8; 512], &mut gate);
    assert_eq!(disposition, PushDisposition::Forward);
    assert!(permit.is_some(), "the ingest needs the permit");
    assert_eq!(gate.queued(), 1);
    gate.release(permit.unwrap());

    // Failed with WAS_EVICTED and WRITTEN, still without IN_S3: the same.
    rig.state.set_stripe_failed(0);
    assert_eq!(rig.fetch_state(0), Failed);
    let (disposition, permit) = rig.push(0, &[0u8; 512], &mut gate);
    assert_eq!(disposition, PushDisposition::Forward);
    assert!(permit.is_some());
}

#[test]
fn push_for_evicted_in_s3_stripe_is_ignored() {
    let mut rig = Rig::build(
        &[(
            0,
            metadata_flags::EVICTED | metadata_flags::IN_S3 | metadata_flags::HAS_SOURCE,
        )],
        true,
        |_| {},
    );
    let mut gate = PushGate::new(4);
    let (disposition, _) = rig.push(0, &[0u8; 512], &mut gate);
    assert_eq!(disposition, PushDisposition::Ignore);

    // A fetch of it that failed for good leaves it Failed with WAS_EVICTED
    // and IN_S3 still set: the same hazard, the same answer.
    rig.state.set_stripe_failed(0);
    assert_eq!(rig.fetch_state(0), Failed);
    let (disposition, permit) = rig.push(0, &[0u8; 512], &mut gate);
    assert_eq!(disposition, PushDisposition::Ignore);
    assert!(permit.is_none());
    assert_eq!(gate.queued(), 0);
}

#[test]
fn push_for_evicted_clean_stripe_is_forwarded() {
    let mut rig = Rig::build(
        &[(0, metadata_flags::EVICTED | metadata_flags::HAS_SOURCE)],
        true,
        |_| {},
    );
    let mut gate = PushGate::new(4);
    let (disposition, permit) = rig.push(0, &[0u8; 512], &mut gate);
    assert_eq!(disposition, PushDisposition::Forward);
    assert!(permit.is_some(), "the ingest needs the permit");
    assert_eq!(gate.queued(), 1);
    gate.release(permit.unwrap());

    // Failed with WAS_EVICTED and neither WRITTEN nor IN_S3: the push is the
    // only copy the fork can get.
    rig.state.set_stripe_failed(0);
    let (disposition, permit) = rig.push(0, &[0u8; 512], &mut gate);
    assert_eq!(disposition, PushDisposition::Forward);
    assert!(permit.is_some());

    // And a plain resident or unfetched stripe is none of the evictor's business.
    let (disposition, permit) = rig.push(3, &[0u8; 512], &mut gate);
    assert_eq!(disposition, PushDisposition::Forward);
    assert!(permit.is_some());
}

// ---- re-materialisation, through the coordinator

#[test]
fn rematerialised_stripe_is_not_released_before_header_is_durable() {
    let evicted = metadata_flags::EVICTED | metadata_flags::HAS_SOURCE;
    let mut rig = CoordRig::build(&[(0, evicted)], |_| {});
    assert_eq!(rig.state.stripe_fetch_state(0), Evicted);
    let (resident, fetched) = (rig.state.resident_stripes(), rig.state.fetched_stripes());

    // The only flush the metadata device sees is the release op's.
    rig.metadata_dev.fail_next_flush();
    rig.fetch(0);
    // The data lands and the header write goes out, but its flush fails.
    assert!(rig.run_until(20, |r| r.metadata_io().0 >= 1));
    assert_eq!(
        rig.target_stripe(0),
        vec![0x80 | pattern(0); STRIPE_BYTES as usize]
    );
    assert!(rig.run_until(5, |r| r.metadata_io().0 >= 2), "retried");
    assert_eq!(
        rig.state.stripe_fetch_state(0),
        Evicted,
        "guest I/O still waits"
    );
    assert_eq!(rig.state.resident_stripes(), resident);

    assert!(rig.run_until(10, |r| r.state.stripe_fetch_state(0) == Fetched));
    assert_eq!(rig.state.resident_stripes(), resident + 1);
    assert_eq!(rig.state.fetched_stripes(), fetched + 1);
    assert_eq!(rig.state.evicted_stripes(), 0);
    let header = rig.metadata_dev.header(0);
    assert_ne!(header & metadata_flags::FETCHED, 0);
    assert_eq!(header & metadata_flags::EVICTED, 0);
    assert_eq!(rig.source_reads(), 1);
    assert!(rig.puncher.punches.is_empty());
}

#[test]
fn fetch_for_stripe_in_pending_release_is_dropped() {
    let evicted = metadata_flags::EVICTED | metadata_flags::HAS_SOURCE;
    let mut rig = CoordRig::build(&[(0, evicted)], |_| {});

    rig.fetch(0);
    // Landed (data written) and the release header written but not yet
    // flushed: the stripe waits in pending_release.
    assert!(rig.run_until(20, |r| r.metadata_io().0 == 1));
    assert_eq!(rig.target_dev.writes(), 1);
    assert_eq!(rig.state.stripe_fetch_state(0), Evicted);
    assert_eq!(rig.source_reads(), 1);

    // The channel's re-send: dropped, not re-fetched.
    rig.fetch(0);
    rig.fetch(0);
    assert!(rig.run_until(10, |r| r.state.stripe_fetch_state(0) == Fetched));
    rig.run_until(5, |_| false);
    assert_eq!(rig.source_reads(), 1, "one pull for one re-materialisation");
    assert_eq!(rig.target_dev.writes(), 1);

    // Resident now: a fetch is forwarded and the fetcher finds nothing to do.
    rig.fetch(0);
    rig.run_until(5, |_| false);
    assert_eq!(rig.source_reads(), 1);
}

/// The coordinator's side of the FAIL-gate rule, with a channel in the loop.
/// A read queued on a missing stripe under GATE_FAIL sends a Fetch the
/// coordinator refuses. When the write gate reopens before the channel polls, the
/// channel finds the write gate open and its front Pending on a NotFetched stripe,
/// which it never asks for again; only the coordinator's replay of the
/// refused Fetch lands the stripe and lets the read complete.
#[test]
fn refused_fetch_is_routed_once_the_gate_reopens() {
    let headers: Vec<(usize, u8)> = (0..STRIPES - 1).map(|s| (s, DIRTY)).collect();
    let mut rig = CoordRig::build(&headers, |cfg| {
        cfg.max_local_bytes = stripes_bytes(4);
        cfg.hard_margin_bytes = STRIPE_BYTES;
        cfg.on_full = OnFull::Fail;
    });
    rig.store.hold_puts(true);
    let unfetched = STRIPES - 1;
    rig.update();
    assert_eq!(rig.state.write_gate(), GATE_FAIL);

    // The guest reads the missing stripe: the channel queues the read and
    // asks for the stripe, and the coordinator refuses. The channel is not
    // polled while the write gate is closed, so it never fails the read itself.
    let mut guest = Guest::new(&rig.target_dev, true);
    let buf = shared_buffer(SECTOR_SIZE);
    guest.read(
        &mut rig.state,
        unfetched as u64 * STRIPE_SECTORS,
        1,
        &buf,
        7,
        rig.clock.now,
    );
    for stripe_id in guest.take_fetches() {
        rig.fetch(stripe_id);
    }
    rig.run_until(3, |_| false);
    assert_eq!(
        rig.source_reads(),
        0,
        "refused: nothing pulled while closed"
    );

    rig.store.hold_puts(false);
    rig.store.release_puts();
    assert!(rig.run_until(60, |r| r.state.write_gate() == GATE_OPEN));
    // Polled only now, the channel waits on a stripe it will not ask for
    // again.
    assert!(guest.poll(&mut rig.state, rig.clock.now).is_empty());
    assert!(guest.busy());

    assert!(rig.run_until(30, |r| r.source_reads() == 1), "replayed");
    assert!(rig.run_until(30, |r| r.target_stripe(unfetched)
        == vec![0x80 | pattern(unfetched); STRIPE_BYTES as usize]));
    // Served once the replayed fetch has landed. The stripe may be claimed
    // by the evictor the moment it is resident, in which case the channel's
    // request aborts that eviction and is served on the poll after.
    let mut served = Vec::new();
    for _ in 0..30 {
        served = guest.poll(&mut rig.state, rig.clock.now);
        if !served.is_empty() {
            break;
        }
        for stripe_id in guest.take_fetches() {
            rig.fetch(stripe_id);
        }
        rig.update();
    }
    assert_eq!(served, vec![(7, true)], "the queued read is served");
    assert_eq!(
        buf.borrow()[..SECTOR_SIZE],
        vec![0x80 | pattern(unfetched); SECTOR_SIZE][..]
    );
    rig.run_until(5, |_| false);
    assert_eq!(rig.source_reads(), 1, "pulled once");
}

#[test]
fn in_s3_count_drops_when_a_spilled_stripe_is_rematerialised() {
    let spilled = metadata_flags::EVICTED | metadata_flags::IN_S3 | metadata_flags::HAS_SOURCE;
    let mut rig = CoordRig::build(&[(0, spilled), (1, spilled)], |_| {});
    assert_eq!(rig.state.in_s3_stripes(), 2);
    assert_eq!(rig.state.evicted_stripes(), 2);

    // Without the composite source the pull goes to base; the accounting is
    // the coordinator's either way.
    rig.fetch(1);
    assert!(rig.run_until(30, |r| r.state.stripe_fetch_state(1) == Fetched));
    assert_eq!(rig.state.in_s3_stripes(), 1);
    assert_eq!(rig.state.evicted_stripes(), 1);
    assert!(
        rig.state.stripe_in_s3(1),
        "the hint stays for the purge tool"
    );
    assert_eq!(
        rig.metadata_dev.header(1),
        metadata_flags::FETCHED | metadata_flags::IN_S3 | metadata_flags::HAS_SOURCE
    );
}

/// A stripe that came back from the store carries IN_S3 as a purge hint, and
/// the release sets FETCHED_LIVE because the subscription is up. It was
/// uploaded because its content could not be trusted to match the snapshot,
/// so it must never be dropped as clean afterwards: the next eviction PUTs
/// again rather than clearing IN_S3 and routing the re-fetch to base.
#[test]
fn rematerialised_from_store_is_never_clean() {
    let spilled = metadata_flags::EVICTED | metadata_flags::IN_S3 | metadata_flags::HAS_SOURCE;
    let mut rig = CoordRig::build(&[(0, spilled)], |cfg| {
        cfg.clean_eviction = true;
        cfg.max_local_bytes = 0;
    });
    rig.state.set_source_live(true);
    assert_eq!(rig.state.stripe_fetch_state(0), Evicted);
    // Nothing is resident, so nothing is under pressure yet.
    rig.run_until(3, |_| false);
    assert!(rig.puncher.punches.is_empty());

    // Re-materialised through the pending release, with the store's hint and
    // the live bit both set: exactly the shape that read as clean before.
    // The tick that releases it also finds the device over its ceiling and
    // claims it again, so "left Evicted" is what can be observed.
    rig.fetch(0);
    assert!(rig.run_until(30, |r| r.state.stripe_fetch_state(0) != Evicted));
    assert!(rig.state.stripe_in_s3(0), "the purge hint stays");
    assert!(rig.state.stripe_fetched_live(0));
    assert!(!rig.state.stripe_written(0));
    let content = rig.target_stripe(0);

    // Over the ceiling: the stripe is evicted again, and dirty.
    assert!(rig.run_until(40, |r| r.state.stripe_fetch_state(0) == Evicted));
    assert_eq!(rig.state.spill().evicted_dirty, 1);
    assert_eq!(rig.state.spill().evicted_clean, 0);
    assert_eq!(rig.store.put_order(), vec![object_name(0)]);
    assert_eq!(rig.decode_object(0), content);
    assert_eq!(rig.metadata_dev.header(0), spilled);
    assert!(rig.state.stripe_in_s3(0));
    assert_eq!(rig.puncher.punches.len(), 1);
}

// ---- selection

#[test]
fn clean_before_dirty() {
    let mut rig = Rig::build(&[(0, DIRTY), (1, CLEAN)], true, |cfg| {
        cfg.clean_eviction = true;
        cfg.max_local_bytes = STRIPE_BYTES;
        cfg.max_concurrent_evictions = 1;
    });
    rig.make_clean_evictable(&[1]);

    rig.tick();
    assert_eq!(
        rig.kind(1),
        Some(Kind::Clean),
        "the clean stripe goes first"
    );
    assert_eq!(rig.stage(0), None);
    assert_eq!(rig.fetch_state(0), Fetched);
    assert!(rig.run_until(10, |r| r.fetch_state(1) == Evicted));
    assert!(rig.put_order().is_empty());
    // One over the ceiling of one: satisfied without touching the dirty stripe.
    rig.ticks(3);
    assert_eq!(rig.fetch_state(0), Fetched);
}

#[test]
fn referenced_stripes_skipped_once() {
    let mut rig = Rig::build(&[(0, DIRTY), (1, DIRTY)], true, |cfg| {
        cfg.max_local_bytes = 0;
        cfg.max_concurrent_evictions = 1;
        cfg.sweep_batch = 1;
    });
    rig.state.touch(0, 0);

    rig.tick();
    assert_eq!(
        rig.records(),
        0,
        "stripe 0 had its bit set"
    );
    assert_eq!(rig.state.stripe_flags(0) & stripe_flags::REFERENCED, 0);
    assert_eq!(rig.evictor.hand, 1);

    rig.tick();
    assert_eq!(rig.kind(1), Some(Kind::Dirty));
    assert_eq!(rig.stage(0), None);
    assert!(rig.run_until(15, |r| r.fetch_state(1) == Evicted));

    // Second time round the bit is clear and stripe 0 goes.
    assert!(rig.run_until(30, |r| r.fetch_state(0) == Evicted));
}

#[test]
fn evicting_notfetched_and_unwritten_nosource_never_claimed() {
    let mut rig = Rig::build(
        &[
            (0, metadata_flags::HAS_SOURCE),
            (1, 0),
            (2, DIRTY),
            (3, metadata_flags::EVICTED | metadata_flags::HAS_SOURCE),
        ],
        true,
        |cfg| {
            cfg.max_local_bytes = 0;
            cfg.clean_eviction = true;
        },
    );
    rig.state.set_source_live(true);
    rig.state.set_stripe_fetch_state_for_test(2, Evicting);
    assert_eq!(rig.fetch_state(0), NotFetched);
    assert_eq!(rig.fetch_state(1), NoSource);
    assert!(!rig.state.stripe_written(1));
    // Nothing counts as resident, so pressure has to come from the filesystem.
    rig.puncher.free = 0;

    rig.ticks(10);
    assert_eq!(rig.records(), 0);
    assert_eq!(rig.fetch_state(0), NotFetched);
    assert_eq!(rig.fetch_state(1), NoSource);
    assert_eq!(rig.fetch_state(2), Evicting);
    assert_eq!(rig.fetch_state(3), Evicted);
    assert!(rig.punches().is_empty());
    assert_eq!(rig.metadata_io(), (0, 0));
}

fn kind_under(headers: &[(usize, u8)], clean_eviction: bool, source_live: bool, flags: u8) -> Kind {
    let mut rig = Rig::build(headers, true, |cfg| {
        cfg.clean_eviction = clean_eviction;
        cfg.max_local_bytes = 0;
    });
    rig.state.set_source_live(source_live);
    if flags != 0 {
        rig.state.set_stripe_flags(0, flags);
    }
    rig.tick();
    rig.kind(0).expect("stripe 0 claimed")
}

#[test]
fn pushed_counts_as_dirty() {
    let kind = kind_under(
        &[(0, CLEAN)],
        true,
        true,
        stripe_flags::FETCHED_LIVE | stripe_flags::PUSHED,
    );
    assert_eq!(kind, Kind::Dirty);
}

#[test]
fn all_dirty_when_source_not_live() {
    assert_eq!(
        kind_under(&[(0, CLEAN)], true, false, stripe_flags::FETCHED_LIVE),
        Kind::Dirty
    );
}

#[test]
fn not_fetched_live_is_dirty() {
    assert_eq!(kind_under(&[(0, CLEAN)], true, true, 0), Kind::Dirty);
    // With the bit the very same stripe is clean.
    assert_eq!(
        kind_under(&[(0, CLEAN)], true, true, stripe_flags::FETCHED_LIVE),
        Kind::Clean
    );
}

/// The predicate alone: a resident stripe still carrying the store's hint is
/// dirty whatever else says clean.
#[test]
fn in_s3_hint_makes_a_resident_stripe_dirty() {
    assert_eq!(
        kind_under(
            &[(0, CLEAN | metadata_flags::IN_S3)],
            true,
            true,
            stripe_flags::FETCHED_LIVE
        ),
        Kind::Dirty
    );
}

#[test]
fn clean_eviction_off_by_default_makes_everything_dirty() {
    assert!(!base_config(TARGET_SECTORS).clean_eviction);
    assert_eq!(
        kind_under(&[(0, CLEAN)], false, true, stripe_flags::FETCHED_LIVE),
        Kind::Dirty
    );
}

#[test]
fn written_nosource_stripe_is_dirty_and_evictable() {
    let mut rig = Rig::build(&[(0, metadata_flags::WRITTEN)], true, |cfg| {
        cfg.max_local_bytes = 0;
    });
    assert_eq!(rig.fetch_state(0), NoSource);
    assert_eq!(rig.state.resident_stripes(), 1);
    assert_eq!(rig.state.fetched_stripes(), 0);

    rig.tick();
    assert_eq!(rig.kind(0), Some(Kind::Dirty));
    assert!(rig.run_until(10, |r| r.fetch_state(0) == Evicted));
    assert_eq!(rig.state.resident_stripes(), 0);
    assert_eq!(rig.state.fetched_stripes(), 0, "never counted as fetched");
    assert_eq!(rig.state.in_s3_stripes(), 1);
    assert_eq!(
        rig.header(0),
        metadata_flags::EVICTED | metadata_flags::IN_S3 | metadata_flags::WRITTEN
    );
    assert_eq!(
        rig.decode_object(0),
        vec![pattern(0); STRIPE_BYTES as usize]
    );
}

#[test]
fn hand_bounded_by_sweep_batch() {
    let headers: Vec<(usize, u8)> = (0..STRIPES).map(|s| (s, DIRTY)).collect();
    let mut rig = Rig::build(&headers, true, |cfg| {
        cfg.max_local_bytes = 0;
        cfg.max_concurrent_evictions = STRIPES;
        cfg.sweep_batch = 3;
    });
    rig.store.hold_puts(true);

    rig.tick();
    assert_eq!(rig.records(), 3);
    assert_eq!(rig.evictor.hand, 3);
    rig.tick();
    assert_eq!(rig.records(), 6);
    assert_eq!(rig.evictor.hand, 6);
}

#[test]
fn bounded_puts_in_flight() {
    let headers: Vec<(usize, u8)> = (0..STRIPES).map(|s| (s, DIRTY)).collect();
    let mut rig = Rig::build(&headers, true, |cfg| {
        cfg.max_local_bytes = 0;
        cfg.max_concurrent_evictions = 2;
    });
    rig.store.hold_puts(true);

    assert!(rig.run_until(10, |r| r.evictor.puts_in_flight == 2));
    rig.ticks(10);
    assert_eq!(rig.evictor.puts_in_flight, 2);
    assert_eq!(rig.put_order().len(), 2);
    assert_eq!(rig.records(), 2);

    // Releasing them lets the next two in, never more.
    rig.store.release_puts();
    assert!(rig.run_until(10, |r| r.state.evicted_stripes() == 2));
    assert!(rig.run_until(10, |r| r.evictor.puts_in_flight == 2));
    assert_eq!(rig.put_order().len(), 4);
}

// ---- pressure and gate

#[test]
fn soft_pressure_evicts_to_low_water() {
    let headers: Vec<(usize, u8)> = (0..STRIPES).map(|s| (s, DIRTY)).collect();
    let mut rig = Rig::build(&headers, true, |cfg| {
        cfg.max_local_bytes = stripes_bytes(6);
        cfg.low_water_bytes = stripes_bytes(2);
        cfg.hard_margin_bytes = stripes_bytes(4);
        cfg.max_concurrent_evictions = 4;
    });

    rig.tick();
    assert!(rig.busy());
    assert!(rig.run_until(40, |r| r.state.resident_stripes() == 4));
    rig.ticks(10);
    assert_eq!(
        rig.state.resident_stripes(),
        4,
        "stops at the low-water mark"
    );
    assert_eq!(rig.state.evicted_stripes(), 4);
    assert_eq!(rig.records(), 0);
    assert!(!rig.busy());
    assert_eq!(
        rig.state.write_gate(),
        GATE_OPEN,
        "never under hard pressure"
    );
    assert_eq!(rig.counter(|c| c.stalls), 0);
}

#[test]
fn hard_pressure_closes_gate_and_reopens_releasing_held_fetches() {
    // Seven resident, one unfetched; ceiling four, margin two.
    let headers: Vec<(usize, u8)> = (0..STRIPES - 1).map(|s| (s, DIRTY)).collect();
    let mut rig = Rig::build(&headers, true, |cfg| {
        cfg.max_local_bytes = stripes_bytes(4);
        cfg.low_water_bytes = STRIPE_BYTES;
        cfg.hard_margin_bytes = stripes_bytes(2);
        cfg.max_concurrent_evictions = 2;
    });
    rig.store.hold_puts(true);
    let unfetched = STRIPES - 1;
    assert_eq!(rig.fetch_state(unfetched), NotFetched);

    rig.tick();
    assert_eq!(rig.state.write_gate(), GATE_HOLD);
    assert_eq!(rig.counter(|c| c.stalls), 1);
    assert_eq!(
        rig.fetch(unfetched),
        FetchDisposition::HeldForSpace
    );
    assert_eq!(
        rig.fetch(unfetched),
        FetchDisposition::HeldForSpace,
        "the channel re-sends"
    );
    assert_eq!(rig.evictor.held_for_space, vec![unfetched]);
    assert_eq!(
        rig.fetch(6),
        FetchDisposition::Forward,
        "resident stripes are not held (6 is not being evicted)"
    );
    rig.ticks(3);
    assert_eq!(rig.counter(|c| c.stalls), 1, "warned once per transition");
    assert!(rig.evictor.take_released().0.is_empty());

    rig.store.hold_puts(false);
    rig.store.release_puts();
    assert!(rig.run_until(40, |r| r.state.write_gate() == GATE_OPEN));
    assert!(rig.state.resident_stripes() <= 6);
    let (fetches, pushes) = rig.evictor.take_released();
    assert_eq!(fetches, vec![unfetched]);
    assert!(pushes.is_empty());
    assert!(rig.evictor.held_for_space.is_empty());
    // Still soft pressure: the sweep carries on down to the low-water mark.
    assert!(rig.run_until(40, |r| r.state.resident_stripes() == 3));
}

/// Under GATE_FAIL the channel fails the request itself, but only if it polls
/// while the write gate is still closed. Should the write gate reopen first, the Pending
/// front waits for a fetch the channel never re-sends (NotFetched stripes
/// are not re-sent for), so the refused fetch is kept and replayed like a
/// held one.
#[test]
fn fail_gate_refuses_the_fetch_and_replays_it_when_the_gate_reopens() {
    let headers: Vec<(usize, u8)> = (0..STRIPES - 1).map(|s| (s, DIRTY)).collect();
    let mut rig = Rig::build(&headers, true, |cfg| {
        cfg.max_local_bytes = stripes_bytes(4);
        cfg.hard_margin_bytes = STRIPE_BYTES;
        cfg.on_full = OnFull::Fail;
    });
    rig.store.hold_puts(true);
    let unfetched = STRIPES - 1;
    rig.tick();
    assert_eq!(rig.state.write_gate(), GATE_FAIL);
    assert_eq!(
        rig.fetch(unfetched),
        FetchDisposition::Refused
    );
    assert_eq!(
        rig.fetch(unfetched),
        FetchDisposition::Refused,
        "the channel re-sends"
    );
    assert_eq!(rig.evictor.held_for_space, vec![unfetched]);
    assert_eq!(
        rig.fetch(6),
        FetchDisposition::Forward,
        "resident stripes pass"
    );
    rig.ticks(3);
    assert!(
        rig.evictor.take_released().0.is_empty(),
        "nothing replayed while closed"
    );

    rig.store.hold_puts(false);
    rig.store.release_puts();
    assert!(rig.run_until(40, |r| r.state.write_gate() == GATE_OPEN));
    let (fetches, pushes) = rig.evictor.take_released();
    assert_eq!(fetches, vec![unfetched]);
    assert!(pushes.is_empty());
    assert!(rig.evictor.held_for_space.is_empty());
}

#[test]
fn statfs_pressure_evicts_even_below_ceiling() {
    let mut rig = Rig::build(&[(0, DIRTY), (1, DIRTY)], true, |cfg| {
        cfg.max_local_bytes = stripes_bytes(100);
        cfg.min_free_bytes = stripes_bytes(4);
    });
    rig.puncher.free = STRIPE_BYTES;

    rig.tick();
    assert_eq!(
        rig.counter(|c| c.free_bytes),
        STRIPE_BYTES,
        "statfs published"
    );
    assert_eq!(rig.state.write_gate(), GATE_HOLD, "below half the minimum");
    assert!(rig.run_until(20, |r| r.state.evicted_stripes() == 2));
    assert_eq!(
        rig.state.write_gate(),
        GATE_HOLD,
        "the filesystem is still full"
    );

    // Room comes back (something else was deleted): the write gate opens on the
    // next statfs, which is rate limited, so the interval is skipped.
    rig.puncher.free = 1 << 40;
    rig.advance(1);
    rig.tick();
    assert_eq!(rig.state.write_gate(), GATE_OPEN);
    assert!(!rig.busy());
}

#[test]
fn degraded_store_blocks_dirty_but_not_clean() {
    let mut rig = Rig::build(&[(0, DIRTY), (1, CLEAN), (2, DIRTY)], true, |cfg| {
        cfg.clean_eviction = true;
        cfg.max_local_bytes = 0;
        cfg.max_concurrent_evictions = 1;
        cfg.sweep_batch = 1;
    });
    rig.make_clean_evictable(&[1]);
    rig.store.fail_put(object_name(0));

    assert!(rig.run_until(10, |r| r.counter(|c| c.put_failures) == 1));
    assert!(rig.degraded());
    assert_eq!(rig.fetch_state(0), Fetched);

    // The clean stripe still goes; the dirty ones wait for the store.
    assert!(rig.run_until(15, |r| r.fetch_state(1) == Evicted));
    assert_eq!(rig.counter(|c| c.evicted_clean), 1);
    rig.ticks(20);
    assert_eq!(rig.fetch_state(0), Fetched);
    assert_eq!(rig.fetch_state(2), Fetched);
    assert_eq!(rig.counter(|c| c.evicted_dirty), 0);
    assert_eq!(rig.put_order().len(), 1);
    assert!(rig.degraded());
    assert!(
        !rig.busy(),
        "nothing it can do until the backoff passes"
    );
}

#[test]
fn half_open_after_backoff() {
    let mut rig = Rig::build(&[(0, DIRTY), (1, DIRTY), (2, DIRTY)], true, |cfg| {
        cfg.max_local_bytes = 0;
        cfg.max_concurrent_evictions = 2;
    });
    rig.store.fail_put(object_name(0));
    rig.store.fail_put(object_name(1));

    assert!(rig.run_until(10, |r| r.counter(|c| c.put_failures) == 2));
    assert!(rig.degraded());
    rig.ticks(10);
    assert_eq!(
        rig.records(),
        0,
        "paused during the backoff"
    );
    assert_eq!(rig.put_order().len(), 2);

    // The backoff passes: exactly one upload probes the store.
    rig.advance(10);
    rig.tick();
    assert_eq!(rig.records(), 1, "half-open: one probe");
    rig.tick();
    assert_eq!(rig.records(), 1);
    assert!(rig.run_until(10, |r| !r.degraded()));
    assert_eq!(rig.put_order().len(), 3);

    // Recovered: full concurrency again and everything goes.
    assert!(rig.run_until(30, |r| r.state.evicted_stripes() == 3));
    assert_eq!(rig.counter(|c| c.put_failures), 2);
    assert_eq!(rig.counter(|c| c.evicted_dirty), 3);
}

// ---- startup

#[test]
fn startup_pass_punches_every_evicted_stripe_and_coalesces_runs() {
    let evicted = metadata_flags::EVICTED | metadata_flags::HAS_SOURCE;
    let last = STRIPES - 1;
    let mut rig = Rig::build(&[], true, |cfg| {
        cfg.target_sector_count = TARGET_SECTORS - 4;
    });
    let metadata = metadata_with(&[
        (1, evicted),
        (2, evicted),
        (3, evicted),
        (5, evicted | metadata_flags::IN_S3),
        (last, evicted),
    ]);

    assert_eq!(rig.punch_all_evicted(&metadata), 5);
    assert_eq!(
        rig.punches(),
        vec![
            (STRIPE_BYTES, 3 * STRIPE_BYTES),
            (5 * STRIPE_BYTES, STRIPE_BYTES),
            (last as u64 * STRIPE_BYTES, 4 * SECTOR_SIZE as u64),
        ]
    );
    assert_eq!(rig.counter(|c| c.startup_punches), 3);
    assert_eq!(
        rig.counter(|c| c.punches),
        0,
        "counted apart from evictions"
    );

    // Idempotent: the same calls again.
    assert_eq!(rig.punch_all_evicted(&metadata), 5);
    assert_eq!(rig.punches().len(), 6);
    assert_eq!(rig.counter(|c| c.startup_punches), 6);

    // A failed run is counted and does not stop the pass.
    rig.puncher.fail_next = true;
    assert_eq!(rig.punch_all_evicted(&metadata), 2);
    assert_eq!(rig.counter(|c| c.punch_failures), 1);
    assert_eq!(rig.punches().len(), 8);
    assert!(
        rig.evictor.punch_supported,
        "EIO is not EOPNOTSUPP"
    );

    // Nothing evicted, nothing punched.
    assert_eq!(
        rig.punch_all_evicted(&metadata_with(&[])),
        0
    );
    assert_eq!(rig.punches().len(), 8);
}

#[test]
fn startup_pass_ignores_fetched_and_evicted_header() {
    let mut rig = Rig::build(&[], true, |_| {});
    let metadata = metadata_with(&[
        (
            2,
            metadata_flags::FETCHED | metadata_flags::EVICTED | metadata_flags::HAS_SOURCE,
        ),
        (4, metadata_flags::EVICTED | metadata_flags::HAS_SOURCE),
    ]);
    assert_eq!(rig.punch_all_evicted(&metadata), 1);
    assert_eq!(rig.punches(), vec![(4 * STRIPE_BYTES, STRIPE_BYTES)]);
}

// ---- the remaining transitions

#[test]
fn punch_failure_still_finishes_the_eviction() {
    let mut rig = Rig::dirty(1, 0);
    rig.puncher.fail_next = true;
    let degraded_before = rig.counter(|c| c.degraded_reasons);

    assert!(rig.run_until(10, |r| r.fetch_state(0) == Evicted));
    // The disk says not-local, so the state follows whatever happened to the
    // blocks; the failure is loud rather than blocking.
    assert!(rig.punches().is_empty());
    assert_eq!(rig.counter(|c| c.punch_failures), 1);
    assert_eq!(rig.counter(|c| c.punches), 0);
    assert_eq!(rig.counter(|c| c.degraded_reasons), degraded_before + 1);
    assert!(rig.evictor.punch_supported);
}

#[test]
fn unsupported_punch_stops_further_evictions() {
    let mut rig = Rig::dirty(2, 0);
    rig.puncher.fail_errno = EOPNOTSUPP;
    rig.puncher.fail_next = true;

    assert!(rig.run_until(10, |r| r.fetch_state(0) == Evicted));
    assert!(!rig.evictor.punch_supported);
    // Stripe 1 is over the ceiling too, but evicting it would free nothing.
    rig.ticks(10);
    assert_eq!(rig.fetch_state(1), Fetched);
    assert_eq!(rig.records(), 0);
    assert!(!rig.busy());
}

#[test]
fn read_failure_aborts_the_eviction() {
    let mut rig = Rig::dirty(1, 0);
    rig.state.pin_inflight(0, 0);
    assert!(rig.run_until(5, |r| r.stage(0) == Some(Stage::Draining)));
    rig.state.unpin_inflight(0, 0);
    rig.target_dev.0.borrow_mut().fail_next = true;

    rig.tick();
    assert_eq!(rig.stage(0), Some(Stage::Reading));
    rig.tick();
    assert_eq!(rig.stage(0), None);
    assert_eq!(rig.records(), 0);
    assert_eq!(rig.fetch_state(0), Fetched);
    assert!(rig.put_order().is_empty());
    assert_eq!(rig.counter(|c| c.evictions_aborted), 1);

    // The buffer came back: the retry after the skip reads and uploads.
    rig.advance(2);
    assert!(rig.run_until(15, |r| r.fetch_state(0) == Evicted));
}

/// A read whose submit failed may still complete: io_uring keeps the SQE and
/// enters it with the next submit. Returning the buffer and forgetting the
/// record there would let the late completion be taken for a later eviction's
/// read of the same stripe, and bytes read before the guest wrote again be
/// uploaded as the fork's data. The record and its buffer wait for it, and
/// the stripe is not claimed again until it has drained.
#[test]
fn failed_read_submit_keeps_the_record_until_the_completion_lands() {
    let mut rig = Rig::dirty(1, 0);
    rig.state.pin_inflight(0, 0);
    assert!(rig.run_until(5, |r| r.stage(0) == Some(Stage::Draining)));
    let degraded_before = rig.counter(|c| c.degraded_reasons);
    rig.target_dev.0.borrow_mut().keep_requests_on_failed_submit = true;
    rig.target_dev.0.borrow_mut().fail_submit = true;
    rig.target_dev.0.borrow_mut().hold_completions = true;
    rig.state.unpin_inflight(0, 0);

    rig.tick();
    assert_eq!(rig.target_dev.reads(), 1);
    assert_eq!(rig.stage(0), None, "aborted");
    assert_eq!(rig.fetch_state(0), Fetched);
    assert_eq!(
        rig.records(),
        1,
        "the record waits for the read"
    );
    assert_eq!(rig.counter(|c| c.evictions_aborted), 1);
    assert_eq!(rig.counter(|c| c.degraded_reasons), degraded_before + 1);
    assert!(rig.put_order().is_empty());

    // The guest writes, and the hand comes round again; the stripe is not
    // re-claimed while its old read is owed.
    let written = vec![0x5A; STRIPE_BYTES as usize];
    rig.target_dev.0.borrow_mut().mem[..written.len()].copy_from_slice(&written);
    rig.advance(2);
    rig.ticks(3);
    assert_eq!(rig.records(), 1);
    assert_eq!(rig.stage(0), None);
    assert_eq!(rig.fetch_state(0), Fetched);
    assert_eq!(
        rig.target_dev.reads(),
        1,
        "no second read"
    );
    assert!(rig.put_order().is_empty());

    // The late completion drains the record and uploads nothing; only then
    // is the stripe claimed again, and read afresh.
    rig.target_dev.0.borrow_mut().hold_completions = false;
    rig.tick();
    assert_eq!(rig.target_dev.reads(), 1);
    assert!(rig.put_order().is_empty(), "the stale read is not uploaded");
    assert!(rig.punches().is_empty());
    assert_eq!(rig.stage(0), Some(Stage::Draining), "claimed afresh");

    assert!(rig.run_until(15, |r| r.fetch_state(0) == Evicted));
    assert_eq!(rig.target_dev.reads(), 2);
    assert_eq!(rig.put_order(), vec![object_name(0)]);
    assert_eq!(rig.decode_object(0), written);
}

/// The owed completion is collected by the idle tick's poll as well, so an
/// aborted record must not keep the coordinator spinning for it: with a read
/// submit that keeps failing, or an aborted PUT that takes its time, that
/// would hold a core for the duration.
#[test]
fn aborted_record_awaiting_its_completion_does_not_keep_the_evictor_busy() {
    let mut rig = Rig::dirty(1, 0);
    rig.state.pin_inflight(0, 0);
    assert!(rig.run_until(5, |r| r.stage(0) == Some(Stage::Draining)));
    assert!(rig.busy(), "an eviction is in progress");
    rig.target_dev.0.borrow_mut().keep_requests_on_failed_submit = true;
    rig.target_dev.0.borrow_mut().fail_submit = true;
    rig.target_dev.0.borrow_mut().hold_completions = true;
    rig.state.unpin_inflight(0, 0);

    rig.tick();
    assert_eq!(rig.stage(0), None, "aborted");
    assert_eq!(rig.fetch_state(0), Fetched);
    assert_eq!(
        rig.records(),
        1,
        "the record waits for the read"
    );
    assert!(!rig.busy(), "nothing to spin for");

    // The completion still drains the record on an ordinary tick.
    rig.target_dev.0.borrow_mut().hold_completions = false;
    rig.tick();
    assert_eq!(rig.records(), 0);
    assert_eq!(rig.fetch_state(0), Fetched);
}

#[test]
fn clean_stripe_written_during_drain_is_converted_to_dirty() {
    let mut rig = Rig::build(&[(0, CLEAN)], true, |cfg| {
        cfg.clean_eviction = true;
        cfg.max_local_bytes = 0;
    });
    rig.make_clean_evictable(&[0]);
    rig.state.pin_inflight(0, 0);
    assert!(rig.run_until(5, |r| r.kind(0) == Some(Kind::Clean)));

    // A write lands while the eviction drains: the snapshot no longer holds
    // this content.
    rig.state.mark_stripe_written(0);
    rig.state.unpin_inflight(0, 0);
    rig.tick();
    assert_eq!(rig.kind(0), Some(Kind::Dirty));
    assert!(rig.run_until(10, |r| r.fetch_state(0) == Evicted));
    assert_eq!(rig.put_order(), vec![object_name(0)]);
    assert!(rig.state.stripe_in_s3(0));
    assert_eq!(rig.counter(|c| c.evicted_dirty), 1);
    assert_eq!(rig.counter(|c| c.evicted_clean), 0);
}

#[test]
fn clean_stripe_written_during_drain_aborts_without_store() {
    let mut rig = Rig::build(&[(0, CLEAN)], false, |cfg| {
        cfg.clean_eviction = true;
        cfg.max_local_bytes = 0;
    });
    rig.make_clean_evictable(&[0]);
    rig.state.pin_inflight(0, 0);
    assert!(rig.run_until(5, |r| r.kind(0) == Some(Kind::Clean)));

    rig.state.mark_stripe_written(0);
    rig.state.unpin_inflight(0, 0);
    rig.tick();
    assert_eq!(rig.stage(0), None);
    assert_eq!(rig.fetch_state(0), Fetched);
    assert_eq!(rig.counter(|c| c.evictions_aborted), 1);
    // Dirty for good and nowhere to put it: never claimed again.
    rig.advance(2);
    rig.ticks(5);
    assert_eq!(rig.records(), 0);
    assert!(!rig.busy());
}

#[test]
fn snapshot_ending_during_drain_converts_clean_to_dirty() {
    let mut rig = Rig::build(&[(0, CLEAN)], true, |cfg| {
        cfg.clean_eviction = true;
        cfg.max_local_bytes = 0;
    });
    rig.make_clean_evictable(&[0]);
    rig.state.pin_inflight(0, 0);
    assert!(rig.run_until(5, |r| r.kind(0) == Some(Kind::Clean)));

    rig.state.set_source_live(false);
    rig.state.unpin_inflight(0, 0);
    rig.tick();
    assert_eq!(rig.kind(0), Some(Kind::Dirty));
    assert!(rig.run_until(10, |r| r.fetch_state(0) == Evicted));
    assert_eq!(rig.put_order(), vec![object_name(0)]);
}

#[test]
fn without_a_store_only_clean_stripes_are_evicted() {
    let mut rig = Rig::build(&[(0, DIRTY), (1, CLEAN)], false, |cfg| {
        cfg.clean_eviction = true;
        cfg.max_local_bytes = 0;
    });
    rig.make_clean_evictable(&[1]);

    assert!(rig.run_until(10, |r| r.fetch_state(1) == Evicted));
    rig.ticks(10);
    assert_eq!(rig.fetch_state(0), Fetched);
    assert_eq!(rig.records(), 0);
    assert!(!rig.busy(), "a full revolution found nothing more");
}

#[test]
fn nothing_happens_with_clean_eviction_off_and_no_store() {
    let mut rig = Rig::build(&[(0, DIRTY), (1, CLEAN)], false, |cfg| {
        cfg.max_local_bytes = 0;
    });
    rig.make_clean_evictable(&[1]);
    rig.ticks(10);
    assert_eq!(rig.state.evicted_stripes(), 0);
    assert_eq!(rig.records(), 0);
    assert!(!rig.busy());
    // Only the write gate acts: two stripes against a ceiling of zero plus one
    // stripe of margin is hard pressure.
    assert_eq!(rig.state.write_gate(), GATE_HOLD);
    assert_eq!(rig.counter(|c| c.stalls), 1);
}

#[test]
fn busy_while_evicting_and_while_released_items_wait() {
    let mut rig = Rig::dirty(1, 0);
    assert!(!rig.busy(), "no pressure assessed yet");
    rig.tick();
    assert!(rig.busy(), "an eviction is in progress");
    assert!(rig.run_until(10, |r| {
        matches!(r.stage(0), Some(Stage::WritingHeader { .. }))
    }));
    assert_eq!(rig.fetch(0), FetchDisposition::Deferred);
    assert!(rig.run_until(10, |r| r.fetch_state(0) == Evicted));
    assert!(rig.busy(), "the released fetch waits to be routed");
    rig.evictor.take_released();
    assert!(!rig.busy());
}

#[test]
fn stale_header_outcome_is_ignored() {
    let mut rig = Rig::dirty(1, 0);
    rig.store.hold_puts(true);
    assert!(rig.run_until(10, |r| r.stage(0) == Some(Stage::Putting)));
    let flusher_outcome = PersistOutcome {
        stripe_id: 0,
        token: 99,
        result: PersistResult::Durable,
    };
    // An odd token for a stripe that is not in WritingHeader, and one for a
    // stripe with no eviction at all: neither may punch anything.
    let other = PersistOutcome {
        stripe_id: 5,
        ..flusher_outcome
    };
    rig.update_evictor(vec![flusher_outcome, other]);
    assert!(rig.punches().is_empty());
    assert_eq!(rig.fetch_state(0), Evicting);
}

#[test]
fn odd_tokens_belong_to_the_evictor() {
    assert!(Evictor::owns_token(1));
    assert!(Evictor::owns_token(7));
    assert!(!Evictor::owns_token(2));
    assert!(!Evictor::owns_token(0));
}

#[test]
fn evictor_rejects_a_config_it_cannot_run() {
    let build = |tune: fn(&mut EvictorConfig)| {
        let mut cfg = base_config(TARGET_SECTORS);
        tune(&mut cfg);
        let state = SharedMetadataState::new(&metadata_with(&[]));
        Evictor::new(cfg, false, plain_codec(), &state).map(|_| ())
    };
    assert!(build(|_| {}).is_ok());
    assert!(build(|cfg| cfg.max_concurrent_evictions = 0).is_err());
    assert!(build(|cfg| cfg.sweep_batch = 0).is_err());
    assert!(build(|cfg| cfg.stripe_sector_count = 0).is_err());
    assert!(build(|cfg| cfg.alignment = 3000).is_err());
}

// ---- the coordinator

fn coordinator(headers: &[(usize, u8)], max_local_bytes: u64) -> CoordRig {
    coordinator_with(headers, max_local_bytes, false)
}

fn coordinator_with(headers: &[(usize, u8)], max_local_bytes: u64, autofetch: bool) -> CoordRig {
    let setup = CoordSetup {
        max_local_bytes: Some(max_local_bytes),
        autofetch,
        expects_pushes: false,
        spill: true,
        pool: false,
    };
    let rig = CoordRig::with(headers, setup, |_| {});
    rig.source_dev.fill_stripes(|_| 0);
    rig
}

fn coordinator_with_pool(headers: &[(usize, u8)], max_local_bytes: u64) -> CoordRig {
    let setup = CoordSetup {
        max_local_bytes: Some(max_local_bytes),
        autofetch: false,
        expects_pushes: false,
        spill: true,
        pool: true,
    };
    CoordRig::with(headers, setup, |_| {})
}

fn coordinator_without_spill(headers: &[(usize, u8)]) -> CoordRig {
    let setup = CoordSetup {
        max_local_bytes: None,
        autofetch: false,
        expects_pushes: false,
        spill: false,
        pool: false,
    };
    CoordRig::with(headers, setup, |_| {})
}

#[test]
fn fetch_for_evicting_stripe_never_reaches_inline_fetcher() {
    let mut rig = coordinator(&[(0, DIRTY)], 0);
    // Pinned guest I/O keeps the eviction draining, where a fetch aborts it.
    rig.state.pin_inflight(0, 0);
    rig.updates(5);
    assert_eq!(rig.state.stripe_fetch_state(0), Evicting);

    rig.fetch(0);
    assert_eq!(
        rig.state.stripe_fetch_state(0),
        Fetched,
        "aborted, resident again"
    );
    assert!(!rig.fetcher_busy(), "nothing was queued for the fetcher");
    rig.updates(5);
    assert_eq!(rig.source_reads(), 0);
    assert_eq!(rig.target_dev.writes(), 0);
    assert_eq!(rig.state.spill().evictions_aborted, 1);
}

#[test]
fn fetch_for_evicting_stripe_never_reaches_pool_worker() {
    let mut rig = coordinator_with_pool(&[(0, DIRTY), (1, metadata_flags::HAS_SOURCE)], 0);
    rig.state.pin_inflight(0, 0);
    rig.updates(5);
    assert_eq!(rig.state.stripe_fetch_state(0), Evicting);

    rig.fetch(0);
    assert_eq!(rig.state.stripe_fetch_state(0), Fetched);
    assert!(rig.take_outbox().is_empty());
    assert_eq!(rig.target_dev.writes(), 0);

    // Control: a fetch for a stripe that is not being evicted does reach the
    // worker.
    rig.fetch(1);
    let outbox = rig.take_outbox();
    assert_eq!(outbox.len(), 1);
    assert!(matches!(
        outbox[0],
        (0, IngestRequest::Fetch { stripe_id: 1 })
    ));
}

/// A Fetch for a stripe that is resident by the time the coordinator sees it is
/// dropped rather than forwarded with spill. The sweep is confined to stripes
/// 4..8, so anything pulled below 4 came from the Fetch.
#[test]
fn fetch_for_a_resident_stripe_stays_with_the_coordinator() {
    let mut rig = coordinator_with(&[(0, CLEAN)], 1 << 30, true);
    match &mut rig.worker.ingest {
        Ingest::Inline(fetcher) => fetcher.restrict_autofetch_to(4, STRIPES),
        Ingest::Pool(_) => panic!("inline ingest expected"),
    }
    rig.fetch(0);
    rig.updates(40);
    assert_eq!(
        rig.source_reads(),
        STRIPES - 4,
        "only the sweep's stripes were pulled"
    );
}

/// A landing reported for a stripe the evictor has claimed must not queue a
/// header op: a SetFetched behind the evictor's EVICTED op would leave the disk
/// saying local for blocks about to be punched.
#[test]
fn landing_for_an_evicting_stripe_touches_no_header() {
    let mut rig = coordinator(&[(0, DIRTY)], 1 << 30);
    let degraded_before = rig.degraded_reasons();
    rig.state.set_stripe_fetch_state_for_test(0, Evicting);
    // The evictor's committed header op: EVICTED in, FETCHED out.
    rig.worker.metadata_flusher.update_stripe_header(
        0,
        metadata_flags::EVICTED,
        metadata_flags::FETCHED,
        1,
    );

    rig.landed(0, true);
    assert!(rig.worker.pending_release.is_empty());
    assert_eq!(rig.state.stripe_fetch_state(0), Evicting);
    assert_eq!(rig.degraded_reasons(), degraded_before + 1);

    rig.updates(6);
    assert!(!rig.worker.metadata_flusher.busy());
    let header = rig.metadata_dev.header(0);
    assert_ne!(header & metadata_flags::EVICTED, 0);
    assert_eq!(
        header & metadata_flags::FETCHED,
        0,
        "no SetFetched went out behind the evictor's op"
    );
    assert_eq!(rig.state.stripe_fetch_state(0), Evicting);
}

#[test]
fn pushed_stripe_records_pushed_before_disposition() {
    let mut rig = coordinator(&[(0, DIRTY)], 0);
    rig.state.pin_inflight(0, 0);
    rig.updates(5);
    assert_eq!(rig.state.stripe_fetch_state(0), Evicting);
    assert!(!rig.state.stripe_pushed(0));

    rig.push(0, vec![0xEE; STRIPE_BYTES as usize]);
    // Ignored (the fork's own data is newer), yet recorded.
    assert!(rig.state.stripe_pushed(0));
    assert_eq!(
        rig.gate.queued(),
        0,
        "the permit went with the dropped push"
    );
    assert_eq!(rig.state.stripe_fetch_state(0), Evicting);
    rig.updates(3);
    let header = rig.metadata_dev.header(0);
    assert_ne!(header & metadata_flags::PUSHED, 0, "PUSHED persisted");
    assert_eq!(rig.target_dev.writes(), 0);

    // Without an evictor nothing is recorded and the push goes through.
    let mut plain = coordinator_without_spill(&[]);
    plain.push(0, vec![0xEE; STRIPE_BYTES as usize]);
    assert!(!plain.state.stripe_pushed(0));
}

#[test]
fn stripe_landed_on_evicted_stripe_uses_even_token_and_does_not_mark_fetched() {
    let evicted = metadata_flags::EVICTED | metadata_flags::HAS_SOURCE;
    let mut rig = coordinator(&[(0, evicted), (1, evicted)], 1 << 30);
    assert_eq!(rig.state.stripe_fetch_state(0), Evicted);
    let (fetched, resident) = (rig.state.fetched_stripes(), rig.state.resident_stripes());

    rig.landed(0, true);
    assert_eq!(rig.state.stripe_fetch_state(0), Evicted, "not released yet");
    assert_eq!(rig.state.fetched_stripes(), fetched);
    assert_eq!(rig.state.resident_stripes(), resident);
    assert_eq!(rig.worker.pending_release.len(), 1);
    assert_eq!(rig.pending(2).stripe_id, 0);
    assert_eq!(rig.pending(2).retries, 0);
    assert_eq!(rig.worker.next_release_token, 4);

    // A fetch for it while the header is in flight is dropped.
    rig.fetch(0);
    assert!(!rig.fetcher_busy());

    rig.updates(4);
    assert_eq!(rig.state.stripe_fetch_state(0), Fetched);
    assert_eq!(rig.state.fetched_stripes(), fetched + 1);
    assert_eq!(rig.state.resident_stripes(), resident + 1);
    assert!(rig.worker.pending_release.is_empty());
    let header = rig.metadata_dev.header(0);
    assert_ne!(header & metadata_flags::FETCHED, 0);
    assert_eq!(header & metadata_flags::EVICTED, 0);

    // A stripe that was never evicted waits for its FETCHED header too,
    // under the next even token; the header's completion lands it.
    rig.state.set_stripe_fetch_state_for_test(1, NotFetched);
    rig.landed(1, true);
    assert_eq!(
        rig.state.stripe_fetch_state(1),
        NotFetched,
        "not released yet"
    );
    assert_eq!(rig.pending(4).stripe_id, 1);
    assert!(!rig.pending(4).from_evicted);
    rig.updates(4);
    assert_eq!(rig.state.stripe_fetch_state(1), Fetched);
    assert!(rig.worker.pending_release.is_empty());
    assert_eq!(rig.worker.next_release_token, 6);
}

#[test]
fn second_landing_while_release_is_pending_issues_no_second_op() {
    let evicted = metadata_flags::EVICTED | metadata_flags::HAS_SOURCE;
    let mut rig = coordinator(&[(0, evicted)], 1 << 30);
    let degraded_before = rig.degraded_reasons();
    for _ in 0..2 {
        rig.landed(0, true);
    }
    assert_eq!(rig.worker.pending_release.len(), 1);
    assert_eq!(rig.worker.next_release_token, 4);

    rig.updates(4);
    assert_eq!(rig.state.stripe_fetch_state(0), Fetched);
    assert!(rig.worker.pending_release.is_empty());
    assert_eq!(
        rig.degraded_reasons(),
        degraded_before,
        "one release, no false anomaly"
    );
}

/// The fetcher cannot tell an evicted stripe that needs a pull from one whose
/// pull has landed and is waiting on its header, so the coordinator must not
/// forward a re-sent Fetch in that window. The fetcher is driven on its own
/// until the pull lands, and the re-send arrives before the completion is taken
/// in.
#[test]
fn re_sent_fetch_is_dropped_until_the_re_fetch_has_been_taken_in() {
    let evicted = metadata_flags::EVICTED | metadata_flags::HAS_SOURCE;
    let mut rig = coordinator(&[(0, evicted)], 1 << 30);

    rig.fetch(0);
    assert!(rig.worker.landing.contains(&0));

    rig.run_fetcher(10);
    assert_eq!(rig.source_reads(), 1);
    assert_eq!(
        rig.state.stripe_fetch_state(0),
        Evicted,
        "landed, not yet taken in"
    );

    rig.fetch(0);
    rig.run_fetcher(10);
    assert_eq!(
        rig.source_reads(),
        1,
        "the re-send must not start a second pull"
    );

    rig.updates(4);
    assert!(!rig.worker.landing.contains(&0));
    assert_eq!(rig.state.stripe_fetch_state(0), Fetched);
}

/// A pull that fails for good clears the way for the guest's next Fetch.
#[test]
fn a_failed_re_fetch_lets_the_next_fetch_through() {
    let evicted = metadata_flags::EVICTED | metadata_flags::HAS_SOURCE;
    let mut rig = coordinator(&[(0, evicted)], 1 << 30);

    rig.fetch(0);
    assert!(rig.worker.landing.contains(&0));

    rig.landed(0, false);
    assert!(!rig.worker.landing.contains(&0));
    assert!(rig.worker.pending_release.is_empty());

    // A stripe that is local when forwarded is never held.
    rig.state.set_stripe_fetch_state_for_test(0, NotFetched);
    rig.fetch(0);
    assert!(!rig.worker.landing.contains(&0));
}

/// A push forwarded to an evicted stripe is that stripe's only copy. A Fetch
/// arriving while its write is with the ingest would pull, and the pull's write
/// (here, the source's zeros) would replace the pushed bytes.
#[test]
fn a_forwarded_push_holds_off_a_pull_until_it_has_been_taken_in() {
    let evicted = metadata_flags::EVICTED | metadata_flags::HAS_SOURCE;
    let mut rig = coordinator(&[(0, evicted)], 1 << 30);
    let pushed = vec![0xEE; STRIPE_BYTES as usize];

    rig.push(0, pushed.clone());
    assert!(rig.state.stripe_pushed(0));
    assert!(rig.worker.landing.contains(&0), "forwarded, and remembered");

    rig.run_fetcher(10);
    assert_eq!(rig.state.stripe_fetch_state(0), Evicted);

    rig.fetch(0);
    rig.run_fetcher(10);
    assert_eq!(
        rig.source_reads(),
        0,
        "nothing is pulled over the pushed copy"
    );

    rig.updates(4);
    assert_eq!(rig.state.stripe_fetch_state(0), Fetched);
    assert!(!rig.worker.landing.contains(&0));
    assert_eq!(rig.target_stripe(0), pushed);
}

#[test]
fn release_op_is_retried_then_given_up_leaving_the_stripe_evicted() {
    let evicted = metadata_flags::EVICTED | metadata_flags::HAS_SOURCE;
    let mut rig = coordinator(&[(0, evicted)], 1 << 30);
    let degraded_before = rig.degraded_reasons();
    rig.landed(0, true);

    // Every header write fails: the first attempt and three retries.
    for attempt in 0..4u64 {
        assert_eq!(rig.worker.pending_release.len(), 1);
        assert_eq!(rig.pending_retries(2 + 2 * attempt), attempt as u8);
        rig.metadata_dev.fail_next();
        rig.update();
    }
    assert!(rig.worker.pending_release.is_empty(), "given up");
    assert_eq!(rig.worker.next_release_token, 10);
    assert_eq!(rig.state.stripe_fetch_state(0), Evicted);
    assert_eq!(rig.degraded_reasons(), degraded_before + 1);
    let header = rig.metadata_dev.header(0);
    assert_eq!(header, evicted, "the disk still says evicted");

    // The next fetch is forwarded again rather than dropped.
    rig.fetch(0);
    assert!(rig.fetcher_busy());
}

/// With spill a stripe is released only once its FETCHED header is durable, so
/// a write the guest is then told has landed cannot be undone by a restart that
/// finds the stripe NotFetched and fetches the base image over it.
#[test]
fn stripe_lands_only_when_its_fetched_header_is_durable_with_spill() {
    let unfetched = metadata_flags::HAS_SOURCE;
    let mut rig = coordinator(&[(0, unfetched), (1, unfetched)], 1 << 30);
    assert_eq!(rig.state.stripe_fetch_state(0), NotFetched);
    let (fetched, resident) = (rig.state.fetched_stripes(), rig.state.resident_stripes());
    let degraded_before = rig.degraded_reasons();

    // The channel queued a write: WRITTEN in memory, before any data.
    rig.state.mark_stripe_written(0);
    rig.landed(0, true);
    assert_eq!(
        rig.state.stripe_fetch_state(0),
        NotFetched,
        "not released yet"
    );
    assert_eq!(rig.state.fetched_stripes(), fetched);
    assert_eq!(rig.state.resident_stripes(), resident);
    assert_eq!(rig.worker.pending_release.len(), 1);
    assert_eq!(rig.pending(2).stripe_id, 0);
    assert!(!rig.pending(2).from_evicted);

    // A fetch for it meanwhile is dropped, as for a re-materialisation.
    rig.fetch(0);
    assert!(!rig.fetcher_busy());

    rig.updates(4);
    assert_eq!(rig.state.stripe_fetch_state(0), Fetched);
    assert!(rig.state.stripe_written(0));
    assert_eq!(rig.state.fetched_stripes(), fetched + 1);
    assert_eq!(rig.state.resident_stripes(), resident + 1);
    assert!(rig.worker.pending_release.is_empty());
    assert_ne!(
        rig.metadata_dev.header(0) & metadata_flags::FETCHED,
        0,
        "durable before release"
    );
    assert_eq!(
        rig.degraded_reasons(),
        degraded_before,
        "the header completion and the outcome land it once, quietly"
    );

    // A stripe nobody has written waits the same way: a write may arrive
    // the moment it is resident in memory.
    rig.landed(1, true);
    assert_eq!(
        rig.state.stripe_fetch_state(1),
        NotFetched,
        "not released yet"
    );
    assert_eq!(rig.worker.pending_release.len(), 1);
    rig.updates(4);
    assert_eq!(rig.state.stripe_fetch_state(1), Fetched);
    assert!(rig.worker.pending_release.is_empty());
    assert_ne!(rig.metadata_dev.header(1) & metadata_flags::FETCHED, 0);

    // Without an evictor nothing changes: a written stripe lands at once.
    let mut plain = coordinator_without_spill(&[]);
    plain.state.mark_stripe_written(0);
    plain.landed(0, true);
    assert_eq!(plain.state.stripe_fetch_state(0), Fetched);
    assert!(plain.worker.pending_release.is_empty());
}

/// Landings that arrive together share the header write and fsync they wait
/// for: the flusher carries every queued request for a metadata sector in one
/// write, so a burst of neighbouring demand fetches does not pay one fsync
/// each.
#[test]
fn adjacent_landings_share_one_header_write_and_fsync() {
    let headers: Vec<(usize, u8)> = (0..4).map(|s| (s, metadata_flags::HAS_SOURCE)).collect();
    let mut rig = coordinator(&headers, 1 << 30);
    let (writes, flushes) = rig.metadata_io();
    for stripe_id in 0..4 {
        rig.landed(stripe_id, true);
    }
    assert_eq!(rig.worker.pending_release.len(), 4);
    rig.updates(6);
    for stripe_id in 0..4 {
        assert_eq!(rig.state.stripe_fetch_state(stripe_id), Fetched);
        assert_ne!(
            rig.metadata_dev.header(stripe_id) & metadata_flags::FETCHED,
            0
        );
    }
    assert!(rig.worker.pending_release.is_empty());
    assert_eq!(
        rig.metadata_io(),
        (writes + 1, flushes + 1),
        "four landings, one write and one fsync"
    );
}

/// When the FETCHED header cannot be made durable the written stripe is still
/// released, rather than holding the guest's write for good; the exposure is
/// counted.
#[test]
fn written_stripe_landing_falls_back_after_failed_retries() {
    let mut rig = coordinator(&[(0, metadata_flags::HAS_SOURCE)], 1 << 30);
    let degraded_before = rig.degraded_reasons();
    rig.state.mark_stripe_written(0);
    rig.landed(0, true);

    for attempt in 0..4u64 {
        assert_eq!(rig.worker.pending_release.len(), 1);
        assert_eq!(rig.pending_retries(2 + 2 * attempt), attempt as u8);
        assert_eq!(rig.state.stripe_fetch_state(0), NotFetched);
        rig.metadata_dev.fail_next();
        rig.update();
    }
    assert!(rig.worker.pending_release.is_empty(), "given up");
    assert_eq!(rig.state.stripe_fetch_state(0), Fetched, "released anyway");
    assert_eq!(rig.degraded_reasons(), degraded_before + 1);
    // The fire-and-forget SetFetched goes out behind it.
    rig.updates(4);
    assert_ne!(rig.metadata_dev.header(0) & metadata_flags::FETCHED, 0);
}

/// A push for a stripe whose pull has landed and whose release is pending
/// carries the same content and is dropped with its permit.
#[test]
fn push_during_pending_release_is_dropped_and_the_stripe_can_be_fetched_again() {
    let evicted = metadata_flags::EVICTED | metadata_flags::HAS_SOURCE;
    let mut rig = coordinator_with_pool(&[(0, evicted)], 1 << 30);

    // The worker reported the pull; the release header is in flight.
    rig.landed(0, true);
    assert_eq!(rig.worker.pending_release.len(), 1);
    rig.push(0, vec![0xEE; STRIPE_BYTES as usize]);
    assert!(rig.state.stripe_pushed(0), "recorded all the same");
    assert_eq!(rig.gate.queued(), 0, "dropped with its permit");
    assert!(!rig.worker.landing.contains(&0));
    // Nothing reached the worker.
    assert!(rig.take_outbox().is_empty());
    assert_eq!(rig.target_dev.writes(), 0);

    rig.updates(4);
    assert_eq!(rig.state.stripe_fetch_state(0), Fetched);
    assert!(!rig.worker.landing.contains(&0));

    // Evicted again later, a Fetch for it reaches the worker.
    rig.state.set_stripe_fetch_state_for_test(0, Evicted);
    rig.fetch(0);
    let outbox = rig.take_outbox();
    assert_eq!(outbox.len(), 1);
    assert!(matches!(
        outbox[0],
        (0, IngestRequest::Fetch { stripe_id: 0 })
    ));
}

/// Whatever put a stripe back in `landing` while its release was pending, the
/// release ending takes it out.
#[test]
fn landing_is_cleared_when_the_release_ends() {
    let evicted = metadata_flags::EVICTED | metadata_flags::HAS_SOURCE;
    let mut rig = coordinator(&[(0, evicted)], 1 << 30);
    rig.landed(0, true);
    rig.worker.landing.insert(0);
    rig.updates(4);
    assert_eq!(rig.state.stripe_fetch_state(0), Fetched);
    assert!(!rig.worker.landing.contains(&0), "cleared on Durable");

    // And when the release is given up on.
    let mut rig = coordinator(&[(0, evicted)], 1 << 30);
    rig.landed(0, true);
    rig.worker.landing.insert(0);
    for _ in 0..4 {
        rig.metadata_dev.fail_next();
        rig.update();
    }
    assert!(rig.worker.pending_release.is_empty());
    assert_eq!(rig.state.stripe_fetch_state(0), Evicted);
    assert!(!rig.worker.landing.contains(&0), "cleared on giving up");
    rig.fetch(0);
    assert!(rig.fetcher_busy(), "the next fetch is forwarded");
}

/// A fetch held under GATE_HOLD can be overtaken by a push that lands and sits
/// in pending release. Released when the write gate reopens, it must meet the
/// same guards as a fresh Fetch.
#[test]
fn released_fetch_is_dropped_while_the_stripe_is_in_pending_release() {
    let evicted = metadata_flags::EVICTED | metadata_flags::HAS_SOURCE;
    let mut rig = coordinator(&[(0, evicted)], 1 << 30);
    let pushed = vec![0xEE; STRIPE_BYTES as usize];

    rig.state.set_write_gate(GATE_HOLD);
    rig.fetch(0);
    assert!(!rig.fetcher_busy(), "held for space");
    assert!(!rig.worker.landing.contains(&0));

    rig.push(0, pushed.clone());
    assert!(rig.worker.landing.contains(&0), "forwarded");
    // The push lands in the fetcher before the coordinator ticks, the way
    // a pool worker runs ahead of it.
    rig.run_fetcher(10);
    assert_eq!(rig.state.stripe_fetch_state(0), Evicted);

    // One tick takes the landing into pending release and, with nothing
    // under pressure, reopens the write gate and releases the held fetch.
    rig.update();
    assert_eq!(rig.state.write_gate(), GATE_OPEN);
    assert_eq!(rig.worker.pending_release.len(), 1);
    rig.updates(4);
    assert_eq!(rig.state.stripe_fetch_state(0), Fetched);
    assert_eq!(
        rig.source_reads(),
        0,
        "the released fetch must not pull over the pushed copy"
    );
    assert_eq!(rig.target_dev.writes(), 1);
    assert_eq!(rig.target_stripe(0), pushed);
    assert!(!rig.worker.landing.contains(&0));
}

/// An evicted clean stripe with a guest write queued on it carries WRITTEN but
/// holds none of the fork's data. The pull goes out, the server copies the
/// stripe out, pushes it and refuses the pull. The push is the only copy the
/// fork can get, so it must land.
#[test]
fn push_lands_an_evicted_stripe_whose_queued_write_set_written() {
    let evicted = metadata_flags::EVICTED | metadata_flags::HAS_SOURCE;
    let setup = CoordSetup {
        max_local_bytes: Some(1 << 30),
        autofetch: false,
        expects_pushes: true,
        spill: true,
        pool: false,
    };
    let mut rig = CoordRig::with(&[(0, evicted)], setup, |_| {});
    rig.state.set_source_live(true);
    let pushed = vec![0xEE; STRIPE_BYTES as usize];

    // The guest's write queues: WRITTEN in memory, a Fetch to us.
    rig.state.mark_stripe_written(0);
    rig.fetch(0);
    assert!(
        rig.worker.landing.contains(&0),
        "the pull is with the ingest"
    );

    // The server pushes before the pull is served, and refuses it from then on.
    rig.source.refused.insert(0);
    rig.push(0, pushed.clone());
    assert!(rig.state.stripe_pushed(0));
    assert_eq!(
        rig.gate.queued(),
        1,
        "forwarded: the ingest holds the slot"
    );

    rig.updates(12);
    assert_eq!(rig.state.stripe_fetch_state(0), Fetched);
    assert!(rig.state.stripe_written(0));
    assert_eq!(
        rig.source_reads(),
        0,
        "the pull was refused, never served by base"
    );
    assert_eq!(
        rig.target_stripe(0),
        pushed,
        "the push is the stripe's content"
    );
    assert_eq!(rig.gate.queued(), 0);
    assert!(!rig.worker.landing.contains(&0));
    assert!(rig.worker.pending_release.is_empty());
}

/// The puncher's free-space answer only reaches the counters through an evictor
/// tick.
#[test]
fn evictor_ticks_without_requests() {
    let mut rig = coordinator(&[], 1 << 30);
    rig.puncher.free = 12345;
    assert_eq!(rig.state.spill().free_bytes, 0);
    rig.update();
    assert_eq!(rig.state.spill().free_bytes, 12345);
}

#[test]
fn waits_for_good_only_when_idle_and_without_an_evictor() {
    let rig = coordinator(&[], 1 << 30);
    let busy = rig
        .worker
        .busy(&rig.state, false, false, rig.clock.now);
    assert!(!busy);
    assert!(rig.worker.request_wait(busy).is_some());
    assert_eq!(rig.worker.request_wait(true), Some(0));

    let plain = coordinator_without_spill(&[]);
    assert_eq!(plain.worker.request_wait(false), None);
    assert_eq!(plain.worker.request_wait(true), Some(0));
}

#[test]
fn test_bg_worker_shutdown() {
    let mut rig = coordinator_without_spill(&[]);
    assert!(!rig.worker.done);
    rig.request(BgWorkerRequest::Shutdown);
    assert!(rig.worker.done);
}

#[test]
fn bg_worker_supports_null_source() {
    let metadata = UbiMetadata::new(11, 16, 0);
    let state = SharedMetadataState::new(&metadata);
    let flusher = MetadataFlusher::new(metadata, 0).unwrap();
    let fetcher = StripeFetcher::new(0, 2048, 2048, false)
        .expect("a source without sectors is supported");
    let worker = BgWorker::new(fetcher, flusher, false, None);
    assert!(!worker.busy(&state, false, false, 0));
}

#[test]
fn bg_worker_marks_failed_stripes_with_flaky_source() {
    let mut rig = coordinator_without_spill(&[]);
    rig.source.failures.insert(0, 4);
    rig.fetch(0);
    rig.updates(100);
    assert!(rig.state.is_stripe_failed(0));
}

#[test]
fn set_written_reaches_the_metadata() {
    let mut rig = coordinator_without_spill(&[(3, CLEAN)]);
    rig.request(BgWorkerRequest::SetWritten { stripe_id: 3 });
    rig.updates(4);
    assert_ne!(rig.metadata_dev.header(3) & metadata_flags::WRITTEN, 0);
    assert!(rig.state.stripe_written(3));
}

#[test]
fn crash_points_are_found_by_name() {
    let find = |name: &str| CrashPoint::from_name(&name.to_string());
    assert_eq!(find("after_put"), Some(CrashPoint::AfterPut));
    assert_eq!(
        find("after_header_flush"),
        Some(CrashPoint::AfterHeaderFlush)
    );
    assert_eq!(find("after_punch"), Some(CrashPoint::AfterPunch));
    assert_eq!(find("during_refetch"), Some(CrashPoint::DuringRefetch));
    assert_eq!(find("after_get"), None);
    assert_eq!(find(""), None);
}

#[test]
fn an_evictor_says_why_it_cannot_be_built() {
    let zero = EvictorError::ZeroLimit {
        stripe_sector_count: 8,
        max_concurrent_evictions: 0,
        sweep_batch: 4096,
    };
    assert_eq!(
        zero.describe(),
        "evictor needs stripe_sector_count, max_concurrent_evictions and sweep_batch above zero \
         (got 8, 0, 4096)"
    );
    let odd = EvictorError::BadAlignment { alignment: 3000 };
    assert_eq!(
        odd.describe(),
        "evictor buffer alignment must be a power of two, got 3000"
    );
}
