use std::cell::RefCell;
use std::collections::HashMap;
use std::rc::Rc;

use ubiblk::archive::test_store::{ObjectMap, TestObjectStore};
use ubiblk::bgworker::BgWorker;
use ubiblk::bgworker_model::BgWorkerRequest;
use ubiblk::device::{LazyBlockDevice, LazyIoChannel};
use ubiblk::io::{ArchiveStore, IoChannel, IoError, ManualClock, RequestSink, StripeSource};
use ubiblk::metadata::metadata_flags;
use ubiblk::metadata::shared_state::{
    Evicted, Evicting, Fetched, SharedMetadataState, GATE_FAIL, GATE_HOLD, GATE_OPEN,
};
use ubiblk::metadata::stripe_flags;
use ubiblk::metadata::types::UbiMetadata;
use ubiblk::metadata_flusher::MetadataFlusher;
use ubiblk::request_queue::RequestQueue;
use ubiblk::spill::punch::RecordingPuncher;
use ubiblk::stripe_fetcher::StripeFetcher;
use ubiblk::SECTOR_SIZE;

const STRIPE_SHIFT: u8 = 12;
const STRIPE_COUNT: usize = 4;
const STRIPE_SECTORS: u64 = 1u64 << STRIPE_SHIFT;
const DEV_SIZE: u64 = STRIPE_SECTORS * SECTOR_SIZE as u64 * STRIPE_COUNT as u64;
const METADATA_SIZE: u64 = 8 * 1024 * 1024;
const MILLISECOND: u64 = 1_000_000;

#[derive(Default)]
struct DeviceState {
    mem: Vec<u8>,
    reads: usize,
    writes: usize,
    flushes: usize,
    fail_submit: bool,
    hold_completions: bool,
}

/// A device in memory.
#[derive(Clone)]
struct TestDevice(Rc<RefCell<DeviceState>>);

impl TestDevice {
    fn new(size: u64) -> Self {
        TestDevice(Rc::new(RefCell::new(DeviceState {
            mem: vec![0; size as usize],
            ..DeviceState::default()
        })))
    }

    fn channel<B: Buffer>(&self) -> TestChannel<B> {
        TestChannel {
            device: self.clone(),
            collected: Vec::new(),
            finished: Vec::new(),
            reads: HashMap::new(),
        }
    }

    fn sector_count(&self) -> u64 {
        (self.0.borrow().mem.len() / SECTOR_SIZE) as u64
    }

    fn reads(&self) -> usize {
        self.0.borrow().reads
    }

    fn writes(&self) -> usize {
        self.0.borrow().writes
    }

    fn hold_completions(&self, hold: bool) {
        self.0.borrow_mut().hold_completions = hold;
    }

    fn fail_submit(&self) {
        self.0.borrow_mut().fail_submit = true;
    }

    fn write(&self, offset: usize, data: &[u8]) {
        self.0.borrow_mut().mem[offset..offset + data.len()].copy_from_slice(data);
    }

    fn bytes(&self, offset: usize, len: usize) -> Vec<u8> {
        self.0.borrow().mem[offset..offset + len].to_vec()
    }
}

/// A buffer that can be read into and written from.
trait Buffer {
    fn fill(&mut self, bytes: &[u8]);
    fn bytes(&self) -> Vec<u8>;
}

impl Buffer for Vec<u8> {
    fn fill(&mut self, bytes: &[u8]) {
        self.clear();
        self.extend_from_slice(bytes);
    }

    fn bytes(&self) -> Vec<u8> {
        self.clone()
    }
}

type SharedBuffer = Rc<RefCell<Vec<u8>>>;

impl Buffer for SharedBuffer {
    fn fill(&mut self, bytes: &[u8]) {
        self.borrow_mut()[..bytes.len()].copy_from_slice(bytes);
    }

    fn bytes(&self) -> Vec<u8> {
        self.borrow().clone()
    }
}

fn shared_buffer(size: usize) -> SharedBuffer {
    Rc::new(RefCell::new(vec![0; size]))
}

struct TestChannel<B> {
    device: TestDevice,
    collected: Vec<(usize, bool)>,
    finished: Vec<(usize, bool)>,
    reads: HashMap<usize, B>,
}

fn range(offset: u64, count: u32) -> std::ops::Range<usize> {
    let start = offset as usize * SECTOR_SIZE;
    start..start + count as usize * SECTOR_SIZE
}

impl<B: Buffer> IoChannel<B> for TestChannel<B> {
    fn add_read(&mut self, sector_offset: u64, sector_count: u32, mut buf: B, id: usize) {
        let mut state = self.device.0.borrow_mut();
        state.reads += 1;
        buf.fill(&state.mem[range(sector_offset, sector_count)]);
        self.reads.insert(id, buf);
        self.collected.push((id, true));
    }

    fn add_write(&mut self, sector_offset: u64, sector_count: u32, buf: B, id: usize) {
        let mut state = self.device.0.borrow_mut();
        state.writes += 1;
        let range = range(sector_offset, sector_count);
        let len = range.len();
        state.mem[range].copy_from_slice(&buf.bytes()[..len]);
        self.collected.push((id, true));
    }

    fn add_flush(&mut self, id: usize) {
        self.device.0.borrow_mut().flushes += 1;
        self.collected.push((id, true));
    }

    fn submit(&mut self) -> Result<(), IoError> {
        if std::mem::take(&mut self.device.0.borrow_mut().fail_submit) {
            self.collected.clear();
            return Err(IoError { errno: 5 });
        }
        self.finished.append(&mut self.collected);
        Ok(())
    }

    fn poll(&mut self) -> Vec<(usize, bool)> {
        if self.device.0.borrow().hold_completions {
            return Vec::new();
        }
        std::mem::take(&mut self.finished)
    }

    fn take_read(&mut self, id: usize) -> Option<B> {
        self.reads.remove(&id)
    }

    fn busy(&self) -> bool {
        !self.collected.is_empty() || !self.finished.is_empty()
    }
}

struct TestSource {
    device: TestDevice,
    arrived: Vec<(usize, bool)>,
    stripes: HashMap<usize, Vec<u8>>,
}

impl StripeSource for TestSource {
    fn request(&mut self, stripe_id: usize) -> Result<(), IoError> {
        let mut state = self.device.0.borrow_mut();
        state.reads += 1;
        let offset = stripe_id as u64 * STRIPE_SECTORS;
        let data = state.mem[range(offset, STRIPE_SECTORS as u32)].to_vec();
        self.stripes.insert(stripe_id, data);
        self.arrived.push((stripe_id, true));
        Ok(())
    }

    fn poll(&mut self) -> Vec<(usize, bool)> {
        std::mem::take(&mut self.arrived)
    }

    fn take_stripe(&mut self, stripe_id: usize) -> Option<Vec<u8>> {
        self.stripes.remove(&stripe_id)
    }

    fn busy(&self) -> bool {
        !self.arrived.is_empty()
    }

    fn sector_count(&self) -> u64 {
        self.device.sector_count()
    }
}

struct NoStore {
    store: TestObjectStore,
    objects: ObjectMap,
}

impl ArchiveStore for NoStore {
    fn start_put_object(&mut self, name: &String, data: Vec<u8>) {
        self.store
            .start_put_object(&mut self.objects, name, data, 0);
    }

    fn start_get_object(&mut self, name: &String) {
        self.store.start_get_object(&self.objects, name);
    }

    fn poll_puts(&mut self) -> Vec<(String, bool)> {
        self.store.poll_puts()
    }

    fn poll_gets(&mut self) -> Vec<(String, Option<Vec<u8>>)> {
        self.store.poll_gets()
    }

    fn delete_objects(&mut self, _names: &Vec<String>) -> Result<(), IoError> {
        Ok(())
    }
}

/// The coordinator behind a channel.
struct Coordinator {
    worker: BgWorker,
    source: TestSource,
    target: TestChannel<Vec<u8>>,
    metadata: TestChannel<Vec<u8>>,
    reads: TestChannel<Vec<u8>>,
    store: NoStore,
    puncher: RecordingPuncher,
    clock: ManualClock,
}

/// A guest's channel to a lazy device, with or without a coordinator.
struct Env {
    lazy: LazyBlockDevice,
    chan: LazyIoChannel<SharedBuffer>,
    base: TestChannel<SharedBuffer>,
    image: TestChannel<SharedBuffer>,
    sink: RequestQueue,
    state: SharedMetadataState,
    target: TestDevice,
    source_dev: TestDevice,
    coordinator: Option<Coordinator>,
    now: u64,
}

fn build_env(with_image: bool, track_written: bool, data: &[u8], with_worker: bool) -> Env {
    let target = TestDevice::new(DEV_SIZE);
    let source_dev = TestDevice::new(DEV_SIZE);
    source_dev.write(0, data);
    let metadata_dev = TestDevice::new(METADATA_SIZE);
    let metadata = UbiMetadata::new(STRIPE_SHIFT, STRIPE_COUNT, STRIPE_COUNT);
    let sectors = metadata_dev.sector_count();
    metadata_dev.write(0, &metadata.save_to_bdev(sectors).unwrap());
    let state = SharedMetadataState::new(&metadata);
    let coordinator = if with_worker {
        let source_sectors = source_dev.sector_count();
        let fetcher =
            StripeFetcher::new(source_sectors, target.sector_count(), STRIPE_SECTORS, false)
                .unwrap();
        let flusher = MetadataFlusher::new(metadata, source_sectors).unwrap();
        Some(Coordinator {
            worker: BgWorker::new(fetcher, flusher, false, None),
            source: TestSource {
                device: source_dev.clone(),
                arrived: Vec::new(),
                stripes: HashMap::new(),
            },
            target: target.channel(),
            metadata: metadata_dev.channel(),
            reads: target.channel(),
            store: NoStore {
                store: TestObjectStore::new(),
                objects: ObjectMap::new(),
            },
            puncher: RecordingPuncher::new(),
            clock: ManualClock::new(MILLISECOND),
        })
    } else {
        None
    };
    let lazy = LazyBlockDevice::new(target.sector_count(), with_image, track_written);
    Env {
        chan: lazy.create_channel(),
        lazy,
        base: target.channel(),
        image: source_dev.channel(),
        sink: RequestQueue::new(),
        state,
        target,
        source_dev,
        coordinator,
        now: MILLISECOND,
    }
}

fn setup_env(with_image: bool, track_written: bool, data: &[u8]) -> Env {
    build_env(with_image, track_written, data, true)
}

/// A channel with no coordinator behind it, so a test can see exactly what the
/// channel asked for and drive the shared state itself.
fn setup_channel_env(track_written: bool) -> Env {
    build_env(false, track_written, b"", false)
}

impl Env {
    fn add_read(&mut self, offset: u64, count: u32, buf: SharedBuffer, id: usize) {
        self.chan.add_read(
            &mut self.state,
            offset,
            count,
            buf,
            id,
            &mut self.base,
            &mut self.image,
            &mut self.sink,
            self.now,
        );
    }

    fn add_write(&mut self, offset: u64, count: u32, buf: SharedBuffer, id: usize) {
        self.chan.add_write(
            &mut self.state,
            offset,
            count,
            buf,
            id,
            &mut self.base,
            &mut self.sink,
            self.now,
        );
    }

    fn add_flush(&mut self, id: usize) {
        self.chan.add_flush(id, &mut self.base);
    }

    fn submit(&mut self) -> Result<(), IoError> {
        self.chan
            .submit(&mut self.state, &mut self.base, &mut self.image)
    }

    fn poll(&mut self) -> Vec<(usize, bool)> {
        self.chan.poll(
            &mut self.state,
            &mut self.base,
            &mut self.image,
            &mut self.sink,
            self.now,
        )
    }

    fn busy(&self) -> bool {
        self.chan.busy(self.base.busy(), self.image.busy())
    }

    fn advance_ms(&mut self, milliseconds: u64) {
        self.now += milliseconds * MILLISECOND;
    }

    /// The coordinator is gone.
    fn drop_worker(&mut self) {
        self.coordinator = None;
        self.sink.gone = true;
    }

    /// The coordinator takes its requests and ticks.
    fn run_worker(&mut self) {
        let c = self.coordinator.as_mut().expect("a coordinator");
        for request in self.sink.take() {
            c.worker
                .process_request(&mut self.state, request, &mut c.target, self.now);
        }
        c.clock.now = self.now;
        c.worker.update(
            &mut self.state,
            &mut c.source,
            &mut c.target,
            &mut c.metadata,
            &mut c.reads,
            &mut c.store,
            &mut c.puncher,
            &mut c.clock,
        );
    }

    /// Poll the channel and the coordinator until all operations complete.
    fn drive(&mut self) -> Vec<(usize, bool)> {
        let mut results = Vec::new();
        for _ in 0..1000 {
            self.run_worker();
            results.extend(self.poll());
            if !self.busy() {
                break;
            }
            self.advance_ms(1);
        }
        self.run_worker();
        results.extend(self.poll());
        results
    }

    fn reads(&self) -> usize {
        self.target.reads()
    }

    fn writes(&self) -> usize {
        self.target.writes()
    }

    fn referenced(&self, stripe_id: usize) -> bool {
        self.state.stripe_flags(stripe_id) & stripe_flags::REFERENCED != 0
    }

    /// Everything the channel sent so far: (Fetch stripe ids, SetWritten
    /// stripe ids), in order.
    fn drain_requests(&mut self) -> (Vec<usize>, Vec<usize>) {
        let (mut fetches, mut set_written) = (Vec::new(), Vec::new());
        for request in self.sink.take() {
            match request {
                BgWorkerRequest::Fetch { stripe_id } => fetches.push(stripe_id),
                BgWorkerRequest::SetWritten { stripe_id } => set_written.push(stripe_id),
                _ => {}
            }
        }
        (fetches, set_written)
    }

    fn fetch_ids(&mut self) -> Vec<usize> {
        self.drain_requests().0
    }
}

/// Take a resident stripe to Evicted through the real transitions, so the
/// counters agree with the state (the raw setter leaves them alone).
fn evict(state: &mut SharedMetadataState, stripe_id: usize) {
    let previous = state
        .try_begin_evicting(stripe_id)
        .expect("stripe is resident");
    state.finish_evicting(stripe_id, previous, false);
}

fn buf_with(data: &[u8]) -> SharedBuffer {
    let buf = shared_buffer(SECTOR_SIZE);
    buf.borrow_mut()[..data.len()].copy_from_slice(data);
    buf
}

fn sorted(mut results: Vec<(usize, bool)>) -> Vec<(usize, bool)> {
    results.sort_by_key(|r| r.0);
    results
}

/// Ensure that reads trigger stripe fetches when copy-on-read is enabled
/// and that queued writes are committed once the fetch completes.
#[test]
fn test_copy_on_read_true() {
    let mut env = setup_env(false, false, b"copy_on_read_data");
    assert_eq!(env.target.reads(), 0);
    assert_eq!(env.target.writes(), 0);

    let read_buf: SharedBuffer = shared_buffer(SECTOR_SIZE);
    env.add_read(0, 1, read_buf.clone(), 1);
    env.submit().unwrap();
    let results = env.drive();
    assert_eq!(results, vec![(1, true)]);
    assert_eq!(
        &read_buf.borrow()[.."copy_on_read_data".len()],
        b"copy_on_read_data"
    );
    assert_eq!(
        &env.target.bytes(0, "copy_on_read_data".len()),
        b"copy_on_read_data"
    );

    assert_eq!(env.target.reads(), 1);
    assert_eq!(env.target.writes(), 1);

    let write_data = b"queued_write";
    let write_buf: SharedBuffer = shared_buffer(SECTOR_SIZE);
    write_buf.borrow_mut()[..write_data.len()].copy_from_slice(write_data);
    env.add_write(STRIPE_SECTORS, 1, write_buf.clone(), 2);
    env.submit().unwrap();
    let results = env.drive();
    assert_eq!(results, vec![(2, true)]);
    let start = STRIPE_SECTORS as usize * SECTOR_SIZE;
    assert_eq!(
        &env.target.bytes(start, write_data.len()),
        write_data
    );

    let flush_id = 3;
    env.add_flush(flush_id);
    env.submit().unwrap();
    let results = env.drive();
    assert_eq!(results, vec![(flush_id, true)]);
}

/// Verify that reads are served from the image when copy-on-read is
/// disabled and that writes and flushes still operate on the target device.
#[test]
fn test_copy_on_read_false() {
    let mut env = setup_env(true, false, b"image_read");
    assert_eq!(env.source_dev.reads(), 0);
    assert_eq!(env.target.reads(), 0);
    assert_eq!(env.target.writes(), 0);

    let read_buf: SharedBuffer = shared_buffer(SECTOR_SIZE);
    env.add_read(0, 1, read_buf.clone(), 1);
    env.submit().unwrap();
    let results = env.drive();
    assert_eq!(results, vec![(1, true)]);
    assert_eq!(
        &read_buf.borrow()[.."image_read".len()],
        b"image_read"
    );
    assert_ne!(
        &env.target.bytes(0, "image_read".len()),
        b"image_read"
    );
    assert_eq!(env.source_dev.reads(), 1);
    assert_eq!(env.target.reads(), 0);
    assert_eq!(env.target.writes(), 0);

    let write_data = b"write_after_fetch";
    let write_buf: SharedBuffer = shared_buffer(SECTOR_SIZE);
    write_buf.borrow_mut()[..write_data.len()].copy_from_slice(write_data);
    env.add_write(STRIPE_SECTORS, 1, write_buf.clone(), 2);
    env.submit().unwrap();
    let results = env.drive();
    assert_eq!(results, vec![(2, true)]);
    let start = STRIPE_SECTORS as usize * SECTOR_SIZE;
    assert_eq!(
        &env.target.bytes(start, write_data.len()),
        write_data
    );

    // write request on the same stripe
    let write_data = b"second_write";
    write_buf.borrow_mut()[..write_data.len()].copy_from_slice(write_data);
    env.add_write(STRIPE_SECTORS, 1, write_buf.clone(), 3);
    env.submit().unwrap();
    let results = env.drive();
    assert_eq!(results, vec![(3, true)]);
    let start = STRIPE_SECTORS as usize * SECTOR_SIZE;
    assert_eq!(
        &env.target.bytes(start, write_data.len()),
        write_data
    );

    let flush_id = 3;
    env.add_flush(flush_id);
    env.submit().unwrap();
    let results = env.drive();
    assert_eq!(results, vec![(flush_id, true)]);
}

/// Verify that on multi-stripe reads, we fetch stripes regardless of
/// whether copy-on-read is enabled or not.
#[test]
fn test_copy_on_read_false_multistripe() {
    let mut env = setup_env(true, false, b"image_read");
    let read_buf: SharedBuffer = shared_buffer(SECTOR_SIZE * 4);
    env.add_read(STRIPE_SECTORS - 2, 4, read_buf.clone(), 1);
    env.submit().unwrap();
    let results = env.drive();
    assert_eq!(results, vec![(1, true)]);

    {
        let image_metrics = &env.source_dev;
        let target_metrics = &env.target;
        assert_eq!(image_metrics.reads(), 2);
        assert_eq!(image_metrics.writes(), 0);
        assert_eq!(target_metrics.reads(), 1);
        assert_eq!(target_metrics.writes(), 2);
    }

    // 2nd read should be served from target device
    env.add_read(STRIPE_SECTORS - 2, 4, read_buf.clone(), 2);
    env.submit().unwrap();
    let results = env.drive();
    assert_eq!(results, vec![(2, true)]);

    {
        let image_metrics = &env.source_dev;
        let target_metrics = &env.target;
        assert_eq!(image_metrics.reads(), 2);
        assert_eq!(image_metrics.writes(), 0);
        assert_eq!(target_metrics.reads(), 2);
        assert_eq!(target_metrics.writes(), 2);
    }
}

/// Verify that stripes are marked written when tracking is enabled.
#[test]
fn test_track_written_true() {
    let mut env = setup_env(false, true, b"");
    let write_data = b"write_with_tracking";
    let write_buf: SharedBuffer = shared_buffer(SECTOR_SIZE);
    write_buf.borrow_mut()[..write_data.len()].copy_from_slice(write_data);
    env.add_write(STRIPE_SECTORS, 1, write_buf.clone(), 1);
    env.submit().unwrap();
    let results = env.drive();
    assert_eq!(results, vec![(1, true)]);
    let start = STRIPE_SECTORS as usize * SECTOR_SIZE;
    assert_eq!(
        &env.target.bytes(start, write_data.len()),
        write_data
    );

    assert!(env.state.stripe_written(1));

    let flush_id = 2;
    env.add_flush(flush_id);
    env.submit().unwrap();
    let results = env.drive();
    assert_eq!(results, vec![(flush_id, true)]);
}

/// A written stripe has to be visible in the shared state as soon as the
/// write is submitted, without the worker having run.
///
/// That state is what a fork is told its source holds, and a fork told a
/// stripe holds nothing reads zeros there rather than fetching it — for
/// good. Leaving it to the worker left a window where a stripe prod had
/// just written looked empty, which is how a fork ended up with a
/// zero-filled postgres file and refused to start.
#[test]
fn a_written_stripe_is_visible_before_the_worker_runs() {
    let mut env = setup_env(false, true, b"");
    let write_buf: SharedBuffer = shared_buffer(SECTOR_SIZE);
    write_buf.borrow_mut()[..4].copy_from_slice(b"data");
    env.add_write(STRIPE_SECTORS, 1, write_buf, 1);
    env.submit().unwrap();

    assert!(
        env.state.stripe_written(1),
        "the stripe must count as written before the worker has processed anything"
    );
}

/// Verify tracking of written stripes when an image device is present.
#[test]
fn test_track_written_true_with_image() {
    let mut env = setup_env(true, true, b"image_data");
    let write_data = b"track_image_write";
    let write_buf: SharedBuffer = shared_buffer(SECTOR_SIZE);
    write_buf.borrow_mut()[..write_data.len()].copy_from_slice(write_data);
    env.add_write(STRIPE_SECTORS, 1, write_buf.clone(), 1);
    env.submit().unwrap();
    let results = env.drive();
    assert_eq!(results, vec![(1, true)]);
    let start = STRIPE_SECTORS as usize * SECTOR_SIZE;
    assert_eq!(
        &env.target.bytes(start, write_data.len()),
        write_data
    );

    assert!(env.state.stripe_written(1));

    let flush_id = 2;
    env.add_flush(flush_id);
    env.submit().unwrap();
    let results = env.drive();
    assert_eq!(results, vec![(flush_id, true)]);
}

#[test]
fn test_failed_stripe_access() {
    let mut env = setup_env(true, false, b"image_read");
    env.state.set_stripe_failed(0);

    let read_buf: SharedBuffer = shared_buffer(SECTOR_SIZE);
    env.add_read(0, 1, read_buf.clone(), 1);
    env.submit().unwrap();
    let results = env.drive();

    assert_eq!(results, vec![(1, false)]);

    let write_data = b"write_to_failed_stripe";
    let write_buf: SharedBuffer = shared_buffer(SECTOR_SIZE);
    write_buf.borrow_mut()[..write_data.len()].copy_from_slice(write_data);
    env.add_write(0, 1, write_buf.clone(), 2);
    env.submit().unwrap();
    let results = env.drive();

    assert_eq!(results, vec![(2, false)]);
}

#[test]
fn test_clone() {
    let mut env = setup_env(true, false, b"image_read");
    let lazy_clone = env.lazy.clone();

    assert_eq!(lazy_clone.sector_count(), env.lazy.sector_count());

    env.chan = lazy_clone.create_channel();

    let read_buf: SharedBuffer = shared_buffer(SECTOR_SIZE);
    env.add_read(0, 1, read_buf.clone(), 1);
    env.submit().unwrap();

    let results = env.drive();
    assert_eq!(results, vec![(1, true)]);
    assert_eq!(
        &read_buf.borrow()[.."image_read".len()],
        b"image_read"
    );
}

#[test]
fn test_start_stripe_fetches_channel_failure_read() {
    let mut env = setup_env(false, false, b"");
    env.drop_worker();

    let read_buf: SharedBuffer = shared_buffer(SECTOR_SIZE);
    env.add_read(0, 1, read_buf, 1);
    env.submit().unwrap();
    let results = env.poll();

    assert_eq!(results, vec![(1, false)]);
}

#[test]
fn test_start_stripe_fetches_channel_failure_write() {
    let mut env = setup_env(false, false, b"");
    env.drop_worker();

    let write_buf: SharedBuffer = shared_buffer(SECTOR_SIZE);
    env.add_write(0, 1, write_buf, 1);
    env.submit().unwrap();
    let results = env.poll();
    assert_eq!(results, vec![(1, false)]);
}

#[test]
fn test_start_stripe_set_written_channel_failure() {
    let mut env = setup_env(false, true, b"");
    env.state.set_stripe_header(0, metadata_flags::FETCHED);
    env.drop_worker();
    let write_buf: SharedBuffer = shared_buffer(SECTOR_SIZE);
    env.add_write(0, 1, write_buf, 1);
    env.submit().unwrap();
    let results = env.poll();

    assert_eq!(results, vec![(1, false)]);
    assert_eq!(env.target.writes(), 0);
}

#[test]
fn unknown_fetch_state_fails_the_request() {
    let mut env = setup_env(false, false, b"");
    env.state.set_stripe_fetch_state_for_test(0, 9);
    let buf: SharedBuffer = shared_buffer(SECTOR_SIZE);
    env.add_read(0, 1, buf, 1);
    env.submit().unwrap();
    let results = env.poll();

    assert_eq!(results, vec![(1, false)]);
    assert_eq!(env.target.reads(), 0);
    assert_eq!(
        env.state.spill()
            .degraded_reasons,
        1
    );
}

#[test]
fn read_of_evicting_stripe_queues_and_sends_fetch() {
    let mut env = setup_channel_env(false);
    env.state.mark_stripe_fetched(0);
    assert_eq!(env.state.try_begin_evicting(0), Some(Fetched));
    env.add_read(0, 1, shared_buffer(SECTOR_SIZE), 1);
    env.submit().unwrap();
    assert_eq!(env.reads(), 0, "nothing reaches base while Evicting");
    assert!(env.busy());
    assert_eq!(env.fetch_ids(), vec![0]);
    assert!(env.poll().is_empty());
    assert_eq!(env.reads(), 0);

    // The coordinator aborts the eviction on that Fetch; the request goes.
    env.state.abort_evicting(0, Fetched);
    assert_eq!(env.poll(), vec![(1, true)]);
    assert_eq!(env.reads(), 1);
    assert!(!env.busy());
}

#[test]
fn read_of_evicted_stripe_queues_and_sends_fetch() {
    let mut env = setup_channel_env(false);
    env.state.mark_stripe_fetched(0);
    evict(&mut env.state, 0);
    assert_eq!(env.state.stripe_fetch_state(0), Evicted);
    env.add_read(0, 1, shared_buffer(SECTOR_SIZE), 1);
    env.submit().unwrap();
    assert_eq!(env.reads(), 0, "nothing reaches base while Evicted");
    assert_eq!(env.fetch_ids(), vec![0]);
    assert!(env.poll().is_empty());

    // The coordinator brings it back.
    env.state.mark_stripe_resident(0);
    assert_eq!(env.poll(), vec![(1, true)]);
    assert_eq!(env.reads(), 1);
}

/// The in-flight count is raised before the state is looked at, so by the time
/// a request is inside base the evictor's look at the counter after its claim
/// cannot see zero. The stripe is claimed right after base took the read, which
/// is as late as a claim can race with this request.
#[test]
fn inflight_is_pinned_before_the_state_check() {
    let mut env = setup_channel_env(false);
    env.state.mark_stripe_fetched(0);

    env.add_read(0, 1, shared_buffer(SECTOR_SIZE), 1);
    let stripe_id = env.state.sector_to_stripe_id(0);
    assert_eq!(
        env.state.stripe_inflight(stripe_id),
        1,
        "a request reached base without its stripe pinned"
    );
    env.state
        .set_stripe_fetch_state_for_test(stripe_id, Evicting);
    env.submit().unwrap();

    // Either outcome is legal; dispatched unpinned is not.
    if env.reads() == 1 {
        assert_eq!(env.state.stripe_inflight(0), 1);
    } else {
        assert_eq!(env.state.stripe_inflight(0), 0);
        assert!(env.busy());
    }
    assert_eq!(env.state.stripe_fetch_state(0), Evicting);

    let results = env.poll();
    if env.reads() == 1 {
        assert_eq!(results, vec![(1, true)]);
    }
    assert_eq!(env.state.stripe_inflight(0), 0);
}

#[test]
fn inflight_returns_to_zero_after_completion() {
    let mut env = setup_channel_env(false);
    env.state.mark_stripe_fetched(0);
    env.target.hold_completions(true);
    env.add_read(0, 1, shared_buffer(SECTOR_SIZE), 1);
    env.submit().unwrap();
    assert_eq!(env.state.stripe_inflight(0), 1);
    assert!(env.poll().is_empty());
    assert_eq!(
        env.state.stripe_inflight(0),
        1,
        "pinned until base completes it"
    );

    env.target.hold_completions(false);
    assert_eq!(env.poll(), vec![(1, true)]);
    assert_eq!(env.state.stripe_inflight(0), 0);

    // A write pins and unpins the same way.
    env.target.hold_completions(true);
    env.add_write(0, 1, buf_with(b"w"), 2);
    env.submit().unwrap();
    assert_eq!(env.state.stripe_inflight(0), 1);
    env.target.hold_completions(false);
    assert_eq!(env.poll(), vec![(2, true)]);
    assert_eq!(env.state.stripe_inflight(0), 0);
}

#[test]
fn inflight_is_released_when_queueing() {
    let mut env = setup_channel_env(true);
    // Not resident: pinned, seen Evicting, unpinned, queued.
    env.state.mark_stripe_fetched(0);
    assert_eq!(env.state.try_begin_evicting(0), Some(Fetched));
    env.add_read(0, 1, shared_buffer(SECTOR_SIZE), 1);
    assert_eq!(env.state.stripe_inflight(0), 0);

    // Resident but the write waits on WRITTEN under track_written.
    env.state.mark_stripe_fetched(1);
    env.add_write(STRIPE_SECTORS, 1, buf_with(b"w"), 2);
    assert_eq!(env.state.stripe_inflight(1), 0);

    // Resident and written, but the write gate holds writes.
    env.state.mark_stripe_fetched(2);
    env.state.mark_stripe_written(2);
    env.state.set_write_gate(GATE_HOLD);
    env.add_write(2 * STRIPE_SECTORS, 1, buf_with(b"w"), 3);
    assert_eq!(env.state.stripe_inflight(2), 0);

    env.submit().unwrap();
    assert!(env.poll().is_empty());
    assert_eq!(env.writes(), 0);
    assert_eq!(env.reads(), 0);
    for stripe_id in 0..3 {
        assert_eq!(env.state.stripe_inflight(stripe_id), 0);
    }
}

#[test]
fn inflight_is_released_on_submit_failure() {
    let mut env = setup_channel_env(false);
    env.state.mark_stripe_fetched(0);
    env.state.mark_stripe_fetched(1);
    // Direct path: the frontend's submit fails after the pass-through.
    env.add_read(0, 1, shared_buffer(SECTOR_SIZE), 1);
    assert_eq!(env.state.stripe_inflight(0), 1);
    env.target.fail_submit();
    assert!(env.submit().is_err());
    assert_eq!(env.state.stripe_inflight(0), 0);
    assert!(env.poll().is_empty());

    // The id comes round again: the map was cleared, so the old pin is
    // gone and the new one is released exactly once (no underflow).
    env.add_read(0, 1, shared_buffer(SECTOR_SIZE), 1);
    env.submit().unwrap();
    assert_eq!(env.state.stripe_inflight(0), 1);
    assert_eq!(env.poll(), vec![(1, true)]);
    assert_eq!(env.state.stripe_inflight(0), 0);

    // Queued path: the submit inside poll fails; the request is failed
    // and its stripe unpinned.
    env.state.set_stripe_fetch_state_for_test(1, Evicting);
    env.add_read(STRIPE_SECTORS, 1, shared_buffer(SECTOR_SIZE), 2);
    env.submit().unwrap();
    assert!(env.busy());
    env.state.set_stripe_fetch_state_for_test(1, Fetched);
    env.target.fail_submit();
    assert_eq!(env.poll(), vec![(2, false)]);
    assert_eq!(env.state.stripe_inflight(1), 0);
    assert!(!env.busy());
}

#[test]
fn flush_completions_do_not_touch_inflight() {
    let mut env = setup_channel_env(false);
    env.state.mark_stripe_fetched(0);
    // A flush by itself: no stripe is pinned, none is unpinned (an unpin
    // here would trip the underflow debug_assert).
    env.add_flush(7);
    env.submit().unwrap();
    assert_eq!(env.poll(), vec![(7, true)]);
    for stripe_id in 0..STRIPE_COUNT {
        assert_eq!(env.state.stripe_inflight(stripe_id), 0);
    }

    // A flush completing next to a pinned read leaves the pin alone.
    env.target.hold_completions(true);
    env.add_read(0, 1, shared_buffer(SECTOR_SIZE), 1);
    env.add_flush(2);
    env.submit().unwrap();
    assert_eq!(env.state.stripe_inflight(0), 1);
    env.target.hold_completions(false);
    assert_eq!(sorted(env.poll()), vec![(1, true), (2, true)]);
    assert_eq!(env.state.stripe_inflight(0), 0);

    // A flush reusing a read's id after that read completed: the slot is
    // already None, so nothing is unpinned twice.
    env.add_flush(1);
    env.submit().unwrap();
    assert_eq!(env.poll(), vec![(1, true)]);
    assert_eq!(env.state.stripe_inflight(0), 0);
}

#[test]
fn cross_stripe_request_pins_every_stripe_in_range() {
    let mut env = setup_channel_env(false);
    env.state.mark_stripe_fetched(0);
    env.state.mark_stripe_fetched(1);
    env.target.hold_completions(true);
    let buf = shared_buffer(2 * SECTOR_SIZE);
    env.add_read(STRIPE_SECTORS - 1, 2, buf, 1);
    env.submit().unwrap();
    assert_eq!(env.state.stripe_inflight(0), 1);
    assert_eq!(env.state.stripe_inflight(1), 1);
    assert_eq!(env.state.stripe_inflight(2), 0);

    env.target.hold_completions(false);
    assert_eq!(env.poll(), vec![(1, true)]);
    assert_eq!(env.state.stripe_inflight(0), 0);
    assert_eq!(env.state.stripe_inflight(1), 0);

    // If any stripe in the range is not resident, none is left pinned.
    evict(&mut env.state, 1);
    let buf = shared_buffer(2 * SECTOR_SIZE);
    env.add_read(STRIPE_SECTORS - 1, 2, buf, 2);
    assert_eq!(env.state.stripe_inflight(0), 0);
    assert_eq!(env.state.stripe_inflight(1), 0);
    assert_eq!(env.fetch_ids(), vec![1]);
}

#[test]
fn clock_bit_set_only_on_pass_through() {
    let mut env = setup_channel_env(true);
    env.state.mark_stripe_fetched(0);
    env.state.mark_stripe_fetched(2);
    // Passes: referenced.
    env.add_read(0, 1, shared_buffer(SECTOR_SIZE), 1);
    assert!(env.referenced(0));
    assert!(env.state.take_reference(0));
    assert!(!env.referenced(0));

    // Queued on a stripe that is not here: not referenced.
    env.add_read(STRIPE_SECTORS, 1, shared_buffer(SECTOR_SIZE), 2);
    assert!(!env.referenced(1));

    // Queued on a resident stripe, waiting on WRITTEN: not referenced
    // until the write actually passes on the next poll.
    env.add_write(2 * STRIPE_SECTORS, 1, buf_with(b"w"), 3);
    assert!(!env.referenced(2));
    env.submit().unwrap();
    // The front (stripe 1) is Pending, so the write waits behind it.
    assert!(env.poll().len() == 1);
    assert!(!env.referenced(2));
    env.state.mark_stripe_fetched(1);
    assert_eq!(sorted(env.poll()), vec![(2, true), (3, true)]);
    assert!(env.referenced(1));
    assert!(env.referenced(2));
}

#[test]
fn pending_front_on_evicted_stripe_resends_fetch_every_100ms() {
    let mut env = setup_channel_env(true);
    env.state.mark_stripe_fetched(0);
    // A write on a Fetched but unwritten stripe queues without any Fetch:
    // the stripe is here, it only waits on WRITTEN.
    env.add_write(0, 1, buf_with(b"w"), 1);
    env.submit().unwrap();
    let (fetches, set_written) = env.drain_requests();
    assert!(fetches.is_empty());
    assert_eq!(set_written, vec![0]);
    assert!(env.busy());

    // Before the write can go, the evictor takes the stripe away. Nothing
    // but this channel will ever ask for it back.
    evict(&mut env.state, 0);

    assert!(env.poll().is_empty());
    assert_eq!(env.fetch_ids(), vec![0], "a Fetch is sent for the front");
    assert!(env.poll().is_empty());
    assert!(env.fetch_ids().is_empty(), "not again straight away");

    env.advance_ms(110);
    assert!(env.poll().is_empty());
    assert_eq!(env.fetch_ids(), vec![0], "and again after the interval");

    env.advance_ms(110);
    assert!(env.poll().is_empty());
    assert_eq!(env.fetch_ids(), vec![0]);

    // Landed: the write passes on the next poll.
    env.state.mark_stripe_resident(0);
    assert_eq!(env.poll(), vec![(1, true)]);
    assert_eq!(env.writes(), 1);
}

#[test]
fn pending_front_on_not_fetched_stripe_does_not_resend() {
    let mut env = setup_channel_env(false);
    env.add_read(0, 1, shared_buffer(SECTOR_SIZE), 1);
    env.submit().unwrap();
    assert_eq!(env.fetch_ids(), vec![0]);

    for _ in 0..3 {
        env.advance_ms(110);
        assert!(env.poll().is_empty());
        assert!(
            env.fetch_ids().is_empty(),
            "a NotFetched front is the fetcher's to finish"
        );
    }
    assert!(env.busy());
}

#[test]
fn hold_gate_queues_writes_and_passes_reads_then_drains_fifo() {
    let mut env = setup_channel_env(true);
    env.state.mark_stripe_fetched(0);
    env.state.mark_stripe_fetched(1);
    env.state.set_write_gate(GATE_HOLD);
    assert_eq!(env.state.spill().stalls, 1);

    env.add_write(0, 1, buf_with(b"first"), 1);
    env.add_write(STRIPE_SECTORS, 1, buf_with(b"second"), 2);
    env.submit().unwrap();
    assert_eq!(env.writes(), 0);
    assert!(env.busy());
    // Today's contract with the snapshot server holds under the write gate: the
    // stripe counts as written from the moment the write is queued.
    assert!(env.state.stripe_written(0));
    assert!(env.state.stripe_written(1));
    assert_eq!(env.drain_requests().1, vec![0, 1]);

    // Reads of resident stripes pass around the held writes.
    let read_buf = shared_buffer(SECTOR_SIZE);
    env.add_read(0, 1, read_buf, 3);
    env.submit().unwrap();
    assert_eq!(env.poll(), vec![(3, true)]);
    assert_eq!(env.reads(), 1);
    assert_eq!(env.writes(), 0, "writes are still held");

    env.state.set_write_gate(GATE_OPEN);
    assert_eq!(env.poll(), vec![(1, true), (2, true)]);
    assert_eq!(env.writes(), 2);
    assert!(!env.busy());
    assert_eq!(env.target.bytes(0, 5), b"first");
    let start = STRIPE_SECTORS as usize * SECTOR_SIZE;
    assert_eq!(env.target.bytes(start, 6), b"second");
}

#[test]
fn fail_gate_fails_new_writes_and_pending_fronts() {
    let mut env = setup_channel_env(false);
    env.state.mark_stripe_fetched(0);
    // A write held by the write gate, and a read waiting on a fetch behind it.
    env.state.set_write_gate(GATE_HOLD);
    env.add_write(0, 1, buf_with(b"held"), 1);
    env.add_read(STRIPE_SECTORS, 1, shared_buffer(SECTOR_SIZE), 2);
    env.submit().unwrap();
    assert_eq!(env.fetch_ids(), vec![1]);

    env.state.set_write_gate(GATE_FAIL);

    // New writes fail at once, resident stripe or not, and ask for nothing.
    env.add_write(0, 1, buf_with(b"new"), 3);
    env.add_write(2 * STRIPE_SECTORS, 1, buf_with(b"new"), 4);
    assert!(env.fetch_ids().is_empty());
    // Reads of resident stripes still pass.
    env.add_read(0, 1, shared_buffer(SECTOR_SIZE), 5);
    env.submit().unwrap();

    // The queued write and the Pending read are popped and failed.
    assert_eq!(
        sorted(env.poll()),
        vec![(1, false), (2, false), (3, false), (4, false), (5, true)]
    );
    assert!(!env.busy());
    assert_eq!(env.writes(), 0);
    assert_eq!(env.reads(), 1);
    for stripe_id in 0..STRIPE_COUNT {
        assert_eq!(env.state.stripe_inflight(stripe_id), 0);
    }
}

/// The whole loop with a real coordinator and fetcher: a read of an
/// Evicted stripe sends Fetch, the fetcher pulls the stripe from the
/// source once and writes it to the target, and the read is served with
/// the right bytes once the stripe is resident again.
///
/// Landing an Evicted stripe without an evictor is done here by
/// `mark_stripe_resident` once the fetcher has written the data.
#[test]
fn evicted_stripe_is_refetched_before_read_end_to_end() {
    let data = b"back_from_the_source";
    let mut env = setup_env(false, false, data);
    env.state.mark_stripe_fetched(0);
    evict(&mut env.state, 0);
    assert_eq!(env.state.stripe_fetch_state(0), Evicted);
    assert_eq!(env.state.evicted_stripes(), 1);
    let read_buf: SharedBuffer = shared_buffer(SECTOR_SIZE);
    env.add_read(0, 1, read_buf.clone(), 1);
    env.submit().unwrap();
    assert_eq!(env.target.reads(), 0);

    let mut results = Vec::new();
    for _ in 0..5000 {
        env.run_worker();
        results.extend(env.poll());
        if !results.is_empty() {
            break;
        }
        if env.state.stripe_fetch_state(0) == Evicted
            && env.target.writes() >= 1
        {
            assert_eq!(
                env.target.reads(),
                0,
                "the read must not reach base while the stripe is Evicted"
            );
            env.state.mark_stripe_resident(0);
        }
        env.advance_ms(1);
    }

    assert_eq!(results, vec![(1, true)]);
    assert_eq!(&read_buf.borrow()[..data.len()], data);
    assert_eq!(env.source_dev.reads(), 1);
    assert_eq!(env.target.reads(), 1);
    assert_eq!(env.state.stripe_fetch_state(0), Fetched);
    assert_eq!(env.state.evicted_stripes(), 0);
    assert_eq!(env.state.stripe_inflight(0), 0);
}

#[test]
fn a_request_queue_takes_nothing_once_the_coordinator_is_gone() {
    let mut queue = RequestQueue::new();
    assert!(queue.send_fetch(3));
    assert!(queue.send_set_written(4));
    let sent = queue.take();
    assert!(matches!(sent[0], BgWorkerRequest::Fetch { stripe_id: 3 }));
    assert!(matches!(
        sent[1],
        BgWorkerRequest::SetWritten { stripe_id: 4 }
    ));
    assert_eq!(sent.len(), 2);
    assert!(queue.take().is_empty());

    queue.gone = true;
    assert!(!queue.send_fetch(5));
    assert!(!queue.send_set_written(6));
    assert!(queue.take().is_empty());
}
