use std::cell::RefCell;
use std::collections::HashMap;
use std::rc::Rc;

use ubiblk::ingest_pool::{IngestPool, IngestPoolConfig, IngestRequest, IngestWorker};
use ubiblk::io::{IoChannel, IoError, StripeSource};
use ubiblk::metadata::metadata_flags;
use ubiblk::metadata::shared_state::{Evicted, Fetched, SharedMetadataState};
use ubiblk::metadata::types::UbiMetadata;
use ubiblk::push_gate::{PushGate, PushPermit};
use ubiblk::stripe_fetcher::{submit_write, FetchState, StripeFetcher, PUSH_WAIT};
use ubiblk::SECTOR_SIZE;

const STRIPE_SECTORS: u64 = 8;
const STRIPE_BYTES: usize = STRIPE_SECTORS as usize * SECTOR_SIZE;

#[derive(Default)]
struct DeviceState {
    mem: Vec<u8>,
    reads: usize,
    writes: usize,
    flushes: usize,
    fail_next: bool,
}

#[derive(Clone)]
struct TestDevice(Rc<RefCell<DeviceState>>);

impl TestDevice {
    fn new(size: usize) -> Self {
        TestDevice(Rc::new(RefCell::new(DeviceState {
            mem: vec![0; size],
            ..DeviceState::default()
        })))
    }

    fn sector_count(&self) -> u64 {
        (self.0.borrow().mem.len() / SECTOR_SIZE) as u64
    }

    fn counts(&self) -> (usize, usize, usize) {
        let state = self.0.borrow();
        (state.reads, state.writes, state.flushes)
    }

    fn stripe(&self, stripe_id: usize) -> Vec<u8> {
        let start = stripe_id * STRIPE_BYTES;
        self.0.borrow().mem[start..start + STRIPE_BYTES].to_vec()
    }
}

struct TestChannel {
    device: TestDevice,
    finished: Vec<(usize, bool)>,
}

impl IoChannel<Vec<u8>> for TestChannel {
    fn add_read(&mut self, _sector_offset: u64, _sector_count: u32, _buf: Vec<u8>, _id: usize) {
        self.device.0.borrow_mut().reads += 1;
    }

    fn add_write(&mut self, sector_offset: u64, sector_count: u32, buf: Vec<u8>, id: usize) {
        let mut state = self.device.0.borrow_mut();
        state.writes += 1;
        let start = sector_offset as usize * SECTOR_SIZE;
        let len = sector_count as usize * SECTOR_SIZE;
        state.mem[start..start + len].copy_from_slice(&buf[..len]);
        self.finished.push((id, true));
    }

    fn add_flush(&mut self, id: usize) {
        self.device.0.borrow_mut().flushes += 1;
        self.finished.push((id, true));
    }

    fn submit(&mut self) -> Result<(), IoError> {
        Ok(())
    }

    fn poll(&mut self) -> Vec<(usize, bool)> {
        std::mem::take(&mut self.finished)
    }

    fn take_read(&mut self, _id: usize) -> Option<Vec<u8>> {
        None
    }

    fn busy(&self) -> bool {
        !self.finished.is_empty()
    }
}

/// A source over a device: a failing request is not counted as a read.
struct TestSource {
    device: TestDevice,
    /// Bytes it gives of a stripe at most.
    most: usize,
    /// It was let go of.
    gone: bool,
    arrived: Vec<(usize, bool)>,
    stripes: HashMap<usize, Vec<u8>>,
}

impl StripeSource for TestSource {
    fn request(&mut self, stripe_id: usize) -> Result<(), IoError> {
        if self.gone {
            return Err(IoError { errno: 107 });
        }
        let mut state = self.device.0.borrow_mut();
        if std::mem::take(&mut state.fail_next) {
            self.arrived.push((stripe_id, false));
            return Ok(());
        }
        state.reads += 1;
        let start = stripe_id * STRIPE_BYTES;
        let mut data = state.mem[start..start + STRIPE_BYTES].to_vec();
        data.truncate(self.most);
        self.stripes.insert(stripe_id, data);
        self.arrived.push((stripe_id, true));
        Ok(())
    }

    fn poll(&mut self) -> Vec<(usize, bool)> {
        std::mem::take(&mut self.arrived)
    }

    fn take_stripe(&mut self, stripe_id: usize) -> Option<Vec<u8>> {
        self.stripes.remove(&stripe_id)
    }

    fn busy(&self) -> bool {
        !self.arrived.is_empty()
    }

    fn sector_count(&self) -> u64 {
        self.device.sector_count()
    }
}

struct TestState {
    source_dev: TestDevice,
    source: TestSource,
    target_dev: TestDevice,
    target: TestChannel,
    shared: SharedMetadataState,
    fetcher: StripeFetcher,
    now: u64,
}

fn prep(autofetch: bool) -> TestState {
    let source_dev = TestDevice::new(1024 * 1024);
    let target_dev = TestDevice::new(2 * 1024 * 1024);
    let metadata = UbiMetadata::new(
        3,
        (target_dev.sector_count() / STRIPE_SECTORS) as usize,
        (source_dev.sector_count() / STRIPE_SECTORS) as usize,
    );
    let fetcher = StripeFetcher::new(
        source_dev.sector_count(),
        target_dev.sector_count(),
        STRIPE_SECTORS,
        autofetch,
    )
    .unwrap();
    TestState {
        source: TestSource {
            device: source_dev.clone(),
            most: STRIPE_BYTES,
            gone: false,
            arrived: Vec::new(),
            stripes: HashMap::new(),
        },
        source_dev,
        target: TestChannel {
            device: target_dev.clone(),
            finished: Vec::new(),
        },
        target_dev,
        shared: SharedMetadataState::new(&metadata),
        fetcher,
        now: 1,
    }
}

impl TestState {
    fn update(&mut self) {
        self.fetcher.update(
            &mut self.shared,
            &mut self.source,
            &mut self.target,
            self.now,
        );
    }

    fn updates(&mut self, count: usize) {
        for _ in 0..count {
            self.update();
        }
    }

    fn request(&mut self, stripe_id: usize) {
        self.fetcher.handle_fetch_request(&self.shared, stripe_id);
    }

    fn push_with(&mut self, stripe_id: usize, data: &[u8], permit: PushPermit) {
        if let Some(write) =
            self.fetcher
                .accept_pushed_stripe(&self.shared, stripe_id, data, permit)
        {
            assert!(submit_write(&mut self.target, write).is_ok());
        }
    }

    fn push(&mut self, stripe_id: usize, data: &[u8]) {
        self.push_with(stripe_id, data, PushPermit::unbounded());
    }

    fn fail_next(&self) {
        self.source_dev.0.borrow_mut().fail_next = true;
    }

    fn fail(&mut self, stripe_id: usize) {
        self.fetcher
            .fetch_completed(&mut self.shared, stripe_id, false, self.now);
    }
}

#[test]
fn test_basic_fetch() {
    let mut state = prep(false);
    state.request(0);
    state.updates(10);
    let finished = state.fetcher.take_finished_fetches();
    assert_eq!(finished.len(), 1);
    assert_eq!(finished[0], (0, true));

    assert_eq!(state.source_dev.counts(), (1, 0, 0));
    assert_eq!(state.target_dev.counts(), (0, 1, 1));
}

/// A stripe pushed while a pull for it is in flight must not be dropped: once
/// the server has copied the stripe out it stops serving it, so the pull can
/// never succeed and the pushed copy is the only correct one.
#[test]
fn pushed_stripe_is_applied_after_the_racing_fetch_fails() {
    let mut state = prep(false);
    let pushed = vec![0xAB; STRIPE_BYTES];

    // Start a pull and make it fail, the way a pull for a stripe the server has
    // already copied out fails.
    state.fail_next();
    state.request(0);
    state.update();

    // The push arrives while that pull is still outstanding.
    state.push(0, &pushed);
    assert_eq!(
        state.target_dev.counts().1,
        0,
        "the push waits for the pull rather than racing it to the disk"
    );

    state.updates(10);

    assert_eq!(
        state.target_dev.stripe(0),
        pushed,
        "the pushed copy must reach the disk once the pull is out of the way"
    );
}

/// A pull that failed because the server had already copied the stripe out is
/// left queued for a retry. When the pushed copy then arrives, that retry has to
/// go away: it would fail again, and its completion would arrive on top of the
/// push's write and be mistaken for it.
#[test]
fn a_queued_retry_is_dropped_when_the_pushed_copy_arrives() {
    let mut state = prep(false);
    state.fetcher.set_expects_pushes(true);
    let pushed = vec![0x5C; STRIPE_BYTES];

    state.fail_next();
    state.request(0);
    state.update();

    state.push(0, &pushed);
    state.updates(10);

    assert_eq!(
        state.source_dev.counts().0,
        0,
        "the queued retry must not reach the source once the push has arrived"
    );
    assert_eq!(
        state.target_dev.stripe(0),
        pushed,
        "the pushed copy must reach the disk"
    );
    assert_eq!(
        state.fetcher.take_finished_fetches(),
        vec![(0, true)],
        "and the stripe must end up fetched"
    );
}

/// A stripe that arrives while its fetch is still queued must not be pulled
/// anyway: on a fork the source stops serving a stripe once it has been copied
/// out, so the pull would fail and take the guest read with it.
#[test]
fn a_queued_fetch_is_dropped_when_the_stripe_arrives_first() {
    let mut state = prep(false);
    state.fetcher.set_expects_pushes(true);

    // Queue a fetch, then let the stripe arrive by push before it starts.
    state.request(0);
    state.shared.set_stripe_header(0, metadata_flags::FETCHED);

    state.updates(10);

    assert_eq!(
        state.source_dev.counts().0,
        0,
        "the queued fetch must not go to the source"
    );
}

#[test]
fn pushed_stripe_is_written_immediately_when_nothing_is_fetching() {
    let mut state = prep(false);
    let pushed = vec![0xCD; STRIPE_BYTES];

    state.push(1, &pushed);
    state.updates(10);

    assert_eq!(state.target_dev.stripe(1), pushed);

    let finished = state.fetcher.take_finished_fetches();
    assert_eq!(finished, vec![(1, true)], "it counts as a completed fetch");
}

/// A stripe the fork already has locally does not need the pushed copy.
#[test]
fn pushed_stripe_is_ignored_when_the_stripe_is_already_local() {
    let mut state = prep(false);
    state.request(0);
    state.updates(10);
    state.shared.set_stripe_header(0, metadata_flags::FETCHED);
    let writes_before = state.target_dev.counts().1;

    state.push(0, &[0xEF; 512]);
    state.updates(10);

    assert_eq!(state.target_dev.counts().1, writes_before);
}

#[test]
fn test_repeat_requests_ignored() {
    let mut state = prep(false);
    state.request(1);
    state.updates(10);
    let finished = state.fetcher.take_finished_fetches();
    assert_eq!(finished.len(), 1);
    assert_eq!(finished[0], (1, true));

    state.request(1);
    state.updates(10);
    let finished = state.fetcher.take_finished_fetches();
    assert_eq!(finished.len(), 0);

    assert_eq!(state.source_dev.counts(), (1, 0, 0));
    assert_eq!(state.target_dev.counts(), (0, 1, 1));
}

#[test]
fn test_autofetch() {
    let mut state = prep(true);
    let finished = state.fetcher.take_finished_fetches();
    assert_eq!(finished.len(), 0);
    state.updates(1000);
    let mut finished = state.fetcher.take_finished_fetches();
    let source_stripe_count = state.fetcher.source_stripe_count() as usize;
    assert_eq!(finished.len(), source_stripe_count);
    finished.sort_by_key(|(stripe_id, _)| *stripe_id);
    for (idx, (stripe_id, success)) in finished.iter().enumerate() {
        assert!(*stripe_id == idx);
        assert!(success);
    }
}

#[test]
fn test_autofetch_prioritizes_manual() {
    let mut state = prep(true);
    state.updates(20);
    let mut finished = state.fetcher.take_finished_fetches();
    assert!(!finished.is_empty());

    // We shouldn't have finished the following stripes in the first 20
    // cycles yet.
    let priority_list = vec![100, 110, 122];
    for stripe_id in &priority_list {
        assert!(finished.iter().all(|(sid, _)| *sid != *stripe_id));
    }

    // Now request those specifically.
    for stripe_id in &priority_list {
        state.request(*stripe_id);
    }

    state.updates(20);
    let finished_2nd_batch = state.fetcher.take_finished_fetches();

    // The explicit requests should have been prioritized and completed.
    for stripe_id in &priority_list {
        assert!(finished_2nd_batch[..priority_list.len() + 1]
            .iter()
            .any(|(sid, _)| *sid == *stripe_id));
    }

    finished.extend(finished_2nd_batch);

    // Now process until all the autofetches are done.
    state.updates(1000);

    finished.extend(state.fetcher.take_finished_fetches());

    let source_stripe_count = state.fetcher.source_stripe_count() as usize;
    assert_eq!(finished.len(), source_stripe_count);
    finished.sort_by_key(|(stripe_id, _)| *stripe_id);
    for (idx, (stripe_id, success)) in finished.iter().enumerate() {
        assert!(*stripe_id == idx);
        assert!(success);
    }
}

#[test]
fn test_retry_logic() {
    let mut state = prep(false);
    state.fetcher.allocated_buffers.insert(0);
    state.fetcher.free_buffers -= 1;

    state.fail(0);
    assert!(!state.fetcher.fetch_queue.is_empty());
    state.fetcher.fetch_queue.pop_front();
    assert_eq!(
        state.fetcher.stripe_states.get(&0),
        Some(&FetchState::Queued)
    );
    assert_eq!(state.fetcher.stripe_fetch_retries.get(&0), Some(&1));

    assert!(!state.shared.is_stripe_failed(0));

    state.fail(0);
    assert!(!state.fetcher.fetch_queue.is_empty());
    state.fetcher.fetch_queue.pop_front();
    assert_eq!(state.fetcher.stripe_fetch_retries.get(&0), Some(&2));

    assert!(!state.shared.is_stripe_failed(0));

    state.fail(0);
    assert!(!state.fetcher.fetch_queue.is_empty());
    state.fetcher.fetch_queue.pop_front();
    assert_eq!(state.fetcher.stripe_fetch_retries.get(&0), Some(&3));

    state.fail(0);
    assert!(state.fetcher.fetch_queue.is_empty());
    assert_eq!(state.fetcher.stripe_states.get(&0), None);
    assert!(state.shared.is_stripe_failed(0));
}

#[test]
fn test_disconnects_when_all_fetched() {
    let mut state = prep(false);
    let source_stripe_count = state.fetcher.source_stripe_count() as usize;

    // Not done yet
    assert!(!state
        .fetcher
        .disconnect_from_source_if_all_fetched(&state.shared, false, false));
    assert!(!state.fetcher.disconnected);

    // Mark all fetched
    for stripe_id in 0..source_stripe_count {
        state.shared.set_stripe_header(
            stripe_id,
            metadata_flags::FETCHED | metadata_flags::HAS_SOURCE,
        );
    }

    // Now should disconnect
    assert!(state
        .fetcher
        .disconnect_from_source_if_all_fetched(&state.shared, false, false));
    assert!(state.fetcher.disconnected);
}

/// Copies that wait keep the subscriber's slots, so a fork that cannot keep up
/// stops reading.
#[test]
fn a_waiting_push_holds_its_slot() {
    let mut state = prep(false);
    let mut gate = PushGate::new(4);
    state.request(0);
    let permit = gate.acquire().unwrap();
    state.push_with(0, &[1; STRIPE_BYTES], permit);
    assert!(state.fetcher.take_dropped_permits().is_empty());

    // A second copy takes the place of the first, and gives its slot back.
    let permit = gate.acquire().unwrap();
    state.push_with(0, &[2; STRIPE_BYTES], permit);
    for permit in state.fetcher.take_dropped_permits() {
        gate.release(permit);
    }
    assert_eq!(gate.queued(), 1);

    state.updates(10);
    for permit in state.fetcher.take_dropped_permits() {
        gate.release(permit);
    }
    assert_eq!(gate.queued(), 0);
    assert_eq!(state.target_dev.stripe(0), vec![2; STRIPE_BYTES]);
}

/// A fork keeps asking for a refused stripe while its push may be on the way.
#[test]
fn a_fork_waits_for_the_push() {
    let mut state = prep(false);
    state.fetcher.set_expects_pushes(true);
    for _ in 0..20 {
        state.fail(0);
        state.fetcher.fetch_queue.clear();
    }
    assert!(!state.shared.is_stripe_failed(0));
    state.now += PUSH_WAIT;
    for _ in 0..4 {
        state.fail(0);
        state.fetcher.fetch_queue.clear();
    }
    assert!(state.shared.is_stripe_failed(0));
}

/// An entry of a stripe that was here and has been evicted since does not keep
/// it from being pulled again.
#[test]
fn an_evicted_stripe_is_pulled_again() {
    let mut state = prep(false);
    state.request(0);
    state.updates(10);
    state.shared.mark_stripe_fetched(0);
    assert_eq!(state.shared.stripe_fetch_state(0), Fetched);
    let previous = state.shared.try_begin_evicting(0).unwrap();
    state.shared.finish_evicting(0, previous, false);
    assert_eq!(state.shared.stripe_fetch_state(0), Evicted);

    state.request(0);
    state.updates(10);
    assert_eq!(state.source_dev.counts().0, 2);
}

#[test]
fn a_target_smaller_than_the_source_is_refused() {
    assert!(StripeFetcher::new(9, 8, 8, false).is_err());
    assert!(StripeFetcher::new(8, 8, 8, false).is_ok());
}

#[test]
fn a_fetcher_says_why_it_cannot_be_built() {
    let small = StripeFetcher::new(9, 8, 8, false).map(|_| ()).unwrap_err();
    assert_eq!(
        small.describe(),
        "target device too small (8 sectors) for source device (9 sectors)"
    );
    let large = StripeFetcher::new(9, 8, 1 << 60, false)
        .map(|_| ())
        .unwrap_err();
    assert_eq!(large.describe(), "stripe size too large");
}

/// A source whose last stripe is cut short fills it up with zeros on the
/// target.
#[test]
fn a_short_stripe_is_filled_up() {
    let mut state = prep(false);
    state.source_dev.0.borrow_mut().mem[..STRIPE_BYTES].fill(0x5A);
    state.target_dev.0.borrow_mut().mem[..STRIPE_BYTES].fill(0xFF);
    state.source.most = 3 * SECTOR_SIZE;
    state.request(0);
    state.updates(4);
    assert_eq!(state.fetcher.take_finished_fetches(), vec![(0, true)]);
    let written = state.target_dev.stripe(0);
    assert!(written[..3 * SECTOR_SIZE].iter().all(|b| *b == 0x5A));
    assert!(written[3 * SECTOR_SIZE..].iter().all(|b| *b == 0));
}

/// One tick asks for every stripe that waits, as long as there are buffers, and
/// for none twice.
#[test]
fn a_tick_asks_for_every_waiting_stripe() {
    let mut state = prep(false);
    for stripe_id in [5, 2, 9] {
        state.request(stripe_id);
    }
    assert!(state.fetcher.fetch_queue.len() <= state.fetcher.free_buffers);
    state.update();
    assert!(state.fetcher.fetch_queue.is_empty());
    assert_eq!(state.source_dev.counts().0, 3);
    state.updates(4);
    assert_eq!(state.source_dev.counts().0, 3);
    assert_eq!(
        state.fetcher.take_finished_fetches(),
        vec![(5, true), (2, true), (9, true)]
    );
}

/// A worker disconnects from its source once every source stripe is fetched,
/// and from then on a re-fetch fails. With spill, an evicted stripe is
/// re-fetched from that source, so the pool's flag has to reach every worker's
/// fetcher.
#[test]
fn pool_workers_honour_never_disconnect() {
    const STRIPES: usize = 4;
    let image_byte = |stripe_id: usize| 0xA0 + stripe_id as u8;
    for never_disconnect in [false, true] {
        let image = TestDevice::new(STRIPES * STRIPE_BYTES);
        for stripe_id in 0..STRIPES {
            let start = stripe_id * STRIPE_BYTES;
            image.0.borrow_mut().mem[start..start + STRIPE_BYTES].fill(image_byte(stripe_id));
        }
        let target_dev = TestDevice::new(STRIPES * STRIPE_BYTES);
        let mut source = TestSource {
            device: image.clone(),
            most: STRIPE_BYTES,
            gone: false,
            arrived: Vec::new(),
            stripes: HashMap::new(),
        };
        let mut target = TestChannel {
            device: target_dev.clone(),
            finished: Vec::new(),
        };
        let mut shared = SharedMetadataState::new(&UbiMetadata::new(3, STRIPES, STRIPES));
        for stripe_id in 0..STRIPES {
            shared.set_stripe_header(
                stripe_id,
                metadata_flags::FETCHED | metadata_flags::HAS_SOURCE,
            );
        }
        let (mut pool, workers) = IngestPool::new(
            IngestPoolConfig {
                autofetch: true,
                expects_pushes: false,
                workers: 1,
                connections: 1,
                never_disconnect,
            },
            &shared,
        );
        let mut fetcher = workers[0]
            .build(
                source.sector_count(),
                target_dev.sector_count(),
                STRIPE_SECTORS,
            )
            .unwrap();
        assert_eq!(source.sector_count(), STRIPES as u64 * STRIPE_SECTORS);

        let mut next_completion = |pool: &mut IngestPool,
                                   shared: &mut SharedMetadataState,
                                   request: (usize, IngestRequest)| {
            pool.send(request.0, request.1);
            for (worker, request) in pool.take_outbox() {
                assert_eq!(worker, 0);
                if let Some(write) = IngestWorker::apply(&mut fetcher, shared, request) {
                    assert!(submit_write(&mut target, write).is_ok());
                }
            }
            // A worker goes on until it has nothing to do.
            let mut finished = Vec::new();
            for tick in 0..100 {
                if !fetcher.busy(source.busy(), target.busy()) {
                    break;
                }
                fetcher.update(shared, &mut source, &mut target, tick);
                finished.extend(fetcher.take_finished_fetches());
                if fetcher.disconnect_from_source_if_all_fetched(
                    shared,
                    source.busy(),
                    target.busy(),
                ) {
                    source.gone = true;
                }
            }
            assert_eq!(finished.len(), 1);
            finished[0]
        };

        // A push for an evicted stripe is written without the source.
        shared.set_stripe_fetch_state_for_test(0, Evicted);
        let pushed = IngestRequest::Pushed {
            stripe_id: 0,
            data: vec![0xEE; STRIPE_BYTES],
            permit: PushPermit::unbounded(),
        };
        assert_eq!(
            next_completion(&mut pool, &mut shared, (0, pushed)),
            (0, true)
        );

        // A re-fetch needs the source: gone unless the flag kept it.
        shared.set_stripe_fetch_state_for_test(1, Evicted);
        assert_eq!(
            next_completion(
                &mut pool,
                &mut shared,
                (1, IngestRequest::Fetch { stripe_id: 1 })
            ),
            (1, never_disconnect),
            "never_disconnect = {never_disconnect}"
        );
        if never_disconnect {
            let written = target_dev.stripe(1);
            assert!(written.iter().all(|byte| *byte == image_byte(1)));
        }
        pool.shutdown();
    }
}
