use std::cell::RefCell;
use std::rc::Rc;

use ubiblk::io::{IoChannel, IoError};
use ubiblk::metadata::metadata_flags;
use ubiblk::metadata::shared_state::{Evicted, Failed, Fetched, SharedMetadataState};
use ubiblk::metadata::stripe_flags;
use ubiblk::metadata::types::UbiMetadata;
use ubiblk::metadata_flusher::{MetadataFlusher, PersistOutcome, PersistResult};
use ubiblk::SECTOR_SIZE;

#[derive(Default)]
struct DeviceState {
    mem: Vec<u8>,
    writes: usize,
    flushes: usize,
    fail_next: bool,
    fail_submit: bool,
}

/// A metadata device in memory, which applies writes when they are added.
#[derive(Clone)]
struct TestDevice(Rc<RefCell<DeviceState>>);

impl TestDevice {
    fn new() -> Self {
        let sectors = 8 * 1024 / SECTOR_SIZE as u64;
        let metadata = UbiMetadata::new(11, 16, 16);
        TestDevice(Rc::new(RefCell::new(DeviceState {
            mem: metadata.save_to_bdev(sectors).unwrap(),
            ..DeviceState::default()
        })))
    }

    fn load(&self) -> UbiMetadata {
        let mem = &self.0.borrow().mem;
        UbiMetadata::load_from_bdev((mem.len() / SECTOR_SIZE) as u64, mem).expect("load metadata")
    }

    fn fail_next(&self) {
        self.0.borrow_mut().fail_next = true;
    }

    fn fail_submit(&self) {
        self.0.borrow_mut().fail_submit = true;
    }
}

struct TestChannel {
    device: TestDevice,
    collected: Vec<(usize, bool)>,
    finished: Vec<(usize, bool)>,
}

impl IoChannel<Vec<u8>> for TestChannel {
    fn add_read(&mut self, _sector_offset: u64, _sector_count: u32, _buf: Vec<u8>, _id: usize) {}

    fn add_write(&mut self, sector_offset: u64, sector_count: u32, buf: Vec<u8>, id: usize) {
        let mut state = self.device.0.borrow_mut();
        state.writes += 1;
        let ok = !std::mem::take(&mut state.fail_next);
        if ok {
            let start = sector_offset as usize * SECTOR_SIZE;
            let end = start + sector_count as usize * SECTOR_SIZE;
            state.mem[start..end].copy_from_slice(&buf);
        }
        self.collected.push((id, ok));
    }

    fn add_flush(&mut self, id: usize) {
        let mut state = self.device.0.borrow_mut();
        state.flushes += 1;
        let ok = !std::mem::take(&mut state.fail_next);
        self.collected.push((id, ok));
    }

    fn submit(&mut self) -> Result<(), IoError> {
        if std::mem::take(&mut self.device.0.borrow_mut().fail_submit) {
            self.collected.clear();
            return Err(IoError { errno: 5 });
        }
        self.finished.append(&mut self.collected);
        Ok(())
    }

    fn poll(&mut self) -> Vec<(usize, bool)> {
        std::mem::take(&mut self.finished)
    }

    fn take_read(&mut self, _id: usize) -> Option<Vec<u8>> {
        None
    }

    fn busy(&self) -> bool {
        !self.collected.is_empty() || !self.finished.is_empty()
    }
}

/// A flusher with the device it writes to and the state it keeps up to date.
struct Rig {
    inner: MetadataFlusher,
    channel: TestChannel,
    state: SharedMetadataState,
}

impl Rig {
    fn update(&mut self) {
        self.inner.update(&mut self.channel, &mut self.state);
    }

    fn start_writes(&mut self) {
        self.inner.start_writes(&mut self.channel);
    }

    fn poll_channel(&mut self) {
        self.inner.poll_channel(&mut self.channel, &mut self.state);
    }

    fn busy(&self) -> bool {
        self.inner.busy()
    }

    fn set_stripe_fetched(&mut self, stripe_id: usize) {
        self.inner.set_stripe_fetched(stripe_id);
    }

    fn set_stripe_written(&mut self, stripe_id: usize) {
        self.inner.set_stripe_written(stripe_id);
    }

    fn update_stripe_header(&mut self, stripe_id: usize, set: u8, clear: u8, token: u64) {
        self.inner
            .update_stripe_header(stripe_id, set, clear, token);
    }

    fn take_persist_outcomes(&mut self) -> Vec<PersistOutcome> {
        self.inner.take_persist_outcomes()
    }

    fn header(&self, stripe_id: usize) -> u8 {
        self.inner.header(stripe_id)
    }

    fn metadata(&self) -> &UbiMetadata {
        self.inner.metadata()
    }
}

fn init_flusher() -> (TestDevice, Rig) {
    let device = TestDevice::new();
    let metadata = device.load();
    let state = SharedMetadataState::new(&metadata);
    let inner = MetadataFlusher::new(metadata, 8 * 1024).unwrap();
    let channel = TestChannel {
        device: device.clone(),
        collected: Vec::new(),
        finished: Vec::new(),
    };
    (
        device,
        Rig {
            inner,
            channel,
            state,
        },
    )
}

fn wait_for_completion(flusher: &mut Rig) {
    for _ in 0..1000 {
        if !flusher.busy() {
            break;
        }
        flusher.update();
    }
}

fn on_disk_header(metadata_dev: &TestDevice, stripe_id: usize) -> u8 {
    metadata_dev.load().stripe_header(stripe_id)
}

fn io_counts(metadata_dev: &TestDevice) -> (usize, usize) {
    let state = metadata_dev.0.borrow();
    (state.writes, state.flushes)
}

#[test]
fn test_metadata_flusher() {
    let (_metadata_dev, mut flusher) = init_flusher();

    flusher.set_stripe_fetched(5);
    flusher.set_stripe_fetched(6);

    for stripe_id in 5..=6 {
        assert!(!flusher.state.stripe_fetched(stripe_id));
        assert!(!flusher.state.stripe_written(stripe_id));
    }

    wait_for_completion(&mut flusher);

    for stripe_id in 5..=6 {
        assert!(flusher.state.stripe_fetched(stripe_id));
        assert!(!flusher.state.stripe_written(stripe_id));
    }

    flusher.set_stripe_written(7);
    assert!(!flusher.state.stripe_written(7));
    assert!(!flusher.state.stripe_fetched(7));

    wait_for_completion(&mut flusher);

    assert!(!flusher.state.stripe_fetched(7));
    assert!(flusher.state.stripe_written(7));
}

#[test]
fn test_source_stripe_count_too_large() {
    let metadata_dev = TestDevice::new();
    let flusher = MetadataFlusher::new(metadata_dev.load(), 1024 * 1024 * 1024);
    assert!(flusher.is_err());
}

#[test]
fn test_request_serialization() {
    let (_metadata_dev, mut flusher) = init_flusher();

    // Stripes 0-7 are in sector 1
    for stripe_id in 0..8 {
        flusher.set_stripe_fetched(stripe_id);
        if stripe_id % 3 == 0 {
            // Interleave some writes
            flusher.set_stripe_written(stripe_id);
        }
    }

    // add some duplicate requests
    flusher.set_stripe_fetched(2);
    flusher.set_stripe_written(3);

    wait_for_completion(&mut flusher);

    for stripe_id in 0..8 {
        assert!(flusher.state.stripe_fetched(stripe_id));
        if stripe_id % 3 == 0 {
            assert!(flusher.state.stripe_written(stripe_id));
        } else {
            assert!(!flusher.state.stripe_written(stripe_id));
        }
    }
}

#[test]
fn test_write_failure_allows_retry() {
    let (metadata_dev, mut flusher) = init_flusher();

    // Queue a fetched request and inject a write failure
    flusher.set_stripe_fetched(5);
    metadata_dev.fail_next();

    // First update: start_writes issues add_write (which fails), poll_channel sees failure
    flusher.update();

    // Stripe 5 should NOT be marked fetched in shared state
    assert!(!flusher.state.stripe_fetched(5));
    // Flusher should not be busy (failure was handled, no pending requests)
    assert!(!flusher.busy());

    // Retry: queue the same request again - should NOT be skipped by dedup
    flusher.set_stripe_fetched(5);
    wait_for_completion(&mut flusher);

    // Now it should succeed
    assert!(flusher.state.stripe_fetched(5));
}

#[test]
fn test_write_failure_does_not_affect_other_stripes() {
    let (metadata_dev, mut flusher) = init_flusher();

    // First, successfully set stripe 5 as fetched
    flusher.set_stripe_fetched(5);
    wait_for_completion(&mut flusher);
    assert!(flusher.state.stripe_fetched(5));

    // Now try to set stripe 5 as written, but inject a failure.
    // Stripe 5 is in sector group 0 (stripe 5 / 508 = 0), sector 1.
    flusher.set_stripe_written(5);
    metadata_dev.fail_next();
    flusher.update();

    // The written flag should NOT be set, but fetched should still be set
    assert!(flusher.state.stripe_fetched(5));
    assert!(!flusher.state.stripe_written(5));

    // Retry written - should succeed
    flusher.set_stripe_written(5);
    wait_for_completion(&mut flusher);
    assert!(flusher.state.stripe_written(5));
    assert!(flusher.state.stripe_fetched(5));
}

#[test]
fn test_metadata_flusher_coalesces_duplicate_requests() {
    let (metadata_dev, mut flusher) = init_flusher();
    let (start_writes, start_flushes) = io_counts(&metadata_dev);

    flusher.set_stripe_written(3);
    flusher.set_stripe_written(3);
    flusher.set_stripe_written(3);
    flusher.set_stripe_fetched(3);
    flusher.set_stripe_fetched(3);

    assert!(!flusher.state.stripe_written(3));
    assert!(!flusher.state.stripe_fetched(3));

    wait_for_completion(&mut flusher);

    assert!(flusher.state.stripe_written(3));
    assert!(flusher.state.stripe_fetched(3));

    let (writes, flushes) = io_counts(&metadata_dev);
    assert_eq!(writes - start_writes, 2);
    assert_eq!(flushes - start_flushes, 2);
}

#[test]
fn test_submit_failure_in_start_writes_allows_retry() {
    let (metadata_dev, mut flusher) = init_flusher();

    // Queue a request and make submit() fail
    flusher.set_stripe_fetched(5);
    metadata_dev.fail_submit();

    // start_writes will add_write then fail on submit
    flusher.update();

    // Stripe 5 should NOT be marked fetched in shared state
    assert!(!flusher.state.stripe_fetched(5));
    // Flusher should not be busy (submit failure was cleaned up)
    assert!(!flusher.busy());

    // Retry: queue the same request again - should NOT be blocked
    flusher.set_stripe_fetched(5);
    wait_for_completion(&mut flusher);

    // Now it should succeed
    assert!(flusher.state.stripe_fetched(5));
}

#[test]
fn test_flush_failure_no_double_buffer_return() {
    // Regression: when a write succeeds and the subsequent flush fails,
    // the error handler must NOT return the buffer a second time (it was
    // already returned when transitioning to Flushing).
    let (metadata_dev, mut flusher) = init_flusher();

    // Queue a request and let the write complete normally
    flusher.set_stripe_fetched(5);
    flusher.start_writes();

    // Set fail_next so that add_flush() (called when poll_channel
    // processes the write completion) will enqueue a flush failure.
    metadata_dev.fail_next();
    flusher.poll_channel();

    // Now poll_channel again to process the flush failure.
    // Without the fix this panics due to double buffer return.
    flusher.poll_channel();

    // Stripe 5 should NOT be marked fetched (flush failed)
    assert!(!flusher.state.stripe_fetched(5));
    // Flusher should not be busy (failure was cleaned up)
    assert!(!flusher.busy());
}

#[test]
fn test_flush_failure_allows_retry() {
    // After a flush failure, the same stripe operation can be retried
    // and should succeed.
    let (metadata_dev, mut flusher) = init_flusher();

    // Queue a request and let the write complete normally
    flusher.set_stripe_fetched(5);
    flusher.start_writes();

    // Inject flush failure
    metadata_dev.fail_next();
    flusher.poll_channel();
    flusher.poll_channel();

    // Verify the failure state
    assert!(!flusher.state.stripe_fetched(5));
    assert!(!flusher.busy());

    // Retry: queue the same request again - should NOT be skipped by dedup
    flusher.set_stripe_fetched(5);
    wait_for_completion(&mut flusher);

    // Now it should succeed
    assert!(flusher.state.stripe_fetched(5));
}

#[test]
fn test_submit_failure_in_poll_channel_allows_retry() {
    let (metadata_dev, mut flusher) = init_flusher();

    // Queue a request and let the write succeed
    flusher.set_stripe_fetched(5);
    flusher.start_writes();

    // Poll should see the write completion and enqueue a flush.
    // Make submit fail so the flush SQE is never submitted.
    metadata_dev.fail_submit();
    flusher.poll_channel();

    // Stripe 5 should NOT be marked fetched (flush never reached kernel)
    assert!(!flusher.state.stripe_fetched(5));
    // Flusher should not be busy (submit failure was cleaned up)
    assert!(!flusher.busy());

    // Retry: queue the same request again - should NOT be blocked
    flusher.set_stripe_fetched(5);
    wait_for_completion(&mut flusher);

    // Now it should succeed
    assert!(flusher.state.stripe_fetched(5));
}

#[test]
fn masked_update_clears_fetched_and_sets_evicted_in_one_write() {
    let (metadata_dev, mut flusher) = init_flusher();
    flusher.set_stripe_fetched(5);
    wait_for_completion(&mut flusher);
    let old = flusher.header(5);
    assert_eq!(old, metadata_flags::FETCHED | metadata_flags::HAS_SOURCE);
    let (writes, flushes) = io_counts(&metadata_dev);

    flusher.update_stripe_header(
        5,
        metadata_flags::EVICTED | metadata_flags::IN_S3,
        metadata_flags::FETCHED,
        7,
    );
    wait_for_completion(&mut flusher);

    let expected =
        (old | metadata_flags::EVICTED | metadata_flags::IN_S3) & !metadata_flags::FETCHED;
    assert_eq!(io_counts(&metadata_dev), (writes + 1, flushes + 1));
    assert_eq!(on_disk_header(&metadata_dev, 5), expected);
    assert_eq!(flusher.header(5), expected);
    assert_eq!(
        flusher.take_persist_outcomes(),
        vec![PersistOutcome {
            stripe_id: 5,
            token: 7,
            result: PersistResult::Durable,
        }]
    );
    assert!(flusher.take_persist_outcomes().is_empty());
    // The in-memory state is the evictor's to move; the completion only
    // carries the side bit.
    assert!(flusher.state.stripe_fetched(5));
    assert!(flusher.state.stripe_in_s3(5));
}

#[test]
fn masked_update_outcome_is_durable_only_after_flush() {
    let (_metadata_dev, mut flusher) = init_flusher();

    flusher.update_stripe_header(5, metadata_flags::EVICTED, metadata_flags::FETCHED, 1);
    flusher.start_writes();
    assert!(flusher.take_persist_outcomes().is_empty());

    // Write completion: the flush is issued, nothing is durable yet.
    flusher.poll_channel();
    assert!(flusher.take_persist_outcomes().is_empty());
    assert!(flusher.busy());

    // Flush completion.
    flusher.poll_channel();
    let outcomes = flusher.take_persist_outcomes();
    assert_eq!(outcomes.len(), 1);
    assert_eq!(outcomes[0].result, PersistResult::Durable);
    assert!(!flusher.busy());
}

#[test]
fn masked_update_write_failure_reports_not_written_and_restores_previous_byte() {
    let (metadata_dev, mut flusher) = init_flusher();
    flusher.set_stripe_fetched(5);
    flusher.set_stripe_written(5);
    wait_for_completion(&mut flusher);
    let original =
        metadata_flags::FETCHED | metadata_flags::WRITTEN | metadata_flags::HAS_SOURCE;
    assert_eq!(flusher.header(5), original);

    metadata_dev.fail_next();
    flusher.update_stripe_header(5, metadata_flags::EVICTED, metadata_flags::FETCHED, 3);
    flusher.update();

    assert_eq!(
        flusher.take_persist_outcomes(),
        vec![PersistOutcome {
            stripe_id: 5,
            token: 3,
            result: PersistResult::NotWritten,
        }]
    );
    // The whole byte comes back, FETCHED included; `& !mask` could not
    // have restored a cleared bit.
    assert_eq!(flusher.header(5), original);
    assert_eq!(on_disk_header(&metadata_dev, 5), original);
    assert!(!flusher.busy());
}

#[test]
fn masked_update_flush_failure_reports_uncertain_and_keeps_new_byte() {
    let (metadata_dev, mut flusher) = init_flusher();
    flusher.set_stripe_fetched(5);
    wait_for_completion(&mut flusher);
    let old = flusher.header(5);

    flusher.update_stripe_header(5, metadata_flags::EVICTED, metadata_flags::FETCHED, 3);
    flusher.start_writes();
    // The write has completed; arm the failure for the flush it triggers.
    metadata_dev.fail_next();
    flusher.poll_channel();
    flusher.poll_channel();

    assert_eq!(
        flusher.take_persist_outcomes(),
        vec![PersistOutcome {
            stripe_id: 5,
            token: 3,
            result: PersistResult::Uncertain,
        }]
    );
    let new = (old | metadata_flags::EVICTED) & !metadata_flags::FETCHED;
    assert_eq!(
        flusher.header(5),
        new,
        "memory keeps the new byte for the retry"
    );
    assert_eq!(
        on_disk_header(&metadata_dev, 5),
        new,
        "the sector write did land"
    );
    assert!(!flusher.busy());

    // The retry rewrites the same byte and is durable.
    flusher.update_stripe_header(5, metadata_flags::EVICTED, metadata_flags::FETCHED, 5);
    wait_for_completion(&mut flusher);
    assert_eq!(
        flusher.take_persist_outcomes()[0].result,
        PersistResult::Durable
    );
}

#[test]
fn masked_update_write_submit_failure_reports_not_written_and_restores_previous_byte() {
    let (metadata_dev, mut flusher) = init_flusher();
    flusher.set_stripe_fetched(5);
    wait_for_completion(&mut flusher);
    let original = flusher.header(5);

    // The write SQE never reaches the kernel: the disk provably still
    // holds the old byte, so the caller must hear NotWritten rather than
    // wait forever for an outcome that would otherwise be dropped.
    metadata_dev.fail_submit();
    flusher.update_stripe_header(5, metadata_flags::EVICTED, metadata_flags::FETCHED, 3);
    flusher.update();

    assert_eq!(
        flusher.take_persist_outcomes(),
        vec![PersistOutcome {
            stripe_id: 5,
            token: 3,
            result: PersistResult::NotWritten,
        }]
    );
    // The test device applies a write at add time, so its memory is not
    // consulted here: what a failed submit guarantees is the flusher's
    // own byte, which the next write starts from.
    assert_eq!(flusher.header(5), original);
    assert!(!flusher.busy());
}

#[test]
fn masked_update_flush_submit_failure_reports_uncertain_and_keeps_new_byte() {
    let (metadata_dev, mut flusher) = init_flusher();
    flusher.set_stripe_fetched(5);
    wait_for_completion(&mut flusher);
    let old = flusher.header(5);

    flusher.update_stripe_header(5, metadata_flags::EVICTED, metadata_flags::FETCHED, 3);
    flusher.start_writes();
    // The sector write has completed; the flush SQE it triggers is never
    // submitted, so the disk may hold either byte.
    metadata_dev.fail_submit();
    flusher.poll_channel();

    assert_eq!(
        flusher.take_persist_outcomes(),
        vec![PersistOutcome {
            stripe_id: 5,
            token: 3,
            result: PersistResult::Uncertain,
        }]
    );
    let new = (old | metadata_flags::EVICTED) & !metadata_flags::FETCHED;
    assert_eq!(
        flusher.header(5),
        new,
        "memory keeps the new byte for the retry"
    );
    assert_eq!(on_disk_header(&metadata_dev, 5), new);
    assert!(!flusher.busy());
}

#[test]
fn masked_update_is_never_deduplicated() {
    let (metadata_dev, mut flusher) = init_flusher();
    flusher.set_stripe_fetched(5);
    wait_for_completion(&mut flusher);
    let (writes, flushes) = io_counts(&metadata_dev);

    // Fire-and-forget: already set, nothing written.
    flusher.set_stripe_fetched(5);
    wait_for_completion(&mut flusher);
    assert_eq!(io_counts(&metadata_dev), (writes, flushes));

    // Tokened: the same no-op change is written and flushed anyway.
    flusher.update_stripe_header(5, metadata_flags::FETCHED, 0, 9);
    wait_for_completion(&mut flusher);
    assert_eq!(io_counts(&metadata_dev), (writes + 1, flushes + 1));
    assert_eq!(
        flusher.take_persist_outcomes()[0].result,
        PersistResult::Durable
    );
}

#[test]
fn set_fetched_clears_evicted() {
    let (metadata_dev, mut flusher) = init_flusher();
    flusher.update_stripe_header(5, metadata_flags::EVICTED, metadata_flags::FETCHED, 1);
    wait_for_completion(&mut flusher);
    assert_ne!(flusher.header(5) & metadata_flags::EVICTED, 0);

    flusher.set_stripe_fetched(5);
    wait_for_completion(&mut flusher);

    let header = flusher.header(5);
    assert_eq!(header & metadata_flags::EVICTED, 0);
    assert_ne!(header & metadata_flags::FETCHED, 0);
    assert_eq!(on_disk_header(&metadata_dev, 5), header);
    assert!(flusher.state.stripe_fetched(5));
}

#[test]
fn release_op_for_failed_was_evicted_stripe_lands_only_through_mark_stripe_resident() {
    let (metadata_dev, mut flusher) = init_flusher();

    // Stripe 5 goes resident, gets evicted (header and state), and its
    // re-fetch then fails for good: Failed with WAS_EVICTED, header still
    // EVICTED.
    flusher.set_stripe_fetched(5);
    wait_for_completion(&mut flusher);
    let previous = flusher.state.try_begin_evicting(5).expect("claim stripe 5");
    flusher.update_stripe_header(5, metadata_flags::EVICTED, metadata_flags::FETCHED, 1);
    wait_for_completion(&mut flusher);
    assert_eq!(
        flusher.take_persist_outcomes()[0].result,
        PersistResult::Durable
    );
    flusher.state.finish_evicting(5, previous, false);
    flusher.state.set_stripe_failed(5);
    assert_eq!(flusher.state.stripe_fetch_state(5), Failed);
    assert!(flusher.state.stripe_flags(5) & stripe_flags::WAS_EVICTED != 0);
    let degraded = flusher.state.spill().degraded_reasons;
    let (fetched, resident) = (
        flusher.state.fetched_stripes(),
        flusher.state.resident_stripes(),
    );

    // The coordinator's even-token release op. Its completion runs
    // set_stripe_header, which must leave the landing to the coordinator
    // without recording an anomaly.
    flusher.update_stripe_header(5, metadata_flags::FETCHED, metadata_flags::EVICTED, 2);
    wait_for_completion(&mut flusher);
    assert_eq!(
        flusher.take_persist_outcomes(),
        vec![PersistOutcome {
            stripe_id: 5,
            token: 2,
            result: PersistResult::Durable,
        }]
    );
    let header = on_disk_header(&metadata_dev, 5);
    assert_ne!(header & metadata_flags::FETCHED, 0);
    assert_eq!(header & metadata_flags::EVICTED, 0);
    assert_eq!(flusher.state.stripe_fetch_state(5), Failed);
    assert!(flusher.state.stripe_flags(5) & stripe_flags::WAS_EVICTED != 0);
    assert_eq!(
        flusher.state.spill().degraded_reasons,
        degraded
    );
    assert_eq!(flusher.state.fetched_stripes(), fetched);
    assert_eq!(flusher.state.resident_stripes(), resident);

    // The coordinator sees Durable and lands the stripe.
    flusher.state.mark_stripe_resident(5);
    assert_eq!(flusher.state.stripe_fetch_state(5), Fetched);
    assert_eq!(flusher.state.stripe_flags(5) & stripe_flags::WAS_EVICTED, 0);
    assert_eq!(flusher.state.fetched_stripes(), fetched + 1);
    assert_eq!(flusher.state.resident_stripes(), resident + 1);
    assert_eq!(
        flusher.state.spill().degraded_reasons,
        degraded
    );
}

#[test]
fn masked_update_serialises_behind_set_written_in_same_sector() {
    let (metadata_dev, mut flusher) = init_flusher();
    let (writes, flushes) = io_counts(&metadata_dev);

    // Stripes 5 and 6 share sector 1.
    flusher.set_stripe_written(5);
    flusher.update_stripe_header(6, metadata_flags::EVICTED, metadata_flags::FETCHED, 1);
    flusher.start_writes();
    assert_eq!(
        io_counts(&metadata_dev),
        (writes + 1, flushes),
        "one write at a time per sector"
    );
    assert!(flusher.take_persist_outcomes().is_empty());

    wait_for_completion(&mut flusher);
    assert_eq!(io_counts(&metadata_dev), (writes + 2, flushes + 2));
    assert_eq!(
        flusher.take_persist_outcomes()[0].result,
        PersistResult::Durable
    );
    // The second write started from the sector image the first produced,
    // so neither update lost the other.
    assert_ne!(
        on_disk_header(&metadata_dev, 5) & metadata_flags::WRITTEN,
        0
    );
    assert_ne!(
        on_disk_header(&metadata_dev, 6) & metadata_flags::EVICTED,
        0
    );
}

#[test]
fn metadata_accessor_reflects_applied_updates() {
    let (_metadata_dev, mut flusher) = init_flusher();
    assert_eq!(
        flusher.metadata().stripe_header(5) & metadata_flags::FETCHED,
        0
    );

    flusher.set_stripe_fetched(5);
    assert_eq!(
        flusher.metadata().stripe_header(5) & metadata_flags::FETCHED,
        0,
        "queued is not applied"
    );

    flusher.start_writes();
    assert_ne!(
        flusher.metadata().stripe_header(5) & metadata_flags::FETCHED,
        0
    );
    assert_eq!(flusher.metadata().stripe_header(5), flusher.header(5));
    assert_eq!(flusher.metadata().evicted_stripe_ids(), Vec::<usize>::new());
    wait_for_completion(&mut flusher);

    flusher.update_stripe_header(6, metadata_flags::EVICTED, metadata_flags::FETCHED, 1);
    wait_for_completion(&mut flusher);
    assert_eq!(flusher.metadata().evicted_stripe_ids(), vec![6]);
}

#[test]
fn evictions_and_landings_survive_a_restart() {
    let (metadata_dev, mut flusher) = init_flusher();
    flusher.set_stripe_fetched(5);
    flusher.set_stripe_written(5);
    flusher.set_stripe_fetched(6);
    wait_for_completion(&mut flusher);

    let in_store = metadata_flags::EVICTED | metadata_flags::IN_S3;
    flusher.update_stripe_header(5, in_store, metadata_flags::FETCHED, 1);
    wait_for_completion(&mut flusher);
    let opened = SharedMetadataState::new(&metadata_dev.load());
    assert_eq!(opened.stripe_fetch_state(5), Evicted);
    assert!(opened.stripe_in_s3(5));
    assert!(opened.stripe_written(5));
    assert!(opened.stripe_has_source(5));
    assert_eq!(opened.stripe_fetch_state(6), Fetched);

    flusher.update_stripe_header(5, metadata_flags::FETCHED, metadata_flags::EVICTED, 2);
    wait_for_completion(&mut flusher);
    let opened = SharedMetadataState::new(&metadata_dev.load());
    assert_eq!(opened.stripe_fetch_state(5), Fetched);
    assert_eq!(opened.stripe_fetch_state(6), Fetched);
}

/// Every tokened update is answered once, whether its write, its flush or
/// nothing failed, and answers wait until they are taken.
#[test]
fn every_tokened_update_is_answered_once() {
    let (device, mut rig) = init_flusher();
    let mut asked = Vec::new();
    let mut answered = Vec::new();
    for round in 0..12u64 {
        let stripe_id = (round % 5) as usize;
        let token = 100 + round;
        rig.update_stripe_header(stripe_id, metadata_flags::EVICTED, 0, token);
        asked.push(token);
        if round % 4 == 1 {
            device.fail_next();
        }
        if round % 4 == 3 {
            device.fail_submit();
        }
        rig.update();
        if round % 3 == 0 {
            answered.extend(rig.take_persist_outcomes().iter().map(|o| o.token));
        }
    }
    for _ in 0..60 {
        rig.update();
    }
    assert!(!rig.busy());
    answered.extend(rig.take_persist_outcomes().iter().map(|o| o.token));
    answered.sort_unstable();
    assert_eq!(answered, asked);
    assert!(rig.take_persist_outcomes().is_empty());
}

/// Header writes change headers and nothing else of the file.
#[test]
fn header_writes_leave_the_format_alone() {
    let (device, mut rig) = init_flusher();
    let before = device.load();
    rig.set_stripe_fetched(3);
    rig.update_stripe_header(4, metadata_flags::WRITTEN, 0, 9);
    for _ in 0..6 {
        rig.update();
    }
    for now in [rig.metadata().clone(), device.load()] {
        assert_eq!(now.magic, before.magic);
        assert_eq!(now.version_major, before.version_major);
        assert_eq!(now.version_minor, before.version_minor);
        assert_eq!(
            now.stripe_sector_count_shift,
            before.stripe_sector_count_shift
        );
        assert_ne!(now.stripe_headers, before.stripe_headers);
    }
}

/// Updates whose callers wait share one write and one flush per sector; an
/// update nobody waits for, and a second one of a stripe, go on their own.
#[test]
fn waiting_updates_of_a_sector_share_a_write() {
    let (device, mut rig) = init_flusher();
    let counts = |device: &TestDevice| {
        let state = device.0.borrow();
        (state.writes, state.flushes)
    };
    let (writes, flushes) = counts(&device);
    rig.update_stripe_header(4, metadata_flags::EVICTED, metadata_flags::FETCHED, 1);
    rig.set_stripe_written(6);
    rig.update_stripe_header(5, metadata_flags::WRITTEN, 0, 3);
    rig.update_stripe_header(4, metadata_flags::WRITTEN, 0, 5);
    rig.update_stripe_header(6, metadata_flags::EVICTED, metadata_flags::FETCHED, 7);
    rig.start_writes();
    assert_eq!(counts(&device), (writes + 1, flushes));
    assert_ne!(device.load().stripe_headers[4] & metadata_flags::EVICTED, 0);
    assert_ne!(device.load().stripe_headers[5] & metadata_flags::WRITTEN, 0);
    assert_eq!(device.load().stripe_headers[6] & metadata_flags::EVICTED, 0);
    rig.poll_channel();
    assert!(rig.take_persist_outcomes().is_empty());
    rig.poll_channel();
    let first: Vec<(usize, u64)> = rig
        .take_persist_outcomes()
        .iter()
        .map(|o| (o.stripe_id, o.token))
        .collect();
    assert_eq!(first, vec![(4, 1), (5, 3)]);
    for _ in 0..12 {
        rig.update();
    }
    assert_eq!(counts(&device), (writes + 3, flushes + 3));
    let rest: Vec<(usize, u64)> = rig
        .take_persist_outcomes()
        .iter()
        .map(|o| (o.stripe_id, o.token))
        .collect();
    assert_eq!(rest, vec![(4, 5), (6, 7)]);
    let header = device.load().stripe_headers[6];
    assert_ne!(header & metadata_flags::WRITTEN, 0);
    assert_ne!(header & metadata_flags::EVICTED, 0);
}

/// A failed write puts back every byte that went along, and every caller hears
/// of it; a failed flush leaves them all open.
#[test]
fn updates_that_go_together_fail_together() {
    let (device, mut rig) = init_flusher();
    let before: Vec<u8> = (4..7).map(|id| rig.header(id)).collect();
    for id in 4..7 {
        rig.update_stripe_header(id, metadata_flags::EVICTED, metadata_flags::FETCHED, id as u64);
    }
    device.fail_next();
    rig.start_writes();
    assert_ne!(rig.header(6) & metadata_flags::EVICTED, 0);
    rig.poll_channel();
    let outcomes = rig.take_persist_outcomes();
    assert_eq!(outcomes.len(), 3);
    for (outcome, id) in outcomes.iter().zip(4usize..) {
        assert_eq!(outcome.stripe_id, id);
        assert_eq!(outcome.token, id as u64);
        assert_eq!(outcome.result, PersistResult::NotWritten);
    }
    let after: Vec<u8> = (4..7).map(|id| rig.header(id)).collect();
    assert_eq!(after, before);

    for id in 4..7 {
        rig.update_stripe_header(id, metadata_flags::EVICTED, metadata_flags::FETCHED, id as u64);
    }
    rig.start_writes();
    device.fail_next();
    rig.poll_channel();
    rig.poll_channel();
    let outcomes = rig.take_persist_outcomes();
    assert_eq!(outcomes.len(), 3);
    assert!(outcomes
        .iter()
        .all(|o| o.result == PersistResult::Uncertain));
    assert_ne!(rig.header(6) & metadata_flags::EVICTED, 0);
    assert!(!rig.busy());
}
