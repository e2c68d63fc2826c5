use ubiblk::ingest_pool::{
    worker_for, IngestPool, IngestPoolConfig, IngestRequest, IngestWorker,
};
use ubiblk::metadata::metadata_flags;
use ubiblk::metadata::shared_state::{Evicted, SharedMetadataState};
use ubiblk::metadata::types::UbiMetadata;
use ubiblk::push_gate::PushPermit;
use ubiblk::stripe_fetcher::FetchState;

/// Every stripe belongs to exactly one worker, and the ranges are contiguous:
/// two workers asking for the same stripe would each fetch it, and a stripe
/// owned by nobody would never be swept.
#[test]
fn every_stripe_belongs_to_exactly_one_worker() {
    let stripe_count = 1000;
    for workers in [1usize, 3, 4, 7, 16] {
        let starts: Vec<usize> = (0..workers)
            .map(|index| stripe_count * index / workers)
            .collect();
        let mut owner_counts = vec![0usize; workers];
        for stripe_id in 0..stripe_count {
            let owner = worker_for(&starts, stripe_id);
            assert!(owner < workers, "stripe {stripe_id} went to worker {owner}");
            let start = starts[owner];
            let end = starts.get(owner + 1).copied().unwrap_or(stripe_count);
            assert!(
                (start..end).contains(&stripe_id),
                "stripe {stripe_id} routed to worker {owner}, whose range is {start}..{end}"
            );
            owner_counts[owner] += 1;
        }
        assert_eq!(owner_counts.iter().sum::<usize>(), stripe_count);
        assert!(
            owner_counts.iter().all(|count| *count > 0),
            "with {workers} workers one of them was given nothing to do"
        );
    }
}

/// A stripe past the last range still goes somewhere rather than panicking.
#[test]
fn a_stripe_past_the_end_lands_on_the_last_worker() {
    let starts = vec![0, 50, 100];
    assert_eq!(worker_for(&starts, 10_000), 2);
}

fn config(workers: usize, connections: usize, never_disconnect: bool) -> IngestPoolConfig {
    IngestPoolConfig {
        autofetch: true,
        expects_pushes: true,
        workers,
        connections,
        never_disconnect,
    }
}

#[test]
fn the_pool_splits_stripes_and_connections() {
    let state = SharedMetadataState::new(&UbiMetadata::new(3, 10, 10));
    let (mut pool, workers) = IngestPool::new(config(3, 7, true), &state);
    assert_eq!(pool.range_starts, vec![0, 3, 6]);
    let ranges: Vec<(usize, usize)> = workers.iter().map(|w| (w.start, w.end)).collect();
    assert_eq!(ranges, vec![(0, 3), (3, 6), (6, 10)]);
    assert!(workers.iter().all(|w| w.connections == 2));
    assert!(workers.iter().all(|w| w.expects_pushes && w.never_disconnect));

    pool.send(6, IngestRequest::Fetch { stripe_id: 6 });
    pool.send(2, IngestRequest::Fetch { stripe_id: 2 });
    let owners: Vec<usize> = pool.take_outbox().iter().map(|(owner, _)| *owner).collect();
    assert_eq!(owners, vec![2, 0]);
    assert!(pool.take_outbox().is_empty());

    pool.shutdown();
    pool.send(1, IngestRequest::Fetch { stripe_id: 1 });
    assert!(pool.take_outbox().is_empty(), "nothing is sent any more");
}

#[test]
fn there_are_no_more_workers_than_stripes() {
    let state = SharedMetadataState::new(&UbiMetadata::new(3, 2, 2));
    let (_, workers) = IngestPool::new(config(16, 1, false), &state);
    assert_eq!(workers.len(), 2);
    assert!(workers.iter().all(|w| w.connections == 1), "at least one");
    let (_, workers) = IngestPool::new(config(0, 4, false), &state);
    assert_eq!(workers.len(), 1);
    assert_eq!(workers[0].connections, 4);
}

/// A worker lets go of its source once every source stripe is fetched. With
/// spill, an evicted stripe is fetched from that source again, so the pool's
/// flag has to reach every worker's fetcher.
#[test]
fn workers_keep_their_source_when_told_to() {
    for never_disconnect in [false, true] {
        let mut state = SharedMetadataState::new(&UbiMetadata::new(3, 4, 4));
        for stripe_id in 0..4 {
            state.set_stripe_header(
                stripe_id,
                metadata_flags::FETCHED | metadata_flags::HAS_SOURCE,
            );
        }
        let (_, workers) = IngestPool::new(config(1, 1, never_disconnect), &state);
        let mut fetcher = workers[0].build(32, 32, 8).unwrap();
        for _ in 0..4 {
            fetcher.update_autofetch(&state);
        }
        assert_eq!(
            fetcher.disconnect_from_source_if_all_fetched(&state, false, false),
            !never_disconnect
        );
        assert_eq!(fetcher.disconnected, !never_disconnect);
    }
}

#[test]
fn workers_sweep_their_own_range_and_take_pushes() {
    let mut state = SharedMetadataState::new(&UbiMetadata::new(3, 4, 4));
    let (_, workers) = IngestPool::new(config(2, 2, true), &state);
    let mut fetcher = workers[1].build(32, 32, 8).unwrap();
    let sweep: Vec<usize> = fetcher.autofetch_queue.iter().copied().collect();
    assert_eq!(sweep, vec![2, 3]);

    assert!(
        IngestWorker::apply(&mut fetcher, &state, IngestRequest::Fetch { stripe_id: 2 }).is_none()
    );
    assert_eq!(
        fetcher.stripe_states.get(&2),
        Some(&FetchState::Queued)
    );

    state.set_stripe_fetch_state_for_test(3, Evicted);
    let write = IngestWorker::apply(
        &mut fetcher,
        &state,
        IngestRequest::Pushed {
            stripe_id: 3,
            data: vec![7; 8 * 512],
            permit: PushPermit::unbounded(),
        },
    )
    .expect("written at once");
    assert_eq!(write.sector_offset, 24);
    assert_eq!(write.sector_count, 8);
    assert_eq!(write.data, vec![7; 8 * 512]);
    assert_eq!(fetcher.take_dropped_permits().len(), 1);
}
