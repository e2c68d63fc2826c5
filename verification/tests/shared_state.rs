use ubiblk::metadata::metadata_flags;
use ubiblk::metadata::shared_state::{
    Evicted, Evicting, Failed, Fetched, NoSource, NotFetched, SharedMetadataState, GATE_FAIL,
    GATE_HOLD, GATE_OPEN,
};
use ubiblk::metadata::stripe_flags;
use ubiblk::metadata::types::UbiMetadata;

#[test]
fn test_shared_metadata_state_initialization() {
    let stripe_sector_count_shift = 0;
    let base_stripe_count = 11;
    let image_stripe_count = 5;

    let mut metadata = UbiMetadata::new(
        stripe_sector_count_shift,
        base_stripe_count,
        image_stripe_count,
    );

    metadata.set_stripe_header(0, metadata_flags::FETCHED | metadata_flags::HAS_SOURCE);
    metadata.set_stripe_header(1, metadata_flags::WRITTEN | metadata_flags::HAS_SOURCE);
    metadata.set_stripe_header(
        2,
        metadata_flags::FETCHED | metadata_flags::WRITTEN | metadata_flags::HAS_SOURCE,
    );
    let mut state = SharedMetadataState::new(&metadata);

    assert_eq!(state.stripe_fetch_state(0), Fetched);
    assert!(!state.stripe_written(0));

    assert_eq!(state.stripe_fetch_state(1), NotFetched);
    assert!(state.stripe_written(1));

    assert_eq!(state.stripe_fetch_state(2), Fetched);
    assert!(state.stripe_written(2));

    assert_eq!(state.stripe_fetch_state(4), NotFetched);
    assert!(!state.stripe_written(4));

    assert_eq!(state.stripe_fetch_state(6), NoSource);

    assert_eq!(state.fetched_stripes(), 2);

    assert_eq!(state.source_stripes(), 5);
}

#[test]
fn test_state_transitions() {
    let metadata = UbiMetadata::new(0, 5, 5); // All 0 intially
    let mut state = SharedMetadataState::new(&metadata);

    let stripe_id = 0;

    assert_eq!(state.stripe_fetch_state(stripe_id), NotFetched);
    assert!(!state.stripe_written(stripe_id));
    assert_eq!(state.fetched_stripes(), 0);

    state.set_stripe_header(stripe_id, metadata_flags::FETCHED);
    assert_eq!(state.stripe_fetch_state(stripe_id), Fetched);
    assert_eq!(state.fetched_stripes(), 1);

    state.set_stripe_header(stripe_id, metadata_flags::WRITTEN);
    assert!(state.stripe_written(stripe_id));

    state.set_stripe_header(stripe_id, metadata_flags::FETCHED);
    assert_eq!(state.fetched_stripes(), 1);
}

#[test]
fn test_stripe_fetched_if_needed() {
    let mut metadata = UbiMetadata::new(0, 10, 5);
    metadata.set_stripe_header(0, metadata_flags::FETCHED | metadata_flags::HAS_SOURCE);
    let mut state = SharedMetadataState::new(&metadata);
    assert!(state.stripe_fetched_if_needed(0));
    assert!(!state.stripe_fetched_if_needed(1));
    assert!(state.stripe_fetched_if_needed(5));
}

#[test]
fn test_failure_state() {
    let metadata = UbiMetadata::new(0, 1, 1);
    let mut state = SharedMetadataState::new(&metadata);
    let stripe_id = 0;

    state.set_stripe_failed(stripe_id);
    assert_eq!(state.stripe_fetch_state(stripe_id), Failed);
    assert!(state.is_stripe_failed(stripe_id));
    assert!(!state.stripe_fetched(stripe_id));
}

/// Headers: 0 evicted with source, 1 evicted in S3 with source, 2 evicted
/// without source (a written NoSource stripe that was spilled), 3 plain
/// fetched, 4 no source at all.
fn evicted_metadata() -> UbiMetadata {
    let mut metadata = UbiMetadata::new(0, 5, 4);
    metadata.set_stripe_header(0, metadata_flags::EVICTED | metadata_flags::HAS_SOURCE);
    metadata.set_stripe_header(
        1,
        metadata_flags::EVICTED | metadata_flags::IN_S3 | metadata_flags::HAS_SOURCE,
    );
    metadata.set_stripe_header(
        2,
        metadata_flags::EVICTED | metadata_flags::IN_S3 | metadata_flags::WRITTEN,
    );
    metadata.set_stripe_header(3, metadata_flags::FETCHED | metadata_flags::HAS_SOURCE);
    metadata
}

#[test]
fn new_derives_evicted_over_fetched_and_nosource() {
    let mut state = SharedMetadataState::new(&evicted_metadata());

    assert_eq!(state.stripe_fetch_state(0), Evicted);
    assert_eq!(state.stripe_fetch_state(1), Evicted);
    assert!(state.stripe_in_s3(1));
    assert_eq!(
        state.stripe_fetch_state(2),
        Evicted,
        "EVICTED beats NoSource"
    );
    assert!(!state.stripe_has_source(2));
    assert!(state.stripe_written(2));
    assert_eq!(state.stripe_fetch_state(3), Fetched);
    assert_eq!(state.stripe_fetch_state(4), NoSource);

    assert_eq!(state.evicted_stripes(), 3);
    assert_eq!(state.in_s3_stripes(), 2);
    assert_eq!(state.fetched_stripes(), 1);
    assert_eq!(state.source_stripes(), 3, "stripe 2 lost HAS_SOURCE");
    assert_eq!(state.resident_stripes(), 1);
    assert_eq!(state.spill().degraded_reasons, 0);
    assert!(!state.stripe_fetched_if_needed(0));
    assert!(!state.stripe_resident(0));
}

#[test]
fn new_counts_resident_including_written_nosource() {
    let mut metadata = UbiMetadata::new(0, 6, 3);
    metadata.set_stripe_header(0, metadata_flags::FETCHED | metadata_flags::HAS_SOURCE);
    metadata.set_stripe_header(1, metadata_flags::WRITTEN | metadata_flags::HAS_SOURCE);
    metadata.set_stripe_header(3, metadata_flags::WRITTEN);
    metadata.set_stripe_header(4, metadata_flags::WRITTEN);
    let mut state = SharedMetadataState::new(&metadata);

    // 0 is fetched; 3 and 4 are written NoSource; 1 is a written but
    // unfetched source stripe (no local blocks yet); 2 and 5 hold nothing.
    assert_eq!(state.resident_stripes(), 3);
    assert!(state.stripe_resident(0));
    assert!(!state.stripe_resident(1));
    assert!(!state.stripe_resident(2));
    assert!(state.stripe_resident(3));
    assert!(!state.stripe_resident(5));
}

#[test]
fn new_logs_fetched_and_evicted_as_resident() {
    let mut metadata = UbiMetadata::new(0, 2, 2);
    metadata.set_stripe_header(
        0,
        metadata_flags::FETCHED | metadata_flags::EVICTED | metadata_flags::HAS_SOURCE,
    );
    let mut state = SharedMetadataState::new(&metadata);

    assert_eq!(state.stripe_fetch_state(0), Fetched);
    assert_eq!(state.fetched_stripes(), 1);
    assert_eq!(state.resident_stripes(), 1);
    assert_eq!(state.evicted_stripes(), 0);
    assert_eq!(state.spill().degraded_reasons, 1);
}

#[test]
fn set_stripe_header_does_not_clobber_evicting_or_evicted() {
    let mut state = SharedMetadataState::new(&evicted_metadata());
    let header = metadata_flags::FETCHED | metadata_flags::HAS_SOURCE;

    state.set_stripe_header(0, header);
    assert_eq!(state.stripe_fetch_state(0), Evicted);

    state.set_stripe_fetch_state_for_test(3, Evicting);
    state.set_stripe_header(3, header);
    assert_eq!(state.stripe_fetch_state(3), Evicting);

    assert_eq!(state.fetched_stripes(), 1);
    assert_eq!(state.resident_stripes(), 1);

    // The persisted side bits still land.
    state.set_stripe_header(0, metadata_flags::PUSHED);
    assert!(state.stripe_pushed(0));
    assert_eq!(state.stripe_fetch_state(0), Evicted);
}

#[test]
fn mark_stripe_fetched_only_from_notfetched_or_failed() {
    let mut metadata = UbiMetadata::new(0, 4, 3);
    metadata.set_stripe_header(2, metadata_flags::FETCHED | metadata_flags::HAS_SOURCE);
    let mut state = SharedMetadataState::new(&metadata);

    state.mark_stripe_fetched(0);
    assert_eq!(state.stripe_fetch_state(0), Fetched);
    assert_eq!(state.fetched_stripes(), 2);
    assert_eq!(state.resident_stripes(), 2);

    state.set_stripe_failed(1);
    state.mark_stripe_fetched(1);
    assert_eq!(state.stripe_fetch_state(1), Fetched);
    assert_eq!(state.fetched_stripes(), 3);
    assert_eq!(state.resident_stripes(), 3);

    // Already Fetched: nothing moves.
    state.mark_stripe_fetched(2);
    assert_eq!(state.fetched_stripes(), 3);
    assert_eq!(state.resident_stripes(), 3);

    // NoSource stays NoSource; a stripe the source never had cannot be
    // "fetched" from it.
    state.mark_stripe_fetched(3);
    assert_eq!(state.stripe_fetch_state(3), NoSource);
    assert_eq!(state.resident_stripes(), 3);

    for evicting_or_evicted in [Evicting, Evicted] {
        state.set_stripe_fetch_state_for_test(0, evicting_or_evicted);
        state.mark_stripe_fetched(0);
        assert_eq!(state.stripe_fetch_state(0), evicting_or_evicted);
        assert_eq!(state.fetched_stripes(), 3);
    }

    // A stripe without a source that failed lands as NoSource.
    state.set_stripe_fetch_state_for_test(3, Failed);
    state.mark_stripe_fetched(3);
    assert_eq!(state.stripe_fetch_state(3), NoSource);
    assert_eq!(state.resident_stripes(), 4);
}

#[test]
fn mark_stripe_resident_restores_nosource_without_source_and_adjusts_in_s3() {
    let mut state = SharedMetadataState::new(&evicted_metadata());
    assert_eq!(state.evicted_stripes(), 3);
    assert_eq!(state.in_s3_stripes(), 2);
    assert_eq!(state.fetched_stripes(), 1);
    assert_eq!(state.resident_stripes(), 1);

    // Spilled written NoSource stripe comes back as NoSource.
    state.mark_stripe_resident(2);
    assert_eq!(state.stripe_fetch_state(2), NoSource);
    assert_eq!(state.evicted_stripes(), 2);
    assert_eq!(state.in_s3_stripes(), 1);
    assert_eq!(state.fetched_stripes(), 1);
    assert_eq!(state.resident_stripes(), 2);
    assert!(state.stripe_in_s3(2), "IN_S3 stays as a purge hint");

    // Spilled source stripe comes back as Fetched.
    state.mark_stripe_resident(1);
    assert_eq!(state.stripe_fetch_state(1), Fetched);
    assert_eq!(state.evicted_stripes(), 1);
    assert_eq!(state.in_s3_stripes(), 0);
    assert_eq!(state.fetched_stripes(), 2);
    assert_eq!(state.resident_stripes(), 3);

    // Clean-evicted source stripe: no IN_S3 to adjust.
    state.mark_stripe_resident(0);
    assert_eq!(state.stripe_fetch_state(0), Fetched);
    assert_eq!(state.evicted_stripes(), 0);
    assert_eq!(state.in_s3_stripes(), 0);
    assert_eq!(state.fetched_stripes(), 3);

    // Not Evicted: refused and counted, nothing else moves.
    state.mark_stripe_resident(3);
    assert_eq!(state.stripe_fetch_state(3), Fetched);
    assert_eq!(state.fetched_stripes(), 3);
    assert_eq!(state.resident_stripes(), 4);
    assert_eq!(state.spill().degraded_reasons, 1);
}

#[test]
fn set_stripe_failed_from_evicted_leaves_the_evicted_counts() {
    let mut state = SharedMetadataState::new(&evicted_metadata());
    assert_eq!(state.evicted_stripes(), 3);
    assert_eq!(state.in_s3_stripes(), 2);

    // Clean-evicted: only the evicted count moves.
    state.set_stripe_failed(0);
    assert_eq!(state.stripe_fetch_state(0), Failed);
    assert!(state.stripe_flags(0) & stripe_flags::WAS_EVICTED != 0);
    assert_eq!(state.evicted_stripes(), 2);
    assert_eq!(state.in_s3_stripes(), 2);

    // Spilled: both move, and IN_S3 stays for the re-fetch to route by.
    state.set_stripe_failed(1);
    assert_eq!(state.evicted_stripes(), 1);
    assert_eq!(state.in_s3_stripes(), 1);
    assert!(state.stripe_in_s3(1));

    // NotFetched -> Failed carries no bit and moves nothing.
    state.set_stripe_fetch_state_for_test(4, NotFetched);
    state.set_stripe_failed(4);
    assert_eq!(state.stripe_fetch_state(4), Failed);
    assert_eq!(state.stripe_flags(4) & stripe_flags::WAS_EVICTED, 0);
    assert_eq!(state.evicted_stripes(), 1);
    assert_eq!(state.resident_stripes(), 1);
}

#[test]
fn formerly_evicted_stripe_lands_only_through_mark_stripe_resident() {
    let mut state = SharedMetadataState::new(&evicted_metadata());
    state.set_stripe_failed(1);
    assert_eq!(state.evicted_stripes(), 2);
    assert_eq!(state.in_s3_stripes(), 1);

    // The header still says EVICTED, so the plain landing is refused.
    state.mark_stripe_fetched(1);
    assert_eq!(state.stripe_fetch_state(1), Failed);
    assert_eq!(state.fetched_stripes(), 1);
    assert_eq!(state.resident_stripes(), 1);
    assert_eq!(state.spill().degraded_reasons, 1);

    // Once the header clearing EVICTED is durable it lands as a Fetched
    // stripe; the evicted counts were adjusted when it failed.
    state.set_source_live(true);
    state.mark_stripe_resident(1);
    assert_eq!(state.stripe_fetch_state(1), Fetched);
    assert_eq!(state.stripe_flags(1) & stripe_flags::WAS_EVICTED, 0);
    assert!(state.stripe_fetched_live(1));
    assert!(state.stripe_in_s3(1), "IN_S3 stays as a purge hint");
    assert_eq!(state.evicted_stripes(), 2);
    assert_eq!(state.in_s3_stripes(), 1);
    assert_eq!(state.fetched_stripes(), 2);
    assert_eq!(state.resident_stripes(), 2);
    assert_eq!(state.spill().degraded_reasons, 1);

    // With the bit gone, a later failure and landing take the plain path.
    state.set_stripe_fetch_state_for_test(1, Failed);
    state.mark_stripe_fetched(1);
    assert_eq!(state.stripe_fetch_state(1), Fetched);

    // A plain Failed stripe (no bit) is not Evicted material for
    // mark_stripe_resident.
    state.set_stripe_failed(4);
    state.mark_stripe_resident(4);
    assert_eq!(state.stripe_fetch_state(4), Failed);
    assert_eq!(state.spill().degraded_reasons, 2);
}

#[test]
fn mark_stripe_written_makes_a_nosource_stripe_resident_once() {
    let metadata = UbiMetadata::new(0, 3, 1);
    let mut state = SharedMetadataState::new(&metadata);
    assert_eq!(state.resident_stripes(), 0);

    state.mark_stripe_written(1);
    assert_eq!(state.resident_stripes(), 1);
    state.mark_stripe_written(1);
    assert_eq!(state.resident_stripes(), 1);

    // A source stripe's blocks are allocated by its fetch, not its write.
    state.mark_stripe_written(0);
    assert_eq!(state.resident_stripes(), 1);
    state.mark_stripe_fetched(0);
    assert_eq!(state.resident_stripes(), 2);
}

#[test]
fn try_begin_evicting_claims_fetched_and_written_nosource_only() {
    let mut metadata = UbiMetadata::new(0, 7, 4);
    metadata.set_stripe_header(0, metadata_flags::FETCHED | metadata_flags::HAS_SOURCE);
    metadata.set_stripe_header(
        1,
        metadata_flags::FETCHED | metadata_flags::WRITTEN | metadata_flags::HAS_SOURCE,
    );
    metadata.set_stripe_header(4, metadata_flags::WRITTEN);
    let mut state = SharedMetadataState::new(&metadata);
    state.set_stripe_failed(3);

    assert_eq!(state.try_begin_evicting(0), Some(Fetched));
    assert_eq!(state.stripe_fetch_state(0), Evicting);
    assert_eq!(state.try_begin_evicting(1), Some(Fetched));
    assert_eq!(state.try_begin_evicting(4), Some(NoSource));
    assert_eq!(state.stripe_fetch_state(4), Evicting);

    assert_eq!(state.try_begin_evicting(2), None, "NotFetched");
    assert_eq!(state.try_begin_evicting(3), None, "Failed");
    assert_eq!(state.try_begin_evicting(5), None, "unwritten NoSource");
    assert_eq!(state.try_begin_evicting(0), None, "already Evicting");
    state.set_stripe_fetch_state_for_test(6, Evicted);
    assert_eq!(state.try_begin_evicting(6), None, "Evicted");

    // Claiming changes no counter; only finishing does.
    assert_eq!(state.fetched_stripes(), 2);
    assert_eq!(state.resident_stripes(), 3);
}

#[test]
fn abort_and_finish_evicting_adjust_counters_by_previous_state() {
    let mut metadata = UbiMetadata::new(0, 4, 2);
    metadata.set_stripe_header(0, metadata_flags::FETCHED | metadata_flags::HAS_SOURCE);
    metadata.set_stripe_header(1, metadata_flags::FETCHED | metadata_flags::HAS_SOURCE);
    metadata.set_stripe_header(2, metadata_flags::WRITTEN);
    let mut state = SharedMetadataState::new(&metadata);
    state.set_source_live(true);
    state.mark_stripe_written(0);
    assert_eq!(state.fetched_stripes(), 2);
    assert_eq!(state.resident_stripes(), 3);

    // Abort restores the previous state and moves nothing.
    let previous = state.try_begin_evicting(0).unwrap();
    state.abort_evicting(0, previous);
    assert_eq!(state.stripe_fetch_state(0), Fetched);
    assert_eq!(state.fetched_stripes(), 2);
    assert_eq!(state.resident_stripes(), 3);
    assert_eq!(state.evicted_stripes(), 0);

    // Dirty eviction of a fetched stripe.
    state.set_stripe_flags(0, stripe_flags::FETCHED_LIVE);
    let previous = state.try_begin_evicting(0).unwrap();
    state.finish_evicting(0, previous, true);
    assert_eq!(state.stripe_fetch_state(0), Evicted);
    assert!(state.stripe_in_s3(0));
    assert!(!state.stripe_fetched_live(0));
    assert_eq!(state.fetched_stripes(), 1);
    assert_eq!(state.resident_stripes(), 2);
    assert_eq!(state.evicted_stripes(), 1);
    assert_eq!(state.in_s3_stripes(), 1);

    // Clean eviction of a fetched stripe: not in S3.
    let previous = state.try_begin_evicting(1).unwrap();
    state.finish_evicting(1, previous, false);
    assert_eq!(state.stripe_fetch_state(1), Evicted);
    assert!(!state.stripe_in_s3(1));
    assert_eq!(state.fetched_stripes(), 0);
    assert_eq!(state.resident_stripes(), 1);
    assert_eq!(state.evicted_stripes(), 2);
    assert_eq!(state.in_s3_stripes(), 1);

    // Dirty eviction of a written NoSource stripe: fetched is untouched.
    let previous = state.try_begin_evicting(2).unwrap();
    assert_eq!(previous, NoSource);
    state.finish_evicting(2, previous, true);
    assert_eq!(state.stripe_fetch_state(2), Evicted);
    assert_eq!(state.fetched_stripes(), 0);
    assert_eq!(state.resident_stripes(), 0);
    assert_eq!(state.evicted_stripes(), 3);
    assert_eq!(state.in_s3_stripes(), 2);

    // Abort or finish on a stripe that is not Evicting is an anomaly.
    state.abort_evicting(3, NoSource);
    state.finish_evicting(3, NoSource, false);
    assert_eq!(state.stripe_fetch_state(3), NoSource);
    assert_eq!(state.evicted_stripes(), 3);
    assert_eq!(state.spill().degraded_reasons, 2);
}

#[test]
fn pin_unpin_touch_take_reference() {
    let metadata = UbiMetadata::new(0, 4, 4);
    let mut state = SharedMetadataState::new(&metadata);

    state.pin_inflight(1, 2);
    state.pin_inflight(2, 2);
    assert_eq!(state.stripe_inflight(0), 0);
    assert_eq!(state.stripe_inflight(1), 1);
    assert_eq!(state.stripe_inflight(2), 2);
    state.unpin_inflight(1, 2);
    assert_eq!(state.stripe_inflight(1), 0);
    assert_eq!(state.stripe_inflight(2), 1);
    state.unpin_inflight(2, 2);
    assert_eq!(state.stripe_inflight(2), 0);

    assert!(!state.take_reference(0));
    state.touch(0, 1);
    assert!(state.take_reference(0));
    assert!(!state.take_reference(0), "the hand cleared it");
    assert!(state.take_reference(1));
    assert!(!state.take_reference(2));

    // The CLOCK bit is in-memory only and never leaks into persisted bits.
    state.touch(3, 3);
    assert_eq!(
        state.stripe_flags(3) & stripe_flags::PERSISTED_MASK,
        stripe_flags::HAS_SOURCE
    );
    state.clear_stripe_flags(3, stripe_flags::REFERENCED);
    assert!(!state.take_reference(3));
}

#[test]
fn fetched_live_only_when_source_live() {
    let metadata = UbiMetadata::new(0, 3, 3);
    let mut state = SharedMetadataState::new(&metadata);
    assert!(!state.source_live());

    state.mark_stripe_fetched(0);
    assert!(!state.stripe_fetched_live(0));

    state.set_source_live(true);
    assert!(state.source_live());
    state.mark_stripe_fetched(1);
    assert!(state.stripe_fetched_live(1));

    state.set_stripe_fetch_state_for_test(2, Evicted);
    state.mark_stripe_resident(2);
    assert!(state.stripe_fetched_live(2));

    state.set_source_live(false);
    state.set_stripe_fetch_state_for_test(0, Evicted);
    state.mark_stripe_resident(0);
    assert!(!state.stripe_fetched_live(0));

    // A landing that changes nothing (stale completion on a claimed or
    // already resident stripe) does not claim the stripe landed live.
    state.set_source_live(true);
    state.set_stripe_fetch_state_for_test(0, Evicting);
    state.mark_stripe_fetched(0);
    assert!(!state.stripe_fetched_live(0));
    state.set_stripe_fetch_state_for_test(0, Fetched);
    state.mark_stripe_fetched(0);
    state.mark_stripe_resident(0);
    assert!(!state.stripe_fetched_live(0));
}

#[test]
fn set_write_gate_counts_stalls_once_per_transition() {
    let metadata = UbiMetadata::new(0, 1, 1);
    let mut state = SharedMetadataState::new(&metadata);
        assert_eq!(state.write_gate(), GATE_OPEN);

    state.set_write_gate(GATE_HOLD);
    assert_eq!(state.write_gate(), GATE_HOLD);
    assert_eq!(state.spill().stalls, 1);
    state.set_write_gate(GATE_HOLD);
    assert_eq!(state.spill().stalls, 1);
    state.set_write_gate(GATE_FAIL);
    assert_eq!(state.spill().stalls, 1, "hold -> fail is not a new stall");
    state.set_write_gate(GATE_OPEN);
    assert_eq!(state.spill().stalls, 1);
    state.set_write_gate(GATE_FAIL);
    assert_eq!(state.write_gate(), GATE_FAIL);
    assert_eq!(state.spill().stalls, 2);
}

/// The counters against the stripes they count.
fn assert_counted(state: &SharedMetadataState) {
    let stripes = 0..state.stripe_count();
    let count = |pick: &dyn Fn(usize) -> bool| stripes.clone().filter(|i| pick(*i)).count() as u64;
    assert_eq!(
        state.fetched_stripes(),
        count(&|i| state.stripe_fetch_state(i) == Fetched)
    );
    assert_eq!(
        state.evicted_stripes(),
        count(&|i| state.stripe_fetch_state(i) == Evicted)
    );
    assert_eq!(state.resident_stripes(), count(&|i| state.stripe_resident(i)));
    assert_eq!(
        state.in_s3_stripes(),
        count(&|i| state.stripe_fetch_state(i) == Evicted && state.stripe_in_s3(i))
    );
}

#[test]
fn counters_follow_the_stripes_through_a_run() {
    let mut metadata = UbiMetadata::new(3, 6, 4);
    metadata.set_stripe_header(0, metadata_flags::FETCHED | metadata_flags::HAS_SOURCE);
    metadata.set_stripe_header(
        1,
        metadata_flags::EVICTED | metadata_flags::WRITTEN | metadata_flags::HAS_SOURCE,
    );
    let mut state = SharedMetadataState::new(&metadata);
    assert_counted(&state);
    state.mark_stripe_fetched(2);
    assert_counted(&state);
    state.mark_stripe_written(5);
    assert_counted(&state);
    let previous = state.try_begin_evicting(0).expect("a resident stripe");
    state.abort_evicting(0, previous);
    assert_counted(&state);
    let previous = state.try_begin_evicting(0).expect("a resident stripe");
    state.finish_evicting(0, previous, true);
    assert_counted(&state);
    let previous = state.try_begin_evicting(5).expect("a written stripe");
    state.finish_evicting(5, previous, false);
    assert_counted(&state);
    state.mark_stripe_resident(0);
    assert_counted(&state);
    state.mark_stripe_resident(1);
    assert_counted(&state);
    state.set_stripe_failed(3);
    assert_counted(&state);
    assert_eq!(state.fetched_stripes(), 3);
    assert_eq!(state.evicted_stripes(), 1);
    assert_eq!(state.resident_stripes(), 3);
}
