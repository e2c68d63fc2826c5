use ubiblk::metadata::metadata_flags;
use ubiblk::metadata::shared_state::{SharedMetadataState, GATE_FAIL, GATE_HOLD};
use ubiblk::metadata::types::UbiMetadata;
use ubiblk::status_report::{SpillReportConfig, StatusReport, StatusReporter};

fn state() -> SharedMetadataState {
    let mut metadata = UbiMetadata::new(3, 8, 4);
    metadata.set_stripe_header(0, metadata_flags::FETCHED | metadata_flags::HAS_SOURCE);
    metadata.set_stripe_header(
        1,
        metadata_flags::EVICTED | metadata_flags::IN_S3 | metadata_flags::HAS_SOURCE,
    );
    metadata.set_stripe_header(5, metadata_flags::WRITTEN);
    SharedMetadataState::new(&metadata)
}

#[test]
fn spill_absent_without_config() {
    let reporter = StatusReporter::new(64, None);
    let report = reporter.report(&state());
    assert!(report.spill().is_none());
    assert_eq!(report.stripes.total, 8);
    assert_eq!(report.stripes.source, 4);
    assert_eq!(report.stripes.fetched, 1);
}

#[test]
fn spill_present_with_config() {
    let mut state = state();
    state.spill.puts += 3;
    state.spill.put_bytes += 4096;
    state.spill.free_bytes = 1 << 30;
    state.set_source_live(true);
    let reporter = StatusReporter::new(
        64,
        Some(SpillReportConfig {
            max_local_bytes: 1 << 20,
            clean_eviction: true,
        }),
    );

    let report = reporter.report(&state);
    let spill = report.spill().expect("spill record");
    assert_eq!(spill.resident, 2, "one fetched, one written NoSource");
    assert_eq!(spill.resident_bytes, 2 * 8 * 512);
    assert_eq!(spill.max_local_bytes, 1 << 20);
    assert_eq!(spill.evicted, 1);
    assert_eq!(spill.in_s3, 1);
    assert_eq!(spill.puts, 3);
    assert_eq!(spill.put_bytes, 4096);
    assert_eq!(spill.free_bytes, 1 << 30);
    assert_eq!(spill.gate, "open");
    assert!(spill.source_live);
    assert!(spill.clean_eviction);
    assert!(!spill.degraded);
    assert_eq!(spill.stalls, 0);

    state.set_write_gate(GATE_HOLD);
    assert_eq!(reporter.report(&state).spill().unwrap().gate, "hold");
    assert_eq!(reporter.report(&state).spill().unwrap().stalls, 1);
    state.set_write_gate(GATE_FAIL);
    assert_eq!(reporter.report(&state).spill().unwrap().gate, "fail");
}

#[test]
fn a_short_last_stripe_counts() {
    let report = StatusReporter::new(57, None).report(&state());
    assert_eq!(report.stripes.total, 8);
    let report = StatusReporter::new(56, None).report(&state());
    assert_eq!(report.stripes.total, 7);
    let report = StatusReport::new(1, 2, 3);
    assert_eq!(
        (
            report.stripes.total,
            report.stripes.source,
            report.stripes.fetched
        ),
        (1, 2, 3)
    );
}
