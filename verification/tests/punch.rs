use ubiblk::io::{HolePuncher, IoError};
use ubiblk::spill::punch::{available_bytes, punch_range, RecordingPuncher, EIO, EOVERFLOW};
use ubiblk::spill_setup::check_spill_preconditions;

#[test]
fn recording_puncher_records_and_fails_once() {
    let mut puncher = RecordingPuncher::new();
    puncher.free = 4096;
    assert_eq!(puncher.free_bytes().unwrap(), 4096);

    puncher.punch(0, 512).unwrap();
    puncher.fail_next = true;
    assert_eq!(puncher.punch(512, 512), Err(IoError { errno: EIO }));
    puncher.punch(1024, 512).unwrap();
    assert_eq!(puncher.punches, vec![(0, 512), (1024, 512)]);
}

#[test]
fn a_chosen_error_number_comes_back() {
    let mut puncher = RecordingPuncher::new();
    puncher.fail_errno = 95;
    puncher.fail_next = true;
    assert_eq!(puncher.punch(0, 1), Err(IoError { errno: 95 }));
    assert!(puncher.punches.is_empty());
}

#[test]
fn ranges_that_fit_no_file_offset_are_refused() {
    assert_eq!(punch_range(4096, 512), Ok((4096, 512)));
    let too_large = i64::MAX as u64 + 1;
    assert_eq!(
        punch_range(too_large, 1),
        Err(IoError { errno: EOVERFLOW })
    );
    assert_eq!(
        punch_range(1, too_large),
        Err(IoError { errno: EOVERFLOW })
    );
    assert_eq!(punch_range(i64::MAX as u64, 0), Ok((i64::MAX, 0)));
}

#[test]
fn free_space_is_blocks_times_their_size() {
    assert_eq!(available_bytes(3, 4096), 12288);
}

#[test]
fn only_a_regular_file_can_be_punched() {
    assert!(check_spill_preconditions(true).is_ok());
    assert!(check_spill_preconditions(false).is_err());
}
