use std::collections::HashMap;

use scope_live::stream_timing::{validate_v2_stream_timing, StreamTimingError};

#[test]
fn v2_stream_timing_requires_fixed_period_monotonicity_and_no_overflow() {
    let mut timing = HashMap::new();
    validate_v2_stream_timing(&mut timing, 1, 1_000, 10_000, 4).unwrap();
    validate_v2_stream_timing(&mut timing, 1, 1_000, 14_000, 2).unwrap();

    let changed_period = validate_v2_stream_timing(&mut timing, 1, 4_000, 16_000, 1).unwrap_err();
    assert!(changed_period
        .message()
        .contains("changed sample_period_ticks"));

    let non_monotonic = validate_v2_stream_timing(&mut timing, 1, 1_000, 14_000, 1).unwrap_err();
    assert!(non_monotonic.message().contains("not monotonic"));

    let overflow =
        validate_v2_stream_timing(&mut HashMap::new(), 2, 1_000, u64::MAX - 500, 2).unwrap_err();
    assert!(overflow.message().contains("timestamp overflow"));
}

#[test]
fn accepted_batches_record_period_and_last_row_time() {
    let mut timing = HashMap::new();
    validate_v2_stream_timing(&mut timing, 3, 250, 1_000, 5).unwrap();
    assert_eq!(timing.get(&3), Some(&(250, 2_000)));
    assert_eq!(
        validate_v2_stream_timing(&mut timing, 3, 250, 2_000, 1),
        Err(StreamTimingError::NotMonotonic(3))
    );
    assert_eq!(timing.get(&3), Some(&(250, 2_000)));
    assert_eq!(
        StreamTimingError::PeriodChanged(12).message(),
        "V2 stream 12 changed sample_period_ticks during the session"
    );
}
