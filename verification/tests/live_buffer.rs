use scope_live::live_buffer::{
    DecodedSampleBatch, LiveBatchError, LiveBuffer, LiveBufferConfigError, LiveBufferError,
};
use scope_live::scope_format::GapReason;

fn bits(values: &[f32]) -> Vec<u32> {
    values.iter().map(|value| value.to_bits()).collect()
}

fn batch(first: u64, tick: u64, values: &[f32]) -> DecodedSampleBatch {
    DecodedSampleBatch {
        revision: 1,
        first_sample_index: first,
        sample_period_ticks: 10,
        timestamp_ticks: tick,
        channel_ids: vec![0],
        channels: vec![bits(values)],
        raw_frame: Vec::new(),
    }
}

fn gapped_buffer() -> LiveBuffer {
    let mut buffer = LiveBuffer::new(vec![0], 20, 1_000_000).unwrap();
    buffer
        .push_batch(batch(0, 0, &[0.0, 1.0, 2.0, 3.0, 4.0]))
        .unwrap();
    buffer.push_gap(5, 5, GapReason::SampleIndexLoss);
    buffer
        .push_batch(batch(10, 100, &[5.0, 6.0, 7.0, 8.0, 9.0]))
        .unwrap();
    buffer
}

#[test]
fn buffer_keeps_aligned_capacity_and_gap() {
    let mut buffer = LiveBuffer::new(vec![0], 5, 1_000_000).unwrap();

    buffer.push_batch(batch(10, 100, &[1.0, 2.0, 3.0])).unwrap();
    buffer.push_gap(13, 2, GapReason::SequenceLoss);
    buffer.push_batch(batch(15, 150, &[4.0, 5.0])).unwrap();

    assert_eq!(buffer.len(), 5);
    assert_eq!(buffer.sample_indices(), vec![10, 11, 12, 15, 16]);
    assert_eq!(buffer.gaps()[0].start_sample_index, 13);
    assert_eq!(buffer.gaps()[0].missing_samples, 2);
}

#[test]
fn buffer_evicts_oldest_samples_and_snapshot_preserves_spike() {
    let mut buffer = LiveBuffer::new(vec![0], 5, 1_000_000).unwrap();
    buffer
        .push_batch(batch(0, 0, &[0.0, 0.0, 10.0, 0.0, 0.0, 0.0]))
        .unwrap();

    assert_eq!(buffer.sample_indices(), vec![1, 2, 3, 4, 5]);
    let snapshot = buffer.snapshot(4);
    assert!(snapshot.segments.iter().any(|segment| {
        segment
            .channels
            .first()
            .is_some_and(|values| values.contains(&10.0f32.to_bits()))
    }));
}

#[test]
fn buffer_rejects_misaligned_batch_without_partial_mutation() {
    let mut buffer = LiveBuffer::new(vec![0, 1], 5, 1_000_000).unwrap();
    let malformed = DecodedSampleBatch {
        revision: 1,
        first_sample_index: 0,
        sample_period_ticks: 1,
        timestamp_ticks: 0,
        channel_ids: vec![0, 1],
        channels: vec![bits(&[1.0, 2.0]), bits(&[3.0])],
        raw_frame: Vec::new(),
    };

    assert!(matches!(
        buffer.push_batch(malformed),
        Err(LiveBufferError::InvalidBatch(_))
    ));
    assert!(buffer.is_empty());
}

#[test]
fn snapshot_budget_is_shared_across_gap_segments() {
    let buffer = gapped_buffer();

    let snapshot = buffer.snapshot(4);

    assert_eq!(snapshot.segments.len(), 2);
    assert!(snapshot
        .segments
        .iter()
        .all(|segment| !segment.timestamps_ticks.is_empty()));
    assert!(
        snapshot
            .segments
            .iter()
            .map(|segment| segment.timestamps_ticks.len())
            .sum::<usize>()
            <= 4
    );
}

#[test]
fn recent_snapshot_keeps_exact_tail_and_gap_boundaries() {
    let buffer = gapped_buffer();

    let snapshot = buffer.snapshot_recent(7);

    assert_eq!(snapshot.segments.len(), 2);
    assert_eq!(snapshot.segments[0].channels[0], bits(&[3.0, 4.0]));
    assert_eq!(
        snapshot.segments[1].channels[0],
        bits(&[5.0, 6.0, 7.0, 8.0, 9.0])
    );
}

#[test]
fn buffer_configuration_errors() {
    assert!(matches!(
        LiveBuffer::new(vec![], 5, 1),
        Err(LiveBufferError::InvalidConfig(LiveBufferConfigError::NoChannels))
    ));
    assert!(matches!(
        LiveBuffer::new(vec![0], 0, 1),
        Err(LiveBufferError::InvalidConfig(LiveBufferConfigError::ZeroCapacity))
    ));
    assert!(matches!(
        LiveBuffer::new(vec![0], 5, 0),
        Err(LiveBufferError::InvalidConfig(LiveBufferConfigError::ZeroTickRate))
    ));
    assert!(matches!(
        LiveBuffer::new(vec![3, 1, 3], 5, 1),
        Err(LiveBufferError::InvalidConfig(LiveBufferConfigError::DuplicateChannelIds))
    ));
    let buffer = LiveBuffer::new(vec![3, 1], 5, 1).unwrap();
    assert_eq!(buffer.channel_ids(), &[3, 1]);
    assert!(buffer.is_empty());
}

#[test]
fn buffer_batch_errors_leave_the_buffer_unchanged() {
    let mut buffer = LiveBuffer::new(vec![0], 5, 1_000).unwrap();
    buffer.push_batch(batch(10, 0, &[1.0, 2.0])).unwrap();

    let mut other_channel = batch(12, 0, &[3.0]);
    other_channel.channel_ids = vec![1];
    assert_eq!(
        buffer.push_batch(other_channel),
        Err(LiveBufferError::InvalidBatch(LiveBatchError::ChannelIdsMismatch))
    );
    assert_eq!(
        buffer.push_batch(batch(11, 0, &[3.0])),
        Err(LiveBufferError::InvalidBatch(LiveBatchError::OutOfOrder {
            got: 11,
            expected: 12
        }))
    );
    let mut empty = batch(12, 0, &[]);
    empty.channels = vec![Vec::new()];
    assert_eq!(
        buffer.push_batch(empty),
        Err(LiveBufferError::InvalidBatch(LiveBatchError::MisalignedColumns))
    );
    assert_eq!(buffer.sample_indices(), vec![10, 11]);
    assert_eq!(
        LiveBufferError::InvalidBatch(LiveBatchError::MisalignedColumns).message(),
        "invalid live sample batch: channel columns must be non-empty and aligned"
    );
}

#[test]
fn buffer_eviction_prunes_gaps_before_the_oldest_row() {
    let mut buffer = LiveBuffer::new(vec![0], 3, 1_000).unwrap();
    buffer.push_batch(batch(0, 0, &[0.0, 1.0])).unwrap();
    buffer.push_gap(2, 3, GapReason::HostBackpressure);
    buffer.push_batch(batch(5, 50, &[5.0, 6.0])).unwrap();
    assert_eq!(buffer.sample_indices(), vec![1, 5, 6]);
    assert_eq!(buffer.gaps().len(), 1);
    buffer.push_batch(batch(7, 70, &[7.0])).unwrap();
    assert_eq!(buffer.sample_indices(), vec![5, 6, 7]);
    assert!(buffer.gaps().is_empty());
    buffer.clear();
    assert!(buffer.is_empty());
}

#[test]
fn snapshot_gap_segments_have_exact_points() {
    let snapshot = gapped_buffer().snapshot(4);
    assert_eq!(snapshot.tick_hz, 1_000_000);
    assert_eq!(snapshot.channel_ids, vec![0]);
    assert_eq!(snapshot.segments[0].timestamps_ticks, vec![0, 40]);
    assert_eq!(snapshot.segments[0].channels[0], bits(&[0.0, 4.0]));
    assert_eq!(snapshot.segments[1].timestamps_ticks, vec![100, 140]);
    assert_eq!(snapshot.segments[1].channels[0], bits(&[5.0, 9.0]));
}

#[test]
fn snapshot_decimation_keeps_ends_and_total_order_extremes() {
    let mut buffer = LiveBuffer::new(vec![0], 20, 1_000).unwrap();
    let values = [1.0, -2.0, 3.0, -0.0, 0.0, 5.0, -7.5, 2.0, 0.25, 6.0];
    buffer.push_batch(batch(0, 0, &values)).unwrap();
    let picks = |max_points: usize| -> Vec<u64> {
        let snapshot = buffer.snapshot(max_points);
        assert_eq!(snapshot.segments.len(), 1);
        snapshot.segments[0]
            .timestamps_ticks
            .iter()
            .map(|tick| tick / 10)
            .collect()
    };
    assert_eq!(picks(1), vec![9]);
    assert_eq!(picks(2), vec![0, 9]);
    assert_eq!(picks(3), vec![0, 6, 9]);
    assert_eq!(picks(4), vec![0, 4, 6, 9]);
    assert_eq!(picks(5), vec![0, 2, 5, 6, 9]);
    assert_eq!(picks(6), vec![0, 2, 4, 6, 9]);
    assert_eq!(picks(9), vec![0, 1, 2, 3, 5, 6, 7, 8, 9]);
    assert_eq!(picks(10), (0..10).collect::<Vec<u64>>());
    assert!(buffer.snapshot(0).segments.is_empty());
    assert_eq!(buffer.snapshot(4).segments[0].channels[0], bits(&[1.0, 0.0, -7.5, 6.0]));
}

#[test]
fn snapshot_keeps_only_the_newest_runs_when_budget_is_short() {
    let mut buffer = LiveBuffer::new(vec![0], 20, 1_000).unwrap();
    buffer.push_batch(batch(0, 0, &[0.0])).unwrap();
    buffer.push_batch(batch(2, 20, &[2.0])).unwrap();
    buffer.push_batch(batch(4, 40, &[4.0])).unwrap();
    let snapshot = buffer.snapshot(2);
    assert_eq!(snapshot.segments.len(), 2);
    assert_eq!(snapshot.segments[0].timestamps_ticks, vec![20]);
    assert_eq!(snapshot.segments[1].timestamps_ticks, vec![40]);
}

#[test]
fn recent_snapshot_is_the_whole_tail_split_at_gaps() {
    let buffer = gapped_buffer();
    let all = buffer.snapshot_recent(100);
    assert_eq!(all.segments.len(), 2);
    assert_eq!(all.segments[0].timestamps_ticks, vec![0, 10, 20, 30, 40]);
    assert_eq!(all.segments[1].timestamps_ticks, vec![100, 110, 120, 130, 140]);
    let last = buffer.snapshot_recent(1);
    assert_eq!(last.segments.len(), 1);
    assert_eq!(last.segments[0].channels[0], bits(&[9.0]));
    assert!(buffer.snapshot_recent(0).segments.is_empty());
}

#[test]
fn snapshot_points_never_exceed_the_budget() {
    let mut buffer = LiveBuffer::new(vec![0, 1], 64, 1_000).unwrap();
    let mut first = 0;
    for run in 0..6u64 {
        let values: Vec<f32> = (0..(run + 3)).map(|i| (i * 7 % 5) as f32 - 2.0).collect();
        let mut b = batch(first, first * 10, &values);
        b.channel_ids = vec![0, 1];
        b.channels = vec![bits(&values), bits(&values.iter().map(|v| -v).collect::<Vec<_>>())];
        buffer.push_batch(b).unwrap();
        first += run + 3 + 2;
    }
    for budget in 1..40 {
        let snapshot = buffer.snapshot(budget);
        let total: usize = snapshot.segments.iter().map(|s| s.timestamps_ticks.len()).sum();
        assert!(total <= budget);
        assert!(snapshot.segments.iter().all(|s| !s.timestamps_ticks.is_empty()));
        assert_eq!(snapshot.segments.len(), budget.min(6));
    }
}
