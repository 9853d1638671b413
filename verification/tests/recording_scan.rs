use scope_live::recording_scan::{RecordingScan, ScanStep};
use scope_live::scope_format::{
    encode_gap, encode_index, encode_record, GapReason, LiveGap, RecordingFormatError,
    SampleRecordIndex, RECORD_GAP, RECORD_INDEX, RECORD_SAMPLE_FRAME, RECORD_SESSION_END,
};

fn gap() -> LiveGap {
    LiveGap { start_sample_index: 10, missing_samples: 3, reason: GapReason::SequenceLoss }
}

fn scan_all(bytes: &[u8], start: usize) -> Result<(RecordingScan, Vec<ScanStep>), RecordingFormatError> {
    let mut scan = RecordingScan::new(start);
    let mut steps = Vec::new();
    while !scan.done {
        let step = scan.next_record(bytes)?;
        if let ScanStep::SampleFrame { payload_offset, payload_len, timestamp_ticks, .. } = step {
            scan.add_sample_record(SampleRecordIndex {
                payload_offset,
                payload_len: payload_len as u32,
                first_sample_index: 0,
                timestamp_ticks,
                sample_period_ticks: 1,
                sample_count: 1,
            });
        }
        steps.push(step);
    }
    Ok((scan, steps))
}

#[test]
fn scan_reads_records_up_to_a_clean_session_end() {
    let mut bytes = vec![0xAA; 8];
    bytes.extend(encode_record(RECORD_GAP, 5, &encode_gap(gap())).unwrap());
    bytes.extend(encode_record(RECORD_INDEX, 0, &encode_index(&[]).unwrap()).unwrap());
    bytes.extend(encode_record(RECORD_SESSION_END, 0, &[]).unwrap());
    bytes.extend(encode_record(RECORD_GAP, 5, &encode_gap(gap())).unwrap());
    let (scan, steps) = scan_all(&bytes, 8).unwrap();
    assert_eq!(steps, vec![ScanStep::Continue, ScanStep::Continue, ScanStep::Finished]);
    assert_eq!(scan.gaps, vec![gap()]);
    assert!(scan.clean_end);
    assert!(!scan.recovered_tail);
}

#[test]
fn scan_recovers_a_cut_short_tail_and_hands_out_sample_frames() {
    let mut bytes = encode_record(RECORD_SAMPLE_FRAME, 77, &[1, 2, 3]).unwrap();
    let whole = encode_record(RECORD_GAP, 5, &encode_gap(gap())).unwrap();
    bytes.extend_from_slice(&whole[..whole.len() - 1]);
    let (scan, steps) = scan_all(&bytes, 0).unwrap();
    assert_eq!(
        steps,
        vec![
            ScanStep::SampleFrame { payload_offset: 20, payload_start: 20, payload_len: 3, timestamp_ticks: 77 },
            ScanStep::Finished
        ]
    );
    assert!(scan.recovered_tail);
    assert!(!scan.clean_end);
    assert_eq!(scan.sample_records.len(), 1);
    let (scan, _) = scan_all(&[], 0).unwrap();
    assert!(scan.recovered_tail);
}

#[test]
fn scan_refuses_bad_session_ends_and_duplicate_indexes() {
    let end = encode_record(RECORD_SESSION_END, 0, &[]).unwrap();
    assert_eq!(scan_all(&end, 0).err(), Some(RecordingFormatError::MissingIndexRecord));
    let bad_end = encode_record(RECORD_SESSION_END, 1, &[]).unwrap();
    assert_eq!(scan_all(&bad_end, 0).err(), Some(RecordingFormatError::InvalidSessionEnd));
    let index = encode_record(RECORD_INDEX, 0, &encode_index(&[]).unwrap()).unwrap();
    let mut twice = index.clone();
    twice.extend_from_slice(&index);
    assert_eq!(scan_all(&twice, 0).err(), Some(RecordingFormatError::DuplicateIndexRecord));
    let mut unmatched = encode_record(RECORD_SAMPLE_FRAME, 1, &[0]).unwrap();
    unmatched.extend_from_slice(&index);
    unmatched.extend_from_slice(&end);
    assert_eq!(scan_all(&unmatched, 0).err(), Some(RecordingFormatError::IndexCountMismatch));
    assert_eq!(
        RecordingFormatError::DuplicateIndexRecord.message(),
        "duplicate index record"
    );
}
