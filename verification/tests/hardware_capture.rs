use scope_live::hardware_capture::{
    checked_r2_capture_payload_total, CaptureAssembler, CaptureAssemblerR2,
};
use scope_live::protocol_v2::{
    capture_integrity_summary, CaptureBegin, CaptureData, CaptureEnd, CapturePhase, CaptureState,
    SampleDomain, StreamSampleBatch, MAX_CAPTURE_BLOCKS, MAX_CAPTURE_PAYLOAD_BYTES,
};
use scope_live::protocol_v2_r2::{
    capture_integrity_summary_r2, CaptureDataR2, MetadataEncodingR2, StreamDescriptorR2,
    StreamSampleBatchR2,
};
use scope_live::snapshot::{SnapshotMeta, APPLIED_SEQUENCE_VALID, FROZEN_ROW, SNAPSHOT_VALID};

fn batch(row: u64) -> StreamSampleBatch {
    StreamSampleBatch {
        stream_id: 1,
        stream_revision: 1,
        domain: SampleDomain::Fast32k,
        capture_phase: CapturePhase::AfterClaComplete,
        consistency_group: 1,
        first_row_sequence: row,
        sample_period_ticks: 31,
        row_count: 1,
        channel_ids: vec![0],
        sample_data: 0_i16.to_le_bytes().to_vec(),
        row_metadata: vec![SnapshotMeta {
            row_sequence: row,
            logical_cycle_sequence: row,
            source_sequence: row,
            applied_sequence: row.saturating_sub(1),
            valid_flags: SNAPSHOT_VALID | FROZEN_ROW | APPLIED_SEQUENCE_VALID,
        }],
    }
}

fn r2_descriptor() -> StreamDescriptorR2 {
    StreamDescriptorR2 {
        stream_id: 1,
        domain: SampleDomain::Fast32k,
        capture_phase: CapturePhase::AfterClaComplete,
        sample_rate_hz: 32_000,
        consistency_group: 1,
        logical_cycle_step: 1,
        channel_ids: vec![0],
    }
}

fn r2_block(capture_id: u32, block_index: u32, row: u64) -> CaptureDataR2 {
    CaptureDataR2 {
        capture_id,
        block_index,
        batch: StreamSampleBatchR2 {
            stream_id: 1,
            stream_revision: 3,
            domain: SampleDomain::Fast32k,
            capture_phase: CapturePhase::AfterClaComplete,
            consistency_group: 1,
            first_row_sequence: row,
            row_sequence_step: 1,
            logical_cycle_step: 1,
            sample_period_ticks: 1_000,
            row_count: 1,
            channel_ids: vec![0],
            sample_data: 0_i16.to_le_bytes().to_vec(),
            metadata_encoding: MetadataEncodingR2::AffineWithOverrides,
            row_metadata: vec![SnapshotMeta {
                row_sequence: row,
                logical_cycle_sequence: row,
                source_sequence: row,
                applied_sequence: row,
                valid_flags: SNAPSHOT_VALID | FROZEN_ROW | APPLIED_SEQUENCE_VALID,
            }],
        },
    }
}

#[test]
fn r2_out_of_order_blocks_use_incremental_crc_and_release_buffers() {
    let mut assembler = CaptureAssemblerR2::default();
    assembler
        .begin_with_descriptor(
            CaptureBegin {
                capture_id: 7,
                stream_id: 1,
                row_count: 3,
                trigger_row_seq: 1,
            },
            &r2_descriptor(),
            3,
        )
        .unwrap();
    let first = r2_block(7, 0, 1);
    let second = r2_block(7, 1, 2);
    let third = r2_block(7, 2, 3);
    assembler.push(third.clone()).unwrap();
    assembler.push(first.clone()).unwrap();
    assembler.push(second.clone()).unwrap();
    assert_eq!(assembler.buffered_block_count(), 3);
    assert_eq!(assembler.buffered_rows(), 3);
    let integrity =
        capture_integrity_summary_r2(7, &[first.clone(), second.clone(), third.clone()]).unwrap();
    let capture = assembler
        .finish(CaptureEnd {
            capture_id: 7,
            state: CaptureState::Complete,
            uploaded_rows: 3,
            dropped_rows: 0,
            total_blocks: 3,
            total_samples: 3,
            integrity_summary: integrity,
        })
        .unwrap();
    assert!(capture.diagnostics.capture_complete);
    assert_eq!(capture.blocks.len(), 3);
    assert_eq!(assembler.buffered_block_count(), 0);
    assert_eq!(assembler.buffered_rows(), 0);
    assert_eq!(assembler.buffered_payload_bytes(), 0);
}

#[test]
fn r2_capture_failure_releases_memory_and_next_capture_succeeds() {
    let mut assembler = CaptureAssemblerR2::default();
    let begin = CaptureBegin {
        capture_id: 8,
        stream_id: 1,
        row_count: 2,
        trigger_row_seq: 1,
    };
    assembler
        .begin_with_descriptor(begin, &r2_descriptor(), 3)
        .unwrap();
    assembler.push(r2_block(8, 1, 2)).unwrap();
    assert!(assembler
        .finish(CaptureEnd {
            capture_id: 8,
            state: CaptureState::Complete,
            uploaded_rows: 1,
            dropped_rows: 0,
            total_blocks: 2,
            total_samples: 1,
            integrity_summary: 0,
        })
        .is_err());
    assert_eq!(assembler.buffered_block_count(), 0);

    assembler
        .begin_with_descriptor(begin, &r2_descriptor(), 3)
        .unwrap();
    let first = r2_block(8, 0, 1);
    let second = r2_block(8, 1, 2);
    assembler.push(first.clone()).unwrap();
    assembler.push(second.clone()).unwrap();
    let integrity = capture_integrity_summary_r2(8, &[first.clone(), second.clone()]).unwrap();
    assert!(assembler
        .finish(CaptureEnd {
            capture_id: 8,
            state: CaptureState::Complete,
            uploaded_rows: 2,
            dropped_rows: 0,
            total_blocks: 2,
            total_samples: 2,
            integrity_summary: integrity,
        })
        .is_ok());
}

#[test]
fn r2_capture_limit_is_checked_before_allocating_a_block() {
    assert_eq!(
        checked_r2_capture_payload_total(MAX_CAPTURE_PAYLOAD_BYTES - 5, 1).unwrap(),
        MAX_CAPTURE_PAYLOAD_BYTES - 4
    );
    assert!(checked_r2_capture_payload_total(MAX_CAPTURE_PAYLOAD_BYTES - 5, 2)
        .unwrap_err()
        .message()
        .contains("64 MiB"));
    assert!(checked_r2_capture_payload_total(usize::MAX, 1)
        .unwrap_err()
        .message()
        .contains("overflow"));
}

fn begin() -> CaptureBegin {
    CaptureBegin {
        capture_id: 7,
        stream_id: 1,
        row_count: 2,
        trigger_row_seq: 11,
    }
}

fn end() -> CaptureEnd {
    CaptureEnd {
        capture_id: 7,
        state: CaptureState::Complete,
        uploaded_rows: 2,
        dropped_rows: 0,
        total_blocks: 2,
        total_samples: 2,
        integrity_summary: 0,
    }
}

#[test]
fn completes_only_a_contiguous_capture_with_matching_totals() {
    let mut assembler = CaptureAssembler::default();
    assembler.begin(begin()).unwrap();
    assembler
        .push(CaptureData {
            capture_id: 7,
            block_index: 0,
            batch: batch(10),
        })
        .unwrap();
    assembler
        .push(CaptureData {
            capture_id: 7,
            block_index: 1,
            batch: batch(11),
        })
        .unwrap();
    let first = CaptureData {
        capture_id: 7,
        block_index: 0,
        batch: batch(10),
    };
    let second = CaptureData {
        capture_id: 7,
        block_index: 1,
        batch: batch(11),
    };
    let mut end = end();
    end.integrity_summary = capture_integrity_summary(7, &[first, second]).unwrap();
    let capture = assembler.finish(end).unwrap();
    assert!(capture.diagnostics.capture_complete);
    assert_eq!(capture.blocks.len(), 2);
}

#[test]
fn records_duplicate_and_reordered_chunks_and_rejects_incomplete_upload() {
    let mut assembler = CaptureAssembler::default();
    assembler.begin(begin()).unwrap();
    assembler
        .push(CaptureData {
            capture_id: 7,
            block_index: 1,
            batch: batch(11),
        })
        .unwrap();
    assembler
        .push(CaptureData {
            capture_id: 7,
            block_index: 1,
            batch: batch(11),
        })
        .unwrap();
    let error = assembler.finish(end()).unwrap_err().message();
    assert!(
        error.contains("CaptureRowOverflow") || error.contains("totals") || error.contains("missing")
    );
    assert_eq!(assembler.diagnostics().capture_duplicate_chunks, 1);
    assert_eq!(assembler.diagnostics().capture_reordered_chunks, 1);
}

#[test]
fn rejects_descriptor_period_row_and_block_limit_violations_at_push_time() {
    let mut assembler = CaptureAssembler::default();
    assembler.begin(begin()).unwrap();
    assembler
        .push(CaptureData {
            capture_id: 7,
            block_index: 0,
            batch: batch(10),
        })
        .unwrap();

    let mut period_changed = batch(11);
    period_changed.sample_period_ticks = 32;
    assert!(assembler
        .push(CaptureData {
            capture_id: 7,
            block_index: 1,
            batch: period_changed,
        })
        .unwrap_err()
        .message()
        .contains("CaptureDescriptorMismatch"));

    let mut oversized = CaptureAssembler::default();
    oversized.begin(begin()).unwrap();
    assert!(oversized
        .push(CaptureData {
            capture_id: 7,
            block_index: MAX_CAPTURE_BLOCKS,
            batch: batch(10),
        })
        .unwrap_err()
        .message()
        .contains("CaptureTooManyBlocks"));

    let mut discontinuous = CaptureAssembler::default();
    discontinuous.begin(begin()).unwrap();
    discontinuous
        .push(CaptureData {
            capture_id: 7,
            block_index: 0,
            batch: batch(10),
        })
        .unwrap();
    assert!(discontinuous
        .push(CaptureData {
            capture_id: 7,
            block_index: 1,
            batch: batch(12),
        })
        .unwrap_err()
        .message()
        .contains("CaptureRowDiscontinuity"));
}

#[test]
fn rejects_integrity_dropped_rows_and_non_complete_end() {
    let mut assembler = CaptureAssembler::default();
    assembler.begin(begin()).unwrap();
    assembler
        .push(CaptureData {
            capture_id: 7,
            block_index: 0,
            batch: batch(10),
        })
        .unwrap();
    assembler
        .push(CaptureData {
            capture_id: 7,
            block_index: 1,
            batch: batch(11),
        })
        .unwrap();
    let error = assembler.finish(end()).unwrap_err().message();
    assert!(error.contains("CaptureIntegrityMismatch"));
    assert_eq!(assembler.diagnostics().capture_integrity_mismatches, 1);

    let mut incomplete = CaptureAssembler::default();
    incomplete.begin(begin()).unwrap();
    let mut failed = end();
    failed.state = CaptureState::Timeout;
    assert!(incomplete
        .finish(failed)
        .unwrap_err()
        .message()
        .contains("non-success"));
}

#[test]
fn every_capture_end_releases_buffered_blocks() {
    let mut assembler = CaptureAssembler::default();
    assembler.begin(begin()).unwrap();
    assembler
        .push(CaptureData {
            capture_id: 7,
            block_index: 0,
            batch: batch(10),
        })
        .unwrap();
    assert_eq!(assembler.buffered_block_count(), 1);
    assert!(assembler.buffered_payload_bytes() > 0);

    let mut failed = end();
    failed.state = CaptureState::Timeout;
    assert!(assembler.finish(failed).is_err());
    assert_eq!(assembler.buffered_block_count(), 0);
    assert_eq!(assembler.buffered_payload_bytes(), 0);
}

#[test]
fn capture_data_from_another_capture_is_refused() {
    let mut assembler = CaptureAssembler::default();
    assembler.begin(begin()).unwrap();
    let error = assembler
        .push(CaptureData {
            capture_id: 8,
            block_index: 0,
            batch: batch(10),
        })
        .unwrap_err();
    assert!(error.message().contains("capture id"));
    assert_eq!(assembler.buffered_block_count(), 0);
}

#[test]
fn integrity_summary_ignores_arrival_order() {
    let blocks: Vec<CaptureData> = (0..3)
        .map(|i| CaptureData { capture_id: 7, block_index: i, batch: batch(10 + u64::from(i)) })
        .collect();
    let forward = capture_integrity_summary(7, &blocks).unwrap();
    let reversed: Vec<CaptureData> = blocks.iter().rev().cloned().collect();
    let shuffled = vec![blocks[1].clone(), blocks[2].clone(), blocks[0].clone()];
    assert_eq!(capture_integrity_summary(7, &reversed).unwrap(), forward);
    assert_eq!(capture_integrity_summary(7, &shuffled).unwrap(), forward);
}
