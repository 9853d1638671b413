use scope_live::capture_v2::{CaptureState, CaptureStatus};
use scope_live::protocol::{ChannelKind, WireFormat};
use scope_live::protocol_v2::{
    capture_integrity_summary, ArmCapture, CaptureData, CaptureEdge, CaptureTrigger,
    CaptureTriggerKind, ConfigureStream, MessageV2, SampleDomain, MSG_STREAM_SAMPLE_BATCH,
};
use scope_live::simulator::V2Preset;
use scope_live::simulator_v2::{
    f32_bits_of_u31, simulated_capture_upload, v2_channel_table, v2_sample_batch, v2_stream_table,
    v2_streaming_step, SimulatorV2Error, StreamingStepError, SIMULATOR_SESSION_ID,
};

fn arm(stream_id: u16) -> ArmCapture {
    ArmCapture {
        capture_id: 21,
        stream_id,
        pretrigger_rows: 1,
        posttrigger_rows: 1,
        timeout_samples: 100,
        trigger: CaptureTrigger {
            kind: CaptureTriggerKind::FaultFlag,
            channel_id: 9,
            level_bits: 0.0_f32.to_bits(),
            edge: CaptureEdge::Rising,
            hysteresis_bits: 0.0_f32.to_bits(),
            flag_mask: 1,
            flag_value: 1,
        },
    }
}

#[test]
fn single_precision_patterns_match_the_language_conversion() {
    let mut values: Vec<u32> = (0..5_000).collect();
    for shift in 0..31 {
        let p = 1_u32 << shift;
        values.extend([p - 1, p, p + 1]);
    }
    values.extend(16_777_200..16_777_300);
    values.extend(33_554_400..33_554_460);
    values.extend(2_147_483_000..=2_147_483_647);
    let mut x: u64 = 12_345;
    for _ in 0..20_000 {
        x = x.wrapping_mul(6_364_136_223_846_793_005).wrapping_add(1_442_695_040_888_963_407);
        values.push((x >> 33) as u32);
    }
    for v in values {
        assert_eq!(f32_bits_of_u31(v), (v as f32).to_bits(), "value {v}");
    }
}

#[test]
fn simulator_tables_pass_their_own_validation() {
    let channels = v2_channel_table();
    channels.validate().unwrap();
    assert_eq!(channels.revision, 2);
    assert_eq!(channels.channels.len(), 11);
    assert_eq!(channels.channels[0].scale_bits, 0.001_f32.to_bits());
    assert_eq!(channels.channels[3].scale_bits, 1.0_f32.to_bits());
    assert_eq!(channels.channels[3].name, "CLA completed sequence");
    assert_eq!(channels.channels[8].wire_format, WireFormat::U8);
    assert_eq!(channels.channels[8].unit, "");
    assert!(channels.channels.iter().all(|c| c.kind == ChannelKind::Analog));
    let streams = v2_stream_table();
    streams.validate().unwrap();
    streams.validate_against_channels(&channels).unwrap();
    assert_eq!(streams.streams[1].channel_ids, vec![4, 5, 6, 7]);
}

#[test]
fn simulated_batches_carry_row_plus_channel_values_in_wire_format() {
    let streams = v2_stream_table();
    let channels = v2_channel_table();
    let configure = ConfigureStream { stream_id: 2, batch_samples: 3, channel_mask: 0b1011_0000 };
    let batch = v2_sample_batch(&streams, &channels, &configure, 100, V2Preset::Normal30k).unwrap();
    assert_eq!(batch.channel_ids, vec![4, 5, 7]);
    assert_eq!(batch.domain, SampleDomain::Control8k);
    assert_eq!(batch.sample_period_ticks, 4_000);
    assert_eq!(batch.row_count, 3);
    assert_eq!(batch.sample_data.len(), 3 * (2 + 2 + 4));
    assert_eq!(&batch.sample_data[0..2], &104_i16.to_le_bytes());
    assert_eq!(&batch.sample_data[2..4], &105_i16.to_le_bytes());
    assert_eq!(&batch.sample_data[4..8], &107_i32.to_le_bytes());
    assert_eq!(&batch.sample_data[8..10], &105_i16.to_le_bytes());
    let rows: Vec<u64> = batch.row_metadata.iter().map(|m| m.row_sequence).collect();
    assert_eq!(rows, vec![100, 101, 102]);
    assert_eq!(batch.row_metadata[2].applied_sequence, 101);

    let slow = ConfigureStream { stream_id: 3, batch_samples: 2, channel_mask: 1 << 8 };
    let batch = v2_sample_batch(&streams, &channels, &slow, u64::MAX, V2Preset::Normal30k).unwrap();
    assert_eq!(batch.sample_data, vec![1, 1]);
    assert_eq!(batch.row_metadata[1].row_sequence, u64::MAX);
}

#[test]
fn simulated_batches_refuse_unknown_streams_and_undescribed_channels() {
    let streams = v2_stream_table();
    let mut channels = v2_channel_table();
    let configure = ConfigureStream { stream_id: 9, batch_samples: 1, channel_mask: 1 };
    assert_eq!(
        v2_sample_batch(&streams, &channels, &configure, 0, V2Preset::Normal30k).unwrap_err(),
        SimulatorV2Error::UnknownStream
    );
    channels.channels.remove(1);
    let configure = ConfigureStream { stream_id: 1, batch_samples: 1, channel_mask: 0b11 };
    let error = v2_sample_batch(&streams, &channels, &configure, 0, V2Preset::Normal30k).unwrap_err();
    assert_eq!(error, SimulatorV2Error::MissingChannelDescriptor);
    assert_eq!(error.message(), "missing V2 channel descriptor");
    let empty = ConfigureStream { stream_id: 1, batch_samples: 0, channel_mask: 0b11 };
    let batch = v2_sample_batch(&streams, &channels, &empty, 0, V2Preset::Normal30k).unwrap();
    assert!(batch.sample_data.is_empty() && batch.row_metadata.is_empty());
}

#[test]
fn simulated_capture_upload_follows_the_preset() {
    let streams = v2_stream_table();
    let channels = v2_channel_table();
    let plan = simulated_capture_upload(&streams, &channels, &arm(3), V2Preset::CaptureEdge30k, 50);
    assert!(plan.failure.is_none());
    assert_eq!(plan.messages.len(), 5);
    assert_eq!(
        plan.messages[0],
        MessageV2::CaptureStatus(CaptureStatus {
            capture_id: 21,
            state: CaptureState::Uploading,
            captured_rows: 2,
            dropped_rows: 0,
        })
    );
    let blocks: Vec<CaptureData> = plan.messages[2..4]
        .iter()
        .map(|m| match m {
            MessageV2::CaptureData(d) => d.clone(),
            other => panic!("unexpected {other:?}"),
        })
        .collect();
    assert_eq!(blocks[0].block_index, 0);
    assert_eq!(blocks[1].batch.first_row_sequence, 51);
    assert_eq!(blocks[0].batch.channel_ids, vec![8, 9, 10]);
    match &plan.messages[4] {
        MessageV2::CaptureEnd(end) => {
            assert_eq!(end.state, CaptureState::Complete);
            assert_eq!(end.integrity_summary, capture_integrity_summary(21, &blocks).unwrap());
        }
        other => panic!("unexpected {other:?}"),
    }

    let reordered =
        simulated_capture_upload(&streams, &channels, &arm(3), V2Preset::CaptureChunkReorder30k, 50);
    assert!(matches!(&reordered.messages[2], MessageV2::CaptureData(d) if d.block_index == 1));
    assert!(matches!(&reordered.messages[3], MessageV2::CaptureData(d) if d.block_index == 0));
    let lost = simulated_capture_upload(&streams, &channels, &arm(3), V2Preset::CaptureChunkLoss30k, 50);
    assert_eq!(lost.messages.len(), 4);

    let reset = simulated_capture_upload(&streams, &channels, &arm(3), V2Preset::DeviceReset30k, 50);
    assert_eq!(reset.messages.len(), 1);
    assert!(matches!(
        &reset.messages[0],
        MessageV2::CaptureStatus(s) if s.state == CaptureState::DeviceReset
    ));
    let unknown = simulated_capture_upload(&streams, &channels, &arm(7), V2Preset::Normal30k, 50);
    assert!(unknown.messages.is_empty());
    assert_eq!(unknown.failure, Some(SimulatorV2Error::UnknownCaptureStream));
}

#[test]
fn streamed_batches_follow_the_preset_faults() {
    let streams = v2_stream_table();
    let channels = v2_channel_table();
    let configure = ConfigureStream { stream_id: 1, batch_samples: 4, channel_mask: 0b1111 };

    let step = v2_streaming_step(&streams, &channels, &configure, 9, 1, V2Preset::Normal30k, 77).unwrap();
    assert_eq!(step.next_row_sequence, 13);
    assert_eq!(step.frame.message_type, MSG_STREAM_SAMPLE_BATCH);
    assert_eq!(step.frame.sequence, 77);
    assert_eq!(step.frame.session_id, SIMULATOR_SESSION_ID);
    assert_eq!(step.frame.timestamp_ticks, 9 * 1_000);
    match MessageV2::decode(step.frame.message_type, &step.frame.payload).unwrap() {
        MessageV2::StreamSampleBatch(batch) => {
            assert_eq!(batch.first_row_sequence, 9);
            assert_eq!(batch.row_metadata.len(), 4);
        }
        other => panic!("unexpected {other:?}"),
    }

    let gap = v2_streaming_step(&streams, &channels, &configure, 9, 1, V2Preset::RowGap30k, 1).unwrap();
    assert_eq!(gap.next_row_sequence, 14);
    let later = v2_streaming_step(&streams, &channels, &configure, 9, 2, V2Preset::RowGap30k, 1).unwrap();
    assert_eq!(later.next_row_sequence, 13);

    let reorder =
        v2_streaming_step(&streams, &channels, &configure, 9, 2, V2Preset::RowReorder30k, 1).unwrap();
    match MessageV2::decode(reorder.frame.message_type, &reorder.frame.payload).unwrap() {
        MessageV2::StreamSampleBatch(batch) => {
            assert_eq!(batch.first_row_sequence, 5);
            assert_eq!(batch.row_metadata[3].row_sequence, 8);
        }
        other => panic!("unexpected {other:?}"),
    }

    let phase =
        v2_streaming_step(&streams, &channels, &configure, 9, 1, V2Preset::PhaseMismatch30k, 1).unwrap();
    assert_eq!(phase.frame.payload[7], 1);
    let group =
        v2_streaming_step(&streams, &channels, &configure, 9, 1, V2Preset::GroupMismatch30k, 1).unwrap();
    assert_eq!(&group.frame.payload[8..10], &[2, 0]);

    let overflow =
        v2_streaming_step(&streams, &channels, &configure, u64::MAX, 1, V2Preset::Normal30k, 1);
    assert_eq!(overflow.unwrap_err(), StreamingStepError::TimestampOverflow);
}
