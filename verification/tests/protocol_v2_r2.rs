use scope_live::protocol::{
    ChannelDescriptor, ChannelKind, ChannelTable, ProtocolError, WireFormat, MAX_PAYLOAD_LEN,
};
use scope_live::protocol_v2::{
    CapturePhase, CausalRelation, MessageV2, SampleDomain, SignalOwner, SignalRole,
    StreamChannelBinding, MSG_CONFIGURE_STREAM_R1,
};
use scope_live::protocol_v2_r2::{
    validate_configure_streams_r2_for_device, CaptureDataR2, CausalGroupDescriptorR2, ConfigureStreamsR2,
    MessageV2R2, MetadataEncodingR2, StreamDescriptorR2, StreamSampleBatchR2, StreamSubscriptionR2,
    StreamTableR2, CAPABILITY_V2_COMPRESSED_METADATA, CAPABILITY_V2_HARDWARE_CAPTURE_R2,
    CAPABILITY_V2_MULTI_STREAM, CAPABILITY_V2_STREAMS_R2, MSG_CAPTURE_DATA_R2,
    MSG_CONFIGURE_STREAMS_R2, MSG_SAMPLE_BATCH_V2_R2, MSG_STREAM_TABLE_R2,
};
use scope_live::snapshot::{
    SnapshotMeta, APPLIED_SEQUENCE_VALID, FROZEN_ROW, SNAPSHOT_VALID, SOURCE_SEQUENCE_VALID,
};

fn table() -> StreamTableR2 {
    StreamTableR2 {
        revision: 2,
        causal_groups: vec![CausalGroupDescriptorR2 {
            consistency_group: 1,
            logical_cycle_rate_hz: 32_000,
            max_reorder_cycles: 64,
        }],
        streams: vec![
            stream(1, SampleDomain::Fast32k, 1, vec![0]),
            stream(2, SampleDomain::Control8k, 4, vec![1]),
            stream(3, SampleDomain::Slow1k, 32, vec![2]),
        ],
        bindings: vec![
            binding(0, 1, SignalOwner::Cpu1Cla1, SignalRole::ControlInput),
            binding(1, 2, SignalOwner::Cpu1, SignalRole::ControlOutput),
            binding(2, 3, SignalOwner::Cpu2, SignalRole::AppliedCommand),
        ],
        causal_relations: vec![CausalRelation {
            input_stream_id: 1,
            result_stream_id: 2,
            application_stream_id: 3,
            result_input_offset: 0,
            application_result_offset: 4,
        }],
    }
}

fn stream(
    stream_id: u16,
    domain: SampleDomain,
    logical_cycle_step: u32,
    channel_ids: Vec<u16>,
) -> StreamDescriptorR2 {
    StreamDescriptorR2 {
        stream_id,
        domain,
        capture_phase: domain.fixed_capture_phase(),
        sample_rate_hz: domain.fixed_sample_rate_hz(),
        consistency_group: 1,
        logical_cycle_step,
        channel_ids,
    }
}

fn binding(
    channel_id: u16,
    stream_id: u16,
    owner: SignalOwner,
    role: SignalRole,
) -> StreamChannelBinding {
    StreamChannelBinding {
        channel_id,
        stream_id,
        owner,
        role,
    }
}

fn batch(encoding: MetadataEncodingR2, rows: u16) -> StreamSampleBatchR2 {
    StreamSampleBatchR2 {
        stream_id: 2,
        stream_revision: 2,
        domain: SampleDomain::Control8k,
        capture_phase: CapturePhase::ControlCycleEnd,
        consistency_group: 1,
        first_row_sequence: 10,
        row_sequence_step: 1,
        logical_cycle_step: 4,
        sample_period_ticks: 4_000,
        row_count: rows,
        channel_ids: vec![1],
        sample_data: vec![0; usize::from(rows) * 2],
        metadata_encoding: encoding,
        row_metadata: (0..rows)
            .map(|offset| {
                let logical = 40 + u64::from(offset) * 4;
                SnapshotMeta {
                    row_sequence: 10 + u64::from(offset),
                    logical_cycle_sequence: logical,
                    source_sequence: logical,
                    applied_sequence: logical.saturating_sub(4),
                    valid_flags: SNAPSHOT_VALID
                        | FROZEN_ROW
                        | SOURCE_SEQUENCE_VALID
                        | APPLIED_SEQUENCE_VALID,
                }
            })
            .collect(),
    }
}

fn descriptor(channel_id: u16) -> ChannelDescriptor {
    ChannelDescriptor {
        channel_id,
        kind: ChannelKind::Analog,
        wire_format: WireFormat::I16,
        scale_bits: 1.0_f32.to_bits(),
        offset_bits: 0.0_f32.to_bits(),
        unit: String::new(),
        name: format!("CH{channel_id}"),
    }
}

#[test]
fn r2_message_numbers_and_capabilities_are_frozen() {
    assert_eq!(CAPABILITY_V2_STREAMS_R2, 1 << 4);
    assert_eq!(CAPABILITY_V2_MULTI_STREAM, 1 << 5);
    assert_eq!(CAPABILITY_V2_COMPRESSED_METADATA, 1 << 6);
    assert_eq!(CAPABILITY_V2_HARDWARE_CAPTURE_R2, 1 << 7);
    assert_eq!(MSG_SAMPLE_BATCH_V2_R2, 0x33);
    assert_eq!(MSG_CONFIGURE_STREAMS_R2, 0x34);
    assert_eq!(MSG_STREAM_TABLE_R2, 0x35);
    assert_eq!(MSG_CAPTURE_DATA_R2, 0x47);
}

#[test]
fn revision_dispatch_never_guesses_from_payload_length() {
    let r2_payload = MessageV2R2::ConfigureStreams(ConfigureStreamsR2 {
        transaction_id: 1,
        subscriptions: vec![StreamSubscriptionR2 {
            stream_id: 1,
            batch_samples: 1,
            channel_mask: 1,
        }],
    })
    .encode_payload()
    .unwrap();
    assert!(matches!(
        MessageV2R2::decode(MSG_CONFIGURE_STREAM_R1, &r2_payload),
        Err(ProtocolError::UnknownMessageType(MSG_CONFIGURE_STREAM_R1))
    ));
    assert!(matches!(
        MessageV2::decode(MSG_CONFIGURE_STREAMS_R2, &r2_payload),
        Err(ProtocolError::UnknownMessageType(MSG_CONFIGURE_STREAMS_R2))
    ));
}

#[test]
fn stream_table_and_atomic_subscriptions_round_trip() {
    let table = table();
    let message = MessageV2R2::StreamTable(table.clone());
    assert_eq!(
        MessageV2R2::decode(message.message_type(), &message.encode_payload().unwrap()).unwrap(),
        message
    );
    let configure = ConfigureStreamsR2 {
        transaction_id: 9,
        subscriptions: vec![
            StreamSubscriptionR2 {
                stream_id: 1,
                batch_samples: 32,
                channel_mask: 1,
            },
            StreamSubscriptionR2 {
                stream_id: 2,
                batch_samples: 16,
                channel_mask: 2,
            },
            StreamSubscriptionR2 {
                stream_id: 3,
                batch_samples: 4,
                channel_mask: 4,
            },
        ],
    };
    let message = MessageV2R2::ConfigureStreams(configure);
    assert_eq!(
        MessageV2R2::decode(message.message_type(), &message.encode_payload().unwrap()).unwrap(),
        message
    );
}

#[test]
fn configure_streams_r2_golden_payload_is_frozen() {
    let message = MessageV2R2::ConfigureStreams(ConfigureStreamsR2 {
        transaction_id: 0x0102_0304,
        subscriptions: vec![StreamSubscriptionR2 {
            stream_id: 1,
            batch_samples: 32,
            channel_mask: 5,
        }],
    });
    assert_eq!(
        message.encode_payload().unwrap(),
        vec![
            0x04, 0x03, 0x02, 0x01, 0x01, 0x00, 0x00, 0x00, 0x01, 0x00, 0x20, 0x00, 0x05, 0x00,
            0x00, 0x00, 0x00, 0x00, 0x00, 0x00,
        ]
    );
}

#[test]
fn configure_streams_r2_golden_frame_is_frozen() {
    let frame = MessageV2R2::ConfigureStreams(ConfigureStreamsR2 {
        transaction_id: 0x0102_0304,
        subscriptions: vec![StreamSubscriptionR2 {
            stream_id: 1,
            batch_samples: 32,
            channel_mask: 5,
        }],
    })
    .into_frame(0x1122, 0x0102_0304, 0x0506_0708, 0x0102_0304_0506_0708)
    .unwrap()
    .encode()
    .unwrap();
    assert_eq!(
        frame,
        vec![
            0x53, 0x43, 0x50, 0x31, 0x02, 0x34, 0x22, 0x11, 0x04, 0x03, 0x02, 0x01, 0x14, 0x00,
            0x00, 0x00, 0x08, 0x07, 0x06, 0x05, 0x08, 0x07, 0x06, 0x05, 0x04, 0x03, 0x02, 0x01,
            0x04, 0x03, 0x02, 0x01, 0x01, 0x00, 0x00, 0x00, 0x01, 0x00, 0x20, 0x00, 0x05, 0x00,
            0x00, 0x00, 0x00, 0x00, 0x00, 0x00, 0x18, 0x8f, 0xa9, 0x80,
        ]
    );
}

#[test]
fn affine_and_explicit_metadata_round_trip_exactly() {
    for encoding in [
        MetadataEncodingR2::AffineWithOverrides,
        MetadataEncodingR2::Explicit,
    ] {
        let mut batch = batch(encoding, 4);
        batch.row_metadata[2].valid_flags ^= SOURCE_SEQUENCE_VALID;
        batch.row_metadata[3].source_sequence += 7;
        let message = MessageV2R2::StreamSampleBatch(batch);
        assert_eq!(
            MessageV2R2::decode(message.message_type(), &message.encode_payload().unwrap())
                .unwrap(),
            message
        );
    }
}

#[test]
fn validates_exact_logical_cycle_steps() {
    table().validate().unwrap();
    let mut invalid = table();
    invalid.streams[1].logical_cycle_step = 1;
    assert!(invalid.validate().is_err());
}

#[test]
fn validates_atomic_configuration_without_partial_state() {
    let channels = ChannelTable {
        revision: 1,
        channels: vec![descriptor(0), descriptor(1), descriptor(2)],
    };
    let valid = ConfigureStreamsR2 {
        transaction_id: 1,
        subscriptions: vec![
            StreamSubscriptionR2 {
                stream_id: 1,
                batch_samples: 8,
                channel_mask: 1,
            },
            StreamSubscriptionR2 {
                stream_id: 2,
                batch_samples: 8,
                channel_mask: 2,
            },
            StreamSubscriptionR2 {
                stream_id: 3,
                batch_samples: 8,
                channel_mask: 4,
            },
        ],
    };
    validate_configure_streams_r2_for_device(
        &valid,
        &table(),
        &channels,
        128,
        MAX_PAYLOAD_LEN as u32,
    )
    .unwrap();
    let mut invalid = valid;
    invalid.subscriptions[1].channel_mask = 1;
    assert!(validate_configure_streams_r2_for_device(
        &invalid,
        &table(),
        &channels,
        128,
        MAX_PAYLOAD_LEN as u32,
    )
    .is_err());
}

#[test]
fn explicit_metadata_rejects_a_wrong_row_count() {
    let mut bad = batch(MetadataEncodingR2::Explicit, 2);
    bad.row_metadata.pop();
    assert!(MessageV2R2::StreamSampleBatch(bad).encode_payload().is_err());
}

#[test]
fn affine_overrides_of_every_field_read_back() {
    let mut batch = batch(MetadataEncodingR2::AffineWithOverrides, 5);
    let row = &mut batch.row_metadata[3];
    row.row_sequence += 100;
    row.logical_cycle_sequence += 9;
    row.source_sequence = 1;
    row.applied_sequence = 2;
    row.valid_flags = 0;
    let message = MessageV2R2::StreamSampleBatch(batch);
    let payload = message.encode_payload().unwrap();
    assert_eq!(MessageV2R2::decode(message.message_type(), &payload).unwrap(), message);
}

#[test]
fn capture_data_r2_round_trips_with_its_header() {
    let message = MessageV2R2::CaptureData(CaptureDataR2 {
        capture_id: 7,
        block_index: 3,
        batch: batch(MetadataEncodingR2::AffineWithOverrides, 3),
    });
    let payload = message.encode_payload().unwrap();
    assert_eq!(&payload[0..4], &7u32.to_le_bytes());
    assert_eq!(&payload[4..8], &3u32.to_le_bytes());
    assert_eq!(MessageV2R2::decode(MSG_CAPTURE_DATA_R2, &payload).unwrap(), message);
}

#[test]
fn one_row_explicit_batch_reads_back_unit_steps() {
    let first = batch(MetadataEncodingR2::Explicit, 1);
    let payload = MessageV2R2::StreamSampleBatch(first.clone()).encode_payload().unwrap();
    match MessageV2R2::decode(MSG_SAMPLE_BATCH_V2_R2, &payload).unwrap() {
        MessageV2R2::StreamSampleBatch(decoded) => {
            assert_eq!(decoded.row_sequence_step, 1);
            assert_eq!(decoded.logical_cycle_step, 1);
            assert_eq!(decoded.row_metadata, first.row_metadata);
        }
        other => panic!("unexpected message {other:?}"),
    }
}
