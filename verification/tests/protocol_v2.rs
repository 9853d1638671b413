use scope_live::protocol::{ChannelDescriptor, ChannelKind, ChannelTable, ProtocolError, WireFormat};
use scope_live::protocol_v2::{
    validate_configure_stream_for_device, validate_stream_sample_period, ArmCapture, CapturePhase,
    CaptureData, CaptureEdge, CaptureTrigger, CaptureTriggerKind, CausalRelation, ConfigureStream,
    ManualTrigger, MessageV2, SampleDomain, SignalOwner, SignalRole, StreamChannelBinding,
    StreamDescriptor, StreamRowMetadata, StreamSampleBatch, StreamTable, MSG_ARM_CAPTURE,
    MSG_CAPTURE_DATA, MSG_STREAM_TABLE, VALID_FLAG_ADC_VALID, VALID_FLAG_APPLIED_VALID,
    VALID_FLAG_CLA_COMPLETE, VALID_FLAG_DATA_FROZEN, VALID_FLAG_SOURCE_VALID,
};
use scope_live::snapshot::SNAPSHOT_VALID;

fn channel(channel_id: u16, name: &str) -> ChannelDescriptor {
    ChannelDescriptor {
        channel_id,
        kind: ChannelKind::Analog,
        wire_format: WireFormat::I16,
        scale_bits: 0.1_f32.to_bits(),
        offset_bits: 0.0_f32.to_bits(),
        unit: "V".to_owned(),
        name: name.to_owned(),
    }
}

fn channels() -> ChannelTable {
    ChannelTable {
        revision: 7,
        channels: vec![
            channel(0, "Cpu1Input"),
            channel(1, "ClaResult"),
            channel(2, "Cpu2Result"),
            channel(3, "Cpu1Applied"),
        ],
    }
}

fn streams() -> StreamTable {
    StreamTable {
        revision: 4,
        streams: vec![
            StreamDescriptor {
                stream_id: 10,
                domain: SampleDomain::Fast32k,
                capture_phase: CapturePhase::AfterClaComplete,
                sample_rate_hz: 32_000,
                consistency_group: 1,
                channel_ids: vec![1],
            },
            StreamDescriptor {
                stream_id: 20,
                domain: SampleDomain::Control8k,
                capture_phase: CapturePhase::ControlCycleEnd,
                sample_rate_hz: 8_000,
                consistency_group: 1,
                channel_ids: vec![0, 3],
            },
            StreamDescriptor {
                stream_id: 30,
                domain: SampleDomain::Slow1k,
                capture_phase: CapturePhase::LogicTaskEnd,
                sample_rate_hz: 1_000,
                consistency_group: 1,
                channel_ids: vec![2],
            },
        ],
        bindings: vec![
            StreamChannelBinding {
                channel_id: 0,
                stream_id: 20,
                owner: SignalOwner::Cpu1,
                role: SignalRole::ControlInput,
            },
            StreamChannelBinding {
                channel_id: 1,
                stream_id: 10,
                owner: SignalOwner::Cpu1Cla1,
                role: SignalRole::ControlOutput,
            },
            StreamChannelBinding {
                channel_id: 2,
                stream_id: 30,
                owner: SignalOwner::Cpu2,
                role: SignalRole::State,
            },
            StreamChannelBinding {
                channel_id: 3,
                stream_id: 20,
                owner: SignalOwner::Cpu1,
                role: SignalRole::AppliedCommand,
            },
        ],
        causal_relations: vec![CausalRelation {
            input_stream_id: 20,
            result_stream_id: 30,
            application_stream_id: 20,
            result_input_offset: 0,
            application_result_offset: 1,
        }],
    }
}

fn rows(first: u64, count: usize) -> Vec<StreamRowMetadata> {
    (0..count)
        .map(|offset| StreamRowMetadata {
            row_sequence: first + offset as u64,
            logical_cycle_sequence: first + offset as u64,
            source_sequence: first + offset as u64,
            applied_sequence: first.saturating_add(offset as u64).saturating_sub(1),
            valid_flags: SNAPSHOT_VALID
                | VALID_FLAG_CLA_COMPLETE
                | VALID_FLAG_ADC_VALID
                | VALID_FLAG_DATA_FROZEN
                | VALID_FLAG_SOURCE_VALID
                | VALID_FLAG_APPLIED_VALID,
        })
        .collect()
}

fn stream_batch(
    stream_id: u16,
    channel_ids: Vec<u16>,
    sample_data: Vec<u8>,
    row_metadata: Vec<StreamRowMetadata>,
) -> StreamSampleBatch {
    let stream = streams().stream(stream_id).unwrap().clone();
    StreamSampleBatch {
        stream_id,
        stream_revision: 4,
        domain: stream.domain,
        capture_phase: stream.capture_phase,
        consistency_group: stream.consistency_group,
        first_row_sequence: row_metadata
            .first()
            .map(|row| row.row_sequence)
            .unwrap_or(0),
        sample_period_ticks: match stream.domain {
            SampleDomain::Fast32k => 31,
            SampleDomain::Control8k => 125,
            SampleDomain::Slow1k => 1_000,
        },
        row_count: u16::try_from(row_metadata.len()).unwrap(),
        channel_ids,
        sample_data,
        row_metadata,
    }
}

#[test]
fn stream_table_round_trips_with_cpu_and_causal_semantics() {
    let table = streams();
    let message = MessageV2::StreamTable(table.clone());
    let payload = message.encode_payload().unwrap();

    assert_eq!(MessageV2::decode(MSG_STREAM_TABLE, &payload).unwrap(), message);
    assert_eq!(table.bindings[2].owner, SignalOwner::Cpu2);
    assert_eq!(table.causal_relations[0].application_result_offset, 1);
}

#[test]
fn v2_manual_trigger_golden_frame_is_little_endian_and_version_isolated() {
    let frame = MessageV2::ManualTrigger(ManualTrigger {
        capture_id: 0xa1b2_c3d4,
    })
    .into_frame(0, 0x1122_3344, 0x5566_7788, 0x0102_0304_0506_0708)
    .unwrap();
    assert_eq!(
        frame.encode().unwrap(),
        vec![
            b'S', b'C', b'P', b'1', 2, 0x41, 0, 0, 0x44, 0x33, 0x22, 0x11, 4, 0, 0, 0, 0x88, 0x77,
            0x66, 0x55, 8, 7, 6, 5, 4, 3, 2, 1, 0xd4, 0xc3, 0xb2, 0xa1, 0x30, 0xc8, 0xde, 0xcb,
        ]
    );
}

#[test]
fn stream_descriptor_rejects_non_fixed_rate_or_phase() {
    let mut invalid_table = streams();
    invalid_table.streams[0].sample_rate_hz = 8_000;
    assert!(invalid_table.validate().is_err());

    let mut invalid_table = streams();
    invalid_table.streams[1].capture_phase = CapturePhase::LogicTaskEnd;
    assert!(invalid_table.validate().is_err());
}

#[test]
fn stream_table_requires_exact_descriptor_and_binding_sets() {
    let mut missing = streams();
    missing.bindings.retain(|binding| binding.channel_id != 3);
    assert!(missing.validate().is_err());

    let mut extra = streams();
    extra.bindings[0].stream_id = 10;
    assert!(extra.validate().is_err());

    let mut repeated_channel = streams();
    repeated_channel.streams[1].channel_ids.push(1);
    assert!(repeated_channel.validate().is_err());

    let mut contradictory = streams();
    contradictory.causal_relations.push(CausalRelation {
        input_stream_id: 10,
        result_stream_id: 30,
        application_stream_id: 20,
        result_input_offset: 1,
        application_result_offset: 1,
    });
    assert!(contradictory.validate().is_err());
}

#[test]
fn fixed_stream_period_requires_exact_integral_tick_division() {
    let table = streams();
    assert!(validate_stream_sample_period(32_000_000, table.stream(10).unwrap(), 1_000).is_ok());
    assert!(validate_stream_sample_period(32_000_000, table.stream(20).unwrap(), 4_000).is_ok());
    assert!(validate_stream_sample_period(32_000_000, table.stream(30).unwrap(), 32_000).is_ok());
    assert!(validate_stream_sample_period(32_000_000, table.stream(10).unwrap(), 0).is_err());
    assert!(validate_stream_sample_period(32_000_000, table.stream(10).unwrap(), 999).is_err());
    assert!(validate_stream_sample_period(1_000_000, table.stream(10).unwrap(), 31).is_err());
}

#[test]
fn configure_rejects_channels_from_another_stream() {
    let error = validate_configure_stream_for_device(
        &ConfigureStream {
            stream_id: 20,
            batch_samples: 16,
            channel_mask: (1 << 0) | (1 << 2),
        },
        &streams(),
        &channels(),
        128,
        1024,
    )
    .unwrap_err();

    assert!(error.message().contains("belongs to stream"));
}

#[test]
fn stream_batch_requires_one_metadata_row_per_sample() {
    let mut batch = stream_batch(
        20,
        vec![0],
        [10_i16.to_le_bytes(), 20_i16.to_le_bytes()].concat(),
        rows(100, 1),
    );
    batch.row_count = 2;

    assert!(MessageV2::StreamSampleBatch(batch).encode_payload().is_err());
}

#[test]
fn dsp_capture_messages_round_trip_with_frozen_data() {
    let arm = MessageV2::ArmCapture(ArmCapture {
        capture_id: 9,
        stream_id: 10,
        pretrigger_rows: 1_024,
        posttrigger_rows: 2_048,
        timeout_samples: 4_096,
        trigger: CaptureTrigger {
            kind: CaptureTriggerKind::FaultFlag,
            channel_id: 0,
            level_bits: 0.0_f32.to_bits(),
            edge: CaptureEdge::Rising,
            hysteresis_bits: 0.0_f32.to_bits(),
            flag_mask: 0x20,
            flag_value: 0x20,
        },
    });
    let payload = arm.encode_payload().unwrap();
    assert_eq!(MessageV2::decode(MSG_ARM_CAPTURE, &payload).unwrap(), arm);

    let data = MessageV2::CaptureData(CaptureData {
        capture_id: 9,
        block_index: 3,
        batch: stream_batch(10, vec![1], 10_i16.to_le_bytes().to_vec(), rows(88, 1)),
    });
    let payload = data.encode_payload().unwrap();
    assert_eq!(MessageV2::decode(MSG_CAPTURE_DATA, &payload).unwrap(), data);
}

#[test]
fn channel_descriptors_carry_binding_and_stream_semantics() {
    let descriptors = streams().channel_descriptors_v2(&channels()).unwrap();
    assert_eq!(descriptors.len(), 4);
    assert_eq!(descriptors[0].base.channel_id, 0);
    assert_eq!(descriptors[0].domain, SampleDomain::Control8k);
    assert_eq!(descriptors[1].owner, SignalOwner::Cpu1Cla1);
    assert_eq!(descriptors[1].capture_phase, CapturePhase::AfterClaComplete);
    assert_eq!(descriptors[3].role, SignalRole::AppliedCommand);

    let mut short = channels();
    short.channels.pop();
    assert!(matches!(
        streams().channel_descriptors_v2(&short),
        Err(ProtocolError::InvalidPayload(_))
    ));
}
