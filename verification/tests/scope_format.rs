use scope_live::scope_format::{encode_file_header, read_file_header, FILE_HEADER_LEN};
use scope_live::protocol::{crc32c, ChannelDescriptor, ChannelKind, ChannelTable, ProtocolError, WireFormat};
use scope_live::scope_format::{
    decode_gap, decode_index, decode_trigger_record, encode_gap, encode_index, encode_record,
    read_record, trigger_record_payload, validate_index_matches_records, GapReason, LiveGap,
    RecordRead, RecordingFormatError, RecordingMetadata, RecordingMetadataError, RecordingStats,
    SampleRecordIndex, RECORD_GAP,
};
use scope_live::trigger::{TriggerCapture, TriggerConfig, TriggerEdge, TriggerMode};

fn trigger_capture() -> TriggerCapture {
    TriggerCapture {
        channel_ids: vec![0],
        sample_indices: vec![10, 11, 12],
        timestamps: vec![1_000, 1_100, 1_200],
        channels: vec![vec![(-1.0_f32).to_bits(), 0.5_f32.to_bits(), 1.0_f32.to_bits()]],
        trigger_position: 1,
        auto_timeout: false,
    }
}

fn trigger_config() -> TriggerConfig {
    TriggerConfig {
        mode: TriggerMode::Single,
        edge: TriggerEdge::Rising,
        source_channel: 0,
        level_bits: 0.25_f32.to_bits(),
        hysteresis_bits: 0.1_f32.to_bits(),
        pre_samples: 1,
        post_samples: 1,
        auto_timeout_samples: 500,
    }
}

fn record(index: u64) -> SampleRecordIndex {
    SampleRecordIndex {
        payload_offset: 52 + index * 100,
        payload_len: 80,
        first_sample_index: index * 10,
        timestamp_ticks: 1_000 + index,
        sample_period_ticks: 100,
        sample_count: 10,
    }
}

#[test]
fn records_are_framed_and_read_back_with_their_crc() {
    let payload = [1_u8, 2, 3];
    let bytes = encode_record(RECORD_GAP, 77, &payload).unwrap();
    assert_eq!(&bytes[..4], b"REC1");
    assert_eq!(bytes.len(), 4 + 16 + 3 + 4);
    let crc = u32::from_le_bytes(bytes[23..27].try_into().unwrap());
    assert_eq!(crc, crc32c(&bytes[4..23]));
    let mut file = vec![9_u8; 5];
    file.extend_from_slice(&bytes);
    assert_eq!(
        read_record(&file, 5),
        Ok(RecordRead::Record {
            record_type: RECORD_GAP,
            timestamp_ticks: 77,
            payload_start: 25,
            payload_len: 3,
            next: 32,
        })
    );
    assert_eq!(read_record(&file, 32), Ok(RecordRead::End));
    assert_eq!(read_record(&file[..30], 5), Ok(RecordRead::TruncatedTail));

    let mut corrupt = file.clone();
    corrupt[26] ^= 1;
    assert_eq!(
        read_record(&corrupt, 5),
        Err(RecordingFormatError::RecordCrcMismatch(5))
    );
    assert_eq!(
        read_record(&file, 0),
        Err(RecordingFormatError::InvalidRecordMagic(0))
    );
    assert_eq!(
        RecordingFormatError::RecordCrcMismatch(5).message(),
        "record CRC mismatch at offset 5"
    );
}

#[test]
fn oversized_record_payloads_are_refused() {
    let payload = vec![0_u8; 16 * 1024 * 1024 + 1];
    assert_eq!(
        encode_record(1, 0, &payload),
        Err(RecordingFormatError::RecordTooLarge(16 * 1024 * 1024 + 1))
    );
}

#[test]
fn gap_records_round_trip_and_reject_bad_payloads() {
    let gap = LiveGap {
        start_sample_index: 40,
        missing_samples: 3,
        reason: GapReason::HostBackpressure,
    };
    let payload = encode_gap(gap);
    assert_eq!(payload.len(), 17);
    assert_eq!(payload[16], 3);
    assert_eq!(decode_gap(&payload), Ok(gap));
    assert_eq!(decode_gap(&payload[..16]), Err(RecordingFormatError::GapRecordLength));
    let mut zero = payload.clone();
    zero[8..16].copy_from_slice(&0_u64.to_le_bytes());
    assert_eq!(decode_gap(&zero), Err(RecordingFormatError::ZeroMissingSamples));
    let mut unknown = payload;
    unknown[16] = 9;
    assert_eq!(
        decode_gap(&unknown),
        Err(RecordingFormatError::UnknownGapReason(9))
    );
}

#[test]
fn trigger_records_persist_the_complete_configuration() {
    let (timestamp, payload) = trigger_record_payload(&trigger_capture(), &trigger_config()).unwrap();
    assert_eq!(timestamp, 1_100);
    assert_eq!(payload.len(), 48);
    let decoded = decode_trigger_record(timestamp, &payload).unwrap();
    assert_eq!(decoded.trigger_sample_index, 11);
    assert_eq!(decoded.config, trigger_config());
    assert!(!decoded.auto_timeout);

    let mut capture = trigger_capture();
    capture.auto_timeout = true;
    assert_eq!(
        trigger_record_payload(&capture, &trigger_config()),
        Err(RecordingFormatError::AutoTimeoutCaptureOutsideAutoMode)
    );
    let mut capture = trigger_capture();
    capture.trigger_position = 3;
    assert_eq!(
        trigger_record_payload(&capture, &trigger_config()),
        Err(RecordingFormatError::TriggerPositionOutOfRange)
    );
    let mut config = trigger_config();
    config.source_channel = 4;
    assert_eq!(
        trigger_record_payload(&trigger_capture(), &config),
        Err(RecordingFormatError::TriggerSourceAbsent)
    );

    let mut bad_mode = payload.clone();
    bad_mode[1] = 7;
    assert_eq!(
        decode_trigger_record(0, &bad_mode),
        Err(RecordingFormatError::UnknownTriggerMode(7))
    );
    let mut flagged = payload;
    flagged[3] = 1;
    assert_eq!(
        decode_trigger_record(0, &flagged),
        Err(RecordingFormatError::AutoTimeoutRecordOutsideAutoMode)
    );
}

#[test]
fn index_records_round_trip_and_must_match_the_sample_records() {
    let records = vec![record(0), record(1), record(2)];
    let payload = encode_index(&records).unwrap();
    assert_eq!(payload.len(), 4 + 3 * 24);
    let entries = decode_index(&payload).unwrap();
    assert_eq!(entries.len(), 3);
    assert_eq!(entries[2].first_sample_index, 20);
    assert_eq!(entries[2].payload_offset, 252);
    assert_eq!(validate_index_matches_records(&entries, &records), Ok(()));
    assert_eq!(
        validate_index_matches_records(&entries[..2], &records),
        Err(RecordingFormatError::IndexCountMismatch)
    );
    let mut moved = records.clone();
    moved[1].payload_offset += 1;
    assert_eq!(
        validate_index_matches_records(&entries, &moved),
        Err(RecordingFormatError::IndexEntryMismatch)
    );
    assert_eq!(
        decode_index(&payload[..3]),
        Err(RecordingFormatError::TruncatedIndex)
    );
    assert_eq!(
        decode_index(&payload[..10]),
        Err(RecordingFormatError::IndexRecordLengthMismatch)
    );
}

#[test]
fn last_timestamp_counts_the_periods_between_first_and_last_sample() {
    assert_eq!(record(0).last_timestamp_ticks(), Ok(1_000 + 9 * 100));
    let mut late = record(0);
    late.timestamp_ticks = u64::MAX - 10;
    assert_eq!(
        late.last_timestamp_ticks(),
        Err(RecordingFormatError::TimestampOverflow)
    );
}

fn metadata() -> RecordingMetadata {
    let channel = |channel_id: u16| ChannelDescriptor {
        channel_id,
        kind: ChannelKind::Analog,
        wire_format: WireFormat::I16,
        scale_bits: 1.0_f32.to_bits(),
        offset_bits: 0.0_f32.to_bits(),
        unit: String::new(),
        name: format!("CH{channel_id}"),
    };
    RecordingMetadata {
        device_id: "dev".to_owned(),
        firmware_name: "fw".to_owned(),
        tick_hz: 1_000_000,
        channel_table: ChannelTable { revision: 1, channels: vec![channel(0), channel(5)] },
        sample_rate_hz: 1000,
        batch_samples: 10,
        channel_mask: 1 << 5,
        client_version: "test".to_owned(),
        presented_channels: vec![5],
    }
}

#[test]
fn recording_metadata_accepts_a_selected_presented_channel() {
    assert_eq!(metadata().validate(), Ok(()));
}

#[test]
fn recording_metadata_refuses_each_inconsistency_in_order() {
    let mut m = metadata();
    m.tick_hz = 0;
    m.sample_rate_hz = 0;
    assert_eq!(m.validate(), Err(RecordingMetadataError::TickRateZero));

    let mut m = metadata();
    m.batch_samples = 0;
    assert_eq!(m.validate(), Err(RecordingMetadataError::AcquisitionParametersZero));

    let mut m = metadata();
    m.channel_table.channels[1].channel_id = 0;
    assert!(matches!(
        m.validate(),
        Err(RecordingMetadataError::ChannelTable(ProtocolError::InvalidPayload(_)))
    ));

    let mut m = metadata();
    m.presented_channels = vec![0];
    let error = m.validate().unwrap_err();
    assert_eq!(error, RecordingMetadataError::PresentationOutsideSelection);
    assert!(error.message().contains("presentations"));

    let mut m = metadata();
    m.presented_channels = vec![7];
    assert_eq!(m.validate(), Err(RecordingMetadataError::PresentationOutsideSelection));

    let mut m = metadata();
    m.presented_channels.clear();
    m.channel_mask = 1 << 9;
    assert_eq!(m.validate(), Err(RecordingMetadataError::MaskSelectsNoChannel));
}

#[test]
fn recording_stats_start_at_zero() {
    let stats = RecordingStats::default();
    assert_eq!(
        stats,
        RecordingStats { written_records: 0, sample_frames: 0, gap_records: 0, trigger_records: 0 }
    );
}

#[test]
fn file_header_round_trips_and_refuses_foreign_bytes() {
    let mut bytes = encode_file_header(100, 0x1122_3344_5566_7788).unwrap();
    assert_eq!(bytes.len(), FILE_HEADER_LEN);
    assert_eq!(&bytes[..8], b"SCOPEV1\0");
    assert_eq!(&bytes[8..16], &[1, 0, 32, 0, 100, 0, 0, 0]);
    assert_eq!(&bytes[16..24], &0x1122_3344_5566_7788_u64.to_le_bytes());
    bytes.extend_from_slice(b"{}");
    assert_eq!(read_file_header(&bytes), Ok(100));
    assert_eq!(read_file_header(&bytes[..31]), Err(RecordingFormatError::TruncatedFileHeader));
    let mut foreign = bytes.clone();
    foreign[6] = b'2';
    assert_eq!(read_file_header(&foreign), Err(RecordingFormatError::InvalidFileMagic));
    let mut newer = bytes.clone();
    newer[8] = 2;
    assert_eq!(read_file_header(&newer), Err(RecordingFormatError::UnsupportedFileHeader));
    let mut flagged = bytes.clone();
    flagged[24] = 1;
    assert_eq!(read_file_header(&flagged), Err(RecordingFormatError::UnsupportedFileHeader));
    let mut large = bytes.clone();
    large[12..16].copy_from_slice(&(2_u32 * 1024 * 1024).to_le_bytes());
    assert_eq!(read_file_header(&large), Err(RecordingFormatError::MetadataTooLarge(2 * 1024 * 1024)));
    assert_eq!(
        RecordingFormatError::MetadataTooLarge(2 * 1024 * 1024).message(),
        "metadata length 2097152 exceeds 1048576"
    );
    assert_eq!(
        encode_file_header(1024 * 1024 + 1, 0),
        Err(RecordingFormatError::MetadataTooLarge(1024 * 1024 + 1))
    );
}
