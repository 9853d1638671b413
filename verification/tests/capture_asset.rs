use scope_live::capture_asset::{capture_asset, CaptureAssetError};
use scope_live::protocol::{ChannelDescriptor, ChannelKind, ChannelTable, WireFormat};
use scope_live::trigger::TriggerCapture;

fn source() -> ChannelTable {
    ChannelTable {
        revision: 0,
        channels: vec![
            ChannelDescriptor {
                channel_id: 1,
                kind: ChannelKind::Analog,
                wire_format: WireFormat::I16,
                scale_bits: 0.5f32.to_bits(),
                offset_bits: 0,
                unit: "V".to_owned(),
                name: "Bus".to_owned(),
            },
            ChannelDescriptor {
                channel_id: 3,
                kind: ChannelKind::Digital,
                wire_format: WireFormat::U8,
                scale_bits: 1.0f32.to_bits(),
                offset_bits: 0,
                unit: String::new(),
                name: "Run".to_owned(),
            },
        ],
    }
}

fn capture(rows: usize) -> TriggerCapture {
    TriggerCapture {
        channel_ids: vec![3, 1],
        sample_indices: (0..rows as u64).map(|i| 100 + i).collect(),
        timestamps: (0..rows as u64).map(|i| 1000 + 25 * i).collect(),
        channels: vec![
            (0..rows).map(|i| (i as f32).to_bits()).collect(),
            (0..rows).map(|i| (-(i as f32)).to_bits()).collect(),
        ],
        trigger_position: 0,
        auto_timeout: false,
    }
}

#[test]
fn capture_asset_builds_f32_table_mask_and_batches() {
    let asset = capture_asset(&capture(5000), &source(), 32_000_000, 8000, "1.2", &vec![1, 7]).unwrap();
    let m = &asset.metadata;
    assert_eq!(m.device_id, "scope-capture-asset");
    assert_eq!(m.firmware_name, "Scope Analyzer");
    assert_eq!(m.channel_table.revision, 1);
    assert_eq!(m.channel_table.channels[0].channel_id, 3);
    assert_eq!(m.channel_table.channels[0].kind, ChannelKind::Digital);
    assert_eq!(m.channel_table.channels[1].wire_format, WireFormat::F32);
    assert_eq!(m.channel_table.channels[1].scale_bits, 1.0f32.to_bits());
    assert_eq!(m.channel_table.channels[1].name, "Bus");
    assert_eq!(m.channel_mask, 0b1010);
    assert_eq!(m.batch_samples, 4096);
    assert_eq!(m.presented_channels, vec![1]);
    assert_eq!(asset.sample_period_ticks, 25);
    assert_eq!(asset.chunks.len(), 2);
    assert_eq!(asset.chunks[0].sequence, 1);
    assert_eq!(asset.chunks[0].sample_count, 4096);
    assert_eq!(asset.chunks[1].sequence, 2);
    assert_eq!(asset.chunks[1].sample_count, 904);
    assert_eq!(asset.chunks[1].first_sample_index, 100 + 4096);
    assert_eq!(asset.chunks[1].timestamp_ticks, 1000 + 25 * 4096);
    let first_row: Vec<u8> = [0.0f32, -0.0f32].iter().flat_map(|v| v.to_le_bytes()).collect();
    assert_eq!(&asset.chunks[0].sample_data[..8], &first_row[..]);
    assert_eq!(asset.chunks[0].sample_data.len(), 4096 * 8);
}

#[test]
fn capture_asset_refuses_bad_captures_and_falls_back_to_the_nominal_period() {
    let mut empty = capture(0);
    empty.channels = vec![vec![], vec![]];
    assert!(matches!(
        capture_asset(&empty, &source(), 1, 1, "", &vec![]),
        Err(CaptureAssetError::UnalignedColumns)
    ));
    let mut missing = capture(3);
    missing.channel_ids = vec![3, 9];
    assert!(matches!(
        capture_asset(&missing, &source(), 1, 1, "", &vec![]),
        Err(CaptureAssetError::ChannelAbsent(9))
    ));
    let single = capture(1);
    let asset = capture_asset(&single, &source(), 32_000_000, 8000, "", &vec![]).unwrap();
    assert_eq!(asset.sample_period_ticks, 4000);
    assert_eq!(asset.chunks.len(), 1);
}
