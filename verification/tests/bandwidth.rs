use scope_live::bandwidth::{
    bytes_per_sample, link_frame_sizes, selected_channels, validate_link_budget_request,
    LinkBudgetError, LinkBudgetTransport,
};
use scope_live::protocol::{ChannelDescriptor, ChannelKind, ChannelTable, Configure, WireFormat};

fn descriptor(channel_id: u16, name: &str, wire_format: WireFormat) -> ChannelDescriptor {
    ChannelDescriptor {
        channel_id,
        kind: if wire_format == WireFormat::U8 {
            ChannelKind::Digital
        } else {
            ChannelKind::Analog
        },
        wire_format,
        scale_bits: 1.0_f32.to_bits(),
        offset_bits: 0.0_f32.to_bits(),
        unit: String::new(),
        name: name.to_owned(),
    }
}

fn table() -> ChannelTable {
    ChannelTable {
        revision: 1,
        channels: vec![
            descriptor(0, "I16", WireFormat::I16),
            descriptor(1, "F32", WireFormat::F32),
            descriptor(2, "U8", WireFormat::U8),
        ],
    }
}

#[test]
fn selected_channels_size_the_sample_batch_payload() {
    let configure = Configure {
        sample_rate_hz: 1_000,
        batch_samples: 10,
        channel_mask: 0b111,
    };
    let transport = LinkBudgetTransport::Serial { baud: 115_200 };
    validate_link_budget_request(&table(), &configure, transport).unwrap();
    let selected = selected_channels(&table(), configure.channel_mask);
    assert_eq!(selected.len(), 3);
    assert_eq!(selected[1].name, "F32");
    let bytes = bytes_per_sample(&selected).unwrap();
    assert_eq!(bytes, 7);
    let sizes = link_frame_sizes(selected.len(), bytes, 10).unwrap();
    assert_eq!(sizes.sample_data_bytes, 70);
    assert_eq!(sizes.payload_bytes, 20 + 3 * 2 + 70);
    assert_eq!(sizes.frame_bytes, 28 + 96 + 4);
}

#[test]
fn mask_selects_only_its_channels_in_table_order() {
    let selected = selected_channels(&table(), 0b101);
    let ids: Vec<u16> = selected.iter().map(|c| c.channel_id).collect();
    assert_eq!(ids, vec![0, 2]);
    assert_eq!(bytes_per_sample(&selected).unwrap(), 3);
}

#[test]
fn budget_requests_are_refused_by_their_first_broken_rule() {
    let serial = LinkBudgetTransport::Serial { baud: 115_200 };
    let good = Configure {
        sample_rate_hz: 1_000,
        batch_samples: 1,
        channel_mask: 0b001,
    };
    let mut c = good;
    c.sample_rate_hz = 0;
    assert_eq!(
        validate_link_budget_request(&table(), &c, serial),
        Err(LinkBudgetError::ZeroSampleRate)
    );
    let mut c = good;
    c.batch_samples = 4_097;
    assert_eq!(
        validate_link_budget_request(&table(), &c, serial),
        Err(LinkBudgetError::InvalidBatchSamples)
    );
    let mut c = good;
    c.channel_mask = 0;
    assert_eq!(
        validate_link_budget_request(&table(), &c, serial),
        Err(LinkBudgetError::EmptyChannelMask)
    );
    let mut c = good;
    c.channel_mask = 0b1000;
    assert_eq!(
        validate_link_budget_request(&table(), &c, serial),
        Err(LinkBudgetError::UnknownChannel)
    );
    assert_eq!(
        validate_link_budget_request(&table(), &good, LinkBudgetTransport::Serial { baud: 0 }),
        Err(LinkBudgetError::ZeroBaud)
    );
    assert_eq!(
        validate_link_budget_request(
            &table(),
            &good,
            LinkBudgetTransport::Tcp {
                expected_bits_per_second: None
            }
        ),
        Ok(())
    );
}

#[test]
fn oversized_frames_report_overflow() {
    assert_eq!(
        link_frame_sizes(1, usize::MAX, 2),
        Err(LinkBudgetError::Overflow)
    );
    assert!(LinkBudgetError::Overflow.message().contains("overflow"));
}
