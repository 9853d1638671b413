use scope_live::session::SessionStats;
use scope_live::smoke::{
    ensure_clean_v2_r2, r2_subscription_payload_len, LinkBudgetR2Error, RunFault, StreamTally,
};
use scope_live::protocol_v2_r2::StreamSubscriptionR2;
use scope_live::machine_profile::{MachineProfile, ProfileCausalGroup, ProfileChannel, ProfileStream};
use scope_live::protocol::{ChannelDescriptor, ChannelKind, ChannelTable, WireFormat};
use scope_live::protocol_v2::{CapturePhase, SampleDomain};
use scope_live::protocol_v2_r2::{StreamDescriptorR2, StreamTableR2};
use scope_live::smoke::{
    select_r2_subscriptions, smoke_r2_plan, ChannelSet, HardwareSmokeConfig, HardwareSmokeMode,
    SmokeConfigError, SmokeContractError, SubscriptionError,
};

#[test]
fn smoke_modes_parse_from_their_names() {
    for mode in [
        HardwareSmokeMode::Handshake,
        HardwareSmokeMode::Ctrl8k,
        HardwareSmokeMode::Multistream,
        HardwareSmokeMode::LinkStress,
    ] {
        assert_eq!(HardwareSmokeMode::parse(mode.name()), Some(mode));
    }
    assert_eq!(HardwareSmokeMode::LinkStress.name(), "link-stress");
    assert_eq!(HardwareSmokeMode::parse("link_stress"), None);
    assert_eq!(HardwareSmokeMode::parse(""), None);
}

#[test]
fn channel_sets_parse_from_their_names_and_default_to_required() {
    assert_eq!(ChannelSet::default(), ChannelSet::Required);
    assert_eq!(ChannelSet::parse("required"), Some(ChannelSet::Required));
    assert_eq!(ChannelSet::parse("all"), Some(ChannelSet::All));
    assert_eq!(ChannelSet::All.name(), "all");
    assert_eq!(ChannelSet::parse("All"), None);
}

fn subscription_profile() -> MachineProfile {
    let names = |list: &[&str]| list.iter().map(|n| (*n).to_owned()).collect::<Vec<String>>();
    let channel = |name: &str, format: &str| ProfileChannel {
        name: name.to_owned(),
        wire_format: format.to_owned(),
        scale_bits: 1.0_f32.to_bits(),
        unit: String::new(),
    };
    MachineProfile {
        profile_version: 1,
        profile_name: "bench".to_owned(),
        protocol: "scp1-v2-r2".to_owned(),
        protocol_revision: 2,
        stream_table_revision: 3,
        required_capabilities: Vec::new(),
        causal_groups: vec![ProfileCausalGroup { consistency_group: 1, logical_cycle_rate_hz: 32_000 }],
        streams: vec![
            ProfileStream {
                name: "ctrl".to_owned(),
                required: true,
                domain: "CTRL8K".to_owned(),
                rate_hz: 8_000,
                logical_cycle_step: 4,
                consistency_group: 1,
                required_channels: names(&["Ia", "Ib"]),
                optional_channels: names(&["SampleValid"]),
            },
            ProfileStream {
                name: "slow".to_owned(),
                required: true,
                domain: "SLOW1K".to_owned(),
                rate_hz: 1_000,
                logical_cycle_step: 32,
                consistency_group: 1,
                required_channels: Vec::new(),
                optional_channels: names(&["Missing", "RunState"]),
            },
        ],
        channels: vec![
            channel("Ia", "I16"),
            channel("Ib", "I16"),
            channel("SampleValid", "U8"),
            channel("RunState", "U8"),
            channel("Missing", "U8"),
        ],
    }
}

fn subscription_tables() -> (ChannelTable, StreamTableR2) {
    let descriptor = |channel_id: u16, name: &str, wire_format: WireFormat| ChannelDescriptor {
        channel_id,
        kind: ChannelKind::Analog,
        wire_format,
        scale_bits: 1.0_f32.to_bits(),
        offset_bits: 0,
        unit: String::new(),
        name: name.to_owned(),
    };
    let channels = ChannelTable {
        revision: 1,
        channels: vec![
            descriptor(0, "Ia", WireFormat::I16),
            descriptor(1, "Ib", WireFormat::I16),
            descriptor(4, "SampleValid", WireFormat::U8),
            descriptor(5, "RunState", WireFormat::U8),
        ],
    };
    let stream = |stream_id: u16, domain: SampleDomain, channel_ids: Vec<u16>| StreamDescriptorR2 {
        stream_id,
        domain,
        capture_phase: CapturePhase::ControlCycleEnd,
        sample_rate_hz: 8_000,
        consistency_group: 1,
        logical_cycle_step: 4,
        channel_ids,
    };
    let streams = StreamTableR2 {
        revision: 3,
        causal_groups: Vec::new(),
        streams: vec![
            stream(2, SampleDomain::Control8k, vec![0, 1, 4]),
            stream(3, SampleDomain::Slow1k, vec![5]),
        ],
        bindings: Vec::new(),
        causal_relations: Vec::new(),
    };
    (channels, streams)
}

#[test]
fn subscriptions_follow_mode_channel_set_and_shared_clock() {
    let profile = subscription_profile();
    let (channels, streams) = subscription_tables();
    let subs = select_r2_subscriptions(
        HardwareSmokeMode::Multistream,
        ChannelSet::Required,
        13,
        4096,
        &profile,
        &channels,
        &streams,
    )
    .unwrap();
    assert_eq!(subs.len(), 2);
    assert_eq!(subs[0].stream_id, 2);
    assert_eq!(subs[0].channel_mask, 0b11);
    assert_eq!(subs[0].batch_samples, 16);
    assert_eq!(subs[1].stream_id, 3);
    assert_eq!(subs[1].channel_mask, 1 << 5);
    assert_eq!(subs[1].batch_samples, 2);

    let all = select_r2_subscriptions(
        HardwareSmokeMode::Ctrl8k,
        ChannelSet::All,
        13,
        10,
        &profile,
        &channels,
        &streams,
    )
    .unwrap();
    assert_eq!(all.len(), 1);
    assert_eq!(all[0].channel_mask, 0b1_0011);
    assert_eq!(all[0].batch_samples, 10);

    let none = select_r2_subscriptions(
        HardwareSmokeMode::Handshake,
        ChannelSet::All,
        13,
        10,
        &profile,
        &channels,
        &streams,
    )
    .unwrap();
    assert!(none.is_empty());
}

#[test]
fn subscriptions_report_missing_streams_contracts_and_channels() {
    let profile = subscription_profile();
    let (channels, mut streams) = subscription_tables();
    streams.streams.remove(1);
    let error = select_r2_subscriptions(
        HardwareSmokeMode::LinkStress,
        ChannelSet::Required,
        16,
        4096,
        &profile,
        &channels,
        &streams,
    )
    .unwrap_err();
    assert_eq!(error, SubscriptionError::MissingStream(SampleDomain::Slow1k));
    assert_eq!(error.code(), "profile_missing_stream");
    assert_eq!(error.message(), "missing SLOW1K stream");

    let (channels, mut streams) = subscription_tables();
    streams.streams[0].channel_ids = vec![4];
    let error = select_r2_subscriptions(
        HardwareSmokeMode::Ctrl8k,
        ChannelSet::Required,
        16,
        4096,
        &profile,
        &channels,
        &streams,
    )
    .unwrap_err();
    assert_eq!(error, SubscriptionError::NoSelectableChannels(2));
    assert_eq!(error.message(), "2 has no selectable profile channels");

    let mut profile = subscription_profile();
    profile.streams.remove(0);
    let (channels, streams) = subscription_tables();
    let error = select_r2_subscriptions(
        HardwareSmokeMode::Ctrl8k,
        ChannelSet::Required,
        16,
        4096,
        &profile,
        &channels,
        &streams,
    )
    .unwrap_err();
    assert_eq!(error, SubscriptionError::NoProfileContract(SampleDomain::Control8k));
}

#[test]
fn smoke_plan_checks_capabilities_session_and_tables_before_subscribing() {
    let profile = subscription_profile();
    let (channels, streams) = subscription_tables();
    let plan = |caps: u32, session: u32| {
        smoke_r2_plan(
            HardwareSmokeMode::Multistream,
            ChannelSet::Required,
            13,
            caps,
            session,
            4096,
            &profile,
            &channels,
            &streams,
            Ok(()),
        )
    };
    assert_eq!(plan(16 | 32, 7).unwrap_err(), SmokeContractError::CapabilityMismatch(48));
    assert_eq!(plan(16 | 32 | 64, 0).unwrap_err(), SmokeContractError::SessionIdZero);
    // The subscription fixture's stream table carries no causal groups, so
    // it is refused against the channel table before any subscription.
    assert_eq!(plan(16 | 32 | 64, 7).unwrap_err(), SmokeContractError::StreamTableInvalid);
}

#[test]
fn smoke_config_refuses_each_bad_setting_in_order() {
    let good = HardwareSmokeConfig {
        transport_error: None,
        output: "out.json".to_owned(),
        duration_nanos: 1_000_000_000,
        sample_rate_hz: Some(1000),
        batch_samples: None,
        channel_count: 4,
    };
    assert_eq!(good.validate(), Ok(()));
    let mut c = good.clone();
    c.output = String::new();
    c.channel_count = 0;
    assert_eq!(c.validate(), Err(SmokeConfigError::EmptyOutputPath));
    let mut c = good.clone();
    c.duration_nanos = 60_000_000_001;
    assert_eq!(c.validate(), Err(SmokeConfigError::DurationOutOfRange));
    let mut c = good.clone();
    c.sample_rate_hz = Some(0);
    assert_eq!(c.validate(), Err(SmokeConfigError::ZeroSampleRate));
    let mut c = good.clone();
    c.batch_samples = Some(0);
    assert_eq!(c.validate(), Err(SmokeConfigError::ZeroBatchSamples));
    let mut c = good.clone();
    c.channel_count = 65;
    assert_eq!(c.validate(), Err(SmokeConfigError::ChannelCountOutOfRange));
    assert_eq!(SmokeConfigError::ChannelCountOutOfRange.message(), "channel count must be within 1..=64");
    let mut c = good.clone();
    c.transport_error = Some("serial port path must not be empty".to_owned());
    c.output = String::new();
    let e = c.validate().unwrap_err();
    assert_eq!(e, SmokeConfigError::InvalidTransport("serial port path must not be empty".to_owned()));
    assert_eq!(e.message(), "serial port path must not be empty");
}

#[test]
fn finished_r2_runs_are_judged_clean_or_by_their_first_fault() {
    let mut stats = SessionStats::default();
    let streams = [
        StreamTally { stream_id: 1, received_batches: 4, received_rows: 400, minimum_rows: 380 },
        StreamTally { stream_id: 2, received_batches: 3, received_rows: 300, minimum_rows: 350 },
    ];
    // A handshake run checks only the link and protocol counters.
    assert_eq!(ensure_clean_v2_r2(HardwareSmokeMode::Handshake, &stats, &streams), Ok(()));
    assert_eq!(
        ensure_clean_v2_r2(HardwareSmokeMode::Ctrl8k, &stats, &streams),
        Err(RunFault::NoSampleBatches)
    );
    stats.received_batches = 7;
    assert_eq!(ensure_clean_v2_r2(HardwareSmokeMode::Multistream, &stats, &streams), Ok(()));
    let e = ensure_clean_v2_r2(HardwareSmokeMode::LinkStress, &stats, &streams).unwrap_err();
    assert_eq!(
        e,
        RunFault::StreamThroughputBelowMinimum { stream_id: 2, received_rows: 300, minimum_rows: 350 }
    );
    assert_eq!(e.code(), "stream_throughput_below_minimum");
    let empty = [StreamTally { stream_id: 3, received_batches: 0, received_rows: 0, minimum_rows: 0 }];
    assert_eq!(
        ensure_clean_v2_r2(HardwareSmokeMode::Multistream, &stats, &empty),
        Err(RunFault::StreamNoData { stream_id: 3, received_batches: 0, received_rows: 0 })
    );
    stats.host_dropped_v2_rows = 5;
    assert_eq!(ensure_clean_v2_r2(HardwareSmokeMode::Multistream, &stats, &streams), Err(RunFault::HostDrop(5)));
    assert_eq!(ensure_clean_v2_r2(HardwareSmokeMode::Handshake, &stats, &streams), Ok(()));
    stats.crc_errors = 2;
    let e = ensure_clean_v2_r2(HardwareSmokeMode::Handshake, &stats, &streams).unwrap_err();
    assert_eq!(e, RunFault::CrcError(2));
    assert_eq!(e.code(), "crc_error");
}

#[test]
fn subscription_payload_counts_selected_channels_rows_and_metadata() {
    let (channels, mut streams) = subscription_tables();
    // Channels 0 (two bytes) and 4 (one byte) of stream 2, ten rows: the
    // fixed head, two channel ids, thirty sample bytes and the affine
    // metadata block.
    let sub = StreamSubscriptionR2 { stream_id: 2, batch_samples: 10, channel_mask: 0b1_0001 };
    assert_eq!(r2_subscription_payload_len(&sub, &streams, &channels), Ok(36 + 4 + 30 + 48));
    let sub = StreamSubscriptionR2 { stream_id: 9, batch_samples: 10, channel_mask: 1 };
    assert_eq!(
        r2_subscription_payload_len(&sub, &streams, &channels),
        Err(LinkBudgetR2Error::UnknownStream(9))
    );
    streams.streams.push(StreamDescriptorR2 {
        stream_id: 4,
        domain: SampleDomain::Slow1k,
        capture_phase: CapturePhase::ControlCycleEnd,
        sample_rate_hz: 1_000,
        consistency_group: 1,
        logical_cycle_step: 8,
        channel_ids: vec![5, 7],
    });
    let sub = StreamSubscriptionR2 { stream_id: 4, batch_samples: 2, channel_mask: 1 << 7 | 1 << 5 };
    assert_eq!(
        r2_subscription_payload_len(&sub, &streams, &channels),
        Err(LinkBudgetR2Error::UnknownChannel(7))
    );
    let sub = StreamSubscriptionR2 { stream_id: 4, batch_samples: 2, channel_mask: 1 << 5 };
    assert_eq!(r2_subscription_payload_len(&sub, &streams, &channels), Ok(36 + 2 + 2 + 48));
}
