use scope_live::machine_profile::{
    MachineProfile, ProfileCausalGroup, ProfileChannel, ProfileError, ProfileInvalid, ProfileStream,
    ScaleCheck,
};
use scope_live::protocol::{ChannelDescriptor, ChannelKind, ChannelTable, WireFormat};
use scope_live::protocol_v2::{CapturePhase, SampleDomain, SignalOwner, SignalRole, StreamChannelBinding};
use scope_live::protocol_v2_r2::{
    CausalGroupDescriptorR2, StreamDescriptorR2, StreamTableR2, CAPABILITY_V2_COMPRESSED_METADATA,
    CAPABILITY_V2_MULTI_STREAM, CAPABILITY_V2_STREAMS_R2,
};

const ALL_CAPABILITIES: u32 =
    CAPABILITY_V2_STREAMS_R2 | CAPABILITY_V2_MULTI_STREAM | CAPABILITY_V2_COMPRESSED_METADATA;

fn names(list: &[&str]) -> Vec<String> {
    list.iter().map(|name| (*name).to_owned()).collect()
}

fn profile_channel(name: &str, format: &str, scale: f32, unit: &str) -> ProfileChannel {
    ProfileChannel {
        name: name.to_owned(),
        wire_format: format.to_owned(),
        scale_bits: scale.to_bits(),
        unit: unit.to_owned(),
    }
}

fn profile() -> MachineProfile {
    MachineProfile {
        profile_version: 1,
        profile_name: "bench".to_owned(),
        protocol: "scp1-v2-r2".to_owned(),
        protocol_revision: 2,
        stream_table_revision: 3,
        required_capabilities: names(&[
            "CAPABILITY_V2_STREAMS_R2",
            "CAPABILITY_V2_MULTI_STREAM",
            "CAPABILITY_V2_COMPRESSED_METADATA",
        ]),
        causal_groups: vec![ProfileCausalGroup { consistency_group: 1, logical_cycle_rate_hz: 32_000 }],
        streams: vec![
            ProfileStream {
                name: "ctrl".to_owned(),
                required: true,
                domain: "CTRL8K".to_owned(),
                rate_hz: 8_000,
                logical_cycle_step: 4,
                consistency_group: 1,
                required_channels: names(&["Ia", "Ib", "Ic", "Vdc"]),
                optional_channels: names(&["SampleValid"]),
            },
            ProfileStream {
                name: "slow".to_owned(),
                required: true,
                domain: "SLOW1K".to_owned(),
                rate_hz: 1_000,
                logical_cycle_step: 32,
                consistency_group: 1,
                required_channels: Vec::new(),
                optional_channels: names(&["RunState"]),
            },
        ],
        channels: vec![
            profile_channel("Ia", "I16", 0.01, "A"),
            profile_channel("Ib", "I16", 0.01, "A"),
            profile_channel("Ic", "I16", 0.01, "A"),
            profile_channel("Vdc", "I16", 0.1, "V"),
            profile_channel("SampleValid", "U8", 1.0, ""),
            profile_channel("RunState", "U8", 1.0, ""),
        ],
    }
}

fn channel(id: u16, name: &str, unit: &str, format: WireFormat, scale: f32) -> ChannelDescriptor {
    ChannelDescriptor {
        channel_id: id,
        kind: ChannelKind::Analog,
        wire_format: format,
        scale_bits: scale.to_bits(),
        offset_bits: 0.0_f32.to_bits(),
        unit: unit.to_owned(),
        name: name.to_owned(),
    }
}

fn stream(id: u16, domain: SampleDomain, rate: u32, step: u32, channel_ids: Vec<u16>) -> StreamDescriptorR2 {
    StreamDescriptorR2 {
        stream_id: id,
        domain,
        capture_phase: match domain {
            SampleDomain::Fast32k => CapturePhase::AfterClaComplete,
            SampleDomain::Control8k => CapturePhase::ControlCycleEnd,
            SampleDomain::Slow1k => CapturePhase::LogicTaskEnd,
        },
        sample_rate_hz: rate,
        consistency_group: 1,
        logical_cycle_step: step,
        channel_ids,
    }
}

fn compatible_tables() -> (ChannelTable, StreamTableR2) {
    let channels = ChannelTable {
        revision: 1,
        channels: vec![
            channel(0, "Ia", "A", WireFormat::I16, 0.01),
            channel(1, "Ib", "A", WireFormat::I16, 0.01),
            channel(2, "Ic", "A", WireFormat::I16, 0.01),
            channel(3, "Vdc", "V", WireFormat::I16, 0.1),
            channel(4, "SampleValid", "", WireFormat::U8, 1.0),
            channel(5, "RunState", "", WireFormat::U8, 1.0),
        ],
    };
    let streams = StreamTableR2 {
        revision: 3,
        causal_groups: vec![CausalGroupDescriptorR2 {
            consistency_group: 1,
            logical_cycle_rate_hz: 32_000,
            max_reorder_cycles: 64,
        }],
        streams: vec![
            stream(2, SampleDomain::Control8k, 8_000, 4, vec![0, 1, 2, 3, 4]),
            stream(3, SampleDomain::Slow1k, 1_000, 32, vec![5]),
        ],
        bindings: (0..=5)
            .map(|channel_id| StreamChannelBinding {
                channel_id,
                stream_id: if channel_id < 5 { 2 } else { 3 },
                owner: SignalOwner::Cpu2,
                role: SignalRole::Metadata,
            })
            .collect(),
        causal_relations: Vec::new(),
    };
    (channels, streams)
}

fn scales_match(check: &ScaleCheck) -> bool {
    (f32::from_bits(check.actual_bits) - f32::from_bits(check.expected_bits)).abs() <= 1.0e-6
}

fn outcome(profile: &MachineProfile, channels: &ChannelTable, streams: &StreamTableR2) -> Result<(), ProfileError> {
    let checks = profile.compatibility_checks(ALL_CAPABILITIES, channels, streams);
    if let Some(check) = checks.scale_checks.iter().find(|check| !scales_match(check)) {
        return Err(ProfileError::ChannelScaleMismatch {
            channel: check.channel.clone(),
            expected_bits: check.expected_bits,
            actual_bits: check.actual_bits,
        });
    }
    checks.outcome
}

#[test]
fn profile_schema_and_compatible_device_are_accepted() {
    let profile = profile();
    profile.validate_schema().unwrap();
    let (channels, streams) = compatible_tables();
    let checks = profile.compatibility_checks(ALL_CAPABILITIES, &channels, &streams);
    assert!(checks.outcome.is_ok());
    let checked: Vec<&str> = checks.scale_checks.iter().map(|c| c.channel.as_str()).collect();
    assert_eq!(checked, vec!["Ia", "Ib", "Ic", "Vdc", "SampleValid", "RunState"]);
    assert!(checks.scale_checks.iter().all(scales_match));
    assert_eq!(profile.stream(SampleDomain::Slow1k).unwrap().name, "slow");
    assert!(profile.stream(SampleDomain::Fast32k).is_none());
}

#[test]
fn profile_reports_stream_channel_rate_step_and_scale_mismatches_by_code() {
    let profile = profile();
    let (channels, mut streams) = compatible_tables();
    streams.streams.remove(0);
    assert_eq!(outcome(&profile, &channels, &streams).unwrap_err().code(), "profile_missing_stream");

    let (mut channels, mut streams) = compatible_tables();
    channels.channels.remove(0);
    streams.streams[0].channel_ids.remove(0);
    streams.bindings.remove(0);
    let error = outcome(&profile, &channels, &streams).unwrap_err();
    assert_eq!(error, ProfileError::MissingChannel("Ia".to_owned()));

    let (channels, mut streams) = compatible_tables();
    streams.streams[0].sample_rate_hz = 7_999;
    assert_eq!(outcome(&profile, &channels, &streams).unwrap_err().code(), "profile_stream_rate_mismatch");

    let (channels, mut streams) = compatible_tables();
    streams.streams[0].logical_cycle_step = 5;
    assert_eq!(outcome(&profile, &channels, &streams).unwrap_err().code(), "profile_logical_step_mismatch");

    let (mut channels, streams) = compatible_tables();
    channels.channels[0].scale_bits = 0.02_f32.to_bits();
    assert_eq!(outcome(&profile, &channels, &streams).unwrap_err().code(), "profile_channel_scale_mismatch");

    let (mut channels, streams) = compatible_tables();
    channels.channels[1].wire_format = WireFormat::I32;
    let error = outcome(&profile, &channels, &streams).unwrap_err();
    assert_eq!(
        error,
        ProfileError::ChannelFormatMismatch {
            channel: "Ib".to_owned(),
            expected: "I16".to_owned(),
            actual: "I32".to_owned(),
        }
    );

    let (mut channels, streams) = compatible_tables();
    channels.channels[3].unit = "mV".to_owned();
    let checks = profile.compatibility_checks(ALL_CAPABILITIES, &channels, &streams);
    assert_eq!(checks.scale_checks.len(), 4);
    assert_eq!(checks.outcome.unwrap_err().code(), "profile_channel_unit_mismatch");

    let (channels, streams) = compatible_tables();
    let checks = profile.compatibility_checks(CAPABILITY_V2_STREAMS_R2, &channels, &streams);
    assert_eq!(
        checks.outcome.unwrap_err(),
        ProfileError::CapabilityMismatch("CAPABILITY_V2_MULTI_STREAM".to_owned())
    );
    let (channels, mut streams) = compatible_tables();
    streams.revision = 4;
    assert_eq!(outcome(&profile, &channels, &streams).unwrap_err().code(), "profile_protocol_mismatch");
}

#[test]
fn profile_schema_violations_are_refused_in_order() {
    let mut p = profile();
    p.profile_name = " \t".to_owned();
    assert_eq!(
        p.validate_schema().unwrap_err(),
        ProfileError::Invalid(ProfileInvalid::MissingIdentity)
    );
    let mut p = profile();
    p.causal_groups.clear();
    assert_eq!(p.validate_schema().unwrap_err(), ProfileError::Invalid(ProfileInvalid::EmptySections));
    let mut p = profile();
    p.channels[5].name = "Ia".to_owned();
    assert_eq!(
        p.validate_schema().unwrap_err(),
        ProfileError::Invalid(ProfileInvalid::DuplicateChannelNames)
    );
    let mut p = profile();
    p.streams[1].domain = "SLOW2K".to_owned();
    assert_eq!(
        p.validate_schema().unwrap_err(),
        ProfileError::Invalid(ProfileInvalid::UnknownDomain("SLOW2K".to_owned()))
    );
    let mut p = profile();
    p.streams[0].rate_hz = 0;
    assert_eq!(
        p.validate_schema().unwrap_err(),
        ProfileError::Invalid(ProfileInvalid::ZeroRateOrStep("ctrl".to_owned()))
    );
    let mut p = profile();
    p.streams[0].optional_channels.push("Phantom".to_owned());
    let error = p.validate_schema().unwrap_err();
    assert_eq!(
        error,
        ProfileError::Invalid(ProfileInvalid::UndefinedChannel {
            stream: "ctrl".to_owned(),
            channel: "Phantom".to_owned(),
        })
    );
    assert_eq!(error.code(), "profile_schema_invalid");
}
