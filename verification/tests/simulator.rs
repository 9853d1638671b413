use scope_live::protocol_v2::SampleDomain;
use scope_live::simulator::{
    is_periodic_fault, v2_row_meta, SimulatorConfigError, SimulatorProtocol, SimulatorSettings,
    SimulatorStats,
    V2Preset,
};
use scope_live::snapshot::{CLA_RESULT_VALID, FROZEN_ROW};

const PRESETS: [(&str, V2Preset); 15] = [
    ("30k-normal", V2Preset::Normal30k),
    ("30k-causal-delay", V2Preset::CausalDelay30k),
    ("30k-cla-stale", V2Preset::ClaStale30k),
    ("30k-row-gap", V2Preset::RowGap30k),
    ("30k-row-reorder", V2Preset::RowReorder30k),
    ("30k-phase-mismatch", V2Preset::PhaseMismatch30k),
    ("30k-group-mismatch", V2Preset::GroupMismatch30k),
    ("30k-unfrozen-row", V2Preset::UnfrozenRow30k),
    ("30k-capture-manual", V2Preset::CaptureManual30k),
    ("30k-capture-edge", V2Preset::CaptureEdge30k),
    ("30k-capture-fault", V2Preset::CaptureFault30k),
    ("30k-capture-timeout", V2Preset::CaptureTimeout30k),
    ("30k-capture-chunk-loss", V2Preset::CaptureChunkLoss30k),
    (
        "30k-capture-chunk-reorder",
        V2Preset::CaptureChunkReorder30k,
    ),
    ("30k-device-reset", V2Preset::DeviceReset30k),
];

#[test]
fn every_30k_preset_has_a_stable_name_and_deterministic_rows() {
    for (name, preset) in PRESETS {
        assert_eq!(V2Preset::parse(name), Some(preset));
        assert_eq!(preset.name(), name);
        for row in [100_u64, 101] {
            assert_eq!(
                v2_row_meta(preset, SampleDomain::Fast32k, row),
                v2_row_meta(preset, SampleDomain::Fast32k, row),
                "preset {name} must not depend on random probability"
            );
        }
    }
    assert_eq!(V2Preset::parse("30k-unknown"), None);
}

#[test]
fn stale_and_unfrozen_presets_encode_expected_diagnostic_conditions() {
    let stale = v2_row_meta(V2Preset::ClaStale30k, SampleDomain::Fast32k, 1);
    assert_eq!(stale.valid_flags & CLA_RESULT_VALID, 0);
    let unfrozen = v2_row_meta(V2Preset::UnfrozenRow30k, SampleDomain::Fast32k, 1);
    assert_eq!(unfrozen.valid_flags & FROZEN_ROW, 0);
}

#[test]
fn simulated_rows_follow_the_row_number() {
    let row = v2_row_meta(V2Preset::Normal30k, SampleDomain::Control8k, 7);
    assert_eq!(row.row_sequence, 7);
    assert_eq!(row.source_sequence, 7);
    assert_eq!(row.applied_sequence, 6);
    assert!(row.is_frozen());
    assert_eq!(row.valid_flags & CLA_RESULT_VALID, 0);
    assert_eq!(
        v2_row_meta(V2Preset::Normal30k, SampleDomain::Fast32k, 0).applied_sequence,
        0
    );
}

#[test]
fn settings_are_validated_in_order() {
    assert_eq!(SimulatorSettings::default().validate(), Ok(()));
    let mut settings = SimulatorSettings::default();
    settings.sample_rate_hz = 2_000_000;
    assert_eq!(
        settings.validate(),
        Err(SimulatorConfigError::SampleRateOutOfRange(SimulatorProtocol::V1))
    );
    settings.protocol = SimulatorProtocol::V2;
    assert_eq!(settings.validate(), Ok(()));
    settings.batch_samples = 4_097;
    assert_eq!(
        settings.validate(),
        Err(SimulatorConfigError::BatchSamplesOutOfRange)
    );
    settings.batch_samples = 100;
    settings.corrupt_every = Some(0);
    assert!(settings
        .validate()
        .unwrap_err()
        .message()
        .contains("corrupt_every"));
    settings.corrupt_every = None;
    settings.protocol = SimulatorProtocol::V1;
    settings.sample_rate_hz = 10_000;
    settings.preset = Some(V2Preset::Normal30k);
    assert_eq!(
        settings.validate(),
        Err(SimulatorConfigError::PresetRequiresV2)
    );
}

#[test]
fn periodic_faults_fall_on_multiples_of_the_period() {
    assert!(is_periodic_fault(Some(3), 9));
    assert!(!is_periodic_fault(Some(3), 10));
    assert!(!is_periodic_fault(None, 9));
    assert!(is_periodic_fault(Some(0), 0));
    assert!(!is_periodic_fault(Some(0), 5));
}

#[test]
fn simulator_stats_start_at_zero() {
    let stats = SimulatorStats::default();
    assert_eq!(stats.connections, 0);
    assert_eq!(stats.emitted_batches, 0);
    assert_eq!(stats.capture_requests, 0);
    assert_eq!(stats, SimulatorStats { ..stats });
}
