use scope_live::protocol_v2::{
    CausalRelation, SampleDomain, SignalOwner, SignalRole, StreamChannelBinding,
};
use scope_live::protocol_v2_r2::{CausalGroupDescriptorR2, StreamDescriptorR2, StreamTableR2};
use scope_live::snapshot::{
    add_offset, subtract_offset, SnapshotMeta, SnapshotValidator, ADC_SAMPLE_VALID,
    APPLIED_SEQUENCE_VALID, CLA_RESULT_VALID, FROZEN_ROW, MAX_CAUSAL_CACHE_ROWS,
    MAX_CAUSAL_PENDING_MATCHES, SNAPSHOT_VALID, SOURCE_SEQUENCE_VALID,
};

fn stream(
    stream_id: u16,
    domain: SampleDomain,
    logical_cycle_step: u32,
    channel_id: u16,
) -> StreamDescriptorR2 {
    StreamDescriptorR2 {
        stream_id,
        domain,
        capture_phase: domain.fixed_capture_phase(),
        sample_rate_hz: domain.fixed_sample_rate_hz(),
        consistency_group: 1,
        logical_cycle_step,
        channel_ids: vec![channel_id],
    }
}

fn causal_table(result_offset: i16, application_offset: i16) -> StreamTableR2 {
    StreamTableR2 {
        revision: 2,
        causal_groups: vec![CausalGroupDescriptorR2 {
            consistency_group: 1,
            logical_cycle_rate_hz: 32_000,
            max_reorder_cycles: 64,
        }],
        streams: vec![
            stream(1, SampleDomain::Fast32k, 1, 1),
            stream(2, SampleDomain::Control8k, 4, 2),
            stream(3, SampleDomain::Slow1k, 32, 3),
        ],
        bindings: vec![
            binding(1, 1, SignalRole::ControlInput),
            binding(2, 2, SignalRole::ControlOutput),
            binding(3, 3, SignalRole::AppliedCommand),
        ],
        causal_relations: vec![CausalRelation {
            input_stream_id: 1,
            result_stream_id: 2,
            application_stream_id: 3,
            result_input_offset: result_offset,
            application_result_offset: application_offset,
        }],
    }
}

fn binding(channel_id: u16, stream_id: u16, role: SignalRole) -> StreamChannelBinding {
    StreamChannelBinding {
        channel_id,
        stream_id,
        owner: SignalOwner::Cpu1,
        role,
    }
}

fn meta(row: u64, logical: u64) -> SnapshotMeta {
    SnapshotMeta {
        row_sequence: row,
        logical_cycle_sequence: logical,
        source_sequence: logical,
        applied_sequence: logical,
        valid_flags: SNAPSHOT_VALID
            | SOURCE_SEQUENCE_VALID
            | APPLIED_SEQUENCE_VALID
            | CLA_RESULT_VALID
            | ADC_SAMPLE_VALID
            | FROZEN_ROW,
    }
}

#[test]
fn validates_positive_negative_and_application_offsets() {
    for (result_offset, application_offset) in [(0, 4), (1, 32), (-1, 4)] {
        let table = causal_table(result_offset, application_offset);
        let input = table.stream(1).unwrap();
        let result = table.stream(2).unwrap();
        let application = table.stream(3).unwrap();
        let input_cycle = 64;
        let result_cycle = 68;
        let mut result_meta = meta(17, result_cycle);
        result_meta.source_sequence = add_offset(input_cycle, result_offset).unwrap();
        let mut application_meta = meta(3, 96);
        application_meta.applied_sequence = add_offset(result_cycle, application_offset).unwrap();

        let mut validator = SnapshotValidator::default();
        validator
            .observe_with_table(&table, input, meta(64, input_cycle))
            .unwrap();
        validator
            .observe_with_table(&table, result, result_meta)
            .unwrap();
        validator
            .observe_with_table(&table, application, application_meta)
            .unwrap();
        assert_eq!(validator.diagnostics().causal_source_mismatch, 0);
        assert_eq!(validator.diagnostics().causal_application_mismatch, 0);
    }
}

#[test]
fn matches_result_application_and_input_in_any_order_within_window() {
    let table = causal_table(1, 4);
    let input = table.stream(1).unwrap();
    let result = table.stream(2).unwrap();
    let application = table.stream(3).unwrap();
    let mut result_meta = meta(25, 100);
    result_meta.source_sequence = 97;
    let mut application_meta = meta(4, 128);
    application_meta.applied_sequence = 104;
    let mut validator = SnapshotValidator::default();

    validator
        .observe_with_table(&table, application, application_meta)
        .unwrap();
    validator
        .observe_with_table(&table, result, result_meta)
        .unwrap();
    validator
        .observe_with_table(&table, input, meta(96, 96))
        .unwrap();

    assert_eq!(validator.pending_causal_match_count(), 0);
    assert_eq!(validator.diagnostics().causal_match_timeouts, 0);
    assert_eq!(validator.diagnostics().causal_source_mismatch, 0);
    assert_eq!(validator.diagnostics().causal_application_mismatch, 0);
}

#[test]
fn watermark_times_out_only_after_deadline() {
    let mut table = causal_table(0, 4);
    table.causal_groups[0].max_reorder_cycles = 2;
    let input = table.stream(1).unwrap().clone();
    let result = table.stream(2).unwrap().clone();
    let mut validator = SnapshotValidator::default();
    let mut result_meta = meta(2, 8);
    result_meta.source_sequence = 8;
    validator
        .observe_with_table(&table, &result, result_meta)
        .unwrap();
    validator
        .observe_with_table(&table, &input, meta(9, 9))
        .unwrap();
    assert_eq!(validator.diagnostics().causal_match_timeouts, 0);
    validator
        .observe_with_table(&table, &input, meta(11, 11))
        .unwrap();
    assert_eq!(validator.diagnostics().causal_match_timeouts, 1);
    assert_eq!(validator.diagnostics().missing_causal_source, 1);
}

#[test]
fn detects_duplicate_cycles_and_checked_offset_boundaries() {
    let table = causal_table(1, 4);
    let input = table.stream(1).unwrap();
    let result = table.stream(2).unwrap();
    let mut validator = SnapshotValidator::default();
    validator
        .observe_with_table(&table, input, meta(1, 1))
        .unwrap();
    validator
        .observe_with_table(&table, input, meta(2, 1))
        .unwrap();
    assert_eq!(validator.diagnostics().causal_duplicate_cycles, 1);

    let mut underflow = meta(1, 1);
    underflow.source_sequence = 0;
    validator
        .observe_with_table(&table, result, underflow)
        .unwrap();
    assert!(validator.diagnostics().causal_source_mismatch > 0);

    assert_eq!(add_offset(u64::MAX, 1), None);
    assert_eq!(subtract_offset(0, 1), None);
}

#[test]
fn row_gaps_advance_logical_cycles_by_stream_step() {
    let descriptor = stream(2, SampleDomain::Control8k, 4, 2);
    let mut validator = SnapshotValidator::default();
    validator.observe(&descriptor, meta(10, 40));
    validator.observe(&descriptor, meta(13, 52));
    assert_eq!(validator.diagnostics().row_sequence_gaps, 1);
    assert_eq!(validator.diagnostics().logical_cycle_faults, 0);
    validator.observe(&descriptor, meta(14, 53));
    assert_eq!(validator.diagnostics().logical_cycle_faults, 1);
}

#[test]
fn hard_limits_return_explicit_errors_without_silent_overwrite() {
    let table = causal_table(0, 4);
    let result = table.stream(2).unwrap();
    let mut validator = SnapshotValidator::with_causal_capacity(1);
    let mut first = meta(1, 4);
    first.source_sequence = 1_000;
    validator.observe_with_table(&table, result, first).unwrap();
    let mut second = meta(2, 8);
    second.source_sequence = 2_000;
    let error = validator
        .observe_with_table(&table, result, second)
        .unwrap_err();
    assert!(error.message().contains("CausalWindowOverflow"));
    assert_eq!(validator.diagnostics().causal_window_overflows, 1);
}

#[test]
fn consistency_groups_keep_identical_logical_cycles_isolated() {
    let mut table = causal_table(0, 4);
    table.causal_groups.push(CausalGroupDescriptorR2 {
        consistency_group: 2,
        logical_cycle_rate_hz: 32_000,
        max_reorder_cycles: 64,
    });
    for (stream_id, domain, step, channel_id) in [
        (4, SampleDomain::Fast32k, 1, 4),
        (5, SampleDomain::Control8k, 4, 5),
        (6, SampleDomain::Slow1k, 32, 6),
    ] {
        let mut descriptor = stream(stream_id, domain, step, channel_id);
        descriptor.consistency_group = 2;
        table.streams.push(descriptor);
    }
    table.bindings.extend([
        binding(4, 4, SignalRole::ControlInput),
        binding(5, 5, SignalRole::ControlOutput),
        binding(6, 6, SignalRole::AppliedCommand),
    ]);
    table.causal_relations.push(CausalRelation {
        input_stream_id: 4,
        result_stream_id: 5,
        application_stream_id: 6,
        result_input_offset: 0,
        application_result_offset: 4,
    });
    table.validate().unwrap();

    let first_group = table.stream(1).unwrap().clone();
    let second_group = table.stream(4).unwrap().clone();
    let mut validator = SnapshotValidator::default();
    validator
        .observe_with_table(&table, &first_group, meta(64, 64))
        .unwrap();
    validator
        .observe_with_table(&table, &second_group, meta(64, 64))
        .unwrap();
    assert_eq!(validator.causal_cache_len(), 2);
    assert_eq!(validator.diagnostics().causal_duplicate_cycles, 0);
    assert_eq!(validator.diagnostics().causal_group_mismatch, 0);
}

#[test]
fn cached_rows_and_pending_matches_stay_within_their_limits() {
    let table = causal_table(0, 4);
    let input = table.stream(1).unwrap();
    let result = table.stream(2).unwrap();
    let mut validator = SnapshotValidator::default();
    for cycle in 1..=2_000_u64 {
        validator
            .observe_with_table(&table, input, meta(cycle, cycle))
            .unwrap();
        if cycle % 4 == 0 {
            let mut result_meta = meta(cycle / 4, cycle);
            result_meta.source_sequence = cycle;
            validator
                .observe_with_table(&table, result, result_meta)
                .unwrap();
        }
    }
    assert!(validator.causal_cache_len() <= MAX_CAUSAL_CACHE_ROWS);
    assert!(validator.pending_causal_match_count() <= MAX_CAUSAL_PENDING_MATCHES);
    assert_eq!(validator.diagnostics().causal_window_overflows, 0);
    assert_eq!(validator.diagnostics().causal_match_timeouts, 0);
    assert!(validator.diagnostics().causal_cache_evictions > 0);
}

#[test]
fn offsets_are_checked_in_both_directions() {
    assert_eq!(add_offset(10, -3), Some(7));
    assert_eq!(add_offset(10, 3), Some(13));
    assert_eq!(add_offset(2, -3), None);
    assert_eq!(subtract_offset(10, -3), Some(13));
    assert_eq!(subtract_offset(u64::MAX, -1), None);
}

#[test]
fn unfrozen_rows_count_as_invalid_and_reset_forgets_them() {
    let descriptor = stream(1, SampleDomain::Fast32k, 1, 1);
    let mut validator = SnapshotValidator::with_causal_capacity(0);
    let mut row = meta(1, 1);
    row.valid_flags &= !FROZEN_ROW;
    validator.observe(&descriptor, row);
    assert_eq!(validator.diagnostics().invalid_snapshot_rows, 1);
    validator.observe(&descriptor, meta(1, 1));
    assert_eq!(validator.diagnostics().row_sequence_reorders, 1);
    validator.reset();
    assert_eq!(validator.diagnostics().invalid_snapshot_rows, 0);
    assert_eq!(validator.diagnostics().row_sequence_reorders, 0);
}
