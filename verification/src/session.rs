//! The plain records a live session reports: its connection state, which
//! protocol it speaks, how it buffers, and its running counters.

use vstd::prelude::*;

use crate::trigger::{default_trigger_config, TriggerConfig};

verus! {

/// Where a live session is in its life.
#[derive(Clone, Copy, Debug, PartialEq, Eq, Structural)]
pub enum ConnectionState {
    Disconnected,
    Connecting,
    Handshaking,
    Configuring,
    Ready,
    Streaming,
}

/// What a device reports it is doing.
#[derive(Clone, Copy, Debug, PartialEq, Eq, Structural)]
pub enum DeviceState {
    Idle,
    Configured,
    Streaming,
}

/// The protocol revision a session speaks.
#[derive(Clone, Copy, Debug, PartialEq, Eq, Structural)]
pub enum LiveProtocol {
    V1,
    V2,
}

impl Default for LiveProtocol {
    fn default() -> (r: Self)
        ensures
            r == LiveProtocol::V1,
    {
        LiveProtocol::V1
    }
}

/// How much history a session keeps and how its trigger is set.
#[derive(Clone, Copy, Debug, PartialEq, Eq, Structural)]
pub struct AcquisitionConfig {
    pub history_seconds: u32,
    pub trigger: TriggerConfig,
}

impl Default for AcquisitionConfig {
    fn default() -> (r: Self)
        ensures
            r == (AcquisitionConfig { history_seconds: 1, trigger: default_trigger_config() }),
    {
        AcquisitionConfig { history_seconds: 1, trigger: TriggerConfig::default() }
    }
}

/// Running counters of a live session.
#[derive(Clone, Copy, Debug, PartialEq, Eq, Structural)]
pub struct SessionStats {
    pub received_frames: u64,
    pub received_batches: u64,
    pub received_samples: u64,
    pub protocol_errors: u64,
    pub sequence_gaps: u64,
    pub host_dropped_batches: u64,
    pub crc_errors: u64,
    pub malformed_headers: u64,
    pub discarded_bytes: u64,
    pub unknown_messages: u64,
    pub device_dropped_samples: u64,
    pub device_tx_overruns: u64,
    pub row_sequence_gaps: u64,
    pub row_sequence_reorders: u64,
    pub source_sequence_faults: u64,
    pub applied_sequence_faults: u64,
    pub invalid_snapshot_rows: u64,
    pub missing_causal_source: u64,
    pub causal_source_mismatch: u64,
    pub causal_application_mismatch: u64,
    pub causal_sequence_reorder: u64,
    pub causal_group_mismatch: u64,
    pub host_dropped_v2_batches: u64,
    pub host_dropped_v2_rows: u64,
    pub v2_snapshot_queue_overruns: u64,
    pub capture_processing_overruns: u64,
    pub last_dropped_v2_stream_id: Option<u16>,
    pub last_dropped_v2_first_row: Option<u64>,
    pub last_dropped_v2_last_row: Option<u64>,
    pub last_pong_nonce: Option<u64>,
    pub heartbeat_round_trip_count: u64,
    pub heartbeat_timeout_count: u64,
    pub device_state: Option<DeviceState>,
}

/// Counters before anything was received.
pub open spec fn initial_session_stats() -> SessionStats {
    SessionStats {
        received_frames: 0,
        received_batches: 0,
        received_samples: 0,
        protocol_errors: 0,
        sequence_gaps: 0,
        host_dropped_batches: 0,
        crc_errors: 0,
        malformed_headers: 0,
        discarded_bytes: 0,
        unknown_messages: 0,
        device_dropped_samples: 0,
        device_tx_overruns: 0,
        row_sequence_gaps: 0,
        row_sequence_reorders: 0,
        source_sequence_faults: 0,
        applied_sequence_faults: 0,
        invalid_snapshot_rows: 0,
        missing_causal_source: 0,
        causal_source_mismatch: 0,
        causal_application_mismatch: 0,
        causal_sequence_reorder: 0,
        causal_group_mismatch: 0,
        host_dropped_v2_batches: 0,
        host_dropped_v2_rows: 0,
        v2_snapshot_queue_overruns: 0,
        capture_processing_overruns: 0,
        last_dropped_v2_stream_id: None,
        last_dropped_v2_first_row: None,
        last_dropped_v2_last_row: None,
        last_pong_nonce: None,
        heartbeat_round_trip_count: 0,
        heartbeat_timeout_count: 0,
        device_state: None,
    }
}

impl Default for SessionStats {
    fn default() -> (r: Self)
        ensures
            r == initial_session_stats(),
    {
        SessionStats {
            received_frames: 0,
            received_batches: 0,
            received_samples: 0,
            protocol_errors: 0,
            sequence_gaps: 0,
            host_dropped_batches: 0,
            crc_errors: 0,
            malformed_headers: 0,
            discarded_bytes: 0,
            unknown_messages: 0,
            device_dropped_samples: 0,
            device_tx_overruns: 0,
            row_sequence_gaps: 0,
            row_sequence_reorders: 0,
            source_sequence_faults: 0,
            applied_sequence_faults: 0,
            invalid_snapshot_rows: 0,
            missing_causal_source: 0,
            causal_source_mismatch: 0,
            causal_application_mismatch: 0,
            causal_sequence_reorder: 0,
            causal_group_mismatch: 0,
            host_dropped_v2_batches: 0,
            host_dropped_v2_rows: 0,
            v2_snapshot_queue_overruns: 0,
            capture_processing_overruns: 0,
            last_dropped_v2_stream_id: None,
            last_dropped_v2_first_row: None,
            last_dropped_v2_last_row: None,
            last_pong_nonce: None,
            heartbeat_round_trip_count: 0,
            heartbeat_timeout_count: 0,
            device_state: None,
        }
    }
}

} // verus!
