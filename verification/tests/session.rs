use scope_live::session::{AcquisitionConfig, ConnectionState, LiveProtocol, SessionStats};
use scope_live::trigger::TriggerConfig;

#[test]
fn session_records_start_from_their_defaults() {
    assert_eq!(LiveProtocol::default(), LiveProtocol::V1);
    let config = AcquisitionConfig::default();
    assert_eq!(config.history_seconds, 1);
    assert_eq!(config.trigger, TriggerConfig::default());
    let stats = SessionStats::default();
    assert_eq!(stats.received_frames, 0);
    assert_eq!(stats.causal_group_mismatch, 0);
    assert_eq!(stats.last_pong_nonce, None);
    assert_eq!(stats.heartbeat_timeout_count, 0);
    assert_ne!(ConnectionState::Ready, ConnectionState::Streaming);
}
