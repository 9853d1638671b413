//! SCP1 live-acquisition wire protocol, stream semantics, and capture
//! bookkeeping, with machine-checked contracts.

pub mod wire;
pub mod protocol;
pub mod reader;
pub mod protocol_v2;
pub mod snapshot;
pub mod codec;
pub mod messages_v2;
pub mod capture_v2;
pub mod protocol_v2_r2;
pub mod metadata_r2;
pub mod batch_r2;
pub mod messages_r2;
pub mod hardware_capture;
pub mod trigger;
pub mod capture_history;
pub mod keyed;
pub mod simulator;
pub mod stream_timing;
pub mod bandwidth;
pub mod scope_format;
pub mod smoke;
pub mod session;
pub mod simulator_v2;
pub mod machine_profile;
pub mod live_buffer;
pub mod recording_scan;
pub mod capture_asset;
pub mod session_v1;
pub mod session_v2;
pub mod simulator_session;
