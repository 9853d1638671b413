//! The decisions of the second-revision simulator, as a state machine.
//!
//! The caller owns the socket and the clock: it routes each frame with
//! [`route_v2_frame`], hands each request to [`simulator_v2_handle`], sends the replies it gets back
//! under its own sequence numbers, builds requested captures with
//! `simulated_capture_upload` and streamed batches with `v2_streaming_step`.

use vstd::prelude::*;

use crate::capture_v2::{ArmCapture, CancelCapture, CaptureState, CaptureStatus, ManualTrigger};
use crate::messages_v2::{known_message_type, parse_message, MessageV2, MessageV2V};
use crate::protocol::{ChannelTable, Frame, FrameView, ProtocolError, MAX_PAYLOAD_LEN, PROTOCOL_VERSION_V2};
use crate::protocol_v2::{
    configure_for_device_ok, validate_configure_stream_for_device, ConfigureStream, StreamTable,
    CAPABILITY_V2_STREAMS, MSG_ARM_CAPTURE, MSG_CANCEL_CAPTURE, MSG_CONFIGURE_STREAM,
    MSG_MANUAL_TRIGGER,
};
use crate::session::DeviceState;
use crate::session_v2::{bump64, next_u64};
use crate::simulator::{SimulatorStats, V2Preset};

verus! {

/// A decoded request from the client.
#[derive(Clone, Copy, Debug, PartialEq, Eq, Structural)]
pub enum SimulatorRequest {
    Hello { client_capabilities: u32 },
    ConfigureStream { sequence: u32, request: ConfigureStream },
    Start { sequence: u32 },
    Stop { sequence: u32 },
    Ping(u64),
    Pong,
    ArmCapture(ArmCapture),
    ManualTrigger(ManualTrigger),
    CancelCapture(CancelCapture),
    /// A ping to the client is due.
    PingDue,
    /// Time to stream the next batch, if streaming.
    StreamTick,
}

/// How a command is answered.
#[derive(Clone, Copy, Debug, PartialEq, Eq, Structural)]
pub enum ResultCode {
    Success,
    InvalidArgument,
    InvalidState,
}

/// What the simulator must send or do.
#[derive(Clone, Copy, Debug, PartialEq, Eq, Structural)]
pub enum SimulatorAction {
    SendHelloAck,
    SendChannelTable,
    SendStreamTable,
    SendStatus { state: DeviceState, produced_samples: u64 },
    SendCommandResult { request_sequence: u32, code: ResultCode },
    SendPong(u64),
    SendPing(u64),
    SendCaptureStatus(CaptureStatus),
    /// Upload a simulated capture for `capture` from row `row_sequence`.
    UploadCapture { capture: ArmCapture, row_sequence: u64 },
    /// Stream the `emitted`-th batch of `configure` from row `row_sequence`.
    EmitBatch { configure: ConfigureStream, row_sequence: u64, emitted: u64 },
}

/// The state of a simulated second-revision device.
pub struct SimulatorV2Session {
    pub preset: V2Preset,
    pub configured: Option<ConfigureStream>,
    pub streaming: bool,
    pub armed: Option<ArmCapture>,
    pub session_established: bool,
    pub ping_nonce: u64,
    pub emitted_batches: u64,
    pub row_sequence: u64,
    pub stats: SimulatorStats,
}

pub struct SimulatorV2SessionV {
    pub preset: V2Preset,
    pub configured: Option<ConfigureStream>,
    pub streaming: bool,
    pub armed: Option<ArmCapture>,
    pub session_established: bool,
    pub ping_nonce: u64,
    pub emitted_batches: u64,
    pub row_sequence: u64,
    pub stats: SimulatorStats,
}

impl View for SimulatorV2Session {
    type V = SimulatorV2SessionV;

    open spec fn view(&self) -> SimulatorV2SessionV {
        SimulatorV2SessionV {
            preset: self.preset,
            configured: self.configured,
            streaming: self.streaming,
            armed: self.armed,
            session_established: self.session_established,
            ping_nonce: self.ping_nonce,
            emitted_batches: self.emitted_batches,
            row_sequence: self.row_sequence,
            stats: self.stats,
        }
    }
}

/// Presets whose capture is uploaded as soon as it is armed.
pub open spec fn uploads_on_arm(p: V2Preset) -> bool {
    p is CaptureEdge30k || p is CaptureFault30k || p is CaptureTimeout30k || p is DeviceReset30k
}

pub open spec fn capture_status(capture_id: u32, state: CaptureState) -> CaptureStatus {
    CaptureStatus { capture_id, state, captured_rows: 0, dropped_rows: 0 }
}

/// How the simulator answers one request, against its channel and stream
/// tables.
pub open spec fn spec_simulator_v2_handle(
    s: SimulatorV2SessionV,
    streams: crate::protocol_v2::StreamTableV,
    channels: Seq<crate::protocol::ChannelDescriptor>,
    req: SimulatorRequest,
) -> (SimulatorV2SessionV, Seq<SimulatorAction>) {
    match req {
        SimulatorRequest::Hello { client_capabilities } => if client_capabilities & CAPABILITY_V2_STREAMS == 0 {
            (s, Seq::empty())
        } else {
            (
                SimulatorV2SessionV {
                    session_established: true,
                    stats: SimulatorStats {
                        hello_requests: bump64(s.stats.hello_requests),
                        v2_stream_table_requests: bump64(s.stats.v2_stream_table_requests),
                        ..s.stats
                    },
                    ..s
                },
                seq![
                    SimulatorAction::SendHelloAck,
                    SimulatorAction::SendChannelTable,
                    SimulatorAction::SendStreamTable,
                    SimulatorAction::SendStatus { state: DeviceState::Idle, produced_samples: 0 },
                ],
            )
        },
        SimulatorRequest::ConfigureStream { sequence, request } => {
            let st = SimulatorStats { configure_requests: bump64(s.stats.configure_requests), ..s.stats };
            if configure_for_device_ok(request, streams, channels, 4096, MAX_PAYLOAD_LEN as u32) {
                (
                    SimulatorV2SessionV { configured: Some(request), stats: st, ..s },
                    seq![
                        SimulatorAction::SendCommandResult { request_sequence: sequence, code: ResultCode::Success },
                        SimulatorAction::SendStatus { state: DeviceState::Configured, produced_samples: s.emitted_batches },
                    ],
                )
            } else {
                (
                    SimulatorV2SessionV { stats: st, ..s },
                    seq![SimulatorAction::SendCommandResult { request_sequence: sequence, code: ResultCode::InvalidArgument }],
                )
            }
        },
        SimulatorRequest::Start { sequence } => {
            let st = SimulatorStats { start_requests: bump64(s.stats.start_requests), ..s.stats };
            if s.configured is Some {
                (
                    SimulatorV2SessionV { streaming: true, stats: st, ..s },
                    seq![
                        SimulatorAction::SendCommandResult { request_sequence: sequence, code: ResultCode::Success },
                        SimulatorAction::SendStatus { state: DeviceState::Streaming, produced_samples: s.emitted_batches },
                    ],
                )
            } else {
                (
                    SimulatorV2SessionV { streaming: false, stats: st, ..s },
                    seq![SimulatorAction::SendCommandResult { request_sequence: sequence, code: ResultCode::InvalidState }],
                )
            }
        },
        SimulatorRequest::Stop { sequence } => (
            SimulatorV2SessionV {
                streaming: false,
                stats: SimulatorStats { stop_requests: bump64(s.stats.stop_requests), ..s.stats },
                ..s
            },
            seq![
                SimulatorAction::SendCommandResult { request_sequence: sequence, code: ResultCode::Success },
                SimulatorAction::SendStatus { state: DeviceState::Configured, produced_samples: s.emitted_batches },
            ],
        ),
        SimulatorRequest::Ping(n) => (s, seq![SimulatorAction::SendPong(n)]),
        SimulatorRequest::Pong => (
            SimulatorV2SessionV { stats: SimulatorStats { pongs_received: bump64(s.stats.pongs_received), ..s.stats }, ..s },
            Seq::empty(),
        ),
        SimulatorRequest::ArmCapture(c) => {
            let st = SimulatorStats { capture_requests: bump64(s.stats.capture_requests), ..s.stats };
            let status = SimulatorAction::SendCaptureStatus(capture_status(c.capture_id, CaptureState::Armed));
            if uploads_on_arm(s.preset) {
                (
                    SimulatorV2SessionV { armed: None, stats: st, ..s },
                    seq![status, SimulatorAction::UploadCapture { capture: c, row_sequence: s.row_sequence }],
                )
            } else {
                (SimulatorV2SessionV { armed: Some(c), stats: st, ..s }, seq![status])
            }
        },
        SimulatorRequest::ManualTrigger(t) => match s.armed {
            Some(c) => if c.capture_id == t.capture_id {
                (
                    SimulatorV2SessionV { armed: None, ..s },
                    seq![SimulatorAction::UploadCapture { capture: c, row_sequence: s.row_sequence }],
                )
            } else {
                (SimulatorV2SessionV { armed: None, ..s }, Seq::empty())
            },
            None => (s, Seq::empty()),
        },
        SimulatorRequest::CancelCapture(c) => match s.armed {
            Some(a) => if a.capture_id == c.capture_id {
                (
                    SimulatorV2SessionV { armed: None, ..s },
                    seq![SimulatorAction::SendCaptureStatus(capture_status(c.capture_id, CaptureState::Cancelled))],
                )
            } else {
                (s, Seq::empty())
            },
            None => (s, Seq::empty()),
        },
        SimulatorRequest::PingDue => if s.session_established {
            (
                SimulatorV2SessionV {
                    ping_nonce: next_u64(s.ping_nonce),
                    stats: SimulatorStats { pings_sent: bump64(s.stats.pings_sent), ..s.stats },
                    ..s
                },
                seq![SimulatorAction::SendPing(s.ping_nonce)],
            )
        } else {
            (s, Seq::empty())
        },
        SimulatorRequest::StreamTick => match s.configured {
            Some(cfg) => if s.streaming {
                let e = bump64(s.emitted_batches);
                (
                    SimulatorV2SessionV {
                        emitted_batches: e,
                        stats: SimulatorStats { emitted_batches: bump64(s.stats.emitted_batches), ..s.stats },
                        ..s
                    },
                    seq![SimulatorAction::EmitBatch { configure: cfg, row_sequence: s.row_sequence, emitted: e }],
                )
            } else {
                (s, Seq::empty())
            },
            None => (s, Seq::empty()),
        },
    }
}

fn bump(x: u64) -> (r: u64)
    ensures
        r == bump64(x),
{
    if x == u64::MAX {
        x
    } else {
        x + 1
    }
}

fn acts1(a: SimulatorAction) -> (r: Vec<SimulatorAction>)
    ensures
        r@ == seq![a],
{
    let mut v: Vec<SimulatorAction> = Vec::new();
    v.push(a);
    assert(v@ =~= seq![a]);
    v
}

fn acts2(a: SimulatorAction, b: SimulatorAction) -> (r: Vec<SimulatorAction>)
    ensures
        r@ == seq![a, b],
{
    let mut v: Vec<SimulatorAction> = Vec::new();
    v.push(a);
    v.push(b);
    assert(v@ =~= seq![a, b]);
    v
}

impl SimulatorV2Session {
    /// A device that has seen no request, streaming `preset` from row 1.
    pub fn new(preset: V2Preset) -> (r: Self)
        ensures
            r@ == (SimulatorV2SessionV {
                preset,
                configured: None,
                streaming: false,
                armed: None,
                session_established: false,
                ping_nonce: 1,
                emitted_batches: 0,
                row_sequence: 1,
                stats: r@.stats,
            }),
            r@.stats == (SimulatorStats {
                connections: 0,
                hello_requests: 0,
                configure_requests: 0,
                start_requests: 0,
                stop_requests: 0,
                ping_requests: 0,
                pings_sent: 0,
                pongs_received: 0,
                emitted_batches: 0,
                v2_stream_table_requests: 0,
                capture_requests: 0,
            }),
    {
        SimulatorV2Session {
            preset,
            configured: None,
            streaming: false,
            armed: None,
            session_established: false,
            ping_nonce: 1,
            emitted_batches: 0,
            row_sequence: 1,
            stats: SimulatorStats::default(),
        }
    }

    /// Moves streaming on to the row the last streamed batch ended at.
    pub fn set_row_sequence(&mut self, row_sequence: u64)
        ensures
            final(self)@ == (SimulatorV2SessionV { row_sequence, ..old(self)@ }),
    {
        self.row_sequence = row_sequence;
    }
}

/// Handles one request: the new state, the replies to send in order, and,
/// for a refused configuration, why it was refused.
pub fn simulator_v2_handle(
    state: &mut SimulatorV2Session,
    streams: &StreamTable,
    channels: &ChannelTable,
    req: SimulatorRequest,
) -> (r: (Vec<SimulatorAction>, Option<ProtocolError>))
    ensures
        (final(state)@, r.0@) == spec_simulator_v2_handle(old(state)@, streams@, channels.channels@, req),
        r.1 is Some <==> (req matches SimulatorRequest::ConfigureStream { request, .. } && !configure_for_device_ok(
            request,
            streams@,
            channels.channels@,
            4096,
            MAX_PAYLOAD_LEN as u32,
        )),
{
    match req {
        SimulatorRequest::Hello { client_capabilities } => {
            if client_capabilities & CAPABILITY_V2_STREAMS == 0 {
                return (Vec::new(), None);
            }
            state.session_established = true;
            state.stats.hello_requests = bump(state.stats.hello_requests);
            state.stats.v2_stream_table_requests = bump(state.stats.v2_stream_table_requests);
            let mut v = acts2(SimulatorAction::SendHelloAck, SimulatorAction::SendChannelTable);
            v.push(SimulatorAction::SendStreamTable);
            v.push(SimulatorAction::SendStatus { state: DeviceState::Idle, produced_samples: 0 });
            assert(v@ =~= seq![
                SimulatorAction::SendHelloAck,
                SimulatorAction::SendChannelTable,
                SimulatorAction::SendStreamTable,
                SimulatorAction::SendStatus { state: DeviceState::Idle, produced_samples: 0 },
            ]);
            (v, None)
        },
        SimulatorRequest::ConfigureStream { sequence, request } => {
            state.stats.configure_requests = bump(state.stats.configure_requests);
            match validate_configure_stream_for_device(&request, streams, channels, 4096, MAX_PAYLOAD_LEN as u32) {
                Ok(()) => {
                    state.configured = Some(request);
                    (
                        acts2(
                            SimulatorAction::SendCommandResult { request_sequence: sequence, code: ResultCode::Success },
                            SimulatorAction::SendStatus { state: DeviceState::Configured, produced_samples: state.emitted_batches },
                        ),
                        None,
                    )
                },
                Err(e) => (
                    acts1(SimulatorAction::SendCommandResult { request_sequence: sequence, code: ResultCode::InvalidArgument }),
                    Some(e),
                ),
            }
        },
        SimulatorRequest::Start { sequence } => {
            state.stats.start_requests = bump(state.stats.start_requests);
            state.streaming = state.configured.is_some();
            if state.streaming {
                (
                    acts2(
                        SimulatorAction::SendCommandResult { request_sequence: sequence, code: ResultCode::Success },
                        SimulatorAction::SendStatus { state: DeviceState::Streaming, produced_samples: state.emitted_batches },
                    ),
                    None,
                )
            } else {
                (acts1(SimulatorAction::SendCommandResult { request_sequence: sequence, code: ResultCode::InvalidState }), None)
            }
        },
        SimulatorRequest::Stop { sequence } => {
            state.stats.stop_requests = bump(state.stats.stop_requests);
            state.streaming = false;
            (
                acts2(
                    SimulatorAction::SendCommandResult { request_sequence: sequence, code: ResultCode::Success },
                    SimulatorAction::SendStatus { state: DeviceState::Configured, produced_samples: state.emitted_batches },
                ),
                None,
            )
        },
        SimulatorRequest::Ping(n) => (acts1(SimulatorAction::SendPong(n)), None),
        SimulatorRequest::Pong => {
            state.stats.pongs_received = bump(state.stats.pongs_received);
            (Vec::new(), None)
        },
        SimulatorRequest::ArmCapture(c) => {
            state.stats.capture_requests = bump(state.stats.capture_requests);
            let status = SimulatorAction::SendCaptureStatus(
                CaptureStatus { capture_id: c.capture_id, state: CaptureState::Armed, captured_rows: 0, dropped_rows: 0 },
            );
            let upload = match state.preset {
                V2Preset::CaptureEdge30k | V2Preset::CaptureFault30k | V2Preset::CaptureTimeout30k
                | V2Preset::DeviceReset30k => true,
                _ => false,
            };
            if upload {
                state.armed = None;
                (acts2(status, SimulatorAction::UploadCapture { capture: c, row_sequence: state.row_sequence }), None)
            } else {
                state.armed = Some(c);
                (acts1(status), None)
            }
        },
        SimulatorRequest::ManualTrigger(t) => {
            match state.armed.take() {
                Some(c) => {
                    if c.capture_id == t.capture_id {
                        (acts1(SimulatorAction::UploadCapture { capture: c, row_sequence: state.row_sequence }), None)
                    } else {
                        (Vec::new(), None)
                    }
                },
                None => (Vec::new(), None),
            }
        },
        SimulatorRequest::CancelCapture(c) => {
            match state.armed {
                Some(a) => {
                    if a.capture_id == c.capture_id {
                        state.armed = None;
                        (
                            acts1(
                                SimulatorAction::SendCaptureStatus(
                                    CaptureStatus {
                                        capture_id: c.capture_id,
                                        state: CaptureState::Cancelled,
                                        captured_rows: 0,
                                        dropped_rows: 0,
                                    },
                                ),
                            ),
                            None,
                        )
                    } else {
                        (Vec::new(), None)
                    }
                },
                None => (Vec::new(), None),
            }
        },
        SimulatorRequest::PingDue => {
            if state.session_established {
                let n = state.ping_nonce;
                state.ping_nonce = if n == u64::MAX {
                    0
                } else {
                    n + 1
                };
                state.stats.pings_sent = bump(state.stats.pings_sent);
                (acts1(SimulatorAction::SendPing(n)), None)
            } else {
                (Vec::new(), None)
            }
        },
        SimulatorRequest::StreamTick => {
            match state.configured {
                Some(cfg) => {
                    if state.streaming {
                        let e = bump(state.emitted_batches);
                        state.emitted_batches = e;
                        state.stats.emitted_batches = bump(state.stats.emitted_batches);
                        (acts1(SimulatorAction::EmitBatch { configure: cfg, row_sequence: state.row_sequence, emitted: e }), None)
                    } else {
                        (Vec::new(), None)
                    }
                },
                None => (Vec::new(), None),
            }
        },
    }
}


// ---------------------------------------------------------------------------
// The first-revision simulator
// ---------------------------------------------------------------------------

/// A decoded first-revision request, or the streaming clock.
#[derive(Clone, Copy, Debug, PartialEq, Eq, Structural)]
pub enum SimulatorV1Input {
    Hello,
    /// A configuration request; `accepted` is the device check's verdict,
    /// and `batch_samples` the batch size it asks for.
    Configure { sequence: u32, batch_samples: u16, accepted: bool },
    Start { sequence: u32 },
    Stop { sequence: u32 },
    Ping(u64),
    Pong,
    PingDue,
    StreamTick,
}

/// What the first-revision simulator must do.
#[derive(Clone, Copy, Debug, PartialEq, Eq, Structural)]
pub enum SimulatorV1Action {
    SendHelloAck,
    SendChannelTable,
    /// Answer a configuration; an accepted one echoes the configuration.
    SendConfigureResult { request_sequence: u32, code: ResultCode },
    SendCommandResult { request_sequence: u32, code: ResultCode },
    SendPong(u64),
    SendPing(u64),
    /// Send the sample frame of the batch from `first_sample_index`,
    /// corrupted in transit when `corrupt`.
    EmitSampleFrame { first_sample_index: u64, corrupt: bool },
    /// Drop this batch: its sequence number is used up, nothing is sent.
    DropSampleFrame,
    /// End the connection.
    Disconnect,
}

/// The state of a simulated first-revision device.
pub struct SimulatorV1Session {
    pub state: DeviceState,
    pub batch_samples: u16,
    pub first_sample_index: u64,
    pub emitted_batches: u64,
    pub ping_nonce: u64,
    pub drop_every: Option<u64>,
    pub corrupt_every: Option<u64>,
    pub disconnect_after: Option<u64>,
    pub stats: SimulatorStats,
}

/// Whether batch `count` is one of every `period`.
pub open spec fn periodic_fault(period: Option<u64>, count: u64) -> bool {
    match period {
        Some(p) => if p == 0 {
            count == 0
        } else {
            count % p == 0
        },
        None => false,
    }
}

fn periodic_fault_exec(period: Option<u64>, count: u64) -> (r: bool)
    ensures
        r == periodic_fault(period, count),
{
    match period {
        Some(p) => if p == 0 {
            count == 0
        } else {
            count % p == 0
        },
        None => false,
    }
}

/// Why the first-revision simulator stops with an error.
#[derive(Clone, Copy, Debug, PartialEq, Eq, Structural)]
pub enum SimulatorV1Error {
    SampleIndexOverflow,
}

/// How the first-revision simulator answers one input: its new state and
/// the actions in order, or why it stops.
pub open spec fn spec_simulator_v1_step(s: SimulatorV1Session, input: SimulatorV1Input) -> Result<(SimulatorV1Session, Seq<SimulatorV1Action>), SimulatorV1Error> {
    match input {
        SimulatorV1Input::Hello => Ok((
            SimulatorV1Session { stats: SimulatorStats { hello_requests: bump64(s.stats.hello_requests), ..s.stats }, ..s },
            seq![SimulatorV1Action::SendHelloAck, SimulatorV1Action::SendChannelTable],
        )),
        SimulatorV1Input::Configure { sequence, batch_samples, accepted } => {
            let st = SimulatorStats { configure_requests: bump64(s.stats.configure_requests), ..s.stats };
            if accepted {
                Ok((
                    SimulatorV1Session { state: DeviceState::Configured, batch_samples, stats: st, ..s },
                    seq![SimulatorV1Action::SendConfigureResult { request_sequence: sequence, code: ResultCode::Success }],
                ))
            } else {
                Ok((
                    SimulatorV1Session { stats: st, ..s },
                    seq![SimulatorV1Action::SendConfigureResult { request_sequence: sequence, code: ResultCode::InvalidArgument }],
                ))
            }
        },
        SimulatorV1Input::Start { sequence } => {
            let st = SimulatorStats { start_requests: bump64(s.stats.start_requests), ..s.stats };
            if s.state == DeviceState::Configured {
                Ok((
                    SimulatorV1Session { state: DeviceState::Streaming, stats: st, ..s },
                    seq![SimulatorV1Action::SendCommandResult { request_sequence: sequence, code: ResultCode::Success }],
                ))
            } else {
                Ok((
                    SimulatorV1Session { stats: st, ..s },
                    seq![SimulatorV1Action::SendCommandResult { request_sequence: sequence, code: ResultCode::InvalidState }],
                ))
            }
        },
        SimulatorV1Input::Stop { sequence } => {
            let st = SimulatorStats { stop_requests: bump64(s.stats.stop_requests), ..s.stats };
            if s.state == DeviceState::Streaming {
                Ok((
                    SimulatorV1Session { state: DeviceState::Configured, stats: st, ..s },
                    seq![SimulatorV1Action::SendCommandResult { request_sequence: sequence, code: ResultCode::Success }],
                ))
            } else {
                Ok((
                    SimulatorV1Session { stats: st, ..s },
                    seq![SimulatorV1Action::SendCommandResult { request_sequence: sequence, code: ResultCode::InvalidState }],
                ))
            }
        },
        SimulatorV1Input::Ping(n) => Ok((
            SimulatorV1Session { stats: SimulatorStats { ping_requests: bump64(s.stats.ping_requests), ..s.stats }, ..s },
            seq![SimulatorV1Action::SendPong(n)],
        )),
        SimulatorV1Input::Pong => Ok((
            SimulatorV1Session { stats: SimulatorStats { pongs_received: bump64(s.stats.pongs_received), ..s.stats }, ..s },
            Seq::empty(),
        )),
        SimulatorV1Input::PingDue => Ok((
            SimulatorV1Session {
                ping_nonce: next_u64(s.ping_nonce),
                stats: SimulatorStats { pings_sent: bump64(s.stats.pings_sent), ..s.stats },
                ..s
            },
            seq![SimulatorV1Action::SendPing(s.ping_nonce)],
        )),
        SimulatorV1Input::StreamTick => if s.state != DeviceState::Streaming {
            Ok((s, Seq::empty()))
        } else {
            let e = bump64(s.emitted_batches);
            let s1 = SimulatorV1Session {
                emitted_batches: e,
                stats: SimulatorStats { emitted_batches: bump64(s.stats.emitted_batches), ..s.stats },
                ..s
            };
            if s.disconnect_after == Some(e) {
                Ok((s1, seq![SimulatorV1Action::Disconnect]))
            } else if s.first_sample_index + s.batch_samples > u64::MAX {
                Err(SimulatorV1Error::SampleIndexOverflow)
            } else {
                let a = if periodic_fault(s.drop_every, e) {
                    SimulatorV1Action::DropSampleFrame
                } else {
                    SimulatorV1Action::EmitSampleFrame {
                        first_sample_index: s.first_sample_index,
                        corrupt: periodic_fault(s.corrupt_every, e),
                    }
                };
                Ok((SimulatorV1Session { first_sample_index: (s.first_sample_index + s.batch_samples) as u64, ..s1 }, seq![a]))
            }
        },
    }
}

fn simv1_one(a: SimulatorV1Action) -> (r: Vec<SimulatorV1Action>)
    ensures
        r@ == seq![a],
{
    let mut v: Vec<SimulatorV1Action> = Vec::new();
    v.push(a);
    assert(v@ =~= seq![a]);
    v
}

impl SimulatorV1Session {
    /// An idle device with the fault schedule of its configuration.
    pub fn new(batch_samples: u16, drop_every: Option<u64>, corrupt_every: Option<u64>, disconnect_after: Option<u64>) -> (r: Self)
        ensures
            r.state == DeviceState::Idle,
            r.batch_samples == batch_samples,
            r.first_sample_index == 0,
            r.emitted_batches == 0,
            r.ping_nonce == 1,
            r.drop_every == drop_every,
            r.corrupt_every == corrupt_every,
            r.disconnect_after == disconnect_after,
    {
        SimulatorV1Session {
            state: DeviceState::Idle,
            batch_samples,
            first_sample_index: 0,
            emitted_batches: 0,
            ping_nonce: 1,
            drop_every,
            corrupt_every,
            disconnect_after,
            stats: SimulatorStats::default(),
        }
    }
}

/// One step of the first-revision simulator.
pub fn simulator_v1_step(state: &mut SimulatorV1Session, input: SimulatorV1Input) -> (r: Result<Vec<SimulatorV1Action>, SimulatorV1Error>)
    ensures
        match spec_simulator_v1_step(*old(state), input) {
            Ok((s, a)) => r matches Ok(v) && v@ == a && *final(state) == s,
            Err(e) => r == Err::<Vec<SimulatorV1Action>, SimulatorV1Error>(e),
        },
{
    match input {
        SimulatorV1Input::Hello => {
            state.stats.hello_requests = bump(state.stats.hello_requests);
            let mut v = simv1_one(SimulatorV1Action::SendHelloAck);
            v.push(SimulatorV1Action::SendChannelTable);
            assert(v@ =~= seq![SimulatorV1Action::SendHelloAck, SimulatorV1Action::SendChannelTable]);
            Ok(v)
        },
        SimulatorV1Input::Configure { sequence, batch_samples, accepted } => {
            state.stats.configure_requests = bump(state.stats.configure_requests);
            if accepted {
                state.state = DeviceState::Configured;
                state.batch_samples = batch_samples;
                Ok(simv1_one(SimulatorV1Action::SendConfigureResult { request_sequence: sequence, code: ResultCode::Success }))
            } else {
                Ok(simv1_one(SimulatorV1Action::SendConfigureResult { request_sequence: sequence, code: ResultCode::InvalidArgument }))
            }
        },
        SimulatorV1Input::Start { sequence } => {
            state.stats.start_requests = bump(state.stats.start_requests);
            if state.state == DeviceState::Configured {
                state.state = DeviceState::Streaming;
                Ok(simv1_one(SimulatorV1Action::SendCommandResult { request_sequence: sequence, code: ResultCode::Success }))
            } else {
                Ok(simv1_one(SimulatorV1Action::SendCommandResult { request_sequence: sequence, code: ResultCode::InvalidState }))
            }
        },
        SimulatorV1Input::Stop { sequence } => {
            state.stats.stop_requests = bump(state.stats.stop_requests);
            if state.state == DeviceState::Streaming {
                state.state = DeviceState::Configured;
                Ok(simv1_one(SimulatorV1Action::SendCommandResult { request_sequence: sequence, code: ResultCode::Success }))
            } else {
                Ok(simv1_one(SimulatorV1Action::SendCommandResult { request_sequence: sequence, code: ResultCode::InvalidState }))
            }
        },
        SimulatorV1Input::Ping(n) => {
            state.stats.ping_requests = bump(state.stats.ping_requests);
            Ok(simv1_one(SimulatorV1Action::SendPong(n)))
        },
        SimulatorV1Input::Pong => {
            state.stats.pongs_received = bump(state.stats.pongs_received);
            Ok(Vec::new())
        },
        SimulatorV1Input::PingDue => {
            let n = state.ping_nonce;
            state.ping_nonce = if n == u64::MAX {
                0
            } else {
                n + 1
            };
            state.stats.pings_sent = bump(state.stats.pings_sent);
            Ok(simv1_one(SimulatorV1Action::SendPing(n)))
        },
        SimulatorV1Input::StreamTick => {
            if state.state != DeviceState::Streaming {
                return Ok(Vec::new());
            }
            let e = bump(state.emitted_batches);
            if state.disconnect_after == Some(e) {
                state.emitted_batches = e;
                state.stats.emitted_batches = bump(state.stats.emitted_batches);
                return Ok(simv1_one(SimulatorV1Action::Disconnect));
            }
            if state.first_sample_index > u64::MAX - state.batch_samples as u64 {
                return Err(SimulatorV1Error::SampleIndexOverflow);
            }
            state.emitted_batches = e;
            state.stats.emitted_batches = bump(state.stats.emitted_batches);
            let a = if periodic_fault_exec(state.drop_every, e) {
                SimulatorV1Action::DropSampleFrame
            } else {
                SimulatorV1Action::EmitSampleFrame {
                    first_sample_index: state.first_sample_index,
                    corrupt: periodic_fault_exec(state.corrupt_every, e),
                }
            };
            state.first_sample_index = state.first_sample_index + state.batch_samples as u64;
            Ok(simv1_one(a))
        },
    }
}

// ---------------------------------------------------------------------------
// Which frames reach the second-revision simulator
// ---------------------------------------------------------------------------

/// Where a received frame goes.
#[derive(Clone, Copy, Debug, PartialEq, Eq, Structural)]
pub enum V2FrameRoute {
    /// Dropped without a reply: another protocol version, a payload that
    /// does not decode, or a second-revision message the device never takes.
    Ignore,
    /// A second-revision request, decoded.
    Request(SimulatorRequest),
    /// A message of the common set (hello, start, stop, ping, pong), which
    /// its own codec decodes; that codec drops what it does not know.
    Common,
}

/// The message types that the second-revision codec decodes into requests.
pub open spec fn is_v2_request_type(t: u8) -> bool {
    t == MSG_CONFIGURE_STREAM || t == MSG_ARM_CAPTURE || t == MSG_MANUAL_TRIGGER || t
        == MSG_CANCEL_CAPTURE
}

pub open spec fn spec_route_v2_frame(f: FrameView) -> V2FrameRoute {
    if f.version != PROTOCOL_VERSION_V2 {
        V2FrameRoute::Ignore
    } else if is_v2_request_type(f.message_type) {
        if f.payload.len() > MAX_PAYLOAD_LEN {
            V2FrameRoute::Ignore
        } else {
            match parse_message(f.message_type, f.payload) {
                Some(MessageV2V::ConfigureStream(c)) => V2FrameRoute::Request(
                    SimulatorRequest::ConfigureStream { sequence: f.sequence, request: c },
                ),
                Some(MessageV2V::ArmCapture(c)) => V2FrameRoute::Request(
                    SimulatorRequest::ArmCapture(c),
                ),
                Some(MessageV2V::ManualTrigger(t)) => V2FrameRoute::Request(
                    SimulatorRequest::ManualTrigger(t),
                ),
                Some(MessageV2V::CancelCapture(c)) => V2FrameRoute::Request(
                    SimulatorRequest::CancelCapture(c),
                ),
                _ => V2FrameRoute::Ignore,
            }
        }
    } else if known_message_type(f.message_type) {
        V2FrameRoute::Ignore
    } else {
        V2FrameRoute::Common
    }
}

/// Routes a frame read from the client: only version-2 frames are
/// answered, and a configuration request carries the frame's sequence.
pub fn route_v2_frame(frame: &Frame) -> (r: V2FrameRoute)
    ensures
        r == spec_route_v2_frame(frame@),
        frame.version != PROTOCOL_VERSION_V2 ==> r == V2FrameRoute::Ignore,
{
    if frame.version != PROTOCOL_VERSION_V2 {
        return V2FrameRoute::Ignore;
    }
    let t = frame.message_type;
    if t == MSG_CONFIGURE_STREAM || t == MSG_ARM_CAPTURE || t == MSG_MANUAL_TRIGGER || t
        == MSG_CANCEL_CAPTURE {
        match MessageV2::decode(t, frame.payload.as_slice()) {
            Ok(MessageV2::ConfigureStream(c)) => V2FrameRoute::Request(
                SimulatorRequest::ConfigureStream { sequence: frame.sequence, request: c },
            ),
            Ok(MessageV2::ArmCapture(c)) => V2FrameRoute::Request(SimulatorRequest::ArmCapture(c)),
            Ok(MessageV2::ManualTrigger(m)) => V2FrameRoute::Request(
                SimulatorRequest::ManualTrigger(m),
            ),
            Ok(MessageV2::CancelCapture(c)) => V2FrameRoute::Request(
                SimulatorRequest::CancelCapture(c),
            ),
            _ => V2FrameRoute::Ignore,
        }
    } else if known_v2_type(t) {
        V2FrameRoute::Ignore
    } else {
        V2FrameRoute::Common
    }
}

fn known_v2_type(t: u8) -> (r: bool)
    ensures
        r == known_message_type(t),
{
    t == crate::protocol_v2::MSG_STREAM_TABLE || t == MSG_CONFIGURE_STREAM || t
        == crate::protocol_v2::MSG_STREAM_SAMPLE_BATCH || t == MSG_ARM_CAPTURE || t
        == MSG_MANUAL_TRIGGER || t == MSG_CANCEL_CAPTURE || t
        == crate::protocol_v2::MSG_CAPTURE_STATUS || t == crate::protocol_v2::MSG_CAPTURE_BEGIN || t
        == crate::protocol_v2::MSG_CAPTURE_DATA || t == crate::protocol_v2::MSG_CAPTURE_END
}

} // verus!
