//! The decisions of a second-revision live session, as a state machine.
//!
//! The caller owns the socket, the clock and the queues. It hands each
//! event to [`session_v2_step`] and performs the actions it gets back:
//! frames to send, states and reports to publish, snapshots to forward. The
//! step keeps the handshake order (HELLO_ACK, CHANNEL_TABLE, STREAM_TABLE),
//! the commands awaiting a result, the heartbeat, the per-stream timing and
//! the capture being assembled, and decides when the session must end.

use std::collections::HashMap;

use vstd::prelude::*;

use crate::capture_v2::{ArmCapture, CancelCapture, CaptureBegin, CaptureEnd, ManualTrigger};
use crate::hardware_capture::{
    assembler_wf, begin_ok, begun, spec_finish, spec_push, AssembledCapture, AssemblerView, CaptureAssembler,
    CaptureDescriptorV, CaptureError,
};
use crate::messages_v2::CaptureData;
use crate::protocol::{ChannelDescriptor, ChannelTable, PROTOCOL_VERSION_V2};
use crate::protocol_v2::{
    lookup_stream, sample_period_ok, valid_against_channels, validate_stream_sample_period, ConfigureStream,
    StreamDescriptorV, StreamTable, StreamTableV, CAPABILITY_V2_STREAMS,
};
use crate::session::{ConnectionState, DeviceState, SessionStats};
use crate::stream_timing::{timing_after, validate_v2_stream_timing, StreamTimingError};

verus! {

/// What the peer announced in HELLO_ACK that the session relies on.
#[derive(Clone, Copy, Debug, PartialEq, Eq, Structural)]
pub struct HelloAckInfo {
    pub device_capabilities: u32,
    pub channel_count: u16,
    pub tick_hz: u64,
}

/// A command sent and still awaiting its COMMAND_RESULT.
#[derive(Clone, Copy, Debug, PartialEq, Eq, Structural)]
pub enum PendingCommand {
    ConfigureStream(ConfigureStream),
    Start,
    Stop,
}

/// What the owner of a session asks of it.
#[derive(Clone, Copy, Debug, PartialEq, Eq, Structural)]
pub enum SessionV2Command {
    ConfigureStream(ConfigureStream),
    Start,
    Stop,
    Ping(u64),
    ArmCapture(ArmCapture),
    ManualTrigger(ManualTrigger),
    CancelCapture(CancelCapture),
    /// A command of the first protocol revision.
    FirstRevisionCommand,
    Disconnect,
}

/// A decoded message the peer sent.
pub enum InboundV2 {
    HelloAck(HelloAckInfo),
    ChannelTable(ChannelTable),
    CommandResult { request_sequence: u32, ok: bool },
    /// A sample batch, decoded by the caller: its stream, period, first
    /// timestamp, row count and first and last row sequences.
    StreamBatch { stream_id: u16, sample_period_ticks: u32, timestamp_ticks: u64, rows: usize, first_row: u64, last_row: u64 },
    Ping(u64),
    CaptureBegin(CaptureBegin),
    CaptureData(CaptureData),
    CaptureEnd(CaptureEnd),
    CaptureStatus,
    StreamTable(StreamTable),
    Status { state: DeviceState, dropped_samples: u64, tx_overruns: u32 },
    Pong(u64),
    DeviceError,
    Other,
}

/// What happened that the session must decide on.
pub enum SessionV2Event {
    Command(SessionV2Command),
    /// The clock: whether nothing valid arrived for the heartbeat timeout,
    /// and whether a ping is due.
    Tick { heartbeat_expired: bool, ping_due: bool },
    DisconnectRequested,
    DecoderStats { crc_errors: u64, malformed_headers: u64, discarded_bytes: u64 },
    Frame { version: u8, session_id: u32, message: InboundV2 },
    /// The data queue was full and a forwarded snapshot was dropped.
    SnapshotDropped { stream_id: u16, first_row: u64, last_row: u64, rows: u64 },
}

/// A message of the common set to send.
#[derive(Clone, Copy, Debug, PartialEq, Eq, Structural)]
pub enum CommonOut {
    Start,
    Stop,
    Ping(u64),
    Pong(u64),
}

/// A second-revision message to send.
#[derive(Clone, Copy, Debug, PartialEq, Eq, Structural)]
pub enum V2Out {
    ConfigureStream(ConfigureStream),
    ArmCapture(ArmCapture),
    ManualTrigger(ManualTrigger),
    CancelCapture(CancelCapture),
}

/// What the caller must do.
#[derive(Clone, Copy, Debug, PartialEq, Eq, Structural)]
pub enum SessionV2Action {
    SendCommon { sequence: u32, session_id: u32, message: CommonOut },
    SendV2 { sequence: u32, session_id: u32, message: V2Out },
    State(ConnectionState),
    ReportHelloAck,
    ReportChannelTable,
    ReportStreamTable,
    ReportCommandResult,
    ReportConfigured(ConfigureStream),
    ReportCaptureStatus,
    ReportCaptureComplete,
    ReportCaptureFailure(CaptureError),
    ReportDeviceError,
    ReportNonV2Frame,
    ReportUnexpectedPong(u64),
    /// Publish the counters on the data queue, dropping them when it is full.
    PublishStats(SessionStats),
    /// Publish the counters on the control queue.
    ControlStats(SessionStats),
    /// Forward the decoded batch on the data queue.
    ForwardSnapshot { stream_id: u16, first_row: u64, last_row: u64, rows: u64 },
    ResetReceiveClock,
    ResetPingClock,
}

/// Why a session ends with an error.
#[derive(Clone, Copy, Debug, PartialEq, Eq, Structural)]
pub enum SessionV2Fault {
    FirstRevisionCommand,
    HeartbeatTimeout,
    NotNegotiated,
    ChannelTableBeforeHelloAck,
    ChannelCountMismatch,
    SampleBeforeChannelTable,
    SampleBeforeStreamTable,
    UnknownStream,
    SampleBeforeHelloAck,
    PeriodMismatch,
    Timing(StreamTimingError),
    CaptureBeginBeforeStreamTable,
    CaptureBeginUnknownStream,
    CaptureBeginRejected,
    CaptureDataBeforeChannelTable,
    CaptureDataBeforeStreamTable,
    CaptureDataUnknownStream,
    CaptureDataBeforeHelloAck,
    CaptureDataBeforeBegin,
    CaptureEndBeforeBegin,
    Capture(CaptureError),
    StreamTableBeforeChannelTable,
    StreamTableRejected,
}

/// Whether the session goes on, ends cleanly, or ends with an error.
#[derive(Clone, Copy, Debug, PartialEq, Eq, Structural)]
pub enum StepOutcome {
    Continue,
    Finish,
    Fault(SessionV2Fault),
}

/// The state of a second-revision session.
pub struct SessionV2State {
    pub out_sequence: u32,
    pub session_id: u32,
    pub hello: Option<HelloAckInfo>,
    pub channels: Option<ChannelTable>,
    pub streams: Option<StreamTable>,
    pub pending: HashMap<u32, PendingCommand>,
    pub capture: Option<CaptureAssembler>,
    pub stats: SessionStats,
    pub streaming: bool,
    pub ping_nonce: u64,
    pub outstanding_ping: Option<u64>,
    pub timing: HashMap<u16, (u32, u64)>,
}

pub struct SessionV2View {
    pub out_sequence: u32,
    pub session_id: u32,
    pub hello: Option<HelloAckInfo>,
    pub channels: Option<Seq<ChannelDescriptor>>,
    pub streams: Option<StreamTableV>,
    pub pending: Map<u32, PendingCommand>,
    pub capture: Option<AssemblerView>,
    pub stats: SessionStats,
    pub streaming: bool,
    pub ping_nonce: u64,
    pub outstanding_ping: Option<u64>,
    pub timing: Map<u16, (u32, u64)>,
}

impl View for SessionV2State {
    type V = SessionV2View;

    open spec fn view(&self) -> SessionV2View {
        SessionV2View {
            out_sequence: self.out_sequence,
            session_id: self.session_id,
            hello: self.hello,
            channels: match self.channels {
                Some(t) => Some(t.channels@),
                None => None,
            },
            streams: match self.streams {
                Some(t) => Some(t@),
                None => None,
            },
            pending: self.pending@,
            capture: match self.capture {
                Some(a) => Some(a@),
                None => None,
            },
            stats: self.stats,
            streaming: self.streaming,
            ping_nonce: self.ping_nonce,
            outstanding_ping: self.outstanding_ping,
            timing: self.timing@,
        }
    }
}

/// A state whose capture, if any, is a well-formed assembler.
pub open spec fn session_v2_wf(s: SessionV2View) -> bool {
    s.capture matches Some(a) ==> assembler_wf(a)
}

pub open spec fn bump64(x: u64) -> u64 {
    if x == u64::MAX {
        x
    } else {
        (x + 1) as u64
    }
}

pub open spec fn sat_add64(x: u64, y: u64) -> u64 {
    if x + y > u64::MAX {
        u64::MAX
    } else {
        (x + y) as u64
    }
}

pub open spec fn next_u32(x: u32) -> u32 {
    if x == u32::MAX {
        0
    } else {
        (x + 1) as u32
    }
}

pub open spec fn next_u64(x: u64) -> u64 {
    if x == u64::MAX {
        0
    } else {
        (x + 1) as u64
    }
}

/// Sends a common message under the next sequence number.
pub open spec fn send_common(s: SessionV2View, m: CommonOut) -> (SessionV2View, SessionV2Action) {
    (
        SessionV2View { out_sequence: next_u32(s.out_sequence), ..s },
        SessionV2Action::SendCommon { sequence: s.out_sequence, session_id: s.session_id, message: m },
    )
}

/// Sends a second-revision message under the next sequence number.
pub open spec fn send_v2(s: SessionV2View, m: V2Out) -> (SessionV2View, SessionV2Action) {
    (
        SessionV2View { out_sequence: next_u32(s.out_sequence), ..s },
        SessionV2Action::SendV2 { sequence: s.out_sequence, session_id: s.session_id, message: m },
    )
}

/// Ending the session: a streaming session is stopped first.
pub open spec fn spec_disconnect(s: SessionV2View) -> (SessionV2View, Seq<SessionV2Action>, StepOutcome) {
    if s.streaming {
        let (s1, a) = send_common(s, CommonOut::Stop);
        (s1, seq![a], StepOutcome::Finish)
    } else {
        (s, Seq::empty(), StepOutcome::Finish)
    }
}

pub open spec fn spec_command(s: SessionV2View, c: SessionV2Command) -> (SessionV2View, Seq<SessionV2Action>, StepOutcome) {
    match c {
        SessionV2Command::ConfigureStream(cfg) => {
            let (s1, a) = send_v2(s, V2Out::ConfigureStream(cfg));
            (
                SessionV2View { pending: s1.pending.insert(s.out_sequence, PendingCommand::ConfigureStream(cfg)), ..s1 },
                seq![a, SessionV2Action::State(ConnectionState::Configuring)],
                StepOutcome::Continue,
            )
        },
        SessionV2Command::Start => {
            let (s1, a) = send_common(s, CommonOut::Start);
            (SessionV2View { pending: s1.pending.insert(s.out_sequence, PendingCommand::Start), ..s1 }, seq![a], StepOutcome::Continue)
        },
        SessionV2Command::Stop => {
            let (s1, a) = send_common(s, CommonOut::Stop);
            (SessionV2View { pending: s1.pending.insert(s.out_sequence, PendingCommand::Stop), ..s1 }, seq![a], StepOutcome::Continue)
        },
        SessionV2Command::Ping(n) => {
            let (s1, a) = send_common(s, CommonOut::Ping(n));
            (s1, seq![a], StepOutcome::Continue)
        },
        SessionV2Command::ArmCapture(x) => {
            let (s1, a) = send_v2(s, V2Out::ArmCapture(x));
            (s1, seq![a], StepOutcome::Continue)
        },
        SessionV2Command::ManualTrigger(x) => {
            let (s1, a) = send_v2(s, V2Out::ManualTrigger(x));
            (s1, seq![a], StepOutcome::Continue)
        },
        SessionV2Command::CancelCapture(x) => {
            let (s1, a) = send_v2(s, V2Out::CancelCapture(x));
            (s1, seq![a], StepOutcome::Continue)
        },
        SessionV2Command::FirstRevisionCommand => (s, Seq::empty(), StepOutcome::Fault(SessionV2Fault::FirstRevisionCommand)),
        SessionV2Command::Disconnect => spec_disconnect(s),
    }
}

/// The descriptor a capture of stream `d` must keep to.
pub open spec fn expected_of(d: StreamDescriptorV, revision: u32) -> CaptureDescriptorV {
    CaptureDescriptorV {
        stream_id: d.stream_id,
        stream_revision: revision,
        domain: d.domain,
        capture_phase: d.capture_phase,
        consistency_group: d.consistency_group,
        channel_ids: d.channel_ids,
        sample_period_ticks: 0,
    }
}

pub open spec fn with_stats(s: SessionV2View, st: SessionStats) -> SessionV2View {
    SessionV2View { stats: st, ..s }
}

pub open spec fn fault(s: SessionV2View, f: SessionV2Fault) -> (SessionV2View, Seq<SessionV2Action>, StepOutcome) {
    (s, Seq::empty(), StepOutcome::Fault(f))
}

pub open spec fn spec_batch(
    s: SessionV2View,
    stream_id: u16,
    period: u32,
    timestamp: u64,
    rows: usize,
    first_row: u64,
    last_row: u64,
) -> (SessionV2View, Seq<SessionV2Action>, StepOutcome) {
    if s.channels is None {
        fault(s, SessionV2Fault::SampleBeforeChannelTable)
    } else if s.streams is None {
        fault(s, SessionV2Fault::SampleBeforeStreamTable)
    } else {
        match lookup_stream(s.streams.unwrap().streams, stream_id) {
            None => fault(s, SessionV2Fault::UnknownStream),
            Some(d) => match s.hello {
                None => fault(s, SessionV2Fault::SampleBeforeHelloAck),
                Some(h) => if !sample_period_ok(h.tick_hz, d.sample_rate_hz, period) {
                    fault(s, SessionV2Fault::PeriodMismatch)
                } else {
                    match timing_after(s.timing, stream_id, period, timestamp, rows as nat) {
                        Err(e) => fault(s, SessionV2Fault::Timing(e)),
                        Ok(m) => {
                            let st = SessionStats {
                                received_batches: bump64(s.stats.received_batches),
                                received_samples: sat_add64(s.stats.received_samples, (rows as u32) as u64),
                                ..s.stats
                            };
                            (
                                SessionV2View { timing: m, stats: st, ..s },
                                seq![SessionV2Action::ForwardSnapshot { stream_id, first_row, last_row, rows: rows as u64 }],
                                StepOutcome::Continue,
                            )
                        },
                    }
                },
            },
        }
    }
}

pub open spec fn spec_capture_data(s: SessionV2View, d: CaptureData) -> (SessionV2View, Seq<SessionV2Action>, StepOutcome) {
    if s.channels is None {
        fault(s, SessionV2Fault::CaptureDataBeforeChannelTable)
    } else if s.streams is None {
        fault(s, SessionV2Fault::CaptureDataBeforeStreamTable)
    } else {
        match lookup_stream(s.streams.unwrap().streams, d.batch.stream_id) {
            None => fault(s, SessionV2Fault::CaptureDataUnknownStream),
            Some(desc) => match s.hello {
                None => fault(s, SessionV2Fault::CaptureDataBeforeHelloAck),
                Some(h) => if !sample_period_ok(h.tick_hz, desc.sample_rate_hz, d.batch.sample_period_ticks) {
                    fault(s, SessionV2Fault::PeriodMismatch)
                } else {
                    match s.capture {
                        None => fault(s, SessionV2Fault::CaptureDataBeforeBegin),
                        Some(a) => match spec_push(a, d@).1 {
                            Some(e) => fault(s, SessionV2Fault::Capture(e)),
                            None => (SessionV2View { capture: Some(spec_push(a, d@).0), ..s }, Seq::empty(), StepOutcome::Continue),
                        },
                    }
                },
            },
        }
    }
}

pub open spec fn spec_message(s: SessionV2View, frame_session: u32, m: InboundV2) -> (SessionV2View, Seq<SessionV2Action>, StepOutcome) {
    match m {
        InboundV2::HelloAck(h) => if frame_session == 0 || h.device_capabilities & CAPABILITY_V2_STREAMS == 0 {
            fault(s, SessionV2Fault::NotNegotiated)
        } else {
            (SessionV2View { session_id: frame_session, hello: Some(h), ..s }, seq![SessionV2Action::ReportHelloAck], StepOutcome::Continue)
        },
        InboundV2::ChannelTable(t) => match s.hello {
            None => fault(s, SessionV2Fault::ChannelTableBeforeHelloAck),
            Some(h) => if h.channel_count != t.channels@.len() {
                fault(s, SessionV2Fault::ChannelCountMismatch)
            } else {
                (SessionV2View { channels: Some(t.channels@), ..s }, seq![SessionV2Action::ReportChannelTable], StepOutcome::Continue)
            },
        },
        InboundV2::CommandResult { request_sequence, ok } => if ok && s.pending.contains_key(request_sequence) {
            let s1 = SessionV2View { pending: s.pending.remove(request_sequence), ..s };
            match s.pending[request_sequence] {
                PendingCommand::ConfigureStream(c) => (
                    s1,
                    seq![
                        SessionV2Action::ReportConfigured(c),
                        SessionV2Action::State(ConnectionState::Ready),
                        SessionV2Action::ReportCommandResult,
                    ],
                    StepOutcome::Continue,
                ),
                PendingCommand::Start => (
                    SessionV2View { streaming: true, ..s1 },
                    seq![SessionV2Action::State(ConnectionState::Streaming), SessionV2Action::ReportCommandResult],
                    StepOutcome::Continue,
                ),
                PendingCommand::Stop => (
                    SessionV2View { streaming: false, ..s1 },
                    seq![SessionV2Action::State(ConnectionState::Ready), SessionV2Action::ReportCommandResult],
                    StepOutcome::Continue,
                ),
            }
        } else {
            (s, seq![SessionV2Action::ReportCommandResult], StepOutcome::Continue)
        },
        InboundV2::StreamBatch { stream_id, sample_period_ticks, timestamp_ticks, rows, first_row, last_row } => spec_batch(
            s,
            stream_id,
            sample_period_ticks,
            timestamp_ticks,
            rows,
            first_row,
            last_row,
        ),
        InboundV2::Ping(n) => {
            let (s1, a) = send_common(s, CommonOut::Pong(n));
            (s1, seq![a], StepOutcome::Continue)
        },
        InboundV2::CaptureBegin(b) => match s.streams {
            None => fault(s, SessionV2Fault::CaptureBeginBeforeStreamTable),
            Some(t) => match lookup_stream(t.streams, b.stream_id) {
                None => fault(s, SessionV2Fault::CaptureBeginUnknownStream),
                Some(d) => if !(b.stream_id == d.stream_id && begin_ok(b)) {
                    fault(s, SessionV2Fault::CaptureBeginRejected)
                } else {
                    (
                        SessionV2View { capture: Some(begun(b, Some(expected_of(d, t.revision)))), ..s },
                        Seq::empty(),
                        StepOutcome::Continue,
                    )
                },
            },
        },
        InboundV2::CaptureData(d) => spec_capture_data(s, d),
        InboundV2::CaptureEnd(end) => match s.capture {
            None => fault(s, SessionV2Fault::CaptureEndBeforeBegin),
            Some(a) => match spec_finish(a, end).1 {
                None => (SessionV2View { capture: None, ..s }, seq![SessionV2Action::ReportCaptureComplete], StepOutcome::Continue),
                Some(e) => {
                    let st = SessionStats { capture_processing_overruns: bump64(s.stats.capture_processing_overruns), ..s.stats };
                    (
                        SessionV2View { capture: None, stats: st, ..s },
                        seq![SessionV2Action::PublishStats(st), SessionV2Action::ReportCaptureFailure(e)],
                        StepOutcome::Fault(SessionV2Fault::Capture(e)),
                    )
                },
            },
        },
        InboundV2::CaptureStatus => (s, seq![SessionV2Action::ReportCaptureStatus], StepOutcome::Continue),
        InboundV2::StreamTable(t) => match s.channels {
            None => fault(s, SessionV2Fault::StreamTableBeforeChannelTable),
            Some(ch) => if !valid_against_channels(t@, ch) {
                fault(s, SessionV2Fault::StreamTableRejected)
            } else {
                (
                    SessionV2View { streams: Some(t@), ..s },
                    seq![SessionV2Action::ReportStreamTable, SessionV2Action::State(ConnectionState::Ready)],
                    StepOutcome::Continue,
                )
            },
        },
        InboundV2::Status { state, dropped_samples, tx_overruns } => {
            let st = SessionStats {
                device_dropped_samples: dropped_samples,
                device_tx_overruns: tx_overruns as u64,
                device_state: Some(state),
                ..s.stats
            };
            (with_stats(s, st), seq![SessionV2Action::PublishStats(st)], StepOutcome::Continue)
        },
        InboundV2::Pong(n) => if s.outstanding_ping == Some(n) {
            let st = SessionStats {
                last_pong_nonce: Some(n),
                heartbeat_round_trip_count: bump64(s.stats.heartbeat_round_trip_count),
                ..s.stats
            };
            (
                SessionV2View { stats: st, outstanding_ping: None, ..s },
                seq![SessionV2Action::PublishStats(st)],
                StepOutcome::Continue,
            )
        } else {
            let st = SessionStats {
                last_pong_nonce: Some(n),
                heartbeat_timeout_count: bump64(s.stats.heartbeat_timeout_count),
                protocol_errors: bump64(s.stats.protocol_errors),
                ..s.stats
            };
            (
                with_stats(s, st),
                seq![SessionV2Action::ReportUnexpectedPong(n), SessionV2Action::PublishStats(st)],
                StepOutcome::Continue,
            )
        },
        InboundV2::DeviceError => (s, seq![SessionV2Action::ReportDeviceError], StepOutcome::Continue),
        InboundV2::Other => (
            with_stats(s, SessionStats { unknown_messages: bump64(s.stats.unknown_messages), ..s.stats }),
            Seq::empty(),
            StepOutcome::Continue,
        ),
    }
}

/// One step of a session: the new state, the actions to perform in order,
/// and whether the session goes on.
pub open spec fn spec_session_v2_step(s: SessionV2View, e: SessionV2Event) -> (SessionV2View, Seq<SessionV2Action>, StepOutcome) {
    match e {
        SessionV2Event::Command(c) => spec_command(s, c),
        SessionV2Event::Tick { heartbeat_expired, ping_due } => if s.session_id != 0 && heartbeat_expired {
            let st = SessionStats { heartbeat_timeout_count: bump64(s.stats.heartbeat_timeout_count), ..s.stats };
            (with_stats(s, st), seq![SessionV2Action::PublishStats(st)], StepOutcome::Fault(SessionV2Fault::HeartbeatTimeout))
        } else if s.session_id != 0 && ping_due {
            let (s1, a) = send_common(s, CommonOut::Ping(s.ping_nonce));
            (
                SessionV2View { outstanding_ping: Some(s.ping_nonce), ping_nonce: next_u64(s.ping_nonce), ..s1 },
                seq![a, SessionV2Action::ResetPingClock],
                StepOutcome::Continue,
            )
        } else {
            (s, Seq::empty(), StepOutcome::Continue)
        },
        SessionV2Event::DisconnectRequested => spec_disconnect(s),
        SessionV2Event::DecoderStats { crc_errors, malformed_headers, discarded_bytes } => (
            with_stats(s, SessionStats { crc_errors, malformed_headers, discarded_bytes, ..s.stats }),
            Seq::empty(),
            StepOutcome::Continue,
        ),
        SessionV2Event::Frame { version, session_id, message } => if version != PROTOCOL_VERSION_V2 {
            (
                with_stats(s, SessionStats { protocol_errors: bump64(s.stats.protocol_errors), ..s.stats }),
                seq![SessionV2Action::ReportNonV2Frame],
                StepOutcome::Continue,
            )
        } else if s.session_id != 0 && session_id != s.session_id {
            (
                with_stats(s, SessionStats { protocol_errors: bump64(s.stats.protocol_errors), ..s.stats }),
                Seq::empty(),
                StepOutcome::Continue,
            )
        } else {
            let s1 = with_stats(s, SessionStats { received_frames: bump64(s.stats.received_frames), ..s.stats });
            let (s2, acts, out) = spec_message(s1, session_id, message);
            (s2, seq![SessionV2Action::ResetReceiveClock] + acts, out)
        },
        SessionV2Event::SnapshotDropped { stream_id, first_row, last_row, rows } => {
            let st = SessionStats {
                host_dropped_v2_batches: bump64(s.stats.host_dropped_v2_batches),
                host_dropped_v2_rows: sat_add64(s.stats.host_dropped_v2_rows, rows),
                v2_snapshot_queue_overruns: bump64(s.stats.v2_snapshot_queue_overruns),
                last_dropped_v2_stream_id: Some(stream_id),
                last_dropped_v2_first_row: Some(first_row),
                last_dropped_v2_last_row: Some(last_row),
                ..s.stats
            };
            (with_stats(s, st), seq![SessionV2Action::ControlStats(st)], StepOutcome::Continue)
        },
    }
}


/// What one step hands back: the actions in order, whether the session goes
/// on, and the capture completed by this step, if any.
pub struct SessionV2Step {
    pub actions: Vec<SessionV2Action>,
    pub outcome: StepOutcome,
    pub completed: Option<AssembledCapture>,
}

fn bump64_exec(x: u64) -> (r: u64)
    ensures
        r == bump64(x),
{
    if x == u64::MAX {
        x
    } else {
        x + 1
    }
}

fn sat_add64_exec(x: u64, y: u64) -> (r: u64)
    ensures
        r == sat_add64(x, y),
{
    if x > u64::MAX - y {
        u64::MAX
    } else {
        x + y
    }
}

fn step_of(actions: Vec<SessionV2Action>, outcome: StepOutcome) -> (r: SessionV2Step)
    ensures
        r.actions@ == actions@,
        r.outcome == outcome,
        r.completed is None,
{
    SessionV2Step { actions, outcome, completed: None }
}

fn fault_step(f: SessionV2Fault) -> (r: SessionV2Step)
    ensures
        r.actions@ == Seq::<SessionV2Action>::empty(),
        r.outcome == StepOutcome::Fault(f),
        r.completed is None,
{
    step_of(Vec::new(), StepOutcome::Fault(f))
}

fn one(a: SessionV2Action) -> (r: Vec<SessionV2Action>)
    ensures
        r@ == seq![a],
{
    let mut v: Vec<SessionV2Action> = Vec::new();
    v.push(a);
    assert(v@ =~= seq![a]);
    v
}

fn two(a: SessionV2Action, b: SessionV2Action) -> (r: Vec<SessionV2Action>)
    ensures
        r@ == seq![a, b],
{
    let mut v: Vec<SessionV2Action> = Vec::new();
    v.push(a);
    v.push(b);
    assert(v@ =~= seq![a, b]);
    v
}

/// The step's result agrees with the spec: the same actions and outcome,
/// and, unless the session fails, the same new state.
pub open spec fn step_matches(old_s: SessionV2View, new_s: SessionV2View, r: SessionV2Step, spec: (SessionV2View, Seq<SessionV2Action>, StepOutcome)) -> bool {
    &&& r.actions@ == spec.1
    &&& r.outcome == spec.2
    &&& !(r.outcome is Fault) ==> new_s == spec.0
}

impl SessionV2State {
    /// A session that has sent its HELLO and waits for HELLO_ACK.
    pub fn new() -> (r: Self)
        ensures
            r@.out_sequence == 1,
            r@.session_id == 0,
            r@.hello is None,
            r@.channels is None,
            r@.streams is None,
            r@.pending == Map::<u32, PendingCommand>::empty(),
            r@.capture is None,
            r@.stats == crate::session::initial_session_stats(),
            !r@.streaming,
            r@.ping_nonce == 1,
            r@.outstanding_ping is None,
            r@.timing == Map::<u16, (u32, u64)>::empty(),
    {
        SessionV2State {
            out_sequence: 1,
            session_id: 0,
            hello: None,
            channels: None,
            streams: None,
            pending: HashMap::new(),
            capture: None,
            stats: SessionStats::default(),
            streaming: false,
            ping_nonce: 1,
            outstanding_ping: None,
            timing: HashMap::new(),
        }
    }

    fn send_common(&mut self, m: CommonOut) -> (a: SessionV2Action)
        ensures
            (final(self)@, a) == send_common(old(self)@, m),
    {
        let a = SessionV2Action::SendCommon { sequence: self.out_sequence, session_id: self.session_id, message: m };
        self.out_sequence = if self.out_sequence == u32::MAX {
            0
        } else {
            self.out_sequence + 1
        };
        a
    }

    fn send_v2(&mut self, m: V2Out) -> (a: SessionV2Action)
        ensures
            (final(self)@, a) == send_v2(old(self)@, m),
    {
        let a = SessionV2Action::SendV2 { sequence: self.out_sequence, session_id: self.session_id, message: m };
        self.out_sequence = if self.out_sequence == u32::MAX {
            0
        } else {
            self.out_sequence + 1
        };
        a
    }

    fn disconnect(&mut self) -> (r: SessionV2Step)
        ensures
            step_matches(old(self)@, final(self)@, r, spec_disconnect(old(self)@)),
            r.completed is None,
            final(self)@.capture == old(self)@.capture,
    {
        if self.streaming {
            let a = self.send_common(CommonOut::Stop);
            step_of(one(a), StepOutcome::Finish)
        } else {
            step_of(Vec::new(), StepOutcome::Finish)
        }
    }

    fn command(&mut self, c: SessionV2Command) -> (r: SessionV2Step)
        ensures
            step_matches(old(self)@, final(self)@, r, spec_command(old(self)@, c)),
            r.completed is None,
            final(self)@.capture == old(self)@.capture,
    {
        match c {
            SessionV2Command::ConfigureStream(cfg) => {
                let seq = self.out_sequence;
                let a = self.send_v2(V2Out::ConfigureStream(cfg));
                self.pending.insert(seq, PendingCommand::ConfigureStream(cfg));
                step_of(two(a, SessionV2Action::State(ConnectionState::Configuring)), StepOutcome::Continue)
            },
            SessionV2Command::Start => {
                let seq = self.out_sequence;
                let a = self.send_common(CommonOut::Start);
                self.pending.insert(seq, PendingCommand::Start);
                step_of(one(a), StepOutcome::Continue)
            },
            SessionV2Command::Stop => {
                let seq = self.out_sequence;
                let a = self.send_common(CommonOut::Stop);
                self.pending.insert(seq, PendingCommand::Stop);
                step_of(one(a), StepOutcome::Continue)
            },
            SessionV2Command::Ping(n) => {
                let a = self.send_common(CommonOut::Ping(n));
                step_of(one(a), StepOutcome::Continue)
            },
            SessionV2Command::ArmCapture(x) => {
                let a = self.send_v2(V2Out::ArmCapture(x));
                step_of(one(a), StepOutcome::Continue)
            },
            SessionV2Command::ManualTrigger(x) => {
                let a = self.send_v2(V2Out::ManualTrigger(x));
                step_of(one(a), StepOutcome::Continue)
            },
            SessionV2Command::CancelCapture(x) => {
                let a = self.send_v2(V2Out::CancelCapture(x));
                step_of(one(a), StepOutcome::Continue)
            },
            SessionV2Command::FirstRevisionCommand => fault_step(SessionV2Fault::FirstRevisionCommand),
            SessionV2Command::Disconnect => self.disconnect(),
        }
    }
}


impl SessionV2State {
    fn batch(&mut self, stream_id: u16, period: u32, timestamp: u64, rows: usize, first_row: u64, last_row: u64) -> (r: SessionV2Step)
        ensures
            step_matches(
                old(self)@,
                final(self)@,
                r,
                spec_batch(old(self)@, stream_id, period, timestamp, rows, first_row, last_row),
            ),
            final(self)@.capture == old(self)@.capture,
            r.completed is None,
    {
        if self.channels.is_none() {
            return fault_step(SessionV2Fault::SampleBeforeChannelTable);
        }
        let t = match &self.streams {
            None => {
                return fault_step(SessionV2Fault::SampleBeforeStreamTable);
            },
            Some(t) => t,
        };
        let d = match t.stream(stream_id) {
            None => {
                return fault_step(SessionV2Fault::UnknownStream);
            },
            Some(d) => d,
        };
        let h = match self.hello {
            None => {
                return fault_step(SessionV2Fault::SampleBeforeHelloAck);
            },
            Some(h) => h,
        };
        if validate_stream_sample_period(h.tick_hz, d, period).is_err() {
            return fault_step(SessionV2Fault::PeriodMismatch);
        }
        match validate_v2_stream_timing(&mut self.timing, stream_id, period, timestamp, rows) {
            Err(e) => {
                return fault_step(SessionV2Fault::Timing(e));
            },
            Ok(()) => {},
        }
        let st = SessionStats {
            received_batches: bump64_exec(self.stats.received_batches),
            received_samples: sat_add64_exec(self.stats.received_samples, (rows as u32) as u64),
            ..self.stats
        };
        self.stats = st;
        step_of(
            one(SessionV2Action::ForwardSnapshot { stream_id, first_row, last_row, rows: rows as u64 }),
            StepOutcome::Continue,
        )
    }

    fn capture_data(&mut self, d: CaptureData) -> (r: SessionV2Step)
        requires
            session_v2_wf(old(self)@),
        ensures
            session_v2_wf(final(self)@),
            step_matches(old(self)@, final(self)@, r, spec_capture_data(old(self)@, d)),
            r.completed is None,
    {
        if self.channels.is_none() {
            return fault_step(SessionV2Fault::CaptureDataBeforeChannelTable);
        }
        let t = match &self.streams {
            None => {
                return fault_step(SessionV2Fault::CaptureDataBeforeStreamTable);
            },
            Some(t) => t,
        };
        let desc = match t.stream(d.batch.stream_id) {
            None => {
                return fault_step(SessionV2Fault::CaptureDataUnknownStream);
            },
            Some(x) => x,
        };
        let h = match self.hello {
            None => {
                return fault_step(SessionV2Fault::CaptureDataBeforeHelloAck);
            },
            Some(h) => h,
        };
        if validate_stream_sample_period(h.tick_hz, desc, d.batch.sample_period_ticks).is_err() {
            return fault_step(SessionV2Fault::PeriodMismatch);
        }
        match &mut self.capture {
            None => fault_step(SessionV2Fault::CaptureDataBeforeBegin),
            Some(a) => match a.push(d) {
                Err(e) => fault_step(SessionV2Fault::Capture(e)),
                Ok(()) => step_of(Vec::new(), StepOutcome::Continue),
            },
        }
    }
}


impl SessionV2State {
    fn message(&mut self, frame_session: u32, m: InboundV2) -> (r: SessionV2Step)
        requires
            session_v2_wf(old(self)@),
        ensures
            session_v2_wf(final(self)@),
            step_matches(old(self)@, final(self)@, r, spec_message(old(self)@, frame_session, m)),
            r.completed matches Some(c) ==> (old(self)@.capture matches Some(a) && a.begin == Some(c.begin)
                && crate::hardware_capture::batch_views(c.blocks@) == crate::hardware_capture::batches_of(a.blocks)),
    {
        match m {
            InboundV2::HelloAck(h) => {
                if frame_session == 0 || h.device_capabilities & CAPABILITY_V2_STREAMS == 0 {
                    return fault_step(SessionV2Fault::NotNegotiated);
                }
                self.session_id = frame_session;
                self.hello = Some(h);
                step_of(one(SessionV2Action::ReportHelloAck), StepOutcome::Continue)
            },
            InboundV2::ChannelTable(t) => {
                match self.hello {
                    None => fault_step(SessionV2Fault::ChannelTableBeforeHelloAck),
                    Some(h) => {
                        if h.channel_count as usize != t.channels.len() {
                            return fault_step(SessionV2Fault::ChannelCountMismatch);
                        }
                        self.channels = Some(t);
                        step_of(one(SessionV2Action::ReportChannelTable), StepOutcome::Continue)
                    },
                }
            },
            InboundV2::CommandResult { request_sequence, ok } => {
                if ok && self.pending.contains_key(&request_sequence) {
                    let cmd = self.pending.remove(&request_sequence);
                    match cmd {
                        Some(PendingCommand::ConfigureStream(c)) => {
                            let mut v = two(SessionV2Action::ReportConfigured(c), SessionV2Action::State(ConnectionState::Ready));
                            v.push(SessionV2Action::ReportCommandResult);
                            assert(v@ =~= seq![
                                SessionV2Action::ReportConfigured(c),
                                SessionV2Action::State(ConnectionState::Ready),
                                SessionV2Action::ReportCommandResult,
                            ]);
                            step_of(v, StepOutcome::Continue)
                        },
                        Some(PendingCommand::Start) => {
                            self.streaming = true;
                            step_of(
                                two(SessionV2Action::State(ConnectionState::Streaming), SessionV2Action::ReportCommandResult),
                                StepOutcome::Continue,
                            )
                        },
                        Some(PendingCommand::Stop) => {
                            self.streaming = false;
                            step_of(
                                two(SessionV2Action::State(ConnectionState::Ready), SessionV2Action::ReportCommandResult),
                                StepOutcome::Continue,
                            )
                        },
                        None => step_of(one(SessionV2Action::ReportCommandResult), StepOutcome::Continue),
                    }
                } else {
                    step_of(one(SessionV2Action::ReportCommandResult), StepOutcome::Continue)
                }
            },
            InboundV2::StreamBatch { stream_id, sample_period_ticks, timestamp_ticks, rows, first_row, last_row } => {
                self.batch(stream_id, sample_period_ticks, timestamp_ticks, rows, first_row, last_row)
            },
            InboundV2::Ping(n) => {
                let a = self.send_common(CommonOut::Pong(n));
                step_of(one(a), StepOutcome::Continue)
            },
            InboundV2::CaptureBegin(b) => {
                let t = match &self.streams {
                    None => {
                        return fault_step(SessionV2Fault::CaptureBeginBeforeStreamTable);
                    },
                    Some(t) => t,
                };
                let d = match t.stream(b.stream_id) {
                    None => {
                        return fault_step(SessionV2Fault::CaptureBeginUnknownStream);
                    },
                    Some(d) => d,
                };
                let mut a = CaptureAssembler::default();
                match a.begin_with_descriptor(b, d, t.revision) {
                    Err(_) => fault_step(SessionV2Fault::CaptureBeginRejected),
                    Ok(()) => {
                        self.capture = Some(a);
                        step_of(Vec::new(), StepOutcome::Continue)
                    },
                }
            },
            InboundV2::CaptureData(d) => self.capture_data(d),
            InboundV2::CaptureEnd(end) => {
                match self.capture.take() {
                    None => fault_step(SessionV2Fault::CaptureEndBeforeBegin),
                    Some(mut a) => match a.finish(end) {
                        Ok(c) => SessionV2Step {
                            actions: one(SessionV2Action::ReportCaptureComplete),
                            outcome: StepOutcome::Continue,
                            completed: Some(c),
                        },
                        Err(e) => {
                            let st = SessionStats {
                                capture_processing_overruns: bump64_exec(self.stats.capture_processing_overruns),
                                ..self.stats
                            };
                            self.stats = st;
                            step_of(
                                two(SessionV2Action::PublishStats(st), SessionV2Action::ReportCaptureFailure(e)),
                                StepOutcome::Fault(SessionV2Fault::Capture(e)),
                            )
                        },
                    },
                }
            },
            InboundV2::CaptureStatus => step_of(one(SessionV2Action::ReportCaptureStatus), StepOutcome::Continue),
            InboundV2::StreamTable(t) => {
                match &self.channels {
                    None => fault_step(SessionV2Fault::StreamTableBeforeChannelTable),
                    Some(ch) => {
                        if t.validate_against_channels(ch).is_err() {
                            return fault_step(SessionV2Fault::StreamTableRejected);
                        }
                        self.streams = Some(t);
                        step_of(
                            two(SessionV2Action::ReportStreamTable, SessionV2Action::State(ConnectionState::Ready)),
                            StepOutcome::Continue,
                        )
                    },
                }
            },
            InboundV2::Status { state, dropped_samples, tx_overruns } => {
                let st = SessionStats {
                    device_dropped_samples: dropped_samples,
                    device_tx_overruns: tx_overruns as u64,
                    device_state: Some(state),
                    ..self.stats
                };
                self.stats = st;
                step_of(one(SessionV2Action::PublishStats(st)), StepOutcome::Continue)
            },
            InboundV2::Pong(n) => {
                if self.outstanding_ping == Some(n) {
                    let st = SessionStats {
                        last_pong_nonce: Some(n),
                        heartbeat_round_trip_count: bump64_exec(self.stats.heartbeat_round_trip_count),
                        ..self.stats
                    };
                    self.stats = st;
                    self.outstanding_ping = None;
                    step_of(one(SessionV2Action::PublishStats(st)), StepOutcome::Continue)
                } else {
                    let st = SessionStats {
                        last_pong_nonce: Some(n),
                        heartbeat_timeout_count: bump64_exec(self.stats.heartbeat_timeout_count),
                        protocol_errors: bump64_exec(self.stats.protocol_errors),
                        ..self.stats
                    };
                    self.stats = st;
                    step_of(
                        two(SessionV2Action::ReportUnexpectedPong(n), SessionV2Action::PublishStats(st)),
                        StepOutcome::Continue,
                    )
                }
            },
            InboundV2::DeviceError => step_of(one(SessionV2Action::ReportDeviceError), StepOutcome::Continue),
            InboundV2::Other => {
                self.stats = SessionStats { unknown_messages: bump64_exec(self.stats.unknown_messages), ..self.stats };
                step_of(Vec::new(), StepOutcome::Continue)
            },
        }
    }
}

/// One step of a second-revision session: performs the decision the event
/// calls for and returns the actions to carry out in order.
pub fn session_v2_step(state: &mut SessionV2State, event: SessionV2Event) -> (r: SessionV2Step)
    requires
        session_v2_wf(old(state)@),
    ensures
        session_v2_wf(final(state)@),
        step_matches(old(state)@, final(state)@, r, spec_session_v2_step(old(state)@, event)),
        r.completed matches Some(c) ==> (old(state)@.capture matches Some(a) && a.begin == Some(c.begin)
            && crate::hardware_capture::batch_views(c.blocks@) == crate::hardware_capture::batches_of(a.blocks)),
{
    match event {
        SessionV2Event::Command(c) => state.command(c),
        SessionV2Event::Tick { heartbeat_expired, ping_due } => {
            if state.session_id != 0 && heartbeat_expired {
                let st = SessionStats { heartbeat_timeout_count: bump64_exec(state.stats.heartbeat_timeout_count), ..state.stats };
                state.stats = st;
                step_of(one(SessionV2Action::PublishStats(st)), StepOutcome::Fault(SessionV2Fault::HeartbeatTimeout))
            } else if state.session_id != 0 && ping_due {
                let nonce = state.ping_nonce;
                let a = state.send_common(CommonOut::Ping(nonce));
                state.outstanding_ping = Some(nonce);
                state.ping_nonce = if nonce == u64::MAX {
                    0
                } else {
                    nonce + 1
                };
                step_of(two(a, SessionV2Action::ResetPingClock), StepOutcome::Continue)
            } else {
                step_of(Vec::new(), StepOutcome::Continue)
            }
        },
        SessionV2Event::DisconnectRequested => state.disconnect(),
        SessionV2Event::DecoderStats { crc_errors, malformed_headers, discarded_bytes } => {
            state.stats = SessionStats { crc_errors, malformed_headers, discarded_bytes, ..state.stats };
            step_of(Vec::new(), StepOutcome::Continue)
        },
        SessionV2Event::Frame { version, session_id, message } => {
            if version != PROTOCOL_VERSION_V2 {
                state.stats = SessionStats { protocol_errors: bump64_exec(state.stats.protocol_errors), ..state.stats };
                return step_of(one(SessionV2Action::ReportNonV2Frame), StepOutcome::Continue);
            }
            if state.session_id != 0 && session_id != state.session_id {
                state.stats = SessionStats { protocol_errors: bump64_exec(state.stats.protocol_errors), ..state.stats };
                return step_of(Vec::new(), StepOutcome::Continue);
            }
            state.stats = SessionStats { received_frames: bump64_exec(state.stats.received_frames), ..state.stats };
            let inner = state.message(session_id, message);
            let mut actions = one(SessionV2Action::ResetReceiveClock);
            let ghost rest = inner.actions@;
            let mut tail = inner.actions;
            actions.append(&mut tail);
            assert(actions@ =~= seq![SessionV2Action::ResetReceiveClock] + rest);
            SessionV2Step { actions, outcome: inner.outcome, completed: inner.completed }
        },
        SessionV2Event::SnapshotDropped { stream_id, first_row, last_row, rows } => {
            let st = SessionStats {
                host_dropped_v2_batches: bump64_exec(state.stats.host_dropped_v2_batches),
                host_dropped_v2_rows: sat_add64_exec(state.stats.host_dropped_v2_rows, rows),
                v2_snapshot_queue_overruns: bump64_exec(state.stats.v2_snapshot_queue_overruns),
                last_dropped_v2_stream_id: Some(stream_id),
                last_dropped_v2_first_row: Some(first_row),
                last_dropped_v2_last_row: Some(last_row),
                ..state.stats
            };
            state.stats = st;
            step_of(one(SessionV2Action::ControlStats(st)), StepOutcome::Continue)
        },
    }
}

// ---------------------------------------------------------------------------
// Start, stop and the end of a session
// ---------------------------------------------------------------------------

/// The event of a successful result for request `seq`, in this session.
pub open spec fn ok_result_event(s: SessionV2View, seq: u32) -> SessionV2Event {
    SessionV2Event::Frame {
        version: PROTOCOL_VERSION_V2,
        session_id: s.session_id,
        message: InboundV2::CommandResult { request_sequence: seq, ok: true },
    }
}

/// A successful result for a pending STOP ends streaming and settles the
/// command; the session goes on.
pub proof fn lemma_acknowledged_stop_ends_streaming(s: SessionV2View, seq: u32)
    requires
        s.pending.contains_key(seq),
        s.pending[seq] == PendingCommand::Stop,
    ensures
        !spec_session_v2_step(s, ok_result_event(s, seq)).0.streaming,
        !spec_session_v2_step(s, ok_result_event(s, seq)).0.pending.contains_key(seq),
        spec_session_v2_step(s, ok_result_event(s, seq)).2 == StepOutcome::Continue,
{
}

/// A successful result for a pending START begins streaming and settles the
/// command; the session goes on.
pub proof fn lemma_acknowledged_start_begins_streaming(s: SessionV2View, seq: u32)
    requires
        s.pending.contains_key(seq),
        s.pending[seq] == PendingCommand::Start,
    ensures
        spec_session_v2_step(s, ok_result_event(s, seq)).0.streaming,
        !spec_session_v2_step(s, ok_result_event(s, seq)).0.pending.contains_key(seq),
        spec_session_v2_step(s, ok_result_event(s, seq)).2 == StepOutcome::Continue,
{
}

/// Ending a session that is not streaming sends nothing and changes
/// nothing; ending a streaming one sends exactly one STOP, under the next
/// sequence number. Either way the session finishes.
pub proof fn lemma_disconnect_stops_only_streaming(s: SessionV2View)
    ensures
        spec_session_v2_step(s, SessionV2Event::DisconnectRequested).2 == StepOutcome::Finish,
        !s.streaming ==> spec_session_v2_step(s, SessionV2Event::DisconnectRequested).1 == Seq::<
            SessionV2Action,
        >::empty(),
        !s.streaming ==> spec_session_v2_step(s, SessionV2Event::DisconnectRequested).0 == s,
        s.streaming ==> spec_session_v2_step(s, SessionV2Event::DisconnectRequested).1 == seq![
            SessionV2Action::SendCommon { sequence: s.out_sequence, session_id: s.session_id, message: CommonOut::Stop },
        ],
{
}

/// A STOP that the device acknowledged leaves nothing to stop when the
/// session ends: the disconnect sends nothing.
pub proof fn lemma_stop_then_disconnect_sends_nothing(s: SessionV2View, seq: u32)
    requires
        s.pending.contains_key(seq),
        s.pending[seq] == PendingCommand::Stop,
    ensures
        spec_session_v2_step(
            spec_session_v2_step(s, ok_result_event(s, seq)).0,
            SessionV2Event::DisconnectRequested,
        ).1 == Seq::<SessionV2Action>::empty(),
{
    lemma_acknowledged_stop_ends_streaming(s, seq);
    lemma_disconnect_stops_only_streaming(spec_session_v2_step(s, ok_result_event(s, seq)).0);
}

} // verus!
