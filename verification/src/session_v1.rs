//! The decisions of a first-revision live session, as a state machine.
//!
//! The caller owns the socket, the clock, the recording and the
//! acquisition worker; it decodes each frame, hands the decoded message to
//! [`session_step`] and performs the actions it gets back. The step keeps
//! the handshake order, the commands awaiting a result, frame-sequence and
//! sample-index continuity, the heartbeat and the orderly disconnect.

use std::collections::HashMap;

use vstd::prelude::*;

use crate::scope_format::{GapReason, LiveGap};
use crate::session::{ConnectionState, SessionStats};
use crate::session_v2::{bump64, next_u32, next_u64, sat_add64};

verus! {

/// A first-revision command awaiting its result.
#[derive(Clone, Copy, Debug, PartialEq, Eq, Structural)]
pub enum PendingV1 {
    /// A configuration that asked for the channels of `requested_mask`.
    Configure { requested_mask: u64 },
    Start,
    Stop,
}

/// What the owner of a first-revision session asks of it.
#[derive(Clone, Copy, Debug, PartialEq, Eq, Structural)]
pub enum SessionCommand {
    Configure { requested_mask: u64 },
    Start,
    Stop,
    Ping(u64),
    SetRecording(bool),
    /// A command of the second protocol revision.
    SecondRevisionCommand,
    Disconnect,
}

/// A decoded first-revision message.
#[derive(Clone, Copy, Debug, PartialEq, Eq, Structural)]
pub enum InboundV1 {
    HelloAck { channel_count: u16 },
    ChannelTable { channel_count: usize },
    /// A command result; for a configuration, the channel mask the device
    /// reports it enabled.
    CommandResult { request_sequence: u32, ok: bool, actual_mask: u64 },
    /// A sample batch the caller decoded against the channel table.
    SampleBatch { first_sample_index: u64, sample_count: u64 },
    /// A sample batch the caller could not decode.
    UndecodableBatch,
    DeviceError,
    Status { dropped_samples: u64, tx_overruns: u32 },
    Ping(u64),
    Pong,
    Other,
}

/// What happened that the session must decide on.
#[derive(Clone, Copy, Debug, PartialEq, Eq, Structural)]
pub enum SessionV1Event {
    Command(SessionCommand),
    /// The clock: the heartbeat timeout passed, a ping is due, the
    /// disconnect deadline passed.
    Tick { heartbeat_expired: bool, ping_due: bool, deadline_passed: bool },
    DisconnectRequested,
    DecoderStats { crc_errors: u64, malformed_headers: u64, discarded_bytes: u64 },
    /// A frame whose payload did not decode; `unknown_type` when its
    /// message type is unknown.
    BadFrame { session_id: u32, sequence: u32, unknown_type: bool },
    Frame { session_id: u32, sequence: u32, message: InboundV1 },
    /// Writing to the recording failed; recording stops.
    RecordingFailed,
}

/// What the caller must do.
#[derive(Clone, Copy, Debug, PartialEq, Eq, Structural)]
pub enum SessionAction {
    SendConfigure { sequence: u32, session_id: u32 },
    SendStart { sequence: u32, session_id: u32 },
    SendStop { sequence: u32, session_id: u32 },
    SendPing { sequence: u32, session_id: u32, nonce: u64 },
    SendPong { sequence: u32, session_id: u32, nonce: u64 },
    State(ConnectionState),
    ReportHelloAck,
    ReportChannelTable,
    ReportCommandResult,
    ReportConfigured,
    ReportDeviceError,
    ReportDecodeError,
    ReportRecordingError,
    ReportSessionMismatch { got: u32, expected: u32 },
    /// Build the acquisition worker for the configuration just accepted.
    StartAcquisition,
    /// Record a sample-index gap and tell the acquisition worker.
    WriteGap(LiveGap),
    /// Write the frame to the recording.
    RecordFrame,
    /// Run the acquisition worker on the batch.
    ProcessBatch,
    PublishStats(SessionStats),
    ResetReceiveClock,
    ResetPingClock,
    StartDisconnectDeadline,
}

/// Why a first-revision session ends with an error.
#[derive(Clone, Copy, Debug, PartialEq, Eq, Structural)]
pub enum SessionFault {
    SecondRevisionCommand,
    HeartbeatTimeout,
    ZeroSessionId,
    ChannelTableBeforeHelloAck,
    ChannelCountMismatch,
    ConfigureBeforeHelloAck,
    ConfigureBeforeChannelTable,
    ChannelsNotRequested,
    SamplesBeforeConfiguration,
}

#[derive(Clone, Copy, Debug, PartialEq, Eq, Structural)]
pub enum SessionOutcome {
    Continue,
    Finish,
    Fault(SessionFault),
}

/// The state of a first-revision session.
pub struct SessionState {
    pub out_sequence: u32,
    pub session_id: u32,
    pub hello_channel_count: Option<u16>,
    pub has_table: bool,
    pub pending: HashMap<u32, PendingV1>,
    pub stats: SessionStats,
    pub last_frame_sequence: Option<u32>,
    pub next_sample_index: Option<u64>,
    pub ping_nonce: u64,
    pub recording: bool,
    pub acquiring: bool,
    pub streaming: bool,
    pub disconnecting: bool,
}

pub struct SessionStateV {
    pub out_sequence: u32,
    pub session_id: u32,
    pub hello_channel_count: Option<u16>,
    pub has_table: bool,
    pub pending: Map<u32, PendingV1>,
    pub stats: SessionStats,
    pub last_frame_sequence: Option<u32>,
    pub next_sample_index: Option<u64>,
    pub ping_nonce: u64,
    pub recording: bool,
    pub acquiring: bool,
    pub streaming: bool,
    pub disconnecting: bool,
}

impl View for SessionState {
    type V = SessionStateV;

    open spec fn view(&self) -> SessionStateV {
        SessionStateV {
            out_sequence: self.out_sequence,
            session_id: self.session_id,
            hello_channel_count: self.hello_channel_count,
            has_table: self.has_table,
            pending: self.pending@,
            stats: self.stats,
            last_frame_sequence: self.last_frame_sequence,
            next_sample_index: self.next_sample_index,
            ping_nonce: self.ping_nonce,
            recording: self.recording,
            acquiring: self.acquiring,
            streaming: self.streaming,
            disconnecting: self.disconnecting,
        }
    }
}

pub open spec fn st(s: SessionStateV, stats: SessionStats) -> SessionStateV {
    SessionStateV { stats, ..s }
}

pub open spec fn advance(s: SessionStateV) -> SessionStateV {
    SessionStateV { out_sequence: next_u32(s.out_sequence), ..s }
}

/// A requested disconnect: a streaming session sends STOP and waits for its
/// result until a deadline; an idle one ends at once.
pub open spec fn spec_disconnect_v1(s: SessionStateV) -> (SessionStateV, Seq<SessionAction>, SessionOutcome) {
    if s.streaming && !s.disconnecting {
        (
            SessionStateV { pending: s.pending.insert(s.out_sequence, PendingV1::Stop), disconnecting: true, ..advance(s) },
            seq![
                SessionAction::SendStop { sequence: s.out_sequence, session_id: s.session_id },
                SessionAction::StartDisconnectDeadline,
            ],
            SessionOutcome::Continue,
        )
    } else if !s.streaming {
        (s, Seq::empty(), SessionOutcome::Finish)
    } else {
        (s, Seq::empty(), SessionOutcome::Continue)
    }
}

pub open spec fn spec_command_v1(s: SessionStateV, c: SessionCommand) -> (SessionStateV, Seq<SessionAction>, SessionOutcome) {
    match c {
        SessionCommand::Configure { requested_mask } => (
            SessionStateV { pending: s.pending.insert(s.out_sequence, PendingV1::Configure { requested_mask }), ..advance(s) },
            seq![
                SessionAction::SendConfigure { sequence: s.out_sequence, session_id: s.session_id },
                SessionAction::State(ConnectionState::Configuring),
            ],
            SessionOutcome::Continue,
        ),
        SessionCommand::Start => (
            SessionStateV { pending: s.pending.insert(s.out_sequence, PendingV1::Start), ..advance(s) },
            seq![SessionAction::SendStart { sequence: s.out_sequence, session_id: s.session_id }],
            SessionOutcome::Continue,
        ),
        SessionCommand::Stop => (
            SessionStateV { pending: s.pending.insert(s.out_sequence, PendingV1::Stop), ..advance(s) },
            seq![SessionAction::SendStop { sequence: s.out_sequence, session_id: s.session_id }],
            SessionOutcome::Continue,
        ),
        SessionCommand::Ping(n) => (
            advance(s),
            seq![SessionAction::SendPing { sequence: s.out_sequence, session_id: s.session_id, nonce: n }],
            SessionOutcome::Continue,
        ),
        SessionCommand::SetRecording(on) => (SessionStateV { recording: on, ..s }, Seq::empty(), SessionOutcome::Continue),
        SessionCommand::SecondRevisionCommand => (s, Seq::empty(), SessionOutcome::Fault(SessionFault::SecondRevisionCommand)),
        SessionCommand::Disconnect => spec_disconnect_v1(s),
    }
}

/// The result of a command: the awaited command it answers decides what
/// follows.
pub open spec fn spec_result_v1(s: SessionStateV, seqn: u32, ok: bool, actual_mask: u64) -> (SessionStateV, Seq<SessionAction>, SessionOutcome) {
    if ok {
        if s.pending.contains_key(seqn) {
            let s1 = SessionStateV { pending: s.pending.remove(seqn), ..s };
            match s.pending[seqn] {
                PendingV1::Configure { requested_mask } => if s.hello_channel_count is None {
                    (s1, Seq::empty(), SessionOutcome::Fault(SessionFault::ConfigureBeforeHelloAck))
                } else if !s.has_table {
                    (s1, Seq::empty(), SessionOutcome::Fault(SessionFault::ConfigureBeforeChannelTable))
                } else if actual_mask & requested_mask != actual_mask {
                    (s1, Seq::empty(), SessionOutcome::Fault(SessionFault::ChannelsNotRequested))
                } else {
                    (
                        SessionStateV { acquiring: true, ..s1 },
                        seq![
                            SessionAction::StartAcquisition,
                            SessionAction::ReportConfigured,
                            SessionAction::State(ConnectionState::Ready),
                            SessionAction::ReportCommandResult,
                        ],
                        SessionOutcome::Continue,
                    )
                },
                PendingV1::Stop => (
                    SessionStateV { streaming: false, ..s1 },
                    seq![SessionAction::State(ConnectionState::Ready), SessionAction::ReportCommandResult],
                    if s.disconnecting {
                        SessionOutcome::Finish
                    } else {
                        SessionOutcome::Continue
                    },
                ),
                PendingV1::Start => (
                    SessionStateV { streaming: true, ..s1 },
                    seq![SessionAction::State(ConnectionState::Streaming), SessionAction::ReportCommandResult],
                    SessionOutcome::Continue,
                ),
            }
        } else {
            (s, seq![SessionAction::ReportCommandResult], SessionOutcome::Continue)
        }
    } else if s.pending.contains_key(seqn) {
        let s1 = SessionStateV { pending: s.pending.remove(seqn), ..s };
        if s.pending[seqn] is Configure {
            (s1, seq![SessionAction::State(ConnectionState::Ready), SessionAction::ReportCommandResult], SessionOutcome::Continue)
        } else {
            (s1, seq![SessionAction::ReportCommandResult], SessionOutcome::Continue)
        }
    } else {
        (s, seq![SessionAction::ReportCommandResult], SessionOutcome::Continue)
    }
}

/// The gap a batch from `first` leaves after the expected sample index.
pub open spec fn gap_actions_of(s: SessionStateV, first: u64) -> Seq<SessionAction> {
    match s.next_sample_index {
        Some(e) => if first > e {
            seq![SessionAction::WriteGap(LiveGap { start_sample_index: e, missing_samples: (first - e) as u64, reason: GapReason::SampleIndexLoss })]
        } else {
            Seq::empty()
        },
        None => Seq::empty(),
    }
}

pub open spec fn record_of(s: SessionStateV) -> Seq<SessionAction> {
    if s.recording {
        seq![SessionAction::RecordFrame]
    } else {
        Seq::empty()
    }
}

/// A decoded sample batch: a gap before it is recorded, a batch that goes
/// back is dropped, and the rest is recorded and processed.
pub open spec fn spec_batch_v1(s: SessionStateV, first: u64, count: u64) -> (SessionStateV, Seq<SessionAction>, SessionOutcome) {
    if s.next_sample_index matches Some(e) && first < e {
        (st(s, SessionStats { protocol_errors: bump64(s.stats.protocol_errors), ..s.stats }), Seq::empty(), SessionOutcome::Continue)
    } else {
        let gap_actions = gap_actions_of(s, first);
        let record = record_of(s);
        let stats = SessionStats {
            received_batches: bump64(s.stats.received_batches),
            received_samples: sat_add64(s.stats.received_samples, count),
            ..s.stats
        };
        let s1 = SessionStateV {
            next_sample_index: if first + count > u64::MAX {
                None
            } else {
                Some((first + count) as u64)
            },
            stats,
            ..s
        };
        if !s.acquiring {
            (s1, gap_actions + record, SessionOutcome::Fault(SessionFault::SamplesBeforeConfiguration))
        } else {
            (s1, gap_actions + record + seq![SessionAction::ProcessBatch, SessionAction::PublishStats(stats)], SessionOutcome::Continue)
        }
    }
}

pub open spec fn spec_message_v1(s: SessionStateV, frame_session: u32, m: InboundV1) -> (SessionStateV, Seq<SessionAction>, SessionOutcome) {
    match m {
        InboundV1::HelloAck { channel_count } => if frame_session == 0 {
            (s, Seq::empty(), SessionOutcome::Fault(SessionFault::ZeroSessionId))
        } else {
            (
                SessionStateV { hello_channel_count: Some(channel_count), session_id: frame_session, ..s },
                seq![SessionAction::ReportHelloAck],
                SessionOutcome::Continue,
            )
        },
        InboundV1::ChannelTable { channel_count } => match s.hello_channel_count {
            None => (s, Seq::empty(), SessionOutcome::Fault(SessionFault::ChannelTableBeforeHelloAck)),
            Some(n) => if n != channel_count {
                (s, Seq::empty(), SessionOutcome::Fault(SessionFault::ChannelCountMismatch))
            } else {
                (
                    SessionStateV { has_table: true, ..s },
                    seq![SessionAction::ReportChannelTable, SessionAction::State(ConnectionState::Ready)],
                    SessionOutcome::Continue,
                )
            },
        },
        InboundV1::CommandResult { request_sequence, ok, actual_mask } => spec_result_v1(s, request_sequence, ok, actual_mask),
        InboundV1::SampleBatch { first_sample_index, sample_count } => if !s.has_table {
            (st(s, SessionStats { protocol_errors: bump64(s.stats.protocol_errors), ..s.stats }), Seq::empty(), SessionOutcome::Continue)
        } else {
            spec_batch_v1(s, first_sample_index, sample_count)
        },
        InboundV1::UndecodableBatch => if !s.has_table {
            (st(s, SessionStats { protocol_errors: bump64(s.stats.protocol_errors), ..s.stats }), Seq::empty(), SessionOutcome::Continue)
        } else {
            (
                st(s, SessionStats { protocol_errors: bump64(s.stats.protocol_errors), ..s.stats }),
                seq![SessionAction::ReportRecordingError],
                SessionOutcome::Continue,
            )
        },
        InboundV1::DeviceError => (s, seq![SessionAction::ReportDeviceError], SessionOutcome::Continue),
        InboundV1::Status { dropped_samples, tx_overruns } => {
            let stats = SessionStats { device_dropped_samples: dropped_samples, device_tx_overruns: tx_overruns as u64, ..s.stats };
            (st(s, stats), seq![SessionAction::PublishStats(stats)], SessionOutcome::Continue)
        },
        InboundV1::Ping(n) => (
            advance(s),
            seq![SessionAction::SendPong { sequence: s.out_sequence, session_id: s.session_id, nonce: n }],
            SessionOutcome::Continue,
        ),
        InboundV1::Pong => (s, Seq::empty(), SessionOutcome::Continue),
        InboundV1::Other => (s, Seq::empty(), SessionOutcome::Continue),
    }
}

/// What every frame of the right session does first: it counts as
/// received, and a frame sequence that does not follow the last one counts
/// as a gap.
pub open spec fn received(s: SessionStateV, sequence: u32) -> SessionStateV {
    let gaps = match s.last_frame_sequence {
        Some(p) => if sequence != next_u32(p) {
            bump64(s.stats.sequence_gaps)
        } else {
            s.stats.sequence_gaps
        },
        None => s.stats.sequence_gaps,
    };
    SessionStateV {
        last_frame_sequence: Some(sequence),
        stats: SessionStats { received_frames: bump64(s.stats.received_frames), sequence_gaps: gaps, ..s.stats },
        ..s
    }
}

/// One step of a first-revision session.
pub open spec fn spec_session_step(s: SessionStateV, e: SessionV1Event) -> (SessionStateV, Seq<SessionAction>, SessionOutcome) {
    match e {
        SessionV1Event::Command(c) => spec_command_v1(s, c),
        SessionV1Event::Tick { heartbeat_expired, ping_due, deadline_passed } => if deadline_passed && s.disconnecting {
            (s, Seq::empty(), SessionOutcome::Finish)
        } else if s.session_id != 0 && heartbeat_expired {
            (s, Seq::empty(), SessionOutcome::Fault(SessionFault::HeartbeatTimeout))
        } else if s.session_id != 0 && ping_due {
            (
                SessionStateV { ping_nonce: next_u64(s.ping_nonce), ..advance(s) },
                seq![
                    SessionAction::SendPing { sequence: s.out_sequence, session_id: s.session_id, nonce: s.ping_nonce },
                    SessionAction::ResetPingClock,
                ],
                SessionOutcome::Continue,
            )
        } else {
            (s, Seq::empty(), SessionOutcome::Continue)
        },
        SessionV1Event::DisconnectRequested => if s.disconnecting {
            (s, Seq::empty(), SessionOutcome::Continue)
        } else {
            spec_disconnect_v1(s)
        },
        SessionV1Event::DecoderStats { crc_errors, malformed_headers, discarded_bytes } => {
            let changed = s.stats.crc_errors != crc_errors || s.stats.malformed_headers != malformed_headers
                || s.stats.discarded_bytes != discarded_bytes;
            let stats = SessionStats { crc_errors, malformed_headers, discarded_bytes, ..s.stats };
            (st(s, stats), if changed {
                seq![SessionAction::PublishStats(stats)]
            } else {
                Seq::empty()
            }, SessionOutcome::Continue)
        },
        SessionV1Event::BadFrame { session_id, sequence, unknown_type } => {
            let s0 = SessionStateV {
                stats: SessionStats { received_frames: bump64(s.stats.received_frames), ..s.stats },
                ..s
            };
            if s.session_id != 0 && session_id != s.session_id {
                (
                    st(s0, SessionStats { protocol_errors: bump64(s0.stats.protocol_errors), ..s0.stats }),
                    seq![SessionAction::ResetReceiveClock, SessionAction::ReportSessionMismatch { got: session_id, expected: s.session_id }],
                    SessionOutcome::Continue,
                )
            } else {
                let s1 = received(s, sequence);
                let stats = SessionStats {
                    protocol_errors: bump64(s1.stats.protocol_errors),
                    unknown_messages: if unknown_type {
                        bump64(s1.stats.unknown_messages)
                    } else {
                        s1.stats.unknown_messages
                    },
                    ..s1.stats
                };
                (st(s1, stats), seq![SessionAction::ResetReceiveClock, SessionAction::ReportDecodeError], SessionOutcome::Continue)
            }
        },
        SessionV1Event::Frame { session_id, sequence, message } => if s.session_id != 0 && session_id != s.session_id {
            let s0 = SessionStateV {
                stats: SessionStats {
                    received_frames: bump64(s.stats.received_frames),
                    protocol_errors: bump64(s.stats.protocol_errors),
                    ..s.stats
                },
                ..s
            };
            (
                s0,
                seq![SessionAction::ResetReceiveClock, SessionAction::ReportSessionMismatch { got: session_id, expected: s.session_id }],
                SessionOutcome::Continue,
            )
        } else {
            let (s2, acts, out) = spec_message_v1(received(s, sequence), session_id, message);
            (s2, seq![SessionAction::ResetReceiveClock] + acts, out)
        },
        SessionV1Event::RecordingFailed => (
            SessionStateV { recording: false, ..s },
            seq![SessionAction::ReportRecordingError],
            SessionOutcome::Continue,
        ),
    }
}


/// What one step hands back: the actions in order and whether the session
/// goes on.
pub struct SessionStep {
    pub actions: Vec<SessionAction>,
    pub outcome: SessionOutcome,
}

fn bump(x: u64) -> (r: u64)
    ensures
        r == bump64(x),
{
    if x == u64::MAX {
        x
    } else {
        x + 1
    }
}

fn next_seq(x: u32) -> (r: u32)
    ensures
        r == next_u32(x),
{
    if x == u32::MAX {
        0
    } else {
        x + 1
    }
}

fn out(actions: Vec<SessionAction>, outcome: SessionOutcome) -> (r: SessionStep)
    ensures
        r.actions@ == actions@,
        r.outcome == outcome,
{
    SessionStep { actions, outcome }
}

fn v1(a: SessionAction) -> (r: Vec<SessionAction>)
    ensures
        r@ == seq![a],
{
    let mut v: Vec<SessionAction> = Vec::new();
    v.push(a);
    assert(v@ =~= seq![a]);
    v
}

fn v2(a: SessionAction, b: SessionAction) -> (r: Vec<SessionAction>)
    ensures
        r@ == seq![a, b],
{
    let mut v: Vec<SessionAction> = Vec::new();
    v.push(a);
    v.push(b);
    assert(v@ =~= seq![a, b]);
    v
}

/// The step agrees with the spec: the same actions and outcome, and,
/// unless the session fails, the same new state.
pub open spec fn v1_step_matches(new_s: SessionStateV, r: SessionStep, spec: (SessionStateV, Seq<SessionAction>, SessionOutcome)) -> bool {
    &&& r.actions@ == spec.1
    &&& r.outcome == spec.2
    &&& !(r.outcome is Fault) ==> new_s == spec.0
}

impl SessionState {
    /// A session that has sent its HELLO.
    pub fn new() -> (r: Self)
        ensures
            r@.out_sequence == 1,
            r@.session_id == 0,
            r@.hello_channel_count is None,
            !r@.has_table,
            r@.pending == Map::<u32, PendingV1>::empty(),
            r@.stats == crate::session::initial_session_stats(),
            r@.last_frame_sequence is None,
            r@.next_sample_index is None,
            r@.ping_nonce == 1,
            !r@.recording,
            !r@.acquiring,
            !r@.streaming,
            !r@.disconnecting,
    {
        SessionState {
            out_sequence: 1,
            session_id: 0,
            hello_channel_count: None,
            has_table: false,
            pending: HashMap::new(),
            stats: SessionStats::default(),
            last_frame_sequence: None,
            next_sample_index: None,
            ping_nonce: 1,
            recording: false,
            acquiring: false,
            streaming: false,
            disconnecting: false,
        }
    }

    fn take_sequence(&mut self) -> (r: u32)
        ensures
            r == old(self)@.out_sequence,
            final(self)@ == advance(old(self)@),
    {
        let s = self.out_sequence;
        self.out_sequence = next_seq(s);
        s
    }

    fn disconnect(&mut self) -> (r: SessionStep)
        ensures
            v1_step_matches(final(self)@, r, spec_disconnect_v1(old(self)@)),
    {
        if self.streaming && !self.disconnecting {
            let sid = self.session_id;
            let seq = self.take_sequence();
            self.pending.insert(seq, PendingV1::Stop);
            self.disconnecting = true;
            out(
                v2(SessionAction::SendStop { sequence: seq, session_id: sid }, SessionAction::StartDisconnectDeadline),
                SessionOutcome::Continue,
            )
        } else if !self.streaming {
            out(Vec::new(), SessionOutcome::Finish)
        } else {
            out(Vec::new(), SessionOutcome::Continue)
        }
    }

    fn command(&mut self, c: SessionCommand) -> (r: SessionStep)
        ensures
            v1_step_matches(final(self)@, r, spec_command_v1(old(self)@, c)),
    {
        let sid = self.session_id;
        match c {
            SessionCommand::Configure { requested_mask } => {
                let seq = self.take_sequence();
                self.pending.insert(seq, PendingV1::Configure { requested_mask });
                out(
                    v2(SessionAction::SendConfigure { sequence: seq, session_id: sid }, SessionAction::State(ConnectionState::Configuring)),
                    SessionOutcome::Continue,
                )
            },
            SessionCommand::Start => {
                let seq = self.take_sequence();
                self.pending.insert(seq, PendingV1::Start);
                out(v1(SessionAction::SendStart { sequence: seq, session_id: sid }), SessionOutcome::Continue)
            },
            SessionCommand::Stop => {
                let seq = self.take_sequence();
                self.pending.insert(seq, PendingV1::Stop);
                out(v1(SessionAction::SendStop { sequence: seq, session_id: sid }), SessionOutcome::Continue)
            },
            SessionCommand::Ping(n) => {
                let seq = self.take_sequence();
                out(v1(SessionAction::SendPing { sequence: seq, session_id: sid, nonce: n }), SessionOutcome::Continue)
            },
            SessionCommand::SetRecording(on) => {
                self.recording = on;
                out(Vec::new(), SessionOutcome::Continue)
            },
            SessionCommand::SecondRevisionCommand => out(Vec::new(), SessionOutcome::Fault(SessionFault::SecondRevisionCommand)),
            SessionCommand::Disconnect => self.disconnect(),
        }
    }

    fn command_result(&mut self, seqn: u32, ok: bool, actual_mask: u64) -> (r: SessionStep)
        ensures
            v1_step_matches(final(self)@, r, spec_result_v1(old(self)@, seqn, ok, actual_mask)),
    {
        if ok {
            if self.pending.contains_key(&seqn) {
                let cmd = self.pending.remove(&seqn);
                match cmd {
                    Some(PendingV1::Configure { requested_mask }) => {
                        if self.hello_channel_count.is_none() {
                            return out(Vec::new(), SessionOutcome::Fault(SessionFault::ConfigureBeforeHelloAck));
                        }
                        if !self.has_table {
                            return out(Vec::new(), SessionOutcome::Fault(SessionFault::ConfigureBeforeChannelTable));
                        }
                        if actual_mask & requested_mask != actual_mask {
                            return out(Vec::new(), SessionOutcome::Fault(SessionFault::ChannelsNotRequested));
                        }
                        self.acquiring = true;
                        let mut v = v2(SessionAction::StartAcquisition, SessionAction::ReportConfigured);
                        v.push(SessionAction::State(ConnectionState::Ready));
                        v.push(SessionAction::ReportCommandResult);
                        assert(v@ =~= seq![
                            SessionAction::StartAcquisition,
                            SessionAction::ReportConfigured,
                            SessionAction::State(ConnectionState::Ready),
                            SessionAction::ReportCommandResult,
                        ]);
                        out(v, SessionOutcome::Continue)
                    },
                    Some(PendingV1::Stop) => {
                        self.streaming = false;
                        let o = if self.disconnecting {
                            SessionOutcome::Finish
                        } else {
                            SessionOutcome::Continue
                        };
                        out(v2(SessionAction::State(ConnectionState::Ready), SessionAction::ReportCommandResult), o)
                    },
                    Some(PendingV1::Start) => {
                        self.streaming = true;
                        out(v2(SessionAction::State(ConnectionState::Streaming), SessionAction::ReportCommandResult), SessionOutcome::Continue)
                    },
                    None => out(v1(SessionAction::ReportCommandResult), SessionOutcome::Continue),
                }
            } else {
                out(v1(SessionAction::ReportCommandResult), SessionOutcome::Continue)
            }
        } else if self.pending.contains_key(&seqn) {
            let cmd = self.pending.remove(&seqn);
            match cmd {
                Some(PendingV1::Configure { .. }) => out(
                    v2(SessionAction::State(ConnectionState::Ready), SessionAction::ReportCommandResult),
                    SessionOutcome::Continue,
                ),
                _ => out(v1(SessionAction::ReportCommandResult), SessionOutcome::Continue),
            }
        } else {
            out(v1(SessionAction::ReportCommandResult), SessionOutcome::Continue)
        }
    }

    fn batch(&mut self, first: u64, count: u64) -> (r: SessionStep)
        ensures
            v1_step_matches(final(self)@, r, spec_batch_v1(old(self)@, first, count)),
    {
        let ghost s0 = self@;
        let mut actions: Vec<SessionAction> = Vec::new();
        match self.next_sample_index {
            Some(e) => {
                if first < e {
                    self.stats.protocol_errors = bump(self.stats.protocol_errors);
                    return out(actions, SessionOutcome::Continue);
                }
                if first > e {
                    actions.push(
                        SessionAction::WriteGap(
                            LiveGap { start_sample_index: e, missing_samples: first - e, reason: GapReason::SampleIndexLoss },
                        ),
                    );
                }
            },
            None => {},
        }
        assert(actions@ =~= gap_actions_of(s0, first));
        if self.recording {
            actions.push(SessionAction::RecordFrame);
        }
        assert(actions@ =~= gap_actions_of(s0, first) + record_of(s0));
        let stats = SessionStats {
            received_batches: bump(self.stats.received_batches),
            received_samples: if self.stats.received_samples > u64::MAX - count {
                u64::MAX
            } else {
                self.stats.received_samples + count
            },
            ..self.stats
        };
        self.next_sample_index = if first > u64::MAX - count {
            None
        } else {
            Some(first + count)
        };
        self.stats = stats;
        if !self.acquiring {
            return out(actions, SessionOutcome::Fault(SessionFault::SamplesBeforeConfiguration));
        }
        actions.push(SessionAction::ProcessBatch);
        actions.push(SessionAction::PublishStats(stats));
        assert(actions@ =~= gap_actions_of(s0, first) + record_of(s0) + seq![SessionAction::ProcessBatch, SessionAction::PublishStats(stats)]);
        out(actions, SessionOutcome::Continue)
    }

    fn message(&mut self, frame_session: u32, m: InboundV1) -> (r: SessionStep)
        ensures
            v1_step_matches(final(self)@, r, spec_message_v1(old(self)@, frame_session, m)),
    {
        match m {
            InboundV1::HelloAck { channel_count } => {
                if frame_session == 0 {
                    return out(Vec::new(), SessionOutcome::Fault(SessionFault::ZeroSessionId));
                }
                self.hello_channel_count = Some(channel_count);
                self.session_id = frame_session;
                out(v1(SessionAction::ReportHelloAck), SessionOutcome::Continue)
            },
            InboundV1::ChannelTable { channel_count } => match self.hello_channel_count {
                None => out(Vec::new(), SessionOutcome::Fault(SessionFault::ChannelTableBeforeHelloAck)),
                Some(n) => {
                    if n as usize != channel_count {
                        return out(Vec::new(), SessionOutcome::Fault(SessionFault::ChannelCountMismatch));
                    }
                    self.has_table = true;
                    out(v2(SessionAction::ReportChannelTable, SessionAction::State(ConnectionState::Ready)), SessionOutcome::Continue)
                },
            },
            InboundV1::CommandResult { request_sequence, ok, actual_mask } => self.command_result(request_sequence, ok, actual_mask),
            InboundV1::SampleBatch { first_sample_index, sample_count } => {
                if !self.has_table {
                    self.stats.protocol_errors = bump(self.stats.protocol_errors);
                    return out(Vec::new(), SessionOutcome::Continue);
                }
                self.batch(first_sample_index, sample_count)
            },
            InboundV1::UndecodableBatch => {
                self.stats.protocol_errors = bump(self.stats.protocol_errors);
                if !self.has_table {
                    out(Vec::new(), SessionOutcome::Continue)
                } else {
                    out(v1(SessionAction::ReportRecordingError), SessionOutcome::Continue)
                }
            },
            InboundV1::DeviceError => out(v1(SessionAction::ReportDeviceError), SessionOutcome::Continue),
            InboundV1::Status { dropped_samples, tx_overruns } => {
                let stats = SessionStats { device_dropped_samples: dropped_samples, device_tx_overruns: tx_overruns as u64, ..self.stats };
                self.stats = stats;
                out(v1(SessionAction::PublishStats(stats)), SessionOutcome::Continue)
            },
            InboundV1::Ping(n) => {
                let sid = self.session_id;
                let seq = self.take_sequence();
                out(v1(SessionAction::SendPong { sequence: seq, session_id: sid, nonce: n }), SessionOutcome::Continue)
            },
            InboundV1::Pong => out(Vec::new(), SessionOutcome::Continue),
            InboundV1::Other => out(Vec::new(), SessionOutcome::Continue),
        }
    }

    fn receive(&mut self, sequence: u32)
        ensures
            final(self)@ == received(old(self)@, sequence),
    {
        let gaps = match self.last_frame_sequence {
            Some(p) => if sequence != next_seq(p) {
                bump(self.stats.sequence_gaps)
            } else {
                self.stats.sequence_gaps
            },
            None => self.stats.sequence_gaps,
        };
        self.last_frame_sequence = Some(sequence);
        self.stats = SessionStats { received_frames: bump(self.stats.received_frames), sequence_gaps: gaps, ..self.stats };
    }
}

impl SessionState {
    fn bad_frame(&mut self, session_id: u32, sequence: u32, unknown_type: bool) -> (r: SessionStep)
        ensures
            v1_step_matches(final(self)@, r, spec_session_step(old(self)@, SessionV1Event::BadFrame { session_id, sequence, unknown_type })),
    {
            if self.session_id != 0 && session_id != self.session_id {
                self.stats.received_frames = bump(self.stats.received_frames);
                self.stats.protocol_errors = bump(self.stats.protocol_errors);
                let expected = self.session_id;
                return out(
                    v2(SessionAction::ResetReceiveClock, SessionAction::ReportSessionMismatch { got: session_id, expected }),
                    SessionOutcome::Continue,
                );
            }
            self.receive(sequence);
            self.stats.protocol_errors = bump(self.stats.protocol_errors);
            if unknown_type {
                self.stats.unknown_messages = bump(self.stats.unknown_messages);
            }
            out(v2(SessionAction::ResetReceiveClock, SessionAction::ReportDecodeError), SessionOutcome::Continue)
            }

    fn frame(&mut self, session_id: u32, sequence: u32, message: InboundV1) -> (r: SessionStep)
        ensures
            v1_step_matches(final(self)@, r, spec_session_step(old(self)@, SessionV1Event::Frame { session_id, sequence, message })),
    {
            if self.session_id != 0 && session_id != self.session_id {
                self.stats.received_frames = bump(self.stats.received_frames);
                self.stats.protocol_errors = bump(self.stats.protocol_errors);
                let expected = self.session_id;
                return out(
                    v2(SessionAction::ResetReceiveClock, SessionAction::ReportSessionMismatch { got: session_id, expected }),
                    SessionOutcome::Continue,
                );
            }
            self.receive(sequence);
            let inner = self.message(session_id, message);
            let mut actions = v1(SessionAction::ResetReceiveClock);
            let ghost rest = inner.actions@;
            let mut tail = inner.actions;
            actions.append(&mut tail);
            assert(actions@ =~= seq![SessionAction::ResetReceiveClock] + rest);
            out(actions, inner.outcome)
            }
}

/// One step of a first-revision session: performs the decision the event
/// calls for and returns the actions to carry out in order.
pub fn session_step(state: &mut SessionState, event: SessionV1Event) -> (r: SessionStep)
    ensures
        v1_step_matches(final(state)@, r, spec_session_step(old(state)@, event)),
{
    match event {
        SessionV1Event::Command(c) => state.command(c),
        SessionV1Event::Tick { heartbeat_expired, ping_due, deadline_passed } => {
            if deadline_passed && state.disconnecting {
                out(Vec::new(), SessionOutcome::Finish)
            } else if state.session_id != 0 && heartbeat_expired {
                out(Vec::new(), SessionOutcome::Fault(SessionFault::HeartbeatTimeout))
            } else if state.session_id != 0 && ping_due {
                let sid = state.session_id;
                let nonce = state.ping_nonce;
                let seq = state.take_sequence();
                state.ping_nonce = if nonce == u64::MAX {
                    0
                } else {
                    nonce + 1
                };
                out(
                    v2(SessionAction::SendPing { sequence: seq, session_id: sid, nonce }, SessionAction::ResetPingClock),
                    SessionOutcome::Continue,
                )
            } else {
                out(Vec::new(), SessionOutcome::Continue)
            }
        },
        SessionV1Event::DisconnectRequested => {
            if state.disconnecting {
                out(Vec::new(), SessionOutcome::Continue)
            } else {
                state.disconnect()
            }
        },
        SessionV1Event::DecoderStats { crc_errors, malformed_headers, discarded_bytes } => {
            let changed = state.stats.crc_errors != crc_errors || state.stats.malformed_headers != malformed_headers
                || state.stats.discarded_bytes != discarded_bytes;
            let stats = SessionStats { crc_errors, malformed_headers, discarded_bytes, ..state.stats };
            state.stats = stats;
            if changed {
                out(v1(SessionAction::PublishStats(stats)), SessionOutcome::Continue)
            } else {
                out(Vec::new(), SessionOutcome::Continue)
            }
        },
        SessionV1Event::BadFrame { session_id, sequence, unknown_type } => state.bad_frame(session_id, sequence, unknown_type),
        SessionV1Event::Frame { session_id, sequence, message } => state.frame(session_id, sequence, message),
        SessionV1Event::RecordingFailed => {
            state.recording = false;
            out(v1(SessionAction::ReportRecordingError), SessionOutcome::Continue)
        },
    }
}

} // verus!
