use scope_live::protocol::{ChannelDescriptor, ChannelKind, ChannelTable, WireFormat};
use scope_live::protocol_v2::{
    CapturePhase, CausalRelation, ConfigureStream, SampleDomain, SignalOwner, SignalRole,
    StreamChannelBinding, StreamDescriptor, StreamTable,
};
use scope_live::session::ConnectionState;
use scope_live::session_v2::{
    session_v2_step, CommonOut, HelloAckInfo, InboundV2, SessionV2Action, SessionV2Command,
    SessionV2Event, SessionV2Fault, SessionV2State, StepOutcome, V2Out,
};
use scope_live::stream_timing::StreamTimingError;


fn channel(channel_id: u16, name: &str) -> ChannelDescriptor {
    ChannelDescriptor {
        channel_id,
        kind: ChannelKind::Analog,
        wire_format: WireFormat::I16,
        scale_bits: 0.1_f32.to_bits(),
        offset_bits: 0.0_f32.to_bits(),
        unit: "V".to_owned(),
        name: name.to_owned(),
    }
}

fn channels() -> ChannelTable {
    ChannelTable {
        revision: 7,
        channels: vec![
            channel(0, "Cpu1Input"),
            channel(1, "ClaResult"),
            channel(2, "Cpu2Result"),
            channel(3, "Cpu1Applied"),
        ],
    }
}

fn streams() -> StreamTable {
    StreamTable {
        revision: 4,
        streams: vec![
            StreamDescriptor {
                stream_id: 10,
                domain: SampleDomain::Fast32k,
                capture_phase: CapturePhase::AfterClaComplete,
                sample_rate_hz: 32_000,
                consistency_group: 1,
                channel_ids: vec![1],
            },
            StreamDescriptor {
                stream_id: 20,
                domain: SampleDomain::Control8k,
                capture_phase: CapturePhase::ControlCycleEnd,
                sample_rate_hz: 8_000,
                consistency_group: 1,
                channel_ids: vec![0, 3],
            },
            StreamDescriptor {
                stream_id: 30,
                domain: SampleDomain::Slow1k,
                capture_phase: CapturePhase::LogicTaskEnd,
                sample_rate_hz: 1_000,
                consistency_group: 1,
                channel_ids: vec![2],
            },
        ],
        bindings: vec![
            StreamChannelBinding {
                channel_id: 0,
                stream_id: 20,
                owner: SignalOwner::Cpu1,
                role: SignalRole::ControlInput,
            },
            StreamChannelBinding {
                channel_id: 1,
                stream_id: 10,
                owner: SignalOwner::Cpu1Cla1,
                role: SignalRole::ControlOutput,
            },
            StreamChannelBinding {
                channel_id: 2,
                stream_id: 30,
                owner: SignalOwner::Cpu2,
                role: SignalRole::State,
            },
            StreamChannelBinding {
                channel_id: 3,
                stream_id: 20,
                owner: SignalOwner::Cpu1,
                role: SignalRole::AppliedCommand,
            },
        ],
        causal_relations: vec![CausalRelation {
            input_stream_id: 20,
            result_stream_id: 30,
            application_stream_id: 20,
            result_input_offset: 0,
            application_result_offset: 1,
        }],
    }
}

fn frame(session_id: u32, message: InboundV2) -> SessionV2Event {
    SessionV2Event::Frame { version: 2, session_id, message }
}

fn hello() -> InboundV2 {
    InboundV2::HelloAck(HelloAckInfo { device_capabilities: 8, channel_count: 4, tick_hz: 32_000_000 })
}

fn ready_session() -> SessionV2State {
    let mut s = SessionV2State::new();
    let r = session_v2_step(&mut s, frame(7, hello()));
    assert_eq!(r.actions, vec![SessionV2Action::ResetReceiveClock, SessionV2Action::ReportHelloAck]);
    let r = session_v2_step(&mut s, frame(7, InboundV2::ChannelTable(channels())));
    assert_eq!(r.actions, vec![SessionV2Action::ResetReceiveClock, SessionV2Action::ReportChannelTable]);
    let r = session_v2_step(&mut s, frame(7, InboundV2::StreamTable(streams())));
    assert_eq!(
        r.actions,
        vec![
            SessionV2Action::ResetReceiveClock,
            SessionV2Action::ReportStreamTable,
            SessionV2Action::State(ConnectionState::Ready)
        ]
    );
    assert_eq!(r.outcome, StepOutcome::Continue);
    s
}

fn batch(stream_id: u16, period: u32, timestamp: u64, rows: usize) -> SessionV2Event {
    frame(
        7,
        InboundV2::StreamBatch {
            stream_id,
            sample_period_ticks: period,
            timestamp_ticks: timestamp,
            rows,
            first_row: 1,
            last_row: rows as u64,
        },
    )
}

#[test]
fn session_v2_handshake_configure_start_and_stop() {
    let mut s = ready_session();
    assert_eq!(s.session_id, 7);
    let configure = ConfigureStream { stream_id: 20, batch_samples: 16, channel_mask: 0b1001 };
    let r = session_v2_step(&mut s, SessionV2Event::Command(SessionV2Command::ConfigureStream(configure)));
    assert_eq!(
        r.actions,
        vec![
            SessionV2Action::SendV2 { sequence: 1, session_id: 7, message: V2Out::ConfigureStream(configure) },
            SessionV2Action::State(ConnectionState::Configuring)
        ]
    );
    let r = session_v2_step(&mut s, frame(7, InboundV2::CommandResult { request_sequence: 1, ok: true }));
    assert_eq!(
        r.actions,
        vec![
            SessionV2Action::ResetReceiveClock,
            SessionV2Action::ReportConfigured(configure),
            SessionV2Action::State(ConnectionState::Ready),
            SessionV2Action::ReportCommandResult
        ]
    );
    let r = session_v2_step(&mut s, SessionV2Event::Command(SessionV2Command::Start));
    assert_eq!(
        r.actions,
        vec![SessionV2Action::SendCommon { sequence: 2, session_id: 7, message: CommonOut::Start }]
    );
    let r = session_v2_step(&mut s, frame(7, InboundV2::CommandResult { request_sequence: 2, ok: true }));
    assert_eq!(r.actions[1], SessionV2Action::State(ConnectionState::Streaming));
    assert!(s.streaming);
    let r = session_v2_step(&mut s, SessionV2Event::DisconnectRequested);
    assert_eq!(
        r.actions,
        vec![SessionV2Action::SendCommon { sequence: 3, session_id: 7, message: CommonOut::Stop }]
    );
    assert_eq!(r.outcome, StepOutcome::Finish);
}

#[test]
fn session_v2_refuses_out_of_order_handshake() {
    let mut s = SessionV2State::new();
    let r = session_v2_step(&mut s, frame(7, InboundV2::ChannelTable(channels())));
    assert_eq!(r.outcome, StepOutcome::Fault(SessionV2Fault::ChannelTableBeforeHelloAck));
    let mut s = SessionV2State::new();
    let r = session_v2_step(
        &mut s,
        frame(7, InboundV2::HelloAck(HelloAckInfo { device_capabilities: 0, channel_count: 4, tick_hz: 1 })),
    );
    assert_eq!(r.outcome, StepOutcome::Fault(SessionV2Fault::NotNegotiated));
    let mut s = SessionV2State::new();
    session_v2_step(&mut s, frame(7, hello()));
    let r = session_v2_step(&mut s, frame(7, InboundV2::StreamTable(streams())));
    assert_eq!(r.outcome, StepOutcome::Fault(SessionV2Fault::StreamTableBeforeChannelTable));
    let r = session_v2_step(&mut s, SessionV2Event::Command(SessionV2Command::FirstRevisionCommand));
    assert_eq!(r.outcome, StepOutcome::Fault(SessionV2Fault::FirstRevisionCommand));
}

#[test]
fn session_v2_batches_check_period_and_timing() {
    let mut s = ready_session();
    let r = session_v2_step(&mut s, batch(20, 4000, 100, 3));
    assert_eq!(
        r.actions,
        vec![
            SessionV2Action::ResetReceiveClock,
            SessionV2Action::ForwardSnapshot { stream_id: 20, first_row: 1, last_row: 3, rows: 3 }
        ]
    );
    assert_eq!(s.stats.received_batches, 1);
    assert_eq!(s.stats.received_samples, 3);
    let r = session_v2_step(&mut s, batch(20, 3999, 100_000, 3));
    assert_eq!(r.outcome, StepOutcome::Fault(SessionV2Fault::PeriodMismatch));
    let mut s = ready_session();
    session_v2_step(&mut s, batch(20, 4000, 100, 3));
    let r = session_v2_step(&mut s, batch(20, 4000, 8100, 3));
    assert_eq!(r.outcome, StepOutcome::Fault(SessionV2Fault::Timing(StreamTimingError::NotMonotonic(20))));
    let mut s = ready_session();
    let r = session_v2_step(&mut s, batch(99, 4000, 100, 3));
    assert_eq!(r.outcome, StepOutcome::Fault(SessionV2Fault::UnknownStream));
}

#[test]
fn session_v2_heartbeat_ping_pong_and_foreign_frames() {
    let mut s = SessionV2State::new();
    let r = session_v2_step(&mut s, SessionV2Event::Tick { heartbeat_expired: true, ping_due: true });
    assert!(r.actions.is_empty());
    assert_eq!(r.outcome, StepOutcome::Continue);
    let mut s = ready_session();
    let r = session_v2_step(&mut s, SessionV2Event::Tick { heartbeat_expired: false, ping_due: true });
    assert_eq!(
        r.actions,
        vec![
            SessionV2Action::SendCommon { sequence: 1, session_id: 7, message: CommonOut::Ping(1) },
            SessionV2Action::ResetPingClock
        ]
    );
    let r = session_v2_step(&mut s, frame(7, InboundV2::Pong(1)));
    assert_eq!(s.stats.heartbeat_round_trip_count, 1);
    assert_eq!(s.stats.last_pong_nonce, Some(1));
    assert_eq!(r.actions.len(), 2);
    let r = session_v2_step(&mut s, frame(7, InboundV2::Pong(9)));
    assert_eq!(r.actions[1], SessionV2Action::ReportUnexpectedPong(9));
    assert_eq!(s.stats.protocol_errors, 1);
    let r = session_v2_step(&mut s, SessionV2Event::Frame { version: 1, session_id: 7, message: InboundV2::Other });
    assert_eq!(r.actions, vec![SessionV2Action::ReportNonV2Frame]);
    let r = session_v2_step(&mut s, frame(8, InboundV2::Other));
    assert!(r.actions.is_empty());
    assert_eq!(s.stats.protocol_errors, 3);
    let r = session_v2_step(&mut s, SessionV2Event::Tick { heartbeat_expired: true, ping_due: false });
    assert_eq!(r.outcome, StepOutcome::Fault(SessionV2Fault::HeartbeatTimeout));
    assert_eq!(s.stats.heartbeat_timeout_count, 2);
}
