use scope_live::scope_format::{GapReason, LiveGap};
use scope_live::session::ConnectionState;
use scope_live::session_v1::{
    session_step, InboundV1, SessionAction, SessionCommand, SessionFault, SessionOutcome,
    SessionState, SessionV1Event,
};

fn frame(sequence: u32, message: InboundV1) -> SessionV1Event {
    SessionV1Event::Frame { session_id: 5, sequence, message }
}

fn configured() -> SessionState {
    let mut s = SessionState::new();
    session_step(&mut s, frame(1, InboundV1::HelloAck { channel_count: 2 }));
    let r = session_step(&mut s, frame(2, InboundV1::ChannelTable { channel_count: 2 }));
    assert_eq!(
        r.actions,
        vec![
            SessionAction::ResetReceiveClock,
            SessionAction::ReportChannelTable,
            SessionAction::State(ConnectionState::Ready)
        ]
    );
    let r = session_step(&mut s, SessionV1Event::Command(SessionCommand::Configure { requested_mask: 0b11 }));
    assert_eq!(r.actions[0], SessionAction::SendConfigure { sequence: 1, session_id: 5 });
    let r = session_step(
        &mut s,
        frame(3, InboundV1::CommandResult { request_sequence: 1, ok: true, actual_mask: 0b01 }),
    );
    assert_eq!(r.actions[1], SessionAction::StartAcquisition);
    assert_eq!(r.outcome, SessionOutcome::Continue);
    s
}

#[test]
fn session_v1_tracks_sample_gaps_and_frame_sequence() {
    let mut s = configured();
    let r = session_step(&mut s, frame(4, InboundV1::SampleBatch { first_sample_index: 0, sample_count: 10 }));
    assert_eq!(r.actions[1], SessionAction::ProcessBatch);
    let r = session_step(&mut s, frame(6, InboundV1::SampleBatch { first_sample_index: 15, sample_count: 5 }));
    assert_eq!(
        r.actions[1],
        SessionAction::WriteGap(LiveGap { start_sample_index: 10, missing_samples: 5, reason: GapReason::SampleIndexLoss })
    );
    assert_eq!(s.stats.sequence_gaps, 1);
    let r = session_step(&mut s, frame(7, InboundV1::SampleBatch { first_sample_index: 3, sample_count: 1 }));
    assert_eq!(r.actions, vec![SessionAction::ResetReceiveClock]);
    assert_eq!(s.stats.protocol_errors, 1);
    assert_eq!(s.stats.received_samples, 15);
}

#[test]
fn session_v1_refuses_unrequested_channels_and_early_samples() {
    let mut s = SessionState::new();
    session_step(&mut s, frame(1, InboundV1::HelloAck { channel_count: 2 }));
    session_step(&mut s, frame(2, InboundV1::ChannelTable { channel_count: 2 }));
    let r = session_step(&mut s, frame(3, InboundV1::SampleBatch { first_sample_index: 0, sample_count: 1 }));
    assert_eq!(r.outcome, SessionOutcome::Fault(SessionFault::SamplesBeforeConfiguration));
    let mut s = SessionState::new();
    session_step(&mut s, frame(1, InboundV1::HelloAck { channel_count: 2 }));
    session_step(&mut s, frame(2, InboundV1::ChannelTable { channel_count: 2 }));
    session_step(&mut s, SessionV1Event::Command(SessionCommand::Configure { requested_mask: 0b01 }));
    let r = session_step(&mut s, frame(3, InboundV1::CommandResult { request_sequence: 1, ok: true, actual_mask: 0b11 }));
    assert_eq!(r.outcome, SessionOutcome::Fault(SessionFault::ChannelsNotRequested));
    let mut s = SessionState::new();
    let r = session_step(&mut s, frame(1, InboundV1::HelloAck { channel_count: 2 }));
    assert_eq!(r.outcome, SessionOutcome::Continue);
    let r = session_step(&mut s, frame(2, InboundV1::ChannelTable { channel_count: 3 }));
    assert_eq!(r.outcome, SessionOutcome::Fault(SessionFault::ChannelCountMismatch));
}

#[test]
fn session_v1_disconnect_waits_for_stop_result() {
    let mut s = configured();
    session_step(&mut s, SessionV1Event::Command(SessionCommand::Start));
    session_step(&mut s, frame(4, InboundV1::CommandResult { request_sequence: 2, ok: true, actual_mask: 0 }));
    assert!(s.streaming);
    let r = session_step(&mut s, SessionV1Event::Command(SessionCommand::Disconnect));
    assert_eq!(
        r.actions,
        vec![SessionAction::SendStop { sequence: 3, session_id: 5 }, SessionAction::StartDisconnectDeadline]
    );
    assert_eq!(r.outcome, SessionOutcome::Continue);
    let r = session_step(&mut s, frame(5, InboundV1::CommandResult { request_sequence: 3, ok: true, actual_mask: 0 }));
    assert_eq!(r.outcome, SessionOutcome::Finish);
    let mut idle = SessionState::new();
    let r = session_step(&mut idle, SessionV1Event::DisconnectRequested);
    assert_eq!(r.outcome, SessionOutcome::Finish);
}
