use scope_live::messages_v2::MessageV2;
use scope_live::simulator_session::{route_v2_frame, V2FrameRoute};
use scope_live::capture_v2::{
    ArmCapture, CancelCapture, CaptureEdge, CaptureState, CaptureStatus, CaptureTrigger,
    CaptureTriggerKind, ManualTrigger,
};
use scope_live::protocol_v2::ConfigureStream;
use scope_live::session::DeviceState;
use scope_live::simulator::V2Preset;
use scope_live::simulator_session::{
    simulator_v1_step, simulator_v2_handle, ResultCode, SimulatorAction, SimulatorRequest,
    SimulatorV1Action, SimulatorV1Input, SimulatorV1Session, SimulatorV2Session,
};
use scope_live::simulator_v2::{v2_channel_table, v2_stream_table};

fn arm(capture_id: u32) -> ArmCapture {
    ArmCapture {
        capture_id,
        stream_id: 2,
        pretrigger_rows: 4,
        posttrigger_rows: 4,
        timeout_samples: 100,
        trigger: CaptureTrigger {
            kind: CaptureTriggerKind::Manual,
            channel_id: 0,
            level_bits: 0,
            edge: CaptureEdge::Rising,
            hysteresis_bits: 0,
            flag_mask: 0,
            flag_value: 0,
        },
    }
}

#[test]
fn simulator_session_handshake_configure_and_stream() {
    let streams = v2_stream_table();
    let channels = v2_channel_table();
    let mut s = SimulatorV2Session::new(V2Preset::Normal30k);
    let (acts, _) = simulator_v2_handle(&mut s, &streams, &channels, SimulatorRequest::Hello { client_capabilities: 0 });
    assert!(acts.is_empty());
    let (acts, _) = simulator_v2_handle(&mut s, &streams, &channels, SimulatorRequest::Hello { client_capabilities: 8 });
    assert_eq!(
        acts,
        vec![
            SimulatorAction::SendHelloAck,
            SimulatorAction::SendChannelTable,
            SimulatorAction::SendStreamTable,
            SimulatorAction::SendStatus { state: DeviceState::Idle, produced_samples: 0 }
        ]
    );
    let (acts, _) = simulator_v2_handle(&mut s, &streams, &channels, SimulatorRequest::Start { sequence: 4 });
    assert_eq!(acts, vec![SimulatorAction::SendCommandResult { request_sequence: 4, code: ResultCode::InvalidState }]);
    let bad = ConfigureStream { stream_id: 9, batch_samples: 1, channel_mask: 1 };
    let (acts, err) = simulator_v2_handle(&mut s, &streams, &channels, SimulatorRequest::ConfigureStream { sequence: 5, request: bad });
    assert_eq!(acts, vec![SimulatorAction::SendCommandResult { request_sequence: 5, code: ResultCode::InvalidArgument }]);
    assert!(err.is_some());
    let good = ConfigureStream { stream_id: 2, batch_samples: 3, channel_mask: 0b1011_0000 };
    let (acts, err) = simulator_v2_handle(&mut s, &streams, &channels, SimulatorRequest::ConfigureStream { sequence: 6, request: good });
    assert!(err.is_none());
    assert_eq!(acts[0], SimulatorAction::SendCommandResult { request_sequence: 6, code: ResultCode::Success });
    simulator_v2_handle(&mut s, &streams, &channels, SimulatorRequest::Start { sequence: 7 });
    assert!(s.streaming);
    let (acts, _) = simulator_v2_handle(&mut s, &streams, &channels, SimulatorRequest::StreamTick);
    assert_eq!(acts, vec![SimulatorAction::EmitBatch { configure: good, row_sequence: 1, emitted: 1 }]);
    let (acts, _) = simulator_v2_handle(&mut s, &streams, &channels, SimulatorRequest::PingDue);
    assert_eq!(acts, vec![SimulatorAction::SendPing(1)]);
    assert_eq!(s.stats.pings_sent, 1);
}

#[test]
fn simulator_session_arms_triggers_and_cancels_captures() {
    let streams = v2_stream_table();
    let channels = v2_channel_table();
    let mut s = SimulatorV2Session::new(V2Preset::CaptureManual30k);
    let (acts, _) = simulator_v2_handle(&mut s, &streams, &channels, SimulatorRequest::ArmCapture(arm(3)));
    assert_eq!(
        acts,
        vec![SimulatorAction::SendCaptureStatus(CaptureStatus { capture_id: 3, state: CaptureState::Armed, captured_rows: 0, dropped_rows: 0 })]
    );
    let (acts, _) = simulator_v2_handle(&mut s, &streams, &channels, SimulatorRequest::ManualTrigger(ManualTrigger { capture_id: 3 }));
    assert_eq!(acts, vec![SimulatorAction::UploadCapture { capture: arm(3), row_sequence: 1 }]);
    simulator_v2_handle(&mut s, &streams, &channels, SimulatorRequest::ArmCapture(arm(4)));
    let (acts, _) = simulator_v2_handle(&mut s, &streams, &channels, SimulatorRequest::CancelCapture(CancelCapture { capture_id: 4 }));
    assert_eq!(acts[0], SimulatorAction::SendCaptureStatus(CaptureStatus { capture_id: 4, state: CaptureState::Cancelled, captured_rows: 0, dropped_rows: 0 }));
    let mut edge = SimulatorV2Session::new(V2Preset::CaptureEdge30k);
    let (acts, _) = simulator_v2_handle(&mut edge, &streams, &channels, SimulatorRequest::ArmCapture(arm(5)));
    assert_eq!(acts[1], SimulatorAction::UploadCapture { capture: arm(5), row_sequence: 1 });
    assert!(edge.armed.is_none());
}

#[test]
fn simulator_v1_streams_with_scheduled_faults() {
    let mut s = SimulatorV1Session::new(4, Some(2), Some(3), Some(5));
    assert_eq!(simulator_v1_step(&mut s, SimulatorV1Input::StreamTick).unwrap(), vec![]);
    assert_eq!(
        simulator_v1_step(&mut s, SimulatorV1Input::Start { sequence: 1 }).unwrap(),
        vec![SimulatorV1Action::SendCommandResult { request_sequence: 1, code: ResultCode::InvalidState }]
    );
    simulator_v1_step(&mut s, SimulatorV1Input::Configure { sequence: 2, batch_samples: 10, accepted: true }).unwrap();
    simulator_v1_step(&mut s, SimulatorV1Input::Start { sequence: 3 }).unwrap();
    let ticks: Vec<Vec<SimulatorV1Action>> =
        (0..5).map(|_| simulator_v1_step(&mut s, SimulatorV1Input::StreamTick).unwrap()).collect();
    assert_eq!(ticks[0], vec![SimulatorV1Action::EmitSampleFrame { first_sample_index: 0, corrupt: false }]);
    assert_eq!(ticks[1], vec![SimulatorV1Action::DropSampleFrame]);
    assert_eq!(ticks[2], vec![SimulatorV1Action::EmitSampleFrame { first_sample_index: 20, corrupt: true }]);
    assert_eq!(ticks[4], vec![SimulatorV1Action::Disconnect]);
    assert_eq!(s.stats.emitted_batches, 5);
}

#[test]
fn v2_frames_of_another_version_get_no_reply() {
    let good = ConfigureStream { stream_id: 2, batch_samples: 3, channel_mask: 0b1011_0000 };
    let frame = MessageV2::ConfigureStream(good).into_frame(0, 17, 0, 0).unwrap();
    assert_eq!(
        route_v2_frame(&frame),
        V2FrameRoute::Request(SimulatorRequest::ConfigureStream { sequence: 17, request: good })
    );
    let mut foreign = frame.clone();
    foreign.version = 1;
    assert_eq!(route_v2_frame(&foreign), V2FrameRoute::Ignore);
    let arm_frame = MessageV2::ArmCapture(arm(3)).into_frame(0, 2, 0, 0).unwrap();
    assert_eq!(route_v2_frame(&arm_frame), V2FrameRoute::Request(SimulatorRequest::ArmCapture(arm(3))));
    let mut broken = arm_frame.clone();
    broken.payload.pop();
    assert_eq!(route_v2_frame(&broken), V2FrameRoute::Ignore);
    let mut common = frame.clone();
    common.message_type = 0x01;
    assert_eq!(route_v2_frame(&common), V2FrameRoute::Common);
    let mut status = frame;
    status.message_type = 0x43;
    assert_eq!(route_v2_frame(&status), V2FrameRoute::Ignore);
}
