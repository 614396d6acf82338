use haesli::connection::{
    channel_action, heartbeat_action, negotiate_tune, ChannelAction, ChannelState, HeartbeatAction,
    Tuning,
};
use haesli::content::{assemble, Assembly};
use haesli::error::{ConException, ProtocolError};
use haesli::frame::FrameType;

#[test]
fn publish_header_and_body_complete_the_content() {
    let publish = [0, 60, 0, 40, 0, 0, 0, 5, b'h', b'e', b'l', b'l', b'o', 0];
    let state = assemble(Assembly::Idle, FrameType::Method, &publish).unwrap();
    assert_eq!(state, Assembly::AwaitHeader);
    let header = [0, 60, 0, 0, 0, 0, 0, 0, 0, 0, 0, 5, 0, 0];
    let state = assemble(state, FrameType::Header, &header).unwrap();
    assert_eq!(state, Assembly::AwaitBody { remaining: 5 });
    let state = assemble(state, FrameType::Body, b"wor").unwrap();
    assert_eq!(state, Assembly::AwaitBody { remaining: 2 });
    let state = assemble(state, FrameType::Body, b"ld").unwrap();
    assert_eq!(state, Assembly::Idle);
}

#[test]
fn out_of_order_content_frames_are_unexpected() {
    assert_eq!(assemble(Assembly::Idle, FrameType::Body, b"x"), Err(ConException::UnexpectedFrame));
    assert_eq!(
        assemble(Assembly::AwaitHeader, FrameType::Method, &[0, 60, 0, 40]),
        Err(ConException::UnexpectedFrame)
    );
    assert_eq!(
        assemble(Assembly::AwaitBody { remaining: 1 }, FrameType::Body, b"xy"),
        Err(ConException::UnexpectedFrame)
    );
    assert_eq!(ConException::UnexpectedFrame.code(), 505);
}

#[test]
fn methods_without_content_leave_the_channel_idle() {
    assert_eq!(assemble(Assembly::Idle, FrameType::Method, &[0, 50, 0, 10]), Ok(Assembly::Idle));
    let empty_header = [0, 60, 0, 0, 0, 0, 0, 0, 0, 0, 0, 0];
    assert_eq!(assemble(Assembly::AwaitHeader, FrameType::Header, &empty_header), Ok(Assembly::Idle));
}

#[test]
fn tune_takes_the_smaller_limits() {
    let server = Tuning { channel_max: 2047, frame_max: 131072, heartbeat: 60 };
    let client = Tuning { channel_max: 100, frame_max: 131072, heartbeat: 30 };
    assert_eq!(
        negotiate_tune(server, client),
        Ok(Tuning { channel_max: 100, frame_max: 131072, heartbeat: 30 })
    );
    let unbounded = Tuning { channel_max: 0, frame_max: 0, heartbeat: 0 };
    assert_eq!(negotiate_tune(unbounded, client), Ok(client));
}

#[test]
fn tune_above_the_proposal_is_refused() {
    let server = Tuning { channel_max: 10, frame_max: 4096, heartbeat: 60 };
    let client = Tuning { channel_max: 11, frame_max: 4096, heartbeat: 60 };
    assert_eq!(
        negotiate_tune(server, client),
        Err(ProtocolError::ConException(ConException::NotAllowed))
    );
    let no_limit = Tuning { channel_max: 0, frame_max: 4096, heartbeat: 60 };
    assert!(negotiate_tune(server, no_limit).is_err());
}

#[test]
fn channel_zero_cannot_be_opened() {
    assert_eq!(
        channel_action(0, ChannelState::Closed, 20, 10),
        ChannelAction::Fail(ConException::ChannelError)
    );
    assert_eq!(channel_action(1, ChannelState::Closed, 20, 10), ChannelAction::Dispatch);
    assert_eq!(channel_action(1, ChannelState::Closing, 60, 40), ChannelAction::Drop);
    assert_eq!(channel_action(1, ChannelState::Closing, 20, 41), ChannelAction::Finish);
    assert_eq!(channel_action(1, ChannelState::Open, 50, 10), ChannelAction::Dispatch);
}

#[test]
fn heartbeats_are_sent_each_interval_and_silence_kills() {
    assert_eq!(heartbeat_action(0, 1000, 1000), HeartbeatAction::Wait);
    assert_eq!(heartbeat_action(10, 3, 3), HeartbeatAction::Wait);
    assert_eq!(heartbeat_action(10, 10, 5), HeartbeatAction::Send);
    assert_eq!(heartbeat_action(10, 0, 20), HeartbeatAction::Dead);
    assert_eq!(heartbeat_action(10, 0, 19), HeartbeatAction::Wait);
}
