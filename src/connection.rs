//! The decisions of the connection handshake that do not touch the socket.

use vstd::prelude::*;
use crate::error::{ConException, ProtocolError};
use crate::methods::{method_wf, Argument, Method};

verus! {

/// The only protocol header this broker speaks: `AMQP\0\0\x09\x01`.
pub open spec fn supported_header() -> Seq<u8> {
    seq![0x41u8, 0x4Du8, 0x51u8, 0x50u8, 0x00u8, 0x00u8, 0x09u8, 0x01u8]
}

/// What to do after reading the client's protocol header.
#[derive(Debug, Clone, Copy, PartialEq, Eq, Structural)]
pub enum VersionOutcome {
    /// The header names AMQP 0-9-1: go on with `Connection.Start`.
    Proceed,
    /// Write the supported header, then close the transport.
    Reject,
}

/// The octets of the supported protocol header.
pub fn protocol_header() -> (r: Vec<u8>)
    ensures
        r@ == supported_header(),
{
    let r: Vec<u8> = vec![0x41u8, 0x4Du8, 0x51u8, 0x50u8, 0x00u8, 0x00u8, 0x09u8, 0x01u8];
    assert(r@ =~= supported_header());
    r
}

/// Judges the eight octets that a client opens with. Anything but
/// `AMQP\0` followed by version 0-9-1 is answered with the supported header
/// and a close.
pub fn negotiate_version(header: &[u8]) -> (r: VersionOutcome)
    ensures
        r == VersionOutcome::Proceed <==> header@ == supported_header(),
        header@.len() == 8 && header@.take(5) != supported_header().take(5) ==> r
            == VersionOutcome::Reject,
        header@.len() == 8 && header@.skip(5) != supported_header().skip(5) ==> r
            == VersionOutcome::Reject,
{
    let expected = protocol_header();
    if header.len() != 8 {
        return VersionOutcome::Reject;
    }
    let mut i: usize = 0;
    while i < 8
        invariant
            i <= 8,
            header@.len() == 8,
            expected@ == supported_header(),
            header@.take(i as int) == expected@.take(i as int),
        decreases 8 - i,
    {
        if header[i] != expected[i] {
            assert(header@[i as int] != supported_header()[i as int]);
            return VersionOutcome::Reject;
        }
        i = i + 1;
        assert(header@.take(i as int) =~= header@.take(i - 1).push(header@[i - 1]));
        assert(expected@.take(i as int) =~= expected@.take(i - 1).push(expected@[i - 1]));
    }
    assert(header@ =~= header@.take(8));
    assert(expected@ =~= expected@.take(8));
    VersionOutcome::Proceed
}

/// The smaller of two limits, where 0 stands for no limit.
pub open spec fn limit_min(a: int, b: int) -> int {
    if a == 0 {
        b
    } else if b == 0 {
        a
    } else if a < b {
        a
    } else {
        b
    }
}

/// A client value stays within the server's proposal (0: no limit).
pub open spec fn within(client: int, server: int) -> bool {
    server == 0 || (client != 0 && client <= server)
}

/// Limits of a connection: channels, frame size and heartbeat interval.
#[derive(Debug, Clone, Copy, PartialEq, Eq, Structural)]
pub struct Tuning {
    pub channel_max: u16,
    pub frame_max: u32,
    pub heartbeat: u16,
}

fn min_limit_u16(a: u16, b: u16) -> (r: u16)
    ensures
        r as int == limit_min(a as int, b as int),
{
    if a == 0 {
        b
    } else if b == 0 {
        a
    } else if a < b {
        a
    } else {
        b
    }
}

fn min_limit_u32(a: u32, b: u32) -> (r: u32)
    ensures
        r as int == limit_min(a as int, b as int),
{
    if a == 0 {
        b
    } else if b == 0 {
        a
    } else if a < b {
        a
    } else {
        b
    }
}

/// Settles the limits from the server's `Connection.Tune` and the client's
/// `Connection.Tune-Ok`. A client value above the server's proposal is
/// refused with `NotAllowed`; otherwise each limit is the smaller of the two,
/// with 0 counting as no limit.
pub fn negotiate_tune(server: Tuning, client: Tuning) -> (r: Result<Tuning, ProtocolError>)
    ensures
        r is Ok <==> within(client.channel_max as int, server.channel_max as int) && within(
            client.frame_max as int,
            server.frame_max as int,
        ) && within(client.heartbeat as int, server.heartbeat as int),
        r matches Ok(t) ==> t.channel_max as int == limit_min(
            server.channel_max as int,
            client.channel_max as int,
        ) && t.frame_max as int == limit_min(server.frame_max as int, client.frame_max as int)
            && t.heartbeat as int == limit_min(server.heartbeat as int, client.heartbeat as int),
        r matches Err(e) ==> e == ProtocolError::ConException(ConException::NotAllowed),
{
    let fits = (server.channel_max == 0 || (client.channel_max != 0 && client.channel_max
        <= server.channel_max)) && (server.frame_max == 0 || (client.frame_max != 0
        && client.frame_max <= server.frame_max)) && (server.heartbeat == 0 || (client.heartbeat
        != 0 && client.heartbeat <= server.heartbeat));
    if !fits {
        return Err(ProtocolError::ConException(ConException::NotAllowed));
    }
    Ok(
        Tuning {
            channel_max: min_limit_u16(server.channel_max, client.channel_max),
            frame_max: min_limit_u32(server.frame_max, client.frame_max),
            heartbeat: min_limit_u16(server.heartbeat, client.heartbeat),
        },
    )
}

/// What the heartbeat timer calls for.
#[derive(Debug, Clone, Copy, PartialEq, Eq, Structural)]
pub enum HeartbeatAction {
    Wait,
    /// Send an empty heartbeat frame on channel 0.
    Send,
    /// Nothing arrived for two intervals: the peer is gone.
    Dead,
}

/// The heartbeat decision, `since_sent` and `since_received` seconds after
/// the last frame out and in, under a negotiated interval of `heartbeat`
/// seconds (0: no heartbeats).
pub fn heartbeat_action(heartbeat: u16, since_sent: u64, since_received: u64) -> (r:
    HeartbeatAction)
    ensures
        r == if heartbeat == 0 {
            HeartbeatAction::Wait
        } else if since_received >= 2 * heartbeat {
            HeartbeatAction::Dead
        } else if since_sent >= heartbeat {
            HeartbeatAction::Send
        } else {
            HeartbeatAction::Wait
        },
{
    if heartbeat == 0 {
        HeartbeatAction::Wait
    } else if since_received >= 2 * (heartbeat as u64) {
        HeartbeatAction::Dead
    } else if since_sent >= heartbeat as u64 {
        HeartbeatAction::Send
    } else {
        HeartbeatAction::Wait
    }
}

/// The state of a channel.
#[derive(Debug, Clone, Copy, PartialEq, Eq, Structural)]
pub enum ChannelState {
    Open,
    Closing,
    Closed,
}

/// What a channel does with an incoming method.
#[derive(Debug, Clone, Copy, PartialEq, Eq, Structural)]
pub enum ChannelAction {
    /// Hand the method on.
    Dispatch,
    /// The channel is closing: drop the method silently.
    Drop,
    /// `Channel.Close-Ok` arrived: the channel is closed.
    Finish,
    /// The method is a connection exception.
    Fail(ConException),
}

/// The channel's answer to method (`class_id`, `method_id`) arriving on
/// channel `channel` in state `state`. `Channel.Open` on channel 0 is a
/// `ChannelError`; a closing channel accepts only `Channel.Close-Ok`.
pub fn channel_action(channel: u16, state: ChannelState, class_id: u16, method_id: u16) -> (r:
    ChannelAction)
    ensures
        class_id == 20 && method_id == 10 && channel == 0 ==> r == ChannelAction::Fail(
            ConException::ChannelError,
        ),
        !(class_id == 20 && method_id == 10 && channel == 0) ==> r == match state {
            ChannelState::Closing => if class_id == 20 && method_id == 41 {
                ChannelAction::Finish
            } else {
                ChannelAction::Drop
            },
            ChannelState::Closed => if class_id == 20 && method_id == 10 {
                ChannelAction::Dispatch
            } else {
                ChannelAction::Fail(ConException::ChannelError)
            },
            ChannelState::Open => if class_id == 20 && method_id == 10 {
                ChannelAction::Fail(ConException::ChannelError)
            } else {
                ChannelAction::Dispatch
            },
        },
{
    let is_open = class_id == 20 && method_id == 10;
    if is_open && channel == 0 {
        return ChannelAction::Fail(ConException::ChannelError);
    }
    match state {
        ChannelState::Closing => if class_id == 20 && method_id == 41 {
            ChannelAction::Finish
        } else {
            ChannelAction::Drop
        },
        ChannelState::Closed => if is_open {
            ChannelAction::Dispatch
        } else {
            ChannelAction::Fail(ConException::ChannelError)
        },
        ChannelState::Open => if is_open {
            ChannelAction::Fail(ConException::ChannelError)
        } else {
            ChannelAction::Dispatch
        },
    }
}

/// The `Connection.Start` that opens the handshake: protocol 0-9, no server
/// properties, the `PLAIN` mechanism and the `en_US` locale.
pub fn connection_start() -> (r: Method)
    ensures
        r.class_id == 10 && r.method_id == 10,
        method_wf(r),
        r.arguments@.len() == 5,
        r.arguments@[0] == Argument::Octet(0),
        r.arguments@[1] == Argument::Octet(9),
        r.arguments@[2] matches Argument::Table(t) && t@.len() == 0,
        r.arguments@[3] matches Argument::LongStr(m) && m@ == seq![0x50u8, 0x4Cu8, 0x41u8, 0x49u8, 0x4Eu8],
        r.arguments@[4] matches Argument::LongStr(l) && l@ == seq![0x65u8, 0x6Eu8, 0x5Fu8, 0x55u8, 0x53u8],
{
    let mechanisms: Vec<u8> = vec![0x50u8, 0x4Cu8, 0x41u8, 0x49u8, 0x4Eu8];
    let locales: Vec<u8> = vec![0x65u8, 0x6Eu8, 0x5Fu8, 0x55u8, 0x53u8];
    let arguments: Vec<Argument> = vec![
        Argument::Octet(0),
        Argument::Octet(9),
        Argument::Table(Vec::new()),
        Argument::LongStr(mechanisms),
        Argument::LongStr(locales),
    ];
    let r = Method { class_id: 10, method_id: 10, arguments };
    proof {
        let ks = crate::methods::signature(10, 10)->Some_0;
        let m = crate::methods::args_model(r.arguments@);
        assert(crate::field::enc_pairs(Seq::empty()) == Seq::<u8>::empty());
        assert(crate::field::table_model(Seq::empty()) == Seq::<(Seq<char>, crate::field::FieldVal)>::empty());
        assert forall|i: int| 0 <= i < m.len() implies #[trigger] crate::methods::arg_fits(m[i], ks[i]) by {
            if i == 2 {
                assert(crate::field::table_model(Seq::<(String, crate::field::FieldValue)>::empty())
                    =~= Seq::empty());
            }
        }
    }
    r
}

} // verus!
