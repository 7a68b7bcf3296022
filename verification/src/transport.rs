//! The decisions of a PhoneCam connection: the handshake, the frame length
//! read from the wire, and what the reader does with each message.
use vstd::prelude::*;
use crate::framing::{be_u32_value, u32_from_be_bytes, FrameError, MAX_FRAME_BYTES};
use crate::messages::Message;
use crate::protocol::{
    handshake_check, profiles_contain, Handshake, ProfileValidationError, StatusUpdate, StreamProfile,
};
use crate::text::{equals, chars_of, owned};

verus! {

broadcast use vstd::string::group_string_axioms;

/// Where a connection stands.
#[derive(Debug, Clone, Copy, PartialEq, Eq, Structural)]
pub enum ConnectionState {
    Disconnected,
    Connecting,
    Handshaking,
    Streaming,
}

/// Seconds a peer has to answer the handshake.
pub const HANDSHAKE_TIMEOUT_SECS: u64 = 5;
/// Seconds without any message after which the connection is dropped.
pub const KEEPALIVE_TIMEOUT_SECS: u64 = 5;
/// Seconds between two keepalive messages.
pub const KEEPALIVE_INTERVAL_SECS: u64 = 1;

/// Why a connection failed. Times are in whole seconds.
#[derive(Debug)]
pub enum TransportError {
    Io(String),
    Frame(FrameError),
    KeepaliveTimeout(u64),
    FrameTooLarge(usize),
    SenderClosed,
    InvalidHandshake(ProfileValidationError),
    HandshakeTimeout(u64),
    ExpectedHandshake,
    ActiveProfileNotCommon(StreamProfile),
    UnexpectedHandshake,
}

/// The first active profile, local one first, that the other peer does not support.
pub open spec fn uncommon_active_profile(local: Handshake, peer: Handshake) -> Option<StreamProfile> {
    match local.active_profile {
        Some(a) if !peer.supported_profiles@.contains(a) => Some(a),
        _ => match peer.active_profile {
            Some(a) if !local.supported_profiles@.contains(a) => Some(a),
            _ => None,
        },
    }
}

/// Checks that each peer's active profile, if any, is one the other peer supports.
pub fn validate_common_active_profiles(local: &Handshake, peer: &Handshake) -> (r: Result<(), TransportError>)
    ensures
        match uncommon_active_profile(*local, *peer) {
            Some(p) => r matches Err(TransportError::ActiveProfileNotCommon(q)) && q == p,
            None => r is Ok,
        },
{
    if let Some(active) = local.active_profile {
        if !profiles_contain(peer.supported_profiles.as_slice(), active) {
            return Err(TransportError::ActiveProfileNotCommon(active));
        }
    }
    if let Some(active) = peer.active_profile {
        if !profiles_contain(local.supported_profiles.as_slice(), active) {
            return Err(TransportError::ActiveProfileNotCommon(active));
        }
    }
    Ok(())
}

/// Takes the peer's first message as its handshake: it must be one, valid,
/// with active profiles common to both peers.
pub fn accept_peer_handshake(local: &Handshake, reply: Message) -> (r: Result<Handshake, TransportError>)
    ensures
        match reply {
            Message::Handshake(peer) => match handshake_check(
                peer.version,
                peer.supported_profiles@,
                peer.active_profile,
            ) {
                Err(e) => r matches Err(TransportError::InvalidHandshake(f)) && f == e,
                Ok(()) => match uncommon_active_profile(*local, peer) {
                    Some(p) => r matches Err(TransportError::ActiveProfileNotCommon(q)) && q == p,
                    None => r == Ok::<Handshake, TransportError>(peer),
                },
            },
            _ => r matches Err(TransportError::ExpectedHandshake),
        },
{
    match reply {
        Message::Handshake(peer) => {
            match peer.validate() {
                Err(e) => Err(TransportError::InvalidHandshake(e)),
                Ok(()) => {
                    match validate_common_active_profiles(local, &peer) {
                        Err(e) => Err(e),
                        Ok(()) => Ok(peer),
                    }
                },
            }
        },
        _ => Err(TransportError::ExpectedHandshake),
    }
}

/// Reads the length prefix of a frame: the payload may not exceed the limit.
pub fn check_frame_length(len_bytes: [u8; 4]) -> (r: Result<usize, TransportError>)
    ensures
        ({
            let n = be_u32_value(len_bytes@[0], len_bytes@[1], len_bytes@[2], len_bytes@[3]);
            &&& n > MAX_FRAME_BYTES ==> (r matches Err(TransportError::FrameTooLarge(m)) && m == n)
            &&& n <= MAX_FRAME_BYTES ==> r == Ok::<usize, TransportError>(n as usize)
        }),
{
    let n = u32_from_be_bytes(len_bytes[0], len_bytes[1], len_bytes[2], len_bytes[3]);
    let payload_len = n as usize;
    if payload_len > MAX_FRAME_BYTES {
        return Err(TransportError::FrameTooLarge(payload_len));
    }
    Ok(payload_len)
}

/// The status text of a keepalive message.
pub open spec fn keepalive_ping() -> Seq<char> {
    "__phonecam_ping__"@
}

/// The message sent to keep the connection alive.
pub fn keepalive_message() -> (m: Message)
    ensures
        m matches Message::StatusUpdate(s) && s.status@ == keepalive_ping(),
{
    Message::StatusUpdate(StatusUpdate { status: owned("__phonecam_ping__") })
}

/// What the reader does with a message from the peer.
#[derive(Debug, Clone, Copy, PartialEq, Eq, Structural)]
pub enum InboundAction {
    /// Hand it to the application.
    Deliver,
    /// Drop it: it only kept the connection alive.
    Skip,
    /// End the connection: a second handshake is a protocol error.
    Fail,
}

/// What the reader does with `message`: a handshake ends the connection, a
/// keepalive is dropped, anything else is delivered.
pub fn inbound_action(message: &Message) -> (a: InboundAction)
    ensures
        message is Handshake ==> a == InboundAction::Fail,
        (message matches Message::StatusUpdate(s) && s.status@ == keepalive_ping()) ==> a == InboundAction::Skip,
        !(message is Handshake) && !(message matches Message::StatusUpdate(s) && s.status@ == keepalive_ping())
            ==> a == InboundAction::Deliver,
{
    match message {
        Message::Handshake(_) => InboundAction::Fail,
        Message::StatusUpdate(s) => {
            let c = chars_of(s.status.as_str());
            if equals(c.as_slice(), "__phonecam_ping__") {
                InboundAction::Skip
            } else {
                InboundAction::Deliver
            }
        },
        _ => InboundAction::Deliver,
    }
}

} // verus!
