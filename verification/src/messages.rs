//! Protocol messages and the type byte that identifies each of them on the wire.
use vstd::prelude::*;
use crate::protocol::{
    AudioFrame, CameraControl, Disconnect, Handshake, StatusUpdate, StreamConfigurationResult,
    VideoCapabilitiesUpdate, VideoFrame,
};

verus! {

/// Every message either peer may send.
#[derive(Debug, Clone, PartialEq, Eq)]
pub enum Message {
    Handshake(Handshake),
    VideoFrame(VideoFrame),
    AudioFrame(AudioFrame),
    CameraControl(CameraControl),
    StatusUpdate(StatusUpdate),
    Disconnect(Disconnect),
    StreamConfigurationResult(StreamConfigurationResult),
    VideoCapabilitiesUpdate(VideoCapabilitiesUpdate),
}

/// The kind of a message, carried as the type byte of each frame.
#[derive(Debug, Clone, Copy, PartialEq, Eq, Structural)]
pub enum MessageType {
    Handshake,
    VideoFrame,
    AudioFrame,
    CameraControl,
    StatusUpdate,
    Disconnect,
    StreamConfigurationResult,
    VideoCapabilitiesUpdate,
}

/// The wire byte of each message type; these values never change.
pub open spec fn type_code(t: MessageType) -> u8 {
    match t {
        MessageType::Handshake => 1,
        MessageType::VideoFrame => 2,
        MessageType::AudioFrame => 3,
        MessageType::CameraControl => 4,
        MessageType::StatusUpdate => 5,
        MessageType::Disconnect => 6,
        MessageType::StreamConfigurationResult => 7,
        MessageType::VideoCapabilitiesUpdate => 8,
    }
}

/// The message type whose wire byte is `b`, if any.
pub open spec fn type_of_code(b: u8) -> Option<MessageType> {
    if b == 1 {
        Some(MessageType::Handshake)
    } else if b == 2 {
        Some(MessageType::VideoFrame)
    } else if b == 3 {
        Some(MessageType::AudioFrame)
    } else if b == 4 {
        Some(MessageType::CameraControl)
    } else if b == 5 {
        Some(MessageType::StatusUpdate)
    } else if b == 6 {
        Some(MessageType::Disconnect)
    } else if b == 7 {
        Some(MessageType::StreamConfigurationResult)
    } else if b == 8 {
        Some(MessageType::VideoCapabilitiesUpdate)
    } else {
        None
    }
}

/// The type of a message.
pub open spec fn message_type_of(m: Message) -> MessageType {
    match m {
        Message::Handshake(_) => MessageType::Handshake,
        Message::VideoFrame(_) => MessageType::VideoFrame,
        Message::AudioFrame(_) => MessageType::AudioFrame,
        Message::CameraControl(_) => MessageType::CameraControl,
        Message::StatusUpdate(_) => MessageType::StatusUpdate,
        Message::Disconnect(_) => MessageType::Disconnect,
        Message::StreamConfigurationResult(_) => MessageType::StreamConfigurationResult,
        Message::VideoCapabilitiesUpdate(_) => MessageType::VideoCapabilitiesUpdate,
    }
}

/// Why a message payload could not be turned into bytes or back.
#[derive(Debug, Clone, PartialEq, Eq)]
pub enum MessageCodecError {
    Encode(String),
    Decode(String),
    UnknownMessageType(u8),
    TrailingBytes { decoded: usize, payload_len: usize },
}

impl MessageType {
    /// The type byte written into each frame.
    pub fn code(self) -> (b: u8)
        ensures
            b == type_code(self),
    {
        match self {
            MessageType::Handshake => 1,
            MessageType::VideoFrame => 2,
            MessageType::AudioFrame => 3,
            MessageType::CameraControl => 4,
            MessageType::StatusUpdate => 5,
            MessageType::Disconnect => 6,
            MessageType::StreamConfigurationResult => 7,
            MessageType::VideoCapabilitiesUpdate => 8,
        }
    }

    /// Reads a type byte; any byte that names no message type is refused.
    pub fn try_from_code(value: u8) -> (res: Result<MessageType, MessageCodecError>)
        ensures
            match type_of_code(value) {
                Some(t) => res == Ok::<MessageType, MessageCodecError>(t),
                None => res == Err::<MessageType, MessageCodecError>(
                    MessageCodecError::UnknownMessageType(value),
                ),
            },
    {
        if value == 1 {
            Ok(MessageType::Handshake)
        } else if value == 2 {
            Ok(MessageType::VideoFrame)
        } else if value == 3 {
            Ok(MessageType::AudioFrame)
        } else if value == 4 {
            Ok(MessageType::CameraControl)
        } else if value == 5 {
            Ok(MessageType::StatusUpdate)
        } else if value == 6 {
            Ok(MessageType::Disconnect)
        } else if value == 7 {
            Ok(MessageType::StreamConfigurationResult)
        } else if value == 8 {
            Ok(MessageType::VideoCapabilitiesUpdate)
        } else {
            Err(MessageCodecError::UnknownMessageType(value))
        }
    }
}

/// Law: reading back the type byte of a message type gives that type, and
/// distinct types have distinct bytes.
pub proof fn lemma_type_code_roundtrip(t: MessageType, u: MessageType)
    ensures
        type_of_code(type_code(t)) == Some(t),
        type_code(t) == type_code(u) ==> t == u,
{
}

impl Message {
    /// The type of this message.
    pub fn message_type(&self) -> (t: MessageType)
        ensures
            t == message_type_of(*self),
    {
        match self {
            Message::Handshake(_) => MessageType::Handshake,
            Message::VideoFrame(_) => MessageType::VideoFrame,
            Message::AudioFrame(_) => MessageType::AudioFrame,
            Message::CameraControl(_) => MessageType::CameraControl,
            Message::StatusUpdate(_) => MessageType::StatusUpdate,
            Message::Disconnect(_) => MessageType::Disconnect,
            Message::StreamConfigurationResult(_) => MessageType::StreamConfigurationResult,
            Message::VideoCapabilitiesUpdate(_) => MessageType::VideoCapabilitiesUpdate,
        }
    }
}

/// A decoded payload must account for every byte it was read from.
pub fn check_payload_consumed(decoded: usize, payload_len: usize) -> (res: Result<
    (),
    MessageCodecError,
>)
    ensures
        decoded == payload_len ==> res is Ok,
        decoded != payload_len ==> res == Err::<(), MessageCodecError>(
            MessageCodecError::TrailingBytes { decoded, payload_len },
        ),
{
    if decoded != payload_len {
        return Err(MessageCodecError::TrailingBytes { decoded, payload_len });
    }
    Ok(())
}

} // verus!
