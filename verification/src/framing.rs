//! Length-prefixed frames: a big-endian `u32` length, a type byte, then the payload.
use vstd::prelude::*;
use crate::messages::{
    message_type_of, type_code, type_of_code, Message, MessageCodecError, MessageType,
};

verus! {

/// Bytes of the big-endian length prefix.
pub const FRAME_LENGTH_PREFIX_BYTES: usize = 4;

/// Bytes of the message type field.
pub const FRAME_TYPE_BYTES: usize = 1;

/// The largest frame body (type byte and payload) either peer accepts.
pub const MAX_FRAME_BYTES: usize = 33554432;

/// Why a frame could not be built or read.
#[derive(Debug, Clone, PartialEq, Eq)]
pub enum FrameError {
    FrameTooShort,
    LengthMismatch { declared: usize, actual: usize },
    LengthOverflow(usize),
    FrameTooLarge(usize),
    Codec(MessageCodecError),
}

/// The big-endian bytes of `n`.
pub open spec fn be_u32_bytes(n: u32) -> Seq<u8> {
    seq![(n >> 24u32) as u8, ((n >> 16u32) & 0xffu32) as u8, ((n >> 8u32) & 0xffu32) as u8, (n & 0xffu32) as u8]
}

/// The number that four big-endian bytes encode.
pub open spec fn be_u32_value(b0: u8, b1: u8, b2: u8, b3: u8) -> u32 {
    ((b0 as u32) << 24u32) | ((b1 as u32) << 16u32) | ((b2 as u32) << 8u32) | (b3 as u32)
}

proof fn lemma_be_u32_value_bytes(n: u32)
    ensures
        be_u32_value(
            be_u32_bytes(n)[0],
            be_u32_bytes(n)[1],
            be_u32_bytes(n)[2],
            be_u32_bytes(n)[3],
        ) == n,
{
    let b = be_u32_bytes(n);
    assert(b[0] == (n >> 24u32) as u8);
    assert(b[1] == ((n >> 16u32) & 0xffu32) as u8);
    assert(b[2] == ((n >> 8u32) & 0xffu32) as u8);
    assert(b[3] == (n & 0xffu32) as u8);
    assert(((((n >> 24u32) as u8) as u32) << 24u32) | (((((n >> 16u32) & 0xffu32) as u8) as u32)
        << 16u32) | (((((n >> 8u32) & 0xffu32) as u8) as u32) << 8u32) | (((n & 0xffu32) as u8) as u32)
        == n) by (bit_vector);
}

/// Big-endian bytes of a `u32`.
pub fn u32_to_be_bytes(n: u32) -> (b: [u8; 4])
    ensures
        b@ == be_u32_bytes(n),
{
    let b = [(n >> 24u32) as u8, ((n >> 16u32) & 0xffu32) as u8, ((n >> 8u32) & 0xffu32) as u8, (n & 0xffu32) as u8];
    assert(b@ =~= be_u32_bytes(n));
    b
}

/// The `u32` that four big-endian bytes encode.
pub fn u32_from_be_bytes(b0: u8, b1: u8, b2: u8, b3: u8) -> (n: u32)
    ensures
        n == be_u32_value(b0, b1, b2, b3),
{
    ((b0 as u32) << 24u32) | ((b1 as u32) << 16u32) | ((b2 as u32) << 8u32) | (b3 as u32)
}

/// The frame that carries `payload` as a message of type `t`.
pub open spec fn frame_bytes(t: MessageType, payload: Seq<u8>) -> Seq<u8> {
    be_u32_bytes((payload.len() + 1) as u32) + seq![type_code(t)] + payload
}

/// Whether a message is a video frame whose data alone reaches the frame limit.
pub open spec fn video_data_too_large(m: Message) -> bool {
    match m {
        Message::VideoFrame(f) => f.data@.len() >= MAX_FRAME_BYTES,
        _ => false,
    }
}

/// What encoding a message with the given payload bytes yields.
pub open spec fn encode_frame_result(m: Message, payload: Seq<u8>) -> Result<Seq<u8>, FrameError> {
    match m {
        Message::VideoFrame(f) => if f.data@.len() >= MAX_FRAME_BYTES {
            Err(FrameError::FrameTooLarge(f.data@.len() as usize))
        } else {
            body_result(message_type_of(m), payload)
        },
        _ => body_result(message_type_of(m), payload),
    }
}

/// The length checks on the body, then the frame itself.
pub open spec fn body_result(t: MessageType, payload: Seq<u8>) -> Result<Seq<u8>, FrameError> {
    if payload.len() + 1 > usize::MAX {
        Err(FrameError::LengthOverflow(payload.len() as usize))
    } else if payload.len() + 1 > MAX_FRAME_BYTES {
        Err(FrameError::FrameTooLarge((payload.len() + 1) as usize))
    } else {
        Ok(frame_bytes(t, payload))
    }
}

/// Refuses a video frame whose data alone would reach the frame limit; this
/// is checked before the payload is encoded.
pub fn check_video_frame_size(message: &Message) -> (res: Result<(), FrameError>)
    ensures
        !video_data_too_large(*message) ==> res is Ok,
        video_data_too_large(*message) ==> res == Err::<(), FrameError>(
            FrameError::FrameTooLarge(
                match *message {
                    Message::VideoFrame(f) => f.data@.len() as usize,
                    _ => 0,
                },
            ),
        ),
{
    if let Message::VideoFrame(frame) = message {
        if frame.data.len() >= MAX_FRAME_BYTES {
            return Err(FrameError::FrameTooLarge(frame.data.len()));
        }
    }
    Ok(())
}

/// Frames `payload`, the encoded body of `message`: length prefix, type byte, payload.
pub fn encode_frame(message: &Message, payload: &[u8]) -> (res: Result<Vec<u8>, FrameError>)
    ensures
        match (res, encode_frame_result(*message, payload@)) {
            (Ok(v), Ok(s)) => v@ == s,
            (Err(e), Err(f)) => e == f,
            _ => false,
        },
{
    check_video_frame_size(message)?;
    let message_type = message.message_type().code();
    let frame_length = match FRAME_TYPE_BYTES.checked_add(payload.len()) {
        Some(n) => n,
        None => return Err(FrameError::LengthOverflow(payload.len())),
    };
    if frame_length > MAX_FRAME_BYTES {
        return Err(FrameError::FrameTooLarge(frame_length));
    }
    let frame_length_u32 = frame_length as u32;
    let prefix = u32_to_be_bytes(frame_length_u32);
    let mut frame: Vec<u8> = Vec::with_capacity(FRAME_LENGTH_PREFIX_BYTES + frame_length);
    frame.push(prefix[0]);
    frame.push(prefix[1]);
    frame.push(prefix[2]);
    frame.push(prefix[3]);
    frame.push(message_type);
    let mut i: usize = 0;
    while i < payload.len()
        invariant
            i <= payload@.len(),
            frame@ == prefix@ + seq![message_type] + payload@.take(i as int),
        decreases payload@.len() - i,
    {
        frame.push(payload[i]);
        assert(payload@.take(i + 1) =~= payload@.take(i as int).push(payload@[i as int]));
        i = i + 1;
    }
    assert(payload@.take(payload@.len() as int) =~= payload@);
    assert(frame@ =~= frame_bytes(message_type_of(*message), payload@));
    Ok(frame)
}

/// A frame split into its message type and payload bytes.
#[derive(Debug, Clone, PartialEq, Eq)]
pub struct RawFrame {
    pub message_type: MessageType,
    pub payload: Vec<u8>,
}

/// What reading a frame yields: its checks in order, then the type and payload.
pub open spec fn decode_frame_result(f: Seq<u8>) -> Result<(MessageType, Seq<u8>), FrameError> {
    if f.len() < 5 {
        Err(FrameError::FrameTooShort)
    } else {
        let declared = be_u32_value(f[0], f[1], f[2], f[3]) as usize;
        if declared > MAX_FRAME_BYTES {
            Err(FrameError::FrameTooLarge(declared))
        } else if declared != f.len() - 4 {
            Err(FrameError::LengthMismatch { declared, actual: (f.len() - 4) as usize })
        } else {
            match type_of_code(f[4]) {
                None => Err(FrameError::Codec(MessageCodecError::UnknownMessageType(f[4]))),
                Some(t) => Ok((t, f.subrange(5, f.len() as int))),
            }
        }
    }
}

/// Splits a complete frame into its message type and payload, checking the
/// length prefix against the limit and against the frame's actual length.
pub fn decode_frame(frame: &[u8]) -> (res: Result<RawFrame, FrameError>)
    ensures
        match (res, decode_frame_result(frame@)) {
            (Ok(r), Ok((t, p))) => r.message_type == t && r.payload@ == p,
            (Err(e), Err(f)) => e == f,
            _ => false,
        },
{
    if frame.len() < FRAME_LENGTH_PREFIX_BYTES + FRAME_TYPE_BYTES {
        return Err(FrameError::FrameTooShort);
    }
    let declared_frame_length = u32_from_be_bytes(frame[0], frame[1], frame[2], frame[3]) as usize;
    if declared_frame_length > MAX_FRAME_BYTES {
        return Err(FrameError::FrameTooLarge(declared_frame_length));
    }
    let actual_frame_length = frame.len() - FRAME_LENGTH_PREFIX_BYTES;
    if declared_frame_length != actual_frame_length {
        return Err(
            FrameError::LengthMismatch {
                declared: declared_frame_length,
                actual: actual_frame_length,
            },
        );
    }
    let message_type = match MessageType::try_from_code(frame[FRAME_LENGTH_PREFIX_BYTES]) {
        Ok(t) => t,
        Err(e) => return Err(FrameError::Codec(e)),
    };
    let mut payload: Vec<u8> = Vec::with_capacity(frame.len() - 5);
    let mut i: usize = 5;
    while i < frame.len()
        invariant
            5 <= i <= frame@.len(),
            payload@ == frame@.subrange(5, i as int),
        decreases frame@.len() - i,
    {
        payload.push(frame[i]);
        assert(frame@.subrange(5, i + 1) =~= frame@.subrange(5, i as int).push(frame@[i as int]));
        i = i + 1;
    }
    Ok(RawFrame { message_type, payload })
}

/// Law: every frame that encoding produces reads back as the same message
/// type and the same payload.
pub proof fn lemma_frame_roundtrip(m: Message, payload: Seq<u8>)
    requires
        encode_frame_result(m, payload) is Ok,
    ensures
        decode_frame_result(encode_frame_result(m, payload)->Ok_0) == Ok::<
            (MessageType, Seq<u8>),
            FrameError,
        >((message_type_of(m), payload)),
{
    let t = message_type_of(m);
    let f = frame_bytes(t, payload);
    let n = (payload.len() + 1) as u32;
    lemma_be_u32_value_bytes(n);
    crate::messages::lemma_type_code_roundtrip(t, t);
    assert(f[0] == be_u32_bytes(n)[0]);
    assert(f[1] == be_u32_bytes(n)[1]);
    assert(f[2] == be_u32_bytes(n)[2]);
    assert(f[3] == be_u32_bytes(n)[3]);
    assert(f[4] == type_code(t));
    assert(f.subrange(5, f.len() as int) =~= payload);
}

/// Law: an encoded frame's prefix declares exactly the number of bytes that
/// follow it, never more than the frame limit, and the fifth byte is the
/// message's type byte.
pub proof fn lemma_frame_layout(m: Message, payload: Seq<u8>)
    requires
        encode_frame_result(m, payload) is Ok,
    ensures
        ({
            let f = encode_frame_result(m, payload)->Ok_0;
            &&& f.len() == payload.len() + 5
            &&& be_u32_value(f[0], f[1], f[2], f[3]) == f.len() - 4
            &&& f.len() - 4 <= MAX_FRAME_BYTES
            &&& f[4] == type_code(message_type_of(m))
        }),
{
    let n = (payload.len() + 1) as u32;
    lemma_be_u32_value_bytes(n);
}

} // verus!
