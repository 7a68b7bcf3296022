//! The decisions of the decoder worker: which frames reach a decoder, what a
//! failure or a reset does, and the parameter sets an HEVC picture needs.
use vstd::prelude::*;
use crate::decode::{is_nv12_of, planar_error, planar_to_nv12, DecodeError, Nv12Frame};
use crate::protocol::VideoCodec;
use crate::text::{owned};

verus! {

broadcast use vstd::string::group_string_axioms;

/// What the worker does with an incoming frame.
#[derive(Debug, Clone, Copy, PartialEq, Eq, Structural)]
pub enum FrameAdmission {
    /// Hand the frame to the decoder of the current codec.
    Decode,
    /// Drop it and ask the sender for a fresh key frame.
    RecoveryRequired,
}

/// The worker's view of the stream: the codec being decoded and whether it
/// waits for a key frame before it decodes again.
#[derive(Debug, Clone, Copy, PartialEq, Eq, Structural)]
pub struct DecoderGate {
    pub codec: VideoCodec,
    pub waiting_for_idr: bool,
}

impl DecoderGate {
    /// A worker that starts on H.264 and waits for a key frame.
    pub fn new() -> (g: Self)
        ensures
            g.codec == VideoCodec::H264,
            g.waiting_for_idr,
    {
        DecoderGate { codec: VideoCodec::H264, waiting_for_idr: true }
    }

    /// Whether a frame of `codec` reaches the decoder: it must be of the
    /// current codec, and a key frame while the worker waits for one.
    pub fn admission(&self, codec: VideoCodec, is_keyframe: bool) -> (a: FrameAdmission)
        ensures
            (a == FrameAdmission::Decode) <==> lets_through(*self, codec, is_keyframe),
    {
        if codec != self.codec || (self.waiting_for_idr && !is_keyframe) {
            FrameAdmission::RecoveryRequired
        } else {
            FrameAdmission::Decode
        }
    }

    /// A frame decoded: a key frame ends the wait for one.
    pub fn decoded(&mut self, is_keyframe: bool)
        ensures
            final(self).codec == old(self).codec,
            final(self).waiting_for_idr == (old(self).waiting_for_idr && !is_keyframe),
    {
        if is_keyframe {
            self.waiting_for_idr = false;
        }
    }

    /// Decoding failed: the decoder is made anew and a key frame awaited.
    pub fn failed(&mut self)
        ensures
            final(self).codec == old(self).codec,
            final(self).waiting_for_idr,
    {
        self.waiting_for_idr = true;
    }

    /// A reset to `next`: when its decoder could be made, the worker
    /// switches to it and waits for a key frame; otherwise nothing changes.
    pub fn reset(&mut self, next: VideoCodec, decoder_ready: bool)
        ensures
            *final(self) == after_reset(*old(self), next, decoder_ready),
    {
        if decoder_ready {
            self.codec = next;
            self.waiting_for_idr = true;
        }
    }
}

/// Whether the worker in state `g` decodes a frame of `codec`.
pub open spec fn lets_through(g: DecoderGate, codec: VideoCodec, is_keyframe: bool) -> bool {
    codec == g.codec && (!g.waiting_for_idr || is_keyframe)
}

/// The worker after a reset to `next`, which takes effect only when its
/// decoder could be made.
pub open spec fn after_reset(g: DecoderGate, next: VideoCodec, decoder_ready: bool) -> DecoderGate {
    if decoder_ready {
        DecoderGate { codec: next, waiting_for_idr: true }
    } else {
        g
    }
}

/// After a successful reset, whatever the worker did before, the only frame
/// it decodes is a key frame of the new codec.
pub proof fn lemma_reset_requires_key_frame(g: DecoderGate, next: VideoCodec, codec: VideoCodec, is_keyframe: bool)
    ensures
        lets_through(after_reset(g, next, true), codec, is_keyframe) <==> (codec == next && is_keyframe),
{
}

/// A failed decode makes the worker wait for a key frame again, of the same codec.
pub proof fn lemma_failure_requires_key_frame(g: DecoderGate, codec: VideoCodec, is_keyframe: bool)
    ensures
        lets_through(DecoderGate { waiting_for_idr: true, ..g }, codec, is_keyframe) <==> (codec == g.codec
            && is_keyframe),
{
}

/// The kinds of HEVC NAL units that the parameter-set check tells apart.
#[derive(Debug, Clone, Copy, PartialEq, Eq, Structural)]
pub enum NalKind {
    Vps,
    Sps,
    Pps,
    Idr,
    Other,
}

/// The kinds of the NAL units that `rust_h265::parse_annex_b` finds in `data`, in order.
pub uninterp spec fn annex_b_nal_kinds(data: Seq<u8>) -> Seq<NalKind>;

/// Splits HEVC Annex-B data into NAL units with `rust_h265::parse_annex_b`
/// and gives the kind of each, in order. Believed: the result is a function
/// of the bytes alone.
#[verifier::external_body]
fn hevc_nal_kinds(data: &[u8]) -> (kinds: Vec<NalKind>)
    ensures
        kinds@ == annex_b_nal_kinds(data@),
{
    rust_h265::parse_annex_b(data).iter().map(|nal| match nal.nal_unit_type {
        rust_h265::NalUnitType::Vps => NalKind::Vps,
        rust_h265::NalUnitType::Sps => NalKind::Sps,
        rust_h265::NalUnitType::Pps => NalKind::Pps,
        kind if kind.is_idr() => NalKind::Idr,
        _ => NalKind::Other,
    }).collect()
}

/// The parameter sets an HEVC decoder has seen.
#[derive(Debug, Clone, Copy, PartialEq, Eq, Structural)]
pub struct HevcParameterSets {
    pub saw_vps: bool,
    pub saw_sps: bool,
    pub saw_pps: bool,
}

/// The message of an IDR picture that came before its parameter sets.
pub open spec fn idr_before_parameter_sets() -> Seq<char> {
    "HEVC IDR arrived before VPS/SPS/PPS"@
}

/// The message of HEVC data in which no NAL unit was found.
pub open spec fn malformed_hevc() -> Seq<char> {
    "malformed HEVC Annex-B data"@
}

impl HevcParameterSets {
    /// A decoder that has seen none.
    pub fn new() -> (s: Self)
        ensures
            !s.saw_vps && !s.saw_sps && !s.saw_pps,
    {
        HevcParameterSets { saw_vps: false, saw_sps: false, saw_pps: false }
    }

    /// Takes note of one NAL unit before it is decoded: a parameter set is
    /// recorded, and an IDR picture is refused until all three were seen.
    pub fn accept_nal(&mut self, kind: NalKind) -> (r: Result<(), DecodeError>)
        ensures
            kind == NalKind::Vps ==> r is Ok && *final(self) == (HevcParameterSets { saw_vps: true, ..*old(self) }),
            kind == NalKind::Sps ==> r is Ok && *final(self) == (HevcParameterSets { saw_sps: true, ..*old(self) }),
            kind == NalKind::Pps ==> r is Ok && *final(self) == (HevcParameterSets { saw_pps: true, ..*old(self) }),
            kind == NalKind::Idr ==> *final(self) == *old(self) && (if old(self).saw_vps && old(self).saw_sps
                && old(self).saw_pps {
                r is Ok
            } else {
                r matches Err(DecodeError::DecodeFailed(m)) && m@ == idr_before_parameter_sets()
            }),
            kind == NalKind::Other ==> r is Ok && *final(self) == *old(self),
    {
        match kind {
            NalKind::Vps => {
                self.saw_vps = true;
                Ok(())
            },
            NalKind::Sps => {
                self.saw_sps = true;
                Ok(())
            },
            NalKind::Pps => {
                self.saw_pps = true;
                Ok(())
            },
            NalKind::Idr => {
                if self.saw_vps && self.saw_sps && self.saw_pps {
                    Ok(())
                } else {
                    Err(DecodeError::DecodeFailed(owned("HEVC IDR arrived before VPS/SPS/PPS")))
                }
            },
            NalKind::Other => Ok(()),
        }
    }
}

/// Checks the NAL units of one HEVC frame before decoding: there must be
/// some, and none may be an IDR picture before all three parameter sets.
/// Gives the kinds, in order, for the decoder to walk.
pub fn hevc_frame_kinds(data: &[u8]) -> (r: Result<Vec<NalKind>, DecodeError>)
    ensures
        annex_b_nal_kinds(data@).len() == 0 ==> (r matches Err(DecodeError::DecodeFailed(m)) && m@
            == malformed_hevc()),
        annex_b_nal_kinds(data@).len() > 0 ==> (r matches Ok(k) && k@ == annex_b_nal_kinds(data@)),
{
    let kinds = hevc_nal_kinds(data);
    if kinds.len() == 0 {
        return Err(DecodeError::DecodeFailed(owned("malformed HEVC Annex-B data")));
    }
    Ok(kinds)
}

/// Converts a decoded HEVC picture: only 8-bit samples are taken; the
/// chroma planes are half as wide as the luma plane.
pub fn hevc_frame_to_nv12(
    bit_depth: u8,
    width: u32,
    height: u32,
    pts_us: u64,
    y: Option<&[u8]>,
    u: Option<&[u8]>,
    v: Option<&[u8]>,
) -> (res: Result<Nv12Frame, DecodeError>)
    ensures
        (bit_depth != 8 || y is None || u is None || v is None) ==> res matches Err(
            DecodeError::Main10Unsupported,
        ),
        (bit_depth == 8 && y is Some && u is Some && v is Some) ==> match planar_error(
            width,
            height,
            y.unwrap()@.len() as int,
            width as int,
            u.unwrap()@.len() as int,
            (width / 2) as int,
            v.unwrap()@.len() as int,
            (width / 2) as int,
        ) {
            Some(m) => res matches Err(DecodeError::DecodeFailed(e)) && e@ == m,
            None => res matches Ok(f) && is_nv12_of(
                f,
                width,
                height,
                pts_us,
                y.unwrap()@,
                width as int,
                u.unwrap()@,
                (width / 2) as int,
                v.unwrap()@,
                (width / 2) as int,
            ),
        },
{
    if bit_depth != 8 {
        return Err(DecodeError::Main10Unsupported);
    }
    let yp = match y {
        Some(p) => p,
        None => return Err(DecodeError::Main10Unsupported),
    };
    let up = match u {
        Some(p) => p,
        None => return Err(DecodeError::Main10Unsupported),
    };
    let vp = match v {
        Some(p) => p,
        None => return Err(DecodeError::Main10Unsupported),
    };
    planar_to_nv12(width, height, pts_us, yp, width as usize, up, (width / 2) as usize, vp, (width / 2) as usize)
}

} // verus!
