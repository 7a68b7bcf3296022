//! Stream negotiation on the desktop: common profiles, codec preference,
//! configuration request ids and the pipeline's reported status.
use vstd::prelude::*;
use crate::output::NativeOutputFormat;
use crate::protocol::{profiles_contain, Handshake, StreamProfile, VideoCodec, PROTOCOL_VERSION};
use crate::text::owned;
use crate::text::{decimal, push_decimal, push_str, string_from_chars};

verus! {

broadcast use vstd::string::group_string_axioms;

/// The TCP port the desktop listens on unless told otherwise.
pub const DEFAULT_LISTEN_PORT: u16 = 7878;

/// Which codec the user asked for.
#[derive(Debug, Clone, Copy, PartialEq, Eq, Structural)]
pub enum CodecPreference {
    H264,
    Hevc,
    Auto,
}

/// What the desktop shows about its pipeline.
#[derive(Debug, Clone)]
pub struct PipelineStatus {
    pub connected: bool,
    pub state: String,
    pub last_error: Option<String>,
    pub supported_profiles: Vec<StreamProfile>,
    pub active_profile: Option<StreamProfile>,
    pub output_format: Option<NativeOutputFormat>,
}

impl PipelineStatus {
    /// No phone connected and nothing listening.
    pub fn disconnected() -> (s: Self)
        ensures
            !s.connected,
            s.state@ == "disconnected"@,
            s.last_error is None,
            s.supported_profiles@.len() == 0,
            s.active_profile is None,
            s.output_format is None,
    {
        PipelineStatus {
            connected: false,
            state: "disconnected".to_owned(),
            last_error: None,
            supported_profiles: Vec::new(),
            active_profile: None,
            output_format: None,
        }
    }

    /// Waiting for a phone.
    pub fn listening() -> (s: Self)
        ensures
            !s.connected,
            s.state@ == "listening"@,
            s.last_error is None,
            s.supported_profiles@.len() == 0,
            s.active_profile is None,
            s.output_format is None,
    {
        PipelineStatus {
            connected: false,
            state: "listening".to_owned(),
            last_error: None,
            supported_profiles: Vec::new(),
            active_profile: None,
            output_format: None,
        }
    }

    /// Streaming from a phone with the given common profiles and active profile.
    pub fn connected(
        supported_profiles: Vec<StreamProfile>,
        active_profile: StreamProfile,
        output_format: Option<NativeOutputFormat>,
    ) -> (s: Self)
        ensures
            s.connected,
            s.state@ == "connected"@,
            s.last_error is None,
            s.supported_profiles@ == supported_profiles@,
            s.active_profile == Some(active_profile),
            s.output_format == output_format,
    {
        PipelineStatus {
            connected: true,
            state: "connected".to_owned(),
            last_error: None,
            supported_profiles,
            active_profile: Some(active_profile),
            output_format,
        }
    }

    /// Stopped on an error.
    pub fn error(message: String) -> (s: Self)
        ensures
            !s.connected,
            s.state@ == "error"@,
            s.last_error == Some(message),
            s.supported_profiles@.len() == 0,
            s.active_profile is None,
            s.output_format is None,
    {
        PipelineStatus {
            connected: false,
            state: "error".to_owned(),
            last_error: Some(message),
            supported_profiles: Vec::new(),
            active_profile: None,
            output_format: None,
        }
    }
}

/// The request id that follows `c`: one more, wrapping, and never zero.
pub open spec fn next_id(c: u32) -> u32 {
    if c == u32::MAX {
        1
    } else {
        (c + 1) as u32
    }
}

/// Advances the request counter and returns the new id, skipping zero,
/// which marks configurations the phone makes on its own.
pub fn next_request_id(counter: &mut u32) -> (id: u32)
    ensures
        id == next_id(*old(counter)),
        *final(counter) == id,
        id != 0,
{
    *counter = counter.wrapping_add(1);
    if *counter == 0 {
        *counter = 1;
    }
    *counter
}

/// The local profiles that the peer also supports, in local order.
pub open spec fn common_of(local: Seq<StreamProfile>, peer: Seq<StreamProfile>) -> Seq<StreamProfile> {
    local.filter(|p: StreamProfile| peer.contains(p))
}

/// The local profiles that the peer also supports, in local order.
pub fn common_profiles(local: &[StreamProfile], peer: &[StreamProfile]) -> (common: Vec<StreamProfile>)
    ensures
        common@ == common_of(local@, peer@),
{
    let ghost pred = |p: StreamProfile| peer@.contains(p);
    let mut common: Vec<StreamProfile> = Vec::new();
    let mut i: usize = 0;
    while i < local.len()
        invariant
            i <= local@.len(),
            pred == (|p: StreamProfile| peer@.contains(p)),
            common@ == local@.take(i as int).filter(pred),
        decreases local@.len() - i,
    {
        let p = local[i];
        proof {
            assert(local@.take(i + 1) =~= local@.take(i as int).push(p));
            local@.take(i as int).lemma_filter_push(p, pred);
        }
        if profiles_contain(peer, p) {
            common.push(p);
        }
        i = i + 1;
    }
    assert(local@.take(local@.len() as int) =~= local@);
    common
}

/// The codecs to try for a preference, in order: Auto tries HEVC first and
/// falls back to H.264.
pub open spec fn codec_order(preference: CodecPreference) -> Seq<VideoCodec> {
    match preference {
        CodecPreference::H264 => seq![VideoCodec::H264],
        CodecPreference::Hevc => seq![VideoCodec::Hevc],
        CodecPreference::Auto => seq![VideoCodec::Hevc, VideoCodec::H264],
    }
}

/// The profile of codec `c` at the requested size and rate.
pub open spec fn profile_with(c: VideoCodec, width: u16, height: u16, fps: u8) -> StreamProfile {
    StreamProfile { codec: c, width, height, fps }
}

/// The profile a configuration request resolves to: the first codec in the
/// preference order whose profile at the requested size and rate is common.
pub open spec fn resolved_profile(
    common: Seq<StreamProfile>,
    width: u16,
    height: u16,
    fps: u8,
    preference: CodecPreference,
) -> Option<StreamProfile> {
    let order = codec_order(preference);
    if common.contains(profile_with(order[0], width, height, fps)) {
        Some(profile_with(order[0], width, height, fps))
    } else if order.len() > 1 && common.contains(profile_with(order[1], width, height, fps)) {
        Some(profile_with(order[1], width, height, fps))
    } else {
        None
    }
}

/// The message for a request that no common profile matches.
pub open spec fn unsupported_request_message(width: u16, height: u16, fps: u8) -> Seq<char> {
    "unsupported common stream profile "@ + decimal(width as nat) + "x"@ + decimal(height as nat) + "@"@
        + decimal(fps as nat)
}

/// Picks the common profile for a requested size, rate and codec preference.
pub fn resolve_profile(
    common: &[StreamProfile],
    width: u16,
    height: u16,
    fps: u8,
    preference: CodecPreference,
) -> (res: Result<StreamProfile, String>)
    ensures
        match resolved_profile(common@, width, height, fps, preference) {
            Some(p) => res == Ok::<StreamProfile, String>(p),
            None => res matches Err(m) && m@ == unsupported_request_message(width, height, fps),
        },
{
    let first = match preference {
        CodecPreference::H264 => VideoCodec::H264,
        CodecPreference::Hevc => VideoCodec::Hevc,
        CodecPreference::Auto => VideoCodec::Hevc,
    };
    let candidate = StreamProfile { codec: first, width, height, fps };
    if profiles_contain(common, candidate) {
        return Ok(candidate);
    }
    if preference == CodecPreference::Auto {
        let fallback = StreamProfile { codec: VideoCodec::H264, width, height, fps };
        if profiles_contain(common, fallback) {
            return Ok(fallback);
        }
    }
    let mut m: Vec<char> = Vec::new();
    push_str(&mut m, "unsupported common stream profile ");
    push_decimal(&mut m, width as u64);
    push_str(&mut m, "x");
    push_decimal(&mut m, height as u64);
    push_str(&mut m, "@");
    push_decimal(&mut m, fps as u64);
    Err(string_from_chars(m.as_slice()))
}

/// Whether the phone's applied profile answers a request: it is common and
/// has the requested size and rate, though its codec may differ.
pub open spec fn accepts_applied(common: Seq<StreamProfile>, requested: StreamProfile, applied: StreamProfile) -> bool {
    common.contains(applied) && applied.width == requested.width && applied.height == requested.height
        && applied.fps == requested.fps
}

/// Whether the phone's applied profile answers a request: it is common and
/// has the requested size and rate, though its codec may differ.
pub fn accepts_applied_profile(common: &[StreamProfile], requested: StreamProfile, applied: StreamProfile) -> (ok:
    bool)
    ensures
        ok == accepts_applied(common@, requested, applied),
{
    profiles_contain(common, applied) && applied.width == requested.width && applied.height
        == requested.height && applied.fps == requested.fps
}

/// Law: a request resolves only to a common profile of exactly the
/// requested size and rate. An explicit H.264 or HEVC preference tries only
/// that codec; only Auto may give either, preferring HEVC and falling back to
/// H.264 when HEVC is not common.
pub proof fn lemma_resolved_profile_codec(
    common: Seq<StreamProfile>,
    width: u16,
    height: u16,
    fps: u8,
    preference: CodecPreference,
)
    ensures
        ({
            let h264 = StreamProfile { codec: VideoCodec::H264, width, height, fps };
            let hevc = StreamProfile { codec: VideoCodec::Hevc, width, height, fps };
            let r = resolved_profile(common, width, height, fps, preference);
            &&& r matches Some(p) ==> common.contains(p) && p.width == width && p.height == height && p.fps == fps
            &&& preference == CodecPreference::H264 ==> (r matches Some(p) ==> p.codec == VideoCodec::H264) && (r
                is Some <==> common.contains(h264))
            &&& preference == CodecPreference::Hevc ==> (r matches Some(p) ==> p.codec == VideoCodec::Hevc) && (r
                is Some <==> common.contains(hevc))
            &&& preference == CodecPreference::Auto ==> (common.contains(hevc) ==> r == Some(hevc)) && (
            !common.contains(hevc) ==> r == (if common.contains(h264) {
                Some(h264)
            } else {
                None
            }))
        }),
{
}

/// Law: the phone's applied profile answers a request exactly when it is
/// common and keeps the requested width, height and frame rate; only the
/// codec may differ from the request.
pub proof fn lemma_accepts_applied_keeps_request(
    common: Seq<StreamProfile>,
    requested: StreamProfile,
    applied: StreamProfile,
)
    ensures
        accepts_applied(common, requested, applied) ==> common.contains(applied) && applied.width
            == requested.width && applied.height == requested.height && applied.fps == requested.fps,
        common.contains(applied) && applied.width == requested.width && applied.height == requested.height
            && applied.fps == requested.fps ==> accepts_applied(common, requested, applied),
        applied.fps != requested.fps ==> !accepts_applied(common, requested, applied),
{
}

/// Every profile the protocol defines, codec by codec, resolution by
/// resolution, frame rate by frame rate: the candidates the output is probed with.
pub fn all_profiles() -> (profiles: Vec<StreamProfile>)
    ensures
        profiles@.len() == 30,
        forall|i: int| 0 <= i < 30 ==> (#[trigger] profiles@[i]).codec == (if i < 15 {
            VideoCodec::H264
        } else {
            VideoCodec::Hevc
        }) && (profiles@[i].width, profiles@[i].height) == crate::protocol::supported_dimensions()[(i
            % 15) / 3] && profiles@[i].fps == crate::protocol::supported_frame_rates()[i % 3],
{
    let dims: [(u16, u16); 5] = [(640, 480), (1280, 720), (1920, 1080), (2560, 1440), (3840, 2160)];
    let rates: [u8; 3] = [15, 30, 60];
    let mut profiles: Vec<StreamProfile> = Vec::new();
    let mut c: usize = 0;
    while c < 2
        invariant
            c <= 2,
            dims@ == crate::protocol::supported_dimensions(),
            rates@ == crate::protocol::supported_frame_rates(),
            profiles@.len() == 15 * c,
            forall|i: int| 0 <= i < 15 * c ==> (#[trigger] profiles@[i]).codec == (if i < 15 {
                VideoCodec::H264
            } else {
                VideoCodec::Hevc
            }) && (profiles@[i].width, profiles@[i].height) == dims@[(i % 15) / 3] && profiles@[i].fps
                == rates@[i % 3],
        decreases 2 - c,
    {
        let codec = if c == 0 { VideoCodec::H264 } else { VideoCodec::Hevc };
        let mut d: usize = 0;
        while d < 5
            invariant
                c < 2,
                d <= 5,
                codec == (if c == 0 { VideoCodec::H264 } else { VideoCodec::Hevc }),
                dims@ == crate::protocol::supported_dimensions(),
                rates@ == crate::protocol::supported_frame_rates(),
                profiles@.len() == 15 * c + 3 * d,
                forall|i: int| 0 <= i < 15 * c + 3 * d ==> (#[trigger] profiles@[i]).codec == (if i < 15 {
                    VideoCodec::H264
                } else {
                    VideoCodec::Hevc
                }) && (profiles@[i].width, profiles@[i].height) == dims@[(i % 15) / 3] && profiles@[i].fps
                    == rates@[i % 3],
            decreases 5 - d,
        {
            let (width, height) = dims[d];
            let mut r: usize = 0;
            while r < 3
                invariant
                    c < 2,
                    d < 5,
                    r <= 3,
                    codec == (if c == 0 { VideoCodec::H264 } else { VideoCodec::Hevc }),
                    (width, height) == dims@[d as int],
                    dims@ == crate::protocol::supported_dimensions(),
                    rates@ == crate::protocol::supported_frame_rates(),
                    profiles@.len() == 15 * c + 3 * d + r,
                    forall|i: int| 0 <= i < 15 * c + 3 * d + r ==> (#[trigger] profiles@[i]).codec == (if i
                        < 15 {
                        VideoCodec::H264
                    } else {
                        VideoCodec::Hevc
                    }) && (profiles@[i].width, profiles@[i].height) == dims@[(i % 15) / 3]
                        && profiles@[i].fps == rates@[i % 3],
                decreases 3 - r,
            {
                profiles.push(StreamProfile { codec, width, height, fps: rates[r] });
                r = r + 1;
            }
            d = d + 1;
        }
        c = c + 1;
    }
    profiles
}

/// Whether the profiles the output qualified include the mandatory
/// H.264 720p30, without which the desktop does not listen.
pub fn includes_mandatory_profile(profiles: &[StreamProfile]) -> (ok: bool)
    ensures
        ok == profiles@.contains(StreamProfile::h264_720p30()),
{
    profiles_contain(profiles, StreamProfile::h264_720p30())
}

/// The port the pipeline listens on: the one given, or the default for 0.
pub fn listen_port_for(port: u16) -> (p: u16)
    ensures
        p == if port == 0 {
            DEFAULT_LISTEN_PORT
        } else {
            port
        },
{
    if port == 0 {
        DEFAULT_LISTEN_PORT
    } else {
        port
    }
}

/// The candidates that the output accepted, in order.
pub open spec fn accepted_profiles(candidates: Seq<StreamProfile>, accepted: Seq<bool>) -> Seq<StreamProfile>
    decreases candidates.len(),
{
    if candidates.len() == 0 {
        seq![]
    } else if accepted[candidates.len() - 1] {
        accepted_profiles(candidates.drop_last(), accepted).push(candidates.last())
    } else {
        accepted_profiles(candidates.drop_last(), accepted)
    }
}

/// The profiles the output qualified: the candidates whose preflight succeeded.
pub fn qualified_output_profiles(candidates: &[StreamProfile], accepted: &[bool]) -> (profiles: Vec<StreamProfile>)
    requires
        accepted@.len() == candidates@.len(),
    ensures
        profiles@ == accepted_profiles(candidates@, accepted@),
{
    let mut profiles: Vec<StreamProfile> = Vec::new();
    let mut i: usize = 0;
    while i < candidates.len()
        invariant
            i <= candidates@.len(),
            accepted@.len() == candidates@.len(),
            profiles@ == accepted_profiles(candidates@.take(i as int), accepted@),
        decreases candidates@.len() - i,
    {
        assert(candidates@.take(i + 1).drop_last() =~= candidates@.take(i as int));
        if accepted[i] {
            profiles.push(candidates[i]);
        }
        i = i + 1;
    }
    assert(candidates@.take(i as int) =~= candidates@);
    profiles
}

/// The name the desktop gives itself.
pub open spec fn desktop_name() -> Seq<char> {
    "PhoneCam Desktop"@
}

/// The handshake the desktop answers with: the qualified profiles, no active one.
pub fn desktop_handshake(profiles: Vec<StreamProfile>) -> (h: Handshake)
    ensures
        h.version == PROTOCOL_VERSION,
        h.device_name@ == desktop_name(),
        h.supported_profiles@ == profiles@,
        h.active_profile is None,
{
    Handshake { version: PROTOCOL_VERSION, device_name: owned("PhoneCam Desktop"), supported_profiles: profiles, active_profile: None }
}

/// The message when the output cannot show the mandatory profile.
pub open spec fn mandatory_rejected() -> Seq<char> {
    "decoder/output qualification rejected mandatory H.264 720p30"@
}

/// Checks that the qualified profiles hold the mandatory H.264 720p30.
pub fn qualification_check(profiles: &[StreamProfile]) -> (r: Result<(), String>)
    ensures
        profiles@.contains(StreamProfile::h264_720p30()) ==> r is Ok,
        !profiles@.contains(StreamProfile::h264_720p30()) ==> (r matches Err(m) && m@ == mandatory_rejected()),
{
    if includes_mandatory_profile(profiles) {
        Ok(())
    } else {
        Err(owned("decoder/output qualification rejected mandatory H.264 720p30"))
    }
}

/// Where setting up the pipeline failed.
#[derive(Debug, Clone, Copy, PartialEq, Eq, Structural)]
pub enum SetupFailure {
    Advertise,
    Bind,
    Accept,
}

/// The message of a failed setup step, with the failure's text; binding
/// names the address it listened on, every interface at `port`.
pub open spec fn setup_failure_text(step: SetupFailure, port: u16, detail: Seq<char>) -> Seq<char> {
    match step {
        SetupFailure::Advertise => "mDNS advertisement failed: "@ + detail,
        SetupFailure::Bind => "transport bind failed on 0.0.0.0:"@ + decimal(port as nat) + ": "@ + detail,
        SetupFailure::Accept => "transport accept failed: "@ + detail,
    }
}

/// The status of a pipeline whose setup failed.
pub fn setup_failure_status(step: SetupFailure, port: u16, detail: &str) -> (s: PipelineStatus)
    ensures
        s.state@ == "error"@,
        !s.connected,
        s.last_error matches Some(m) && m@ == setup_failure_text(step, port, detail@),
{
    let mut out: Vec<char> = Vec::new();
    match step {
        SetupFailure::Advertise => push_str(&mut out, "mDNS advertisement failed: "),
        SetupFailure::Bind => {
            push_str(&mut out, "transport bind failed on 0.0.0.0:");
            push_decimal(&mut out, port as u64);
            push_str(&mut out, ": ");
        },
        SetupFailure::Accept => push_str(&mut out, "transport accept failed: "),
    }
    push_str(&mut out, detail);
    let m = string_from_chars(out.as_slice());
    assert(m@ =~= setup_failure_text(step, port, detail@));
    PipelineStatus::error(m)
}

/// How streaming to a phone ended without an error.
#[derive(Debug, Clone, Copy, PartialEq, Eq, Structural)]
pub enum StreamExit {
    PeerDisconnected,
    ShutdownRequested,
}

/// The status once streaming ended: disconnected, or the error.
pub fn end_status(result: Result<StreamExit, String>) -> (s: PipelineStatus)
    ensures
        match result {
            Ok(_) => s.state@ == "disconnected"@ && !s.connected && s.last_error is None,
            Err(e) => s.state@ == "error"@ && !s.connected && s.last_error == Some(e),
        },
{
    match result {
        Ok(_) => PipelineStatus::disconnected(),
        Err(e) => PipelineStatus::error(e),
    }
}

} // verus!
