//! Stream profiles, handshakes and their validation.
use vstd::prelude::*;
use crate::session::{codec_text, profile_text, push_profile_text};
use crate::text::{decimal, push_decimal, push_str, string_from_chars};

verus! {

/// Version of the wire protocol that both peers must speak.
pub const PROTOCOL_VERSION: u8 = 2;

/// Video codecs a stream may carry.
#[derive(Debug, Clone, Copy, PartialEq, Eq, Hash, Structural)]
pub enum VideoCodec {
    H264,
    Hevc,
}

/// The numeric identifier of a codec.
pub open spec fn codec_id(codec: VideoCodec) -> u8 {
    match codec {
        VideoCodec::H264 => 0,
        VideoCodec::Hevc => 1,
    }
}

impl VideoCodec {
    /// The numeric identifier used on the mobile FFI boundary.
    pub fn id(self) -> (id: u8)
        ensures
            id == codec_id(self),
    {
        match self {
            VideoCodec::H264 => 0,
            VideoCodec::Hevc => 1,
        }
    }

    /// Maps a numeric identifier back to its codec.
    pub fn try_from_id(value: u8) -> (res: Result<VideoCodec, ProfileValidationError>)
        ensures
            value == 0 ==> res == Ok::<VideoCodec, ProfileValidationError>(VideoCodec::H264),
            value == 1 ==> res == Ok::<VideoCodec, ProfileValidationError>(VideoCodec::Hevc),
            value > 1 ==> res == Err::<VideoCodec, ProfileValidationError>(
                ProfileValidationError::InvalidCodec(value),
            ),
    {
        if value == 0 {
            Ok(VideoCodec::H264)
        } else if value == 1 {
            Ok(VideoCodec::Hevc)
        } else {
            Err(ProfileValidationError::InvalidCodec(value))
        }
    }
}

/// An exact stream configuration: codec, resolution and frame rate.
#[derive(Debug, Clone, Copy, PartialEq, Eq, Hash, Structural)]
pub struct StreamProfile {
    pub codec: VideoCodec,
    pub width: u16,
    pub height: u16,
    pub fps: u8,
}

/// The resolutions the protocol allows, in the order of the protocol's table.
pub open spec fn supported_dimensions() -> Seq<(u16, u16)> {
    seq![(640u16, 480u16), (1280u16, 720u16), (1920u16, 1080u16), (2560u16, 1440u16), (3840u16, 2160u16)]
}

/// The frame rates the protocol allows, in the order of the protocol's table.
pub open spec fn supported_frame_rates() -> Seq<u8> {
    seq![15u8, 30u8, 60u8]
}

/// Whether `width`x`height` is one of the protocol's resolutions.
pub fn is_supported_dimensions(width: u16, height: u16) -> (res: bool)
    ensures
        res == supported_dimensions().contains((width, height)),
{
    proof {
        let d = supported_dimensions();
        if d.contains((width, height)) {
            let i = choose|i: int| 0 <= i < d.len() && d[i] == (width, height);
            assert(d[i] == (width, height));
        }
        assert(d[0] == (640u16, 480u16));
        assert(d[1] == (1280u16, 720u16));
        assert(d[2] == (1920u16, 1080u16));
        assert(d[3] == (2560u16, 1440u16));
        assert(d[4] == (3840u16, 2160u16));
    }
    (width == 640 && height == 480) || (width == 1280 && height == 720) || (width == 1920
        && height == 1080) || (width == 2560 && height == 1440) || (width == 3840 && height
        == 2160)
}

/// Whether `fps` is one of the protocol's frame rates.
pub fn is_supported_frame_rate(fps: u8) -> (res: bool)
    ensures
        res == supported_frame_rates().contains(fps),
{
    proof {
        let r = supported_frame_rates();
        if r.contains(fps) {
            let i = choose|i: int| 0 <= i < r.len() && r[i] == fps;
            assert(r[i] == fps);
        }
        assert(r[0] == 15u8);
        assert(r[1] == 30u8);
        assert(r[2] == 60u8);
    }
    fps == 15 || fps == 30 || fps == 60
}

/// Why a profile, a profile list, a handshake or a frame was refused.
#[derive(Debug, Clone, PartialEq, Eq, Structural)]
pub enum ProfileValidationError {
    UnsupportedProtocolVersion { actual: u8, expected: u8 },
    EmptySupportedProfiles,
    DuplicateProfile(StreamProfile),
    InvalidCodec(u8),
    InvalidDimensions { width: u16, height: u16 },
    InvalidFrameRate(u8),
    ActiveProfileUnsupported(StreamProfile),
    FrameProfileMismatch {
        actual_codec: VideoCodec,
        actual_width: u16,
        actual_height: u16,
        expected: StreamProfile,
    },
}

/// What validating a single profile yields: the resolution is checked first,
/// then the frame rate.
pub open spec fn profile_check(p: StreamProfile) -> Result<(), ProfileValidationError> {
    if !supported_dimensions().contains((p.width, p.height)) {
        Err(ProfileValidationError::InvalidDimensions { width: p.width, height: p.height })
    } else if !supported_frame_rates().contains(p.fps) {
        Err(ProfileValidationError::InvalidFrameRate(p.fps))
    } else {
        Ok(())
    }
}

impl StreamProfile {
    /// H.264 at 1280x720 and 30 frames per second, the profile every peer supports.
    pub open spec fn h264_720p30_spec() -> StreamProfile {
        StreamProfile { codec: VideoCodec::H264, width: 1280, height: 720, fps: 30 }
    }

    /// H.264 at 1280x720 and 30 frames per second, the profile every peer supports.
    #[verifier::when_used_as_spec(h264_720p30_spec)]
    pub fn h264_720p30() -> (p: StreamProfile)
        ensures
            p == Self::h264_720p30_spec(),
    {
        StreamProfile { codec: VideoCodec::H264, width: 1280, height: 720, fps: 30 }
    }

    /// Checks that the resolution and the frame rate are ones the protocol allows.
    pub fn validate(&self) -> (res: Result<(), ProfileValidationError>)
        ensures
            res == profile_check(*self),
    {
        if !is_supported_dimensions(self.width, self.height) {
            return Err(
                ProfileValidationError::InvalidDimensions { width: self.width, height: self.height },
            );
        }
        if !is_supported_frame_rate(self.fps) {
            return Err(ProfileValidationError::InvalidFrameRate(self.fps));
        }
        Ok(())
    }
}


/// Whether `p` occurs among the first `end` entries of `profiles`.
pub fn profiles_contain_before(profiles: &[StreamProfile], end: usize, p: StreamProfile) -> (res:
    bool)
    requires
        end <= profiles@.len(),
    ensures
        res == profiles@.take(end as int).contains(p),
{
    let mut i: usize = 0;
    while i < end
        invariant
            i <= end <= profiles@.len(),
            forall|j: int| 0 <= j < i ==> profiles@[j] != p,
        decreases end - i,
    {
        if profiles[i] == p {
            assert(profiles@.take(end as int)[i as int] == p);
            return true;
        }
        i = i + 1;
    }
    proof {
        if profiles@.take(end as int).contains(p) {
            let k = choose|k: int| 0 <= k < end && profiles@.take(end as int)[k] == p;
            assert(profiles@[k] == p);
        }
    }
    false
}

/// Whether `p` occurs in `profiles`.
pub fn profiles_contain(profiles: &[StreamProfile], p: StreamProfile) -> (res: bool)
    ensures
        res == profiles@.contains(p),
{
    assert(profiles@.take(profiles@.len() as int) =~= profiles@);
    profiles_contain_before(profiles, profiles.len(), p)
}

/// The outcome of checking a profile list entry by entry, without the
/// emptiness check: the first entry that is invalid or repeats an earlier
/// one decides the error.
pub open spec fn profiles_check(s: Seq<StreamProfile>) -> Result<(), ProfileValidationError>
    decreases s.len(),
{
    if s.len() == 0 {
        Ok(())
    } else {
        let prefix = s.drop_last();
        match profiles_check(prefix) {
            Err(e) => Err(e),
            Ok(()) => match profile_check(s.last()) {
                Err(e) => Err(e),
                Ok(()) => if prefix.contains(s.last()) {
                    Err(ProfileValidationError::DuplicateProfile(s.last()))
                } else {
                    Ok(())
                },
            },
        }
    }
}

/// What validating a supported-profile list yields.
pub open spec fn profile_list_check(s: Seq<StreamProfile>) -> Result<(), ProfileValidationError> {
    if s.len() == 0 {
        Err(ProfileValidationError::EmptySupportedProfiles)
    } else {
        profiles_check(s)
    }
}

/// A profile list is acceptable when it is non-empty, every entry is valid
/// and no entry occurs twice.
pub open spec fn is_valid_profile_list(s: Seq<StreamProfile>) -> bool {
    &&& s.len() > 0
    &&& forall|i: int| 0 <= i < s.len() ==> profile_check(#[trigger] s[i]) is Ok
    &&& forall|i: int, j: int| 0 <= i < j < s.len() ==> s[i] != s[j]
}

proof fn lemma_profiles_check_err_persists(s: Seq<StreamProfile>, k: int, m: int)
    requires
        0 <= k <= m <= s.len(),
        profiles_check(s.take(k)) is Err,
    ensures
        profiles_check(s.take(m)) == profiles_check(s.take(k)),
    decreases m - k,
{
    if m > k {
        lemma_profiles_check_err_persists(s, k, m - 1);
        assert(s.take(m).drop_last() =~= s.take(m - 1));
    }
}

proof fn lemma_profiles_check_ok(s: Seq<StreamProfile>)
    ensures
        profiles_check(s) is Ok <==> (
            (forall|i: int| 0 <= i < s.len() ==> profile_check(#[trigger] s[i]) is Ok)
            && (forall|i: int, j: int| 0 <= i < j < s.len() ==> s[i] != s[j])),
    decreases s.len(),
{
    if s.len() > 0 {
        let prefix = s.drop_last();
        lemma_profiles_check_ok(prefix);
        if profiles_check(s) is Ok {
            assert forall|i: int, j: int| 0 <= i < j < s.len() implies s[i] != s[j] by {
                if j == s.len() - 1 {
                    assert(prefix[i] == s[i]);
                } else {
                    assert(prefix[i] == s[i] && prefix[j] == s[j]);
                }
            }
            assert forall|i: int| 0 <= i < s.len() implies profile_check(#[trigger] s[i]) is Ok by {
                if i < s.len() - 1 {
                    assert(prefix[i] == s[i]);
                }
            }
        } else {
            if (forall|i: int| 0 <= i < s.len() ==> profile_check(#[trigger] s[i]) is Ok)
                && (forall|i: int, j: int| 0 <= i < j < s.len() ==> s[i] != s[j]) {
                assert forall|i: int| 0 <= i < prefix.len() implies profile_check(
                    #[trigger] prefix[i],
                ) is Ok by {
                    assert(prefix[i] == s[i]);
                }
                assert forall|i: int, j: int| 0 <= i < j < prefix.len() implies prefix[i]
                    != prefix[j] by {
                    assert(prefix[i] == s[i] && prefix[j] == s[j]);
                }
                assert(profile_check(s[s.len() - 1]) is Ok);
                if prefix.contains(s.last()) {
                    let k = choose|k: int| 0 <= k < prefix.len() && prefix[k] == s.last();
                    assert(s[k] == s[s.len() - 1]);
                }
            }
        }
    }
}

/// Law: a supported-profile list passes validation exactly when it is
/// non-empty, all of its profiles are valid and none occurs twice.
pub proof fn lemma_profile_list_valid_iff(s: Seq<StreamProfile>)
    ensures
        profile_list_check(s) is Ok <==> is_valid_profile_list(s),
{
    lemma_profiles_check_ok(s);
}

/// Checks a supported-profile list: non-empty, every profile valid, no
/// profile listed twice. The first offending entry decides the error.
pub fn validate_profiles(profiles: &[StreamProfile]) -> (res: Result<(), ProfileValidationError>)
    ensures
        res == profile_list_check(profiles@),
{
    if profiles.len() == 0 {
        return Err(ProfileValidationError::EmptySupportedProfiles);
    }
    let mut index: usize = 0;
    while index < profiles.len()
        invariant
            index <= profiles@.len(),
            profiles@.len() > 0,
            profiles_check(profiles@.take(index as int)) is Ok,
        decreases profiles@.len() - index,
    {
        let profile = profiles[index];
        let ghost s = profiles@;
        assert(s.take(index + 1).drop_last() =~= s.take(index as int));
        assert(s.take(index + 1).last() == profile);
        match profile.validate() {
            Err(e) => {
                proof {
                    lemma_profiles_check_err_persists(s, index + 1, s.len() as int);
                    assert(s.take(s.len() as int) =~= s);
                }
                return Err(e);
            },
            Ok(()) => {},
        }
        if profiles_contain_before(profiles, index, profile) {
            proof {
                lemma_profiles_check_err_persists(s, index + 1, s.len() as int);
                assert(s.take(s.len() as int) =~= s);
            }
            return Err(ProfileValidationError::DuplicateProfile(profile));
        }
        index = index + 1;
    }
    assert(profiles@.take(profiles@.len() as int) =~= profiles@);
    Ok(())
}

/// The first message each peer sends: who it is and which exact profiles it can stream.
#[derive(Debug, Clone, PartialEq, Eq)]
pub struct Handshake {
    pub version: u8,
    pub device_name: String,
    pub supported_profiles: Vec<StreamProfile>,
    pub active_profile: Option<StreamProfile>,
}

/// What validating a handshake yields: the version, then the profile list,
/// then that the active profile (if any) is one of the supported ones.
pub open spec fn handshake_check(
    version: u8,
    supported: Seq<StreamProfile>,
    active: Option<StreamProfile>,
) -> Result<(), ProfileValidationError> {
    if version != PROTOCOL_VERSION {
        Err(ProfileValidationError::UnsupportedProtocolVersion { actual: version, expected: PROTOCOL_VERSION })
    } else {
        match profile_list_check(supported) {
            Err(e) => Err(e),
            Ok(()) => match active {
                Some(a) => if supported.contains(a) {
                    Ok(())
                } else {
                    Err(ProfileValidationError::ActiveProfileUnsupported(a))
                },
                None => Ok(()),
            },
        }
    }
}

impl Handshake {
    /// Checks the protocol version, the supported-profile list and the active profile.
    pub fn validate(&self) -> (res: Result<(), ProfileValidationError>)
        ensures
            res == handshake_check(self.version, self.supported_profiles@, self.active_profile),
    {
        if self.version != PROTOCOL_VERSION {
            return Err(
                ProfileValidationError::UnsupportedProtocolVersion {
                    actual: self.version,
                    expected: PROTOCOL_VERSION,
                },
            );
        }
        validate_profiles(self.supported_profiles.as_slice())?;
        if let Some(active_profile) = self.active_profile {
            if !profiles_contain(self.supported_profiles.as_slice(), active_profile) {
                return Err(ProfileValidationError::ActiveProfileUnsupported(active_profile));
            }
        }
        Ok(())
    }
}

/// A peer's new list of exact profiles, sent while streaming.
#[derive(Debug, Clone, PartialEq, Eq)]
pub struct VideoCapabilitiesUpdate {
    pub supported_profiles: Vec<StreamProfile>,
}

/// What validating a capability update against the active profile yields.
pub open spec fn capabilities_check(supported: Seq<StreamProfile>, active: StreamProfile) -> Result<
    (),
    ProfileValidationError,
> {
    match profile_list_check(supported) {
        Err(e) => Err(e),
        Ok(()) => if supported.contains(active) {
            Ok(())
        } else {
            Err(ProfileValidationError::ActiveProfileUnsupported(active))
        },
    }
}

impl VideoCapabilitiesUpdate {
    /// Checks the new list and that it still holds the active profile.
    pub fn validate(&self, active_profile: StreamProfile) -> (res: Result<(), ProfileValidationError>)
        ensures
            res == capabilities_check(self.supported_profiles@, active_profile),
    {
        validate_profiles(self.supported_profiles.as_slice())?;
        if !profiles_contain(self.supported_profiles.as_slice(), active_profile) {
            return Err(ProfileValidationError::ActiveProfileUnsupported(active_profile));
        }
        Ok(())
    }
}

/// One encoded video access unit with its metadata.
#[derive(Debug, Clone, PartialEq, Eq)]
pub struct VideoFrame {
    pub data: Vec<u8>,
    pub pts_us: u64,
    pub codec: VideoCodec,
    pub width: u16,
    pub height: u16,
    pub is_keyframe: bool,
}

/// Whether a frame's codec and resolution are those of `active`.
pub open spec fn frame_matches(codec: VideoCodec, width: u16, height: u16, active: StreamProfile) -> bool {
    codec == active.codec && width == active.width && height == active.height
}

impl VideoFrame {
    /// Checks that the frame carries the codec and resolution of the committed profile.
    pub fn validate_against(&self, active_profile: StreamProfile) -> (res: Result<
        (),
        ProfileValidationError,
    >)
        ensures
            frame_matches(self.codec, self.width, self.height, active_profile) ==> res is Ok,
            !frame_matches(self.codec, self.width, self.height, active_profile) ==> res == Err::<
                (),
                ProfileValidationError,
            >(
                ProfileValidationError::FrameProfileMismatch {
                    actual_codec: self.codec,
                    actual_width: self.width,
                    actual_height: self.height,
                    expected: active_profile,
                },
            ),
    {
        if self.codec != active_profile.codec || self.width != active_profile.width || self.height
            != active_profile.height {
            return Err(
                ProfileValidationError::FrameProfileMismatch {
                    actual_codec: self.codec,
                    actual_width: self.width,
                    actual_height: self.height,
                    expected: active_profile,
                },
            );
        }
        Ok(())
    }
}

/// Audio codecs reserved for a later protocol version.
#[derive(Debug, Clone, Copy, PartialEq, Eq, Structural)]
pub enum AudioCodec {
    Opus,
    Aac,
    Pcm16,
}

/// An audio frame, reserved for a later protocol version.
#[derive(Debug, Clone, PartialEq, Eq)]
pub struct AudioFrame {
    pub codec: AudioCodec,
    pub sample_rate: u32,
    pub channels: u8,
    pub data: Vec<u8>,
}

/// Commands the desktop sends to the phone's camera.
#[derive(Debug, Clone, Copy, PartialEq, Eq, Structural)]
pub enum CameraControl {
    SwitchCamera { front: bool },
    RequestKeyframe,
    ConfigureStream { request_id: u32, profile: StreamProfile },
}

/// The phone's answer to a stream configuration request.
#[derive(Debug, Clone, Copy, PartialEq, Eq, Structural)]
pub struct StreamConfigurationResult {
    pub request_id: u32,
    pub result: StreamConfigurationOutcome,
}

/// How a stream configuration request ended.
#[derive(Debug, Clone, Copy, PartialEq, Eq, Structural)]
pub enum StreamConfigurationOutcome {
    Applied(StreamProfile),
    UnsupportedProfile,
    CaptureConfigurationFailed,
    EncoderInitializationFailed,
}

/// A free-form status line.
#[derive(Debug, Clone, PartialEq, Eq)]
pub struct StatusUpdate {
    pub status: String,
}

/// A peer's notice that it is closing the connection.
#[derive(Debug, Clone, PartialEq, Eq)]
pub struct Disconnect {
    pub reason: Option<String>,
}

/// The message that describes a validation error.
pub open spec fn validation_error_text(e: ProfileValidationError) -> Seq<char> {
    match e {
        ProfileValidationError::UnsupportedProtocolVersion { actual, expected } => "unsupported protocol version "@
            + decimal(actual as nat) + "; expected "@ + decimal(expected as nat),
        ProfileValidationError::EmptySupportedProfiles => "supported profile list must not be empty"@,
        ProfileValidationError::DuplicateProfile(p) => "duplicate supported profile: "@ + profile_text(p),
        ProfileValidationError::InvalidCodec(c) => "unsupported video codec id: "@ + decimal(c as nat),
        ProfileValidationError::InvalidDimensions { width, height } => "unsupported dimensions: "@ + decimal(
            width as nat,
        ) + "x"@ + decimal(height as nat),
        ProfileValidationError::InvalidFrameRate(f) => "unsupported frame rate: "@ + decimal(f as nat),
        ProfileValidationError::ActiveProfileUnsupported(p) => "active profile is not present in supported profiles: "@
            + profile_text(p),
        ProfileValidationError::FrameProfileMismatch { actual_codec, actual_width, actual_height, expected } =>
            "video frame metadata "@ + codec_text(actual_codec) + " "@ + decimal(actual_width as nat) + "x"@
            + decimal(actual_height as nat) + " does not match active profile "@ + profile_text(expected),
    }
}

impl ProfileValidationError {
    /// The message that describes the error.
    pub fn message(&self) -> (m: String)
        ensures
            m@ == validation_error_text(*self),
    {
        let mut out: Vec<char> = Vec::new();
        match self {
            ProfileValidationError::UnsupportedProtocolVersion { actual, expected } => {
                push_str(&mut out, "unsupported protocol version ");
                push_decimal(&mut out, *actual as u64);
                push_str(&mut out, "; expected ");
                push_decimal(&mut out, *expected as u64);
            },
            ProfileValidationError::EmptySupportedProfiles => push_str(
                &mut out,
                "supported profile list must not be empty",
            ),
            ProfileValidationError::DuplicateProfile(p) => {
                push_str(&mut out, "duplicate supported profile: ");
                push_profile_text(&mut out, *p);
            },
            ProfileValidationError::InvalidCodec(c) => {
                push_str(&mut out, "unsupported video codec id: ");
                push_decimal(&mut out, *c as u64);
            },
            ProfileValidationError::InvalidDimensions { width, height } => {
                push_str(&mut out, "unsupported dimensions: ");
                push_decimal(&mut out, *width as u64);
                push_str(&mut out, "x");
                push_decimal(&mut out, *height as u64);
            },
            ProfileValidationError::InvalidFrameRate(f) => {
                push_str(&mut out, "unsupported frame rate: ");
                push_decimal(&mut out, *f as u64);
            },
            ProfileValidationError::ActiveProfileUnsupported(p) => {
                push_str(&mut out, "active profile is not present in supported profiles: ");
                push_profile_text(&mut out, *p);
            },
            ProfileValidationError::FrameProfileMismatch { actual_codec, actual_width, actual_height, expected } => {
                push_str(&mut out, "video frame metadata ");
                match actual_codec {
                    VideoCodec::H264 => push_str(&mut out, "H264"),
                    VideoCodec::Hevc => push_str(&mut out, "Hevc"),
                }
                push_str(&mut out, " ");
                push_decimal(&mut out, *actual_width as u64);
                push_str(&mut out, "x");
                push_decimal(&mut out, *actual_height as u64);
                push_str(&mut out, " does not match active profile ");
                push_profile_text(&mut out, *expected);
            },
        }
        let m = string_from_chars(out.as_slice());
        assert(m@ =~= validation_error_text(*self));
        m
    }
}

} // verus!
