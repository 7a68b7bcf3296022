//! The phone side: its endpoint settings, the session it keeps with a
//! desktop, and the checks and texts of its foreign-function interface.
use vstd::prelude::*;
use crate::address::{ip_text, push_ip};
use crate::discovery::{DiscoveredService, QrCodeConnectionInfo};
use crate::messages::Message;
use crate::protocol::{
    handshake_check, profile_check, profiles_contain, CameraControl, Handshake, StreamConfigurationOutcome,
    StreamConfigurationResult, StreamProfile, VideoCapabilitiesUpdate, VideoCodec, capabilities_check,
    codec_id, PROTOCOL_VERSION,
};
use crate::text::{chars_of, decimal, owned, push_chars, push_decimal, push_str, string_from_chars, trim, trimmed};
use crate::transport::ConnectionState;

verus! {

broadcast use vstd::string::group_string_axioms;

/// Where the phone streams to, and whether streaming is on.
#[derive(Debug, Clone, PartialEq, Eq)]
pub struct CoreConfig {
    pub endpoint_host: String,
    pub endpoint_port: u16,
    pub streaming_enabled: bool,
}

impl Default for CoreConfig {
    /// The loopback address on port 7878, not streaming.
    fn default() -> (c: Self)
        ensures
            c.endpoint_host@ == "127.0.0.1"@,
            c.endpoint_port == 7878,
            !c.streaming_enabled,
    {
        CoreConfig { endpoint_host: owned("127.0.0.1"), endpoint_port: 7878, streaming_enabled: false }
    }
}

/// The text the FFI self-test returns.
pub fn ffi_test_message() -> (m: String)
    ensures
        m@ == "phonecam-mobile-core ffi ok"@,
{
    owned("phonecam-mobile-core ffi ok")
}

/// Sets the endpoint, unless `host` is blank, in which case nothing changes.
pub fn configure_endpoint(config: &mut CoreConfig, host: String, port: u16)
    ensures
        trim(host@).len() == 0 ==> *final(config) == *old(config),
        trim(host@).len() > 0 ==> *final(config) == (CoreConfig {
            endpoint_host: host,
            endpoint_port: port,
            streaming_enabled: old(config).streaming_enabled,
        }),
{
    let c = chars_of(host.as_str());
    let t = trimmed(c.as_slice());
    if t.len() == 0 {
        return;
    }
    config.endpoint_host = host;
    config.endpoint_port = port;
}

/// `host:port` of the endpoint.
pub open spec fn endpoint_text(config: CoreConfig) -> Seq<char> {
    config.endpoint_host@ + ":"@ + decimal(config.endpoint_port as nat)
}

/// The endpoint as `host:port`.
pub fn current_endpoint(config: &CoreConfig) -> (e: String)
    ensures
        e@ == endpoint_text(*config),
{
    let mut out: Vec<char> = Vec::new();
    push_str(&mut out, config.endpoint_host.as_str());
    push_str(&mut out, ":");
    push_decimal(&mut out, config.endpoint_port as u64);
    let e = string_from_chars(out.as_slice());
    assert(e@ =~= endpoint_text(*config));
    e
}

/// Turns streaming on or off.
pub fn set_streaming_enabled(config: &mut CoreConfig, enabled: bool)
    ensures
        final(config).streaming_enabled == enabled,
        final(config).endpoint_host == old(config).endpoint_host,
        final(config).endpoint_port == old(config).endpoint_port,
{
    config.streaming_enabled = enabled;
}

/// Whether streaming is on.
pub fn is_streaming_enabled(config: &CoreConfig) -> (b: bool)
    ensures
        b == config.streaming_enabled,
{
    config.streaming_enabled
}

/// The name the phone gives itself in its handshake.
pub open spec fn mobile_device_name() -> Seq<char> {
    "PhoneCam Mobile"@
}

/// The video settings the phone starts a session with.
#[derive(Debug, Clone, PartialEq, Eq)]
pub struct VideoConfig {
    pub active_profile: StreamProfile,
    pub supported_profiles: Vec<StreamProfile>,
}

impl VideoConfig {
    /// Whether the settings make a valid handshake: a valid profile list
    /// that holds the active profile.
    pub fn validate(&self) -> (ok: bool)
        ensures
            ok == handshake_check(PROTOCOL_VERSION, self.supported_profiles@, Some(self.active_profile)) is Ok,
    {
        let h = self.handshake();
        h.validate().is_ok()
    }

    /// The handshake the phone opens a session with.
    pub fn handshake(&self) -> (h: Handshake)
        ensures
            h.version == PROTOCOL_VERSION,
            h.device_name@ == mobile_device_name(),
            h.supported_profiles@ == self.supported_profiles@,
            h.active_profile == Some(self.active_profile),
    {
        let mut profiles: Vec<StreamProfile> = Vec::new();
        let mut i: usize = 0;
        while i < self.supported_profiles.len()
            invariant
                i <= self.supported_profiles@.len(),
                profiles@ == self.supported_profiles@.take(i as int),
            decreases self.supported_profiles@.len() - i,
        {
            profiles.push(self.supported_profiles[i]);
            assert(profiles@ =~= self.supported_profiles@.take(i + 1));
            i = i + 1;
        }
        assert(self.supported_profiles@.take(i as int) =~= self.supported_profiles@);
        Handshake {
            version: PROTOCOL_VERSION,
            device_name: owned("PhoneCam Mobile"),
            supported_profiles: profiles,
            active_profile: Some(self.active_profile),
        }
    }
}

/// The codec with the identifier `id`, if any.
pub open spec fn codec_of_id(id: u8) -> Option<VideoCodec> {
    if id == 0 {
        Some(VideoCodec::H264)
    } else if id == 1 {
        Some(VideoCodec::Hevc)
    } else {
        None
    }
}

/// The profile that FFI values name, when the codec is known and the
/// profile is one of the supported ones.
pub open spec fn ffi_profile(codec: u8, width: u16, height: u16, fps: u8) -> Option<StreamProfile> {
    match codec_of_id(codec) {
        Some(c) => {
            let p = StreamProfile { codec: c, width, height, fps };
            if profile_check(p) is Ok {
                Some(p)
            } else {
                None
            }
        },
        None => None,
    }
}

/// The profile that FFI values name, when the codec is known and the
/// profile is one of the supported ones.
pub fn profile_from_ffi(codec: u8, width: u16, height: u16, fps: u8) -> (p: Option<StreamProfile>)
    ensures
        p == ffi_profile(codec, width, height, fps),
{
    let c = match VideoCodec::try_from_id(codec) {
        Ok(c) => c,
        Err(_) => return None,
    };
    let profile = StreamProfile { codec: c, width, height, fps };
    match profile.validate() {
        Ok(()) => Some(profile),
        Err(_) => None,
    }
}

/// What is known of the last frame the phone sent.
#[derive(Debug, Clone, Copy, PartialEq, Eq, Structural)]
pub struct FrameMetadata {
    pub len: usize,
    pub pts: u64,
    pub codec: VideoCodec,
    pub width: u16,
    pub height: u16,
    pub is_keyframe: bool,
}

/// The phone's side of a live session: what it supports, what it streams,
/// the configuration request it is working on, what the desktop supports,
/// and the last frame sent.
#[derive(Debug)]
pub struct MobileSession {
    pub supported_profiles: Vec<StreamProfile>,
    pub active_profile: StreamProfile,
    pub pending_configuration: Option<(u32, StreamProfile)>,
    pub peer_profiles: Vec<StreamProfile>,
    pub last_frame: Option<FrameMetadata>,
}

impl MobileSession {
    /// A session that starts from the phone's settings, with the desktop's
    /// supported profiles, nothing pending and no frame sent.
    pub fn new(config: VideoConfig, peer_profiles: Vec<StreamProfile>) -> (s: Self)
        ensures
            s.supported_profiles@ == config.supported_profiles@,
            s.active_profile == config.active_profile,
            s.pending_configuration is None,
            s.peer_profiles@ == peer_profiles@,
            s.last_frame is None,
    {
        MobileSession {
            supported_profiles: config.supported_profiles,
            active_profile: config.active_profile,
            pending_configuration: None,
            peer_profiles,
            last_frame: None,
        }
    }

    /// Whether a frame with these values may be sent: a known codec, and
    /// the codec and size of the active profile. Gives its metadata.
    pub fn frame_to_send(&self, len: usize, pts: u64, codec: u8, width: u16, height: u16, is_keyframe: bool) -> (r:
        Option<FrameMetadata>)
        ensures
            match codec_of_id(codec) {
                Some(c) => if len > 0 && c == self.active_profile.codec && width == self.active_profile.width
                    && height == self.active_profile.height {
                    r == Some(FrameMetadata { len, pts, codec: c, width, height, is_keyframe })
                } else {
                    r is None
                },
                None => r is None,
            },
    {
        if len == 0 {
            return None;
        }
        let c = match VideoCodec::try_from_id(codec) {
            Ok(c) => c,
            Err(_) => return None,
        };
        if c != self.active_profile.codec || width != self.active_profile.width || height
            != self.active_profile.height {
            return None;
        }
        Some(FrameMetadata { len, pts, codec: c, width, height, is_keyframe })
    }

    /// Records the frame that was sent.
    pub fn frame_sent(&mut self, frame: FrameMetadata)
        ensures
            final(self).last_frame == Some(frame),
            final(self).active_profile == old(self).active_profile,
            final(self).pending_configuration == old(self).pending_configuration,
            final(self).supported_profiles@ == old(self).supported_profiles@,
    {
        self.last_frame = Some(frame);
    }

    /// Whether the desktop supports the profile that FFI values name.
    pub fn peer_supports_profile(&self, codec: u8, width: u16, height: u16, fps: u8) -> (b: bool)
        ensures
            b == (ffi_profile(codec, width, height, fps) matches Some(p) && self.peer_profiles@.contains(p)),
    {
        match profile_from_ffi(codec, width, height, fps) {
            Some(p) => profiles_contain(self.peer_profiles.as_slice(), p),
            None => false,
        }
    }

    /// Whether `profiles` may replace the supported profiles: a valid list
    /// that holds the active profile.
    pub fn capabilities_acceptable(&self, profiles: &Vec<StreamProfile>) -> (ok: bool)
        ensures
            ok == (capabilities_check(profiles@, self.active_profile) is Ok),
    {
        let update = VideoCapabilitiesUpdate { supported_profiles: copy_profiles(profiles) };
        update.validate(self.active_profile).is_ok()
    }

    /// Takes `profiles` as the supported profiles, once the update was sent.
    pub fn capabilities_sent(&mut self, profiles: Vec<StreamProfile>)
        ensures
            final(self).supported_profiles@ == profiles@,
            final(self).active_profile == old(self).active_profile,
            final(self).pending_configuration == old(self).pending_configuration,
    {
        self.supported_profiles = profiles;
    }
}

/// A copy of a profile list.
pub fn copy_profiles(p: &Vec<StreamProfile>) -> (q: Vec<StreamProfile>)
    ensures
        q@ == p@,
{
    let mut q: Vec<StreamProfile> = Vec::new();
    let mut i: usize = 0;
    while i < p.len()
        invariant
            i <= p@.len(),
            q@ == p@.take(i as int),
        decreases p@.len() - i,
    {
        q.push(p[i]);
        assert(q@ =~= p@.take(i + 1));
        i = i + 1;
    }
    assert(p@.take(i as int) =~= p@);
    q
}

/// Whether the connection counts as up: handshaking or streaming.
pub fn counts_as_connected(state: ConnectionState) -> (b: bool)
    ensures
        b == (state == ConnectionState::Handshaking || state == ConnectionState::Streaming),
{
    match state {
        ConnectionState::Handshaking => true,
        ConnectionState::Streaming => true,
        _ => false,
    }
}

/// What polling does with a message from the desktop.
#[derive(Debug, Clone, Copy, PartialEq, Eq, Structural)]
pub enum PollAction {
    /// Look at the next message.
    Continue,
    /// The desktop left: drop the session.
    DropSession,
    /// Hand this command to the phone.
    Emit(CameraControl),
}

impl MobileSession {
    /// Whether polling waits: a configuration request is still being worked on.
    pub fn poll_blocked(&self) -> (b: bool)
        ensures
            b == self.pending_configuration is Some,
    {
        self.pending_configuration.is_some()
    }

    /// What polling does with `message`: a camera command is handed on (a
    /// stream configuration only with a supported profile, and then it is
    /// pending), a disconnect drops the session, anything else is skipped.
    pub fn poll_message(&mut self, message: &Message) -> (a: PollAction)
        ensures
            match *message {
                Message::CameraControl(CameraControl::ConfigureStream { request_id, profile }) => if profile_check(
                    profile,
                ) is Ok {
                    a == PollAction::Emit(CameraControl::ConfigureStream { request_id, profile })
                        && final(self).pending_configuration == Some((request_id, profile))
                } else {
                    a == PollAction::Continue && final(self).pending_configuration == old(
                        self,
                    ).pending_configuration
                },
                Message::CameraControl(c) => a == PollAction::Emit(c) && final(self).pending_configuration == old(
                    self,
                ).pending_configuration,
                Message::Disconnect(_) => a == PollAction::DropSession && final(self).pending_configuration == old(
                    self,
                ).pending_configuration,
                _ => a == PollAction::Continue && final(self).pending_configuration == old(
                    self,
                ).pending_configuration,
            },
            final(self).active_profile == old(self).active_profile,
            final(self).supported_profiles@ == old(self).supported_profiles@,
            final(self).peer_profiles@ == old(self).peer_profiles@,
            final(self).last_frame == old(self).last_frame,
    {
        match message {
            Message::CameraControl(control) => {
                match control {
                    CameraControl::ConfigureStream { request_id, profile } => {
                        if profile.validate().is_err() {
                            return PollAction::Continue;
                        }
                        self.pending_configuration = Some((*request_id, *profile));
                        PollAction::Emit(*control)
                    },
                    _ => PollAction::Emit(*control),
                }
            },
            Message::Disconnect(_) => PollAction::DropSession,
            _ => PollAction::Continue,
        }
    }
}

/// The JSON name of a codec.
pub open spec fn codec_json(c: VideoCodec) -> Seq<char> {
    match c {
        VideoCodec::H264 => "\"h264\""@,
        VideoCodec::Hevc => "\"hevc\""@,
    }
}

/// A profile as a JSON object, keys in sorted order.
pub open spec fn profile_json(p: StreamProfile) -> Seq<char> {
    "{\"codec\":"@ + codec_json(p.codec) + ",\"fps\":"@ + decimal(p.fps as nat) + ",\"height\":"@ + decimal(
        p.height as nat,
    ) + ",\"width\":"@ + decimal(p.width as nat) + "}"@
}

/// A camera command as the JSON object handed to the phone's app, keys in
/// sorted order, with its `type`.
pub open spec fn control_json(c: CameraControl) -> Seq<char> {
    match c {
        CameraControl::SwitchCamera { front } => "{\"front\":"@ + (if front {
            "true"@
        } else {
            "false"@
        }) + ",\"type\":\"switch_camera\"}"@,
        CameraControl::RequestKeyframe => "{\"type\":\"request_keyframe\"}"@,
        CameraControl::ConfigureStream { request_id, profile } => "{\"profile\":"@ + profile_json(profile)
            + ",\"request_id\":"@ + decimal(request_id as nat) + ",\"type\":\"configure_stream\"}"@,
    }
}

fn push_profile_json(out: &mut Vec<char>, p: StreamProfile)
    ensures
        final(out)@ == old(out)@ + profile_json(p),
{
    push_str(out, "{\"codec\":");
    match p.codec {
        VideoCodec::H264 => push_str(out, "\"h264\""),
        VideoCodec::Hevc => push_str(out, "\"hevc\""),
    }
    push_str(out, ",\"fps\":");
    push_decimal(out, p.fps as u64);
    push_str(out, ",\"height\":");
    push_decimal(out, p.height as u64);
    push_str(out, ",\"width\":");
    push_decimal(out, p.width as u64);
    push_str(out, "}");
    assert(final(out)@ =~= old(out)@ + profile_json(p));
}

/// A camera command as the JSON object handed to the phone's app.
pub fn control_command_json(control: &CameraControl) -> (json: String)
    ensures
        json@ == control_json(*control),
{
    let mut out: Vec<char> = Vec::new();
    match control {
        CameraControl::SwitchCamera { front } => {
            push_str(&mut out, "{\"front\":");
            if *front {
                push_str(&mut out, "true");
            } else {
                push_str(&mut out, "false");
            }
            push_str(&mut out, ",\"type\":\"switch_camera\"}");
        },
        CameraControl::RequestKeyframe => push_str(&mut out, "{\"type\":\"request_keyframe\"}"),
        CameraControl::ConfigureStream { request_id, profile } => {
            push_str(&mut out, "{\"profile\":");
            push_profile_json(&mut out, *profile);
            push_str(&mut out, ",\"request_id\":");
            push_decimal(&mut out, *request_id as u64);
            push_str(&mut out, ",\"type\":\"configure_stream\"}");
        },
    }
    let json = string_from_chars(out.as_slice());
    assert(json@ =~= control_json(*control));
    json
}

/// The outcome that a report's result code names, with the applied profile
/// for code 0.
pub open spec fn outcome_of_code(result_code: u8, applied: StreamProfile) -> Option<StreamConfigurationOutcome> {
    if result_code == 0 {
        Some(StreamConfigurationOutcome::Applied(applied))
    } else if result_code == 1 {
        Some(StreamConfigurationOutcome::UnsupportedProfile)
    } else if result_code == 2 {
        Some(StreamConfigurationOutcome::CaptureConfigurationFailed)
    } else if result_code == 3 {
        Some(StreamConfigurationOutcome::EncoderInitializationFailed)
    } else {
        None
    }
}

/// What a report of the phone's configuration outcome sends: refused when it
/// answers a request other than the pending one (request 0 answers none),
/// when an applied profile is unknown or not supported by both sides, or when
/// the result code is unknown. Gives the result to send and the profile now
/// applied.
pub open spec fn report_plan(
    s_pending: Option<(u32, StreamProfile)>,
    supported: Seq<StreamProfile>,
    peer: Seq<StreamProfile>,
    request_id: u32,
    result_code: u8,
    codec: u8,
    width: u16,
    height: u16,
    fps: u8,
) -> Option<(StreamConfigurationResult, Option<StreamProfile>)> {
    if request_id != 0 && !(s_pending matches Some((id, _)) && id == request_id) {
        None
    } else if result_code == 0 {
        match ffi_profile(codec, width, height, fps) {
            Some(p) => if supported.contains(p) && peer.contains(p) {
                Some(
                    (
                        StreamConfigurationResult { request_id, result: StreamConfigurationOutcome::Applied(p) },
                        Some(p),
                    ),
                )
            } else {
                None
            },
            None => None,
        }
    } else {
        match outcome_of_code(result_code, StreamProfile { codec: VideoCodec::H264, width, height, fps }) {
            Some(o) => Some((StreamConfigurationResult { request_id, result: o }, None)),
            None => None,
        }
    }
}

impl MobileSession {
    /// What reporting the phone's configuration outcome sends, if it may.
    pub fn configuration_report(
        &self,
        request_id: u32,
        result_code: u8,
        codec: u8,
        width: u16,
        height: u16,
        fps: u8,
    ) -> (r: Option<(StreamConfigurationResult, Option<StreamProfile>)>)
        ensures
            r == report_plan(
                self.pending_configuration,
                self.supported_profiles@,
                self.peer_profiles@,
                request_id,
                result_code,
                codec,
                width,
                height,
                fps,
            ),
    {
        if request_id != 0 {
            match self.pending_configuration {
                Some((id, _)) => {
                    if id != request_id {
                        return None;
                    }
                },
                None => return None,
            }
        }
        if result_code == 0 {
            let p = match profile_from_ffi(codec, width, height, fps) {
                Some(p) => p,
                None => return None,
            };
            if !profiles_contain(self.supported_profiles.as_slice(), p) || !profiles_contain(
                self.peer_profiles.as_slice(),
                p,
            ) {
                return None;
            }
            return Some(
                (StreamConfigurationResult { request_id, result: StreamConfigurationOutcome::Applied(p) }, Some(p)),
            );
        }
        let outcome = if result_code == 1 {
            StreamConfigurationOutcome::UnsupportedProfile
        } else if result_code == 2 {
            StreamConfigurationOutcome::CaptureConfigurationFailed
        } else if result_code == 3 {
            StreamConfigurationOutcome::EncoderInitializationFailed
        } else {
            return None;
        };
        Some((StreamConfigurationResult { request_id, result: outcome }, None))
    }

    /// Commits a report once it was sent: an applied profile becomes active,
    /// and the request it answers is no longer pending.
    pub fn configuration_reported(&mut self, request_id: u32, applied: Option<StreamProfile>)
        ensures
            final(self).active_profile == match applied {
                Some(p) => p,
                None => old(self).active_profile,
            },
            final(self).pending_configuration == if request_id != 0 {
                None
            } else {
                old(self).pending_configuration
            },
            final(self).supported_profiles@ == old(self).supported_profiles@,
            final(self).peer_profiles@ == old(self).peer_profiles@,
    {
        if let Some(p) = applied {
            self.active_profile = p;
        }
        if request_id != 0 {
            self.pending_configuration = None;
        }
    }
}

/// Law: a report that is sent and committed leaves an active profile that
/// both sides support, or the one that was active.
pub proof fn lemma_report_keeps_common_active_profile(
    pending: Option<(u32, StreamProfile)>,
    supported: Seq<StreamProfile>,
    peer: Seq<StreamProfile>,
    active: StreamProfile,
    request_id: u32,
    result_code: u8,
    codec: u8,
    width: u16,
    height: u16,
    fps: u8,
)
    requires
        report_plan(pending, supported, peer, request_id, result_code, codec, width, height, fps) is Some,
    ensures
        ({
            let (result, applied) = report_plan(pending, supported, peer, request_id, result_code, codec, width, height, fps)->Some_0;
            &&& result.request_id == request_id
            &&& match applied {
                Some(p) => supported.contains(p) && peer.contains(p) && result.result == StreamConfigurationOutcome::Applied(p),
                None => !(result.result is Applied),
            }
        }),
{
}

/// The record a parsed QR code gives the phone's app: `ip|port|name`.
pub open spec fn qr_record(info: QrCodeConnectionInfo) -> Seq<char> {
    ip_text(info.ip) + "|"@ + decimal(info.port as nat) + "|"@ + info.name@
}

/// The record a parsed QR code gives the phone's app: `ip|port|name`.
pub fn format_qr_record(info: &QrCodeConnectionInfo) -> (r: String)
    ensures
        r@ == qr_record(*info),
{
    let mut out: Vec<char> = Vec::new();
    push_ip(&mut out, info.ip);
    push_str(&mut out, "|");
    push_decimal(&mut out, info.port as u64);
    push_str(&mut out, "|");
    push_str(&mut out, info.name.as_str());
    let r = string_from_chars(out.as_slice());
    assert(r@ =~= qr_record(*info));
    r
}

/// `t` with each `|`, line feed and carriage return made a space.
pub open spec fn field_text(t: Seq<char>) -> Seq<char> {
    t.map_values(|c: char| if c == '|' || c == '\n' || c == '\r' { ' ' } else { c })
}

/// The record of one service: `name|ip|port|version`.
pub open spec fn service_record(s: DiscoveredService) -> Seq<char> {
    field_text(s.name@) + "|"@ + ip_text(s.ip) + "|"@ + decimal(s.port as nat) + "|"@ + field_text(s.version@)
}

/// The records of services, one per line.
pub open spec fn service_records(s: Seq<DiscoveredService>) -> Seq<char>
    decreases s.len(),
{
    if s.len() == 0 {
        seq![]
    } else if s.len() == 1 {
        service_record(s[0])
    } else {
        service_records(s.drop_last()) + "\n"@ + service_record(s.last())
    }
}

fn push_field(out: &mut Vec<char>, t: &String)
    ensures
        final(out)@ == old(out)@ + field_text(t@),
{
    let c = chars_of(t.as_str());
    let mut i: usize = 0;
    while i < c.len()
        invariant
            i <= c@.len(),
            c@ == t@,
            out@ == old(out)@ + field_text(c@.take(i as int)),
        decreases c@.len() - i,
    {
        let ch = c[i];
        if ch == '|' || ch == '\n' || ch == '\r' {
            out.push(' ');
        } else {
            out.push(ch);
        }
        assert(field_text(c@.take(i + 1)) =~= field_text(c@.take(i as int)).push(
            if ch == '|' || ch == '\n' || ch == '\r' { ' ' } else { ch },
        ));
        i = i + 1;
    }
    assert(c@.take(c@.len() as int) =~= c@);
}

/// The services as the phone's app reads them: one `name|ip|port|version`
/// record per line, with separators in names and versions made spaces.
pub fn format_discovered_services(services: &[DiscoveredService]) -> (text: String)
    ensures
        text@ == service_records(services@),
{
    let mut out: Vec<char> = Vec::new();
    let mut i: usize = 0;
    while i < services.len()
        invariant
            i <= services@.len(),
            out@ == service_records(services@.take(i as int)),
        decreases services@.len() - i,
    {
        let ghost before = out@;
        if i > 0 {
            push_str(&mut out, "\n");
        }
        let s = &services[i];
        push_field(&mut out, &s.name);
        push_str(&mut out, "|");
        push_ip(&mut out, s.ip);
        push_str(&mut out, "|");
        push_decimal(&mut out, s.port as u64);
        push_str(&mut out, "|");
        push_field(&mut out, &s.version);
        proof {
            let t = services@.take(i + 1);
            assert(t.drop_last() =~= services@.take(i as int));
            assert(t.last() == *s);
            if i == 0 {
                assert(t.len() == 1);
                assert(out@ =~= service_record(*s));
            } else {
                assert(out@ =~= before + "\n"@ + service_record(*s));
            }
        }
        i = i + 1;
    }
    assert(services@.take(services@.len() as int) =~= services@);
    string_from_chars(out.as_slice())
}

/// The host a transport start uses: the given one, trimmed, when the port
/// is not 0 and the host is not blank.
pub fn transport_init_host(host: &str, port: u16) -> (h: Option<String>)
    ensures
        match h {
            Some(t) => port != 0 && trim(host@).len() > 0 && t@ == trim(host@),
            None => port == 0 || trim(host@).len() == 0,
        },
{
    if port == 0 {
        return None;
    }
    let c = chars_of(host);
    let t = trimmed(c.as_slice());
    if t.len() == 0 {
        return None;
    }
    Some(string_from_chars(t.as_slice()))
}

} // verus!
