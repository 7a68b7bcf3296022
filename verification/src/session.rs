//! The desktop side of a streaming connection: which profile is active, which
//! configuration request is outstanding, and what to do on each event. The
//! caller performs the I/O each step asks for and reports back.
use vstd::prelude::*;
use crate::pipeline::{
    accepts_applied, accepts_applied_profile, common_of, common_profiles, next_id,
    next_request_id, resolve_profile, resolved_profile, unsupported_request_message, CodecPreference,
};
use crate::protocol::{
    capabilities_check, codec_id, frame_matches, profiles_contain, Handshake, StreamConfigurationOutcome,
    StreamConfigurationResult, StreamProfile, VideoCapabilitiesUpdate, VideoCodec,
};
use crate::text::{decimal, push_chars, push_decimal, push_str, string_from_chars};

verus! {

broadcast use vstd::string::group_string_axioms;

/// How long the phone has to answer a configuration request, in milliseconds.
pub const CONFIGURATION_TIMEOUT_MS: u64 = 5000;

/// Why a configuration request is outstanding.
#[derive(Debug, Clone)]
pub enum PendingKind {
    /// The user asked for a new profile; `prior` is restored if it cannot be committed.
    Configure { prior: StreamProfile, has_reply: bool },
    /// Committing a new profile failed; the phone is asked to return to `prior`.
    Compensation { prior: StreamProfile, error: String, has_reply: bool },
}

/// The configuration request the phone has not answered yet.
#[derive(Debug, Clone)]
pub struct PendingConfiguration {
    pub request_id: u32,
    pub requested: StreamProfile,
    pub deadline_ms: u64,
    pub kind: PendingKind,
}

/// Where a commit the caller is performing came from.
#[derive(Debug, Clone)]
pub enum CommitOrigin {
    /// The phone changed profile on its own.
    Unsolicited,
    /// The phone applied a profile the user asked for.
    Requested { has_reply: bool },
    /// The phone returned to the prior profile after a failed commit.
    Restore { error: String, has_reply: bool },
}

/// A profile the caller must commit to the output and the decoder before
/// the session decides what follows.
#[derive(Debug, Clone)]
pub struct PendingCommit {
    pub profile: StreamProfile,
    pub prior: StreamProfile,
    pub origin: CommitOrigin,
}

/// How committing a profile to the output and the decoder went.
#[derive(Debug, Clone, PartialEq, Eq)]
pub enum CommitOutcome {
    Committed,
    OutputFailed(String),
    DecoderFailed(String),
}

/// What the caller must do after an event, in this order: answer the
/// waiting requester, publish the connected status, send a configuration
/// request, commit a profile, or end the stream with an error.
#[derive(Debug, Clone)]
pub struct SessionEffects {
    pub reply: Option<Result<StreamProfile, String>>,
    pub hold_reply: bool,
    pub send_configuration: Option<(u32, StreamProfile)>,
    pub commit: Option<StreamProfile>,
    pub publish_status: bool,
    pub fail: Option<String>,
}

/// No effect at all.
pub open spec fn no_effects(e: SessionEffects) -> bool {
    e.reply is None && !e.hold_reply && e.send_configuration is None && e.commit is None
        && !e.publish_status && e.fail is None
}

fn effects() -> (e: SessionEffects)
    ensures
        no_effects(e),
{
    SessionEffects {
        reply: None,
        hold_reply: false,
        send_configuration: None,
        commit: None,
        publish_status: false,
        fail: None,
    }
}

/// The negotiation state of one streaming connection.
pub struct StreamSession {
    local_profiles: Vec<StreamProfile>,
    peer_profiles: Vec<StreamProfile>,
    common: Vec<StreamProfile>,
    active: StreamProfile,
    request_counter: u32,
    pending: Option<PendingConfiguration>,
    committing: Option<PendingCommit>,
    keyframe_request_in_flight: bool,
}

/// The `Debug` text of a codec.
pub open spec fn codec_text(c: VideoCodec) -> Seq<char> {
    match c {
        VideoCodec::H264 => "H264"@,
        VideoCodec::Hevc => "Hevc"@,
    }
}

/// The `Debug` text of a profile.
pub open spec fn profile_text(p: StreamProfile) -> Seq<char> {
    "StreamProfile { codec: "@ + codec_text(p.codec) + ", width: "@ + decimal(p.width as nat)
        + ", height: "@ + decimal(p.height as nat) + ", fps: "@ + decimal(p.fps as nat) + " }"@
}

/// The `Debug` text of a configuration outcome.
pub open spec fn outcome_text(o: StreamConfigurationOutcome) -> Seq<char> {
    match o {
        StreamConfigurationOutcome::Applied(p) => "Applied("@ + profile_text(p) + ")"@,
        StreamConfigurationOutcome::UnsupportedProfile => "UnsupportedProfile"@,
        StreamConfigurationOutcome::CaptureConfigurationFailed => "CaptureConfigurationFailed"@,
        StreamConfigurationOutcome::EncoderInitializationFailed => "EncoderInitializationFailed"@,
    }
}

pub fn push_profile_text(out: &mut Vec<char>, p: StreamProfile)
    ensures
        final(out)@ == old(out)@ + profile_text(p),
{
    push_str(out, "StreamProfile { codec: ");
    match p.codec {
        VideoCodec::H264 => push_str(out, "H264"),
        VideoCodec::Hevc => push_str(out, "Hevc"),
    }
    push_str(out, ", width: ");
    push_decimal(out, p.width as u64);
    push_str(out, ", height: ");
    push_decimal(out, p.height as u64);
    push_str(out, ", fps: ");
    push_decimal(out, p.fps as u64);
    push_str(out, " }");
    assert(final(out)@ =~= old(out)@ + profile_text(p));
}

fn push_outcome_text(out: &mut Vec<char>, o: StreamConfigurationOutcome)
    ensures
        final(out)@ == old(out)@ + outcome_text(o),
{
    match o {
        StreamConfigurationOutcome::Applied(p) => {
            push_str(out, "Applied(");
            push_profile_text(out, p);
            push_str(out, ")");
            assert(final(out)@ =~= old(out)@ + outcome_text(o));
        },
        StreamConfigurationOutcome::UnsupportedProfile => push_str(out, "UnsupportedProfile"),
        StreamConfigurationOutcome::CaptureConfigurationFailed => push_str(
            out,
            "CaptureConfigurationFailed",
        ),
        StreamConfigurationOutcome::EncoderInitializationFailed => push_str(
            out,
            "EncoderInitializationFailed",
        ),
    }
}

fn concat_text(a: &str, b: &[char]) -> (s: String)
    ensures
        s@ == a@ + b@,
{
    let mut m: Vec<char> = Vec::new();
    push_str(&mut m, a);
    push_chars(&mut m, b);
    string_from_chars(m.as_slice())
}

fn chars(s: &String) -> (c: Vec<char>)
    ensures
        c@ == s@,
{
    crate::text::chars_of(s.as_str())
}

/// The deadline `CONFIGURATION_TIMEOUT_MS` after `now_ms`, saturating.
pub open spec fn deadline_after(now_ms: u64) -> u64 {
    if now_ms + CONFIGURATION_TIMEOUT_MS > u64::MAX {
        u64::MAX
    } else {
        (now_ms + CONFIGURATION_TIMEOUT_MS) as u64
    }
}

impl StreamSession {
    /// The profiles this desktop qualified.
    pub closed spec fn local(&self) -> Seq<StreamProfile> {
        self.local_profiles@
    }

    /// The profiles the phone currently supports.
    pub closed spec fn peer(&self) -> Seq<StreamProfile> {
        self.peer_profiles@
    }

    /// The profiles both sides support, in local order.
    pub closed spec fn common_view(&self) -> Seq<StreamProfile> {
        self.common@
    }

    /// The profile frames must currently carry.
    pub closed spec fn active_view(&self) -> StreamProfile {
        self.active
    }

    /// The last configuration request id handed out.
    pub closed spec fn counter(&self) -> u32 {
        self.request_counter
    }

    /// The outstanding configuration request, if any.
    pub closed spec fn pending_view(&self) -> Option<PendingConfiguration> {
        self.pending
    }

    /// The commit the caller is performing, if any.
    pub closed spec fn committing_view(&self) -> Option<PendingCommit> {
        self.committing
    }

    /// Whether a keyframe has been requested and not yet received.
    pub closed spec fn keyframe_requested(&self) -> bool {
        self.keyframe_request_in_flight
    }

    /// The session's invariant: the common list is the local profiles that
    /// the phone supports, the active profile is common, an outstanding
    /// request has a non-zero id and would restore the active profile, and a
    /// commit in progress is of a common profile with no request outstanding.
    pub closed spec fn wf(&self) -> bool {
        &&& self.common@ == common_of(self.local_profiles@, self.peer_profiles@)
        &&& self.common@.contains(self.active)
        &&& match self.pending {
            Some(p) => p.request_id != 0 && match p.kind {
                PendingKind::Configure { prior, .. } => prior == self.active,
                PendingKind::Compensation { prior, .. } => prior == self.active && p.requested == prior,
            },
            None => true,
        }
        &&& match self.committing {
            Some(c) => self.pending is None && c.prior == self.active && self.common@.contains(
                c.profile,
            ) && match c.origin {
                CommitOrigin::Restore { .. } => c.profile == c.prior,
                _ => true,
            },
            None => true,
        }
    }

    /// Whether the session can take events other than the end of a commit.
    pub open spec fn idle(&self) -> bool {
        self.committing_view() is None
    }

    /// Starts a session from the desktop's qualified profiles and the phone's
    /// handshake. The phone must name an active profile, and it must be common.
    pub fn start(local_profiles: Vec<StreamProfile>, peer: &Handshake) -> (res: Result<Self, String>)
        ensures
            match peer.active_profile {
                None => res matches Err(m) && m@ == "mobile handshake omitted its active stream profile"@,
                Some(a) => if common_of(local_profiles@, peer.supported_profiles@).contains(a) {
                    res matches Ok(s) && s.wf() && s.idle() && s.local() == local_profiles@ && s.peer()
                        == peer.supported_profiles@ && s.common_view() == common_of(
                        local_profiles@,
                        peer.supported_profiles@,
                    ) && s.active_view() == a && s.counter() == 0
                        && s.pending_view() is None && !s.keyframe_requested()
                } else {
                    res matches Err(m) && m@ == "mobile active profile is outside the common profile set"@
                },
            },
    {
        let peer_profiles = peer.supported_profiles.clone();
        assert(peer_profiles@ == peer.supported_profiles@);
        let common = common_profiles(local_profiles.as_slice(), peer_profiles.as_slice());
        let active = match peer.active_profile {
            Some(a) => a,
            None => return Err("mobile handshake omitted its active stream profile".to_owned()),
        };
        if !profiles_contain(common.as_slice(), active) {
            return Err("mobile active profile is outside the common profile set".to_owned());
        }
        Ok(
            StreamSession {
                local_profiles,
                peer_profiles,
                common,
                active,
                request_counter: 0,
                pending: None,
                committing: None,
                keyframe_request_in_flight: false,
            },
        )
    }

    /// The profile frames must currently carry.
    pub fn active(&self) -> (p: StreamProfile)
        ensures
            p == self.active_view(),
    {
        self.active
    }

    /// The profiles both sides support.
    pub fn common(&self) -> (c: &Vec<StreamProfile>)
        ensures
            c@ == self.common_view(),
    {
        &self.common
    }

    /// Whether no configuration request is outstanding, so that a new user
    /// command may be taken.
    pub fn accepts_commands(&self) -> (ok: bool)
        ensures
            ok == (self.pending_view() is None),
    {
        self.pending.is_none()
    }

    /// Expires an outstanding request whose deadline has passed: a user
    /// request is answered with a timeout; a timed-out compensation ends the stream.
    pub fn on_tick(&mut self, now_ms: u64) -> (e: SessionEffects)
        requires
            old(self).wf(),
            old(self).idle(),
        ensures
            session_step(*old(self), *final(self)),
            final(self).wf(),
            final(self).idle(),
            final(self).active_view() == old(self).active_view(),
            final(self).common_view() == old(self).common_view(),
            final(self).local() == old(self).local() && final(self).peer() == old(self).peer(),
            final(self).counter() == old(self).counter(),
            final(self).keyframe_requested() == old(self).keyframe_requested(),
            match old(self).pending_view() {
                Some(p) => if now_ms >= p.deadline_ms {
                    final(self).pending_view() is None && match p.kind {
                        PendingKind::Configure { has_reply, .. } => e.send_configuration is None
                            && e.commit is None && !e.publish_status && e.fail is None && !e.hold_reply
                            && (has_reply ==> (e.reply matches Some(Err(m)) && m@
                            == "stream configuration timed out"@)) && (!has_reply ==> e.reply is None),
                        PendingKind::Compensation { error, has_reply, .. } => e.send_configuration
                            is None && e.commit is None && !e.publish_status && !e.hold_reply && (e.fail matches Some(m)
                            && m@ == "stream compensation timed out after: "@ + error@) && (has_reply
                            ==> e.reply == Some(Err::<StreamProfile, String>(error))) && (!has_reply
                            ==> e.reply is None),
                    }
                } else {
                    final(self).pending_view() == old(self).pending_view() && no_effects(e)
                },
                None => final(self).pending_view() is None && no_effects(e),
            },
    {
        let mut e = effects();
        let expired = match &self.pending {
            Some(p) => now_ms >= p.deadline_ms,
            None => false,
        };
        if !expired {
            return e;
        }
        let pending = self.pending.take();
        match pending {
            Some(p) => match p.kind {
                PendingKind::Configure { has_reply, .. } => {
                    if has_reply {
                        e.reply = Some(Err("stream configuration timed out".to_owned()));
                    }
                },
                PendingKind::Compensation { error, has_reply, .. } => {
                    let error_chars = chars(&error);
                    e.fail = Some(
                        concat_text("stream compensation timed out after: ", error_chars.as_slice()),
                    );
                    if has_reply {
                        e.reply = Some(Err(error));
                    }
                },
            },
            None => {},
        }
        e
    }

    /// Resolves a user's request against the common profiles; the caller
    /// then checks the output can take the profile.
    pub fn resolve_command(&self, width: u16, height: u16, fps: u8, preference: CodecPreference) -> (res:
        Result<StreamProfile, String>)
        ensures
            match resolved_profile(self.common_view(), width, height, fps, preference) {
                Some(p) => res == Ok::<StreamProfile, String>(p),
                None => res matches Err(m) && m@ == unsupported_request_message(width, height, fps),
            },
    {
        resolve_profile(self.common.as_slice(), width, height, fps, preference)
    }

    /// Takes a resolved and output-checked request: the active profile is
    /// answered at once; any other profile is requested from the phone with
    /// a fresh id, and the requester waits for the phone's answer.
    pub fn on_command_ready(&mut self, requested: StreamProfile, now_ms: u64) -> (e: SessionEffects)
        requires
            old(self).wf(),
            old(self).idle(),
            old(self).pending_view() is None,
            old(self).common_view().contains(requested),
        ensures
            session_step(*old(self), *final(self)),
            final(self).wf(),
            final(self).idle(),
            final(self).active_view() == old(self).active_view(),
            final(self).common_view() == old(self).common_view(),
            final(self).local() == old(self).local() && final(self).peer() == old(self).peer(),
            final(self).keyframe_requested() == old(self).keyframe_requested(),
            requested == old(self).active_view() ==> (final(self).counter() == old(self).counter()
                && final(self).pending_view() is None && e.reply == Some(
                Ok::<StreamProfile, String>(requested),
            ) && !e.hold_reply && e.send_configuration is None && e.commit is None
                && !e.publish_status && e.fail is None),
            requested != old(self).active_view() ==> ({
                let id = next_id(old(self).counter());
                &&& final(self).counter() == id
                &&& e.reply is None && e.hold_reply && e.send_configuration == Some((id, requested))
                &&& e.commit is None && !e.publish_status && e.fail is None
                &&& (final(self).pending_view() matches Some(p) && p.request_id == id && p.requested
                    == requested && p.deadline_ms == deadline_after(now_ms) && (p.kind matches PendingKind::Configure { prior, has_reply }
                    && prior == old(self).active_view() && has_reply))
            }),
    {
        let mut e = effects();
        if requested == self.active {
            e.reply = Some(Ok(self.active));
            return e;
        }
        let request_id = next_request_id(&mut self.request_counter);
        let deadline_ms = now_ms.saturating_add(CONFIGURATION_TIMEOUT_MS);
        self.pending = Some(
            PendingConfiguration {
                request_id,
                requested,
                deadline_ms,
                kind: PendingKind::Configure { prior: self.active, has_reply: true },
            },
        );
        e.hold_reply = true;
        e.send_configuration = Some((request_id, requested));
        e
    }

    /// A video frame arrived: frames that do not carry the active codec and
    /// resolution are dropped; a keyframe clears the outstanding keyframe
    /// request. Returns whether to hand the frame to the decoder.
    pub fn on_video_frame(&mut self, codec: VideoCodec, width: u16, height: u16, is_keyframe: bool) -> (decode:
        bool)
        requires
            old(self).wf(),
        ensures
            session_step(*old(self), *final(self)),
            final(self).wf(),
            final(self).idle() == old(self).idle(),
            final(self).active_view() == old(self).active_view(),
            final(self).common_view() == old(self).common_view(),
            final(self).local() == old(self).local() && final(self).peer() == old(self).peer(),
            final(self).counter() == old(self).counter(),
            final(self).pending_view() == old(self).pending_view(),
            decode == frame_matches(codec, width, height, old(self).active_view()),
            final(self).keyframe_requested() == (if decode && is_keyframe {
                false
            } else {
                old(self).keyframe_requested()
            }),
    {
        if codec != self.active.codec || width != self.active.width || height != self.active.height {
            return false;
        }
        if is_keyframe {
            self.keyframe_request_in_flight = false;
        }
        true
    }

    /// The decoder could not take a frame. A keyframe lost this way calls for
    /// a new keyframe unless one is already requested. Returns whether to
    /// request one.
    pub fn on_decoder_backlog(&mut self, is_keyframe: bool) -> (request: bool)
        requires
            old(self).wf(),
        ensures
            session_step(*old(self), *final(self)),
            final(self).wf(),
            final(self).idle() == old(self).idle(),
            final(self).active_view() == old(self).active_view(),
            final(self).common_view() == old(self).common_view(),
            final(self).local() == old(self).local() && final(self).peer() == old(self).peer(),
            final(self).counter() == old(self).counter(),
            final(self).pending_view() == old(self).pending_view(),
            request == (is_keyframe && !old(self).keyframe_requested()),
            final(self).keyframe_requested() == (old(self).keyframe_requested() || request),
    {
        if is_keyframe && !self.keyframe_request_in_flight {
            self.keyframe_request_in_flight = true;
            return true;
        }
        false
    }

    /// The decoder needs a keyframe to recover. Returns whether to request
    /// one; at most one request is outstanding at a time.
    pub fn on_recovery_required(&mut self) -> (request: bool)
        requires
            old(self).wf(),
        ensures
            session_step(*old(self), *final(self)),
            final(self).wf(),
            final(self).idle() == old(self).idle(),
            final(self).active_view() == old(self).active_view(),
            final(self).common_view() == old(self).common_view(),
            final(self).local() == old(self).local() && final(self).peer() == old(self).peer(),
            final(self).counter() == old(self).counter(),
            final(self).pending_view() == old(self).pending_view(),
            request == !old(self).keyframe_requested(),
            final(self).keyframe_requested(),
    {
        if !self.keyframe_request_in_flight {
            self.keyframe_request_in_flight = true;
            return true;
        }
        false
    }

    /// The phone sent a new capability list: it is taken only when it is
    /// valid and still holds the active profile, and then the common list is
    /// recomputed. Returns whether the status changed.
    pub fn on_capabilities(&mut self, update: VideoCapabilitiesUpdate) -> (changed: bool)
        requires
            old(self).wf(),
            old(self).idle(),
        ensures
            session_step(*old(self), *final(self)),
            final(self).wf(),
            final(self).idle(),
            final(self).active_view() == old(self).active_view(),
            final(self).local() == old(self).local(),
            final(self).counter() == old(self).counter(),
            final(self).pending_view() == old(self).pending_view(),
            final(self).keyframe_requested() == old(self).keyframe_requested(),
            changed == (capabilities_check(update.supported_profiles@, old(self).active_view()) is Ok),
            changed ==> final(self).peer() == update.supported_profiles@ && final(self).common_view()
                == common_of(old(self).local(), update.supported_profiles@),
            !changed ==> final(self).peer() == old(self).peer() && final(self).common_view() == old(
                self,
            ).common_view(),
    {
        if update.validate(self.active).is_err() {
            return false;
        }
        let common = common_profiles(self.local_profiles.as_slice(), update.supported_profiles.as_slice());
        proof {
            lemma_common_contains(self.local_profiles@, self.peer_profiles@, self.active);
            lemma_common_contains(self.local_profiles@, update.supported_profiles@, self.active);
        }
        self.peer_profiles = update.supported_profiles;
        self.common = common;
        true
    }

    /// The phone answered a configuration request, or changed its profile on
    /// its own (request id zero, nothing outstanding). Profiles that should
    /// become active are handed to the caller to commit; a rejected request
    /// leaves the active profile as it was; a failed compensation ends the stream.
    pub fn on_configuration_result(&mut self, result: StreamConfigurationResult) -> (e: SessionEffects)
        requires
            old(self).wf(),
            old(self).idle(),
        ensures
            session_step(*old(self), *final(self)),
            final(self).wf(),
            final(self).active_view() == old(self).active_view(),
            final(self).common_view() == old(self).common_view(),
            final(self).local() == old(self).local() && final(self).peer() == old(self).peer(),
            final(self).counter() == old(self).counter(),
            final(self).keyframe_requested() == old(self).keyframe_requested(),
            !e.hold_reply && e.send_configuration is None && !e.publish_status,
            result_effects(*old(self), *final(self), result, e),
    {
        let mut e = effects();
        if result.request_id == 0 && self.pending.is_none() {
            if let StreamConfigurationOutcome::Applied(applied) = result.result {
                if profiles_contain(self.common.as_slice(), applied) {
                    self.committing = Some(
                        PendingCommit {
                            profile: applied,
                            prior: self.active,
                            origin: CommitOrigin::Unsolicited,
                        },
                    );
                    e.commit = Some(applied);
                }
            }
            return e;
        }
        let current = match self.pending.take() {
            Some(p) => p,
            None => return e,
        };
        if result.request_id != current.request_id {
            self.pending = Some(current);
            return e;
        }
        match current.kind {
            PendingKind::Configure { prior, has_reply } => {
                let accepted = match result.result {
                    StreamConfigurationOutcome::Applied(applied) => accepts_applied_profile(
                        self.common.as_slice(),
                        current.requested,
                        applied,
                    ),
                    _ => false,
                };
                if accepted {
                    if let StreamConfigurationOutcome::Applied(applied) = result.result {
                        self.committing = Some(
                            PendingCommit {
                                profile: applied,
                                prior,
                                origin: CommitOrigin::Requested { has_reply },
                            },
                        );
                        e.commit = Some(applied);
                    }
                } else if has_reply {
                    let mut m: Vec<char> = Vec::new();
                    push_str(&mut m, "phone rejected stream configuration: ");
                    push_outcome_text(&mut m, result.result);
                    e.reply = Some(Err(string_from_chars(m.as_slice())));
                }
            },
            PendingKind::Compensation { prior, error, has_reply } => {
                let restored = match result.result {
                    StreamConfigurationOutcome::Applied(applied) => applied == prior,
                    _ => false,
                };
                if restored {
                    self.committing = Some(
                        PendingCommit {
                            profile: prior,
                            prior,
                            origin: CommitOrigin::Restore { error, has_reply },
                        },
                    );
                    e.commit = Some(prior);
                } else {
                    let mut m: Vec<char> = Vec::new();
                    push_str(&mut m, "stream compensation failed after ");
                    let error_chars = chars(&error);
                    push_chars(&mut m, error_chars.as_slice());
                    push_str(&mut m, ": ");
                    push_outcome_text(&mut m, result.result);
                    e.fail = Some(string_from_chars(m.as_slice()));
                    if has_reply {
                        e.reply = Some(Err(error));
                    }
                }
            },
        }
        e
    }

    /// The caller finished (or failed) the commit the session asked for. A
    /// committed profile becomes active. A failed commit of a new profile
    /// asks the phone to return to the prior one; a failed restore ends the stream.
    pub fn finish_commit(&mut self, outcome: CommitOutcome, now_ms: u64) -> (e: SessionEffects)
        requires
            old(self).wf(),
            old(self).committing_view() is Some,
        ensures
            session_step(*old(self), *final(self)),
            final(self).wf(),
            final(self).idle(),
            final(self).common_view() == old(self).common_view(),
            final(self).local() == old(self).local() && final(self).peer() == old(self).peer(),
            final(self).keyframe_requested() == old(self).keyframe_requested(),
            !e.hold_reply && e.commit is None,
            commit_effects(*old(self), *final(self), outcome, now_ms, e),
    {
        let mut e = effects();
        let commit = match self.committing.take() {
            Some(c) => c,
            None => return e,
        };
        match commit.origin {
            CommitOrigin::Unsolicited => match outcome {
                CommitOutcome::Committed => {
                    self.active = commit.profile;
                    e.publish_status = true;
                },
                CommitOutcome::OutputFailed(error) => {
                    self.start_compensation(commit.prior, error, false, now_ms, &mut e);
                },
                CommitOutcome::DecoderFailed(error) => {
                    let error_chars = chars(&error);
                    let error = concat_text("decoder reset failed: ", error_chars.as_slice());
                    self.start_compensation(commit.prior, error, false, now_ms, &mut e);
                },
            },
            CommitOrigin::Requested { has_reply } => match outcome {
                CommitOutcome::Committed => {
                    self.active = commit.profile;
                    e.publish_status = true;
                    if has_reply {
                        e.reply = Some(Ok(commit.profile));
                    }
                },
                CommitOutcome::OutputFailed(error) => {
                    let error_chars = chars(&error);
                    let error = concat_text(
                        "failed to commit applied output profile: ",
                        error_chars.as_slice(),
                    );
                    self.start_compensation(commit.prior, error, has_reply, now_ms, &mut e);
                },
                CommitOutcome::DecoderFailed(error) => {
                    let error_chars = chars(&error);
                    let mut m: Vec<char> = Vec::new();
                    push_str(&mut m, "failed to commit applied output profile: decoder reset failed: ");
                    push_chars(&mut m, error_chars.as_slice());
                    let error = string_from_chars(m.as_slice());
                    self.start_compensation(commit.prior, error, has_reply, now_ms, &mut e);
                },
            },
            CommitOrigin::Restore { error, has_reply } => match outcome {
                CommitOutcome::Committed => {
                    self.active = commit.prior;
                    e.publish_status = true;
                    if has_reply {
                        e.reply = Some(Err(error));
                    }
                },
                CommitOutcome::OutputFailed(restore) => {
                    let error_chars = chars(&error);
                    let restore_chars = chars(&restore);
                    let mut m: Vec<char> = Vec::new();
                    push_str(&mut m, "stream compensation output restore failed after ");
                    push_chars(&mut m, error_chars.as_slice());
                    push_str(&mut m, ": ");
                    push_chars(&mut m, restore_chars.as_slice());
                    e.fail = Some(string_from_chars(m.as_slice()));
                },
                CommitOutcome::DecoderFailed(restore) => {
                    let error_chars = chars(&error);
                    let restore_chars = chars(&restore);
                    let mut m: Vec<char> = Vec::new();
                    push_str(&mut m, "stream compensation decoder restore failed after ");
                    push_chars(&mut m, error_chars.as_slice());
                    push_str(&mut m, ": ");
                    push_chars(&mut m, restore_chars.as_slice());
                    e.fail = Some(string_from_chars(m.as_slice()));
                },
            },
        }
        e
    }

    fn start_compensation(
        &mut self,
        prior: StreamProfile,
        error: String,
        has_reply: bool,
        now_ms: u64,
        e: &mut SessionEffects,
    )
        requires
            old(self).committing is None,
            old(self).pending is None,
            prior == old(self).active,
            no_effects(*old(e)),
        ensures
            final(self).committing is None,
            final(self).active == old(self).active,
            final(self).common == old(self).common,
            final(self).local_profiles == old(self).local_profiles,
            final(self).peer_profiles == old(self).peer_profiles,
            final(self).keyframe_request_in_flight == old(self).keyframe_request_in_flight,
            final(self).request_counter == next_id(old(self).request_counter),
            final(self).pending == Some(
                PendingConfiguration {
                    request_id: next_id(old(self).request_counter),
                    requested: prior,
                    deadline_ms: deadline_after(now_ms),
                    kind: PendingKind::Compensation { prior, error, has_reply },
                },
            ),
            final(e).send_configuration == Some((next_id(old(self).request_counter), prior)),
            final(e).reply is None && !final(e).hold_reply && final(e).commit is None
                && !final(e).publish_status && final(e).fail is None,
    {
        let request_id = next_request_id(&mut self.request_counter);
        let deadline_ms = now_ms.saturating_add(CONFIGURATION_TIMEOUT_MS);
        self.pending = Some(
            PendingConfiguration {
                request_id,
                requested: prior,
                deadline_ms,
                kind: PendingKind::Compensation { prior, error, has_reply },
            },
        );
        e.send_configuration = Some((request_id, prior));
    }
}

/// What answering a configuration result does, case by case.
pub open spec fn result_effects(
    before: StreamSession,
    after: StreamSession,
    result: StreamConfigurationResult,
    e: SessionEffects,
) -> bool {
    if result.request_id == 0 && before.pending_view() is None {
        // The phone changed profile on its own: commit it when it is common.
        &&& after.pending_view() is None
        &&& e.reply is None && e.fail is None
        &&& match result.result {
            StreamConfigurationOutcome::Applied(a) if before.common_view().contains(a) => e.commit
                == Some(a) && (after.committing_view() matches Some(c) && c.profile == a && c.prior
                == before.active_view() && c.origin is Unsolicited),
            _ => e.commit is None && after.idle(),
        }
    } else {
        match before.pending_view() {
            None => after.pending_view() is None && no_effects(e) && after.idle(),
            Some(p) => if result.request_id != p.request_id {
                after.pending_view() == before.pending_view() && no_effects(e) && after.idle()
            } else {
                &&& after.pending_view() is None
                &&& match p.kind {
                    PendingKind::Configure { prior, has_reply } => match result.result {
                        StreamConfigurationOutcome::Applied(a) if accepts_applied(
                            before.common_view(),
                            p.requested,
                            a,
                        ) => e.commit == Some(a) && e.reply is None && e.fail is None
                            && (after.committing_view() matches Some(c) && c.profile == a && c.prior
                            == prior && (c.origin matches CommitOrigin::Requested { has_reply: h }
                            && h == has_reply)),
                        o => e.commit is None && e.fail is None && after.idle() && (has_reply
                            ==> (e.reply matches Some(Err(m)) && m@
                            == "phone rejected stream configuration: "@ + outcome_text(o))) && (
                        !has_reply ==> e.reply is None),
                    },
                    PendingKind::Compensation { prior, error, has_reply } => match result.result {
                        StreamConfigurationOutcome::Applied(a) if a == prior => e.commit == Some(prior)
                            && e.reply is None && e.fail is None && (after.committing_view() matches Some(c)
                            && c.profile == prior && c.prior == prior && (c.origin matches CommitOrigin::Restore {
                            error: err,
                            has_reply: h,
                        } && err == error && h == has_reply)),
                        o => e.commit is None && after.idle() && (e.fail matches Some(m) && m@
                            == "stream compensation failed after "@ + error@ + ": "@ + outcome_text(o))
                            && (has_reply ==> e.reply == Some(Err::<StreamProfile, String>(error)))
                            && (!has_reply ==> e.reply is None),
                    },
                }
            },
        }
    }
}

/// What finishing a commit does, case by case.
pub open spec fn commit_effects(
    before: StreamSession,
    after: StreamSession,
    outcome: CommitOutcome,
    now_ms: u64,
    e: SessionEffects,
) -> bool {
    let c = before.committing_view()->Some_0;
    let id = next_id(before.counter());
    let compensation = |error: Seq<char>, has_reply: bool|
        after.active_view() == before.active_view() && after.counter() == id && e.send_configuration
            == Some((id, c.prior)) && e.reply is None && !e.publish_status && e.fail is None
            && (after.pending_view() matches Some(p) && p.request_id == id && p.requested == c.prior
            && p.deadline_ms == deadline_after(now_ms) && (p.kind matches PendingKind::Compensation {
            prior,
            error: err,
            has_reply: h,
        } && prior == c.prior && err@ == error && h == has_reply));
    match c.origin {
        CommitOrigin::Unsolicited => match outcome {
            CommitOutcome::Committed => after.active_view() == c.profile && e.publish_status
                && e.reply is None && e.send_configuration is None && e.fail is None
                && after.pending_view() is None && after.counter() == before.counter(),
            CommitOutcome::OutputFailed(err) => compensation(err@, false),
            CommitOutcome::DecoderFailed(err) => compensation("decoder reset failed: "@ + err@, false),
        },
        CommitOrigin::Requested { has_reply } => match outcome {
            CommitOutcome::Committed => after.active_view() == c.profile && e.publish_status && (
            has_reply ==> e.reply == Some(Ok::<StreamProfile, String>(c.profile))) && (!has_reply
                ==> e.reply is None) && e.send_configuration is None && e.fail is None
                && after.pending_view() is None && after.counter() == before.counter(),
            CommitOutcome::OutputFailed(err) => compensation(
                "failed to commit applied output profile: "@ + err@,
                has_reply,
            ),
            CommitOutcome::DecoderFailed(err) => compensation(
                "failed to commit applied output profile: decoder reset failed: "@ + err@,
                has_reply,
            ),
        },
        CommitOrigin::Restore { error, has_reply } => match outcome {
            CommitOutcome::Committed => after.active_view() == c.prior && e.publish_status && (has_reply
                ==> e.reply == Some(Err::<StreamProfile, String>(error))) && (!has_reply
                ==> e.reply is None) && e.send_configuration is None && e.fail is None
                && after.pending_view() is None && after.counter() == before.counter(),
            CommitOutcome::OutputFailed(restore) => after.active_view() == before.active_view()
                && e.reply is None && !e.publish_status && e.send_configuration is None && (e.fail matches Some(m)
                && m@ == "stream compensation output restore failed after "@ + error@ + ": "@ + restore@)
                && after.pending_view() is None && after.counter() == before.counter(),
            CommitOutcome::DecoderFailed(restore) => after.active_view() == before.active_view()
                && e.reply is None && !e.publish_status && e.send_configuration is None && (e.fail matches Some(m)
                && m@ == "stream compensation decoder restore failed after "@ + error@ + ": "@ + restore@)
                && after.pending_view() is None && after.counter() == before.counter(),
        },
    }
}

/// A profile is common exactly when both sides list it.
pub proof fn lemma_common_contains(local: Seq<StreamProfile>, peer: Seq<StreamProfile>, p: StreamProfile)
    ensures
        common_of(local, peer).contains(p) <==> (local.contains(p) && peer.contains(p)),
{
    let pred = |q: StreamProfile| peer.contains(q);
    broadcast use vstd::seq_lib::group_filter_ensures;
    if local.contains(p) && peer.contains(p) {
        let i = choose|i: int| 0 <= i < local.len() && local[i] == p;
        local.lemma_filter_contains(pred, i);
    }
    if common_of(local, peer).contains(p) {
        local.lemma_filter_contains_rev(pred, p);
        let i = choose|i: int| 0 <= i < common_of(local, peer).len() && common_of(local, peer)[i] == p;
        local.lemma_filter_pred(pred, i);
    }
}

/// Law: in every well-formed session the active profile is one that both
/// the desktop and the phone support.
pub proof fn lemma_active_is_common(s: StreamSession)
    requires
        s.wf(),
    ensures
        s.local().contains(s.active_view()),
        s.peer().contains(s.active_view()),
{
    lemma_common_contains(s.local(), s.peer(), s.active_view());
}

/// The profile a commit in progress makes active when it succeeds: the
/// prior one for a restore, else the new one.
pub open spec fn commit_target(c: PendingCommit) -> StreamProfile {
    match c.origin {
        CommitOrigin::Restore { .. } => c.prior,
        _ => c.profile,
    }
}

/// What every event does to a session, whatever the event: the session
/// stays well-formed, the desktop's profiles stay, and the active profile
/// changes only when a commit in progress ends, to that commit's profile.
pub open spec fn session_step(before: StreamSession, after: StreamSession) -> bool {
    &&& after.wf()
    &&& after.local() == before.local()
    &&& (after.active_view() == before.active_view() || (before.committing_view() matches Some(c)
        && after.committing_view() is None && after.active_view() == commit_target(c)))
}

/// Law: the invariants of every well-formed session: the common profiles are
/// the desktop's profiles that the phone supports, in the desktop's order;
/// the active profile is one of them; an outstanding request has a non-zero
/// id and would restore the active profile; and a commit in progress is of a
/// common profile, with no request outstanding.
pub proof fn lemma_session_invariants(s: StreamSession)
    requires
        s.wf(),
    ensures
        s.common_view() == common_of(s.local(), s.peer()),
        s.common_view().contains(s.active_view()),
        s.local().contains(s.active_view()) && s.peer().contains(s.active_view()),
        s.pending_view() matches Some(p) ==> p.request_id != 0 && match p.kind {
            PendingKind::Configure { prior, .. } => prior == s.active_view(),
            PendingKind::Compensation { prior, .. } => prior == s.active_view() && p.requested == prior,
        },
        s.committing_view() matches Some(c) ==> s.pending_view() is None && c.prior == s.active_view()
            && s.common_view().contains(c.profile) && commit_target(c) == (match c.origin {
            CommitOrigin::Restore { .. } => s.active_view(),
            _ => c.profile,
        }),
{
    lemma_common_contains(s.local(), s.peer(), s.active_view());
}

/// Law: along any run of events from a well-formed session, every session
/// is well-formed, keeps the desktop's profiles, has as common profiles the
/// desktop's profiles that the phone then supports, and has a common active
/// profile.
pub proof fn lemma_run_invariants(run: Seq<StreamSession>)
    requires
        run.len() > 0,
        run[0].wf(),
        forall|i: int| 0 <= i < run.len() - 1 ==> session_step(#[trigger] run[i], run[i + 1]),
    ensures
        forall|i: int|
            0 <= i < run.len() ==> {
                &&& (#[trigger] run[i]).wf()
                &&& run[i].local() == run[0].local()
                &&& run[i].common_view() == common_of(run[0].local(), run[i].peer())
                &&& run[i].common_view().contains(run[i].active_view())
            },
    decreases run.len(),
{
    if run.len() > 1 {
        let shorter = run.drop_last();
        assert forall|i: int| 0 <= i < shorter.len() - 1 implies session_step(#[trigger] shorter[i], shorter[i + 1]) by {
            assert(shorter[i] == run[i] && shorter[i + 1] == run[i + 1]);
        }
        lemma_run_invariants(shorter);
        assert forall|i: int| 0 <= i < run.len() implies {
            &&& (#[trigger] run[i]).wf()
            &&& run[i].local() == run[0].local()
            &&& run[i].common_view() == common_of(run[0].local(), run[i].peer())
            &&& run[i].common_view().contains(run[i].active_view())
        } by {
            if i < shorter.len() {
                assert(shorter[i] == run[i]);
            } else {
                let k = run.len() - 2;
                assert(shorter[k] == run[k]);
                assert(session_step(run[k], run[k + 1]));
            }
            lemma_session_invariants(run[i]);
        }
    } else {
        lemma_session_invariants(run[0]);
    }
}

/// Whether the session is putting the previous stream back after a failed
/// change: a compensation request is outstanding, or its restore is being
/// committed.
pub open spec fn restoring(s: StreamSession) -> bool {
    ||| (s.pending_view() matches Some(p) && p.kind is Compensation)
    ||| (s.committing_view() matches Some(c) && c.origin is Restore)
}

/// Law: a rejected change keeps the previous stream. Along any run of events
/// during which the session is putting the previous stream back, the active
/// profile stays the one that was active at the start, whatever the events.
pub proof fn lemma_restoring_keeps_active(run: Seq<StreamSession>)
    requires
        run.len() > 0,
        run[0].wf(),
        forall|i: int| 0 <= i < run.len() - 1 ==> session_step(#[trigger] run[i], run[i + 1]),
        forall|i: int| 0 <= i < run.len() - 1 ==> restoring(#[trigger] run[i]),
    ensures
        forall|i: int| 0 <= i < run.len() ==> (#[trigger] run[i]).active_view() == run[0].active_view(),
    decreases run.len(),
{
    if run.len() > 1 {
        let shorter = run.drop_last();
        assert forall|i: int| 0 <= i < shorter.len() - 1 implies session_step(#[trigger] shorter[i], shorter[i + 1]) by {
            assert(shorter[i] == run[i] && shorter[i + 1] == run[i + 1]);
        }
        assert forall|i: int| 0 <= i < shorter.len() - 1 implies restoring(#[trigger] shorter[i]) by {
            assert(shorter[i] == run[i]);
        }
        lemma_restoring_keeps_active(shorter);
        lemma_run_invariants(run);
        let k = run.len() - 2;
        assert(shorter[k] == run[k]);
        assert(session_step(run[k], run[k + 1]));
        assert(restoring(run[k]));
        assert(run[k].wf());
        lemma_session_invariants(run[k]);
        assert forall|i: int| 0 <= i < run.len() implies (#[trigger] run[i]).active_view() == run[0].active_view() by {
            if i < shorter.len() {
                assert(shorter[i] == run[i]);
            }
        }
    }
}

/// Law: the answer to a user's request commits only a common profile with
/// the requested width, height and frame rate; an answer with another size
/// or rate is rejected (never reported as applied), commits nothing and
/// leaves the session idle with no request pending.
pub proof fn lemma_answer_commits_only_requested_size_and_rate(
    before: StreamSession,
    after: StreamSession,
    result: StreamConfigurationResult,
    e: SessionEffects,
)
    requires
        before.wf(),
        result_effects(before, after, result, e),
        before.pending_view() matches Some(p) && p.kind is Configure && result.request_id == p.request_id,
    ensures
        ({
            let q = before.pending_view()->Some_0.requested;
            &&& e.commit matches Some(a) ==> before.common_view().contains(a) && a.width == q.width && a.height
                == q.height && a.fps == q.fps
            &&& (result.result matches StreamConfigurationOutcome::Applied(a) && (a.width != q.width || a.height
                != q.height || a.fps != q.fps)) ==> e.commit is None && after.idle() && after.pending_view()
                is None && !(e.reply matches Some(Ok(_)))
        }),
{
}

} // verus!
