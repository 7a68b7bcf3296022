use phonecam::decode::{
    copy_plane_rows, measure_decode_times, normalize_h264_annex_b, planar_to_nv12, profile_meets_timing,
    validate_h264_annex_b, DecodeError,
};
use phonecam::decode_state::{hevc_frame_kinds, hevc_frame_to_nv12, DecoderGate, FrameAdmission, HevcParameterSets, NalKind};
use phonecam::protocol::{StreamProfile, VideoCodec};

#[test]
fn decoder_calibration_filters_p95_at_eighty_percent_of_frame_period() {
    let profile = StreamProfile { codec: VideoCodec::Hevc, width: 3840, height: 2160, fps: 60 };
    assert!(profile_meets_timing(profile, &vec![10_000_000u64; 55]));
    let mut slow = vec![10_000_000u64; 55];
    slow[52] = 14_000_000;
    slow[53] = 14_000_000;
    slow[54] = 14_000_000;
    assert!(!profile_meets_timing(profile, &slow));
}

#[test]
fn malformed_hevc_requires_parameter_sets_before_idr() {
    let mut sets = HevcParameterSets::new();
    let data = vec![0u8, 0, 0, 1, 0x26, 0x01, 0x80];
    let kinds = hevc_frame_kinds(&data).expect("one NAL unit");
    let mut outcome = Ok(());
    for kind in kinds {
        outcome = sets.accept_nal(kind);
        if outcome.is_err() {
            break;
        }
    }
    assert!(matches!(outcome, Err(DecodeError::DecodeFailed(message)) if message.contains("VPS/SPS/PPS")));
}

#[test]
fn hevc_idr_is_accepted_after_all_parameter_sets() {
    let mut sets = HevcParameterSets::new();
    assert!(sets.accept_nal(NalKind::Vps).is_ok());
    assert!(sets.accept_nal(NalKind::Sps).is_ok());
    assert!(sets.accept_nal(NalKind::Idr).is_err());
    assert!(sets.accept_nal(NalKind::Pps).is_ok());
    assert!(sets.accept_nal(NalKind::Idr).is_ok());
    assert!(matches!(hevc_frame_kinds(&[1, 2, 3]), Err(DecodeError::DecodeFailed(m)) if m == "malformed HEVC Annex-B data"));
}

#[test]
fn ten_bit_hevc_pictures_are_refused() {
    let plane = [0u8; 16];
    assert!(matches!(
        hevc_frame_to_nv12(10, 4, 4, 0, Some(&plane), Some(&plane), Some(&plane)),
        Err(DecodeError::Main10Unsupported)
    ));
    assert!(matches!(hevc_frame_to_nv12(8, 4, 4, 0, None, Some(&plane), Some(&plane)), Err(DecodeError::Main10Unsupported)));
    let frame = hevc_frame_to_nv12(8, 2, 2, 5, Some(&[1, 2, 3, 4]), Some(&[7]), Some(&[9])).unwrap();
    assert_eq!(frame.y_plane, vec![1, 2, 3, 4]);
    assert_eq!(frame.uv_plane, vec![7, 9]);
}

#[test]
fn gate_requires_a_key_frame_of_the_current_codec() {
    let mut gate = DecoderGate::new();
    assert_eq!(gate.admission(VideoCodec::H264, false), FrameAdmission::RecoveryRequired);
    assert_eq!(gate.admission(VideoCodec::H264, true), FrameAdmission::Decode);
    gate.decoded(true);
    assert_eq!(gate.admission(VideoCodec::H264, false), FrameAdmission::Decode);
    assert_eq!(gate.admission(VideoCodec::Hevc, true), FrameAdmission::RecoveryRequired);
    gate.reset(VideoCodec::Hevc, true);
    assert_eq!(gate.admission(VideoCodec::Hevc, false), FrameAdmission::RecoveryRequired);
    assert_eq!(gate.admission(VideoCodec::Hevc, true), FrameAdmission::Decode);
    gate.decoded(true);
    gate.failed();
    assert_eq!(gate.admission(VideoCodec::Hevc, false), FrameAdmission::RecoveryRequired);
    let before = gate;
    gate.reset(VideoCodec::H264, false);
    assert_eq!(gate, before);
}

#[test]
fn annex_b_checks_and_normalization() {
    assert!(validate_h264_annex_b(&[0, 0, 0, 1, 0x65, 1, 2]));
    assert!(!validate_h264_annex_b(&[0, 0, 1, 0x80]));
    assert!(!validate_h264_annex_b(&[1, 2, 3]));
    assert_eq!(normalize_h264_annex_b(&[0x65, 1]), Some(vec![0, 0, 0, 1, 0x65, 1]));
    assert_eq!(normalize_h264_annex_b(&[0, 0, 1, 0x41]), Some(vec![0, 0, 1, 0x41]));
    assert_eq!(normalize_h264_annex_b(&[]), None);
    assert_eq!(normalize_h264_annex_b(&[0x80]), None);
}

#[test]
fn planes_are_copied_tight_and_interleaved() {
    assert_eq!(copy_plane_rows(&[1, 2, 9, 3, 4, 9], 3, 2, 2).unwrap(), vec![1, 2, 3, 4]);
    assert!(copy_plane_rows(&[1, 2], 1, 2, 1).is_err());
    assert!(copy_plane_rows(&[1, 2, 3], 2, 2, 2).is_err());
    let frame = planar_to_nv12(2, 2, 7, &[1, 2, 3, 4], 2, &[5], 1, &[6], 1).unwrap();
    assert_eq!(frame.uv_plane, vec![5, 6]);
    assert_eq!(frame.pts_us, 7);
    assert!(matches!(
        planar_to_nv12(3, 2, 0, &[0; 6], 3, &[0; 1], 1, &[0; 1], 1),
        Err(DecodeError::DecodeFailed(m)) if m == "decoder produced invalid dimensions 3x2"
    ));
}

#[test]
fn calibration_runs_sixty_decodes_and_keeps_fifty_five() {
    let timings = measure_decode_times(|_| Ok(())).unwrap();
    assert_eq!(timings.len(), 55);
    let failed = measure_decode_times(|i| if i == 7 { Err(DecodeError::WorkerStopped) } else { Ok(()) });
    assert!(matches!(failed, Err(DecodeError::WorkerStopped)));
}
