use phonecam::convert::{ConvertError, Nv12ToYuyvConverter};
use phonecam::decode::Nv12Frame;

#[test]
fn convert_nv12_to_yuyv_for_2x2_frame() {
    let mut converter = Nv12ToYuyvConverter::new(2, 2).expect("converter must initialize");

    let input = Nv12Frame {
        width: 2,
        height: 2,
        pts_us: 123,
        y_stride: 2,
        uv_stride: 2,
        y_plane: vec![10, 20, 30, 40],
        uv_plane: vec![128, 128],
    };

    let output = converter.convert(&input).expect("valid NV12 should convert to YUYV");

    assert_eq!(output.width, 2);
    assert_eq!(output.height, 2);
    assert_eq!(output.data.len(), 8);
    assert_eq!(output.data, vec![10, 128, 20, 128, 30, 128, 40, 128]);
}

#[test]
fn convert_rejects_invalid_nv12_plane_sizes() {
    let mut converter = Nv12ToYuyvConverter::new(4, 2).expect("converter must initialize");

    let invalid = Nv12Frame {
        width: 4,
        height: 2,
        pts_us: 0,
        y_stride: 4,
        uv_stride: 4,
        y_plane: vec![0; 3],
        uv_plane: vec![0; 4],
    };

    let err = converter.convert(&invalid).expect_err("invalid plane shape must fail conversion");

    assert!(format!("{err:?}").contains("InvalidPlaneLayout"), "conversion should report invalid layout");
}

#[test]
fn convert_respects_source_plane_strides() {
    let mut converter = Nv12ToYuyvConverter::new(2, 2).expect("converter must initialize");
    let input = Nv12Frame {
        width: 2,
        height: 2,
        pts_us: 0,
        y_stride: 4,
        uv_stride: 4,
        y_plane: vec![10, 20, 0, 0, 30, 40, 0, 0],
        uv_plane: vec![100, 150, 0, 0],
    };

    let output = converter.convert(&input).expect("padded NV12 must convert");
    assert_eq!(output.data, vec![10, 100, 20, 150, 30, 100, 40, 150]);
}

#[test]
fn converter_rejects_odd_dimensions() {
    assert!(matches!(Nv12ToYuyvConverter::new(3, 2), Err(ConvertError::InvalidDimensions)));
}

#[test]
fn converter_rejects_frames_of_another_size() {
    let mut converter = Nv12ToYuyvConverter::new(2, 2).unwrap();
    let other = Nv12Frame {
        width: 4,
        height: 2,
        pts_us: 0,
        y_stride: 4,
        uv_stride: 4,
        y_plane: vec![0; 8],
        uv_plane: vec![0; 4],
    };
    assert!(converter.convert(&other).is_err());
}
