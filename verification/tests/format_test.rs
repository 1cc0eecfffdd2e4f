use rustavm::format::{ChromaSamplePosition, ColorRange, PixelFormat, PlaneView, Subsampling};

#[test]
fn pixel_format_round_trip() {
    for fmt in [
        PixelFormat::I420,
        PixelFormat::I422,
        PixelFormat::I444,
        PixelFormat::Yv12,
        PixelFormat::I42016,
        PixelFormat::I42216,
        PixelFormat::I44416,
        PixelFormat::Yv1216,
    ] {
        assert_eq!(PixelFormat::from_raw(fmt.as_raw()), Some(fmt));
    }
}

#[test]
fn high_bit_depth_classification() {
    assert!(!PixelFormat::I420.is_high_bit_depth());
    assert!(!PixelFormat::I422.is_high_bit_depth());
    assert!(!PixelFormat::I444.is_high_bit_depth());
    assert!(!PixelFormat::Yv12.is_high_bit_depth());
    assert!(PixelFormat::I42016.is_high_bit_depth());
    assert!(PixelFormat::I42216.is_high_bit_depth());
    assert!(PixelFormat::I44416.is_high_bit_depth());
    assert!(PixelFormat::Yv1216.is_high_bit_depth());
}

#[test]
fn bytes_per_sample_matches_bit_depth() {
    assert_eq!(PixelFormat::I420.bytes_per_sample(), 1);
    assert_eq!(PixelFormat::I42016.bytes_per_sample(), 2);
}

#[test]
fn subsampling_classification() {
    assert_eq!(PixelFormat::I420.subsampling(), Subsampling::Yuv420);
    assert_eq!(PixelFormat::I42016.subsampling(), Subsampling::Yuv420);
    assert_eq!(PixelFormat::Yv12.subsampling(), Subsampling::Yuv420);
    assert_eq!(PixelFormat::I422.subsampling(), Subsampling::Yuv422);
    assert_eq!(PixelFormat::I42216.subsampling(), Subsampling::Yuv422);
    assert_eq!(PixelFormat::I444.subsampling(), Subsampling::Yuv444);
    assert_eq!(PixelFormat::I44416.subsampling(), Subsampling::Yuv444);
}

#[test]
fn from_raw_unknown_returns_none() {
    assert_eq!(PixelFormat::from_raw(0), None);
    assert_eq!(PixelFormat::from_raw(0xDEAD_BEEF), None);
}

#[test]
fn chroma_sample_position_round_trip() {
    for csp in [
        ChromaSamplePosition::Left,
        ChromaSamplePosition::Center,
        ChromaSamplePosition::TopLeft,
        ChromaSamplePosition::Top,
        ChromaSamplePosition::BottomLeft,
        ChromaSamplePosition::Bottom,
        ChromaSamplePosition::Unspecified,
    ] {
        assert_eq!(ChromaSamplePosition::from_raw(csp.as_raw()), csp);
    }
}

#[test]
fn chroma_sample_position_unknown_falls_back_to_unspecified() {
    assert_eq!(
        ChromaSamplePosition::from_raw(0xFFFF_FFFF),
        ChromaSamplePosition::Unspecified,
    );
}

#[test]
fn color_range_round_trip() {
    for cr in [ColorRange::Studio, ColorRange::Full] {
        assert_eq!(ColorRange::from_raw(cr.as_raw()), cr);
    }
}

#[test]
fn raw_pixel_format_values_match_the_codec_constants() {
    assert_eq!(PixelFormat::I420.as_raw(), 0x102);
    assert_eq!(PixelFormat::Yv12.as_raw(), 0x301);
    assert_eq!(PixelFormat::I44416.as_raw(), 0x906);
    assert_eq!(PixelFormat::from_raw(0xB01), Some(PixelFormat::Yv1216));
    assert_eq!(PixelFormat::Yv1216.bytes_per_sample(), 2);
    assert_eq!(PixelFormat::Yv1216.subsampling(), Subsampling::Yuv420);
}

#[test]
fn unknown_color_range_is_studio() {
    assert_eq!(ColorRange::from_raw(7), ColorRange::Studio);
    assert_eq!(ColorRange::Full.as_raw(), 1);
}

#[test]
fn chroma_dims_round_up_for_odd_sizes() {
    assert_eq!(Subsampling::Yuv420.chroma_dims(5, 3), (3, 2));
    assert_eq!(Subsampling::Yuv422.chroma_dims(5, 3), (3, 3));
    assert_eq!(Subsampling::Yuv444.chroma_dims(5, 3), (5, 3));
}

#[test]
fn plane_view_reports_sample_count() {
    let bytes = [1u8, 2, 3];
    let view = PlaneView::U8(&bytes);
    assert_eq!(view.len(), 3);
    assert!(!view.is_empty());
    let wide = PlaneView::U16(vec![]);
    assert!(wide.is_empty());
}
