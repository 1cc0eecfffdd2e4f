use rustavm::decoder::{Frame, Image};
use rustavm::format::{
    CR_FULL_RANGE, CR_STUDIO_RANGE, CSP_LEFT, CSP_TOPLEFT, CSP_UNSPECIFIED, IMG_FMT_I420, IMG_FMT_I42016, IMG_FMT_I422,
    IMG_FMT_I42216, IMG_FMT_I444, IMG_FMT_I44416,
};
use rustavm::y4m::{frame_output, y4m_colorspace, y4m_frame_marker, y4m_header};

fn image(fmt: u32, bit_depth: u32, monochrome: bool, csp: u32, range: u32) -> Image {
    Image {
        fmt,
        monochrome,
        csp,
        range,
        w: 4,
        h: 2,
        bit_depth,
        d_w: 4,
        d_h: 2,
        x_chroma_shift: 1,
        y_chroma_shift: 1,
        planes: [None, None, None],
        stride: [0, 0, 0],
        sz: 0,
    }
}

fn colorspace(fmt: u32, bit_depth: u32, monochrome: bool, csp: u32) -> String {
    let img = image(fmt, bit_depth, monochrome, csp, CR_STUDIO_RANGE);
    y4m_colorspace(&Frame::from_raw_for_test(&img))
}

#[test]
fn monochrome_tags_carry_the_bit_depth() {
    assert_eq!(colorspace(IMG_FMT_I420, 8, true, CSP_UNSPECIFIED), "Cmono");
    assert_eq!(colorspace(IMG_FMT_I420, 10, true, CSP_UNSPECIFIED), "Cmono10");
    assert_eq!(colorspace(IMG_FMT_I420, 12, true, CSP_UNSPECIFIED), "Cmono12");
    assert_eq!(colorspace(IMG_FMT_I420, 7, true, CSP_UNSPECIFIED), "Cmono");
}

#[test]
fn eight_bit_tags_follow_format_and_siting() {
    assert_eq!(colorspace(IMG_FMT_I444, 8, false, CSP_UNSPECIFIED), "C444");
    assert_eq!(colorspace(IMG_FMT_I422, 8, false, CSP_UNSPECIFIED), "C422");
    assert_eq!(colorspace(IMG_FMT_I420, 8, false, CSP_LEFT), "C420mpeg2 XYSCSS=420MPEG2");
    assert_eq!(colorspace(IMG_FMT_I420, 8, false, CSP_TOPLEFT), "C420");
    assert_eq!(colorspace(IMG_FMT_I420, 8, false, CSP_UNSPECIFIED), "C420jpeg");
}

#[test]
fn high_bit_depth_tags_spell_out_the_depth() {
    assert_eq!(colorspace(IMG_FMT_I44416, 10, false, CSP_UNSPECIFIED), "C444p10 XYSCSS=444P10");
    assert_eq!(colorspace(IMG_FMT_I42216, 12, false, CSP_UNSPECIFIED), "C422p12 XYSCSS=422P12");
    assert_eq!(colorspace(IMG_FMT_I42016, 10, false, CSP_UNSPECIFIED), "C420p10 XYSCSS=420P10");
}

#[test]
fn header_line_names_size_rate_and_range() {
    let img = image(IMG_FMT_I420, 8, false, CSP_UNSPECIFIED, CR_STUDIO_RANGE);
    assert_eq!(y4m_header(&Frame::from_raw_for_test(&img), 30, 1), "YUV4MPEG2 W4 H2 F30:1 Ip C420jpeg\n");
    let img = image(IMG_FMT_I420, 8, false, CSP_UNSPECIFIED, CR_FULL_RANGE);
    assert_eq!(
        y4m_header(&Frame::from_raw_for_test(&img), 25, 2),
        "YUV4MPEG2 W4 H2 F25:2 Ip C420jpeg XCOLORRANGE=FULL\n"
    );
    assert_eq!(y4m_frame_marker(), "FRAME\n");
}

#[test]
fn frame_output_crops_rows_to_the_active_width() {
    let mut img = image(IMG_FMT_I420, 8, false, CSP_UNSPECIFIED, CR_STUDIO_RANGE);
    img.planes = [Some(vec![1, 2, 3, 4, 0, 0, 5, 6, 7, 8, 0, 0]), Some(vec![9, 10, 0, 11, 12, 0]), Some(vec![13, 14])];
    img.stride = [6, 3, 2];
    let out = frame_output(&Frame::from_raw_for_test(&img));
    // Chroma planes are 2x1: the first gives its active bytes, the second one row.
    assert_eq!(out, vec![1, 2, 3, 4, 5, 6, 7, 8, 9, 10, 13, 14]);
}

#[test]
fn frame_output_keeps_the_low_byte_of_eight_bit_samples_in_wide_containers() {
    let mut img = image(IMG_FMT_I42016, 8, true, CSP_UNSPECIFIED, CR_STUDIO_RANGE);
    img.d_w = 2;
    img.d_h = 1;
    img.planes = [Some(vec![0x11, 0x00, 0x22, 0x00]), None, None];
    img.stride = [4, 0, 0];
    let out = frame_output(&Frame::from_raw_for_test(&img));
    assert_eq!(out, vec![0x11, 0x22]);
}
