//! Packet, sequence-header and frame-header parsing.

use rustavm::bitstream::{
    classify_frame_packet, parse_frame_header_info, parse_obus, parse_sequence_header, parse_tile_group,
    parse_uncompressed_frame_header, reduced_still_picture_frame_header, CdefParams, DeltaLfParams, DeltaQParams,
    FilmGrainParams, FramePacketKind, FrameType, LoopFilterParams, LoopRestorationParams, ObuType, ParseError,
    QuantParams, RenderSize, SegmentationParams, SequenceHeader, SuperresParams, UncompressedFrameHeader,
};

struct BitWriter {
    bytes: Vec<u8>,
    bit_offset: usize,
}

impl BitWriter {
    fn new() -> Self {
        Self {
            bytes: Vec::new(),
            bit_offset: 0,
        }
    }

    fn push_bits(&mut self, value: u32, count: u8) {
        for shift in (0..count).rev() {
            let bit = ((value >> shift) & 1) as u8;
            let byte_index = self.bit_offset / 8;
            let bit_index = 7 - (self.bit_offset % 8);
            if self.bytes.len() <= byte_index {
                self.bytes.push(0);
            }
            self.bytes[byte_index] |= bit << bit_index;
            self.bit_offset += 1;
        }
    }

    fn into_bytes(self) -> Vec<u8> {
        self.bytes
    }
}

#[test]
fn parse_single_temporal_delimiter() {
    let packet = [0x12, 0x00];
    let obus = parse_obus(&packet).expect("valid OBU");
    assert_eq!(obus.len(), 1);
    assert_eq!(ObuType::from_raw(obus[0].header.obu_type), ObuType::TemporalDelimiter);
    assert!(obus[0].payload.is_empty());
}

#[test]
fn parse_multiple_obus() {
    let packet = [0x12, 0x00, 0x2a, 0x01, 0xff];
    let obus = parse_obus(&packet).expect("valid OBU packet");
    assert_eq!(obus.len(), 2);
    assert_eq!(ObuType::from_raw(obus[1].header.obu_type), ObuType::Metadata);
    assert_eq!(obus[1].payload, &[0xff]);
}

#[test]
fn reject_truncated_payload() {
    let packet = [0x32, 0x02, 0x00];
    let err = parse_obus(&packet).expect_err("truncated payload");
    assert_eq!(err, ParseError::TruncatedPayload);
}

#[test]
fn parse_reduced_still_picture_sequence_header() {
    let mut bits = BitWriter::new();
    bits.push_bits(0, 5); // profile
    bits.push_bits(1, 1); // still_picture
    bits.push_bits(1, 1); // reduced_still_picture_header
    bits.push_bits(0, 5); // level
    bits.push_bits(7, 4); // frame_width_bits_minus_1 => 8 bits
    bits.push_bits(7, 4); // frame_height_bits_minus_1 => 8 bits
    bits.push_bits(63, 8); // width_minus_1 => 64
    bits.push_bits(47, 8); // height_minus_1 => 48
    bits.push_bits(0, 1); // high_bitdepth => 8-bit
    bits.push_bits(0, 1); // monochrome => false
    bits.push_bits(0, 1); // color_range => studio

    let header = parse_sequence_header(&bits.into_bytes()).expect("sequence header");
    assert_eq!(header.profile, 0);
    assert!(header.still_picture);
    assert!(header.reduced_still_picture_header);
    assert!(!header.timing_info_present_flag);
    assert!(!header.initial_display_delay_present_flag);
    assert!(!header.frame_id_numbers_present_flag);
    assert_eq!(header.operating_points_cnt_minus_1, 0);
    assert_eq!(header.operating_point_idc_0, 0);
    assert_eq!(header.seq_level_idx_0, 0);
    assert_eq!(header.seq_tier_0, None);
    assert_eq!(header.max_frame_width, 64);
    assert_eq!(header.max_frame_height, 48);
    assert_eq!(header.bit_depth, 8);
    assert!(!header.monochrome);
    assert_eq!(header.subsampling_x, 1);
    assert_eq!(header.subsampling_y, 1);
    assert_eq!(header.color_range, 0);
    assert_eq!(header.chroma_sample_position, 0);
}

#[test]
fn parse_general_sequence_header_minimal_subset() {
    let mut bits = BitWriter::new();
    bits.push_bits(0, 5); // profile
    bits.push_bits(0, 1); // still_picture
    bits.push_bits(0, 1); // reduced_still_picture_header
    bits.push_bits(0, 1); // timing_info_present_flag
    bits.push_bits(0, 1); // initial_display_delay_present_flag
    bits.push_bits(0, 5); // operating_points_cnt_minus_1
    bits.push_bits(0, 12); // operating_point_idc
    bits.push_bits(0, 5); // seq_level_idx
    bits.push_bits(7, 4); // frame_width_bits_minus_1 => 8 bits
    bits.push_bits(7, 4); // frame_height_bits_minus_1 => 8 bits
    bits.push_bits(79, 8); // width_minus_1 => 80
    bits.push_bits(59, 8); // height_minus_1 => 60
    bits.push_bits(1, 1); // frame_id_numbers_present_flag
    bits.push_bits(0, 1); // high_bitdepth => 8-bit
    bits.push_bits(0, 1); // monochrome => false
    bits.push_bits(0, 1); // color_description_present_flag
    bits.push_bits(0, 1); // color_range => studio
    bits.push_bits(0, 2); // chroma_sample_position

    let header = parse_sequence_header(&bits.into_bytes()).expect("sequence header");
    assert_eq!(header.max_frame_width, 80);
    assert_eq!(header.max_frame_height, 60);
    assert!(!header.reduced_still_picture_header);
    assert!(!header.timing_info_present_flag);
    assert!(!header.initial_display_delay_present_flag);
    assert!(header.frame_id_numbers_present_flag);
    assert_eq!(header.operating_points_cnt_minus_1, 0);
    assert_eq!(header.operating_point_idc_0, 0);
    assert_eq!(header.seq_level_idx_0, 0);
    assert_eq!(header.seq_tier_0, None);
    assert_eq!(header.bit_depth, 8);
    assert!(!header.monochrome);
    assert_eq!(header.subsampling_x, 1);
    assert_eq!(header.subsampling_y, 1);
    assert_eq!(header.color_range, 0);
    assert_eq!(header.chroma_sample_position, 0);
}

#[test]
fn parse_general_sequence_header_multiple_operating_points() {
    let mut bits = BitWriter::new();
    bits.push_bits(0, 5); // profile
    bits.push_bits(0, 1); // still_picture
    bits.push_bits(0, 1); // reduced_still_picture_header
    bits.push_bits(0, 1); // timing_info_present_flag
    bits.push_bits(0, 1); // initial_display_delay_present_flag
    bits.push_bits(1, 5); // operating_points_cnt_minus_1 => 2 operating points
    bits.push_bits(0x123, 12); // first operating_point_idc
    bits.push_bits(10, 5); // first seq_level_idx (>7)
    bits.push_bits(1, 1); // first seq_tier
    bits.push_bits(0x000, 12); // second operating_point_idc
    bits.push_bits(4, 5); // second seq_level_idx
    bits.push_bits(7, 4); // frame_width_bits_minus_1 => 8 bits
    bits.push_bits(7, 4); // frame_height_bits_minus_1 => 8 bits
    bits.push_bits(31, 8); // width_minus_1 => 32
    bits.push_bits(23, 8); // height_minus_1 => 24
    bits.push_bits(0, 1); // frame_id_numbers_present_flag
    bits.push_bits(0, 1); // high_bitdepth => 8-bit
    bits.push_bits(0, 1); // monochrome => false
    bits.push_bits(0, 1); // color_description_present_flag
    bits.push_bits(1, 1); // color_range => full
    bits.push_bits(2, 2); // chroma_sample_position

    let header = parse_sequence_header(&bits.into_bytes()).expect("sequence header");
    assert!(!header.frame_id_numbers_present_flag);
    assert_eq!(header.operating_points_cnt_minus_1, 1);
    assert_eq!(header.operating_point_idc_0, 0x123);
    assert_eq!(header.seq_level_idx_0, 10);
    assert_eq!(header.seq_tier_0, Some(true));
    assert_eq!(header.max_frame_width, 32);
    assert_eq!(header.max_frame_height, 24);
    assert_eq!(header.bit_depth, 8);
    assert!(!header.monochrome);
    assert_eq!(header.subsampling_x, 1);
    assert_eq!(header.subsampling_y, 1);
    assert_eq!(header.color_range, 1);
    assert_eq!(header.chroma_sample_position, 2);
}

#[test]
fn classify_mixed_frame_packet() {
    let packet = [0x1a, 0x00, 0x22, 0x00];
    let obus = parse_obus(&packet).expect("valid OBU packet");
    assert_eq!(classify_frame_packet(&obus), Some(FramePacketKind::Mixed));
}

#[test]
fn reduced_still_picture_implies_shown_key_frame() {
    let header = SequenceHeader {
        profile: 0,
        still_picture: true,
        reduced_still_picture_header: true,
        timing_info_present_flag: false,
        initial_display_delay_present_flag: false,
        frame_id_numbers_present_flag: false,
        operating_points_cnt_minus_1: 0,
        operating_point_idc_0: 0,
        seq_level_idx_0: 0,
        seq_tier_0: None,
        max_frame_width: 64,
        max_frame_height: 48,
        bit_depth: 8,
        monochrome: false,
        subsampling_x: 1,
        subsampling_y: 1,
        color_range: 0,
        chroma_sample_position: 0,
    };
    let frame = reduced_still_picture_frame_header(&header, FramePacketKind::Frame)
        .expect("frame semantics");
    assert_eq!(frame.frame_type, Some(FrameType::Key));
    assert!(frame.show_frame);
    assert!(!frame.show_existing_frame);
    assert_eq!(frame.existing_frame_idx, None);
    assert_eq!(frame.error_resilient_mode, Some(true));
    assert_eq!(frame.disable_cdf_update, None);
    assert_eq!(frame.primary_ref_frame, None);
    assert_eq!(frame.refresh_frame_flags, None);
    assert_eq!(frame.frame_size_override_flag, None);
}

#[test]
fn parse_general_frame_header_prefix() {
    let header = SequenceHeader {
        profile: 0,
        still_picture: false,
        reduced_still_picture_header: false,
        timing_info_present_flag: false,
        initial_display_delay_present_flag: false,
        frame_id_numbers_present_flag: false,
        operating_points_cnt_minus_1: 0,
        operating_point_idc_0: 0,
        seq_level_idx_0: 0,
        seq_tier_0: None,
        max_frame_width: 64,
        max_frame_height: 48,
        bit_depth: 8,
        monochrome: false,
        subsampling_x: 1,
        subsampling_y: 1,
        color_range: 0,
        chroma_sample_position: 0,
    };
    // show_existing_frame=0, frame_type=01 (inter), show_frame=1,
    // error_resilient_mode=0, disable_cdf_update=1, primary_ref_frame=101,
    // refresh_frame_flags=1010_0101, frame_size_override_flag=1
    let parsed = parse_frame_header_info(&header, ObuType::FrameHeader, &[0x36, 0xd2, 0xc0])
        .expect("frame");
    let parsed = parsed.expect("frame header");
    assert_eq!(parsed.frame_type, Some(FrameType::Inter));
    assert!(parsed.show_frame);
    assert!(!parsed.show_existing_frame);
    assert_eq!(parsed.existing_frame_idx, None);
    assert_eq!(parsed.error_resilient_mode, Some(false));
    assert_eq!(parsed.disable_cdf_update, Some(true));
    assert_eq!(parsed.primary_ref_frame, Some(5));
    assert_eq!(parsed.refresh_frame_flags, Some(0xa5));
    assert_eq!(parsed.frame_size_override_flag, Some(true));
}

#[test]
fn parse_general_show_existing_frame_prefix() {
    let header = SequenceHeader {
        profile: 0,
        still_picture: false,
        reduced_still_picture_header: false,
        timing_info_present_flag: false,
        initial_display_delay_present_flag: false,
        frame_id_numbers_present_flag: false,
        operating_points_cnt_minus_1: 0,
        operating_point_idc_0: 0,
        seq_level_idx_0: 0,
        seq_tier_0: None,
        max_frame_width: 64,
        max_frame_height: 48,
        bit_depth: 8,
        monochrome: false,
        subsampling_x: 1,
        subsampling_y: 1,
        color_range: 0,
        chroma_sample_position: 0,
    };
    // show_existing_frame=1, existing_frame_idx=010
    let parsed =
        parse_frame_header_info(&header, ObuType::FrameHeader, &[0b1010_0000]).expect("frame");
    let parsed = parsed.expect("frame header");
    assert_eq!(parsed.frame_type, None);
    assert!(parsed.show_frame);
    assert!(parsed.show_existing_frame);
    assert_eq!(parsed.existing_frame_idx, Some(2));
    assert_eq!(parsed.error_resilient_mode, None);
    assert_eq!(parsed.disable_cdf_update, None);
    assert_eq!(parsed.primary_ref_frame, None);
    assert_eq!(parsed.refresh_frame_flags, None);
    assert_eq!(parsed.frame_size_override_flag, None);
}

#[test]
fn parse_reduced_still_uncompressed_frame_header() {
    let sh = SequenceHeader {
        profile: 0,
        still_picture: true,
        reduced_still_picture_header: true,
        timing_info_present_flag: false,
        initial_display_delay_present_flag: false,
        frame_id_numbers_present_flag: false,
        operating_points_cnt_minus_1: 0,
        operating_point_idc_0: 0,
        seq_level_idx_0: 0,
        seq_tier_0: None,
        max_frame_width: 64,
        max_frame_height: 48,
        bit_depth: 8,
        monochrome: false,
        subsampling_x: 1,
        subsampling_y: 1,
        color_range: 0,
        chroma_sample_position: 0,
    };
    let fh = parse_uncompressed_frame_header(&sh, &[24]).expect("frame header");
    assert_eq!(fh.frame_type, FrameType::Key);
    assert!(fh.show_frame);
    assert_eq!(fh.quant.base_q_idx, 24);
    assert_eq!(fh.num_tile_cols, 1);
    assert_eq!(fh.num_tile_rows, 1);
    assert_eq!(fh.tx_mode, 0);
}

#[test]
fn parse_single_tile_group_payload() {
    let sh = SequenceHeader {
        profile: 0,
        still_picture: true,
        reduced_still_picture_header: true,
        timing_info_present_flag: false,
        initial_display_delay_present_flag: false,
        frame_id_numbers_present_flag: false,
        operating_points_cnt_minus_1: 0,
        operating_point_idc_0: 0,
        seq_level_idx_0: 0,
        seq_tier_0: None,
        max_frame_width: 64,
        max_frame_height: 64,
        bit_depth: 8,
        monochrome: false,
        subsampling_x: 1,
        subsampling_y: 1,
        color_range: 0,
        chroma_sample_position: 0,
    };
    let fh = UncompressedFrameHeader {
        frame_type: FrameType::Key,
        show_frame: true,
        error_resilient_mode: true,
        disable_cdf_update: false,
        primary_ref_frame: 0,
        refresh_frame_flags: 0xff,
        frame_size_override_flag: false,
        allow_screen_content_tools: false,
        force_integer_mv: false,
        order_hint: 0,
        render_size: RenderSize {
            width: 64,
            height: 64,
        },
        superres: SuperresParams {
            enabled: false,
            denominator: 8,
        },
        loop_filter: LoopFilterParams {
            level: [0; 4],
            sharpness: 0,
            delta_enabled: false,
            delta_update: false,
        },
        quant: QuantParams {
            base_q_idx: 0,
            delta_q_y_dc: 0,
            delta_q_u_dc: 0,
            delta_q_u_ac: 0,
            delta_q_v_dc: 0,
            delta_q_v_ac: 0,
            using_qmatrix: false,
            qm_y: 0,
            qm_u: 0,
            qm_v: 0,
        },
        segmentation: SegmentationParams {
            enabled: false,
            update_map: false,
            temporal_update: false,
            update_data: false,
        },
        delta_q: DeltaQParams {
            present: false,
            scale: 0,
        },
        delta_lf: DeltaLfParams {
            present: false,
            scale: 0,
            multi: false,
        },
        loop_restoration: LoopRestorationParams { uses_lrf: false },
        tx_mode: 0,
        reduced_tx_set: false,
        cdef: CdefParams {
            damping: 0,
            bits: 0,
        },
        film_grain: FilmGrainParams { apply_grain: false },
        num_tile_cols: 1,
        num_tile_rows: 1,
        frame_width: 64,
        frame_height: 64,
    };
    let tg = parse_tile_group(&sh, &fh, &[0x00]).expect("tile group");
    assert_eq!(tg.tile_start, 0);
    assert_eq!(tg.tile_end, 0);
    assert_eq!(tg.data, &[0x00]);
}
