use rustavm::backend::BackendKind;
use rustavm::bitstream::{FramePacketKind, FrameType};
use rustavm::decoder::{DecodeEvent, Decoder, DecoderError, ErrorKind, Frame, Image};

struct BitWriter {
    bytes: Vec<u8>,
    bit_offset: usize,
}

impl BitWriter {
    fn new() -> Self {
        Self { bytes: Vec::new(), bit_offset: 0 }
    }

    fn push_bits(&mut self, value: u32, count: u8) {
        for shift in (0..count).rev() {
            let bit = ((value >> shift) & 1) as u8;
            let byte_index = self.bit_offset / 8;
            let bit_index = 7 - (self.bit_offset % 8);
            if self.bytes.len() <= byte_index {
                self.bytes.push(0);
            }
            self.bytes[byte_index] |= bit << bit_index;
            self.bit_offset += 1;
        }
    }

    fn into_bytes(self) -> Vec<u8> {
        self.bytes
    }
}

fn reduced_still_sequence_header_payload(width: u32, height: u32) -> Vec<u8> {
    let width_minus_1 = width - 1;
    let height_minus_1 = height - 1;
    let width_bits = 32 - width_minus_1.leading_zeros();
    let height_bits = 32 - height_minus_1.leading_zeros();

    let mut bits = BitWriter::new();
    bits.push_bits(0, 5); // profile
    bits.push_bits(1, 1); // still_picture
    bits.push_bits(1, 1); // reduced_still_picture_header
    bits.push_bits(0, 5); // level
    bits.push_bits(width_bits - 1, 4);
    bits.push_bits(height_bits - 1, 4);
    bits.push_bits(width_minus_1, width_bits as u8);
    bits.push_bits(height_minus_1, height_bits as u8);
    bits.push_bits(0, 1); // high_bitdepth => 8-bit
    bits.push_bits(0, 1); // monochrome => false
    bits.push_bits(0, 1); // color_range => studio
    bits.into_bytes()
}


fn general_sequence_header_payload(width: u32, height: u32) -> Vec<u8> {
    let width_minus_1 = width - 1;
    let height_minus_1 = height - 1;
    let width_bits = 32 - width_minus_1.leading_zeros();
    let height_bits = 32 - height_minus_1.leading_zeros();

    let mut bits = BitWriter::new();
    bits.push_bits(0, 5); // profile
    bits.push_bits(0, 1); // still_picture
    bits.push_bits(0, 1); // reduced_still_picture_header
    bits.push_bits(0, 1); // timing_info_present_flag
    bits.push_bits(0, 1); // initial_display_delay_present_flag
    bits.push_bits(0, 5); // operating_points_cnt_minus_1
    bits.push_bits(0, 12); // operating_point_idc
    bits.push_bits(0, 5); // seq_level_idx
    bits.push_bits(width_bits - 1, 4);
    bits.push_bits(height_bits - 1, 4);
    bits.push_bits(width_minus_1, width_bits as u8);
    bits.push_bits(height_minus_1, height_bits as u8);
    bits.push_bits(1, 1); // frame_id_numbers_present_flag
    bits.push_bits(0, 1); // high_bitdepth => 8-bit
    bits.push_bits(0, 1); // monochrome => false
    bits.push_bits(0, 1); // color_description_present_flag
    bits.push_bits(0, 1); // color_range => studio
    bits.push_bits(0, 2); // chroma_sample_position
    bits.into_bytes()
}

#[test]
fn test_rust_backend_builder_succeeds() {
    let decoder = Decoder::builder().backend(BackendKind::Rust).build();
    assert!(decoder.is_ok());
    assert_eq!(decoder.unwrap().backend_kind(), BackendKind::Rust);
}

#[test]
fn test_rust_backend_accepts_non_frame_obu_packet() {
    let mut decoder = Decoder::builder()
        .backend(BackendKind::Rust)
        .build()
        .expect("rust backend build");
    // Temporal delimiter OBU with explicit zero-length payload.
    decoder.decode(&[0x12, 0x00]).expect("packet parser should accept valid non-frame OBU");
    let frames: Vec<_> = decoder.get_frames();
    assert!(frames.is_empty());
}

#[test]
fn test_rust_backend_rejects_incomplete_frame_obu() {
    let mut decoder = Decoder::builder()
        .backend(BackendKind::Rust)
        .build()
        .expect("rust backend build");
    let err = decoder
        .decode(&[0x32, 0x00])
        .expect_err("truncated frame OBU should fail");
    assert!(err.message().contains("frame"));
}

#[test]
fn test_rust_backend_parses_sequence_header_stream_info() {
    let mut decoder = Decoder::builder()
        .backend(BackendKind::Rust)
        .build()
        .expect("rust backend build");
    let payload = reduced_still_sequence_header_payload(64, 48);
    let mut packet = vec![0x0a, payload.len() as u8];
    packet.extend_from_slice(&payload);
    decoder.decode(&packet).expect("sequence header should parse");
    let info = decoder.get_stream_info().expect("stream info");
    assert_eq!(info.width, 64);
    assert_eq!(info.height, 48);
    let progress = decoder.progress();
    assert_eq!(progress.backend, BackendKind::Rust);
    assert_eq!(progress.packets_parsed, Some(1));
    assert_eq!(progress.obus_parsed, Some(1));
    assert_eq!(progress.frame_packets_seen, Some(0));
    let seq = progress.sequence_header.expect("sequence header");
    assert!(seq.reduced_still_picture_header);
    assert!(!seq.frame_id_numbers_present_flag);
    assert_eq!(seq.operating_point_idc_0, 0);
    assert_eq!(seq.seq_level_idx_0, 0);
    assert_eq!(seq.seq_tier_0, None);
    assert_eq!(seq.max_frame_width, 64);
    assert_eq!(seq.max_frame_height, 48);
    assert_eq!(seq.bit_depth, 8);
    assert!(!seq.monochrome);
    assert_eq!(seq.subsampling_x, 1);
    assert_eq!(seq.subsampling_y, 1);
    assert_eq!(seq.color_range, 0);
    assert_eq!(seq.chroma_sample_position, 0);
    assert_eq!(progress.stream_info, Some(info));
    assert_eq!(progress.last_frame_header, None);
    assert_eq!(progress.last_event, Some(DecodeEvent::SequenceHeader(seq)));
    assert_eq!(
        progress.recent_events,
        [None, None, None, Some(DecodeEvent::SequenceHeader(seq))]
    );
}

#[test]
fn test_rust_backend_tracks_frame_packet_progress() {
    let mut decoder = Decoder::builder()
        .backend(BackendKind::Rust)
        .build()
        .expect("rust backend build");
    let payload = reduced_still_sequence_header_payload(64, 48);
    let mut seq_packet = vec![0x0a, payload.len() as u8];
    seq_packet.extend_from_slice(&payload);
    decoder.decode(&seq_packet).expect("sequence header");
    let err = decoder
        .decode(&[0x1a, 0x00, 0x22, 0x00])
        .expect_err("incomplete reduced-still frame packet should fail");
    assert!(err.message().contains("frame"));
    let progress = decoder.progress();
    assert_eq!(progress.packets_parsed, Some(2));
    assert_eq!(progress.obus_parsed, Some(3));
    assert_eq!(progress.frame_packets_seen, Some(1));
    assert_eq!(progress.last_frame_packet_kind, Some(FramePacketKind::Mixed));
    let header = progress.last_frame_header.expect("frame header semantics");
    assert_eq!(header.frame_type, Some(FrameType::Key));
    assert!(header.show_frame);
    assert!(!header.show_existing_frame);
    assert_eq!(header.existing_frame_idx, None);
    assert_eq!(header.error_resilient_mode, Some(true));
    assert_eq!(header.disable_cdf_update, None);
    assert_eq!(header.primary_ref_frame, None);
    assert_eq!(header.refresh_frame_flags, None);
    assert_eq!(header.frame_size_override_flag, None);
    assert_eq!(progress.last_event, Some(DecodeEvent::FrameHeader(header)));
    assert_eq!(progress.recent_events[1], Some(DecodeEvent::SequenceHeader(
        progress.sequence_header.expect("sequence header")
    )));
    assert_eq!(progress.recent_events[2], Some(DecodeEvent::FrameHeader(header)));
    assert_eq!(progress.recent_events[3], Some(DecodeEvent::FrameHeader(header)));
}

#[test]
fn test_rust_backend_parses_general_frame_header_prefix() {
    let mut decoder = Decoder::builder()
        .backend(BackendKind::Rust)
        .build()
        .expect("rust backend build");
    let payload = general_sequence_header_payload(80, 60);
    let mut seq_packet = vec![0x0a, payload.len() as u8];
    seq_packet.extend_from_slice(&payload);
    decoder.decode(&seq_packet).expect("general sequence header");
    let err = decoder
        .decode(&[0x1a, 0x03, 0x36, 0xd2, 0xc0])
        .expect_err("unsupported general frame should fail");
    assert!(err.message().contains("not implemented"));
    let progress = decoder.progress();
    let header = progress.last_frame_header.expect("frame header");
    let seq = progress.sequence_header.expect("sequence header");
    assert!(!seq.reduced_still_picture_header);
    assert!(seq.frame_id_numbers_present_flag);
    assert_eq!(seq.operating_point_idc_0, 0);
    assert_eq!(seq.seq_level_idx_0, 0);
    assert_eq!(seq.seq_tier_0, None);
    assert_eq!(seq.max_frame_width, 80);
    assert_eq!(seq.max_frame_height, 60);
    assert_eq!(seq.bit_depth, 8);
    assert!(!seq.monochrome);
    assert_eq!(seq.subsampling_x, 1);
    assert_eq!(seq.subsampling_y, 1);
    assert_eq!(seq.color_range, 0);
    assert_eq!(seq.chroma_sample_position, 0);
    assert_eq!(header.frame_type, Some(FrameType::Inter));
    assert!(header.show_frame);
    assert!(!header.show_existing_frame);
    assert_eq!(header.existing_frame_idx, None);
    assert_eq!(header.error_resilient_mode, Some(false));
    assert_eq!(header.disable_cdf_update, Some(true));
    assert_eq!(header.primary_ref_frame, Some(5));
    assert_eq!(header.refresh_frame_flags, Some(0xa5));
    assert_eq!(header.frame_size_override_flag, Some(true));
    assert_eq!(progress.last_event, Some(DecodeEvent::FrameHeader(header)));
    assert_eq!(progress.recent_events[2], Some(DecodeEvent::SequenceHeader(seq)));
    assert_eq!(progress.recent_events[3], Some(DecodeEvent::FrameHeader(header)));
}

#[test]
fn test_rust_backend_parses_show_existing_frame_prefix() {
    let mut decoder = Decoder::builder()
        .backend(BackendKind::Rust)
        .build()
        .expect("rust backend build");
    let payload = general_sequence_header_payload(80, 60);
    let mut seq_packet = vec![0x0a, payload.len() as u8];
    seq_packet.extend_from_slice(&payload);
    decoder.decode(&seq_packet).expect("general sequence header");
    let err = decoder
        .decode(&[0x1a, 0x01, 0b1010_0000])
        .expect_err("show-existing-frame path is outside M0");
    assert!(err.message().contains("not implemented"));
    let progress = decoder.progress();
    let header = progress.last_frame_header.expect("frame header");
    let seq = progress.sequence_header.expect("sequence header");
    assert!(!seq.reduced_still_picture_header);
    assert!(seq.frame_id_numbers_present_flag);
    assert_eq!(seq.operating_point_idc_0, 0);
    assert_eq!(seq.bit_depth, 8);
    assert!(!seq.monochrome);
    assert_eq!(seq.subsampling_x, 1);
    assert_eq!(seq.subsampling_y, 1);
    assert_eq!(header.frame_type, None);
    assert!(header.show_frame);
    assert!(header.show_existing_frame);
    assert_eq!(header.existing_frame_idx, Some(2));
    assert_eq!(header.error_resilient_mode, None);
    assert_eq!(header.disable_cdf_update, None);
    assert_eq!(header.primary_ref_frame, None);
    assert_eq!(header.refresh_frame_flags, None);
    assert_eq!(header.frame_size_override_flag, None);
    assert_eq!(progress.last_event, Some(DecodeEvent::FrameHeader(header)));
    assert_eq!(progress.recent_events[2], Some(DecodeEvent::SequenceHeader(seq)));
    assert_eq!(progress.recent_events[3], Some(DecodeEvent::FrameHeader(header)));
}

fn zeroed_image() -> Image {
    Image {
        fmt: 0,
        monochrome: false,
        csp: 0,
        range: 0,
        w: 0,
        h: 0,
        bit_depth: 0,
        d_w: 0,
        d_h: 0,
        x_chroma_shift: 0,
        y_chroma_shift: 0,
        planes: [None, None, None],
        stride: [0, 0, 0],
        sz: 0,
    }
}

#[test]
fn decoder_test_plane_rejects_index_out_of_bounds() {
    let img = zeroed_image();
    let frame = Frame::from_raw_for_test(&img);
    assert!(frame.plane(3).is_none());
    assert!(frame.plane(4).is_none());
    assert!(frame.plane(usize::MAX).is_none());
}

#[test]
fn decoder_test_plane_rejects_null_plane_pointer() {
    let mut img = zeroed_image();
    img.d_w = 320;
    img.d_h = 240;
    img.stride[0] = 320;
    let frame = Frame::from_raw_for_test(&img);
    assert!(frame.plane(0).is_none());
}

#[test]
fn decoder_test_plane_rejects_negative_stride() {
    let mut img = zeroed_image();
    img.d_w = 16;
    img.d_h = 16;
    img.planes[0] = Some(vec![0u8; 1024]);
    img.stride[0] = -1;
    let frame = Frame::from_raw_for_test(&img);
    assert!(frame.plane(0).is_none());
}

#[test]
fn decoder_test_plane_rejects_stride_below_row_bytes() {
    let mut img = zeroed_image();
    img.d_w = 320;
    img.d_h = 240;
    img.planes[0] = Some(vec![0u8; 4096]);
    img.stride[0] = 160;
    let frame = Frame::from_raw_for_test(&img);
    assert!(frame.plane(0).is_none());
}

#[test]
fn decoder_test_plane_rejects_stride_height_overflow() {
    let mut img = zeroed_image();
    img.d_w = 1;
    img.d_h = i32::MAX as u32;
    img.planes[0] = Some(vec![0u8; 1024]);
    img.stride[0] = i32::MAX;
    let frame = Frame::from_raw_for_test(&img);
    assert!(frame.plane(0).is_none());
}

#[test]
fn decoder_test_plane_rejects_len_exceeds_sz() {
    let mut img = zeroed_image();
    img.d_w = 1024;
    img.d_h = 1024;
    img.planes[0] = Some(vec![0u8; 1024 * 1024]);
    img.stride[0] = 1024;
    img.sz = 1024;
    let frame = Frame::from_raw_for_test(&img);
    assert!(frame.plane(0).is_none());
}

#[test]
fn decoder_test_plane_returns_valid_slice() {
    let w: usize = 64;
    let h: usize = 48;
    let stride: usize = 128;
    let mut img = zeroed_image();
    img.d_w = w as u32;
    img.d_h = h as u32;
    img.planes[0] = Some(vec![0xABu8; stride * h]);
    img.stride[0] = stride as i32;
    img.sz = stride * h;
    let frame = Frame::from_raw_for_test(&img);
    let plane = frame.plane(0).expect("plane(0) should return Some");
    assert_eq!(plane.len(), stride * h);
    assert_eq!(plane[0], 0xAB);
}

#[test]
fn mod_test_plane_rejects_index_out_of_bounds() {
    let img = zeroed_image();
    let frame = Frame::from_raw_for_test(&img);
    assert!(frame.plane(3).is_none());
    assert!(frame.plane(4).is_none());
    assert!(frame.plane(usize::MAX).is_none());
}

#[test]
fn mod_test_plane_rejects_null_plane_pointer() {
    let mut img = zeroed_image();
    img.d_w = 320;
    img.d_h = 240;
    img.stride[0] = 320;
    let frame = Frame::from_raw_for_test(&img);
    assert!(frame.plane(0).is_none());
}

#[test]
fn mod_test_plane_rejects_negative_stride() {
    let mut img = zeroed_image();
    img.d_w = 16;
    img.d_h = 16;
    img.planes[0] = Some(vec![0u8; 1024]);
    img.stride[0] = -1;
    let frame = Frame::from_raw_for_test(&img);
    assert!(frame.plane(0).is_none());
}

#[test]
fn mod_test_plane_rejects_stride_below_row_bytes() {
    let mut img = zeroed_image();
    img.d_w = 320;
    img.d_h = 240;
    img.planes[0] = Some(vec![0u8; 4096]);
    img.stride[0] = 160;
    let frame = Frame::from_raw_for_test(&img);
    assert!(frame.plane(0).is_none());
}

#[test]
fn mod_test_plane_rejects_stride_height_overflow() {
    let mut img = zeroed_image();
    img.d_w = 1;
    img.d_h = i32::MAX as u32;
    img.planes[0] = Some(vec![0u8; 1024]);
    img.stride[0] = i32::MAX;
    let frame = Frame::from_raw_for_test(&img);
    assert!(frame.plane(0).is_none());
}

#[test]
fn mod_test_plane_rejects_len_exceeds_sz() {
    let mut img = zeroed_image();
    img.d_w = 1024;
    img.d_h = 1024;
    img.planes[0] = Some(vec![0u8; 1024 * 1024]);
    img.stride[0] = 1024;
    img.sz = 1024;
    let frame = Frame::from_raw_for_test(&img);
    assert!(frame.plane(0).is_none());
}

#[test]
fn mod_test_plane_returns_valid_slice() {
    let w: usize = 64;
    let h: usize = 48;
    let stride: usize = 128;
    let mut img = zeroed_image();
    img.d_w = w as u32;
    img.d_h = h as u32;
    img.planes[0] = Some(vec![0xABu8; stride * h]);
    img.stride[0] = stride as i32;
    img.sz = stride * h;
    let frame = Frame::from_raw_for_test(&img);
    let plane = frame.plane(0).expect("plane(0) should return Some");
    assert_eq!(plane.len(), stride * h);
    assert_eq!(plane[0], 0xAB);
}

#[test]
fn libavm_backend_is_unavailable_in_this_build() {
    let err = Decoder::new().err().expect("no libavm backend here");
    assert_eq!(err, DecoderError::BackendUnavailable(BackendKind::Libavm));
    assert_eq!(err.message(), "decoder backend `libavm` is not available in this build");
    assert!(Decoder::builder().threads(4).build().is_err());
}

#[test]
fn rust_backend_reports_missing_stream_info_and_flushes() {
    let mut decoder = Decoder::builder().backend(BackendKind::Rust).build().unwrap();
    let err = decoder.get_stream_info().unwrap_err();
    assert_eq!(err, DecoderError::Unimplemented("Rust backend has not observed stream metadata yet"));
    assert!(decoder.flush().is_ok());
    assert!(decoder.get_frames().is_empty());
    let progress = decoder.progress();
    assert_eq!(progress.packets_parsed, Some(0));
    assert_eq!(progress.last_event, None);
}

struct NoBuffers;

impl rustavm::decoder::FrameBufferManager for NoBuffers {
    fn allocate(&mut self, _min_size: usize) -> Option<rustavm::decoder::FrameBuffer> {
        None
    }

    fn release(&mut self, _buffer: rustavm::decoder::FrameBuffer) {}
}

#[test]
fn rust_backend_rejects_frame_buffer_managers() {
    let mut decoder = Decoder::builder().backend(BackendKind::Rust).build().unwrap();
    assert_eq!(
        decoder.set_frame_buffer_manager(NoBuffers),
        Err(DecoderError::BackendUnavailable(BackendKind::Rust))
    );
}

#[test]
fn decoder_error_messages_name_the_failing_step() {
    assert_eq!(DecoderError::Decode(ErrorKind::CorruptFrame).message(), "decode failed: corrupt bitstream frame");
    assert_eq!(
        DecoderError::Init(ErrorKind::Other(42)).message(),
        "decoder initialization failed: libavm returned unknown error code 42"
    );
    assert_eq!(DecoderError::Parse("x").message(), "bitstream parse failed: x");
    assert_eq!(ErrorKind::from_raw(0), None);
}

#[test]
fn two_rust_decoders_fed_the_same_packets_agree() {
    let payload = reduced_still_sequence_header_payload(64, 48);
    let mut seq_packet = vec![0x0a, payload.len() as u8];
    seq_packet.extend_from_slice(&payload);
    let packets: [&[u8]; 3] = [&seq_packet, &[0x12, 0x00], &[0x1a, 0x00, 0x22, 0x00]];
    let mut first = Decoder::builder().backend(BackendKind::Rust).build().unwrap();
    let mut second = Decoder::builder().backend(BackendKind::Rust).threads(2).build().unwrap();
    for packet in packets {
        let a = first.decode(packet);
        let b = second.decode(packet);
        assert_eq!(a, b);
        assert_eq!(first.progress(), second.progress());
    }
}

#[test]
fn a_zero_width_plane_with_stride_zero_has_empty_rows_and_copies() {
    let mut img = zeroed_image();
    img.d_h = 3;
    img.planes = [Some(Vec::new()), None, None];
    img.stride = [0, 0, 0];
    let frame = Frame::from_raw_for_test(&img);
    let rows = frame.rows(0).expect("a valid zero-width plane has rows");
    assert_eq!(rows.len(), 3);
    assert!(rows.iter().all(|r| r.is_empty()));
    let owned = frame.to_owned();
    assert!(owned.planes[0].is_empty());
    assert_eq!(owned.strides[0], 0);
    assert_eq!(owned.height, 3);
}

#[test]
fn stream_info_follows_the_last_sequence_header_after_a_failed_packet() {
    let mut decoder = Decoder::builder().backend(BackendKind::Rust).build().unwrap();
    assert!(decoder.get_stream_info().is_err());
    let payload = reduced_still_sequence_header_payload(64, 48);
    let mut seq_packet = vec![0x0a, payload.len() as u8];
    seq_packet.extend_from_slice(&payload);
    decoder.decode(&seq_packet).expect("sequence header");
    assert!(decoder.decode(&[0x1a, 0x00, 0x22, 0x00]).is_err());
    let info = decoder.get_stream_info().expect("stream info");
    assert_eq!((info.width, info.height, info.is_kf), (64, 48, false));
    assert_eq!((info.number_tlayers, info.number_mlayers, info.number_xlayers), (1, 1, 1));
    assert_eq!(decoder.progress().stream_info, Some(info));
}
