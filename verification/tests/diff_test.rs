use rustavm::backend::BackendKind;
use rustavm::decoder::{DecodeProgress, OwnedFrame, StreamInfo};
use rustavm::diff::{
    compare_frames, compare_ivf_file, compare_ivf_file_outcomes, compare_outcome_overlap, compare_outcomes,
    compare_snapshots, decode_ivf_outcome, decode_ivf_snapshot, CompareError, DecodeMismatch, DecodeOutcome,
    DecodeSnapshot, FrameMismatch,
};
use rustavm::decoder::DecoderError;
use rustavm::format::{ChromaSamplePosition, ColorRange};
use rustavm::ivf::IvfReader;

fn empty_ivf() -> Vec<u8> {
    let mut bytes = Vec::with_capacity(32);
    bytes.extend_from_slice(b"DKIF");
    bytes.extend_from_slice(&0u16.to_le_bytes());
    bytes.extend_from_slice(&32u16.to_le_bytes());
    bytes.extend_from_slice(b"AV02");
    bytes.extend_from_slice(&64u16.to_le_bytes());
    bytes.extend_from_slice(&64u16.to_le_bytes());
    bytes.extend_from_slice(&30u32.to_le_bytes());
    bytes.extend_from_slice(&1u32.to_le_bytes());
    bytes.extend_from_slice(&0u32.to_le_bytes());
    bytes.extend_from_slice(&0u32.to_le_bytes());
    bytes
}

fn ivf_with_one_frame(payload: &[u8]) -> Vec<u8> {
    let mut bytes = empty_ivf();
    bytes.extend_from_slice(&(payload.len() as u32).to_le_bytes());
    bytes.extend_from_slice(&0u64.to_le_bytes());
    bytes.extend_from_slice(payload);
    bytes
}

fn frame_obu_packet() -> Vec<u8> {
    vec![0x32, 0x00]
}

struct BitWriter {
    bytes: Vec<u8>,
    bit_offset: usize,
}

impl BitWriter {
    fn new() -> Self {
        Self { bytes: Vec::new(), bit_offset: 0 }
    }

    fn push_bits(&mut self, value: u32, count: u8) {
        for shift in (0..count).rev() {
            let bit = ((value >> shift) & 1) as u8;
            let byte_index = self.bit_offset / 8;
            let bit_index = 7 - (self.bit_offset % 8);
            if self.bytes.len() <= byte_index {
                self.bytes.push(0);
            }
            self.bytes[byte_index] |= bit << bit_index;
            self.bit_offset += 1;
        }
    }

    fn into_bytes(self) -> Vec<u8> {
        self.bytes
    }
}

fn reduced_still_sequence_header_payload(width: u32, height: u32) -> Vec<u8> {
    let width_minus_1 = width - 1;
    let height_minus_1 = height - 1;
    let width_bits = 32 - width_minus_1.leading_zeros();
    let height_bits = 32 - height_minus_1.leading_zeros();

    let mut bits = BitWriter::new();
    bits.push_bits(0, 5);
    bits.push_bits(1, 1);
    bits.push_bits(1, 1);
    bits.push_bits(0, 5);
    bits.push_bits(width_bits - 1, 4);
    bits.push_bits(height_bits - 1, 4);
    bits.push_bits(width_minus_1, width_bits as u8);
    bits.push_bits(height_minus_1, height_bits as u8);
    bits.push_bits(0, 1); // high_bitdepth => 8-bit
    bits.push_bits(0, 1); // monochrome => false
    bits.push_bits(0, 1); // color_range => studio
    bits.into_bytes()
}

fn packet_with_sequence_header_and_frame(width: u32, height: u32) -> Vec<u8> {
    let seq = reduced_still_sequence_header_payload(width, height);
    let mut packet = vec![0x0a, seq.len() as u8];
    packet.extend_from_slice(&seq);
    packet.extend_from_slice(&frame_obu_packet());
    packet
}

fn sample_frame() -> OwnedFrame {
    OwnedFrame {
        width: 2,
        height: 2,
        bit_depth: 8,
        format: None,
        format_raw: 0,
        color_range: ColorRange::Studio,
        chroma_sample_position: ChromaSamplePosition::Unspecified,
        monochrome: false,
        bytes_per_sample: 1,
        planes: [vec![1, 2, 3, 4], vec![5, 6], vec![7, 8]],
        strides: [2, 1, 1],
    }
}

#[test]
fn compare_frames_detects_byte_mismatch() {
    let left = sample_frame();
    let mut right = sample_frame();
    right.planes[1][1] = 99;
    let mismatch = compare_frames(&left, &right).unwrap_err();
    assert_eq!(
        mismatch,
        FrameMismatch::PlaneByte {
            plane: 1,
            byte_index: 1,
            left: 6,
            right: 99,
        }
    );
}

#[test]
fn compare_snapshots_detects_frame_count_mismatch() {
    let left = DecodeSnapshot {
        backend: BackendKind::Libavm,
        stream_info: None,
        frames: vec![sample_frame()],
        progress: DecodeProgress {
            backend: BackendKind::Libavm,
            packets_parsed: None,
            obus_parsed: None,
            frame_packets_seen: None,
            sequence_header: None,
            stream_info: None,
            last_frame_packet_kind: None,
            last_frame_header: None,
            last_event: None,
            recent_events: [None; 4],
        },
    };
    let right = DecodeSnapshot {
        backend: BackendKind::Rust,
        stream_info: None,
        frames: vec![],
        progress: DecodeProgress {
            backend: BackendKind::Rust,
            packets_parsed: Some(0),
            obus_parsed: Some(0),
            frame_packets_seen: Some(0),
            sequence_header: None,
            stream_info: None,
            last_frame_packet_kind: None,
            last_frame_header: None,
            last_event: None,
            recent_events: [None; 4],
        },
    };
    let mismatch = compare_snapshots(&left, &right).unwrap_err();
    assert_eq!(
        mismatch,
        DecodeMismatch::FrameCount {
            left_backend: BackendKind::Libavm,
            right_backend: BackendKind::Rust,
            left: 1,
            right: 0,
        }
    );
}

#[test]
fn compare_outcomes_accepts_identical_terminal_failures() {
    let progress = DecodeProgress {
        backend: BackendKind::Rust,
        packets_parsed: Some(1),
        obus_parsed: Some(1),
        frame_packets_seen: Some(1),
        sequence_header: None,
        stream_info: None,
        last_frame_packet_kind: None,
        last_frame_header: None,
        last_event: None,
        recent_events: [None; 4],
    };
    let left = DecodeOutcome {
        snapshot: DecodeSnapshot {
            backend: BackendKind::Rust,
            stream_info: None,
            frames: vec![],
            progress,
        },
        stopped_at_packet: Some(0),
        terminal_error: Some("decoder feature not implemented: pending".to_string()),
    };
    let right = DecodeOutcome {
        snapshot: DecodeSnapshot {
            backend: BackendKind::Rust,
            stream_info: None,
            frames: vec![],
            progress,
        },
        stopped_at_packet: Some(0),
        terminal_error: Some("decoder feature not implemented: pending".to_string()),
    };

    compare_outcomes(&left, &right).expect("matching terminal outcome");
}

#[test]
fn compare_outcomes_reports_specific_progress_field() {
    let left = DecodeOutcome {
        snapshot: DecodeSnapshot {
            backend: BackendKind::Rust,
            stream_info: None,
            frames: vec![],
            progress: DecodeProgress {
                backend: BackendKind::Rust,
                packets_parsed: Some(1),
                obus_parsed: Some(2),
                frame_packets_seen: Some(1),
                sequence_header: None,
                stream_info: None,
                last_frame_packet_kind: None,
                last_frame_header: None,
                last_event: None,
                recent_events: [None; 4],
            },
        },
        stopped_at_packet: Some(0),
        terminal_error: Some("decoder feature not implemented: pending".to_string()),
    };
    let right = DecodeOutcome {
        snapshot: DecodeSnapshot {
            backend: BackendKind::Rust,
            stream_info: None,
            frames: vec![],
            progress: DecodeProgress {
                backend: BackendKind::Rust,
                packets_parsed: Some(1),
                obus_parsed: Some(3),
                frame_packets_seen: Some(1),
                sequence_header: None,
                stream_info: None,
                last_frame_packet_kind: None,
                last_frame_header: None,
                last_event: None,
                recent_events: [None; 4],
            },
        },
        stopped_at_packet: Some(0),
        terminal_error: Some("decoder feature not implemented: pending".to_string()),
    };

    let mismatch = compare_outcomes(&left, &right).expect_err("progress mismatch");
    assert_eq!(
        mismatch,
        DecodeMismatch::ProgressField {
            left_backend: BackendKind::Rust,
            right_backend: BackendKind::Rust,
            field: "obus_parsed",
            left: "Some(2)".to_string(),
            right: "Some(3)".to_string(),
        }
    );
}

#[test]
fn compare_outcome_overlap_ignores_missing_progress_fields() {
    let left = DecodeOutcome {
        snapshot: DecodeSnapshot {
            backend: BackendKind::Rust,
            stream_info: None,
            frames: vec![],
            progress: DecodeProgress {
                backend: BackendKind::Rust,
                packets_parsed: Some(1),
                obus_parsed: Some(3),
                frame_packets_seen: Some(1),
                sequence_header: None,
                stream_info: None,
                last_frame_packet_kind: None,
                last_frame_header: None,
                last_event: None,
                recent_events: [None; 4],
            },
        },
        stopped_at_packet: Some(0),
        terminal_error: Some("decoder feature not implemented: pending".to_string()),
    };
    let right = DecodeOutcome {
        snapshot: DecodeSnapshot {
            backend: BackendKind::Libavm,
            stream_info: None,
            frames: vec![],
            progress: DecodeProgress {
                backend: BackendKind::Libavm,
                packets_parsed: Some(1),
                obus_parsed: None,
                frame_packets_seen: None,
                sequence_header: None,
                stream_info: None,
                last_frame_packet_kind: None,
                last_frame_header: None,
                last_event: None,
                recent_events: [None; 4],
            },
        },
        stopped_at_packet: Some(0),
        terminal_error: Some("decode failed".to_string()),
    };

    compare_outcome_overlap(&left, &right).expect("overlap comparison");
}

#[test]
fn rust_backend_reports_truncated_frame_packet_error() {
    let data = ivf_with_one_frame(&frame_obu_packet());
    let err = decode_ivf_snapshot(
        IvfReader::new(data).expect("ivf header"),
        BackendKind::Rust,
        None,
    )
    .expect_err("rust backend should reject truncated frame packet");
    assert!(err.message().contains("frame"));
}

#[test]
fn rust_backend_outcome_captures_terminal_progress() {
    let data = ivf_with_one_frame(&frame_obu_packet());
    let outcome = decode_ivf_outcome(
        IvfReader::new(data).expect("ivf header"),
        BackendKind::Rust,
        None,
    )
    .expect("decode outcome");
    assert_eq!(outcome.snapshot.backend, BackendKind::Rust);
    assert_eq!(outcome.stopped_at_packet, Some(0));
    assert!(
        outcome
            .terminal_error
            .as_deref()
            .expect("terminal error")
            .contains("frame")
    );
    assert_eq!(outcome.snapshot.progress.packets_parsed, Some(1));
}

#[test]
fn rust_backend_outcome_keeps_stream_info_on_same_packet_failure() {
    let data = ivf_with_one_frame(&packet_with_sequence_header_and_frame(64, 48));
    let outcome = decode_ivf_outcome(
        IvfReader::new(data).expect("ivf header"),
        BackendKind::Rust,
        None,
    )
    .expect("decode outcome");
    let info = outcome.snapshot.stream_info.expect("stream info");
    assert_eq!(info.width, 64);
    assert_eq!(info.height, 48);
    assert_eq!(outcome.stopped_at_packet, Some(0));
    assert_eq!(outcome.snapshot.progress.stream_info, Some(info));
    assert_eq!(outcome.snapshot.progress.packets_parsed, Some(1));
}

#[test]
fn compare_ivf_file_outcomes_accepts_identical_terminal_failures() {
    let data = ivf_with_one_frame(&frame_obu_packet());
    let result = compare_ivf_file_outcomes(&data, BackendKind::Rust, BackendKind::Rust, None);
    let (left, right) = result.expect("compare outcomes");
    assert_eq!(left.stopped_at_packet, Some(0));
    assert_eq!(right.stopped_at_packet, Some(0));
    assert_eq!(left.snapshot.progress, right.snapshot.progress);
}

#[test]
fn rust_backend_snapshot_of_empty_stream_has_no_frames() {
    let left = decode_ivf_snapshot(IvfReader::new(empty_ivf()).unwrap(), BackendKind::Rust, None).unwrap();
    let right = decode_ivf_snapshot(IvfReader::new(empty_ivf()).unwrap(), BackendKind::Rust, Some(2)).unwrap();
    compare_snapshots(&left, &right).expect("identical snapshots");
    assert_eq!(left.progress.backend, BackendKind::Rust);
    assert_eq!(left.progress.packets_parsed, Some(0));
    assert_eq!(left.stream_info, None);
    assert!(left.frames.is_empty());
}

#[test]
fn libavm_snapshots_are_unavailable() {
    let err = decode_ivf_snapshot(IvfReader::new(empty_ivf()).unwrap(), BackendKind::Libavm, None).unwrap_err();
    assert_eq!(err, DecoderError::BackendUnavailable(BackendKind::Libavm));
    match compare_ivf_file(&empty_ivf(), BackendKind::Libavm, BackendKind::Libavm, None) {
        Err(CompareError::Decoder(e)) => assert_eq!(e, DecoderError::BackendUnavailable(BackendKind::Libavm)),
        other => panic!("unexpected result: {:?}", other.map(|_| ())),
    }
}

#[test]
fn compare_ivf_file_rejects_a_bad_header() {
    match compare_ivf_file(b"RIFF0000", BackendKind::Rust, BackendKind::Rust, None) {
        Err(CompareError::Io(e)) => assert_eq!(e.message, "Not an IVF file"),
        other => panic!("unexpected result: {:?}", other.map(|_| ())),
    }
}

#[test]
fn outcome_comparison_reports_different_stop_packets() {
    let ok = decode_ivf_outcome(IvfReader::new(empty_ivf()).unwrap(), BackendKind::Rust, None).unwrap();
    let failed = decode_ivf_outcome(IvfReader::new(ivf_with_one_frame(&frame_obu_packet())).unwrap(), BackendKind::Rust, None).unwrap();
    assert_eq!(ok.stopped_at_packet, None);
    assert_eq!(ok.terminal_error, None);
    let mismatch = compare_outcomes(&ok, &failed).unwrap_err();
    match &mismatch {
        DecodeMismatch::TerminalState { left_packet, right_packet, left_error, .. } => {
            assert_eq!(*left_packet, None);
            assert_eq!(*right_packet, Some(0));
            assert_eq!(*left_error, None);
        }
        other => panic!("unexpected mismatch: {other:?}"),
    }
    assert!(mismatch.message().starts_with("terminal state mismatch between rust and rust: left_packet=None right_packet=Some(0) left_error=None right_error=Some(\""));
}

#[test]
fn frame_mismatch_messages_follow_the_report_format() {
    let byte = FrameMismatch::PlaneByte { plane: 1, byte_index: 1, left: 6, right: 99 };
    assert_eq!(byte.message(), "plane 1 differs at byte 1: left=0x06 right=0x63");
    let layout = FrameMismatch::PlaneLayout { plane: 2, left_len: Some(4), right_len: None, left_stride: 2, right_stride: 0 };
    assert_eq!(layout.message(), "plane 2 layout differs: left_len=Some(4) right_len=None left_stride=2 right_stride=0");
    let meta = FrameMismatch::Metadata { field: "width", left: "2".to_string(), right: "3".to_string() };
    assert_eq!(meta.message(), "metadata field `width` differs: left=2 right=3");
    let framed = DecodeMismatch::Frame { frame_index: 4, mismatch: byte };
    assert_eq!(framed.message(), "frame 4 mismatch: plane 1 differs at byte 1: left=0x06 right=0x63");
}

#[test]
fn compare_frames_reports_metadata_before_planes() {
    let left = sample_frame();
    let mut right = sample_frame();
    right.height = 3;
    right.planes[0][0] = 0;
    assert_eq!(
        compare_frames(&left, &right).unwrap_err(),
        FrameMismatch::Metadata { field: "height", left: "2".to_string(), right: "3".to_string() }
    );
    let mut right = sample_frame();
    right.format = Some(rustavm::format::PixelFormat::I420);
    assert_eq!(
        compare_frames(&left, &right).unwrap_err(),
        FrameMismatch::Metadata { field: "format", left: "None".to_string(), right: "Some(I420)".to_string() }
    );
}

#[test]
fn compare_frames_reports_plane_layout() {
    let left = sample_frame();
    let mut right = sample_frame();
    right.planes[2] = vec![];
    assert_eq!(
        compare_frames(&left, &right).unwrap_err(),
        FrameMismatch::PlaneLayout { plane: 2, left_len: Some(2), right_len: None, left_stride: 1, right_stride: 1 }
    );
    let mut right = sample_frame();
    right.strides[0] = 4;
    assert_eq!(
        compare_frames(&left, &right).unwrap_err(),
        FrameMismatch::PlaneLayout { plane: 0, left_len: Some(4), right_len: Some(4), left_stride: 2, right_stride: 4 }
    );
    assert_eq!(compare_frames(&left, &sample_frame()), Ok(()));
}

#[test]
fn stream_info_mismatch_is_reported_first() {
    let info = StreamInfo { width: 64, height: 48, is_kf: true, number_tlayers: 1, number_mlayers: 1, number_xlayers: 1 };
    let left = DecodeSnapshot { backend: BackendKind::Rust, stream_info: Some(info), frames: vec![], progress: empty_progress() };
    let right = DecodeSnapshot { backend: BackendKind::Rust, stream_info: None, frames: vec![sample_frame()], progress: empty_progress() };
    let mismatch = compare_snapshots(&left, &right).unwrap_err();
    assert_eq!(
        mismatch.message(),
        "stream info mismatch between rust and rust: left=Some(StreamInfo { width: 64, height: 48, is_kf: true, \
         number_tlayers: 1, number_mlayers: 1, number_xlayers: 1 }) right=None"
    );
    let overlap_left = DecodeOutcome { snapshot: left, stopped_at_packet: None, terminal_error: None };
    let overlap_right = DecodeOutcome { snapshot: right, stopped_at_packet: Some(3), terminal_error: None };
    compare_outcome_overlap(&overlap_left, &overlap_right).expect("stream info on one side only");
}

fn empty_progress() -> DecodeProgress {
    DecodeProgress {
        backend: BackendKind::Rust,
        packets_parsed: Some(0),
        obus_parsed: Some(0),
        frame_packets_seen: Some(0),
        sequence_header: None,
        stream_info: None,
        last_frame_packet_kind: None,
        last_frame_header: None,
        last_event: None,
        recent_events: [None; 4],
    }
}

#[test]
fn progress_field_mismatch_names_the_field_and_values() {
    let mut right_progress = empty_progress();
    right_progress.backend = BackendKind::Libavm;
    let left = DecodeOutcome {
        snapshot: DecodeSnapshot { backend: BackendKind::Rust, stream_info: None, frames: vec![], progress: empty_progress() },
        stopped_at_packet: None,
        terminal_error: None,
    };
    let right = DecodeOutcome {
        snapshot: DecodeSnapshot { backend: BackendKind::Rust, stream_info: None, frames: vec![], progress: right_progress },
        stopped_at_packet: None,
        terminal_error: None,
    };
    let mismatch = compare_outcomes(&left, &right).unwrap_err();
    assert_eq!(
        mismatch.message(),
        "progress field `backend` mismatch between rust and rust: left=Rust right=Libavm"
    );
}

#[test]
fn compare_ivf_file_accepts_the_rust_backend_against_itself() {
    let seq = reduced_still_sequence_header_payload(32, 16);
    let mut packet = vec![0x0a, seq.len() as u8];
    packet.extend_from_slice(&seq);
    packet.extend_from_slice(&[0x22, 0x02, 24, 0x00]);
    let data = ivf_with_one_frame(&packet);
    let (left, right) = compare_ivf_file(&data, BackendKind::Rust, BackendKind::Rust, Some(2)).expect("compare");
    assert_eq!(left.frames.len(), 1);
    assert_eq!(left.frames, right.frames);
    assert_eq!(left.stream_info, right.stream_info);
}
