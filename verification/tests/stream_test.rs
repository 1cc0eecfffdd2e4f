use rustavm::backend::BackendKind;
use rustavm::decoder::DecoderError;
use rustavm::ivf::{IvfErrorKind, IvfReader};
use rustavm::stream::{decode_ivf, decode_ivf_reader, decode_ivf_with_backend, StreamError};

fn ivf_header() -> Vec<u8> {
    let mut bytes = Vec::new();
    bytes.extend_from_slice(b"DKIF");
    bytes.extend_from_slice(&0u16.to_le_bytes());
    bytes.extend_from_slice(&32u16.to_le_bytes());
    bytes.extend_from_slice(b"AV02");
    bytes.extend_from_slice(&64u16.to_le_bytes());
    bytes.extend_from_slice(&48u16.to_le_bytes());
    bytes.extend_from_slice(&30u32.to_le_bytes());
    bytes.extend_from_slice(&1u32.to_le_bytes());
    bytes.extend_from_slice(&0u32.to_le_bytes());
    bytes.extend_from_slice(&0u32.to_le_bytes());
    bytes
}

fn with_packet(mut bytes: Vec<u8>, payload: &[u8]) -> Vec<u8> {
    bytes.extend_from_slice(&(payload.len() as u32).to_le_bytes());
    bytes.extend_from_slice(&0u64.to_le_bytes());
    bytes.extend_from_slice(payload);
    bytes
}

#[test]
fn empty_stream_decodes_to_no_frames() {
    let frames = decode_ivf_with_backend(IvfReader::new(ivf_header()).unwrap(), BackendKind::Rust, None).unwrap();
    assert!(frames.is_empty());
}

#[test]
fn temporal_delimiters_are_accepted_without_frames() {
    let data = with_packet(with_packet(ivf_header(), &[0x12, 0x00]), &[0x12, 0x00]);
    let frames = decode_ivf_with_backend(IvfReader::new(data).unwrap(), BackendKind::Rust, Some(2)).unwrap();
    assert!(frames.is_empty());
}

#[test]
fn truncated_frame_packet_stops_the_stream_with_a_decoder_error() {
    let data = with_packet(ivf_header(), &[0x32, 0x00]);
    match decode_ivf_with_backend(IvfReader::new(data).unwrap(), BackendKind::Rust, None) {
        Err(StreamError::Decoder(e)) => assert!(e.message().contains("frame")),
        other => panic!("unexpected result: {other:?}"),
    }
}

#[test]
fn a_truncated_record_after_good_packets_is_a_read_error() {
    let mut data = with_packet(ivf_header(), &[0x12, 0x00]);
    data.extend_from_slice(&9u32.to_le_bytes());
    data.extend_from_slice(&[0u8; 3]);
    match decode_ivf_with_backend(IvfReader::new(data).unwrap(), BackendKind::Rust, None) {
        Err(StreamError::Ivf(e)) => {
            assert_eq!(e.kind, IvfErrorKind::UnexpectedEof);
            let err = StreamError::Ivf(e);
            assert_eq!(err.message(), "I/O error: failed to fill whole buffer");
        }
        other => panic!("unexpected result: {other:?}"),
    }
}

#[test]
fn default_configuration_needs_the_unavailable_backend() {
    let err = decode_ivf(IvfReader::new(ivf_header()).unwrap()).unwrap_err();
    assert_eq!(err, StreamError::Decoder(DecoderError::BackendUnavailable(BackendKind::Libavm)));
    assert_eq!(err.message(), "decoder error: decoder backend `libavm` is not available in this build");
    match decode_ivf_reader(b"nope".to_vec()) {
        Err(StreamError::Ivf(e)) => assert_eq!(e.message, "Not an IVF file"),
        other => panic!("unexpected result: {other:?}"),
    }
}

struct BitWriter {
    bytes: Vec<u8>,
    bit_offset: usize,
}

impl BitWriter {
    fn new() -> Self {
        Self { bytes: Vec::new(), bit_offset: 0 }
    }

    fn push_bits(&mut self, value: u32, count: u8) {
        for shift in (0..count).rev() {
            let bit = ((value >> shift) & 1) as u8;
            let byte_index = self.bit_offset / 8;
            let bit_index = 7 - (self.bit_offset % 8);
            if self.bytes.len() <= byte_index {
                self.bytes.push(0);
            }
            self.bytes[byte_index] |= bit << bit_index;
            self.bit_offset += 1;
        }
    }
}

fn reduced_still_sequence_header(width: u32, height: u32) -> Vec<u8> {
    let width_minus_1 = width - 1;
    let height_minus_1 = height - 1;
    let width_bits = 32 - width_minus_1.leading_zeros();
    let height_bits = 32 - height_minus_1.leading_zeros();
    let mut bits = BitWriter::new();
    bits.push_bits(0, 5);
    bits.push_bits(1, 1);
    bits.push_bits(1, 1);
    bits.push_bits(0, 5);
    bits.push_bits(width_bits - 1, 4);
    bits.push_bits(height_bits - 1, 4);
    bits.push_bits(width_minus_1, width_bits as u8);
    bits.push_bits(height_minus_1, height_bits as u8);
    bits.push_bits(0, 1);
    bits.push_bits(0, 1);
    bits.push_bits(0, 1);
    bits.bytes
}

/// A packet holding a reduced still-picture sequence header and a frame OBU whose frame header
/// sets the quantizer index and whose tile data is a single zero byte.
fn still_frame_packet(width: u32, height: u32) -> Vec<u8> {
    let seq = reduced_still_sequence_header(width, height);
    let mut packet = vec![0x0a, seq.len() as u8];
    packet.extend_from_slice(&seq);
    packet.extend_from_slice(&[0x22, 0x02, 24, 0x00]);
    packet
}

#[test]
fn a_still_frame_decodes_to_a_mid_gray_picture() {
    let data = with_packet(ivf_header(), &still_frame_packet(64, 48));
    let frames = decode_ivf_with_backend(IvfReader::new(data).unwrap(), BackendKind::Rust, None).unwrap();
    assert_eq!(frames.len(), 1);
    let frame = &frames[0];
    assert_eq!((frame.width, frame.height, frame.bit_depth), (64, 48, 8));
    assert_eq!(frame.format, Some(rustavm::format::PixelFormat::I420));
    assert_eq!(frame.strides, [64, 32, 32]);
    assert_eq!(frame.planes[0].len(), 64 * 48);
    assert_eq!(frame.planes[1].len(), 32 * 24);
    assert!(frame.planes.iter().all(|p| p.iter().all(|&b| b == 128)));
}

#[test]
fn decoding_the_same_stream_twice_gives_the_same_frames() {
    let data = with_packet(ivf_header(), &still_frame_packet(32, 16));
    let first = decode_ivf_with_backend(IvfReader::new(data.clone()).unwrap(), BackendKind::Rust, None).unwrap();
    let second = decode_ivf_with_backend(IvfReader::new(data).unwrap(), BackendKind::Rust, Some(4)).unwrap();
    assert_eq!(first.len(), 1);
    assert_eq!(first, second);
}

