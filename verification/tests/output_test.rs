use rustavm::backend::BackendKind;
use rustavm::decoder::{Decoder, Frame, Image};
use rustavm::format::IMG_FMT_I420;
use rustavm::output::{digest_hex, write_ready_frames, OutputStream};

/// A 4x2 8-bit 4:2:0 image: luma rows 0..4 and 10..14 in a stride of 6, chroma 2x1 in a stride of 3.
fn small_image() -> Image {
    Image {
        fmt: IMG_FMT_I420,
        monochrome: false,
        csp: 0,
        range: 0,
        w: 4,
        h: 2,
        bit_depth: 8,
        d_w: 4,
        d_h: 2,
        x_chroma_shift: 1,
        y_chroma_shift: 1,
        planes: [
            Some(vec![0, 1, 2, 3, 99, 99, 10, 11, 12, 13, 99, 99]),
            Some(vec![20, 21, 99]),
            Some(vec![30, 31, 99]),
        ],
        stride: [6, 3, 3],
        sz: 0,
    }
}

#[test]
fn an_empty_output_stream_has_the_md5_of_nothing() {
    let stream = OutputStream::new(30, 1, false);
    assert!(stream.bytes().is_empty());
    assert_eq!(digest_hex(&stream.md5()), "d41d8cd98f00b204e9800998ecf8427e");
}

#[test]
fn y4m_output_has_the_header_the_frame_marker_and_the_cropped_samples() {
    let img = small_image();
    let frame = Frame::from_raw_for_test(&img);
    let mut stream = OutputStream::new(30, 1, false);
    let first = stream.put_frame(&frame, true);
    let second = stream.put_frame(&frame, false);
    let mut expected = b"YUV4MPEG2 W4 H2 F30:1 Ip C420mpeg2 XYSCSS=420MPEG2\nFRAME\n".to_vec();
    expected.extend_from_slice(&[0, 1, 2, 3, 10, 11, 12, 13, 20, 21, 30, 31]);
    assert_eq!(first, expected);
    let mut expected_second = b"FRAME\n".to_vec();
    expected_second.extend_from_slice(&[0, 1, 2, 3, 10, 11, 12, 13, 20, 21, 30, 31]);
    assert_eq!(second, expected_second);
    let mut all = first.clone();
    all.extend_from_slice(&second);
    assert_eq!(stream.bytes(), &all[..]);
    let digest = stream.md5();
    assert_eq!(digest, md5::compute(&all).0);
    assert_ne!(digest_hex(&digest), digest_hex(&OutputStream::new(30, 1, false).md5()));
}

#[test]
fn raw_video_output_has_only_the_samples() {
    let img = small_image();
    let frame = Frame::from_raw_for_test(&img);
    let mut stream = OutputStream::new(30, 1, true);
    let chunk = stream.put_frame(&frame, true);
    assert_eq!(chunk, vec![0, 1, 2, 3, 10, 11, 12, 13, 20, 21, 30, 31]);
    assert_eq!(format!("{:x}", md5::compute(&chunk)), digest_hex(&stream.md5()));
}

#[test]
fn digest_hex_prints_two_lowercase_digits_per_byte() {
    let d = [0x00, 0x0f, 0xa0, 0xff, 1, 2, 3, 4, 5, 6, 7, 8, 9, 10, 11, 12];
    assert_eq!(digest_hex(&d), "000fa0ff0102030405060708090a0b0c");
}

/// A reduced still-picture sequence header for a `width` x `height` 8-bit 4:2:0 stream.
fn still_sequence_header(width: u32, height: u32) -> Vec<u8> {
    let mut bits: Vec<bool> = Vec::new();
    let mut push = |value: u32, count: u32| {
        for i in (0..count).rev() {
            bits.push((value >> i) & 1 == 1);
        }
    };
    let w1 = width - 1;
    let h1 = height - 1;
    let wb = 32 - w1.leading_zeros();
    let hb = 32 - h1.leading_zeros();
    push(0, 5);
    push(1, 1);
    push(1, 1);
    push(0, 5);
    push(wb - 1, 4);
    push(hb - 1, 4);
    push(w1, wb);
    push(h1, hb);
    push(0, 1);
    push(0, 1);
    push(0, 1);
    let mut bytes = vec![0u8; (bits.len() + 7) / 8];
    for (i, b) in bits.iter().enumerate() {
        if *b {
            bytes[i / 8] |= 0x80 >> (i % 8);
        }
    }
    bytes
}

#[test]
fn decoded_frames_are_written_once_with_the_header_first() {
    let seq = still_sequence_header(32, 16);
    let mut packet = vec![0x0a, seq.len() as u8];
    packet.extend_from_slice(&seq);
    packet.extend_from_slice(&[0x22, 0x02, 24, 0x00]);
    let mut decoder = Decoder::builder().backend(BackendKind::Rust).build().unwrap();
    decoder.decode(&packet).unwrap();
    let mut stream = OutputStream::new(25, 1, false);
    let (bytes, summaries) = write_ready_frames(&mut decoder, &mut stream, true);
    assert_eq!(summaries.len(), 1);
    assert_eq!((summaries[0].width, summaries[0].height, summaries[0].bit_depth), (32, 16, 8));
    assert!(bytes.starts_with(b"YUV4MPEG2 W32 H16 F25:1 Ip "));
    let header_end = bytes.iter().position(|&b| b == b'\n').unwrap() + 1;
    assert_eq!(&bytes[header_end..header_end + 6], b"FRAME\n");
    assert_eq!(bytes.len(), header_end + 6 + 32 * 16 + 2 * 16 * 8);
    assert!(bytes[header_end + 6..].iter().all(|&b| b == 128));
    assert_eq!(stream.bytes(), &bytes[..]);
    assert_eq!(stream.md5(), md5::compute(&bytes).0);
    let (more, none) = write_ready_frames(&mut decoder, &mut stream, false);
    assert!(more.is_empty() && none.is_empty());
}
