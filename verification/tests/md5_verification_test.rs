use rustavm::decoder::{Frame, Image};
use std::io::{BufRead, BufReader, Cursor};
use std::path::PathBuf;

/// Directories that may hold reference vectors next to the crate.
fn test_data_dir() -> Option<PathBuf> {
    for candidate in &["../testdata", "./testdata", "../avm/out/testdata"] {
        let pb = PathBuf::from(candidate);
        if pb.is_dir() {
            return Some(pb);
        }
    }
    None
}

fn find_test_file(filename: &str) -> Option<PathBuf> {
    let path = test_data_dir()?.join(filename);
    if path.exists() { Some(path) } else { None }
}

/// Per-frame MD5 over the active width of each row, one byte per sample for
/// 8-bit content stored in 16-bit containers.
fn frame_md5(frame: &Frame) -> String {
    let needs_downshift = frame.bit_depth() == 8 && frame.bytes_per_sample() == 2;
    let mut ctx = md5::Context::new();
    for plane_idx in 0..3_usize {
        let Some(rows) = frame.rows(plane_idx) else { continue };
        let w = frame.plane_width(plane_idx);
        let mut row_buf = if needs_downshift { vec![0u8; w] } else { Vec::new() };
        for row in rows {
            if needs_downshift {
                for (x, dst) in row_buf.iter_mut().enumerate() {
                    *dst = row.get(x * 2).copied().unwrap_or(0);
                }
                ctx.consume(&row_buf);
            } else {
                ctx.consume(row);
            }
        }
    }
    format!("{:x}", ctx.compute())
}

#[test]
fn test_md5_infrastructure_compiles() {
    let input = b"a1b2c3d4e5f6a7b8c9d0e1f2a3b4c5d6  img-16x16-0001.i420\n\
                  deadbeefdeadbeefdeadbeefdeadbeef  img-16x16-0002.i420\n";
    let mut md5s = Vec::new();
    for line in BufReader::new(Cursor::new(input)).lines() {
        let line = line.unwrap();
        let line = line.trim().to_string();
        if !line.is_empty() {
            md5s.push(line.split_whitespace().next().unwrap().to_string());
        }
    }
    assert_eq!(md5s.len(), 2);
    assert_eq!(md5s[0], "a1b2c3d4e5f6a7b8c9d0e1f2a3b4c5d6");
    assert_eq!(md5s[1], "deadbeefdeadbeefdeadbeefdeadbeef");
}

#[test]
fn test_find_missing_file_returns_none() {
    let result = find_test_file("__nonexistent_test_vector_xyz__.ivf");
    assert!(result.is_none());
}

#[test]
fn frame_md5_hashes_only_the_active_width() {
    // A 2x2 monochrome 8-bit frame whose stride carries two padding bytes.
    let img = Image {
        fmt: rustavm::format::IMG_FMT_I420,
        w: 2,
        h: 2,
        bit_depth: 8,
        d_w: 2,
        d_h: 2,
        x_chroma_shift: 1,
        y_chroma_shift: 1,
        monochrome: true,
        csp: rustavm::format::CSP_UNSPECIFIED,
        range: rustavm::format::CR_STUDIO_RANGE,
        planes: [Some(vec![1, 2, 9, 9, 3, 4, 9, 9]), None, None],
        stride: [4, 0, 0],
        sz: 8,
    };
    let frame = Frame::from_raw_for_test(&img);
    let expected = format!("{:x}", md5::compute([1u8, 2, 3, 4]));
    assert_eq!(frame_md5(&frame), expected);
}
