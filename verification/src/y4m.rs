//! Y4M output of decoded frames: the stream header line and the bytes written for each frame.
use vstd::prelude::*;
use crate::decoder::{Frame, Image};
use crate::format::{ChromaSamplePosition, ColorRange, IMG_FMT_I422, IMG_FMT_I42216, IMG_FMT_I444, IMG_FMT_I44416};
use crate::text::{decimal_u64, spec_decimal};

verus! {

/// The Y4M colour-space tag of a frame: by bit depth for monochrome frames; by format and
/// chroma siting for 8-bit frames; by format with the bit depth spelled out otherwise.
pub open spec fn spec_y4m_colorspace(monochrome: bool, bit_depth: u32, fmt: u32, csp: ChromaSamplePosition) -> Seq<char> {
    if monochrome {
        if bit_depth == 9 {
            "Cmono9"@
        } else if bit_depth == 10 {
            "Cmono10"@
        } else if bit_depth == 12 {
            "Cmono12"@
        } else if bit_depth == 16 {
            "Cmono16"@
        } else {
            "Cmono"@
        }
    } else if bit_depth == 8 {
        if fmt == IMG_FMT_I444 {
            "C444"@
        } else if fmt == IMG_FMT_I422 {
            "C422"@
        } else {
            match csp {
                ChromaSamplePosition::Left => "C420mpeg2 XYSCSS=420MPEG2"@,
                ChromaSamplePosition::TopLeft => "C420"@,
                _ => "C420jpeg"@,
            }
        }
    } else {
        let d = spec_decimal(bit_depth as nat);
        if fmt == IMG_FMT_I44416 {
            "C444p"@ + d + " XYSCSS=444P"@ + d
        } else if fmt == IMG_FMT_I42216 {
            "C422p"@ + d + " XYSCSS=422P"@ + d
        } else {
            "C420p"@ + d + " XYSCSS=420P"@ + d
        }
    }
}

/// The Y4M colour-space tag of a frame.
pub fn y4m_colorspace(img: &Frame) -> (s: String)
    ensures
        s@ == spec_y4m_colorspace(img.image().monochrome, img.image().bit_depth, img.image().fmt,
            ChromaSamplePosition::spec_from_raw(img.image().csp)),
{
    let depth = img.bit_depth();
    if img.monochrome() {
        let t: &str = if depth == 9 {
            "Cmono9"
        } else if depth == 10 {
            "Cmono10"
        } else if depth == 12 {
            "Cmono12"
        } else if depth == 16 {
            "Cmono16"
        } else {
            "Cmono"
        };
        return String::from_str(t);
    }
    let fmt = img.format_raw();
    if depth == 8 {
        let t: &str = if fmt == IMG_FMT_I444 {
            "C444"
        } else if fmt == IMG_FMT_I422 {
            "C422"
        } else {
            match img.chroma_sample_position() {
                ChromaSamplePosition::Left => "C420mpeg2 XYSCSS=420MPEG2",
                ChromaSamplePosition::TopLeft => "C420",
                _ => "C420jpeg",
            }
        };
        return String::from_str(t);
    }
    let (head, tail): (&str, &str) = if fmt == IMG_FMT_I44416 {
        ("C444p", " XYSCSS=444P")
    } else if fmt == IMG_FMT_I42216 {
        ("C422p", " XYSCSS=422P")
    } else {
        ("C420p", " XYSCSS=420P")
    };
    let d = decimal_u64(depth as u64);
    let mut s = String::from_str(head);
    s.append(d.as_str());
    s.append(tail);
    s.append(d.as_str());
    s
}

/// The Y4M stream header line for a first frame `img` at frame rate `num / den`.
pub open spec fn spec_y4m_header(img: Image, num: u32, den: u32) -> Seq<char> {
    "YUV4MPEG2 W"@ + spec_decimal(img.d_w as nat) + " H"@ + spec_decimal(img.d_h as nat) + " F"@ + spec_decimal(num as nat)
        + ":"@ + spec_decimal(den as nat) + " Ip "@
        + spec_y4m_colorspace(img.monochrome, img.bit_depth, img.fmt, ChromaSamplePosition::spec_from_raw(img.csp))
        + (if ColorRange::spec_from_raw(img.range) == ColorRange::Full { " XCOLORRANGE=FULL"@ } else { ""@ }) + "\n"@
}

/// The Y4M stream header line for a first frame `img` at frame rate `num / den`.
pub fn y4m_header(img: &Frame, num: u32, den: u32) -> (s: String)
    ensures
        s@ == spec_y4m_header(img.image(), num, den),
{
    let mut s = String::from_str("YUV4MPEG2 W");
    s.append(decimal_u64(img.width() as u64).as_str());
    s.append(" H");
    s.append(decimal_u64(img.height() as u64).as_str());
    s.append(" F");
    s.append(decimal_u64(num as u64).as_str());
    s.append(":");
    s.append(decimal_u64(den as u64).as_str());
    s.append(" Ip ");
    s.append(y4m_colorspace(img).as_str());
    let range: &str = if img.color_range() == ColorRange::Full {
        " XCOLORRANGE=FULL"
    } else {
        ""
    };
    s.append(range);
    s.append("\n");
    s
}

/// The header written before each frame's samples in a Y4M stream.
pub open spec fn spec_y4m_frame_marker() -> Seq<char> {
    "FRAME\n"@
}

/// The header written before each frame's samples in a Y4M stream.
pub fn y4m_frame_marker() -> (s: &'static str)
    ensures
        s@ == spec_y4m_frame_marker(),
{
    "FRAME\n"
}

/// Whether the samples of `img` are 8-bit values held in 16-bit containers, written one byte each.
pub open spec fn spec_downshift(img: Image) -> bool {
    img.spec_bytes_per_sample() == 2 && img.bit_depth == 8
}

/// The bytes written for one stored row: as stored, or the low byte of each of the `w`
/// samples when the samples are downshifted.
pub open spec fn spec_out_row(row: Seq<u8>, w: int, downshift: bool) -> Seq<u8> {
    if downshift {
        Seq::new(w as nat, |x: int| if 2 * x < row.len() { row[2 * x] } else { 0u8 })
    } else {
        row
    }
}

/// The bytes written for the first `k` rows of plane `i`.
pub open spec fn spec_plane_out(img: Image, i: int, k: nat) -> Seq<u8>
    decreases k,
{
    if k == 0 {
        Seq::empty()
    } else {
        let p = img.spec_plane(i).unwrap();
        let stride = img.stride[i] as int;
        let r = (k - 1) as int;
        spec_plane_out(img, i, (k - 1) as nat)
            + spec_out_row(p.subrange(r * stride, r * stride + img.spec_row_bytes(i)), img.spec_plane_width(i), spec_downshift(img))
    }
}

/// The bytes written for plane `i`: its rows' output when the plane is valid, nothing otherwise.
pub open spec fn spec_plane_output(img: Image, i: int) -> Seq<u8> {
    if img.spec_plane(i) is Some {
        spec_plane_out(img, i, img.spec_height_for_plane(i) as nat)
    } else {
        Seq::empty()
    }
}

/// The sample bytes written for a frame: its three planes in order.
pub open spec fn spec_frame_output(img: Image) -> Seq<u8> {
    spec_plane_output(img, 0) + spec_plane_output(img, 1) + spec_plane_output(img, 2)
}

/// Append the bytes written for row `row` of `w` samples.
fn push_row(out: &mut Vec<u8>, row: &[u8], w: usize, downshift: bool)
    ensures
        final(out)@ == old(out)@ + spec_out_row(row@, w as int, downshift),
{
    if downshift {
        let mut x: usize = 0;
        while x < w
            invariant
                x <= w,
                out@ == old(out)@ + Seq::new(x as nat, |j: int| if 2 * j < row@.len() { row@[2 * j] } else { 0u8 }),
            decreases w - x,
        {
            let mut b: u8 = 0;
            if x < row.len() && x < row.len() - x {
                b = row[2 * x];
            }
            assert(b == (if 2 * x < row@.len() { row@[2 * x as int] } else { 0u8 }));
            let ghost prev = out@;
            out.push(b);
            proof {
                let f = |j: int| if 2 * j < row@.len() { row@[2 * j] } else { 0u8 };
                assert(Seq::new((x + 1) as nat, f) =~= Seq::new(x as nat, f).push(f(x as int)));
                assert(out@ =~= old(out)@ + Seq::new((x + 1) as nat, f));
            }
            x = x + 1;
        }
    } else {
        let mut x: usize = 0;
        while x < row.len()
            invariant
                x <= row@.len(),
                out@ == old(out)@ + row@.subrange(0, x as int),
            decreases row@.len() - x,
        {
            out.push(row[x]);
            proof {
                assert(row@.subrange(0, x + 1) =~= row@.subrange(0, x as int).push(row@[x as int]));
            }
            x = x + 1;
        }
        proof {
            assert(row@.subrange(0, row@.len() as int) =~= row@);
        }
    }
}

/// The sample bytes written for a frame: each valid plane's rows, cropped to the active row
/// bytes, with 8-bit samples in 16-bit containers reduced to their low byte.
pub fn frame_output(img: &Frame) -> (out: Vec<u8>)
    ensures
        out@ == spec_frame_output(img.image()),
{
    let downshift = img.bytes_per_sample() == 2 && img.bit_depth() == 8;
    let mut out: Vec<u8> = Vec::new();
    let mut i: usize = 0;
    while i < 3
        invariant
            i <= 3,
            downshift == spec_downshift(img.image()),
            out@ == (if i == 0 { Seq::empty() } else if i == 1 { spec_plane_output(img.image(), 0) } else if i == 2 {
                spec_plane_output(img.image(), 0) + spec_plane_output(img.image(), 1) } else { spec_frame_output(img.image()) }),
        decreases 3 - i,
    {
        let ghost before = out@;
        let w = img.plane_width(i);
        match img.rows(i) {
            None => {
                proof {
                    assert(out@ =~= before + spec_plane_output(img.image(), i as int));
                }
            },
            Some(rows) => {
                let ghost p = img.image().spec_plane(i as int).unwrap();
                let mut k: usize = 0;
                while k < rows.len()
                    invariant
                        k <= rows@.len(),
                        rows@.len() == img.image().spec_height_for_plane(i as int),
                        img.image().spec_plane(i as int) == Some(p),
                        w == img.image().spec_plane_width(i as int),
                        downshift == spec_downshift(img.image()),
                        forall|j: int| 0 <= j < rows@.len() ==> (#[trigger] rows@[j])@ == p.subrange(
                            j * img.image().stride[i as int], j * img.image().stride[i as int] + img.image().spec_row_bytes(i as int)),
                        out@ == before + spec_plane_out(img.image(), i as int, k as nat),
                    decreases rows@.len() - k,
                {
                    push_row(&mut out, rows[k], w, downshift);
                    proof {
                        assert(((k + 1) as nat - 1) as nat == k as nat);
                        assert(out@ =~= before + spec_plane_out(img.image(), i as int, (k + 1) as nat));
                    }
                    k = k + 1;
                }
            },
        }
        i = i + 1;
    }
    out
}

} // verus!
