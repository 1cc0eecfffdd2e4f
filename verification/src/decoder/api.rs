//! The decoder's public types: errors, progress records, and decoded frames.
use vstd::prelude::*;
use crate::backend::BackendKind;
use crate::bitstream::{FrameHeaderInfo, FramePacketKind, SequenceHeader};
use crate::format::{ChromaSamplePosition, ColorRange, PixelFormat, PlaneView, IMG_FMT_HIGHBITDEPTH};
use crate::text::{decimal_u64, spec_decimal};
use crate::ivf::IvfError;
use crate::backend::rust::{RustDecoder, spec_decode_step, spec_info_tracks_header, spec_stream_info, lemma_decode_tracks_header};

verus! {

/// One decoder-interface error code.
#[derive(Debug, Clone, Copy, PartialEq, Eq, Hash, Structural)]
#[non_exhaustive]
pub enum ErrorKind {
    Generic,
    OutOfMemory,
    AbiMismatch,
    Incapable,
    UnsupportedBitstream,
    UnsupportedFeature,
    CorruptFrame,
    InvalidParam,
    Other(u32),
}

/// Raw decoder-interface status codes.
pub const CODEC_OK: u32 = 0;
pub const CODEC_ERROR: u32 = 1;
pub const CODEC_MEM_ERROR: u32 = 2;
pub const CODEC_ABI_MISMATCH: u32 = 3;
pub const CODEC_INCAPABLE: u32 = 4;
pub const CODEC_UNSUP_BITSTREAM: u32 = 5;
pub const CODEC_UNSUP_FEATURE: u32 = 6;
pub const CODEC_CORRUPT_FRAME: u32 = 7;
pub const CODEC_INVALID_PARAM: u32 = 8;

impl ErrorKind {
    pub open spec fn spec_from_raw(code: u32) -> Option<ErrorKind> {
        if code == CODEC_OK {
            None
        } else if code == CODEC_ERROR {
            Some(ErrorKind::Generic)
        } else if code == CODEC_MEM_ERROR {
            Some(ErrorKind::OutOfMemory)
        } else if code == CODEC_ABI_MISMATCH {
            Some(ErrorKind::AbiMismatch)
        } else if code == CODEC_INCAPABLE {
            Some(ErrorKind::Incapable)
        } else if code == CODEC_UNSUP_BITSTREAM {
            Some(ErrorKind::UnsupportedBitstream)
        } else if code == CODEC_UNSUP_FEATURE {
            Some(ErrorKind::UnsupportedFeature)
        } else if code == CODEC_CORRUPT_FRAME {
            Some(ErrorKind::CorruptFrame)
        } else if code == CODEC_INVALID_PARAM {
            Some(ErrorKind::InvalidParam)
        } else {
            Some(ErrorKind::Other(code))
        }
    }

    /// The typed error of a raw status code: `None` for success, `Other` for unknown codes.
    pub fn from_raw(code: u32) -> (k: Option<Self>)
        ensures
            k == Self::spec_from_raw(code),
    {
        if code == CODEC_OK {
            return None;
        }
        let kind = if code == CODEC_ERROR {
            ErrorKind::Generic
        } else if code == CODEC_MEM_ERROR {
            ErrorKind::OutOfMemory
        } else if code == CODEC_ABI_MISMATCH {
            ErrorKind::AbiMismatch
        } else if code == CODEC_INCAPABLE {
            ErrorKind::Incapable
        } else if code == CODEC_UNSUP_BITSTREAM {
            ErrorKind::UnsupportedBitstream
        } else if code == CODEC_UNSUP_FEATURE {
            ErrorKind::UnsupportedFeature
        } else if code == CODEC_CORRUPT_FRAME {
            ErrorKind::CorruptFrame
        } else if code == CODEC_INVALID_PARAM {
            ErrorKind::InvalidParam
        } else {
            ErrorKind::Other(code)
        };
        Some(kind)
    }

    pub open spec fn spec_message(self) -> Seq<char> {
        match self {
            ErrorKind::Generic => "libavm reported a generic error"@,
            ErrorKind::OutOfMemory => "libavm allocation failed"@,
            ErrorKind::AbiMismatch => "libavm ABI version mismatch"@,
            ErrorKind::Incapable => "decoder is incapable of this operation"@,
            ErrorKind::UnsupportedBitstream => "unsupported bitstream profile or level"@,
            ErrorKind::UnsupportedFeature => "unsupported bitstream feature"@,
            ErrorKind::CorruptFrame => "corrupt bitstream frame"@,
            ErrorKind::InvalidParam => "invalid parameter"@,
            ErrorKind::Other(code) => "libavm returned unknown error code "@ + spec_decimal(code as nat),
        }
    }

    /// The human-readable description of the error.
    pub fn message(&self) -> (s: String)
        ensures
            s@ == self.spec_message(),
    {
        match self {
            ErrorKind::Generic => String::from_str("libavm reported a generic error"),
            ErrorKind::OutOfMemory => String::from_str("libavm allocation failed"),
            ErrorKind::AbiMismatch => String::from_str("libavm ABI version mismatch"),
            ErrorKind::Incapable => String::from_str("decoder is incapable of this operation"),
            ErrorKind::UnsupportedBitstream => String::from_str("unsupported bitstream profile or level"),
            ErrorKind::UnsupportedFeature => String::from_str("unsupported bitstream feature"),
            ErrorKind::CorruptFrame => String::from_str("corrupt bitstream frame"),
            ErrorKind::InvalidParam => String::from_str("invalid parameter"),
            ErrorKind::Other(code) => {
                let mut s = String::from_str("libavm returned unknown error code ");
                let d = decimal_u64(*code as u64);
                s.append(d.as_str());
                s
            },
        }
    }
}

/// Errors returned by the decoder API.
#[derive(Debug, Clone, PartialEq, Eq)]
#[non_exhaustive]
pub enum DecoderError {
    Init(ErrorKind),
    Decode(ErrorKind),
    Flush(ErrorKind),
    StreamInfo(ErrorKind),
    SetFrameBufferFunctions(ErrorKind),
    /// Pure-Rust packet parsing rejected the compressed input.
    Parse(&'static str),
    /// The selected backend recognized the request but the capability is not implemented yet.
    Unimplemented(&'static str),
    /// The selected backend is not available in this build.
    BackendUnavailable(BackendKind),
    /// Reading the container failed in a helper that decodes a whole stream.
    Io(IvfError),
}

impl DecoderError {
    pub open spec fn spec_message(self) -> Seq<char> {
        match self {
            DecoderError::Init(k) => "decoder initialization failed: "@ + k.spec_message(),
            DecoderError::Decode(k) => "decode failed: "@ + k.spec_message(),
            DecoderError::Flush(k) => "flush failed: "@ + k.spec_message(),
            DecoderError::StreamInfo(k) => "stream info query failed: "@ + k.spec_message(),
            DecoderError::SetFrameBufferFunctions(k) => "set_frame_buffer_functions failed: "@ + k.spec_message(),
            DecoderError::Parse(m) => "bitstream parse failed: "@ + m@,
            DecoderError::Unimplemented(m) => "decoder feature not implemented: "@ + m@,
            DecoderError::BackendUnavailable(b) => "decoder backend `"@ + b.spec_name() + "` is not available in this build"@,
            DecoderError::Io(e) => "I/O error: "@ + e.message@,
        }
    }

    /// The human-readable description of the error.
    pub fn message(&self) -> (s: String)
        ensures
            s@ == self.spec_message(),
    {
        let (prefix, rest): (&str, String) = match self {
            DecoderError::Init(k) => ("decoder initialization failed: ", k.message()),
            DecoderError::Decode(k) => ("decode failed: ", k.message()),
            DecoderError::Flush(k) => ("flush failed: ", k.message()),
            DecoderError::StreamInfo(k) => ("stream info query failed: ", k.message()),
            DecoderError::SetFrameBufferFunctions(k) => ("set_frame_buffer_functions failed: ", k.message()),
            DecoderError::Parse(m) => ("bitstream parse failed: ", String::from_str(m)),
            DecoderError::Unimplemented(m) => ("decoder feature not implemented: ", String::from_str(m)),
            DecoderError::BackendUnavailable(b) => {
                let mut t = String::from_str(b.as_str());
                t.append("` is not available in this build");
                ("decoder backend `", t)
            },
            DecoderError::Io(e) => ("I/O error: ", e.message.clone()),
        };
        let mut s = String::from_str(prefix);
        s.append(rest.as_str());
        proof {
            reveal_strlit("decoder initialization failed: ");
            reveal_strlit("decode failed: ");
            reveal_strlit("flush failed: ");
            reveal_strlit("stream info query failed: ");
            reveal_strlit("set_frame_buffer_functions failed: ");
            reveal_strlit("bitstream parse failed: ");
            reveal_strlit("decoder feature not implemented: ");
            reveal_strlit("decoder backend `");
            reveal_strlit("` is not available in this build");
            reveal_strlit("I/O error: ");
        }
        s
    }
}

/// Bitstream-level information reported once a sequence header has been parsed.
#[derive(Debug, Clone, Copy, PartialEq, Eq, Hash, Structural)]
pub struct StreamInfo {
    pub width: u32,
    pub height: u32,
    pub is_kf: bool,
    pub number_tlayers: u32,
    pub number_mlayers: u32,
    pub number_xlayers: u32,
}

/// High-level parser/decode event surfaced by a backend.
#[derive(Debug, Clone, Copy, PartialEq, Eq, Structural)]
pub enum DecodeEvent {
    SequenceHeader(SequenceHeader),
    FrameHeader(FrameHeaderInfo),
}

/// Observable parser/decode progress for the active backend.
#[derive(Debug, Clone, Copy, PartialEq, Eq)]
pub struct DecodeProgress {
    pub backend: BackendKind,
    pub packets_parsed: Option<usize>,
    pub obus_parsed: Option<usize>,
    pub frame_packets_seen: Option<usize>,
    pub sequence_header: Option<SequenceHeader>,
    pub stream_info: Option<StreamInfo>,
    pub last_frame_packet_kind: Option<FramePacketKind>,
    pub last_frame_header: Option<FrameHeaderInfo>,
    pub last_event: Option<DecodeEvent>,
    pub recent_events: [Option<DecodeEvent>; 4],
}

/// A buffer handed out by a frame-buffer manager.
#[derive(Debug, Clone)]
pub struct FrameBuffer {
    pub data: Vec<u8>,
    pub len: usize,
    pub token: usize,
}

/// User-implementable supplier of decoded-frame storage.
pub trait FrameBufferManager {
    /// Allocate a buffer of at least `min_size` bytes, or `None` on failure.
    fn allocate(&mut self, min_size: usize) -> Option<FrameBuffer>;

    /// Release a buffer previously returned by `allocate`.
    fn release(&mut self, buffer: FrameBuffer);
}

/// A decoded image as the decoder hands it out: geometry, format and plane storage.
#[derive(Debug, Clone)]
pub struct Image {
    pub fmt: u32,
    pub monochrome: bool,
    pub csp: u32,
    pub range: u32,
    pub w: u32,
    pub h: u32,
    pub bit_depth: u32,
    pub d_w: u32,
    pub d_h: u32,
    pub x_chroma_shift: u32,
    pub y_chroma_shift: u32,
    pub planes: [Option<Vec<u8>>; 3],
    pub stride: [i32; 3],
    pub sz: usize,
}

/// `n` divided by `2^shift`, rounded up.
pub open spec fn spec_shift_up(n: int, shift: nat) -> int {
    (n + vstd::arithmetic::power2::pow2(shift) - 1) / (vstd::arithmetic::power2::pow2(shift) as int)
}

/// A plane's packed rows: `rows` rows of `row_bytes` bytes taken every `stride` bytes of `p`.
pub open spec fn spec_packed(p: Seq<u8>, stride: int, row_bytes: int, rows: nat) -> Seq<u8>
    decreases rows,
{
    if rows == 0 {
        Seq::empty()
    } else {
        spec_packed(p, stride, row_bytes, (rows - 1) as nat) + p.subrange((rows - 1) * stride, (rows - 1) * stride + row_bytes)
    }
}

/// Whether `o` is the owned, packed copy of `img`: the same metadata, and each valid plane's
/// rows cropped to the active row bytes, stored back to back; invalid planes empty with stride 0.
pub open spec fn spec_owned_copy(img: Image, o: OwnedFrame) -> bool {
    &&& o.width == img.d_w
    &&& o.height == img.d_h
    &&& o.bit_depth == img.bit_depth
    &&& o.format == PixelFormat::spec_from_raw(img.fmt)
    &&& o.format_raw == img.fmt
    &&& o.color_range == ColorRange::spec_from_raw(img.range)
    &&& o.chroma_sample_position == ChromaSamplePosition::spec_from_raw(img.csp)
    &&& o.monochrome == img.monochrome
    &&& o.bytes_per_sample == img.spec_bytes_per_sample()
    &&& forall|i: int| 0 <= i < 3 ==> match #[trigger] img.spec_plane(i) {
        None => o.planes[i]@.len() == 0 && o.strides[i] == 0,
        Some(p) => o.planes[i]@ == spec_packed(p, img.stride[i] as int, img.spec_row_bytes(i),
            img.spec_height_for_plane(i) as nat) && o.strides[i] == img.spec_row_bytes(i),
    }
}

/// The progress report of a Rust backend in state `d`.
pub open spec fn spec_progress(d: RustDecoder) -> DecodeProgress {
    DecodeProgress {
        backend: BackendKind::Rust,
        packets_parsed: Some(d.packets_parsed),
        obus_parsed: Some(d.obus_parsed),
        frame_packets_seen: Some(d.frame_packets_seen),
        sequence_header: d.sequence_header,
        stream_info: d.stream_info,
        last_frame_packet_kind: d.last_frame_packet_kind,
        last_frame_header: d.last_frame_header,
        last_event: d.last_event,
        recent_events: d.recent_events,
    }
}

impl Image {
    pub open spec fn spec_plane_width(&self, index: int) -> int {
        if index >= 3 || index < 0 {
            0
        } else if index == 0 {
            self.d_w as int
        } else {
            spec_shift_up(self.d_w as int, (if self.x_chroma_shift < 31 { self.x_chroma_shift } else { 31 }) as nat)
        }
    }

    pub open spec fn spec_chroma_plane_height(&self, index: int) -> int {
        if index >= 3 || index < 0 {
            0
        } else if index == 0 {
            self.d_h as int
        } else {
            spec_shift_up(self.d_h as int, (if self.y_chroma_shift < 31 { self.y_chroma_shift } else { 31 }) as nat)
        }
    }

    pub open spec fn spec_height_for_plane(&self, index: int) -> int {
        if index == 0 { self.d_h as int } else { self.spec_chroma_plane_height(index) }
    }

    pub open spec fn spec_bytes_per_sample(&self) -> int {
        if self.fmt & IMG_FMT_HIGHBITDEPTH != 0 { 2 } else { 1 }
    }

    pub open spec fn spec_row_bytes(&self, index: int) -> int {
        if index >= 3 || index < 0 {
            0
        } else {
            let r = self.spec_plane_width(index) * self.spec_bytes_per_sample();
            if r > usize::MAX { usize::MAX as int } else { r }
        }
    }

    /// The length of the storage of plane `index` that a valid plane view covers, if the plane
    /// passes validation: it exists, its stride is non-negative and covers a row, the storage
    /// size fits, stays within the image's declared size when one is declared, and within the
    /// plane's buffer.
    pub open spec fn spec_plane_len(&self, index: int) -> Option<int> {
        if index < 0 || index >= 3 {
            None
        } else {
            match self.planes[index] {
                None => None,
                Some(buf) => {
                    let stride = self.stride[index] as int;
                    let row_bytes = self.spec_plane_width(index) * self.spec_bytes_per_sample();
                    let len = stride * self.spec_height_for_plane(index);
                    if stride < 0 || row_bytes > usize::MAX || stride < row_bytes || len > usize::MAX
                        || (self.sz > 0 && len > self.sz) || len > buf@.len() {
                        None
                    } else {
                        Some(len)
                    }
                },
            }
        }
    }

    pub open spec fn spec_plane(&self, index: int) -> Option<Seq<u8>> {
        match self.spec_plane_len(index) {
            None => None,
            Some(len) => Some(self.planes[index].unwrap()@.subrange(0, len)),
        }
    }
}

/// A decoded frame borrowed from the decoder.
#[derive(Debug, Clone, Copy)]
pub struct Frame<'a> {
    img: &'a Image,
}

impl<'a> Frame<'a> {
    pub closed spec fn image(&self) -> Image {
        *self.img
    }

    /// A frame over `img`.
    pub fn from_raw_for_test(img: &'a Image) -> (f: Frame<'a>)
        ensures
            f.image() == *img,
    {
        Frame { img }
    }

    pub fn width(&self) -> (w: u32)
        ensures
            w == self.image().d_w,
    {
        self.img.d_w
    }

    pub fn height(&self) -> (h: u32)
        ensures
            h == self.image().d_h,
    {
        self.img.d_h
    }

    pub fn bit_depth(&self) -> (b: u32)
        ensures
            b == self.image().bit_depth,
    {
        self.img.bit_depth
    }

    /// The type-safe pixel format, or `None` for an unrecognized raw format.
    pub fn format(&self) -> (f: Option<PixelFormat>)
        ensures
            f == PixelFormat::spec_from_raw(self.image().fmt),
    {
        PixelFormat::from_raw(self.format_raw())
    }

    /// The raw pixel-format code.
    pub fn format_raw(&self) -> (f: u32)
        ensures
            f == self.image().fmt,
    {
        self.img.fmt
    }

    pub fn monochrome(&self) -> (m: bool)
        ensures
            m == self.image().monochrome,
    {
        self.img.monochrome
    }

    pub fn chroma_sample_position(&self) -> (p: ChromaSamplePosition)
        ensures
            p == ChromaSamplePosition::spec_from_raw(self.image().csp),
    {
        ChromaSamplePosition::from_raw(self.img.csp)
    }

    pub fn color_range(&self) -> (r: ColorRange)
        ensures
            r == ColorRange::spec_from_raw(self.image().range),
    {
        ColorRange::from_raw(self.img.range)
    }

    /// The storage of plane `index` (stride times height bytes), or `None` when the plane fails validation.
    pub fn plane(&self, index: usize) -> (p: Option<&'a [u8]>)
        ensures
            match p {
                Some(s) => self.image().spec_plane(index as int) == Some(s@),
                None => self.image().spec_plane(index as int) is None,
            },
    {
        if index >= 3 {
            return None;
        }
        let img = self.img;
        let buf: &'a Vec<u8> = match &img.planes[index] {
            Some(b) => b,
            None => {
                return None;
            },
        };
        let raw_stride = img.stride[index];
        if raw_stride < 0 {
            return None;
        }
        let stride = raw_stride as usize;
        let plane_w = self.plane_width(index);
        let bps = self.bytes_per_sample();
        let row_bytes = match plane_w.checked_mul(bps) {
            Some(r) => r,
            None => {
                return None;
            },
        };
        if stride < row_bytes {
            return None;
        }
        let height = self.height_for_plane(index);
        let len = match stride.checked_mul(height) {
            Some(l) => l,
            None => {
                return None;
            },
        };
        if img.sz > 0 && len > img.sz {
            return None;
        }
        if len > buf.len() {
            return None;
        }
        Some(vstd::slice::slice_subrange(buf.as_slice(), 0, len))
    }

    /// The stride of plane `index` in bytes; 0 for an out-of-range index or a negative stride.
    pub fn stride(&self, index: usize) -> (s: usize)
        ensures
            s == (if index >= 3 || self.image().stride[index as int] < 0 { 0 } else { self.image().stride[index as int] as int }),
    {
        if index >= 3 {
            return 0;
        }
        let s = self.img.stride[index];
        if s < 0 {
            0
        } else {
            s as usize
        }
    }

    /// The active pixel width of plane `index`, or 0 if `index >= 3`.
    pub fn plane_width(&self, index: usize) -> (w: usize)
        ensures
            w == self.image().spec_plane_width(index as int),
    {
        if index >= 3 {
            return 0;
        }
        let w = self.img.d_w;
        if index == 0 {
            w as usize
        } else {
            let shift = if self.img.x_chroma_shift < 31 { self.img.x_chroma_shift } else { 31 };
            shift_up(w, shift) as usize
        }
    }

    /// The active pixel height of plane `index`, or 0 if `index >= 3`.
    pub fn chroma_plane_height(&self, index: usize) -> (h: usize)
        ensures
            h == self.image().spec_chroma_plane_height(index as int),
    {
        if index >= 3 {
            return 0;
        }
        let h = self.img.d_h;
        if index == 0 {
            h as usize
        } else {
            let shift = if self.img.y_chroma_shift < 31 { self.img.y_chroma_shift } else { 31 };
            shift_up(h, shift) as usize
        }
    }

    pub fn height_for_plane(&self, index: usize) -> (h: usize)
        ensures
            h == self.image().spec_height_for_plane(index as int),
    {
        if index == 0 {
            self.height() as usize
        } else {
            self.chroma_plane_height(index)
        }
    }

    /// 1 for 8-bit formats, 2 for high-bit-depth formats.
    pub fn bytes_per_sample(&self) -> (n: usize)
        ensures
            n == self.image().spec_bytes_per_sample(),
    {
        if self.format_raw() & IMG_FMT_HIGHBITDEPTH != 0 {
            2
        } else {
            1
        }
    }

    /// The bytes of one row of active pixels of plane `index` (saturating), or 0 if `index >= 3`.
    pub fn row_bytes(&self, index: usize) -> (n: usize)
        ensures
            n == self.image().spec_row_bytes(index as int),
    {
        if index >= 3 {
            return 0;
        }
        let w = self.plane_width(index);
        let bps = self.bytes_per_sample();
        match w.checked_mul(bps) {
            Some(r) => r,
            None => usize::MAX,
        }
    }

    /// The plane storage as samples: bytes for 8-bit formats, little-endian 16-bit samples
    /// for high-bit-depth formats (`None` also when the storage has an odd length).
    pub fn plane_view(&self, index: usize) -> (v: Option<PlaneView<'a>>)
        ensures
            match self.image().spec_plane(index as int) {
                None => v is None,
                Some(p) => if self.image().spec_bytes_per_sample() == 2 {
                    if p.len() % 2 != 0 {
                        v is None
                    } else {
                        v matches Some(PlaneView::U16(s)) && s@.len() == p.len() / 2
                            && forall|i: int| 0 <= i < s@.len() ==> s@[i] == p[2 * i] + 256 * p[2 * i + 1]
                    }
                } else {
                    v matches Some(PlaneView::U8(s)) && s@ == p
                },
            },
    {
        let plane = match self.plane(index) {
            Some(p) => p,
            None => {
                return None;
            },
        };
        if self.bytes_per_sample() == 2 {
            if plane.len() % 2 != 0 {
                return None;
            }
            let plane_len = plane.len();
            let n = plane_len / 2;
            let mut out: Vec<u16> = Vec::new();
            let mut i: usize = 0;
            while i < n
                invariant
                    i <= n,
                    plane_len == plane@.len(),
                    n * 2 == plane@.len(),
                    out@.len() == i,
                    forall|j: int| 0 <= j < i ==> out@[j] == plane@[2 * j] + 256 * plane@[2 * j + 1],
                decreases n - i,
            {
                let lo = plane[2 * i] as u16;
                let hi = plane[2 * i + 1] as u16;
                out.push(lo + 256 * hi);
                i = i + 1;
            }
            Some(PlaneView::U16(out))
        } else {
            Some(PlaneView::U8(plane))
        }
    }

    /// Plane `index` split into its rows, each cropped to the active row bytes.
    pub fn rows(&self, index: usize) -> (r: Option<Vec<&'a [u8]>>)
        ensures
            match self.image().spec_plane(index as int) {
                None => r is None,
                Some(p) => r matches Some(rows) && rows@.len() == self.image().spec_height_for_plane(index as int)
                    && forall|k: int| 0 <= k < rows@.len() ==> (#[trigger] rows@[k])@ == p.subrange(
                        k * self.image().stride[index as int], k * self.image().stride[index as int] + self.image().spec_row_bytes(index as int)),
            },
    {
        let plane = match self.plane(index) {
            Some(p) => p,
            None => {
                return None;
            },
        };
        let stride = self.stride(index);
        let h = self.height_for_plane(index);
        let row_bytes = self.row_bytes(index);
        let plane_len = plane.len();
        let mut out: Vec<&'a [u8]> = Vec::new();
        let mut k: usize = 0;
        while k < h
            invariant
                k <= h,
                plane_len == plane@.len(),
                row_bytes <= stride,
                plane@.len() == stride * h,
                out@.len() == k,
                forall|j: int| 0 <= j < k ==> (#[trigger] out@[j])@ == plane@.subrange(j * stride, j * stride + row_bytes),
            decreases h - k,
        {
            proof {
                assert((k + 1) * stride <= h * stride) by (nonlinear_arith)
                    requires k < h, stride >= 0;
                assert(k * stride + stride == (k + 1) * stride) by (nonlinear_arith);
            }
            let start = k * stride;
            out.push(vstd::slice::slice_subrange(plane, start, start + row_bytes));
            k = k + 1;
        }
        Some(out)
    }

    /// Copy the frame into an owned, packed snapshot: each stored row holds exactly the active
    /// row bytes, and planes that fail validation are left empty with stride 0.
    pub fn to_owned(&self) -> (o: OwnedFrame)
        ensures
            spec_owned_copy(self.image(), o),
    {
        let p0 = self.packed_plane(0);
        let p1 = self.packed_plane(1);
        let p2 = self.packed_plane(2);
        OwnedFrame {
            width: self.width(),
            height: self.height(),
            bit_depth: self.bit_depth(),
            format: self.format(),
            format_raw: self.format_raw(),
            color_range: self.color_range(),
            chroma_sample_position: self.chroma_sample_position(),
            monochrome: self.monochrome(),
            bytes_per_sample: self.bytes_per_sample(),
            planes: [p0.0, p1.0, p2.0],
            strides: [p0.1, p1.1, p2.1],
        }
    }

    /// The packed rows of plane `index` and their stride, or nothing when the plane fails validation.
    fn packed_plane(&self, index: usize) -> (r: (Vec<u8>, usize))
        requires
            index < 3,
        ensures
            match self.image().spec_plane(index as int) {
                None => r.0@.len() == 0 && r.1 == 0,
                Some(p) => r.0@ == spec_packed(p, self.image().stride[index as int] as int, self.image().spec_row_bytes(index as int),
                    self.image().spec_height_for_plane(index as int) as nat) && r.1 == self.image().spec_row_bytes(index as int),
            },
    {
        let row_bytes = self.row_bytes(index);
        let mut buf: Vec<u8> = Vec::new();
        match self.rows(index) {
            None => (buf, 0),
            Some(rows) => {
                let ghost p = self.image().spec_plane(index as int).unwrap();
                let ghost stride = self.image().stride[index as int] as int;
                let mut k: usize = 0;
                while k < rows.len()
                    invariant
                        k <= rows@.len(),
                        forall|j: int| 0 <= j < rows@.len() ==> (#[trigger] rows@[j])@ == p.subrange(j * stride, j * stride + row_bytes),
                        buf@ == spec_packed(p, stride, row_bytes as int, k as nat),
                    decreases rows@.len() - k,
                {
                    let row = rows[k];
                    let mut j: usize = 0;
                    let ghost before = buf@;
                    while j < row.len()
                        invariant
                            j <= row@.len(),
                            buf@ == before + row@.subrange(0, j as int),
                        decreases row@.len() - j,
                    {
                        buf.push(row[j]);
                        proof {
                            assert(row@.subrange(0, j + 1) =~= row@.subrange(0, j as int).push(row@[j as int]));
                        }
                        j = j + 1;
                    }
                    proof {
                        assert(row@.subrange(0, row@.len() as int) =~= row@);
                        assert(((k + 1) as nat - 1) as nat == k as nat);
                    }
                    k = k + 1;
                }
                (buf, row_bytes)
            },
        }
    }
}

/// `n` divided by `2^shift` rounded up, for `shift <= 31`.
fn shift_up(n: u32, shift: u32) -> (r: u32)
    requires
        shift <= 31,
    ensures
        r == spec_shift_up(n as int, shift as nat),
{
    let p: u64 = 1u64 << (shift as u64);
    proof {
        vstd::arithmetic::power2::lemma_pow2_pos(shift as nat);
        vstd::arithmetic::power2::lemma_pow2_strictly_increases(shift as nat, 32);
        vstd::arithmetic::power2::lemma2_to64();
        vstd::bits::lemma_u64_shl_is_mul(1, shift as u64);
    }
    let q = (n as u64 + p - 1) / p;
    proof {
        let ni = n as int;
        let pi = p as int;
        assert(q <= ni) by (nonlinear_arith)
            requires q == (ni + pi - 1) / pi, pi >= 1, ni >= 0;
    }
    q as u32
}

/// An owned, packed copy of a decoded frame.
#[derive(Debug, Clone, PartialEq, Eq)]
pub struct OwnedFrame {
    pub width: u32,
    pub height: u32,
    pub bit_depth: u32,
    pub format: Option<PixelFormat>,
    pub format_raw: u32,
    pub color_range: ColorRange,
    pub chroma_sample_position: ChromaSamplePosition,
    pub monochrome: bool,
    pub bytes_per_sample: usize,
    pub planes: [Vec<u8>; 3],
    pub strides: [usize; 3],
}

impl OwnedFrame {
    /// The bytes of plane `index`, or `None` if `index >= 3` or the plane is empty.
    pub fn plane(&self, index: usize) -> (p: Option<&[u8]>)
        ensures
            match p {
                Some(s) => index < 3 && self.planes[index as int]@.len() > 0 && s@ == self.planes[index as int]@,
                None => index >= 3 || self.planes[index as int]@.len() == 0,
            },
    {
        if index >= 3 {
            return None;
        }
        let p = &self.planes[index];
        if p.len() == 0 {
            None
        } else {
            Some(p.as_slice())
        }
    }

    /// The rows of plane `index`, each `strides[index]` bytes (a trailing partial row is
    /// dropped), or `None` when the plane is absent or its stride is 0.
    pub fn rows(&self, index: usize) -> (r: Option<Vec<&[u8]>>)
        ensures
            match r {
                None => index >= 3 || self.planes[index as int]@.len() == 0 || self.strides[index as int] == 0,
                Some(rows) => index < 3 && self.planes[index as int]@.len() > 0 && self.strides[index as int] > 0
                    && rows@.len() == (self.planes[index as int]@.len() as int) / (self.strides[index as int] as int)
                    && forall|k: int| 0 <= k < rows@.len() ==> (#[trigger] rows@[k])@ == self.planes[index as int]@.subrange(
                        k * self.strides[index as int], (k + 1) * self.strides[index as int]),
            },
    {
        let plane = match self.plane(index) {
            Some(p) => p,
            None => {
                return None;
            },
        };
        let stride = self.strides[index];
        if stride == 0 {
            return None;
        }
        let plane_len = plane.len();
        let n = plane_len / stride;
        let mut out: Vec<&[u8]> = Vec::new();
        let mut k: usize = 0;
        while k < n
            invariant
                k <= n,
                plane_len == plane@.len(),
                stride > 0,
                n == (plane@.len() as int) / (stride as int),
                out@.len() == k,
                forall|j: int| 0 <= j < k ==> (#[trigger] out@[j])@ == plane@.subrange(j * stride, (j + 1) * stride),
            decreases n - k,
        {
            proof {
                let len = plane@.len() as int;
                let st = stride as int;
                vstd::arithmetic::div_mod::lemma_fundamental_div_mod(len, st);
                assert((k + 1) * stride <= n * stride) by (nonlinear_arith)
                    requires k < n, stride > 0;
                assert(n * st <= len) by (nonlinear_arith)
                    requires n == len / st, st > 0, len == st * (len / st) + len % st, len % st >= 0;
                assert(k * stride + stride == (k + 1) * stride) by (nonlinear_arith);
            }
            let start = k * stride;
            out.push(vstd::slice::slice_subrange(plane, start, start + stride));
            k = k + 1;
        }
        Some(out)
    }
}

/// Configuration of a decoder before construction.
#[derive(Debug, Clone)]
pub struct DecoderBuilder {
    threads: Option<u32>,
    backend: BackendKind,
}

impl Default for DecoderBuilder {
    fn default() -> (b: Self)
        ensures
            b.spec_threads() is None,
            b.spec_backend() == BackendKind::Libavm,
    {
        DecoderBuilder { threads: None, backend: BackendKind::Libavm }
    }
}

impl DecoderBuilder {
    pub closed spec fn spec_threads(&self) -> Option<u32> {
        self.threads
    }

    pub closed spec fn spec_backend(&self) -> BackendKind {
        self.backend
    }

    /// A builder with default settings: no thread hint, the libavm backend.
    pub fn new() -> (b: Self)
        ensures
            b.spec_threads() is None,
            b.spec_backend() == BackendKind::Libavm,
    {
        DecoderBuilder { threads: None, backend: BackendKind::Libavm }
    }

    /// Set the worker thread count hint.
    pub fn threads(self, n: u32) -> (b: Self)
        ensures
            b.spec_threads() == Some(n),
            b.spec_backend() == self.spec_backend(),
    {
        DecoderBuilder { threads: Some(n), backend: self.backend }
    }

    /// Select the decode backend.
    pub fn backend(self, backend: BackendKind) -> (b: Self)
        ensures
            b.spec_threads() == self.spec_threads(),
            b.spec_backend() == backend,
    {
        DecoderBuilder { threads: self.threads, backend }
    }

    /// Construct the decoder: the Rust backend starts fresh; the libavm backend is not
    /// available in this build.
    pub fn build(self) -> (r: Result<Decoder, DecoderError>)
        ensures
            self.spec_backend() == BackendKind::Libavm ==> r == Err::<Decoder, DecoderError>(DecoderError::BackendUnavailable(BackendKind::Libavm)),
            self.spec_backend() == BackendKind::Rust ==> (r matches Ok(d) && d.backend_state() == RustDecoder::spec_initial()),
    {
        match self.backend {
            BackendKind::Libavm => Err(DecoderError::BackendUnavailable(BackendKind::Libavm)),
            BackendKind::Rust => {
                let inner = match RustDecoder::new(self.threads) {
                    Ok(d) => d,
                    Err(e) => {
                        return Err(e);
                    },
                };
                Ok(Decoder { inner })
            },
        }
    }
}

/// A decoder instance.
#[derive(Debug)]
pub struct Decoder {
    inner: RustDecoder,
}

impl Decoder {
    /// The state of the backend.
    pub closed spec fn backend_state(&self) -> RustDecoder {
        self.inner
    }

    /// The backend's stream information always follows the sequence header it holds.
    #[verifier::type_invariant]
    spec fn info_tracks_header(self) -> bool {
        spec_info_tracks_header(self.inner)
    }

    /// A decoder with default configuration (the libavm backend, unavailable in this build).
    pub fn new() -> (r: Result<Self, DecoderError>)
        ensures
            r == Err::<Decoder, DecoderError>(DecoderError::BackendUnavailable(BackendKind::Libavm)),
    {
        DecoderBuilder::new().build()
    }

    /// A builder for configuring optional parameters.
    pub fn builder() -> (b: DecoderBuilder)
        ensures
            b.spec_threads() is None,
            b.spec_backend() == BackendKind::Libavm,
    {
        DecoderBuilder::new()
    }

    /// The backend in use.
    pub fn backend_kind(&self) -> (b: BackendKind)
        ensures
            b == BackendKind::Rust,
    {
        BackendKind::Rust
    }

    /// The backend's parser/decode progress.
    pub fn progress(&self) -> (p: DecodeProgress)
        ensures
            p == spec_progress(self.backend_state()),
            spec_info_tracks_header(self.backend_state()),
    {
        proof {
            use_type_invariant(self);
        }
        self.inner.progress()
    }

    /// A decoder with an optional explicit thread count (the default backend).
    pub fn with_config(threads: Option<u32>) -> (r: Result<Self, DecoderError>)
        ensures
            r == Err::<Decoder, DecoderError>(DecoderError::BackendUnavailable(BackendKind::Libavm)),
    {
        let mut builder = DecoderBuilder::new();
        if let Some(t) = threads {
            builder = builder.threads(t);
        }
        builder.build()
    }

    /// Submit one compressed packet.
    pub fn decode(&mut self, data: &[u8]) -> (r: Result<(), DecoderError>)
        ensures
            spec_decode_step(old(self).backend_state(), data@, r, final(self).backend_state()),
    {
        proof {
            use_type_invariant(&*self);
        }
        let mut inner = RustDecoder::initial();
        std::mem::swap(&mut inner, &mut self.inner);
        let ghost before = inner;
        let r = inner.decode(data);
        proof {
            reveal(spec_decode_step);
            lemma_decode_tracks_header(before, data@, r, inner);
        }
        self.inner = inner;
        r
    }

    /// Signal end of stream; nothing is buffered.
    pub fn flush(&mut self) -> (r: Result<(), DecoderError>)
        ensures
            r is Ok,
            final(self).backend_state() == old(self).backend_state(),
    {
        proof {
            use_type_invariant(&*self);
        }
        self.inner.flush()
    }

    /// The frames decoded since the last `decode`: the pending frame the first time it is asked
    /// for, nothing afterwards.
    pub fn get_frames(&mut self) -> (frames: Vec<Frame<'_>>)
        ensures
            !old(self).backend_state().frame_iter_active && old(self).backend_state().pending_frame is Some ==>
                frames@.len() == 1 && frames@[0].image() == old(self).backend_state().pending_frame.unwrap().image
                && final(self).backend_state().frame_iter_active,
            old(self).backend_state().frame_iter_active || old(self).backend_state().pending_frame is None ==>
                frames@.len() == 0 && final(self).backend_state() == old(self).backend_state(),
            final(self).backend_state() == (RustDecoder { frame_iter_active: final(self).backend_state().frame_iter_active,
                ..old(self).backend_state() }),
    {
        proof {
            use_type_invariant(&*self);
        }
        let mut frames: Vec<Frame<'_>> = Vec::new();
        match self.inner.get_frame() {
            Some(img) => {
                frames.push(Frame::from_raw_for_test(img));
            },
            None => {},
        }
        frames
    }

    /// The stream information, once a sequence header has been parsed: that of the sequence
    /// header most recently parsed.
    pub fn get_stream_info(&mut self) -> (r: Result<StreamInfo, DecoderError>)
        ensures
            final(self).backend_state() == old(self).backend_state(),
            match old(self).backend_state().stream_info {
                Some(info) => r == Ok::<StreamInfo, DecoderError>(info),
                None => r is Err,
            },
            match old(self).backend_state().sequence_header {
                Some(h) => r == Ok::<StreamInfo, DecoderError>(spec_stream_info(h))
                    && spec_progress(old(self).backend_state()).stream_info == Some(spec_stream_info(h)),
                None => r == Err::<StreamInfo, DecoderError>(
                    DecoderError::Unimplemented("Rust backend has not observed stream metadata yet")),
            },
    {
        proof {
            use_type_invariant(&*self);
        }
        self.inner.get_stream_info()
    }

    /// Install a frame-buffer manager; the Rust backend does not support one.
    pub fn set_frame_buffer_manager<M: FrameBufferManager>(&mut self, manager: M) -> (r: Result<(), DecoderError>)
        ensures
            r == Err::<(), DecoderError>(DecoderError::BackendUnavailable(BackendKind::Rust)),
            final(self).backend_state() == old(self).backend_state(),
    {
        proof {
            use_type_invariant(&*self);
        }
        self.inner.set_frame_buffer_manager(manager)
    }
}

} // verus!
