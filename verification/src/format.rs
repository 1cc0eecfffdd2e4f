//! Pixel format, chroma subsampling and colorspace descriptions of decoded frames,
//! with their raw decoder-interface integer codes.
use vstd::prelude::*;

verus! {

/// Flag bit of a raw pixel-format code: planar storage.
pub const IMG_FMT_PLANAR: u32 = 0x100;
/// Flag bit of a raw pixel-format code: V plane stored before U.
pub const IMG_FMT_UV_FLIP: u32 = 0x200;
/// Flag bit of a raw pixel-format code: samples in 16-bit containers.
pub const IMG_FMT_HIGHBITDEPTH: u32 = 0x800;

/// Raw pixel-format codes.
pub const IMG_FMT_I420: u32 = 0x102;
pub const IMG_FMT_YV12: u32 = 0x301;
pub const IMG_FMT_I422: u32 = 0x105;
pub const IMG_FMT_I444: u32 = 0x106;
pub const IMG_FMT_I42016: u32 = 0x902;
pub const IMG_FMT_YV1216: u32 = 0xB01;
pub const IMG_FMT_I42216: u32 = 0x905;
pub const IMG_FMT_I44416: u32 = 0x906;

/// Raw chroma-sample-position codes.
pub const CSP_LEFT: u32 = 0;
pub const CSP_CENTER: u32 = 1;
pub const CSP_TOPLEFT: u32 = 2;
pub const CSP_TOP: u32 = 3;
pub const CSP_BOTTOMLEFT: u32 = 4;
pub const CSP_BOTTOM: u32 = 5;
pub const CSP_UNSPECIFIED: u32 = 6;

/// Raw color-range codes.
pub const CR_STUDIO_RANGE: u32 = 0;
pub const CR_FULL_RANGE: u32 = 1;

/// Typed view over a single decoded image plane: bytes for 8-bit formats, 16-bit samples
/// (assembled little-endian from the stored bytes) for high-bit-depth formats.
#[derive(Debug)]
pub enum PlaneView<'a> {
    U8(&'a [u8]),
    U16(Vec<u16>),
}

impl<'a> PlaneView<'a> {
    /// Number of samples in the view.
    pub open spec fn spec_len(&self) -> nat {
        match self {
            PlaneView::U8(s) => s@.len(),
            PlaneView::U16(v) => v@.len(),
        }
    }

    /// Returns the number of samples in the plane storage.
    pub fn len(&self) -> (n: usize)
        ensures
            n == self.spec_len(),
    {
        match self {
            PlaneView::U8(s) => s.len(),
            PlaneView::U16(v) => v.len(),
        }
    }

    /// Returns `true` if the plane storage is empty.
    pub fn is_empty(&self) -> (b: bool)
        ensures
            b == (self.spec_len() == 0),
    {
        self.len() == 0
    }
}

/// Chroma subsampling pattern.
#[derive(Debug, Clone, Copy, PartialEq, Eq, Hash, Structural)]
pub enum Subsampling {
    Yuv420,
    Yuv422,
    Yuv444,
}

/// `n` halved, rounded up.
pub open spec fn spec_half_up(n: int) -> int {
    (n + 1) / 2
}

impl Subsampling {
    pub open spec fn spec_chroma_dims(self, w: int, h: int) -> (int, int) {
        match self {
            Subsampling::Yuv420 => (spec_half_up(w), spec_half_up(h)),
            Subsampling::Yuv422 => (spec_half_up(w), h),
            Subsampling::Yuv444 => (w, h),
        }
    }

    /// Return the chroma plane dimensions for a luma frame size.
    pub fn chroma_dims(self, w: usize, h: usize) -> (d: (usize, usize))
        ensures
            (d.0 as int, d.1 as int) == self.spec_chroma_dims(w as int, h as int),
    {
        match self {
            Subsampling::Yuv420 => (half_up(w), half_up(h)),
            Subsampling::Yuv422 => (half_up(w), h),
            Subsampling::Yuv444 => (w, h),
        }
    }
}

fn half_up(n: usize) -> (r: usize)
    ensures
        r == spec_half_up(n as int),
{
    n / 2 + n % 2
}

/// Pixel format of a decoded frame.
#[derive(Debug, Clone, Copy, PartialEq, Eq, Hash, Structural)]
#[non_exhaustive]
pub enum PixelFormat {
    I420,
    I422,
    I444,
    Yv12,
    I42016,
    I42216,
    I44416,
    Yv1216,
}

impl PixelFormat {
    /// The raw code of each format.
    pub open spec fn spec_raw(self) -> u32 {
        match self {
            PixelFormat::I420 => IMG_FMT_I420,
            PixelFormat::I422 => IMG_FMT_I422,
            PixelFormat::I444 => IMG_FMT_I444,
            PixelFormat::Yv12 => IMG_FMT_YV12,
            PixelFormat::I42016 => IMG_FMT_I42016,
            PixelFormat::I42216 => IMG_FMT_I42216,
            PixelFormat::I44416 => IMG_FMT_I44416,
            PixelFormat::Yv1216 => IMG_FMT_YV1216,
        }
    }

    /// The format whose raw code is `fmt`, if any.
    pub open spec fn spec_from_raw(fmt: u32) -> Option<PixelFormat> {
        if fmt == IMG_FMT_I420 {
            Some(PixelFormat::I420)
        } else if fmt == IMG_FMT_I422 {
            Some(PixelFormat::I422)
        } else if fmt == IMG_FMT_I444 {
            Some(PixelFormat::I444)
        } else if fmt == IMG_FMT_YV12 {
            Some(PixelFormat::Yv12)
        } else if fmt == IMG_FMT_I42016 {
            Some(PixelFormat::I42016)
        } else if fmt == IMG_FMT_I42216 {
            Some(PixelFormat::I42216)
        } else if fmt == IMG_FMT_I44416 {
            Some(PixelFormat::I44416)
        } else if fmt == IMG_FMT_YV1216 {
            Some(PixelFormat::Yv1216)
        } else {
            None
        }
    }

    /// Convert from the raw pixel-format code; `None` for an unrecognized code.
    pub fn from_raw(fmt: u32) -> (r: Option<Self>)
        ensures
            r == Self::spec_from_raw(fmt),
    {
        if fmt == IMG_FMT_I420 {
            Some(PixelFormat::I420)
        } else if fmt == IMG_FMT_I422 {
            Some(PixelFormat::I422)
        } else if fmt == IMG_FMT_I444 {
            Some(PixelFormat::I444)
        } else if fmt == IMG_FMT_YV12 {
            Some(PixelFormat::Yv12)
        } else if fmt == IMG_FMT_I42016 {
            Some(PixelFormat::I42016)
        } else if fmt == IMG_FMT_I42216 {
            Some(PixelFormat::I42216)
        } else if fmt == IMG_FMT_I44416 {
            Some(PixelFormat::I44416)
        } else if fmt == IMG_FMT_YV1216 {
            Some(PixelFormat::Yv1216)
        } else {
            None
        }
    }

    /// Returns the raw pixel-format code for this format.
    pub fn as_raw(self) -> (r: u32)
        ensures
            r == self.spec_raw(),
    {
        match self {
            PixelFormat::I420 => IMG_FMT_I420,
            PixelFormat::I422 => IMG_FMT_I422,
            PixelFormat::I444 => IMG_FMT_I444,
            PixelFormat::Yv12 => IMG_FMT_YV12,
            PixelFormat::I42016 => IMG_FMT_I42016,
            PixelFormat::I42216 => IMG_FMT_I42216,
            PixelFormat::I44416 => IMG_FMT_I44416,
            PixelFormat::Yv1216 => IMG_FMT_YV1216,
        }
    }

    /// The format stores samples in 16-bit containers.
    pub open spec fn spec_is_high_bit_depth(self) -> bool {
        self.spec_raw() & IMG_FMT_HIGHBITDEPTH != 0
    }

    /// Returns `true` if this format uses 16-bit storage per sample.
    pub fn is_high_bit_depth(self) -> (b: bool)
        ensures
            b == self.spec_is_high_bit_depth(),
            b == (self == PixelFormat::I42016 || self == PixelFormat::I42216 || self == PixelFormat::I44416
                || self == PixelFormat::Yv1216),
    {
        let raw = self.as_raw();
        assert(IMG_FMT_I420 & 0x800u32 == 0) by (bit_vector);
        assert(IMG_FMT_I422 & 0x800u32 == 0) by (bit_vector);
        assert(IMG_FMT_I444 & 0x800u32 == 0) by (bit_vector);
        assert(IMG_FMT_YV12 & 0x800u32 == 0) by (bit_vector);
        assert(IMG_FMT_I42016 & 0x800u32 != 0) by (bit_vector);
        assert(IMG_FMT_I42216 & 0x800u32 != 0) by (bit_vector);
        assert(IMG_FMT_I44416 & 0x800u32 != 0) by (bit_vector);
        assert(IMG_FMT_YV1216 & 0x800u32 != 0) by (bit_vector);
        raw & IMG_FMT_HIGHBITDEPTH != 0
    }

    pub open spec fn spec_subsampling(self) -> Subsampling {
        match self {
            PixelFormat::I420 | PixelFormat::I42016 | PixelFormat::Yv12 | PixelFormat::Yv1216 => Subsampling::Yuv420,
            PixelFormat::I422 | PixelFormat::I42216 => Subsampling::Yuv422,
            PixelFormat::I444 | PixelFormat::I44416 => Subsampling::Yuv444,
        }
    }

    /// Returns the chroma subsampling pattern of this format.
    pub fn subsampling(self) -> (s: Subsampling)
        ensures
            s == self.spec_subsampling(),
    {
        match self {
            PixelFormat::I420 | PixelFormat::I42016 | PixelFormat::Yv12 | PixelFormat::Yv1216 => Subsampling::Yuv420,
            PixelFormat::I422 | PixelFormat::I42216 => Subsampling::Yuv422,
            PixelFormat::I444 | PixelFormat::I44416 => Subsampling::Yuv444,
        }
    }

    /// Returns the number of bytes per sample (1 for 8-bit, 2 for high bit depth).
    pub fn bytes_per_sample(self) -> (n: usize)
        ensures
            n == if self.spec_is_high_bit_depth() { 2usize } else { 1usize },
    {
        if self.is_high_bit_depth() {
            2
        } else {
            1
        }
    }
}

/// Converting a format to its raw code and back gives the format again, and a code that
/// names a format is that format's code.
pub proof fn lemma_pixel_format_round_trip(f: PixelFormat, raw: u32)
    ensures
        PixelFormat::spec_from_raw(f.spec_raw()) == Some(f),
        PixelFormat::spec_from_raw(raw) matches Some(g) ==> g.spec_raw() == raw,
{
}

/// Position of chroma samples relative to the luma grid.
#[derive(Debug, Clone, Copy, PartialEq, Eq, Hash, Structural)]
#[non_exhaustive]
pub enum ChromaSamplePosition {
    Left,
    Center,
    TopLeft,
    Top,
    BottomLeft,
    Bottom,
    Unspecified,
}

impl ChromaSamplePosition {
    pub open spec fn spec_raw(self) -> u32 {
        match self {
            ChromaSamplePosition::Left => CSP_LEFT,
            ChromaSamplePosition::Center => CSP_CENTER,
            ChromaSamplePosition::TopLeft => CSP_TOPLEFT,
            ChromaSamplePosition::Top => CSP_TOP,
            ChromaSamplePosition::BottomLeft => CSP_BOTTOMLEFT,
            ChromaSamplePosition::Bottom => CSP_BOTTOM,
            ChromaSamplePosition::Unspecified => CSP_UNSPECIFIED,
        }
    }

    pub open spec fn spec_from_raw(csp: u32) -> ChromaSamplePosition {
        if csp == CSP_LEFT {
            ChromaSamplePosition::Left
        } else if csp == CSP_CENTER {
            ChromaSamplePosition::Center
        } else if csp == CSP_TOPLEFT {
            ChromaSamplePosition::TopLeft
        } else if csp == CSP_TOP {
            ChromaSamplePosition::Top
        } else if csp == CSP_BOTTOMLEFT {
            ChromaSamplePosition::BottomLeft
        } else if csp == CSP_BOTTOM {
            ChromaSamplePosition::Bottom
        } else {
            ChromaSamplePosition::Unspecified
        }
    }

    /// Convert from the raw code; unknown values map to `Unspecified`.
    pub fn from_raw(csp: u32) -> (r: Self)
        ensures
            r == Self::spec_from_raw(csp),
    {
        if csp == CSP_LEFT {
            ChromaSamplePosition::Left
        } else if csp == CSP_CENTER {
            ChromaSamplePosition::Center
        } else if csp == CSP_TOPLEFT {
            ChromaSamplePosition::TopLeft
        } else if csp == CSP_TOP {
            ChromaSamplePosition::Top
        } else if csp == CSP_BOTTOMLEFT {
            ChromaSamplePosition::BottomLeft
        } else if csp == CSP_BOTTOM {
            ChromaSamplePosition::Bottom
        } else {
            ChromaSamplePosition::Unspecified
        }
    }

    /// Returns the raw code.
    pub fn as_raw(self) -> (r: u32)
        ensures
            r == self.spec_raw(),
    {
        match self {
            ChromaSamplePosition::Left => CSP_LEFT,
            ChromaSamplePosition::Center => CSP_CENTER,
            ChromaSamplePosition::TopLeft => CSP_TOPLEFT,
            ChromaSamplePosition::Top => CSP_TOP,
            ChromaSamplePosition::BottomLeft => CSP_BOTTOMLEFT,
            ChromaSamplePosition::Bottom => CSP_BOTTOM,
            ChromaSamplePosition::Unspecified => CSP_UNSPECIFIED,
        }
    }
}

/// Every chroma sample position survives a trip through its raw code.
pub proof fn lemma_chroma_sample_position_round_trip(p: ChromaSamplePosition)
    ensures
        ChromaSamplePosition::spec_from_raw(p.spec_raw()) == p,
{
}

/// Sample value range.
#[derive(Debug, Clone, Copy, PartialEq, Eq, Hash, Structural)]
#[non_exhaustive]
pub enum ColorRange {
    Studio,
    Full,
}

impl ColorRange {
    pub open spec fn spec_raw(self) -> u32 {
        match self {
            ColorRange::Studio => CR_STUDIO_RANGE,
            ColorRange::Full => CR_FULL_RANGE,
        }
    }

    pub open spec fn spec_from_raw(cr: u32) -> ColorRange {
        if cr == CR_FULL_RANGE {
            ColorRange::Full
        } else {
            ColorRange::Studio
        }
    }

    /// Convert from the raw code; anything but the full-range code is studio range.
    pub fn from_raw(cr: u32) -> (r: Self)
        ensures
            r == Self::spec_from_raw(cr),
    {
        if cr == CR_FULL_RANGE {
            ColorRange::Full
        } else {
            ColorRange::Studio
        }
    }

    /// Returns the raw code.
    pub fn as_raw(self) -> (r: u32)
        ensures
            r == self.spec_raw(),
    {
        match self {
            ColorRange::Studio => CR_STUDIO_RANGE,
            ColorRange::Full => CR_FULL_RANGE,
        }
    }
}

/// Every color range survives a trip through its raw code.
pub proof fn lemma_color_range_round_trip(r: ColorRange)
    ensures
        ColorRange::spec_from_raw(r.spec_raw()) == r,
{
}

} // verus!
