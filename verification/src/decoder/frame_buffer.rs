//! Reconstructed frame storage: one padded plane per color component.
use vstd::prelude::*;
use crate::format::Subsampling;

verus! {

/// Sample types a plane can hold.
pub trait Pixel: Copy + Default {
    const BIT_DEPTH: u32;
    const MAX: u32;
}

impl Pixel for u8 {
    const BIT_DEPTH: u32 = 8;
    const MAX: u32 = 255;
}

/// `n` rounded up to a multiple of `mult`.
pub open spec fn spec_round_up(n: int, mult: int) -> int {
    ((n + mult - 1) / mult) * mult
}

/// One image plane of 8-bit samples whose rows start every `stride` samples.
pub struct PlaneBuffer {
    pub width: usize,
    pub height: usize,
    pub stride: usize,
    pub data: Vec<u8>,
}

/// Offset of sample `(x, y)` in a plane with row stride `stride`.
pub open spec fn spec_pos(stride: int, x: int, y: int) -> int {
    y * stride + x
}

proof fn lemma_pos_bounds(stride: int, height: int, x: int, y: int)
    requires
        0 <= x <= stride,
        0 <= y < height,
    ensures
        0 <= y * stride,
        y * stride + x <= height * stride,
        x < stride ==> 0 <= spec_pos(stride, x, y) < height * stride,
{
    assert(y * stride + stride <= height * stride) by (nonlinear_arith)
        requires 0 <= y < height, 0 <= stride;
    assert(0 <= y * stride) by (nonlinear_arith)
        requires 0 <= y, 0 <= stride;
}

impl PlaneBuffer {
    /// All stored samples, padding included.
    pub open spec fn samples(&self) -> Seq<u8> {
        self.data@
    }

    /// The stride covers the width and the storage covers every row.
    pub open spec fn wf(&self) -> bool {
        &&& self.width <= self.stride
        &&& self.samples().len() == self.height * self.stride
    }

    /// The sample at `(x, y)`.
    pub open spec fn at(&self, x: int, y: int) -> u8 {
        self.samples()[spec_pos(self.stride as int, x, y)]
    }

    /// A zeroed plane of `width` x `height` samples whose stride is the width rounded up to 64.
    pub fn new(width: usize, height: usize) -> (p: Self)
        requires
            width <= usize::MAX - 63,
            height * spec_round_up(width as int, 64) <= usize::MAX,
        ensures
            p.wf(),
            p.width == width,
            p.height == height,
            p.stride == spec_round_up(width as int, 64),
            forall|i: int| 0 <= i < p.samples().len() ==> p.samples()[i] == 0,
    {
        let stride = round_up_to(width, 64);
        let data = vec![0u8; height * stride];
        PlaneBuffer { width, height, stride, data }
    }

    /// Row `y`, active samples only.
    pub fn row(&self, y: usize) -> (r: &[u8])
        requires
            self.wf(),
            y < self.height,
        ensures
            r@ == self.samples().subrange(spec_pos(self.stride as int, 0, y as int), spec_pos(self.stride as int, self.width as int, y as int)),
    {
        proof {
            lemma_pos_bounds(self.stride as int, self.height as int, self.stride as int, y as int);
        }
        let len = self.data.len();
        let start = y * self.stride;
        vstd::slice::slice_subrange(self.data.as_slice(), start, start + self.width)
    }

    /// The sample at `(x, y)`.
    pub fn sample(&self, x: usize, y: usize) -> (v: u8)
        requires
            self.wf(),
            x < self.width,
            y < self.height,
        ensures
            v == self.at(x as int, y as int),
    {
        proof {
            lemma_pos_bounds(self.stride as int, self.height as int, x as int, y as int);
        }
        let len = self.data.len();
        self.data[y * self.stride + x]
    }

    /// Store `v` at `(x, y)`.
    pub fn set(&mut self, x: usize, y: usize, v: u8)
        requires
            old(self).wf(),
            x < old(self).width,
            y < old(self).height,
        ensures
            final(self).wf(),
            final(self).width == old(self).width,
            final(self).height == old(self).height,
            final(self).stride == old(self).stride,
            final(self).samples() == old(self).samples().update(spec_pos(old(self).stride as int, x as int, y as int), v),
    {
        proof {
            lemma_pos_bounds(self.stride as int, self.height as int, x as int, y as int);
        }
        let len = self.data.len();
        let i = y * self.stride + x;
        self.data.set(i, v);
    }

    /// Store `v` at columns `x0..x1` of row `y`.
    pub fn fill_row(&mut self, y: usize, x0: usize, x1: usize, v: u8)
        requires
            old(self).wf(),
            x0 <= x1 <= old(self).width,
            y < old(self).height,
        ensures
            final(self).wf(),
            final(self).width == old(self).width,
            final(self).height == old(self).height,
            final(self).stride == old(self).stride,
            final(self).samples() == Seq::new(old(self).samples().len(), |i: int|
                if spec_pos(old(self).stride as int, x0 as int, y as int) <= i < spec_pos(old(self).stride as int, x1 as int, y as int) {
                    v
                } else {
                    old(self).samples()[i]
                }),
    {
        proof {
            lemma_pos_bounds(self.stride as int, self.height as int, self.stride as int, y as int);
        }
        let ghost old_data = self.data@;
        let ghost (w0, h0, s0) = (self.width, self.height, self.stride);
        let len = self.data.len();
        let base = y * self.stride;
        let mut x = x0;
        while x < x1
            invariant
                x0 <= x <= x1,
                x1 <= self.width <= self.stride,
                self.width == w0,
                self.height == h0,
                self.stride == s0,
                self.data@.len() == old_data.len(),
                old_data.len() == self.height * self.stride,
                base == y * self.stride,
                base + self.stride <= self.height * self.stride,
                len == old_data.len(),
                forall|i: int| 0 <= i < old_data.len() ==> #[trigger] self.data@[i] == (if base + x0 <= i < base + x { v } else { old_data[i] }),
            decreases x1 - x,
        {
            self.data.set(base + x, v);
            x = x + 1;
        }
        assert(self.data@ =~= Seq::new(old_data.len(), |i: int|
            if spec_pos(self.stride as int, x0 as int, y as int) <= i < spec_pos(self.stride as int, x1 as int, y as int) { v } else { old_data[i] }));
    }

    /// All stored samples, padding included.
    pub fn data(&self) -> (d: &[u8])
        ensures
            d@ == self.samples(),
    {
        self.data.as_slice()
    }
}

/// `n` rounded up to a multiple of `mult`.
pub fn round_up_to(n: usize, mult: usize) -> (r: usize)
    requires
        mult > 0,
        n <= usize::MAX - (mult - 1),
    ensures
        r == spec_round_up(n as int, mult as int),
        n <= r,
{
    let q = (n + (mult - 1)) / mult;
    proof {
        let t: int = n + mult - 1;
        let m: int = mult as int;
        vstd::arithmetic::div_mod::lemma_fundamental_div_mod(t, m);
        assert(q == t / m);
        assert(q * m <= t) by (nonlinear_arith)
            requires t == m * (t / m) + t % m, 0 <= t % m, q == t / m;
        assert(n <= q * m) by (nonlinear_arith)
            requires t == m * (t / m) + t % m, t % m < m, q == t / m, t == n + m - 1;
    }
    q * mult
}

/// A reconstructed frame: luma and two chroma planes.
pub struct FrameBuffer {
    luma: PlaneBuffer,
    chroma_u: PlaneBuffer,
    chroma_v: PlaneBuffer,
    subsampling: Subsampling,
}

impl FrameBuffer {
    pub closed spec fn luma_plane(&self) -> PlaneBuffer {
        self.luma
    }

    pub closed spec fn chroma_u_plane(&self) -> PlaneBuffer {
        self.chroma_u
    }

    pub closed spec fn chroma_v_plane(&self) -> PlaneBuffer {
        self.chroma_v
    }

    pub closed spec fn spec_subsampling(&self) -> Subsampling {
        self.subsampling
    }

    pub open spec fn wf(&self) -> bool {
        &&& self.luma_plane().wf()
        &&& self.chroma_u_plane().wf()
        &&& self.chroma_v_plane().wf()
    }

    /// A zeroed frame of `width` x `height` luma samples with chroma planes sized by `subsampling`.
    pub fn new(width: usize, height: usize, subsampling: Subsampling) -> (f: Self)
        requires
            width <= usize::MAX - 63,
            height * spec_round_up(width as int, 64) <= usize::MAX,
        ensures
            f.wf(),
            f.luma_plane().width == width,
            f.luma_plane().height == height,
            f.luma_plane().stride == spec_round_up(width as int, 64),
            (f.chroma_u_plane().width as int, f.chroma_u_plane().height as int) == subsampling.spec_chroma_dims(width as int, height as int),
            (f.chroma_v_plane().width as int, f.chroma_v_plane().height as int) == subsampling.spec_chroma_dims(width as int, height as int),
            f.chroma_u_plane().stride == spec_round_up(f.chroma_u_plane().width as int, 64),
            f.chroma_v_plane().stride == spec_round_up(f.chroma_v_plane().width as int, 64),
            f.spec_subsampling() == subsampling,
            forall|i: int| 0 <= i < f.luma_plane().samples().len() ==> f.luma_plane().samples()[i] == 0,
            forall|i: int| 0 <= i < f.chroma_u_plane().samples().len() ==> f.chroma_u_plane().samples()[i] == 0,
            forall|i: int| 0 <= i < f.chroma_v_plane().samples().len() ==> f.chroma_v_plane().samples()[i] == 0,
    {
        let (cw, ch) = subsampling.chroma_dims(width, height);
        proof {
            let rw = spec_round_up(width as int, 64);
            let rc = spec_round_up(cw as int, 64);
            assert(rc <= rw) by (nonlinear_arith)
                requires cw <= width, rc == ((cw + 63) / 64) * 64, rw == ((width + 63) / 64) * 64;
            assert(ch * rc <= height * rw) by (nonlinear_arith)
                requires ch <= height, rc <= rw, 0 <= rc;
        }
        FrameBuffer {
            luma: PlaneBuffer::new(width, height),
            chroma_u: PlaneBuffer::new(cw, ch),
            chroma_v: PlaneBuffer::new(cw, ch),
            subsampling,
        }
    }

    pub fn luma(&self) -> (p: &PlaneBuffer)
        ensures
            *p == self.luma_plane(),
    {
        &self.luma
    }

    pub fn luma_mut(&mut self) -> (p: &mut PlaneBuffer)
        ensures
            *p == old(self).luma_plane(),
            final(self).luma_plane() == *final(p),
            final(self).chroma_u_plane() == old(self).chroma_u_plane(),
            final(self).chroma_v_plane() == old(self).chroma_v_plane(),
            final(self).spec_subsampling() == old(self).spec_subsampling(),
    {
        &mut self.luma
    }

    pub fn chroma_u(&self) -> (p: &PlaneBuffer)
        ensures
            *p == self.chroma_u_plane(),
    {
        &self.chroma_u
    }

    pub fn chroma_u_mut(&mut self) -> (p: &mut PlaneBuffer)
        ensures
            *p == old(self).chroma_u_plane(),
            final(self).chroma_u_plane() == *final(p),
            final(self).luma_plane() == old(self).luma_plane(),
            final(self).chroma_v_plane() == old(self).chroma_v_plane(),
            final(self).spec_subsampling() == old(self).spec_subsampling(),
    {
        &mut self.chroma_u
    }

    pub fn chroma_v(&self) -> (p: &PlaneBuffer)
        ensures
            *p == self.chroma_v_plane(),
    {
        &self.chroma_v
    }

    pub fn chroma_v_mut(&mut self) -> (p: &mut PlaneBuffer)
        ensures
            *p == old(self).chroma_v_plane(),
            final(self).chroma_v_plane() == *final(p),
            final(self).luma_plane() == old(self).luma_plane(),
            final(self).chroma_u_plane() == old(self).chroma_u_plane(),
            final(self).spec_subsampling() == old(self).spec_subsampling(),
    {
        &mut self.chroma_v
    }

    pub fn subsampling(&self) -> (s: Subsampling)
        ensures
            s == self.spec_subsampling(),
    {
        self.subsampling
    }
}

} // verus!
