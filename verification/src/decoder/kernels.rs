//! Inverse-transform kernels for 4x4 blocks, with a portable scalar implementation.
use vstd::prelude::*;

verus! {

/// Fixed-point precision of the transform constants.
pub const COS_BIT: i32 = 12;
pub const COSPI_16_64: i32 = 11585;
pub const COSPI_8_64: i32 = 15137;
pub const COSPI_24_64: i32 = 6270;
pub const SINPI_1_9: i32 = 1321;
pub const SINPI_2_9: i32 = 2482;
pub const SINPI_3_9: i32 = 3344;
pub const SINPI_4_9: i32 = 3803;

/// A coefficient magnitude within which every 4x4 kernel runs without overflow, whatever the
/// signs (the kernels accept any coefficients whose intermediate values fit: `spec_2d_fits`).
pub const MAX_COEFF_4X4: i32 = 8191;

/// The one-dimensional transforms of the 4x4 kernels.
#[derive(Debug, Clone, Copy, PartialEq, Eq, Structural)]
pub enum Transform1d {
    Dct,
    Adst,
}

/// `x` divided by `2^12`, rounding half up.
pub open spec fn spec_round_shift12(x: int) -> int {
    (x + 2048) / 4096
}

/// The 4-point inverse DCT.
pub open spec fn spec_idct4(i0: int, i1: int, i2: int, i3: int) -> (int, int, int, int) {
    let c0 = spec_round_shift12((i0 + i2) * 11585);
    let c1 = spec_round_shift12((i0 - i2) * 11585);
    let c2 = spec_round_shift12(i1 * 6270 - i3 * 15137);
    let c3 = spec_round_shift12(i1 * 15137 + i3 * 6270);
    (c0 + c3, c1 + c2, c1 - c2, c0 - c3)
}

/// The 4-point inverse ADST.
pub open spec fn spec_iadst4(x0: int, x1: int, x2: int, x3: int) -> (int, int, int, int) {
    let s0 = 1321 * x0 + 3803 * x2 + 2482 * x3;
    let s1 = 2482 * x0 - 1321 * x2 - 3803 * x3;
    let s3 = 3344 * x1;
    let s2 = 3344 * (x0 - x2 + x3);
    (spec_round_shift12(s0 + s3), spec_round_shift12(s1 + s3), spec_round_shift12(s2), spec_round_shift12(s0 + s1 - s3))
}

pub open spec fn spec_1d(kind: Transform1d, a: int, b: int, c: int, d: int) -> (int, int, int, int) {
    match kind {
        Transform1d::Dct => spec_idct4(a, b, c, d),
        Transform1d::Adst => spec_iadst4(a, b, c, d),
    }
}

pub open spec fn spec_pick(t: (int, int, int, int), i: int) -> int {
    if i == 0 { t.0 } else if i == 1 { t.1 } else if i == 2 { t.2 } else { t.3 }
}

/// The row pass: entry `r * 4 + c` is output `c` of the horizontal transform of row `r`.
pub open spec fn spec_row_pass(coeffs: Seq<i32>, kind: Transform1d, r: int, c: int) -> int {
    spec_pick(spec_1d(kind, coeffs[r * 4] as int, coeffs[r * 4 + 1] as int, coeffs[r * 4 + 2] as int, coeffs[r * 4 + 3] as int), c)
}

/// `v` clamped to the 16-bit signed range.
pub open spec fn spec_clamp16(v: int) -> i16 {
    (if v < -32768 { -32768 } else if v > 32767 { 32767 } else { v }) as i16
}

/// Residual `(r, c)` of a 4x4 block: the horizontal transform `row_kind` on each row, then the
/// vertical transform `col_kind` on each column, then division by 16 rounding half up, clamped
/// to 16 bits.
pub open spec fn spec_inv_2d(coeffs: Seq<i32>, row_kind: Transform1d, col_kind: Transform1d, r: int, c: int) -> i16 {
    let col = spec_1d(col_kind, spec_row_pass(coeffs, row_kind, 0, c), spec_row_pass(coeffs, row_kind, 1, c),
        spec_row_pass(coeffs, row_kind, 2, c), spec_row_pass(coeffs, row_kind, 3, c));
    spec_clamp16((spec_pick(col, r) + 8) / 16)
}

/// `x` fits in 32 signed bits.
pub open spec fn spec_i32(x: int) -> bool {
    i32::MIN <= x <= i32::MAX
}

/// `x` fits in 32 signed bits with room for the rounding offset of a 12-bit shift.
pub open spec fn spec_rs_fits(x: int) -> bool {
    i32::MIN <= x <= i32::MAX - 2048
}

/// Every intermediate value of the one-dimensional transform `kind` of `(a, b, c, d)`, in the
/// order the kernels compute them, fits in 32 signed bits.
#[verifier::opaque]
pub open spec fn spec_1d_fits(kind: Transform1d, a: int, b: int, c: int, d: int) -> bool {
    match kind {
        Transform1d::Dct => {
            let t = spec_idct4(a, b, c, d);
            &&& spec_i32(a + c) && spec_rs_fits((a + c) * 11585)
            &&& spec_i32(a - c) && spec_rs_fits((a - c) * 11585)
            &&& spec_i32(b * 6270) && spec_i32(d * 15137) && spec_rs_fits(b * 6270 - d * 15137)
            &&& spec_i32(b * 15137) && spec_i32(d * 6270) && spec_rs_fits(b * 15137 + d * 6270)
            &&& spec_i32(t.0) && spec_i32(t.1) && spec_i32(t.2) && spec_i32(t.3)
        },
        Transform1d::Adst => {
            let s0 = 1321 * a + 3803 * c + 2482 * d;
            let s1 = 2482 * a - 1321 * c - 3803 * d;
            let s3 = 3344 * b;
            let s2 = 3344 * (a - c + d);
            &&& spec_i32(1321 * a) && spec_i32(3803 * c) && spec_i32(1321 * a + 3803 * c) && spec_i32(2482 * d) && spec_i32(s0)
            &&& spec_i32(2482 * a) && spec_i32(1321 * c) && spec_i32(2482 * a - 1321 * c) && spec_i32(3803 * d) && spec_i32(s1)
            &&& spec_i32(s3)
            &&& spec_i32(a - c) && spec_i32(a - c + d) && spec_i32(s2)
            &&& spec_rs_fits(s0 + s3) && spec_rs_fits(s1 + s3) && spec_rs_fits(s2)
            &&& spec_i32(s0 + s1) && spec_rs_fits(s0 + s1 - s3)
        },
    }
}

/// The row transform of row `r` fits in 32 bits.
#[verifier::opaque]
pub open spec fn spec_row_fits(coeffs: Seq<i32>, kind: Transform1d, r: int) -> bool {
    spec_1d_fits(kind, coeffs[r * 4] as int, coeffs[r * 4 + 1] as int, coeffs[r * 4 + 2] as int, coeffs[r * 4 + 3] as int)
}

/// The column transform of column `c` (after the row pass) fits in 32 bits, rounding offset
/// of the final division included.
#[verifier::opaque]
pub open spec fn spec_col_fits(coeffs: Seq<i32>, row_kind: Transform1d, col_kind: Transform1d, c: int) -> bool {
    let a = spec_row_pass(coeffs, row_kind, 0, c);
    let b = spec_row_pass(coeffs, row_kind, 1, c);
    let cc = spec_row_pass(coeffs, row_kind, 2, c);
    let d = spec_row_pass(coeffs, row_kind, 3, c);
    let t = spec_1d(col_kind, a, b, cc, d);
    &&& spec_1d_fits(col_kind, a, b, cc, d)
    &&& spec_i32(t.0 + 8) && spec_i32(t.1 + 8) && spec_i32(t.2 + 8) && spec_i32(t.3 + 8)
}

/// No intermediate value of the 4x4 inverse transform (rows `row_kind`, then columns
/// `col_kind`) overflows 32 signed bits.
pub open spec fn spec_2d_fits(coeffs: Seq<i32>, row_kind: Transform1d, col_kind: Transform1d) -> bool {
    &&& coeffs.len() == 16
    &&& spec_row_fits(coeffs, row_kind, 0) && spec_row_fits(coeffs, row_kind, 1)
    &&& spec_row_fits(coeffs, row_kind, 2) && spec_row_fits(coeffs, row_kind, 3)
    &&& spec_col_fits(coeffs, row_kind, col_kind, 0) && spec_col_fits(coeffs, row_kind, col_kind, 1)
    &&& spec_col_fits(coeffs, row_kind, col_kind, 2) && spec_col_fits(coeffs, row_kind, col_kind, 3)
}

/// All 16 coefficients lie within the range where no kernel can overflow.
pub open spec fn spec_coeffs_in_range(coeffs: Seq<i32>) -> bool {
    forall|i: int| 0 <= i < 16 ==> -MAX_COEFF_4X4 <= #[trigger] coeffs[i] <= MAX_COEFF_4X4
}

/// `dst` holds `value(r, c)` at `r * stride + c` for the 4x4 block and is unchanged elsewhere.
pub open spec fn spec_block_written<T>(old_dst: Seq<T>, dst: Seq<T>, stride: int, value: spec_fn(int, int) -> T) -> bool {
    &&& dst.len() == old_dst.len()
    &&& forall|i: int| 0 <= i < dst.len() ==> #[trigger] dst[i]
        == (if i / stride < 4 && i % stride < 4 { value(i / stride, i % stride) } else { old_dst[i] })
}

/// Where a block is written, position `r * stride + c` holds `value(r, c)`.
pub proof fn lemma_block_entry<T>(old_dst: Seq<T>, dst: Seq<T>, stride: int, value: spec_fn(int, int) -> T, r: int, c: int)
    requires
        spec_block_written(old_dst, dst, stride, value),
        spec_block_fits(old_dst.len() as int, stride),
        stride >= 4,
        0 <= r < 4,
        0 <= c < 4,
    ensures
        dst[r * stride + c] == value(r, c),
{
    vstd::arithmetic::div_mod::lemma_fundamental_div_mod_converse(r * stride + c, stride, r, c);
    assert(r * stride + c < dst.len()) by (nonlinear_arith)
        requires 0 <= r < 4, 0 <= c < 4, 3 * stride + 3 < dst.len(), stride >= 4;
    assert(0 <= r * stride + c) by (nonlinear_arith)
        requires 0 <= r, 0 <= c, stride >= 4;
}

/// A block whose only coefficient is the DC term transforms to a flat block under DCT_DCT.
pub proof fn lemma_dc_only_is_flat(coeffs: Seq<i32>, r: int, c: int)
    requires
        coeffs.len() == 16,
        forall|i: int| 1 <= i < 16 ==> coeffs[i] == 0,
        0 <= r < 4,
        0 <= c < 4,
    ensures
        spec_inv_2d(coeffs, Transform1d::Dct, Transform1d::Dct, r, c) == spec_inv_2d(coeffs, Transform1d::Dct, Transform1d::Dct, 0, 0),
{
    assert(coeffs[1] == 0 && coeffs[2] == 0 && coeffs[3] == 0 && coeffs[4] == 0 && coeffs[5] == 0 && coeffs[6] == 0);
    assert(coeffs[7] == 0 && coeffs[8] == 0 && coeffs[9] == 0 && coeffs[10] == 0 && coeffs[11] == 0 && coeffs[12] == 0);
    assert(coeffs[13] == 0 && coeffs[14] == 0 && coeffs[15] == 0);
    assert(spec_round_shift12(0) == 0);
    assert forall|cc: int| 0 <= cc < 4 implies spec_row_pass(coeffs, Transform1d::Dct, 0, cc) == spec_row_pass(coeffs, Transform1d::Dct, 0, 0)
        && spec_row_pass(coeffs, Transform1d::Dct, 1, cc) == 0 && spec_row_pass(coeffs, Transform1d::Dct, 2, cc) == 0
        && spec_row_pass(coeffs, Transform1d::Dct, 3, cc) == 0 by {
    }
}

/// An all-zero block transforms to an all-zero residual under every pair of 1-D transforms.
pub proof fn lemma_zero_block_is_zero(coeffs: Seq<i32>, row_kind: Transform1d, col_kind: Transform1d, r: int, c: int)
    requires
        coeffs.len() == 16,
        forall|i: int| 0 <= i < 16 ==> coeffs[i] == 0,
        0 <= r < 4,
        0 <= c < 4,
    ensures
        spec_inv_2d(coeffs, row_kind, col_kind, r, c) == 0,
{
    assert(coeffs[0] == 0 && coeffs[1] == 0 && coeffs[2] == 0 && coeffs[3] == 0 && coeffs[4] == 0 && coeffs[5] == 0);
    assert(coeffs[6] == 0 && coeffs[7] == 0 && coeffs[8] == 0 && coeffs[9] == 0 && coeffs[10] == 0 && coeffs[11] == 0);
    assert(coeffs[12] == 0 && coeffs[13] == 0 && coeffs[14] == 0 && coeffs[15] == 0);
    assert(spec_round_shift12(0) == 0);
    assert forall|rr: int, cc: int| 0 <= rr < 4 && 0 <= cc < 4 implies spec_row_pass(coeffs, row_kind, rr, cc) == 0 by {
    }
}

/// The destination of a 4x4 block with row stride `stride`: every position `r * stride + c`
/// of the block lies within it.
pub open spec fn spec_block_fits(len: int, stride: int) -> bool {
    0 <= stride && 3 * stride + 3 < len
}

/// The row and column of write `k` of a block written row by row.
pub open spec fn spec_row_major(k: int) -> (int, int) {
    (k / 4, k % 4)
}

/// The row and column of write `k` of a block written column by column.
pub open spec fn spec_col_major(k: int) -> (int, int) {
    (k % 4, k / 4)
}

/// `dst` after the first `n` writes of a 4x4 block with row stride `stride` in the order `pos`:
/// write `k` puts `value(r, c)` at `r * stride + c`, where `(r, c) = pos(k)`. Where rows overlap
/// (a stride below 4), a later write replaces an earlier one.
pub open spec fn spec_writes<T>(dst: Seq<T>, stride: int, pos: spec_fn(int) -> (int, int), value: spec_fn(int, int) -> T, n: int) -> Seq<T>
    decreases n,
{
    if n <= 0 {
        dst
    } else {
        let p = pos(n - 1);
        spec_writes(dst, stride, pos, value, n - 1).update(p.0 * stride + p.1, value(p.0, p.1))
    }
}

/// With rows that do not overlap, the writes of a whole block in an order that visits each of
/// its positions once leave each position of the block holding its value and the rest as it was.
pub proof fn lemma_writes_block<T>(dst: Seq<T>, stride: int, pos: spec_fn(int) -> (int, int), idx: spec_fn(int, int) -> int,
    value: spec_fn(int, int) -> T, n: int)
    requires
        stride >= 4,
        3 * stride + 3 < dst.len(),
        0 <= n <= 16,
        forall|k: int| 0 <= k < 16 ==> 0 <= (#[trigger] pos(k)).0 < 4 && 0 <= pos(k).1 < 4 && idx(pos(k).0, pos(k).1) == k,
        forall|r: int, c: int| 0 <= r < 4 && 0 <= c < 4 ==> 0 <= #[trigger] idx(r, c) < 16 && pos(idx(r, c)) == (r, c),
    ensures
        spec_writes(dst, stride, pos, value, n).len() == dst.len(),
        forall|i: int| 0 <= i < dst.len() ==> #[trigger] spec_writes(dst, stride, pos, value, n)[i]
            == (if i / stride < 4 && i % stride < 4 && idx(i / stride, i % stride) < n { value(i / stride, i % stride) } else { dst[i] }),
    decreases n,
{
    if n > 0 {
        lemma_writes_block(dst, stride, pos, idx, value, n - 1);
        let p = pos(n - 1);
        let j = p.0 * stride + p.1;
        assert(0 <= j < dst.len()) by (nonlinear_arith)
            requires 0 <= p.0 < 4, 0 <= p.1 < 4, stride >= 4, 3 * stride + 3 < dst.len(), j == p.0 * stride + p.1;
        vstd::arithmetic::div_mod::lemma_fundamental_div_mod_converse(j, stride, p.0, p.1);
        let prev = spec_writes(dst, stride, pos, value, n - 1);
        assert forall|i: int| 0 <= i < dst.len() implies #[trigger] spec_writes(dst, stride, pos, value, n)[i]
            == (if i / stride < 4 && i % stride < 4 && idx(i / stride, i % stride) < n { value(i / stride, i % stride) } else { dst[i] }) by {
            if i != j {
                assert(spec_writes(dst, stride, pos, value, n)[i] == prev[i]);
                if i / stride < 4 && i % stride < 4 && idx(i / stride, i % stride) == n - 1 {
                    vstd::arithmetic::div_mod::lemma_fundamental_div_mod(i, stride);
                    assert(0 <= i % stride);
                    assert(pos(idx(i / stride, i % stride)) == (i / stride, i % stride));
                    assert(i == (i / stride) * stride + i % stride) by (nonlinear_arith)
                        requires i == stride * (i / stride) + i % stride;
                }
            }
        }
    }
}

/// Row-by-row writes of a whole block with rows that do not overlap.
pub proof fn lemma_row_major_block<T>(dst: Seq<T>, stride: int, value: spec_fn(int, int) -> T)
    requires
        stride >= 4,
        3 * stride + 3 < dst.len(),
    ensures
        spec_block_written(dst, spec_writes(dst, stride, |k: int| spec_row_major(k), value, 16), stride, value),
{
    let pos = |k: int| spec_row_major(k);
    let idx = |r: int, c: int| r * 4 + c;
    lemma_writes_block(dst, stride, pos, idx, value, 16);
    let w = spec_writes(dst, stride, pos, value, 16);
    assert forall|i: int| 0 <= i < w.len() implies #[trigger] w[i]
        == (if i / stride < 4 && i % stride < 4 { value(i / stride, i % stride) } else { dst[i] }) by {
        if i / stride < 4 && i % stride < 4 {
            vstd::arithmetic::div_mod::lemma_fundamental_div_mod(i, stride);
            assert(idx(i / stride, i % stride) < 16);
        }
    }
}

/// Column-by-column writes of a whole block with rows that do not overlap.
pub proof fn lemma_col_major_block<T>(dst: Seq<T>, stride: int, value: spec_fn(int, int) -> T)
    requires
        stride >= 4,
        3 * stride + 3 < dst.len(),
    ensures
        spec_block_written(dst, spec_writes(dst, stride, |k: int| spec_col_major(k), value, 16), stride, value),
{
    let pos = |k: int| spec_col_major(k);
    let idx = |r: int, c: int| c * 4 + r;
    lemma_writes_block(dst, stride, pos, idx, value, 16);
    let w = spec_writes(dst, stride, pos, value, 16);
    assert forall|i: int| 0 <= i < w.len() implies #[trigger] w[i]
        == (if i / stride < 4 && i % stride < 4 { value(i / stride, i % stride) } else { dst[i] }) by {
        if i / stride < 4 && i % stride < 4 {
            vstd::arithmetic::div_mod::lemma_fundamental_div_mod(i, stride);
            assert(idx(i / stride, i % stride) < 16);
        }
    }
}

/// Inverse 4x4 transforms writing residuals into a strided destination.
pub trait Kernels {
    /// Inverse 4x4 DCT_DCT, written column by column.
    fn inv_dct4x4(&self, coeffs: &[i32; 16], dst: &mut [i16], dst_stride: usize)
        requires
            spec_2d_fits(coeffs@, Transform1d::Dct, Transform1d::Dct),
            spec_block_fits(old(dst)@.len() as int, dst_stride as int),
        ensures
            final(dst)@ == spec_writes(old(dst)@, dst_stride as int, |k: int| spec_col_major(k),
                |r: int, c: int| spec_inv_2d(coeffs@, Transform1d::Dct, Transform1d::Dct, r, c), 16),
    ;

    /// Inverse 4x4 IDTX, written row by row: each coefficient passes through, clamped to 16 bits.
    fn inv_idtx4x4(&self, coeffs: &[i32; 16], dst: &mut [i16], dst_stride: usize)
        requires
            spec_block_fits(old(dst)@.len() as int, dst_stride as int),
        ensures
            final(dst)@ == spec_writes(old(dst)@, dst_stride as int, |k: int| spec_row_major(k),
                |r: int, c: int| spec_clamp16(coeffs@[r * 4 + c] as int), 16),
    ;

    /// Inverse 4x4 ADST_DCT: ADST vertically, DCT horizontally, written column by column.
    fn inv_adstdct4x4(&self, coeffs: &[i32; 16], dst: &mut [i16], dst_stride: usize)
        requires
            spec_2d_fits(coeffs@, Transform1d::Dct, Transform1d::Adst),
            spec_block_fits(old(dst)@.len() as int, dst_stride as int),
        ensures
            final(dst)@ == spec_writes(old(dst)@, dst_stride as int, |k: int| spec_col_major(k),
                |r: int, c: int| spec_inv_2d(coeffs@, Transform1d::Dct, Transform1d::Adst, r, c), 16),
    ;

    /// Inverse 4x4 DCT_ADST: DCT vertically, ADST horizontally, written column by column.
    fn inv_dctadst4x4(&self, coeffs: &[i32; 16], dst: &mut [i16], dst_stride: usize)
        requires
            spec_2d_fits(coeffs@, Transform1d::Adst, Transform1d::Dct),
            spec_block_fits(old(dst)@.len() as int, dst_stride as int),
        ensures
            final(dst)@ == spec_writes(old(dst)@, dst_stride as int, |k: int| spec_col_major(k),
                |r: int, c: int| spec_inv_2d(coeffs@, Transform1d::Adst, Transform1d::Dct, r, c), 16),
    ;
}

/// Portable scalar kernels.
#[derive(Debug, Clone, Copy)]
pub struct Scalar;

/// Return the best available kernel implementation: the scalar one.
pub fn detect() -> (k: Scalar) {
    Scalar
}

fn round_shift12(x: i32) -> (r: i32)
    requires
        x <= i32::MAX - 2048,
    ensures
        r == spec_round_shift12(x as int),
{
    let y = x + 2048;
    let r = y >> 12u32;
    assert(r == y / 4096) by (bit_vector)
        requires r == y >> 12u32;
    r
}

/// Bound on the outputs of a one-dimensional transform of inputs bounded by `b`, and that its
/// intermediate values fit in 32 bits.
proof fn lemma_1d_bounds(kind: Transform1d, a: int, b2: int, c: int, d: int, b: int)
    requires
        0 <= b <= 92000,
        -b <= a <= b,
        -b <= b2 <= b,
        -b <= c <= b,
        -b <= d <= b,
    ensures
        spec_1d_fits(kind, a, b2, c, d),
        -(11 * b + 2) <= spec_1d(kind, a, b2, c, d).0 <= 11 * b + 2,
        -(11 * b + 2) <= spec_1d(kind, a, b2, c, d).1 <= 11 * b + 2,
        -(11 * b + 2) <= spec_1d(kind, a, b2, c, d).2 <= 11 * b + 2,
        -(11 * b + 2) <= spec_1d(kind, a, b2, c, d).3 <= 11 * b + 2,
{
    reveal(spec_1d_fits);
}

/// The row transform of a row of coefficients within the accepted range fits, with outputs
/// bounded by `11 * 8191 + 2`.
proof fn lemma_row_in_range(coeffs: Seq<i32>, kind: Transform1d, r: int)
    requires
        coeffs.len() == 16,
        spec_coeffs_in_range(coeffs),
        0 <= r < 4,
    ensures
        spec_row_fits(coeffs, kind, r),
        forall|c: int| 0 <= c < 4 ==> -(11 * 8191 + 2) <= #[trigger] spec_row_pass(coeffs, kind, r, c) <= 11 * 8191 + 2,
{
    reveal(spec_row_fits);
    assert(-8191 <= coeffs[r * 4] <= 8191 && -8191 <= coeffs[r * 4 + 1] <= 8191);
    assert(-8191 <= coeffs[r * 4 + 2] <= 8191 && -8191 <= coeffs[r * 4 + 3] <= 8191);
    lemma_1d_bounds(kind, coeffs[r * 4] as int, coeffs[r * 4 + 1] as int, coeffs[r * 4 + 2] as int, coeffs[r * 4 + 3] as int, 8191);
}

/// The column transform of bounded row outputs fits.
proof fn lemma_col_in_range(coeffs: Seq<i32>, row_kind: Transform1d, col_kind: Transform1d, c: int)
    requires
        0 <= c < 4,
        forall|r: int| 0 <= r < 4 ==> -(11 * 8191 + 2) <= #[trigger] spec_row_pass(coeffs, row_kind, r, c) <= 11 * 8191 + 2,
    ensures
        spec_col_fits(coeffs, row_kind, col_kind, c),
{
    reveal(spec_col_fits);
    let a = spec_row_pass(coeffs, row_kind, 0, c);
    let b = spec_row_pass(coeffs, row_kind, 1, c);
    let cc = spec_row_pass(coeffs, row_kind, 2, c);
    let d = spec_row_pass(coeffs, row_kind, 3, c);
    lemma_1d_bounds(col_kind, a, b, cc, d, 11 * 8191 + 2int);
}

/// Coefficients within the accepted range transform without overflow under every pair of
/// one-dimensional transforms.
pub proof fn lemma_in_range_fits(coeffs: Seq<i32>, row_kind: Transform1d, col_kind: Transform1d)
    requires
        coeffs.len() == 16,
        spec_coeffs_in_range(coeffs),
    ensures
        spec_2d_fits(coeffs, row_kind, col_kind),
{
    lemma_row_in_range(coeffs, row_kind, 0);
    lemma_row_in_range(coeffs, row_kind, 1);
    lemma_row_in_range(coeffs, row_kind, 2);
    lemma_row_in_range(coeffs, row_kind, 3);
    assert forall|c: int| 0 <= c < 4 implies spec_col_fits(coeffs, row_kind, col_kind, c) by {
        assert forall|r: int| 0 <= r < 4 implies -(11 * 8191 + 2) <= #[trigger] spec_row_pass(coeffs, row_kind, r, c) <= 11 * 8191 + 2 by {
            lemma_row_in_range(coeffs, row_kind, r);
        }
        lemma_col_in_range(coeffs, row_kind, col_kind, c);
    }
}

fn transform_1d(kind: Transform1d, i0: i32, i1: i32, i2: i32, i3: i32) -> (o: [i32; 4])
    requires
        spec_1d_fits(kind, i0 as int, i1 as int, i2 as int, i3 as int),
    ensures
        (o[0] as int, o[1] as int, o[2] as int, o[3] as int) == spec_1d(kind, i0 as int, i1 as int, i2 as int, i3 as int),
{
    proof {
        reveal(spec_1d_fits);
    }
    match kind {
        Transform1d::Dct => {
            let c0 = round_shift12((i0 + i2) * COSPI_16_64);
            let c1 = round_shift12((i0 - i2) * COSPI_16_64);
            let c2 = round_shift12(i1 * COSPI_24_64 - i3 * COSPI_8_64);
            let c3 = round_shift12(i1 * COSPI_8_64 + i3 * COSPI_24_64);
            [c0 + c3, c1 + c2, c1 - c2, c0 - c3]
        },
        Transform1d::Adst => {
            let s0 = SINPI_1_9 * i0 + SINPI_4_9 * i2 + SINPI_2_9 * i3;
            let s1 = SINPI_2_9 * i0 - SINPI_1_9 * i2 - SINPI_4_9 * i3;
            let s3 = SINPI_3_9 * i1;
            let s2 = SINPI_3_9 * (i0 - i2 + i3);
            [round_shift12(s0 + s3), round_shift12(s1 + s3), round_shift12(s2), round_shift12(s0 + s1 - s3)]
        },
    }
}

fn clamp16(v: i32) -> (r: i16)
    ensures
        r == spec_clamp16(v as int),
{
    if v < -32768 {
        -32768
    } else if v > 32767 {
        32767
    } else {
        v as i16
    }
}

/// Writing one more position: the first `n + 1` writes are the first `n` followed by write `n`.
proof fn lemma_writes_next<T>(dst: Seq<T>, stride: int, pos: spec_fn(int) -> (int, int), value: spec_fn(int, int) -> T, n: int)
    requires
        0 <= n,
    ensures
        spec_writes(dst, stride, pos, value, n + 1)
            == spec_writes(dst, stride, pos, value, n).update(pos(n).0 * stride + pos(n).1, value(pos(n).0, pos(n).1)),
{
}

/// Residual `(r, c)` of the block from the column transform output `o` of column `c`.
proof fn lemma_col_value(coeffs: Seq<i32>, row_kind: Transform1d, col_kind: Transform1d, o: int, r: int, c: int)
    requires
        o == spec_pick(spec_1d(col_kind, spec_row_pass(coeffs, row_kind, 0, c), spec_row_pass(coeffs, row_kind, 1, c),
            spec_row_pass(coeffs, row_kind, 2, c), spec_row_pass(coeffs, row_kind, 3, c)), r),
    ensures
        spec_inv_2d(coeffs, row_kind, col_kind, r, c) == spec_clamp16((o + 8) / 16),
{
}

#[verifier::spinoff_prover]
fn inv_2d(coeffs: &[i32; 16], dst: &mut [i16], dst_stride: usize, row_kind: Transform1d, col_kind: Transform1d)
    requires
        spec_2d_fits(coeffs@, row_kind, col_kind),
        spec_block_fits(old(dst)@.len() as int, dst_stride as int),
    ensures
        final(dst)@ == spec_writes(old(dst)@, dst_stride as int, |k: int| spec_col_major(k),
            |r: int, c: int| spec_inv_2d(coeffs@, row_kind, col_kind, r, c), 16),
{
    let ghost pos = |k: int| spec_col_major(k);
    let ghost value = |r: int, c: int| spec_inv_2d(coeffs@, row_kind, col_kind, r, c);
    let mut tmp = [[0i32; 4]; 4];
    let mut r: usize = 0;
    while r < 4
        invariant
            r <= 4,
            spec_2d_fits(coeffs@, row_kind, col_kind),
            forall|i: int, c: int| 0 <= i < r && 0 <= c < 4 ==> tmp@[i]@[c] == spec_row_pass(coeffs@, row_kind, i, c),
        decreases 4 - r,
    {
        let a = coeffs[r * 4];
        let b = coeffs[r * 4 + 1];
        let c = coeffs[r * 4 + 2];
        let d = coeffs[r * 4 + 3];
        proof {
            assert(spec_row_fits(coeffs@, row_kind, r as int));
            reveal(spec_row_fits);
        }
        tmp[r] = transform_1d(row_kind, a, b, c, d);
        r = r + 1;
    }
    let ghost old_dst = dst@;
    let ghost stride = dst_stride as int;
    let mut c: usize = 0;
    while c < 4
        invariant
            c <= 4,
            stride == dst_stride,
            spec_block_fits(old_dst.len() as int, stride),
            spec_2d_fits(coeffs@, row_kind, col_kind),
            pos == (|k: int| spec_col_major(k)),
            value == (|r: int, c: int| spec_inv_2d(coeffs@, row_kind, col_kind, r, c)),
            forall|i: int, k: int| 0 <= i < 4 && 0 <= k < 4 ==> tmp@[i]@[k] == spec_row_pass(coeffs@, row_kind, i, k),
            dst@.len() == old_dst.len(),
            dst@ == spec_writes(old_dst, stride, pos, value, c * 4),
        decreases 4 - c,
    {
        let ghost ca = spec_row_pass(coeffs@, row_kind, 0, c as int);
        let ghost cb = spec_row_pass(coeffs@, row_kind, 1, c as int);
        let ghost cc = spec_row_pass(coeffs@, row_kind, 2, c as int);
        let ghost cd = spec_row_pass(coeffs@, row_kind, 3, c as int);
        let ghost t = spec_1d(col_kind, ca, cb, cc, cd);
        proof {
            assert(spec_col_fits(coeffs@, row_kind, col_kind, c as int)) by {
                if c == 0 {} else if c == 1 {} else if c == 2 {} else {}
            }
            assert(spec_1d_fits(col_kind, ca, cb, cc, cd) && spec_i32(t.0 + 8) && spec_i32(t.1 + 8)
                && spec_i32(t.2 + 8) && spec_i32(t.3 + 8)) by {
                reveal(spec_col_fits);
            }
            assert(tmp@[0]@[c as int] == ca && tmp@[1]@[c as int] == cb && tmp@[2]@[c as int] == cc && tmp@[3]@[c as int] == cd);
        }
        let out = transform_1d(col_kind, tmp[0][c], tmp[1][c], tmp[2][c], tmp[3][c]);
        assert(spec_i32(out@[0] + 8) && spec_i32(out@[1] + 8) && spec_i32(out@[2] + 8) && spec_i32(out@[3] + 8));
        let mut rr: usize = 0;
        while rr < 4
            invariant
                rr <= 4,
                c < 4,
                stride == dst_stride,
                spec_block_fits(old_dst.len() as int, stride),
                dst@.len() == old_dst.len(),
                forall|k: int| 0 <= k < 4 ==> spec_i32(#[trigger] out@[k] + 8),
                pos == (|k: int| spec_col_major(k)),
                value == (|r: int, c: int| spec_inv_2d(coeffs@, row_kind, col_kind, r, c)),
                ca == spec_row_pass(coeffs@, row_kind, 0, c as int),
                cb == spec_row_pass(coeffs@, row_kind, 1, c as int),
                cc == spec_row_pass(coeffs@, row_kind, 2, c as int),
                cd == spec_row_pass(coeffs@, row_kind, 3, c as int),
                t == spec_1d(col_kind, ca, cb, cc, cd),
                forall|k: int| 0 <= k < 4 ==> out@[k] == spec_pick(t, k),
                dst@ == spec_writes(old_dst, stride, pos, value, c * 4 + rr),
            decreases 4 - rr,
        {
            let o = out[rr];
            let w = o + 8;
            let v = w >> 4u32;
            assert(v == w / 16) by (bit_vector)
                requires v == w >> 4u32;
            let len = dst.len();
            proof {
                assert(rr * dst_stride + c < old_dst.len()) by (nonlinear_arith)
                    requires rr < 4, c < 4, 3 * dst_stride + 3 < old_dst.len();
                assert(spec_col_major(c * 4 + rr) == (rr as int, c as int));
            }
            let idx = rr * dst_stride + c;
            let cv = clamp16(v);
            proof {
                assert(o == spec_pick(t, rr as int));
                lemma_col_value(coeffs@, row_kind, col_kind, o as int, rr as int, c as int);
                lemma_writes_next(old_dst, stride, pos, value, c * 4 + rr);
            }
            dst[idx] = cv;
            rr = rr + 1;
        }
        c = c + 1;
    }
}

impl Kernels for Scalar {
    fn inv_dct4x4(&self, coeffs: &[i32; 16], dst: &mut [i16], dst_stride: usize) {
        inv_2d(coeffs, dst, dst_stride, Transform1d::Dct, Transform1d::Dct);
    }

    fn inv_idtx4x4(&self, coeffs: &[i32; 16], dst: &mut [i16], dst_stride: usize) {
        let ghost old_dst = dst@;
        let ghost stride = dst_stride as int;
        let ghost pos = |k: int| spec_row_major(k);
        let ghost value = |r: int, c: int| spec_clamp16(coeffs@[r * 4 + c] as int);
        let mut i: usize = 0;
        while i < 16
            invariant
                i <= 16,
                stride == dst_stride,
                spec_block_fits(old_dst.len() as int, stride),
                pos == (|k: int| spec_row_major(k)),
                value == (|r: int, c: int| spec_clamp16(coeffs@[r * 4 + c] as int)),
                dst@.len() == old_dst.len(),
                dst@ == spec_writes(old_dst, stride, pos, value, i as int),
            decreases 16 - i,
        {
            let r = i / 4;
            let c = i % 4;
            let len = dst.len();
            proof {
                assert(r * dst_stride + c < old_dst.len()) by (nonlinear_arith)
                    requires r < 4, c < 4, 3 * dst_stride + 3 < old_dst.len();
                assert(r * 4 + c == i);
                assert(spec_row_major(i as int) == (r as int, c as int));
            }
            dst[r * dst_stride + c] = clamp16(coeffs[i]);
            proof {
                assert(dst@ =~= spec_writes(old_dst, stride, pos, value, i + 1));
            }
            i = i + 1;
        }
    }

    fn inv_adstdct4x4(&self, coeffs: &[i32; 16], dst: &mut [i16], dst_stride: usize) {
        inv_2d(coeffs, dst, dst_stride, Transform1d::Dct, Transform1d::Adst);
    }

    fn inv_dctadst4x4(&self, coeffs: &[i32; 16], dst: &mut [i16], dst_stride: usize) {
        inv_2d(coeffs, dst, dst_stride, Transform1d::Adst, Transform1d::Dct);
    }
}

} // verus!
