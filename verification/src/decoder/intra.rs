//! Intra prediction of 4x4 luma blocks.
use vstd::prelude::*;
use super::kernels::{spec_block_written, spec_block_fits, spec_row_major, spec_writes, lemma_row_major_block};

verus! {

/// Sum of four samples.
pub open spec fn spec_sum4(s: Seq<u8>) -> int {
    s[0] as int + s[1] as int + s[2] as int + s[3] as int
}

/// The DC value of a 4x4 block: the rounded mean of the available edges, mid-gray without any.
pub open spec fn spec_dc_value(above: Option<Seq<u8>>, left: Option<Seq<u8>>) -> u8 {
    match (above, left) {
        (Some(a), Some(l)) => ((spec_sum4(a) + spec_sum4(l) + 4) / 8) as u8,
        (Some(a), None) => ((spec_sum4(a) + 2) / 4) as u8,
        (None, Some(l)) => ((spec_sum4(l) + 2) / 4) as u8,
        (None, None) => 128,
    }
}

pub open spec fn opt_view(o: Option<&[u8; 4]>) -> Option<Seq<u8>> {
    match o {
        Some(a) => Some(a@),
        None => None,
    }
}

fn sum4(a: &[u8; 4]) -> (s: u32)
    ensures
        s == spec_sum4(a@),
{
    a[0] as u32 + a[1] as u32 + a[2] as u32 + a[3] as u32
}

/// Fill the 4x4 block of `dst` with row stride `stride` row by row with the samples `rows`,
/// which are `value(r, c)`.
fn fill_block(dst: &mut [u8], stride: usize, rows: [[u8; 4]; 4], Ghost(value): Ghost<spec_fn(int, int) -> u8>)
    requires
        spec_block_fits(old(dst)@.len() as int, stride as int),
        forall|r: int, c: int| 0 <= r < 4 && 0 <= c < 4 ==> rows@[r]@[c] == value(r, c),
    ensures
        final(dst)@ == spec_writes(old(dst)@, stride as int, |k: int| spec_row_major(k), value, 16),
        stride >= 4 ==> spec_block_written(old(dst)@, final(dst)@, stride as int, value),
{
    let ghost old_dst = dst@;
    let ghost st = stride as int;
    let ghost pos = |k: int| spec_row_major(k);
    let mut y: usize = 0;
    while y < 4
        invariant
            y <= 4,
            st == stride,
            spec_block_fits(old_dst.len() as int, st),
            forall|r: int, c: int| 0 <= r < 4 && 0 <= c < 4 ==> rows@[r]@[c] == value(r, c),
            pos == (|k: int| spec_row_major(k)),
            dst@.len() == old_dst.len(),
            dst@ == spec_writes(old_dst, st, pos, value, y * 4),
        decreases 4 - y,
    {
        let mut x: usize = 0;
        while x < 4
            invariant
                x <= 4,
                y < 4,
                st == stride,
                spec_block_fits(old_dst.len() as int, st),
                forall|r: int, c: int| 0 <= r < 4 && 0 <= c < 4 ==> rows@[r]@[c] == value(r, c),
                pos == (|k: int| spec_row_major(k)),
                dst@.len() == old_dst.len(),
                dst@ == spec_writes(old_dst, st, pos, value, y * 4 + x),
            decreases 4 - x,
        {
            let len = dst.len();
            proof {
                assert(y * stride + x < old_dst.len()) by (nonlinear_arith)
                    requires y < 4, x < 4, 3 * stride + 3 < old_dst.len();
                assert(spec_row_major(y * 4 + x) == (y as int, x as int));
                assert(rows@[y as int]@[x as int] == value(y as int, x as int));
                assert(spec_writes(old_dst, st, pos, value, y * 4 + x + 1)
                    == spec_writes(old_dst, st, pos, value, y * 4 + x).update(y * st + x, value(y as int, x as int)));
            }
            dst[y * stride + x] = rows[y][x];
            x = x + 1;
        }
        y = y + 1;
    }
    proof {
        if stride >= 4 {
            lemma_row_major_block(old_dst, st, value);
        }
    }
}

/// DC intra prediction for a 4x4 block.
pub fn predict_dc_4x4(above: Option<&[u8; 4]>, left: Option<&[u8; 4]>, dst: &mut [u8], stride: usize)
    requires
        spec_block_fits(old(dst)@.len() as int, stride as int),
    ensures
        final(dst)@ == spec_writes(old(dst)@, stride as int, |k: int| spec_row_major(k),
            |r: int, c: int| spec_dc_value(opt_view(above), opt_view(left)), 16),
        stride >= 4 ==> spec_block_written(old(dst)@, final(dst)@, stride as int, |r: int, c: int| spec_dc_value(opt_view(above), opt_view(left))),
{
    let dc: u32 = match (above, left) {
        (Some(a), Some(l)) => {
            let t: u32 = sum4(a) + sum4(l) + 4;
            let d = t >> 3u32;
            assert(d == t / 8) by (bit_vector)
                requires d == t >> 3u32;
            d
        },
        (Some(a), None) => {
            let t: u32 = sum4(a) + 2;
            let d = t >> 2u32;
            assert(d == t / 4) by (bit_vector)
                requires d == t >> 2u32;
            d
        },
        (None, Some(l)) => {
            let t: u32 = sum4(l) + 2;
            let d = t >> 2u32;
            assert(d == t / 4) by (bit_vector)
                requires d == t >> 2u32;
            d
        },
        (None, None) => {
            let d = 1u32 << 7u32;
            assert(d == 128) by (bit_vector)
                requires d == 1u32 << 7u32;
            d
        },
    };
    let v = dc as u8;
    fill_block(dst, stride, [[v; 4]; 4], Ghost(|r: int, c: int| spec_dc_value(opt_view(above), opt_view(left))));
}

/// The fill of a vertical or horizontal prediction: the given edge, or mid-gray without one.
pub open spec fn spec_edge_or_mid(edge: Option<Seq<u8>>, i: int) -> u8 {
    match edge {
        Some(e) => e[i],
        None => 128,
    }
}

/// Vertical intra prediction: each column repeats the sample above it.
pub fn predict_v_4x4(above: Option<&[u8; 4]>, dst: &mut [u8], stride: usize)
    requires
        spec_block_fits(old(dst)@.len() as int, stride as int),
    ensures
        final(dst)@ == spec_writes(old(dst)@, stride as int, |k: int| spec_row_major(k),
            |r: int, c: int| spec_edge_or_mid(opt_view(above), c), 16),
        stride >= 4 ==> spec_block_written(old(dst)@, final(dst)@, stride as int, |r: int, c: int| spec_edge_or_mid(opt_view(above), c)),
{
    let fill: [u8; 4] = match above {
        Some(a) => *a,
        None => [128u8; 4],
    };
    fill_block(dst, stride, [fill, fill, fill, fill], Ghost(|r: int, c: int| spec_edge_or_mid(opt_view(above), c)));
}

/// Horizontal intra prediction: each row repeats the sample left of it.
pub fn predict_h_4x4(left: Option<&[u8; 4]>, dst: &mut [u8], stride: usize)
    requires
        spec_block_fits(old(dst)@.len() as int, stride as int),
    ensures
        final(dst)@ == spec_writes(old(dst)@, stride as int, |k: int| spec_row_major(k),
            |r: int, c: int| spec_edge_or_mid(opt_view(left), r), 16),
        stride >= 4 ==> spec_block_written(old(dst)@, final(dst)@, stride as int, |r: int, c: int| spec_edge_or_mid(opt_view(left), r)),
{
    let fill: [u8; 4] = match left {
        Some(l) => *l,
        None => [128u8; 4],
    };
    fill_block(dst, stride, [[fill[0]; 4], [fill[1]; 4], [fill[2]; 4], [fill[3]; 4]],
        Ghost(|r: int, c: int| spec_edge_or_mid(opt_view(left), r)));
}

} // verus!
