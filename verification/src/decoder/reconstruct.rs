//! Top-level walking-skeleton decode: frame checks, then the partition walk of the single tile.
use vstd::prelude::*;
use crate::bitstream::{FrameType, SequenceHeader, TileGroup, UncompressedFrameHeader};
use crate::format::Subsampling;
use super::block_info::{BlockInfo, BlockInfoGrid, GridModel, spec_units4, spec_in_region, spec_dedup, spec_mode_candidates, spec_empty_grid};
use super::entropy::{BacModel, BacReader, EntropyError, lemma_variant_is_legal, spec_read_symbol, spec_initial_reader};
use super::symbols::{Y_MODE_SET_CDF, ALL_ZERO_CDF, PARTITION_BINARY_CDF, spec_runtime_variants};
use super::intra::{opt_view, spec_dc_value};
use super::kernels::{Transform1d, lemma_zero_block_is_zero};
use super::frame_buffer::{FrameBuffer, PlaneBuffer, spec_round_up, spec_pos};
use super::intra::predict_dc_4x4;
use super::kernels::{Kernels, Scalar, detect, lemma_block_entry, lemma_in_range_fits, spec_coeffs_in_range};
use super::partition::{BlockSize, PartitionType, partition_children, spec_partition_children, children_view,
    spec_partition_is_legal, spec_partition_variants};
use super::quant::{Plane, QuantContext};
use super::transform::{TxSize, TxType, intra_default_tx_type, inverse_transform, spec_residual};

verus! {

/// Why the walking-skeleton core rejected a frame or block.
#[derive(Debug, Clone, Copy, PartialEq, Eq)]
pub enum CoreDecodeError {
    Unsupported(&'static str),
    UnexpectedMode,
    EntropyError,
}

/// A block side the superblock walk can produce.
pub open spec fn spec_dim_ok(d: usize) -> bool {
    d == 4 || d == 8 || d == 16 || d == 32 || d == 64
}

/// A block of the superblock walk: power-of-two sides from 4 to 64 on the 4x4 grid,
/// with its far edges addressable.
pub open spec fn spec_block_ok(bx: usize, by: usize, b: BlockSize) -> bool {
    &&& spec_dim_ok(b.width)
    &&& spec_dim_ok(b.height)
    &&& bx % 4 == 0
    &&& by % 4 == 0
    &&& bx + b.width <= usize::MAX
    &&& by + b.height <= usize::MAX
}

/// The frame shape the walking skeleton reconstructs into: a zero-padded luma plane and a
/// block-info grid of its 4x4 units (a partial unit at the right and bottom edges included).
pub open spec fn spec_decode_state_ok(fb: FrameBuffer, grid: BlockInfoGrid) -> bool {
    &&& fb.wf()
    &&& grid.wf()
    &&& fb.luma_plane().width <= usize::MAX - 63
    &&& fb.luma_plane().height <= usize::MAX - 63
    &&& grid.cols() == spec_units4(fb.luma_plane().width as int)
    &&& grid.rows() == spec_units4(fb.luma_plane().height as int)
}

/// Two frames have the same shape and the same chroma planes.
pub open spec fn spec_same_shape(a: FrameBuffer, b: FrameBuffer) -> bool {
    &&& a.luma_plane().width == b.luma_plane().width
    &&& a.luma_plane().height == b.luma_plane().height
    &&& a.luma_plane().stride == b.luma_plane().stride
    &&& a.chroma_u_plane() == b.chroma_u_plane()
    &&& a.chroma_v_plane() == b.chroma_v_plane()
    &&& a.spec_subsampling() == b.spec_subsampling()
}

/// Two grids have the same dimensions.
pub open spec fn spec_same_grid_shape(a: BlockInfoGrid, b: BlockInfoGrid) -> bool {
    a.cols() == b.cols() && a.rows() == b.rows()
}

/// The header checks of the walking skeleton: the first violated requirement, if any.
pub open spec fn spec_frame_check(sh: SequenceHeader, fh: UncompressedFrameHeader, tile_len: nat) -> Option<&'static str> {
    if sh.bit_depth != 8 {
        Some("walking skeleton only supports 8-bit streams")
    } else if sh.monochrome || sh.subsampling_x != 1 || sh.subsampling_y != 1 {
        Some("walking skeleton only supports 4:2:0 color streams")
    } else if sh.max_frame_width % 4 != 0 || sh.max_frame_height % 4 != 0 {
        Some("walking skeleton requires frame dimensions divisible by 4")
    } else if fh.frame_type != FrameType::Key {
        Some("walking skeleton only supports key frames")
    } else if fh.num_tile_cols != 1 || fh.num_tile_rows != 1 {
        Some("walking skeleton only supports single-tile frames")
    } else if tile_len == 0 {
        Some("walking skeleton requires a non-empty tile group payload")
    } else if fh.frame_width > usize::MAX - 63 || fh.frame_height > usize::MAX - 63
        || fh.frame_height as int * spec_round_up(fh.frame_width as int, 64) > usize::MAX
        || spec_units4(fh.frame_height as int) * spec_units4(fh.frame_width as int) > usize::MAX {
        Some("frame dimensions exceed addressable memory")
    } else {
        None
    }
}

/// The luma geometry of a decoded frame: the frame's size, rows padded to a multiple of 64.
pub open spec fn spec_frame_geometry(fh: UncompressedFrameHeader) -> LumaGeometry {
    LumaGeometry {
        width: fh.frame_width as int,
        height: fh.frame_height as int,
        stride: spec_round_up(fh.frame_width as int, 64),
    }
}

/// The chroma geometry of a decoded 4:2:0 frame: half the frame's size rounded up, rows padded
/// to a multiple of 64.
pub open spec fn spec_chroma_geometry(fh: UncompressedFrameHeader) -> LumaGeometry {
    let cw = (fh.frame_width as int + 1) / 2;
    LumaGeometry { width: cw, height: (fh.frame_height as int + 1) / 2, stride: spec_round_up(cw, 64) }
}

/// A chroma plane of a decoded frame: mid-gray over its active area, zero in the padding.
pub open spec fn spec_gray_chroma(fh: UncompressedFrameHeader) -> Seq<u8> {
    let g = spec_chroma_geometry(fh);
    spec_fill_rect(spec_zero_luma(g), g.stride, g.width, g.height, 0, 0, g.width, g.height, 128)
}

/// A zeroed luma plane of geometry `g`.
pub open spec fn spec_zero_luma(g: LumaGeometry) -> Seq<u8> {
    Seq::new((g.height * g.stride) as nat, |i: int| 0u8)
}

/// Decode the single-tile key frame of `tile_group` into a reconstructed 4:2:0 frame.
pub fn decode_frame(sequence_header: SequenceHeader, frame_header: UncompressedFrameHeader, tile_group: &TileGroup<'_>)
    -> (r: Result<FrameBuffer, CoreDecodeError>)
    ensures
        match spec_frame_check(sequence_header, frame_header, tile_group.data@.len()) {
            Some(msg) => r == Err::<FrameBuffer, CoreDecodeError>(CoreDecodeError::Unsupported(msg)),
            None => {
                let g = spec_frame_geometry(frame_header);
                let (res, m) = spec_tile(tile_group.data@, g, spec_zero_luma(g), frame_header.tx_mode);
                match r {
                    Ok(frame) => {
                        &&& res is Ok
                        &&& frame.wf()
                        &&& spec_geometry(frame.luma_plane()) == g
                        &&& frame.luma_plane().samples() == m.luma
                        &&& spec_geometry(frame.chroma_u_plane()) == spec_chroma_geometry(frame_header)
                        &&& spec_geometry(frame.chroma_v_plane()) == spec_chroma_geometry(frame_header)
                        &&& frame.chroma_u_plane().samples() == spec_gray_chroma(frame_header)
                        &&& frame.chroma_v_plane().samples() == spec_gray_chroma(frame_header)
                        &&& frame.spec_subsampling() == Subsampling::Yuv420
                        &&& forall|x: int, y: int| 0 <= x < frame.chroma_u_plane().width && 0 <= y < frame.chroma_u_plane().height
                            ==> frame.chroma_u_plane().at(x, y) == 128
                        &&& forall|x: int, y: int| 0 <= x < frame.chroma_v_plane().width && 0 <= y < frame.chroma_v_plane().height
                            ==> frame.chroma_v_plane().at(x, y) == 128
                    },
                    Err(e) => res == Err::<(), CoreDecodeError>(e),
                }
            },
        },
{
    if sequence_header.bit_depth != 8 {
        return Err(CoreDecodeError::Unsupported("walking skeleton only supports 8-bit streams"));
    }
    if sequence_header.monochrome || sequence_header.subsampling_x != 1 || sequence_header.subsampling_y != 1 {
        return Err(CoreDecodeError::Unsupported("walking skeleton only supports 4:2:0 color streams"));
    }
    if sequence_header.max_frame_width % 4 != 0 || sequence_header.max_frame_height % 4 != 0 {
        return Err(CoreDecodeError::Unsupported("walking skeleton requires frame dimensions divisible by 4"));
    }
    if frame_header.frame_type != FrameType::Key {
        return Err(CoreDecodeError::Unsupported("walking skeleton only supports key frames"));
    }
    if frame_header.num_tile_cols != 1 || frame_header.num_tile_rows != 1 {
        return Err(CoreDecodeError::Unsupported("walking skeleton only supports single-tile frames"));
    }
    if tile_group.data.len() == 0 {
        return Err(CoreDecodeError::Unsupported("walking skeleton requires a non-empty tile group payload"));
    }
    let width = frame_header.frame_width as usize;
    let height = frame_header.frame_height as usize;
    if !fits_in_memory(width, height) {
        return Err(CoreDecodeError::Unsupported("frame dimensions exceed addressable memory"));
    }
    let mut frame = FrameBuffer::new(width, height, Subsampling::Yuv420);
    let quant = QuantContext::from_frame_header(&frame_header);
    proof {
        let cg = spec_chroma_geometry(frame_header);
        assert(frame.chroma_u_plane().samples() =~= spec_zero_luma(cg));
        assert(frame.chroma_v_plane().samples() =~= spec_zero_luma(cg));
    }
    fill_plane(frame.chroma_u_mut(), 128);
    fill_plane(frame.chroma_v_mut(), 128);
    let ghost chroma_u = frame.chroma_u_plane();
    let ghost chroma_v = frame.chroma_v_plane();
    let ghost g = spec_frame_geometry(frame_header);
    let ghost outcome = spec_tile(tile_group.data@, g, spec_zero_luma(g), frame_header.tx_mode);
    proof {
        assert(frame.luma_plane().samples() =~= spec_zero_luma(g));
    }
    let mut tile: usize = 0;
    while tile < 1
        invariant
            tile <= 1,
            frame.wf(),
            frame.luma_plane().width == width,
            frame.luma_plane().height == height,
            width <= usize::MAX - 63,
            spec_units4(height as int) * spec_units4(width as int) <= usize::MAX,
            frame.chroma_u_plane() == chroma_u,
            frame.chroma_v_plane() == chroma_v,
            frame.spec_subsampling() == Subsampling::Yuv420,
            spec_frame_check(sequence_header, frame_header, tile_group.data@.len()) is None,
            height <= usize::MAX - 63,
            forall|x: int, y: int| 0 <= x < chroma_u.width && 0 <= y < chroma_u.height ==> chroma_u.at(x, y) == 128,
            forall|x: int, y: int| 0 <= x < chroma_v.width && 0 <= y < chroma_v.height ==> chroma_v.at(x, y) == 128,
            spec_geometry(frame.luma_plane()) == g,
            g == spec_frame_geometry(frame_header),
            outcome == spec_tile(tile_group.data@, g, spec_zero_luma(g), frame_header.tx_mode),
            tile == 0 ==> frame.luma_plane().samples() == spec_zero_luma(g),
            tile == 1 ==> outcome.0 is Ok && frame.luma_plane().samples() == outcome.1.luma,
            spec_geometry(chroma_u) == spec_chroma_geometry(frame_header),
            spec_geometry(chroma_v) == spec_chroma_geometry(frame_header),
            chroma_u.samples() == spec_gray_chroma(frame_header),
            chroma_v.samples() == spec_gray_chroma(frame_header),
        decreases 1 - tile,
    {
        match decode_tile(tile_group.data, &mut frame, quant, frame_header.disable_cdf_update, frame_header.tx_mode) {
            Ok(u) => {},
            Err(e) => {
                return Err(e);
            },
        }
        tile = tile + 1;
    }
    Ok(frame)
}

/// The frame's planes and its block-info grid fit in the address space.
#[verifier::spinoff_prover]
fn fits_in_memory(width: usize, height: usize) -> (b: bool)
    ensures
        b == (width <= usize::MAX - 63 && height <= usize::MAX - 63 && height * spec_round_up(width as int, 64) <= usize::MAX
            && spec_units4(height as int) * spec_units4(width as int) <= usize::MAX),
{
    if width > usize::MAX - 63 || height > usize::MAX - 63 {
        return false;
    }
    let stride = super::frame_buffer::round_up_to(width, 64);
    if height != 0 && stride > usize::MAX / height {
        proof {
            assert(height * stride > usize::MAX) by (nonlinear_arith)
                requires height > 0, stride > usize::MAX / height;
        }
        return false;
    }
    let cols = width / 4 + if width % 4 != 0 { 1 } else { 0 };
    let rows = height / 4 + if height % 4 != 0 { 1 } else { 0 };
    assert(cols == spec_units4(width as int));
    assert(rows == spec_units4(height as int));
    proof {
        if height != 0 {
            assert(height * stride <= usize::MAX) by (nonlinear_arith)
                requires height > 0, stride <= usize::MAX / height;
        }
    }
    if rows != 0 && cols > usize::MAX / rows {
        proof {
            assert(rows * cols > usize::MAX) by (nonlinear_arith)
                requires rows > 0, cols > usize::MAX / rows;
        }
        return false;
    }
    proof {
        if rows != 0 {
            assert(rows * cols <= usize::MAX) by (nonlinear_arith)
                requires rows > 0, cols <= usize::MAX / rows;
        }
    }
    true
}

/// Decode the partition tree of the tile's single superblock into `fb`.
fn decode_tile(tile_data: &[u8], fb: &mut FrameBuffer, quant: QuantContext, disable_cdf_update: bool, tx_mode: u8)
    -> (r: Result<(), CoreDecodeError>)
    requires
        old(fb).wf(),
        old(fb).luma_plane().width <= usize::MAX - 63,
        old(fb).luma_plane().height <= usize::MAX - 63,
        spec_units4(old(fb).luma_plane().height as int) * spec_units4(old(fb).luma_plane().width as int) <= usize::MAX,
    ensures
        final(fb).wf(),
        spec_same_shape(*old(fb), *final(fb)),
        ({
            let (res, m) = spec_tile(tile_data@, spec_geometry(old(fb).luma_plane()), old(fb).luma_plane().samples(), tx_mode);
            r == res && final(fb).luma_plane().samples() == m.luma
        }),
{
    let kernels = detect();
    let mut reader = BacReader::new(tile_data);
    let mut block_info = BlockInfoGrid::new(fb.luma().width, fb.luma().height);
    let sb = BlockSize::sb_m0();
    assert(sb == BlockSize { width: 64, height: 64 });
    decode_partition(&mut reader, &kernels, fb, &mut block_info, 0, 0, sb, quant, tx_mode)
}

/// Decoding the single superblock of a tile's bytes `buf` into a luma plane of geometry `g`
/// holding `luma`, with a fresh entropy decoder and an empty block grid.
pub open spec fn spec_tile(buf: Seq<u8>, g: LumaGeometry, luma: Seq<u8>, tx_mode: u8) -> (Result<(), CoreDecodeError>, DecodeModel) {
    let s0 = DecodeModel { reader: spec_initial_reader(buf), luma, grid: spec_empty_grid(g.width as usize, g.height as usize) };
    spec_partition(buf, g, s0, 0, 0, BlockSize { width: 64, height: 64 }, tx_mode)
}

/// A child block lies inside its parent, is a walk block, and is smaller.
pub open spec fn spec_child_fits(x: usize, y: usize, b: BlockSize, c: (int, int, BlockSize)) -> bool {
    &&& x <= c.0
    &&& y <= c.1
    &&& c.0 + c.2.width <= x + b.width
    &&& c.1 + c.2.height <= y + b.height
    &&& spec_block_ok(c.0 as usize, c.1 as usize, c.2)
    &&& c.2.width + c.2.height < b.width + b.height
}

/// The halves, quarters and eighths of walk block sides that are at least four are multiples of four.
proof fn lemma_dim_cases(b: BlockSize)
    requires
        spec_dim_ok(b.width),
        spec_dim_ok(b.height),
    ensures
        b.width / 2 >= 4 ==> (b.width / 2) % 4 == 0 && spec_dim_ok(b.width / 2),
        b.width / 4 >= 4 ==> (b.width / 4) % 4 == 0 && spec_dim_ok(b.width / 4),
        b.width / 8 >= 4 ==> (b.width / 8) % 4 == 0 && spec_dim_ok(b.width / 8),
        b.height / 2 >= 4 ==> (b.height / 2) % 4 == 0 && spec_dim_ok(b.height / 2),
        b.height / 4 >= 4 ==> (b.height / 4) % 4 == 0 && spec_dim_ok(b.height / 4),
        b.height / 8 >= 4 ==> (b.height / 8) % 4 == 0 && spec_dim_ok(b.height / 8),
{
}

#[verifier::spinoff_prover]
proof fn lemma_children_horz(x: usize, y: usize, b: BlockSize)
    requires
        spec_block_ok(x, y, b),
        spec_partition_is_legal(b, PartitionType::Horz),
    ensures
        forall|i: int| 0 <= i < spec_partition_children(x as int, y as int, b, PartitionType::Horz).len() ==>
            spec_child_fits(x, y, b, #[trigger] spec_partition_children(x as int, y as int, b, PartitionType::Horz)[i]),
{
    let cs = spec_partition_children(x as int, y as int, b, PartitionType::Horz);
    let zs = spec_partition_children(0, 0, b, PartitionType::Horz);
    assert(super::partition::spec_child_ok(b, zs[0].2));
    assert(super::partition::spec_child_ok(b, zs[1].2));
    lemma_dim_cases(b);
    assert(spec_child_fits(x, y, b, cs[0]));
    assert(spec_child_fits(x, y, b, cs[1]));
    assert forall|i: int| 0 <= i < cs.len() implies spec_child_fits(x, y, b, #[trigger] cs[i]) by {
        if i == 0 {} else {}
    }
}

#[verifier::spinoff_prover]
proof fn lemma_children_vert(x: usize, y: usize, b: BlockSize)
    requires
        spec_block_ok(x, y, b),
        spec_partition_is_legal(b, PartitionType::Vert),
    ensures
        forall|i: int| 0 <= i < spec_partition_children(x as int, y as int, b, PartitionType::Vert).len() ==>
            spec_child_fits(x, y, b, #[trigger] spec_partition_children(x as int, y as int, b, PartitionType::Vert)[i]),
{
    let cs = spec_partition_children(x as int, y as int, b, PartitionType::Vert);
    let zs = spec_partition_children(0, 0, b, PartitionType::Vert);
    assert(super::partition::spec_child_ok(b, zs[0].2));
    assert(super::partition::spec_child_ok(b, zs[1].2));
    lemma_dim_cases(b);
    assert(spec_child_fits(x, y, b, cs[0]));
    assert(spec_child_fits(x, y, b, cs[1]));
    assert forall|i: int| 0 <= i < cs.len() implies spec_child_fits(x, y, b, #[trigger] cs[i]) by {
        if i == 0 {} else {}
    }
}

#[verifier::spinoff_prover]
proof fn lemma_children_split(x: usize, y: usize, b: BlockSize)
    requires
        spec_block_ok(x, y, b),
        spec_partition_is_legal(b, PartitionType::Split),
    ensures
        forall|i: int| 0 <= i < spec_partition_children(x as int, y as int, b, PartitionType::Split).len() ==>
            spec_child_fits(x, y, b, #[trigger] spec_partition_children(x as int, y as int, b, PartitionType::Split)[i]),
{
    let cs = spec_partition_children(x as int, y as int, b, PartitionType::Split);
    let zs = spec_partition_children(0, 0, b, PartitionType::Split);
    assert(super::partition::spec_child_ok(b, zs[0].2));
    assert(super::partition::spec_child_ok(b, zs[1].2));
    assert(super::partition::spec_child_ok(b, zs[2].2));
    assert(super::partition::spec_child_ok(b, zs[3].2));
    lemma_dim_cases(b);
    assert(spec_child_fits(x, y, b, cs[0]));
    assert(spec_child_fits(x, y, b, cs[1]));
    assert(spec_child_fits(x, y, b, cs[2]));
    assert(spec_child_fits(x, y, b, cs[3]));
    assert forall|i: int| 0 <= i < cs.len() implies spec_child_fits(x, y, b, #[trigger] cs[i]) by {
        if i == 0 {} else if i == 1 {} else if i == 2 {} else {}
    }
}

#[verifier::spinoff_prover]
proof fn lemma_children_horz3(x: usize, y: usize, b: BlockSize)
    requires
        spec_block_ok(x, y, b),
        spec_partition_is_legal(b, PartitionType::Horz3),
    ensures
        forall|i: int| 0 <= i < spec_partition_children(x as int, y as int, b, PartitionType::Horz3).len() ==>
            spec_child_fits(x, y, b, #[trigger] spec_partition_children(x as int, y as int, b, PartitionType::Horz3)[i]),
{
    let cs = spec_partition_children(x as int, y as int, b, PartitionType::Horz3);
    let zs = spec_partition_children(0, 0, b, PartitionType::Horz3);
    assert(super::partition::spec_child_ok(b, zs[0].2));
    assert(super::partition::spec_child_ok(b, zs[1].2));
    assert(super::partition::spec_child_ok(b, zs[2].2));
    lemma_dim_cases(b);
    assert(spec_child_fits(x, y, b, cs[0]));
    assert(spec_child_fits(x, y, b, cs[1]));
    assert(spec_child_fits(x, y, b, cs[2]));
    assert forall|i: int| 0 <= i < cs.len() implies spec_child_fits(x, y, b, #[trigger] cs[i]) by {
        if i == 0 {} else if i == 1 {} else {}
    }
}

#[verifier::spinoff_prover]
proof fn lemma_children_vert3(x: usize, y: usize, b: BlockSize)
    requires
        spec_block_ok(x, y, b),
        spec_partition_is_legal(b, PartitionType::Vert3),
    ensures
        forall|i: int| 0 <= i < spec_partition_children(x as int, y as int, b, PartitionType::Vert3).len() ==>
            spec_child_fits(x, y, b, #[trigger] spec_partition_children(x as int, y as int, b, PartitionType::Vert3)[i]),
{
    let cs = spec_partition_children(x as int, y as int, b, PartitionType::Vert3);
    let zs = spec_partition_children(0, 0, b, PartitionType::Vert3);
    assert(super::partition::spec_child_ok(b, zs[0].2));
    assert(super::partition::spec_child_ok(b, zs[1].2));
    assert(super::partition::spec_child_ok(b, zs[2].2));
    lemma_dim_cases(b);
    assert(spec_child_fits(x, y, b, cs[0]));
    assert(spec_child_fits(x, y, b, cs[1]));
    assert(spec_child_fits(x, y, b, cs[2]));
    assert forall|i: int| 0 <= i < cs.len() implies spec_child_fits(x, y, b, #[trigger] cs[i]) by {
        if i == 0 {} else if i == 1 {} else {}
    }
}

#[verifier::spinoff_prover]
proof fn lemma_children_horz4a(x: usize, y: usize, b: BlockSize)
    requires
        spec_block_ok(x, y, b),
        spec_partition_is_legal(b, PartitionType::Horz4A),
    ensures
        forall|i: int| 0 <= i < spec_partition_children(x as int, y as int, b, PartitionType::Horz4A).len() ==>
            spec_child_fits(x, y, b, #[trigger] spec_partition_children(x as int, y as int, b, PartitionType::Horz4A)[i]),
{
    let cs = spec_partition_children(x as int, y as int, b, PartitionType::Horz4A);
    let zs = spec_partition_children(0, 0, b, PartitionType::Horz4A);
    assert(super::partition::spec_child_ok(b, zs[0].2));
    assert(super::partition::spec_child_ok(b, zs[1].2));
    assert(super::partition::spec_child_ok(b, zs[2].2));
    assert(super::partition::spec_child_ok(b, zs[3].2));
    lemma_dim_cases(b);
    assert(spec_child_fits(x, y, b, cs[0]));
    assert(spec_child_fits(x, y, b, cs[1]));
    assert(spec_child_fits(x, y, b, cs[2]));
    assert(spec_child_fits(x, y, b, cs[3]));
    assert forall|i: int| 0 <= i < cs.len() implies spec_child_fits(x, y, b, #[trigger] cs[i]) by {
        if i == 0 {} else if i == 1 {} else if i == 2 {} else {}
    }
}

#[verifier::spinoff_prover]
proof fn lemma_children_horz4b(x: usize, y: usize, b: BlockSize)
    requires
        spec_block_ok(x, y, b),
        spec_partition_is_legal(b, PartitionType::Horz4B),
    ensures
        forall|i: int| 0 <= i < spec_partition_children(x as int, y as int, b, PartitionType::Horz4B).len() ==>
            spec_child_fits(x, y, b, #[trigger] spec_partition_children(x as int, y as int, b, PartitionType::Horz4B)[i]),
{
    let cs = spec_partition_children(x as int, y as int, b, PartitionType::Horz4B);
    let zs = spec_partition_children(0, 0, b, PartitionType::Horz4B);
    assert(super::partition::spec_child_ok(b, zs[0].2));
    assert(super::partition::spec_child_ok(b, zs[1].2));
    assert(super::partition::spec_child_ok(b, zs[2].2));
    assert(super::partition::spec_child_ok(b, zs[3].2));
    lemma_dim_cases(b);
    assert(spec_child_fits(x, y, b, cs[0]));
    assert(spec_child_fits(x, y, b, cs[1]));
    assert(spec_child_fits(x, y, b, cs[2]));
    assert(spec_child_fits(x, y, b, cs[3]));
    assert forall|i: int| 0 <= i < cs.len() implies spec_child_fits(x, y, b, #[trigger] cs[i]) by {
        if i == 0 {} else if i == 1 {} else if i == 2 {} else {}
    }
}

#[verifier::spinoff_prover]
proof fn lemma_children_vert4a(x: usize, y: usize, b: BlockSize)
    requires
        spec_block_ok(x, y, b),
        spec_partition_is_legal(b, PartitionType::Vert4A),
    ensures
        forall|i: int| 0 <= i < spec_partition_children(x as int, y as int, b, PartitionType::Vert4A).len() ==>
            spec_child_fits(x, y, b, #[trigger] spec_partition_children(x as int, y as int, b, PartitionType::Vert4A)[i]),
{
    let cs = spec_partition_children(x as int, y as int, b, PartitionType::Vert4A);
    let zs = spec_partition_children(0, 0, b, PartitionType::Vert4A);
    assert(super::partition::spec_child_ok(b, zs[0].2));
    assert(super::partition::spec_child_ok(b, zs[1].2));
    assert(super::partition::spec_child_ok(b, zs[2].2));
    assert(super::partition::spec_child_ok(b, zs[3].2));
    lemma_dim_cases(b);
    assert(spec_child_fits(x, y, b, cs[0]));
    assert(spec_child_fits(x, y, b, cs[1]));
    assert(spec_child_fits(x, y, b, cs[2]));
    assert(spec_child_fits(x, y, b, cs[3]));
    assert forall|i: int| 0 <= i < cs.len() implies spec_child_fits(x, y, b, #[trigger] cs[i]) by {
        if i == 0 {} else if i == 1 {} else if i == 2 {} else {}
    }
}

#[verifier::spinoff_prover]
proof fn lemma_children_vert4b(x: usize, y: usize, b: BlockSize)
    requires
        spec_block_ok(x, y, b),
        spec_partition_is_legal(b, PartitionType::Vert4B),
    ensures
        forall|i: int| 0 <= i < spec_partition_children(x as int, y as int, b, PartitionType::Vert4B).len() ==>
            spec_child_fits(x, y, b, #[trigger] spec_partition_children(x as int, y as int, b, PartitionType::Vert4B)[i]),
{
    let cs = spec_partition_children(x as int, y as int, b, PartitionType::Vert4B);
    let zs = spec_partition_children(0, 0, b, PartitionType::Vert4B);
    assert(super::partition::spec_child_ok(b, zs[0].2));
    assert(super::partition::spec_child_ok(b, zs[1].2));
    assert(super::partition::spec_child_ok(b, zs[2].2));
    assert(super::partition::spec_child_ok(b, zs[3].2));
    lemma_dim_cases(b);
    assert(spec_child_fits(x, y, b, cs[0]));
    assert(spec_child_fits(x, y, b, cs[1]));
    assert(spec_child_fits(x, y, b, cs[2]));
    assert(spec_child_fits(x, y, b, cs[3]));
    assert forall|i: int| 0 <= i < cs.len() implies spec_child_fits(x, y, b, #[trigger] cs[i]) by {
        if i == 0 {} else if i == 1 {} else if i == 2 {} else {}
    }
}

/// Children of a legal split of a walk block are walk blocks inside it, and smaller.
proof fn lemma_children_shape(x: usize, y: usize, b: BlockSize, p: PartitionType)
    requires
        spec_block_ok(x, y, b),
        spec_partition_is_legal(b, p),
        p != PartitionType::NoSplit,
    ensures
        forall|i: int| 0 <= i < spec_partition_children(x as int, y as int, b, p).len() ==>
            spec_child_fits(x, y, b, #[trigger] spec_partition_children(x as int, y as int, b, p)[i]),
{
    match p {
        PartitionType::NoSplit => {},
        PartitionType::Horz => lemma_children_horz(x, y, b),
        PartitionType::Vert => lemma_children_vert(x, y, b),
        PartitionType::Split => lemma_children_split(x, y, b),
        PartitionType::Horz3 => lemma_children_horz3(x, y, b),
        PartitionType::Vert3 => lemma_children_vert3(x, y, b),
        PartitionType::Horz4A => lemma_children_horz4a(x, y, b),
        PartitionType::Horz4B => lemma_children_horz4b(x, y, b),
        PartitionType::Vert4A => lemma_children_vert4a(x, y, b),
        PartitionType::Vert4B => lemma_children_vert4b(x, y, b),
    }
}

/// Walk the partition tree of the block of size `bsize` at `(bx, by)`, reconstructing every
/// leaf that lies in the frame.
fn decode_partition<K: Kernels>(
    reader: &mut BacReader<'_>,
    kernels: &K,
    fb: &mut FrameBuffer,
    block_info: &mut BlockInfoGrid,
    bx: usize,
    by: usize,
    bsize: BlockSize,
    quant: QuantContext,
    tx_mode: u8,
) -> (r: Result<(), CoreDecodeError>)
    requires
        old(reader).wf(),
        spec_decode_state_ok(*old(fb), *old(block_info)),
        spec_block_ok(bx, by, bsize),
    ensures
        final(reader).wf(),
        final(reader).buf@ == old(reader).buf@,
        spec_decode_state_ok(*final(fb), *final(block_info)),
        spec_same_shape(*old(fb), *final(fb)),
        spec_same_grid_shape(*old(block_info), *final(block_info)),
        ({
            let (res, m) = spec_partition(old(reader).buf@, spec_geometry(old(fb).luma_plane()),
                spec_state(old(reader).model(), *old(fb), *old(block_info)), bx, by, bsize, tx_mode);
            r == res && spec_state(final(reader).model(), *final(fb), *final(block_info)) == m
        }),
    decreases bsize.width + bsize.height,
{
    if bx >= fb.luma().width || by >= fb.luma().height {
        return Ok(());
    }
    if bsize.is_min() {
        return decode_4x4_block(reader, kernels, fb, block_info, bx, by, quant, tx_mode);
    }
    let ctx = block_info.partition_ctx(bx, by, bsize);
    let partition = reader.read_partition(bsize, ctx);
    proof {
        lemma_variant_is_legal(bsize, partition);
    }
    if partition == PartitionType::NoSplit {
        let ghost m1 = reader.model();
        if let Err(e) = decode_none_block(fb, block_info, bx, by, bsize) {
            return Err(e);
        }
        proof {
            let s0 = spec_state(old(reader).model(), *old(fb), *old(block_info));
            let g = spec_geometry(old(fb).luma_plane());
            assert(spec_none_block_luma(old(fb).luma_plane(), bx, by, bsize) == spec_fill_rect(s0.luma, g.stride, g.width, g.height,
                bx as int, by as int, bsize.width as int, bsize.height as int, 128));
            assert(spec_state(reader.model(), *fb, *block_info) == DecodeModel {
                reader: m1,
                luma: spec_fill_rect(s0.luma, g.stride, g.width, g.height, bx as int, by as int, bsize.width as int, bsize.height as int, 128),
                grid: s0.grid.filled(bx, by, bsize, spec_dc_info()),
            });
            let variants = spec_partition_variants(bsize);
            if variants.len() == 1 {
                assert(m1 == s0.reader);
            } else {
                let (sym, mm) = spec_read_symbol(old(reader).buf@, s0.reader, PARTITION_BINARY_CDF@);
                assert(m1 == mm);
                assert(spec_runtime_variants(variants)[sym] == PartitionType::NoSplit);
            }
        }
        return Ok(());
    }
    proof {
        lemma_children_shape(bx, by, bsize, partition);
    }
    let children = partition_children(bx, by, bsize, partition);
    let ghost cs = spec_partition_children(bx as int, by as int, bsize, partition);
    let ghost fb0 = *fb;
    let ghost grid0 = *block_info;
    let ghost buf0 = reader.buf@;
    let mut i: usize = 0;
    while i < children.len()
        invariant
            i <= children@.len(),
            children_view(children@) == cs,
            cs == spec_partition_children(bx as int, by as int, bsize, partition),
            forall|j: int| 0 <= j < cs.len() ==> spec_child_fits(bx, by, bsize, #[trigger] cs[j]),
            reader.wf(),
            reader.buf@ == buf0,
            buf0 == old(reader).buf@,
            spec_same_shape(*old(fb), fb0),
            spec_same_grid_shape(*old(block_info), grid0),
            spec_decode_state_ok(*fb, *block_info),
            spec_same_shape(fb0, *fb),
            spec_same_grid_shape(grid0, *block_info),
            cs.len() <= 4,
            spec_partition(old(reader).buf@, spec_geometry(old(fb).luma_plane()),
                spec_state(old(reader).model(), *old(fb), *old(block_info)), bx, by, bsize, tx_mode)
                == spec_children(buf0, spec_geometry(old(fb).luma_plane()), spec_state(reader.model(), *fb, *block_info), cs,
                    i as int, bsize.width + bsize.height, tx_mode),
        decreases children@.len() - i,
    {
        let (child_x, child_y, child_size) = children[i];
        assert(cs[i as int] == (child_x as int, child_y as int, child_size));
        let ghost before = spec_state(reader.model(), *fb, *block_info);
        let res = decode_partition(reader, kernels, fb, block_info, child_x, child_y, child_size, quant, tx_mode);
        proof {
            assert(spec_geometry(fb0.luma_plane()) == spec_geometry(old(fb).luma_plane()));
        }
        match res {
            Ok(u) => {},
            Err(e) => {
                return Err(e);
            },
        }
        i = i + 1;
    }
    Ok(())
}

/// `luma` (a plane of row stride `stride` and active size `width` x `height`) with the part of
/// the `w` x `h` rectangle at `(x0, y0)` that lies inside the active area set to `v`.
pub open spec fn spec_fill_rect(luma: Seq<u8>, stride: int, width: int, height: int, x0: int, y0: int, w: int, h: int, v: u8)
    -> Seq<u8> {
    Seq::new(luma.len(), |i: int| {
        let x = i % stride;
        let y = i / stride;
        if x0 <= x < x0 + w && x < width && y0 <= y < y0 + h && y < height {
            v
        } else {
            luma[i]
        }
    })
}

/// The luma samples of a block that keeps the whole block: the part of the block inside the
/// frame is mid-gray, the rest of the plane is unchanged.
pub open spec fn spec_none_block_luma(old_luma: PlaneBuffer, bx: usize, by: usize, b: BlockSize) -> Seq<u8> {
    spec_fill_rect(old_luma.samples(), old_luma.stride as int, old_luma.width as int, old_luma.height as int, bx as int,
        by as int, b.width as int, b.height as int, 128)
}

/// Entry `(r, c)` of a 4x4 block stored with row stride 4.
pub open spec fn spec_cell<T>(s: Seq<T>, r: int, c: int) -> T {
    s[r * 4 + c]
}

/// The geometry of a luma plane: its active size and its row stride.
pub struct LumaGeometry {
    pub width: int,
    pub height: int,
    pub stride: int,
}

pub open spec fn spec_geometry(p: PlaneBuffer) -> LumaGeometry {
    LumaGeometry { width: p.width as int, height: p.height as int, stride: p.stride as int }
}

/// What a tile decode threads through its blocks: the entropy decoder's state, the luma
/// samples, and the block-metadata grid.
pub struct DecodeModel {
    pub reader: BacModel,
    pub luma: Seq<u8>,
    pub grid: GridModel,
}

pub open spec fn spec_state(reader: BacModel, fb: FrameBuffer, grid: BlockInfoGrid) -> DecodeModel {
    DecodeModel { reader, luma: fb.luma_plane().samples(), grid: grid.model() }
}

/// The luma sample at `(x, y)`.
pub open spec fn spec_luma_at(luma: Seq<u8>, g: LumaGeometry, x: int, y: int) -> u8 {
    luma[y * g.stride + x]
}

/// The DC prediction of the 4x4 block at `(bx, by)`: from the four samples above when there is
/// a row above, the four to the left when there is a column to the left.
pub open spec fn spec_dc_of(luma: Seq<u8>, g: LumaGeometry, bx: int, by: int) -> u8 {
    let above = if by >= 4 { Some(Seq::new(4, |i: int| spec_luma_at(luma, g, bx + i, by - 1))) } else { None };
    let left = if bx >= 4 { Some(Seq::new(4, |i: int| spec_luma_at(luma, g, bx - 1, by + i))) } else { None };
    spec_dc_value(above, left)
}

/// The metadata recorded for a DC-coded block.
pub open spec fn spec_dc_info() -> BlockInfo {
    BlockInfo { present: true, intra_mode: 0, skip: false, tx_size: 0 }
}

/// The error of a 4x4 block at the frame edge whose above or left neighbours would lie past the
/// frame.
pub open spec fn spec_edge_block_message() -> &'static str {
    "walking skeleton cannot predict a 4x4 block that extends past the frame edge"
}

/// Decoding the 4x4 block at `(bx, by)` from state `s` with the tile bytes `buf`: its mode must
/// rank to the DC mode, the samples it predicts from must lie inside the frame, and its
/// coefficients must be all zero; the block is then the DC prediction.
pub open spec fn spec_block4(buf: Seq<u8>, g: LumaGeometry, s: DecodeModel, bx: usize, by: usize, tx_mode: u8)
    -> (Result<(), CoreDecodeError>, DecodeModel) {
    let list = spec_dedup(spec_mode_candidates(s.grid, bx, by, BlockSize::spec_min()));
    let (sym, m1) = spec_read_symbol(buf, s.reader, Y_MODE_SET_CDF@);
    let s1 = DecodeModel { reader: m1, ..s };
    if tx_mode != 0 {
        (Err(CoreDecodeError::Unsupported("tx_mode select is not integrated into the 4x4 Rust decode path yet")), s1)
    } else if list[sym] != 0 {
        (Err(CoreDecodeError::UnexpectedMode), s1)
    } else if (by >= 4 && bx + 4 > g.width) || (bx >= 4 && by + 4 > g.height) {
        (Err(CoreDecodeError::Unsupported(spec_edge_block_message())), s1)
    } else {
        let (z, m2) = spec_read_symbol(buf, m1, ALL_ZERO_CDF@);
        if z != 0 {
            (Err(CoreDecodeError::EntropyError), DecodeModel { reader: m2, ..s })
        } else {
            let dc = spec_dc_of(s.luma, g, bx as int, by as int);
            (Ok(()), DecodeModel {
                reader: m2,
                luma: spec_fill_rect(s.luma, g.stride, g.width, g.height, bx as int, by as int, 4, 4, dc),
                grid: s.grid.filled(bx, by, BlockSize::spec_min(), spec_dc_info()),
            })
        }
    }
}

/// Decoding the block of size `b` at `(bx, by)` from state `s`: nothing for a block outside the
/// frame; the 4x4 block decode for the smallest block; otherwise the partition read from the
/// stream, then either the block filled with mid-gray or its children decoded in order,
/// stopping at the first error.
pub open spec fn spec_partition(buf: Seq<u8>, g: LumaGeometry, s: DecodeModel, bx: usize, by: usize, b: BlockSize, tx_mode: u8)
    -> (Result<(), CoreDecodeError>, DecodeModel)
    decreases b.width + b.height, 5int,
{
    if bx >= g.width || by >= g.height {
        (Ok(()), s)
    } else if b.spec_is_min() {
        spec_block4(buf, g, s, bx, by, tx_mode)
    } else {
        let variants = spec_partition_variants(b);
        let (p, m) = if variants.len() == 1 {
            (variants[0], s.reader)
        } else {
            let (sym, m) = spec_read_symbol(buf, s.reader, PARTITION_BINARY_CDF@);
            (spec_runtime_variants(variants)[sym], m)
        };
        if p == PartitionType::NoSplit {
            (Ok(()), DecodeModel {
                reader: m,
                luma: spec_fill_rect(s.luma, g.stride, g.width, g.height, bx as int, by as int, b.width as int, b.height as int, 128),
                grid: s.grid.filled(bx, by, b, spec_dc_info()),
            })
        } else {
            spec_children(buf, g, DecodeModel { reader: m, ..s }, spec_partition_children(bx as int, by as int, b, p), 0,
                b.width + b.height, tx_mode)
        }
    }
}

/// Decoding the children `cs[i..]` of a block of measure `measure` (its width plus height) in
/// order from state `s`, stopping at the first error.
pub open spec fn spec_children(buf: Seq<u8>, g: LumaGeometry, s: DecodeModel, cs: Seq<(int, int, BlockSize)>, i: int, measure: int,
    tx_mode: u8) -> (Result<(), CoreDecodeError>, DecodeModel)
    decreases measure, cs.len() - i,
{
    if i < 0 || i >= cs.len() || cs.len() > 4 {
        (Ok(()), s)
    } else {
        let c = cs[i];
        if c.2.width + c.2.height >= measure {
            (Ok(()), s)
        } else {
            let (r, s2) = spec_partition(buf, g, s, c.0 as usize, c.1 as usize, c.2, tx_mode);
            if r is Err {
                (r, s2)
            } else {
                spec_children(buf, g, s2, cs, i + 1, measure, tx_mode)
            }
        }
    }
}

/// Reconstruct a block coded whole: fill its luma with mid-gray and mark its units decoded with
/// the DC mode. The smallest block never takes this path.
fn decode_none_block(fb: &mut FrameBuffer, block_info: &mut BlockInfoGrid, bx: usize, by: usize, bsize: BlockSize)
    -> (r: Result<(), CoreDecodeError>)
    requires
        spec_decode_state_ok(*old(fb), *old(block_info)),
        bx < old(fb).luma_plane().width,
        by < old(fb).luma_plane().height,
        bx + bsize.width <= usize::MAX,
        by + bsize.height <= usize::MAX,
    ensures
        spec_decode_state_ok(*final(fb), *final(block_info)),
        spec_same_shape(*old(fb), *final(fb)),
        spec_same_grid_shape(*old(block_info), *final(block_info)),
        bsize.spec_is_min() ==> r == Err::<(), CoreDecodeError>(CoreDecodeError::UnexpectedMode) && *final(fb) == *old(fb)
            && *final(block_info) == *old(block_info),
        !bsize.spec_is_min() ==> {
            &&& r is Ok
            &&& final(fb).luma_plane().samples() == spec_none_block_luma(old(fb).luma_plane(), bx, by, bsize)
            &&& final(block_info).model() == old(block_info).model().filled(bx, by, bsize, spec_dc_info())
            &&& forall|row: int, col: int| 0 <= row < final(block_info).rows() && 0 <= col < final(block_info).cols() ==>
                final(block_info).entry(row, col) == (if spec_in_region(bx, by, bsize, row, col) {
                    BlockInfo { present: true, intra_mode: 0, skip: false, tx_size: 0 }
                } else {
                    old(block_info).entry(row, col)
                })
        },
{
    if bsize.is_min() {
        return Err(CoreDecodeError::UnexpectedMode);
    }
    let luma_width = fb.luma().width;
    let luma_height = fb.luma().height;
    let fill_width = if bsize.width < luma_width - bx { bsize.width } else { luma_width - bx };
    let fill_height = if bsize.height < luma_height - by { bsize.height } else { luma_height - by };
    let ghost old_luma = fb.luma_plane();
    let mut y: usize = 0;
    while y < fill_height
        invariant
            y <= fill_height,
            fill_height <= luma_height - by,
            fill_width <= luma_width - bx,
            fill_width == if bsize.width < luma_width - bx { bsize.width } else { (luma_width - bx) as usize },
            fill_height == if bsize.height < luma_height - by { bsize.height } else { (luma_height - by) as usize },
            bx < luma_width,
            by < luma_height,
            fb.wf(),
            fb.luma_plane().width == luma_width,
            fb.luma_plane().height == luma_height,
            fb.luma_plane().stride == old_luma.stride,
            luma_width == old_luma.width,
            luma_height == old_luma.height,
            old_luma.wf(),
            fb.chroma_u_plane() == old(fb).chroma_u_plane(),
            fb.chroma_v_plane() == old(fb).chroma_v_plane(),
            fb.spec_subsampling() == old(fb).spec_subsampling(),
            fb.luma_plane().samples().len() == old_luma.samples().len(),
            forall|i: int| 0 <= i < old_luma.samples().len() ==> #[trigger] fb.luma_plane().samples()[i] == {
                let xx = i % (old_luma.stride as int);
                let yy = i / (old_luma.stride as int);
                if bx <= xx < bx + fill_width && by <= yy < by + y { 128u8 } else { old_luma.samples()[i] }
            },
        decreases fill_height - y,
    {
        let ghost before = fb.luma_plane();
        fb.luma_mut().fill_row(by + y, bx, bx + fill_width, 128);
        proof {
            let s = old_luma.stride as int;
            assert forall|i: int| 0 <= i < old_luma.samples().len() implies #[trigger] fb.luma_plane().samples()[i] == {
                let xx = i % s;
                let yy = i / s;
                if bx <= xx < bx + fill_width && by <= yy < by + y + 1 { 128u8 } else { old_luma.samples()[i] }
            } by {
                lemma_row_span(i, s, (by + y) as int, bx as int, (bx + fill_width) as int);
            }
        }
        y = y + 1;
    }
    proof {
        let s = old_luma.stride as int;
        assert forall|i: int| 0 <= i < old_luma.samples().len() implies #[trigger] fb.luma_plane().samples()[i]
            == spec_none_block_luma(old_luma, bx, by, bsize)[i] by {
            lemma_row_col_bounds(i, s, old_luma.height as int);
        }
        assert(fb.luma_plane().samples() =~= spec_none_block_luma(old_luma, bx, by, bsize));
    }
    block_info.fill_region(bx, by, bsize, BlockInfo { present: true, intra_mode: 0, skip: false, tx_size: 0 });
    Ok(())
}

/// Offsets of row `row`, columns `x0..x1`, are exactly those whose row is `row` and column is in range.
proof fn lemma_row_span(i: int, stride: int, row: int, x0: int, x1: int)
    requires
        stride > 0,
        0 <= i,
        0 <= x0 <= x1 <= stride,
        0 <= row,
    ensures
        (row * stride + x0 <= i < row * stride + x1) <==> (i / stride == row && x0 <= i % stride < x1),
{
    vstd::arithmetic::div_mod::lemma_fundamental_div_mod(i, stride);
    let q = i / stride;
    let m = i % stride;
    assert(i == q * stride + m) by (nonlinear_arith)
        requires i == stride * q + m;
    if q < row {
        assert(q * stride + m < row * stride) by (nonlinear_arith)
            requires q < row, 0 <= m < stride;
    } else if q > row {
        assert(q * stride >= row * stride + stride) by (nonlinear_arith)
            requires q > row, stride > 0;
    }
}

/// A stored offset lies in a row of the plane.
proof fn lemma_row_col_bounds(i: int, stride: int, height: int)
    requires
        stride > 0,
        0 <= i < height * stride,
    ensures
        0 <= i / stride < height,
        0 <= i % stride < stride,
{
    vstd::arithmetic::div_mod::lemma_fundamental_div_mod(i, stride);
    if i / stride >= height {
        assert(stride * (i / stride) >= height * stride) by (nonlinear_arith)
            requires i / stride >= height, stride > 0;
    }
    assert(i / stride >= 0) by (nonlinear_arith)
        requires i >= 0, stride > 0;
}

/// Reconstruct a 4x4 luma block: read its mode and coefficients, predict, add the residual,
/// and record its mode. Only the DC mode with the default transform is supported.
fn decode_4x4_block<K: Kernels>(
    reader: &mut BacReader<'_>,
    kernels: &K,
    fb: &mut FrameBuffer,
    block_info: &mut BlockInfoGrid,
    bx: usize,
    by: usize,
    quant: QuantContext,
    tx_mode: u8,
) -> (r: Result<(), CoreDecodeError>)
    requires
        old(reader).wf(),
        spec_decode_state_ok(*old(fb), *old(block_info)),
        bx < old(fb).luma_plane().width,
        by < old(fb).luma_plane().height,
        bx % 4 == 0,
        by % 4 == 0,
    ensures
        final(reader).wf(),
        final(reader).buf@ == old(reader).buf@,
        spec_decode_state_ok(*final(fb), *final(block_info)),
        spec_same_shape(*old(fb), *final(fb)),
        spec_same_grid_shape(*old(block_info), *final(block_info)),
        ({
            let (res, m) = spec_block4(old(reader).buf@, spec_geometry(old(fb).luma_plane()),
                spec_state(old(reader).model(), *old(fb), *old(block_info)), bx, by, tx_mode);
            r == res && spec_state(final(reader).model(), *final(fb), *final(block_info)) == m
        }),
{
    let ghost s0 = spec_state(reader.model(), *fb, *block_info);
    let ghost g = spec_geometry(fb.luma_plane());
    let ghost buf = reader.buf@;
    let min = BlockSize::min();
    let y_mode_list = block_info.y_intra_mode_list(bx, by, min);
    let mode_index = reader.read_intra_mode();
    if tx_mode != 0 {
        return Err(CoreDecodeError::Unsupported("tx_mode select is not integrated into the 4x4 Rust decode path yet"));
    }
    let joint_mode = y_mode_list[mode_index as usize];
    if joint_mode != 0 {
        return Err(CoreDecodeError::UnexpectedMode);
    }
    let tx_type = intra_default_tx_type(joint_mode);
    if (by >= 4 && bx + 4 > fb.luma().width) || (bx >= 4 && by + 4 > fb.luma().height) {
        return Err(CoreDecodeError::Unsupported("walking skeleton cannot predict a 4x4 block that extends past the frame edge"));
    }
    let above = if by >= 4 { Some(gather_above_4(fb.luma(), bx, by)) } else { None };
    let left = if bx >= 4 { Some(gather_left_4(fb.luma(), bx, by)) } else { None };
    let ghost dc = spec_dc_of(s0.luma, g, bx as int, by as int);
    let above_ref = above.as_ref();
    let left_ref = left.as_ref();
    proof {
        let ab = if by >= 4 { Some(Seq::new(4, |i: int| spec_luma_at(s0.luma, g, bx + i, by - 1))) } else { None::<Seq<u8>> };
        let lf = if bx >= 4 { Some(Seq::new(4, |i: int| spec_luma_at(s0.luma, g, bx - 1, by + i))) } else { None::<Seq<u8>> };
        if by >= 4 {
            assert(opt_view(above_ref).unwrap() =~= ab.unwrap());
        }
        if bx >= 4 {
            assert(opt_view(left_ref).unwrap() =~= lf.unwrap());
        }
        assert(opt_view(above_ref) == ab);
        assert(opt_view(left_ref) == lf);
    }
    let mut pred = [0u8; 16];
    predict_dc_4x4(above_ref, left_ref, &mut pred, 4);
    let mut coeffs_in = [0i16; 16];
    match reader.read_coeffs_4x4(&mut coeffs_in) {
        Ok(()) => {},
        Err(e) => {
            return Err(map_entropy_error(e));
        },
    }
    let mut coeffs_out = [0i32; 16];
    quant.dequant_4x4(Plane::Y, &coeffs_in, &mut coeffs_out);
    proof {
        assert(spec_coeffs_in_range(coeffs_out@));
        lemma_in_range_fits(coeffs_out@, Transform1d::Dct, Transform1d::Dct);
        lemma_in_range_fits(coeffs_out@, Transform1d::Dct, Transform1d::Adst);
        lemma_in_range_fits(coeffs_out@, Transform1d::Adst, Transform1d::Dct);
    }
    let mut residual = [0i16; 16];
    inverse_transform(kernels, TxSize::Tx4x4, tx_type, &coeffs_out, &mut residual, 4);
    proof {
        assert forall|k: int| 0 <= k < 16 implies coeffs_out@[k] == 0 by {
            if k > 0 {
                assert(coeffs_in@[k] == 0);
            } else {
                assert(coeffs_in@[0] == 0);
            }
        }
        assert forall|rr: int, cc: int| 0 <= rr < 4 && 0 <= cc < 4 implies #[trigger] spec_cell(pred@, rr, cc) == dc
            && spec_cell(residual@, rr, cc) == 0 by {
            lemma_block_entry(Seq::new(16, |i: int| 0u8), pred@, 4, |r: int, c: int| dc, rr, cc);
            lemma_zero_block_is_zero(coeffs_out@, Transform1d::Dct, Transform1d::Dct, rr, cc);
            lemma_block_entry(Seq::new(16, |i: int| 0i16), residual@, 4, |r: int, c: int| spec_residual(coeffs_out@, tx_type, r, c), rr, cc);
        }
    }
    let luma_width = fb.luma().width;
    let luma_height = fb.luma().height;
    let ghost luma0 = fb.luma_plane();
    let ghost st = luma0.stride as int;
    let mut y: usize = 0;
    while y < 4
        invariant
            y <= 4,
            fb.wf(),
            fb.luma_plane().width == luma_width,
            fb.luma_plane().height == luma_height,
            fb.luma_plane().stride == luma0.stride,
            luma_width == luma0.width,
            luma_height == luma0.height,
            fb.chroma_u_plane() == old(fb).chroma_u_plane(),
            fb.chroma_v_plane() == old(fb).chroma_v_plane(),
            fb.spec_subsampling() == old(fb).spec_subsampling(),
            bx < luma_width,
            by < luma_height,
            luma_width <= usize::MAX - 63,
            luma_height <= usize::MAX - 63,
            luma_width == old(fb).luma_plane().width,
            luma_height == old(fb).luma_plane().height,
            luma0.stride == old(fb).luma_plane().stride,
            luma0 == old(fb).luma_plane(),
            luma0.wf(),
            st == luma0.stride as int,
            forall|rr: int, cc: int| 0 <= rr < 4 && 0 <= cc < 4 ==> #[trigger] spec_cell(pred@, rr, cc) == dc && spec_cell(residual@, rr, cc) == 0,
            fb.luma_plane().samples() == spec_fill_rect(luma0.samples(), st, luma_width as int, luma_height as int,
                bx as int, by as int, 4, y as int, dc),
        decreases 4 - y,
    {
        if by + y < luma_height {
            let mut x: usize = 0;
            while x < 4
                invariant
                    x <= 4,
                    y < 4,
                    by + y < luma_height,
                    fb.wf(),
                    fb.luma_plane().width == luma_width,
                    fb.luma_plane().height == luma_height,
                    fb.luma_plane().stride == luma0.stride,
                    fb.chroma_u_plane() == old(fb).chroma_u_plane(),
                    fb.chroma_v_plane() == old(fb).chroma_v_plane(),
                    fb.spec_subsampling() == old(fb).spec_subsampling(),
                    bx < luma_width,
                    luma_width <= usize::MAX - 63,
                    luma_width == luma0.width,
                    luma_height == luma0.height,
                    luma0.wf(),
                    st == luma0.stride as int,
                    forall|rr: int, cc: int| 0 <= rr < 4 && 0 <= cc < 4 ==> #[trigger] spec_cell(pred@, rr, cc) == dc && spec_cell(residual@, rr, cc) == 0,
                    forall|i: int| 0 <= i < luma0.samples().len() ==> #[trigger] fb.luma_plane().samples()[i] == {
                        let xx = i % st;
                        let yy = i / st;
                        if (bx <= xx < bx + 4 && xx < luma_width && by <= yy < by + y && yy < luma_height)
                            || (yy == by + y && bx <= xx < bx + x && xx < luma_width) {
                            dc
                        } else {
                            luma0.samples()[i]
                        }
                    },
                    fb.luma_plane().samples().len() == luma0.samples().len(),
                decreases 4 - x,
            {
                if bx + x < luma_width {
                    assert(spec_cell(pred@, y as int, x as int) == dc && spec_cell(residual@, y as int, x as int) == 0);
                    let sample = pred[y * 4 + x] as i32 + residual[y * 4 + x] as i32;
                    let clamped: u8 = if sample < 0 { 0 } else if sample > 255 { 255 } else { sample as u8 };
                    assert(clamped == dc);
                    let ghost before = fb.luma_plane().samples();
                    fb.luma_mut().set(bx + x, by + y, clamped);
                    proof {
                        let p = spec_pos(st, (bx + x) as int, (by + y) as int);
                        lemma_plane_pos(st, luma_height as int, (bx + x) as int, (by + y) as int);
                        assert forall|i: int| 0 <= i < luma0.samples().len() implies #[trigger] fb.luma_plane().samples()[i] == {
                            let xx = i % st;
                            let yy = i / st;
                            if (bx <= xx < bx + 4 && xx < luma_width && by <= yy < by + y && yy < luma_height)
                                || (yy == by + y && bx <= xx < bx + x + 1 && xx < luma_width) {
                                dc
                            } else {
                                luma0.samples()[i]
                            }
                        } by {
                            lemma_row_span(i, st, (by + y) as int, (bx + x) as int, (bx + x + 1) as int);
                            assert(fb.luma_plane().samples()[i] == if i == p { dc } else { before[i] });
                        }
                    }
                }
                x = x + 1;
            }
            proof {
                assert(fb.luma_plane().samples() =~= spec_fill_rect(luma0.samples(), st, luma_width as int, luma_height as int,
                    bx as int, by as int, 4, (y + 1) as int, dc));
            }
        } else {
            proof {
                assert forall|i: int| 0 <= i < luma0.samples().len() implies #[trigger] spec_fill_rect(luma0.samples(), st,
                    luma_width as int, luma_height as int, bx as int, by as int, 4, (y + 1) as int, dc)[i]
                    == spec_fill_rect(luma0.samples(), st, luma_width as int, luma_height as int, bx as int, by as int, 4, y as int, dc)[i] by {
                }
                assert(fb.luma_plane().samples() =~= spec_fill_rect(luma0.samples(), st, luma_width as int, luma_height as int,
                    bx as int, by as int, 4, (y + 1) as int, dc));
            }
        }
        y = y + 1;
    }
    block_info.fill_region(bx, by, min, BlockInfo { present: true, intra_mode: joint_mode, skip: false, tx_size: 0 });
    Ok(())
}

/// The four luma samples directly above the block at `(bx, by)`.
pub fn gather_above_4(plane: &PlaneBuffer, bx: usize, by: usize) -> (a: [u8; 4])
    requires
        plane.wf(),
        1 <= by <= plane.height,
        bx + 4 <= plane.width,
    ensures
        forall|i: int| 0 <= i < 4 ==> a@[i] == plane.at(bx + i, by - 1),
{
    [plane.sample(bx, by - 1), plane.sample(bx + 1, by - 1), plane.sample(bx + 2, by - 1), plane.sample(bx + 3, by - 1)]
}

/// The eight luma samples above the block at `(bx, by)`, repeating the row's last sample past
/// the plane's right edge.
pub fn gather_above_8(plane: &PlaneBuffer, bx: usize, by: usize) -> (a: [u8; 8])
    requires
        plane.wf(),
        1 <= by <= plane.height,
        1 <= plane.width,
        bx + 8 <= usize::MAX,
    ensures
        forall|i: int| 0 <= i < 8 ==> a@[i] == plane.at(if bx + i < plane.width { bx + i } else { plane.width - 1 }, by - 1),
{
    let last_x = plane.width - 1;
    let mut out = [0u8; 8];
    let mut i: usize = 0;
    while i < 8
        invariant
            i <= 8,
            plane.wf(),
            1 <= by <= plane.height,
            last_x == plane.width - 1,
            bx + 8 <= usize::MAX,
            forall|j: int| 0 <= j < i ==> out@[j] == plane.at(if bx + j < plane.width { bx + j } else { plane.width - 1 }, by - 1),
        decreases 8 - i,
    {
        let x = if bx + i < last_x { bx + i } else { last_x };
        out[i] = plane.sample(x, by - 1);
        i = i + 1;
    }
    out
}

/// The four luma samples directly left of the block at `(bx, by)`.
pub fn gather_left_4(plane: &PlaneBuffer, bx: usize, by: usize) -> (l: [u8; 4])
    requires
        plane.wf(),
        1 <= bx <= plane.width,
        by + 4 <= plane.height,
    ensures
        forall|i: int| 0 <= i < 4 ==> l@[i] == plane.at(bx - 1, by + i),
{
    [plane.sample(bx - 1, by), plane.sample(bx - 1, by + 1), plane.sample(bx - 1, by + 2), plane.sample(bx - 1, by + 3)]
}

/// Set every active sample of `plane` to `value`.
pub fn fill_plane(plane: &mut PlaneBuffer, value: u8)
    requires
        old(plane).wf(),
    ensures
        final(plane).wf(),
        final(plane).width == old(plane).width,
        final(plane).height == old(plane).height,
        final(plane).stride == old(plane).stride,
        final(plane).samples() == spec_fill_rect(old(plane).samples(), old(plane).stride as int, old(plane).width as int,
            old(plane).height as int, 0, 0, old(plane).width as int, old(plane).height as int, value),
        forall|x: int, y: int| 0 <= x < final(plane).width && 0 <= y < final(plane).height ==> final(plane).at(x, y) == value,
{
    let mut y: usize = 0;
    let ghost w = plane.width as int;
    let ghost h = plane.height as int;
    let ghost st = plane.stride as int;
    let ghost old_samples = plane.samples();
    while y < plane.height
        invariant
            y <= plane.height,
            plane.wf(),
            plane.width == w,
            plane.height == h,
            plane.stride == st,
            plane.samples().len() == old_samples.len(),
            old_samples.len() == h * st,
            forall|i: int| 0 <= i < old_samples.len() ==> #[trigger] plane.samples()[i] == {
                let xx = i % st;
                let yy = i / st;
                if 0 <= xx < w && 0 <= yy < y { value } else { old_samples[i] }
            },
        decreases plane.height - y,
    {
        let width = plane.width;
        plane.fill_row(y, 0, width, value);
        proof {
            assert forall|i: int| 0 <= i < old_samples.len() implies #[trigger] plane.samples()[i] == {
                let xx = i % st;
                let yy = i / st;
                if 0 <= xx < w && 0 <= yy < y + 1 { value } else { old_samples[i] }
            } by {
                if st > 0 {
                    lemma_row_span(i, st, y as int, 0, w);
                } else {
                    assert(h * st == 0) by (nonlinear_arith)
                        requires st == 0;
                }
            }
        }
        y = y + 1;
    }
    proof {
        if w > 0 {
            assert forall|i: int| 0 <= i < old_samples.len() implies #[trigger] plane.samples()[i]
                == spec_fill_rect(old_samples, st, w, h, 0, 0, w, h, value)[i] by {
                lemma_row_col_bounds(i, st, h);
            }
        } else {
            assert forall|i: int| 0 <= i < old_samples.len() implies #[trigger] plane.samples()[i]
                == spec_fill_rect(old_samples, st, w, h, 0, 0, w, h, value)[i] by {
            }
        }
        assert(plane.samples() =~= spec_fill_rect(old_samples, st, w, h, 0, 0, w, h, value));
        assert forall|x: int, y: int| 0 <= x < w && 0 <= y < h implies plane.at(x, y) == value by {
            lemma_plane_pos(st, h, x, y);
            vstd::arithmetic::div_mod::lemma_fundamental_div_mod_converse(spec_pos(st, x, y), st, y, x);
        }
    }
}

proof fn lemma_plane_pos(stride: int, height: int, x: int, y: int)
    requires
        0 <= x < stride,
        0 <= y < height,
    ensures
        0 <= spec_pos(stride, x, y) < height * stride,
{
    assert(y * stride + x < height * stride) by (nonlinear_arith)
        requires 0 <= x < stride, 0 <= y < height;
    assert(0 <= y * stride) by (nonlinear_arith)
        requires 0 <= y, 0 <= stride;
}

/// The core error for an entropy-decoding error.
pub fn map_entropy_error(err: EntropyError) -> (e: CoreDecodeError)
    ensures
        e == CoreDecodeError::EntropyError,
{
    match err {
        EntropyError::UnimplementedInM0 => CoreDecodeError::EntropyError,
    }
}

} // verus!
