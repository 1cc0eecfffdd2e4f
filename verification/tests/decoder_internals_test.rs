//! The walking-skeleton pipeline: block info, entropy reading, prediction, transforms,
//! quantization, reconstruction and the partition walk.

use rustavm::bitstream::{
    CdefParams, DeltaLfParams, DeltaQParams, FilmGrainParams, FrameType, LoopFilterParams, LoopRestorationParams,
    QuantParams, RenderSize, SegmentationParams, SequenceHeader, SuperresParams, TileGroup, UncompressedFrameHeader,
};
use rustavm::decoder::block_info::{BlockInfo, BlockInfoGrid};
use rustavm::decoder::entropy::BacReader;
use rustavm::decoder::executor::{Sequential, TileExecutor};
use rustavm::decoder::frame_buffer::{FrameBuffer, Pixel};
use rustavm::decoder::intra::{predict_dc_4x4, predict_h_4x4, predict_v_4x4};
use rustavm::decoder::kernels::{detect, Kernels};
use rustavm::decoder::partition::{partition_children, walk_partition_tree, BlockSize, PartitionType};
use rustavm::decoder::quant::{ac_q_lookup_8bit, dc_q_lookup_8bit, dequant_4x4, Plane, QuantContext};
use rustavm::decoder::reconstruct::decode_frame;
use rustavm::decoder::symbols::{
    active_default_cdf_bytes, cdf_u16_bytes, partition_cdf_for_variants, runtime_partition_variants, CdfState,
    TileContext, ALL_ZERO_CDF, PARTITION_BINARY_CDF, PARTITION_CDF_CTX0, PARTITION_CDF_CTX1, PARTITION_CDF_CTX2,
    SKIP_CDF, UV_MODE_CDF_0, Y_MODE_IDX_CDF_0, Y_MODE_IDX_OFFSET_CDF_0, Y_MODE_SET_CDF,
};
use rustavm::decoder::transform::{
    intra_default_tx_type, intra_ext_tx_type_from_symbol, inverse_transform, IntraTxFamily, TxSize, TxType,
};
use rustavm::format::Subsampling;
use std::sync::atomic::{AtomicUsize, Ordering};

fn block(width: usize, height: usize) -> BlockSize {
    BlockSize { width, height }
}

#[test]
fn boundary_contexts_are_absent() {
    let grid = BlockInfoGrid::new(64, 64);
    let bsize = BlockSize::min();
    assert!(!grid.ctx_above(0, 0, bsize));
    assert!(!grid.ctx_left(0, 0, bsize));
    assert_eq!(grid.partition_ctx(0, 0, bsize), 0);
}

#[test]
fn mid_frame_contexts_see_marked_neighbors() {
    let mut grid = BlockInfoGrid::new(64, 64);
    let info = BlockInfo { present: true, intra_mode: 0, skip: false, tx_size: 0 };
    grid.fill_region(8, 4, BlockSize::min(), info);
    grid.fill_region(4, 8, BlockSize::min(), info);
    let bsize = BlockSize::min();
    assert!(grid.ctx_above(8, 8, bsize));
    assert!(grid.ctx_left(8, 8, bsize));
    assert_eq!(grid.partition_ctx(8, 8, bsize), 2);
}

#[test]
fn y_mode_ctx_counts_directional_neighbors() {
    let mut grid = BlockInfoGrid::new(64, 64);
    let directional = BlockInfo { present: true, intra_mode: 5, skip: false, tx_size: 0 };
    grid.fill_region(4, 0, BlockSize::min(), directional);
    grid.fill_region(0, 4, BlockSize::min(), directional);
    assert_eq!(grid.y_mode_ctx(4, 4), 2);
}

#[test]
fn small_blocks_use_fixed_non_directional_prefix() {
    let grid = BlockInfoGrid::new(64, 64);
    let list = grid.y_intra_mode_list(0, 0, BlockSize::min());
    assert_eq!(list[..5], [0, 1, 2, 3, 4]);
    assert_eq!(list[5], 22);
    assert_eq!(list[6], 50);
}

#[test]
fn larger_blocks_seed_list_with_directional_neighbors() {
    let mut grid = BlockInfoGrid::new(64, 64);
    grid.fill_region(0, 8, BlockSize::min(), BlockInfo { present: true, intra_mode: 22, skip: false, tx_size: 0 });
    grid.fill_region(8, 0, BlockSize::min(), BlockInfo { present: true, intra_mode: 50, skip: false, tx_size: 0 });
    let list = grid.y_intra_mode_list(4, 4, block(8, 8));
    assert_eq!(list[..7], [0, 1, 2, 3, 4, 22, 50]);
}

#[test]
fn mode_list_ranks_every_joint_mode_once() {
    let mut grid = BlockInfoGrid::new(64, 64);
    grid.fill_region(0, 16, BlockSize::min(), BlockInfo { present: true, intra_mode: 30, skip: false, tx_size: 0 });
    let list = grid.y_intra_mode_list(4, 4, block(16, 16));
    let mut seen = [false; 61];
    for &m in list.iter() {
        assert!(!seen[m as usize]);
        seen[m as usize] = true;
    }
    assert!(seen.iter().all(|&s| s));
    assert_eq!(list[5], 30);
    assert_eq!(list[6], 34);
    assert_eq!(list[7], 31);
}

fn key_frame_sequence_header(reduced: bool) -> SequenceHeader {
    SequenceHeader {
        profile: 0,
        still_picture: reduced,
        reduced_still_picture_header: reduced,
        timing_info_present_flag: false,
        initial_display_delay_present_flag: false,
        frame_id_numbers_present_flag: false,
        operating_points_cnt_minus_1: 0,
        operating_point_idc_0: 0,
        seq_level_idx_0: 0,
        seq_tier_0: None,
        max_frame_width: 64,
        max_frame_height: 48,
        bit_depth: 8,
        monochrome: false,
        subsampling_x: 1,
        subsampling_y: 1,
        color_range: 0,
        chroma_sample_position: 0,
    }
}

fn key_frame_header(base_q_idx: u8) -> UncompressedFrameHeader {
    UncompressedFrameHeader {
        frame_type: FrameType::Key,
        show_frame: true,
        error_resilient_mode: true,
        disable_cdf_update: false,
        primary_ref_frame: 0,
        refresh_frame_flags: 0xff,
        frame_size_override_flag: false,
        allow_screen_content_tools: false,
        force_integer_mv: false,
        order_hint: 0,
        render_size: RenderSize { width: 64, height: 48 },
        superres: SuperresParams { enabled: false, denominator: 8 },
        loop_filter: LoopFilterParams { level: [0; 4], sharpness: 0, delta_enabled: false, delta_update: false },
        quant: QuantParams {
            base_q_idx,
            delta_q_y_dc: 0,
            delta_q_u_dc: 0,
            delta_q_u_ac: 0,
            delta_q_v_dc: 0,
            delta_q_v_ac: 0,
            using_qmatrix: false,
            qm_y: 0,
            qm_u: 0,
            qm_v: 0,
        },
        segmentation: SegmentationParams { enabled: false, update_map: false, temporal_update: false, update_data: false },
        delta_q: DeltaQParams { present: false, scale: 0 },
        delta_lf: DeltaLfParams { present: false, scale: 0, multi: false },
        loop_restoration: LoopRestorationParams { uses_lrf: false },
        tx_mode: 0,
        reduced_tx_set: false,
        cdef: CdefParams { damping: 0, bits: 0 },
        film_grain: FilmGrainParams { apply_grain: false },
        num_tile_cols: 1,
        num_tile_rows: 1,
        frame_width: 64,
        frame_height: 48,
    }
}

#[test]
fn core_shell_allocates_midgray_luma() {
    let sh = key_frame_sequence_header(true);
    let fh = key_frame_header(16);
    let tg = TileGroup { tile_start: 0, tile_end: 0, data: &[0u8; 1] };
    let frame = decode_frame(sh, fh, &tg).expect("core shell decode");
    assert_eq!(frame.luma().width, 64);
    assert_eq!(frame.luma().height, 48);
    assert_eq!(frame.luma().row(0)[0], 128);
    assert_eq!(frame.luma().row(0)[1], 128);
}

#[test]
fn core_shell_accepts_general_keyframe_headers() {
    let sh = key_frame_sequence_header(false);
    let fh = key_frame_header(0);
    let tg = TileGroup { tile_start: 0, tile_end: 0, data: &[0u8; 1] };
    let frame = decode_frame(sh, fh, &tg).expect("core shell decode");
    assert_eq!(frame.luma().width, 64);
    assert_eq!(frame.luma().height, 48);
    assert_eq!(frame.luma().row(0)[0], 128);
}

#[test]
fn core_rejects_inter_frames_and_tiled_frames() {
    let sh = key_frame_sequence_header(false);
    let tg = TileGroup { tile_start: 0, tile_end: 0, data: &[0u8; 1] };
    let mut fh = key_frame_header(0);
    fh.frame_type = FrameType::Inter;
    assert!(decode_frame(sh, fh, &tg).is_err());
    let mut fh = key_frame_header(0);
    fh.num_tile_cols = 2;
    assert!(decode_frame(sh, fh, &tg).is_err());
    let empty = TileGroup { tile_start: 0, tile_end: 0, data: &[] };
    assert!(decode_frame(sh, key_frame_header(0), &empty).is_err());
}

#[test]
fn core_fills_chroma_mid_gray() {
    let sh = key_frame_sequence_header(true);
    let tg = TileGroup { tile_start: 0, tile_end: 0, data: &[0u8; 4] };
    let frame = decode_frame(sh, key_frame_header(16), &tg).expect("decode");
    assert_eq!(frame.chroma_u().width, 32);
    assert_eq!(frame.chroma_u().height, 24);
    assert!(frame.chroma_u().row(23).iter().all(|&v| v == 128));
    assert!(frame.chroma_v().row(0).iter().all(|&v| v == 128));
}

#[test]
fn bac_reader_on_empty_buffer_reports_error_after_read() {
    let mut reader = BacReader::new(&[]);
    let _ = reader.read_bool_unbiased();
    assert!(reader.had_error());
}

#[test]
fn bac_reader_zero_buffer_decodes_stable_false_sequence() {
    let mut reader = BacReader::new(&[0x00, 0x00, 0x00, 0x00]);
    assert!(!reader.read_bool_unbiased());
    assert!(!reader.read_bool_unbiased());
    assert!(!reader.read_bool_unbiased());
}

#[test]
fn read_symbol_on_two_entry_cdf_matches_binary() {
    let buf: &[u8] = &[0x00, 0x00, 0x00, 0x00];
    let mut r1 = BacReader::new(buf);
    let s1 = r1.read_symbol(&[16384, 32767]);
    let mut r2 = BacReader::new(buf);
    let s2 = if r2.read_bool_unbiased() { 1 } else { 0 };
    assert_eq!(s1, s2);
}

#[test]
fn symbol_wrappers_use_cdfs() {
    let mut reader = BacReader::new(&[0x00, 0x00, 0x00, 0x00]);
    assert_eq!(reader.read_partition(block(64, 64), 0), PartitionType::NoSplit);
    assert!(!reader.read_skip());
    assert_eq!(reader.read_intra_mode(), 0);
}

#[test]
fn read_partition_min_block_forces_none_variant() {
    let mut reader = BacReader::new(&[0x00, 0x00, 0x00, 0x00]);
    assert_eq!(reader.read_partition(BlockSize::min(), 2), PartitionType::NoSplit);
}

#[test]
fn read_coeffs_4x4_handles_all_zero_case() {
    let mut reader = BacReader::new(&[0x00, 0x00, 0x00, 0x00]);
    let mut coeffs = [1i16; 16];
    reader.read_coeffs_4x4(&mut coeffs).expect("all-zero coeffs");
    assert_eq!(coeffs, [0i16; 16]);
}

#[test]
fn all_ones_buffer_decodes_true_bits() {
    let mut reader = BacReader::new(&[0xff, 0xff, 0xff, 0xff]);
    assert!(reader.read_bool_unbiased());
    let mut coeffs = [1i16; 16];
    assert!(reader.read_coeffs_4x4(&mut coeffs).is_err());
    assert_eq!(coeffs, [1i16; 16]);
}

#[test]
fn partition_cdf_helper_preserves_terminal_value() {
    let cdf = partition_cdf_for_variants(&PARTITION_CDF_CTX0, 8);
    assert_eq!(cdf.len(), 8);
    assert_eq!(cdf[7], 32767);
}

#[test]
fn runtime_partition_variants_preserve_binary_split_path_when_available() {
    let variants = vec![PartitionType::NoSplit, PartitionType::Horz, PartitionType::Vert, PartitionType::Split];
    assert_eq!(runtime_partition_variants(&variants), vec![PartitionType::NoSplit, PartitionType::Split]);
}

#[test]
fn sequential_executor_visits_every_tile_in_order() {
    let exec = Sequential;
    let counter = AtomicUsize::new(0);
    exec.for_each_tile(4, |i| {
        let n = counter.fetch_add(1, Ordering::SeqCst);
        assert_eq!(n, i);
    });
    assert_eq!(counter.load(Ordering::SeqCst), 4);
}

#[test]
fn pixel_u8_has_bit_depth_8() {
    assert_eq!(<u8 as Pixel>::BIT_DEPTH, 8);
    assert_eq!(<u8 as Pixel>::MAX, 255);
}

#[test]
fn frame_buffer_allocates_planes_with_aligned_stride() {
    let fb = FrameBuffer::new(64, 64, Subsampling::Yuv420);
    assert_eq!(fb.luma().width, 64);
    assert_eq!(fb.luma().height, 64);
    assert_eq!(fb.chroma_u().width, 32);
    assert_eq!(fb.chroma_u().height, 32);
    assert_eq!(fb.luma().stride % 64, 0);
    assert!(fb.luma().stride >= 64);
}

#[test]
fn frame_buffer_rounds_odd_chroma_up() {
    let fb = FrameBuffer::new(65, 33, Subsampling::Yuv420);
    assert_eq!(fb.luma().stride, 128);
    assert_eq!(fb.chroma_u().width, 33);
    assert_eq!(fb.chroma_u().height, 17);
    let fb = FrameBuffer::new(65, 33, Subsampling::Yuv422);
    assert_eq!(fb.chroma_v().height, 33);
}

#[test]
fn dc_no_neighbors_produces_mid_gray() {
    let mut dst = [0u8; 16];
    predict_dc_4x4(None, None, &mut dst, 4);
    assert_eq!(dst, [128u8; 16]);
}

#[test]
fn dc_with_neighbors_averages_both_sides() {
    let above = [100u8; 4];
    let left = [200u8; 4];
    let mut dst = [0u8; 16];
    predict_dc_4x4(Some(&above), Some(&left), &mut dst, 4);
    assert_eq!(dst, [150u8; 16]);
}

#[test]
fn dc_with_one_edge_rounds_its_mean() {
    let above = [1u8, 2, 3, 4];
    let mut dst = [0u8; 16];
    predict_dc_4x4(Some(&above), None, &mut dst, 4);
    assert_eq!(dst, [3u8; 16]);
}

#[test]
fn v_uses_above_samples_per_column() {
    let above = [1u8, 2, 3, 4];
    let mut dst = [0u8; 16];
    predict_v_4x4(Some(&above), &mut dst, 4);
    assert_eq!(dst, [1, 2, 3, 4, 1, 2, 3, 4, 1, 2, 3, 4, 1, 2, 3, 4]);
}

#[test]
fn h_uses_left_samples_per_row() {
    let left = [5u8, 6, 7, 8];
    let mut dst = [0u8; 16];
    predict_h_4x4(Some(&left), &mut dst, 4);
    assert_eq!(dst, [5, 5, 5, 5, 6, 6, 6, 6, 7, 7, 7, 7, 8, 8, 8, 8]);
}

#[test]
fn inv_dct4x4_all_zeros_produces_all_zeros() {
    let k = detect();
    let coeffs = [0i32; 16];
    let mut dst = [7i16; 16];
    k.inv_dct4x4(&coeffs, &mut dst, 4);
    assert_eq!(dst, [0i16; 16]);
}

#[test]
fn inv_dct4x4_dc_only_produces_flat_block() {
    let k = detect();
    let mut coeffs = [0i32; 16];
    coeffs[0] = 64;
    let mut dst = [0i16; 16];
    k.inv_dct4x4(&coeffs, &mut dst, 4);
    for &v in &dst {
        assert_eq!(v, dst[0], "DC-only block must be flat");
    }
}

#[test]
fn inv_dct4x4_dc_value_follows_fixed_point_rounding() {
    let k = detect();
    let mut coeffs = [0i32; 16];
    coeffs[0] = 64;
    let mut dst = [0i16; 16];
    k.inv_dct4x4(&coeffs, &mut dst, 4);
    // 64 * 11585 rounds to 181 after the row pass, 181 * 11585 to 512 after
    // the column pass, and (512 + 8) >> 4 == 32.
    assert_eq!(dst[0], 32);
}

#[test]
fn inv_idtx4x4_preserves_all_zero_block() {
    let k = detect();
    let coeffs = [0i32; 16];
    let mut dst = [7i16; 16];
    k.inv_idtx4x4(&coeffs, &mut dst, 4);
    assert_eq!(dst, [0i16; 16]);
}

#[test]
fn inv_adstdct4x4_preserves_all_zero_block() {
    let k = detect();
    let coeffs = [0i32; 16];
    let mut dst = [7i16; 16];
    k.inv_adstdct4x4(&coeffs, &mut dst, 4);
    assert_eq!(dst, [0i16; 16]);
}

#[test]
fn inv_dctadst4x4_preserves_all_zero_block() {
    let k = detect();
    let coeffs = [0i32; 16];
    let mut dst = [7i16; 16];
    k.inv_dctadst4x4(&coeffs, &mut dst, 4);
    assert_eq!(dst, [0i16; 16]);
}

#[test]
fn kernels_leave_stride_padding_untouched() {
    let k = detect();
    let coeffs = [0i32; 16];
    let mut dst = [9i16; 20];
    k.inv_dct4x4(&coeffs, &mut dst, 5);
    for r in 0..4 {
        for c in 0..4 {
            assert_eq!(dst[r * 5 + c], 0);
        }
        assert_eq!(dst[r * 5 + 4], 9);
    }
}

#[test]
fn walk_64x64_visits_256_4x4_leaves() {
    let leaves = walk_partition_tree(0, 0, BlockSize::sb_m0(), &|_, _, _| Ok::<_, ()>(PartitionType::Split))
        .expect("walk");
    for &(_, _, bs, _) in leaves.iter() {
        assert!(bs.is_min());
    }
    assert_eq!(leaves.len(), 16 * 16);
}

#[test]
fn walk_visits_leaves_in_z_order() {
    let leaves = walk_partition_tree(0, 0, block(8, 8), &|_, _, _| Ok::<_, ()>(PartitionType::Split)).expect("walk");
    let coords: Vec<(usize, usize)> = leaves.iter().map(|&(x, y, _, _)| (x, y)).collect();
    assert_eq!(coords, vec![(0, 0), (4, 0), (0, 4), (4, 4)]);
}

#[test]
fn walk_stops_at_first_decision_error() {
    let result = walk_partition_tree(0, 0, block(16, 16), &|_, _, _| Err::<PartitionType, &str>("stop"));
    assert_eq!(result, Err("stop"));
}

#[test]
fn partition_children_match_expected_shapes() {
    let bsize = block(16, 16);
    let cases = [
        (PartitionType::Horz, vec![(0, 0, block(16, 8)), (0, 8, block(16, 8))]),
        (PartitionType::Vert, vec![(0, 0, block(8, 16)), (8, 0, block(8, 16))]),
        (PartitionType::Horz3, vec![(0, 0, block(16, 4)), (0, 4, block(16, 8)), (0, 12, block(16, 4))]),
        (PartitionType::Vert3, vec![(0, 0, block(4, 16)), (4, 0, block(8, 16)), (12, 0, block(4, 16))]),
        (PartitionType::Horz4A, vec![(0, 0, block(16, 2)), (0, 2, block(16, 4)), (0, 6, block(16, 8)), (0, 14, block(16, 2))]),
        (PartitionType::Horz4B, vec![(0, 0, block(16, 2)), (0, 2, block(16, 8)), (0, 10, block(16, 4)), (0, 14, block(16, 2))]),
        (PartitionType::Vert4A, vec![(0, 0, block(2, 16)), (2, 0, block(4, 16)), (6, 0, block(8, 16)), (14, 0, block(2, 16))]),
        (PartitionType::Vert4B, vec![(0, 0, block(2, 16)), (2, 0, block(8, 16)), (10, 0, block(4, 16)), (14, 0, block(2, 16))]),
    ];
    for (partition, expected) in cases {
        assert_eq!(partition_children(0, 0, bsize, partition), expected);
    }
}

#[test]
fn dequant_4x4_scales_dc_and_ac_separately() {
    let coeffs_in = [1i16; 16];
    let mut out = [0i32; 16];
    dequant_4x4(10, &coeffs_in, &mut out);
    assert_eq!(out[0], i32::from(dc_q_lookup_8bit(10)));
    assert_eq!(out[1], i32::from(ac_q_lookup_8bit(10)));
}

#[test]
fn ac_q_lookup_matches_reference_shape() {
    assert_eq!(ac_q_lookup_8bit(0), 64);
    assert_eq!(ac_q_lookup_8bit(1), 40);
    assert_eq!(ac_q_lookup_8bit(24), 78);
    assert_eq!(ac_q_lookup_8bit(25), 80);
    assert_eq!(ac_q_lookup_8bit(48), 156);
}

#[test]
fn ac_q_lookup_wraps_at_the_top_of_the_range() {
    assert_eq!(ac_q_lookup_8bit(255), (60i16).wrapping_shl(10));
}

#[test]
fn quant_context_uses_plane_deltas() {
    let mut header = key_frame_header(20);
    header.quant.delta_q_y_dc = -1;
    header.quant.delta_q_u_dc = 2;
    header.quant.delta_q_u_ac = 3;
    header.quant.delta_q_v_dc = 4;
    header.quant.delta_q_v_ac = 5;
    let q = QuantContext::from_frame_header(&header);
    let coeffs_in = [1i16; 16];
    let mut y = [0i32; 16];
    let mut u = [0i32; 16];
    q.dequant_4x4(Plane::Y, &coeffs_in, &mut y);
    q.dequant_4x4(Plane::U, &coeffs_in, &mut u);
    assert_eq!(y[0], i32::from(dc_q_lookup_8bit(19)));
    assert_eq!(u[0], i32::from(dc_q_lookup_8bit(22)));
    assert_eq!(u[1], i32::from(ac_q_lookup_8bit(23)));
}

#[test]
fn cdf_state_update_preserves_order_and_terminal() {
    let mut state = CdfState::new(PARTITION_CDF_CTX0);
    state.update(3);
    assert_eq!(state.as_slice()[state.as_slice().len() - 1], 32767);
    assert!(state.as_slice().windows(2).all(|w| w[0] <= w[1]));
}

#[test]
fn tile_context_starts_from_default_tables() {
    let tile = TileContext::new_default();
    assert!(tile.updates_enabled());
    assert_eq!(tile.partition_binary.as_slice(), &PARTITION_BINARY_CDF);
    assert_eq!(tile.y_mode_set.as_slice(), &Y_MODE_SET_CDF);
    assert_eq!(tile.y_mode_idx[0].as_slice(), &Y_MODE_IDX_CDF_0);
    assert_eq!(tile.uv_mode[0].as_slice(), &UV_MODE_CDF_0);
}

#[test]
fn tile_context_can_disable_updates() {
    let mut tile = TileContext::new(false);
    let before = tile.partition_binary.as_slice().to_vec();
    tile.update_partition(block(64, 64), 0, PartitionType::Split);
    assert_eq!(tile.partition_binary.as_slice(), before.as_slice());
}

#[test]
fn tile_context_reset_restores_default_tables() {
    let mut tile = TileContext::new_default();
    tile.partition_binary.update(1);
    tile.skip.update(1);
    tile.y_mode_set.update(1);
    tile.y_mode_idx[0].update(4);
    tile.y_mode_idx_offset[0].update(2);
    tile.uv_mode[0].update(3);
    tile.all_zero.update(1);
    tile.reset_to_default();
    assert_eq!(tile.partition_binary.as_slice(), &PARTITION_BINARY_CDF);
    assert_eq!(tile.skip.as_slice(), &SKIP_CDF);
    assert_eq!(tile.y_mode_set.as_slice(), &Y_MODE_SET_CDF);
    assert_eq!(tile.y_mode_idx[0].as_slice(), &Y_MODE_IDX_CDF_0);
    assert_eq!(tile.y_mode_idx_offset[0].as_slice(), &Y_MODE_IDX_OFFSET_CDF_0);
    assert_eq!(tile.uv_mode[0].as_slice(), &UV_MODE_CDF_0);
    assert_eq!(tile.all_zero.as_slice(), &ALL_ZERO_CDF);
}

#[test]
fn active_default_cdfs_hash_stably() {
    let digest = md5::compute(active_default_cdf_bytes());
    assert_eq!(format!("{digest:x}"), "c896fd58dc5b57a41fa5081f184be3f5");
}

#[test]
fn partition_context_tables_hash_stably_per_family() {
    let partition_bytes = [
        cdf_u16_bytes(&PARTITION_CDF_CTX0),
        cdf_u16_bytes(&PARTITION_CDF_CTX1),
        cdf_u16_bytes(&PARTITION_CDF_CTX2),
    ]
    .concat();
    let digest = md5::compute(partition_bytes);
    assert_eq!(format!("{digest:x}"), "e8478417b5bfc0e2e9252c5f7714eafe");
}

#[test]
fn dispatches_to_dct4x4() {
    let k = detect();
    let coeffs = [0i32; 16];
    let mut dst = [1i16; 16];
    inverse_transform(&k, TxSize::Tx4x4, TxType::DctDct, &coeffs, &mut dst, 4);
    assert_eq!(dst, [0i16; 16]);
}

#[test]
fn intra_default_tx_type_matches_av2_mapping_subset() {
    assert_eq!(intra_default_tx_type(0), TxType::DctDct);
    assert_eq!(intra_default_tx_type(1), TxType::AdstDct);
    assert_eq!(intra_default_tx_type(2), TxType::DctAdst);
    assert_eq!(intra_default_tx_type(4), TxType::AdstAdst);
}

#[test]
fn short_side_symbol_mapping_matches_av2_layout() {
    assert_eq!(
        intra_ext_tx_type_from_symbol(
            IntraTxFamily::ShortSide { long_side_dct: true, is_rect_horz: true, long_side_64: false },
            1
        ),
        TxType::AdstDct
    );
    assert_eq!(
        intra_ext_tx_type_from_symbol(
            IntraTxFamily::ShortSide { long_side_dct: false, is_rect_horz: false, long_side_64: false },
            3
        ),
        TxType::Idtx
    );
}

#[test]
fn ext_set_symbols_outside_the_alphabet_select_dct() {
    assert_eq!(intra_ext_tx_type_from_symbol(IntraTxFamily::ExtSet1, 9), TxType::DctDct);
    assert_eq!(intra_ext_tx_type_from_symbol(IntraTxFamily::ExtSet2, 1), TxType::Idtx);
    assert_eq!(
        intra_ext_tx_type_from_symbol(
            IntraTxFamily::ShortSide { long_side_dct: false, is_rect_horz: true, long_side_64: true },
            2
        ),
        TxType::DctDct
    );
}

#[test]
fn dispatches_to_idtx4x4() {
    let k = detect();
    let mut coeffs = [0i32; 16];
    coeffs[0] = 5;
    coeffs[5] = -3;
    let mut dst = [0i16; 16];
    inverse_transform(&k, TxSize::Tx4x4, TxType::Idtx, &coeffs, &mut dst, 4);
    assert_eq!(dst[0], 5);
    assert_eq!(dst[5], -3);
}

#[test]
fn dispatches_to_adstdct4x4() {
    let k = detect();
    let mut coeffs = [0i32; 16];
    coeffs[0] = 32;
    let mut dst = [0i16; 16];
    inverse_transform(&k, TxSize::Tx4x4, TxType::AdstDct, &coeffs, &mut dst, 4);
    assert!(dst.iter().any(|&v| v != 0));
}

#[test]
fn dispatches_to_dctadst4x4() {
    let k = detect();
    let mut coeffs = [0i32; 16];
    coeffs[0] = 32;
    let mut dst = [0i16; 16];
    inverse_transform(&k, TxSize::Tx4x4, TxType::DctAdst, &coeffs, &mut dst, 4);
    assert!(dst.iter().any(|&v| v != 0));
}

#[test]
fn inv_dct4x4_accepts_a_lone_dc_beyond_the_box_bound() {
    let kernels = detect();
    let mut coeffs = [0i32; 16];
    coeffs[0] = 20000;
    let mut dst = [0i16; 16];
    kernels.inv_dct4x4(&coeffs, &mut dst, 4);
    assert!(dst.iter().all(|&v| v == 10000));
}

#[test]
fn inv_idtx4x4_with_overlapping_rows_keeps_the_last_write() {
    let kernels = detect();
    let coeffs: [i32; 16] = core::array::from_fn(|i| i as i32);
    let mut dst = [0i16; 4];
    kernels.inv_idtx4x4(&coeffs, &mut dst, 0);
    assert_eq!(dst, [12, 13, 14, 15]);
    let mut dst2 = [0i16; 7];
    kernels.inv_idtx4x4(&coeffs, &mut dst2, 1);
    assert_eq!(dst2, [0, 4, 8, 12, 13, 14, 15]);
}

#[test]
fn core_decodes_a_frame_whose_size_is_not_a_multiple_of_four() {
    let sh = key_frame_sequence_header(true);
    let mut fh = key_frame_header(16);
    fh.frame_width = 6;
    fh.frame_height = 4;
    let tg = TileGroup { tile_start: 0, tile_end: 0, data: &[0u8; 1] };
    let frame = decode_frame(sh, fh, &tg).expect("an edge frame decodes");
    assert_eq!((frame.luma().width, frame.luma().height), (6, 4));
    assert!((0..4).all(|y| frame.luma().row(y).iter().all(|&v| v == 128)));
}
