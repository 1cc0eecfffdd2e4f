//! Inverse transform selection and dispatch.
use vstd::prelude::*;
use super::kernels::{Kernels, Transform1d, spec_block_written, spec_block_fits, spec_2d_fits, spec_inv_2d, spec_clamp16,
    spec_writes, spec_row_major, spec_col_major, lemma_row_major_block, lemma_col_major_block};

verus! {

/// Transform sizes.
#[derive(Copy, Clone, Debug, Eq, PartialEq, Structural)]
pub enum TxSize {
    Tx4x4,
}

/// Two-dimensional transform types (vertical then horizontal kernel).
#[derive(Copy, Clone, Debug, Eq, PartialEq, Structural)]
pub enum TxType {
    DctDct,
    AdstDct,
    DctAdst,
    AdstAdst,
    FlipadstDct,
    DctFlipadst,
    FlipadstFlipadst,
    AdstFlipadst,
    FlipadstAdst,
    Idtx,
    VDct,
    HDct,
    VAdst,
    HAdst,
    VFlipadst,
    HFlipadst,
}

/// Sets of intra transform types that a coded symbol selects from.
#[derive(Copy, Clone, Debug, Eq, PartialEq, Structural)]
pub enum IntraTxFamily {
    DctOnly,
    ExtSet1,
    ExtSet2,
    ShortSide {
        long_side_dct: bool,
        is_rect_horz: bool,
        long_side_64: bool,
    },
}

/// The default transform type of each intra mode.
pub open spec fn spec_intra_default_tx_type(intra_mode: u8) -> TxType {
    if intra_mode == 1 || intra_mode == 5 || intra_mode == 8 || intra_mode == 10 {
        TxType::AdstDct
    } else if intra_mode == 2 || intra_mode == 6 || intra_mode == 7 || intra_mode == 11 {
        TxType::DctAdst
    } else if intra_mode == 4 || intra_mode == 9 || intra_mode == 12 {
        TxType::AdstAdst
    } else {
        TxType::DctDct
    }
}

/// The default transform type of an intra mode.
pub fn intra_default_tx_type(intra_mode: u8) -> (t: TxType)
    ensures
        t == spec_intra_default_tx_type(intra_mode),
{
    match intra_mode {
        0 => TxType::DctDct,
        1 => TxType::AdstDct,
        2 => TxType::DctAdst,
        3 => TxType::DctDct,
        4 => TxType::AdstAdst,
        5 => TxType::AdstDct,
        6 => TxType::DctAdst,
        7 => TxType::DctAdst,
        8 => TxType::AdstDct,
        9 => TxType::AdstAdst,
        10 => TxType::AdstDct,
        11 => TxType::DctAdst,
        12 => TxType::AdstAdst,
        _ => TxType::DctDct,
    }
}

/// The transform type that `symbol` selects in `family`; symbols outside a family's
/// alphabet select DCT_DCT.
pub open spec fn spec_intra_ext_tx_type(family: IntraTxFamily, symbol: usize) -> TxType {
    match family {
        IntraTxFamily::DctOnly => TxType::DctDct,
        IntraTxFamily::ExtSet1 => {
            if symbol == 1 {
                TxType::AdstDct
            } else if symbol == 2 {
                TxType::DctAdst
            } else if symbol == 3 {
                TxType::FlipadstDct
            } else if symbol == 4 {
                TxType::DctFlipadst
            } else if symbol == 5 {
                TxType::VDct
            } else if symbol == 6 {
                TxType::HDct
            } else {
                TxType::DctDct
            }
        },
        IntraTxFamily::ExtSet2 => if symbol == 1 { TxType::Idtx } else { TxType::DctDct },
        IntraTxFamily::ShortSide { long_side_dct, is_rect_horz, long_side_64 } => {
            if long_side_dct {
                if symbol == 0 {
                    TxType::DctDct
                } else if symbol == 1 {
                    if is_rect_horz { TxType::AdstDct } else { TxType::DctAdst }
                } else if symbol == 2 {
                    if is_rect_horz { TxType::FlipadstDct } else { TxType::DctFlipadst }
                } else if symbol == 3 {
                    if is_rect_horz { TxType::HDct } else { TxType::VDct }
                } else {
                    TxType::DctDct
                }
            } else if long_side_64 {
                TxType::DctDct
            } else if symbol == 0 {
                if is_rect_horz { TxType::VDct } else { TxType::HDct }
            } else if symbol == 1 {
                if is_rect_horz { TxType::VAdst } else { TxType::HAdst }
            } else if symbol == 2 {
                if is_rect_horz { TxType::VFlipadst } else { TxType::HFlipadst }
            } else if symbol == 3 {
                TxType::Idtx
            } else {
                TxType::DctDct
            }
        },
    }
}

/// The transform type that a coded symbol selects in an intra transform family.
pub fn intra_ext_tx_type_from_symbol(family: IntraTxFamily, symbol: usize) -> (t: TxType)
    ensures
        t == spec_intra_ext_tx_type(family, symbol),
{
    match family {
        IntraTxFamily::DctOnly => TxType::DctDct,
        IntraTxFamily::ExtSet1 => match symbol {
            0 => TxType::DctDct,
            1 => TxType::AdstDct,
            2 => TxType::DctAdst,
            3 => TxType::FlipadstDct,
            4 => TxType::DctFlipadst,
            5 => TxType::VDct,
            6 => TxType::HDct,
            _ => TxType::DctDct,
        },
        IntraTxFamily::ExtSet2 => match symbol {
            0 => TxType::DctDct,
            1 => TxType::Idtx,
            _ => TxType::DctDct,
        },
        IntraTxFamily::ShortSide { long_side_dct, is_rect_horz, long_side_64 } => {
            if long_side_dct {
                match (is_rect_horz, symbol) {
                    (true, 0) => TxType::DctDct,
                    (true, 1) => TxType::AdstDct,
                    (true, 2) => TxType::FlipadstDct,
                    (true, 3) => TxType::HDct,
                    (false, 0) => TxType::DctDct,
                    (false, 1) => TxType::DctAdst,
                    (false, 2) => TxType::DctFlipadst,
                    (false, 3) => TxType::VDct,
                    _ => TxType::DctDct,
                }
            } else if long_side_64 {
                TxType::DctDct
            } else {
                match (is_rect_horz, symbol) {
                    (true, 0) => TxType::VDct,
                    (true, 1) => TxType::VAdst,
                    (true, 2) => TxType::VFlipadst,
                    (true, 3) => TxType::Idtx,
                    (false, 0) => TxType::HDct,
                    (false, 1) => TxType::HAdst,
                    (false, 2) => TxType::HFlipadst,
                    (false, 3) => TxType::Idtx,
                    _ => TxType::DctDct,
                }
            }
        },
    }
}

/// The transform types that have a 4x4 kernel.
pub open spec fn spec_tx_type_supported(tx_type: TxType) -> bool {
    tx_type == TxType::DctDct || tx_type == TxType::AdstDct || tx_type == TxType::DctAdst || tx_type == TxType::Idtx
}

/// The residual of `(r, c)` that a 4x4 inverse transform of type `tx_type` produces.
pub open spec fn spec_residual(coeffs: Seq<i32>, tx_type: TxType, r: int, c: int) -> i16 {
    match tx_type {
        TxType::AdstDct => spec_inv_2d(coeffs, Transform1d::Dct, Transform1d::Adst, r, c),
        TxType::DctAdst => spec_inv_2d(coeffs, Transform1d::Adst, Transform1d::Dct, r, c),
        TxType::Idtx => spec_clamp16(coeffs[r * 4 + c] as int),
        _ => spec_inv_2d(coeffs, Transform1d::Dct, Transform1d::Dct, r, c),
    }
}

/// No intermediate value of the inverse transform of type `tx_type` overflows 32 bits.
pub open spec fn spec_tx_fits(coeffs: Seq<i32>, tx_type: TxType) -> bool {
    match tx_type {
        TxType::AdstDct => spec_2d_fits(coeffs, Transform1d::Dct, Transform1d::Adst),
        TxType::DctAdst => spec_2d_fits(coeffs, Transform1d::Adst, Transform1d::Dct),
        TxType::Idtx => true,
        _ => spec_2d_fits(coeffs, Transform1d::Dct, Transform1d::Dct),
    }
}

/// The order in which the transform of type `tx_type` writes its residuals: row by row for
/// IDTX, column by column otherwise.
pub open spec fn spec_tx_order(tx_type: TxType) -> spec_fn(int) -> (int, int) {
    if tx_type == TxType::Idtx {
        |k: int| spec_row_major(k)
    } else {
        |k: int| spec_col_major(k)
    }
}

/// Inverse-transform a 4x4 block of dequantized coefficients into residuals at `dst`
/// with row stride `stride`.
pub fn inverse_transform<K: Kernels>(kernels: &K, tx_size: TxSize, tx_type: TxType, coeffs: &[i32; 16], dst: &mut [i16], stride: usize)
    requires
        spec_tx_type_supported(tx_type),
        spec_tx_fits(coeffs@, tx_type),
        spec_block_fits(old(dst)@.len() as int, stride as int),
    ensures
        final(dst)@ == spec_writes(old(dst)@, stride as int, spec_tx_order(tx_type),
            |r: int, c: int| spec_residual(coeffs@, tx_type, r, c), 16),
        stride >= 4 ==> spec_block_written(old(dst)@, final(dst)@, stride as int, |r: int, c: int| spec_residual(coeffs@, tx_type, r, c)),
{
    let ghost value = |r: int, c: int| spec_residual(coeffs@, tx_type, r, c);
    let ghost old_dst = dst@;
    match tx_type {
        TxType::DctDct => {
            proof {
                assert(value =~= (|r: int, c: int| spec_inv_2d(coeffs@, Transform1d::Dct, Transform1d::Dct, r, c)));
            }
            kernels.inv_dct4x4(coeffs, dst, stride);
        },
        TxType::AdstDct => {
            proof {
                assert(value =~= (|r: int, c: int| spec_inv_2d(coeffs@, Transform1d::Dct, Transform1d::Adst, r, c)));
            }
            kernels.inv_adstdct4x4(coeffs, dst, stride);
        },
        TxType::DctAdst => {
            proof {
                assert(value =~= (|r: int, c: int| spec_inv_2d(coeffs@, Transform1d::Adst, Transform1d::Dct, r, c)));
            }
            kernels.inv_dctadst4x4(coeffs, dst, stride);
        },
        _ => {
            proof {
                assert(value =~= (|r: int, c: int| spec_clamp16(coeffs@[r * 4 + c] as int)));
            }
            kernels.inv_idtx4x4(coeffs, dst, stride);
        },
    }
    proof {
        if stride >= 4 {
            if tx_type == TxType::Idtx {
                lemma_row_major_block(old_dst, stride as int, value);
            } else {
                lemma_col_major_block(old_dst, stride as int, value);
            }
        }
    }
}

} // verus!
