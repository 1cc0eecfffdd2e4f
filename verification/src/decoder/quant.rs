//! Quantizer lookup and dequantization.
use vstd::prelude::*;
use crate::bitstream::UncompressedFrameHeader;

verus! {

/// The three image planes.
#[derive(Debug, Clone, Copy, PartialEq, Eq, Structural)]
pub enum Plane {
    Y,
    U,
    V,
}

/// Quantizer parameters of a frame.
#[derive(Debug, Clone, Copy, PartialEq, Eq, Structural)]
pub struct QuantContext {
    pub base_q_idx: u8,
    pub delta_q_y_dc: i8,
    pub delta_q_u_dc: i8,
    pub delta_q_u_ac: i8,
    pub delta_q_v_dc: i8,
    pub delta_q_v_ac: i8,
    pub using_qmatrix: bool,
    pub qm_y: u8,
    pub qm_u: u8,
    pub qm_v: u8,
}

/// Step sizes of the first 25 quantizer indices; later indices repeat the last 24 entries
/// doubled once per 24 indices.
pub const AC_Q_BASE: [i16; 25] = [
    64, 40, 41, 43, 44, 45, 47, 48, 49, 51, 52, 54, 55, 57, 59, 60, 62, 64, 66, 68, 70, 72, 74, 76, 78,
];

/// The 8-bit quantizer step size of index `q`: the first 25 come from the table, later
/// indices repeat the table's last 24 entries shifted left once per 24 indices (in 16-bit arithmetic).
pub open spec fn spec_q_step(q: u8) -> i16 {
    if q == 0 {
        64
    } else if q < 25 {
        AC_Q_BASE@[q as int]
    } else {
        AC_Q_BASE@[(q - 1) % 24 + 1] << (((q - 1) / 24) as i16)
    }
}

/// `base + delta`, clamped to `0..=255`.
pub open spec fn spec_apply_delta(base: u8, delta: i8) -> u8 {
    let s = base as int + delta as int;
    (if s < 0 { 0 } else if s > 255 { 255 } else { s }) as u8
}

impl QuantContext {
    /// The DC delta of a plane.
    pub open spec fn spec_dc_delta(self, plane: Plane) -> i8 {
        match plane {
            Plane::Y => self.delta_q_y_dc,
            Plane::U => self.delta_q_u_dc,
            Plane::V => self.delta_q_v_dc,
        }
    }

    /// The AC delta of a plane (luma has none).
    pub open spec fn spec_ac_delta(self, plane: Plane) -> i8 {
        match plane {
            Plane::Y => 0,
            Plane::U => self.delta_q_u_ac,
            Plane::V => self.delta_q_v_ac,
        }
    }

    /// The quantizer parameters of a frame header.
    pub fn from_frame_header(header: &UncompressedFrameHeader) -> (q: Self)
        ensures
            q.base_q_idx == header.quant.base_q_idx,
            q.delta_q_y_dc == header.quant.delta_q_y_dc,
            q.delta_q_u_dc == header.quant.delta_q_u_dc,
            q.delta_q_u_ac == header.quant.delta_q_u_ac,
            q.delta_q_v_dc == header.quant.delta_q_v_dc,
            q.delta_q_v_ac == header.quant.delta_q_v_ac,
            q.using_qmatrix == header.quant.using_qmatrix,
            q.qm_y == header.quant.qm_y,
            q.qm_u == header.quant.qm_u,
            q.qm_v == header.quant.qm_v,
    {
        let q = header.quant;
        QuantContext {
            base_q_idx: q.base_q_idx,
            delta_q_y_dc: q.delta_q_y_dc,
            delta_q_u_dc: q.delta_q_u_dc,
            delta_q_u_ac: q.delta_q_u_ac,
            delta_q_v_dc: q.delta_q_v_dc,
            delta_q_v_ac: q.delta_q_v_ac,
            using_qmatrix: q.using_qmatrix,
            qm_y: q.qm_y,
            qm_u: q.qm_u,
            qm_v: q.qm_v,
        }
    }

    /// Dequantize a 4x4 block of `plane`: the DC coefficient is scaled by the DC step of the
    /// plane's adjusted index, the rest by the AC step.
    pub fn dequant_4x4(self, plane: Plane, coeffs_in: &[i16; 16], coeffs_out: &mut [i32; 16])
        ensures
            final(coeffs_out)@[0] == coeffs_in@[0] * spec_q_step(spec_apply_delta(self.base_q_idx, self.spec_dc_delta(plane))),
            forall|i: int| 1 <= i < 16 ==> final(coeffs_out)@[i] == coeffs_in@[i]
                * spec_q_step(spec_apply_delta(self.base_q_idx, self.spec_ac_delta(plane))),
    {
        let dc_q = dc_q_lookup_8bit(apply_delta(self.base_q_idx, self.dc_delta(plane)));
        let ac_q = ac_q_lookup_8bit(apply_delta(self.base_q_idx, self.ac_delta(plane)));
        scale_4x4(coeffs_in, coeffs_out, dc_q, ac_q);
    }

    pub fn dc_delta(self, plane: Plane) -> (d: i8)
        ensures
            d == self.spec_dc_delta(plane),
    {
        match plane {
            Plane::Y => self.delta_q_y_dc,
            Plane::U => self.delta_q_u_dc,
            Plane::V => self.delta_q_v_dc,
        }
    }

    pub fn ac_delta(self, plane: Plane) -> (d: i8)
        ensures
            d == self.spec_ac_delta(plane),
    {
        match plane {
            Plane::Y => 0,
            Plane::U => self.delta_q_u_ac,
            Plane::V => self.delta_q_v_ac,
        }
    }
}

fn scale_4x4(coeffs_in: &[i16; 16], coeffs_out: &mut [i32; 16], dc_q: i16, ac_q: i16)
    ensures
        final(coeffs_out)@[0] == coeffs_in@[0] * dc_q,
        forall|i: int| 1 <= i < 16 ==> final(coeffs_out)@[i] == coeffs_in@[i] * ac_q,
{
    assert(coeffs_in@[0] * dc_q <= 32768 * 32768 && coeffs_in@[0] * dc_q >= -32768 * 32768) by (nonlinear_arith)
        requires -32768 <= coeffs_in@[0] <= 32767, -32768 <= dc_q <= 32767;
    coeffs_out[0] = (coeffs_in[0] as i32) * (dc_q as i32);
    let mut i: usize = 1;
    while i < 16
        invariant
            1 <= i <= 16,
            coeffs_out@[0] == coeffs_in@[0] * dc_q,
            forall|j: int| 1 <= j < i ==> coeffs_out@[j] == coeffs_in@[j] * ac_q,
        decreases 16 - i,
    {
        let c = coeffs_in[i];
        assert(c * ac_q <= 32768 * 32768 && c * ac_q >= -32768 * 32768) by (nonlinear_arith)
            requires -32768 <= c <= 32767, -32768 <= ac_q <= 32767;
        coeffs_out[i] = (c as i32) * (ac_q as i32);
        i = i + 1;
    }
}

/// Dequantize a 4x4 block at quantizer index `qindex`.
pub fn dequant_4x4(qindex: u8, coeffs_in: &[i16; 16], coeffs_out: &mut [i32; 16])
    ensures
        final(coeffs_out)@[0] == coeffs_in@[0] * spec_q_step(qindex),
        forall|i: int| 1 <= i < 16 ==> final(coeffs_out)@[i] == coeffs_in@[i] * spec_q_step(qindex),
{
    let dc_q = dc_q_lookup_8bit(qindex);
    let ac_q = ac_q_lookup_8bit(qindex);
    scale_4x4(coeffs_in, coeffs_out, dc_q, ac_q);
}

/// The quantizer index `base_q_idx + delta`, saturated to `0..=255`.
pub fn apply_delta(base_q_idx: u8, delta: i8) -> (q: u8)
    ensures
        q == spec_apply_delta(base_q_idx, delta),
{
    let s: i16 = base_q_idx as i16 + delta as i16;
    if s < 0 {
        0
    } else if s > 255 {
        255
    } else {
        s as u8
    }
}

/// The 8-bit DC step size of index `qindex` (the same table as the AC steps).
pub fn dc_q_lookup_8bit(qindex: u8) -> (q: i16)
    ensures
        q == spec_q_step(qindex),
{
    ac_q_lookup_8bit(qindex)
}

/// The 8-bit AC step size of index `qindex`.
pub fn ac_q_lookup_8bit(qindex: u8) -> (q: i16)
    ensures
        q == spec_q_step(qindex),
{
    if qindex == 0 {
        return 64;
    }
    if qindex < 25 {
        return AC_Q_BASE[qindex as usize];
    }
    let shift = ((qindex - 1) / 24) as i16;
    AC_Q_BASE[((qindex - 1) % 24 + 1) as usize] << shift
}

} // verus!
