//! Sequence header parsing (AV2 form, with the AV1-style form as fallback).
use vstd::prelude::*;
use super::reader::{ParseError, BitReader, bit_at, spec_read_bits, spec_read_uvlc, spec_uint_bits, spec_uvlc_bits,
    spec_holds_bits, lemma_uint_bits_read_back, lemma_uvlc_read_back};

verus! {

/// Minimal sequence header information extracted by the pure-Rust backend.
#[derive(Debug, Clone, Copy, PartialEq, Eq, Hash, Structural)]
pub struct SequenceHeader {
    pub profile: u8,
    pub still_picture: bool,
    pub reduced_still_picture_header: bool,
    pub timing_info_present_flag: bool,
    pub initial_display_delay_present_flag: bool,
    pub frame_id_numbers_present_flag: bool,
    pub operating_points_cnt_minus_1: u8,
    pub operating_point_idc_0: u16,
    pub seq_level_idx_0: u8,
    pub seq_tier_0: Option<bool>,
    pub max_frame_width: u32,
    pub max_frame_height: u32,
    pub bit_depth: u8,
    pub monochrome: bool,
    pub subsampling_x: u8,
    pub subsampling_y: u8,
    pub color_range: u8,
    pub chroma_sample_position: u8,
}

/// Colour configuration: bit depth, monochrome, subsampling x/y, colour range, chroma sample position.
pub type ColorConfig = (u8, bool, u8, u8, u8, u8);

/// `n` bits at `p`, or a truncated-sequence-header error.
pub open spec fn rd(d: Seq<u8>, p: int, n: nat) -> Result<(nat, int), ParseError> {
    match spec_read_bits(d, p, n) {
        Some(x) => Ok(x),
        None => Err(ParseError::TruncatedSequenceHeader),
    }
}

/// One bit at `p`, or a truncated-sequence-header error.
pub open spec fn rf(d: Seq<u8>, p: int) -> Result<(bool, int), ParseError> {
    if 0 <= p < 8 * d.len() {
        Ok((bit_at(d, p), p + 1))
    } else {
        Err(ParseError::TruncatedSequenceHeader)
    }
}

/// An exp-Golomb code at `p`, or a truncated-sequence-header error.
pub open spec fn ru(d: Seq<u8>, p: int) -> Result<(nat, int), ParseError> {
    match spec_read_uvlc(d, p) {
        Some(x) => Ok(x),
        None => Err(ParseError::TruncatedSequenceHeader),
    }
}

/// Maximum frame width and height, each coded as a 4-bit length then the value minus one.
pub open spec fn spec_frame_size(d: Seq<u8>, p: int) -> Result<(u32, u32, int), ParseError> {
    match rd(d, p, 4) {
        Err(e) => Err(e),
        Ok((wb, p1)) => match rd(d, p1, 4) {
            Err(e) => Err(e),
            Ok((hb, p2)) => match rd(d, p2, wb + 1) {
                Err(e) => Err(e),
                Ok((w, p3)) => match rd(d, p3, hb + 1) {
                    Err(e) => Err(e),
                    Ok((h, p4)) => Ok(((w + 1) as u32, (h + 1) as u32, p4)),
                },
            },
        },
    }
}

/// The AV1-style colour configuration at `p`.
pub open spec fn spec_color_config(d: Seq<u8>, p: int, profile: u8, reduced: bool) -> Result<ColorConfig, ParseError> {
    match rf(d, p) {
        Err(e) => Err(e),
        Ok((high_bitdepth, p1)) => {
            let depth_res: Result<(u8, int), ParseError> = if !high_bitdepth {
                Ok((8u8, p1))
            } else if profile == 2 {
                match rf(d, p1) {
                    Err(e) => Err(e),
                    Ok((twelve, p2)) => Ok((if twelve { 12u8 } else { 10u8 }, p2)),
                }
            } else {
                Ok((10u8, p1))
            };
            match depth_res {
                Err(e) => Err(e),
                Ok((bit_depth, p2)) => {
                    let mono_res: Result<(bool, int), ParseError> = if profile == 1 {
                        Ok((false, p2))
                    } else {
                        rf(d, p2)
                    };
                    match mono_res {
                        Err(e) => Err(e),
                        Ok((monochrome, p3)) => if reduced {
                            match rf(d, p3) {
                                Err(e) => Err(e),
                                Ok((cr, _)) => Ok((bit_depth, monochrome, 1u8, 1u8, if cr { 1u8 } else { 0u8 }, 0u8)),
                            }
                        } else {
                            match rf(d, p3) {
                                Err(e) => Err(e),
                                Ok((cdp, p4)) => {
                                    let cd_res: Result<int, ParseError> = if cdp {
                                        match rd(d, p4, 24) {
                                            Err(e) => Err(e),
                                            Ok((_, p5)) => Ok(p5),
                                        }
                                    } else {
                                        Ok(p4)
                                    };
                                    match cd_res {
                                        Err(e) => Err(e),
                                        Ok(p5) => match rf(d, p5) {
                                            Err(e) => Err(e),
                                            Ok((crb, p6)) => {
                                                let cr: u8 = if crb { 1u8 } else { 0u8 };
                                                if monochrome {
                                                    Ok((bit_depth, true, 1u8, 1u8, cr, 0u8))
                                                } else if profile == 0 {
                                                    match rd(d, p6, 2) {
                                                        Err(e) => Err(e),
                                                        Ok((csp, _)) => Ok((bit_depth, false, 1u8, 1u8, cr, csp as u8)),
                                                    }
                                                } else if profile == 1 {
                                                    Ok((bit_depth, false, 0u8, 0u8, cr, 0u8))
                                                } else if profile == 2 {
                                                    match rf(d, p6) {
                                                        Err(e) => Err(e),
                                                        Ok((sxb, p7)) => match rf(d, p7) {
                                                            Err(e) => Err(e),
                                                            Ok((syb, p8)) => if sxb && syb {
                                                                match rd(d, p8, 2) {
                                                                    Err(e) => Err(e),
                                                                    Ok((csp, _)) => Ok((bit_depth, false, 1u8, 1u8, cr, csp as u8)),
                                                                }
                                                            } else {
                                                                Ok((bit_depth, false, if sxb { 1u8 } else { 0u8 }, if syb { 1u8 } else { 0u8 }, cr, 0u8))
                                                            },
                                                        },
                                                    }
                                                } else {
                                                    Err(ParseError::UnsupportedSequenceHeader)
                                                }
                                            },
                                        },
                                    }
                                },
                            }
                        },
                    }
                },
            }
        },
    }
}

fn read_bit_sh(bits: &mut BitReader) -> (res: Result<bool, ParseError>)
    requires
        old(bits).wf(),
    ensures
        final(bits).wf(),
        final(bits).data@ == old(bits).data@,
        match rf(old(bits).data@, old(bits).bit_offset as int) {
            Ok((b, p)) => res == Ok::<bool, ParseError>(b) && final(bits).bit_offset == p,
            Err(e) => res == Err::<bool, ParseError>(e),
        },
{
    bits.read_bit_with(ParseError::TruncatedSequenceHeader)
}

fn read_bits_sh(bits: &mut BitReader, n: u8) -> (res: Result<u32, ParseError>)
    requires
        old(bits).wf(),
        n <= 32,
    ensures
        final(bits).wf(),
        final(bits).data@ == old(bits).data@,
        match rd(old(bits).data@, old(bits).bit_offset as int, n as nat) {
            Ok((v, p)) => res == Ok::<u32, ParseError>(v as u32) && final(bits).bit_offset == p
                && v < vstd::arithmetic::power2::pow2(n as nat),
            Err(e) => res == Err::<u32, ParseError>(e),
        },
{
    bits.read_bits_with(n, ParseError::TruncatedSequenceHeader)
}

fn read_uvlc_sh(bits: &mut BitReader) -> (res: Result<u32, ParseError>)
    requires
        old(bits).wf(),
    ensures
        final(bits).wf(),
        final(bits).data@ == old(bits).data@,
        match ru(old(bits).data@, old(bits).bit_offset as int) {
            Ok((v, p)) => res == Ok::<u32, ParseError>(v as u32) && final(bits).bit_offset == p && v <= u32::MAX,
            Err(e) => res == Err::<u32, ParseError>(e),
        },
{
    bits.read_uvlc(ParseError::TruncatedSequenceHeader)
}

fn read_frame_size(bits: &mut BitReader) -> (res: Result<(u32, u32), ParseError>)
    requires
        old(bits).wf(),
    ensures
        final(bits).wf(),
        final(bits).data@ == old(bits).data@,
        match spec_frame_size(old(bits).data@, old(bits).bit_offset as int) {
            Ok((w, h, p)) => res == Ok::<(u32, u32), ParseError>((w, h)) && final(bits).bit_offset == p,
            Err(e) => res == Err::<(u32, u32), ParseError>(e),
        },
{
    proof {
        vstd::arithmetic::power2::lemma2_to64();
    }
    let wb = read_bits_sh(bits, 4)? as u8;
    let hb = read_bits_sh(bits, 4)? as u8;
    proof {
        vstd::arithmetic::power2::lemma_pow2_strictly_increases((wb + 1) as nat, 17);
        vstd::arithmetic::power2::lemma_pow2_strictly_increases((hb + 1) as nat, 17);
    }
    let w = read_bits_sh(bits, wb + 1)? + 1;
    let h = read_bits_sh(bits, hb + 1)? + 1;
    Ok((w, h))
}

fn parse_color_config(bits: &mut BitReader, profile: u8, reduced_still_picture_header: bool) -> (res: Result<ColorConfig, ParseError>)
    requires
        old(bits).wf(),
    ensures
        res == spec_color_config(old(bits).data@, old(bits).bit_offset as int, profile, reduced_still_picture_header),
{
    proof {
        vstd::arithmetic::power2::lemma2_to64();
    }
    let high_bitdepth = read_bit_sh(bits)?;
    let bit_depth: u8 = if !high_bitdepth {
        8
    } else if profile == 2 {
        let twelve_bit = read_bit_sh(bits)?;
        if twelve_bit { 12 } else { 10 }
    } else {
        10
    };
    let monochrome = if profile == 1 {
        false
    } else {
        read_bit_sh(bits)?
    };
    if reduced_still_picture_header {
        let color_range: u8 = if read_bit_sh(bits)? { 1 } else { 0 };
        return Ok((bit_depth, monochrome, 1, 1, color_range, 0));
    }
    let color_description_present_flag = read_bit_sh(bits)?;
    if color_description_present_flag {
        let _color_description = read_bits_sh(bits, 24)?;
    }
    let color_range: u8 = if read_bit_sh(bits)? { 1 } else { 0 };
    if monochrome {
        return Ok((bit_depth, true, 1, 1, color_range, 0));
    }
    if profile == 0 {
        let chroma_sample_position = read_bits_sh(bits, 2)? as u8;
        Ok((bit_depth, monochrome, 1, 1, color_range, chroma_sample_position))
    } else if profile == 1 {
        Ok((bit_depth, monochrome, 0, 0, color_range, 0))
    } else if profile == 2 {
        let subsampling_x: u8 = if read_bit_sh(bits)? { 1 } else { 0 };
        let subsampling_y: u8 = if read_bit_sh(bits)? { 1 } else { 0 };
        let chroma_sample_position: u8 = if subsampling_x == 1 && subsampling_y == 1 {
            read_bits_sh(bits, 2)? as u8
        } else {
            0
        };
        Ok((bit_depth, monochrome, subsampling_x, subsampling_y, color_range, chroma_sample_position))
    } else {
        Err(ParseError::UnsupportedSequenceHeader)
    }
}


/// Operating points `n` remaining at `p`: the first operating point's idc and level,
/// and the first tier flag that any of them carries.
pub open spec fn spec_op_points(
    d: Seq<u8>,
    p: int,
    n: nat,
    idc0: Option<u16>,
    lvl0: Option<u8>,
    tier0: Option<bool>,
) -> Result<(Option<u16>, Option<u8>, Option<bool>, int), ParseError>
    decreases n,
{
    if n == 0 {
        Ok((idc0, lvl0, tier0, p))
    } else {
        match rd(d, p, 12) {
            Err(e) => Err(e),
            Ok((idc, p1)) => match rd(d, p1, 5) {
                Err(e) => Err(e),
                Ok((level, p2)) => {
                    let tier_res: Result<(Option<bool>, int), ParseError> = if level > 7 {
                        match rf(d, p2) {
                            Err(e) => Err(e),
                            Ok((t, p3)) => Ok((Some(t), p3)),
                        }
                    } else {
                        Ok((None, p2))
                    };
                    match tier_res {
                        Err(e) => Err(e),
                        Ok((tier, p3)) => spec_op_points(
                            d,
                            p3,
                            (n - 1) as nat,
                            if idc0 is None { Some(idc as u16) } else { idc0 },
                            if lvl0 is None { Some(level as u8) } else { lvl0 },
                            if tier0 is None { tier } else { tier0 },
                        ),
                    }
                },
            },
        }
    }
}

/// Header fields that precede the colour configuration in the AV1-style form:
/// timing, display delay and frame-id flags, operating point count, idc and level
/// of the first point, tier, maximum frame size, and the position after them.
pub type LegacyFields = (bool, bool, bool, u8, u16, u8, Option<bool>, u32, u32, int);

pub open spec fn spec_legacy_fields(d: Seq<u8>, p: int, reduced: bool) -> Result<LegacyFields, ParseError> {
    if reduced {
        match rd(d, p, 5) {
            Err(e) => Err(e),
            Ok((level, p1)) => {
                let tier_res: Result<(Option<bool>, int), ParseError> = if level > 7 {
                    match rf(d, p1) {
                        Err(e) => Err(e),
                        Ok((t, p2)) => Ok((Some(t), p2)),
                    }
                } else {
                    Ok((None, p1))
                };
                match tier_res {
                    Err(e) => Err(e),
                    Ok((tier, p2)) => match spec_frame_size(d, p2) {
                        Err(e) => Err(e),
                        Ok((w, h, p3)) => Ok((false, false, false, 0u8, 0u16, level as u8, tier, w, h, p3)),
                    },
                }
            },
        }
    } else {
        match rf(d, p) {
            Err(e) => Err(e),
            Ok((timing, p1)) => if timing {
                Err(ParseError::UnsupportedSequenceHeader)
            } else {
                match rf(d, p1) {
                    Err(e) => Err(e),
                    Ok((delay, p2)) => if delay {
                        Err(ParseError::UnsupportedSequenceHeader)
                    } else {
                        match rd(d, p2, 5) {
                            Err(e) => Err(e),
                            Ok((cnt, p3)) => match spec_op_points(d, p3, cnt + 1, None, None, None) {
                                Err(e) => Err(e),
                                Ok((idc, lvl, tier, p4)) => match spec_frame_size(d, p4) {
                                    Err(e) => Err(e),
                                    Ok((w, h, p5)) => match rf(d, p5) {
                                        Err(e) => Err(e),
                                        Ok((fid, p6)) => Ok((
                                            false,
                                            false,
                                            fid,
                                            cnt as u8,
                                            match idc { Some(v) => v, None => 0u16 },
                                            match lvl { Some(v) => v, None => 0u8 },
                                            tier,
                                            w,
                                            h,
                                            p6,
                                        )),
                                    },
                                },
                            },
                        }
                    },
                }
            },
        }
    }
}

/// The AV1-style sequence header of `d`.
pub open spec fn spec_sequence_header_legacy(d: Seq<u8>) -> Result<SequenceHeader, ParseError> {
    match rd(d, 0, 5) {
        Err(e) => Err(e),
        Ok((profile, p1)) => match rf(d, p1) {
            Err(e) => Err(e),
            Ok((still_picture, p2)) => match rf(d, p2) {
                Err(e) => Err(e),
                Ok((reduced, p3)) => match spec_legacy_fields(d, p3, reduced) {
                    Err(e) => Err(e),
                    Ok((timing, delay, fid, cnt, idc, level, tier, w, h, p4)) => match spec_color_config(d, p4, profile as u8, reduced) {
                        Err(e) => Err(e),
                        Ok((bit_depth, monochrome, sx, sy, cr, csp)) => Ok(SequenceHeader {
                            profile: profile as u8,
                            still_picture,
                            reduced_still_picture_header: reduced,
                            timing_info_present_flag: timing,
                            initial_display_delay_present_flag: delay,
                            frame_id_numbers_present_flag: fid,
                            operating_points_cnt_minus_1: cnt,
                            operating_point_idc_0: idc,
                            seq_level_idx_0: level,
                            seq_tier_0: tier,
                            max_frame_width: w,
                            max_frame_height: h,
                            bit_depth,
                            monochrome,
                            subsampling_x: sx,
                            subsampling_y: sy,
                            color_range: cr,
                            chroma_sample_position: csp,
                        }),
                    },
                },
            },
        },
    }
}

fn read_op_points(bits: &mut BitReader, count: u8) -> (res: Result<(Option<u16>, Option<u8>, Option<bool>), ParseError>)
    requires
        old(bits).wf(),
        1 <= count <= 32,
    ensures
        final(bits).wf(),
        final(bits).data@ == old(bits).data@,
        match spec_op_points(old(bits).data@, old(bits).bit_offset as int, count as nat, None, None, None) {
            Ok((a, b, c, p)) => res == Ok::<(Option<u16>, Option<u8>, Option<bool>), ParseError>((a, b, c)) && final(bits).bit_offset == p,
            Err(e) => res == Err::<(Option<u16>, Option<u8>, Option<bool>), ParseError>(e),
        },
{
    proof {
        vstd::arithmetic::power2::lemma2_to64();
    }
    let ghost d = bits.data@;
    let mut operating_point_idc_0: Option<u16> = None;
    let mut seq_level_idx_0: Option<u8> = None;
    let mut seq_tier_0: Option<bool> = None;
    let mut i: u8 = 0;
    while i < count
        invariant
            bits.wf(),
            bits.data@ == d,
            d == old(bits).data@,
            i <= count,
            spec_op_points(d, old(bits).bit_offset as int, count as nat, None, None, None)
                == spec_op_points(d, bits.bit_offset as int, (count - i) as nat, operating_point_idc_0, seq_level_idx_0, seq_tier_0),
        decreases count - i,
    {
        proof {
            vstd::arithmetic::power2::lemma2_to64();
        }
        let ghost p0 = bits.bit_offset as int;
        let ghost before = (operating_point_idc_0, seq_level_idx_0, seq_tier_0);
        let raw_idc = read_bits_sh(bits, 12)?;
        let operating_point_idc = raw_idc as u16;
        let raw_level = read_bits_sh(bits, 5)?;
        let level = raw_level as u8;
        assert(raw_idc < 4096 && raw_level < 32);
        assert(level > 7 <==> raw_level > 7);
        let tier = if level > 7 {
            Some(read_bit_sh(bits)?)
        } else {
            None
        };
        if operating_point_idc_0.is_none() {
            operating_point_idc_0 = Some(operating_point_idc);
        }
        if seq_level_idx_0.is_none() {
            seq_level_idx_0 = Some(level);
        }
        if seq_tier_0.is_none() {
            seq_tier_0 = tier;
        }
        assert(spec_op_points(d, p0, (count - i) as nat, before.0, before.1, before.2)
            == spec_op_points(d, bits.bit_offset as int, (count - i - 1) as nat, operating_point_idc_0, seq_level_idx_0, seq_tier_0));
        i = i + 1;
    }
    Ok((operating_point_idc_0, seq_level_idx_0, seq_tier_0))
}

fn parse_sequence_header_legacy(payload: &[u8]) -> (res: Result<SequenceHeader, ParseError>)
    requires
        8 * payload@.len() <= usize::MAX,
    ensures
        res == spec_sequence_header_legacy(payload@),
{
    proof {
        vstd::arithmetic::power2::lemma2_to64();
    }
    let mut bits = BitReader::new(payload);
    let profile = read_bits_sh(&mut bits, 5)? as u8;
    let still_picture = read_bit_sh(&mut bits)?;
    let reduced_still_picture_header = read_bit_sh(&mut bits)?;
    let ghost p3 = bits.bit_offset as int;
    let (timing_info_present_flag, initial_display_delay_present_flag, frame_id_numbers_present_flag,
        operating_points_cnt_minus_1, operating_point_idc_0, seq_level_idx_0, seq_tier_0,
        max_frame_width, max_frame_height) = if reduced_still_picture_header {
        let level = read_bits_sh(&mut bits, 5)? as u8;
        let seq_tier_0 = if level > 7 {
            Some(read_bit_sh(&mut bits)?)
        } else {
            None
        };
        let (w, h) = read_frame_size(&mut bits)?;
        (false, false, false, 0u8, 0u16, level, seq_tier_0, w, h)
    } else {
        let timing_info_present_flag = read_bit_sh(&mut bits)?;
        if timing_info_present_flag {
            return Err(ParseError::UnsupportedSequenceHeader);
        }
        let initial_display_delay_present_flag = read_bit_sh(&mut bits)?;
        if initial_display_delay_present_flag {
            return Err(ParseError::UnsupportedSequenceHeader);
        }
        let operating_points_cnt_minus_1 = read_bits_sh(&mut bits, 5)? as u8;
        let (idc, lvl, tier) = read_op_points(&mut bits, operating_points_cnt_minus_1 + 1)?;
        let (w, h) = read_frame_size(&mut bits)?;
        let frame_id_numbers_present_flag = read_bit_sh(&mut bits)?;
        let idc0: u16 = match idc { Some(v) => v, None => 0 };
        let lvl0: u8 = match lvl { Some(v) => v, None => 0 };
        (false, false, frame_id_numbers_present_flag, operating_points_cnt_minus_1, idc0, lvl0, tier, w, h)
    };
    let (bit_depth, monochrome, subsampling_x, subsampling_y, color_range, chroma_sample_position) =
        parse_color_config(&mut bits, profile, reduced_still_picture_header)?;
    Ok(SequenceHeader {
        profile,
        still_picture,
        reduced_still_picture_header,
        timing_info_present_flag,
        initial_display_delay_present_flag,
        frame_id_numbers_present_flag,
        operating_points_cnt_minus_1,
        operating_point_idc_0,
        seq_level_idx_0,
        seq_tier_0,
        max_frame_width,
        max_frame_height,
        bit_depth,
        monochrome,
        subsampling_x,
        subsampling_y,
        color_range,
        chroma_sample_position,
    })
}


/// Number of bits needed to write `v` in binary (zero for zero).
pub open spec fn spec_bit_length(v: nat) -> nat
    decreases v,
{
    if v == 0 { 0 } else { 1 + spec_bit_length(v / 2) }
}

/// Fields of the AV2 form that only a multi-picture header carries; the still-picture flag
/// and the position after them.
pub open spec fn spec_av2_layers(d: Seq<u8>, p: int) -> Result<(bool, int), ParseError> {
    match rd(d, p, 3) {
        Err(e) => Err(e),
        Ok((_, p1)) => match rf(d, p1) {
            Err(e) => Err(e),
            Ok((still, p2)) => match rd(d, p2, 2) {
                Err(e) => Err(e),
                Ok((_, p3)) => match rd(d, p3, 3) {
                    Err(e) => Err(e),
                    Ok((max_mlayer_id, p4)) => {
                        let count_res: Result<int, ParseError> = if max_mlayer_id > 0 {
                            match rd(d, p4, spec_bit_length(max_mlayer_id)) {
                                Err(e) => Err(e),
                                Ok((_, p5)) => Ok(p5),
                            }
                        } else {
                            Ok(p4)
                        };
                        match count_res {
                            Err(e) => Err(e),
                            Ok(p5) => match rf(d, p5) {
                                Err(e) => Err(e),
                                Ok((_, p6)) => Ok((still, p6)),
                            },
                        }
                    },
                },
            },
        },
    }
}

/// Four exp-Golomb window offsets at `p`: the position after them.
pub open spec fn spec_conf_window(d: Seq<u8>, p: int) -> Result<int, ParseError> {
    match ru(d, p) {
        Err(e) => Err(e),
        Ok((_, p1)) => match ru(d, p1) {
            Err(e) => Err(e),
            Ok((_, p2)) => match ru(d, p2) {
                Err(e) => Err(e),
                Ok((_, p3)) => match ru(d, p3) {
                    Err(e) => Err(e),
                    Ok((_, p4)) => Ok(p4),
                },
            },
        },
    }
}

/// The AV2-form sequence header of `d`.
pub open spec fn spec_sequence_header_av2(d: Seq<u8>) -> Result<SequenceHeader, ParseError> {
    match ru(d, 0) {
        Err(e) => Err(e),
        Ok((_, p1)) => match rd(d, p1, 5) {
            Err(e) => Err(e),
            Ok((profile, p2)) => match rf(d, p2) {
                Err(e) => Err(e),
                Ok((single, p3)) => match rd(d, p3, 5) {
                    Err(e) => Err(e),
                    Ok((level, p4)) => {
                        let tier_res: Result<(Option<bool>, int), ParseError> = if level >= 8 && !single {
                            match rf(d, p4) {
                                Err(e) => Err(e),
                                Ok((t, p5)) => Ok((Some(t), p5)),
                            }
                        } else {
                            Ok((None, p4))
                        };
                        match tier_res {
                            Err(e) => Err(e),
                            Ok((tier, p5)) => match ru(d, p5) {
                                Err(e) => Err(e),
                                Ok((cfi, p6)) => if cfi > 3 {
                                    Err(ParseError::UnsupportedSequenceHeader)
                                } else {
                                    match ru(d, p6) {
                                        Err(e) => Err(e),
                                        Ok((depth_code, p7)) => if depth_code > 2 {
                                            Err(ParseError::UnsupportedSequenceHeader)
                                        } else {
                                            let still_res = if single { Ok((true, p7)) } else { spec_av2_layers(d, p7) };
                                            match still_res {
                                                Err(e) => Err(e),
                                                Ok((still, p8)) => match spec_frame_size(d, p8) {
                                                    Err(e) => Err(e),
                                                    Ok((w, h, p9)) => match rf(d, p9) {
                                                        Err(e) => Err(e),
                                                        Ok((window, p10)) => {
                                                            let end = if window { spec_conf_window(d, p10) } else { Ok(p10) };
                                                            match end {
                                                                Err(e) => Err(e),
                                                                Ok(_) => Ok(SequenceHeader {
                                                                    profile: profile as u8,
                                                                    still_picture: still,
                                                                    reduced_still_picture_header: single,
                                                                    timing_info_present_flag: false,
                                                                    initial_display_delay_present_flag: false,
                                                                    frame_id_numbers_present_flag: false,
                                                                    operating_points_cnt_minus_1: 0,
                                                                    operating_point_idc_0: 0,
                                                                    seq_level_idx_0: level as u8,
                                                                    seq_tier_0: tier,
                                                                    max_frame_width: w,
                                                                    max_frame_height: h,
                                                                    bit_depth: if depth_code == 0 { 10u8 } else if depth_code == 1 { 8u8 } else { 12u8 },
                                                                    monochrome: cfi == 1,
                                                                    subsampling_x: if cfi == 2 { 0u8 } else { 1u8 },
                                                                    subsampling_y: if cfi <= 1 { 1u8 } else { 0u8 },
                                                                    color_range: 0,
                                                                    chroma_sample_position: 0,
                                                                }),
                                                            }
                                                        },
                                                    },
                                                },
                                            }
                                        },
                                    }
                                },
                            },
                        }
                    },
                },
            },
        },
    }
}

/// The depth code of an AV2-form sequence header, read from its coded bits: the exp-Golomb
/// code that follows the header id (exp-Golomb), the profile (5 bits), the single-picture
/// flag, the level (5 bits), the tier flag (only for a level of 8 or more outside
/// single-picture headers) and the chroma format code (exp-Golomb).
pub open spec fn spec_av2_depth_code(d: Seq<u8>) -> Option<nat> {
    match spec_read_uvlc(d, 0) {
        None => None,
        Some((_, p1)) => match spec_read_bits(d, p1 + 6, 5) {
            None => None,
            Some((level, p4)) => {
                let single = bit_at(d, p1 + 5);
                let p5 = if level >= 8 && !single { p4 + 1 } else { p4 };
                match spec_read_uvlc(d, p5) {
                    None => None,
                    Some((_, p6)) => match spec_read_uvlc(d, p6) {
                        None => None,
                        Some((code, _)) => Some(code),
                    },
                }
            },
        },
    }
}

/// The bit depth an AV2 depth code announces: 10 bits for code 0, 8 bits for code 1, 12 bits
/// for code 2.
pub open spec fn spec_av2_depth_of_code(code: nat) -> u8 {
    if code == 0 { 10 } else if code == 1 { 8 } else { 12 }
}

/// An AV2-form sequence header parses only with a depth code of 0, 1 or 2 and then announces
/// the bit depth of that code: 10, 8 and 12 bits respectively.
pub proof fn lemma_av2_bit_depth(d: Seq<u8>)
    requires
        spec_sequence_header_av2(d) is Ok,
    ensures
        spec_av2_depth_code(d) matches Some(code) && code <= 2
            && spec_sequence_header_av2(d)->Ok_0.bit_depth == spec_av2_depth_of_code(code),
{
}

/// Whether `2^z <= v + 1 < 2^(z + 1)` with at most 31 leading zeros: `z` is the exp-Golomb
/// length of `v`.
pub open spec fn spec_uvlc_len_ok(v: nat, z: nat) -> bool {
    z <= 31 && vstd::arithmetic::power2::pow2(z) <= v + 1 < vstd::arithmetic::power2::pow2(z + 1)
}

/// The start of an AV2-form sequence header written field by field: the header id
/// (exp-Golomb), the profile (5 bits), the single-picture flag, the level (5 bits), the tier
/// flag (only for a level of 8 or more outside single-picture headers), the chroma format code
/// and the depth code (both exp-Golomb).
pub open spec fn spec_av2_prefix_bits(id: nat, zid: nat, profile: nat, single: bool, level: nat, tier: bool, cfi: nat,
    zcfi: nat, code: nat, zcode: nat) -> Seq<bool> {
    spec_uvlc_bits(id, zid) + spec_uint_bits(profile, 5) + seq![single] + spec_uint_bits(level, 5)
        + (if level >= 8 && !single { seq![tier] } else { Seq::empty() }) + spec_uvlc_bits(cfi, zcfi) + spec_uvlc_bits(code, zcode)
}

/// `data` holds `b` at `pos` when it holds `a + b` at `pos - a.len()`.
proof fn lemma_holds_suffix(data: Seq<u8>, pos: int, a: Seq<bool>, b: Seq<bool>)
    requires
        spec_holds_bits(data, pos, a + b),
    ensures
        spec_holds_bits(data, pos + a.len(), b),
        spec_holds_bits(data, pos, a),
{
    assert forall|i: int| 0 <= i < b.len() implies bit_at(data, (pos + a.len()) + i) == #[trigger] b[i] by {
        assert((a + b)[a.len() + i] == b[i]);
        assert(bit_at(data, pos + (a.len() + i)) == (a + b)[a.len() + i]);
    }
    assert forall|i: int| 0 <= i < a.len() implies bit_at(data, pos + i) == #[trigger] a[i] by {
        assert((a + b)[i] == a[i]);
    }
}

/// An AV2-form sequence header whose depth code is written as `code` announces the bit depth of
/// that code when it parses: 10 bits for code 0, 8 for code 1, 12 for code 2 (and no other
/// code parses).
#[verifier::spinoff_prover]
#[verifier::rlimit(80)]
pub proof fn lemma_av2_written_depth(d: Seq<u8>, id: nat, zid: nat, profile: nat, single: bool, level: nat, tier: bool,
    cfi: nat, zcfi: nat, code: nat, zcode: nat)
    requires
        spec_uvlc_len_ok(id, zid),
        spec_uvlc_len_ok(cfi, zcfi),
        spec_uvlc_len_ok(code, zcode),
        profile < 32,
        level < 32,
        spec_holds_bits(d, 0, spec_av2_prefix_bits(id, zid, profile, single, level, tier, cfi, zcfi, code, zcode)),
        spec_sequence_header_av2(d) is Ok,
    ensures
        code <= 2,
        spec_sequence_header_av2(d)->Ok_0.bit_depth == spec_av2_depth_of_code(code),
        spec_sequence_header(d)->Ok_0.bit_depth == spec_av2_depth_of_code(code),
{
    vstd::arithmetic::power2::lemma2_to64();
    let u_id = spec_uvlc_bits(id, zid);
    let u_pr = spec_uint_bits(profile, 5);
    let sg = seq![single];
    let u_lv = spec_uint_bits(level, 5);
    let t = if level >= 8 && !single { seq![tier] } else { Seq::<bool>::empty() };
    let u_cfi = spec_uvlc_bits(cfi, zcfi);
    let u_code = spec_uvlc_bits(code, zcode);
    let all = spec_av2_prefix_bits(id, zid, profile, single, level, tier, cfi, zcfi, code, zcode);
    assert(all == u_id + u_pr + sg + u_lv + t + u_cfi + u_code);
    lemma_holds_suffix(d, 0, u_id + u_pr + sg + u_lv + t + u_cfi, u_code);
    lemma_holds_suffix(d, 0, u_id + u_pr + sg + u_lv + t, u_cfi);
    lemma_holds_suffix(d, 0, u_id + u_pr + sg + u_lv, t);
    lemma_holds_suffix(d, 0, u_id + u_pr + sg, u_lv);
    lemma_holds_suffix(d, 0, u_id + u_pr, sg);
    lemma_holds_suffix(d, 0, u_id, u_pr);
    lemma_uvlc_read_back(d, 0, id, zid);
    let p1: int = (2 * zid + 1) as int;
    assert(u_id.len() == p1);
    lemma_uint_bits_read_back(d, p1 + 6, level, 5);
    assert(bit_at(d, (p1 + 5) + 0) == sg[0]);
    let p5: int = p1 + 11 + t.len();
    lemma_uvlc_read_back(d, p5, cfi, zcfi);
    lemma_uvlc_read_back(d, p5 + 2 * zcfi + 1, code, zcode);
    assert(spec_av2_depth_code(d) == Some(code));
    lemma_av2_bit_depth(d);
}

/// The sequence header of `d`: the AV2 form when it parses, else the AV1-style form.
pub open spec fn spec_sequence_header(d: Seq<u8>) -> Result<SequenceHeader, ParseError> {
    match spec_sequence_header_av2(d) {
        Ok(h) => Ok(h),
        Err(_) => spec_sequence_header_legacy(d),
    }
}

fn bit_length3(v: u32) -> (n: u8)
    requires
        v < 8,
    ensures
        n as nat == spec_bit_length(v as nat),
        n <= 3,
{
    assert(spec_bit_length(0) == 0);
    assert(spec_bit_length(1) == 1) by { assert(spec_bit_length(0) == 0); };
    assert(spec_bit_length(2) == 2) by { assert(spec_bit_length(1) == 1) by { assert(spec_bit_length(0) == 0); }; };
    assert(spec_bit_length(3) == 2) by { assert(spec_bit_length(1) == 1) by { assert(spec_bit_length(0) == 0); }; };
    assert(spec_bit_length(4) == 3) by { assert(spec_bit_length(2) == 2) by { assert(spec_bit_length(1) == 1) by { assert(spec_bit_length(0) == 0); }; }; };
    assert(spec_bit_length(5) == 3) by { assert(spec_bit_length(2) == 2) by { assert(spec_bit_length(1) == 1) by { assert(spec_bit_length(0) == 0); }; }; };
    assert(spec_bit_length(6) == 3) by { assert(spec_bit_length(3) == 2) by { assert(spec_bit_length(1) == 1) by { assert(spec_bit_length(0) == 0); }; }; };
    assert(spec_bit_length(7) == 3) by { assert(spec_bit_length(3) == 2) by { assert(spec_bit_length(1) == 1) by { assert(spec_bit_length(0) == 0); }; }; };
    if v >= 4 { 3 } else if v >= 2 { 2 } else if v == 1 { 1 } else { 0 }
}

fn read_av2_layers(bits: &mut BitReader) -> (res: Result<bool, ParseError>)
    requires
        old(bits).wf(),
    ensures
        final(bits).wf(),
        final(bits).data@ == old(bits).data@,
        match spec_av2_layers(old(bits).data@, old(bits).bit_offset as int) {
            Ok((v, p)) => res == Ok::<bool, ParseError>(v) && final(bits).bit_offset == p,
            Err(e) => res == Err::<bool, ParseError>(e),
        },
{
    proof {
        vstd::arithmetic::power2::lemma2_to64();
    }
    let _seq_lcr_id = read_bits_sh(bits, 3)?;
    let still_picture = read_bit_sh(bits)?;
    let _max_tlayer_id = read_bits_sh(bits, 2)?;
    let max_mlayer_id = read_bits_sh(bits, 3)?;
    if max_mlayer_id > 0 {
        let mlayer_bits = bit_length3(max_mlayer_id);
        let _seq_max_mlayer_cnt_minus_1 = read_bits_sh(bits, mlayer_bits)?;
    }
    let _monotonic_output_order_flag = read_bit_sh(bits)?;
    Ok(still_picture)
}

fn parse_sequence_header_av2(payload: &[u8]) -> (res: Result<SequenceHeader, ParseError>)
    requires
        8 * payload@.len() <= usize::MAX,
    ensures
        res == spec_sequence_header_av2(payload@),
{
    proof {
        vstd::arithmetic::power2::lemma2_to64();
    }
    let mut bits = BitReader::new(payload);
    let _seq_header_id = read_uvlc_sh(&mut bits)?;
    let profile = read_bits_sh(&mut bits, 5)? as u8;
    let single_picture_header_flag = read_bit_sh(&mut bits)?;
    let seq_level_idx_0 = read_bits_sh(&mut bits, 5)? as u8;
    let seq_tier_0 = if seq_level_idx_0 >= 8 && !single_picture_header_flag {
        Some(read_bit_sh(&mut bits)?)
    } else {
        None
    };
    let chroma_format_idc = read_uvlc_sh(&mut bits)?;
    let monochrome = chroma_format_idc == 1;
    let (subsampling_x, subsampling_y): (u8, u8) = if chroma_format_idc == 0 {
        (1, 1)
    } else if chroma_format_idc == 1 {
        (1, 1)
    } else if chroma_format_idc == 2 {
        (0, 0)
    } else if chroma_format_idc == 3 {
        (1, 0)
    } else {
        return Err(ParseError::UnsupportedSequenceHeader);
    };
    let depth_code = read_uvlc_sh(&mut bits)?;
    let bit_depth: u8 = if depth_code == 0 {
        10
    } else if depth_code == 1 {
        8
    } else if depth_code == 2 {
        12
    } else {
        return Err(ParseError::UnsupportedSequenceHeader);
    };
    let still_picture = if single_picture_header_flag {
        true
    } else {
        read_av2_layers(&mut bits)?
    };
    let (max_frame_width, max_frame_height) = read_frame_size(&mut bits)?;
    let conf_window_flag = read_bit_sh(&mut bits)?;
    if conf_window_flag {
        let _left = read_uvlc_sh(&mut bits)?;
        let _right = read_uvlc_sh(&mut bits)?;
        let _top = read_uvlc_sh(&mut bits)?;
        let _bottom = read_uvlc_sh(&mut bits)?;
    }
    Ok(SequenceHeader {
        profile,
        still_picture,
        reduced_still_picture_header: single_picture_header_flag,
        timing_info_present_flag: false,
        initial_display_delay_present_flag: false,
        frame_id_numbers_present_flag: false,
        operating_points_cnt_minus_1: 0,
        operating_point_idc_0: 0,
        seq_level_idx_0,
        seq_tier_0,
        max_frame_width,
        max_frame_height,
        bit_depth,
        monochrome,
        subsampling_x,
        subsampling_y,
        color_range: 0,
        chroma_sample_position: 0,
    })
}

/// Parse the subset of sequence header syntax currently implemented by the Rust backend.
pub fn parse_sequence_header(payload: &[u8]) -> (res: Result<SequenceHeader, ParseError>)
    requires
        8 * payload@.len() <= usize::MAX,
    ensures
        res == spec_sequence_header(payload@),
{
    match parse_sequence_header_av2(payload) {
        Ok(h) => Ok(h),
        Err(_) => parse_sequence_header_legacy(payload),
    }
}

} // verus!
