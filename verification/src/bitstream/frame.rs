//! Frame header and tile group parsing for the walking-skeleton subset.
use vstd::prelude::*;
use super::reader::{ParseError, BitReader, bit_at, bits_value, spec_uint_bits, spec_holds_bits, lemma_uint_bits_read_back};
use super::sequence::SequenceHeader;
use super::types::{FramePacketKind, ObuType};

verus! {

/// Minimal semantic frame classification currently exposed by the Rust backend.
#[derive(Debug, Clone, Copy, PartialEq, Eq, Hash, Structural)]
pub enum FrameType {
    Key,
    Inter,
    IntraOnly,
    Switch,
}

/// Minimal frame-header information extracted by the Rust backend.
#[derive(Debug, Clone, Copy, PartialEq, Eq, Hash, Structural)]
pub struct FrameHeaderInfo {
    pub frame_type: Option<FrameType>,
    pub show_frame: bool,
    pub show_existing_frame: bool,
    pub existing_frame_idx: Option<u8>,
    pub error_resilient_mode: Option<bool>,
    pub disable_cdf_update: Option<bool>,
    pub primary_ref_frame: Option<u8>,
    pub refresh_frame_flags: Option<u8>,
    pub frame_size_override_flag: Option<bool>,
}

#[derive(Debug, Clone, Copy, PartialEq, Eq, Hash, Structural)]
pub struct RenderSize {
    pub width: u32,
    pub height: u32,
}

#[derive(Debug, Clone, Copy, PartialEq, Eq, Hash, Structural)]
pub struct SuperresParams {
    pub enabled: bool,
    pub denominator: u8,
}

#[derive(Debug, Clone, Copy, PartialEq, Eq, Hash)]
pub struct LoopFilterParams {
    pub level: [u8; 4],
    pub sharpness: u8,
    pub delta_enabled: bool,
    pub delta_update: bool,
}

#[derive(Debug, Clone, Copy, PartialEq, Eq, Hash, Structural)]
pub struct QuantParams {
    pub base_q_idx: u8,
    pub delta_q_y_dc: i8,
    pub delta_q_u_dc: i8,
    pub delta_q_u_ac: i8,
    pub delta_q_v_dc: i8,
    pub delta_q_v_ac: i8,
    pub using_qmatrix: bool,
    pub qm_y: u8,
    pub qm_u: u8,
    pub qm_v: u8,
}

#[derive(Debug, Clone, Copy, PartialEq, Eq, Hash, Structural)]
pub struct SegmentationParams {
    pub enabled: bool,
    pub update_map: bool,
    pub temporal_update: bool,
    pub update_data: bool,
}

#[derive(Debug, Clone, Copy, PartialEq, Eq, Hash, Structural)]
pub struct DeltaQParams {
    pub present: bool,
    pub scale: u8,
}

#[derive(Debug, Clone, Copy, PartialEq, Eq, Hash, Structural)]
pub struct DeltaLfParams {
    pub present: bool,
    pub scale: u8,
    pub multi: bool,
}

#[derive(Debug, Clone, Copy, PartialEq, Eq, Hash, Structural)]
pub struct LoopRestorationParams {
    pub uses_lrf: bool,
}

#[derive(Debug, Clone, Copy, PartialEq, Eq, Hash, Structural)]
pub struct CdefParams {
    pub damping: u8,
    pub bits: u8,
}

#[derive(Debug, Clone, Copy, PartialEq, Eq, Hash, Structural)]
pub struct FilmGrainParams {
    pub apply_grain: bool,
}

/// Narrow uncompressed frame-header representation for the walking skeleton.
#[derive(Debug, Clone, Copy, PartialEq, Eq, Hash)]
pub struct UncompressedFrameHeader {
    pub frame_type: FrameType,
    pub show_frame: bool,
    pub error_resilient_mode: bool,
    pub disable_cdf_update: bool,
    pub primary_ref_frame: u8,
    pub refresh_frame_flags: u8,
    pub frame_size_override_flag: bool,
    pub allow_screen_content_tools: bool,
    pub force_integer_mv: bool,
    pub order_hint: u8,
    pub render_size: RenderSize,
    pub superres: SuperresParams,
    pub loop_filter: LoopFilterParams,
    pub quant: QuantParams,
    pub segmentation: SegmentationParams,
    pub delta_q: DeltaQParams,
    pub delta_lf: DeltaLfParams,
    pub loop_restoration: LoopRestorationParams,
    pub tx_mode: u8,
    pub reduced_tx_set: bool,
    pub cdef: CdefParams,
    pub film_grain: FilmGrainParams,
    pub num_tile_cols: usize,
    pub num_tile_rows: usize,
    pub frame_width: u32,
    pub frame_height: u32,
}

/// Parsed tile-group payload.
#[derive(Debug, Clone, Copy)]
pub struct TileGroup<'a> {
    pub tile_start: usize,
    pub tile_end: usize,
    pub data: &'a [u8],
}

/// The frame type that a two-bit field denotes.
pub open spec fn spec_frame_type(raw: nat) -> FrameType {
    if raw == 0 {
        FrameType::Key
    } else if raw == 1 {
        FrameType::Inter
    } else if raw == 2 {
        FrameType::IntraOnly
    } else {
        FrameType::Switch
    }
}

/// Frame semantics implied by a reduced still picture: a shown, error-resilient key frame.
pub open spec fn spec_still_key_info() -> FrameHeaderInfo {
    FrameHeaderInfo {
        frame_type: Some(FrameType::Key),
        show_frame: true,
        show_existing_frame: false,
        existing_frame_idx: None,
        error_resilient_mode: Some(true),
        disable_cdf_update: None,
        primary_ref_frame: None,
        refresh_frame_flags: None,
        frame_size_override_flag: None,
    }
}

fn still_key_info() -> (info: FrameHeaderInfo)
    ensures
        info == spec_still_key_info(),
{
    FrameHeaderInfo {
        frame_type: Some(FrameType::Key),
        show_frame: true,
        show_existing_frame: false,
        existing_frame_idx: None,
        error_resilient_mode: Some(true),
        disable_cdf_update: None,
        primary_ref_frame: None,
        refresh_frame_flags: None,
        frame_size_override_flag: None,
    }
}

/// Derive frame-header semantics for reduced-still-picture mode.
pub fn reduced_still_picture_frame_header(
    sequence_header: &SequenceHeader,
    packet_kind: FramePacketKind,
) -> (res: Option<FrameHeaderInfo>)
    ensures
        res == (if sequence_header.reduced_still_picture_header
            && (packet_kind is Frame || packet_kind is FrameHeader || packet_kind is Mixed) {
            Some(spec_still_key_info())
        } else {
            None
        }),
{
    if !sequence_header.reduced_still_picture_header {
        return None;
    }
    match packet_kind {
        FramePacketKind::Frame | FramePacketKind::FrameHeader | FramePacketKind::Mixed => Some(still_key_info()),
        FramePacketKind::TileGroup | FramePacketKind::RedundantFrameHeader | FramePacketKind::TileList => None,
    }
}

fn parse_frame_type(raw: u32) -> (t: Option<FrameType>)
    ensures
        raw <= 3 ==> t == Some(spec_frame_type(raw as nat)),
        raw > 3 ==> t is None,
{
    match raw {
        0 => Some(FrameType::Key),
        1 => Some(FrameType::Inter),
        2 => Some(FrameType::IntraOnly),
        3 => Some(FrameType::Switch),
        _ => None,
    }
}

/// The frame-header prefix carried by a frame or frame-header OBU with payload `d`.
pub open spec fn spec_frame_header_info(sh: SequenceHeader, t: ObuType, d: Seq<u8>) -> Result<Option<FrameHeaderInfo>, ParseError> {
    if !(t is Frame || t is FrameHeader) {
        Ok(None)
    } else if sh.reduced_still_picture_header {
        Ok(Some(spec_still_key_info()))
    } else if 8 * d.len() < 1 {
        Err(ParseError::TruncatedFrameHeader)
    } else if bit_at(d, 0) {
        if 8 * d.len() < 4 {
            Err(ParseError::TruncatedFrameHeader)
        } else {
            Ok(Some(FrameHeaderInfo {
                frame_type: None,
                show_frame: true,
                show_existing_frame: true,
                existing_frame_idx: Some(bits_value(d, 1, 3) as u8),
                error_resilient_mode: None,
                disable_cdf_update: None,
                primary_ref_frame: None,
                refresh_frame_flags: None,
                frame_size_override_flag: None,
            }))
        }
    } else if 8 * d.len() < 18 {
        Err(ParseError::TruncatedFrameHeader)
    } else {
        Ok(Some(FrameHeaderInfo {
            frame_type: Some(spec_frame_type(bits_value(d, 1, 2))),
            show_frame: bit_at(d, 3),
            show_existing_frame: false,
            existing_frame_idx: None,
            error_resilient_mode: Some(bit_at(d, 4)),
            disable_cdf_update: Some(bit_at(d, 5)),
            primary_ref_frame: Some(bits_value(d, 6, 3) as u8),
            refresh_frame_flags: Some(bits_value(d, 9, 8) as u8),
            frame_size_override_flag: Some(bit_at(d, 17)),
        }))
    }
}

/// Parse a narrow frame-header subset.
pub fn parse_frame_header_info(
    sequence_header: &SequenceHeader,
    obu_type: ObuType,
    payload: &[u8],
) -> (res: Result<Option<FrameHeaderInfo>, ParseError>)
    requires
        8 * payload@.len() <= usize::MAX,
    ensures
        res == spec_frame_header_info(*sequence_header, obu_type, payload@),
{
    proof {
        vstd::arithmetic::power2::lemma2_to64();
    }
    if !(obu_type == ObuType::Frame || obu_type == ObuType::FrameHeader) {
        return Ok(None);
    }
    if sequence_header.reduced_still_picture_header {
        return Ok(Some(still_key_info()));
    }
    let e = ParseError::TruncatedFrameHeader;
    let mut bits = BitReader::new(payload);
    let show_existing_frame = bits.read_bit_with(e)?;
    if show_existing_frame {
        let existing_frame_idx = bits.read_bits_with(3, e)? as u8;
        return Ok(Some(FrameHeaderInfo {
            frame_type: None,
            show_frame: true,
            show_existing_frame: true,
            existing_frame_idx: Some(existing_frame_idx),
            error_resilient_mode: None,
            disable_cdf_update: None,
            primary_ref_frame: None,
            refresh_frame_flags: None,
            frame_size_override_flag: None,
        }));
    }
    let raw_type = bits.read_bits_with(2, e)?;
    let frame_type = match parse_frame_type(raw_type) {
        Some(t) => t,
        None => return Err(e),
    };
    let show_frame = bits.read_bit_with(e)?;
    let error_resilient_mode = bits.read_bit_with(e)?;
    let disable_cdf_update = bits.read_bit_with(e)?;
    let primary_ref_frame = bits.read_bits_with(3, e)? as u8;
    let refresh_frame_flags = bits.read_bits_with(8, e)? as u8;
    let frame_size_override_flag = bits.read_bit_with(e)?;
    Ok(Some(FrameHeaderInfo {
        frame_type: Some(frame_type),
        show_frame,
        show_existing_frame: false,
        existing_frame_idx: None,
        error_resilient_mode: Some(error_resilient_mode),
        disable_cdf_update: Some(disable_cdf_update),
        primary_ref_frame: Some(primary_ref_frame),
        refresh_frame_flags: Some(refresh_frame_flags),
        frame_size_override_flag: Some(frame_size_override_flag),
    }))
}


/// The walking-skeleton key-frame header with the given coded fields; every other
/// field takes its default, and the frame and render sizes come from the sequence header.
pub open spec fn spec_skeleton_header(
    sh: SequenceHeader,
    show_frame: bool,
    error_resilient_mode: bool,
    disable_cdf_update: bool,
    primary_ref_frame: u8,
    refresh_frame_flags: u8,
    frame_size_override_flag: bool,
    base_q_idx: u8,
) -> UncompressedFrameHeader {
    UncompressedFrameHeader {
        frame_type: FrameType::Key,
        show_frame,
        error_resilient_mode,
        disable_cdf_update,
        primary_ref_frame,
        refresh_frame_flags,
        frame_size_override_flag,
        allow_screen_content_tools: false,
        force_integer_mv: false,
        order_hint: 0,
        render_size: RenderSize { width: sh.max_frame_width, height: sh.max_frame_height },
        superres: SuperresParams { enabled: false, denominator: 8 },
        loop_filter: LoopFilterParams { level: [0u8, 0u8, 0u8, 0u8], sharpness: 0, delta_enabled: false, delta_update: false },
        quant: QuantParams {
            base_q_idx,
            delta_q_y_dc: 0,
            delta_q_u_dc: 0,
            delta_q_u_ac: 0,
            delta_q_v_dc: 0,
            delta_q_v_ac: 0,
            using_qmatrix: false,
            qm_y: 0,
            qm_u: 0,
            qm_v: 0,
        },
        segmentation: SegmentationParams { enabled: false, update_map: false, temporal_update: false, update_data: false },
        delta_q: DeltaQParams { present: false, scale: 0 },
        delta_lf: DeltaLfParams { present: false, scale: 0, multi: false },
        loop_restoration: LoopRestorationParams { uses_lrf: false },
        tx_mode: 0,
        reduced_tx_set: false,
        cdef: CdefParams { damping: 0, bits: 0 },
        film_grain: FilmGrainParams { apply_grain: false },
        num_tile_cols: 1,
        num_tile_rows: 1,
        frame_width: sh.max_frame_width,
        frame_height: sh.max_frame_height,
    }
}

fn skeleton_header(
    sh: &SequenceHeader,
    show_frame: bool,
    error_resilient_mode: bool,
    disable_cdf_update: bool,
    primary_ref_frame: u8,
    refresh_frame_flags: u8,
    frame_size_override_flag: bool,
    base_q_idx: u8,
) -> (h: UncompressedFrameHeader)
    ensures
        h == spec_skeleton_header(*sh, show_frame, error_resilient_mode, disable_cdf_update,
            primary_ref_frame, refresh_frame_flags, frame_size_override_flag, base_q_idx),
{
    UncompressedFrameHeader {
        frame_type: FrameType::Key,
        show_frame,
        error_resilient_mode,
        disable_cdf_update,
        primary_ref_frame,
        refresh_frame_flags,
        frame_size_override_flag,
        allow_screen_content_tools: false,
        force_integer_mv: false,
        order_hint: 0,
        render_size: RenderSize { width: sh.max_frame_width, height: sh.max_frame_height },
        superres: SuperresParams { enabled: false, denominator: 8 },
        loop_filter: LoopFilterParams { level: [0u8, 0u8, 0u8, 0u8], sharpness: 0, delta_enabled: false, delta_update: false },
        quant: QuantParams {
            base_q_idx,
            delta_q_y_dc: 0,
            delta_q_u_dc: 0,
            delta_q_u_ac: 0,
            delta_q_v_dc: 0,
            delta_q_v_ac: 0,
            using_qmatrix: false,
            qm_y: 0,
            qm_u: 0,
            qm_v: 0,
        },
        segmentation: SegmentationParams { enabled: false, update_map: false, temporal_update: false, update_data: false },
        delta_q: DeltaQParams { present: false, scale: 0 },
        delta_lf: DeltaLfParams { present: false, scale: 0, multi: false },
        loop_restoration: LoopRestorationParams { uses_lrf: false },
        tx_mode: 0,
        reduced_tx_set: false,
        cdef: CdefParams { damping: 0, bits: 0 },
        film_grain: FilmGrainParams { apply_grain: false },
        num_tile_cols: 1,
        num_tile_rows: 1,
        frame_width: sh.max_frame_width,
        frame_height: sh.max_frame_height,
    }
}

/// The key-frame uncompressed header coded at the start of `d`.
pub open spec fn spec_uncompressed_header(sh: SequenceHeader, d: Seq<u8>) -> Result<UncompressedFrameHeader, ParseError> {
    if sh.reduced_still_picture_header {
        if 8 * d.len() < 8 {
            Err(ParseError::TruncatedFrameHeader)
        } else {
            Ok(spec_skeleton_header(sh, true, true, false, 0, 0xff, false, bits_value(d, 0, 8) as u8))
        }
    } else if 8 * d.len() < 1 {
        Err(ParseError::TruncatedFrameHeader)
    } else if bit_at(d, 0) {
        Err(ParseError::UnsupportedFrameHeader)
    } else if 8 * d.len() < 3 {
        Err(ParseError::TruncatedFrameHeader)
    } else if bits_value(d, 1, 2) != 0 {
        Err(ParseError::UnsupportedFrameHeader)
    } else if 8 * d.len() < 26 {
        Err(ParseError::TruncatedFrameHeader)
    } else {
        Ok(spec_skeleton_header(sh, bit_at(d, 3), bit_at(d, 4), bit_at(d, 5), bits_value(d, 6, 3) as u8,
            bits_value(d, 9, 8) as u8, bit_at(d, 17), bits_value(d, 18, 8) as u8))
    }
}

/// The first bits of a key-frame header of a stream with a full sequence header, written field
/// by field: show_existing_frame (0), frame_type (2 bits, key = 0), show_frame,
/// error_resilient_mode, disable_cdf_update, primary_ref_frame (3 bits), refresh_frame_flags
/// (8 bits), frame_size_override_flag, base_q_idx (8 bits).
pub open spec fn spec_key_header_bits(show_frame: bool, error_resilient_mode: bool, disable_cdf_update: bool,
    primary_ref_frame: nat, refresh_frame_flags: nat, frame_size_override_flag: bool, base_q_idx: nat) -> Seq<bool> {
    seq![false] + spec_uint_bits(0, 2) + seq![show_frame, error_resilient_mode, disable_cdf_update]
        + spec_uint_bits(primary_ref_frame, 3) + spec_uint_bits(refresh_frame_flags, 8)
        + seq![frame_size_override_flag] + spec_uint_bits(base_q_idx, 8)
}

/// A key-frame header written field by field parses back to the fields written, whatever
/// follows it: in particular frame_size_override_flag is the bit after refresh_frame_flags and
/// base_q_idx the eight bits after that.
pub proof fn lemma_key_header_round_trip(sh: SequenceHeader, d: Seq<u8>, show_frame: bool, error_resilient_mode: bool,
    disable_cdf_update: bool, primary_ref_frame: nat, refresh_frame_flags: nat, frame_size_override_flag: bool, base_q_idx: nat)
    requires
        !sh.reduced_still_picture_header,
        primary_ref_frame < 8,
        refresh_frame_flags < 256,
        base_q_idx < 256,
        spec_holds_bits(d, 0, spec_key_header_bits(show_frame, error_resilient_mode, disable_cdf_update, primary_ref_frame,
            refresh_frame_flags, frame_size_override_flag, base_q_idx)),
    ensures
        spec_uncompressed_header(sh, d) matches Ok(h) && {
            &&& h.frame_type == FrameType::Key
            &&& h.show_frame == show_frame
            &&& h.error_resilient_mode == error_resilient_mode
            &&& h.disable_cdf_update == disable_cdf_update
            &&& h.primary_ref_frame == primary_ref_frame
            &&& h.refresh_frame_flags == refresh_frame_flags
            &&& h.frame_size_override_flag == frame_size_override_flag
            &&& h.quant.base_q_idx == base_q_idx
        },
{
    let b = spec_key_header_bits(show_frame, error_resilient_mode, disable_cdf_update, primary_ref_frame,
        refresh_frame_flags, frame_size_override_flag, base_q_idx);
    vstd::arithmetic::power2::lemma2_to64();
    assert(b.len() == 26);
    assert(b[0] == false);
    assert(bit_at(d, 0) == b[0]);
    let z = spec_uint_bits(0, 2);
    assert(spec_holds_bits(d, 1, z)) by {
        assert forall|i: int| 0 <= i < z.len() implies bit_at(d, 1 + i) == #[trigger] z[i] by {
            assert(b[1 + i] == z[i]);
            assert(bit_at(d, 0 + (1 + i)) == b[1 + i]);
        }
    }
    lemma_uint_bits_read_back(d, 1, 0, 2);
    assert(bit_at(d, 0int + 3) == b[3] && b[3] == show_frame);
    assert(bit_at(d, 0int + 4) == b[4] && b[4] == error_resilient_mode);
    assert(bit_at(d, 0int + 5) == b[5] && b[5] == disable_cdf_update);
    let pr = spec_uint_bits(primary_ref_frame, 3);
    assert(spec_holds_bits(d, 6, pr)) by {
        assert forall|i: int| 0 <= i < pr.len() implies bit_at(d, 6 + i) == #[trigger] pr[i] by {
            assert(b[6 + i] == pr[i]);
            assert(bit_at(d, 0 + (6 + i)) == b[6 + i]);
        }
    }
    lemma_uint_bits_read_back(d, 6, primary_ref_frame, 3);
    let rf = spec_uint_bits(refresh_frame_flags, 8);
    assert(spec_holds_bits(d, 9, rf)) by {
        assert forall|i: int| 0 <= i < rf.len() implies bit_at(d, 9 + i) == #[trigger] rf[i] by {
            assert(b[9 + i] == rf[i]);
            assert(bit_at(d, 0 + (9 + i)) == b[9 + i]);
        }
    }
    lemma_uint_bits_read_back(d, 9, refresh_frame_flags, 8);
    assert(bit_at(d, 0int + 17) == b[17] && b[17] == frame_size_override_flag);
    let q = spec_uint_bits(base_q_idx, 8);
    assert(spec_holds_bits(d, 18, q)) by {
        assert forall|i: int| 0 <= i < q.len() implies bit_at(d, 18 + i) == #[trigger] q[i] by {
            assert(b[18 + i] == q[i]);
            assert(bit_at(d, 0 + (18 + i)) == b[18 + i]);
        }
    }
    lemma_uint_bits_read_back(d, 18, base_q_idx, 8);
}

/// Parse a narrow KEY-frame-only uncompressed frame header.
pub fn parse_uncompressed_frame_header(
    sequence_header: &SequenceHeader,
    payload: &[u8],
) -> (res: Result<UncompressedFrameHeader, ParseError>)
    requires
        8 * payload@.len() <= usize::MAX,
    ensures
        res == spec_uncompressed_header(*sequence_header, payload@),
{
    proof {
        vstd::arithmetic::power2::lemma2_to64();
    }
    let e = ParseError::TruncatedFrameHeader;
    let mut bits = BitReader::new(payload);
    if sequence_header.reduced_still_picture_header {
        let base_q_idx = bits.read_bits_with(8, e)? as u8;
        return Ok(skeleton_header(sequence_header, true, true, false, 0, 0xff, false, base_q_idx));
    }
    let show_existing_frame = bits.read_bit_with(e)?;
    if show_existing_frame {
        return Err(ParseError::UnsupportedFrameHeader);
    }
    let raw_type = bits.read_bits_with(2, e)?;
    let frame_type = match parse_frame_type(raw_type) {
        Some(t) => t,
        None => return Err(e),
    };
    if frame_type != FrameType::Key {
        return Err(ParseError::UnsupportedFrameHeader);
    }
    let show_frame = bits.read_bit_with(e)?;
    let error_resilient_mode = bits.read_bit_with(e)?;
    let disable_cdf_update = bits.read_bit_with(e)?;
    let primary_ref_frame = bits.read_bits_with(3, e)? as u8;
    let refresh_frame_flags = bits.read_bits_with(8, e)? as u8;
    let frame_size_override_flag = bits.read_bit_with(e)?;
    let base_q_idx = bits.read_bits_with(8, e)? as u8;
    Ok(skeleton_header(sequence_header, show_frame, error_resilient_mode, disable_cdf_update,
        primary_ref_frame, refresh_frame_flags, frame_size_override_flag, base_q_idx))
}

/// Bytes that the uncompressed header occupies at the start of a frame OBU payload.
pub open spec fn spec_header_bytes(sh: SequenceHeader) -> int {
    if sh.reduced_still_picture_header { 1 } else { 4 }
}

/// Split a frame OBU payload into its uncompressed header and the byte-aligned tile data after it.
pub fn split_frame_obu_payload<'a>(
    sequence_header: &SequenceHeader,
    payload: &'a [u8],
) -> (res: Result<(UncompressedFrameHeader, &'a [u8]), ParseError>)
    requires
        8 * payload@.len() <= usize::MAX,
    ensures
        match spec_uncompressed_header(*sequence_header, payload@) {
            Err(e) => res matches Err(r) && r == e,
            Ok(h) => res matches Ok((rh, tiles)) && rh == h
                && tiles@ == payload@.subrange(spec_header_bytes(*sequence_header), payload@.len() as int),
        },
{
    let header = parse_uncompressed_frame_header(sequence_header, payload)?;
    let header_bytes: usize = if sequence_header.reduced_still_picture_header { 1 } else { 4 };
    Ok((header, &payload[header_bytes..payload.len()]))
}

/// The tile group of a single-tile frame: the whole non-empty payload.
pub open spec fn spec_tile_group(fh: UncompressedFrameHeader, d: Seq<u8>) -> Result<(usize, usize, Seq<u8>), ParseError> {
    if fh.num_tile_cols != 1 || fh.num_tile_rows != 1 {
        Err(ParseError::UnsupportedFrameHeader)
    } else if d.len() == 0 {
        Err(ParseError::TruncatedTileGroup)
    } else {
        Ok((0, 0, d))
    }
}

/// Parse a single-tile tile-group payload for the walking skeleton.
pub fn parse_tile_group<'a>(
    _sh: &SequenceHeader,
    fh: &UncompressedFrameHeader,
    payload: &'a [u8],
) -> (res: Result<TileGroup<'a>, ParseError>)
    ensures
        match spec_tile_group(*fh, payload@) {
            Err(e) => res matches Err(r) && r == e,
            Ok((s, t, d)) => res matches Ok(tg) && tg.tile_start == s && tg.tile_end == t && tg.data@ == d,
        },
{
    if fh.num_tile_cols != 1 || fh.num_tile_rows != 1 {
        return Err(ParseError::UnsupportedFrameHeader);
    }
    if payload.len() == 0 {
        return Err(ParseError::TruncatedTileGroup);
    }
    Ok(TileGroup { tile_start: 0, tile_end: 0, data: payload })
}

} // verus!
