//! The pure-Rust decoder backend: packet parsing, header tracking and walking-skeleton decode.
use vstd::prelude::*;
use crate::backend::BackendKind;
use crate::bitstream::{
    classify_frame_packet, parse_frame_header_info, parse_obus_auto, parse_sequence_header, parse_tile_group,
    split_frame_obu_payload, FrameHeaderInfo, FramePacketKind, ObuHeader, ObuType, ParseError, SequenceHeader,
};
use crate::bitstream::obu::{obus_view, spec_parse_obus_auto};
use crate::bitstream::types::{spec_obu_type, spec_is_frame_data, spec_classify};
use crate::bitstream::sequence::spec_sequence_header;
use crate::bitstream::frame::{spec_frame_header_info, spec_uncompressed_header, spec_tile_group, spec_header_bytes};
use crate::decoder::api::{DecodeEvent, DecodeProgress, DecoderError, FrameBufferManager, Image, StreamInfo};
use crate::decoder::frame_buffer::FrameBuffer as ReconstructedFrame;
use crate::decoder::reconstruct::{decode_frame, CoreDecodeError, spec_frame_check, spec_tile, spec_frame_geometry, spec_zero_luma,
    spec_chroma_geometry, spec_gray_chroma};
use crate::bitstream::UncompressedFrameHeader;
use crate::format::{Subsampling, IMG_FMT_I420, CSP_LEFT, CSP_CENTER, CSP_TOPLEFT, CSP_TOP, CSP_BOTTOMLEFT, CSP_BOTTOM,
    CSP_UNSPECIFIED, CR_STUDIO_RANGE, CR_FULL_RANGE};

verus! {

/// Pure-Rust AV2 decoder backend state.
#[derive(Debug)]
pub struct RustDecoder {
    pub saw_sequence_header: bool,
    pub packets_parsed: usize,
    pub obus_parsed: usize,
    pub frame_packets_seen: usize,
    pub last_frame_packet_kind: Option<FramePacketKind>,
    pub last_frame_header: Option<FrameHeaderInfo>,
    pub last_event: Option<DecodeEvent>,
    pub recent_events: [Option<DecodeEvent>; 4],
    pub sequence_header: Option<SequenceHeader>,
    pub stream_info: Option<StreamInfo>,
    pub pending_frame: Option<RustFrame>,
    pub frame_iter_active: bool,
}

/// A reconstructed frame held for output.
#[derive(Debug)]
pub struct RustFrame {
    pub image: Image,
}

/// The decoder error for a packet-parsing error.
pub open spec fn spec_map_parse_error(err: ParseError) -> DecoderError {
    match err {
        ParseError::TruncatedHeader => DecoderError::Parse("truncated OBU header"),
        ParseError::InvalidHeader => DecoderError::Parse("invalid OBU header"),
        ParseError::TruncatedExtension => DecoderError::Parse("truncated OBU extension header"),
        ParseError::InvalidExtension => DecoderError::Parse("invalid OBU extension header"),
        ParseError::TruncatedSize => DecoderError::Parse("truncated OBU size field"),
        ParseError::SizeOverflow => DecoderError::Parse("OBU size overflow"),
        ParseError::TruncatedPayload => DecoderError::Parse("OBU payload exceeds packet length"),
        ParseError::TruncatedSequenceHeader => DecoderError::Parse("truncated sequence header"),
        ParseError::TruncatedFrameHeader => DecoderError::Parse("truncated frame header"),
        ParseError::TruncatedTileGroup => DecoderError::Parse("truncated tile group"),
        ParseError::UnsupportedSequenceHeader => DecoderError::Unimplemented("unsupported sequence header form"),
        ParseError::UnsupportedFrameHeader => DecoderError::Unimplemented("unsupported frame header form"),
    }
}

/// The decoder error for a packet-parsing error.
pub fn map_parse_error(err: ParseError) -> (e: DecoderError)
    ensures
        e == spec_map_parse_error(err),
{
    match err {
        ParseError::TruncatedHeader => DecoderError::Parse("truncated OBU header"),
        ParseError::InvalidHeader => DecoderError::Parse("invalid OBU header"),
        ParseError::TruncatedExtension => DecoderError::Parse("truncated OBU extension header"),
        ParseError::InvalidExtension => DecoderError::Parse("invalid OBU extension header"),
        ParseError::TruncatedSize => DecoderError::Parse("truncated OBU size field"),
        ParseError::SizeOverflow => DecoderError::Parse("OBU size overflow"),
        ParseError::TruncatedPayload => DecoderError::Parse("OBU payload exceeds packet length"),
        ParseError::TruncatedSequenceHeader => DecoderError::Parse("truncated sequence header"),
        ParseError::TruncatedFrameHeader => DecoderError::Parse("truncated frame header"),
        ParseError::TruncatedTileGroup => DecoderError::Parse("truncated tile group"),
        ParseError::UnsupportedSequenceHeader => DecoderError::Unimplemented("unsupported sequence header form"),
        ParseError::UnsupportedFrameHeader => DecoderError::Unimplemented("unsupported frame header form"),
    }
}

/// The decoder error for a walking-skeleton reconstruction error.
pub open spec fn spec_map_core_decode_error(err: CoreDecodeError) -> DecoderError {
    match err {
        CoreDecodeError::Unsupported(message) => DecoderError::Unimplemented(message),
        CoreDecodeError::UnexpectedMode => DecoderError::Unimplemented("walking skeleton only supports DC intra mode"),
        CoreDecodeError::EntropyError => DecoderError::Unimplemented("walking skeleton entropy path is incomplete"),
    }
}

/// The decoder error for a walking-skeleton reconstruction error.
pub fn map_core_decode_error(err: CoreDecodeError) -> (e: DecoderError)
    ensures
        e == spec_map_core_decode_error(err),
{
    match err {
        CoreDecodeError::Unsupported(message) => DecoderError::Unimplemented(message),
        CoreDecodeError::UnexpectedMode => DecoderError::Unimplemented("walking skeleton only supports DC intra mode"),
        CoreDecodeError::EntropyError => DecoderError::Unimplemented("walking skeleton entropy path is incomplete"),
    }
}

/// The stream information a sequence header announces.
pub open spec fn spec_stream_info(h: SequenceHeader) -> StreamInfo {
    StreamInfo {
        width: h.max_frame_width,
        height: h.max_frame_height,
        is_kf: false,
        number_tlayers: 1,
        number_mlayers: 1,
        number_xlayers: 1,
    }
}

/// The state after recording event `e`: the event window slides by one and ends with `e`.
pub open spec fn spec_push_event(d: RustDecoder, e: DecodeEvent) -> RustDecoder {
    RustDecoder {
        recent_events: [d.recent_events[1], d.recent_events[2], d.recent_events[3], Some(e)],
        last_event: Some(e),
        ..d
    }
}

/// One OBU of a packet: a sequence header is parsed and recorded; once a sequence header is
/// known, frame headers are parsed and recorded; frame data and frame payloads are noted.
/// Returns the outcome, the state, the last frame payload seen and whether frame data was seen.
#[verifier::opaque]
pub open spec fn spec_obu_step(d: RustDecoder, pend: Option<Seq<u8>>, saw: bool, obu: (ObuHeader, Seq<u8>))
    -> (Result<(), DecoderError>, RustDecoder, Option<Seq<u8>>, bool) {
    let t = spec_obu_type(obu.0.obu_type);
    let payload = obu.1;
    let (r1, d1) = if t == ObuType::SequenceHeader {
        match spec_sequence_header(payload) {
            Err(e) => (Err(spec_map_parse_error(e)), d),
            Ok(h) => (Ok(()), spec_push_event(RustDecoder {
                saw_sequence_header: true,
                sequence_header: Some(h),
                stream_info: Some(spec_stream_info(h)),
                ..d
            }, DecodeEvent::SequenceHeader(h))),
        }
    } else {
        (Ok(()), d)
    };
    if r1 is Err {
        (r1, d1, pend, saw)
    } else {
        let (r2, d2) = match d1.sequence_header {
            None => (Ok(()), d1),
            Some(sh) => match spec_frame_header_info(sh, t, payload) {
                Err(e) => (Err(spec_map_parse_error(e)), d1),
                Ok(None) => (Ok(()), d1),
                Ok(Some(fh)) => (Ok(()), spec_push_event(RustDecoder { last_frame_header: Some(fh), ..d1 },
                    DecodeEvent::FrameHeader(fh))),
            },
        };
        if r2 is Err {
            (r2, d2, pend, saw)
        } else {
            (Ok(()), d2, if t == ObuType::Frame { Some(payload) } else { pend }, saw || spec_is_frame_data(t))
        }
    }
}

/// The OBUs of a packet in order, stopping at the first error.
pub open spec fn spec_scan(d: RustDecoder, obus: Seq<(ObuHeader, Seq<u8>)>)
    -> (Result<(), DecoderError>, RustDecoder, Option<Seq<u8>>, bool)
    decreases obus.len(),
{
    if obus.len() == 0 {
        (Ok(()), d, None, false)
    } else {
        let (r, d1, pend, saw) = spec_scan(d, obus.drop_last());
        if r is Err {
            (r, d1, pend, saw)
        } else {
            spec_obu_step(d1, pend, saw, obus.last())
        }
    }
}

/// The bytes of an optional slice.
pub open spec fn opt_bytes(o: Option<&[u8]>) -> Option<Seq<u8>> {
    match o {
        Some(p) => Some(p@),
        None => None,
    }
}

/// Once scanning a prefix of the OBUs fails, scanning all of them fails the same way.
pub proof fn lemma_scan_stops(d: RustDecoder, obus: Seq<(ObuHeader, Seq<u8>)>, k: int)
    requires
        0 <= k <= obus.len(),
        spec_scan(d, obus.take(k)).0 is Err,
    ensures
        spec_scan(d, obus) == spec_scan(d, obus.take(k)),
    decreases obus.len() - k,
{
    if k < obus.len() {
        assert(obus.take(k + 1).drop_last() =~= obus.take(k));
        lemma_scan_stops(d, obus, k + 1);
    } else {
        assert(obus.take(k) =~= obus);
    }
}

/// Upper limit on a packet's size: its bit positions must be addressable.
pub open spec fn spec_packet_too_large(len: nat) -> bool {
    len > usize::MAX / 8
}

/// `a + b`, saturating at the largest `usize`.
pub open spec fn spec_sat_add(a: usize, b: int) -> usize {
    if a + b > usize::MAX { usize::MAX } else { (a + b) as usize }
}

/// The packet stage of decoding `data`: whether decoding is finished there (with its outcome),
/// the state after it, the frame payload to reconstruct and whether frame data was seen.
pub open spec fn spec_decode_packet(d: RustDecoder, data: Seq<u8>)
    -> (bool, Result<(), DecoderError>, RustDecoder, Option<Seq<u8>>, bool) {
    if data.len() == 0 {
        (true, Ok(()), d, None, false)
    } else if spec_packet_too_large(data.len()) {
        (true, Err(DecoderError::Parse("packet exceeds the addressable bit range")), d, None, false)
    } else {
        match spec_parse_obus_auto(data) {
            Err(e) => (true, Err(spec_map_parse_error(e)), d, None, false),
            Ok(obus) => {
                let kind = spec_classify(obus.map_values(|o: (ObuHeader, Seq<u8>)| o.0));
                let d0 = RustDecoder {
                    packets_parsed: spec_sat_add(d.packets_parsed, 1),
                    obus_parsed: spec_sat_add(d.obus_parsed, obus.len() as int),
                    last_frame_packet_kind: kind,
                    last_frame_header: None,
                    last_event: None,
                    frame_packets_seen: if kind is Some { spec_sat_add(d.frame_packets_seen, 1) } else { d.frame_packets_seen },
                    ..d
                };
                let (r, d1, pend, saw) = spec_scan(d0, obus);
                (r is Err, r, d1, pend, saw)
            },
        }
    }
}

/// Decoding one packet `data` from state `d`: whether it can end with outcome `r` in state `d2`.
#[verifier::opaque]
pub open spec fn spec_decode_step(d: RustDecoder, data: Seq<u8>, r: Result<(), DecoderError>, d2: RustDecoder) -> bool {
    let (done, res, d1, pend, saw) = spec_decode_packet(d, data);
    if done {
        r == res && d2 == d1
    } else {
        RustDecoder::spec_frame_stage(d1, pend, saw, r, d2)
    }
}

/// Whether `img` is the output image of a frame with headers `sh` and `fh` whose reconstructed
/// luma samples are `luma`: 8-bit 4:2:0, the frame's size, siting and range from the sequence
/// header, the luma plane and two mid-gray chroma planes with their padded strides.
pub open spec fn spec_decoded_image(img: Image, sh: SequenceHeader, fh: UncompressedFrameHeader, luma: Seq<u8>) -> bool {
    let g = spec_frame_geometry(fh);
    let cg = spec_chroma_geometry(fh);
    let chroma = spec_gray_chroma(fh);
    &&& img.fmt == IMG_FMT_I420
    &&& !img.monochrome
    &&& img.csp == spec_csp_code(sh.chroma_sample_position)
    &&& img.range == (if sh.color_range == 0 { CR_STUDIO_RANGE } else { CR_FULL_RANGE })
    &&& img.w == fh.frame_width && img.h == fh.frame_height
    &&& img.d_w == fh.frame_width && img.d_h == fh.frame_height
    &&& img.bit_depth == 8
    &&& img.x_chroma_shift == 1 && img.y_chroma_shift == 1
    &&& img.planes[0] matches Some(p0) && p0@ == luma
    &&& img.planes[1] matches Some(p1) && p1@ == chroma
    &&& img.planes[2] matches Some(p2) && p2@ == chroma
    &&& img.stride[0] == g.stride as i32
    &&& img.stride[1] == cg.stride as i32
    &&& img.stride[2] == cg.stride as i32
    &&& img.sz == spec_sat_add(spec_sat_add(luma.len() as usize, chroma.len() as int), chroma.len() as int)
}

/// The outcome of reconstructing the frame payload `p` under sequence header `sh`, as far as it
/// is determined by the headers: `Some` of the error when a header or tile-group check fails,
/// `None` when the payload reaches reconstruction.
pub open spec fn spec_frame_stage_error(sh: SequenceHeader, p: Seq<u8>) -> Option<DecoderError> {
    if p.len() == 0 {
        Some(DecoderError::Unimplemented("Rust backend parsed frame data without a complete frame payload"))
    } else {
        match spec_uncompressed_header(sh, p) {
            Err(e) => Some(spec_map_parse_error(e)),
            Ok(fh) => match spec_tile_group(fh, p.subrange(spec_header_bytes(sh), p.len() as int)) {
                Err(e) => Some(spec_map_parse_error(e)),
                Ok((s, t, tiles)) => match spec_frame_check(sh, fh, tiles.len()) {
                    Some(msg) => Some(DecoderError::Unimplemented(msg)),
                    None => None,
                },
            },
        }
    }
}

/// The contents of an optional plane.
pub open spec fn spec_plane_bytes(p: Option<Vec<u8>>) -> Option<Seq<u8>> {
    match p {
        Some(v) => Some(v@),
        None => None,
    }
}

/// Two images describe the same picture: the same format, geometry, strides and plane contents.
pub open spec fn spec_same_image(a: Image, b: Image) -> bool {
    &&& a.fmt == b.fmt && a.monochrome == b.monochrome && a.csp == b.csp && a.range == b.range
    &&& a.w == b.w && a.h == b.h && a.d_w == b.d_w && a.d_h == b.d_h && a.bit_depth == b.bit_depth
    &&& a.x_chroma_shift == b.x_chroma_shift && a.y_chroma_shift == b.y_chroma_shift
    &&& forall|i: int| 0 <= i < 3 ==> spec_plane_bytes(#[trigger] a.planes[i]) == spec_plane_bytes(b.planes[i]) && a.stride[i] == b.stride[i]
    &&& a.sz == b.sz
}

/// Two decoder states agree: the same counters, headers and events, and pending frames that
/// are both absent or describe the same picture.
pub open spec fn spec_same_state(a: RustDecoder, b: RustDecoder) -> bool {
    &&& (RustDecoder { pending_frame: None, ..a }) == (RustDecoder { pending_frame: None, ..b })
    &&& match (a.pending_frame, b.pending_frame) {
        (None, None) => true,
        (Some(f), Some(g)) => spec_same_image(f.image, g.image),
        _ => false,
    }
}

/// One OBU step treats states that agree alike.
#[verifier::spinoff_prover]
#[verifier::rlimit(50)]
proof fn lemma_obu_step_agrees(a: RustDecoder, b: RustDecoder, pend: Option<Seq<u8>>, saw: bool, obu: (ObuHeader, Seq<u8>))
    requires
        spec_same_state(a, b),
    ensures
        ({
            let (r1, a1, p1, s1) = spec_obu_step(a, pend, saw, obu);
            let (r2, b1, p2, s2) = spec_obu_step(b, pend, saw, obu);
            r1 == r2 && p1 == p2 && s1 == s2 && spec_same_state(a1, b1)
        }),
{
    reveal(spec_obu_step);
}

/// Scanning OBUs treats states that agree alike.
proof fn lemma_scan_agrees(a: RustDecoder, b: RustDecoder, obus: Seq<(ObuHeader, Seq<u8>)>)
    requires
        spec_same_state(a, b),
    ensures
        ({
            let (r1, a1, p1, s1) = spec_scan(a, obus);
            let (r2, b1, p2, s2) = spec_scan(b, obus);
            r1 == r2 && p1 == p2 && s1 == s2 && spec_same_state(a1, b1)
        }),
    decreases obus.len(),
{
    if obus.len() > 0 {
        lemma_scan_agrees(a, b, obus.drop_last());
        let (r, a1, pend, saw) = spec_scan(a, obus.drop_last());
        let b1 = spec_scan(b, obus.drop_last()).1;
        if r is Ok {
            lemma_obu_step_agrees(a1, b1, pend, saw, obus.last());
        }
    }
}

/// The stream information follows the sequence header: absent until a sequence header is
/// held, then the information that header announces; and a sequence header was seen exactly
/// when one is held.
pub open spec fn spec_info_tracks_header(d: RustDecoder) -> bool {
    &&& d.stream_info == (match d.sequence_header {
        Some(h) => Some(spec_stream_info(h)),
        None => None::<StreamInfo>,
    })
    &&& d.saw_sequence_header == d.sequence_header is Some
}

/// One OBU step keeps the stream information in step with the sequence header.
proof fn lemma_obu_step_tracks_header(d: RustDecoder, pend: Option<Seq<u8>>, saw: bool, obu: (ObuHeader, Seq<u8>))
    requires
        spec_info_tracks_header(d),
    ensures
        spec_info_tracks_header(spec_obu_step(d, pend, saw, obu).1),
{
    reveal(spec_obu_step);
}

/// Scanning OBUs keeps the stream information in step with the sequence header.
proof fn lemma_scan_tracks_header(d: RustDecoder, obus: Seq<(ObuHeader, Seq<u8>)>)
    requires
        spec_info_tracks_header(d),
    ensures
        spec_info_tracks_header(spec_scan(d, obus).1),
    decreases obus.len(),
{
    if obus.len() > 0 {
        lemma_scan_tracks_header(d, obus.drop_last());
        let (r, d1, pend, saw) = spec_scan(d, obus.drop_last());
        if r is Ok {
            lemma_obu_step_tracks_header(d1, pend, saw, obus.last());
        }
    }
}

/// Decoding a packet keeps the stream information in step with the sequence header, whatever
/// its outcome.
pub proof fn lemma_decode_tracks_header(d: RustDecoder, data: Seq<u8>, r: Result<(), DecoderError>, d2: RustDecoder)
    requires
        spec_info_tracks_header(d),
        spec_decode_step(d, data, r, d2),
    ensures
        spec_info_tracks_header(d2),
{
    reveal(spec_decode_step);
    reveal(RustDecoder::spec_frame_stage);
    if data.len() > 0 && !spec_packet_too_large(data.len()) {
        if let Ok(obus) = spec_parse_obus_auto(data) {
            let kind = spec_classify(obus.map_values(|o: (ObuHeader, Seq<u8>)| o.0));
            let d0 = RustDecoder {
                packets_parsed: spec_sat_add(d.packets_parsed, 1),
                obus_parsed: spec_sat_add(d.obus_parsed, obus.len() as int),
                last_frame_packet_kind: kind,
                last_frame_header: None,
                last_event: None,
                frame_packets_seen: if kind is Some { spec_sat_add(d.frame_packets_seen, 1) } else { d.frame_packets_seen },
                ..d
            };
            lemma_scan_tracks_header(d0, obus);
        }
    }
}

/// Decoding is deterministic: decoding one packet from states that agree (the same state, in
/// particular) always ends with the same outcome, in states that agree.
pub proof fn lemma_decode_is_deterministic(
    a: RustDecoder,
    b: RustDecoder,
    data: Seq<u8>,
    r1: Result<(), DecoderError>,
    a2: RustDecoder,
    r2: Result<(), DecoderError>,
    b2: RustDecoder,
)
    requires
        spec_same_state(a, b),
        spec_decode_step(a, data, r1, a2),
        spec_decode_step(b, data, r2, b2),
    ensures
        r1 == r2,
        spec_same_state(a2, b2),
{
    reveal(spec_decode_step);
    reveal(RustDecoder::spec_frame_stage);
    if data.len() > 0 && !spec_packet_too_large(data.len()) {
        if let Ok(obus) = spec_parse_obus_auto(data) {
            let kind = spec_classify(obus.map_values(|o: (ObuHeader, Seq<u8>)| o.0));
            let a0 = RustDecoder {
                packets_parsed: spec_sat_add(a.packets_parsed, 1),
                obus_parsed: spec_sat_add(a.obus_parsed, obus.len() as int),
                last_frame_packet_kind: kind,
                last_frame_header: None,
                last_event: None,
                frame_packets_seen: if kind is Some { spec_sat_add(a.frame_packets_seen, 1) } else { a.frame_packets_seen },
                ..a
            };
            let b0 = RustDecoder {
                packets_parsed: spec_sat_add(b.packets_parsed, 1),
                obus_parsed: spec_sat_add(b.obus_parsed, obus.len() as int),
                last_frame_packet_kind: kind,
                last_frame_header: None,
                last_event: None,
                frame_packets_seen: if kind is Some { spec_sat_add(b.frame_packets_seen, 1) } else { b.frame_packets_seen },
                ..b
            };
            assert(spec_same_state(a0, b0));
            lemma_scan_agrees(a0, b0, obus);
            let (r, a1, pend, saw) = spec_scan(a0, obus);
            let b1 = spec_scan(b0, obus).1;
            if r is Ok {
                if let Some(p) = pend {
                    if let Some(sh) = a1.sequence_header {
                        if spec_frame_stage_error(sh, p) is None {
                            let fh = spec_uncompressed_header(sh, p)->Ok_0;
                            let tiles = spec_tile_group(fh, p.subrange(spec_header_bytes(sh), p.len() as int))->Ok_0.2;
                            let g = spec_frame_geometry(fh);
                            let (res, m) = spec_tile(tiles, g, spec_zero_luma(g), fh.tx_mode);
                            if res is Ok {
                                let f1 = a2.pending_frame->Some_0;
                                let f2 = b2.pending_frame->Some_0;
                                assert forall|i: int| 0 <= i < 3 implies spec_plane_bytes(#[trigger] f1.image.planes[i])
                                    == spec_plane_bytes(f2.image.planes[i]) && f1.image.stride[i] == f2.image.stride[i] by {
                                    if i == 0 {} else if i == 1 {} else {}
                                }
                            }
                        }
                    }
                }
            }
        }
    }
}

impl RustDecoder {
    /// A backend that has seen nothing yet.
    pub open spec fn spec_initial() -> RustDecoder {
        RustDecoder {
            saw_sequence_header: false,
            packets_parsed: 0,
            obus_parsed: 0,
            frame_packets_seen: 0,
            last_frame_packet_kind: None,
            last_frame_header: None,
            last_event: None,
            recent_events: [None, None, None, None],
            sequence_header: None,
            stream_info: None,
            pending_frame: None,
            frame_iter_active: false,
        }
    }

    /// A fresh backend; the thread count is ignored.
    pub fn new(_threads: Option<u32>) -> (r: Result<Self, DecoderError>)
        ensures
            r matches Ok(d) && d == Self::spec_initial(),
    {
        Ok(Self::initial())
    }

    /// A backend in its initial state.
    pub(crate) fn initial() -> (d: Self)
        ensures
            d == Self::spec_initial(),
    {
        RustDecoder {
            saw_sequence_header: false,
            packets_parsed: 0,
            obus_parsed: 0,
            frame_packets_seen: 0,
            last_frame_packet_kind: None,
            last_frame_header: None,
            last_event: None,
            recent_events: [None, None, None, None],
            sequence_header: None,
            stream_info: None,
            pending_frame: None,
            frame_iter_active: false,
        }
    }

    /// Record an event: the window of recent events slides by one and ends with it.
    pub fn push_event(&mut self, event: DecodeEvent)
        ensures
            *final(self) == spec_push_event(*old(self), event),
    {
        let r = self.recent_events;
        self.recent_events = [r[1], r[2], r[3], Some(event)];
        self.last_event = Some(event);
    }

    /// The outcome of the frame stage of a packet, from the state `d1` after its OBUs, the
    /// last frame payload and whether frame data was seen.
    #[verifier::opaque]
    pub open spec fn spec_frame_stage(d1: RustDecoder, pend: Option<Seq<u8>>, saw: bool, r: Result<(), DecoderError>, d2: RustDecoder) -> bool {
        match pend {
            None => d2 == d1 && r == (if saw {
                Err::<(), DecoderError>(DecoderError::Unimplemented(
                    "Rust backend parsed OBU packets but full frame decoding is not implemented yet"))
            } else {
                Ok(())
            }),
            Some(p) => match d1.sequence_header {
                None => d2 == d1 && r == Err::<(), DecoderError>(DecoderError::Unimplemented(
                    "Rust backend parsed frame data without enough header state")),
                Some(sh) => match spec_frame_stage_error(sh, p) {
                    Some(e) => d2 == d1 && r == Err::<(), DecoderError>(e),
                    None => {
                        let fh = spec_uncompressed_header(sh, p)->Ok_0;
                        let tiles = spec_tile_group(fh, p.subrange(spec_header_bytes(sh), p.len() as int))->Ok_0.2;
                        let g = spec_frame_geometry(fh);
                        let (res, m) = spec_tile(tiles, g, spec_zero_luma(g), fh.tx_mode);
                        match res {
                            Ok(_) => {
                                &&& r == Ok::<(), DecoderError>(())
                                &&& d2.pending_frame matches Some(f) && spec_decoded_image(f.image, sh, fh, m.luma)
                                &&& d2 == (RustDecoder { pending_frame: d2.pending_frame, frame_iter_active: false, ..d1 })
                            },
                            Err(e) => d2 == d1 && r == Err::<(), DecoderError>(spec_map_core_decode_error(e)),
                        }
                    },
                },
            },
        }
    }

    /// Decode one compressed packet: parse its OBUs, track sequence and frame headers, and
    /// reconstruct a frame OBU's payload into the pending output frame.
    pub fn decode(&mut self, data: &[u8]) -> (r: Result<(), DecoderError>)
        ensures
            ({
                let (done, res, d1, pend, saw) = spec_decode_packet(*old(self), data@);
                if done {
                    r == res && *final(self) == d1
                } else {
                    Self::spec_frame_stage(d1, pend, saw, r, *final(self))
                }
            }),
    {
        if data.len() == 0 {
            return Ok(());
        }
        if data.len() > usize::MAX / 8 {
            return Err(DecoderError::Parse("packet exceeds the addressable bit range"));
        }
        let obus = match parse_obus_auto(data) {
            Ok(o) => o,
            Err(e) => {
                return Err(map_parse_error(e));
            },
        };
        let ghost gobus = obus_view(obus@);
        proof {
            crate::bitstream::obu::lemma_payload_lengths(data@);
        }
        let kind = classify_frame_packet(obus.as_slice());
        proof {
            assert(crate::bitstream::types::obu_headers(obus@) =~= gobus.map_values(|o: (ObuHeader, Seq<u8>)| o.0));
        }
        self.packets_parsed = self.packets_parsed.saturating_add(1);
        self.obus_parsed = self.obus_parsed.saturating_add(obus.len());
        self.last_frame_packet_kind = kind;
        self.last_frame_header = None;
        self.last_event = None;
        if kind.is_some() {
            self.frame_packets_seen = self.frame_packets_seen.saturating_add(1);
        }
        let ghost d0 = *self;
        let mut pending_payload: Option<&[u8]> = None;
        let mut saw_frame_data = false;
        let mut i: usize = 0;
        while i < obus.len()
            invariant
                i <= obus@.len(),
                gobus == obus_view(obus@),
                8 * data@.len() <= usize::MAX,
                forall|j: int| 0 <= j < gobus.len() ==> (#[trigger] gobus[j]).1.len() <= data@.len(),
                spec_scan(d0, gobus.take(i as int)).0 is Ok,
                spec_scan(d0, gobus.take(i as int)).1 == *self,
                spec_scan(d0, gobus.take(i as int)).2 == opt_bytes(pending_payload),
                spec_scan(d0, gobus.take(i as int)).3 == saw_frame_data,
                opt_bytes(pending_payload) matches Some(p) ==> p.len() <= data@.len(),
                spec_decode_packet(*old(self), data@) == (spec_scan(d0, gobus).0 is Err, spec_scan(d0, gobus).0,
                    spec_scan(d0, gobus).1, spec_scan(d0, gobus).2, spec_scan(d0, gobus).3),
            decreases obus@.len() - i,
        {
            let obu = &obus[i];
            let ghost before = (*self, opt_bytes(pending_payload), saw_frame_data);
            proof {
                assert(gobus.take(i + 1).drop_last() =~= gobus.take(i as int));
                assert(gobus[i as int] == (obu.header, obu.payload@));
                assert(gobus.take(i + 1).last() == (obu.header, obu.payload@));
            }
            let step = self.scan_obu(obu, &mut pending_payload, &mut saw_frame_data);
            match step {
                Ok(()) => {},
                Err(e) => {
                    proof {
                        lemma_scan_stops(d0, gobus, i + 1);
                    }
                    return Err(e);
                },
            }
            proof {
                assert(spec_scan(d0, gobus.take(i + 1)) == spec_obu_step(before.0, before.1, before.2, gobus.take(i + 1).last()));
            }
            i = i + 1;
        }
        proof {
            assert(gobus.take(obus@.len() as int) =~= gobus);
        }
        self.finish_packet(pending_payload, saw_frame_data)
    }

    /// Process one OBU of a packet (see `spec_obu_step`).
    fn scan_obu<'a>(&mut self, obu: &crate::bitstream::Obu<'a>, pending_payload: &mut Option<&'a [u8]>, saw_frame_data: &mut bool)
        -> (r: Result<(), DecoderError>)
        requires
            8 * obu.payload@.len() <= usize::MAX,
        ensures
            ({
                let s = spec_obu_step(*old(self), opt_bytes(*old(pending_payload)), *old(saw_frame_data), (obu.header, obu.payload@));
                &&& s.1 == *final(self)
                &&& s.2 == opt_bytes(*final(pending_payload))
                &&& s.3 == *final(saw_frame_data)
                &&& (r is Ok <==> s.0 is Ok)
                &&& (r matches Err(e) ==> s.0 == Err::<(), DecoderError>(e))
            }),
            opt_bytes(*final(pending_payload)) == opt_bytes(*old(pending_payload))
                || opt_bytes(*final(pending_payload)) == Some(obu.payload@),
    {
        reveal(spec_obu_step);
        let obu_type = ObuType::from_raw(obu.header.obu_type);
        if obu_type == ObuType::SequenceHeader {
            let header = match parse_sequence_header(obu.payload) {
                Ok(h) => h,
                Err(e) => {
                    return Err(map_parse_error(e));
                },
            };
            self.saw_sequence_header = true;
            self.sequence_header = Some(header);
            self.stream_info = Some(StreamInfo {
                width: header.max_frame_width,
                height: header.max_frame_height,
                is_kf: false,
                number_tlayers: 1,
                number_mlayers: 1,
                number_xlayers: 1,
            });
            self.push_event(DecodeEvent::SequenceHeader(header));
        }
        if let Some(sequence_header) = self.sequence_header {
            match parse_frame_header_info(&sequence_header, obu_type, obu.payload) {
                Ok(Some(frame_header)) => {
                    self.last_frame_header = Some(frame_header);
                    self.push_event(DecodeEvent::FrameHeader(frame_header));
                },
                Ok(None) => {},
                Err(e) => {
                    return Err(map_parse_error(e));
                },
            }
        }
        if obu_type.is_frame_data() {
            *saw_frame_data = true;
        }
        if obu_type == ObuType::Frame {
            *pending_payload = Some(obu.payload);
        }
        Ok(())
    }

    /// Reconstruct the packet's frame payload, if any (see `spec_frame_stage`).
    fn finish_packet(&mut self, pending_payload: Option<&[u8]>, saw_frame_data: bool) -> (r: Result<(), DecoderError>)
        requires
            pending_payload matches Some(p) ==> 8 * p@.len() <= usize::MAX,
        ensures
            Self::spec_frame_stage(*old(self), opt_bytes(pending_payload), saw_frame_data, r, *final(self)),
    {
        reveal(RustDecoder::spec_frame_stage);
        match pending_payload {
            Some(frame_payload) => {
                match self.sequence_header {
                    Some(sequence_header) => {
                        if frame_payload.len() == 0 {
                            return Err(DecoderError::Unimplemented(
                                "Rust backend parsed frame data without a complete frame payload"));
                        }
                        let (uncompressed, tile_payload) = match split_frame_obu_payload(&sequence_header, frame_payload) {
                            Ok(x) => x,
                            Err(e) => {
                                return Err(map_parse_error(e));
                            },
                        };
                        let tile_group = match parse_tile_group(&sequence_header, &uncompressed, tile_payload) {
                            Ok(t) => t,
                            Err(e) => {
                                return Err(map_parse_error(e));
                            },
                        };
                        let frame = match decode_frame(sequence_header, uncompressed, &tile_group) {
                            Ok(f) => f,
                            Err(e) => {
                                return Err(map_core_decode_error(e));
                            },
                        };
                        self.pending_frame = Some(RustFrame::from_frame_buffer(frame, sequence_header));
                        self.frame_iter_active = false;
                        Ok(())
                    },
                    None => Err(DecoderError::Unimplemented("Rust backend parsed frame data without enough header state")),
                }
            },
            None => {
                if saw_frame_data {
                    Err(DecoderError::Unimplemented(
                        "Rust backend parsed OBU packets but full frame decoding is not implemented yet"))
                } else {
                    Ok(())
                }
            },
        }
    }

    /// Flushing has nothing to drain.
    pub fn flush(&mut self) -> (r: Result<(), DecoderError>)
        ensures
            r is Ok,
            *final(self) == *old(self),
        no_unwind
    {
        Ok(())
    }

    /// The stream information, once a sequence header has been seen.
    pub fn get_stream_info(&mut self) -> (r: Result<StreamInfo, DecoderError>)
        ensures
            *final(self) == *old(self),
            match old(self).stream_info {
                Some(info) => r == Ok::<StreamInfo, DecoderError>(info),
                None => r == Err::<StreamInfo, DecoderError>(if old(self).saw_sequence_header {
                    DecoderError::Unimplemented("Rust backend observed a sequence header but has no stream info")
                } else {
                    DecoderError::Unimplemented("Rust backend has not observed stream metadata yet")
                }),
            },
        no_unwind
    {
        if let Some(info) = self.stream_info {
            Ok(info)
        } else if self.saw_sequence_header {
            Err(DecoderError::Unimplemented("Rust backend observed a sequence header but has no stream info"))
        } else {
            Err(DecoderError::Unimplemented("Rust backend has not observed stream metadata yet"))
        }
    }

    /// External frame-buffer managers are not supported by this backend.
    pub fn set_frame_buffer_manager<M: FrameBufferManager>(&mut self, manager: M) -> (r: Result<(), DecoderError>)
        ensures
            r == Err::<(), DecoderError>(DecoderError::BackendUnavailable(BackendKind::Rust)),
            *final(self) == *old(self),
        no_unwind
    {
        Err(DecoderError::BackendUnavailable(BackendKind::Rust))
    }

    /// The pending frame, once per decoded frame: later calls return `None` until the next frame.
    pub fn get_frame(&mut self) -> (f: Option<&Image>)
        ensures
            !old(self).frame_iter_active && old(self).pending_frame is Some ==> (f matches Some(img)
                && *img == old(self).pending_frame.unwrap().image && final(self).frame_iter_active),
            old(self).frame_iter_active || old(self).pending_frame is None ==> f is None && *final(self) == *old(self),
            *final(self) == (RustDecoder { frame_iter_active: final(self).frame_iter_active, ..*old(self) }),
        no_unwind
    {
        if self.frame_iter_active {
            return None;
        }
        match &self.pending_frame {
            None => None,
            Some(_) => {
                self.frame_iter_active = true;
                match &self.pending_frame {
                    Some(frame) => Some(&frame.image),
                    None => None,
                }
            },
        }
    }

    /// The backend's progress record.
    pub fn progress(&self) -> (p: DecodeProgress)
        ensures
            p == (DecodeProgress {
                backend: BackendKind::Rust,
                packets_parsed: Some(self.packets_parsed),
                obus_parsed: Some(self.obus_parsed),
                frame_packets_seen: Some(self.frame_packets_seen),
                sequence_header: self.sequence_header,
                stream_info: self.stream_info,
                last_frame_packet_kind: self.last_frame_packet_kind,
                last_frame_header: self.last_frame_header,
                last_event: self.last_event,
                recent_events: self.recent_events,
            }),
    {
        DecodeProgress {
            backend: BackendKind::Rust,
            packets_parsed: Some(self.packets_parsed),
            obus_parsed: Some(self.obus_parsed),
            frame_packets_seen: Some(self.frame_packets_seen),
            sequence_header: self.sequence_header,
            stream_info: self.stream_info,
            last_frame_packet_kind: self.last_frame_packet_kind,
            last_frame_header: self.last_frame_header,
            last_event: self.last_event,
            recent_events: self.recent_events,
        }
    }
}

/// The raw chroma-sample-position code of a sequence header's position field.
pub open spec fn spec_csp_code(p: u8) -> u32 {
    if p == 0 {
        CSP_LEFT
    } else if p == 1 {
        CSP_CENTER
    } else if p == 2 {
        CSP_TOPLEFT
    } else if p == 3 {
        CSP_TOP
    } else if p == 4 {
        CSP_BOTTOMLEFT
    } else if p == 5 {
        CSP_BOTTOM
    } else {
        CSP_UNSPECIFIED
    }
}

impl RustFrame {
    /// The output image of a reconstructed 8-bit 4:2:0 frame: planes copied with their padded
    /// strides, chroma position and range taken from the sequence header.
    pub fn from_frame_buffer(frame: ReconstructedFrame, sequence_header: SequenceHeader) -> (f: Self)
        requires
            frame.wf(),
            frame.luma_plane().width <= u32::MAX,
            frame.luma_plane().height <= u32::MAX,
        ensures
            f.image.fmt == IMG_FMT_I420,
            !f.image.monochrome,
            f.image.csp == spec_csp_code(sequence_header.chroma_sample_position),
            f.image.range == (if sequence_header.color_range == 0 { CR_STUDIO_RANGE } else { CR_FULL_RANGE }),
            f.image.w == frame.luma_plane().width,
            f.image.h == frame.luma_plane().height,
            f.image.d_w == frame.luma_plane().width,
            f.image.d_h == frame.luma_plane().height,
            f.image.bit_depth == 8,
            f.image.x_chroma_shift == (if frame.spec_subsampling() == Subsampling::Yuv444 { 0u32 } else { 1u32 }),
            f.image.y_chroma_shift == (if frame.spec_subsampling() == Subsampling::Yuv420 { 1u32 } else { 0u32 }),
            f.image.planes[0] matches Some(p) && p@ == frame.luma_plane().samples(),
            f.image.planes[1] matches Some(p) && p@ == frame.chroma_u_plane().samples(),
            f.image.planes[2] matches Some(p) && p@ == frame.chroma_v_plane().samples(),
            f.image.stride[0] == frame.luma_plane().stride as i32,
            f.image.stride[1] == frame.chroma_u_plane().stride as i32,
            f.image.stride[2] == frame.chroma_v_plane().stride as i32,
            f.image.sz == spec_sat_add(spec_sat_add(frame.luma_plane().samples().len() as usize,
                frame.chroma_u_plane().samples().len() as int), frame.chroma_v_plane().samples().len() as int),
    {
        let subsampling = frame.subsampling();
        let luma = vstd::slice::slice_to_vec(frame.luma().data());
        let chroma_u = vstd::slice::slice_to_vec(frame.chroma_u().data());
        let chroma_v = vstd::slice::slice_to_vec(frame.chroma_v().data());
        let csp = match sequence_header.chroma_sample_position {
            0 => CSP_LEFT,
            1 => CSP_CENTER,
            2 => CSP_TOPLEFT,
            3 => CSP_TOP,
            4 => CSP_BOTTOMLEFT,
            5 => CSP_BOTTOM,
            _ => CSP_UNSPECIFIED,
        };
        let range = if sequence_header.color_range == 0 { CR_STUDIO_RANGE } else { CR_FULL_RANGE };
        let width = frame.luma().width as u32;
        let height = frame.luma().height as u32;
        let (x_shift, y_shift): (u32, u32) = match subsampling {
            Subsampling::Yuv420 => (1, 1),
            Subsampling::Yuv422 => (1, 0),
            Subsampling::Yuv444 => (0, 0),
        };
        let strides = [frame.luma().stride as i32, frame.chroma_u().stride as i32, frame.chroma_v().stride as i32];
        let sz = luma.len().saturating_add(chroma_u.len()).saturating_add(chroma_v.len());
        let image = Image {
            fmt: IMG_FMT_I420,
            monochrome: false,
            csp,
            range,
            w: width,
            h: height,
            bit_depth: 8,
            d_w: width,
            d_h: height,
            x_chroma_shift: x_shift,
            y_chroma_shift: y_shift,
            planes: [Some(luma), Some(chroma_u), Some(chroma_v)],
            stride: strides,
            sz,
        };
        RustFrame { image }
    }
}

} // verus!
