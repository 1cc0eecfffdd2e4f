//! Differential decoding: decode results normalized into owned snapshots, and exact
//! comparisons between two of them that report the first difference.

pub mod field;

use vstd::prelude::*;
use crate::backend::BackendKind;
use crate::decoder::{DecodeProgress, Decoder, DecoderError, OwnedFrame, StreamInfo};
use crate::ivf::{spec_ivf_header, IvfError, IvfErrorKind, IvfReader, DEFAULT_MAX_FRAME_SIZE};
use crate::backend::rust::{RustDecoder, spec_decode_step, lemma_decode_is_deterministic};
use crate::decoder::api::spec_progress;
use crate::stream::{
    drain_frames, lemma_owned_copies_append, lemma_payloads_step, lemma_run_drained, lemma_run_step, spec_after_ready,
    spec_fails_at, spec_first_info, spec_ivf_payloads, spec_owned_copies, spec_ready, spec_run_images,
    spec_run_info, spec_state_before, spec_valid_run, spec_same_owned, spec_same_frames, lemma_runs_agree,
    lemma_run_images_agree, lemma_copy_lists_agree, lemma_run_info_agrees, lemma_accepted_packet_is_accepted,
};
use crate::diff::field::FieldValue;
use crate::text::{decimal_u64, spec_decimal};

verus! {

/// A fully materialized decode result, normalized for backend comparison.
#[derive(Debug, Clone)]
pub struct DecodeSnapshot {
    /// Backend that produced this snapshot.
    pub backend: BackendKind,
    /// Stream information reported by the decoder, if any packet was parsed.
    pub stream_info: Option<StreamInfo>,
    /// Owned decoded frames in display order.
    pub frames: Vec<OwnedFrame>,
    /// Final parser/decode progress reported by the backend.
    pub progress: DecodeProgress,
}

/// A decode attempt captured for backend comparison, including early-stop failures.
#[derive(Debug, Clone)]
pub struct DecodeOutcome {
    /// Snapshot materialized before decode completed or failed.
    pub snapshot: DecodeSnapshot,
    /// Packet index where decoding stopped, if a terminal error occurred.
    pub stopped_at_packet: Option<usize>,
    /// Text of the terminal decoder error, if any.
    pub terminal_error: Option<String>,
}

/// Detailed mismatch for one frame.
#[derive(Debug, Clone, PartialEq, Eq)]
pub enum FrameMismatch {
    /// Metadata differed before comparing plane bytes.
    Metadata { field: &'static str, left: String, right: String },
    /// Plane presence, length or stride differed.
    PlaneLayout { plane: usize, left_len: Option<usize>, right_len: Option<usize>, left_stride: usize, right_stride: usize },
    /// Plane bytes differed.
    PlaneByte { plane: usize, byte_index: usize, left: u8, right: u8 },
}

/// High-level mismatch between two decode snapshots or outcomes.
#[derive(Debug, Clone, PartialEq, Eq)]
pub enum DecodeMismatch {
    /// Stream information differed.
    StreamInfo { left_backend: BackendKind, right_backend: BackendKind, left: Option<StreamInfo>, right: Option<StreamInfo> },
    /// The backends emitted a different number of frames.
    FrameCount { left_backend: BackendKind, right_backend: BackendKind, left: usize, right: usize },
    /// A specific frame differed.
    Frame { frame_index: usize, mismatch: FrameMismatch },
    /// A parser/decode progress field differed.
    ProgressField { left_backend: BackendKind, right_backend: BackendKind, field: &'static str, left: String, right: String },
    /// The backends stopped at different packets or with different terminal errors.
    TerminalState {
        left_backend: BackendKind,
        right_backend: BackendKind,
        left_packet: Option<usize>,
        right_packet: Option<usize>,
        left_error: Option<String>,
        right_error: Option<String>,
    },
}

/// A frame mismatch with its texts taken by their characters.
pub enum FrameMismatchView {
    Metadata { field: Seq<char>, left: Seq<char>, right: Seq<char> },
    PlaneLayout { plane: usize, left_len: Option<usize>, right_len: Option<usize>, left_stride: usize, right_stride: usize },
    PlaneByte { plane: usize, byte_index: usize, left: u8, right: u8 },
}

/// A decode mismatch with its texts taken by their characters.
pub enum DecodeMismatchView {
    StreamInfo { left_backend: BackendKind, right_backend: BackendKind, left: Option<StreamInfo>, right: Option<StreamInfo> },
    FrameCount { left_backend: BackendKind, right_backend: BackendKind, left: usize, right: usize },
    Frame { frame_index: usize, mismatch: FrameMismatchView },
    ProgressField { left_backend: BackendKind, right_backend: BackendKind, field: Seq<char>, left: Seq<char>, right: Seq<char> },
    TerminalState {
        left_backend: BackendKind,
        right_backend: BackendKind,
        left_packet: Option<usize>,
        right_packet: Option<usize>,
        left_error: Option<Seq<char>>,
        right_error: Option<Seq<char>>,
    },
}

/// The characters of an optional text.
pub open spec fn opt_text(o: Option<String>) -> Option<Seq<char>> {
    match o {
        Some(s) => Some(s@),
        None => None,
    }
}

impl View for FrameMismatch {
    type V = FrameMismatchView;

    open spec fn view(&self) -> FrameMismatchView {
        match self {
            FrameMismatch::Metadata { field, left, right } => FrameMismatchView::Metadata { field: field@, left: left@, right: right@ },
            FrameMismatch::PlaneLayout { plane, left_len, right_len, left_stride, right_stride } => FrameMismatchView::PlaneLayout {
                plane: *plane,
                left_len: *left_len,
                right_len: *right_len,
                left_stride: *left_stride,
                right_stride: *right_stride,
            },
            FrameMismatch::PlaneByte { plane, byte_index, left, right } => FrameMismatchView::PlaneByte {
                plane: *plane,
                byte_index: *byte_index,
                left: *left,
                right: *right,
            },
        }
    }
}

impl View for DecodeMismatch {
    type V = DecodeMismatchView;

    open spec fn view(&self) -> DecodeMismatchView {
        match self {
            DecodeMismatch::StreamInfo { left_backend, right_backend, left, right } => DecodeMismatchView::StreamInfo {
                left_backend: *left_backend,
                right_backend: *right_backend,
                left: *left,
                right: *right,
            },
            DecodeMismatch::FrameCount { left_backend, right_backend, left, right } => DecodeMismatchView::FrameCount {
                left_backend: *left_backend,
                right_backend: *right_backend,
                left: *left,
                right: *right,
            },
            DecodeMismatch::Frame { frame_index, mismatch } => DecodeMismatchView::Frame { frame_index: *frame_index, mismatch: mismatch@ },
            DecodeMismatch::ProgressField { left_backend, right_backend, field, left, right } => DecodeMismatchView::ProgressField {
                left_backend: *left_backend,
                right_backend: *right_backend,
                field: field@,
                left: left@,
                right: right@,
            },
            DecodeMismatch::TerminalState { left_backend, right_backend, left_packet, right_packet, left_error, right_error } =>
                DecodeMismatchView::TerminalState {
                    left_backend: *left_backend,
                    right_backend: *right_backend,
                    left_packet: *left_packet,
                    right_packet: *right_packet,
                    left_error: opt_text(*left_error),
                    right_error: opt_text(*right_error),
                },
        }
    }
}

/// A metadata mismatch on `field` when the two values differ.
pub open spec fn spec_field_diff<T: FieldValue>(field: Seq<char>, left: T, right: T) -> Option<FrameMismatchView> {
    if left == right {
        None
    } else {
        Some(FrameMismatchView::Metadata { field, left: left.spec_text(), right: right.spec_text() })
    }
}

/// The first index at which `a` and `b` differ, among the first `a.len()`.
pub open spec fn spec_first_diff(a: Seq<u8>, b: Seq<u8>) -> Option<int> {
    if exists|i: int| 0 <= i < a.len() && a[i] != b[i] {
        Some(choose|i: int| 0 <= i < a.len() && a[i] != b[i] && forall|j: int| 0 <= j < i ==> a[j] == b[j])
    } else {
        None
    }
}

/// The mismatch on plane `p` of two frames, if any: a plane present on one side only, a
/// different length or stride, or the first differing byte.
pub open spec fn spec_plane_diff(l: OwnedFrame, r: OwnedFrame, p: int) -> Option<FrameMismatchView> {
    let lp = l.planes[p];
    let rp = r.planes[p];
    if lp.len() == 0 || rp.len() == 0 {
        if (lp.len() == 0) != (rp.len() == 0) {
            Some(FrameMismatchView::PlaneLayout {
                plane: p as usize,
                left_len: if lp.len() == 0 { None } else { Some(lp.len()) },
                right_len: if rp.len() == 0 { None } else { Some(rp.len()) },
                left_stride: l.strides[p],
                right_stride: r.strides[p],
            })
        } else {
            None
        }
    } else if lp.len() != rp.len() || l.strides[p] != r.strides[p] {
        Some(FrameMismatchView::PlaneLayout {
            plane: p as usize,
            left_len: Some(lp.len()),
            right_len: Some(rp.len()),
            left_stride: l.strides[p],
            right_stride: r.strides[p],
        })
    } else {
        match spec_first_diff(lp@, rp@) {
            Some(i) => Some(FrameMismatchView::PlaneByte { plane: p as usize, byte_index: i as usize, left: lp@[i], right: rp@[i] }),
            None => None,
        }
    }
}

/// The first plane mismatch among planes `p` to 2.
pub open spec fn spec_planes_diff(l: OwnedFrame, r: OwnedFrame, p: int) -> Option<FrameMismatchView>
    decreases 3 - p,
{
    if p >= 3 || p < 0 {
        None
    } else {
        match spec_plane_diff(l, r, p) {
            Some(m) => Some(m),
            None => spec_planes_diff(l, r, p + 1),
        }
    }
}

/// The first difference between two frames: metadata in declaration order, then the planes.
pub open spec fn spec_frame_diff(l: OwnedFrame, r: OwnedFrame) -> Option<FrameMismatchView> {
    if l.width != r.width {
        spec_field_diff("width"@, l.width, r.width)
    } else if l.height != r.height {
        spec_field_diff("height"@, l.height, r.height)
    } else if l.bit_depth != r.bit_depth {
        spec_field_diff("bit_depth"@, l.bit_depth, r.bit_depth)
    } else if l.format != r.format {
        spec_field_diff("format"@, l.format, r.format)
    } else if l.format_raw != r.format_raw {
        spec_field_diff("format_raw"@, l.format_raw, r.format_raw)
    } else if l.color_range != r.color_range {
        spec_field_diff("color_range"@, l.color_range, r.color_range)
    } else if l.chroma_sample_position != r.chroma_sample_position {
        spec_field_diff("chroma_sample_position"@, l.chroma_sample_position, r.chroma_sample_position)
    } else if l.monochrome != r.monochrome {
        spec_field_diff("monochrome"@, l.monochrome, r.monochrome)
    } else if l.bytes_per_sample != r.bytes_per_sample {
        spec_field_diff("bytes_per_sample"@, l.bytes_per_sample, r.bytes_per_sample)
    } else {
        spec_planes_diff(l, r, 0)
    }
}

/// The first frame mismatch among frames `i` onwards of two equally long frame lists.
pub open spec fn spec_frames_diff(a: Seq<OwnedFrame>, b: Seq<OwnedFrame>, i: int) -> Option<DecodeMismatchView>
    decreases a.len() - i,
{
    if i >= a.len() || i < 0 {
        None
    } else {
        match spec_frame_diff(a[i], b[i]) {
            Some(m) => Some(DecodeMismatchView::Frame { frame_index: i as usize, mismatch: m }),
            None => spec_frames_diff(a, b, i + 1),
        }
    }
}

/// The first difference between two snapshots: stream information, frame count, then frames.
pub open spec fn spec_snapshot_diff(l: DecodeSnapshot, r: DecodeSnapshot) -> Option<DecodeMismatchView> {
    if l.stream_info != r.stream_info {
        Some(DecodeMismatchView::StreamInfo { left_backend: l.backend, right_backend: r.backend, left: l.stream_info, right: r.stream_info })
    } else if l.frames.len() != r.frames.len() {
        Some(DecodeMismatchView::FrameCount { left_backend: l.backend, right_backend: r.backend, left: l.frames.len(), right: r.frames.len() })
    } else {
        spec_frames_diff(l.frames@, r.frames@, 0)
    }
}

/// A progress-field mismatch on `field` when the two values differ.
pub open spec fn spec_progress_field_diff<T: FieldValue>(lb: BackendKind, rb: BackendKind, field: Seq<char>, left: T, right: T)
    -> Option<DecodeMismatchView> {
    if left == right {
        None
    } else {
        Some(DecodeMismatchView::ProgressField { left_backend: lb, right_backend: rb, field, left: left.spec_text(), right: right.spec_text() })
    }
}

/// A progress-field mismatch on `field` when both values are present and differ.
pub open spec fn spec_optional_field_diff<T: FieldValue>(lb: BackendKind, rb: BackendKind, field: Seq<char>, left: Option<T>, right: Option<T>)
    -> Option<DecodeMismatchView> {
    match (left, right) {
        (Some(a), Some(b)) => spec_progress_field_diff(lb, rb, field, a, b),
        _ => None,
    }
}

/// The first differing field of two progress reports, in declaration order.
pub open spec fn spec_progress_diff(lb: BackendKind, rb: BackendKind, l: DecodeProgress, r: DecodeProgress) -> Option<DecodeMismatchView> {
    if l.backend != r.backend {
        spec_progress_field_diff(lb, rb, "backend"@, l.backend, r.backend)
    } else if l.packets_parsed != r.packets_parsed {
        spec_progress_field_diff(lb, rb, "packets_parsed"@, l.packets_parsed, r.packets_parsed)
    } else if l.obus_parsed != r.obus_parsed {
        spec_progress_field_diff(lb, rb, "obus_parsed"@, l.obus_parsed, r.obus_parsed)
    } else if l.frame_packets_seen != r.frame_packets_seen {
        spec_progress_field_diff(lb, rb, "frame_packets_seen"@, l.frame_packets_seen, r.frame_packets_seen)
    } else if l.sequence_header != r.sequence_header {
        spec_progress_field_diff(lb, rb, "sequence_header"@, l.sequence_header, r.sequence_header)
    } else if l.stream_info != r.stream_info {
        spec_progress_field_diff(lb, rb, "stream_info"@, l.stream_info, r.stream_info)
    } else if l.last_frame_packet_kind != r.last_frame_packet_kind {
        spec_progress_field_diff(lb, rb, "last_frame_packet_kind"@, l.last_frame_packet_kind, r.last_frame_packet_kind)
    } else if l.last_frame_header != r.last_frame_header {
        spec_progress_field_diff(lb, rb, "last_frame_header"@, l.last_frame_header, r.last_frame_header)
    } else if l.last_event != r.last_event {
        spec_progress_field_diff(lb, rb, "last_event"@, l.last_event, r.last_event)
    } else {
        spec_progress_field_diff(lb, rb, "recent_events"@, l.recent_events, r.recent_events)
    }
}

/// The first differing field of two progress reports among the fields both sides report.
pub open spec fn spec_progress_overlap_diff(lb: BackendKind, rb: BackendKind, l: DecodeProgress, r: DecodeProgress)
    -> Option<DecodeMismatchView> {
    if spec_optional_field_diff(lb, rb, "packets_parsed"@, l.packets_parsed, r.packets_parsed) is Some {
        spec_optional_field_diff(lb, rb, "packets_parsed"@, l.packets_parsed, r.packets_parsed)
    } else if spec_optional_field_diff(lb, rb, "obus_parsed"@, l.obus_parsed, r.obus_parsed) is Some {
        spec_optional_field_diff(lb, rb, "obus_parsed"@, l.obus_parsed, r.obus_parsed)
    } else if spec_optional_field_diff(lb, rb, "frame_packets_seen"@, l.frame_packets_seen, r.frame_packets_seen) is Some {
        spec_optional_field_diff(lb, rb, "frame_packets_seen"@, l.frame_packets_seen, r.frame_packets_seen)
    } else if spec_optional_field_diff(lb, rb, "sequence_header"@, l.sequence_header, r.sequence_header) is Some {
        spec_optional_field_diff(lb, rb, "sequence_header"@, l.sequence_header, r.sequence_header)
    } else if spec_optional_field_diff(lb, rb, "stream_info"@, l.stream_info, r.stream_info) is Some {
        spec_optional_field_diff(lb, rb, "stream_info"@, l.stream_info, r.stream_info)
    } else if spec_optional_field_diff(lb, rb, "last_frame_packet_kind"@, l.last_frame_packet_kind, r.last_frame_packet_kind) is Some {
        spec_optional_field_diff(lb, rb, "last_frame_packet_kind"@, l.last_frame_packet_kind, r.last_frame_packet_kind)
    } else if spec_optional_field_diff(lb, rb, "last_frame_header"@, l.last_frame_header, r.last_frame_header) is Some {
        spec_optional_field_diff(lb, rb, "last_frame_header"@, l.last_frame_header, r.last_frame_header)
    } else {
        spec_optional_field_diff(lb, rb, "last_event"@, l.last_event, r.last_event)
    }
}

/// The first difference between two outcomes: the snapshots, the terminal state (stop packet
/// and error text), then every progress field.
pub open spec fn spec_outcome_diff(l: DecodeOutcome, r: DecodeOutcome) -> Option<DecodeMismatchView> {
    if spec_snapshot_diff(l.snapshot, r.snapshot) is Some {
        spec_snapshot_diff(l.snapshot, r.snapshot)
    } else if l.stopped_at_packet != r.stopped_at_packet || opt_text(l.terminal_error) != opt_text(r.terminal_error) {
        Some(DecodeMismatchView::TerminalState {
            left_backend: l.snapshot.backend,
            right_backend: r.snapshot.backend,
            left_packet: l.stopped_at_packet,
            right_packet: r.stopped_at_packet,
            left_error: opt_text(l.terminal_error),
            right_error: opt_text(r.terminal_error),
        })
    } else {
        spec_progress_diff(l.snapshot.backend, r.snapshot.backend, l.snapshot.progress, r.snapshot.progress)
    }
}

/// The difference between two snapshots on what both report: stream information when both
/// have it, and the full snapshot comparison when both have frames.
pub open spec fn spec_snapshot_overlap_diff(l: DecodeSnapshot, r: DecodeSnapshot) -> Option<DecodeMismatchView> {
    if l.stream_info is Some && r.stream_info is Some && l.stream_info != r.stream_info {
        Some(DecodeMismatchView::StreamInfo { left_backend: l.backend, right_backend: r.backend, left: l.stream_info, right: r.stream_info })
    } else if l.frames.len() > 0 && r.frames.len() > 0 {
        spec_snapshot_diff(l, r)
    } else {
        None
    }
}

/// The difference between two outcomes on what both report: the snapshot overlap, the stop
/// packet when both stopped, then the progress fields both report.
pub open spec fn spec_outcome_overlap_diff(l: DecodeOutcome, r: DecodeOutcome) -> Option<DecodeMismatchView> {
    if spec_snapshot_overlap_diff(l.snapshot, r.snapshot) is Some {
        spec_snapshot_overlap_diff(l.snapshot, r.snapshot)
    } else if spec_optional_field_diff(l.snapshot.backend, r.snapshot.backend, "stopped_at_packet"@, l.stopped_at_packet, r.stopped_at_packet) is Some {
        spec_optional_field_diff(l.snapshot.backend, r.snapshot.backend, "stopped_at_packet"@, l.stopped_at_packet, r.stopped_at_packet)
    } else {
        spec_progress_overlap_diff(l.snapshot.backend, r.snapshot.backend, l.snapshot.progress, r.snapshot.progress)
    }
}

/// Frames that hold the same picture show no difference.
proof fn lemma_same_frame_no_diff(l: OwnedFrame, r: OwnedFrame)
    requires
        spec_same_owned(l, r),
    ensures
        spec_frame_diff(l, r) is None,
{
    assert forall|p: int| 0 <= p < 3 implies spec_plane_diff(l, r, p) is None by {
        let a = l.planes[p]@;
        assert(a == r.planes[p]@);
        assert(!(exists|i: int| 0 <= i < a.len() && a[i] != r.planes[p]@[i]));
    }
    assert(spec_plane_diff(l, r, 2) is None);
    assert(spec_planes_diff(l, r, 3) is None);
    assert(spec_planes_diff(l, r, 2) is None);
    assert(spec_plane_diff(l, r, 1) is None);
    assert(spec_planes_diff(l, r, 1) is None);
    assert(spec_plane_diff(l, r, 0) is None);
    assert(spec_planes_diff(l, r, 0) is None);
}

/// Frames that show no difference are equal in every metadata field and in the contents of
/// every plane, and each plane that holds bytes has the same stride on both sides (an empty
/// plane reports no stride, so its stride is not compared).
pub proof fn lemma_no_frame_diff_means_equal(l: OwnedFrame, r: OwnedFrame)
    requires
        spec_frame_diff(l, r) is None,
    ensures
        l.width == r.width,
        l.height == r.height,
        l.bit_depth == r.bit_depth,
        l.format == r.format,
        l.format_raw == r.format_raw,
        l.color_range == r.color_range,
        l.chroma_sample_position == r.chroma_sample_position,
        l.monochrome == r.monochrome,
        l.bytes_per_sample == r.bytes_per_sample,
        forall|p: int| 0 <= p < 3 ==> (#[trigger] l.planes[p])@ == r.planes[p]@
            && (l.planes[p]@.len() > 0 ==> l.strides[p] == r.strides[p]),
{
    assert(l.width == r.width);
    assert(l.height == r.height);
    assert(l.bit_depth == r.bit_depth);
    assert(l.format == r.format);
    assert(l.format_raw == r.format_raw);
    assert(l.color_range == r.color_range);
    assert(l.chroma_sample_position == r.chroma_sample_position);
    assert(l.monochrome == r.monochrome);
    assert(l.bytes_per_sample == r.bytes_per_sample);
    assert(spec_planes_diff(l, r, 0) is None);
    assert(spec_plane_diff(l, r, 0) is None);
    assert(spec_planes_diff(l, r, 1) is None);
    assert(spec_plane_diff(l, r, 1) is None);
    assert(spec_planes_diff(l, r, 2) is None);
    assert(spec_plane_diff(l, r, 2) is None);
    assert forall|p: int| 0 <= p < 3 implies (#[trigger] l.planes[p])@ == r.planes[p]@
        && (l.planes[p]@.len() > 0 ==> l.strides[p] == r.strides[p]) by {
        let a = l.planes[p]@;
        let b = r.planes[p]@;
        assert(spec_plane_diff(l, r, p) is None);
        if a.len() > 0 {
            assert(a.len() == b.len());
            assert forall|i: int| 0 <= i < a.len() implies a[i] == b[i] by {
                if a[i] != b[i] {
                    assert(exists|j: int| 0 <= j < a.len() && a[j] != b[j]);
                }
            }
            assert(a =~= b);
        } else {
            assert(b.len() == 0);
            assert(a =~= b);
        }
    }
}

/// A frame compared with itself shows no difference.
pub proof fn lemma_frame_diff_reflexive(f: OwnedFrame)
    ensures
        spec_frame_diff(f, f) is None,
{
    lemma_same_frame_no_diff(f, f);
}

/// Frame lists that hold the same pictures show no difference from any index on.
proof fn lemma_same_frames_no_diff(a: Seq<OwnedFrame>, b: Seq<OwnedFrame>, i: int)
    requires
        0 <= i,
        spec_same_frames(a, b),
    ensures
        spec_frames_diff(a, b, i) is None,
    decreases a.len() - i,
{
    if i < a.len() {
        lemma_same_frame_no_diff(a[i], b[i]);
        lemma_same_frames_no_diff(a, b, i + 1);
    }
}

/// Frame lists compared with themselves from any index on show no difference.
proof fn lemma_frames_diff_reflexive(a: Seq<OwnedFrame>, i: int)
    requires
        0 <= i,
    ensures
        spec_frames_diff(a, a, i) is None,
{
    lemma_same_frames_no_diff(a, a, i);
}

/// A snapshot compared with itself shows no difference.
pub proof fn lemma_snapshot_diff_reflexive(s: DecodeSnapshot)
    ensures
        spec_snapshot_diff(s, s) is None,
{
    lemma_frames_diff_reflexive(s.frames@, 0);
}

/// An outcome compared with itself shows no difference, in full or on the overlap.
pub proof fn lemma_outcome_diff_reflexive(o: DecodeOutcome)
    ensures
        spec_outcome_diff(o, o) is None,
        spec_outcome_overlap_diff(o, o) is None,
{
    lemma_snapshot_diff_reflexive(o.snapshot);
}

/// A progress field that shows no difference holds the same value on both sides.
proof fn lemma_field_match<T: FieldValue>(lb: BackendKind, rb: BackendKind, field: Seq<char>, left: T, right: T)
    requires
        spec_progress_field_diff(lb, rb, field, left, right) is None,
    ensures
        left == right,
{
}

/// An optional progress field with the same value on both sides shows no difference.
proof fn lemma_optional_field_same<T: FieldValue>(lb: BackendKind, rb: BackendKind, field: Seq<char>, v: Option<T>)
    ensures
        spec_optional_field_diff(lb, rb, field, v, v) is None,
{
}

/// Progress reports with no differing field show no difference on the fields both report.
#[verifier::rlimit(60)]
proof fn lemma_progress_match_implies_overlap(lb: BackendKind, rb: BackendKind, l: DecodeProgress, r: DecodeProgress)
    requires
        spec_progress_diff(lb, rb, l, r) is None,
    ensures
        spec_progress_overlap_diff(lb, rb, l, r) is None,
{
    assert(l == r) by {
        if l.backend != r.backend {
            lemma_field_match(lb, rb, "backend"@, l.backend, r.backend);
        } else if l.packets_parsed != r.packets_parsed {
            lemma_field_match(lb, rb, "packets_parsed"@, l.packets_parsed, r.packets_parsed);
        } else if l.obus_parsed != r.obus_parsed {
            lemma_field_match(lb, rb, "obus_parsed"@, l.obus_parsed, r.obus_parsed);
        } else if l.frame_packets_seen != r.frame_packets_seen {
            lemma_field_match(lb, rb, "frame_packets_seen"@, l.frame_packets_seen, r.frame_packets_seen);
        } else if l.sequence_header != r.sequence_header {
            lemma_field_match(lb, rb, "sequence_header"@, l.sequence_header, r.sequence_header);
        } else if l.stream_info != r.stream_info {
            lemma_field_match(lb, rb, "stream_info"@, l.stream_info, r.stream_info);
        } else if l.last_frame_packet_kind != r.last_frame_packet_kind {
            lemma_field_match(lb, rb, "last_frame_packet_kind"@, l.last_frame_packet_kind, r.last_frame_packet_kind);
        } else if l.last_frame_header != r.last_frame_header {
            lemma_field_match(lb, rb, "last_frame_header"@, l.last_frame_header, r.last_frame_header);
        } else if l.last_event != r.last_event {
            lemma_field_match(lb, rb, "last_event"@, l.last_event, r.last_event);
        } else {
            lemma_field_match(lb, rb, "recent_events"@, l.recent_events, r.recent_events);
        }
    }
    lemma_optional_field_same(lb, rb, "packets_parsed"@, l.packets_parsed);
    lemma_optional_field_same(lb, rb, "obus_parsed"@, l.obus_parsed);
    lemma_optional_field_same(lb, rb, "frame_packets_seen"@, l.frame_packets_seen);
    lemma_optional_field_same(lb, rb, "sequence_header"@, l.sequence_header);
    lemma_optional_field_same(lb, rb, "stream_info"@, l.stream_info);
    lemma_optional_field_same(lb, rb, "last_frame_packet_kind"@, l.last_frame_packet_kind);
    lemma_optional_field_same(lb, rb, "last_frame_header"@, l.last_frame_header);
    lemma_optional_field_same(lb, rb, "last_event"@, l.last_event);
}

/// Outcomes that match in full also match on what both report: a full comparison that finds
/// no difference implies an overlap comparison that finds none.
pub proof fn lemma_outcome_match_implies_overlap_match(l: DecodeOutcome, r: DecodeOutcome)
    requires
        spec_outcome_diff(l, r) is None,
    ensures
        spec_outcome_overlap_diff(l, r) is None,
{
    assert(spec_snapshot_diff(l.snapshot, r.snapshot) is None);
    assert(l.snapshot.stream_info == r.snapshot.stream_info);
    assert(spec_snapshot_overlap_diff(l.snapshot, r.snapshot) is None);
    assert(l.stopped_at_packet == r.stopped_at_packet);
    lemma_progress_match_implies_overlap(l.snapshot.backend, r.snapshot.backend, l.snapshot.progress, r.snapshot.progress);
}

/// Compare one metadata field of two frames.
fn compare_field<T: FieldValue>(field: &'static str, left: T, right: T) -> (r: Result<(), FrameMismatch>)
    ensures
        match spec_field_diff(field@, left, right) {
            None => r is Ok,
            Some(m) => r matches Err(e) && e@ == m,
        },
{
    if left.same(&right) {
        Ok(())
    } else {
        Err(FrameMismatch::Metadata { field, left: left.text(), right: right.text() })
    }
}

/// The first index below `a.len()` at which `a` and `b` differ.
fn first_diff(a: &[u8], b: &[u8]) -> (r: Option<usize>)
    requires
        a@.len() == b@.len(),
    ensures
        match spec_first_diff(a@, b@) {
            None => r is None,
            Some(i) => r == Some(i as usize) && 0 <= i < a@.len(),
        },
{
    let n = a.len();
    let mut i: usize = 0;
    while i < n
        invariant
            n == a@.len(),
            a@.len() == b@.len(),
            i <= n,
            forall|j: int| 0 <= j < i ==> a@[j] == b@[j],
        decreases n - i,
    {
        if a[i] != b[i] {
            proof {
                let p = |k: int| 0 <= k < a@.len() && a@[k] != b@[k] && forall|j: int| 0 <= j < k ==> a@[j] == b@[j];
                assert(p(i as int));
                let c = choose|k: int| 0 <= k < a@.len() && a@[k] != b@[k] && forall|j: int| 0 <= j < k ==> a@[j] == b@[j];
                assert(p(c));
                if c < i {
                    assert(a@[c] == b@[c]);
                } else if c > i {
                    assert(a@[i as int] == b@[i as int]);
                }
            }
            return Some(i);
        }
        i = i + 1;
    }
    None
}

/// Compare two owned frames for exact equality: metadata first, then each plane's layout and bytes.
pub fn compare_frames(left: &OwnedFrame, right: &OwnedFrame) -> (r: Result<(), FrameMismatch>)
    ensures
        match spec_frame_diff(*left, *right) {
            None => r is Ok,
            Some(m) => r matches Err(e) && e@ == m,
        },
        r is Ok ==> left.width == right.width && left.height == right.height && left.bit_depth == right.bit_depth
            && left.format == right.format && left.format_raw == right.format_raw && left.color_range == right.color_range
            && left.chroma_sample_position == right.chroma_sample_position && left.monochrome == right.monochrome
            && left.bytes_per_sample == right.bytes_per_sample
            && forall|p: int| 0 <= p < 3 ==> (#[trigger] left.planes[p])@ == right.planes[p]@
                && (left.planes[p]@.len() > 0 ==> left.strides[p] == right.strides[p]),
{
    if let Err(e) = compare_field("width", left.width, right.width) {
        return Err(e);
    }
    if let Err(e) = compare_field("height", left.height, right.height) {
        return Err(e);
    }
    if let Err(e) = compare_field("bit_depth", left.bit_depth, right.bit_depth) {
        return Err(e);
    }
    if let Err(e) = compare_field("format", left.format, right.format) {
        return Err(e);
    }
    if let Err(e) = compare_field("format_raw", left.format_raw, right.format_raw) {
        return Err(e);
    }
    if let Err(e) = compare_field("color_range", left.color_range, right.color_range) {
        return Err(e);
    }
    if let Err(e) = compare_field("chroma_sample_position", left.chroma_sample_position, right.chroma_sample_position) {
        return Err(e);
    }
    if let Err(e) = compare_field("monochrome", left.monochrome, right.monochrome) {
        return Err(e);
    }
    if let Err(e) = compare_field("bytes_per_sample", left.bytes_per_sample, right.bytes_per_sample) {
        return Err(e);
    }
    let mut plane: usize = 0;
    while plane < 3
        invariant
            plane <= 3,
            spec_frame_diff(*left, *right) == spec_planes_diff(*left, *right, 0),
            spec_planes_diff(*left, *right, 0) == spec_planes_diff(*left, *right, plane as int),
        decreases 3 - plane,
    {
        let lp = left.plane(plane);
        let rp = right.plane(plane);
        let ls = left.strides[plane];
        let rs = right.strides[plane];
        match (lp, rp) {
            (Some(a), Some(b)) => {
                if a.len() != b.len() || ls != rs {
                    return Err(FrameMismatch::PlaneLayout { plane, left_len: Some(a.len()), right_len: Some(b.len()), left_stride: ls, right_stride: rs });
                }
                match first_diff(a, b) {
                    Some(i) => {
                        return Err(FrameMismatch::PlaneByte { plane, byte_index: i, left: a[i], right: b[i] });
                    },
                    None => {},
                }
            },
            (None, None) => {},
            (Some(a), None) => {
                return Err(FrameMismatch::PlaneLayout { plane, left_len: Some(a.len()), right_len: None, left_stride: ls, right_stride: rs });
            },
            (None, Some(b)) => {
                return Err(FrameMismatch::PlaneLayout { plane, left_len: None, right_len: Some(b.len()), left_stride: ls, right_stride: rs });
            },
        }
        plane = plane + 1;
    }
    proof {
        assert(spec_frame_diff(*left, *right) is None);
        lemma_no_frame_diff_means_equal(*left, *right);
    }
    Ok(())
}

/// Compare two decode snapshots for exact equality.
pub fn compare_snapshots(left: &DecodeSnapshot, right: &DecodeSnapshot) -> (r: Result<(), DecodeMismatch>)
    ensures
        match spec_snapshot_diff(*left, *right) {
            None => r is Ok,
            Some(m) => r matches Err(e) && e@ == m,
        },
{
    if !left.stream_info.same(&right.stream_info) {
        return Err(DecodeMismatch::StreamInfo {
            left_backend: left.backend,
            right_backend: right.backend,
            left: left.stream_info,
            right: right.stream_info,
        });
    }
    if left.frames.len() != right.frames.len() {
        return Err(DecodeMismatch::FrameCount {
            left_backend: left.backend,
            right_backend: right.backend,
            left: left.frames.len(),
            right: right.frames.len(),
        });
    }
    let n = left.frames.len();
    let mut i: usize = 0;
    while i < n
        invariant
            n == left.frames@.len(),
            n == right.frames@.len(),
            i <= n,
            spec_snapshot_diff(*left, *right) == spec_frames_diff(left.frames@, right.frames@, 0),
            spec_frames_diff(left.frames@, right.frames@, 0) == spec_frames_diff(left.frames@, right.frames@, i as int),
        decreases n - i,
    {
        match compare_frames(&left.frames[i], &right.frames[i]) {
            Ok(()) => {},
            Err(mismatch) => {
                return Err(DecodeMismatch::Frame { frame_index: i, mismatch });
            },
        }
        i = i + 1;
    }
    Ok(())
}

/// Compare one progress field of two backends.
fn compare_progress_field<T: FieldValue>(left_backend: BackendKind, right_backend: BackendKind, field: &'static str, left: T, right: T)
    -> (r: Result<(), DecodeMismatch>)
    ensures
        match spec_progress_field_diff(left_backend, right_backend, field@, left, right) {
            None => r is Ok,
            Some(m) => r matches Err(e) && e@ == m,
        },
{
    if left.same(&right) {
        Ok(())
    } else {
        Err(DecodeMismatch::ProgressField { left_backend, right_backend, field, left: left.text(), right: right.text() })
    }
}

/// Compare one progress field only when both backends report it.
fn compare_optional_progress_field<T: FieldValue>(
    left_backend: BackendKind,
    right_backend: BackendKind,
    field: &'static str,
    left: Option<T>,
    right: Option<T>,
) -> (r: Result<(), DecodeMismatch>)
    ensures
        match spec_optional_field_diff(left_backend, right_backend, field@, left, right) {
            None => r is Ok,
            Some(m) => r matches Err(e) && e@ == m,
        },
{
    match (left, right) {
        (Some(a), Some(b)) => compare_progress_field(left_backend, right_backend, field, a, b),
        _ => Ok(()),
    }
}

/// Compare every progress field of two backends, in declaration order.
fn compare_progress(left_backend: BackendKind, right_backend: BackendKind, left: &DecodeProgress, right: &DecodeProgress)
    -> (r: Result<(), DecodeMismatch>)
    ensures
        match spec_progress_diff(left_backend, right_backend, *left, *right) {
            None => r is Ok,
            Some(m) => r matches Err(e) && e@ == m,
        },
{
    let (lb, rb) = (left_backend, right_backend);
    if let Err(e) = compare_progress_field(lb, rb, "backend", left.backend, right.backend) {
        return Err(e);
    }
    if let Err(e) = compare_progress_field(lb, rb, "packets_parsed", left.packets_parsed, right.packets_parsed) {
        return Err(e);
    }
    if let Err(e) = compare_progress_field(lb, rb, "obus_parsed", left.obus_parsed, right.obus_parsed) {
        return Err(e);
    }
    if let Err(e) = compare_progress_field(lb, rb, "frame_packets_seen", left.frame_packets_seen, right.frame_packets_seen) {
        return Err(e);
    }
    if let Err(e) = compare_progress_field(lb, rb, "sequence_header", left.sequence_header, right.sequence_header) {
        return Err(e);
    }
    if let Err(e) = compare_progress_field(lb, rb, "stream_info", left.stream_info, right.stream_info) {
        return Err(e);
    }
    if let Err(e) = compare_progress_field(lb, rb, "last_frame_packet_kind", left.last_frame_packet_kind, right.last_frame_packet_kind) {
        return Err(e);
    }
    if let Err(e) = compare_progress_field(lb, rb, "last_frame_header", left.last_frame_header, right.last_frame_header) {
        return Err(e);
    }
    if let Err(e) = compare_progress_field(lb, rb, "last_event", left.last_event, right.last_event) {
        return Err(e);
    }
    compare_progress_field(lb, rb, "recent_events", left.recent_events, right.recent_events)
}

/// Compare the progress fields that both backends report.
fn compare_progress_overlap(left_backend: BackendKind, right_backend: BackendKind, left: &DecodeProgress, right: &DecodeProgress)
    -> (r: Result<(), DecodeMismatch>)
    ensures
        match spec_progress_overlap_diff(left_backend, right_backend, *left, *right) {
            None => r is Ok,
            Some(m) => r matches Err(e) && e@ == m,
        },
{
    let (lb, rb) = (left_backend, right_backend);
    if let Err(e) = compare_optional_progress_field(lb, rb, "packets_parsed", left.packets_parsed, right.packets_parsed) {
        return Err(e);
    }
    if let Err(e) = compare_optional_progress_field(lb, rb, "obus_parsed", left.obus_parsed, right.obus_parsed) {
        return Err(e);
    }
    if let Err(e) = compare_optional_progress_field(lb, rb, "frame_packets_seen", left.frame_packets_seen, right.frame_packets_seen) {
        return Err(e);
    }
    if let Err(e) = compare_optional_progress_field(lb, rb, "sequence_header", left.sequence_header, right.sequence_header) {
        return Err(e);
    }
    if let Err(e) = compare_optional_progress_field(lb, rb, "stream_info", left.stream_info, right.stream_info) {
        return Err(e);
    }
    if let Err(e) = compare_optional_progress_field(lb, rb, "last_frame_packet_kind", left.last_frame_packet_kind, right.last_frame_packet_kind) {
        return Err(e);
    }
    if let Err(e) = compare_optional_progress_field(lb, rb, "last_frame_header", left.last_frame_header, right.last_frame_header) {
        return Err(e);
    }
    compare_optional_progress_field(lb, rb, "last_event", left.last_event, right.last_event)
}

/// Whether two optional texts are equal.
fn same_text(a: &Option<String>, b: &Option<String>) -> (r: bool)
    ensures
        r == (opt_text(*a) == opt_text(*b)),
{
    match (a, b) {
        (Some(x), Some(y)) => x.eq(y),
        (None, None) => true,
        _ => false,
    }
}

/// A copy of an optional text.
fn copy_text(a: &Option<String>) -> (r: Option<String>)
    ensures
        opt_text(r) == opt_text(*a),
{
    match a {
        Some(x) => Some(x.clone()),
        None => None,
    }
}

/// Compare two decode outcomes: snapshots, then the terminal state, then every progress field.
pub fn compare_outcomes(left: &DecodeOutcome, right: &DecodeOutcome) -> (r: Result<(), DecodeMismatch>)
    ensures
        match spec_outcome_diff(*left, *right) {
            None => r is Ok,
            Some(m) => r matches Err(e) && e@ == m,
        },
{
    if let Err(e) = compare_snapshots(&left.snapshot, &right.snapshot) {
        return Err(e);
    }
    if left.stopped_at_packet != right.stopped_at_packet || !same_text(&left.terminal_error, &right.terminal_error) {
        return Err(DecodeMismatch::TerminalState {
            left_backend: left.snapshot.backend,
            right_backend: right.snapshot.backend,
            left_packet: left.stopped_at_packet,
            right_packet: right.stopped_at_packet,
            left_error: copy_text(&left.terminal_error),
            right_error: copy_text(&right.terminal_error),
        });
    }
    compare_progress(left.snapshot.backend, right.snapshot.backend, &left.snapshot.progress, &right.snapshot.progress)
}

/// Compare two snapshots on what both report.
fn compare_snapshot_overlap(left: &DecodeSnapshot, right: &DecodeSnapshot) -> (r: Result<(), DecodeMismatch>)
    ensures
        match spec_snapshot_overlap_diff(*left, *right) {
            None => r is Ok,
            Some(m) => r matches Err(e) && e@ == m,
        },
{
    if let (Some(li), Some(ri)) = (left.stream_info, right.stream_info) {
        if !li.same(&ri) {
            return Err(DecodeMismatch::StreamInfo {
                left_backend: left.backend,
                right_backend: right.backend,
                left: Some(li),
                right: Some(ri),
            });
        }
    }
    if left.frames.len() > 0 && right.frames.len() > 0 {
        return compare_snapshots(left, right);
    }
    Ok(())
}

/// Compare only the overlapping portions of two decode outcomes: a field absent on either
/// side is skipped rather than treated as a mismatch.
pub fn compare_outcome_overlap(left: &DecodeOutcome, right: &DecodeOutcome) -> (r: Result<(), DecodeMismatch>)
    ensures
        match spec_outcome_overlap_diff(*left, *right) {
            None => r is Ok,
            Some(m) => r matches Err(e) && e@ == m,
        },
{
    if let Err(e) = compare_snapshot_overlap(&left.snapshot, &right.snapshot) {
        return Err(e);
    }
    if let Err(e) = compare_optional_progress_field(
        left.snapshot.backend,
        right.snapshot.backend,
        "stopped_at_packet",
        left.stopped_at_packet,
        right.stopped_at_packet,
    ) {
        return Err(e);
    }
    compare_progress_overlap(left.snapshot.backend, right.snapshot.backend, &left.snapshot.progress, &right.snapshot.progress)
}


/// The lowercase hexadecimal digit for `d`, which is below sixteen.
pub open spec fn spec_hex_digit(d: nat) -> char {
    if d < 10 { crate::text::spec_digit(d) } else if d == 10 { 'a' } else if d == 11 { 'b' } else if d == 12 { 'c' }
    else if d == 13 { 'd' } else if d == 14 { 'e' } else { 'f' }
}

/// A byte as `0x` and two lowercase hexadecimal digits.
pub open spec fn spec_hex_byte(v: u8) -> Seq<char> {
    "0x"@ + seq![spec_hex_digit((v / 16) as nat), spec_hex_digit((v % 16) as nat)]
}

pub(crate) fn hex_digit(d: u8) -> (c: char)
    requires
        d < 16,
    ensures
        c == spec_hex_digit(d as nat),
{
    if d == 0 { '0' } else if d == 1 { '1' } else if d == 2 { '2' } else if d == 3 { '3' } else if d == 4 { '4' }
    else if d == 5 { '5' } else if d == 6 { '6' } else if d == 7 { '7' } else if d == 8 { '8' } else if d == 9 { '9' }
    else if d == 10 { 'a' } else if d == 11 { 'b' } else if d == 12 { 'c' } else if d == 13 { 'd' } else if d == 14 { 'e' }
    else { 'f' }
}

pub(crate) fn char_str(c: char) -> (s: &'static str)
    requires
        ('0' <= c <= '9') || ('a' <= c <= 'f'),
    ensures
        s@ == seq![c],
{
    proof {
        reveal_strlit("0"); reveal_strlit("1"); reveal_strlit("2"); reveal_strlit("3"); reveal_strlit("4");
        reveal_strlit("5"); reveal_strlit("6"); reveal_strlit("7"); reveal_strlit("8"); reveal_strlit("9");
        reveal_strlit("a"); reveal_strlit("b"); reveal_strlit("c"); reveal_strlit("d"); reveal_strlit("e");
        reveal_strlit("f");
    }
    if c == '0' { "0" } else if c == '1' { "1" } else if c == '2' { "2" } else if c == '3' { "3" } else if c == '4' { "4" }
    else if c == '5' { "5" } else if c == '6' { "6" } else if c == '7' { "7" } else if c == '8' { "8" } else if c == '9' { "9" }
    else if c == 'a' { "a" } else if c == 'b' { "b" } else if c == 'c' { "c" } else if c == 'd' { "d" } else if c == 'e' { "e" }
    else { "f" }
}

/// A byte as `0x` and two lowercase hexadecimal digits.
fn hex_byte(v: u8) -> (s: String)
    ensures
        s@ == spec_hex_byte(v),
{
    let hi = hex_digit(v / 16);
    let lo = hex_digit(v % 16);
    let mut s = String::from_str("0x");
    s.append(char_str(hi));
    s.append(char_str(lo));
    proof {
        assert(s@ =~= "0x"@ + seq![hi, lo]);
    }
    s
}

/// The debug form of a text as `{:?}` renders it: the text quoted, with quotes, backslashes and
/// other special characters escaped.
pub uninterp spec fn spec_debug_str(s: Seq<char>) -> Seq<char>;

/// The debug form of `s`, from `<str as Debug>::fmt`. The escaping rules of std are not
/// restated: the result is named by `spec_debug_str` and nothing more is claimed of it.
#[verifier::external_body]
fn debug_str(s: &str) -> (r: String)
    ensures
        r@ == spec_debug_str(s@),
{
    format!("{:?}", s)
}

/// The debug form of an optional text: `None` or `Some(` and the quoted text and `)`.
pub open spec fn spec_debug_opt_text(o: Option<Seq<char>>) -> Seq<char> {
    match o {
        None => "None"@,
        Some(s) => "Some("@ + spec_debug_str(s) + ")"@,
    }
}

fn debug_opt_text(o: &Option<String>) -> (r: String)
    ensures
        r@ == spec_debug_opt_text(opt_text(*o)),
{
    match o {
        None => String::from_str("None"),
        Some(s) => {
            let mut r = String::from_str("Some(");
            r.append(debug_str(s.as_str()).as_str());
            r.append(")");
            r
        },
    }
}

impl FrameMismatchView {
    /// The report of the mismatch.
    pub open spec fn spec_message(self) -> Seq<char> {
        match self {
            FrameMismatchView::Metadata { field, left, right } =>
                "metadata field `"@ + field + "` differs: left="@ + left + " right="@ + right,
            FrameMismatchView::PlaneLayout { plane, left_len, right_len, left_stride, right_stride } =>
                "plane "@ + spec_decimal(plane as nat) + " layout differs: left_len="@ + left_len.spec_text() + " right_len="@
                    + right_len.spec_text() + " left_stride="@ + spec_decimal(left_stride as nat) + " right_stride="@
                    + spec_decimal(right_stride as nat),
            FrameMismatchView::PlaneByte { plane, byte_index, left, right } =>
                "plane "@ + spec_decimal(plane as nat) + " differs at byte "@ + spec_decimal(byte_index as nat) + ": left="@
                    + spec_hex_byte(left) + " right="@ + spec_hex_byte(right),
        }
    }
}

impl FrameMismatch {
    /// The human-readable report of the mismatch.
    pub fn message(&self) -> (s: String)
        ensures
            s@ == self@.spec_message(),
    {
        match self {
            FrameMismatch::Metadata { field, left, right } => {
                let mut s = String::from_str("metadata field `");
                s.append(field);
                s.append("` differs: left=");
                s.append(left.as_str());
                s.append(" right=");
                s.append(right.as_str());
                s
            },
            FrameMismatch::PlaneLayout { plane, left_len, right_len, left_stride, right_stride } => {
                let mut s = String::from_str("plane ");
                s.append(plane.text().as_str());
                s.append(" layout differs: left_len=");
                s.append(left_len.text().as_str());
                s.append(" right_len=");
                s.append(right_len.text().as_str());
                s.append(" left_stride=");
                s.append(left_stride.text().as_str());
                s.append(" right_stride=");
                s.append(right_stride.text().as_str());
                s
            },
            FrameMismatch::PlaneByte { plane, byte_index, left, right } => {
                let mut s = String::from_str("plane ");
                s.append(plane.text().as_str());
                s.append(" differs at byte ");
                s.append(byte_index.text().as_str());
                s.append(": left=");
                s.append(hex_byte(*left).as_str());
                s.append(" right=");
                s.append(hex_byte(*right).as_str());
                s
            },
        }
    }
}

impl DecodeMismatchView {
    /// The report of the mismatch.
    pub open spec fn spec_message(self) -> Seq<char> {
        match self {
            DecodeMismatchView::StreamInfo { left_backend, right_backend, left, right } =>
                "stream info mismatch between "@ + left_backend.spec_name() + " and "@ + right_backend.spec_name() + ": left="@
                    + left.spec_text() + " right="@ + right.spec_text(),
            DecodeMismatchView::FrameCount { left_backend, right_backend, left, right } =>
                "frame count mismatch between "@ + left_backend.spec_name() + " and "@ + right_backend.spec_name() + ": left="@
                    + spec_decimal(left as nat) + " right="@ + spec_decimal(right as nat),
            DecodeMismatchView::Frame { frame_index, mismatch } =>
                "frame "@ + spec_decimal(frame_index as nat) + " mismatch: "@ + mismatch.spec_message(),
            DecodeMismatchView::ProgressField { left_backend, right_backend, field, left, right } =>
                "progress field `"@ + field + "` mismatch between "@ + left_backend.spec_name() + " and "@
                    + right_backend.spec_name() + ": left="@ + left + " right="@ + right,
            DecodeMismatchView::TerminalState { left_backend, right_backend, left_packet, right_packet, left_error, right_error } =>
                "terminal state mismatch between "@ + left_backend.spec_name() + " and "@ + right_backend.spec_name()
                    + ": left_packet="@ + left_packet.spec_text() + " right_packet="@ + right_packet.spec_text()
                    + " left_error="@ + spec_debug_opt_text(left_error) + " right_error="@ + spec_debug_opt_text(right_error),
        }
    }
}

impl DecodeMismatch {
    /// The human-readable report of the mismatch.
    pub fn message(&self) -> (s: String)
        ensures
            s@ == self@.spec_message(),
    {
        match self {
            DecodeMismatch::StreamInfo { left_backend, right_backend, left, right } => {
                let mut s = String::from_str("stream info mismatch between ");
                s.append(left_backend.as_str());
                s.append(" and ");
                s.append(right_backend.as_str());
                s.append(": left=");
                s.append(left.text().as_str());
                s.append(" right=");
                s.append(right.text().as_str());
                s
            },
            DecodeMismatch::FrameCount { left_backend, right_backend, left, right } => {
                let mut s = String::from_str("frame count mismatch between ");
                s.append(left_backend.as_str());
                s.append(" and ");
                s.append(right_backend.as_str());
                s.append(": left=");
                s.append(left.text().as_str());
                s.append(" right=");
                s.append(right.text().as_str());
                s
            },
            DecodeMismatch::Frame { frame_index, mismatch } => {
                let mut s = String::from_str("frame ");
                s.append(frame_index.text().as_str());
                s.append(" mismatch: ");
                s.append(mismatch.message().as_str());
                s
            },
            DecodeMismatch::ProgressField { left_backend, right_backend, field, left, right } => {
                let mut s = String::from_str("progress field `");
                s.append(field);
                s.append("` mismatch between ");
                s.append(left_backend.as_str());
                s.append(" and ");
                s.append(right_backend.as_str());
                s.append(": left=");
                s.append(left.as_str());
                s.append(" right=");
                s.append(right.as_str());
                s
            },
            DecodeMismatch::TerminalState { left_backend, right_backend, left_packet, right_packet, left_error, right_error } => {
                let mut s = String::from_str("terminal state mismatch between ");
                s.append(left_backend.as_str());
                s.append(" and ");
                s.append(right_backend.as_str());
                s.append(": left_packet=");
                s.append(left_packet.text().as_str());
                s.append(" right_packet=");
                s.append(right_packet.text().as_str());
                s.append(" left_error=");
                s.append(debug_opt_text(left_error).as_str());
                s.append(" right_error=");
                s.append(debug_opt_text(right_error).as_str());
                s
            },
        }
    }
}


/// Error of a two-backend comparison of a stream.
#[derive(Debug)]
pub enum CompareError {
    /// The IVF header could not be read.
    Io(IvfError),
    /// A backend failed to decode the stream.
    Decoder(DecoderError),
    /// Both backends decoded, but the normalized outputs differed.
    Mismatch(Box<DecodeMismatch>),
}

impl CompareError {
    pub open spec fn spec_message(&self) -> Seq<char> {
        match self {
            CompareError::Io(e) => "I/O error: "@ + e.message@,
            CompareError::Decoder(e) => "decoder error: "@ + e.spec_message(),
            CompareError::Mismatch(m) => "decode outputs differed: "@ + (**m)@.spec_message(),
        }
    }

    /// The human-readable description of the error.
    pub fn message(&self) -> (s: String)
        ensures
            s@ == self.spec_message(),
    {
        match self {
            CompareError::Io(e) => {
                let mut s = String::from_str("I/O error: ");
                s.append(e.message.as_str());
                s
            },
            CompareError::Decoder(e) => {
                let mut s = String::from_str("decoder error: ");
                s.append(e.message().as_str());
                s
            },
            CompareError::Mismatch(m) => {
                let mut s = String::from_str("decode outputs differed: ");
                s.append(m.message().as_str());
                s
            },
        }
    }
}

/// Build a decoder for `backend` with an optional thread hint.
fn build_decoder(backend: BackendKind, threads: Option<u32>) -> (r: Result<Decoder, DecoderError>)
    ensures
        backend == BackendKind::Libavm ==> r == Err::<Decoder, DecoderError>(DecoderError::BackendUnavailable(BackendKind::Libavm)),
        backend == BackendKind::Rust ==> (r matches Ok(d) && d.backend_state() == crate::backend::rust::RustDecoder::spec_initial()),
{
    let mut builder = Decoder::builder().backend(backend);
    if let Some(t) = threads {
        builder = builder.threads(t);
    }
    builder.build()
}

/// Whether `s` is a snapshot of a run that accepted all of `ps` from a fresh Rust backend:
/// its frames are the copies of the images handed out, its progress and stream information
/// those of the final state, the stream information being the first one seen.
pub open spec fn spec_snapshot_of_run(ps: Seq<Seq<u8>>, s: DecodeSnapshot) -> bool {
    let d0 = RustDecoder::spec_initial();
    exists|mids: Seq<RustDecoder>| #[trigger] spec_valid_run(d0, ps, mids) && ({
        let dn = spec_state_before(d0, mids, mids.len() as int);
        &&& spec_owned_copies(spec_run_images(mids), s.frames@)
        &&& s.progress == spec_progress(dn)
        &&& s.stream_info == spec_first_info(spec_run_info(mids), dn)
    })
}

/// Whether reading ended with the IVF error `e` after a run that accepted every payload.
pub open spec fn spec_read_failed(ps: Seq<Seq<u8>>, end: Option<(IvfErrorKind, Seq<char>)>, e: DecoderError) -> bool {
    &&& e matches DecoderError::Io(ie) && end == Some((ie.kind, ie.message@))
    &&& exists|mids: Seq<RustDecoder>| #[trigger] spec_valid_run(RustDecoder::spec_initial(), ps, mids)
}

/// Whether `r` is a result that decoding the IVF stream from position `pos` of `d` (frame limit
/// `max`) into a snapshot with a fresh Rust backend can give: the snapshot when every payload
/// is read and accepted; else the read error after all payloads were accepted, or the error of
/// the first payload that fails.
pub open spec fn spec_snapshot_result(d: Seq<u8>, pos: int, max: usize, r: Result<DecodeSnapshot, DecoderError>) -> bool {
    let (ps, end) = spec_ivf_payloads(d, pos, max);
    match r {
        Ok(s) => end is None && s.backend == BackendKind::Rust && spec_snapshot_of_run(ps, s),
        Err(e) => spec_read_failed(ps, end, e) || exists|k: int| #[trigger] spec_fails_at(RustDecoder::spec_initial(), ps, k, e),
    }
}

/// Whether `o` is the outcome of payload `k` of `ps` failing to decode with `e` after the
/// earlier payloads were accepted: stopped at `k` with the text of `e`, the snapshot holding the
/// earlier frames and the progress of the state the failed decode left.
pub open spec fn spec_outcome_stopped_at(ps: Seq<Seq<u8>>, k: int, o: DecodeOutcome) -> bool {
    let d0 = RustDecoder::spec_initial();
    &&& 0 <= k < ps.len()
    &&& o.stopped_at_packet == Some(k as usize)
    &&& exists|mids: Seq<RustDecoder>, e: DecoderError, ds: RustDecoder|
        #![trigger spec_valid_run(d0, ps.take(k), mids), spec_decode_step(spec_state_before(d0, mids, k), ps[k], Err::<(), DecoderError>(e), ds)]
        spec_valid_run(d0, ps.take(k), mids) && spec_decode_step(spec_state_before(d0, mids, k), ps[k], Err::<(), DecoderError>(e), ds)
        && opt_text(o.terminal_error) == Some(e.spec_message())
        && spec_owned_copies(spec_run_images(mids), o.snapshot.frames@)
        && o.snapshot.progress == spec_progress(ds)
        && o.snapshot.stream_info == spec_first_info(spec_run_info(mids), ds)
}

/// Whether `r` is a result that decoding the IVF stream from position `pos` of `d` (frame limit
/// `max`) into an outcome with a fresh Rust backend can give: an unstopped outcome when every
/// payload is read and accepted; an outcome stopped at the first payload whose decode fails;
/// else the read error after all payloads were accepted.
pub open spec fn spec_outcome_result(d: Seq<u8>, pos: int, max: usize, r: Result<DecodeOutcome, DecoderError>) -> bool {
    let (ps, end) = spec_ivf_payloads(d, pos, max);
    match r {
        Ok(o) => o.snapshot.backend == BackendKind::Rust && (
            (end is None && o.stopped_at_packet is None && o.terminal_error is None && spec_snapshot_of_run(ps, o.snapshot))
            || exists|k: int| #[trigger] spec_outcome_stopped_at(ps, k, o)),
        Err(e) => spec_read_failed(ps, end, e),
    }
}

/// Decode an IVF stream into a fully owned snapshot for equality comparison across backends.
/// A read or decode error ends the decode with that error.
pub fn decode_ivf_snapshot(ivf: IvfReader, backend: BackendKind, threads: Option<u32>) -> (r: Result<DecodeSnapshot, DecoderError>)
    requires
        ivf.position() <= ivf.bytes().len(),
    ensures
        backend == BackendKind::Libavm ==> r == Err::<DecodeSnapshot, DecoderError>(DecoderError::BackendUnavailable(BackendKind::Libavm)),
        backend == BackendKind::Rust ==> spec_snapshot_result(ivf.bytes(), ivf.position() as int, ivf.max_frame_size(), r),
{
    let ghost bytes = ivf.bytes();
    let ghost max = ivf.max_frame_size();
    let ghost start = ivf.position() as int;
    let ghost all = spec_ivf_payloads(bytes, start, max).0;
    let ghost d0 = RustDecoder::spec_initial();
    let mut reader = ivf;
    let mut decoder = match build_decoder(backend, threads) {
        Ok(d) => d,
        Err(e) => {
            return Err(e);
        },
    };
    let mut stream_info: Option<StreamInfo> = None;
    let mut frames: Vec<OwnedFrame> = Vec::new();
    let ghost mut consumed: Seq<Seq<u8>> = Seq::empty();
    let ghost mut mids: Seq<RustDecoder> = Seq::empty();
    proof {
        assert(all =~= consumed + spec_ivf_payloads(bytes, start, max).0);
    }
    loop
        invariant
            reader.bytes() == bytes,
            reader.max_frame_size() == max,
            reader.position() <= bytes.len(),
            bytes == ivf.bytes(),
            max == ivf.max_frame_size(),
            start == ivf.position() as int,
            backend == BackendKind::Rust,
            d0 == RustDecoder::spec_initial(),
            all == spec_ivf_payloads(bytes, start, max).0,
            all == consumed + spec_ivf_payloads(bytes, reader.position() as int, max).0,
            spec_ivf_payloads(bytes, start, max).1 == spec_ivf_payloads(bytes, reader.position() as int, max).1,
            spec_valid_run(d0, consumed, mids),
            decoder.backend_state() == spec_state_before(d0, mids, mids.len() as int),
            spec_owned_copies(spec_run_images(mids), frames@),
            stream_info == spec_run_info(mids),
        ensures
            all == consumed,
            spec_ivf_payloads(bytes, start, max).1 is None,
        decreases bytes.len() - reader.position(),
    {
        let ghost pos = reader.position() as int;
        let packet = match reader.next_frame() {
            Ok(Some(p)) => p,
            Ok(None) => {
                proof {
                    assert(all =~= consumed);
                }
                break;
            },
            Err(e) => {
                proof {
                    assert(all =~= consumed);
                    assert(spec_ivf_payloads(bytes, pos, max).1 == Some((e.kind, e.message@)));
                    assert(spec_valid_run(d0, all, mids));
                }
                return Err(DecoderError::Io(e));
            },
        };
        proof {
            lemma_payloads_step(bytes, pos, max);
            assert(all.take(consumed.len() as int) =~= consumed);
            assert(all[consumed.len() as int] == packet.data@);
        }
        let res = decoder.decode(packet.data.as_slice());
        match res {
            Ok(u) => {
                assert(u == ());
            },
            Err(e) => {
                proof {
                    let k = consumed.len() as int;
                    assert(spec_valid_run(d0, all.take(k), mids));
                    assert(spec_decode_step(spec_state_before(d0, mids, k), all[k], Err::<(), DecoderError>(e), decoder.backend_state()));
                    assert(spec_fails_at(d0, all, k, e));
                }
                return Err(e);
            },
        }
        let ghost ds = decoder.backend_state();
        assert(res == Ok::<(), DecoderError>(()));
        if stream_info.is_none() {
            stream_info = match decoder.get_stream_info() {
                Ok(info) => Some(info),
                Err(_) => None,
            };
        }
        assert(stream_info == spec_first_info(spec_run_info(mids), ds));
        let ghost before = frames@;
        drain_frames(&mut decoder, &mut frames);
        proof {
            lemma_run_step(d0, consumed, mids, packet.data@, ds);
            let tail = frames@.subrange(before.len() as int, frames@.len() as int);
            assert(frames@ =~= before + tail);
            lemma_owned_copies_append(spec_run_images(mids), before, spec_ready(ds), tail);
            assert(all =~= consumed.push(packet.data@) + spec_ivf_payloads(bytes, reader.position() as int, max).0);
            consumed = consumed.push(packet.data@);
            mids = mids.push(ds);
        }
    }
    match decoder.flush() {
        Ok(()) => {},
        Err(e) => {
            return Err(e);
        },
    }
    proof {
        lemma_run_drained(d0, mids);
    }
    let ghost before = frames@;
    drain_frames(&mut decoder, &mut frames);
    let progress = decoder.progress();
    let info = match stream_info {
        Some(i) => Some(i),
        None => progress.stream_info,
    };
    let snap = DecodeSnapshot { backend, stream_info: info, frames, progress };
    proof {
        assert(snap.frames@ =~= before);
        assert(spec_valid_run(d0, all, mids));
    }
    Ok(snap)
}

/// Decode an IVF stream into an outcome that keeps an early stop: a decode error ends the
/// decode at that packet, recorded with its text, and the snapshot holds what came before it.
/// A read error is returned as an error.
#[verifier::rlimit(60)]
pub fn decode_ivf_outcome(ivf: IvfReader, backend: BackendKind, threads: Option<u32>) -> (r: Result<DecodeOutcome, DecoderError>)
    requires
        ivf.position() <= ivf.bytes().len(),
    ensures
        backend == BackendKind::Libavm ==> r == Err::<DecodeOutcome, DecoderError>(DecoderError::BackendUnavailable(BackendKind::Libavm)),
        backend == BackendKind::Rust ==> spec_outcome_result(ivf.bytes(), ivf.position() as int, ivf.max_frame_size(), r),
{
    let ghost bytes = ivf.bytes();
    let ghost max = ivf.max_frame_size();
    let ghost start = ivf.position() as int;
    let ghost all = spec_ivf_payloads(bytes, start, max).0;
    let ghost d0 = RustDecoder::spec_initial();
    let mut reader = ivf;
    let mut decoder = match build_decoder(backend, threads) {
        Ok(d) => d,
        Err(e) => {
            return Err(e);
        },
    };
    let mut stream_info: Option<StreamInfo> = None;
    let mut frames: Vec<OwnedFrame> = Vec::new();
    let mut stopped_at_packet: Option<usize> = None;
    let mut terminal_error: Option<String> = None;
    let mut packet_index: usize = 0;
    let ghost mut consumed: Seq<Seq<u8>> = Seq::empty();
    let ghost mut mids: Seq<RustDecoder> = Seq::empty();
    let ghost mut failed: DecoderError = DecoderError::Parse("");
    proof {
        assert(all =~= consumed + spec_ivf_payloads(bytes, start, max).0);
    }
    loop
        invariant_except_break
            stopped_at_packet is None,
            terminal_error is None,
            decoder.backend_state() == spec_state_before(d0, mids, mids.len() as int),
            all == consumed + spec_ivf_payloads(bytes, reader.position() as int, max).0,
        invariant
            reader.bytes() == bytes,
            reader.max_frame_size() == max,
            reader.position() <= bytes.len(),
            bytes == ivf.bytes(),
            max == ivf.max_frame_size(),
            start == ivf.position() as int,
            backend == BackendKind::Rust,
            d0 == RustDecoder::spec_initial(),
            all == spec_ivf_payloads(bytes, start, max).0,
            spec_ivf_payloads(bytes, start, max).1 == spec_ivf_payloads(bytes, reader.position() as int, max).1,
            spec_valid_run(d0, consumed, mids),
            spec_owned_copies(spec_run_images(mids), frames@),
            stream_info == spec_run_info(mids),
            packet_index == consumed.len(),
            packet_index <= reader.position() - start,
        ensures
            stopped_at_packet is None ==> terminal_error is None && all == consumed
                && spec_ivf_payloads(bytes, start, max).1 is None
                && decoder.backend_state() == spec_state_before(d0, mids, mids.len() as int),
            stopped_at_packet is Some ==> stopped_at_packet == Some(packet_index) && packet_index < all.len()
                && all.take(packet_index as int) == consumed
                && spec_decode_step(spec_state_before(d0, mids, packet_index as int), all[packet_index as int],
                    Err::<(), DecoderError>(failed), decoder.backend_state())
                && opt_text(terminal_error) == Some(failed.spec_message()),
        decreases bytes.len() - reader.position(),
    {
        let ghost pos = reader.position() as int;
        let packet = match reader.next_frame() {
            Ok(Some(p)) => p,
            Ok(None) => {
                proof {
                    assert(all =~= consumed);
                }
                break;
            },
            Err(e) => {
                proof {
                    assert(all =~= consumed);
                    assert(spec_ivf_payloads(bytes, pos, max).1 == Some((e.kind, e.message@)));
                    assert(spec_valid_run(d0, all, mids));
                }
                return Err(DecoderError::Io(e));
            },
        };
        proof {
            lemma_payloads_step(bytes, pos, max);
            assert(all.take(consumed.len() as int) =~= consumed);
            assert(all[consumed.len() as int] == packet.data@);
            assert(consumed.len() < all.len());
        }
        let res = decoder.decode(packet.data.as_slice());
        match res {
            Ok(u) => {
                assert(u == ());
            },
            Err(e) => {
                let text = e.message();
                proof {
                    failed = e;
                }
                stopped_at_packet = Some(packet_index);
                terminal_error = Some(text);
                break;
            },
        }
        let ghost ds = decoder.backend_state();
        assert(res == Ok::<(), DecoderError>(()));
        if stream_info.is_none() {
            stream_info = match decoder.get_stream_info() {
                Ok(info) => Some(info),
                Err(_) => None,
            };
        }
        assert(stream_info == spec_first_info(spec_run_info(mids), ds));
        let ghost before = frames@;
        drain_frames(&mut decoder, &mut frames);
        proof {
            lemma_run_step(d0, consumed, mids, packet.data@, ds);
            let tail = frames@.subrange(before.len() as int, frames@.len() as int);
            assert(frames@ =~= before + tail);
            lemma_owned_copies_append(spec_run_images(mids), before, spec_ready(ds), tail);
            assert(all =~= consumed.push(packet.data@) + spec_ivf_payloads(bytes, reader.position() as int, max).0);
            consumed = consumed.push(packet.data@);
            mids = mids.push(ds);
        }
        packet_index = packet_index + 1;
    }
    let ghost before = frames@;
    if terminal_error.is_none() {
        match decoder.flush() {
            Ok(()) => {},
            Err(e) => {
                return Err(e);
            },
        }
        proof {
            lemma_run_drained(d0, mids);
        }
        drain_frames(&mut decoder, &mut frames);
        proof {
            assert(frames@ =~= before);
        }
    }
    let progress = decoder.progress();
    let info = match stream_info {
        Some(i) => Some(i),
        None => progress.stream_info,
    };
    let outcome = DecodeOutcome {
        snapshot: DecodeSnapshot { backend, stream_info: info, frames, progress },
        stopped_at_packet,
        terminal_error,
    };
    proof {
        if stopped_at_packet is Some {
            let k = packet_index as int;
            assert(spec_valid_run(d0, all.take(k), mids));
            assert(spec_decode_step(spec_state_before(d0, mids, k), all[k], Err::<(), DecoderError>(failed), decoder.backend_state()));
            assert(spec_outcome_stopped_at(all, k, outcome));
        } else {
            assert(spec_valid_run(d0, all, mids));
            assert(spec_snapshot_of_run(all, outcome.snapshot));
        }
    }
    Ok(outcome)
}

/// Whether `r` is a result that decoding the IVF file `data` into a snapshot with `backend` can give.
pub open spec fn spec_backend_snapshot(data: Seq<u8>, backend: BackendKind, r: Result<DecodeSnapshot, DecoderError>) -> bool {
    match backend {
        BackendKind::Libavm => r == Err::<DecodeSnapshot, DecoderError>(DecoderError::BackendUnavailable(BackendKind::Libavm)),
        BackendKind::Rust => spec_snapshot_result(data, 32, DEFAULT_MAX_FRAME_SIZE, r),
    }
}

/// Whether `r` is a result that decoding the IVF file `data` into an outcome with `backend` can give.
pub open spec fn spec_backend_outcome(data: Seq<u8>, backend: BackendKind, r: Result<DecodeOutcome, DecoderError>) -> bool {
    match backend {
        BackendKind::Libavm => r == Err::<DecodeOutcome, DecoderError>(DecoderError::BackendUnavailable(BackendKind::Libavm)),
        BackendKind::Rust => spec_outcome_result(data, 32, DEFAULT_MAX_FRAME_SIZE, r),
    }
}

/// Decoding one IVF stream into snapshots with the Rust backend twice gives snapshots that show
/// no difference.
proof fn lemma_rust_snapshots_agree(d: Seq<u8>, pos: int, max: usize, a: DecodeSnapshot, b: DecodeSnapshot)
    requires
        spec_snapshot_result(d, pos, max, Ok(a)),
        spec_snapshot_result(d, pos, max, Ok(b)),
    ensures
        spec_snapshot_diff(a, b) is None,
{
    let ps = spec_ivf_payloads(d, pos, max).0;
    let d0 = RustDecoder::spec_initial();
    let ma = choose|mids: Seq<RustDecoder>| #[trigger] spec_valid_run(d0, ps, mids) && ({
        let dn = spec_state_before(d0, mids, mids.len() as int);
        &&& spec_owned_copies(spec_run_images(mids), a.frames@)
        &&& a.progress == spec_progress(dn)
        &&& a.stream_info == spec_first_info(spec_run_info(mids), dn)
    });
    let mb = choose|mids: Seq<RustDecoder>| #[trigger] spec_valid_run(d0, ps, mids) && ({
        let dn = spec_state_before(d0, mids, mids.len() as int);
        &&& spec_owned_copies(spec_run_images(mids), b.frames@)
        &&& b.progress == spec_progress(dn)
        &&& b.stream_info == spec_first_info(spec_run_info(mids), dn)
    });
    lemma_runs_agree(d0, ps, ma, ps, mb, ps.len() as int);
    lemma_run_images_agree(ma, mb);
    lemma_copy_lists_agree(spec_run_images(ma), a.frames@, spec_run_images(mb), b.frames@);
    lemma_run_info_agrees(ma, mb);
    lemma_same_frames_no_diff(a.frames@, b.frames@, 0);
}

/// Decoding one IVF file into snapshots twice with the same backend gives snapshots that show
/// no difference, so comparing a backend with itself never reports a mismatch.
pub proof fn lemma_same_backend_snapshots_agree(data: Seq<u8>, backend: BackendKind, a: DecodeSnapshot, b: DecodeSnapshot)
    requires
        spec_backend_snapshot(data, backend, Ok(a)),
        spec_backend_snapshot(data, backend, Ok(b)),
    ensures
        spec_snapshot_diff(a, b) is None,
{
    if backend == BackendKind::Rust {
        lemma_rust_snapshots_agree(data, 32, DEFAULT_MAX_FRAME_SIZE, a, b);
    }
}

/// The run, error and final state of an outcome stopped at packet `k`.
proof fn lemma_stopped_witness(ps: Seq<Seq<u8>>, k: int, o: DecodeOutcome) -> (w: (Seq<RustDecoder>, DecoderError, RustDecoder))
    requires
        spec_outcome_stopped_at(ps, k, o),
    ensures
        ({
            let d0 = RustDecoder::spec_initial();
            let (mids, e, ds) = w;
            &&& spec_valid_run(d0, ps.take(k), mids)
            &&& spec_decode_step(spec_state_before(d0, mids, k), ps[k], Err::<(), DecoderError>(e), ds)
            &&& opt_text(o.terminal_error) == Some(e.spec_message())
            &&& spec_owned_copies(spec_run_images(mids), o.snapshot.frames@)
            &&& o.snapshot.progress == spec_progress(ds)
            &&& o.snapshot.stream_info == spec_first_info(spec_run_info(mids), ds)
        }),
{
    let d0 = RustDecoder::spec_initial();
    choose|mids: Seq<RustDecoder>, e: DecoderError, ds: RustDecoder|
        #![trigger spec_valid_run(d0, ps.take(k), mids), spec_decode_step(spec_state_before(d0, mids, k), ps[k], Err::<(), DecoderError>(e), ds)]
        spec_valid_run(d0, ps.take(k), mids) && spec_decode_step(spec_state_before(d0, mids, k), ps[k], Err::<(), DecoderError>(e), ds)
        && opt_text(o.terminal_error) == Some(e.spec_message())
        && spec_owned_copies(spec_run_images(mids), o.snapshot.frames@)
        && o.snapshot.progress == spec_progress(ds)
        && o.snapshot.stream_info == spec_first_info(spec_run_info(mids), ds)
}

/// Decoding one IVF stream into outcomes with the Rust backend twice gives outcomes that show no
/// difference: the same frames, stop and error, and the same progress.
proof fn lemma_rust_outcomes_agree(d: Seq<u8>, pos: int, max: usize, a: DecodeOutcome, b: DecodeOutcome)
    requires
        spec_outcome_result(d, pos, max, Ok(a)),
        spec_outcome_result(d, pos, max, Ok(b)),
    ensures
        spec_outcome_diff(a, b) is None,
{
    let (ps, end) = spec_ivf_payloads(d, pos, max);
    let d0 = RustDecoder::spec_initial();
    if a.stopped_at_packet is None && b.stopped_at_packet is None {
        assert(spec_snapshot_result(d, pos, max, Ok(a.snapshot)));
        assert(spec_snapshot_result(d, pos, max, Ok(b.snapshot)));
        lemma_rust_snapshots_agree(d, pos, max, a.snapshot, b.snapshot);
        let ma = choose|mids: Seq<RustDecoder>| #[trigger] spec_valid_run(d0, ps, mids) && ({
            let dn = spec_state_before(d0, mids, mids.len() as int);
            &&& spec_owned_copies(spec_run_images(mids), a.snapshot.frames@)
            &&& a.snapshot.progress == spec_progress(dn)
            &&& a.snapshot.stream_info == spec_first_info(spec_run_info(mids), dn)
        });
        let mb = choose|mids: Seq<RustDecoder>| #[trigger] spec_valid_run(d0, ps, mids) && ({
            let dn = spec_state_before(d0, mids, mids.len() as int);
            &&& spec_owned_copies(spec_run_images(mids), b.snapshot.frames@)
            &&& b.snapshot.progress == spec_progress(dn)
            &&& b.snapshot.stream_info == spec_first_info(spec_run_info(mids), dn)
        });
        lemma_runs_agree(d0, ps, ma, ps, mb, ps.len() as int);
    } else if a.stopped_at_packet is Some && b.stopped_at_packet is Some {
        let ka = choose|k: int| #[trigger] spec_outcome_stopped_at(ps, k, a);
        let kb = choose|k: int| #[trigger] spec_outcome_stopped_at(ps, k, b);
        let (ma, ea, sa) = lemma_stopped_witness(ps, ka, a);
        let (mb, eb, sb) = lemma_stopped_witness(ps, kb, b);
        if ka < kb {
            lemma_accepted_packet_is_accepted(d0, ps.take(kb), mb, ps, ka, ma, Err(ea), sa);
        } else if kb < ka {
            lemma_accepted_packet_is_accepted(d0, ps.take(ka), ma, ps, kb, mb, Err(eb), sb);
        } else {
            lemma_runs_agree(d0, ps.take(ka), ma, ps.take(kb), mb, ka);
            lemma_decode_is_deterministic(spec_state_before(d0, ma, ka), spec_state_before(d0, mb, ka), ps[ka],
                Err(ea), sa, Err(eb), sb);
            lemma_run_images_agree(ma, mb);
            lemma_copy_lists_agree(spec_run_images(ma), a.snapshot.frames@, spec_run_images(mb), b.snapshot.frames@);
            lemma_run_info_agrees(ma, mb);
            lemma_same_frames_no_diff(a.snapshot.frames@, b.snapshot.frames@, 0);
        }
    } else {
        let (stopped, whole) = if a.stopped_at_packet is Some { (a, b) } else { (b, a) };
        let k = choose|k: int| #[trigger] spec_outcome_stopped_at(ps, k, stopped);
        let (ms, e, ds) = lemma_stopped_witness(ps, k, stopped);
        let mw = choose|mids: Seq<RustDecoder>| #[trigger] spec_valid_run(d0, ps, mids) && ({
            let dn = spec_state_before(d0, mids, mids.len() as int);
            &&& spec_owned_copies(spec_run_images(mids), whole.snapshot.frames@)
            &&& whole.snapshot.progress == spec_progress(dn)
            &&& whole.snapshot.stream_info == spec_first_info(spec_run_info(mids), dn)
        });
        lemma_accepted_packet_is_accepted(d0, ps, mw, ps, k, ms, Err(e), ds);
    }
}

/// Decoding one IVF file into outcomes twice with the same backend gives outcomes that show no
/// difference, so comparing a backend's outcomes with its own never reports a mismatch.
pub proof fn lemma_same_backend_outcomes_agree(data: Seq<u8>, backend: BackendKind, a: DecodeOutcome, b: DecodeOutcome)
    requires
        spec_backend_outcome(data, backend, Ok(a)),
        spec_backend_outcome(data, backend, Ok(b)),
    ensures
        spec_outcome_diff(a, b) is None,
{
    if backend == BackendKind::Rust {
        lemma_rust_outcomes_agree(data, 32, DEFAULT_MAX_FRAME_SIZE, a, b);
    }
}

/// Decode the same IVF file (its bytes) through two backends and compare the snapshots: the
/// header error; else the left decode's error; else the right decode's error; else the first
/// difference between the snapshots, or both snapshots when they match.
pub fn compare_ivf_file(data: &[u8], left_backend: BackendKind, right_backend: BackendKind, threads: Option<u32>)
    -> (r: Result<(DecodeSnapshot, DecodeSnapshot), CompareError>)
    ensures
        match spec_ivf_header(data@) {
            Err((kind, msg)) => r matches Err(CompareError::Io(e)) && e.kind == kind && e.message@ == msg,
            Ok(_) => match r {
                Ok((a, b)) => spec_backend_snapshot(data@, left_backend, Ok(a)) && spec_backend_snapshot(data@, right_backend, Ok(b))
                    && spec_snapshot_diff(a, b) is None,
                Err(CompareError::Mismatch(m)) => exists|a: DecodeSnapshot, b: DecodeSnapshot|
                    #![trigger spec_backend_snapshot(data@, left_backend, Ok(a)), spec_backend_snapshot(data@, right_backend, Ok(b))]
                    spec_backend_snapshot(data@, left_backend, Ok(a)) && spec_backend_snapshot(data@, right_backend, Ok(b))
                    && spec_snapshot_diff(a, b) == Some((*m)@),
                Err(CompareError::Decoder(e)) => spec_backend_snapshot(data@, left_backend, Err(e)) || exists|a: DecodeSnapshot|
                    #[trigger] spec_backend_snapshot(data@, left_backend, Ok(a)) && spec_backend_snapshot(data@, right_backend, Err(e)),
                Err(CompareError::Io(_)) => false,
            },
        },
{
    let left_reader = match IvfReader::new(vstd::slice::slice_to_vec(data)) {
        Ok(rd) => rd,
        Err(e) => {
            return Err(CompareError::Io(e));
        },
    };
    let left = match decode_ivf_snapshot(left_reader, left_backend, threads) {
        Ok(s) => s,
        Err(e) => {
            return Err(CompareError::Decoder(e));
        },
    };
    let right_reader = match IvfReader::new(vstd::slice::slice_to_vec(data)) {
        Ok(rd) => rd,
        Err(e) => {
            return Err(CompareError::Io(e));
        },
    };
    let right = match decode_ivf_snapshot(right_reader, right_backend, threads) {
        Ok(s) => s,
        Err(e) => {
            proof {
                assert(spec_backend_snapshot(data@, left_backend, Ok(left)));
            }
            return Err(CompareError::Decoder(e));
        },
    };
    match compare_snapshots(&left, &right) {
        Ok(()) => Ok((left, right)),
        Err(m) => {
            proof {
                assert(spec_backend_snapshot(data@, left_backend, Ok(left)));
                assert(spec_backend_snapshot(data@, right_backend, Ok(right)));
            }
            Err(CompareError::Mismatch(Box::new(m)))
        },
    }
}

/// Decode the same IVF file (its bytes) through two backends and compare the outcomes, early
/// stops and progress included: the header error; else the left decode's error; else the right
/// decode's error; else the first difference between the outcomes, or both when they match.
pub fn compare_ivf_file_outcomes(data: &[u8], left_backend: BackendKind, right_backend: BackendKind, threads: Option<u32>)
    -> (r: Result<(DecodeOutcome, DecodeOutcome), CompareError>)
    ensures
        match spec_ivf_header(data@) {
            Err((kind, msg)) => r matches Err(CompareError::Io(e)) && e.kind == kind && e.message@ == msg,
            Ok(_) => match r {
                Ok((a, b)) => spec_backend_outcome(data@, left_backend, Ok(a)) && spec_backend_outcome(data@, right_backend, Ok(b))
                    && spec_outcome_diff(a, b) is None,
                Err(CompareError::Mismatch(m)) => exists|a: DecodeOutcome, b: DecodeOutcome|
                    #![trigger spec_backend_outcome(data@, left_backend, Ok(a)), spec_backend_outcome(data@, right_backend, Ok(b))]
                    spec_backend_outcome(data@, left_backend, Ok(a)) && spec_backend_outcome(data@, right_backend, Ok(b))
                    && spec_outcome_diff(a, b) == Some((*m)@),
                Err(CompareError::Decoder(e)) => spec_backend_outcome(data@, left_backend, Err(e)) || exists|a: DecodeOutcome|
                    #[trigger] spec_backend_outcome(data@, left_backend, Ok(a)) && spec_backend_outcome(data@, right_backend, Err(e)),
                Err(CompareError::Io(_)) => false,
            },
        },
{
    let left_reader = match IvfReader::new(vstd::slice::slice_to_vec(data)) {
        Ok(rd) => rd,
        Err(e) => {
            return Err(CompareError::Io(e));
        },
    };
    let left = match decode_ivf_outcome(left_reader, left_backend, threads) {
        Ok(s) => s,
        Err(e) => {
            return Err(CompareError::Decoder(e));
        },
    };
    let right_reader = match IvfReader::new(vstd::slice::slice_to_vec(data)) {
        Ok(rd) => rd,
        Err(e) => {
            return Err(CompareError::Io(e));
        },
    };
    let right = match decode_ivf_outcome(right_reader, right_backend, threads) {
        Ok(s) => s,
        Err(e) => {
            proof {
                assert(spec_backend_outcome(data@, left_backend, Ok(left)));
            }
            return Err(CompareError::Decoder(e));
        },
    };
    match compare_outcomes(&left, &right) {
        Ok(()) => Ok((left, right)),
        Err(m) => {
            proof {
                assert(spec_backend_outcome(data@, left_backend, Ok(left)));
                assert(spec_backend_outcome(data@, right_backend, Ok(right)));
            }
            Err(CompareError::Mismatch(Box::new(m)))
        },
    }
}

} // verus!
