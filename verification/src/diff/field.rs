//! Values compared field by field, with the text that a mismatch report shows for each.
use vstd::prelude::*;
use crate::backend::BackendKind;
use crate::bitstream::{FramePacketKind, FrameHeaderInfo, FrameType, SequenceHeader};
use crate::decoder::{DecodeEvent, StreamInfo};
use crate::format::{ChromaSamplePosition, ColorRange, PixelFormat};
use crate::text::{decimal_u64, spec_decimal};

verus! {

/// A value that a comparison can test for equality and render as text. The text is the
/// value's debug form: decimal integers, `true`/`false`, variant names, `None`/`Some(..)`,
/// `[a, b, ..]` for arrays and `Name { field: value, .. }` for structs.
pub trait FieldValue: Sized {
    /// The text of the value.
    spec fn spec_text(&self) -> Seq<char>;

    /// Render the value.
    fn text(&self) -> (s: String)
        ensures
            s@ == self.spec_text(),
    ;

    /// Whether the two values are equal.
    fn same(&self, other: &Self) -> (b: bool)
        ensures
            b == (*self == *other),
    ;
}

impl FieldValue for u8 {
    open spec fn spec_text(&self) -> Seq<char> {
        spec_decimal(*self as nat)
    }

    fn text(&self) -> (s: String) {
        decimal_u64(*self as u64)
    }

    fn same(&self, other: &Self) -> (b: bool) {
        *self == *other
    }
}

impl FieldValue for u16 {
    open spec fn spec_text(&self) -> Seq<char> {
        spec_decimal(*self as nat)
    }

    fn text(&self) -> (s: String) {
        decimal_u64(*self as u64)
    }

    fn same(&self, other: &Self) -> (b: bool) {
        *self == *other
    }
}

impl FieldValue for u32 {
    open spec fn spec_text(&self) -> Seq<char> {
        spec_decimal(*self as nat)
    }

    fn text(&self) -> (s: String) {
        decimal_u64(*self as u64)
    }

    fn same(&self, other: &Self) -> (b: bool) {
        *self == *other
    }
}

impl FieldValue for usize {
    open spec fn spec_text(&self) -> Seq<char> {
        spec_decimal(*self as nat)
    }

    fn text(&self) -> (s: String) {
        decimal_u64(*self as u64)
    }

    fn same(&self, other: &Self) -> (b: bool) {
        *self == *other
    }
}

impl FieldValue for bool {
    open spec fn spec_text(&self) -> Seq<char> {
        if *self { "true"@ } else { "false"@ }
    }

    fn text(&self) -> (s: String) {
        if *self { String::from_str("true") } else { String::from_str("false") }
    }

    fn same(&self, other: &Self) -> (b: bool) {
        *self == *other
    }
}

impl<T: FieldValue> FieldValue for Option<T> {
    open spec fn spec_text(&self) -> Seq<char> {
        match self {
            None => "None"@,
            Some(v) => "Some("@ + v.spec_text() + ")"@,
        }
    }

    fn text(&self) -> (s: String) {
        match self {
            None => String::from_str("None"),
            Some(v) => {
                let mut s = String::from_str("Some(");
                s.append(v.text().as_str());
                s.append(")");
                s
            },
        }
    }

    fn same(&self, other: &Self) -> (b: bool) {
        match (self, other) {
            (Some(a), Some(c)) => a.same(c),
            (None, None) => true,
            _ => false,
        }
    }
}

impl<T: FieldValue> FieldValue for [T; 4] {
    open spec fn spec_text(&self) -> Seq<char> {
        "["@ + self@[0].spec_text() + ", "@ + self@[1].spec_text() + ", "@ + self@[2].spec_text() + ", "@
            + self@[3].spec_text() + "]"@
    }

    fn text(&self) -> (s: String) {
        let mut s = String::from_str("[");
        s.append(self[0].text().as_str());
        s.append(", ");
        s.append(self[1].text().as_str());
        s.append(", ");
        s.append(self[2].text().as_str());
        s.append(", ");
        s.append(self[3].text().as_str());
        s.append("]");
        s
    }

    fn same(&self, other: &Self) -> (b: bool) {
        let b = self[0].same(&other[0]) && self[1].same(&other[1]) && self[2].same(&other[2]) && self[3].same(&other[3]);
        proof {
            if b {
                assert(*self =~= *other);
            }
        }
        b
    }
}

impl FieldValue for BackendKind {
    open spec fn spec_text(&self) -> Seq<char> {
        match *self {
            BackendKind::Libavm => "Libavm"@,
            BackendKind::Rust => "Rust"@,
        }
    }

    fn text(&self) -> (s: String) {
        let t: &str = match *self {
            BackendKind::Libavm => "Libavm",
            BackendKind::Rust => "Rust",
        };
        String::from_str(t)
    }

    fn same(&self, other: &Self) -> (b: bool) {
        *self == *other
    }
}

impl FieldValue for PixelFormat {
    open spec fn spec_text(&self) -> Seq<char> {
        match *self {
            PixelFormat::I420 => "I420"@,
            PixelFormat::I422 => "I422"@,
            PixelFormat::I444 => "I444"@,
            PixelFormat::Yv12 => "Yv12"@,
            PixelFormat::I42016 => "I42016"@,
            PixelFormat::I42216 => "I42216"@,
            PixelFormat::I44416 => "I44416"@,
            PixelFormat::Yv1216 => "Yv1216"@,
        }
    }

    fn text(&self) -> (s: String) {
        let t: &str = match *self {
            PixelFormat::I420 => "I420",
            PixelFormat::I422 => "I422",
            PixelFormat::I444 => "I444",
            PixelFormat::Yv12 => "Yv12",
            PixelFormat::I42016 => "I42016",
            PixelFormat::I42216 => "I42216",
            PixelFormat::I44416 => "I44416",
            PixelFormat::Yv1216 => "Yv1216",
        };
        String::from_str(t)
    }

    fn same(&self, other: &Self) -> (b: bool) {
        *self == *other
    }
}

impl FieldValue for ColorRange {
    open spec fn spec_text(&self) -> Seq<char> {
        match *self {
            ColorRange::Studio => "Studio"@,
            ColorRange::Full => "Full"@,
        }
    }

    fn text(&self) -> (s: String) {
        let t: &str = match *self {
            ColorRange::Studio => "Studio",
            ColorRange::Full => "Full",
        };
        String::from_str(t)
    }

    fn same(&self, other: &Self) -> (b: bool) {
        *self == *other
    }
}

impl FieldValue for ChromaSamplePosition {
    open spec fn spec_text(&self) -> Seq<char> {
        match *self {
            ChromaSamplePosition::Left => "Left"@,
            ChromaSamplePosition::Center => "Center"@,
            ChromaSamplePosition::TopLeft => "TopLeft"@,
            ChromaSamplePosition::Top => "Top"@,
            ChromaSamplePosition::BottomLeft => "BottomLeft"@,
            ChromaSamplePosition::Bottom => "Bottom"@,
            ChromaSamplePosition::Unspecified => "Unspecified"@,
        }
    }

    fn text(&self) -> (s: String) {
        let t: &str = match *self {
            ChromaSamplePosition::Left => "Left",
            ChromaSamplePosition::Center => "Center",
            ChromaSamplePosition::TopLeft => "TopLeft",
            ChromaSamplePosition::Top => "Top",
            ChromaSamplePosition::BottomLeft => "BottomLeft",
            ChromaSamplePosition::Bottom => "Bottom",
            ChromaSamplePosition::Unspecified => "Unspecified",
        };
        String::from_str(t)
    }

    fn same(&self, other: &Self) -> (b: bool) {
        *self == *other
    }
}

impl FieldValue for FramePacketKind {
    open spec fn spec_text(&self) -> Seq<char> {
        match *self {
            FramePacketKind::Frame => "Frame"@,
            FramePacketKind::FrameHeader => "FrameHeader"@,
            FramePacketKind::TileGroup => "TileGroup"@,
            FramePacketKind::RedundantFrameHeader => "RedundantFrameHeader"@,
            FramePacketKind::TileList => "TileList"@,
            FramePacketKind::Mixed => "Mixed"@,
        }
    }

    fn text(&self) -> (s: String) {
        let t: &str = match *self {
            FramePacketKind::Frame => "Frame",
            FramePacketKind::FrameHeader => "FrameHeader",
            FramePacketKind::TileGroup => "TileGroup",
            FramePacketKind::RedundantFrameHeader => "RedundantFrameHeader",
            FramePacketKind::TileList => "TileList",
            FramePacketKind::Mixed => "Mixed",
        };
        String::from_str(t)
    }

    fn same(&self, other: &Self) -> (b: bool) {
        *self == *other
    }
}

impl FieldValue for FrameType {
    open spec fn spec_text(&self) -> Seq<char> {
        match *self {
            FrameType::Key => "Key"@,
            FrameType::Inter => "Inter"@,
            FrameType::IntraOnly => "IntraOnly"@,
            FrameType::Switch => "Switch"@,
        }
    }

    fn text(&self) -> (s: String) {
        let t: &str = match *self {
            FrameType::Key => "Key",
            FrameType::Inter => "Inter",
            FrameType::IntraOnly => "IntraOnly",
            FrameType::Switch => "Switch",
        };
        String::from_str(t)
    }

    fn same(&self, other: &Self) -> (b: bool) {
        *self == *other
    }
}

impl FieldValue for SequenceHeader {
    open spec fn spec_text(&self) -> Seq<char> {
        "SequenceHeader { profile: "@ + self.profile.spec_text()
            + ", still_picture: "@ + self.still_picture.spec_text()
            + ", reduced_still_picture_header: "@ + self.reduced_still_picture_header.spec_text()
            + ", timing_info_present_flag: "@ + self.timing_info_present_flag.spec_text()
            + ", initial_display_delay_present_flag: "@ + self.initial_display_delay_present_flag.spec_text()
            + ", frame_id_numbers_present_flag: "@ + self.frame_id_numbers_present_flag.spec_text()
            + ", operating_points_cnt_minus_1: "@ + self.operating_points_cnt_minus_1.spec_text()
            + ", operating_point_idc_0: "@ + self.operating_point_idc_0.spec_text()
            + ", seq_level_idx_0: "@ + self.seq_level_idx_0.spec_text()
            + ", seq_tier_0: "@ + self.seq_tier_0.spec_text()
            + ", max_frame_width: "@ + self.max_frame_width.spec_text()
            + ", max_frame_height: "@ + self.max_frame_height.spec_text()
            + ", bit_depth: "@ + self.bit_depth.spec_text()
            + ", monochrome: "@ + self.monochrome.spec_text()
            + ", subsampling_x: "@ + self.subsampling_x.spec_text()
            + ", subsampling_y: "@ + self.subsampling_y.spec_text()
            + ", color_range: "@ + self.color_range.spec_text()
            + ", chroma_sample_position: "@ + self.chroma_sample_position.spec_text()
            + " }"@
    }

    fn text(&self) -> (s: String) {
        let mut s = String::from_str("SequenceHeader { profile: ");
        s.append(self.profile.text().as_str());
        s.append(", still_picture: ");
        s.append(self.still_picture.text().as_str());
        s.append(", reduced_still_picture_header: ");
        s.append(self.reduced_still_picture_header.text().as_str());
        s.append(", timing_info_present_flag: ");
        s.append(self.timing_info_present_flag.text().as_str());
        s.append(", initial_display_delay_present_flag: ");
        s.append(self.initial_display_delay_present_flag.text().as_str());
        s.append(", frame_id_numbers_present_flag: ");
        s.append(self.frame_id_numbers_present_flag.text().as_str());
        s.append(", operating_points_cnt_minus_1: ");
        s.append(self.operating_points_cnt_minus_1.text().as_str());
        s.append(", operating_point_idc_0: ");
        s.append(self.operating_point_idc_0.text().as_str());
        s.append(", seq_level_idx_0: ");
        s.append(self.seq_level_idx_0.text().as_str());
        s.append(", seq_tier_0: ");
        s.append(self.seq_tier_0.text().as_str());
        s.append(", max_frame_width: ");
        s.append(self.max_frame_width.text().as_str());
        s.append(", max_frame_height: ");
        s.append(self.max_frame_height.text().as_str());
        s.append(", bit_depth: ");
        s.append(self.bit_depth.text().as_str());
        s.append(", monochrome: ");
        s.append(self.monochrome.text().as_str());
        s.append(", subsampling_x: ");
        s.append(self.subsampling_x.text().as_str());
        s.append(", subsampling_y: ");
        s.append(self.subsampling_y.text().as_str());
        s.append(", color_range: ");
        s.append(self.color_range.text().as_str());
        s.append(", chroma_sample_position: ");
        s.append(self.chroma_sample_position.text().as_str());
        s.append(" }");
        s
    }

    fn same(&self, other: &Self) -> (b: bool) {
        self.profile.same(&other.profile)
            && self.still_picture.same(&other.still_picture)
            && self.reduced_still_picture_header.same(&other.reduced_still_picture_header)
            && self.timing_info_present_flag.same(&other.timing_info_present_flag)
            && self.initial_display_delay_present_flag.same(&other.initial_display_delay_present_flag)
            && self.frame_id_numbers_present_flag.same(&other.frame_id_numbers_present_flag)
            && self.operating_points_cnt_minus_1.same(&other.operating_points_cnt_minus_1)
            && self.operating_point_idc_0.same(&other.operating_point_idc_0)
            && self.seq_level_idx_0.same(&other.seq_level_idx_0)
            && self.seq_tier_0.same(&other.seq_tier_0)
            && self.max_frame_width.same(&other.max_frame_width)
            && self.max_frame_height.same(&other.max_frame_height)
            && self.bit_depth.same(&other.bit_depth)
            && self.monochrome.same(&other.monochrome)
            && self.subsampling_x.same(&other.subsampling_x)
            && self.subsampling_y.same(&other.subsampling_y)
            && self.color_range.same(&other.color_range)
            && self.chroma_sample_position.same(&other.chroma_sample_position)
    }
}

impl FieldValue for StreamInfo {
    open spec fn spec_text(&self) -> Seq<char> {
        "StreamInfo { width: "@ + self.width.spec_text()
            + ", height: "@ + self.height.spec_text()
            + ", is_kf: "@ + self.is_kf.spec_text()
            + ", number_tlayers: "@ + self.number_tlayers.spec_text()
            + ", number_mlayers: "@ + self.number_mlayers.spec_text()
            + ", number_xlayers: "@ + self.number_xlayers.spec_text()
            + " }"@
    }

    fn text(&self) -> (s: String) {
        let mut s = String::from_str("StreamInfo { width: ");
        s.append(self.width.text().as_str());
        s.append(", height: ");
        s.append(self.height.text().as_str());
        s.append(", is_kf: ");
        s.append(self.is_kf.text().as_str());
        s.append(", number_tlayers: ");
        s.append(self.number_tlayers.text().as_str());
        s.append(", number_mlayers: ");
        s.append(self.number_mlayers.text().as_str());
        s.append(", number_xlayers: ");
        s.append(self.number_xlayers.text().as_str());
        s.append(" }");
        s
    }

    fn same(&self, other: &Self) -> (b: bool) {
        self.width.same(&other.width)
            && self.height.same(&other.height)
            && self.is_kf.same(&other.is_kf)
            && self.number_tlayers.same(&other.number_tlayers)
            && self.number_mlayers.same(&other.number_mlayers)
            && self.number_xlayers.same(&other.number_xlayers)
    }
}

impl FieldValue for FrameHeaderInfo {
    open spec fn spec_text(&self) -> Seq<char> {
        "FrameHeaderInfo { frame_type: "@ + self.frame_type.spec_text()
            + ", show_frame: "@ + self.show_frame.spec_text()
            + ", show_existing_frame: "@ + self.show_existing_frame.spec_text()
            + ", existing_frame_idx: "@ + self.existing_frame_idx.spec_text()
            + ", error_resilient_mode: "@ + self.error_resilient_mode.spec_text()
            + ", disable_cdf_update: "@ + self.disable_cdf_update.spec_text()
            + ", primary_ref_frame: "@ + self.primary_ref_frame.spec_text()
            + ", refresh_frame_flags: "@ + self.refresh_frame_flags.spec_text()
            + ", frame_size_override_flag: "@ + self.frame_size_override_flag.spec_text()
            + " }"@
    }

    fn text(&self) -> (s: String) {
        let mut s = String::from_str("FrameHeaderInfo { frame_type: ");
        s.append(self.frame_type.text().as_str());
        s.append(", show_frame: ");
        s.append(self.show_frame.text().as_str());
        s.append(", show_existing_frame: ");
        s.append(self.show_existing_frame.text().as_str());
        s.append(", existing_frame_idx: ");
        s.append(self.existing_frame_idx.text().as_str());
        s.append(", error_resilient_mode: ");
        s.append(self.error_resilient_mode.text().as_str());
        s.append(", disable_cdf_update: ");
        s.append(self.disable_cdf_update.text().as_str());
        s.append(", primary_ref_frame: ");
        s.append(self.primary_ref_frame.text().as_str());
        s.append(", refresh_frame_flags: ");
        s.append(self.refresh_frame_flags.text().as_str());
        s.append(", frame_size_override_flag: ");
        s.append(self.frame_size_override_flag.text().as_str());
        s.append(" }");
        s
    }

    fn same(&self, other: &Self) -> (b: bool) {
        self.frame_type.same(&other.frame_type)
            && self.show_frame.same(&other.show_frame)
            && self.show_existing_frame.same(&other.show_existing_frame)
            && self.existing_frame_idx.same(&other.existing_frame_idx)
            && self.error_resilient_mode.same(&other.error_resilient_mode)
            && self.disable_cdf_update.same(&other.disable_cdf_update)
            && self.primary_ref_frame.same(&other.primary_ref_frame)
            && self.refresh_frame_flags.same(&other.refresh_frame_flags)
            && self.frame_size_override_flag.same(&other.frame_size_override_flag)
    }
}

impl FieldValue for DecodeEvent {
    open spec fn spec_text(&self) -> Seq<char> {
        match *self {
            DecodeEvent::SequenceHeader(h) => "SequenceHeader("@ + h.spec_text() + ")"@,
            DecodeEvent::FrameHeader(h) => "FrameHeader("@ + h.spec_text() + ")"@,
        }
    }

    fn text(&self) -> (s: String) {
        let (mut s, inner) = match self {
            DecodeEvent::SequenceHeader(h) => (String::from_str("SequenceHeader("), h.text()),
            DecodeEvent::FrameHeader(h) => (String::from_str("FrameHeader("), h.text()),
        };
        s.append(inner.as_str());
        s.append(")");
        s
    }

    fn same(&self, other: &Self) -> (b: bool) {
        match (self, other) {
            (DecodeEvent::SequenceHeader(a), DecodeEvent::SequenceHeader(c)) => a.same(c),
            (DecodeEvent::FrameHeader(a), DecodeEvent::FrameHeader(c)) => a.same(c),
            _ => false,
        }
    }
}

} // verus!
