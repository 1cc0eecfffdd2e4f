//! OBU types, packet classification and header records.
use vstd::prelude::*;
use super::obu::{Obu, ObuHeader};

verus! {

/// OBU types we recognize at the packet layer.
#[derive(Debug, Clone, Copy, PartialEq, Eq, Hash, Structural)]
pub enum ObuType {
    SequenceHeader,
    TemporalDelimiter,
    FrameHeader,
    TileGroup,
    Metadata,
    Frame,
    RedundantFrameHeader,
    TileList,
    Padding,
    Other(u8),
}

/// The OBU type that a raw type field denotes.
pub open spec fn spec_obu_type(raw: u8) -> ObuType {
    if raw == 1 {
        ObuType::SequenceHeader
    } else if raw == 2 {
        ObuType::TemporalDelimiter
    } else if raw == 3 {
        ObuType::FrameHeader
    } else if raw == 4 || raw == 10 || raw == 11 || raw == 12 || raw == 13 || raw == 14 || raw == 19 || raw == 21 {
        ObuType::Frame
    } else if raw == 6 || raw == 7 {
        ObuType::TileGroup
    } else if raw == 5 || raw == 8 || raw == 9 {
        ObuType::Metadata
    } else if raw == 15 {
        ObuType::Padding
    } else {
        ObuType::Other(raw)
    }
}

/// Whether an OBU type carries frame data.
pub open spec fn spec_is_frame_data(t: ObuType) -> bool {
    t is FrameHeader || t is TileGroup || t is Frame || t is RedundantFrameHeader || t is TileList
}

impl ObuType {
    pub fn from_raw(raw: u8) -> (t: Self)
        ensures
            t == spec_obu_type(raw),
    {
        match raw {
            1 => Self::SequenceHeader,
            2 => Self::TemporalDelimiter,
            3 => Self::FrameHeader,
            4 | 10 | 11 | 12 | 13 | 14 | 19 | 21 => Self::Frame,
            6 | 7 => Self::TileGroup,
            5 | 8 | 9 => Self::Metadata,
            15 => Self::Padding,
            other => Self::Other(other),
        }
    }

    pub fn is_frame_data(self) -> (b: bool)
        ensures
            b == spec_is_frame_data(self),
    {
        match self {
            Self::FrameHeader | Self::TileGroup | Self::Frame | Self::RedundantFrameHeader | Self::TileList => true,
            _ => false,
        }
    }

    /// Lower-case name of the type, as used in logs.
    pub fn name(self) -> (s: String)
        ensures
            s@ == spec_obu_type_name(self),
    {
        match self {
            Self::SequenceHeader => String::from_str("sequence_header"),
            Self::TemporalDelimiter => String::from_str("temporal_delimiter"),
            Self::FrameHeader => String::from_str("frame_header"),
            Self::TileGroup => String::from_str("tile_group"),
            Self::Metadata => String::from_str("metadata"),
            Self::Frame => String::from_str("frame"),
            Self::RedundantFrameHeader => String::from_str("redundant_frame_header"),
            Self::TileList => String::from_str("tile_list"),
            Self::Padding => String::from_str("padding"),
            Self::Other(raw) => {
                let digits = crate::text::decimal_u64(raw as u64);
                let s = String::from_str("other(");
                let s = s.concat(digits.as_str());
                s.concat(")")
            },
        }
    }
}

/// Lower-case name of an OBU type.
pub open spec fn spec_obu_type_name(t: ObuType) -> Seq<char> {
    match t {
        ObuType::SequenceHeader => "sequence_header"@,
        ObuType::TemporalDelimiter => "temporal_delimiter"@,
        ObuType::FrameHeader => "frame_header"@,
        ObuType::TileGroup => "tile_group"@,
        ObuType::Metadata => "metadata"@,
        ObuType::Frame => "frame"@,
        ObuType::RedundantFrameHeader => "redundant_frame_header"@,
        ObuType::TileList => "tile_list"@,
        ObuType::Padding => "padding"@,
        ObuType::Other(raw) => "other("@ + crate::text::spec_decimal(raw as nat) + ")"@,
    }
}

/// High-level classification for packets that contain frame-bearing OBUs.
#[derive(Debug, Clone, Copy, PartialEq, Eq, Hash, Structural)]
pub enum FramePacketKind {
    Frame,
    FrameHeader,
    TileGroup,
    RedundantFrameHeader,
    TileList,
    Mixed,
}

/// The frame-bearing kind of a single OBU type, if any.
pub open spec fn spec_kind_of(t: ObuType) -> Option<FramePacketKind> {
    match t {
        ObuType::Frame => Some(FramePacketKind::Frame),
        ObuType::FrameHeader => Some(FramePacketKind::FrameHeader),
        ObuType::TileGroup => Some(FramePacketKind::TileGroup),
        ObuType::RedundantFrameHeader => Some(FramePacketKind::RedundantFrameHeader),
        ObuType::TileList => Some(FramePacketKind::TileList),
        _ => None,
    }
}

/// Classification of a list of OBU headers: the common frame-bearing kind, `Mixed`
/// when two kinds differ, `None` when no OBU bears frame data.
pub open spec fn spec_classify(headers: Seq<ObuHeader>) -> Option<FramePacketKind>
    decreases headers.len(),
{
    if headers.len() == 0 {
        None
    } else {
        let prefix = spec_classify(headers.drop_last());
        match spec_kind_of(spec_obu_type(headers.last().obu_type)) {
            None => prefix,
            Some(current) => match prefix {
                None => Some(current),
                Some(existing) => if existing == current {
                    Some(existing)
                } else {
                    Some(FramePacketKind::Mixed)
                },
            },
        }
    }
}

/// The headers of a list of OBUs.
pub open spec fn obu_headers(obus: Seq<Obu>) -> Seq<ObuHeader> {
    obus.map_values(|o: Obu| o.header)
}

/// Classify the frame-bearing intent of one parsed packet.
pub fn classify_frame_packet(obus: &[Obu<'_>]) -> (kind: Option<FramePacketKind>)
    ensures
        kind == spec_classify(obu_headers(obus@)),
{
    let mut kind: Option<FramePacketKind> = None;
    let mut i: usize = 0;
    while i < obus.len()
        invariant
            i <= obus@.len(),
            kind == spec_classify(obu_headers(obus@.subrange(0, i as int))),
        decreases obus@.len() - i,
    {
        let t = ObuType::from_raw(obus[i].header.obu_type);
        let current = match t {
            ObuType::Frame => Some(FramePacketKind::Frame),
            ObuType::FrameHeader => Some(FramePacketKind::FrameHeader),
            ObuType::TileGroup => Some(FramePacketKind::TileGroup),
            ObuType::RedundantFrameHeader => Some(FramePacketKind::RedundantFrameHeader),
            ObuType::TileList => Some(FramePacketKind::TileList),
            _ => None,
        };
        if let Some(current) = current {
            kind = Some(match kind {
                None => current,
                Some(existing) => if existing == current {
                    existing
                } else {
                    FramePacketKind::Mixed
                },
            });
        }
        proof {
            let hs = obu_headers(obus@.subrange(0, i + 1));
            assert(hs.drop_last() == obu_headers(obus@.subrange(0, i as int)));
            assert(hs.last() == obus@[i as int].header);
        }
        i = i + 1;
    }
    assert(obus@.subrange(0, obus@.len() as int) == obus@);
    kind
}

} // verus!
