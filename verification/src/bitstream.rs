//! Minimal AV2/AV1-style OBU packet parsing.
//!
//! This module stops at packet structure and a narrow subset of header syntax:
//! it validates and splits compressed payloads into OBUs so the Rust backend can
//! make deterministic progress.

pub mod reader;
pub mod obu;
pub mod types;
pub mod sequence;
pub mod frame;

pub use reader::ParseError;
pub use obu::{Obu, ObuHeader, ObuExtensionHeader, parse_obus, parse_annexb_obus, parse_obus_auto};
pub use types::{ObuType, FramePacketKind, classify_frame_packet};
pub use sequence::{SequenceHeader, parse_sequence_header};
pub use frame::{
    FrameType, FrameHeaderInfo, UncompressedFrameHeader, RenderSize, SuperresParams, LoopFilterParams,
    QuantParams, SegmentationParams, DeltaQParams, DeltaLfParams, LoopRestorationParams, CdefParams,
    FilmGrainParams, TileGroup, reduced_still_picture_frame_header, parse_frame_header_info,
    parse_uncompressed_frame_header, parse_tile_group, split_frame_obu_payload,
};
