//! The decoder: its public API, and the walking-skeleton pipeline of entropy decoding,
//! prediction, transforms and reconstruction.

pub mod api;
pub mod block_info;
pub mod reconstruct;
pub mod entropy;
pub mod executor;
pub mod frame_buffer;
pub mod intra;
pub mod kernels;
pub mod partition;
pub mod quant;
pub mod symbols;
pub mod transform;

pub use api::{
    ErrorKind, DecoderError, StreamInfo, DecodeEvent, DecodeProgress, FrameBuffer, FrameBufferManager, Image, Frame,
    OwnedFrame, Decoder, DecoderBuilder,
};
