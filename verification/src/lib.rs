//! A pure-Rust AV2 (AVM) bitstream parser and walking-skeleton decoder.

pub mod backend;
pub mod bitstream;
pub mod decoder;
pub mod diff;
pub mod format;
pub mod ivf;
pub mod output;
pub mod stream;
pub mod text;
pub mod y4m;
