//! Codec for the BLP texture container format (versions BLP0, BLP1, BLP2).
//!
//! The library parses raw bytes into a lossless structured representation
//! and serialises that representation back to bytes, byte-identical to a
//! well-formed original file.

pub mod bitmap;
pub mod content;
pub mod convert;
pub mod direct;
pub mod dxt_blocks;
pub mod dxt_codec;
pub mod encode;
pub mod header;
pub mod jpeg;
pub mod locator;
pub mod parser;
pub mod path;
pub mod primitives;
pub mod quantize;
pub mod raster;
pub mod roundtrip;
pub mod target;
pub mod version;
