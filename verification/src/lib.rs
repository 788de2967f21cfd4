//! A verified decoder for baseline PNG images: 8-bit truecolor and
//! truecolor-alpha, no interlacing, critical chunks only.
//!
//! `png` holds the data model, the chunk framing and the decode
//! orchestrator; `defilter` the per-scanline reconstruction algorithm;
//! `zlib` the named results and trusted wrappers for CRC-32 and zlib
//! inflation; `laws` the properties proved of the decode as a whole.

pub mod defilter;
pub mod laws;
pub mod png;
pub mod zlib;
