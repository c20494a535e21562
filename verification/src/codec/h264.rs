//! H.264 parameter sets and the interface of their bitstream writer.

pub mod parser;
pub mod synthesizer;
