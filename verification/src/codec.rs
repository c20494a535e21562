//! Codec data shared by the encoder and its backends.

pub mod h264;
