//! Codec backends.

pub mod dummy;
