//! A backend that encodes nothing.

pub mod encoder;
