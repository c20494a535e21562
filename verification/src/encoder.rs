//! Frames going into the encoder and coded buffers coming out of it.

use vstd::prelude::*;
use crate::FrameLayout;
use crate::FrameLayoutView;
use crate::Resolution;

pub mod stateless;

verus! {

/// What the client says of one input frame.
#[derive(Debug)]
pub struct FrameMetadata {
    pub timestamp: u64,
    pub display_resolution: Resolution,
    pub layout: FrameLayout,
    pub force_keyframe: bool,
}

/// Mathematical value of a [`FrameMetadata`].
pub struct FrameMetadataView {
    pub timestamp: u64,
    pub display_resolution: Resolution,
    pub layout: FrameLayoutView,
    pub force_keyframe: bool,
}

impl View for FrameMetadata {
    type V = FrameMetadataView;

    open spec fn view(&self) -> FrameMetadataView {
        FrameMetadataView {
            timestamp: self.timestamp,
            display_resolution: self.display_resolution,
            layout: self.layout@,
            force_keyframe: self.force_keyframe,
        }
    }
}

impl Clone for FrameMetadata {
    fn clone(&self) -> (r: Self)
        ensures
            r@ == self@,
    {
        FrameMetadata {
            timestamp: self.timestamp,
            display_resolution: self.display_resolution,
            layout: self.layout.clone(),
            force_keyframe: self.force_keyframe,
        }
    }
}

/// One coded frame: the metadata it came in with and its bitstream.
#[derive(Debug)]
pub struct CodedBitstreamBuffer {
    pub metadata: FrameMetadata,
    pub bitstream: Vec<u8>,
}

impl CodedBitstreamBuffer {
    /// The coded frame of `metadata` with `bitstream`.
    pub fn new(metadata: FrameMetadata, bitstream: Vec<u8>) -> (r: Self)
        ensures
            r.metadata == metadata,
            r.bitstream == bitstream,
    {
        CodedBitstreamBuffer { metadata, bitstream }
    }
}

} // verus!
