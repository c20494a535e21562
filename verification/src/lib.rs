//! Control core of a stateless H.264 video encoder.
//!
//! The crate decides which frames become IDR, P or B pictures, keeps the
//! decoded picture buffer, and threads the two result streams of a codec
//! backend (coded slices and reconstructed pictures) back to its clients in
//! encode order. Compressing pixels is left to the backend.

use vstd::prelude::*;

pub mod backend;
pub mod codec;
pub mod encoder;

verus! {

/// Whether an operation may wait for the backend.
#[derive(Clone, Copy, Debug, PartialEq, Eq, Structural)]
pub enum BlockingMode {
    Blocking,
    NonBlocking,
}

/// Width and height in pixels.
#[derive(Clone, Copy, Debug, PartialEq, Eq, Structural)]
pub struct Resolution {
    pub width: u32,
    pub height: u32,
}

/// Four character code of a pixel format, first character in the low byte.
#[derive(Clone, Copy, Debug, PartialEq, Eq, Structural)]
pub struct Fourcc(pub u32);

/// Where one plane of a frame lies in its buffer.
#[derive(Clone, Copy, Debug, PartialEq, Eq, Structural)]
pub struct PlaneLayout {
    pub buffer_index: usize,
    pub offset: usize,
    pub stride: usize,
}

/// Pixel format, size and planes of a frame.
#[derive(Debug)]
pub struct FrameLayout {
    /// Format code and modifier.
    pub format: (Fourcc, u64),
    pub size: Resolution,
    pub planes: Vec<PlaneLayout>,
}

/// Mathematical value of a [`FrameLayout`].
pub struct FrameLayoutView {
    pub format: (Fourcc, u64),
    pub size: Resolution,
    pub planes: Seq<PlaneLayout>,
}

impl View for FrameLayout {
    type V = FrameLayoutView;

    open spec fn view(&self) -> FrameLayoutView {
        FrameLayoutView { format: self.format, size: self.size, planes: self.planes@ }
    }
}

impl Clone for FrameLayout {
    fn clone(&self) -> (r: Self)
        ensures
            r@ == self@,
    {
        let planes = self.planes.clone();
        assert(planes@ =~= self.planes@);
        FrameLayout { format: self.format, size: self.size, planes }
    }
}

} // verus!
