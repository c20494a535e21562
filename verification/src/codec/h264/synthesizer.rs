//! Interface of the writer that turns parameter sets into NAL units.

use vstd::prelude::*;
use crate::codec::h264::parser::Pps;
use crate::codec::h264::parser::Sps;

verus! {

/// Why a parameter set could not be written.
#[derive(Clone, Copy, Debug, PartialEq, Eq, Structural)]
pub enum SynthesizerError {
    /// The structure holds a value that the writer has no syntax for.
    Unsupported,
    /// The buffer refused the bytes.
    Write,
}

/// `after` is `before` with bytes appended.
pub open spec fn extends(after: Seq<u8>, before: Seq<u8>) -> bool {
    after.len() >= before.len() && after.take(before.len() as int) == before
}

/// Writer of parameter set NAL units.
///
/// Each method appends one NAL unit to `buffer`, framed with a start code of
/// `start_code_len` bytes (3 or 4), or fails. Which bytes a writer appends
/// and which errors it gives is its own affair; it may say so in its
/// relations. A writer that says nothing admits every unit and every error.
pub trait Synthesizer {
    /// The NAL units that the writer may append for `sps`.
    open spec fn writes_sps(&self, start_code_len: usize, sps: Sps, unit: Seq<u8>) -> bool {
        true
    }

    /// The errors with which the writer may refuse `sps`.
    open spec fn refuses_sps(
        &self,
        start_code_len: usize,
        sps: Sps,
        error: SynthesizerError,
    ) -> bool {
        true
    }

    /// The NAL units that the writer may append for `pps`.
    open spec fn writes_pps(&self, start_code_len: usize, pps: Pps, unit: Seq<u8>) -> bool {
        true
    }

    /// The errors with which the writer may refuse `pps`.
    open spec fn refuses_pps(
        &self,
        start_code_len: usize,
        pps: Pps,
        error: SynthesizerError,
    ) -> bool {
        true
    }

    /// Appends the NAL unit of a sequence parameter set.
    fn synthesize_sps(&self, start_code_len: usize, sps: &Sps, buffer: &mut Vec<u8>) -> (r: Result<
        (),
        SynthesizerError,
    >)
        ensures
            r is Ok ==> extends(final(buffer)@, old(buffer)@) && self.writes_sps(
                start_code_len,
                *sps,
                final(buffer)@.skip(old(buffer)@.len() as int),
            ),
            r matches Err(e) ==> self.refuses_sps(start_code_len, *sps, e),
    ;

    /// Appends the NAL unit of a picture parameter set.
    fn synthesize_pps(&self, start_code_len: usize, pps: &Pps, buffer: &mut Vec<u8>) -> (r: Result<
        (),
        SynthesizerError,
    >)
        ensures
            r is Ok ==> extends(final(buffer)@, old(buffer)@) && self.writes_pps(
                start_code_len,
                *pps,
                final(buffer)@.skip(old(buffer)@.len() as int),
            ),
            r matches Err(e) ==> self.refuses_pps(start_code_len, *pps, e),
    ;
}

} // verus!
