//! A backend without a codec: every slice it "encodes" is empty. To tell
//! the coded frames apart it gives each one a message with the frame's
//! timestamp.

use vstd::prelude::*;
use vstd::bytes::spec_u64_to_le_bytes;
use vstd::bytes::u64_to_le_bytes;
use crate::encoder::FrameMetadata;
use crate::encoder::stateless::ReadyPromise;
use crate::encoder::stateless::StatelessBackendResult;
use crate::encoder::stateless::StatelessVideoEncoderBackend;
use crate::codec::h264::synthesizer::Synthesizer;
use crate::encoder::stateless::h264::BackendRequest;
use crate::encoder::stateless::h264::BackendRequestView;
use crate::encoder::stateless::StatelessBackendError;
use crate::encoder::stateless::h264::StatelessEncoder;
use crate::encoder::stateless::h264::StatelessH264EncoderBackend;

verus! {

/// Identifier of the timestamp message: sixteen characters that say whose
/// stamp it is.
pub const DUMMY_TS_SEI_UUID: [u8; 16] = [
    0x63,
    0x72,
    0x6f,
    0x73,
    0x2d,
    0x63,
    0x6f,
    0x64,
    0x65,
    0x63,
    0x73,
    0x2d,
    0x74,
    0x69,
    0x6d,
    0x65,
];

/// Type of a NAL unit that holds supplemental enhancement information.
pub const NALU_TYPE_SEI: u8 = 6;

/// Type of a message of unregistered user data.
pub const SEI_USER_DATA_UNREGISTERED: u8 = 5;

/// The NAL unit that marks a coded frame with `timestamp`: a start code of
/// three bytes, the unit's header, one message of unregistered user data
/// that holds the identifier and the timestamp in 8 bytes, lowest first,
/// and the bit that ends the unit.
pub open spec fn timestamp_sei(timestamp: u64) -> Seq<u8> {
    seq![0u8, 0u8, 1u8, NALU_TYPE_SEI, SEI_USER_DATA_UNREGISTERED, 24u8] + DUMMY_TS_SEI_UUID@
        + spec_u64_to_le_bytes(timestamp) + seq![0x80u8]
}

/// Appends [`timestamp_sei`] to `buffer`.
pub fn write_timestamp_sei(buffer: &mut Vec<u8>, timestamp: u64)
    ensures
        final(buffer)@ == old(buffer)@ + timestamp_sei(timestamp),
{
    buffer.push(0);
    buffer.push(0);
    buffer.push(1);
    buffer.push(NALU_TYPE_SEI);
    buffer.push(SEI_USER_DATA_UNREGISTERED);
    buffer.push(24);
    let ghost framed = buffer@;
    let mut i: usize = 0;
    while i < 16
        invariant
            i <= 16,
            buffer@ == framed + DUMMY_TS_SEI_UUID@.take(i as int),
        decreases 16 - i,
    {
        buffer.push(DUMMY_TS_SEI_UUID[i]);
        i += 1;
    }
    let mut stamp = u64_to_le_bytes(timestamp);
    buffer.append(&mut stamp);
    buffer.push(0x80);
}

/// Backend without a codec behind it.
pub struct Backend;

/// An encoder on this backend fails only where its predictor does, and
/// hands a coded frame out as soon as it has requested it: the backend
/// refuses nothing, and its promises are ready and hold what they promise.
pub proof fn law_backend_is_dependable<S: Synthesizer>()
    ensures
        StatelessEncoder::<(), Backend, S>::dependable(),
        StatelessEncoder::<(), Backend, S>::prompt(),
{
}

impl StatelessVideoEncoderBackend<()> for Backend {
    type Picture = ();

    /// None.
    open spec fn refuses_picture(&self, error: StatelessBackendError) -> bool {
        false
    }

    /// There is no picture to take over.
    fn import_picture(&mut self, metadata: &FrameMetadata, handle: ()) -> (r:
        StatelessBackendResult<()>)
        ensures
            r is Ok,
    {
        Ok(())
    }
}

impl StatelessH264EncoderBackend<()> for Backend {
    type Reference = ();

    type CodedPromise = ReadyPromise<Vec<u8>>;

    type ReconPromise = ReadyPromise<()>;

    /// None.
    open spec fn refuses_slice(&self, error: StatelessBackendError) -> bool {
        false
    }

    /// Promises that are ready: the coded frame is what the request brought
    /// as `coded_output`, followed by the message with the frame's
    /// timestamp.
    open spec fn answers(
        &self,
        request: BackendRequestView<(), ()>,
        recon: ReadyPromise<()>,
        coded: ReadyPromise<Vec<u8>>,
    ) -> bool {
        coded.0@ == request.coded_output + timestamp_sei(request.input_meta.timestamp)
    }

    /// Both results are there at once: the coded frame is what the request
    /// brought as `coded_output`, followed by the message with the frame's
    /// timestamp.
    fn encode_slice(&mut self, request: BackendRequest<(), ()>) -> (r: StatelessBackendResult<
        (ReadyPromise<()>, ReadyPromise<Vec<u8>>),
    >)
        ensures
            r matches Ok((recon, coded)) && coded.0@ == request.coded_output@ + timestamp_sei(
                request.input_meta.timestamp,
            ),
    {
        let mut coded_output = request.coded_output;
        write_timestamp_sei(&mut coded_output, request.input_meta.timestamp);
        Ok((ReadyPromise(()), ReadyPromise(coded_output)))
    }
}

} // verus!
