//! What every stateless encoder is built from: errors, promises of backend
//! results, the queue that hands those results out in order, and the
//! interfaces between client, encoder and backend.

use vstd::prelude::*;
use std::collections::VecDeque;
use vstd::std_specs::iter::IteratorSpec;
use crate::BlockingMode;
use crate::codec::h264::synthesizer::SynthesizerError;
use crate::encoder::CodedBitstreamBuffer;
use crate::encoder::FrameMetadata;
use crate::encoder::FrameMetadataView;

pub mod h264;

verus! {

/// `anyhow::Error`, the error that a backend gives when it has no better
/// one. The type is declared without its contents: the encoder carries such
/// a value from the backend to the client and never looks into it.
#[verifier::external_type_specification]
#[verifier::external_body]
pub struct ExAnyhowError(anyhow::Error);

/// Failure of a codec backend.
#[derive(Debug)]
pub enum StatelessBackendError {
    /// The backend cannot encode the profile.
    UnsupportedProfile,
    /// The backend cannot take the pixel format.
    UnsupportedFormat,
    /// The backend has not the resources for the operation now.
    OutOfResources,
    /// Any other failure of the backend.
    Other(anyhow::Error),
}

impl From<anyhow::Error> for StatelessBackendError {
    fn from(err: anyhow::Error) -> (r: Self) {
        StatelessBackendError::Other(err)
    }
}

impl vstd::std_specs::convert::FromSpecImpl<anyhow::Error> for StatelessBackendError {
    open spec fn obeys_from_spec() -> bool {
        true
    }

    open spec fn from_spec(err: anyhow::Error) -> Self {
        StatelessBackendError::Other(err)
    }
}

/// What a backend operation returns.
pub type StatelessBackendResult<T> = Result<T, StatelessBackendError>;

/// Failure of an encoder operation.
#[derive(Debug)]
pub enum EncodeError {
    /// A state was reached that the encoder's own rules exclude.
    InvalidInternalState,
    /// The backend failed.
    BackendError(StatelessBackendError),
    /// The parameter sets could not be written.
    H264SynthesizerError(SynthesizerError),
}

impl From<StatelessBackendError> for EncodeError {
    fn from(err: StatelessBackendError) -> (r: Self) {
        EncodeError::BackendError(err)
    }
}

impl vstd::std_specs::convert::FromSpecImpl<StatelessBackendError> for EncodeError {
    open spec fn obeys_from_spec() -> bool {
        true
    }

    open spec fn from_spec(err: StatelessBackendError) -> Self {
        EncodeError::BackendError(err)
    }
}

impl From<SynthesizerError> for EncodeError {
    fn from(err: SynthesizerError) -> (r: Self) {
        EncodeError::H264SynthesizerError(err)
    }
}

impl vstd::std_specs::convert::FromSpecImpl<SynthesizerError> for EncodeError {
    open spec fn obeys_from_spec() -> bool {
        true
    }

    open spec fn from_spec(err: SynthesizerError) -> Self {
        EncodeError::H264SynthesizerError(err)
    }
}

/// What an encoder operation returns.
pub type EncodeResult<T> = Result<T, EncodeError>;

/// A result that the backend has still to deliver.
///
/// What a promise does is the backend's affair. A promise may still say in
/// its three relations what it can do; one that says nothing admits
/// everything.
pub trait BackendPromise: Sized {
    type Output;

    /// The values that `sync` may deliver.
    open spec fn yields(&self, out: Self::Output) -> bool {
        true
    }

    /// The errors that `sync` may give.
    open spec fn fails_with(&self, error: StatelessBackendError) -> bool {
        true
    }

    /// The answers that `is_ready` may give.
    open spec fn may_report(&self, ready: bool) -> bool {
        true
    }

    /// Waits until the result is there and returns it.
    fn sync(self) -> (r: StatelessBackendResult<Self::Output>)
        ensures
            r matches Ok(out) ==> self.yields(out),
            r matches Err(error) ==> self.fails_with(error),
    ;

    /// True once `sync` would return without waiting.
    fn is_ready(&self) -> (r: bool)
        ensures
            self.may_report(r),
    ;
}

/// A promise of a value that is already there.
pub struct ReadyPromise<T>(pub T);

impl<T> From<T> for ReadyPromise<T> {
    fn from(value: T) -> (r: Self) {
        ReadyPromise(value)
    }
}

impl<T> vstd::std_specs::convert::FromSpecImpl<T> for ReadyPromise<T> {
    open spec fn obeys_from_spec() -> bool {
        true
    }

    open spec fn from_spec(value: T) -> Self {
        ReadyPromise(value)
    }
}

impl<T> BackendPromise for ReadyPromise<T> {
    type Output = T;

    /// The value that the promise holds.
    open spec fn yields(&self, out: T) -> bool {
        out == self.0
    }

    /// None.
    open spec fn fails_with(&self, error: StatelessBackendError) -> bool {
        false
    }

    /// Ready from the start.
    open spec fn may_report(&self, ready: bool) -> bool {
        ready
    }

    fn sync(self) -> (r: StatelessBackendResult<T>)
        ensures
            r == Ok::<T, StatelessBackendError>(self.0),
    {
        Ok(self.0)
    }

    fn is_ready(&self) -> (r: bool)
        ensures
            r,
    {
        true
    }
}

/// First-in first-out queue of promises.
///
/// A result leaves the queue only when all results before it have left, so
/// the order of the results is the order in which the promises came in,
/// whatever the order in which the backend finishes them.
pub struct OutputQueue<O: BackendPromise> {
    /// With `Blocking`, every `poll` waits for the oldest promise.
    blocking: BlockingMode,
    promises: VecDeque<O>,
}

impl<O: BackendPromise> View for OutputQueue<O> {
    type V = Seq<O>;

    /// The pending promises, oldest first.
    closed spec fn view(&self) -> Seq<O> {
        self.promises@
    }
}

impl<O: BackendPromise> OutputQueue<O> {
    /// The mode that the queue was made with.
    pub closed spec fn blocking(&self) -> BlockingMode {
        self.blocking
    }

    /// Whether a `poll` with `mode` waits for the oldest promise.
    pub open spec fn blocks(&self, mode: BlockingMode) -> bool {
        self.blocking() == BlockingMode::Blocking || mode == BlockingMode::Blocking
    }

    /// An empty queue that waits in every `poll` if `blocking` says so.
    pub fn new(blocking: BlockingMode) -> (r: Self)
        ensures
            r@ == Seq::<O>::empty(),
            r.blocking() == blocking,
    {
        OutputQueue { blocking, promises: VecDeque::new() }
    }

    /// Appends a promise.
    pub fn add_promise(&mut self, pending: O)
        ensures
            final(self)@ == old(self)@.push(pending),
            final(self).blocking() == old(self).blocking(),
    {
        self.promises.push_back(pending);
    }

    /// Whether a `poll` with `mode` may take the promise `head` out of the
    /// queue: it waits for the promise, or the promise may say that it is
    /// ready.
    pub open spec fn may_take(&self, mode: BlockingMode, head: O) -> bool {
        self.blocks(mode) || head.may_report(true)
    }

    /// Hands out the result of the oldest promise, if there is one and it is
    /// ready or the queue may wait for it.
    ///
    /// An empty queue gives `None`. A promise that is synchronised leaves the
    /// queue, whether its result is a value or an error. Without waiting, a
    /// promise that says that it is not ready stays where it is, and so do
    /// all later ones, ready or not.
    pub fn poll(&mut self, mode: BlockingMode) -> (r: StatelessBackendResult<Option<O::Output>>)
        ensures
            final(self).blocking() == old(self).blocking(),
            old(self)@.len() == 0 ==> (r matches Ok(None)) && final(self)@ == old(self)@,
            old(self)@.len() > 0 ==> match r {
                Ok(Some(out)) => {
                    &&& old(self).may_take(mode, old(self)@[0])
                    &&& old(self)@[0].yields(out)
                    &&& final(self)@ == old(self)@.skip(1)
                },
                Ok(None) => {
                    &&& !old(self).blocks(mode)
                    &&& old(self)@[0].may_report(false)
                    &&& final(self)@ == old(self)@
                },
                Err(error) => {
                    &&& old(self).may_take(mode, old(self)@[0])
                    &&& old(self)@[0].fails_with(error)
                    &&& final(self)@ == old(self)@.skip(1)
                },
            },
    {
        let block = self.blocking == BlockingMode::Blocking || mode == BlockingMode::Blocking;
        match self.promises.pop_front() {
            None => Ok(None),
            Some(o) => {
                if block || o.is_ready() {
                    match o.sync() {
                        Ok(out) => Ok(Some(out)),
                        Err(e) => Err(e),
                    }
                } else {
                    self.promises.push_front(o);
                    Ok(None)
                }
            },
        }
    }

    /// True if no promise is pending.
    pub fn is_empty(&self) -> (r: bool)
        ensures
            r == (self@.len() == 0),
    {
        self.promises.len() == 0
    }
}

/// What every backend of a stateless encoder offers.
pub trait StatelessVideoEncoderBackend<H> {
    /// The backend's own form of an input frame.
    type Picture;

    /// The errors with which the backend may refuse a frame. A backend
    /// that says nothing may give any.
    open spec fn refuses_picture(&self, error: StatelessBackendError) -> bool {
        true
    }

    /// Takes a frame over from the client.
    fn import_picture(&mut self, metadata: &FrameMetadata, handle: H) -> (r:
        StatelessBackendResult<Self::Picture>)
        ensures
            r matches Err(error) ==> old(self).refuses_picture(error),
    ;
}

/// What a stateless encoder offers to its client.
///
/// The contracts speak of two records that an encoder keeps in thought
/// only: the frames that it took in and the coded frames that it handed
/// out, each from its making on.
pub trait StatelessVideoEncoder<H> {
    /// What an encoder is made with and keeps for life.
    type Fixed;

    /// The states that the operations start from and, where they succeed,
    /// end in.
    spec fn wf(&self) -> bool;

    /// What the encoder was made with. No operation that succeeds changes
    /// it.
    spec fn fixed(&self) -> Self::Fixed;

    /// Metadata of every frame that `encode` took in, oldest first.
    spec fn taken_in(&self) -> Seq<FrameMetadataView>;

    /// Every coded frame that `poll` handed out, oldest first.
    spec fn handed_out(&self) -> Seq<CodedBitstreamBuffer>;

    /// The error with which an operation failed, if one did. An encoder
    /// that has failed is no longer well formed.
    spec fn failure(&self) -> Option<EncodeError>;

    /// Number of frames that `encode` took in and `poll` has not handed out.
    spec fn in_flight(&self) -> nat;

    /// Number of frames in flight that are coded and wait for `poll`.
    spec fn ready(&self) -> nat;

    /// The encoder holds no frame back and awaits nothing from the backend.
    spec fn quiescent(&self) -> bool;

    /// Nothing that the encoder relies on can fail, and what it has asked
    /// of the backend is there when it polls: such an encoder takes a frame
    /// in whenever it is quiescent, and polling or draining it makes it so.
    spec fn unfailing(&self) -> bool;

    /// No frame is lost and none made up: the frames handed out and the
    /// frames in flight are as many as the frames taken in.
    proof fn lemma_in_flight(&self)
        requires
            self.wf(),
        ensures
            self.handed_out().len() + self.in_flight() == self.taken_in().len(),
            self.failure() is None,
    ;

    /// In a quiescent encoder every frame in flight is ready.
    proof fn lemma_quiescent(&self)
        requires
            self.wf(),
            self.quiescent(),
        ensures
            self.ready() == self.in_flight(),
    ;

    /// Takes a frame in. The encoder may hold it back until later frames or
    /// reconstructed pictures have come.
    fn encode(&mut self, meta: FrameMetadata, handle: H) -> (r: Result<(), EncodeError>)
        requires
            old(self).wf(),
        ensures
            r is Ok ==> {
                &&& final(self).wf()
                &&& final(self).fixed() == old(self).fixed()
                &&& final(self).taken_in() == old(self).taken_in().push(meta@)
                &&& final(self).handed_out() == old(self).handed_out()
            },
            r matches Err(e) ==> final(self).failure() == Some(e),
            old(self).unfailing() && old(self).quiescent() ==> r is Ok && final(self).unfailing(),
    ;

    /// Has every frame in flight coded. Afterwards `poll` hands them out
    /// without further work. No frame is dropped and no keyframe forced.
    fn drain(&mut self) -> (r: EncodeResult<()>)
        requires
            old(self).wf(),
        ensures
            r is Ok ==> {
                &&& final(self).wf()
                &&& final(self).fixed() == old(self).fixed()
                &&& final(self).taken_in() == old(self).taken_in()
                &&& final(self).handed_out() == old(self).handed_out()
                &&& final(self).quiescent()
            },
            r matches Err(e) ==> final(self).failure() == Some(e),
            old(self).quiescent() ==> r is Ok,
            old(self).unfailing() ==> r is Ok && final(self).unfailing(),
    ;

    /// Hands out the next coded frame, if one is ready, without waiting.
    fn poll(&mut self) -> (r: EncodeResult<Option<CodedBitstreamBuffer>>)
        requires
            old(self).wf(),
        ensures
            r is Ok ==> final(self).wf() && final(self).taken_in() == old(self).taken_in()
                && final(self).fixed() == old(self).fixed(),
            r matches Ok(Some(buffer)) ==> final(self).handed_out() == old(self).handed_out().push(
                buffer,
            ),
            r matches Ok(None) ==> final(self).handed_out() == old(self).handed_out()
                && final(self).ready() == 0,
            r matches Err(e) ==> final(self).failure() == Some(e),
            old(self).quiescent() ==> r is Ok && final(self).quiescent(),
            old(self).unfailing() ==> r is Ok && final(self).unfailing() && final(self).quiescent(),
    ;
}

/// The bitstreams of `coded`, one after the other.
pub open spec fn joined_bitstreams(coded: Seq<CodedBitstreamBuffer>) -> Seq<u8>
    decreases coded.len(),
{
    if coded.len() == 0 {
        Seq::empty()
    } else {
        joined_bitstreams(coded.drop_last()) + coded.last().bitstream@
    }
}

/// The metadata of each of `frames`.
pub open spec fn produced_frames<H>(frames: Seq<(FrameMetadata, H)>) -> Seq<FrameMetadataView> {
    frames.map_values(|frame: (FrameMetadata, H)| frame.0@)
}

/// Appends the bitstream of a coded frame to `bitstream`.
pub fn append_coded(bitstream: &mut Vec<u8>, coded: CodedBitstreamBuffer)
    ensures
        final(bitstream)@ == old(bitstream)@ + coded.bitstream@,
{
    let mut bytes = coded.bitstream;
    bitstream.append(&mut bytes);
}

/// Polls `encoder` until it has nothing ready, appending what comes to
/// `bitstream`.
fn collect_ready<E, H>(encoder: &mut E, bitstream: &mut Vec<u8>) -> (r: EncodeResult<()>) where
    E: StatelessVideoEncoder<H>,

    requires
        old(encoder).wf(),
    ensures
        r is Ok ==> {
            &&& final(encoder).wf()
            &&& final(encoder).fixed() == old(encoder).fixed()
            &&& final(encoder).ready() == 0
            &&& final(encoder).taken_in() == old(encoder).taken_in()
            &&& final(encoder).handed_out().len() >= old(encoder).handed_out().len()
            &&& final(encoder).handed_out().take(old(encoder).handed_out().len() as int)
                == old(encoder).handed_out()
            &&& final(bitstream)@ == old(bitstream)@ + joined_bitstreams(
                final(encoder).handed_out().skip(old(encoder).handed_out().len() as int),
            )
        },
        r matches Err(e) ==> final(encoder).failure() == Some(e),
        old(encoder).quiescent() ==> r is Ok && final(encoder).quiescent(),
        old(encoder).unfailing() ==> r is Ok && final(encoder).unfailing()
            && final(encoder).quiescent(),
{
    let ghost start = encoder.handed_out().len() as int;
    loop
        invariant
            encoder.wf(),
            encoder.fixed() == old(encoder).fixed(),
            start == old(encoder).handed_out().len(),
            encoder.taken_in() == old(encoder).taken_in(),
            encoder.handed_out().len() >= start,
            encoder.handed_out().take(start) == old(encoder).handed_out(),
            bitstream@ == old(bitstream)@ + joined_bitstreams(encoder.handed_out().skip(start)),
            old(encoder).quiescent() ==> encoder.quiescent(),
            old(encoder).unfailing() ==> encoder.unfailing(),
        decreases encoder.in_flight(),
    {
        let ghost before = encoder.handed_out();
        proof {
            encoder.lemma_in_flight();
        }
        match encoder.poll() {
            Err(e) => {
                return Err(e);
            },
            Ok(None) => {
                return Ok(());
            },
            Ok(Some(coded)) => {
                proof {
                    encoder.lemma_in_flight();
                    let now = encoder.handed_out();
                    assert(now.skip(start).drop_last() =~= before.skip(start));
                }
                append_coded(bitstream, coded);
            },
        }
    }
}

/// Encodes every frame that `frame_producer` gives and returns the coded
/// frames' bitstreams, one after the other in the order in which the encoder
/// handed them out.
///
/// On success the encoder has taken in every frame of the producer, has
/// handed out every frame that it held or took in, and the result is made
/// of the bitstreams of exactly the frames handed out during the call. The
/// first error of the encoder ends the loop and is returned: it is the
/// error that the encoder records as its failure. With no frame to encode
/// and a quiescent encoder there is none, nor with a quiescent encoder that
/// is unfailing, which is so again afterwards. Whatever the result, the
/// frames left in the producer are the last of those that were in it: none
/// is taken after an error. The encoder keeps what it was made with.
pub fn simple_encode_loop<E, H, P>(encoder: &mut E, frame_producer: &mut P) -> (r: EncodeResult<
    Vec<u8>,
>) where E: StatelessVideoEncoder<H>, P: Iterator<Item = (FrameMetadata, H)>
    requires
        old(encoder).wf(),
        (*old(frame_producer)).obeys_prophetic_iter_laws(),
        (*old(frame_producer)).decrease() is Some,
    ensures
        r matches Ok(bitstream) ==> {
            &&& final(encoder).wf()
            &&& final(encoder).fixed() == old(encoder).fixed()
            &&& old(encoder).unfailing() && old(encoder).quiescent()
                ==> final(encoder).unfailing() && final(encoder).quiescent()
            &&& final(encoder).in_flight() == 0
            &&& final(encoder).taken_in() == old(encoder).taken_in() + produced_frames(
                (*old(frame_producer)).remaining(),
            )
            &&& final(encoder).handed_out().len() >= old(encoder).handed_out().len()
            &&& final(encoder).handed_out().take(old(encoder).handed_out().len() as int)
                == old(encoder).handed_out()
            &&& bitstream@ == joined_bitstreams(
                final(encoder).handed_out().skip(old(encoder).handed_out().len() as int),
            )
            &&& (*final(frame_producer)).remaining().len() == 0
        },
        r matches Err(e) ==> final(encoder).failure() == Some(e),
        exists|taken: int|
            0 <= taken <= (*old(frame_producer)).remaining().len()
                && (*final(frame_producer)).remaining()
                == #[trigger] (*old(frame_producer)).remaining().skip(taken),
        old(encoder).quiescent() && (*old(frame_producer)).remaining().len() == 0 ==> r is Ok,
        old(encoder).unfailing() && old(encoder).quiescent() ==> r is Ok,
{
    let mut bitstream: Vec<u8> = Vec::new();
    let ghost start = encoder.handed_out().len() as int;
    let ghost all = (*frame_producer).remaining();
    let ghost mut done: int = 0;
    loop
        invariant
            encoder.wf(),
            encoder.fixed() == old(encoder).fixed(),
            (*frame_producer).obeys_prophetic_iter_laws(),
            (*frame_producer).decrease() is Some,
            start == old(encoder).handed_out().len(),
            all == (*old(frame_producer)).remaining(),
            0 <= done <= all.len(),
            (*frame_producer).remaining() == all.skip(done),
            encoder.taken_in() == old(encoder).taken_in() + produced_frames(all.take(done)),
            encoder.handed_out().len() >= start,
            encoder.handed_out().take(start) == old(encoder).handed_out(),
            bitstream@ == joined_bitstreams(encoder.handed_out().skip(start)),
            done == 0 && old(encoder).quiescent() ==> encoder.quiescent(),
            old(encoder).unfailing() && old(encoder).quiescent() ==> encoder.unfailing()
                && encoder.quiescent(),
        ensures
            (*frame_producer).remaining().len() == 0,
            done == all.len(),
        decreases (*frame_producer).decrease()->0,
    {
        match frame_producer.next() {
            None => {
                break ;
            },
            Some((meta, handle)) => {
                proof {
                    done = done + 1;
                    assert((*frame_producer).remaining() =~= all.skip(done));
                }
                match encoder.encode(meta, handle) {
                    Err(e) => {
                        return Err(e);
                    },
                    Ok(()) => {},
                }
                let ghost before = encoder.handed_out();
                match collect_ready(encoder, &mut bitstream) {
                    Err(e) => {
                        return Err(e);
                    },
                    Ok(()) => {},
                }
                proof {
                    lemma_joined_split(encoder.handed_out().skip(start), before.len() - start);
                    assert(encoder.handed_out().skip(start).take(before.len() - start)
                        =~= before.skip(start));
                    assert(encoder.handed_out().skip(start).skip(before.len() - start)
                        =~= encoder.handed_out().skip(before.len() as int));
                }
            },
        }
    }
    match encoder.drain() {
        Err(e) => {
            return Err(e);
        },
        Ok(()) => {},
    }
    let ghost before = encoder.handed_out();
    match collect_ready(encoder, &mut bitstream) {
        Err(e) => {
            return Err(e);
        },
        Ok(()) => {},
    }
    proof {
        encoder.lemma_quiescent();
        lemma_joined_split(encoder.handed_out().skip(start), before.len() - start);
        assert(encoder.handed_out().skip(start).take(before.len() - start) =~= before.skip(start));
        assert(encoder.handed_out().skip(start).skip(before.len() - start)
            =~= encoder.handed_out().skip(before.len() as int));
    }
    Ok(bitstream)
}

/// Joining the bitstreams of a sequence is joining those of its first
/// `at` frames and then those of the rest.
pub proof fn lemma_joined_split(coded: Seq<CodedBitstreamBuffer>, at: int)
    requires
        0 <= at <= coded.len(),
    ensures
        joined_bitstreams(coded) == joined_bitstreams(coded.take(at)) + joined_bitstreams(
            coded.skip(at),
        ),
    decreases coded.len(),
{
    if at == coded.len() {
        assert(coded.take(at) =~= coded);
    } else {
        lemma_joined_split(coded.drop_last(), at);
        assert(coded.drop_last().take(at) =~= coded.take(at));
        assert(coded.drop_last().skip(at) =~= coded.skip(at).drop_last());
    }
}

} // verus!
