//! The stateless H.264 encoder: its configuration, the requests it sends to
//! the backend, and the encoder that binds predictor, backend and queues.

use vstd::prelude::*;
use std::collections::VecDeque;
use std::rc::Rc;
use crate::BlockingMode;
use crate::Resolution;
use crate::codec::h264::parser::Level;
use crate::codec::h264::parser::Pps;
use crate::codec::h264::parser::Profile;
use crate::codec::h264::parser::SliceHeader;
use crate::codec::h264::parser::Sps;
use crate::codec::h264::parser::macroblocks_across;
use crate::codec::h264::parser::spec_macroblocks_across;
use crate::codec::h264::synthesizer::Synthesizer;
use crate::encoder::CodedBitstreamBuffer;
use crate::encoder::FrameMetadata;
use crate::encoder::FrameMetadataView;
use crate::encoder::stateless::BackendPromise;
use crate::encoder::stateless::EncodeError;
use crate::encoder::stateless::EncodeResult;
use crate::encoder::stateless::OutputQueue;
use crate::encoder::stateless::StatelessBackendError;
use crate::encoder::stateless::StatelessBackendResult;
use crate::encoder::stateless::StatelessVideoEncoder;
use crate::encoder::stateless::StatelessVideoEncoderBackend;
use crate::encoder::stateless::h264::predictor::AnyPredictor;
use crate::encoder::stateless::h264::predictor::PredictionStructure;
use crate::encoder::stateless::h264::predictor::Predictor;
use crate::encoder::stateless::h264::predictor::PredictorVerdict;
use crate::encoder::stateless::h264::predictor::low_delay::is_idr_at;
use crate::encoder::stateless::h264::predictor::request_frames;
use crate::encoder::stateless::h264::predictor::request_places;
use crate::encoder::stateless::h264::predictor::request_views;

pub mod predictor;

verus! {

/// Highest in-sequence position count of a low-delay sequence whose picture
/// order counts still fit their 16 bits.
pub const MAX_LOW_DELAY_LIMIT: u16 = 32768;

/// Highest quantization parameter of H.264.
pub const MAX_QP: u8 = 51;

/// Target bitrate of the stream.
#[derive(Clone, Copy, Debug)]
pub enum Bitrate {
    /// The same number of bits per second throughout.
    Constant(u64),
}

impl Bitrate {
    /// Bits per second.
    pub open spec fn spec_target(&self) -> u64 {
        match self {
            Bitrate::Constant(target) => *target,
        }
    }

    /// Bits per second.
    #[verifier::when_used_as_spec(spec_target)]
    pub fn target(&self) -> (r: u64)
        ensures
            r == self.spec_target(),
    {
        match self {
            Bitrate::Constant(target) => *target,
        }
    }
}

/// What the client fixes for the life of an encoder.
#[derive(Clone, Copy, Debug)]
pub struct EncoderConfig {
    pub bitrate: Bitrate,
    /// Frames per second.
    pub framerate: u32,
    pub resolution: Resolution,
    pub profile: Profile,
    pub level: Level,
    pub pred_structure: PredictionStructure,
    /// Quantization parameter of every slice, 0 to 51.
    pub default_qp: u8,
}

impl EncoderConfig {
    /// The configurations that an encoder can be made from: the quantization
    /// parameter is one of H.264, the time scale and the number of
    /// macroblocks fit 32 bits, and a low-delay structure has a reference, a
    /// sequence of at least one frame, and picture order counts that fit 16
    /// bits.
    pub open spec fn valid(&self) -> bool {
        &&& self.default_qp <= MAX_QP
        &&& self.framerate * 2 <= u32::MAX
        &&& spec_macroblocks_across(self.resolution.width) * spec_macroblocks_across(
            self.resolution.height,
        ) <= u32::MAX
        &&& match self.pred_structure {
            PredictionStructure::LowDelay { tail, limit } => 1 <= tail && 1 <= limit
                <= MAX_LOW_DELAY_LIMIT,
            PredictionStructure::GroupOfPictures { .. } => true,
        }
    }

    /// Tests [`Self::valid`].
    pub fn is_valid(&self) -> (r: bool)
        ensures
            r == self.valid(),
    {
        let across: u64 = macroblocks_across(self.resolution.width) as u64;
        let down: u64 = macroblocks_across(self.resolution.height) as u64;
        assert(across * down <= 0x1000_0000 * 0x1000_0000) by (nonlinear_arith)
            requires
                across <= 0x1000_0000,
                down <= 0x1000_0000,
        ;
        let structure_fits = match self.pred_structure {
            PredictionStructure::LowDelay { tail, limit } => 1 <= tail && 1 <= limit && limit
                <= MAX_LOW_DELAY_LIMIT,
            PredictionStructure::GroupOfPictures { .. } => true,
        };
        self.default_qp <= MAX_QP && self.framerate <= u32::MAX / 2 && across * down
            <= u32::MAX as u64 && structure_fits
    }
}

impl Default for EncoderConfig {
    /// A configuration that most backends support.
    fn default() -> (r: Self)
        ensures
            r.bitrate == Bitrate::Constant(30_000_000),
            r.framerate == 30,
            r.resolution == (Resolution { width: 320, height: 240 }),
            r.profile == Profile::Baseline,
            r.level == Level::L4,
            r.pred_structure == (PredictionStructure::LowDelay { tail: 1, limit: 2048 }),
            r.default_qp == 26,
            r.valid(),
    {
        assert(spec_macroblocks_across(320) == 20 && spec_macroblocks_across(240) == 15);
        EncoderConfig {
            bitrate: Bitrate::Constant(30_000_000),
            framerate: 30,
            resolution: Resolution { width: 320, height: 240 },
            profile: Profile::Baseline,
            level: Level::L4,
            pred_structure: PredictionStructure::LowDelay { tail: 1, limit: 2048 },
            default_qp: 26,
        }
    }
}

/// Whether later pictures may be predicted from a picture.
#[derive(Clone, Copy, Debug, PartialEq, Eq, Structural)]
pub enum IsReference {
    No,
    ShortTerm,
    LongTerm,
}

/// The place of a picture in its sequence. It also tells the reconstructed
/// pictures apart when they come back from the backend.
#[derive(Clone, Copy, Debug, PartialEq, Eq, Structural)]
pub struct DpbEntryMeta {
    /// Picture order count.
    pub poc: u16,
    pub frame_num: u32,
    pub is_reference: IsReference,
}

/// A reconstructed picture with its place in the sequence.
pub struct DpbEntry<R> {
    pub recon_pic: R,
    pub meta: DpbEntryMeta,
}

/// One slice for the backend to encode.
pub struct BackendRequest<P, R> {
    pub sps: Rc<Sps>,
    pub pps: Rc<Pps>,
    pub header: SliceHeader,
    /// The frame to encode.
    pub input: P,
    pub input_meta: FrameMetadata,
    /// Place of the frame in the sequence.
    pub dpb_meta: DpbEntryMeta,
    /// References from the past, nearest first.
    pub ref_list_0: Vec<Rc<DpbEntry<R>>>,
    /// References from the future.
    pub ref_list_1: Vec<Rc<DpbEntry<R>>>,
    /// Macroblocks in the slice.
    pub num_macroblocks: usize,
    /// True if the slice begins a sequence.
    pub is_idr: bool,
    pub config: Rc<EncoderConfig>,
    /// The parameter sets of a new sequence, else empty. The backend appends
    /// the slice and gives the whole as the coded frame.
    pub coded_output: Vec<u8>,
}

/// Mathematical value of a [`BackendRequest`].
pub struct BackendRequestView<P, R> {
    pub sps: Sps,
    pub pps: Pps,
    pub header: SliceHeader,
    pub input: P,
    pub input_meta: FrameMetadata,
    pub dpb_meta: DpbEntryMeta,
    pub ref_list_0: Seq<Rc<DpbEntry<R>>>,
    pub ref_list_1: Seq<Rc<DpbEntry<R>>>,
    pub num_macroblocks: usize,
    pub is_idr: bool,
    pub config: EncoderConfig,
    pub coded_output: Seq<u8>,
}

impl<P, R> View for BackendRequest<P, R> {
    type V = BackendRequestView<P, R>;

    open spec fn view(&self) -> BackendRequestView<P, R> {
        BackendRequestView {
            sps: *self.sps,
            pps: *self.pps,
            header: self.header,
            input: self.input,
            input_meta: self.input_meta,
            dpb_meta: self.dpb_meta,
            ref_list_0: self.ref_list_0@,
            ref_list_1: self.ref_list_1@,
            num_macroblocks: self.num_macroblocks,
            is_idr: self.is_idr,
            config: *self.config,
            coded_output: self.coded_output@,
        }
    }
}

/// The promise of a coded slice, with the metadata of its frame.
pub struct SlicePromise<P> where P: BackendPromise<Output = Vec<u8>> {
    pub bitstream: P,
    pub meta: FrameMetadata,
}

impl<P> BackendPromise for SlicePromise<P> where P: BackendPromise<Output = Vec<u8>> {
    type Output = CodedBitstreamBuffer;

    /// A coded frame with this promise's metadata and a bitstream that the
    /// backend's promise may deliver.
    open spec fn yields(&self, out: CodedBitstreamBuffer) -> bool {
        out.metadata == self.meta && self.bitstream.yields(out.bitstream)
    }

    /// The errors of the backend's promise.
    open spec fn fails_with(&self, error: StatelessBackendError) -> bool {
        self.bitstream.fails_with(error)
    }

    /// What the backend's promise may.
    open spec fn may_report(&self, ready: bool) -> bool {
        self.bitstream.may_report(ready)
    }

    fn is_ready(&self) -> (r: bool) {
        self.bitstream.is_ready()
    }

    fn sync(self) -> (r: StatelessBackendResult<CodedBitstreamBuffer>) {
        match self.bitstream.sync() {
            Ok(coded_data) => Ok(CodedBitstreamBuffer::new(self.meta, coded_data)),
            Err(e) => Err(e),
        }
    }
}

/// The promise of a reconstructed picture, with its place in the sequence.
pub struct ReferencePromise<P> where P: BackendPromise {
    pub recon: P,
    pub dpb_meta: DpbEntryMeta,
}

impl<P> BackendPromise for ReferencePromise<P> where P: BackendPromise {
    type Output = DpbEntry<P::Output>;

    /// An entry with this promise's place and a picture that the backend's
    /// promise may deliver.
    open spec fn yields(&self, out: DpbEntry<P::Output>) -> bool {
        out.meta == self.dpb_meta && self.recon.yields(out.recon_pic)
    }

    /// The errors of the backend's promise.
    open spec fn fails_with(&self, error: StatelessBackendError) -> bool {
        self.recon.fails_with(error)
    }

    /// What the backend's promise may.
    open spec fn may_report(&self, ready: bool) -> bool {
        self.recon.may_report(ready)
    }

    fn is_ready(&self) -> (r: bool) {
        self.recon.is_ready()
    }

    fn sync(self) -> (r: StatelessBackendResult<DpbEntry<P::Output>>) {
        match self.recon.sync() {
            Ok(recon_pic) => Ok(DpbEntry { recon_pic, meta: self.dpb_meta }),
            Err(e) => Err(e),
        }
    }
}

/// What a backend of the H.264 encoder offers.
pub trait StatelessH264EncoderBackend<H>: StatelessVideoEncoderBackend<H> {
    /// A reconstructed picture in the backend's own form.
    type Reference;

    type CodedPromise: BackendPromise<Output = Vec<u8>>;

    type ReconPromise: BackendPromise<Output = Self::Reference>;

    /// The errors with which the backend may refuse a request. A backend
    /// that says nothing may give any.
    open spec fn refuses_slice(&self, error: StatelessBackendError) -> bool {
        true
    }

    /// The promises with which the backend may answer `request`. A backend
    /// that says nothing may answer with any.
    open spec fn answers(
        &self,
        request: BackendRequestView<Self::Picture, Self::Reference>,
        recon: Self::ReconPromise,
        coded: Self::CodedPromise,
    ) -> bool {
        true
    }

    /// Takes a request over for encoding. The coded promise resolves to the
    /// request's `coded_output` with the slice appended, the other to the
    /// reconstructed picture, in either order.
    fn encode_slice(
        &mut self,
        request: BackendRequest<Self::Picture, Self::Reference>,
    ) -> (r: StatelessBackendResult<(Self::ReconPromise, Self::CodedPromise)>)
        ensures
            r matches Err(error) ==> old(self).refuses_slice(error),
            r matches Ok(promises) ==> old(self).answers(request@, promises.0, promises.1),
    ;
}

/// The metadata of the coded frames in `coded`.
pub open spec fn coded_frames(coded: Seq<CodedBitstreamBuffer>) -> Seq<FrameMetadataView> {
    coded.map_values(|buffer: CodedBitstreamBuffer| buffer.metadata@)
}

/// The metadata of the frames whose slices are promised in `slices`.
pub open spec fn slice_frames<C: BackendPromise<Output = Vec<u8>>>(
    slices: Seq<SlicePromise<C>>,
) -> Seq<FrameMetadataView> {
    slices.map_values(|slice: SlicePromise<C>| slice.meta@)
}

/// The places of the pictures promised in `references`.
pub open spec fn reference_places<C: BackendPromise>(references: Seq<ReferencePromise<C>>) -> Seq<
    DpbEntryMeta,
> {
    references.map_values(|reference: ReferencePromise<C>| reference.dpb_meta)
}

/// The places of the reconstructed pictures in `delivered`.
pub open spec fn delivered_places<R>(delivered: Seq<DpbEntry<R>>) -> Seq<DpbEntryMeta> {
    delivered.map_values(|entry: DpbEntry<R>| entry.meta)
}

/// Frame and place of each request in `requests`.
pub open spec fn request_marks<P, R>(requests: Seq<BackendRequestView<P, R>>) -> Seq<
    (FrameMetadataView, DpbEntryMeta),
> {
    requests.map_values(|request: BackendRequestView<P, R>| (request.input_meta@, request.dpb_meta))
}

/// The frames of `marks`.
pub open spec fn marked_frames(marks: Seq<(FrameMetadataView, DpbEntryMeta)>) -> Seq<
    FrameMetadataView,
> {
    marks.map_values(|mark: (FrameMetadataView, DpbEntryMeta)| mark.0)
}

/// The places of `marks`.
pub open spec fn marked_places(marks: Seq<(FrameMetadataView, DpbEntryMeta)>) -> Seq<
    DpbEntryMeta,
> {
    marks.map_values(|mark: (FrameMetadataView, DpbEntryMeta)| mark.1)
}

/// The wish for a keyframe of each of `frames`.
pub open spec fn keyframe_wishes(frames: Seq<FrameMetadataView>) -> Seq<bool> {
    frames.map_values(|frame: FrameMetadataView| frame.force_keyframe)
}

/// The values of `frames`.
pub open spec fn frame_views(frames: Seq<FrameMetadata>) -> Seq<FrameMetadataView> {
    frames.map_values(|frame: FrameMetadata| frame@)
}

/// A request that went to the backend, with the backend as it was then
/// and the promises that it gave.
pub struct Submission<H, B: StatelessH264EncoderBackend<H>> {
    pub backend: B,
    pub request: BackendRequestView<B::Picture, B::Reference>,
    pub recon: B::ReconPromise,
    pub coded: B::CodedPromise,
}

impl<H, B: StatelessH264EncoderBackend<H>> Submission<H, B> {
    /// The promises are an answer of the backend to the request.
    pub open spec fn answered(self) -> bool {
        self.backend.answers(self.request, self.recon, self.coded)
    }

    /// Frame and place of the request.
    pub open spec fn mark(self) -> (FrameMetadataView, DpbEntryMeta) {
        (self.request.input_meta@, self.request.dpb_meta)
    }
}

/// The requests of `filed`.
pub open spec fn filed_requests<H, B: StatelessH264EncoderBackend<H>>(
    filed: Seq<Submission<H, B>>,
) -> Seq<BackendRequestView<B::Picture, B::Reference>> {
    filed.map_values(|submission: Submission<H, B>| submission.request)
}

/// The stateless H.264 encoder.
///
/// Frames go from the client to the predictor, from there in requests to
/// the backend, and come back twice: as coded slices for the client, and
/// as reconstructed pictures for the predictor.
pub struct StatelessEncoder<H, B, S> where B: StatelessH264EncoderBackend<H>, S: Synthesizer {
    /// Promises of coded slices, in the order of the requests.
    output_queue: OutputQueue<SlicePromise<B::CodedPromise>>,
    /// Promises of reconstructed pictures, in the order of the requests.
    recon_queue: OutputQueue<ReferencePromise<B::ReconPromise>>,
    predictor: AnyPredictor<B::Picture, B::Reference, S>,
    /// Coded frames that wait for the client.
    coded_queue: VecDeque<CodedBitstreamBuffer>,
    /// Number of frames that the predictor holds.
    predictor_frame_count: usize,
    backend: B,
    /// Metadata of every frame taken in.
    taken_in: Ghost<Seq<FrameMetadataView>>,
    /// Every coded frame handed out.
    handed_out: Ghost<Seq<CodedBitstreamBuffer>>,
    /// Frame and place of every request handed to the backend.
    submitted: Ghost<Seq<(FrameMetadataView, DpbEntryMeta)>>,
    /// Every request handed to the backend, with the promises given for it.
    filed: Ghost<Seq<Submission<H, B>>>,
    /// The error of the operation that failed, if one did.
    failure: Ghost<Option<EncodeError>>,
    /// For every reconstructed picture that the predictor took in, the
    /// number of requests that had gone to the backend by then.
    delivered_at: Ghost<Seq<nat>>,
}

impl<H, B, S> StatelessEncoder<H, B, S> where B: StatelessH264EncoderBackend<H>, S: Synthesizer {
    /// The coded frames that wait for the client, oldest first.
    pub closed spec fn coded(&self) -> Seq<CodedBitstreamBuffer> {
        self.coded_queue@
    }

    /// The promises of coded slices, oldest first.
    pub closed spec fn slices(&self) -> Seq<SlicePromise<B::CodedPromise>> {
        self.output_queue@
    }

    /// The promises of reconstructed pictures, oldest first.
    pub closed spec fn references(&self) -> Seq<ReferencePromise<B::ReconPromise>> {
        self.recon_queue@
    }

    /// The predictor that decides for the encoder.
    pub closed spec fn predictor(&self) -> AnyPredictor<B::Picture, B::Reference, S> {
        self.predictor
    }

    /// The encoder's count of the frames that the predictor holds.
    pub closed spec fn frame_count(&self) -> usize {
        self.predictor_frame_count
    }

    /// The mode that the encoder was made with.
    pub closed spec fn blocking(&self) -> BlockingMode {
        self.output_queue.blocking()
    }

    /// Both queues have the encoder's mode.
    pub closed spec fn queues_agree(&self) -> bool {
        self.recon_queue.blocking() == self.output_queue.blocking()
    }

    /// Whether work in `mode` waits for the backend.
    pub open spec fn blocks(&self, mode: BlockingMode) -> bool {
        self.blocking() == BlockingMode::Blocking || mode == BlockingMode::Blocking
    }

    /// Frame and place of every request that the encoder handed to the
    /// backend, oldest first. The encoder keeps this record in thought only.
    pub closed spec fn submitted(&self) -> Seq<(FrameMetadataView, DpbEntryMeta)> {
        self.submitted@
    }

    /// Every request that the encoder handed to the backend, oldest first,
    /// with the promises that the backend gave for it. The encoder keeps
    /// this record in thought only.
    pub closed spec fn filed(&self) -> Seq<Submission<H, B>> {
        self.filed@
    }

    /// For every reconstructed picture that the predictor took in, oldest
    /// first, the number of requests that had gone to the backend when it
    /// took the picture in. The encoder keeps this record in thought only.
    pub closed spec fn delivered_at(&self) -> Seq<nat> {
        self.delivered_at@
    }

    /// The record [`Self::delivered_at`] has an entry for every picture
    /// that the predictor took in. A picture comes back after its own
    /// request has gone out, and no entry is above the number of requests.
    pub open spec fn timed(&self) -> bool {
        let times = self.delivered_at();
        &&& times.len() == self.predictor().delivered().len()
        &&& forall|i: int| 0 <= i < times.len() ==> i < #[trigger] times[i] <= self.filed().len()
    }

    /// Every coded frame is the result of the promise that the backend gave
    /// for the frame's request.
    ///
    /// The record of the requests has the promises as the backend answered.
    /// The bitstream of a coded frame, handed out or waiting for the client,
    /// is one that the coded promise of its request yields, and a slice that
    /// is promised is promised by the coded promise of its request. The same
    /// holds of the reconstructed pictures that the predictor took in and of
    /// those that are promised.
    pub open spec fn kept(&self) -> bool {
        let filed = self.filed();
        let handed = self.handed_out().len() as int;
        let waiting = self.coded().len() as int;
        &&& filed.len() == self.submitted().len()
        &&& forall|i: int|
            0 <= i < filed.len() ==> (#[trigger] filed[i]).answered() && filed[i].mark()
                == self.submitted()[i]
        &&& forall|i: int|
            0 <= i < handed ==> filed[i].coded.yields((#[trigger] self.handed_out()[i]).bitstream)
        &&& forall|i: int|
            0 <= i < waiting ==> filed[handed + i].coded.yields(
                (#[trigger] self.coded()[i]).bitstream,
            )
        &&& forall|i: int|
            0 <= i < self.slices().len() ==> (#[trigger] self.slices()[i]).bitstream
                == filed[handed + waiting + i].coded
        &&& forall|i: int|
            0 <= i < self.predictor().delivered().len() ==> filed[i].recon.yields(
                (#[trigger] self.predictor().delivered()[i]).recon_pic,
            )
        &&& forall|i: int|
            0 <= i < self.references().len() ==> (#[trigger] self.references()[i]).recon
                == filed[self.predictor().delivered().len() + i].recon
    }

    /// Both results of the requests come back in the order of the requests.
    ///
    /// The coded frames handed out, those that wait for the client and the
    /// slices promised are the frames of the requests, in their order. The
    /// reconstructed pictures that the predictor has taken in and those
    /// promised are at the places of the requests, in their order. Every
    /// coded frame is the result of its request's promise, see
    /// [`Self::kept`].
    pub open spec fn queued(&self) -> bool {
        &&& coded_frames(self.handed_out()) + coded_frames(self.coded()) + slice_frames(
            self.slices(),
        ) == marked_frames(self.submitted())
        &&& delivered_places(self.predictor().delivered()) + reference_places(self.references())
            == marked_places(self.submitted())
        &&& self.kept()
    }

    /// The predictor is well formed, and the encoder's count is that of
    /// the frames that the predictor holds and of `owed` more that it has
    /// put into requests not yet handed to the backend.
    pub open spec fn consistent(&self, owed: int) -> bool {
        &&& self.predictor().wf()
        &&& self.frame_count() == self.predictor().frames().len() + owed
        &&& self.queues_agree()
    }

    /// Metadata of the frames that came in and have not been handed out,
    /// in this order: the coded frames, the frames with the backend, the
    /// frames with the predictor.
    pub open spec fn timeline(&self) -> Seq<FrameMetadataView> {
        coded_frames(self.coded()) + slice_frames(self.slices()) + frame_views(
            self.predictor().frames(),
        )
    }

    /// True if the encoder hands frames out in the order in which they came
    /// in: then [`Self::timeline`] is that order.
    pub open spec fn in_order(&self) -> bool {
        self.predictor().in_order()
    }

    /// The frames handed out and the frames of the timeline are as many as
    /// the frames taken in; where the encoder works in order, they are the
    /// frames taken in, in the same order.
    pub open spec fn chronicle(&self) -> bool {
        &&& self.handed_out().len() + self.timeline().len() == self.taken_in().len()
        &&& self.in_order() ==> coded_frames(self.handed_out()) + self.timeline()
            == self.taken_in()
    }

    /// The backend cannot fail: no backend of its type refuses a frame or a
    /// request, and no promise of its types fails.
    pub open spec fn dependable() -> bool {
        forall|error: StatelessBackendError| !#[trigger] Self::backend_gives(error)
    }

    /// `error` is one that the backend may give: a backend of its type may
    /// refuse a frame or a request with it, or a promise of its types may
    /// fail with it.
    pub open spec fn backend_gives(error: StatelessBackendError) -> bool {
        ||| exists|backend: B| #[trigger] backend.refuses_picture(error)
        ||| exists|backend: B| #[trigger] backend.refuses_slice(error)
        ||| exists|promise: B::CodedPromise| #[trigger] promise.fails_with(error)
        ||| exists|promise: B::ReconPromise| #[trigger] promise.fails_with(error)
    }

    /// The backend that encodes for the encoder.
    pub closed spec fn backend(&self) -> B {
        self.backend
    }

    /// Results are there as soon as they are promised: no promise of the
    /// backend's types says that it is not ready.
    pub open spec fn prompt() -> bool {
        &&& forall|promise: B::CodedPromise| !#[trigger] promise.may_report(false)
        &&& forall|promise: B::ReconPromise| !#[trigger] promise.may_report(false)
    }

    /// The predictor can go on with what the backend is to deliver, and the
    /// requests handed to the backend are its own.
    ///
    /// Every request has the predictor's parameter sets and, where it
    /// begins a sequence, their bytes as the synthesizer writes them. In an
    /// encoder that works in order the frames of the predictor's record are
    /// the frames taken in, and a request is an IDR picture exactly where
    /// its frame begins a sequence by that record.
    ///
    /// A low-delay predictor that holds a frame waits for a reconstructed
    /// picture, and the pictures that it holds and that are promised are as
    /// many as its next P picture needs. A group-of-pictures predictor has
    /// looked through its pending frames, and the pictures that it waits
    /// for are promised.
    pub open spec fn supplied(&self) -> bool {
        &&& match self.predictor() {
            AnyPredictor::LowDelay(inner) => inner@.fed(self.references().len() as int),
            AnyPredictor::GroupOfPictures(inner) => inner@.settled() && inner@.awaits_within(
                reference_places(self.references()),
            ),
        }
        &&& self.predictor().follows(filed_requests(self.filed()))
        &&& self.in_order() ==> self.predictor().schedule() == keyframe_wishes(self.taken_in())
    }

    /// The predictor runs out of picture order counts before it has
    /// requested the frames that it holds and `more` further ones.
    pub open spec fn exhausted(&self, more: int) -> bool {
        self.predictor().exhausted(more)
    }

    /// The backend owes the encoder nothing.
    pub open spec fn idle(&self) -> bool {
        self.slices().len() == 0 && self.references().len() == 0
    }

    /// What is left to do until every frame is coded. Handing a request to
    /// the backend keeps it; every result that comes back lowers it.
    pub open spec fn weight(&self) -> nat {
        2 * self.predictor().frames().len() + self.references().len() + self.slices().len()
    }

    /// An encoder without frames.
    pub fn new(backend: B, synthesizer: S, config: EncoderConfig, mode: BlockingMode) -> (r:
        EncodeResult<Self>)
        requires
            config.valid(),
        ensures
            r matches Ok(encoder) && {
                &&& encoder.wf()
                &&& encoder.taken_in().len() == 0
                &&& encoder.handed_out().len() == 0
                &&& encoder.timeline().len() == 0
                &&& encoder.coded().len() == 0
                &&& encoder.idle()
                &&& encoder.blocking() == mode
                &&& encoder.in_order() == (config.pred_structure is LowDelay)
                &&& encoder.predictor().sets() == (synthesizer, config)
                &&& encoder.backend() == backend
            },
    {
        let predictor = AnyPredictor::new(config, synthesizer);
        assert(coded_frames(Seq::empty()) + (coded_frames(Seq::empty()) + slice_frames(
            Seq::<SlicePromise<B::CodedPromise>>::empty(),
        ) + frame_views(predictor.frames())) =~= Seq::empty());
        assert(coded_frames(Seq::empty()) + coded_frames(Seq::empty()) + slice_frames(
            Seq::<SlicePromise<B::CodedPromise>>::empty(),
        ) =~= marked_frames(Seq::empty()));
        assert(delivered_places(predictor.delivered()) + reference_places(
            Seq::<ReferencePromise<B::ReconPromise>>::empty(),
        ) =~= marked_places(Seq::empty()));
        assert(keyframe_wishes(Seq::empty()) =~= predictor.schedule());
        assert(filed_requests(Seq::<Submission<H, B>>::empty()) =~= Seq::empty());
        Ok(
            StatelessEncoder {
                backend,
                predictor,
                predictor_frame_count: 0,
                coded_queue: VecDeque::new(),
                output_queue: OutputQueue::new(mode),
                recon_queue: OutputQueue::new(mode),
                taken_in: Ghost(Seq::empty()),
                handed_out: Ghost(Seq::empty()),
                submitted: Ghost(Seq::empty()),
                filed: Ghost(Seq::empty()),
                failure: Ghost(None),
                delivered_at: Ghost(Seq::empty()),
            },
        )
    }

    /// Files the two promises that the backend gave for a request, each
    /// with what tells its result apart later: the coded slice with the
    /// metadata of the frame, the reconstructed picture with its place in
    /// the sequence.
    pub fn file_promises(
        &mut self,
        meta: FrameMetadata,
        dpb_meta: DpbEntryMeta,
        recon: B::ReconPromise,
        bitstream: B::CodedPromise,
    )
        ensures
            final(self).coded() == old(self).coded(),
            final(self).predictor() == old(self).predictor(),
            final(self).frame_count() == old(self).frame_count(),
            final(self).blocking() == old(self).blocking(),
            final(self).queues_agree() == old(self).queues_agree(),
            final(self).taken_in() == old(self).taken_in(),
            final(self).handed_out() == old(self).handed_out(),
            final(self).slices() == old(self).slices().push(SlicePromise { bitstream, meta }),
            final(self).references() == old(self).references().push(
                ReferencePromise { recon, dpb_meta },
            ),
            final(self).submitted() == old(self).submitted().push((meta@, dpb_meta)),
            final(self).filed() == old(self).filed(),
            final(self).backend() == old(self).backend(),
            final(self).failure() == old(self).failure(),
            final(self).delivered_at() == old(self).delivered_at(),
    {
        self.output_queue.add_promise(SlicePromise { bitstream, meta });
        self.recon_queue.add_promise(ReferencePromise { recon, dpb_meta });
        proof {
            self.submitted@ = self.submitted@.push((meta@, dpb_meta));
        }
    }

    /// Hands one request to the backend and files the two promises that
    /// come back, see [`Self::file_promises`].
    pub fn request(&mut self, request: BackendRequest<B::Picture, B::Reference>) -> (r:
        EncodeResult<()>)
        ensures
            final(self).coded() == old(self).coded(),
            final(self).predictor() == old(self).predictor(),
            final(self).frame_count() == old(self).frame_count(),
            final(self).blocking() == old(self).blocking(),
            final(self).queues_agree() == old(self).queues_agree(),
            final(self).taken_in() == old(self).taken_in(),
            final(self).handed_out() == old(self).handed_out(),
            final(self).failure() == old(self).failure(),
            final(self).delivered_at() == old(self).delivered_at(),
            match r {
                Ok(()) => {
                    &&& final(self).slices().len() == old(self).slices().len() + 1
                    &&& final(self).slices() == old(self).slices().push(final(self).slices().last())
                    &&& final(self).slices().last().meta@ == request.input_meta@
                    &&& final(self).references().len() == old(self).references().len() + 1
                    &&& final(self).references() == old(self).references().push(
                        final(self).references().last(),
                    )
                    &&& final(self).references().last().dpb_meta == request.dpb_meta
                    &&& reference_places(final(self).references()) == reference_places(
                        old(self).references(),
                    ).push(request.dpb_meta)
                    &&& final(self).submitted() == old(self).submitted().push(
                        (request.input_meta@, request.dpb_meta),
                    )
                    &&& final(self).filed() == old(self).filed().push(
                        Submission {
                            backend: old(self).backend(),
                            request: request@,
                            recon: final(self).references().last().recon,
                            coded: final(self).slices().last().bitstream,
                        },
                    )
                    &&& final(self).filed().last().answered()
                    &&& old(self).queued() ==> final(self).queued()
                },
                Err(e) => {
                    &&& e matches EncodeError::BackendError(error)
                        && old(self).backend().refuses_slice(error)
                    &&& final(self).slices() == old(self).slices()
                    &&& final(self).references() == old(self).references()
                    &&& final(self).submitted() == old(self).submitted()
                    &&& final(self).filed() == old(self).filed()
                },
            },
    {
        let ghost request_view = request@;
        let meta = request.input_meta.clone();
        let dpb_meta = request.dpb_meta;
        let (recon, bitstream) = match self.backend.encode_slice(request) {
            Ok(promises) => promises,
            Err(e) => {
                return Err(EncodeError::BackendError(e));
            },
        };
        let ghost filed = meta;
        let ghost submission = Submission::<H, B> {
            backend: old(self).backend(),
            request: request_view,
            recon,
            coded: bitstream,
        };
        self.file_promises(meta, dpb_meta, recon, bitstream);
        proof {
            let meta = filed;
            self.filed@ = self.filed@.push(submission);
            assert(marked_frames(self.submitted()) =~= marked_frames(old(self).submitted()).push(
                meta@,
            ));
            assert(marked_places(self.submitted()) =~= marked_places(old(self).submitted()).push(
                dpb_meta,
            ));
            if old(self).queued() {
                assert(coded_frames(self.handed_out()) + coded_frames(self.coded())
                    + slice_frames(self.slices()) =~= (coded_frames(old(self).handed_out())
                    + coded_frames(old(self).coded()) + slice_frames(old(self).slices())).push(
                    meta@,
                ));
                assert(delivered_places(self.predictor().delivered()) + reference_places(
                    self.references(),
                ) =~= (delivered_places(old(self).predictor().delivered()) + reference_places(
                    old(self).references(),
                )).push(dpb_meta));
            }
        }
        Ok(())
    }

    /// Does what the predictor said: hands each of its requests to the
    /// backend, in their order. Returns whether there was anything to do.
    ///
    /// Without a request nothing is asked of the backend: the call succeeds
    /// and leaves the encoder as it is. Else the first request that the
    /// backend refuses ends the call with the backend's error; the requests
    /// before it stay handed over.
    pub fn execute(&mut self, verdict: PredictorVerdict<B::Picture, B::Reference>) -> (r:
        EncodeResult<bool>)
        requires
            old(self).consistent(verdict.requests().len() as int),
            old(self).queued(),
        ensures
            match r {
                Ok(executed) => {
                    &&& executed == (verdict is Request)
                    &&& final(self).failure() == old(self).failure()
                    &&& final(self).delivered_at() == old(self).delivered_at()
                    &&& final(self).consistent(0)
                    &&& final(self).queued()
                    &&& final(self).submitted() == old(self).submitted() + request_marks(
                        verdict.requests(),
                    )
                    &&& filed_requests(final(self).filed()) == filed_requests(old(self).filed())
                        + verdict.requests()
                    &&& final(self).slices().take(old(self).slices().len() as int)
                        == old(self).slices()
                    &&& final(self).taken_in() == old(self).taken_in()
                    &&& final(self).handed_out() == old(self).handed_out()
                    &&& final(self).coded() == old(self).coded()
                    &&& final(self).predictor() == old(self).predictor()
                    &&& final(self).blocking() == old(self).blocking()
                    &&& final(self).references().len() == old(self).references().len()
                        + verdict.requests().len()
                    &&& final(self).slices().len() == old(self).slices().len()
                        + verdict.requests().len()
                    &&& slice_frames(final(self).slices()) == slice_frames(old(self).slices())
                        + frame_views(request_frames(verdict.requests()))
                    &&& reference_places(final(self).references()) == reference_places(
                        old(self).references(),
                    ) + request_places(verdict.requests())
                    &&& final(self).references().take(old(self).references().len() as int)
                        == old(self).references()
                },
                Err(e) => {
                    &&& e matches EncodeError::BackendError(error) && Self::backend_gives(error)
                    &&& final(self).failure() == old(self).failure()
                    &&& final(self).taken_in() == old(self).taken_in()
                    &&& final(self).handed_out() == old(self).handed_out()
                    &&& final(self).coded() == old(self).coded()
                    &&& final(self).predictor() == old(self).predictor()
                    &&& final(self).slices().take(old(self).slices().len() as int)
                        == old(self).slices()
                    &&& final(self).references().take(old(self).references().len() as int)
                        == old(self).references()
                },
            },
            verdict.requests().len() == 0 ==> {
                &&& r is Ok
                &&& final(self).slices() == old(self).slices()
                &&& final(self).references() == old(self).references()
                &&& final(self).submitted() == old(self).submitted()
                &&& final(self).filed() == old(self).filed()
                &&& final(self).frame_count() == old(self).frame_count()
                &&& final(self).backend() == old(self).backend()
            },
            verdict is NoOperation ==> r == Ok::<bool, EncodeError>(false),
    {
        let requests = match verdict {
            PredictorVerdict::NoOperation => {
                return Ok(false);
            },
            PredictorVerdict::Request { requests } => requests,
        };
        let ghost all = request_views(requests@);
        for request in it: requests
            invariant
                all == request_views(requests@),
                verdict is Request,
                verdict.requests() == all,
                it.seq() == requests@,
                self.consistent(all.len() - it.index()),
                self.failure() == old(self).failure(),
                self.delivered_at() == old(self).delivered_at(),
                self.filed().len() == old(self).filed().len() + it.index(),
                self.queued(),
                self.submitted() == old(self).submitted() + request_marks(all.take(it.index())),
                filed_requests(self.filed()) == filed_requests(old(self).filed()) + all.take(
                    it.index(),
                ),
                self.slices().take(old(self).slices().len() as int) == old(self).slices(),
                self.references().take(old(self).references().len() as int)
                    == old(self).references(),
                it.index() == 0 ==> self.slices() == old(self).slices() && self.references()
                    == old(self).references() && self.submitted() == old(self).submitted()
                    && self.filed() == old(self).filed()
                    && self.frame_count() == old(self).frame_count()
                    && self.backend() == old(self).backend(),
                self.taken_in() == old(self).taken_in(),
                self.handed_out() == old(self).handed_out(),
                self.coded() == old(self).coded(),
                self.predictor() == old(self).predictor(),
                self.blocking() == old(self).blocking(),
                self.references().len() == old(self).references().len() + it.index(),
                self.slices().len() == old(self).slices().len() + it.index(),
                slice_frames(self.slices()) == slice_frames(old(self).slices()) + frame_views(
                    request_frames(all.take(it.index())),
                ),
                reference_places(self.references()) == reference_places(old(self).references())
                    + request_places(all.take(it.index())),
        {
            let ghost before = self.slices();
            let ghost references_before = self.references();
            let ghost filed_before = self.filed();
            let ghost view = request@;
            let ghost backend = self.backend();
            match self.request(request) {
                Err(e) => {
                    proof {
                        assert(backend.refuses_slice(e->BackendError_0));
                        assert(Self::backend_gives(e->BackendError_0));
                    }
                    return Err(e);
                },
                Ok(()) => {},
            }
            self.predictor_frame_count -= 1;
            proof {
                assert(filed_requests(self.filed()) =~= filed_requests(filed_before).push(view));
                assert(self.references().take(old(self).references().len() as int)
                    =~= references_before.take(old(self).references().len() as int));
                assert(self.slices().take(old(self).slices().len() as int) =~= before.take(
                    old(self).slices().len() as int,
                ));
                assert(all.take(it.index() + 1) =~= all.take(it.index() as int).push(view));
                assert(slice_frames(self.slices()) =~= slice_frames(before).push(
                    view.input_meta@,
                ));
            }
        }
        Ok(true)
    }

    /// Number of frames in flight whose coded buffer is not ready: those
    /// with the backend and those with the predictor.
    pub open spec fn pending(&self) -> nat {
        self.slices().len() + self.predictor().frames().len()
    }

    /// `earlier` is how `later` begins.
    pub open spec fn extends(
        later: Seq<CodedBitstreamBuffer>,
        earlier: Seq<CodedBitstreamBuffer>,
    ) -> bool {
        later.len() >= earlier.len() && later.take(earlier.len() as int) == earlier
    }

    /// The reconstructed pictures taken in one go are taken one after the
    /// other as long as the predictor answers with requests: `after` is
    /// `before` with an entry for each picture taken, the first of them
    /// with `filed` requests gone out, and each but the last was answered
    /// with at least one request.
    pub open spec fn paced(before: Seq<nat>, after: Seq<nat>, filed: nat) -> bool {
        &&& after.len() >= before.len()
        &&& after.take(before.len() as int) == before
        &&& after.len() > before.len() ==> after[before.len() as int] == filed
        &&& forall|i: int|
            before.len() <= i && i + 1 < after.len() ==> #[trigger] after[i] < after[i + 1]
    }

    /// After `taken` of the promises `before` have been taken, the oldest
    /// of `after` is one of `before` that was left in place.
    pub open spec fn left(
        before: Seq<ReferencePromise<B::ReconPromise>>,
        after: Seq<ReferencePromise<B::ReconPromise>>,
        taken: int,
    ) -> bool {
        0 <= taken < before.len() && after.len() > 0 && after[0] == before[taken]
    }

    /// Takes in what the backend has finished.
    ///
    /// Coded slices move to the coded frames as far as they are ready, or
    /// all of them where the encoder waits. Reconstructed pictures go to the
    /// predictor one by one, and what it requests in answer goes to the
    /// backend, until a picture is not ready or the predictor requests
    /// nothing.
    ///
    /// No frame is lost or reordered on the way, and the work left never
    /// grows; it shrinks where the encoder waits and the backend owes
    /// anything. Where the encoder waits or the backend is prompt, every
    /// slice that was promised becomes a coded frame.
    ///
    /// Nothing fails while the backend owes nothing. An error is one that
    /// the backend may give, or the predictor's: then the predictor held a
    /// frame. An invalid state means that the picture order counts have run
    /// out; an error of the synthesizer is one with which it may refuse the
    /// parameter sets, and the predictor held a frame that begins a
    /// sequence. Where none of this can be, the call succeeds. A slice that
    /// stays promised although slices of before the call are left is one
    /// whose promise may say that it is not ready. No reconstructed picture
    /// is taken after the predictor has answered one without a request, see
    /// [`Self::paced`]; a promised picture of before the call that is left
    /// in place is one whose promise may say that it is not ready, or the
    /// predictor has answered the last picture taken without a request.
    #[verifier::rlimit(40)]
    pub fn poll_pending(&mut self, mode: BlockingMode) -> (r: EncodeResult<()>)
        requires
            old(self).wf(),
        ensures
            match r {
                Ok(()) => {
                    &&& final(self).wf()
                    &&& final(self).taken_in() == old(self).taken_in()
                    &&& final(self).handed_out() == old(self).handed_out()
                    &&& final(self).blocking() == old(self).blocking()
                    &&& final(self).in_order() == old(self).in_order()
                    &&& final(self).timeline().len() == old(self).timeline().len()
                    &&& old(self).in_order() ==> final(self).timeline() == old(self).timeline()
                    &&& Self::extends(final(self).coded(), old(self).coded())
                    &&& final(self).pending() <= old(self).pending()
                    &&& final(self).weight() <= old(self).weight()
                    &&& old(self).blocks(mode) && !old(self).idle() ==> final(self).weight()
                        < old(self).weight()
                    &&& old(self).references().len() == 0 ==> {
                        &&& final(self).predictor() == old(self).predictor()
                        &&& final(self).references().len() == 0
                        &&& old(self).blocks(mode) ==> final(self).slices().len() == 0
                    }
                    &&& old(self).idle() ==> final(self).coded() == old(self).coded()
                    &&& old(self).blocks(mode) || Self::prompt() ==> final(self).coded().len()
                        == old(self).coded().len() + old(self).slices().len()
                    &&& final(self).coded().len() < old(self).coded().len()
                        + old(self).slices().len() ==> final(self).slices().len() > 0
                        && final(self).slices()[0].may_report(false)
                    &&& Self::paced(
                        old(self).delivered_at(),
                        final(self).delivered_at(),
                        old(self).filed().len(),
                    )
                    &&& Self::left(
                        old(self).references(),
                        final(self).references(),
                        final(self).delivered_at().len() - old(self).delivered_at().len(),
                    ) ==> final(self).references()[0].may_report(false) || (
                        final(self).delivered_at().len() > old(self).delivered_at().len()
                        && final(self).delivered_at().last() == final(self).filed().len()
                    )
                    &&& final(self).exhausted(0) == old(self).exhausted(0)
                    &&& final(self).predictor().sets() == old(self).predictor().sets()
                    &&& final(self).predictor().holds_start()
                        ==> old(self).predictor().holds_start()
                    &&& old(self).references().len() == 0 ==> final(self).submitted()
                        == old(self).submitted()
                    &&& final(self).predictor().frames().len()
                        <= old(self).predictor().frames().len()
                    &&& Self::prompt() && old(self).references().len() <= 1
                        && old(self).predictor().frames().len() == 0 ==> final(self).quiescent()
                },
                Err(e) => {
                    &&& !old(self).idle()
                    &&& e is InvalidInternalState ==> old(self).exhausted(0)
                    &&& e matches EncodeError::BackendError(error) ==> Self::backend_gives(error)
                    &&& !(e is BackendError) ==> old(self).predictor().frames().len() > 0
                    &&& e is H264SynthesizerError ==> old(self).predictor().refuses(e)
                        && old(self).predictor().holds_start()
                },
            },
            Self::dependable() && !old(self).exhausted(0) && !(old(self).predictor().may_refuse()
                && old(self).predictor().holds_start()) ==> r is Ok,
    {
        proof {
            assert(self.coded().take(self.coded().len() as int) =~= self.coded());
        }
        loop
            invariant
                self.failure() == old(self).failure(),
                self.delivered_at() == old(self).delivered_at(),
                self.consistent(0),
                self.queued(),
                self.filed() == old(self).filed(),
                self.submitted() == old(self).submitted(),
                self.taken_in() == old(self).taken_in(),
                self.handed_out() == old(self).handed_out(),
                self.blocking() == old(self).blocking(),
                self.predictor() == old(self).predictor(),
                self.references() == old(self).references(),
                Self::extends(self.coded(), old(self).coded()),
                self.coded().len() + self.slices().len() == old(self).coded().len()
                    + old(self).slices().len(),
                coded_frames(self.coded()) + slice_frames(self.slices()) == coded_frames(
                    old(self).coded(),
                ) + slice_frames(old(self).slices()),
                old(self).idle() ==> self.coded() == old(self).coded(),
            ensures
                old(self).blocks(mode) || Self::prompt() ==> self.slices().len() == 0,
                self.slices().len() > 0 ==> self.slices()[0].may_report(false),
            decreases self.slices().len(),
        {
            let ghost coded_before = self.coded();
            let ghost slices_before = self.slices();
            match self.output_queue.poll(mode) {
                Err(e) => {
                    proof {
                        assert(slices_before[0].bitstream.fails_with(e));
                        assert(Self::backend_gives(e));
                    }
                    return Err(EncodeError::BackendError(e));
                },
                Ok(None) => {
                    break ;
                },
                Ok(Some(coded)) => {
                    self.coded_queue.push_back(coded);
                    proof {
                        assert(coded_frames(self.handed_out()) + coded_frames(self.coded())
                            + slice_frames(self.slices()) =~= coded_frames(self.handed_out())
                            + coded_frames(coded_before) + slice_frames(slices_before));
                        assert(self.coded().take(old(self).coded().len() as int)
                            =~= old(self).coded());
                    }
                },
            }
        }
        let ghost middle_weight = self.weight();
        let ghost middle_coded = self.coded();
        let ghost middle_slices = self.slices();
        let ghost mut first = true;
        proof {
            assert(self.delivered_at().take(self.delivered_at().len() as int)
                =~= self.delivered_at());
        }
        loop
            invariant_except_break
                !first ==> self.delivered_at().last() < self.filed().len(),
            invariant
                self.failure() == old(self).failure(),
                self.timed(),
                Self::paced(old(self).delivered_at(), self.delivered_at(), old(self).filed().len()),
                first ==> self.delivered_at() == old(self).delivered_at()
                    && self.filed() == old(self).filed(),
                !first ==> self.delivered_at().len() > old(self).delivered_at().len(),
                self.coded() == middle_coded,
                self.slices().len() >= middle_slices.len(),
                self.slices().take(middle_slices.len() as int) == middle_slices,
                old(self).predictor().wf(),
                self.predictor().sets() == old(self).predictor().sets(),
                self.predictor().schedule() == old(self).predictor().schedule(),
                self.predictor().holds_start() ==> old(self).predictor().holds_start(),
                self.predictor().frames().len() <= old(self).predictor().frames().len(),
                old(self).predictor().frames().len() == 0 ==> self.slices().len()
                    == middle_slices.len(),
                old(self).predictor().frames().len() == 0 ==> self.references().len()
                    <= old(self).references().len(),
                self.consistent(0),
                self.queued(),
                first ==> self.submitted() == old(self).submitted(),
                self.supplied(),
                self.exhausted(0) == old(self).exhausted(0),
                self.taken_in() == old(self).taken_in(),
                self.handed_out() == old(self).handed_out(),
                self.blocking() == old(self).blocking(),
                self.in_order() == old(self).in_order(),
                self.coded().len() + self.pending() == old(self).coded().len()
                    + old(self).pending(),
                Self::extends(self.coded(), old(self).coded()),
                old(self).in_order() ==> self.timeline() == old(self).timeline(),
                self.weight() <= middle_weight,
                !first ==> self.weight() < middle_weight,
                first ==> self.references() == old(self).references(),
                first ==> self.predictor() == old(self).predictor(),
                first ==> self.slices().len() + self.coded().len() == old(self).slices().len()
                    + old(self).coded().len(),
                first && old(self).blocks(mode) ==> self.slices().len() == 0,
                !first ==> old(self).references().len() > 0,
                old(self).idle() ==> self.coded() == old(self).coded(),
            ensures
                Self::left(
                    old(self).references(),
                    self.references(),
                    self.delivered_at().len() - old(self).delivered_at().len(),
                ) ==> self.references()[0].may_report(false) || (!first
                    && self.delivered_at().last() == self.filed().len()),
                old(self).references().len() == 0 ==> first && self.references().len() == 0,
                old(self).blocks(mode) && old(self).references().len() > 0 ==> !first,
                Self::prompt() && old(self).references().len() <= 1
                    && old(self).predictor().frames().len() == 0 ==> self.references().len() == 0,
            decreases self.weight(),
        {
            let ghost predictor_before = self.predictor();
            let ghost awaited = self.references();
            let recon = match self.recon_queue.poll(mode) {
                Err(e) => {
                    proof {
                        assert(awaited[0].recon.fails_with(e));
                        assert(Self::backend_gives(e));
                    }
                    return Err(EncodeError::BackendError(e));
                },
                Ok(None) => {
                    break ;
                },
                Ok(Some(recon)) => recon,
            };
            let ghost arrived = recon;
            let ghost times = self.delivered_at();
            proof {
                self.delivered_at@ = self.delivered_at@.push(self.filed@.len());
                assert(self.delivered_at().take(old(self).delivered_at().len() as int)
                    =~= times.take(old(self).delivered_at().len() as int));
            }
            proof {
                assert(reference_places(self.references()) =~= reference_places(awaited).skip(1));
            }
            let verdict = match self.predictor.reconstructed(recon) {
                Err(e) => {
                    proof {
                        Self::lemma_arrival_fails(
                            predictor_before,
                            self.predictor(),
                            arrived,
                            awaited,
                            e,
                        );
                        predictor_before.lemma_same_sets(&old(self).predictor());
                    }
                    return Err(e);
                },
                Ok(verdict) => verdict,
            };
            let ghost requested = verdict.requests();
            proof {
                assert(delivered_places(self.predictor().delivered()) + reference_places(
                    self.references(),
                ) =~= delivered_places(predictor_before.delivered()) + reference_places(awaited));
                Self::lemma_arrival_supplies(
                    predictor_before,
                    self.predictor(),
                    arrived,
                    awaited,
                    filed_requests(self.filed()),
                    requested,
                );
            }
            let executed = match self.execute(verdict) {
                Err(e) => {
                    return Err(e);
                },
                Ok(executed) => executed,
            };
            proof {
                first = false;
            }
            if !executed {
                break ;
            }
        }
        Ok(())
    }
}

impl<H, B, S> StatelessEncoder<H, B, S> where B: StatelessH264EncoderBackend<H>, S: Synthesizer {
    /// What `predictor` waits for is promised in `awaited`.
    pub open spec fn supplies(
        predictor: AnyPredictor<B::Picture, B::Reference, S>,
        awaited: Seq<DpbEntryMeta>,
    ) -> bool {
        match predictor {
            AnyPredictor::LowDelay(inner) => inner@.fed(awaited.len() as int),
            AnyPredictor::GroupOfPictures(inner) => inner@.settled() && inner@.awaits_within(
                awaited,
            ),
        }
    }

    /// After the picture at the head of the promises has arrived and the
    /// predictor has answered with `requested`, the predictor is supplied
    /// by the promises that are left and those that the requests bring, and
    /// the requests so far and the new ones are its own.
    pub proof fn lemma_arrival_supplies(
        before: AnyPredictor<B::Picture, B::Reference, S>,
        after: AnyPredictor<B::Picture, B::Reference, S>,
        recon: DpbEntry<B::Reference>,
        awaited: Seq<ReferencePromise<B::ReconPromise>>,
        earlier: Seq<BackendRequestView<B::Picture, B::Reference>>,
        requested: Seq<BackendRequestView<B::Picture, B::Reference>>,
    )
        requires
            before.wf(),
            Self::supplies(before, reference_places(awaited)),
            before.follows(earlier),
            awaited.len() > 0,
            awaited[0].dpb_meta == recon.meta,
            match (before, after) {
                (AnyPredictor::LowDelay(b), AnyPredictor::LowDelay(a)) => exists|verdict|
                    #![auto]
                    b@.with_reference(recon).attempted(a@, Ok(verdict)) && verdict.requests()
                        == requested,
                (AnyPredictor::GroupOfPictures(b), AnyPredictor::GroupOfPictures(a)) => {
                    let set_free = b@.b_requests(recon);
                    &&& requested.len() >= set_free.len()
                    &&& requested.take(set_free.len() as int) == set_free
                    &&& b@.with_reference(recon).pumped(a@, requested.skip(set_free.len() as int))
                },
                _ => false,
            },
        ensures
            Self::supplies(
                after,
                reference_places(awaited).skip(1) + request_places(requested),
            ),
            after.follows(earlier + requested),
            after.exhausted(0) == before.exhausted(0),
            after.sets() == before.sets(),
            after.schedule() == before.schedule(),
            after.holds_start() ==> before.holds_start(),
    {
        let places = reference_places(awaited);
        match (before, after) {
            (AnyPredictor::LowDelay(b), AnyPredictor::LowDelay(a)) => {
                let verdict = choose|verdict: PredictorVerdict<B::Picture, B::Reference>|
                    #![auto]
                    b@.with_reference(recon).attempted(a@, Ok(verdict)) && verdict.requests()
                        == requested;
                b@.lemma_with_reference(recon, awaited.len() as int);
                let middle = b@.with_reference(recon);
                middle.lemma_attempt_fed(a@, verdict, awaited.len() - 1);
                middle.lemma_attempt_follows(a@, verdict, earlier);
                assert(middle.schedule() == b@.schedule());
                if a@.holds_start() {
                    let index = choose|index: int|
                        a@.requested.len() <= index < a@.schedule().len() && #[trigger] is_idr_at(
                            a@.limit as int,
                            a@.schedule(),
                            index,
                        );
                    assert(is_idr_at(b@.limit as int, b@.schedule(), index));
                }
            },
            (AnyPredictor::GroupOfPictures(b), AnyPredictor::GroupOfPictures(a)) => {
                let set_free = b@.b_requests(recon);
                let rest = requested.skip(set_free.len() as int);
                b@.lemma_with_reference(recon);
                b@.lemma_with_reference_awaits(recon, places);
                let middle = b@.with_reference(recon);
                middle.lemma_pumped_settles(a@, rest, places.skip(1) + request_places(set_free));
                assert(places.skip(1) + request_places(set_free) + request_places(rest)
                    =~= places.skip(1) + request_places(requested));
                let all = earlier + requested;
                assert forall|i: int| 0 <= i < all.len() implies a@.heads(#[trigger] all[i]) by {
                    if i < earlier.len() {
                        assert(all[i] == earlier[i]);
                    } else if i < earlier.len() + set_free.len() {
                        assert(all[i] == set_free[i - earlier.len()]);
                    } else {
                        assert(all[i] == rest[i - earlier.len() - set_free.len()]);
                    }
                }
            },
            _ => {},
        }
    }

    /// Where the predictor fails after the picture at the head of the
    /// promises has arrived, the error is not the backend's. An invalid
    /// state means that the picture order counts have run out; an error of
    /// the synthesizer is one with which it may refuse the predictor's
    /// parameter sets, and the predictor held a frame that begins a
    /// sequence.
    pub proof fn lemma_arrival_fails(
        before: AnyPredictor<B::Picture, B::Reference, S>,
        after: AnyPredictor<B::Picture, B::Reference, S>,
        recon: DpbEntry<B::Reference>,
        awaited: Seq<ReferencePromise<B::ReconPromise>>,
        e: EncodeError,
    )
        requires
            before.wf(),
            Self::supplies(before, reference_places(awaited)),
            match (before, after) {
                (AnyPredictor::LowDelay(b), AnyPredictor::LowDelay(a)) => b@.with_reference(
                    recon,
                ).attempted(a@, Err(e)),
                (AnyPredictor::GroupOfPictures(b), AnyPredictor::GroupOfPictures(a)) => {
                    b@.with_reference(recon).pump_fails(e)
                },
                _ => false,
            },
        ensures
            !(e is BackendError),
            e is InvalidInternalState ==> before.exhausted(0),
            e is H264SynthesizerError ==> before.refuses(e) && before.holds_start(),
    {
        match (before, after) {
            (AnyPredictor::LowDelay(b), AnyPredictor::LowDelay(a)) => {
                b@.lemma_with_reference(recon, awaited.len() as int);
                let middle = b@.with_reference(recon);
                middle.lemma_attempt_fails(a@, e);
                assert(middle.schedule() == b@.schedule());
                let index = choose|index: int|
                    middle.requested.len() <= index < middle.schedule().len()
                        && #[trigger] is_idr_at(middle.limit as int, middle.schedule(), index);
                assert(is_idr_at(b@.limit as int, b@.schedule(), index));
            },
            (AnyPredictor::GroupOfPictures(b), AnyPredictor::GroupOfPictures(a)) => {
                b@.lemma_with_reference(recon);
                b@.lemma_with_reference_awaits(recon, seq![recon.meta]);
            },
            _ => {},
        }
    }

    /// After a frame has come in and the predictor has answered with
    /// `requested`, the predictor is supplied by the promises that were
    /// there and those that the requests bring, and the requests so far and
    /// the new ones are its own.
    pub proof fn lemma_frame_supplies(
        before: AnyPredictor<B::Picture, B::Reference, S>,
        after: AnyPredictor<B::Picture, B::Reference, S>,
        input: B::Picture,
        input_meta: FrameMetadata,
        awaited: Seq<ReferencePromise<B::ReconPromise>>,
        earlier: Seq<BackendRequestView<B::Picture, B::Reference>>,
        requested: Seq<BackendRequestView<B::Picture, B::Reference>>,
    )
        requires
            before.wf(),
            Self::supplies(before, reference_places(awaited)),
            before.follows(earlier),
            match (before, after) {
                (AnyPredictor::LowDelay(b), AnyPredictor::LowDelay(a)) => exists|verdict|
                    #![auto]
                    b@.with_frame(input, input_meta).attempted(a@, Ok(verdict))
                        && verdict.requests() == requested,
                (AnyPredictor::GroupOfPictures(b), AnyPredictor::GroupOfPictures(a)) => {
                    b@.with_frame(input, input_meta).pumped(a@, requested)
                },
                _ => false,
            },
        ensures
            Self::supplies(after, reference_places(awaited) + request_places(requested)),
            after.follows(earlier + requested),
            after.exhausted(0) == before.exhausted(1),
            after.sets() == before.sets(),
            after.in_order() ==> after.schedule() == before.schedule().push(
                input_meta.force_keyframe,
            ),
            awaited.len() == 0 && before.frames().len() == 0 && before is LowDelay
                ==> requested.len() == 1 && after.frames().len() == 0,
    {
        let places = reference_places(awaited);
        match (before, after) {
            (AnyPredictor::LowDelay(b), AnyPredictor::LowDelay(a)) => {
                let verdict = choose|verdict: PredictorVerdict<B::Picture, B::Reference>|
                    #![auto]
                    b@.with_frame(input, input_meta).attempted(a@, Ok(verdict))
                        && verdict.requests() == requested;
                let middle = b@.with_frame(input, input_meta);
                middle.lemma_attempt_fed(a@, verdict, awaited.len() as int);
                middle.lemma_attempt_follows(a@, verdict, earlier);
                assert(middle.schedule() =~= b@.schedule().push(input_meta.force_keyframe));
            },
            (AnyPredictor::GroupOfPictures(b), AnyPredictor::GroupOfPictures(a)) => {
                b@.with_frame(input, input_meta).lemma_pumped_settles(a@, requested, places);
                let all = earlier + requested;
                assert forall|i: int| 0 <= i < all.len() implies a@.heads(#[trigger] all[i]) by {
                    if i < earlier.len() {
                        assert(all[i] == earlier[i]);
                    } else {
                        assert(all[i] == requested[i - earlier.len()]);
                    }
                }
            },
            _ => {},
        }
    }

    /// Where the predictor fails after a frame has come in, the error is
    /// not the backend's. An invalid state means that the picture order
    /// counts run out with the frame; an error of the synthesizer is one
    /// with which it may refuse the predictor's parameter sets, and the
    /// frame looked at first begins a sequence.
    pub proof fn lemma_frame_fails(
        before: AnyPredictor<B::Picture, B::Reference, S>,
        after: AnyPredictor<B::Picture, B::Reference, S>,
        input: B::Picture,
        input_meta: FrameMetadata,
        e: EncodeError,
    )
        requires
            before.wf(),
            match (before, after) {
                (AnyPredictor::LowDelay(b), AnyPredictor::LowDelay(a)) => b@.with_frame(
                    input,
                    input_meta,
                ).attempted(a@, Err(e)),
                (AnyPredictor::GroupOfPictures(b), AnyPredictor::GroupOfPictures(a)) => {
                    b@.with_frame(input, input_meta).pump_fails(e)
                },
                _ => false,
            },
        ensures
            !(e is BackendError),
            e is InvalidInternalState ==> before.exhausted(1),
            e is H264SynthesizerError ==> before.refuses(e) && before.starts_with(input_meta),
    {
    }

    /// A supplied predictor that holds frames while nothing is promised
    /// is a group-of-pictures predictor that can close its group early,
    /// unless the picture order counts have run out; afterwards it is
    /// supplied by the promise that the request brings, and the request is
    /// its own.
    pub proof fn lemma_forced(
        before: AnyPredictor<B::Picture, B::Reference, S>,
        awaited: Seq<ReferencePromise<B::ReconPromise>>,
        earlier: Seq<BackendRequestView<B::Picture, B::Reference>>,
    )
        requires
            before.wf(),
            Self::supplies(before, reference_places(awaited)),
            before.follows(earlier),
            awaited.len() == 0,
            before.frames().len() > 0,
        ensures
            match before {
                AnyPredictor::LowDelay(_) => false,
                AnyPredictor::GroupOfPictures(b) => {
                    &&& b@.can_drain() || b@.exhausted(0)
                    &&& b@.can_drain() ==> {
                        &&& b@.drained().settled()
                        &&& b@.drained().exhausted(0) == b@.exhausted(0)
                        &&& b@.drained().awaits_within(
                            reference_places(awaited) + request_places(seq![b@.drain_request()]),
                        )
                        &&& forall|i: int|
                            0 <= i < earlier.len() + 1 ==> b@.drained().heads(
                                #[trigger] (earlier + seq![b@.drain_request()])[i],
                            )
                        &&& b@.drained().started()
                    }
                },
            },
    {
        match before {
            AnyPredictor::LowDelay(b) => {},
            AnyPredictor::GroupOfPictures(b) => {
                if b@.can_drain() {
                    let places = reference_places(awaited) + request_places(
                        seq![b@.drain_request()],
                    );
                    assert(places[0] == b@.drain_request().dpb_meta);
                    let all = earlier + seq![b@.drain_request()];
                    assert forall|i: int| 0 <= i < all.len() implies b@.drained().heads(
                        #[trigger] all[i],
                    ) by {
                        if i < earlier.len() {
                            assert(all[i] == earlier[i]);
                        }
                    }
                }
            },
        }
    }
}

impl<H, B, S> StatelessVideoEncoder<H> for StatelessEncoder<H, B, S> where
    B: StatelessH264EncoderBackend<H>,
    S: Synthesizer,
 {
    type Fixed = ((S, EncoderConfig), BlockingMode);

    /// The writer of the parameter sets, the configuration and the mode.
    open spec fn fixed(&self) -> ((S, EncoderConfig), BlockingMode) {
        (self.predictor().sets(), self.blocking())
    }

    open spec fn wf(&self) -> bool {
        &&& self.consistent(0)
        &&& self.queued()
        &&& self.chronicle()
        &&& self.supplied()
        &&& self.timed()
        &&& self.failure() is None
    }

    closed spec fn failure(&self) -> Option<EncodeError> {
        self.failure@
    }

    closed spec fn taken_in(&self) -> Seq<FrameMetadataView> {
        self.taken_in@
    }

    closed spec fn handed_out(&self) -> Seq<CodedBitstreamBuffer> {
        self.handed_out@
    }

    open spec fn in_flight(&self) -> nat {
        self.timeline().len()
    }

    open spec fn ready(&self) -> nat {
        self.coded().len()
    }

    open spec fn quiescent(&self) -> bool {
        self.idle() && self.predictor().frames().len() == 0
    }

    /// The backend is dependable and prompt, the encoder works in order,
    /// the synthesizer cannot refuse the parameter sets, the predictor holds
    /// no frame, and at most one reconstructed picture is awaited.
    open spec fn unfailing(&self) -> bool {
        &&& Self::dependable()
        &&& Self::prompt()
        &&& self.in_order()
        &&& !self.predictor().may_refuse()
        &&& self.predictor().frames().len() == 0
        &&& self.references().len() <= 1
    }

    proof fn lemma_in_flight(&self) {
    }

    proof fn lemma_quiescent(&self) {
    }

    /// Takes the frame over into the backend and hands it to the
    /// predictor; what the predictor requests in answer goes to the backend.
    ///
    /// The frame joins the end of the timeline. Where frames leave in the
    /// order in which they came, the timeline is otherwise unchanged, and a
    /// quiescent encoder requests the frame at once.
    ///
    /// The call fails with an error that the backend may give, with one
    /// with which the synthesizer may refuse the parameter sets, and that
    /// only where the frame looked at first begins a sequence, or with an
    /// invalid state: that only where the picture order counts run out with
    /// this frame or the count of the frames that the predictor holds is at
    /// its maximum, where it always fails. Where none of this can be, the
    /// call succeeds. The error is recorded as the encoder's failure. Where
    /// the backend refuses the frame or the count is at its maximum, the
    /// frame is not taken in and the queues, the count and the predictor
    /// are as before.
    #[verifier::rlimit(40)]
    fn encode(&mut self, metadata: FrameMetadata, handle: H) -> (r: EncodeResult<()>)
        ensures
            r is Ok ==> {
                &&& final(self).blocking() == old(self).blocking()
                &&& final(self).in_order() == old(self).in_order()
                &&& final(self).coded() == old(self).coded()
                &&& final(self).timeline().len() == old(self).timeline().len() + 1
                &&& old(self).in_order() ==> final(self).timeline() == old(self).timeline().push(
                    metadata@,
                )
                &&& final(self).exhausted(0) == old(self).exhausted(1)
                &&& final(self).predictor().sets() == old(self).predictor().sets()
            },
            r matches Err(e) && e is InvalidInternalState ==> old(self).frame_count() == usize::MAX
                || old(self).exhausted(1),
            old(self).frame_count() == usize::MAX ==> r is Err,
            r is Err ==> final(self).taken_in() == old(self).taken_in() || final(self).taken_in()
                == old(self).taken_in().push(metadata@),
            r matches Err(e) ==> (final(self).taken_in() == old(self).taken_in() ==> {
                &&& final(self).slices() == old(self).slices()
                &&& final(self).references() == old(self).references()
                &&& final(self).coded() == old(self).coded()
                &&& final(self).frame_count() == old(self).frame_count()
                &&& final(self).predictor() == old(self).predictor()
                &&& final(self).handed_out() == old(self).handed_out()
                &&& final(self).submitted() == old(self).submitted()
                &&& final(self).filed() == old(self).filed()
                &&& match e {
                    EncodeError::BackendError(error) => old(self).backend().refuses_picture(
                        error,
                    ),
                    EncodeError::InvalidInternalState => old(self).frame_count() == usize::MAX,
                    EncodeError::H264SynthesizerError(_) => false,
                }
            }),
            r matches Err(EncodeError::BackendError(error)) ==> Self::backend_gives(error),
            r matches Err(e) ==> (e is H264SynthesizerError ==> old(self).predictor().refuses(e)
                && old(self).predictor().starts_with(metadata)),
            Self::dependable() && old(self).frame_count() < usize::MAX && !old(self).exhausted(1)
                && !(old(self).predictor().may_refuse() && old(self).predictor().starts_with(
                metadata,
            )) ==> r is Ok,
            r is Ok && old(self).quiescent() && old(self).in_order() ==> {
                &&& final(self).predictor().frames().len() == 0
                &&& final(self).slices().len() == 1
                &&& final(self).references().len() == 1
            },
    {
        let backend_pic = match self.backend.import_picture(&metadata, handle) {
            Ok(picture) => picture,
            Err(e) => {
                proof {
                    assert(old(self).backend().refuses_picture(e));
                    assert(Self::backend_gives(e));
                    self.failure@ = Some(EncodeError::BackendError(e));
                }
                return Err(EncodeError::BackendError(e));
            },
        };
        if self.predictor_frame_count == usize::MAX {
            proof {
                self.failure@ = Some(EncodeError::InvalidInternalState);
            }
            return Err(EncodeError::InvalidInternalState);
        }
        self.predictor_frame_count += 1;
        proof {
            self.taken_in@ = self.taken_in@.push(metadata@);
        }
        let ghost predictor_before = self.predictor();
        let ghost picture = backend_pic;
        let verdict = match self.predictor.new_frame(backend_pic, metadata) {
            Ok(verdict) => verdict,
            Err(e) => {
                proof {
                    Self::lemma_frame_fails(
                        predictor_before,
                        self.predictor(),
                        picture,
                        metadata,
                        e,
                    );
                    self.failure@ = Some(e);
                }
                return Err(e);
            },
        };
        proof {
            Self::lemma_frame_supplies(
                predictor_before,
                self.predictor(),
                picture,
                metadata,
                self.references(),
                filed_requests(self.filed()),
                verdict.requests(),
            );
        }
        match self.execute(verdict) {
            Ok(_) => {},
            Err(e) => {
                proof {
                    self.failure@ = Some(e);
                }
                return Err(e);
            },
        }
        proof {
            if old(self).in_order() {
                assert(coded_frames(self.handed_out()) + self.timeline() =~= (coded_frames(
                    old(self).handed_out(),
                ) + old(self).timeline()).push(metadata@));
                assert(keyframe_wishes(self.taken_in()) =~= keyframe_wishes(
                    old(self).taken_in(),
                ).push(metadata.force_keyframe));
            }
        }
        Ok(())
    }

    /// Waits until every frame in flight is coded.
    ///
    /// While the predictor holds frames or reconstructed pictures are
    /// awaited, the encoder takes in what the backend finishes; where the
    /// backend owes nothing and the predictor still holds frames, the
    /// predictor is made to request one. Then the encoder waits for the
    /// coded slices that are left.
    ///
    /// On success all frames in flight are coded frames, in the order of
    /// the timeline where that is the order in which they came. An encoder
    /// that is quiescent already is left as it is. The errors are those of
    /// [`Self::poll_pending`].
    #[verifier::rlimit(40)]
    fn drain(&mut self) -> (r: EncodeResult<()>)
        ensures
            r is Ok ==> {
                &&& final(self).blocking() == old(self).blocking()
                &&& final(self).in_order() == old(self).in_order()
                &&& Self::extends(final(self).coded(), old(self).coded())
                &&& final(self).timeline().len() == old(self).timeline().len()
                &&& old(self).in_order() ==> final(self).timeline() == old(self).timeline()
                &&& coded_frames(final(self).coded()) == final(self).timeline()
                &&& final(self).exhausted(0) == old(self).exhausted(0)
                &&& final(self).predictor().sets() == old(self).predictor().sets()
            },
            old(self).quiescent() ==> final(self).coded() == old(self).coded(),
            r matches Err(e) && e is InvalidInternalState ==> old(self).exhausted(0),
            r matches Err(EncodeError::BackendError(error)) ==> Self::backend_gives(error),
            r matches Err(e) && !(e is BackendError) ==> old(self).predictor().frames().len() > 0,
            r matches Err(e) ==> (e is H264SynthesizerError ==> old(self).predictor().refuses(e)
                && old(self).predictor().holds_start()),
            Self::dependable() && !old(self).exhausted(0) && !(old(self).predictor().may_refuse()
                && old(self).predictor().holds_start()) ==> r is Ok,
    {
        proof {
            assert(self.coded().take(self.coded().len() as int) =~= self.coded());
        }
        while self.predictor_frame_count > 0 || !self.recon_queue.is_empty()
            invariant
                self.wf(),
                old(self).predictor().wf(),
                self.predictor().sets() == old(self).predictor().sets(),
                self.predictor().holds_start() ==> old(self).predictor().holds_start(),
                self.predictor().frames().len() <= old(self).predictor().frames().len(),
                self.exhausted(0) == old(self).exhausted(0),
                self.taken_in() == old(self).taken_in(),
                self.handed_out() == old(self).handed_out(),
                self.blocking() == old(self).blocking(),
                self.in_order() == old(self).in_order(),
                Self::extends(self.coded(), old(self).coded()),
                self.timeline().len() == old(self).timeline().len(),
                old(self).in_order() ==> self.timeline() == old(self).timeline(),
                old(self).quiescent() ==> self.quiescent() && self.coded() == old(self).coded(),
            decreases self.weight(),
        {
            if self.output_queue.is_empty() && self.recon_queue.is_empty() {
                proof {
                    Self::lemma_forced(
                        self.predictor(),
                        self.references(),
                        filed_requests(self.filed()),
                    );
                }
                let requests = match self.predictor.drain() {
                    Ok(requests) => requests,
                    Err(e) => {
                        proof {
                            self.failure@ = Some(e);
                        }
                        return Err(e);
                    },
                };
                match self.execute(PredictorVerdict::Request { requests }) {
                    Ok(_) => {},
                    Err(e) => {
                        proof {
                            self.failure@ = Some(e);
                        }
                        return Err(e);
                    },
                }
            }
            let ghost coded_before = self.coded();
            let ghost predictor_before = self.predictor();
            match self.poll_pending(BlockingMode::Blocking) {
                Ok(()) => {},
                Err(e) => {
                    proof {
                        self.failure@ = Some(e);
                        predictor_before.lemma_same_sets(&old(self).predictor());
                    }
                    return Err(e);
                },
            }
            proof {
                assert(self.coded().take(old(self).coded().len() as int) =~= coded_before.take(
                    old(self).coded().len() as int,
                ));
            }
        }
        while !self.output_queue.is_empty()
            invariant
                self.wf(),
                old(self).predictor().wf(),
                self.predictor().sets() == old(self).predictor().sets(),
                self.predictor().holds_start() ==> old(self).predictor().holds_start(),
                self.predictor().frames().len() <= old(self).predictor().frames().len(),
                self.exhausted(0) == old(self).exhausted(0),
                self.taken_in() == old(self).taken_in(),
                self.handed_out() == old(self).handed_out(),
                self.blocking() == old(self).blocking(),
                self.in_order() == old(self).in_order(),
                Self::extends(self.coded(), old(self).coded()),
                self.timeline().len() == old(self).timeline().len(),
                old(self).in_order() ==> self.timeline() == old(self).timeline(),
                self.predictor().frames().len() == 0,
                self.references().len() == 0,
                old(self).quiescent() ==> self.quiescent() && self.coded() == old(self).coded(),
            decreases self.weight(),
        {
            let ghost coded_before = self.coded();
            let ghost predictor_before = self.predictor();
            match self.poll_pending(BlockingMode::Blocking) {
                Ok(()) => {},
                Err(e) => {
                    proof {
                        self.failure@ = Some(e);
                        predictor_before.lemma_same_sets(&old(self).predictor());
                    }
                    return Err(e);
                },
            }
            proof {
                assert(self.coded().take(old(self).coded().len() as int) =~= coded_before.take(
                    old(self).coded().len() as int,
                ));
            }
        }
        Ok(())
    }

    /// Takes in what the backend has finished, without waiting, and hands
    /// out the oldest coded frame.
    ///
    /// The frame handed out is the one at the head of the timeline where
    /// frames leave in the order in which they came. A coded frame that was
    /// waiting is handed out before any other. `None` means that no frame
    /// is coded; with a prompt backend, that none is with the backend
    /// either. The errors are those of [`Self::poll_pending`].
    #[verifier::rlimit(40)]
    fn poll(&mut self) -> (r: EncodeResult<Option<CodedBitstreamBuffer>>)
        ensures
            match r {
                Ok(Some(buffer)) => {
                    &&& final(self).blocking() == old(self).blocking()
                    &&& final(self).in_order() == old(self).in_order()
                    &&& old(self).coded().len() > 0 ==> buffer == old(self).coded()[0]
                    &&& Self::prompt() ==> final(self).coded().len() + 1
                        == old(self).coded().len() + old(self).slices().len()
                    &&& final(self).timeline().len() + 1 == old(self).timeline().len()
                    &&& old(self).in_order() ==> buffer.metadata@ == old(self).timeline()[0]
                        && final(self).timeline() == old(self).timeline().skip(1)
                },
                Ok(None) => {
                    &&& final(self).blocking() == old(self).blocking()
                    &&& final(self).in_order() == old(self).in_order()
                    &&& old(self).coded().len() == 0
                    &&& Self::prompt() ==> old(self).slices().len() == 0
                    &&& final(self).timeline().len() == old(self).timeline().len()
                    &&& old(self).in_order() ==> final(self).timeline() == old(self).timeline()
                },
                Err(e) => {
                    &&& !old(self).idle()
                    &&& e is InvalidInternalState ==> old(self).exhausted(0)
                    &&& e matches EncodeError::BackendError(error) ==> Self::backend_gives(error)
                    &&& !(e is BackendError) ==> old(self).predictor().frames().len() > 0
                    &&& e is H264SynthesizerError ==> old(self).predictor().refuses(e)
                        && old(self).predictor().holds_start()
                },
            },
            Self::dependable() && !old(self).exhausted(0) && !(old(self).predictor().may_refuse()
                && old(self).predictor().holds_start()) ==> r is Ok,
            r is Ok ==> final(self).exhausted(0) == old(self).exhausted(0),
            r is Ok ==> final(self).predictor().sets() == old(self).predictor().sets(),
            r is Ok && Self::prompt() && old(self).references().len() <= 1
                && old(self).predictor().frames().len() == 0 ==> final(self).quiescent(),
            old(self).idle() ==> (r matches Ok(Some(_))) == (old(self).coded().len() > 0),
    {
        match self.poll_pending(BlockingMode::NonBlocking) {
            Ok(()) => {},
            Err(e) => {
                proof {
                    self.failure@ = Some(e);
                }
                return Err(e);
            },
        }
        let ghost before = self.timeline();
        let ghost coded_before = self.coded();
        let r = self.coded_queue.pop_front();
        proof {
            if r is Some {
                let buffer = r->Some_0;
                self.handed_out@ = self.handed_out@.push(buffer);
                if old(self).in_order() {
                    assert(coded_frames(self.handed_out()) + self.timeline() =~= coded_frames(
                        old(self).handed_out(),
                    ) + before);
                }
                assert(coded_frames(self.handed_out()) + coded_frames(self.coded())
                    =~= coded_frames(old(self).handed_out()) + coded_frames(coded_before));
            }
        }
        Ok(r)
    }
}

impl<H, B, S> StatelessEncoder<H, B, S> where B: StatelessH264EncoderBackend<H>, S: Synthesizer {
    /// Output order: an encoder that works in order and has handed out
    /// every frame has handed out the frames that it took in, in the order
    /// in which it took them in.
    pub proof fn law_output_order(&self)
        requires
            self.wf(),
            self.in_order(),
            self.timeline().len() == 0,
        ensures
            coded_frames(self.handed_out()) == self.taken_in(),
    {
    }

    /// Coded frames come out in the order of the requests, whatever the
    /// order in which the backend finishes them: the frames handed out are
    /// the frames of the first requests handed to the backend.
    pub proof fn law_coded_in_request_order(&self)
        requires
            self.wf(),
        ensures
            self.handed_out().len() <= self.submitted().len(),
            coded_frames(self.handed_out()) == marked_frames(self.submitted()).take(
                self.handed_out().len() as int,
            ),
    {
        let frames = coded_frames(self.handed_out()) + coded_frames(self.coded()) + slice_frames(
            self.slices(),
        );
        assert(frames.len() == marked_frames(self.submitted()).len());
    }

    /// Reconstructed pictures reach the predictor in the order of the
    /// requests: those that it has taken in are the pictures of the first
    /// requests handed to the backend.
    pub proof fn law_delivered_in_request_order(&self)
        requires
            self.wf(),
        ensures
            self.predictor().delivered().len() <= self.submitted().len(),
            delivered_places(self.predictor().delivered()) == marked_places(
                self.submitted(),
            ).take(self.predictor().delivered().len() as int),
    {
        let places = delivered_places(self.predictor().delivered()) + reference_places(
            self.references(),
        );
        assert(places.len() == marked_places(self.submitted()).len());
    }

    /// No frame is lost and none made up: a quiescent encoder, as `drain`
    /// leaves it, has as many coded frames, handed out or waiting for the
    /// client, as it took frames in.
    pub proof fn law_frame_count(&self)
        requires
            self.wf(),
            self.quiescent(),
        ensures
            self.handed_out().len() + self.coded().len() == self.taken_in().len(),
    {
    }
}

} // verus!
