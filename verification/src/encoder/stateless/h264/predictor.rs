//! Prediction structures: which frame becomes which kind of picture, and
//! from which references.

use vstd::prelude::*;
use std::rc::Rc;
use crate::codec::h264::parser::AspectRatio;
use crate::codec::h264::parser::Pps;
use crate::codec::h264::parser::Profile;
use crate::codec::h264::parser::SliceHeader;
use crate::codec::h264::parser::SliceType;
use crate::codec::h264::parser::Sps;
use crate::codec::h264::parser::TimingInfo;
use crate::codec::h264::synthesizer::Synthesizer;
use crate::codec::h264::synthesizer::SynthesizerError;
use crate::encoder::FrameMetadata;
use crate::encoder::stateless::EncodeError;
use crate::encoder::stateless::EncodeResult;
use crate::encoder::stateless::h264::BackendRequest;
use crate::encoder::stateless::h264::BackendRequestView;
use crate::encoder::stateless::h264::DpbEntry;
use crate::encoder::stateless::h264::DpbEntryMeta;
use crate::encoder::stateless::h264::EncoderConfig;
use crate::encoder::stateless::h264::IsReference;
use crate::encoder::stateless::h264::predictor::group_of_pictures::GroupOfPictures;
use crate::encoder::stateless::h264::predictor::low_delay::begins_sequence;
use crate::encoder::stateless::h264::predictor::low_delay::LowDelay;

pub mod group_of_pictures;
pub mod low_delay;

verus! {

/// Length in bytes of the start code before each parameter set.
pub const HEADER_START_CODE_LEN: usize = 3;

/// The prediction structures and their parameters.
#[derive(Clone, Copy, Debug)]
pub enum PredictionStructure {
    /// An IDR picture at the start and after every `limit` frames; between
    /// them P pictures that refer to up to `tail` pictures before them.
    LowDelay { tail: u16, limit: u16 },
    /// An IDR picture at the start; after it groups of one P picture and
    /// `size` B pictures between it and the reference before.
    GroupOfPictures { size: u16, limit: u16 },
}

/// What the encoder is to do after it has told the predictor of an event.
pub enum PredictorVerdict<P, R> {
    /// Nothing.
    NoOperation,
    /// Hand the requests to the backend, in this order.
    Request { requests: Vec<BackendRequest<P, R>> },
}

/// The values of the requests in `requests`.
pub open spec fn request_views<P, R>(requests: Seq<BackendRequest<P, R>>) -> Seq<
    BackendRequestView<P, R>,
> {
    requests.map_values(|request: BackendRequest<P, R>| request@)
}

/// The frame metadata of each request in `requests`.
pub open spec fn request_frames<P, R>(requests: Seq<BackendRequestView<P, R>>) -> Seq<
    FrameMetadata,
> {
    requests.map_values(|request: BackendRequestView<P, R>| request.input_meta)
}

/// The place in its sequence of each request in `requests`.
pub open spec fn request_places<P, R>(requests: Seq<BackendRequestView<P, R>>) -> Seq<
    DpbEntryMeta,
> {
    requests.map_values(|request: BackendRequestView<P, R>| request.dpb_meta)
}

impl<P, R> PredictorVerdict<P, R> {
    /// The requests of the verdict; none for `NoOperation`.
    pub open spec fn requests(&self) -> Seq<BackendRequestView<P, R>> {
        match self {
            PredictorVerdict::NoOperation => Seq::empty(),
            PredictorVerdict::Request { requests } => request_views(requests@),
        }
    }
}

/// What holds of every request, whichever structure it comes from: an IDR
/// picture has no references, any other picture at least one from the past,
/// and every reference is among the `delivered` reconstructed pictures.
pub open spec fn request_is_sound<P, R>(
    request: BackendRequestView<P, R>,
    delivered: Seq<DpbEntry<R>>,
) -> bool {
    &&& request.is_idr ==> request.ref_list_0.len() == 0 && request.ref_list_1.len() == 0
    &&& !request.is_idr ==> request.ref_list_0.len() > 0
    &&& forall|i: int|
        0 <= i < request.ref_list_0.len() ==> delivered.contains(*#[trigger] request.ref_list_0[i])
    &&& forall|i: int|
        0 <= i < request.ref_list_1.len() ==> delivered.contains(*#[trigger] request.ref_list_1[i])
}

/// [`request_is_sound`] of each of `requests`.
pub open spec fn requests_are_sound<P, R>(
    requests: Seq<BackendRequestView<P, R>>,
    delivered: Seq<DpbEntry<R>>,
) -> bool {
    forall|i: int| 0 <= i < requests.len() ==> request_is_sound(#[trigger] requests[i], delivered)
}

/// The decisions of an encoder: it takes frames and reconstructed pictures
/// in and says which requests go to the backend. It may hold frames back
/// until it has what the prediction structure needs.
pub trait Predictor<P, R> {
    /// The states that the operations start from and, where they succeed,
    /// end in.
    spec fn wf(&self) -> bool;

    /// Metadata of the frames that came in and are in no request yet.
    spec fn frames(&self) -> Seq<FrameMetadata>;

    /// True if frames leave in requests in the order in which they came in.
    spec fn in_order(&self) -> bool;

    /// The reconstructed pictures that came in so far, oldest first.
    spec fn delivered(&self) -> Seq<DpbEntry<R>>;

    /// Takes a frame in and emits what can be emitted.
    fn new_frame(&mut self, backend_pic: P, meta: FrameMetadata) -> (r: EncodeResult<
        PredictorVerdict<P, R>,
    >)
        requires
            old(self).wf(),
        ensures
            r matches Ok(verdict) ==> {
                &&& final(self).wf()
                &&& final(self).in_order() == old(self).in_order()
                &&& final(self).delivered() == old(self).delivered()
                &&& verdict is Request ==> verdict.requests().len() > 0
                &&& verdict.requests().len() + final(self).frames().len()
                    == old(self).frames().len() + 1
                &&& old(self).in_order() ==> request_frames(verdict.requests())
                    + final(self).frames() == old(self).frames().push(meta)
                &&& requests_are_sound(verdict.requests(), final(self).delivered())
            },
    ;

    /// Takes a reconstructed picture in and emits what can be emitted.
    fn reconstructed(&mut self, recon: DpbEntry<R>) -> (r: EncodeResult<PredictorVerdict<P, R>>)
        requires
            old(self).wf(),
        ensures
            r matches Ok(verdict) ==> {
                &&& final(self).wf()
                &&& final(self).in_order() == old(self).in_order()
                &&& final(self).delivered() == old(self).delivered().push(recon)
                &&& verdict is Request ==> verdict.requests().len() > 0
                &&& verdict.requests().len() + final(self).frames().len()
                    == old(self).frames().len()
                &&& old(self).in_order() ==> request_frames(verdict.requests())
                    + final(self).frames() == old(self).frames()
                &&& requests_are_sound(verdict.requests(), final(self).delivered())
            },
            r is Err ==> old(self).frames().len() > 0,
    ;

    /// Emits at least one request from the frames held back, without
    /// waiting for more frames.
    fn drain(&mut self) -> (r: EncodeResult<Vec<BackendRequest<P, R>>>)
        requires
            old(self).wf(),
        ensures
            r matches Ok(requests) ==> {
                &&& final(self).wf()
                &&& final(self).in_order() == old(self).in_order()
                &&& final(self).delivered() == old(self).delivered()
                &&& requests@.len() > 0
                &&& requests@.len() + final(self).frames().len() == old(self).frames().len()
                &&& old(self).in_order() ==> request_frames(request_views(requests@))
                    + final(self).frames() == old(self).frames()
                &&& requests_are_sound(request_views(requests@), final(self).delivered())
            },
    ;
}

/// The sequence parameter set of a sequence of at most `limit` frames that
/// keeps up to `max_num_ref_frames` references.
pub open spec fn sequence_sps(config: EncoderConfig, limit: u16, max_num_ref_frames: u32) -> Sps {
    Sps {
        seq_parameter_set_id: 0,
        profile_idc: config.profile,
        // 4:2:2 sampling for the profile made for it, 4:2:0 else.
        chroma_format_idc: if config.profile == Profile::High422P {
            2
        } else {
            1
        },
        level_idc: config.level,
        max_frame_num: limit as u32,
        pic_order_cnt_type: 0,
        max_pic_order_cnt_lsb: (limit * 2) as u32,
        max_num_ref_frames,
        frame_mbs_only_flag: true,
        direct_8x8_inference_flag: config.level.spec_direct_8x8_inference(),
        resolution: config.resolution,
        bit_depth_luma: 8,
        bit_depth_chroma: 8,
        aspect_ratio: AspectRatio { width: 1, height: 1 },
        timing_info: TimingInfo {
            num_units_in_tick: 1,
            time_scale: (config.framerate * 2) as u32,
            fixed_frame_rate_flag: false,
        },
    }
}

/// The picture parameter set of the pictures of a sequence with `sps`,
/// with `l0_active` references from the past by default.
pub open spec fn sequence_pps(sps: Sps, config: EncoderConfig, l0_active: u16) -> Pps {
    Pps {
        sps: Rc::new(sps),
        pic_parameter_set_id: 0,
        pic_init_qp: config.default_qp,
        deblocking_filter_control_present_flag: true,
        num_ref_idx_l0_default_active: l0_active,
        num_ref_idx_l1_default_active: 1,
    }
}

/// The header of the one slice of a picture.
pub open spec fn slice_header(pps: Pps, slice_type: SliceType, poc: u16) -> SliceHeader {
    SliceHeader {
        pic_parameter_set_id: pps.pic_parameter_set_id,
        slice_type,
        first_mb_in_slice: 0,
        pic_order_cnt_lsb: poc,
    }
}

/// Computes [`sequence_sps`].
pub fn build_sps(config: &EncoderConfig, limit: u16, max_num_ref_frames: u32) -> (r: Sps)
    requires
        config.framerate * 2 <= u32::MAX,
    ensures
        r == sequence_sps(*config, limit, max_num_ref_frames),
{
    let chroma_format_idc: u8 = match config.profile {
        Profile::High422P => 2,
        _ => 1,
    };
    Sps {
        seq_parameter_set_id: 0,
        profile_idc: config.profile,
        chroma_format_idc,
        level_idc: config.level,
        max_frame_num: limit as u32,
        pic_order_cnt_type: 0,
        max_pic_order_cnt_lsb: limit as u32 * 2,
        max_num_ref_frames,
        frame_mbs_only_flag: true,
        direct_8x8_inference_flag: config.level.direct_8x8_inference(),
        resolution: config.resolution,
        bit_depth_luma: 8,
        bit_depth_chroma: 8,
        aspect_ratio: AspectRatio { width: 1, height: 1 },
        timing_info: TimingInfo {
            num_units_in_tick: 1,
            time_scale: config.framerate * 2,
            fixed_frame_rate_flag: false,
        },
    }
}

/// Computes [`sequence_pps`].
pub fn build_pps(sps: &Rc<Sps>, config: &EncoderConfig, l0_active: u16) -> (r: Pps)
    ensures
        r == sequence_pps(**sps, *config, l0_active),
{
    Pps {
        sps: Rc::clone(sps),
        pic_parameter_set_id: 0,
        pic_init_qp: config.default_qp,
        deblocking_filter_control_present_flag: true,
        num_ref_idx_l0_default_active: l0_active,
        num_ref_idx_l1_default_active: 1,
    }
}

/// Computes [`slice_header`].
pub fn build_slice_header(pps: &Pps, slice_type: SliceType, poc: u16) -> (r: SliceHeader)
    ensures
        r == slice_header(*pps, slice_type, poc),
{
    SliceHeader {
        pic_parameter_set_id: pps.pic_parameter_set_id,
        slice_type,
        first_mb_in_slice: 0,
        pic_order_cnt_lsb: poc,
    }
}

/// Place of the IDR picture of a sequence: the first in display order and
/// the first reference.
pub open spec fn idr_meta() -> DpbEntryMeta {
    DpbEntryMeta { poc: 0, frame_num: 0, is_reference: IsReference::ShortTerm }
}

/// The request for `input` as the IDR picture of a sequence with the
/// parameter sets `sps` and `pps`, whose bytes are `headers`.
pub open spec fn idr_request<P, R>(
    sps: Sps,
    pps: Pps,
    config: EncoderConfig,
    input: P,
    input_meta: FrameMetadata,
    headers: Seq<u8>,
) -> BackendRequestView<P, R> {
    BackendRequestView {
        sps,
        pps,
        header: slice_header(pps, SliceType::I, 0),
        input,
        input_meta,
        dpb_meta: idr_meta(),
        ref_list_0: Seq::empty(),
        ref_list_1: Seq::empty(),
        num_macroblocks: sps.spec_num_macroblocks() as usize,
        is_idr: true,
        config,
        coded_output: headers,
    }
}

/// Makes [`idr_request`] from the parameter sets and the bytes that the
/// synthesizer wrote for them.
pub fn build_idr_request<P, R>(
    sps: Rc<Sps>,
    pps: Rc<Pps>,
    config: &Rc<EncoderConfig>,
    input: P,
    input_meta: FrameMetadata,
    headers: Vec<u8>,
) -> (request: BackendRequest<P, R>)
    requires
        sps.spec_num_macroblocks() <= u32::MAX,
    ensures
        request@ == idr_request::<P, R>(*sps, *pps, **config, input, input_meta, headers@),
{
    let header = build_slice_header(&pps, SliceType::I, 0);
    let num_macroblocks = count_macroblocks(&sps);
    BackendRequest {
        sps,
        pps,
        header,
        input,
        input_meta,
        dpb_meta: DpbEntryMeta { poc: 0, frame_num: 0, is_reference: IsReference::ShortTerm },
        ref_list_0: Vec::new(),
        ref_list_1: Vec::new(),
        num_macroblocks,
        is_idr: true,
        config: Rc::clone(config),
        coded_output: headers,
    }
}

/// The number of macroblocks of a picture with `sps`.
pub fn count_macroblocks(sps: &Sps) -> (r: usize)
    requires
        sps.spec_num_macroblocks() <= u32::MAX,
    ensures
        r == sps.spec_num_macroblocks(),
{
    let across: u32 = sps.pic_width_in_mbs();
    let down: u32 = sps.pic_height_in_map_units();
    let count: u32 = across * down;
    count as usize
}

/// `headers` is what `synthesizer` may write at the start of a sequence:
/// the NAL unit of `sps` and after it that of `pps`, each behind a start
/// code of three bytes, and nothing else.
pub open spec fn wrote_headers<S: Synthesizer>(
    synthesizer: S,
    sps: Sps,
    pps: Pps,
    headers: Seq<u8>,
) -> bool {
    exists|cut: int|
        0 <= cut <= headers.len() && synthesizer.writes_sps(
            HEADER_START_CODE_LEN,
            sps,
            #[trigger] headers.take(cut),
        ) && synthesizer.writes_pps(HEADER_START_CODE_LEN, pps, headers.skip(cut))
}

/// `request` has the parameter sets `sps` and `pps`, and its bytes are
/// those sets as `synthesizer` writes them if it begins a sequence, and none
/// if not.
pub open spec fn headed<P, R, S: Synthesizer>(
    synthesizer: S,
    sps: Sps,
    pps: Pps,
    request: BackendRequestView<P, R>,
) -> bool {
    &&& request.sps == sps
    &&& request.pps == pps
    &&& request.is_idr ==> wrote_headers(synthesizer, sps, pps, request.coded_output)
    &&& !request.is_idr ==> request.coded_output.len() == 0
}

/// `synthesizer` may refuse one of the two parameter sets with `error`.
pub open spec fn refuses_headers<S: Synthesizer>(
    synthesizer: S,
    sps: Sps,
    pps: Pps,
    error: SynthesizerError,
) -> bool {
    synthesizer.refuses_sps(HEADER_START_CODE_LEN, sps, error) || synthesizer.refuses_pps(
        HEADER_START_CODE_LEN,
        pps,
        error,
    )
}

/// `synthesizer` may refuse one of the two parameter sets.
pub open spec fn may_refuse_headers<S: Synthesizer>(synthesizer: S, sps: Sps, pps: Pps) -> bool {
    exists|error: SynthesizerError| #[trigger] refuses_headers(synthesizer, sps, pps, error)
}

/// Writes the parameter sets that begin a sequence, first the sequence
/// parameter set, then the picture parameter set, into a fresh buffer.
///
/// The result is what the synthesizer wrote, or the error with which it
/// refused the first set that it refused.
pub(crate) fn synthesize_headers<S: Synthesizer>(
    synthesizer: &S,
    sps: &Sps,
    pps: &Pps,
) -> (r: Result<Vec<u8>, SynthesizerError>)
    ensures
        r matches Ok(headers) ==> wrote_headers(*synthesizer, *sps, *pps, headers@),
        r matches Err(e) ==> refuses_headers(*synthesizer, *sps, *pps, e),
        !may_refuse_headers(*synthesizer, *sps, *pps) ==> r is Ok,
{
    let mut headers: Vec<u8> = Vec::new();
    match synthesizer.synthesize_sps(HEADER_START_CODE_LEN, sps, &mut headers) {
        Err(e) => {
            return Err(e);
        },
        Ok(()) => {},
    }
    let ghost cut = headers@.len() as int;
    let ghost unit = headers@;
    match synthesizer.synthesize_pps(HEADER_START_CODE_LEN, pps, &mut headers) {
        Err(e) => {
            return Err(e);
        },
        Ok(()) => {},
    }
    proof {
        assert(unit.skip(0) =~= unit);
        assert(headers@.take(cut) =~= unit);
    }
    Ok(headers)
}

/// A predictor of either structure.
pub enum AnyPredictor<P, R, S> {
    LowDelay(LowDelay<P, R, S>),
    GroupOfPictures(GroupOfPictures<P, R, S>),
}

impl<P, R, S: Synthesizer> AnyPredictor<P, R, S> {
    /// The predictor of the structure that `config` names.
    pub fn new(config: EncoderConfig, synthesizer: S) -> (r: Self)
        requires
            config.valid(),
        ensures
            r.wf(),
            r.frames().len() == 0,
            r.delivered().len() == 0,
            r is LowDelay <==> config.pred_structure is LowDelay,
            r.follows(Seq::empty()),
            r.schedule() =~= Seq::empty(),
            r.sets() == (synthesizer, config),
            match r {
                AnyPredictor::LowDelay(inner) => inner@.fed(0),
                AnyPredictor::GroupOfPictures(inner) => inner@.settled() && inner@.awaits_within(
                    Seq::empty(),
                ),
            },
    {
        match config.pred_structure {
            PredictionStructure::LowDelay { .. } => AnyPredictor::LowDelay(
                LowDelay::new(config, synthesizer),
            ),
            PredictionStructure::GroupOfPictures { .. } => AnyPredictor::GroupOfPictures(
                GroupOfPictures::new(config, synthesizer),
            ),
        }
    }
}

impl<P, R, S: Synthesizer> AnyPredictor<P, R, S> {
    /// The predictor runs out of picture order counts before it has
    /// requested the frames that it holds and `more` further ones. Only a
    /// group-of-pictures predictor can: it never begins a second sequence.
    pub open spec fn exhausted(&self, more: int) -> bool {
        match self {
            AnyPredictor::LowDelay(_) => false,
            AnyPredictor::GroupOfPictures(inner) => inner@.exhausted(more),
        }
    }

    /// `request` is one of this predictor: it has the predictor's parameter
    /// sets, and its bytes are those sets as the synthesizer writes them if
    /// it begins a sequence, and none if not.
    pub open spec fn heads(&self, request: BackendRequestView<P, R>) -> bool {
        match self {
            AnyPredictor::LowDelay(inner) => inner@.heads(request),
            AnyPredictor::GroupOfPictures(inner) => inner@.heads(request),
        }
    }

    /// `requests` are requests of this predictor; those of a low-delay
    /// predictor are the requests of the frames on its record, each an IDR
    /// picture exactly where the frame begins a sequence.
    pub open spec fn follows(&self, requests: Seq<BackendRequestView<P, R>>) -> bool {
        match self {
            AnyPredictor::LowDelay(inner) => inner@.follows(requests),
            AnyPredictor::GroupOfPictures(inner) => forall|i: int|
                0 <= i < requests.len() ==> inner@.heads(#[trigger] requests[i]),
        }
    }

    /// `e` is an error with which the synthesizer may refuse one of the
    /// parameter sets of this predictor.
    pub open spec fn refuses(&self, e: EncodeError) -> bool {
        match self {
            AnyPredictor::LowDelay(inner) => inner@.refuses(e),
            AnyPredictor::GroupOfPictures(inner) => inner@.refuses(e),
        }
    }

    /// The synthesizer may refuse the parameter sets of this predictor.
    pub open spec fn may_refuse(&self) -> bool {
        match self {
            AnyPredictor::LowDelay(inner) => inner@.may_refuse(),
            AnyPredictor::GroupOfPictures(inner) => inner@.may_refuse(),
        }
    }

    /// The predictor holds a frame that begins a sequence when its turn
    /// comes.
    pub open spec fn holds_start(&self) -> bool {
        match self {
            AnyPredictor::LowDelay(inner) => inner@.holds_start(),
            AnyPredictor::GroupOfPictures(inner) => !inner@.started() && inner@.pending.len() > 0,
        }
    }

    /// The frame that is looked at first when the frame with `meta` comes
    /// in begins a sequence: the oldest frame held or, if none is held, the
    /// frame that comes in.
    pub open spec fn starts_with(&self, meta: FrameMetadata) -> bool {
        match self {
            AnyPredictor::LowDelay(inner) => begins_sequence(
                inner@.position(),
                if inner@.queue.len() > 0 {
                    inner@.queue[0].1.force_keyframe
                } else {
                    meta.force_keyframe
                },
            ),
            AnyPredictor::GroupOfPictures(inner) => !inner@.started(),
        }
    }

    /// The wishes for a keyframe of all frames that came into a low-delay
    /// predictor, in their order; nothing for the other structure, which
    /// begins one sequence only.
    pub open spec fn schedule(&self) -> Seq<bool> {
        match self {
            AnyPredictor::LowDelay(inner) => inner@.schedule(),
            AnyPredictor::GroupOfPictures(_) => Seq::empty(),
        }
    }

    /// Predictors made from the same writer and configuration have the
    /// same parameter sets, and the writer may refuse them with the same
    /// errors.
    pub proof fn lemma_same_sets(&self, other: &Self)
        requires
            self.wf(),
            other.wf(),
            self.sets() == other.sets(),
        ensures
            self.may_refuse() == other.may_refuse(),
            forall|e: EncodeError| #[trigger] self.refuses(e) == other.refuses(e),
            forall|request: BackendRequestView<P, R>|
                #[trigger] self.heads(request) == other.heads(request),
    {
    }

    /// What the predictor was made from: the writer of the parameter sets
    /// and the configuration.
    pub open spec fn sets(&self) -> (S, EncoderConfig) {
        match self {
            AnyPredictor::LowDelay(inner) => (inner@.synthesizer, inner@.config),
            AnyPredictor::GroupOfPictures(inner) => (inner@.synthesizer, inner@.config),
        }
    }
}

impl<P, R, S: Synthesizer> Predictor<P, R> for AnyPredictor<P, R, S> {
    open spec fn wf(&self) -> bool {
        match self {
            AnyPredictor::LowDelay(inner) => inner.wf(),
            AnyPredictor::GroupOfPictures(inner) => inner.wf(),
        }
    }

    open spec fn frames(&self) -> Seq<FrameMetadata> {
        match self {
            AnyPredictor::LowDelay(inner) => inner.frames(),
            AnyPredictor::GroupOfPictures(inner) => inner.frames(),
        }
    }

    open spec fn in_order(&self) -> bool {
        match self {
            AnyPredictor::LowDelay(inner) => inner.in_order(),
            AnyPredictor::GroupOfPictures(inner) => inner.in_order(),
        }
    }

    open spec fn delivered(&self) -> Seq<DpbEntry<R>> {
        match self {
            AnyPredictor::LowDelay(inner) => inner.delivered(),
            AnyPredictor::GroupOfPictures(inner) => inner.delivered(),
        }
    }

    /// What the predictor of the structure does, see
    /// [`LowDelay::new_frame`] and [`GroupOfPictures::new_frame`].
    fn new_frame(&mut self, backend_pic: P, meta: FrameMetadata) -> (r: EncodeResult<
        PredictorVerdict<P, R>,
    >)
        ensures
            match (*old(self), *final(self)) {
                (AnyPredictor::LowDelay(before), AnyPredictor::LowDelay(after)) => {
                    before@.with_frame(backend_pic, meta).attempted(after@, r)
                },
                (AnyPredictor::GroupOfPictures(before), AnyPredictor::GroupOfPictures(after)) => {
                    match r {
                        Ok(verdict) => before@.with_frame(backend_pic, meta).pumped(
                            after@,
                            verdict.requests(),
                        ),
                        Err(e) => before@.with_frame(backend_pic, meta).pump_fails(e),
                    }
                },
                _ => false,
            },
    {
        match self {
            AnyPredictor::LowDelay(inner) => inner.new_frame(backend_pic, meta),
            AnyPredictor::GroupOfPictures(inner) => inner.new_frame(backend_pic, meta),
        }
    }

    /// What the predictor of the structure does, see
    /// [`LowDelay::reconstructed`] and [`GroupOfPictures::reconstructed`].
    fn reconstructed(&mut self, recon: DpbEntry<R>) -> (r: EncodeResult<PredictorVerdict<P, R>>)
        ensures
            match (*old(self), *final(self)) {
                (AnyPredictor::LowDelay(before), AnyPredictor::LowDelay(after)) => {
                    before@.with_reference(recon).attempted(after@, r)
                },
                (AnyPredictor::GroupOfPictures(before), AnyPredictor::GroupOfPictures(after)) => {
                    match r {
                        Ok(verdict) => {
                            let set_free = before@.b_requests(recon);
                            &&& verdict.requests().len() >= set_free.len()
                            &&& verdict.requests().take(set_free.len() as int) == set_free
                            &&& before@.with_reference(recon).pumped(
                                after@,
                                verdict.requests().skip(set_free.len() as int),
                            )
                        },
                        Err(e) => before@.with_reference(recon).pump_fails(e),
                    }
                },
                _ => false,
            },
    {
        match self {
            AnyPredictor::LowDelay(inner) => inner.reconstructed(recon),
            AnyPredictor::GroupOfPictures(inner) => inner.reconstructed(recon),
        }
    }

    /// What the predictor of the structure does, see [`LowDelay::drain`]
    /// and [`GroupOfPictures::drain`].
    fn drain(&mut self) -> (r: EncodeResult<Vec<BackendRequest<P, R>>>)
        ensures
            match (*old(self), *final(self)) {
                (AnyPredictor::LowDelay(before), AnyPredictor::LowDelay(after)) => {
                    &&& r matches Err(EncodeError::InvalidInternalState)
                    &&& after@ == before@
                },
                (AnyPredictor::GroupOfPictures(before), AnyPredictor::GroupOfPictures(after)) => {
                    if before@.can_drain() {
                        &&& r matches Ok(requests)
                        &&& request_views(requests@) == seq![before@.drain_request()]
                        &&& after@ == before@.drained()
                    } else {
                        &&& r matches Err(EncodeError::InvalidInternalState)
                        &&& after@ == before@
                    }
                },
                _ => false,
            },
    {
        match self {
            AnyPredictor::LowDelay(inner) => inner.drain(),
            AnyPredictor::GroupOfPictures(inner) => inner.drain(),
        }
    }
}

} // verus!
