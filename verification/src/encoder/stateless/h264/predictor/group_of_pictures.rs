//! The group-of-pictures structure: an IDR picture, then groups of one P
//! picture and the B pictures between it and the reference before it. The P
//! picture of a group is encoded before its B pictures, which need it as
//! their reference from the future.

use vstd::prelude::*;
use std::collections::VecDeque;
use std::rc::Rc;
use crate::codec::h264::parser::Pps;
use crate::codec::h264::parser::SliceType;
use crate::codec::h264::parser::Sps;
use crate::codec::h264::synthesizer::Synthesizer;
use crate::encoder::FrameMetadata;
use crate::encoder::stateless::EncodeError;
use crate::encoder::stateless::EncodeResult;
use crate::encoder::stateless::h264::BackendRequest;
use crate::encoder::stateless::h264::BackendRequestView;
use crate::encoder::stateless::h264::DpbEntry;
use crate::encoder::stateless::h264::DpbEntryMeta;
use crate::encoder::stateless::h264::EncoderConfig;
use crate::encoder::stateless::h264::IsReference;
use crate::encoder::stateless::h264::predictor::PredictionStructure;
use crate::encoder::stateless::h264::predictor::Predictor;
use crate::encoder::stateless::h264::predictor::PredictorVerdict;
use crate::encoder::stateless::h264::predictor::build_idr_request;
use crate::encoder::stateless::h264::predictor::build_pps;
use crate::encoder::stateless::h264::predictor::idr_meta;
use crate::encoder::stateless::h264::predictor::headed;
use crate::encoder::stateless::h264::predictor::idr_request;
use crate::encoder::stateless::h264::predictor::may_refuse_headers;
use crate::encoder::stateless::h264::predictor::refuses_headers;
use crate::encoder::stateless::h264::predictor::wrote_headers;
use crate::encoder::stateless::h264::predictor::build_slice_header;
use crate::encoder::stateless::h264::predictor::build_sps;
use crate::encoder::stateless::h264::predictor::count_macroblocks;
use crate::encoder::stateless::h264::predictor::request_is_sound;
use crate::encoder::stateless::h264::predictor::request_places;
use crate::encoder::stateless::h264::predictor::request_views;
use crate::encoder::stateless::h264::predictor::requests_are_sound;
use crate::encoder::stateless::h264::predictor::sequence_pps;
use crate::encoder::stateless::h264::predictor::sequence_sps;
use crate::encoder::stateless::h264::predictor::slice_header;
use crate::encoder::stateless::h264::predictor::synthesize_headers;

verus! {

/// Highest sum of the picture counter and the group size at which the
/// picture order count of a P picture, twice that sum, still fits 16 bits.
pub const MAX_POC_COUNT: u16 = 32767;

/// Predictor of the group-of-pictures structure.
pub struct GroupOfPictures<P, R, S> {
    /// Pictures of the sequence so far, in display order.
    poc_counter: u16,
    /// Reference pictures of the sequence so far.
    frame_counter: u32,
    /// Frames in a sequence.
    limit: u16,
    /// B pictures in a group.
    size: u16,
    /// Frames that wait to be looked at.
    pending: VecDeque<(P, FrameMetadata)>,
    /// Frames that will be the B pictures of the group, once the P picture
    /// after them is reconstructed.
    future_b_frames: VecDeque<(P, FrameMetadata)>,
    /// The reference before the group.
    l0_ref: Option<Rc<DpbEntry<R>>>,
    /// Place of the IDR picture that is being encoded.
    idr_ref_pending: Option<DpbEntryMeta>,
    /// Place of the P picture that is being encoded.
    l1_ref_pending: Option<DpbEntryMeta>,
    sps: Option<Rc<Sps>>,
    pps: Option<Rc<Pps>>,
    config: Rc<EncoderConfig>,
    synthesizer: S,
    /// Every reconstructed picture that came in.
    delivered: Ghost<Seq<DpbEntry<R>>>,
}

/// Mathematical value of a [`GroupOfPictures`].
pub struct GroupOfPicturesView<P, R, S> {
    /// The writer of the parameter sets.
    pub synthesizer: S,
    pub poc_counter: u16,
    pub frame_counter: u32,
    pub limit: u16,
    pub size: u16,
    pub pending: Seq<(P, FrameMetadata)>,
    pub future_b_frames: Seq<(P, FrameMetadata)>,
    pub l0_ref: Option<Rc<DpbEntry<R>>>,
    pub idr_ref_pending: Option<DpbEntryMeta>,
    pub l1_ref_pending: Option<DpbEntryMeta>,
    pub sps: Option<Rc<Sps>>,
    pub pps: Option<Rc<Pps>>,
    pub config: EncoderConfig,
    pub delivered: Seq<DpbEntry<R>>,
}

impl<P, R, S: Synthesizer> GroupOfPicturesView<P, R, S> {
    /// The sequence parameter set of every sequence of this predictor.
    pub open spec fn sps_value(self) -> Sps {
        sequence_sps(self.config, self.limit, (self.size + 1) as u32)
    }

    /// The picture parameter set of every sequence of this predictor.
    pub open spec fn pps_value(self) -> Pps {
        sequence_pps(self.sps_value(), self.config, 1)
    }

    /// The parameter sets are those of the configuration.
    pub open spec fn in_sequence(self) -> bool {
        &&& self.sps == Some(Rc::new(self.sps_value()))
        &&& self.pps == Some(Rc::new(self.pps_value()))
    }

    /// The IDR picture of the sequence has been requested.
    pub open spec fn started(self) -> bool {
        self.l0_ref is Some || self.idr_ref_pending is Some
    }

    /// Frames that can still join the group.
    pub open spec fn room(self) -> int {
        self.size - self.future_b_frames.len()
    }

    /// The picture order count of the next P picture fits 16 bits.
    pub open spec fn headroom(self) -> bool {
        self.poc_counter + self.size <= MAX_POC_COUNT
    }

    /// The states that a predictor can be in.
    ///
    /// Its parameters are those of a valid configuration. The group holds
    /// no more frames than its size. Before the sequence starts nothing is
    /// counted, held or awaited; afterwards the parameter sets are there.
    /// While the IDR picture is awaited there is no reference and no P
    /// picture on its way. The reference before the group came in as a
    /// reconstructed picture. A P picture that is awaited has a reference
    /// before it and is placed a full group after the pictures counted so
    /// far.
    pub open spec fn wf(self) -> bool {
        &&& self.config.valid()
        &&& self.config.pred_structure == (PredictionStructure::GroupOfPictures {
            size: self.size,
            limit: self.limit,
        })
        &&& self.future_b_frames.len() <= self.size
        &&& self.frame_counter <= self.poc_counter
        &&& self.started() ==> self.in_sequence() && self.poc_counter >= 1
        &&& !self.started() ==> self.future_b_frames.len() == 0 && self.l1_ref_pending is None
            && self.poc_counter == 0
        &&& self.idr_ref_pending is Some ==> self.l0_ref is None && self.l1_ref_pending is None
            && self.idr_ref_pending == Some(idr_meta()) && self.poc_counter == 1
            && self.frame_counter == 1
        &&& self.l0_ref matches Some(reference) ==> self.delivered.contains(*reference)
        &&& self.l1_ref_pending matches Some(meta) ==> self.l0_ref is Some && meta.poc == 2 * (
        self.poc_counter - 1 + self.size) && meta.frame_num + 1 == self.frame_counter
    }

    /// Place of the next P picture: its picture order count leaves room
    /// for the B pictures of its group, which are displayed before it.
    pub open spec fn p_meta(self) -> DpbEntryMeta {
        DpbEntryMeta {
            poc: ((self.poc_counter + self.size) * 2) as u16,
            frame_num: self.frame_counter,
            is_reference: IsReference::ShortTerm,
        }
    }

    /// Place of the next B picture.
    pub open spec fn b_meta(self) -> DpbEntryMeta {
        DpbEntryMeta {
            poc: ((self.poc_counter - 1) * 2) as u16,
            frame_num: self.frame_counter,
            is_reference: IsReference::No,
        }
    }

    /// The request for the IDR picture of a sequence, with `headers` as the
    /// parameter sets' bytes.
    pub open spec fn idr_request(
        self,
        input: P,
        input_meta: FrameMetadata,
        headers: Seq<u8>,
    ) -> BackendRequestView<P, R> {
        idr_request(self.sps_value(), self.pps_value(), self.config, input, input_meta, headers)
    }

    /// The request for the next P picture: it refers to the reference
    /// before the group.
    pub open spec fn p_request(self, input: P, input_meta: FrameMetadata) -> BackendRequestView<
        P,
        R,
    > {
        BackendRequestView {
            sps: self.sps_value(),
            pps: self.pps_value(),
            header: slice_header(self.pps_value(), SliceType::P, self.p_meta().poc),
            input,
            input_meta,
            dpb_meta: self.p_meta(),
            ref_list_0: seq![self.l0_ref->Some_0],
            ref_list_1: Seq::empty(),
            num_macroblocks: self.sps_value().spec_num_macroblocks() as usize,
            is_idr: false,
            config: self.config,
            coded_output: Seq::empty(),
        }
    }

    /// The request for the next B picture: it refers to the reference
    /// before the group and to `l1_ref`, the P picture after it.
    pub open spec fn b_request(
        self,
        input: P,
        input_meta: FrameMetadata,
        l1_ref: Rc<DpbEntry<R>>,
    ) -> BackendRequestView<P, R> {
        BackendRequestView {
            sps: self.sps_value(),
            pps: self.pps_value(),
            header: slice_header(self.pps_value(), SliceType::B, self.b_meta().poc),
            input,
            input_meta,
            dpb_meta: self.b_meta(),
            ref_list_0: seq![self.l0_ref->Some_0],
            ref_list_1: seq![l1_ref],
            num_macroblocks: self.sps_value().spec_num_macroblocks() as usize,
            is_idr: false,
            config: self.config,
            coded_output: Seq::empty(),
        }
    }

    /// The state at the start of a sequence.
    pub open spec fn restarted(self) -> Self {
        GroupOfPicturesView {
            poc_counter: 0,
            frame_counter: 0,
            l0_ref: None,
            idr_ref_pending: None,
            l1_ref_pending: None,
            sps: Some(Rc::new(self.sps_value())),
            pps: Some(Rc::new(self.pps_value())),
            ..self
        }
    }

    /// The state after the request for the IDR picture of a new sequence.
    pub open spec fn after_idr(self) -> Self {
        GroupOfPicturesView {
            poc_counter: 1,
            frame_counter: 1,
            idr_ref_pending: Some(idr_meta()),
            ..self.restarted()
        }
    }

    /// The state after the request for a P picture.
    pub open spec fn after_p(self) -> Self {
        GroupOfPicturesView {
            poc_counter: (self.poc_counter + 1) as u16,
            frame_counter: (self.frame_counter + 1) as u32,
            l1_ref_pending: Some(self.p_meta()),
            ..self
        }
    }

    /// The state after the request for a B picture.
    pub open spec fn after_b(self) -> Self {
        GroupOfPicturesView { poc_counter: (self.poc_counter + 1) as u16, ..self }
    }

    /// The state without the oldest pending frame.
    pub open spec fn popped(self) -> Self {
        GroupOfPicturesView { pending: self.pending.skip(1), ..self }
    }

    /// The state with the oldest `count` pending frames moved into the
    /// group.
    pub open spec fn buffered(self, count: int) -> Self {
        GroupOfPicturesView {
            pending: self.pending.skip(count),
            future_b_frames: self.future_b_frames + self.pending.take(count),
            ..self
        }
    }
}

impl<P, R, S: Synthesizer> GroupOfPicturesView<P, R, S> {
    /// Number of pending frames that join the group at once: as many as
    /// there are, up to the room left.
    pub open spec fn fill(self) -> int {
        if self.pending.len() < self.room() {
            self.pending.len() as int
        } else {
            self.room()
        }
    }

    /// The state with those frames in the group.
    pub open spec fn filled(self) -> Self {
        self.buffered(self.fill())
    }

    /// A frame waits, and the reference before the group is there and no P
    /// picture is being encoded: the frame is to be the next P picture.
    pub open spec fn p_due(self) -> bool {
        self.pending.len() > 0 && self.l1_ref_pending is None && self.l0_ref is Some
    }

    /// `headers` is what the synthesizer may write for the parameter sets
    /// of this predictor: the sequence parameter set, then the picture
    /// parameter set, each behind a start code of three bytes.
    pub open spec fn wrote(self, headers: Seq<u8>) -> bool {
        wrote_headers(self.synthesizer, self.sps_value(), self.pps_value(), headers)
    }

    /// `e` is an error with which the synthesizer may refuse one of the
    /// parameter sets of this predictor.
    pub open spec fn refuses(self, e: EncodeError) -> bool {
        e matches EncodeError::H264SynthesizerError(error) && refuses_headers(
            self.synthesizer,
            self.sps_value(),
            self.pps_value(),
            error,
        )
    }

    /// `request` is one of this predictor: it has the predictor's parameter
    /// sets, and its bytes are those sets as the synthesizer writes them if
    /// it begins a sequence, and none if not.
    pub open spec fn heads(self, request: BackendRequestView<P, R>) -> bool {
        headed(self.synthesizer, self.sps_value(), self.pps_value(), request)
    }

    /// The synthesizer may refuse the parameter sets of this predictor.
    pub open spec fn may_refuse(self) -> bool {
        may_refuse_headers(self.synthesizer, self.sps_value(), self.pps_value())
    }

    /// How looking through the pending frames takes the state `self` to
    /// `post`, emitting `emitted`.
    ///
    /// Before the sequence has started, the oldest pending frame becomes its
    /// IDR picture and the frames after it fill the group; no P picture
    /// follows, since its reference is not there yet. Later, pending frames
    /// fill the group, and if a frame is left, the reference before the group
    /// is there and no P picture is being encoded, that frame becomes the P
    /// picture. All other frames stay pending.
    pub open spec fn pumped(self, post: Self, emitted: Seq<BackendRequestView<P, R>>) -> bool {
        if !self.started() {
            if self.pending.len() == 0 {
                post == self && emitted.len() == 0
            } else {
                &&& emitted.len() == 1
                &&& emitted[0] == self.idr_request(
                    self.pending[0].0,
                    self.pending[0].1,
                    emitted[0].coded_output,
                )
                &&& self.wrote(emitted[0].coded_output)
                &&& post == self.popped().after_idr().filled()
            }
        } else if self.filled().p_due() {
            &&& self.filled().headroom()
            &&& emitted == seq![
                self.filled().p_request(self.filled().pending[0].0, self.filled().pending[0].1),
            ]
            &&& post == self.filled().popped().after_p()
        } else {
            post == self.filled() && emitted.len() == 0
        }
    }

    /// The errors that looking through the pending frames can end in: the
    /// synthesizer's, where a sequence begins, and an invalid state where
    /// the picture order count of the P picture that is due does not fit.
    pub open spec fn pump_fails(self, e: EncodeError) -> bool {
        if !self.started() {
            self.pending.len() > 0 && self.refuses(e)
        } else {
            self.filled().p_due() && !self.filled().headroom() && e is InvalidInternalState
        }
    }

    /// Moving one more frame into the group.
    pub proof fn lemma_buffer_one(self, count: int)
        requires
            0 <= count < self.pending.len(),
        ensures
            self.buffered(count).buffered(1) == self.buffered(count + 1),
            self.buffered(count).pending[0] == self.pending[count],
    {
        let one = self.buffered(count).buffered(1);
        let all = self.buffered(count + 1);
        assert(one.pending =~= all.pending);
        assert(one.future_b_frames =~= all.future_b_frames);
    }
}

impl<P, R, S: Synthesizer> GroupOfPicturesView<P, R, S> {
    /// The state that the frames of one look through the pending frames
    /// join the group from: the state at its start or, if the look began
    /// the sequence, the state after the IDR picture.
    pub open spec fn base(self, idr: Option<BackendRequestView<P, R>>) -> Self {
        if idr is Some {
            self.popped().after_idr()
        } else {
            self
        }
    }

    /// The requests of one look through the pending frames at a point
    /// where `idr` has been requested, if it is one, and the P picture, if
    /// `p_done`.
    pub open spec fn emitted_so_far(
        self,
        idr: Option<BackendRequestView<P, R>>,
        p_done: bool,
    ) -> Seq<BackendRequestView<P, R>> {
        let first = if idr is Some {
            seq![idr->Some_0]
        } else {
            Seq::empty()
        };
        let second = if p_done {
            seq![self.filled().p_request(self.filled().pending[0].0, self.filled().pending[0].1)]
        } else {
            Seq::empty()
        };
        first + second
    }

    /// Moving no frame changes nothing.
    pub proof fn lemma_buffer_one_or_none(self)
        ensures
            self.buffered(0) == self,
    {
        assert(self.buffered(0).pending =~= self.pending);
    }
}

impl<P, R, S: Synthesizer> GroupOfPicturesView<P, R, S> {
    /// Metadata of the frames held: those of the group, then the pending
    /// ones.
    pub open spec fn frames(self) -> Seq<FrameMetadata> {
        (self.future_b_frames + self.pending).map_values(|frame: (P, FrameMetadata)| frame.1)
    }

    /// The state with one more pending frame.
    pub open spec fn with_frame(self, input: P, input_meta: FrameMetadata) -> Self {
        GroupOfPicturesView { pending: self.pending.push((input, input_meta)), ..self }
    }

    /// `recon` is the IDR picture that the predictor waits for.
    pub open spec fn awaits_idr(self, recon: DpbEntry<R>) -> bool {
        self.idr_ref_pending == Some(recon.meta)
    }

    /// `recon` is the P picture that the predictor waits for.
    pub open spec fn awaits_l1(self, recon: DpbEntry<R>) -> bool {
        !self.awaits_idr(recon) && self.l1_ref_pending == Some(recon.meta)
    }

    /// The state after the requests for the first `count` B pictures of the
    /// group.
    pub open spec fn after_bs(self, count: int) -> Self {
        GroupOfPicturesView {
            poc_counter: (self.poc_counter + count) as u16,
            future_b_frames: self.future_b_frames.skip(count),
            ..self
        }
    }

    /// The requests that the arrival of `recon` sets free at once: if it is
    /// the P picture awaited, one B picture for each frame of the group, in
    /// the order in which the frames came in.
    pub open spec fn b_requests(self, recon: DpbEntry<R>) -> Seq<BackendRequestView<P, R>> {
        if self.awaits_l1(recon) {
            Seq::new(
                self.future_b_frames.len(),
                |i: int|
                    self.after_bs(i).b_request(
                        self.future_b_frames[i].0,
                        self.future_b_frames[i].1,
                        Rc::new(recon),
                    ),
            )
        } else {
            Seq::empty()
        }
    }

    /// The state after the arrival of `recon`, before the pending frames
    /// are looked through: the IDR picture awaited becomes the reference
    /// before the first group; the P picture awaited sets the B pictures of
    /// its group free and becomes the reference before the next group; any
    /// other picture is only noted.
    pub open spec fn with_reference(self, recon: DpbEntry<R>) -> Self {
        let noted = GroupOfPicturesView { delivered: self.delivered.push(recon), ..self };
        if self.awaits_idr(recon) {
            GroupOfPicturesView { l0_ref: Some(Rc::new(recon)), idr_ref_pending: None, ..noted }
        } else if self.awaits_l1(recon) {
            GroupOfPicturesView {
                l0_ref: Some(Rc::new(recon)),
                l1_ref_pending: None,
                ..noted.after_bs(self.future_b_frames.len() as int)
            }
        } else {
            noted
        }
    }

    /// The group can be closed early: a frame of it can become a P picture.
    pub open spec fn can_drain(self) -> bool {
        &&& self.l1_ref_pending is None
        &&& self.l0_ref is Some
        &&& self.future_b_frames.len() > 0
        &&& self.headroom()
    }

    /// The request that closes the group early: the newest frame of the
    /// group as a P picture.
    pub open spec fn drain_request(self) -> BackendRequestView<P, R> {
        self.p_request(self.future_b_frames.last().0, self.future_b_frames.last().1)
    }

    /// The state after the group has been closed early.
    pub open spec fn drained(self) -> Self {
        (GroupOfPicturesView {
            future_b_frames: self.future_b_frames.drop_last(),
            ..self
        }).after_p()
    }

    /// The arrival of a reconstructed picture keeps the state well formed
    /// and sets only sound requests free.
    pub proof fn lemma_with_reference(self, recon: DpbEntry<R>)
        requires
            self.wf(),
        ensures
            self.with_reference(recon).wf(),
            self.with_reference(recon).delivered == self.delivered.push(recon),
            self.b_requests(recon).len() + self.with_reference(recon).frames().len()
                == self.frames().len(),
            requests_are_sound(self.b_requests(recon), self.delivered.push(recon)),
    {
        let delivered = self.delivered.push(recon);
        assert(delivered[delivered.len() - 1] == recon);
        if self.l0_ref is Some {
            let held = *(self.l0_ref->Some_0);
            let k = choose|k: int| 0 <= k < self.delivered.len() && self.delivered[k] == held;
            assert(delivered[k] == held);
        }
    }
}

impl<P, R, S: Synthesizer> GroupOfPicturesView<P, R, S> {
    /// The pictures yet to come are displayed after the reference before
    /// the group: its picture order count is below that of the next B
    /// picture.
    ///
    /// This holds from the start of the sequence on and as long as every
    /// group is full when its P picture comes back. A group that `drain`
    /// closed early and that is not full by then breaks it: its P picture
    /// was placed a full group ahead.
    pub open spec fn aligned(self) -> bool {
        let awaited = if self.l1_ref_pending is Some {
            1int
        } else {
            0int
        };
        self.l0_ref matches Some(reference) ==> reference.meta.poc < 2 * (self.poc_counter
            - awaited)
    }

    /// Frame numbers go up by one from reference picture to reference
    /// picture: the IDR picture has frame number 0, each P picture the
    /// frame counter, which it moves on by one. A B picture has the frame
    /// counter as well and leaves it where it is.
    pub proof fn law_frame_numbers(
        self,
        input: P,
        input_meta: FrameMetadata,
        headers: Seq<u8>,
        l1_ref: Rc<DpbEntry<R>>,
    )
        requires
            self.frame_counter < u32::MAX,
        ensures
            self.idr_request(input, input_meta, headers).dpb_meta.frame_num == 0,
            self.after_idr().frame_counter == 1,
            self.p_request(input, input_meta).dpb_meta.frame_num == self.frame_counter,
            self.after_p().frame_counter == self.frame_counter + 1,
            self.b_request(input, input_meta, l1_ref).dpb_meta.frame_num == self.frame_counter,
            self.after_b().frame_counter == self.frame_counter,
            self.b_request(input, input_meta, l1_ref).dpb_meta.is_reference == IsReference::No,
    {
    }

    /// The reference before the group is the picture displayed just before
    /// the next B picture: no place is left between them. This holds from
    /// the start of the sequence on and as long as every group is full when
    /// its P picture comes back.
    pub open spec fn tight(self) -> bool {
        let awaited = if self.l1_ref_pending is Some {
            1int
        } else {
            0int
        };
        self.l0_ref matches Some(reference) ==> reference.meta.poc == 2 * (self.poc_counter - 1
            - awaited)
    }

    /// Every B picture that the arrival of the awaited P picture sets free:
    /// it is no IDR picture and carries no bytes; its one reference from
    /// the past is the reference before the group, which came in as a
    /// reconstructed picture, its one reference from the future is the P
    /// picture; it has the frame number after that of the P picture, which
    /// it leaves to the next reference, and is no reference itself; its
    /// picture order count is below that of the P picture and fits.
    pub proof fn law_b_request(self, recon: DpbEntry<R>, index: int)
        requires
            self.wf(),
            self.awaits_l1(recon),
            0 <= index < self.future_b_frames.len(),
        ensures
            ({
                let state = self.after_bs(index);
                let request = self.b_requests(recon)[index];
                &&& state.in_sequence() && state.l0_ref == self.l0_ref && state.l0_ref is Some
                &&& 1 <= state.poc_counter <= MAX_POC_COUNT
                &&& state.poc_counter == self.poc_counter + index
                &&& state.after_b().poc_counter == state.poc_counter + 1
                &&& state.after_b().frame_counter == self.frame_counter
                &&& state.after_b().l0_ref == self.l0_ref
                &&& !request.is_idr
                &&& request.coded_output.len() == 0
                &&& request.ref_list_0 == seq![self.l0_ref->Some_0]
                &&& request.ref_list_1 == seq![Rc::new(recon)]
                &&& self.delivered.contains(*request.ref_list_0[0])
                &&& request.dpb_meta.frame_num == self.frame_counter
                &&& request.dpb_meta.frame_num == recon.meta.frame_num + 1
                &&& request.dpb_meta.is_reference is No
                &&& request.dpb_meta.poc == 2 * (self.poc_counter - 1 + index)
                &&& request.dpb_meta.poc < recon.meta.poc
            }),
    {
    }

    /// In a tight state the B pictures of a group follow the reference
    /// before the group in steps of two.
    pub proof fn law_b_poc_steps(self, recon: DpbEntry<R>, index: int)
        requires
            self.wf(),
            self.tight(),
            self.awaits_l1(recon),
            0 <= index < self.future_b_frames.len(),
        ensures
            self.aligned(),
            self.b_requests(recon)[index].dpb_meta.poc == self.l0_ref->Some_0.meta.poc + 2 * (
            index + 1),
    {
    }

    /// Looking through the pending frames keeps the state tight, and so
    /// does the arrival of a reconstructed picture unless it is the P
    /// picture of a group that is not full.
    pub proof fn law_tight_kept(
        self,
        post: Self,
        emitted: Seq<BackendRequestView<P, R>>,
        recon: DpbEntry<R>,
    )
        requires
            self.wf(),
            self.tight(),
        ensures
            self.pumped(post, emitted) ==> post.tight(),
            self.awaits_l1(recon) ==> self.future_b_frames.len() == self.size
                ==> self.with_reference(recon).tight(),
            !self.awaits_l1(recon) ==> self.with_reference(recon).tight(),
            self.can_drain() ==> self.drained().tight(),
    {
    }

    /// The picture order count of a B picture lies strictly between those
    /// of its two references, wherever the state was aligned when the P
    /// picture of the group came back.
    pub proof fn law_b_between_references(self, recon: DpbEntry<R>, index: int)
        requires
            self.wf(),
            self.aligned(),
            self.awaits_l1(recon),
            0 <= index < self.future_b_frames.len(),
        ensures
            ({
                let request = self.b_requests(recon)[index];
                &&& request.ref_list_0 == seq![self.l0_ref->Some_0]
                &&& request.ref_list_1 == seq![Rc::new(recon)]
                &&& request.ref_list_0[0].meta.poc < request.dpb_meta.poc
                &&& request.dpb_meta.poc < request.ref_list_1[0].meta.poc
                &&& request.dpb_meta.poc == 2 * (self.poc_counter - 1 + index)
            }),
    {
    }

    /// Without alignment the first B picture of a group is not displayed
    /// after the reference before the group.
    pub proof fn law_b_needs_alignment(self, recon: DpbEntry<R>)
        requires
            self.wf(),
            !self.aligned(),
            self.awaits_l1(recon),
            0 < self.future_b_frames.len(),
        ensures
            self.b_requests(recon)[0].dpb_meta.poc
                <= self.b_requests(recon)[0].ref_list_0[0].meta.poc,
    {
    }

    /// Looking through the pending frames keeps the state aligned.
    pub proof fn law_aligned_after_look(self, post: Self, emitted: Seq<BackendRequestView<P, R>>)
        requires
            self.wf(),
            self.aligned(),
            self.pumped(post, emitted),
        ensures
            post.aligned(),
    {
    }

    /// The arrival of a reconstructed picture keeps the state aligned,
    /// unless the picture is the P picture of a group that is not full.
    pub proof fn law_aligned_after_arrival(self, recon: DpbEntry<R>)
        requires
            self.wf(),
            self.aligned(),
            self.awaits_l1(recon) ==> self.future_b_frames.len() == self.size,
        ensures
            self.with_reference(recon).aligned(),
    {
    }

    /// Closing a group early keeps the state aligned until the P picture
    /// comes back.
    pub proof fn law_aligned_after_drain(self)
        requires
            self.wf(),
            self.aligned(),
            self.can_drain(),
        ensures
            self.drained().aligned(),
    {
    }

    /// At most one P picture is being encoded at a time: looking through
    /// the pending frames requests a P picture only while none is awaited,
    /// requests no second one, and awaits the one it requested.
    pub proof fn law_one_p_at_a_time(
        self,
        post: Self,
        emitted: Seq<BackendRequestView<P, R>>,
        index: int,
    )
        requires
            self.wf(),
            self.pumped(post, emitted),
            0 <= index < emitted.len(),
            emitted[index].header.slice_type == SliceType::P,
        ensures
            self.l1_ref_pending is None,
            emitted.len() == 1,
            post.l1_ref_pending == Some(emitted[index].dpb_meta),
    {
    }

    /// While a P picture is awaited, looking through the pending frames
    /// requests nothing.
    pub proof fn law_no_request_while_p_awaited(
        self,
        post: Self,
        emitted: Seq<BackendRequestView<P, R>>,
    )
        requires
            self.wf(),
            self.l1_ref_pending is Some,
            self.pumped(post, emitted),
        ensures
            emitted.len() == 0,
            post.l1_ref_pending == self.l1_ref_pending,
    {
    }

    /// Closing a group early needs that no P picture is awaited, and
    /// awaits the one it requests.
    pub proof fn law_drain_one_p(self)
        requires
            self.wf(),
            self.can_drain(),
        ensures
            self.l1_ref_pending is None,
            self.drained().l1_ref_pending == Some(self.drain_request().dpb_meta),
            self.drain_request().header.slice_type == SliceType::P,
    {
    }
}

impl<P, R, S: Synthesizer> GroupOfPicturesView<P, R, S> {
    /// Pictures of the sequence, requested or held.
    pub open spec fn span(self) -> int {
        self.poc_counter + self.future_b_frames.len() + self.pending.len()
    }

    /// The picture order counts run out before the frames held and `more`
    /// further ones are requested.
    pub open spec fn exhausted(self, more: int) -> bool {
        self.span() + more + self.size > MAX_POC_COUNT + 1
    }

    /// The pending frames have been looked through: none of them can be
    /// requested or join the group as things are.
    pub open spec fn settled(self) -> bool {
        &&& !self.started() ==> self.pending.len() == 0
        &&& self.pending.len() > 0 ==> self.future_b_frames.len() == self.size && (
        self.l1_ref_pending is Some || self.l0_ref is None)
    }

    /// `places` can be the places of the pictures that are being
    /// reconstructed, oldest first.
    ///
    /// The picture that the predictor waits for is among them, and it is
    /// the only reference among them. The others are B pictures that are
    /// displayed before the next B picture. No two of them have the same
    /// place.
    pub open spec fn awaits_within(self, places: Seq<DpbEntryMeta>) -> bool {
        &&& self.idr_ref_pending matches Some(meta) ==> places.contains(meta)
        &&& self.l1_ref_pending matches Some(meta) ==> places.contains(meta)
        &&& forall|i: int|
            0 <= i < places.len() ==> if (#[trigger] places[i]).is_reference is No {
                places[i].poc < 2 * (self.poc_counter - 1)
            } else {
                Some(places[i]) == self.idr_ref_pending || Some(places[i])
                    == self.l1_ref_pending
            }
        &&& forall|i: int, j: int|
            0 <= i < j < places.len() ==> #[trigger] places[i] != #[trigger] places[j]
    }

    /// The place of the next request is new: no picture that is being
    /// reconstructed has it.
    pub proof fn law_place_is_new(self, places: Seq<DpbEntryMeta>, l1_ref: Rc<DpbEntry<R>>)
        requires
            self.wf(),
            self.awaits_within(places),
        ensures
            !self.started() ==> !places.contains(idr_meta()),
            self.p_due() && self.headroom() ==> !places.contains(self.p_meta()),
            self.l1_ref_pending is Some ==> !places.contains(self.b_meta()),
    {
        if !self.started() && places.contains(idr_meta()) {
            let k = choose|k: int| 0 <= k < places.len() && places[k] == idr_meta();
            assert(places[k].is_reference is ShortTerm);
        }
        if self.p_due() && self.headroom() && places.contains(self.p_meta()) {
            let k = choose|k: int| 0 <= k < places.len() && places[k] == self.p_meta();
            assert(places[k].is_reference is ShortTerm);
        }
        if self.l1_ref_pending is Some && places.contains(self.b_meta()) {
            let k = choose|k: int| 0 <= k < places.len() && places[k] == self.b_meta();
            assert(places[k].is_reference is No);
        }
    }

    /// Looking through the pending frames settles the state, keeps the
    /// span, and waits only for what it requested or was awaited before.
    pub proof fn lemma_pumped_settles(
        self,
        post: Self,
        emitted: Seq<BackendRequestView<P, R>>,
        places: Seq<DpbEntryMeta>,
    )
        requires
            self.wf(),
            self.awaits_within(places),
            self.pumped(post, emitted),
        ensures
            post.settled(),
            post.span() == self.span(),
            post.awaits_within(places + request_places(emitted)),
    {
        let all = places + request_places(emitted);
        assert forall|meta: DpbEntryMeta| places.contains(meta) implies all.contains(meta) by {
            let k = choose|k: int| 0 <= k < places.len() && places[k] == meta;
            assert(all[k] == meta);
        }
        if emitted.len() > 0 {
            assert(all[places.len() as int] == emitted[0].dpb_meta);
        }
    }

    /// Where looking through the pending frames fails with an invalid
    /// state, the picture order counts have run out.
    pub proof fn law_invalid_state_when_exhausted(self, e: EncodeError)
        requires
            self.wf(),
            self.pump_fails(e),
            e is InvalidInternalState,
        ensures
            self.exhausted(0),
    {
    }

    /// The arrival of the picture at the head of `places` keeps the span
    /// and leaves the predictor waiting only for pictures at the places
    /// after the head and at those of the B pictures set free.
    pub proof fn lemma_with_reference_awaits(self, recon: DpbEntry<R>, places: Seq<DpbEntryMeta>)
        requires
            self.wf(),
            self.awaits_within(places),
            places.len() > 0,
            places[0] == recon.meta,
        ensures
            self.with_reference(recon).span() == self.span(),
            self.with_reference(recon).awaits_within(
                places.skip(1) + request_places(self.b_requests(recon)),
            ),
    {
        let rest = places.skip(1) + request_places(self.b_requests(recon));
        assert forall|meta: DpbEntryMeta|
            places.contains(meta) && meta != recon.meta implies rest.contains(meta) by {
            let k = choose|k: int| 0 <= k < places.len() && places[k] == meta;
            assert(rest[k - 1] == meta);
        }
    }

    /// A settled predictor that holds frames and waits for no picture can
    /// close its group early, unless the picture order counts have run out.
    /// Afterwards it is settled again and waits for the P picture.
    pub proof fn law_settled_can_drain(self)
        requires
            self.wf(),
            self.settled(),
            self.awaits_within(Seq::empty()),
            self.future_b_frames.len() + self.pending.len() > 0,
        ensures
            self.can_drain() || self.exhausted(0),
            self.can_drain() ==> {
                &&& self.drained().settled()
                &&& self.drained().span() == self.span()
                &&& self.drained().awaits_within(seq![self.drain_request().dpb_meta])
            },
    {
        if self.can_drain() {
            assert(seq![self.drain_request().dpb_meta][0] == self.drain_request().dpb_meta);
        }
    }
}

impl<P, R, S> View for GroupOfPictures<P, R, S> {
    type V = GroupOfPicturesView<P, R, S>;

    closed spec fn view(&self) -> GroupOfPicturesView<P, R, S> {
        GroupOfPicturesView {
            synthesizer: self.synthesizer,
            poc_counter: self.poc_counter,
            frame_counter: self.frame_counter,
            limit: self.limit,
            size: self.size,
            pending: self.pending@,
            future_b_frames: self.future_b_frames@,
            l0_ref: self.l0_ref,
            idr_ref_pending: self.idr_ref_pending,
            l1_ref_pending: self.l1_ref_pending,
            sps: self.sps,
            pps: self.pps,
            config: *self.config,
            delivered: self.delivered@,
        }
    }
}

impl<P, R, S: Synthesizer> GroupOfPictures<P, R, S> {
    /// A predictor before its first frame.
    pub fn new(config: EncoderConfig, synthesizer: S) -> (r: Self)
        requires
            config.valid(),
            config.pred_structure is GroupOfPictures,
        ensures
            r@.wf(),
            r@ == (GroupOfPicturesView::<P, R, S> {
                synthesizer,
                poc_counter: 0,
                frame_counter: 0,
                limit: config.pred_structure->GroupOfPictures_limit,
                size: config.pred_structure->GroupOfPictures_size,
                pending: Seq::empty(),
                future_b_frames: Seq::empty(),
                l0_ref: None,
                idr_ref_pending: None,
                l1_ref_pending: None,
                sps: None,
                pps: None,
                config,
                delivered: Seq::empty(),
            }),
    {
        let (size, limit) = match config.pred_structure {
            PredictionStructure::GroupOfPictures { size, limit } => (size, limit),
            _ => (0, 0),
        };
        GroupOfPictures {
            poc_counter: 0,
            frame_counter: 0,
            limit,
            size,
            pending: VecDeque::new(),
            future_b_frames: VecDeque::new(),
            l0_ref: None,
            idr_ref_pending: None,
            l1_ref_pending: None,
            sps: None,
            pps: None,
            config: Rc::new(config),
            synthesizer,
            delivered: Ghost(Seq::empty()),
        }
    }

    /// Begins a sequence: new parameter sets, counters at zero, no
    /// reference held or awaited.
    pub fn new_sequence(&mut self)
        requires
            old(self)@.config.valid(),
        ensures
            final(self)@ == old(self)@.restarted(),
    {
        let sps = Rc::new(build_sps(&self.config, self.limit, self.size as u32 + 1));
        let pps = Rc::new(build_pps(&sps, &self.config, 1));
        self.frame_counter = 0;
        self.poc_counter = 0;
        self.l0_ref = None;
        self.idr_ref_pending = None;
        self.l1_ref_pending = None;
        self.sps = Some(sps);
        self.pps = Some(pps);
    }

    /// Begins a sequence with `input` as its IDR picture.
    ///
    /// The request has no references and carries the bytes of the two
    /// parameter sets as the synthesizer wrote them. The predictor then
    /// waits for the picture to come back as the first reference.
    pub fn request_idr(&mut self, input: P, input_meta: FrameMetadata) -> (r: EncodeResult<
        BackendRequest<P, R>,
    >)
        requires
            old(self)@.config.valid(),
        ensures
            match r {
                Ok(request) => {
                    &&& request@ == old(self)@.idr_request(
                        input,
                        input_meta,
                        request@.coded_output,
                    )
                    &&& old(self)@.wrote(request@.coded_output)
                    &&& final(self)@ == old(self)@.after_idr()
                },
                Err(e) => {
                    &&& old(self)@.refuses(e)
                    &&& final(self)@ == (GroupOfPicturesView {
                        idr_ref_pending: None,
                        ..old(self)@.after_idr()
                    })
                },
            },
            !old(self)@.may_refuse() ==> r is Ok,
    {
        self.new_sequence();
        let sps = Rc::clone(self.sps.as_ref().unwrap());
        let pps = Rc::clone(self.pps.as_ref().unwrap());
        self.poc_counter += 1;
        self.frame_counter += 1;
        let headers = match synthesize_headers(&self.synthesizer, &sps, &pps) {
            Ok(headers) => headers,
            Err(e) => {
                return Err(EncodeError::H264SynthesizerError(e));
            },
        };
        let request = build_idr_request(sps, pps, &self.config, input, input_meta, headers);
        self.idr_ref_pending = Some(request.dpb_meta);
        Ok(request)
    }

    /// Makes `input` the P picture that ends the group. The predictor then
    /// waits for the picture to come back.
    pub fn request_p(&mut self, input: P, input_meta: FrameMetadata) -> (request: BackendRequest<
        P,
        R,
    >)
        requires
            old(self)@.config.valid(),
            old(self)@.in_sequence(),
            old(self)@.l0_ref is Some,
            old(self)@.headroom(),
            old(self)@.frame_counter <= old(self)@.poc_counter,
        ensures
            request@ == old(self)@.p_request(input, input_meta),
            final(self)@ == old(self)@.after_p(),
    {
        let sps = Rc::clone(self.sps.as_ref().unwrap());
        let pps = Rc::clone(self.pps.as_ref().unwrap());
        let dpb_meta = DpbEntryMeta {
            poc: (self.poc_counter + self.size) * 2,
            frame_num: self.frame_counter,
            is_reference: IsReference::ShortTerm,
        };
        let header = build_slice_header(&pps, SliceType::P, dpb_meta.poc);
        let num_macroblocks = count_macroblocks(&sps);
        self.l1_ref_pending = Some(dpb_meta);
        let mut ref_list_0: Vec<Rc<DpbEntry<R>>> = Vec::new();
        ref_list_0.push(Rc::clone(self.l0_ref.as_ref().unwrap()));
        let request = BackendRequest {
            sps,
            pps,
            header,
            input,
            input_meta,
            dpb_meta,
            ref_list_0,
            ref_list_1: Vec::new(),
            num_macroblocks,
            is_idr: false,
            config: Rc::clone(&self.config),
            coded_output: Vec::new(),
        };
        self.poc_counter += 1;
        self.frame_counter += 1;
        request
    }

    /// Makes `input` the next B picture of the group that `l1_ref` ends.
    pub fn request_b(
        &mut self,
        input: P,
        input_meta: FrameMetadata,
        l1_ref: &Rc<DpbEntry<R>>,
    ) -> (request: BackendRequest<P, R>)
        requires
            old(self)@.config.valid(),
            old(self)@.in_sequence(),
            old(self)@.l0_ref is Some,
            1 <= old(self)@.poc_counter <= MAX_POC_COUNT,
        ensures
            request@ == old(self)@.b_request(input, input_meta, *l1_ref),
            final(self)@ == old(self)@.after_b(),
    {
        let sps = Rc::clone(self.sps.as_ref().unwrap());
        let pps = Rc::clone(self.pps.as_ref().unwrap());
        let dpb_meta = DpbEntryMeta {
            poc: (self.poc_counter - 1) * 2,
            frame_num: self.frame_counter,
            is_reference: IsReference::No,
        };
        let header = build_slice_header(&pps, SliceType::B, dpb_meta.poc);
        let num_macroblocks = count_macroblocks(&sps);
        let mut ref_list_0: Vec<Rc<DpbEntry<R>>> = Vec::new();
        ref_list_0.push(Rc::clone(self.l0_ref.as_ref().unwrap()));
        let mut ref_list_1: Vec<Rc<DpbEntry<R>>> = Vec::new();
        ref_list_1.push(Rc::clone(l1_ref));
        let request = BackendRequest {
            sps,
            pps,
            header,
            input,
            input_meta,
            dpb_meta,
            ref_list_0,
            ref_list_1,
            num_macroblocks,
            is_idr: false,
            config: Rc::clone(&self.config),
            coded_output: Vec::new(),
        };
        self.poc_counter += 1;
        request
    }

    /// Looks through the pending frames and appends to `requests` what can
    /// be requested now.
    ///
    /// See [`GroupOfPicturesView::pumped`] for what happens and
    /// [`GroupOfPicturesView::pump_fails`] for the errors.
    pub fn next_i_p_frames(&mut self, requests: &mut Vec<BackendRequest<P, R>>) -> (r: EncodeResult<
        (),
    >)
        requires
            old(self)@.wf(),
        ensures
            match r {
                Ok(()) => {
                    &&& final(self)@.wf()
                    &&& final(requests)@.len() >= old(requests)@.len()
                    &&& final(requests)@.take(old(requests)@.len() as int) == old(requests)@
                    &&& old(self)@.pumped(
                        final(self)@,
                        request_views(final(requests)@.skip(old(requests)@.len() as int)),
                    )
                },
                Err(e) => old(self)@.pump_fails(e),
            },
    {
        let ghost pre = self@;
        let ghost base_len = requests@.len() as int;
        let ghost mut idr: Option<BackendRequestView<P, R>> = None;
        let ghost mut p_done = false;
        let ghost mut joined: int = 0;
        proof {
            pre.lemma_buffer_one_or_none();
        }
        loop
            invariant
                pre == old(self)@,
                base_len == old(requests)@.len(),
                pre.wf(),
                self@.wf(),
                requests@.len() >= base_len,
                requests@.take(base_len) == old(requests)@,
                request_views(requests@.skip(base_len)) == pre.emitted_so_far(idr, p_done),
                idr matches Some(view) ==> !pre.started() && pre.pending.len() > 0 && view
                    == pre.idr_request(pre.pending[0].0, pre.pending[0].1, view.coded_output)
                    && pre.wrote(view.coded_output),
                idr is None && !pre.started() ==> self@ == pre && joined == 0 && !p_done,
                0 <= joined <= pre.base(idr).pending.len(),
                joined <= pre.base(idr).room(),
                !p_done ==> self@ == pre.base(idr).buffered(joined),
                p_done ==> {
                    &&& idr is None
                    &&& pre.started()
                    &&& joined == pre.fill()
                    &&& pre.filled().p_due()
                    &&& pre.filled().headroom()
                    &&& self@ == pre.filled().popped().after_p()
                },
            ensures
                pre.pumped(self@, request_views(requests@.skip(base_len))),
            decreases self.pending@.len(),
        {
            let ghost before = self@;
            let ghost base = pre.base(idr);
            match self.pending.pop_front() {
                None => {
                    break ;
                },
                Some((input, frame_metadata)) => {
                    if self.l0_ref.is_none() && self.idr_ref_pending.is_none() {
                        match self.request_idr(input, frame_metadata) {
                            Ok(request) => {
                                proof {
                                    idr = Some(request@);
                                    let begun = pre.popped().after_idr();
                                    begun.lemma_buffer_one_or_none();
                                }
                                requests.push(request);
                            },
                            Err(e) => {
                                return Err(e);
                            },
                        }
                    } else if self.future_b_frames.len() < self.size as usize {
                        self.future_b_frames.push_back((input, frame_metadata));
                        proof {
                            base.lemma_buffer_one(joined);
                            assert(self.future_b_frames@ =~= before.buffered(1).future_b_frames);
                            joined = joined + 1;
                        }
                    } else if self.l1_ref_pending.is_none() && self.l0_ref.is_some() {
                        if self.size > MAX_POC_COUNT || self.poc_counter > MAX_POC_COUNT
                            - self.size {
                            return Err(EncodeError::InvalidInternalState);
                        }
                        let request = self.request_p(input, frame_metadata);
                        proof {
                            p_done = true;
                        }
                        requests.push(request);
                    } else {
                        self.pending.push_front((input, frame_metadata));
                        assert(self.pending@ =~= before.pending);
                        break ;
                    }
                },
            }
        }
        Ok(())
    }
}

/// The verdict that carries `requests`: nothing to do if there are none.
fn verdict_of<P, R>(requests: Vec<BackendRequest<P, R>>) -> (verdict: PredictorVerdict<P, R>)
    ensures
        verdict.requests() == request_views(requests@),
        verdict is Request <==> requests@.len() > 0,
{
    if requests.len() == 0 {
        return PredictorVerdict::NoOperation;
    }
    PredictorVerdict::Request { requests }
}

impl<P, R, S: Synthesizer> Predictor<P, R> for GroupOfPictures<P, R, S> {
    open spec fn wf(&self) -> bool {
        self@.wf()
    }

    open spec fn frames(&self) -> Seq<FrameMetadata> {
        self@.frames()
    }

    /// The P picture of a group leaves before the B pictures that came in
    /// before it.
    open spec fn in_order(&self) -> bool {
        false
    }

    open spec fn delivered(&self) -> Seq<DpbEntry<R>> {
        self@.delivered
    }

    /// Makes the frame the newest pending one and looks through the
    /// pending frames.
    fn new_frame(&mut self, input: P, frame_metadata: FrameMetadata) -> (r: EncodeResult<
        PredictorVerdict<P, R>,
    >)
        ensures
            match r {
                Ok(verdict) => {
                    &&& old(self)@.with_frame(input, frame_metadata).pumped(
                        final(self)@,
                        verdict.requests(),
                    )
                    &&& verdict is Request <==> verdict.requests().len() > 0
                },
                Err(e) => old(self)@.with_frame(input, frame_metadata).pump_fails(e),
            },
    {
        self.pending.push_back((input, frame_metadata));
        let mut requests: Vec<BackendRequest<P, R>> = Vec::new();
        match self.next_i_p_frames(&mut requests) {
            Err(e) => {
                return Err(e);
            },
            Ok(()) => {},
        }
        proof {
            assert(requests@.skip(0) =~= requests@);
        }
        Ok(verdict_of(requests))
    }

    /// Takes the picture in and looks through the pending frames.
    ///
    /// The requests are those that the picture sets free at once, see
    /// [`GroupOfPicturesView::b_requests`], followed by those of the look
    /// through the pending frames from the state
    /// [`GroupOfPicturesView::with_reference`].
    fn reconstructed(&mut self, recon: DpbEntry<R>) -> (r: EncodeResult<PredictorVerdict<P, R>>)
        ensures
            match r {
                Ok(verdict) => {
                    let set_free = old(self)@.b_requests(recon);
                    &&& verdict.requests().len() >= set_free.len()
                    &&& verdict.requests().take(set_free.len() as int) == set_free
                    &&& old(self)@.with_reference(recon).pumped(
                        final(self)@,
                        verdict.requests().skip(set_free.len() as int),
                    )
                    &&& verdict is Request <==> verdict.requests().len() > 0
                },
                Err(e) => old(self)@.with_reference(recon).pump_fails(e),
            },
    {
        let ghost pre = old(self)@;
        let ghost noted = GroupOfPicturesView { delivered: pre.delivered.push(recon), ..pre };
        let mut requests: Vec<BackendRequest<P, R>> = Vec::new();
        proof {
            pre.lemma_with_reference(recon);
            self.delivered@ = self.delivered@.push(recon);
        }
        let awaits_idr = match self.idr_ref_pending {
            Some(meta) => meta == recon.meta,
            None => false,
        };
        let awaits_l1 = match self.l1_ref_pending {
            Some(meta) => meta == recon.meta,
            None => false,
        };
        if awaits_idr {
            self.l0_ref = Some(Rc::new(recon));
            self.idr_ref_pending = None;
        } else if awaits_l1 {
            let recon = Rc::new(recon);
            proof {
                assert(noted.after_bs(0).future_b_frames =~= noted.future_b_frames);
            }
            loop
                invariant
                    pre == old(self)@,
                    pre.wf(),
                    pre.awaits_l1(*recon),
                    noted == (GroupOfPicturesView { delivered: pre.delivered.push(*recon), ..pre }),
                    0 <= requests@.len() <= pre.future_b_frames.len(),
                    self@ == noted.after_bs(requests@.len() as int),
                    request_views(requests@) == pre.b_requests(*recon).take(requests@.len() as int),
                ensures
                    requests@.len() == pre.future_b_frames.len(),
                    request_views(requests@) == pre.b_requests(*recon),
                decreases self.future_b_frames@.len(),
            {
                let ghost done = requests@.len() as int;
                match self.future_b_frames.pop_front() {
                    None => {
                        break ;
                    },
                    Some((input, meta)) => {
                        let request = self.request_b(input, meta, &recon);
                        proof {
                            assert(self.future_b_frames@ =~= noted.after_bs(
                                done + 1,
                            ).future_b_frames);
                        }
                        requests.push(request);
                    },
                }
            }
            self.l0_ref = Some(recon);
            self.l1_ref_pending = None;
        }
        let ghost set_free = requests@;
        match self.next_i_p_frames(&mut requests) {
            Err(e) => {
                return Err(e);
            },
            Ok(()) => {},
        }
        proof {
            let all = request_views(requests@);
            assert(all.skip(set_free.len() as int) =~= request_views(
                requests@.skip(set_free.len() as int),
            ));
            assert forall|i: int| 0 <= i < all.len() implies request_is_sound(
                #[trigger] all[i],
                self@.delivered,
            ) by {
                if i < set_free.len() {
                    assert(all[i] == pre.b_requests(recon)[i]);
                }
            }
        }
        Ok(verdict_of(requests))
    }

    /// Closes the group early: its newest frame becomes a P picture, so
    /// that the frames before it can follow as B pictures once it is
    /// reconstructed.
    ///
    /// This needs a frame in the group, the reference before the group, no
    /// P picture being encoded, and a picture order count that fits; else
    /// the call is an error and changes nothing.
    fn drain(&mut self) -> (r: EncodeResult<Vec<BackendRequest<P, R>>>)
        ensures
            old(self)@.can_drain() ==> {
                &&& r matches Ok(requests)
                &&& request_views(requests@) == seq![old(self)@.drain_request()]
                &&& final(self)@ == old(self)@.drained()
            },
            !old(self)@.can_drain() ==> {
                &&& r matches Err(EncodeError::InvalidInternalState)
                &&& final(self)@ == old(self)@
            },
    {
        if self.l1_ref_pending.is_some() || self.l0_ref.is_none() {
            return Err(EncodeError::InvalidInternalState);
        }
        if self.size > MAX_POC_COUNT || self.poc_counter > MAX_POC_COUNT - self.size {
            return Err(EncodeError::InvalidInternalState);
        }
        let (input, meta) = match self.future_b_frames.pop_back() {
            Some(frame) => frame,
            None => {
                return Err(EncodeError::InvalidInternalState);
            },
        };
        let request = self.request_p(input, meta);
        self.l1_ref_pending = Some(request.dpb_meta);
        let mut requests: Vec<BackendRequest<P, R>> = Vec::new();
        requests.push(request);
        Ok(requests)
    }
}

} // verus!
