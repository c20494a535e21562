//! The low-delay structure: an IDR picture, then P pictures that refer only
//! to pictures before them, so that no frame waits for a later one.

use vstd::prelude::*;
use std::collections::VecDeque;
use std::rc::Rc;
use crate::codec::h264::parser::Pps;
use crate::codec::h264::parser::SliceType;
use crate::codec::h264::parser::Sps;
use crate::codec::h264::synthesizer::Synthesizer;
use crate::encoder::FrameMetadata;
use crate::encoder::stateless::EncodeError;
use crate::encoder::stateless::EncodeResult;
use crate::encoder::stateless::h264::BackendRequest;
use crate::encoder::stateless::h264::BackendRequestView;
use crate::encoder::stateless::h264::DpbEntry;
use crate::encoder::stateless::h264::DpbEntryMeta;
use crate::encoder::stateless::h264::EncoderConfig;
use crate::encoder::stateless::h264::IsReference;
use crate::encoder::stateless::h264::predictor::PredictionStructure;
use crate::encoder::stateless::h264::predictor::Predictor;
use crate::encoder::stateless::h264::predictor::PredictorVerdict;
use crate::encoder::stateless::h264::predictor::build_idr_request;
use crate::encoder::stateless::h264::predictor::build_pps;
use crate::encoder::stateless::h264::predictor::headed;
use crate::encoder::stateless::h264::predictor::idr_request;
use crate::encoder::stateless::h264::predictor::may_refuse_headers;
use crate::encoder::stateless::h264::predictor::refuses_headers;
use crate::encoder::stateless::h264::predictor::wrote_headers;
use crate::encoder::stateless::h264::predictor::build_slice_header;
use crate::encoder::stateless::h264::predictor::build_sps;
use crate::encoder::stateless::h264::predictor::count_macroblocks;
use crate::encoder::stateless::h264::predictor::request_frames;
use crate::encoder::stateless::h264::predictor::requests_are_sound;
use crate::encoder::stateless::h264::predictor::sequence_pps;
use crate::encoder::stateless::h264::predictor::sequence_sps;
use crate::encoder::stateless::h264::predictor::slice_header;
use crate::encoder::stateless::h264::predictor::synthesize_headers;

verus! {

/// Predictor of the low-delay structure.
pub struct LowDelay<P, R, S> {
    /// Place in the sequence of the next frame; 0 before a sequence begins.
    counter: u16,
    /// Frames in a sequence.
    limit: u16,
    /// References that a P picture is to have.
    tail: u16,
    /// Frames that wait to be encoded.
    queue: VecDeque<(P, FrameMetadata)>,
    /// The references held, oldest first.
    dpb: VecDeque<Rc<DpbEntry<R>>>,
    sps: Option<Rc<Sps>>,
    pps: Option<Rc<Pps>>,
    config: Rc<EncoderConfig>,
    synthesizer: S,
    /// Every reconstructed picture that came in.
    delivered: Ghost<Seq<DpbEntry<R>>>,
    /// The wish for a keyframe of every frame put into a request.
    requested: Ghost<Seq<bool>>,
}

/// Mathematical value of a [`LowDelay`].
pub struct LowDelayView<P, R, S> {
    /// The writer of the parameter sets.
    pub synthesizer: S,
    pub counter: u16,
    pub limit: u16,
    pub tail: u16,
    pub queue: Seq<(P, FrameMetadata)>,
    pub dpb: Seq<Rc<DpbEntry<R>>>,
    pub sps: Option<Rc<Sps>>,
    pub pps: Option<Rc<Pps>>,
    pub config: EncoderConfig,
    /// Every reconstructed picture that came in, oldest first.
    pub delivered: Seq<DpbEntry<R>>,
    /// The wish for a keyframe of every frame that was put into a request,
    /// oldest first.
    pub requested: Seq<bool>,
}

/// What the predictor does with the frame at the head of its queue.
pub enum Step {
    /// There is no frame.
    Idle,
    /// The frame begins a sequence.
    Idr,
    /// The frame waits for reconstructed pictures.
    Starved,
    /// The frame becomes a P picture.
    Inter,
}

/// True if a frame at place `position` of a sequence begins a new one: the
/// sequence before it is full, or the client asks for a keyframe.
pub open spec fn begins_sequence(position: int, force_keyframe: bool) -> bool {
    position == 0 || force_keyframe
}

/// The place that follows `counter` frames of a sequence of `limit`.
pub open spec fn place_in_sequence(counter: int, limit: int) -> int {
    counter % limit
}

/// A counter that has not passed the end of the sequence stands for its own
/// place; one at the end stands for the start of the next sequence.
pub proof fn lemma_place_in_sequence(counter: int, limit: int)
    requires
        0 <= counter <= limit,
        1 <= limit,
    ensures
        place_in_sequence(counter, limit) == if counter == limit {
            0
        } else {
            counter
        },
{
    assert(counter % limit == if counter == limit {
        0
    } else {
        counter
    }) by (nonlinear_arith)
        requires
            0 <= counter <= limit,
            1 <= limit,
    ;
}

/// The value of the counter after a frame at place `position` has been
/// put into a request.
pub open spec fn counter_after(position: int, force_keyframe: bool) -> int {
    if begins_sequence(position, force_keyframe) {
        1
    } else {
        position + 1
    }
}

impl<P, R, S: Synthesizer> LowDelayView<P, R, S> {
    /// The sequence parameter set of every sequence of this predictor.
    pub open spec fn sps_value(self) -> Sps {
        sequence_sps(self.config, self.limit, (self.tail + 1) as u32)
    }

    /// The picture parameter set of every sequence of this predictor.
    pub open spec fn pps_value(self) -> Pps {
        sequence_pps(self.sps_value(), self.config, self.tail)
    }

    /// The parameter sets are those of the configuration.
    pub open spec fn in_sequence(self) -> bool {
        &&& self.sps == Some(Rc::new(self.sps_value()))
        &&& self.pps == Some(Rc::new(self.pps_value()))
    }

    /// The states that a predictor can be in: its parameters are those of
    /// a valid configuration, the counter has not passed the end of the
    /// sequence, the parameter sets are there once a sequence has begun, and
    /// every reference held came in as a reconstructed picture.
    pub open spec fn wf(self) -> bool {
        &&& self.config.valid()
        &&& self.config.pred_structure == (PredictionStructure::LowDelay {
            tail: self.tail,
            limit: self.limit,
        })
        &&& self.counter <= self.limit
        &&& self.counter > 0 ==> self.in_sequence()
        &&& forall|i: int|
            0 <= i < self.dpb.len() ==> self.delivered.contains(*#[trigger] self.dpb[i])
    }

    /// Place in the sequence of the next frame.
    pub open spec fn position(self) -> int {
        place_in_sequence(self.counter as int, self.limit as int)
    }

    /// References that the next P picture needs.
    pub open spec fn references_needed(self) -> int {
        if self.position() < self.tail {
            self.position()
        } else {
            self.tail as int
        }
    }

    /// What the next attempt does with the frame at the head of the queue.
    pub open spec fn next_step(self) -> Step {
        if self.queue.len() == 0 {
            Step::Idle
        } else if begins_sequence(self.position(), self.queue[0].1.force_keyframe) {
            Step::Idr
        } else if self.dpb.len() < self.references_needed() {
            Step::Starved
        } else {
            Step::Inter
        }
    }

    /// The request for an IDR picture of `input`, with `headers` as the
    /// parameter sets' bytes.
    pub open spec fn idr_request(
        self,
        input: P,
        input_meta: FrameMetadata,
        headers: Seq<u8>,
    ) -> BackendRequestView<P, R> {
        idr_request(self.sps_value(), self.pps_value(), self.config, input, input_meta, headers)
    }

    /// The request for a P picture of `input` at place `counter`: it refers
    /// to all references held, newest first.
    pub open spec fn inter_request(self, input: P, input_meta: FrameMetadata) -> BackendRequestView<
        P,
        R,
    > {
        BackendRequestView {
            sps: self.sps_value(),
            pps: self.pps_value(),
            header: slice_header(self.pps_value(), SliceType::P, (self.counter * 2) as u16),
            input,
            input_meta,
            dpb_meta: DpbEntryMeta {
                poc: (self.counter * 2) as u16,
                frame_num: self.counter as u32,
                is_reference: IsReference::ShortTerm,
            },
            ref_list_0: self.dpb.reverse(),
            ref_list_1: Seq::empty(),
            num_macroblocks: self.sps_value().spec_num_macroblocks() as usize,
            is_idr: false,
            config: self.config,
            coded_output: Seq::empty(),
        }
    }

    /// The references that stay after a P picture: the newest `tail - 1`.
    pub open spec fn kept_references(self) -> Seq<Rc<DpbEntry<R>>> {
        if self.dpb.len() > self.tail - 1 {
            self.dpb.skip(self.dpb.len() - (self.tail - 1))
        } else {
            self.dpb
        }
    }

    /// The state with the counter brought back into the sequence.
    pub open spec fn settled(self) -> Self {
        LowDelayView { counter: self.position() as u16, ..self }
    }

    /// The state without the frame at the head of the queue.
    pub open spec fn popped(self) -> Self {
        LowDelayView { queue: self.queue.skip(1), ..self }
    }

    /// The state at the start of a sequence.
    pub open spec fn restarted(self) -> Self {
        LowDelayView {
            dpb: Seq::empty(),
            sps: Some(Rc::new(self.sps_value())),
            pps: Some(Rc::new(self.pps_value())),
            ..self
        }
    }

    /// The state after the IDR picture of a new sequence, for a frame with
    /// the wish `forced` for a keyframe.
    pub open spec fn begun(self, forced: bool) -> Self {
        LowDelayView { counter: 1, requested: self.requested.push(forced), ..self.restarted() }
    }

    /// The state after a P picture, for a frame with the wish `forced` for
    /// a keyframe.
    pub open spec fn advanced(self, forced: bool) -> Self {
        LowDelayView {
            counter: (self.counter + 1) as u16,
            dpb: self.kept_references(),
            requested: self.requested.push(forced),
            ..self
        }
    }

    /// The counter is where the frames put into requests have brought it:
    /// the next frame has the place in its sequence that follows them.
    pub open spec fn on_record(self) -> bool {
        self.position() == place_in_sequence(
            counter_after_frames(self.limit as int, self.requested),
            self.limit as int,
        )
    }

    /// The state with one more frame in the queue.
    pub open spec fn with_frame(self, input: P, input_meta: FrameMetadata) -> Self {
        LowDelayView { queue: self.queue.push((input, input_meta)), ..self }
    }

    /// The state with one more reference.
    pub open spec fn with_reference(self, recon: DpbEntry<R>) -> Self {
        LowDelayView {
            dpb: self.dpb.push(Rc::new(recon)),
            delivered: self.delivered.push(recon),
            ..self
        }
    }

    /// The synthesizer may refuse the parameter sets of this predictor.
    pub open spec fn may_refuse(self) -> bool {
        may_refuse_headers(self.synthesizer, self.sps_value(), self.pps_value())
    }

    /// `r` is what the request for `input` as an IDR picture may come to:
    /// the request with the parameter sets as the synthesizer writes them,
    /// or the error with which the synthesizer refuses one of them. A
    /// synthesizer that cannot refuse them leaves only the request.
    pub open spec fn idr_requested(
        self,
        input: P,
        input_meta: FrameMetadata,
        r: EncodeResult<PredictorVerdict<P, R>>,
    ) -> bool {
        &&& match r {
            Ok(verdict) => {
                &&& verdict is Request
                &&& verdict.requests().len() == 1
                &&& verdict.requests()[0] == self.idr_request(
                    input,
                    input_meta,
                    verdict.requests()[0].coded_output,
                )
                &&& wrote_headers(
                    self.synthesizer,
                    self.sps_value(),
                    self.pps_value(),
                    verdict.requests()[0].coded_output,
                )
            },
            Err(e) => e matches EncodeError::H264SynthesizerError(error) && refuses_headers(
                self.synthesizer,
                self.sps_value(),
                self.pps_value(),
                error,
            ),
        }
        &&& !self.may_refuse() ==> r is Ok
    }

    /// How one attempt to emit a request takes the state `self` to `post`
    /// with the result `r`.
    ///
    /// Without a frame, or with a frame that waits for references, nothing
    /// is emitted. A frame that begins a sequence becomes an IDR picture
    /// unless the parameter sets cannot be written. Any other frame becomes
    /// a P picture.
    pub open spec fn attempted(self, post: Self, r: EncodeResult<PredictorVerdict<P, R>>) -> bool {
        match self.next_step() {
            Step::Idle | Step::Starved => {
                &&& r matches Ok(verdict)
                &&& verdict is NoOperation
                &&& post == self.settled()
            },
            Step::Idr => {
                &&& post == self.popped().begun(self.queue[0].1.force_keyframe)
                &&& self.idr_requested(self.queue[0].0, self.queue[0].1, r)
            },
            Step::Inter => {
                &&& r matches Ok(verdict)
                &&& verdict is Request
                &&& verdict.requests() == seq![
                    self.settled().inter_request(self.queue[0].0, self.queue[0].1),
                ]
                &&& post == self.settled().popped().advanced(self.queue[0].1.force_keyframe)
            },
        }
    }
}

impl<P, R, S: Synthesizer> LowDelayView<P, R, S> {
    /// Metadata of the frames in the queue, oldest first.
    pub open spec fn frames(self) -> Seq<FrameMetadata> {
        self.queue.map_values(|frame: (P, FrameMetadata)| frame.1)
    }

    /// An attempt keeps the state well formed, takes at most the oldest
    /// frame out of the queue, and emits only sound requests.
    pub proof fn lemma_attempt(self, post: Self, verdict: PredictorVerdict<P, R>)
        requires
            self.wf(),
            self.attempted(post, Ok(verdict)),
        ensures
            post.wf(),
            post.delivered == self.delivered,
            verdict is Request ==> verdict.requests().len() == 1,
            verdict is NoOperation ==> verdict.requests().len() == 0,
            request_frames(verdict.requests()) + post.frames() == self.frames(),
            requests_are_sound(verdict.requests(), post.delivered),
            self.on_record() ==> post.on_record(),
    {
        lemma_place_in_sequence(self.counter as int, self.limit as int);
        lemma_place_in_sequence(post.counter as int, post.limit as int);
        if self.queue.len() > 0 {
            assert(self.requested.push(self.queue[0].1.force_keyframe).drop_last()
                =~= self.requested);
        }
        match self.next_step() {
            Step::Idle | Step::Starved => {
            },
            Step::Idr => {
            },
            Step::Inter => {
                let request = verdict.requests()[0];
                assert forall|i: int|
                    0 <= i < request.ref_list_0.len() implies self.delivered.contains(
                    *#[trigger] request.ref_list_0[i],
                ) by {
                }
                assert forall|i: int| 0 <= i < post.dpb.len() implies post.delivered.contains(
                    *#[trigger] post.dpb[i],
                ) by {
                }
            },
        }
    }
}

/// The counter of a predictor that has put each frame of a stream into a
/// request, where `forced` holds the frames' wishes for a keyframe.
pub open spec fn counter_after_frames(limit: int, forced: Seq<bool>) -> int
    decreases forced.len(),
{
    if forced.len() == 0 {
        0
    } else {
        counter_after(
            place_in_sequence(counter_after_frames(limit, forced.drop_last()), limit),
            forced.last(),
        )
    }
}

/// Frame `index` of the stream becomes an IDR picture.
pub open spec fn is_idr_at(limit: int, forced: Seq<bool>, index: int) -> bool {
    begins_sequence(
        place_in_sequence(counter_after_frames(limit, forced.take(index)), limit),
        forced[index],
    )
}

/// The place after a place: one further, or the start at the end of the
/// sequence.
proof fn lemma_next_place(count: int, limit: int)
    requires
        0 <= count,
        1 <= limit,
    ensures
        (count + 1) % limit == if count % limit == limit - 1 {
            0
        } else {
            count % limit + 1
        },
        0 <= count % limit < limit,
{
    vstd::arithmetic::div_mod::lemma_fundamental_div_mod(count, limit);
    let q = count / limit;
    let m = count % limit;
    if m == limit - 1 {
        assert(count + 1 == (q + 1) * limit + 0) by (nonlinear_arith)
            requires
                count == limit * q + m,
                m == limit - 1,
        ;
        vstd::arithmetic::div_mod::lemma_fundamental_div_mod_converse(count + 1, limit, q + 1, 0);
    } else {
        assert(count + 1 == q * limit + (m + 1)) by (nonlinear_arith)
            requires
                count == limit * q + m,
        ;
        vstd::arithmetic::div_mod::lemma_fundamental_div_mod_converse(count + 1, limit, q, m + 1);
    }
}

/// IDR placement without keyframe wishes: in a stream of which no frame up
/// to `index` asks for a keyframe, frame `index` becomes an IDR picture if
/// and only if `index` is a multiple of the sequence length.
pub proof fn law_idr_every_limit_frames(limit: int, forced: Seq<bool>, index: int)
    requires
        1 <= limit,
        0 <= index < forced.len(),
        forall|j: int| 0 <= j <= index ==> !forced[j],
    ensures
        is_idr_at(limit, forced, index) <==> index % limit == 0,
        counter_after_frames(limit, forced.take(index)) == if index == 0 {
            0
        } else {
            (index - 1) % limit + 1
        },
    decreases index,
{
    let upto = forced.take(index);
    if index == 0 {
        assert(0int % limit == 0) by (nonlinear_arith)
            requires
                1 <= limit,
        ;
    } else {
        law_idr_every_limit_frames(limit, forced, index - 1);
        assert(upto.drop_last() =~= forced.take(index - 1));
        lemma_next_place(index - 1, limit);
        if index - 1 > 0 {
            lemma_next_place(index - 2, limit);
        }
        let before = counter_after_frames(limit, forced.take(index - 1));
        lemma_place_in_sequence(before, limit);
        lemma_place_in_sequence(counter_after_frames(limit, upto), limit);
    }
}

/// A frame that asks for a keyframe becomes an IDR picture.
pub proof fn law_keyframe_on_request(limit: int, forced: Seq<bool>, index: int)
    requires
        0 <= index < forced.len(),
        forced[index],
    ensures
        is_idr_at(limit, forced, index),
{
}

/// No other frame is an IDR picture: after the IDR picture at `last`, with
/// no IDR picture between it and `index`, frame `index` becomes an IDR
/// picture if and only if it asks for a keyframe or is the frame that
/// follows a full sequence.
pub proof fn law_idr_period(limit: int, forced: Seq<bool>, last: int, index: int)
    requires
        1 <= limit,
        0 <= last < index < forced.len(),
        is_idr_at(limit, forced, last),
        forall|k: int| last < k < index ==> !is_idr_at(limit, forced, k),
    ensures
        counter_after_frames(limit, forced.take(index)) == index - last,
        index - last <= limit,
        is_idr_at(limit, forced, index) <==> forced[index] || index - last == limit,
    decreases index - last,
{
    let upto = forced.take(index);
    assert(upto.drop_last() =~= forced.take(index - 1));
    let before = counter_after_frames(limit, forced.take(index - 1));
    lemma_place_in_sequence(before, limit);
    if index - 1 > last {
        law_idr_period(limit, forced, last, index - 1);
    }
    lemma_place_in_sequence(counter_after_frames(limit, upto), limit);
}

/// The frame number of frame `index` of the stream: 0 for an IDR picture,
/// the place in the sequence for a P picture.
pub open spec fn frame_num_at(limit: int, forced: Seq<bool>, index: int) -> int {
    if is_idr_at(limit, forced, index) {
        0
    } else {
        place_in_sequence(counter_after_frames(limit, forced.take(index)), limit)
    }
}

/// Frame numbers go up by one from picture to picture until the next IDR
/// picture, and picture order counts with them.
pub proof fn law_frame_num_steps(limit: int, forced: Seq<bool>, index: int)
    requires
        1 <= limit,
        0 <= index,
        index + 1 < forced.len(),
        !is_idr_at(limit, forced, index + 1),
    ensures
        frame_num_at(limit, forced, index + 1) == frame_num_at(limit, forced, index) + 1,
{
    let upto = forced.take(index + 1);
    assert(upto.drop_last() =~= forced.take(index));
    lemma_place_in_sequence(counter_after_frames(limit, upto), limit);
}

impl<P, R, S: Synthesizer> LowDelayView<P, R, S> {
    /// Every P picture: where the next step makes the frame at the head of
    /// the queue a P picture, the counter stands within the sequence; the
    /// request is no IDR picture, has no reference from the future and at
    /// least one from the past, and every reference is one of those held,
    /// which came in as reconstructed pictures.
    pub proof fn law_inter_request(self)
        requires
            self.wf(),
            self.next_step() is Inter,
        ensures
            ({
                let state = self.settled();
                let request = state.inter_request(self.queue[0].0, self.queue[0].1);
                &&& state.wf()
                &&& 0 < state.counter < state.limit
                &&& !request.is_idr
                &&& request.coded_output.len() == 0
                &&& request.ref_list_1.len() == 0
                &&& 0 < request.ref_list_0.len() == self.dpb.len()
                &&& forall|i: int|
                    0 <= i < request.ref_list_0.len() ==> self.dpb.contains(
                        #[trigger] request.ref_list_0[i],
                    ) && self.delivered.contains(*request.ref_list_0[i])
                &&& request.dpb_meta.frame_num == self.position()
                &&& request.dpb_meta.poc == 2 * self.position()
                &&& request.dpb_meta.is_reference is ShortTerm
            }),
    {
        lemma_place_in_sequence(self.counter as int, self.limit as int);
        let state = self.settled();
        let request = state.inter_request(self.queue[0].0, self.queue[0].1);
        assert forall|i: int| 0 <= i < request.ref_list_0.len() implies self.dpb.contains(
            #[trigger] request.ref_list_0[i],
        ) && self.delivered.contains(*request.ref_list_0[i]) by {
            assert(request.ref_list_0[i] == self.dpb[self.dpb.len() - 1 - i]);
        }
    }

    /// The place of a request in its sequence.
    ///
    /// A frame becomes an IDR picture if and only if it begins a sequence.
    /// The frame number is 0 for an IDR picture and the place in the
    /// sequence for a P picture, the picture order count is twice the frame
    /// number, and the counter moves on to the frame number plus one: so
    /// frame numbers start at 0 and go up by one from picture to picture.
    pub proof fn law_request_place(self, post: Self, verdict: PredictorVerdict<P, R>)
        requires
            self.wf(),
            self.attempted(post, Ok(verdict)),
            verdict is Request,
        ensures
            verdict.requests().len() == 1,
            self.queue.len() > 0,
            ({
                let request = verdict.requests()[0];
                let forced = self.queue[0].1.force_keyframe;
                &&& request.is_idr == begins_sequence(self.position(), forced)
                &&& request.is_idr ==> request.dpb_meta.frame_num == 0
                &&& !request.is_idr ==> request.dpb_meta.frame_num == self.position()
                &&& request.dpb_meta.poc == 2 * request.dpb_meta.frame_num
                &&& request.header.pic_order_cnt_lsb == request.dpb_meta.poc
                &&& post.counter == request.dpb_meta.frame_num + 1
                &&& post.counter == counter_after(self.position(), forced)
                &&& post.requested == self.requested.push(forced)
                &&& self.on_record() ==> {
                    let index = self.requested.len() as int;
                    &&& post.on_record()
                    &&& request.is_idr == is_idr_at(self.limit as int, post.requested, index)
                    &&& request.dpb_meta.frame_num == frame_num_at(
                        self.limit as int,
                        post.requested,
                        index,
                    )
                }
            }),
    {
        assert(post.requested.drop_last() =~= self.requested);
    }
}

/// Whether a frame becomes an IDR picture does not depend on the frames
/// after it.
pub proof fn lemma_idr_at_stable(limit: int, forced: Seq<bool>, more: Seq<bool>, index: int)
    requires
        0 <= index < forced.len(),
    ensures
        is_idr_at(limit, forced + more, index) == is_idr_at(limit, forced, index),
        frame_num_at(limit, forced + more, index) == frame_num_at(limit, forced, index),
{
    assert((forced + more).take(index) =~= forced.take(index));
}

impl<P, R, S: Synthesizer> LowDelayView<P, R, S> {
    /// The wishes for a keyframe of all frames that came in, in their
    /// order: of those put into requests and of those in the queue.
    pub open spec fn schedule(self) -> Seq<bool> {
        self.requested + self.queue.map_values(|frame: (P, FrameMetadata)| frame.1.force_keyframe)
    }

    /// A frame in the queue begins a sequence when its turn comes.
    pub open spec fn holds_start(self) -> bool {
        exists|index: int|
            self.requested.len() <= index < self.schedule().len() && #[trigger] is_idr_at(
                self.limit as int,
                self.schedule(),
                index,
            )
    }

    /// `request` is one of this predictor: it has the predictor's parameter
    /// sets, and its bytes are those sets as the synthesizer writes them if
    /// it begins a sequence, and none if not.
    pub open spec fn heads(self, request: BackendRequestView<P, R>) -> bool {
        headed(self.synthesizer, self.sps_value(), self.pps_value(), request)
    }

    /// `requests` are the requests of the frames on record, one for each in
    /// their order, each an IDR picture where the frame begins a sequence.
    pub open spec fn follows(self, requests: Seq<BackendRequestView<P, R>>) -> bool {
        &&& requests.len() == self.requested.len()
        &&& forall|i: int|
            0 <= i < requests.len() ==> {
                &&& self.heads(#[trigger] requests[i])
                &&& requests[i].is_idr == is_idr_at(self.limit as int, self.requested, i)
                &&& requests[i].dpb_meta.frame_num == frame_num_at(
                    self.limit as int,
                    self.requested,
                    i,
                )
                &&& requests[i].input_meta.force_keyframe == self.requested[i]
            }
    }

    /// An attempt that succeeds keeps the schedule and adds its request to
    /// those that follow the record.
    pub proof fn lemma_attempt_follows(
        self,
        post: Self,
        verdict: PredictorVerdict<P, R>,
        requests: Seq<BackendRequestView<P, R>>,
    )
        requires
            self.wf(),
            self.on_record(),
            self.attempted(post, Ok(verdict)),
            self.follows(requests),
        ensures
            post.schedule() == self.schedule(),
            post.follows(requests + verdict.requests()),
    {
        self.lemma_attempt(post, verdict);
        assert(post.schedule() =~= self.schedule());
        let all = requests + verdict.requests();
        if verdict is Request {
            self.law_request_place(post, verdict);
            let forced = self.queue[0].1.force_keyframe;
            assert(post.requested =~= self.requested + seq![forced]);
            assert forall|i: int| 0 <= i < all.len() implies {
                &&& post.heads(#[trigger] all[i])
                &&& all[i].is_idr == is_idr_at(post.limit as int, post.requested, i)
                &&& all[i].dpb_meta.frame_num == frame_num_at(
                    post.limit as int,
                    post.requested,
                    i,
                )
                &&& all[i].input_meta.force_keyframe == post.requested[i]
            } by {
                if i < requests.len() {
                    lemma_idr_at_stable(self.limit as int, self.requested, seq![forced], i);
                    assert(all[i] == requests[i]);
                } else {
                    assert(all[i] == verdict.requests()[0]);
                }
            }
        } else {
            assert(all =~= requests);
        }
    }

    /// An attempt fails only with an error of the synthesizer, and only
    /// where the frame at the head of the queue begins a sequence.
    pub proof fn lemma_attempt_fails(self, post: Self, e: EncodeError)
        requires
            self.wf(),
            self.on_record(),
            self.attempted(post, Err(e)),
        ensures
            self.refuses(e),
            self.holds_start(),
    {
        let index = self.requested.len() as int;
        assert(self.schedule().take(index) =~= self.requested);
        assert(is_idr_at(self.limit as int, self.schedule(), index));
    }

    /// `e` is an error with which the synthesizer may refuse one of the
    /// parameter sets of this predictor.
    pub open spec fn refuses(self, e: EncodeError) -> bool {
        e matches EncodeError::H264SynthesizerError(error) && refuses_headers(
            self.synthesizer,
            self.sps_value(),
            self.pps_value(),
            error,
        )
    }

    /// The references held and `awaited` more, which the backend is to
    /// deliver, are as many as the next P picture needs.
    pub open spec fn will_be_fed(self, awaited: int) -> bool {
        self.position() != 0 ==> self.dpb.len() + awaited >= self.references_needed()
    }

    /// The predictor can go on: what it waits for is on its way. A frame in
    /// the queue waits for a reference that the backend is to deliver.
    pub open spec fn fed(self, awaited: int) -> bool {
        &&& self.will_be_fed(awaited)
        &&& self.queue.len() > 0 ==> awaited > 0
        &&& self.on_record()
    }

    /// A reconstructed picture that arrives is one awaited less and one
    /// held more.
    pub proof fn lemma_with_reference(self, recon: DpbEntry<R>, awaited: int)
        requires
            self.wf(),
            self.will_be_fed(awaited),
        ensures
            self.with_reference(recon).wf(),
            self.with_reference(recon).will_be_fed(awaited - 1),
            self.with_reference(recon).on_record() == self.on_record(),
    {
        let post = self.with_reference(recon);
        assert forall|i: int| 0 <= i < post.dpb.len() implies post.delivered.contains(
            *#[trigger] post.dpb[i],
        ) by {
            if i < self.dpb.len() {
                let entry = *self.dpb[i];
                let k = choose|k: int| 0 <= k < self.delivered.len() && self.delivered[k] == entry;
                assert(post.delivered[k] == entry);
            } else {
                assert(post.delivered[post.delivered.len() - 1] == recon);
            }
        }
    }

    /// An attempt leaves the predictor with what it needs: every request
    /// brings a reference back, and a frame that stays in the queue waits
    /// for one.
    pub proof fn lemma_attempt_fed(
        self,
        post: Self,
        verdict: PredictorVerdict<P, R>,
        awaited: int,
    )
        requires
            self.wf(),
            0 <= awaited,
            self.will_be_fed(awaited),
            self.on_record(),
            self.attempted(post, Ok(verdict)),
        ensures
            post.fed(awaited + verdict.requests().len()),
    {
        self.lemma_attempt(post, verdict);
        lemma_place_in_sequence(post.counter as int, post.limit as int);
    }
}

impl<P, R, S> View for LowDelay<P, R, S> {
    type V = LowDelayView<P, R, S>;

    closed spec fn view(&self) -> LowDelayView<P, R, S> {
        LowDelayView {
            synthesizer: self.synthesizer,
            counter: self.counter,
            limit: self.limit,
            tail: self.tail,
            queue: self.queue@,
            dpb: self.dpb@,
            sps: self.sps,
            pps: self.pps,
            config: *self.config,
            delivered: self.delivered@,
            requested: self.requested@,
        }
    }
}

impl<P, R, S: Synthesizer> LowDelay<P, R, S> {
    /// A predictor before its first frame.
    pub fn new(config: EncoderConfig, synthesizer: S) -> (r: Self)
        requires
            config.valid(),
            config.pred_structure is LowDelay,
        ensures
            r@.wf(),
            r@.on_record(),
            r@ == (LowDelayView::<P, R, S> {
                synthesizer,
                counter: 0,
                limit: config.pred_structure->LowDelay_limit,
                tail: config.pred_structure->LowDelay_tail,
                queue: Seq::empty(),
                dpb: Seq::empty(),
                sps: None,
                pps: None,
                config,
                delivered: Seq::empty(),
                requested: Seq::empty(),
            }),
    {
        let (tail, limit) = match config.pred_structure {
            PredictionStructure::LowDelay { tail, limit } => (tail, limit),
            _ => (0, 0),
        };
        LowDelay {
            counter: 0,
            limit,
            tail,
            queue: VecDeque::new(),
            dpb: VecDeque::new(),
            sps: None,
            pps: None,
            config: Rc::new(config),
            synthesizer,
            delivered: Ghost(Seq::empty()),
            requested: Ghost(Seq::empty()),
        }
    }

    /// Begins a sequence: new parameter sets, no references.
    pub fn new_sequence(&mut self)
        requires
            old(self)@.config.valid(),
        ensures
            final(self)@ == old(self)@.restarted(),
    {
        let sps = Rc::new(build_sps(&self.config, self.limit, self.tail as u32 + 1));
        let pps = Rc::new(build_pps(&sps, &self.config, self.tail));
        self.dpb.clear();
        self.sps = Some(sps);
        self.pps = Some(pps);
    }

    /// Begins a sequence with `input` as its IDR picture.
    ///
    /// The request has no references and carries the bytes of the two
    /// parameter sets as the synthesizer wrote them. The state is that of a
    /// begun sequence even where the synthesizer fails.
    pub fn request_idr(&mut self, input: P, input_meta: FrameMetadata) -> (r: EncodeResult<
        PredictorVerdict<P, R>,
    >)
        requires
            old(self)@.config.valid(),
        ensures
            final(self)@ == old(self)@.begun(input_meta.force_keyframe),
            old(self)@.idr_requested(input, input_meta, r),
    {
        proof {
            self.requested@ = self.requested@.push(input_meta.force_keyframe);
        }
        self.counter = 0;
        self.new_sequence();
        let sps = Rc::clone(self.sps.as_ref().unwrap());
        let pps = Rc::clone(self.pps.as_ref().unwrap());
        self.counter += 1;
        let headers = match synthesize_headers(&self.synthesizer, &sps, &pps) {
            Ok(headers) => headers,
            Err(e) => {
                return Err(EncodeError::H264SynthesizerError(e));
            },
        };
        let request = build_idr_request(sps, pps, &self.config, input, input_meta, headers);
        let mut requests: Vec<BackendRequest<P, R>> = Vec::new();
        requests.push(request);
        Ok(PredictorVerdict::Request { requests })
    }

    /// Makes `input` the P picture at the place that the counter gives.
    ///
    /// The picture refers to every reference held, newest first. Afterwards
    /// only the newest `tail - 1` references stay: the picture itself will
    /// be the next one.
    pub fn request_interframe(&mut self, input: P, input_meta: FrameMetadata) -> (verdict:
        PredictorVerdict<P, R>)
        requires
            old(self)@.wf(),
            0 < old(self)@.counter < old(self)@.limit,
        ensures
            verdict is Request,
            verdict.requests() == seq![old(self)@.inter_request(input, input_meta)],
            final(self)@ == old(self)@.advanced(input_meta.force_keyframe),
    {
        let mut ref_list_0: Vec<Rc<DpbEntry<R>>> = Vec::new();
        let held: usize = self.dpb.len();
        let mut taken: usize = 0;
        while taken < held
            invariant
                held == self.dpb@.len(),
                taken <= held,
                ref_list_0@.len() == taken,
                forall|j: int| 0 <= j < taken ==> ref_list_0@[j] == self.dpb@[held - 1 - j],
            decreases held - taken,
        {
            ref_list_0.push(Rc::clone(&self.dpb[held - 1 - taken]));
            taken += 1;
        }
        assert(ref_list_0@ =~= self.dpb@.reverse());

        let sps = Rc::clone(self.sps.as_ref().unwrap());
        let pps = Rc::clone(self.pps.as_ref().unwrap());
        let dpb_meta = DpbEntryMeta {
            poc: self.counter * 2,
            frame_num: self.counter as u32,
            is_reference: IsReference::ShortTerm,
        };
        let header = build_slice_header(&pps, SliceType::P, dpb_meta.poc);
        let num_macroblocks = count_macroblocks(&sps);
        let request = BackendRequest {
            sps,
            pps,
            header,
            input,
            input_meta,
            dpb_meta,
            ref_list_0,
            ref_list_1: Vec::new(),
            num_macroblocks,
            is_idr: false,
            config: Rc::clone(&self.config),
            coded_output: Vec::new(),
        };
        self.counter += 1;
        proof {
            self.requested@ = self.requested@.push(input_meta.force_keyframe);
        }

        let keep: usize = self.tail as usize - 1;
        while self.dpb.len() > keep
            invariant
                self.dpb@.len() <= old(self)@.dpb.len(),
                self.dpb@ == old(self)@.dpb.skip(old(self)@.dpb.len() - self.dpb@.len()),
                self@ == (LowDelayView {
                    dpb: self.dpb@,
                    ..old(self)@.advanced(input_meta.force_keyframe)
                }),
                keep == old(self)@.tail - 1,
                self.dpb@.len() >= keep || self.dpb@.len() == old(self)@.dpb.len(),
            decreases self.dpb@.len(),
        {
            self.dpb.pop_front();
        }
        assert(self.dpb@ =~= old(self)@.kept_references());

        let mut requests: Vec<BackendRequest<P, R>> = Vec::new();
        requests.push(request);
        PredictorVerdict::Request { requests }
    }

    /// Tries to emit a request for the frame at the head of the queue.
    ///
    /// See [`LowDelayView::attempted`].
    pub fn next_request(&mut self) -> (r: EncodeResult<PredictorVerdict<P, R>>)
        requires
            old(self)@.wf(),
        ensures
            old(self)@.attempted(final(self)@, r),
            final(self)@.wf(),
            old(self)@.on_record() ==> final(self)@.on_record(),
    {
        proof {
            lemma_place_in_sequence(self.counter as int, self.limit as int);
            if self.queue@.len() > 0 {
                let forced = self.queue@[0].1.force_keyframe;
                assert(self.requested@.push(forced).drop_last() =~= self.requested@);
            }
        }
        self.counter = self.counter % self.limit;
        match self.queue.pop_front() {
            None => Ok(PredictorVerdict::NoOperation),
            Some((input, meta)) => {
                if self.counter == 0 || meta.force_keyframe {
                    self.request_idr(input, meta)
                } else {
                    let needed: u16 = if self.counter < self.tail {
                        self.counter
                    } else {
                        self.tail
                    };
                    if self.dpb.len() < needed as usize {
                        self.queue.push_front((input, meta));
                        assert(self.queue@ =~= old(self)@.queue);
                        Ok(PredictorVerdict::NoOperation)
                    } else {
                        assert(self@.dpb == old(self)@.dpb);
                        Ok(self.request_interframe(input, meta))
                    }
                }
            },
        }
    }
}

impl<P, R, S: Synthesizer> Predictor<P, R> for LowDelay<P, R, S> {
    open spec fn wf(&self) -> bool {
        self@.wf()
    }

    open spec fn frames(&self) -> Seq<FrameMetadata> {
        self@.frames()
    }

    /// Frames leave in the order in which they came.
    open spec fn in_order(&self) -> bool {
        true
    }

    open spec fn delivered(&self) -> Seq<DpbEntry<R>> {
        self@.delivered
    }

    /// Puts the frame at the end of the queue and makes one attempt to
    /// emit a request.
    fn new_frame(&mut self, input: P, frame_metadata: FrameMetadata) -> (r: EncodeResult<
        PredictorVerdict<P, R>,
    >)
        ensures
            old(self)@.with_frame(input, frame_metadata).attempted(final(self)@, r),
    {
        self.queue.push_back((input, frame_metadata));
        self.next_request()
    }

    /// Takes the picture as the newest reference and makes one attempt to
    /// emit a request.
    fn reconstructed(&mut self, recon: DpbEntry<R>) -> (r: EncodeResult<PredictorVerdict<P, R>>)
        ensures
            old(self)@.with_reference(recon).attempted(final(self)@, r),
    {
        let ghost pre = old(self)@.with_reference(recon);
        proof {
            self.delivered@ = self.delivered@.push(recon);
        }
        self.dpb.push_back(Rc::new(recon));
        proof {
            assert forall|i: int| 0 <= i < pre.dpb.len() implies pre.delivered.contains(
                *#[trigger] pre.dpb[i],
            ) by {
                if i < old(self)@.dpb.len() {
                    let entry = *old(self)@.dpb[i];
                    let k = choose|k: int|
                        0 <= k < old(self)@.delivered.len() && old(self)@.delivered[k] == entry;
                    assert(pre.delivered[k] == entry);
                } else {
                    assert(pre.delivered[pre.delivered.len() - 1] == recon);
                }
            }
        }
        self.next_request()
    }

    /// This structure holds no frame back that it could emit, so there is
    /// nothing to force: the call is an error and changes nothing.
    fn drain(&mut self) -> (r: EncodeResult<Vec<BackendRequest<P, R>>>)
        ensures
            r matches Err(EncodeError::InvalidInternalState),
            final(self)@ == old(self)@,
    {
        Err(EncodeError::InvalidInternalState)
    }
}

} // verus!
