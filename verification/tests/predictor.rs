//! The predictors, alone and as the encoder drives them.

use std::cell::RefCell;
use std::rc::Rc;

use stateless_encoder::codec::h264::parser::Level;
use stateless_encoder::codec::h264::parser::Pps;
use stateless_encoder::codec::h264::parser::Profile;
use stateless_encoder::codec::h264::parser::SliceType;
use stateless_encoder::codec::h264::parser::Sps;
use stateless_encoder::codec::h264::synthesizer::Synthesizer;
use stateless_encoder::codec::h264::synthesizer::SynthesizerError;
use stateless_encoder::encoder::stateless::h264::predictor::group_of_pictures::GroupOfPictures;
use stateless_encoder::encoder::stateless::h264::predictor::low_delay::LowDelay;
use stateless_encoder::encoder::stateless::h264::predictor::PredictionStructure;
use stateless_encoder::encoder::stateless::h264::predictor::Predictor;
use stateless_encoder::encoder::stateless::h264::predictor::PredictorVerdict;
use stateless_encoder::encoder::stateless::h264::BackendRequest;
use stateless_encoder::encoder::stateless::h264::DpbEntry;
use stateless_encoder::encoder::stateless::h264::DpbEntryMeta;
use stateless_encoder::encoder::stateless::h264::EncoderConfig;
use stateless_encoder::encoder::stateless::h264::IsReference;
use stateless_encoder::encoder::stateless::h264::StatelessEncoder;
use stateless_encoder::encoder::stateless::h264::StatelessH264EncoderBackend;
use stateless_encoder::encoder::stateless::EncodeError;
use stateless_encoder::encoder::stateless::ReadyPromise;
use stateless_encoder::encoder::stateless::StatelessBackendResult;
use stateless_encoder::encoder::stateless::StatelessVideoEncoder;
use stateless_encoder::encoder::stateless::StatelessVideoEncoderBackend;
use stateless_encoder::encoder::FrameMetadata;
use stateless_encoder::BlockingMode;
use stateless_encoder::Fourcc;
use stateless_encoder::FrameLayout;
use stateless_encoder::PlaneLayout;
use stateless_encoder::Resolution;

/// Writes one byte for each parameter set.
struct TestSynthesizer;

impl Synthesizer for TestSynthesizer {
    fn synthesize_sps(
        &self,
        start_code_len: usize,
        _sps: &Sps,
        buffer: &mut Vec<u8>,
    ) -> Result<(), SynthesizerError> {
        buffer.push(start_code_len as u8);
        buffer.push(0x67);
        Ok(())
    }

    fn synthesize_pps(
        &self,
        start_code_len: usize,
        _pps: &Pps,
        buffer: &mut Vec<u8>,
    ) -> Result<(), SynthesizerError> {
        buffer.push(start_code_len as u8);
        buffer.push(0x68);
        Ok(())
    }
}

/// Writes the sequence parameter set and fails on the other.
struct HalfSynthesizer;

impl Synthesizer for HalfSynthesizer {
    fn synthesize_sps(
        &self,
        _start_code_len: usize,
        _sps: &Sps,
        buffer: &mut Vec<u8>,
    ) -> Result<(), SynthesizerError> {
        buffer.push(0x67);
        Ok(())
    }

    fn synthesize_pps(
        &self,
        _start_code_len: usize,
        _pps: &Pps,
        _buffer: &mut Vec<u8>,
    ) -> Result<(), SynthesizerError> {
        Err(SynthesizerError::Write)
    }
}

fn frame(timestamp: u64, force_keyframe: bool) -> FrameMetadata {
    FrameMetadata {
        timestamp,
        display_resolution: Resolution { width: 64, height: 48 },
        layout: FrameLayout {
            format: (Fourcc(0x3231_564e), 0),
            size: Resolution { width: 64, height: 48 },
            planes: vec![PlaneLayout { buffer_index: 0, offset: 0, stride: 64 }],
        },
        force_keyframe,
    }
}

fn config(pred_structure: PredictionStructure) -> EncoderConfig {
    EncoderConfig {
        pred_structure,
        resolution: Resolution { width: 64, height: 48 },
        ..Default::default()
    }
}

fn one_request<P, R>(verdict: PredictorVerdict<P, R>) -> BackendRequest<P, R> {
    match verdict {
        PredictorVerdict::Request { mut requests } => {
            assert_eq!(requests.len(), 1);
            requests.pop().unwrap()
        }
        PredictorVerdict::NoOperation => panic!("no request"),
    }
}

fn requests_of<P, R>(verdict: PredictorVerdict<P, R>) -> Vec<BackendRequest<P, R>> {
    match verdict {
        PredictorVerdict::Request { requests } => {
            assert!(!requests.is_empty());
            requests
        }
        PredictorVerdict::NoOperation => Vec::new(),
    }
}

fn reconstructed<P, R>(request: &BackendRequest<P, R>, recon_pic: R) -> DpbEntry<R> {
    DpbEntry { recon_pic, meta: request.dpb_meta }
}

fn places<R>(list: &[Rc<DpbEntry<R>>]) -> Vec<(u16, u32)> {
    list.iter().map(|entry| (entry.meta.poc, entry.meta.frame_num)).collect()
}

#[test]
fn low_delay_first_frame_is_idr() {
    let mut predictor: LowDelay<u32, u32, _> = LowDelay::new(
        config(PredictionStructure::LowDelay { tail: 2, limit: 16 }),
        TestSynthesizer,
    );
    let request = one_request(predictor.new_frame(11, frame(5, false)).unwrap());
    assert!(request.is_idr);
    assert_eq!(request.input, 11);
    assert_eq!(request.input_meta.timestamp, 5);
    assert_eq!(
        request.dpb_meta,
        DpbEntryMeta { poc: 0, frame_num: 0, is_reference: IsReference::ShortTerm }
    );
    assert!(request.ref_list_0.is_empty());
    assert!(request.ref_list_1.is_empty());
    assert_eq!(request.coded_output, vec![3, 0x67, 3, 0x68]);
    assert_eq!(request.header.slice_type, SliceType::I);
    assert_eq!(request.header.first_mb_in_slice, 0);
    assert_eq!(request.header.pic_order_cnt_lsb, 0);
    assert_eq!(request.header.pic_parameter_set_id, 0);
    // 64x48 pixels are 4x3 macroblocks.
    assert_eq!(request.num_macroblocks, 12);
    assert_eq!(request.config.default_qp, 26);
}

#[test]
fn low_delay_parameter_sets() {
    let mut predictor: LowDelay<(), (), _> = LowDelay::new(
        EncoderConfig {
            pred_structure: PredictionStructure::LowDelay { tail: 3, limit: 100 },
            profile: Profile::High422P,
            level: Level::L2_1,
            framerate: 25,
            default_qp: 31,
            resolution: Resolution { width: 1920, height: 1080 },
            ..Default::default()
        },
        TestSynthesizer,
    );
    let request = one_request(predictor.new_frame((), frame(0, false)).unwrap());
    let sps = &request.sps;
    assert_eq!(sps.seq_parameter_set_id, 0);
    assert_eq!(sps.profile_idc, Profile::High422P);
    assert_eq!(sps.chroma_format_idc, 2);
    assert_eq!(sps.level_idc, Level::L2_1);
    assert_eq!(sps.max_frame_num, 100);
    assert_eq!(sps.pic_order_cnt_type, 0);
    assert_eq!(sps.max_pic_order_cnt_lsb, 200);
    assert_eq!(sps.max_num_ref_frames, 4);
    assert!(sps.frame_mbs_only_flag);
    assert!(!sps.direct_8x8_inference_flag);
    assert_eq!(sps.resolution, Resolution { width: 1920, height: 1080 });
    assert_eq!(sps.pic_width_in_mbs(), 120);
    assert_eq!(sps.pic_height_in_map_units(), 68);
    assert_eq!(sps.bit_depth_luma, 8);
    assert_eq!(sps.bit_depth_chroma, 8);
    assert_eq!((sps.aspect_ratio.width, sps.aspect_ratio.height), (1, 1));
    assert_eq!(sps.timing_info.num_units_in_tick, 1);
    assert_eq!(sps.timing_info.time_scale, 50);
    assert!(!sps.timing_info.fixed_frame_rate_flag);
    let pps = &request.pps;
    assert_eq!(*pps.sps, **sps);
    assert_eq!(pps.pic_parameter_set_id, 0);
    assert_eq!(pps.pic_init_qp, 31);
    assert!(pps.deblocking_filter_control_present_flag);
    assert_eq!(pps.num_ref_idx_l0_default_active, 3);
    assert_eq!(pps.num_ref_idx_l1_default_active, 1);
    assert_eq!(request.num_macroblocks, 120 * 68);
}

#[test]
fn low_delay_waits_for_references() {
    let mut predictor: LowDelay<u32, u32, _> = LowDelay::new(
        config(PredictionStructure::LowDelay { tail: 1, limit: 16 }),
        TestSynthesizer,
    );
    let idr = one_request(predictor.new_frame(0, frame(0, false)).unwrap());
    // The IDR picture is not reconstructed yet.
    assert!(matches!(
        predictor.new_frame(1, frame(1, false)).unwrap(),
        PredictorVerdict::NoOperation
    ));
    assert!(matches!(
        predictor.new_frame(2, frame(2, false)).unwrap(),
        PredictorVerdict::NoOperation
    ));
    let first = one_request(predictor.reconstructed(reconstructed(&idr, 100)).unwrap());
    assert!(!first.is_idr);
    assert_eq!(first.input, 1);
    assert_eq!(first.input_meta.timestamp, 1);
    assert_eq!(
        first.dpb_meta,
        DpbEntryMeta { poc: 2, frame_num: 1, is_reference: IsReference::ShortTerm }
    );
    assert_eq!(first.header.slice_type, SliceType::P);
    assert_eq!(first.header.pic_order_cnt_lsb, 2);
    assert_eq!(places(&first.ref_list_0), vec![(0, 0)]);
    assert_eq!(first.ref_list_0[0].recon_pic, 100);
    assert!(first.ref_list_1.is_empty());
    assert!(first.coded_output.is_empty());
    let second = one_request(predictor.reconstructed(reconstructed(&first, 101)).unwrap());
    assert_eq!(second.input, 2);
    assert_eq!(second.dpb_meta.poc, 4);
    assert_eq!(second.dpb_meta.frame_num, 2);
    assert_eq!(places(&second.ref_list_0), vec![(2, 1)]);
    assert_eq!(second.ref_list_0[0].recon_pic, 101);
    // Nothing waits any more.
    assert!(matches!(
        predictor.reconstructed(reconstructed(&second, 102)).unwrap(),
        PredictorVerdict::NoOperation
    ));
}

#[test]
fn low_delay_sequence_restarts_at_limit() {
    let mut predictor: LowDelay<u64, u64, _> = LowDelay::new(
        config(PredictionStructure::LowDelay { tail: 1, limit: 4 }),
        TestSynthesizer,
    );
    let mut seen = Vec::new();
    for timestamp in 0..13u64 {
        let request = one_request(predictor.new_frame(timestamp, frame(timestamp, false)).unwrap());
        seen.push((request.is_idr, request.dpb_meta.frame_num, request.dpb_meta.poc));
        assert_eq!(request.coded_output.is_empty(), !request.is_idr);
        let verdict = predictor.reconstructed(reconstructed(&request, timestamp)).unwrap();
        assert!(matches!(verdict, PredictorVerdict::NoOperation));
    }
    let expected: Vec<(bool, u32, u16)> = (0..13u32)
        .map(|index| (index % 4 == 0, index % 4, 2 * (index % 4) as u16))
        .collect();
    assert_eq!(seen, expected);
}

#[test]
fn low_delay_limit_of_one_gives_only_idr() {
    let mut predictor: LowDelay<(), (), _> = LowDelay::new(
        config(PredictionStructure::LowDelay { tail: 1, limit: 1 }),
        TestSynthesizer,
    );
    for timestamp in 0..5u64 {
        let request = one_request(predictor.new_frame((), frame(timestamp, false)).unwrap());
        assert!(request.is_idr);
        assert_eq!(request.dpb_meta.frame_num, 0);
    }
}

#[test]
fn low_delay_keyframe_on_request() {
    let mut predictor: LowDelay<u64, u64, _> = LowDelay::new(
        config(PredictionStructure::LowDelay { tail: 2, limit: 5 }),
        TestSynthesizer,
    );
    let forced = [3u64, 4, 11];
    let mut idr = Vec::new();
    for timestamp in 0..20u64 {
        let meta = frame(timestamp, forced.contains(&timestamp));
        let request = one_request(predictor.new_frame(timestamp, meta).unwrap());
        if request.is_idr {
            idr.push(timestamp);
            assert!(request.ref_list_0.is_empty());
        } else {
            assert!(!request.ref_list_0.is_empty());
        }
        predictor.reconstructed(reconstructed(&request, timestamp)).unwrap();
    }
    // At the start, on request, and five frames after the last one.
    assert_eq!(idr, vec![0, 3, 4, 9, 11, 16]);
}

#[test]
fn low_delay_drain_is_an_error() {
    let mut predictor: LowDelay<(), (), _> = LowDelay::new(
        config(PredictionStructure::LowDelay { tail: 1, limit: 16 }),
        TestSynthesizer,
    );
    assert!(matches!(predictor.drain(), Err(EncodeError::InvalidInternalState)));
    predictor.new_frame((), frame(0, false)).unwrap();
    predictor.new_frame((), frame(1, false)).unwrap();
    assert!(matches!(predictor.drain(), Err(EncodeError::InvalidInternalState)));
}

#[test]
fn synthesizer_error_ends_the_request() {
    let mut predictor: LowDelay<(), (), _> = LowDelay::new(
        config(PredictionStructure::LowDelay { tail: 1, limit: 16 }),
        HalfSynthesizer,
    );
    assert!(matches!(
        predictor.new_frame((), frame(0, false)),
        Err(EncodeError::H264SynthesizerError(SynthesizerError::Write))
    ));
    let mut predictor: GroupOfPictures<(), (), _> = GroupOfPictures::new(
        config(PredictionStructure::GroupOfPictures { size: 1, limit: 16 }),
        HalfSynthesizer,
    );
    assert!(matches!(
        predictor.new_frame((), frame(0, false)),
        Err(EncodeError::H264SynthesizerError(SynthesizerError::Write))
    ));
}

#[test]
fn group_of_pictures_one_group() {
    let mut predictor: GroupOfPictures<u32, u32, _> = GroupOfPictures::new(
        config(PredictionStructure::GroupOfPictures { size: 2, limit: 16 }),
        TestSynthesizer,
    );
    let idr = one_request(predictor.new_frame(0, frame(0, false)).unwrap());
    assert!(idr.is_idr);
    assert_eq!(
        idr.dpb_meta,
        DpbEntryMeta { poc: 0, frame_num: 0, is_reference: IsReference::ShortTerm }
    );
    assert_eq!(idr.coded_output, vec![3, 0x67, 3, 0x68]);
    assert_eq!(idr.sps.max_num_ref_frames, 3);
    assert_eq!(idr.sps.max_frame_num, 16);
    assert_eq!(idr.sps.max_pic_order_cnt_lsb, 32);
    assert_eq!(idr.pps.num_ref_idx_l0_default_active, 1);
    assert_eq!(idr.pps.num_ref_idx_l1_default_active, 1);
    // Two frames join the group, the third cannot become a P picture yet.
    for timestamp in 1..=3u32 {
        assert!(matches!(
            predictor.new_frame(timestamp, frame(timestamp as u64, false)).unwrap(),
            PredictorVerdict::NoOperation
        ));
    }
    let p = one_request(predictor.reconstructed(reconstructed(&idr, 100)).unwrap());
    assert!(!p.is_idr);
    assert_eq!(p.input, 3);
    assert_eq!(
        p.dpb_meta,
        DpbEntryMeta { poc: 6, frame_num: 1, is_reference: IsReference::ShortTerm }
    );
    assert_eq!(p.header.slice_type, SliceType::P);
    assert_eq!(p.header.pic_order_cnt_lsb, 6);
    assert_eq!(places(&p.ref_list_0), vec![(0, 0)]);
    assert!(p.ref_list_1.is_empty());
    assert!(p.coded_output.is_empty());
    // More frames wait while the P picture is being encoded.
    assert!(matches!(
        predictor.new_frame(4, frame(4, false)).unwrap(),
        PredictorVerdict::NoOperation
    ));
    assert!(matches!(predictor.drain(), Err(EncodeError::InvalidInternalState)));
    let group = requests_of(predictor.reconstructed(reconstructed(&p, 103)).unwrap());
    assert_eq!(group.len(), 2);
    for (index, b) in group.iter().enumerate() {
        assert_eq!(b.input, 1 + index as u32);
        assert_eq!(b.header.slice_type, SliceType::B);
        assert_eq!(
            b.dpb_meta,
            DpbEntryMeta { poc: 2 + 2 * index as u16, frame_num: 2, is_reference: IsReference::No }
        );
        assert_eq!(places(&b.ref_list_0), vec![(0, 0)]);
        assert_eq!(b.ref_list_0[0].recon_pic, 100);
        assert_eq!(places(&b.ref_list_1), vec![(6, 1)]);
        assert_eq!(b.ref_list_1[0].recon_pic, 103);
        assert!(!b.is_idr);
        assert!(b.coded_output.is_empty());
    }
    // The pictures of the B slices are of no use to the predictor.
    assert!(matches!(
        predictor.reconstructed(reconstructed(&group[0], 101)).unwrap(),
        PredictorVerdict::NoOperation
    ));
    assert!(matches!(
        predictor.new_frame(5, frame(5, false)).unwrap(),
        PredictorVerdict::NoOperation
    ));
    let next = one_request(predictor.new_frame(6, frame(6, false)).unwrap());
    assert_eq!(next.input, 6);
    assert_eq!(
        next.dpb_meta,
        DpbEntryMeta { poc: 12, frame_num: 2, is_reference: IsReference::ShortTerm }
    );
    assert_eq!(places(&next.ref_list_0), vec![(6, 1)]);
}

#[test]
fn group_of_pictures_without_b_pictures() {
    let mut predictor: GroupOfPictures<u64, u64, _> = GroupOfPictures::new(
        config(PredictionStructure::GroupOfPictures { size: 0, limit: 16 }),
        TestSynthesizer,
    );
    let mut last = one_request(predictor.new_frame(0, frame(0, false)).unwrap());
    assert!(last.is_idr);
    for timestamp in 1..6u64 {
        assert!(matches!(
            predictor.new_frame(timestamp, frame(timestamp, false)).unwrap(),
            PredictorVerdict::NoOperation
        ));
        let p = one_request(predictor.reconstructed(reconstructed(&last, timestamp)).unwrap());
        assert_eq!(p.input, timestamp);
        assert_eq!(p.dpb_meta.poc, 2 * timestamp as u16);
        assert_eq!(p.dpb_meta.frame_num, timestamp as u32);
        assert_eq!(places(&p.ref_list_0), vec![(last.dpb_meta.poc, last.dpb_meta.frame_num)]);
        last = p;
    }
}

#[test]
fn group_of_pictures_drain() {
    let mut predictor: GroupOfPictures<u32, u32, _> = GroupOfPictures::new(
        config(PredictionStructure::GroupOfPictures { size: 2, limit: 16 }),
        TestSynthesizer,
    );
    // Nothing to close.
    assert!(matches!(predictor.drain(), Err(EncodeError::InvalidInternalState)));
    let idr = one_request(predictor.new_frame(0, frame(0, false)).unwrap());
    predictor.new_frame(1, frame(1, false)).unwrap();
    // No reference yet.
    assert!(matches!(predictor.drain(), Err(EncodeError::InvalidInternalState)));
    assert!(matches!(
        predictor.reconstructed(reconstructed(&idr, 100)).unwrap(),
        PredictorVerdict::NoOperation
    ));
    let mut requests = predictor.drain().unwrap();
    assert_eq!(requests.len(), 1);
    let p = requests.pop().unwrap();
    assert_eq!(p.input, 1);
    assert_eq!(p.header.slice_type, SliceType::P);
    assert_eq!(
        p.dpb_meta,
        DpbEntryMeta { poc: 6, frame_num: 1, is_reference: IsReference::ShortTerm }
    );
    assert_eq!(places(&p.ref_list_0), vec![(0, 0)]);
    // The P picture is awaited.
    assert!(matches!(predictor.drain(), Err(EncodeError::InvalidInternalState)));
    assert!(matches!(
        predictor.reconstructed(reconstructed(&p, 101)).unwrap(),
        PredictorVerdict::NoOperation
    ));
    // The group after the one that was closed early.
    predictor.new_frame(2, frame(2, false)).unwrap();
    predictor.new_frame(3, frame(3, false)).unwrap();
    let next = one_request(predictor.new_frame(4, frame(4, false)).unwrap());
    assert_eq!(next.dpb_meta.poc, 8);
    assert_eq!(next.dpb_meta.frame_num, 2);
    assert_eq!(places(&next.ref_list_0), vec![(6, 1)]);
    let group = requests_of(predictor.reconstructed(reconstructed(&next, 104)).unwrap());
    let seen: Vec<u16> = group.iter().map(|b| b.dpb_meta.poc).collect();
    assert_eq!(seen, vec![4, 6]);
}

#[test]
fn group_of_pictures_runs_out_of_picture_order_counts() {
    let mut predictor: GroupOfPictures<(), (), _> = GroupOfPictures::new(
        config(PredictionStructure::GroupOfPictures { size: 32767, limit: 16 }),
        TestSynthesizer,
    );
    let idr = one_request(predictor.new_frame((), frame(0, false)).unwrap());
    predictor.reconstructed(reconstructed(&idr, ())).unwrap();
    for timestamp in 1..=32767u64 {
        assert!(matches!(
            predictor.new_frame((), frame(timestamp, false)).unwrap(),
            PredictorVerdict::NoOperation
        ));
    }
    // The P picture would have the picture order count 2 * (1 + 32767).
    assert!(matches!(
        predictor.new_frame((), frame(32768, false)),
        Err(EncodeError::InvalidInternalState)
    ));
}

#[test]
fn group_of_pictures_last_picture_order_count() {
    let mut predictor: GroupOfPictures<(), (), _> = GroupOfPictures::new(
        config(PredictionStructure::GroupOfPictures { size: 32766, limit: 16 }),
        TestSynthesizer,
    );
    let idr = one_request(predictor.new_frame((), frame(0, false)).unwrap());
    predictor.reconstructed(reconstructed(&idr, ())).unwrap();
    for timestamp in 1..=32766u64 {
        predictor.new_frame((), frame(timestamp, false)).unwrap();
    }
    let p = one_request(predictor.new_frame((), frame(32767, false)).unwrap());
    assert_eq!(p.dpb_meta.poc, 65534);
    let group = requests_of(predictor.reconstructed(reconstructed(&p, ())).unwrap());
    assert_eq!(group.len(), 32766);
    assert_eq!(group[0].dpb_meta.poc, 2);
    assert_eq!(group[32765].dpb_meta.poc, 65532);
}

/// What a backend saw of a request.
#[derive(Debug, PartialEq, Eq)]
struct Seen {
    timestamp: u64,
    slice_type: SliceType,
    poc: u16,
    frame_num: u32,
    l0: Vec<(u16, u32)>,
    l1: Vec<(u16, u32)>,
}

/// Notes every request and answers it at once.
struct RecordingBackend {
    log: Rc<RefCell<Vec<Seen>>>,
}

impl StatelessVideoEncoderBackend<u64> for RecordingBackend {
    type Picture = u64;

    fn import_picture(
        &mut self,
        _metadata: &FrameMetadata,
        handle: u64,
    ) -> StatelessBackendResult<u64> {
        Ok(handle + 1000)
    }
}

impl StatelessH264EncoderBackend<u64> for RecordingBackend {
    type Reference = u16;
    type CodedPromise = ReadyPromise<Vec<u8>>;
    type ReconPromise = ReadyPromise<u16>;

    fn encode_slice(
        &mut self,
        request: BackendRequest<u64, u16>,
    ) -> StatelessBackendResult<(ReadyPromise<u16>, ReadyPromise<Vec<u8>>)> {
        assert_eq!(request.input, request.input_meta.timestamp + 1000);
        for entry in request.ref_list_0.iter().chain(request.ref_list_1.iter()) {
            assert_eq!(entry.recon_pic, entry.meta.poc);
        }
        assert_eq!(request.is_idr, request.header.slice_type == SliceType::I);
        self.log.borrow_mut().push(Seen {
            timestamp: request.input_meta.timestamp,
            slice_type: request.header.slice_type,
            poc: request.dpb_meta.poc,
            frame_num: request.dpb_meta.frame_num,
            l0: places(&request.ref_list_0),
            l1: places(&request.ref_list_1),
        });
        let mut coded = request.coded_output;
        coded.push(request.input_meta.timestamp as u8);
        Ok((ReadyPromise(request.dpb_meta.poc), ReadyPromise::from(coded)))
    }
}

fn run(structure: PredictionStructure, frames: u64, mode: BlockingMode) -> (Vec<Seen>, Vec<u64>) {
    let log = Rc::new(RefCell::new(Vec::new()));
    let backend = RecordingBackend { log: Rc::clone(&log) };
    let mut encoder =
        StatelessEncoder::new(backend, TestSynthesizer, config(structure), mode).unwrap();
    let mut coded = Vec::new();
    for timestamp in 0..frames {
        encoder.encode(frame(timestamp, false), timestamp).unwrap();
        while let Some(buffer) = encoder.poll().unwrap() {
            assert_eq!(*buffer.bitstream.last().unwrap(), buffer.metadata.timestamp as u8);
            coded.push(buffer.metadata.timestamp);
        }
    }
    encoder.drain().unwrap();
    while let Some(buffer) = encoder.poll().unwrap() {
        coded.push(buffer.metadata.timestamp);
    }
    drop(encoder);
    (Rc::try_unwrap(log).unwrap().into_inner(), coded)
}

#[test]
fn low_delay_tail_of_three() {
    let (seen, coded) =
        run(PredictionStructure::LowDelay { tail: 3, limit: 2048 }, 10, BlockingMode::Blocking);
    assert_eq!(coded, (0..10).collect::<Vec<u64>>());
    let lengths: Vec<usize> = seen.iter().map(|request| request.l0.len()).collect();
    assert_eq!(lengths, vec![0, 1, 2, 3, 3, 3, 3, 3, 3, 3]);
    assert_eq!(seen[0].slice_type, SliceType::I);
    for (index, request) in seen.iter().enumerate() {
        assert_eq!(request.timestamp, index as u64);
        assert_eq!(request.frame_num, index as u32);
        assert_eq!(request.poc, 2 * index as u16);
        assert!(request.l1.is_empty());
        // The newest reference comes first.
        let expected: Vec<(u16, u32)> = (0..request.l0.len())
            .map(|back| (2 * (index - 1 - back) as u16, (index - 1 - back) as u32))
            .collect();
        assert_eq!(request.l0, expected);
        if index > 0 {
            assert_eq!(request.slice_type, SliceType::P);
        }
    }
}

#[test]
fn group_of_pictures_submission_order() {
    let structure = PredictionStructure::GroupOfPictures { size: 2, limit: 16 };
    let (seen, coded) = run(structure, 32, BlockingMode::NonBlocking);
    let mut expected = vec![0u64];
    for group in 1..=10u64 {
        expected.extend([3 * group, 3 * group - 2, 3 * group - 1]);
    }
    // The frame that is left closes its group alone.
    expected.push(31);
    let order: Vec<u64> = seen.iter().map(|request| request.timestamp).collect();
    assert_eq!(order, expected);
    // The coded frames come in the order of the requests.
    assert_eq!(coded, expected);

    assert_eq!(&order[..7], &[0, 3, 1, 2, 6, 4, 5]);
    let kinds: Vec<SliceType> = seen.iter().take(7).map(|request| request.slice_type).collect();
    assert_eq!(
        kinds,
        vec![
            SliceType::I,
            SliceType::P,
            SliceType::B,
            SliceType::B,
            SliceType::P,
            SliceType::B,
            SliceType::B
        ]
    );
    for request in seen.iter() {
        if request.timestamp < 31 {
            // In display order the picture order counts go up by two.
            assert_eq!(request.poc as u64, 2 * request.timestamp);
        } else {
            // The P picture that closes a group early is placed as if the
            // group were full.
            assert_eq!(request.poc, 2 * (31 + 2));
        }
        match request.slice_type {
            SliceType::I => {
                assert!(request.l0.is_empty() && request.l1.is_empty());
                assert_eq!(request.frame_num, 0);
            }
            SliceType::P => {
                assert_eq!(request.l0.len(), 1);
                assert!(request.l1.is_empty());
                assert!(request.l0[0].0 < request.poc);
                assert_eq!(request.l0[0].1 + 1, request.frame_num);
            }
            SliceType::B => {
                assert_eq!(request.l0.len(), 1);
                assert_eq!(request.l1.len(), 1);
                assert!(request.l0[0].0 < request.poc && request.poc < request.l1[0].0);
                assert_eq!(request.l1[0].1 + 1, request.frame_num);
            }
            _ => panic!("unexpected slice type"),
        }
    }
}

#[test]
fn references_were_delivered_before() {
    for structure in [
        PredictionStructure::LowDelay { tail: 4, limit: 6 },
        PredictionStructure::GroupOfPictures { size: 3, limit: 16 },
    ] {
        let (seen, _) = run(structure, 40, BlockingMode::Blocking);
        assert_eq!(seen.len(), 40);
        let mut requested: Vec<(u16, u32)> = Vec::new();
        for request in seen.iter() {
            for reference in request.l0.iter().chain(request.l1.iter()) {
                assert!(requested.contains(reference));
            }
            if request.slice_type == SliceType::I {
                requested.clear();
            }
            requested.push((request.poc, request.frame_num));
        }
    }
}
