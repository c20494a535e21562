//! The encoder on backends that finish late, out of order, or not at all.

use std::cell::Cell;
use std::cell::RefCell;
use std::rc::Rc;

use stateless_encoder::codec::h264::parser::Pps;
use stateless_encoder::codec::h264::parser::Sps;
use stateless_encoder::codec::h264::synthesizer::Synthesizer;
use stateless_encoder::codec::h264::synthesizer::SynthesizerError;
use stateless_encoder::encoder::stateless::h264::predictor::PredictionStructure;
use stateless_encoder::encoder::stateless::h264::BackendRequest;
use stateless_encoder::encoder::stateless::h264::EncoderConfig;
use stateless_encoder::encoder::stateless::h264::StatelessEncoder;
use stateless_encoder::encoder::stateless::h264::StatelessH264EncoderBackend;
use stateless_encoder::encoder::stateless::simple_encode_loop;
use stateless_encoder::encoder::stateless::BackendPromise;
use stateless_encoder::encoder::stateless::EncodeError;
use stateless_encoder::encoder::stateless::StatelessBackendError;
use stateless_encoder::encoder::stateless::StatelessBackendResult;
use stateless_encoder::encoder::stateless::StatelessVideoEncoder;
use stateless_encoder::encoder::stateless::StatelessVideoEncoderBackend;
use stateless_encoder::encoder::FrameMetadata;
use stateless_encoder::BlockingMode;
use stateless_encoder::Fourcc;
use stateless_encoder::FrameLayout;
use stateless_encoder::PlaneLayout;
use stateless_encoder::Resolution;

struct TestSynthesizer;

impl Synthesizer for TestSynthesizer {
    fn synthesize_sps(
        &self,
        _start_code_len: usize,
        _sps: &Sps,
        buffer: &mut Vec<u8>,
    ) -> Result<(), SynthesizerError> {
        buffer.push(0x67);
        Ok(())
    }

    fn synthesize_pps(
        &self,
        _start_code_len: usize,
        _pps: &Pps,
        buffer: &mut Vec<u8>,
    ) -> Result<(), SynthesizerError> {
        buffer.push(0x68);
        Ok(())
    }
}

fn frame(timestamp: u64) -> FrameMetadata {
    FrameMetadata {
        timestamp,
        display_resolution: Resolution { width: 16, height: 16 },
        layout: FrameLayout {
            format: (Fourcc(0), 0),
            size: Resolution { width: 16, height: 16 },
            planes: vec![PlaneLayout { buffer_index: 0, offset: 0, stride: 16 }],
        },
        force_keyframe: false,
    }
}

/// A result that is there once its switch is on.
struct Late<T> {
    on: Rc<Cell<bool>>,
    value: StatelessBackendResult<T>,
}

impl<T> BackendPromise for Late<T> {
    type Output = T;

    fn sync(self) -> StatelessBackendResult<T> {
        self.value
    }

    fn is_ready(&self) -> bool {
        self.on.get()
    }
}

/// The switches of one request.
struct Switches {
    timestamp: u64,
    coded: Rc<Cell<bool>>,
    recon: Rc<Cell<bool>>,
}

/// A backend whose results are there when the test says so.
struct LateBackend {
    requests: Rc<RefCell<Vec<Switches>>>,
    /// Timestamps of the frames that are refused, at import or as a slice.
    refuse_import: Vec<u64>,
    refuse_slice: Vec<u64>,
    /// Timestamps of the frames whose results are errors.
    fail_coded: Vec<u64>,
    fail_recon: Vec<u64>,
}

impl LateBackend {
    fn new() -> (Self, Rc<RefCell<Vec<Switches>>>) {
        let requests = Rc::new(RefCell::new(Vec::new()));
        let backend = LateBackend {
            requests: Rc::clone(&requests),
            refuse_import: Vec::new(),
            refuse_slice: Vec::new(),
            fail_coded: Vec::new(),
            fail_recon: Vec::new(),
        };
        (backend, requests)
    }
}

impl StatelessVideoEncoderBackend<u8> for LateBackend {
    type Picture = u8;

    fn import_picture(
        &mut self,
        metadata: &FrameMetadata,
        handle: u8,
    ) -> StatelessBackendResult<u8> {
        if self.refuse_import.contains(&metadata.timestamp) {
            return Err(StatelessBackendError::UnsupportedFormat);
        }
        Ok(handle)
    }
}

impl StatelessH264EncoderBackend<u8> for LateBackend {
    type Reference = u64;
    type CodedPromise = Late<Vec<u8>>;
    type ReconPromise = Late<u64>;

    fn encode_slice(
        &mut self,
        request: BackendRequest<u8, u64>,
    ) -> StatelessBackendResult<(Late<u64>, Late<Vec<u8>>)> {
        let timestamp = request.input_meta.timestamp;
        if self.refuse_slice.contains(&timestamp) {
            return Err(StatelessBackendError::Other(anyhow::Error::msg("slice refused")));
        }
        let switches = Switches {
            timestamp,
            coded: Rc::new(Cell::new(false)),
            recon: Rc::new(Cell::new(false)),
        };
        let mut bytes = request.coded_output;
        bytes.push(request.input);
        let coded = Late {
            on: Rc::clone(&switches.coded),
            value: if self.fail_coded.contains(&timestamp) {
                Err(StatelessBackendError::OutOfResources)
            } else {
                Ok(bytes)
            },
        };
        let recon = Late {
            on: Rc::clone(&switches.recon),
            value: if self.fail_recon.contains(&timestamp) {
                Err(StatelessBackendError::UnsupportedProfile)
            } else {
                Ok(timestamp)
            },
        };
        self.requests.borrow_mut().push(switches);
        Ok((recon, coded))
    }
}

fn config(pred_structure: PredictionStructure) -> EncoderConfig {
    EncoderConfig {
        pred_structure,
        resolution: Resolution { width: 16, height: 16 },
        ..Default::default()
    }
}

fn seen(requests: &Rc<RefCell<Vec<Switches>>>) -> Vec<u64> {
    requests.borrow().iter().map(|request| request.timestamp).collect()
}

#[test]
fn nothing_comes_out_before_the_backend_is_done() {
    let (backend, requests) = LateBackend::new();
    let mut encoder = StatelessEncoder::new(
        backend,
        TestSynthesizer,
        config(PredictionStructure::LowDelay { tail: 1, limit: 16 }),
        BlockingMode::NonBlocking,
    )
    .unwrap();
    for timestamp in 0..3u64 {
        encoder.encode(frame(timestamp), timestamp as u8 + 10).unwrap();
        assert!(encoder.poll().unwrap().is_none());
    }
    // The frames after the first wait for its reconstructed picture.
    assert_eq!(seen(&requests), vec![0]);
    requests.borrow()[0].recon.set(true);
    assert!(encoder.poll().unwrap().is_none());
    assert_eq!(seen(&requests), vec![0, 1]);
    // The second slice is done before the first: it has to wait.
    requests.borrow()[1].coded.set(true);
    requests.borrow()[1].recon.set(true);
    assert!(encoder.poll().unwrap().is_none());
    assert_eq!(seen(&requests), vec![0, 1, 2]);
    requests.borrow()[0].coded.set(true);
    let first = encoder.poll().unwrap().unwrap();
    assert_eq!(first.metadata.timestamp, 0);
    assert_eq!(first.bitstream, vec![0x67, 0x68, 10]);
    let second = encoder.poll().unwrap().unwrap();
    assert_eq!(second.metadata.timestamp, 1);
    assert_eq!(second.bitstream, vec![11]);
    assert!(encoder.poll().unwrap().is_none());
    // Draining waits for what is left, ready or not.
    encoder.drain().unwrap();
    let third = encoder.poll().unwrap().unwrap();
    assert_eq!(third.metadata.timestamp, 2);
    assert_eq!(third.bitstream, vec![12]);
    assert!(encoder.poll().unwrap().is_none());
}

#[test]
fn blocking_encoder_does_not_ask_for_readiness() {
    let (backend, requests) = LateBackend::new();
    let mut encoder = StatelessEncoder::new(
        backend,
        TestSynthesizer,
        config(PredictionStructure::LowDelay { tail: 1, limit: 16 }),
        BlockingMode::Blocking,
    )
    .unwrap();
    for timestamp in 0..4u64 {
        encoder.encode(frame(timestamp), 0).unwrap();
        let coded = encoder.poll().unwrap().unwrap();
        assert_eq!(coded.metadata.timestamp, timestamp);
        assert!(encoder.poll().unwrap().is_none());
    }
    assert_eq!(seen(&requests), vec![0, 1, 2, 3]);
}

#[test]
fn drain_closes_the_group_of_pictures() {
    let (backend, requests) = LateBackend::new();
    let mut encoder = StatelessEncoder::new(
        backend,
        TestSynthesizer,
        config(PredictionStructure::GroupOfPictures { size: 3, limit: 16 }),
        BlockingMode::NonBlocking,
    )
    .unwrap();
    for timestamp in 0..3u64 {
        encoder.encode(frame(timestamp), 0).unwrap();
    }
    assert_eq!(seen(&requests), vec![0]);
    encoder.drain().unwrap();
    // The newest frame of the group became its P picture, the other one a
    // B picture after it.
    assert_eq!(seen(&requests), vec![0, 2, 1]);
    let mut coded = Vec::new();
    while let Some(buffer) = encoder.poll().unwrap() {
        coded.push(buffer.metadata.timestamp);
    }
    assert_eq!(coded, vec![0, 2, 1]);
    encoder.drain().unwrap();
    assert!(encoder.poll().unwrap().is_none());
}

#[test]
fn refused_import_is_an_error_of_encode() {
    let (mut backend, requests) = LateBackend::new();
    backend.refuse_import.push(1);
    let mut encoder = StatelessEncoder::new(
        backend,
        TestSynthesizer,
        config(PredictionStructure::LowDelay { tail: 1, limit: 16 }),
        BlockingMode::Blocking,
    )
    .unwrap();
    encoder.encode(frame(0), 0).unwrap();
    assert!(matches!(
        encoder.encode(frame(1), 0),
        Err(EncodeError::BackendError(StatelessBackendError::UnsupportedFormat))
    ));
    assert_eq!(seen(&requests), vec![0]);
}

#[test]
fn refused_slice_is_an_error_of_encode() {
    let (mut backend, _requests) = LateBackend::new();
    backend.refuse_slice.push(0);
    let mut encoder = StatelessEncoder::new(
        backend,
        TestSynthesizer,
        config(PredictionStructure::LowDelay { tail: 1, limit: 16 }),
        BlockingMode::Blocking,
    )
    .unwrap();
    match encoder.encode(frame(0), 0) {
        Err(EncodeError::BackendError(StatelessBackendError::Other(cause))) => {
            assert_eq!(cause.to_string(), "slice refused");
        }
        other => panic!("unexpected {other:?}"),
    }
}

#[test]
fn failed_slice_is_an_error_of_poll() {
    let (mut backend, _requests) = LateBackend::new();
    backend.fail_coded.push(0);
    let mut encoder = StatelessEncoder::new(
        backend,
        TestSynthesizer,
        config(PredictionStructure::LowDelay { tail: 1, limit: 16 }),
        BlockingMode::Blocking,
    )
    .unwrap();
    encoder.encode(frame(0), 0).unwrap();
    assert!(matches!(
        encoder.poll(),
        Err(EncodeError::BackendError(StatelessBackendError::OutOfResources))
    ));
}

#[test]
fn failed_reconstruction_is_an_error_of_drain() {
    let (mut backend, _requests) = LateBackend::new();
    backend.fail_recon.push(0);
    let mut encoder = StatelessEncoder::new(
        backend,
        TestSynthesizer,
        config(PredictionStructure::GroupOfPictures { size: 1, limit: 16 }),
        BlockingMode::NonBlocking,
    )
    .unwrap();
    encoder.encode(frame(0), 0).unwrap();
    encoder.encode(frame(1), 0).unwrap();
    assert!(encoder.poll().unwrap().is_none());
    assert!(matches!(
        encoder.drain(),
        Err(EncodeError::BackendError(StatelessBackendError::UnsupportedProfile))
    ));
}

#[test]
fn refused_import_leaves_the_encoder_as_it_was() {
    let (mut backend, requests) = LateBackend::new();
    backend.refuse_import.push(1);
    let mut encoder = StatelessEncoder::new(
        backend,
        TestSynthesizer,
        config(PredictionStructure::LowDelay { tail: 1, limit: 16 }),
        BlockingMode::Blocking,
    )
    .unwrap();
    encoder.encode(frame(0), 7).unwrap();
    assert!(encoder.encode(frame(1), 8).is_err());
    assert_eq!(seen(&requests), vec![0]);

    let coded = encoder.poll().unwrap().unwrap();
    assert_eq!(coded.metadata.timestamp, 0);
    assert_eq!(coded.bitstream, vec![0x67, 0x68, 7]);
    assert!(encoder.poll().unwrap().is_none());

    encoder.encode(frame(2), 9).unwrap();
    assert_eq!(seen(&requests), vec![0, 2]);
    let coded = encoder.poll().unwrap().unwrap();
    assert_eq!(coded.metadata.timestamp, 2);
    assert_eq!(coded.bitstream, vec![9]);
}

#[test]
fn simple_encode_loop_stops_at_the_frame_that_fails() {
    let (mut backend, requests) = LateBackend::new();
    backend.refuse_import.push(1);
    let mut encoder = StatelessEncoder::new(
        backend,
        TestSynthesizer,
        config(PredictionStructure::LowDelay { tail: 1, limit: 16 }),
        BlockingMode::Blocking,
    )
    .unwrap();
    let frames = vec![(frame(0), 0u8), (frame(1), 0u8), (frame(2), 0u8), (frame(3), 0u8)];
    let mut producer = frames.into_iter();
    assert!(matches!(
        simple_encode_loop(&mut encoder, &mut producer),
        Err(EncodeError::BackendError(StatelessBackendError::UnsupportedFormat))
    ));
    assert_eq!(seen(&requests), vec![0]);
    let left: Vec<u64> = producer.map(|(metadata, _)| metadata.timestamp).collect();
    assert_eq!(left, vec![2, 3]);
}
