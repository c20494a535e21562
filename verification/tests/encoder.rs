//! The encoder end to end, on the backend without a codec.

use stateless_encoder::backend::dummy::encoder::write_timestamp_sei;
use stateless_encoder::backend::dummy::encoder::Backend;
use stateless_encoder::backend::dummy::encoder::DUMMY_TS_SEI_UUID;
use stateless_encoder::codec::h264::parser::Pps;
use stateless_encoder::codec::h264::parser::Profile;
use stateless_encoder::codec::h264::parser::Sps;
use stateless_encoder::codec::h264::synthesizer::Synthesizer;
use stateless_encoder::codec::h264::synthesizer::SynthesizerError;
use stateless_encoder::encoder::stateless::h264::predictor::PredictionStructure;
use stateless_encoder::encoder::stateless::h264::EncoderConfig;
use stateless_encoder::encoder::stateless::h264::StatelessEncoder;
use stateless_encoder::encoder::stateless::simple_encode_loop;
use stateless_encoder::encoder::stateless::EncodeError;
use stateless_encoder::encoder::stateless::StatelessVideoEncoder;
use stateless_encoder::encoder::CodedBitstreamBuffer;
use stateless_encoder::encoder::FrameMetadata;
use stateless_encoder::BlockingMode;
use stateless_encoder::Fourcc;
use stateless_encoder::FrameLayout;
use stateless_encoder::PlaneLayout;
use stateless_encoder::Resolution;

const NALU_SEI: u8 = 6;
const NALU_SPS: u8 = 7;
const NALU_PPS: u8 = 8;

/// Writes parameter sets as NAL units of a few bytes that tell the sets
/// apart and contain no start code.
struct TestSynthesizer;

impl TestSynthesizer {
    fn start_code(len: usize, buffer: &mut Vec<u8>) {
        for _ in 1..len {
            buffer.push(0);
        }
        buffer.push(1);
    }
}

impl Synthesizer for TestSynthesizer {
    fn synthesize_sps(
        &self,
        start_code_len: usize,
        sps: &Sps,
        buffer: &mut Vec<u8>,
    ) -> Result<(), SynthesizerError> {
        Self::start_code(start_code_len, buffer);
        buffer.push(0x60 | NALU_SPS);
        buffer.push(sps.profile_idc.idc());
        buffer.push(sps.level_idc.idc());
        buffer.push(0x80);
        Ok(())
    }

    fn synthesize_pps(
        &self,
        start_code_len: usize,
        pps: &Pps,
        buffer: &mut Vec<u8>,
    ) -> Result<(), SynthesizerError> {
        Self::start_code(start_code_len, buffer);
        buffer.push(0x60 | NALU_PPS);
        buffer.push(pps.pic_init_qp | 0x40);
        buffer.push(0x80);
        Ok(())
    }
}

/// A synthesizer that cannot write.
struct FailingSynthesizer;

impl Synthesizer for FailingSynthesizer {
    fn synthesize_sps(
        &self,
        _start_code_len: usize,
        _sps: &Sps,
        _buffer: &mut Vec<u8>,
    ) -> Result<(), SynthesizerError> {
        Err(SynthesizerError::Unsupported)
    }

    fn synthesize_pps(
        &self,
        _start_code_len: usize,
        _pps: &Pps,
        _buffer: &mut Vec<u8>,
    ) -> Result<(), SynthesizerError> {
        Err(SynthesizerError::Write)
    }
}

fn nv12_layout(width: usize, height: usize) -> FrameLayout {
    FrameLayout {
        format: (Fourcc(u32::from_le_bytes(*b"NV12")), 0),
        size: Resolution { width: width as u32, height: height as u32 },
        planes: vec![
            PlaneLayout { buffer_index: 0, offset: 0, stride: width },
            PlaneLayout { buffer_index: 0, offset: width * height, stride: width },
        ],
    }
}

fn frame(timestamp: u64, layout: &FrameLayout, force_keyframe: bool) -> FrameMetadata {
    FrameMetadata {
        display_resolution: Resolution { width: layout.size.width, height: layout.size.width },
        layout: layout.clone(),
        force_keyframe,
        timestamp,
    }
}

/// Gives `limit` frames with the timestamps 0, 1, 2, ...
struct DummyFrameProducer {
    counter: u64,
    limit: u64,
    frame_layout: FrameLayout,
}

impl DummyFrameProducer {
    fn new(limit: u64, frame_layout: FrameLayout) -> Self {
        Self { limit, counter: 0, frame_layout }
    }
}

impl Iterator for DummyFrameProducer {
    type Item = (FrameMetadata, ());

    fn next(&mut self) -> Option<Self::Item> {
        if self.counter >= self.limit {
            return None;
        }
        let meta = frame(self.counter, &self.frame_layout, false);
        self.counter += 1;
        Some((meta, ()))
    }
}

/// Splits a bitstream at its start codes of three bytes and returns each
/// NAL unit as its type and the bytes after its header.
fn nal_units(bitstream: &[u8]) -> Vec<(u8, Vec<u8>)> {
    let mut starts = Vec::new();
    let mut i = 0;
    while i + 3 <= bitstream.len() {
        if bitstream[i] == 0 && bitstream[i + 1] == 0 && bitstream[i + 2] == 1 {
            starts.push(i);
            i += 3;
        } else {
            i += 1;
        }
    }
    let mut units = Vec::new();
    for (k, start) in starts.iter().enumerate() {
        let end = if k + 1 < starts.len() { starts[k + 1] } else { bitstream.len() };
        let header = bitstream[start + 3];
        units.push((header & 0x1f, bitstream[start + 4..end].to_vec()));
    }
    units
}

/// The payload of the one message of unregistered user data in a NAL unit
/// of supplemental enhancement information.
fn sei_user_data(body: &[u8]) -> Vec<u8> {
    assert_eq!(body[0], 0x05);
    let size = body[1] as usize;
    assert_eq!(body[2 + size], 0x80);
    body[2..2 + size].to_vec()
}

fn low_delay(tail: u16, limit: u16) -> EncoderConfig {
    EncoderConfig {
        pred_structure: PredictionStructure::LowDelay { tail, limit },
        ..Default::default()
    }
}

fn poll_all<E: StatelessVideoEncoder<()>>(encoder: &mut E) -> Vec<CodedBitstreamBuffer> {
    let mut coded = Vec::new();
    while let Some(buffer) = encoder.poll().unwrap() {
        coded.push(buffer);
    }
    coded
}

#[test]
fn test_low_delay_dummy() {
    const WIDTH: usize = 1;
    const HEIGHT: usize = 1;
    const FRAME_COUNT: u64 = 10000;

    let config = EncoderConfig {
        profile: Profile::Main,
        framerate: 30,
        resolution: Resolution { width: WIDTH as u32, height: HEIGHT as u32 },
        ..Default::default()
    };
    assert!(config.is_valid());

    let frame_layout = nv12_layout(WIDTH, HEIGHT);

    let mut encoder =
        StatelessEncoder::new(Backend, TestSynthesizer, config, BlockingMode::Blocking).unwrap();

    let mut producer = DummyFrameProducer::new(FRAME_COUNT, frame_layout);
    let bitstream = simple_encode_loop(&mut encoder, &mut producer).unwrap();

    let mut frame_counter: u64 = 0;
    let mut parameter_sets = 0;

    for (type_, body) in nal_units(&bitstream) {
        match type_ {
            NALU_SEI => {
                let payload = sei_user_data(&body);

                let uuid = &payload[..16];
                assert_eq!(&DUMMY_TS_SEI_UUID[..], uuid);

                let expected_payload = frame_counter.to_le_bytes();
                assert_eq!(&expected_payload, &payload[16..]);

                frame_counter += 1;
            }
            type_ => {
                assert!(matches!(type_, NALU_SPS | NALU_PPS));
                parameter_sets += 1;
            }
        }
    }

    assert_eq!(frame_counter, FRAME_COUNT);
    // One sequence for every 2048 frames begun, two parameter sets each.
    assert_eq!(parameter_sets, 2 * 5);
}

#[test]
fn headers_precede_the_idr_slice_only() {
    let layout = nv12_layout(16, 16);
    let mut encoder =
        StatelessEncoder::new(Backend, TestSynthesizer, low_delay(1, 4), BlockingMode::Blocking)
            .unwrap();
    let mut kinds = Vec::new();
    for timestamp in 0..9u64 {
        encoder.encode(frame(timestamp, &layout, false), ()).unwrap();
        for buffer in poll_all(&mut encoder) {
            assert_eq!(buffer.metadata.timestamp, timestamp);
            let units: Vec<u8> = nal_units(&buffer.bitstream).iter().map(|unit| unit.0).collect();
            kinds.push(units);
        }
    }
    let idr = vec![NALU_SPS, NALU_PPS, NALU_SEI];
    let inter = vec![NALU_SEI];
    assert_eq!(
        kinds,
        vec![
            idr.clone(),
            inter.clone(),
            inter.clone(),
            inter.clone(),
            idr.clone(),
            inter.clone(),
            inter.clone(),
            inter.clone(),
            idr.clone(),
        ]
    );
}

#[test]
fn idr_headers_are_what_the_synthesizer_wrote() {
    let layout = nv12_layout(16, 16);
    let config = EncoderConfig { profile: Profile::High, default_qp: 30, ..Default::default() };
    let mut encoder =
        StatelessEncoder::new(Backend, TestSynthesizer, config, BlockingMode::Blocking).unwrap();
    encoder.encode(frame(7, &layout, false), ()).unwrap();
    let buffer = encoder.poll().unwrap().unwrap();
    let mut expected = vec![0, 0, 1, 0x67, 100, 40, 0x80, 0, 0, 1, 0x68, 30 | 0x40, 0x80];
    write_timestamp_sei(&mut expected, 7);
    assert_eq!(buffer.bitstream, expected);
    assert!(encoder.poll().unwrap().is_none());
}

#[test]
fn forced_keyframe_gets_parameter_sets() {
    let layout = nv12_layout(16, 16);
    let mut encoder = StatelessEncoder::new(
        Backend,
        TestSynthesizer,
        EncoderConfig::default(),
        BlockingMode::Blocking,
    )
    .unwrap();
    let mut coded = Vec::new();
    for timestamp in 0..100u64 {
        encoder.encode(frame(timestamp, &layout, timestamp == 37), ()).unwrap();
        coded.extend(poll_all(&mut encoder));
    }
    encoder.drain().unwrap();
    coded.extend(poll_all(&mut encoder));
    assert_eq!(coded.len(), 100);
    for (index, buffer) in coded.iter().enumerate() {
        assert_eq!(buffer.metadata.timestamp, index as u64);
        assert_eq!(buffer.metadata.force_keyframe, index == 37);
        let kinds: Vec<u8> = nal_units(&buffer.bitstream).iter().map(|unit| unit.0).collect();
        if index == 0 || index == 37 {
            assert_eq!(kinds, vec![NALU_SPS, NALU_PPS, NALU_SEI]);
        } else {
            assert_eq!(kinds, vec![NALU_SEI]);
        }
    }
}

#[test]
fn drain_without_encode_gives_nothing() {
    for structure in [
        PredictionStructure::LowDelay { tail: 1, limit: 2048 },
        PredictionStructure::GroupOfPictures { size: 2, limit: 16 },
    ] {
        for mode in [BlockingMode::Blocking, BlockingMode::NonBlocking] {
            let config = EncoderConfig { pred_structure: structure, ..Default::default() };
            let mut encoder =
                StatelessEncoder::new(Backend, TestSynthesizer, config, mode).unwrap();
            assert!(encoder.drain().is_ok());
            assert!(encoder.poll().unwrap().is_none());
            assert!(encoder.drain().is_ok());
        }
    }
}

#[test]
fn each_encode_gives_one_buffer_without_blocking() {
    let layout = nv12_layout(16, 16);
    let mut encoder = StatelessEncoder::new(
        Backend,
        TestSynthesizer,
        low_delay(2, 8),
        BlockingMode::NonBlocking,
    )
    .unwrap();
    for timestamp in 0..20u64 {
        encoder.encode(frame(timestamp, &layout, false), ()).unwrap();
        let buffer = encoder.poll().unwrap().unwrap();
        assert_eq!(buffer.metadata.timestamp, timestamp);
        assert!(encoder.poll().unwrap().is_none());
    }
}

#[test]
fn output_keeps_the_order_of_the_frames() {
    let layout = nv12_layout(32, 16);
    for mode in [BlockingMode::Blocking, BlockingMode::NonBlocking] {
        let mut encoder =
            StatelessEncoder::new(Backend, TestSynthesizer, low_delay(3, 5), mode).unwrap();
        // Nothing is polled before all frames are in.
        let timestamps: Vec<u64> = (0..23).map(|i| 10 + 3 * i).collect();
        for timestamp in timestamps.iter() {
            encoder.encode(frame(*timestamp, &layout, false), ()).unwrap();
        }
        encoder.drain().unwrap();
        let coded = poll_all(&mut encoder);
        let seen: Vec<u64> = coded.iter().map(|buffer| buffer.metadata.timestamp).collect();
        assert_eq!(seen, timestamps);
    }
}

#[test]
fn as_many_buffers_as_frames() {
    let layout = nv12_layout(16, 16);
    for structure in [
        PredictionStructure::LowDelay { tail: 2, limit: 7 },
        PredictionStructure::GroupOfPictures { size: 0, limit: 16 },
        PredictionStructure::GroupOfPictures { size: 1, limit: 16 },
        PredictionStructure::GroupOfPictures { size: 3, limit: 16 },
    ] {
        for count in [0u64, 1, 2, 3, 4, 5, 9, 10, 31] {
            let config = EncoderConfig { pred_structure: structure, ..Default::default() };
            let mut encoder =
                StatelessEncoder::new(Backend, TestSynthesizer, config, BlockingMode::NonBlocking)
                    .unwrap();
            let mut coded = 0;
            for timestamp in 0..count {
                encoder.encode(frame(timestamp, &layout, false), ()).unwrap();
                coded += poll_all(&mut encoder).len();
            }
            encoder.drain().unwrap();
            let rest = poll_all(&mut encoder);
            let mut seen: Vec<u64> = rest.iter().map(|buffer| buffer.metadata.timestamp).collect();
            coded += seen.len();
            assert_eq!(coded as u64, count);
            seen.sort();
            seen.dedup();
            assert_eq!(seen.len(), rest.len());
        }
    }
}

#[test]
fn simple_encode_loop_joins_the_coded_frames() {
    let layout = nv12_layout(16, 16);
    let mut encoder = StatelessEncoder::new(
        Backend,
        TestSynthesizer,
        low_delay(1, 3),
        BlockingMode::Blocking,
    )
    .unwrap();
    let mut producer = DummyFrameProducer::new(5, layout);
    let bitstream = simple_encode_loop(&mut encoder, &mut producer).unwrap();
    assert!(producer.next().is_none());

    let headers = vec![0, 0, 1, 0x67, 66, 40, 0x80, 0, 0, 1, 0x68, 26 | 0x40, 0x80];
    let mut expected = Vec::new();
    for timestamp in 0..5u64 {
        if timestamp % 3 == 0 {
            expected.extend(headers.iter());
        }
        write_timestamp_sei(&mut expected, timestamp);
    }
    assert_eq!(bitstream, expected);
    assert!(encoder.poll().unwrap().is_none());
}

#[test]
fn simple_encode_loop_of_no_frames_is_empty() {
    let layout = nv12_layout(16, 16);
    let mut encoder = StatelessEncoder::new(
        Backend,
        TestSynthesizer,
        EncoderConfig::default(),
        BlockingMode::Blocking,
    )
    .unwrap();
    let mut producer = DummyFrameProducer::new(0, layout);
    let bitstream = simple_encode_loop(&mut encoder, &mut producer).unwrap();
    assert!(bitstream.is_empty());
}

#[test]
fn synthesizer_error_comes_out_of_encode() {
    let layout = nv12_layout(16, 16);
    let mut encoder = StatelessEncoder::new(
        Backend,
        FailingSynthesizer,
        EncoderConfig::default(),
        BlockingMode::Blocking,
    )
    .unwrap();
    let result = encoder.encode(frame(0, &layout, false), ());
    assert!(matches!(
        result,
        Err(EncodeError::H264SynthesizerError(SynthesizerError::Unsupported))
    ));
}

#[test]
fn timestamp_message_bytes() {
    let mut buffer = vec![0xaa];
    write_timestamp_sei(&mut buffer, 0x0102_0304_0506_0708);
    let mut expected = vec![0xaa, 0, 0, 1, 6, 5, 24];
    expected.extend([
        0x63, 0x72, 0x6f, 0x73, 0x2d, 0x63, 0x6f, 0x64, 0x65, 0x63, 0x73, 0x2d, 0x74, 0x69,
        0x6d, 0x65,
    ]);
    expected.extend([8, 7, 6, 5, 4, 3, 2, 1]);
    expected.push(0x80);
    assert_eq!(buffer, expected);
}
