use std::cell::Cell;
use voice_media::codec::CodecError;
use voice_media::frame::{AudioFrame, Samples};
use voice_media::processor::{ChainError, Processor, ProcessorChain, ProcessorError};

struct Gain {
    factor: i16,
    calls: Cell<u32>,
}

impl Processor for Gain {
    fn step(&self, _before: AudioFrame, _after: AudioFrame, _r: Result<(), ProcessorError>) -> bool {
        true
    }

    fn process_frame(&self, frame: &mut AudioFrame) -> Result<(), ProcessorError> {
        self.calls.set(self.calls.get() + 1);
        if let Samples::PCM { samples } = &mut frame.samples {
            for s in samples.iter_mut() {
                *s = s.saturating_mul(self.factor);
            }
        }
        frame.timestamp += 1;
        if self.factor == 0 {
            return Err(ProcessorError { message: "muted".to_string() });
        }
        Ok(())
    }
}

fn gain(factor: i16) -> Gain {
    Gain { factor, calls: Cell::new(0) }
}

fn rtp_frame(payload_type: u8, payload: Vec<u8>) -> AudioFrame {
    AudioFrame {
        track_id: "t1".to_string(),
        samples: Samples::RTP { payload_type, payload },
        timestamp: 42,
        sample_rate: 8000,
    }
}

#[test]
fn default_frame() {
    let f = AudioFrame::default();
    assert_eq!(f.track_id, "");
    assert!(matches!(f.samples, Samples::Empty));
    assert_eq!(f.timestamp, 0);
    assert_eq!(f.sample_rate, 16000);
}

#[test]
fn samples_is_empty() {
    assert!(Samples::Empty.is_empty());
    assert!(Samples::PCM { samples: vec![] }.is_empty());
    assert!(!Samples::PCM { samples: vec![1] }.is_empty());
    assert!(Samples::RTP { payload_type: 0, payload: vec![] }.is_empty());
    assert!(!Samples::RTP { payload_type: 0, payload: vec![1] }.is_empty());
}

#[test]
fn fast_exit_leaves_frame_unchanged() {
    let mut chain: ProcessorChain<Gain> = ProcessorChain::new(8000);
    chain.set_force_decode(false);
    let mut frame = rtp_frame(0, vec![0xff, 0x80]);
    assert!(chain.process_frame(&mut frame).is_ok());
    match &frame.samples {
        Samples::RTP { payload_type, payload } => {
            assert_eq!(*payload_type, 0);
            assert_eq!(payload, &vec![0xff, 0x80]);
        }
        _ => panic!("frame was decoded"),
    }
    assert_eq!(frame.timestamp, 42);
}

#[test]
fn forced_decode_turns_rtp_into_pcm() {
    let chain: ProcessorChain<Gain> = ProcessorChain::new(8000);
    let mut frame = rtp_frame(0, vec![0xff, 0x80]);
    frame.sample_rate = 1;
    assert!(chain.process_frame(&mut frame).is_ok());
    match &frame.samples {
        Samples::PCM { samples } => assert_eq!(samples, &vec![0, 32124]),
        _ => panic!("frame was not decoded"),
    }
    assert_eq!(frame.sample_rate, 8000);
    assert_eq!(frame.track_id, "t1");
    assert_eq!(frame.timestamp, 42);
}

#[test]
fn unrecognized_payload_type_stays_rtp() {
    let chain: ProcessorChain<Gain> = ProcessorChain::new(8000);
    let mut frame = rtp_frame(101, vec![5, 0x80, 10, 100]);
    assert!(chain.process_frame(&mut frame).is_ok());
    assert!(matches!(frame.samples, Samples::RTP { payload_type: 101, .. }));
}

#[test]
fn decode_at_another_rate_resamples() {
    let chain: ProcessorChain<Gain> = ProcessorChain::new(16000);
    let mut frame = rtp_frame(0, vec![0xff, 0x80]);
    assert!(chain.process_frame(&mut frame).is_ok());
    match &frame.samples {
        Samples::PCM { samples } => assert_eq!(samples, &vec![0, 16062, 32124, 32124]),
        _ => panic!("frame was not decoded"),
    }
    assert_eq!(frame.sample_rate, 16000);
}

#[test]
fn decode_failure_surfaces_and_keeps_frame() {
    let chain: ProcessorChain<Gain> = ProcessorChain::new(16000);
    let mut frame = rtp_frame(9, vec![0xff]);
    match chain.process_frame(&mut frame) {
        Err(ChainError::Codec(e)) => assert_eq!(e, CodecError::UnsupportedCodec),
        _ => panic!("expected a codec error"),
    }
    assert!(matches!(frame.samples, Samples::RTP { payload_type: 9, .. }));
}

#[test]
fn decode_frame_alone() {
    let chain: ProcessorChain<Gain> = ProcessorChain::new(8000);
    let mut frame = rtp_frame(8, vec![0xd5]);
    assert!(chain.decode_frame(&mut frame).is_ok());
    match &frame.samples {
        Samples::PCM { samples } => assert_eq!(samples, &vec![8]),
        _ => panic!("frame was not decoded"),
    }
    let mut frame = rtp_frame(101, vec![1, 2, 3, 4]);
    assert!(chain.decode_frame(&mut frame).is_ok());
    assert!(matches!(frame.samples, Samples::RTP { payload_type: 101, .. }));
}

#[test]
fn processors_run_in_order_and_stop_at_failure() {
    let mut chain = ProcessorChain::new(8000);
    chain.append_processor(2, gain(2));
    chain.insert_processor(1, gain(3));
    chain.append_processor(3, gain(0));
    chain.append_processor(4, gain(5));
    let mut frame = AudioFrame {
        track_id: "t".to_string(),
        samples: Samples::PCM { samples: vec![1, -2] },
        timestamp: 0,
        sample_rate: 8000,
    };
    match chain.process_frame(&mut frame) {
        Err(ChainError::Processor(e)) => assert_eq!(e.message, "muted"),
        _ => panic!("expected a processor error"),
    }
    // 3 then 2 then 0 ran; 5 did not.
    assert_eq!(frame.timestamp, 3);
    match &frame.samples {
        Samples::PCM { samples } => assert_eq!(samples, &vec![0, 0]),
        _ => panic!(),
    }
}

#[test]
fn has_and_remove_processor_by_kind() {
    let mut chain = ProcessorChain::new(8000);
    assert!(!chain.has_processor(7));
    chain.append_processor(7, gain(1));
    chain.append_processor(8, gain(1));
    chain.insert_processor(7, gain(1));
    assert!(chain.has_processor(7));
    assert!(chain.has_processor(7));
    assert!(chain.has_processor(8));
    chain.remove_processor(7);
    assert!(!chain.has_processor(7));
    assert!(chain.has_processor(8));
    chain.remove_processor(8);
    assert!(!chain.has_processor(8));
    chain.set_force_decode(false);
    let mut frame = rtp_frame(0, vec![0xff]);
    assert!(chain.process_frame(&mut frame).is_ok());
    assert!(matches!(frame.samples, Samples::RTP { .. }));
}
