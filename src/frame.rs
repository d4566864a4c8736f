use vstd::prelude::*;

verus! {

/// The audio that a frame carries.
pub enum Samples {
    /// Decoded 16-bit samples.
    PCM { samples: Vec<i16> },
    /// A transport payload that is still encoded, tagged with its payload type.
    RTP { payload_type: u8, payload: Vec<u8> },
    /// No audio at all.
    Empty,
}

impl Samples {
    /// A frame holds no audio when its samples or payload are empty.
    pub open spec fn is_empty_spec(&self) -> bool {
        match self {
            Samples::PCM { samples } => samples@.len() == 0,
            Samples::RTP { payload, .. } => payload@.len() == 0,
            Samples::Empty => true,
        }
    }

    pub fn is_empty(&self) -> (r: bool)
        ensures
            r == self.is_empty_spec(),
    {
        match self {
            Samples::PCM { samples } => samples.len() == 0,
            Samples::RTP { payload, .. } => payload.len() == 0,
            Samples::Empty => true,
        }
    }
}

/// The unit of work that flows through a processor chain.
pub struct AudioFrame {
    pub track_id: String,
    pub samples: Samples,
    pub timestamp: u64,
    pub sample_rate: u32,
}

/// Rate of a frame that nothing else has set.
pub const DEFAULT_SAMPLE_RATE: u32 = 16000;

impl Default for AudioFrame {
    fn default() -> (r: AudioFrame)
        ensures
            r.track_id@.len() == 0,
            r.samples is Empty,
            r.timestamp == 0,
            r.sample_rate == DEFAULT_SAMPLE_RATE,
    {
        AudioFrame {
            track_id: String::new(),
            samples: Samples::Empty,
            timestamp: 0,
            sample_rate: DEFAULT_SAMPLE_RATE,
        }
    }
}

} // verus!
