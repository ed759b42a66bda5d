use vstd::prelude::*;

verus! {

/// A position or a length in an audio stream, counted in samples at a given
/// sample rate.
#[derive(Debug, Clone, Copy)]
pub struct Timecode {
    pub samples: usize,
    pub sample_rate: usize,
}

impl Timecode {
    /// A timecode of `ms` milliseconds: one sample per millisecond.
    pub fn from_ms(ms: u32) -> (t: Timecode)
        ensures
            t.samples == ms,
            t.sample_rate == 1000,
    {
        Timecode { samples: ms as usize, sample_rate: 1000 }
    }
}

} // verus!
