//! The WAV audio source. Reading and downmixing the samples is file I/O on
//! floating-point data and is not part of this library.
use vstd::prelude::*;

verus! {

/// Loads mono/stereo PCM or float WAV files, downmixing to mono samples in
/// the -1.0..1.0 range.
pub struct AudioFileSource;

impl AudioFileSource {
    /// The source's display name.
    pub fn name(&self) -> (name: &'static str)
        ensures
            name@ == "Audio (WAV) file"@,
    {
        "Audio (WAV) file"
    }
}

} // verus!
