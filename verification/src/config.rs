//! The settings that choose between ways of working.
//!
//! The rest of the configuration (volume curve, equaliser gains, loudness
//! target) is floating-point and belongs to the program.

use vstd::prelude::*;

verus! {

/// Which player actually makes the sound.
#[derive(Debug, Clone, Copy, PartialEq, Eq, Structural)]
pub enum AudioBackendChoice {
    /// mpv, driven over its IPC socket. Plays everything, including the
    /// formats the native path has no decoder for.
    Mpv,
    /// The built-in path: decode, process and write to the device here, so
    /// the equaliser, the gain and the conversion are this program's own
    /// arithmetic rather than somebody else's.
    Native,
}

impl Default for AudioBackendChoice {
    fn default() -> (c: Self)
        ensures
            c == AudioBackendChoice::Mpv,
    {
        AudioBackendChoice::Mpv
    }
}

/// Whether ReplayGain levels a whole album or each track on its own.
#[derive(Debug, Clone, Copy, PartialEq, Eq, Structural)]
pub enum ReplayGainMode {
    Album,
    Track,
}

/// Centre frequencies of the equaliser bands, an octave apart.
pub const EQUALIZER_BANDS: [u32; 8] = [60, 150, 400, 1_000, 2_400, 6_000, 12_000, 16_000];

} // verus!
