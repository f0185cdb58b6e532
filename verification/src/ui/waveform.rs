//! How the waveform plot draws its samples.
use vstd::prelude::*;

verus! {

/// How the samples of a channel are drawn.
#[derive(Debug, Clone, Copy, PartialEq, Eq, Structural)]
pub enum WaveformDisplayMode {
    /// Samples joined by line segments (the default).
    Line,
    /// Samples drawn as points, not joined.
    Point,
}

} // verus!
