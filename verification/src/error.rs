//! The typed failures of the fingerprint engine.

use vstd::prelude::*;

verus! {

/// Why the engine refused an input.
#[derive(Clone, Copy, Debug, PartialEq, Eq, Structural)]
pub enum EngineError {
    /// The samples do not divide into whole pixels of the declared layout.
    MalformedBuffer,
    /// No pixel contributes a gray value, so there is nothing to average.
    EmptyImage,
    /// A histogram counts no sample at all, so it cannot be normalized.
    EmptyHistogram,
    /// A picture or fingerprint declares zero color channels.
    InvalidChannelCount,
    /// Two histograms of one channel have different numbers of bins.
    HistogramLengthMismatch,
    /// Two fingerprints have different numbers of color channels.
    ChannelCountMismatch,
}

} // verus!
