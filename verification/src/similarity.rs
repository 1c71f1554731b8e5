//! What must hold of two fingerprints before their histograms are compared.
//!
//! The similarity of two pictures is the mean, over the color channels, of the
//! cosine similarity of the two normalized histograms of the channel.  That is
//! defined only for fingerprints with the same, non-zero number of channels,
//! whose histograms have the same number of bins channel by channel, and none
//! of which is empty.

use vstd::prelude::*;
use crate::error::EngineError;
use crate::histogram::{total_count, Histogram};

verus! {

/// Some channel's two histograms differ in their number of bins.
pub open spec fn some_length_differs(a: Seq<Histogram>, b: Seq<Histogram>) -> bool {
    exists|channel: int|
        0 <= channel < a.len() && (#[trigger] a[channel]).bins@.len() != b[channel].bins@.len()
}

/// Some histogram of `histograms` has counted nothing.
pub open spec fn some_is_empty(histograms: Seq<Histogram>) -> bool {
    exists|channel: int|
        0 <= channel < histograms.len() && total_count((#[trigger] histograms[channel])@) == 0
}

/// Whether the histograms of two fingerprints can be compared, and if not,
/// why not.
pub open spec fn comparable(a: Seq<Histogram>, b: Seq<Histogram>) -> Result<(), EngineError> {
    if a.len() != b.len() {
        Err(EngineError::ChannelCountMismatch)
    } else if a.len() == 0 {
        Err(EngineError::InvalidChannelCount)
    } else if some_length_differs(a, b) {
        Err(EngineError::HistogramLengthMismatch)
    } else if some_is_empty(a) || some_is_empty(b) {
        Err(EngineError::EmptyHistogram)
    } else {
        Ok(())
    }
}

/// Whether some histogram of the list has counted nothing.
pub fn any_empty(histograms: &Vec<Histogram>) -> (found: bool)
    ensures
        found == some_is_empty(histograms@),
{
    let mut channel: usize = 0;
    while channel < histograms.len()
        invariant
            channel <= histograms@.len(),
            forall|c: int| 0 <= c < channel ==> total_count((#[trigger] histograms@[c])@) != 0,
        decreases histograms@.len() - channel,
    {
        if histograms[channel].is_empty() {
            return true;
        }
        channel += 1;
    }
    false
}

/// Checks that the histograms of two fingerprints can be compared.
pub fn check_comparable(a: &Vec<Histogram>, b: &Vec<Histogram>) -> (outcome: Result<
    (),
    EngineError,
>)
    ensures
        outcome == comparable(a@, b@),
{
    if a.len() != b.len() {
        return Err(EngineError::ChannelCountMismatch);
    }
    if a.len() == 0 {
        return Err(EngineError::InvalidChannelCount);
    }
    let mut channel: usize = 0;
    while channel < a.len()
        invariant
            a@.len() == b@.len(),
            channel <= a@.len(),
            forall|c: int|
                0 <= c < channel ==> (#[trigger] a@[c]).bins@.len() == b@[c].bins@.len(),
        decreases a@.len() - channel,
    {
        if a[channel].bins.len() != b[channel].bins.len() {
            return Err(EngineError::HistogramLengthMismatch);
        }
        channel += 1;
    }
    if any_empty(a) || any_empty(b) {
        return Err(EngineError::EmptyHistogram);
    }
    Ok(())
}

} // verus!
