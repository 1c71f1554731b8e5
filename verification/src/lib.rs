//! Image fingerprints for similarity search: per-channel intensity histograms,
//! the integer side of the brightness and similarity engines, and ranking.

pub mod error;
pub mod escape;
pub mod file_handler;
pub mod histogram;
pub mod picture;
pub mod ranking;
pub mod search_index;
pub mod similarity;
pub mod user_input;
pub mod with_threads;

pub use crate::error::EngineError;
pub use crate::histogram::Histogram;
pub use crate::picture::PictureU8;

use vstd::prelude::*;
use crate::histogram::{bin_counts, lemma_histogram_covers_samples, total_count, BIN_COUNT};
use crate::with_threads::{every_nth, lemma_channel_len, lemma_counted_sample, strided_index};

verus! {

/// The counters of each histogram of a list, as natural numbers.
pub open spec fn histogram_views(histograms: Seq<Histogram>) -> Seq<Seq<nat>> {
    Seq::new(histograms.len(), |channel: int| histograms[channel]@)
}

/// The samples of one color channel of interleaved `data`, in pixel order.
pub open spec fn channel_samples(data: Seq<u8>, channel_count: nat, channel: int) -> Seq<u8> {
    every_nth(data, channel_count, channel as nat)
}

/// The histograms of a picture, channel by channel: each counts the samples of
/// its channel in `BIN_COUNT` bins.  A picture without channels has none, and
/// neither has one whose samples do not divide into whole pixels.
pub open spec fn picture_histograms(pic: &PictureU8) -> Result<Seq<Seq<nat>>, EngineError> {
    if pic.color_channel_count == 0 {
        Err(EngineError::InvalidChannelCount)
    } else if pic.data@.len() % (pic.color_channel_count as nat) != 0 {
        Err(EngineError::MalformedBuffer)
    } else {
        Ok(
            Seq::new(
                pic.color_channel_count as nat,
                |channel: int|
                    bin_counts(
                        channel_samples(pic.data@, pic.color_channel_count as nat, channel),
                        BIN_COUNT as nat,
                    ),
            ),
        )
    }
}

/// `result` is what building the histograms of `pic` must give.
pub open spec fn is_histograms_of(pic: &PictureU8, result: Result<Vec<Histogram>, EngineError>) -> bool {
    match result {
        Ok(histograms) => {
            &&& picture_histograms(pic) matches Ok(counts) && histogram_views(histograms@) == counts
            &&& forall|channel: int|
                0 <= channel < histograms@.len() ==> (#[trigger] histograms@[channel]).bins@.len()
                    == BIN_COUNT
        },
        Err(e) => picture_histograms(pic) == Err::<Seq<Seq<nat>>, EngineError>(e),
    }
}

/// Builds the histogram of each color channel in one pass over the samples: the
/// samples are read pixel by pixel, and within a pixel the sample at offset `i`
/// is counted in the histogram of channel `i`.
pub fn get_histogram(pic: &PictureU8) -> (result: Result<Vec<Histogram>, EngineError>)
    ensures
        is_histograms_of(pic, result),
        result matches Ok(histograms) ==> histograms@.len() == pic.color_channel_count
            && forall|channel: int|
            0 <= channel < histograms@.len() ==> total_count(#[trigger] histograms@[channel]@)
                * pic.color_channel_count == pic.data@.len(),
{
    let channel_count: usize = pic.color_channel_count;
    if channel_count == 0 {
        return Err(EngineError::InvalidChannelCount);
    }
    let len: usize = pic.data.len();
    if len % channel_count != 0 {
        return Err(EngineError::MalformedBuffer);
    }
    let ghost pixels: int = len as int / channel_count as int;
    let ghost cc: nat = channel_count as nat;
    proof {
        assert(pixels * cc == len) by (nonlinear_arith)
            requires
                pixels == len as int / cc as int,
                pixels >= 0,
                len as int % cc as int == 0,
                cc > 0,
        ;
        assert forall|channel: int| 0 <= channel < cc implies channel_samples(
            pic.data@,
            cc,
            channel,
        ).len() == pixels by {
            lemma_channel_len(pixels as nat, cc, channel as nat);
        }
    }
    let mut histograms: Vec<Histogram> = Vec::new();
    let mut made: usize = 0;
    while made < channel_count
        invariant
            made <= channel_count,
            histograms@.len() == made,
            forall|channel: int|
                0 <= channel < made ==> (#[trigger] histograms@[channel]).bins@.len() == BIN_COUNT
                    && histograms@[channel]@ == bin_counts(Seq::<u8>::empty(), BIN_COUNT as nat),
        decreases channel_count - made,
    {
        histograms.push(Histogram::new());
        made += 1;
    }
    let mut current_index: usize = 0;
    let ghost mut pixel: int = 0;
    proof {
        assert forall|channel: int| 0 <= channel < cc implies channel_samples(
            pic.data@,
            cc,
            channel,
        ).take(0) == Seq::<u8>::empty() by {
            assert(channel_samples(pic.data@, cc, channel).take(0) =~= Seq::<u8>::empty());
        }
        assert(0 * cc == 0) by (nonlinear_arith);
    }
    while current_index < len
        invariant
            cc == channel_count > 0,
            len == pic.data@.len(),
            pixels * cc == len,
            0 <= pixel <= pixels,
            current_index == pixel * cc,
            histograms@.len() == cc,
            forall|channel: int|
                0 <= channel < cc ==> (#[trigger] channel_samples(pic.data@, cc, channel)).len()
                    == pixels,
            forall|channel: int|
                0 <= channel < cc ==> (#[trigger] histograms@[channel]).bins@.len() == BIN_COUNT
                    && histograms@[channel]@ == bin_counts(
                    channel_samples(pic.data@, cc, channel).take(pixel),
                    BIN_COUNT as nat,
                ),
        decreases len - current_index,
    {
        proof {
            assert(pixel < pixels && (pixel + 1) * cc == pixel * cc + cc && (pixel + 1) * cc
                <= pixels * cc) by (nonlinear_arith)
                requires
                    pixel * cc < pixels * cc,
                    cc > 0,
            ;
        }
        let mut i: usize = 0;
        while i < channel_count
            invariant
                cc == channel_count > 0,
                len == pic.data@.len(),
                0 <= pixel < pixels,
                current_index == pixel * cc,
                current_index + cc <= len,
                i <= channel_count,
                histograms@.len() == cc,
                forall|channel: int|
                    0 <= channel < cc ==> (#[trigger] channel_samples(pic.data@, cc, channel)).len()
                        == pixels,
                forall|channel: int|
                    0 <= channel < cc ==> (#[trigger] histograms@[channel]).bins@.len()
                        == BIN_COUNT && histograms@[channel]@ == bin_counts(
                        channel_samples(pic.data@, cc, channel).take(
                            if channel < i {
                                pixel + 1
                            } else {
                                pixel
                            },
                        ),
                        BIN_COUNT as nat,
                    ),
            decreases channel_count - i,
        {
            let value: u8 = pic.data[current_index + i];
            proof {
                let samples = channel_samples(pic.data@, cc, i as int);
                assert(samples.len() == pixels);
                assert(strided_index(cc, i as nat, pixel) == current_index + i);
                assert(samples[pixel] == value);
                assert(samples.take(pixel).push(value) =~= samples.take(pixel + 1));
                assert(histograms@[i as int].bins@.len() == BIN_COUNT);
                lemma_counted_sample(histograms@[i as int], samples.take(pixel), value);
            }
            let ghost before = histograms@;
            histograms[i].add_pixel_to_correct_bin(value);
            proof {
                assert(histograms@[i as int].bins@.len() == BIN_COUNT);
                assert forall|channel: int| 0 <= channel < cc && channel != i implies histograms@[channel]
                    == before[channel] by {}
            }
            i += 1;
        }
        current_index += channel_count;
        proof {
            pixel = pixel + 1;
        }
    }
    proof {
        assert(pixel == pixels) by (nonlinear_arith)
            requires
                pixel * cc >= pixels * cc,
                pixel <= pixels,
                cc > 0,
        ;
        let counts = picture_histograms(pic)->Ok_0;
        assert forall|channel: int| 0 <= channel < cc implies #[trigger] histograms@[channel]@
            == counts[channel] && total_count(histograms@[channel]@) * cc == len by {
            let samples = channel_samples(pic.data@, cc, channel);
            assert(samples.take(pixels) =~= samples);
            lemma_histogram_covers_samples(samples, BIN_COUNT as nat);
        }
        assert(histogram_views(histograms@) =~= counts);
    }
    Ok(histograms)
}

/// Histograms with the same counters as the histograms of a picture are
/// histograms of that picture too.
pub proof fn lemma_same_histograms_same_counts(
    pic: &PictureU8,
    histograms: Vec<Histogram>,
    others: Vec<Histogram>,
)
    requires
        is_histograms_of(pic, Ok(histograms)),
        crate::histogram::same_histograms(others@, histograms@),
    ensures
        is_histograms_of(pic, Ok(others)),
{
    let counts = picture_histograms(pic)->Ok_0;
    assert forall|channel: int| 0 <= channel < others@.len() implies (#[trigger] others@[channel]).bins@.len()
        == BIN_COUNT && others@[channel]@ == histograms@[channel]@ by {
        assert(others@[channel].bins@ == histograms@[channel].bins@);
        assert(others@[channel]@ =~= histograms@[channel]@);
    }
    assert(histogram_views(others@) =~= histogram_views(histograms@));
}

} // verus!
