//! Work partitioning for the threaded strategies.
//!
//! A picture's histograms can be built channel by channel: a strided gather
//! pulls one channel out of the interleaved samples, and each gathered channel
//! is counted on its own, with no state shared between channels.  Bulk
//! conversions of samples are split into a few contiguous chunks instead.  The
//! functions here do the partitioning and the per-partition work; running the
//! partitions on threads is the caller's business.

use vstd::prelude::*;
use crate::error::EngineError;
use crate::histogram::{bin_counts, bin_of, count_in_bin, total_count, Histogram, BIN_COUNT};
use crate::histogram::{lemma_bin_of_is_covering_bin, lemma_count_in_bin_bounded};
use crate::histogram::lemma_histogram_covers_samples;
use crate::picture::PictureU8;
use crate::{channel_samples, histogram_views, is_histograms_of, picture_histograms};

verus! {

/// Number of workers of a threaded conversion.
pub const THREAD_COUNT: usize = 4;

/// Samples per worker from which a threaded conversion pays off.
pub const THREAD_THRESHOLD: usize = 200;

/// How many indices `start, start + step, start + 2 * step, ..` lie below `len`.
pub open spec fn strided_len(len: nat, step: nat, start: nat) -> nat
    recommends
        step > 0,
{
    if start >= len {
        0
    } else {
        ((len - start - 1) / (step as int) + 1) as nat
    }
}

/// The `k`-th of the indices `start, start + step, start + 2 * step, ..`.
pub open spec fn strided_index(step: nat, start: nat, k: int) -> int {
    start + k * step
}

/// Every `step`-th value of `values`, from index `start` on.
pub open spec fn every_nth(values: Seq<u8>, step: nat, start: nat) -> Seq<u8>
    recommends
        step > 0,
{
    Seq::new(
        strided_len(values.len(), step, start),
        |k: int| values[strided_index(step, start, k)],
    )
}

/// The strided indices below `len` are those `start + k * step` with
/// `k < strided_len(len, step, start)`.
pub proof fn lemma_strided_len(len: nat, step: nat, start: nat, k: int)
    requires
        step > 0,
        k >= 0,
    ensures
        k < strided_len(len, step, start) <==> strided_index(step, start, k) < len,
        strided_index(step, start, k) >= start,
{
    assert(k * step >= 0) by (nonlinear_arith)
        requires
            k >= 0,
            step > 0,
    ;
    if start < len {
        let q = (len - start - 1) / (step as int);
        assert(k <= q <==> k * step <= len - start - 1) by (nonlinear_arith)
            requires
                step > 0,
                len - start - 1 >= 0,
                q == (len - start - 1) / (step as int),
        ;
    }
}

/// Every channel of `pixels` whole pixels has `pixels` samples.
pub proof fn lemma_channel_len(pixels: nat, channel_count: nat, channel: nat)
    requires
        channel < channel_count,
    ensures
        strided_len(pixels * channel_count, channel_count, channel) == pixels,
{
    let len = pixels * channel_count;
    lemma_strided_len(len, channel_count, channel, pixels as int);
    if pixels > 0 {
        lemma_strided_len(len, channel_count, channel, pixels - 1);
        assert((pixels - 1) * channel_count == pixels * channel_count - channel_count)
            by (nonlinear_arith);
    }
}

/// Takes every `n`-th value out of `vec`, starting at index `start_at_index`.
/// A start behind the last value takes nothing.  With a step of zero the walk
/// would never leave a start that lies within `vec`, so such a call is ruled
/// out.
pub fn take_every_nth_value(vec: &Vec<u8>, n: usize, start_at_index: usize) -> (taken: Vec<u8>)
    requires
        n > 0 || start_at_index >= vec@.len(),
    ensures
        taken@ == every_nth(vec@, n as nat, start_at_index as nat),
{
    let len: usize = vec.len();
    let mut new_vec: Vec<u8> = Vec::new();
    let mut index: usize = start_at_index;
    assert(strided_index(n as nat, start_at_index as nat, 0) == start_at_index) by (nonlinear_arith)
        requires
            strided_index(n as nat, start_at_index as nat, 0) == start_at_index + 0 * n,
    ;
    while index < len
        invariant
            n > 0 || index >= len,
            len == vec@.len(),
            index < len ==> index == strided_index(
                n as nat,
                start_at_index as nat,
                new_vec@.len() as int,
            ),
            index >= len ==> new_vec@.len() == strided_len(
                len as nat,
                n as nat,
                start_at_index as nat,
            ),
            forall|k: int|
                0 <= k < new_vec@.len() ==> 0 <= #[trigger] strided_index(
                    n as nat,
                    start_at_index as nat,
                    k,
                ) < len,
            forall|k: int|
                0 <= k < new_vec@.len() ==> #[trigger] new_vec@[k] == vec@[strided_index(
                    n as nat,
                    start_at_index as nat,
                    k,
                )],
        decreases len - index,
    {
        let ghost taken_before = new_vec@.len() as int;
        new_vec.push(vec[index]);
        proof {
            let step = n as nat;
            let start = start_at_index as nat;
            assert(strided_index(step, start, taken_before + 1) == strided_index(
                step,
                start,
                taken_before,
            ) + n) by (nonlinear_arith)
                requires
                    strided_index(step, start, taken_before + 1) == start + (taken_before + 1)
                        * step,
                    strided_index(step, start, taken_before) == start + taken_before * step,
                    step == n,
            ;
            lemma_strided_len(len as nat, step, start, taken_before + 1);
            lemma_strided_len(len as nat, step, start, taken_before);
        }
        if n >= len - index {
            index = len;
        } else {
            index += n;
        }
    }
    proof {
        let step = n as nat;
        let start = start_at_index as nat;
        if start_at_index >= len {
            assert(new_vec@.len() == 0);
        }
        assert(new_vec@ =~= every_nth(vec@, step, start));
    }
    new_vec
}

/// The histogram of one channel's samples: each sample is counted in its bin.
pub fn channel_histogram(samples: &Vec<u8>) -> (histogram: Histogram)
    ensures
        histogram.bins@.len() == BIN_COUNT,
        histogram@ == bin_counts(samples@, BIN_COUNT as nat),
        total_count(histogram@) == samples@.len(),
{
    let mut histogram = Histogram::new();
    let mut index: usize = 0;
    while index < samples.len()
        invariant
            index <= samples@.len(),
            histogram.bins@.len() == BIN_COUNT,
            histogram@ == bin_counts(samples@.take(index as int), BIN_COUNT as nat),
        decreases samples@.len() - index,
    {
        let value: u8 = samples[index];
        proof {
            lemma_counted_sample(histogram, samples@.take(index as int), value);
            assert(samples@.take(index as int).push(value) =~= samples@.take(index + 1));
        }
        histogram.add_pixel_to_correct_bin(value);
        index += 1;
    }
    proof {
        assert(samples@.take(index as int) =~= samples@);
        lemma_histogram_covers_samples(samples@, BIN_COUNT as nat);
    }
    histogram
}

/// A histogram that holds the counts of `counted` can count one more sample,
/// and then holds the counts of `counted` with that sample appended.
pub proof fn lemma_counted_sample(histogram: Histogram, counted: Seq<u8>, value: u8)
    requires
        counted.len() < u64::MAX,
        histogram@ == bin_counts(counted, histogram.bins@.len()),
    ensures
        bin_of(histogram.bins@.len(), value) matches Some(i) ==> 0 <= i < histogram.bins@.len()
            && histogram.bins@[i] < u64::MAX,
        forall|after: Histogram|
            after.bins@ == (match bin_of(histogram.bins@.len(), value) {
                Some(i) => histogram.bins@.update(i, (histogram.bins@[i] + 1) as u64),
                None => histogram.bins@,
            }) ==> #[trigger] after@ == bin_counts(counted.push(value), histogram.bins@.len()),
{
    let bin_count = histogram.bins@.len();
    let longer = counted.push(value);
    assert(longer.drop_last() =~= counted);
    assert forall|b: int| 0 <= b < bin_count implies #[trigger] histogram.bins@[b] == count_in_bin(
        counted,
        bin_count,
        b,
    ) && histogram.bins@[b] < u64::MAX by {
        assert(histogram@[b] == bin_counts(counted, bin_count)[b]);
        lemma_count_in_bin_bounded(counted, bin_count, b);
    }
    if bin_of(bin_count, value) is Some {
        let i = bin_of(bin_count, value)->0;
        lemma_bin_of_is_covering_bin(bin_count, value, i);
        assert(histogram.bins@[i] < u64::MAX);
    }
    assert forall|after: Histogram|
        after.bins@ == (match bin_of(bin_count, value) {
            Some(i) => histogram.bins@.update(i, (histogram.bins@[i] + 1) as u64),
            None => histogram.bins@,
        }) implies #[trigger] after@ == bin_counts(longer, bin_count) by {
        assert(after.bins@.len() == bin_count);
        assert forall|b: int| 0 <= b < bin_count implies after@[b] == bin_counts(
            longer,
            bin_count,
        )[b] by {
            assert(histogram.bins@[b] == count_in_bin(counted, bin_count, b));
            assert(after@[b] == after.bins@[b] as nat);
        }
        assert(after@ =~= bin_counts(longer, bin_count));
    }
}

/// Builds the histogram of each color channel from that channel's samples
/// alone: the channel is gathered out of the interleaved samples and counted
/// by `channel_histogram`.  The histograms come in channel order.
pub fn get_histogram_per_channel(pic: &PictureU8) -> (result: Result<Vec<Histogram>, EngineError>)
    ensures
        is_histograms_of(pic, result),
        result matches Ok(histograms) ==> histograms@.len() == pic.color_channel_count
            && forall|channel: int|
            0 <= channel < histograms@.len() ==> total_count(#[trigger] histograms@[channel]@)
                * pic.color_channel_count == pic.data@.len(),
{
    let channel_count: usize = pic.color_channel_count;
    if channel_count == 0 {
        return Err(EngineError::InvalidChannelCount);
    }
    let len: usize = pic.data.len();
    if len % channel_count != 0 {
        return Err(EngineError::MalformedBuffer);
    }
    let ghost pixels: int = len as int / channel_count as int;
    let ghost cc: nat = channel_count as nat;
    proof {
        assert(pixels * cc == len && pixels >= 0) by (nonlinear_arith)
            requires
                pixels == len as int / cc as int,
                len as int % cc as int == 0,
                cc > 0,
                len >= 0,
        ;
    }
    let mut histograms: Vec<Histogram> = Vec::new();
    let mut channel: usize = 0;
    while channel < channel_count
        invariant
            cc == channel_count > 0,
            pixels >= 0,
            pixels * cc == pic.data@.len(),
            channel <= channel_count,
            histograms@.len() == channel,
            forall|c: int|
                0 <= c < channel ==> (#[trigger] histograms@[c]).bins@.len() == BIN_COUNT
                    && histograms@[c]@ == bin_counts(
                    channel_samples(pic.data@, cc, c),
                    BIN_COUNT as nat,
                ) && total_count(histograms@[c]@) == pixels,
        decreases channel_count - channel,
    {
        let samples = take_every_nth_value(&pic.data, channel_count, channel);
        let histogram = channel_histogram(&samples);
        proof {
            lemma_channel_len(pixels as nat, cc, channel as nat);
        }
        histograms.push(histogram);
        channel += 1;
    }
    proof {
        let counts = picture_histograms(pic)->Ok_0;
        assert(histogram_views(histograms@) =~= counts);
    }
    Ok(histograms)
}

/// Counting channel by channel gives the histograms that the single pass over
/// the interleaved samples gives: both fail on the same pictures with the same
/// error, and where they succeed the histograms agree bin for bin in every
/// channel.
pub proof fn lemma_strategies_agree(
    pic: &PictureU8,
    single_pass: Result<Vec<Histogram>, EngineError>,
    per_channel: Result<Vec<Histogram>, EngineError>,
)
    requires
        is_histograms_of(pic, single_pass),
        is_histograms_of(pic, per_channel),
    ensures
        single_pass is Ok <==> per_channel is Ok,
        single_pass is Err ==> single_pass->Err_0 == per_channel->Err_0,
        single_pass is Ok ==> single_pass->Ok_0@.len() == per_channel->Ok_0@.len(),
        single_pass is Ok ==> forall|channel: int|
            0 <= channel < single_pass->Ok_0@.len() ==> (#[trigger] single_pass->Ok_0@[channel]).bins@
                == per_channel->Ok_0@[channel].bins@,
{
    if single_pass is Ok {
        let a = single_pass->Ok_0@;
        let b = per_channel->Ok_0@;
        assert(histogram_views(a).len() == histogram_views(b).len());
        assert forall|channel: int| 0 <= channel < a.len() implies (#[trigger] a[channel]).bins@
            == b[channel].bins@ by {
            assert(histogram_views(a)[channel] == histogram_views(b)[channel]);
            lemma_same_counts_same_bins(a[channel], b[channel]);
        }
    }
}

/// Histograms with the same counts have the same counters.
pub proof fn lemma_same_counts_same_bins(a: Histogram, b: Histogram)
    requires
        a@ == b@,
    ensures
        a.bins@ == b.bins@,
{
    assert(a.bins@.len() == a@.len());
    assert(b.bins@.len() == b@.len());
    assert forall|i: int| 0 <= i < a.bins@.len() implies a.bins@[i] == b.bins@[i] by {
        assert(a@[i] == a.bins@[i] as nat);
        assert(b@[i] == b.bins@[i] as nat);
    }
    assert(a.bins@ =~= b.bins@);
}

/// What one worker of the channel-wise strategy computes for its channel, a
/// gather followed by a count, is the histogram that the single pass gives
/// for that channel.
pub proof fn lemma_worker_matches_single_pass(
    pic: &PictureU8,
    single_pass: Vec<Histogram>,
    channel: int,
    gathered: Seq<u8>,
    worker: Histogram,
)
    requires
        is_histograms_of(pic, Ok(single_pass)),
        0 <= channel < pic.color_channel_count,
        gathered == every_nth(pic.data@, pic.color_channel_count as nat, channel as nat),
        worker@ == bin_counts(gathered, BIN_COUNT as nat),
    ensures
        channel < single_pass@.len(),
        worker.bins@ == single_pass@[channel].bins@,
{
    let counts = picture_histograms(pic)->Ok_0;
    assert(histogram_views(single_pass@).len() == counts.len());
    assert(histogram_views(single_pass@)[channel] == counts[channel]);
    lemma_same_counts_same_bins(worker, single_pass@[channel]);
}

/// Where chunk `i` of `parts` chunks of `len` items begins.
pub open spec fn chunk_start(len: nat, parts: nat, i: int) -> int
    recommends
        parts > 0,
{
    i * (len / parts)
}

/// Where chunk `i` of `parts` chunks of `len` items ends: every chunk has
/// `len / parts` items but the last, which also takes what is left over.
pub open spec fn chunk_end(len: nat, parts: nat, i: int) -> int
    recommends
        parts > 0,
{
    if i + 1 == parts {
        len as int
    } else {
        (i + 1) * (len / parts)
    }
}

/// The chunks of `len` items cut into `parts`, as pairs of a first index and an
/// index one past the last.
pub open spec fn chunks_of(len: nat, parts: nat) -> Seq<(usize, usize)>
    recommends
        parts > 0,
{
    Seq::new(
        parts,
        |i: int| (chunk_start(len, parts, i) as usize, chunk_end(len, parts, i) as usize),
    )
}

/// The chunks lie end to end and cover the indices from 0 to `len`, each once:
/// laid one after the other in chunk order they give back the whole.
pub open spec fn tiles(chunks: Seq<(usize, usize)>, len: nat) -> bool {
    &&& chunks.len() > 0
    &&& chunks.first().0 == 0
    &&& chunks.last().1 == len
    &&& forall|i: int| 0 <= i < chunks.len() ==> (#[trigger] chunks[i]).0 <= chunks[i].1
    &&& forall|i: int| 0 <= i < chunks.len() - 1 ==> (#[trigger] chunks[i]).1 == chunks[i + 1].0
}

/// The chunk bounds are ordered and stay within `len`.
pub proof fn lemma_chunk_bounds(len: nat, parts: nat, i: int)
    requires
        parts > 0,
        0 <= i < parts,
    ensures
        0 <= chunk_start(len, parts, i) <= chunk_end(len, parts, i) <= len,
        i + 1 < parts ==> chunk_end(len, parts, i) == chunk_start(len, parts, i + 1),
        i + 1 < parts ==> chunk_end(len, parts, i) - chunk_start(len, parts, i) == len / parts,
        chunk_end(len, parts, i) - chunk_start(len, parts, i) >= len / parts,
{
    let size = (len / parts) as int;
    assert(0 <= i * size <= (i + 1) * size <= parts * size <= len && (i + 1) * size == i * size
        + size) by (nonlinear_arith)
        requires
            size == len as int / parts as int,
            parts > 0,
            0 <= i < parts,
            len >= 0,
    ;
}

/// Cutting into chunks loses nothing and doubles nothing.
pub proof fn lemma_chunks_tile(len: nat, parts: nat)
    requires
        parts > 0,
        len <= usize::MAX,
    ensures
        tiles(chunks_of(len, parts), len),
{
    let chunks = chunks_of(len, parts);
    assert forall|i: int| 0 <= i < parts implies (#[trigger] chunks[i]).0 == chunk_start(
        len,
        parts,
        i,
    ) && chunks[i].1 == chunk_end(len, parts, i) && chunks[i].0 <= chunks[i].1 by {
        lemma_chunk_bounds(len, parts, i);
    }
    assert forall|i: int| 0 <= i < chunks.len() - 1 implies (#[trigger] chunks[i]).1 == chunks[i
        + 1].0 by {
        lemma_chunk_bounds(len, parts, i);
        assert(chunks[i + 1].0 == chunk_start(len, parts, i + 1));
    }
    lemma_chunk_bounds(len, parts, 0);
    lemma_chunk_bounds(len, parts, parts - 1);
    assert(chunk_start(len, parts, 0) == 0) by (nonlinear_arith)
        requires
            chunk_start(len, parts, 0) == 0 * (len / parts),
    ;
}

/// Cuts `len` items into `parts` contiguous chunks, in order.
pub fn split_into_chunks(len: usize, parts: usize) -> (chunks: Vec<(usize, usize)>)
    requires
        parts > 0,
    ensures
        chunks@ == chunks_of(len as nat, parts as nat),
        tiles(chunks@, len as nat),
{
    let size: usize = len / parts;
    let mut chunks: Vec<(usize, usize)> = Vec::new();
    let mut start: usize = 0;
    let mut i: usize = 0;
    proof {
        lemma_chunk_bounds(len as nat, parts as nat, 0);
        assert(chunk_start(len as nat, parts as nat, 0) == 0) by (nonlinear_arith)
            requires
                chunk_start(len as nat, parts as nat, 0) == 0 * (len as nat / parts as nat),
        ;
    }
    while i < parts
        invariant
            parts > 0,
            size == len as nat / parts as nat,
            i <= parts,
            chunks@.len() == i,
            i < parts ==> start == chunk_start(len as nat, parts as nat, i as int),
            forall|k: int|
                0 <= k < i ==> (#[trigger] chunks@[k]) == chunks_of(len as nat, parts as nat)[k],
        decreases parts - i,
    {
        proof {
            lemma_chunk_bounds(len as nat, parts as nat, i as int);
        }
        let end: usize = if i + 1 == parts {
            len
        } else {
            start + size
        };
        assert((start, end) == chunks_of(len as nat, parts as nat)[i as int]);
        chunks.push((start, end));
        start = end;
        i += 1;
    }
    proof {
        assert(chunks@ =~= chunks_of(len as nat, parts as nat));
        lemma_chunks_tile(len as nat, parts as nat);
    }
    chunks
}

/// Into how many chunks a conversion of `len` samples is cut: one, to be
/// converted on the spot, unless every worker gets `THREAD_THRESHOLD` samples
/// or more.
pub open spec fn conversion_parts(len: nat) -> nat {
    if len < THREAD_COUNT * THREAD_THRESHOLD {
        1
    } else {
        THREAD_COUNT as nat
    }
}

/// The chunks in which `len` samples are converted.  Each chunk is converted
/// on its own and the results are put together in chunk order.
pub fn conversion_chunks(len: usize) -> (chunks: Vec<(usize, usize)>)
    ensures
        chunks@ == chunks_of(len as nat, conversion_parts(len as nat)),
        tiles(chunks@, len as nat),
{
    if len < THREAD_COUNT * THREAD_THRESHOLD {
        split_into_chunks(len, 1)
    } else {
        split_into_chunks(len, THREAD_COUNT)
    }
}

} // verus!
