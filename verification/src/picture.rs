//! Pictures as interleaved 8-bit samples, and the layout rules that every
//! engine relies on before it indexes into the samples.

use vstd::prelude::*;
use crate::error::EngineError;

verus! {

/// A picture whose samples are bytes, pixel after pixel and, within a pixel,
/// channel after channel.
#[derive(Debug, Clone, PartialEq, Eq)]
pub struct PictureU8 {
    /// Height in pixels.
    pub lines: u32,
    /// Width in pixels.
    pub columns: u32,
    pub color_channel_count: usize,
    /// Intensities from 0 to 255, both included.
    pub data: Vec<u8>,
}

/// The samples are exactly those of `lines * columns` pixels of
/// `channel_count >= 1` channels each.
pub open spec fn layout_matches(
    lines: u32,
    columns: u32,
    channel_count: usize,
    sample_count: usize,
) -> bool {
    &&& channel_count >= 1
    &&& sample_count == lines * columns * channel_count
}

/// What `check_layout` answers.
pub open spec fn checked_layout(
    lines: u32,
    columns: u32,
    channel_count: usize,
    sample_count: usize,
) -> Result<(), EngineError> {
    if channel_count == 0 {
        Err(EngineError::InvalidChannelCount)
    } else if sample_count != lines * columns * channel_count {
        Err(EngineError::MalformedBuffer)
    } else {
        Ok(())
    }
}

/// Holds a sample count against the declared dimensions.
pub fn check_layout(lines: u32, columns: u32, channel_count: usize, sample_count: usize) -> (outcome:
    Result<(), EngineError>)
    ensures
        outcome == checked_layout(lines, columns, channel_count, sample_count),
        outcome is Ok <==> layout_matches(lines, columns, channel_count, sample_count),
{
    if channel_count == 0 {
        return Err(EngineError::InvalidChannelCount);
    }
    assert(lines * columns <= 0xffff_ffff * 0xffff_ffff) by (nonlinear_arith)
        requires
            0 <= lines <= 0xffff_ffff,
            0 <= columns <= 0xffff_ffff,
    ;
    let pixels: u64 = lines as u64 * columns as u64;
    assert(pixels * channel_count <= 0xffff_ffff_ffff_ffff * 0xffff_ffff_ffff_ffff)
        by (nonlinear_arith)
        requires
            0 <= pixels <= 0xffff_ffff_ffff_ffff,
            0 <= channel_count <= 0xffff_ffff_ffff_ffff,
    ;
    let expected: u128 = pixels as u128 * channel_count as u128;
    if sample_count as u128 != expected {
        return Err(EngineError::MalformedBuffer);
    }
    Ok(())
}

/// What `pixel_count` answers: the samples must divide into whole pixels.
pub open spec fn whole_pixels(channel_count: usize, sample_count: usize) -> Result<
    usize,
    EngineError,
> {
    if channel_count == 0 {
        Err(EngineError::InvalidChannelCount)
    } else if sample_count % channel_count != 0 {
        Err(EngineError::MalformedBuffer)
    } else {
        Ok((sample_count / channel_count) as usize)
    }
}

/// The number of pixels that `sample_count` interleaved samples of
/// `channel_count` channels make up.
pub fn pixel_count(channel_count: usize, sample_count: usize) -> (pixels: Result<
    usize,
    EngineError,
>)
    ensures
        pixels == whole_pixels(channel_count, sample_count),
        pixels matches Ok(n) ==> n * channel_count == sample_count,
{
    if channel_count == 0 {
        return Err(EngineError::InvalidChannelCount);
    }
    if sample_count % channel_count != 0 {
        return Err(EngineError::MalformedBuffer);
    }
    let pixels: usize = sample_count / channel_count;
    assert(pixels * channel_count == sample_count) by (nonlinear_arith)
        requires
            pixels == sample_count as int / channel_count as int,
            sample_count as int % channel_count as int == 0,
            channel_count > 0,
    ;
    Ok(pixels)
}

/// What `gray_value_count` answers.
pub open spec fn gray_values(channel_count: usize, sample_count: usize) -> Result<
    usize,
    EngineError,
> {
    match whole_pixels(channel_count, sample_count) {
        Err(e) => Err(e),
        Ok(pixels) => if channel_count < 3 || pixels == 0 {
            Err(EngineError::EmptyImage)
        } else {
            Ok(pixels)
        },
    }
}

/// The number of gray values that enter the average brightness of a picture:
/// one per pixel, taken from the first three channels of the pixel, the stride
/// from pixel to pixel being the full channel count.  A picture of fewer than
/// three channels, or without pixels, has none, and no average.
pub fn gray_value_count(channel_count: usize, sample_count: usize) -> (count: Result<
    usize,
    EngineError,
>)
    ensures
        count == gray_values(channel_count, sample_count),
        count matches Ok(n) ==> n > 0 && forall|pixel: int|
            0 <= pixel < n ==> 0 <= #[trigger] (pixel * channel_count) && pixel * channel_count + 2
                < sample_count,
{
    match pixel_count(channel_count, sample_count) {
        Err(e) => Err(e),
        Ok(pixels) => {
            if channel_count < 3 || pixels == 0 {
                Err(EngineError::EmptyImage)
            } else {
                assert forall|pixel: int| 0 <= pixel < pixels implies 0 <= #[trigger] (pixel
                    * channel_count) && pixel * channel_count + 2 < sample_count by {
                    assert(0 <= pixel * channel_count && (pixel + 1) * channel_count <= pixels
                        * channel_count && (pixel + 1) * channel_count == pixel * channel_count
                        + channel_count) by (nonlinear_arith)
                        requires
                            0 <= pixel < pixels,
                            channel_count >= 3,
                    ;
                }
                Ok(pixels)
            }
        },
    }
}

impl PictureU8 {
    /// The declared dimensions and the samples agree.
    pub open spec fn well_formed(&self) -> bool {
        layout_matches(self.lines, self.columns, self.color_channel_count, self.data@.len() as usize)
    }

    /// A picture of the given dimensions, refused unless the samples are exactly
    /// those of `lines * columns` pixels.
    pub fn new(lines: u32, columns: u32, color_channel_count: usize, data: Vec<u8>) -> (picture:
        Result<PictureU8, EngineError>)
        ensures
            match picture {
                Ok(p) => {
                    &&& p.lines == lines
                    &&& p.columns == columns
                    &&& p.color_channel_count == color_channel_count
                    &&& p.data == data
                    &&& p.well_formed()
                },
                Err(e) => Err::<(), EngineError>(e) == checked_layout(
                    lines,
                    columns,
                    color_channel_count,
                    data@.len() as usize,
                ),
            },
            picture is Ok <==> layout_matches(
                lines,
                columns,
                color_channel_count,
                data@.len() as usize,
            ),
    {
        match check_layout(lines, columns, color_channel_count, data.len()) {
            Ok(()) => Ok(PictureU8 { lines, columns, color_channel_count, data }),
            Err(e) => Err(e),
        }
    }

    /// Holds the samples against the declared dimensions.
    pub fn validate(&self) -> (outcome: Result<(), EngineError>)
        ensures
            outcome == checked_layout(
                self.lines,
                self.columns,
                self.color_channel_count,
                self.data@.len() as usize,
            ),
            outcome is Ok <==> self.well_formed(),
    {
        check_layout(self.lines, self.columns, self.color_channel_count, self.data.len())
    }

    /// The number of pixels that the samples make up.
    pub fn pixel_count(&self) -> (pixels: Result<usize, EngineError>)
        ensures
            pixels == whole_pixels(self.color_channel_count, self.data@.len() as usize),
    {
        pixel_count(self.color_channel_count, self.data.len())
    }

    /// A copy of the picture, sample for sample.
    pub fn to_picture_u8(&self) -> (copy: PictureU8)
        ensures
            copy.lines == self.lines,
            copy.columns == self.columns,
            copy.color_channel_count == self.color_channel_count,
            copy.data@ == self.data@,
    {
        PictureU8 {
            lines: self.lines,
            columns: self.columns,
            color_channel_count: self.color_channel_count,
            data: self.data.clone(),
        }
    }
}

} // verus!
