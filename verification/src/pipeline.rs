use vstd::prelude::*;
use crate::config::Quality;
use crate::decoder::{
    decode,
    decoded_well,
    decodes_to,
    format_of,
    jpeg_image,
    too_short_message,
    ImageFormat,
    unknown_magic_message,
};
use crate::error::AnalyzerError;
use crate::sampler::{sample_pixels, sampled_pixels};
use crate::types::RgbColor;

verus! {

/// `sampled` is what `sample_pixels` takes, at the given quality, of the
/// image that `decode` makes of the bytes, of the given size and warning.
pub open spec fn sample_of_decode(
    bytes: Seq<u8>,
    sampled: Seq<RgbColor>,
    width: u32,
    height: u32,
    warning: Option<String>,
    quality: Quality,
) -> bool {
    exists|rgba: Seq<u8>|
        decodes_to(bytes, rgba, width, height, warning) && decoded_well(
            rgba,
            width as int,
            height as int,
            warning,
        ) && #[trigger] sampled_pixels(rgba, width as int, height as int, quality) == sampled
}

/// The image that `decode` makes of the bytes leaves nothing to sample at
/// the given quality.
pub open spec fn decode_leaves_no_sample(bytes: Seq<u8>, quality: Quality) -> bool {
    exists|rgba: Seq<u8>, width: u32, height: u32, warning: Option<String>|
        #[trigger] decodes_to(bytes, rgba, width, height, warning) && sampled_pixels(
            rgba,
            width as int,
            height as int,
            quality,
        ).len() == 0
}

/// Refuses an empty buffer with `EmptyBuffer`.
pub fn validate_buffer(bytes: &[u8]) -> (r: Result<(), AnalyzerError>)
    ensures
        bytes@.len() == 0 <==> r matches Err(AnalyzerError::EmptyBuffer),
        r is Ok <==> bytes@.len() > 0,
{
    if bytes.len() == 0 {
        return Err(AnalyzerError::EmptyBuffer);
    }
    Ok(())
}

/// The front of the analysis: checks the buffer, decodes the image and
/// samples its colours at the given quality. Returns the sampled colours,
/// the image's width and height, and the decoder's warning.
///
/// An empty buffer gives `EmptyBuffer`; an unknown or too short signature
/// `UnsupportedFormat`; an image the decoder refuses `DecodingFailed`; an
/// image with no pixels, or none opaque enough to sample,
/// `InsufficientPixels`. The sample is that of the image `decode` makes of
/// the bytes (`decodes_to`), and a JPEG that `zune-jpeg` decodes is never
/// refused as undecodable.
pub fn decode_and_sample(bytes: &[u8], quality: Quality) -> (r: Result<
    (Vec<RgbColor>, u32, u32, Option<String>),
    AnalyzerError,
>)
    ensures
        bytes@.len() == 0 ==> r matches Err(AnalyzerError::EmptyBuffer),
        0 < bytes@.len() < 4 ==> (r matches Err(AnalyzerError::UnsupportedFormat(m)) && m@
            == too_short_message()),
        bytes@.len() >= 4 && format_of(bytes@) is None ==> (r matches Err(
            AnalyzerError::UnsupportedFormat(m),
        ) && m@ == unknown_magic_message(bytes@)),
        format_of(bytes@) is Some ==> (r is Ok || r matches Err(AnalyzerError::DecodingFailed(_))
            || r matches Err(AnalyzerError::InsufficientPixels)),
        r matches Ok((sampled, w, h, warning)) ==> sampled@.len() > 0 && sample_of_decode(
            bytes@,
            sampled@,
            w,
            h,
            warning,
            quality,
        ),
        format_of(bytes@) == Some(ImageFormat::Jpeg) && jpeg_image(bytes@) is Some ==> (r is Ok
            || r matches Err(AnalyzerError::InsufficientPixels)),
        r matches Err(AnalyzerError::InsufficientPixels) ==> decode_leaves_no_sample(
            bytes@,
            quality,
        ),
{
    validate_buffer(bytes)?;
    let (rgba, width, height, warning) = decode(bytes)?;
    if width == 0 || height == 0 {
        return Err(AnalyzerError::InsufficientPixels);
    }
    let sampled = sample_pixels(rgba.as_slice(), width, height, quality);
    if sampled.len() == 0 {
        assert(decodes_to(bytes@, rgba@, width, height, warning));
        return Err(AnalyzerError::InsufficientPixels);
    }
    assert(sample_of_decode(bytes@, sampled@, width, height, warning, quality)) by {
        assert(decoded_well(rgba@, width as int, height as int, warning));
        assert(sampled_pixels(rgba@, width as int, height as int, quality) == sampled@);
    }
    Ok((sampled, width, height, warning))
}

} // verus!
