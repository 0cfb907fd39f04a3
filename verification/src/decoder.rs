use vstd::prelude::*;
use vstd::arithmetic::div_mod::{
    lemma_div_is_ordered,
    lemma_fundamental_div_mod,
    lemma_fundamental_div_mod_converse,
};
use vstd::slice::slice_to_vec;
use vstd::slice::slice_subrange;
use crate::error::AnalyzerError;
use crate::codecs::{
    jpeg_decode,
    jpeg_decoder,
    jpeg_dimensions,
    jpeg_error_text,
    jpeg_header_size,
    jpeg_samples_of,
    png_decoder,
    png_error_text,
    png_first_frame,
    png_header_color_type,
    png_next_frame,
    png_output_buffer_size,
    png_read_info,
    png_set_transformations,
    png_source_color_type,
    webp_alpha_of,
    webp_decoder,
    webp_dimensions,
    webp_error_text,
    webp_has_alpha,
    webp_image_of,
    webp_read_image,
    webp_size_of,
};
use crate::types::{decimal, hex_byte, hex_digit_char, push_char, push_decimal};

verus! {

/// One grey byte per pixel, made RGBA: the grey in all three colour
/// channels, alpha 255.
pub open spec fn grey_to_rgba(raw: Seq<u8>) -> Seq<u8> {
    Seq::new(
        (raw.len() * 4) as nat,
        |i: int|
            if i % 4 == 3 {
                255u8
            } else {
                raw[i / 4]
            },
    )
}

/// Grey and alpha bytes per pixel, made RGBA: the grey in all three colour
/// channels, the alpha kept. A trailing odd byte is dropped.
pub open spec fn grey_alpha_to_rgba(raw: Seq<u8>) -> Seq<u8> {
    Seq::new(
        ((raw.len() / 2) * 4) as nat,
        |i: int|
            if i % 4 == 3 {
                raw[(i / 4) * 2 + 1]
            } else {
                raw[(i / 4) * 2]
            },
    )
}

/// RGB bytes per pixel, made RGBA with alpha 255. Trailing bytes short of a
/// pixel are dropped.
pub open spec fn rgb_to_rgba(raw: Seq<u8>) -> Seq<u8> {
    Seq::new(
        ((raw.len() / 3) * 4) as nat,
        |i: int|
            if i % 4 == 3 {
                255u8
            } else {
                raw[(i / 4) * 3 + i % 4]
            },
    )
}

proof fn lemma_rgba_index(p: int, k: int)
    requires
        0 <= p,
        0 <= k < 4,
    ensures
        (p * 4 + k) / 4 == p,
        (p * 4 + k) % 4 == k,
{
    lemma_fundamental_div_mod_converse(p * 4 + k, 4, p, k);
}

/// Widens grey pixels to RGBA.
fn expand_grey(raw: &[u8]) -> (out: Vec<u8>)
    ensures
        out@ == grey_to_rgba(raw@),
{
    let n = raw.len();
    let ghost target = grey_to_rgba(raw@);
    let mut out: Vec<u8> = Vec::new();
    let mut p: usize = 0;
    while p < n
        invariant
            p <= n,
            n == raw@.len(),
            target == grey_to_rgba(raw@),
            out@.len() == p * 4,
            forall|i: int| 0 <= i < out@.len() ==> out@[i] == target[i],
        decreases n - p,
    {
        let g = raw[p];
        let ghost base = out@.len() as int;
        proof {
            assert forall|k: int| 0 <= k < 4 implies #[trigger] target[base + k] == (if k == 3 {
                255u8
            } else {
                g
            }) by {
                lemma_rgba_index(p as int, k);
            }
        }
        out.push(g);
        out.push(g);
        out.push(g);
        out.push(255);
        proof {
            assert(target[base + 0] == g && target[base + 1] == g && target[base + 2] == g
                && target[base + 3] == 255);
            assert forall|i: int| 0 <= i < out@.len() implies out@[i] == target[i] by {
                if i >= base {
                    assert(i == base + (i - base));
                }
            }
        }
        p += 1;
    }
    assert(out@ =~= target);
    out
}

/// Widens grey-and-alpha pixels to RGBA.
fn expand_grey_alpha(raw: &[u8]) -> (out: Vec<u8>)
    ensures
        out@ == grey_alpha_to_rgba(raw@),
{
    let len = raw.len();
    let n = len / 2;
    let ghost target = grey_alpha_to_rgba(raw@);
    let mut out: Vec<u8> = Vec::new();
    let mut p: usize = 0;
    while p < n
        invariant
            p <= n,
            len == raw@.len(),
            n == len / 2,
            target == grey_alpha_to_rgba(raw@),
            out@.len() == p * 4,
            forall|i: int| 0 <= i < out@.len() ==> out@[i] == target[i],
        decreases n - p,
    {
        let g = raw[2 * p];
        let a = raw[2 * p + 1];
        let ghost base = out@.len() as int;
        proof {
            assert forall|k: int| 0 <= k < 4 implies #[trigger] target[base + k] == (if k == 3 {
                a
            } else {
                g
            }) by {
                lemma_rgba_index(p as int, k);
            }
        }
        out.push(g);
        out.push(g);
        out.push(g);
        out.push(a);
        proof {
            assert(target[base + 0] == g && target[base + 1] == g && target[base + 2] == g
                && target[base + 3] == a);
            assert forall|i: int| 0 <= i < out@.len() implies out@[i] == target[i] by {
                if i >= base {
                    assert(i == base + (i - base));
                }
            }
        }
        p += 1;
    }
    assert(out@ =~= target);
    out
}

/// Widens RGB pixels to RGBA.
fn expand_rgb(raw: &[u8]) -> (out: Vec<u8>)
    ensures
        out@ == rgb_to_rgba(raw@),
{
    let len = raw.len();
    let n = len / 3;
    let ghost target = rgb_to_rgba(raw@);
    let mut out: Vec<u8> = Vec::new();
    let mut p: usize = 0;
    while p < n
        invariant
            p <= n,
            len == raw@.len(),
            n == len / 3,
            target == rgb_to_rgba(raw@),
            out@.len() == p * 4,
            forall|i: int| 0 <= i < out@.len() ==> out@[i] == target[i],
        decreases n - p,
    {
        let r = raw[3 * p];
        let g = raw[3 * p + 1];
        let b = raw[3 * p + 2];
        let ghost base = out@.len() as int;
        proof {
            assert forall|k: int| 0 <= k < 4 implies #[trigger] target[base + k] == (if k == 0 {
                r
            } else if k == 1 {
                g
            } else if k == 2 {
                b
            } else {
                255u8
            }) by {
                lemma_rgba_index(p as int, k);
            }
        }
        out.push(r);
        out.push(g);
        out.push(b);
        out.push(255);
        proof {
            assert(target[base + 0] == r && target[base + 1] == g && target[base + 2] == b
                && target[base + 3] == 255);
            assert forall|i: int| 0 <= i < out@.len() implies out@[i] == target[i] by {
                if i >= base {
                    assert(i == base + (i - base));
                }
            }
        }
        p += 1;
    }
    assert(out@ =~= target);
    out
}


/// The colour type of decoded PNG samples.
#[derive(Debug, Clone, Copy, PartialEq, Eq, Structural)]
pub enum ColorType {
    /// One grey sample per pixel.
    Grayscale,
    /// Red, green and blue samples.
    Rgb,
    /// One palette index per pixel.
    Indexed,
    /// A grey sample, then an alpha sample.
    GrayscaleAlpha,
    /// Red, green, blue and alpha samples.
    Rgba,
}

/// The RGBA form of decoded PNG samples of a colour type; none for palette
/// indices, which the decoder is asked to expand before they come here.
pub open spec fn png_rgba(raw: Seq<u8>, color_type: ColorType) -> Option<Seq<u8>> {
    match color_type {
        ColorType::Rgba => Some(raw),
        ColorType::Rgb => Some(rgb_to_rgba(raw)),
        ColorType::Grayscale => Some(grey_to_rgba(raw)),
        ColorType::GrayscaleAlpha => Some(grey_alpha_to_rgba(raw)),
        ColorType::Indexed => None,
    }
}

/// Turns decoded PNG samples into RGBA bytes, four a pixel. Palette indices
/// are refused with `DecodingFailed`.
pub fn expand_to_rgba(raw: &[u8], color_type: ColorType) -> (r: Result<Vec<u8>, AnalyzerError>)
    ensures
        match png_rgba(raw@, color_type) {
            Some(rgba) => r matches Ok(out) && out@ == rgba,
            None => r matches Err(AnalyzerError::DecodingFailed(m))
                && m@ == "Indexed PNG expansion failed unexpectedly"@,
        },
{
    match color_type {
        ColorType::Rgba => Ok(slice_to_vec(raw)),
        ColorType::Rgb => Ok(expand_rgb(raw)),
        ColorType::Grayscale => Ok(expand_grey(raw)),
        ColorType::GrayscaleAlpha => Ok(expand_grey_alpha(raw)),
        ColorType::Indexed => Err(
            AnalyzerError::DecodingFailed(
                String::from_str("Indexed PNG expansion failed unexpectedly"),
            ),
        ),
    }
}

/// The text that a greyscale image is flagged with.
pub open spec fn greyscale_warning() -> Seq<char> {
    "Image is greyscale; colour palette will be achromatic."@
}

/// The RGBA form of the samples a JPEG decoder gave for a `width` x
/// `height` image, by the number of bytes each pixel got: one (grey),
/// three (RGB) or four (kept as they are).
pub open spec fn jpeg_rgba(pixels: Seq<u8>, width: int, height: int) -> Option<Seq<u8>> {
    let count = width * height;
    if count == 0 {
        None
    } else {
        let per_pixel = pixels.len() as int / count;
        if per_pixel == 1 {
            Some(grey_to_rgba(pixels))
        } else if per_pixel == 3 {
            Some(rgb_to_rgba(pixels))
        } else if per_pixel == 4 {
            Some(pixels)
        } else {
            None
        }
    }
}

/// Turns the samples a JPEG decoder gave for a `width` x `height` image into
/// RGBA bytes. A one-byte-a-pixel image is flagged as greyscale. No pixels
/// (a zero side) and a byte count of other than one, three or four a pixel
/// are refused with `DecodingFailed`.
pub fn expand_jpeg_pixels(pixels: Vec<u8>, width: u16, height: u16) -> (r: Result<
    (Vec<u8>, u32, u32, Option<String>),
    AnalyzerError,
>)
    ensures
        (width == 0 || height == 0) ==> (r matches Err(AnalyzerError::DecodingFailed(m)) && m@
            == "JPEG has zero dimensions"@),
        width > 0 && height > 0 && jpeg_rgba(pixels@, width as int, height as int) is None ==> (
        r matches Err(AnalyzerError::DecodingFailed(m)) && m@ == "Unexpected JPEG channel count: "@
            + decimal((pixels@.len() as int / (width as int * height as int)) as nat)),
        match jpeg_rgba(pixels@, width as int, height as int) {
            Some(rgba) => r matches Ok((out, w, h, warning)) && out@ == rgba && w == width && h
                == height && (if pixels@.len() as int / (width as int * height as int) == 1 {
                warning matches Some(t) && t@ == greyscale_warning()
            } else {
                warning is None
            }),
            None => r is Err,
        },
        r matches Ok((out, w, h, _)) ==> 4 * w * h <= out@.len(),
{
    assert((width as int) * (height as int) <= 65535 * 65535 && ((width as int) * (height as int)
        == 0 <==> (width == 0 || height == 0))) by (nonlinear_arith)
        requires
            width <= 65535,
            height <= 65535,
    ;
    let pixel_count = (width as usize) * (height as usize);
    if pixel_count == 0 {
        return Err(AnalyzerError::DecodingFailed(String::from_str("JPEG has zero dimensions")));
    }
    let bytes_per_pixel = pixels.len() / pixel_count;
    proof {
        lemma_fundamental_div_mod(pixels@.len() as int, pixel_count as int);
        assert(pixel_count * bytes_per_pixel <= pixels@.len()) by (nonlinear_arith)
            requires
                pixels@.len() == pixel_count * (pixels@.len() as int / pixel_count as int) + (
                pixels@.len() as int % pixel_count as int),
                pixels@.len() as int % pixel_count as int >= 0,
                bytes_per_pixel == pixels@.len() as int / pixel_count as int,
        ;
        assert(pixel_count as int == (width as int) * (height as int));
    }
    let ghost count = pixel_count as int;
    let ghost len = pixels@.len() as int;
    proof {
        assert(4 * (width as u32) * (height as u32) == 4 * count) by (nonlinear_arith)
            requires
                count == (width as int) * (height as int),
        ;
    }
    let rgba = if bytes_per_pixel == 1 {
        let out = expand_grey(pixels.as_slice());
        assert(count <= len) by (nonlinear_arith)
            requires
                pixel_count * bytes_per_pixel <= len,
                bytes_per_pixel == 1,
                count == pixel_count,
        ;
        assert(4 * count <= out@.len());
        out
    } else if bytes_per_pixel == 3 {
        let out = expand_rgb(pixels.as_slice());
        proof {
            assert(count * 3 <= len) by (nonlinear_arith)
                requires
                    pixel_count * bytes_per_pixel <= len,
                    bytes_per_pixel == 3,
                    count == pixel_count,
            ;
            lemma_div_is_ordered(count * 3, len, 3);
            assert(count * 3 / 3 == count);
        }
        assert(4 * count <= out@.len());
        out
    } else if bytes_per_pixel == 4 {
        assert(4 * count <= len) by (nonlinear_arith)
            requires
                pixel_count * bytes_per_pixel <= len,
                bytes_per_pixel == 4,
                count == pixel_count,
        ;
        pixels
    } else {
        let mut message = String::from_str("Unexpected JPEG channel count: ");
        push_decimal(&mut message, bytes_per_pixel);
        return Err(AnalyzerError::DecodingFailed(message));
    };
    let warning = if bytes_per_pixel == 1 {
        Some(String::from_str("Image is greyscale; colour palette will be achromatic."))
    } else {
        None
    };
    Ok((rgba, width as u32, height as u32, warning))
}

/// What `png::Reader::next_frame` reports of the frame it wrote: its size,
/// its colour type, and the bytes of each of its lines.
pub struct PngFrame {
    /// Pixels a line.
    pub width: u32,
    /// Lines.
    pub height: u32,
    /// The colour type of the samples written.
    pub color_type: ColorType,
    /// Bytes a line.
    pub line_size: usize,
}

/// The image formats that are told apart by their first bytes.
#[derive(Debug, Clone, Copy, PartialEq, Eq, Structural)]
pub enum ImageFormat {
    /// `89 50 4E 47`.
    Png,
    /// `FF D8`.
    Jpeg,
    /// `RIFF`, four bytes, then `WEBP`.
    WebP,
}

/// The format that the first bytes of a buffer announce: PNG, then JPEG,
/// then WebP (which needs twelve bytes); none in a buffer under four bytes.
pub open spec fn format_of(b: Seq<u8>) -> Option<ImageFormat> {
    if b.len() < 4 {
        None
    } else if b[0] == 0x89 && b[1] == 0x50 && b[2] == 0x4E && b[3] == 0x47 {
        Some(ImageFormat::Png)
    } else if b[0] == 0xFF && b[1] == 0xD8 {
        Some(ImageFormat::Jpeg)
    } else if b.len() >= 12 && b[0] == 0x52 && b[1] == 0x49 && b[2] == 0x46 && b[3] == 0x46
        && b[8] == 0x57 && b[9] == 0x45 && b[10] == 0x42 && b[11] == 0x50 {
        Some(ImageFormat::WebP)
    } else {
        None
    }
}

/// Tells the image format from the first bytes of a buffer.
pub fn detect_format(bytes: &[u8]) -> (f: Option<ImageFormat>)
    ensures
        f == format_of(bytes@),
{
    let n = bytes.len();
    if n < 4 {
        None
    } else if bytes[0] == 0x89 && bytes[1] == 0x50 && bytes[2] == 0x4E && bytes[3] == 0x47 {
        Some(ImageFormat::Png)
    } else if bytes[0] == 0xFF && bytes[1] == 0xD8 {
        Some(ImageFormat::Jpeg)
    } else if n >= 12 && bytes[0] == 0x52 && bytes[1] == 0x49 && bytes[2] == 0x46 && bytes[3]
        == 0x46 && bytes[8] == 0x57 && bytes[9] == 0x45 && bytes[10] == 0x42 && bytes[11] == 0x50 {
        Some(ImageFormat::WebP)
    } else {
        None
    }
}

/// The text that an unknown format is refused with: the first four bytes in
/// upper-case hexadecimal.
pub open spec fn unknown_magic_message(b: Seq<u8>) -> Seq<char> {
    "Unknown magic bytes: "@ + hex_byte(b[0]) + seq![' '] + hex_byte(b[1]) + seq![' '] + hex_byte(
        b[2],
    ) + seq![' '] + hex_byte(b[3])
}

fn push_hex_byte(s: &mut String, b: u8)
    ensures
        final(s)@ == old(s)@ + hex_byte(b),
{
    push_char(s, hex_digit_char(b / 16));
    push_char(s, hex_digit_char(b % 16));
    assert(s@ =~= old(s)@ + hex_byte(b));
}

fn unknown_magic(bytes: &[u8]) -> (s: String)
    requires
        bytes@.len() >= 4,
    ensures
        s@ == unknown_magic_message(bytes@),
{
    let mut s = String::from_str("Unknown magic bytes: ");
    push_hex_byte(&mut s, bytes[0]);
    push_char(&mut s, ' ');
    push_hex_byte(&mut s, bytes[1]);
    push_char(&mut s, ' ');
    push_hex_byte(&mut s, bytes[2]);
    push_char(&mut s, ' ');
    push_hex_byte(&mut s, bytes[3]);
    assert(s@ =~= unknown_magic_message(bytes@));
    s
}

/// PNG output transformations: `STRIP_16` (0x1) cuts 16-bit samples to 8
/// bits, `EXPAND` (0x10) widens palettes, low bit depths and tRNS
/// transparency to whole 8-bit channels.
pub const PNG_EIGHT_BIT_CHANNELS: u32 = 0x11;

/// What a successful PNG, JPEG or WebP decode hands on.
pub open spec fn decoded_well(rgba: Seq<u8>, width: int, height: int, warning: Option<String>) -> bool {
    &&& 4 * width * height <= rgba.len()
    &&& (warning matches Some(t) ==> t@ == greyscale_warning())
}

/// Whether a PNG colour type is grey, with or without alpha.
pub open spec fn is_grey_type(c: ColorType) -> bool {
    c == ColorType::Grayscale || c == ColorType::GrayscaleAlpha
}

/// Turns a decoded PNG frame into RGBA bytes: takes the frame's lines from
/// the front of the buffer and widens them by the frame's colour type. A
/// frame whose header announced a grey colour type (`source`) is flagged as
/// greyscale.
///
/// Lines that do not fit in the buffer, palette indices, and fewer RGBA
/// bytes than the frame's size asks for are refused with `DecodingFailed`.
pub fn png_frame_rgba(buf: &[u8], frame: &PngFrame, source: ColorType) -> (r: Result<
    (Vec<u8>, u32, u32, Option<String>),
    AnalyzerError,
>)
    ensures
        frame.line_size * frame.height > buf@.len() ==> (r matches Err(
            AnalyzerError::DecodingFailed(m),
        ) && m@ == "PNG frame exceeds its buffer"@),
        frame.line_size * frame.height <= buf@.len() ==> match png_rgba(
            buf@.take(frame.line_size * frame.height),
            frame.color_type,
        ) {
            None => r matches Err(AnalyzerError::DecodingFailed(m)) && m@
                == "Indexed PNG expansion failed unexpectedly"@,
            Some(rgba) => if rgba.len() < 4 * frame.width * frame.height {
                r matches Err(AnalyzerError::DecodingFailed(m)) && m@
                    == "PNG frame is smaller than its dimensions"@
            } else {
                r matches Ok((out, w, h, warning)) && out@ == rgba && w == frame.width && h
                    == frame.height && (if is_grey_type(source) {
                    warning matches Some(t) && t@ == greyscale_warning()
                } else {
                    warning is None
                })
            },
        },
        r matches Ok((_, _, _, warning)) ==> (warning is Some <==> (source == ColorType::Grayscale
            || source == ColorType::GrayscaleAlpha)),
{
    let available = buf.len();
    let fits = match frame.line_size.checked_mul(frame.height as usize) {
        Some(n) => if n <= available {
            Some(n)
        } else {
            None
        },
        None => None,
    };
    let frame_len = match fits {
        Some(n) => n,
        None => {
            return Err(
                AnalyzerError::DecodingFailed(String::from_str("PNG frame exceeds its buffer")),
            )
        },
    };
    assert(frame_len == frame.line_size * frame.height);
    let raw = slice_subrange(buf, 0, frame_len);
    assert(raw@ == buf@.take(frame_len as int));
    let rgba = expand_to_rgba(raw, frame.color_type)?;
    assert(4 * (frame.width as int) * (frame.height as int) <= 4 * 4294967295 * 4294967295)
        by (nonlinear_arith)
        requires
            frame.width <= 4294967295,
            frame.height <= 4294967295,
    ;
    if (rgba.len() as u128) < 4 * (frame.width as u128) * (frame.height as u128) {
        return Err(
            AnalyzerError::DecodingFailed(
                String::from_str("PNG frame is smaller than its dimensions"),
            ),
        );
    }
    let warning = if source == ColorType::Grayscale || source == ColorType::GrayscaleAlpha {
        Some(String::from_str("Image is greyscale; colour palette will be achromatic."))
    } else {
        None
    };
    Ok((rgba, frame.width, frame.height, warning))
}

/// The image the `png` crate makes of a PNG's bytes, widened to RGBA: the
/// RGBA bytes, the width and height, and whether the header announced grey.
/// None where the crate refuses the bytes, the frame holds palette indices,
/// or it is smaller than its size.
pub open spec fn png_image(bytes: Seq<u8>) -> Option<(Seq<u8>, u32, u32, bool)> {
    match png_first_frame(bytes, PNG_EIGHT_BIT_CHANNELS) {
        Some((samples, frame)) => match png_rgba(samples, frame.color_type) {
            Some(rgba) => if rgba.len() >= 4 * frame.width * frame.height {
                Some(
                    (
                        rgba,
                        frame.width,
                        frame.height,
                        is_grey_type(png_header_color_type(bytes)),
                    ),
                )
            } else {
                None
            },
            None => None,
        },
        None => None,
    }
}

fn decode_png(bytes: &[u8]) -> (r: Result<(Vec<u8>, u32, u32, Option<String>), AnalyzerError>)
    ensures
        r matches Ok((rgba, w, h, warning)) ==> decoded_well(rgba@, w as int, h as int, warning),
        r matches Ok((_, w, h, _)) ==> w >= 1 && h >= 1,
        r matches Ok((rgba, w, h, warning)) ==> png_image(bytes@) == Some(
            (rgba@, w, h, warning is Some),
        ),
        r matches Err(e) ==> e is DecodingFailed,
{
    let mut decoder = png_decoder(slice_to_vec(bytes));
    png_set_transformations(&mut decoder, PNG_EIGHT_BIT_CHANNELS);
    let reader = match png_read_info(decoder) {
        Ok(reader) => reader,
        Err(e) => return Err(AnalyzerError::DecodingFailed(png_error_text(&e))),
    };
    let source = png_source_color_type(&reader);
    let buf_size = match png_output_buffer_size(&reader) {
        Some(n) => n,
        None => {
            return Err(
                AnalyzerError::DecodingFailed(
                    String::from_str("PNG output buffer size unavailable"),
                ),
            )
        },
    };
    let mut buf = vec![0u8; buf_size];
    let frame = match png_next_frame(reader, &mut buf) {
        Ok(frame) => frame,
        Err(e) => return Err(AnalyzerError::DecodingFailed(png_error_text(&e))),
    };
    png_frame_rgba(buf.as_slice(), &frame, source)
}

/// The image `zune-jpeg` makes of a JPEG's bytes, widened to RGBA: the RGBA
/// bytes, the header's width and height, and whether the samples came one
/// byte a pixel (grey). None where the crate refuses the bytes, or where
/// `expand_jpeg_pixels` refuses its samples.
pub open spec fn jpeg_image(bytes: Seq<u8>) -> Option<(Seq<u8>, u32, u32, bool)> {
    match jpeg_samples_of(bytes) {
        Some(samples) => {
            let size = jpeg_header_size(bytes);
            match jpeg_rgba(samples, size.0 as int, size.1 as int) {
                Some(rgba) => Some(
                    (
                        rgba,
                        size.0 as u32,
                        size.1 as u32,
                        samples.len() as int / (size.0 as int * size.1 as int) == 1,
                    ),
                ),
                None => None,
            }
        },
        None => None,
    }
}

fn decode_jpeg(bytes: &[u8]) -> (r: Result<(Vec<u8>, u32, u32, Option<String>), AnalyzerError>)
    ensures
        r matches Ok((rgba, w, h, warning)) ==> decoded_well(rgba@, w as int, h as int, warning),
        r matches Ok((rgba, w, h, warning)) ==> 1 <= w <= 65535 && 1 <= h <= 65535 && jpeg_image(
            bytes@,
        ) == Some((rgba@, w, h, warning is Some)),
        jpeg_image(bytes@) is Some ==> r is Ok,
        r matches Err(e) ==> e is DecodingFailed,
{
    let mut decoder = jpeg_decoder(slice_to_vec(bytes));
    let pixels = match jpeg_decode(&mut decoder) {
        Ok(pixels) => pixels,
        Err(e) => return Err(AnalyzerError::DecodingFailed(jpeg_error_text(&e))),
    };
    let (width, height) = match jpeg_dimensions(&decoder) {
        Some(dimensions) => dimensions,
        None => {
            return Err(
                AnalyzerError::DecodingFailed(String::from_str("JPEG missing image info")),
            )
        },
    };
    expand_jpeg_pixels(pixels, width, height)
}

/// The RGBA form of the samples a WebP decoder wrote: kept as they are when
/// pixels carry alpha, widened from RGB otherwise.
pub open spec fn webp_rgba(samples: Seq<u8>, has_alpha: bool) -> Seq<u8> {
    if has_alpha {
        samples
    } else {
        rgb_to_rgba(samples)
    }
}

/// Turns the samples a WebP decoder wrote into RGBA bytes, four a pixel.
pub fn expand_webp_pixels(samples: Vec<u8>, has_alpha: bool) -> (out: Vec<u8>)
    ensures
        out@ == webp_rgba(samples@, has_alpha),
{
    if has_alpha {
        samples
    } else {
        expand_rgb(samples.as_slice())
    }
}

/// The image `image-webp` makes of a WebP's bytes, widened to RGBA: the RGBA
/// bytes, the width and the height. None where the crate refuses the bytes.
pub open spec fn webp_image(bytes: Seq<u8>) -> Option<(Seq<u8>, u32, u32)> {
    match webp_image_of(bytes) {
        Some(samples) => Some(
            (
                webp_rgba(samples, webp_alpha_of(bytes)),
                webp_size_of(bytes).0,
                webp_size_of(bytes).1,
            ),
        ),
        None => None,
    }
}

fn decode_webp(bytes: &[u8]) -> (r: Result<(Vec<u8>, u32, u32, Option<String>), AnalyzerError>)
    ensures
        r matches Ok((rgba, w, h, warning)) ==> warning is None && rgba@.len() == 4 * w * h,
        r matches Ok((_, w, h, _)) ==> w >= 1 && h >= 1,
        r matches Ok((rgba, w, h, _)) ==> webp_image(bytes@) == Some((rgba@, w, h)),
        r matches Err(e) ==> e is DecodingFailed,
{
    let decoder = match webp_decoder(slice_to_vec(bytes)) {
        Ok(decoder) => decoder,
        Err(e) => return Err(AnalyzerError::DecodingFailed(webp_error_text(&e))),
    };
    let (width, height) = webp_dimensions(&decoder);
    let has_alpha = webp_has_alpha(&decoder);
    let bytes_per_pixel: usize = if has_alpha {
        4
    } else {
        3
    };
    let size = match (width as usize).checked_mul(height as usize) {
        Some(count) => count.checked_mul(bytes_per_pixel),
        None => None,
    };
    let size = match size {
        Some(size) => size,
        None => {
            return Err(AnalyzerError::DecodingFailed(String::from_str("WebP image too large")))
        },
    };
    let mut buf = vec![0u8; size];
    proof {
        assert(buf@.len() == (width as int) * (height as int) * (if has_alpha {
            4int
        } else {
            3int
        }));
    }
    match webp_read_image(decoder, &mut buf) {
        Ok(()) => {},
        Err(e) => return Err(AnalyzerError::DecodingFailed(webp_error_text(&e))),
    }
    let ghost samples = buf@;
    let ghost count = (width as int) * (height as int);
    let rgba = expand_webp_pixels(buf, has_alpha);
    proof {
        assert(width >= 1 && height >= 1) by (nonlinear_arith)
            requires
                samples.len() > 0,
                samples.len() == count * bytes_per_pixel,
                count == (width as int) * (height as int),
                bytes_per_pixel <= 4,
        ;
        if has_alpha {
            assert(samples.len() == 4 * width * height) by (nonlinear_arith)
                requires
                    samples.len() == count * 4,
                    count == (width as int) * (height as int),
            ;
        } else {
            assert(count * 3 / 3 == count);
            assert(rgba@.len() == 4 * width * height) by (nonlinear_arith)
                requires
                    rgba@.len() == (samples.len() / 3) * 4,
                    samples.len() == count * 3,
                    count * 3 / 3 == count,
                    count == (width as int) * (height as int),
            ;
        }
    }
    Ok((rgba, width, height, None))
}

/// `rgba`, of a `width` x `height` image flagged with `warning`, is what the
/// decoder of the format that the bytes announce makes of them, widened to
/// RGBA: `png_image`, `jpeg_image` or `webp_image`.
pub open spec fn decodes_to(
    bytes: Seq<u8>,
    rgba: Seq<u8>,
    width: u32,
    height: u32,
    warning: Option<String>,
) -> bool {
    match format_of(bytes) {
        Some(ImageFormat::Png) => png_image(bytes) == Some((rgba, width, height, warning is Some)),
        Some(ImageFormat::Jpeg) => jpeg_image(bytes) == Some((rgba, width, height, warning is Some)),
        Some(ImageFormat::WebP) => webp_image(bytes) == Some((rgba, width, height)) && warning is None,
        None => false,
    }
}

/// A decoded PNG is flagged as greyscale exactly when the colour code of its
/// `IHDR` header (byte 25) is grey (0) or grey with alpha (4): an RGB,
/// palette or RGBA PNG decodes with no warning.
pub proof fn law_png_warning_follows_header(
    bytes: Seq<u8>,
    rgba: Seq<u8>,
    width: u32,
    height: u32,
    warning: Option<String>,
)
    requires
        format_of(bytes) == Some(ImageFormat::Png),
        decodes_to(bytes, rgba, width, height, warning),
    ensures
        warning is Some <==> (bytes[25] == 0 || bytes[25] == 4),
{
}

/// The text that a buffer too short to hold a signature is refused with.
pub open spec fn too_short_message() -> Seq<char> {
    "Buffer too short to detect format"@
}

/// Decodes a PNG, JPEG or WebP image to RGBA bytes (four a pixel, row by
/// row), its width and height, and a warning when it is greyscale.
///
/// A buffer under four bytes, or one whose first bytes announce none of the
/// three formats, is refused with `UnsupportedFormat`; an image the decoder
/// refuses gives `DecodingFailed`. A successful decode has no empty side,
/// holds at least four bytes for each pixel, and is what the decoder of the
/// announced format makes of the bytes (`decodes_to`), flagged as greyscale
/// when a PNG header announces grey or a JPEG comes one byte a pixel. A JPEG
/// that `zune-jpeg` decodes, to one, three or four bytes a pixel, is always
/// decoded; whether a PNG or WebP decodes also depends on the machine's
/// address space.
pub fn decode(bytes: &[u8]) -> (r: Result<(Vec<u8>, u32, u32, Option<String>), AnalyzerError>)
    ensures
        bytes@.len() < 4 ==> (r matches Err(AnalyzerError::UnsupportedFormat(m)) && m@
            == too_short_message()),
        bytes@.len() >= 4 && format_of(bytes@) is None ==> (r matches Err(
            AnalyzerError::UnsupportedFormat(m),
        ) && m@ == unknown_magic_message(bytes@)),
        format_of(bytes@) is Some ==> (r is Ok || r matches Err(AnalyzerError::DecodingFailed(_))),
        r matches Ok((rgba, w, h, warning)) ==> decoded_well(rgba@, w as int, h as int, warning),
        format_of(bytes@) == Some(ImageFormat::Jpeg) && jpeg_image(bytes@) is Some ==> r is Ok,
        r matches Ok((rgba, w, h, warning)) ==> w >= 1 && h >= 1 && decodes_to(
            bytes@,
            rgba@,
            w,
            h,
            warning,
        ),
        format_of(bytes@) == Some(ImageFormat::WebP) ==> (r matches Ok((rgba, w, h, warning)) ==> (
        warning is None && rgba@.len() == 4 * w * h)),
{
    if bytes.len() < 4 {
        return Err(
            AnalyzerError::UnsupportedFormat(String::from_str("Buffer too short to detect format")),
        );
    }
    match detect_format(bytes) {
        Some(ImageFormat::Png) => decode_png(bytes),
        Some(ImageFormat::Jpeg) => decode_jpeg(bytes),
        Some(ImageFormat::WebP) => decode_webp(bytes),
        None => Err(AnalyzerError::UnsupportedFormat(unknown_magic(bytes))),
    }
}

} // verus!
