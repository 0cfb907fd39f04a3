use vstd::prelude::*;
use std::io::Cursor;
use crate::decoder::{ColorType, PngFrame};

verus! {

/// A cursor over bytes in memory (std's `io::Cursor`).
#[verifier::external_type_specification]
#[verifier::external_body]
#[verifier::reject_recursive_types(T)]
pub struct ExCursor<T>(Cursor<T>);

/// The error the `png` crate reports when it refuses an image.
#[verifier::external_type_specification]
#[verifier::external_body]
pub struct ExPngDecodingError(png::DecodingError);

/// The error that `zune-jpeg` reports when it refuses an image.
#[verifier::external_type_specification]
#[verifier::external_body]
pub struct ExJpegDecodeErrors(zune_jpeg::errors::DecodeErrors);

/// The JPEG decoder of `zune-jpeg`.
#[verifier::external_type_specification]
#[verifier::external_body]
#[verifier::reject_recursive_types(T)]
pub struct ExJpegDecoder<T>(zune_jpeg::JpegDecoder<T>);

/// The error that `image-webp` reports when it refuses an image.
#[verifier::external_type_specification]
#[verifier::external_body]
pub struct ExWebPDecodingError(image_webp::DecodingError);

/// The WebP decoder of `image-webp`.
#[verifier::external_type_specification]
#[verifier::external_body]
#[verifier::reject_recursive_types(R)]
pub struct ExWebPDecoder<R>(image_webp::WebPDecoder<R>);

/// A `png::Decoder` over a cursor, held in a field of its own because Verus
/// does not take the declaration of `png::Decoder`, whose parameter is
/// bounded by std's `BufRead` and `Seek`.
#[verifier::external_body]
struct PngDecoderHandle {
    decoder: png::Decoder<Cursor<Vec<u8>>>,
}

/// A `png::Reader` over a cursor, held in a field for the same reason as
/// `PngDecoderHandle`.
#[verifier::external_body]
struct PngReaderHandle {
    reader: png::Reader<Cursor<Vec<u8>>>,
}

/// A PNG decoder before the header is read, with the bytes it reads and the
/// transformation flags set on it. Only the functions of this module make
/// one, so the two always go together.
pub struct PngDecoder {
    handle: PngDecoderHandle,
    source: Ghost<Seq<u8>>,
    transformations: Ghost<u32>,
}

impl PngDecoder {
    /// The bytes the decoder reads.
    pub closed spec fn source(self) -> Seq<u8> {
        self.source@
    }

    /// The bits of the transformation flags set on the decoder.
    pub closed spec fn transformations(self) -> u32 {
        self.transformations@
    }
}

/// A PNG reader after the header is read, with the bytes and the
/// transformation flags of the decoder it came from.
pub struct PngReader {
    handle: PngReaderHandle,
    source: Ghost<Seq<u8>>,
    transformations: Ghost<u32>,
}

impl PngReader {
    /// The bytes the reader reads.
    pub closed spec fn source(self) -> Seq<u8> {
        self.source@
    }

    /// The bits of the transformation flags the reader applies.
    pub closed spec fn transformations(self) -> u32 {
        self.transformations@
    }
}

/// The colour type that the `IHDR` header of a PNG announces: its code is
/// byte 25 of the file (after the 8-byte signature, the chunk's length and
/// type, the width, the height and the bit depth), since `IHDR` must come
/// first. Codes 0, 2, 3, 4 and 6 are grey, RGB, palette, grey with alpha
/// and RGBA; the crate refuses any other.
pub open spec fn png_header_color_type(bytes: Seq<u8>) -> ColorType {
    let code = bytes[25];
    if code == 0 {
        ColorType::Grayscale
    } else if code == 2 {
        ColorType::Rgb
    } else if code == 3 {
        ColorType::Indexed
    } else if code == 4 {
        ColorType::GrayscaleAlpha
    } else {
        ColorType::Rgba
    }
}

/// The first frame that the `png` crate decodes from a PNG's bytes with the
/// given transformation flags, into a zeroed buffer: the `line_size` x
/// `height` bytes at its front, and what `next_frame` reports. None where
/// the crate refuses the bytes. The crate decodes deterministically from the
/// bytes; where a decode fails for want of address space on one machine,
/// the frame it would give is the same.
pub uninterp spec fn png_first_frame(bytes: Seq<u8>, transformations: u32) -> Option<
    (Seq<u8>, PngFrame),
>;

/// `png::Decoder::new` over a cursor on the bytes; no transformation is set
/// (`Transformations::IDENTITY`, no bits). Nothing is read yet.
#[verifier::external_body]
pub fn png_decoder(bytes: Vec<u8>) -> (d: PngDecoder)
    ensures
        d.source() == bytes@,
        d.transformations() == 0,
{
    let source = Ghost(bytes@);
    PngDecoder {
        handle: PngDecoderHandle { decoder: png::Decoder::new(Cursor::new(bytes)) },
        source,
        transformations: Ghost(0u32),
    }
}

/// `png::Decoder::set_transformations`, with the flags given by their bits
/// (`png::Transformations::from_bits_truncate`).
#[verifier::external_body]
pub fn png_set_transformations(decoder: &mut PngDecoder, bits: u32)
    ensures
        final(decoder).source() == old(decoder).source(),
        final(decoder).transformations() == bits,
{
    decoder.handle.decoder.set_transformations(png::Transformations::from_bits_truncate(bits));
    decoder.transformations = Ghost(bits);
}

/// `png::Decoder::read_info`: reads the header and the chunks before the
/// image data. The reader keeps the decoder's bytes and flags. Whether it
/// succeeds is not stated: besides the bytes, it depends on the machine's
/// address space (`LimitsExceeded` where the output size overflows `usize`).
#[verifier::external_body]
pub fn png_read_info(decoder: PngDecoder) -> (r: Result<PngReader, png::DecodingError>)
    ensures
        r matches Ok(reader) ==> reader.source() == decoder.source() && reader.transformations()
            == decoder.transformations(),
{
    let source = decoder.source;
    let transformations = decoder.transformations;
    decoder.handle.decoder.read_info().map(
        |reader| PngReader { handle: PngReaderHandle { reader }, source, transformations },
    )
}

/// The colour type stored in the PNG header (`png::Reader::info`, field
/// `color_type`), before any transformation; each variant of
/// `png::ColorType` becomes the one of the same name. The reader exists only
/// once the header is read, so the colour code is there, and it is one the
/// crate takes (`ColorType::from_u8`).
#[verifier::external_body]
pub fn png_source_color_type(reader: &PngReader) -> (c: ColorType)
    ensures
        c == png_header_color_type(reader.source()),
{
    match reader.handle.reader.info().color_type {
        png::ColorType::Grayscale => ColorType::Grayscale,
        png::ColorType::Rgb => ColorType::Rgb,
        png::ColorType::Indexed => ColorType::Indexed,
        png::ColorType::GrayscaleAlpha => ColorType::GrayscaleAlpha,
        png::ColorType::Rgba => ColorType::Rgba,
    }
}

/// `png::Reader::output_buffer_size`: the bytes a decoded frame needs, or
/// none where that does not fit the address space. Nothing is stated: the
/// result depends on the width of `usize`.
#[verifier::external_body]
pub fn png_output_buffer_size(reader: &PngReader) -> Option<usize> {
    reader.handle.reader.output_buffer_size()
}

/// `png::Reader::next_frame` on a fresh reader, into a zeroed buffer: decodes
/// the first frame and reports its width, height, colour type and line size
/// (`png::OutputInfo`). The buffer keeps its length (the crate gets a slice
/// of it). On success the frame's lines fit in the buffer (the crate refuses
/// a buffer shorter than `output_buffer_size`, which covers the whole
/// canvas), no side is empty (the crate refuses a zero width or height in
/// the `IHDR` and `fcTL` chunks, and the frame's size is taken from one of
/// them), and the frame is the one `png_first_frame` names. Whether the call
/// succeeds is not stated.
#[verifier::external_body]
pub fn png_next_frame(reader: PngReader, buf: &mut Vec<u8>) -> (r: Result<
    PngFrame,
    png::DecodingError,
>)
    requires
        forall|i: int| 0 <= i < old(buf)@.len() ==> old(buf)@[i] == 0,
    ensures
        final(buf)@.len() == old(buf)@.len(),
        r matches Ok(frame) ==> frame.width >= 1 && frame.height >= 1 && frame.line_size
            * frame.height <= final(buf)@.len() && png_first_frame(
            reader.source(),
            reader.transformations(),
        ) == Some((final(buf)@.take(frame.line_size * frame.height), frame)),
{
    let mut reader = reader.handle.reader;
    reader.next_frame(buf).map(|info| PngFrame {
        width: info.width,
        height: info.height,
        color_type: match info.color_type {
            png::ColorType::Grayscale => ColorType::Grayscale,
            png::ColorType::Rgb => ColorType::Rgb,
            png::ColorType::Indexed => ColorType::Indexed,
            png::ColorType::GrayscaleAlpha => ColorType::GrayscaleAlpha,
            png::ColorType::Rgba => ColorType::Rgba,
        },
        line_size: info.line_size,
    })
}

/// The text of a `png` decoding error (its `Display`, by `to_string`).
#[verifier::external_body]
pub fn png_error_text(e: &png::DecodingError) -> String {
    e.to_string()
}

/// A `zune-jpeg` decoder over a cursor, with the bytes it reads and whether
/// it has been asked to decode. Only the functions of this module make one,
/// so these always go together.
pub struct JpegReader {
    decoder: zune_jpeg::JpegDecoder<Cursor<Vec<u8>>>,
    source: Ghost<Seq<u8>>,
    decoded: Ghost<bool>,
}

impl JpegReader {
    /// The bytes the decoder reads.
    pub closed spec fn source(self) -> Seq<u8> {
        self.source@
    }

    /// Whether `decode` has been called on the decoder.
    pub closed spec fn decoded(self) -> bool {
        self.decoded@
    }
}

/// The width and height in the start-of-frame header of a JPEG (the crate
/// sets them from that header alone, and refuses a second one).
pub uninterp spec fn jpeg_header_size(bytes: Seq<u8>) -> (u16, u16);

/// The samples that `zune-jpeg`, with its default options (RGB out, at most
/// 16384 pixels a side), decodes from a JPEG's bytes; none where it refuses
/// them. The outcome depends on the bytes alone: the vector IDCT, colour
/// conversion and upsampling give bit-identical results with the scalar
/// code, the crate runs on one thread, and at 16384 a side no size
/// overflows `usize` even where it has 32 bits.
pub uninterp spec fn jpeg_samples_of(bytes: Seq<u8>) -> Option<Seq<u8>>;

/// `zune_jpeg::JpegDecoder::new` over a cursor on the bytes. Nothing is
/// decoded yet.
#[verifier::external_body]
pub fn jpeg_decoder(bytes: Vec<u8>) -> (d: JpegReader)
    ensures
        d.source() == bytes@,
        !d.decoded(),
{
    let source = Ghost(bytes@);
    JpegReader {
        decoder: zune_jpeg::JpegDecoder::new(Cursor::new(bytes)),
        source,
        decoded: Ghost(false),
    }
}

/// `zune_jpeg::JpegDecoder::decode` on a decoder not yet asked: decodes the
/// image to samples, a fixed number of bytes a pixel. It succeeds exactly
/// where `jpeg_samples_of` names samples, and gives those.
#[verifier::external_body]
pub fn jpeg_decode(decoder: &mut JpegReader) -> (r: Result<Vec<u8>, zune_jpeg::errors::DecodeErrors>)
    requires
        !old(decoder).decoded(),
    ensures
        final(decoder).source() == old(decoder).source(),
        final(decoder).decoded(),
        match jpeg_samples_of(old(decoder).source()) {
            Some(samples) => r matches Ok(pixels) && pixels@ == samples,
            None => r is Err,
        },
{
    let r = decoder.decoder.decode();
    decoder.decoded = Ghost(true);
    r
}

/// The width and height from `zune_jpeg::JpegDecoder::info`: none before the
/// headers are decoded, and otherwise the size in the start-of-frame header.
/// A successful `decode` decodes the headers first, so after one the size is
/// there.
#[verifier::external_body]
pub fn jpeg_dimensions(decoder: &JpegReader) -> (r: Option<(u16, u16)>)
    ensures
        r matches Some(size) ==> size == jpeg_header_size(decoder.source()),
        decoder.decoded() && jpeg_samples_of(decoder.source()) is Some ==> r is Some,
{
    decoder.decoder.info().map(|info| (info.width, info.height))
}

/// The text of a `zune-jpeg` decoding error (its `Display`, by `to_string`).
#[verifier::external_body]
pub fn jpeg_error_text(e: &zune_jpeg::errors::DecodeErrors) -> String {
    e.to_string()
}

/// An `image-webp` decoder over a cursor, with the bytes it reads. Only the
/// functions of this module make one, so the two always go together.
pub struct WebPReader {
    decoder: image_webp::WebPDecoder<Cursor<Vec<u8>>>,
    source: Ghost<Seq<u8>>,
}

impl WebPReader {
    /// The bytes the decoder reads.
    pub closed spec fn source(self) -> Seq<u8> {
        self.source@
    }
}

/// The width and height that `image-webp` reads from the headers of a WebP.
pub uninterp spec fn webp_size_of(bytes: Seq<u8>) -> (u32, u32);

/// Whether `image-webp` finds that the pixels of a WebP carry alpha.
pub uninterp spec fn webp_alpha_of(bytes: Seq<u8>) -> bool;

/// The samples that `image-webp` writes for a WebP into a zeroed buffer of
/// `width x height x (4 with alpha, 3 without)` bytes: RGBA or RGB, row by
/// row. None where the crate refuses the bytes.
pub uninterp spec fn webp_image_of(bytes: Seq<u8>) -> Option<Seq<u8>>;

/// `image_webp::WebPDecoder::new` over a cursor on the bytes: reads the
/// RIFF headers. Whether it succeeds is not stated.
#[verifier::external_body]
pub fn webp_decoder(bytes: Vec<u8>) -> (r: Result<WebPReader, image_webp::DecodingError>)
    ensures
        r matches Ok(decoder) ==> decoder.source() == bytes@,
{
    let source = Ghost(bytes@);
    image_webp::WebPDecoder::new(Cursor::new(bytes)).map(|decoder| WebPReader { decoder, source })
}

/// `image_webp::WebPDecoder::dimensions`: the width and height read from
/// the headers.
#[verifier::external_body]
pub fn webp_dimensions(decoder: &WebPReader) -> (r: (u32, u32))
    ensures
        r == webp_size_of(decoder.source()),
{
    decoder.decoder.dimensions()
}

/// `image_webp::WebPDecoder::has_alpha`: whether pixels carry alpha.
#[verifier::external_body]
pub fn webp_has_alpha(decoder: &WebPReader) -> (r: bool)
    ensures
        r == webp_alpha_of(decoder.source()),
{
    decoder.decoder.has_alpha()
}

/// `image_webp::WebPDecoder::read_image` into a zeroed buffer of the size
/// the image needs. The buffer keeps its length (the crate gets a slice of
/// it). On success it holds the samples `webp_image_of` names, and it is not
/// empty: a zero side can only come from a lossless header whose 14-bit
/// size wraps to 0, and the lossless decoder then refuses the size it reads
/// again (at least 1) as inconsistent. Whether the call succeeds is not
/// stated: the crate measures sizes against the address space.
#[verifier::external_body]
pub fn webp_read_image(decoder: WebPReader, buf: &mut Vec<u8>) -> (r: Result<
    (),
    image_webp::DecodingError,
>)
    requires
        forall|i: int| 0 <= i < old(buf)@.len() ==> old(buf)@[i] == 0,
        old(buf)@.len() == webp_size_of(decoder.source()).0 * webp_size_of(decoder.source()).1 * (
        if webp_alpha_of(decoder.source()) {
            4int
        } else {
            3int
        }),
    ensures
        final(buf)@.len() == old(buf)@.len(),
        r is Ok ==> old(buf)@.len() > 0 && webp_image_of(decoder.source()) == Some(final(buf)@),
{
    let mut decoder = decoder.decoder;
    decoder.read_image(buf)
}

/// The text of an `image-webp` decoding error (its `Display`, by
/// `to_string`).
#[verifier::external_body]
pub fn webp_error_text(e: &image_webp::DecodingError) -> String {
    e.to_string()
}

} // verus!
