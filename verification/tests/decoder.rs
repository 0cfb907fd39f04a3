use pixel_analyzer::decoder;
use pixel_analyzer::decoder::{ColorType, ImageFormat};
use pixel_analyzer::error::AnalyzerError;

#[test]
fn decode_rejects_buffer_shorter_than_4_bytes() {
    let bytes = vec![0x89, 0x50, 0x4E];
    let result = decoder::decode(&bytes);
    assert!(result.is_err());
}

#[test]
fn decode_rejects_unknown_magic_bytes() {
    let bytes = vec![0x00, 0x00, 0x00, 0x00];
    let result = decoder::decode(&bytes);
    assert!(result.is_err());
}

#[test]
fn decode_rejects_webp_shorter_than_12_bytes() {
    let bytes = b"RIFFxxxxWE".to_vec();
    let result = decoder::decode(&bytes);
    assert!(result.is_err());
}

#[test]
fn decode_identifies_png_header() {
    let bytes = vec![0x89, 0x50, 0x4E, 0x47, 0x00, 0x00];
    let result = decoder::decode(&bytes);
    match result {
        Err(AnalyzerError::DecodingFailed(_)) => {}
        _ => panic!(
            "Expected DecodingFailed for malformed PNG, got {:?}",
            result
        ),
    }
}

#[test]
fn decode_short_buffer_message() {
    match decoder::decode(&[0x89, 0x50]) {
        Err(AnalyzerError::UnsupportedFormat(m)) => {
            assert_eq!(m, "Buffer too short to detect format")
        }
        other => panic!("unexpected {:?}", other),
    }
}

#[test]
fn decode_unknown_magic_message_lists_bytes_in_hex() {
    match decoder::decode(&[0x00, 0xAB, 0x7F, 0x10, 0x01]) {
        Err(AnalyzerError::UnsupportedFormat(m)) => {
            assert_eq!(m, "Unknown magic bytes: 00 AB 7F 10")
        }
        other => panic!("unexpected {:?}", other),
    }
}

#[test]
fn decode_identifies_jpeg_header() {
    match decoder::decode(&[0xFF, 0xD8, 0xFF, 0x00]) {
        Err(AnalyzerError::DecodingFailed(_)) => {}
        other => panic!("unexpected {:?}", other),
    }
}

#[test]
fn decode_identifies_webp_header() {
    match decoder::decode(b"RIFF\x00\x00\x00\x00WEBPVP8 ") {
        Err(AnalyzerError::DecodingFailed(_)) => {}
        other => panic!("unexpected {:?}", other),
    }
}

#[test]
fn detect_format_reads_signatures() {
    assert_eq!(
        decoder::detect_format(&[0x89, 0x50, 0x4E, 0x47]),
        Some(ImageFormat::Png)
    );
    assert_eq!(decoder::detect_format(&[0xFF, 0xD8, 0, 0]), Some(ImageFormat::Jpeg));
    assert_eq!(
        decoder::detect_format(b"RIFF1234WEBP"),
        Some(ImageFormat::WebP)
    );
    assert_eq!(decoder::detect_format(b"RIFF1234WEBX"), None);
    assert_eq!(decoder::detect_format(&[0xFF, 0xD8]), None);
}

fn encode_png(width: u32, height: u32, color: png::ColorType, data: &[u8]) -> Vec<u8> {
    let mut out = Vec::new();
    {
        let mut encoder = png::Encoder::new(&mut out, width, height);
        encoder.set_color(color);
        encoder.set_depth(png::BitDepth::Eight);
        let mut writer = encoder.write_header().unwrap();
        writer.write_image_data(data).unwrap();
    }
    out
}

#[test]
fn decode_png_rgb_expands_to_opaque_rgba() {
    let bytes = encode_png(2, 1, png::ColorType::Rgb, &[10, 20, 30, 40, 50, 60]);
    let (rgba, w, h, warning) = decoder::decode(&bytes).unwrap();
    assert_eq!((w, h), (2, 1));
    assert_eq!(rgba, vec![10, 20, 30, 255, 40, 50, 60, 255]);
    assert!(warning.is_none());
}

#[test]
fn decode_png_greyscale_warns() {
    let bytes = encode_png(2, 2, png::ColorType::Grayscale, &[0, 64, 128, 255]);
    let (rgba, w, h, warning) = decoder::decode(&bytes).unwrap();
    assert_eq!((w, h), (2, 2));
    assert_eq!(&rgba[4..8], &[64, 64, 64, 255]);
    assert_eq!(
        warning.unwrap(),
        "Image is greyscale; colour palette will be achromatic."
    );
}

#[test]
fn decode_png_rgba_is_kept() {
    let data = [1, 2, 3, 4, 5, 6, 7, 8];
    let bytes = encode_png(1, 2, png::ColorType::Rgba, &data);
    let (rgba, w, h, _) = decoder::decode(&bytes).unwrap();
    assert_eq!((w, h), (1, 2));
    assert_eq!(rgba, data.to_vec());
}

#[test]
fn expand_to_rgba_grey_alpha_keeps_alpha() {
    let out = decoder::expand_to_rgba(&[9, 100, 7, 0, 5], ColorType::GrayscaleAlpha).unwrap();
    assert_eq!(out, vec![9, 9, 9, 100, 7, 7, 7, 0]);
}

#[test]
fn expand_to_rgba_refuses_palette_indices() {
    match decoder::expand_to_rgba(&[1, 2], ColorType::Indexed) {
        Err(AnalyzerError::DecodingFailed(m)) => {
            assert_eq!(m, "Indexed PNG expansion failed unexpectedly")
        }
        other => panic!("unexpected {:?}", other),
    }
}

#[test]
fn expand_to_rgba_rgb_drops_partial_pixel() {
    let out = decoder::expand_to_rgba(&[1, 2, 3, 4, 5], ColorType::Rgb).unwrap();
    assert_eq!(out, vec![1, 2, 3, 255]);
}

#[test]
fn expand_jpeg_pixels_by_channel_count() {
    let (grey, _, _, warning) = decoder::expand_jpeg_pixels(vec![7, 8], 2, 1).unwrap();
    assert_eq!(grey, vec![7, 7, 7, 255, 8, 8, 8, 255]);
    assert!(warning.is_some());
    let (rgb, w, h, warning) = decoder::expand_jpeg_pixels(vec![1, 2, 3], 1, 1).unwrap();
    assert_eq!(rgb, vec![1, 2, 3, 255]);
    assert_eq!((w, h), (1, 1));
    assert!(warning.is_none());
    let (cmyk, _, _, _) = decoder::expand_jpeg_pixels(vec![1, 2, 3, 4], 1, 1).unwrap();
    assert_eq!(cmyk, vec![1, 2, 3, 4]);
}

#[test]
fn expand_jpeg_pixels_refuses_odd_channel_counts() {
    match decoder::expand_jpeg_pixels(vec![0; 10], 1, 2) {
        Err(AnalyzerError::DecodingFailed(m)) => assert_eq!(m, "Unexpected JPEG channel count: 5"),
        other => panic!("unexpected {:?}", other),
    }
    match decoder::expand_jpeg_pixels(vec![0; 12], 1, 1) {
        Err(AnalyzerError::DecodingFailed(m)) => assert_eq!(m, "Unexpected JPEG channel count: 12"),
        other => panic!("unexpected {:?}", other),
    }
    match decoder::expand_jpeg_pixels(vec![0; 3], 0, 1) {
        Err(AnalyzerError::DecodingFailed(m)) => assert_eq!(m, "JPEG has zero dimensions"),
        other => panic!("unexpected {:?}", other),
    }
}

#[test]
fn png_frame_rgba_takes_the_frame_lines_from_the_buffer() {
    let frame = decoder::PngFrame { width: 2, height: 1, color_type: ColorType::Rgb, line_size: 6 };
    let buf = [1u8, 2, 3, 4, 5, 6, 99, 99];
    let (rgba, w, h, warning) =
        decoder::png_frame_rgba(&buf, &frame, ColorType::Rgb).expect("frame fits");
    assert_eq!(rgba, vec![1, 2, 3, 255, 4, 5, 6, 255]);
    assert_eq!((w, h), (2, 1));
    assert_eq!(warning, None);
}

#[test]
fn png_frame_rgba_flags_grey_source() {
    let frame = decoder::PngFrame { width: 2, height: 1, color_type: ColorType::Rgba, line_size: 8 };
    let buf = [7u8, 7, 7, 255, 9, 9, 9, 128];
    let (rgba, _, _, warning) =
        decoder::png_frame_rgba(&buf, &frame, ColorType::GrayscaleAlpha).expect("frame fits");
    assert_eq!(rgba, buf.to_vec());
    assert_eq!(
        warning.as_deref(),
        Some("Image is greyscale; colour palette will be achromatic.")
    );
}

#[test]
fn png_frame_rgba_refuses_lines_beyond_the_buffer() {
    let frame = decoder::PngFrame { width: 2, height: 2, color_type: ColorType::Rgb, line_size: 6 };
    match decoder::png_frame_rgba(&[0u8; 11], &frame, ColorType::Rgb) {
        Err(AnalyzerError::DecodingFailed(m)) => assert_eq!(m, "PNG frame exceeds its buffer"),
        other => panic!("unexpected {:?}", other),
    }
}

#[test]
fn png_frame_rgba_refuses_a_frame_smaller_than_its_size() {
    let frame = decoder::PngFrame { width: 3, height: 1, color_type: ColorType::Rgb, line_size: 6 };
    match decoder::png_frame_rgba(&[0u8; 6], &frame, ColorType::Rgb) {
        Err(AnalyzerError::DecodingFailed(m)) => {
            assert_eq!(m, "PNG frame is smaller than its dimensions")
        }
        other => panic!("unexpected {:?}", other),
    }
}

#[test]
fn png_frame_rgba_refuses_palette_indices() {
    let frame =
        decoder::PngFrame { width: 2, height: 1, color_type: ColorType::Indexed, line_size: 2 };
    match decoder::png_frame_rgba(&[0u8, 1], &frame, ColorType::Indexed) {
        Err(AnalyzerError::DecodingFailed(m)) => {
            assert_eq!(m, "Indexed PNG expansion failed unexpectedly")
        }
        other => panic!("unexpected {:?}", other),
    }
}

#[test]
fn expand_webp_pixels_widens_rgb_and_keeps_rgba() {
    assert_eq!(
        decoder::expand_webp_pixels(vec![1, 2, 3, 4, 5, 6], false),
        vec![1, 2, 3, 255, 4, 5, 6, 255]
    );
    assert_eq!(
        decoder::expand_webp_pixels(vec![1, 2, 3, 4, 5, 6, 7, 8], true),
        vec![1, 2, 3, 4, 5, 6, 7, 8]
    );
}

fn encode_webp(width: u32, height: u32, color: image_webp::ColorType, data: &[u8]) -> Vec<u8> {
    let mut out = Vec::new();
    image_webp::WebPEncoder::new(&mut out)
        .encode(data, width, height, color)
        .unwrap();
    out
}

#[test]
fn decode_webp_keeps_lossless_rgba() {
    let data = [10u8, 20, 30, 40, 50, 60, 70, 200];
    let bytes = encode_webp(2, 1, image_webp::ColorType::Rgba8, &data);
    let (rgba, w, h, warning) = decoder::decode(&bytes).expect("lossless WebP decodes");
    assert_eq!((w, h), (2, 1));
    assert_eq!(rgba, data.to_vec());
    assert_eq!(warning, None);
}

#[test]
fn decode_webp_rgb_gets_opaque_alpha() {
    let data = [10u8, 20, 30, 40, 50, 60];
    let bytes = encode_webp(2, 1, image_webp::ColorType::Rgb8, &data);
    let (rgba, w, h, _) = decoder::decode(&bytes).expect("lossless WebP decodes");
    assert_eq!((w, h), (2, 1));
    assert_eq!(rgba, vec![10, 20, 30, 255, 40, 50, 60, 255]);
}
