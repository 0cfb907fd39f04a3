use pixel_analyzer::config::Quality;
use pixel_analyzer::kmeans::{check_enough_pixels, cluster_sizes, population_order, SimpleLcg};
use pixel_analyzer::metrics::{classify_hue_group, classify_orientation};
use pixel_analyzer::pipeline::{decode_and_sample, validate_buffer};
use pixel_analyzer::report::merge_warnings;
use pixel_analyzer::sampler;
use pixel_analyzer::error::AnalyzerError;
use pixel_analyzer::types::{HueGroup, Orientation, RgbColor};

#[test]
fn to_hex_is_upper_case_with_hash() {
    let c = RgbColor { r: 10, g: 127, b: 255 };
    assert_eq!(c.to_hex(), "#0A7FFF");
    assert_eq!(RgbColor { r: 0, g: 0, b: 0 }.to_hex(), "#000000");
}

#[test]
fn from_hex_reads_either_case_and_optional_hash() {
    let c = RgbColor { r: 10, g: 127, b: 255 };
    assert_eq!(RgbColor::from_hex("#0a7fff"), c);
    assert_eq!(RgbColor::from_hex("0A7FFF"), c);
    assert_eq!(RgbColor::from_hex("#GG7FFF"), RgbColor { r: 0, g: 127, b: 255 });
    assert_eq!(RgbColor::from_hex("#12"), RgbColor { r: 0x12, g: 0, b: 0 });
    assert_eq!(RgbColor::from_hex(""), RgbColor { r: 0, g: 0, b: 0 });
}

#[test]
fn hex_round_trip_keeps_every_colour() {
    for r in (0..=255u8).step_by(5) {
        for g in (0..=255u8).step_by(17) {
            for b in [0u8, 1, 9, 10, 15, 16, 128, 254, 255] {
                let c = RgbColor { r, g, b };
                assert_eq!(RgbColor::from_hex(&c.to_hex()), c);
            }
        }
    }
}

#[test]
fn quality_fraction_and_cap() {
    assert_eq!(Quality::Draft.sample_fraction(), (1, 4));
    assert_eq!(Quality::Balanced.sample_fraction(), (1, 2));
    assert_eq!(Quality::Precise.sample_fraction(), (1, 1));
    assert_eq!(Quality::Draft.max_dimension(), 128);
    assert_eq!(Quality::Balanced.max_dimension(), 256);
    assert_eq!(Quality::Precise.max_dimension(), 512);
    assert_eq!(Quality::default(), Quality::Balanced);
}

#[test]
fn draft_sample_of_large_image_takes_a_quarter_of_each_cell() {
    let pixels = vec![255u8; 200 * 200 * 4];
    let result = sampler::sample_pixels(&pixels, 200, 200, Quality::Draft);
    assert_eq!(result.len(), 4096);
}

#[test]
fn balanced_sample_takes_half_of_each_cell() {
    let pixels = vec![255u8; 64 * 64 * 4];
    let result = sampler::sample_pixels(&pixels, 64, 64, Quality::Balanced);
    assert_eq!(result.len(), 2048);
    let small = vec![255u8; 10 * 10 * 4];
    assert_eq!(sampler::sample_pixels(&small, 10, 10, Quality::Balanced).len(), 100);
}

#[test]
fn draft_sample_keeps_at_least_a_quarter_of_opaque_pixels() {
    let mut pixels = Vec::new();
    for i in 0..(64u32 * 64) {
        let alpha = if i % 2 == 0 { 255 } else { 0 };
        pixels.extend_from_slice(&[1, 2, 3, alpha]);
    }
    let result = sampler::sample_pixels(&pixels, 64, 64, Quality::Draft);
    assert_eq!(result.len(), 1024);
    assert!(4 * result.len() >= 2048);
}

#[test]
fn sample_scales_zero_width_image_from_first_pixel() {
    let pixels = vec![9u8, 8, 7, 255];
    let result = sampler::sample_pixels(&pixels, 0, 300, Quality::Draft);
    assert_eq!(result.len(), 32);
    assert!(result.iter().all(|&c| c == RgbColor { r: 9, g: 8, b: 7 }));
}

#[test]
fn sample_only_returns_opaque_colours() {
    let mut pixels = Vec::new();
    for i in 0..64u32 {
        let opaque = i % 3 == 0;
        pixels.extend_from_slice(&[i as u8, 7, 9, if opaque { 200 } else { 100 }]);
    }
    let result = sampler::sample_pixels(&pixels, 8, 8, Quality::Precise);
    assert_eq!(result.len(), 22);
    for px in &result {
        assert_eq!(px.r % 3, 0);
        assert_eq!((px.g, px.b), (7, 9));
    }
}

#[test]
fn downsample_keeps_nearest_source_pixels() {
    let mut pixels = Vec::new();
    for y in 0..1000u32 {
        for x in 0..4u32 {
            pixels.extend_from_slice(&[(x * 60) as u8, (y % 256) as u8, 0, 255]);
        }
    }
    let result = sampler::sample_pixels(&pixels, 4, 1000, Quality::Draft);
    assert!(!result.is_empty());
    for px in &result {
        assert_eq!(px.r % 60, 0);
        assert_eq!(px.b, 0);
    }
}

#[test]
fn lcg_steps_are_exact() {
    let mut g = SimpleLcg::new(0);
    assert_eq!(g.next_u64(), 17996482231317592041);
    assert_eq!(g.next_u64(), 6425152786646051908);
    let mut h = SimpleLcg::new(12345);
    assert_eq!(h.next_usize() as u64, 128411617287354606u64 as usize as u64);
}

#[test]
fn cluster_sizes_count_every_assignment() {
    let sizes = cluster_sizes(&[0, 2, 2, 1, 2, 0], 4);
    assert_eq!(sizes, vec![2, 1, 3, 0]);
    assert_eq!(sizes.iter().sum::<usize>(), 6);
}

#[test]
fn clustering_needs_a_pixel_for_each_cluster() {
    assert!(matches!(check_enough_pixels(4, 5), Err(AnalyzerError::InsufficientPixels)));
    assert!(check_enough_pixels(5, 5).is_ok());
    assert!(check_enough_pixels(0, 0).is_ok());
}

#[test]
fn no_cluster_holds_more_than_all_pixels() {
    let sizes = cluster_sizes(&[1, 1, 1], 3);
    assert_eq!(sizes, vec![0, 3, 0]);
    assert!(sizes.iter().all(|&s| s <= 3));
}

#[test]
fn population_order_is_descending_and_stable() {
    assert_eq!(population_order(&[2, 5, 2, 7, 5]), vec![3, 1, 4, 0, 2]);
    assert_eq!(population_order(&[]), Vec::<usize>::new());
    assert_eq!(population_order(&[1, 1, 1]), vec![0, 1, 2]);
}

#[test]
fn hue_groups_follow_the_table() {
    assert_eq!(classify_hue_group(0), HueGroup::Warm);
    assert_eq!(classify_hue_group(350), HueGroup::Warm);
    assert_eq!(classify_hue_group(200), HueGroup::Cool);
    assert_eq!(classify_hue_group(100), HueGroup::Neutral);
    assert_eq!(classify_hue_group(69), HueGroup::Warm);
    assert_eq!(classify_hue_group(70), HueGroup::Neutral);
    assert_eq!(classify_hue_group(149), HueGroup::Neutral);
    assert_eq!(classify_hue_group(150), HueGroup::Cool);
    assert_eq!(classify_hue_group(329), HueGroup::Cool);
    assert_eq!(classify_hue_group(330), HueGroup::Warm);
    assert_eq!(classify_hue_group(360), HueGroup::Warm);
}

#[test]
fn orientation_by_sides() {
    assert_eq!(classify_orientation(3, 2), Orientation::Landscape);
    assert_eq!(classify_orientation(2, 3), Orientation::Portrait);
    assert_eq!(classify_orientation(5, 5), Orientation::Square);
}

#[test]
fn warnings_merge_with_a_space() {
    assert_eq!(merge_warnings(None, false), None);
    assert_eq!(
        merge_warnings(None, true).unwrap(),
        "No perceptually distinct accent colour found (\u{0394}E < 5 from dominant)."
    );
    assert_eq!(merge_warnings(Some("A.".to_string()), false).unwrap(), "A.");
    assert_eq!(
        merge_warnings(Some("A.".to_string()), true).unwrap(),
        "A. No perceptually distinct accent colour found (\u{0394}E < 5 from dominant)."
    );
}

#[test]
fn empty_buffer_is_refused_first() {
    assert!(matches!(validate_buffer(&[]), Err(AnalyzerError::EmptyBuffer)));
    assert!(validate_buffer(&[1]).is_ok());
    assert!(matches!(
        decode_and_sample(&[], Quality::Balanced),
        Err(AnalyzerError::EmptyBuffer)
    ));
}

fn encode_png(width: u32, height: u32, color: png::ColorType, data: &[u8]) -> Vec<u8> {
    let mut out = Vec::new();
    {
        let mut encoder = png::Encoder::new(&mut out, width, height);
        encoder.set_color(color);
        encoder.set_depth(png::BitDepth::Eight);
        let mut writer = encoder.write_header().unwrap();
        writer.write_image_data(data).unwrap();
    }
    out
}

#[test]
fn decode_and_sample_reads_png_colours() {
    let bytes = encode_png(2, 1, png::ColorType::Rgb, &[10, 20, 30, 40, 50, 60]);
    let (sampled, w, h, warning) = decode_and_sample(&bytes, Quality::Precise).unwrap();
    assert_eq!((w, h), (2, 1));
    assert_eq!(
        sampled,
        vec![RgbColor { r: 10, g: 20, b: 30 }, RgbColor { r: 40, g: 50, b: 60 }]
    );
    assert!(warning.is_none());
}

#[test]
fn decode_and_sample_refuses_fully_transparent_image() {
    let bytes = encode_png(2, 1, png::ColorType::Rgba, &[1, 2, 3, 0, 4, 5, 6, 127]);
    assert!(matches!(
        decode_and_sample(&bytes, Quality::Precise),
        Err(AnalyzerError::InsufficientPixels)
    ));
}
