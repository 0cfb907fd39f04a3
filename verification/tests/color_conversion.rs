use pixel_analyzer::config::Quality;
use pixel_analyzer::sampler;

#[test]
fn color_conversion_sampler_skips_transparent_pixels() {
    let pixels = vec![255, 0, 0, 0];
    let sampled = sampler::sample_pixels(&pixels, 1, 1, Quality::Precise);
    assert!(sampled.is_empty());
}

#[test]
fn color_conversion_sampler_all_pixels_returned_on_small_image() {
    let pixels = vec![255, 0, 0, 255];
    let sampled = sampler::sample_pixels(&pixels, 1, 1, Quality::Precise);
    assert_eq!(sampled.len(), 1);
}
