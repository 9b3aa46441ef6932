use hero_proxy::pixels::grayscale_rgb_to_rgba;
use hero_proxy::pixels::grayscale_rgba;
use hero_proxy::pixels::luma;
use hero_proxy::quality::is_lossless;
use hero_proxy::quality::jxl_distance_milli;
use hero_proxy::quality::mime_type;
use hero_proxy::quality::plan_transcode;
use hero_proxy::quality::webp_quality;
use hero_proxy::quality::TargetFormat;

#[test]
fn luminance_of_the_primaries_matches_bt601() {
    // 0.299 * 255, 0.587 * 255 and 0.114 * 255, truncated per the integer
    // policy of the thousandths arithmetic
    assert_eq!(luma(255, 0, 0), 76);
    assert_eq!(luma(0, 255, 0), 149);
    assert_eq!(luma(0, 0, 255), 29);
    assert_eq!(luma(0, 0, 0), 0);
    assert_eq!(luma(255, 255, 255), 255);
    assert_eq!(luma(100, 100, 100), 100);
}

#[test]
fn grayscale_rgba_preserves_alpha_unchanged() {
    // two pixels: pure red at alpha 200, pure green at alpha 7
    let input = vec![255, 0, 0, 200, 0, 255, 0, 7];
    let out = grayscale_rgba(&input);
    assert_eq!(out, vec![76, 76, 76, 200, 149, 149, 149, 7]);
}

#[test]
fn grayscale_rgb_becomes_opaque_rgba() {
    let input = vec![255, 0, 0, 0, 0, 255];
    let out = grayscale_rgb_to_rgba(&input);
    assert_eq!(out, vec![76, 76, 76, 255, 29, 29, 29, 255]);
}

#[test]
fn quality_95_and_above_selects_lossless() {
    assert!(!is_lossless(94));
    assert!(is_lossless(95));
    assert!(is_lossless(100));
    assert!(is_lossless(255));
    let p = plan_transcode(95, true);
    assert!(p.lossless);
    assert_eq!(p.jxl_distance_milli, 0);
    let p = plan_transcode(94, false);
    assert!(!p.lossless);
    assert!(p.grayscale);
}

#[test]
fn jxl_distance_is_monotone_and_pinned_at_the_ends() {
    assert_eq!(jxl_distance_milli(0), 8000);
    assert_eq!(jxl_distance_milli(50), 4000);
    assert_eq!(jxl_distance_milli(94), 480);
    assert_eq!(jxl_distance_milli(95), 0);
    assert_eq!(jxl_distance_milli(100), 0);
    let mut prev = jxl_distance_milli(0);
    for q in 1..=100u8 {
        let d = jxl_distance_milli(q);
        assert!(d <= prev);
        prev = d;
    }
}

#[test]
fn webp_quality_is_passed_through_with_a_ceiling() {
    assert_eq!(webp_quality(0), 0);
    assert_eq!(webp_quality(80), 80);
    assert_eq!(webp_quality(100), 100);
    assert_eq!(webp_quality(255), 100);
}

#[test]
fn mime_types_follow_the_target_format() {
    assert_eq!(mime_type(TargetFormat::WebP), "image/webp");
    assert_eq!(mime_type(TargetFormat::Avif), "image/avif");
    assert_eq!(mime_type(TargetFormat::Jxl), "image/jxl");
}

#[test]
fn extreme_qualities_still_produce_decodable_webp() {
    // a 2x2 red/green checker, encoded at both ends of the quality scale
    // with the real codec, must decode back to a 2x2 image
    let pixels: Vec<u8> = vec![
        255, 0, 0, 0, 255, 0, //
        0, 255, 0, 255, 0, 0,
    ];
    for q in [0.0f32, 100.0f32] {
        let encoded = webp::Encoder::from_rgb(&pixels, 2, 2).encode(q);
        let decoded = webp::Decoder::new(&encoded).decode().expect("decodable webp");
        let img = decoded.to_image();
        assert_eq!(img.width(), 2);
        assert_eq!(img.height(), 2);
    }
}
