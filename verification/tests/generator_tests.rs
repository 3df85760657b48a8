use evo_sculptor::generator::{
    generate_image_from_samples, normalize_channel, PhenotypeImage, RawSample, RenderError,
    EPSILON_MICROS, MIDPOINT_BYTE,
};

fn sample(r: i64, g: i64, b: i64) -> RawSample {
    RawSample { r: Some(r), g: Some(g), b: Some(b) }
}

fn render(samples: &Vec<RawSample>, w: usize, h: usize) -> PhenotypeImage {
    generate_image_from_samples(samples, w, h).expect("rendering should succeed")
}

#[test]
fn rendering_is_deterministic() {
    let samples = vec![
        sample(-3_000_000, 0, 17),
        sample(250_000, 4, -17),
        sample(1_000_000, -4, 0),
        RawSample { r: Some(5), g: None, b: Some(123) },
    ];
    let a = render(&samples, 2, 2);
    let b = render(&samples, 2, 2);
    assert_eq!(a.pixels.len(), b.pixels.len());
    for (pa, pb) in a.pixels.iter().zip(b.pixels.iter()) {
        assert_eq!((pa.r, pa.g, pa.b), (pb.r, pb.g, pb.b));
    }
}

#[test]
fn normalization_stretches_each_channel_to_full_range() {
    // raw red values in micros: 0, 1.0, 0.5, 0.25
    let samples = vec![
        sample(0, 7, 7),
        sample(1_000_000, 7, 7),
        sample(500_000, 7, 7),
        sample(250_000, 7, 7),
    ];
    let img = render(&samples, 2, 2);
    let reds: Vec<u8> = img.pixels.iter().map(|p| p.r).collect();
    // floor semantics: 0.5 * 255 = 127.5 -> 127, 0.25 * 255 = 63.75 -> 63
    assert_eq!(reds, vec![0, 255, 127, 63]);
    // the flat green and blue channels render as the midpoint everywhere
    for p in &img.pixels {
        assert_eq!(p.g, MIDPOINT_BYTE);
        assert_eq!(p.b, MIDPOINT_BYTE);
    }
}

#[test]
fn minimum_maps_to_zero_and_maximum_to_255() {
    let vals = vec![Some(-5_000_000i64), Some(3_250_000), Some(9_000_000), Some(-1_000_000)];
    let bytes = normalize_channel(&vals);
    assert_eq!(bytes.len(), 4);
    assert_eq!(bytes[0], 0);
    assert_eq!(bytes[2], 255);
    assert!(bytes.iter().all(|&b| b <= 255));
}

#[test]
fn range_at_threshold_still_normalizes() {
    // a range of exactly one micro (the epsilon) is not degenerate
    assert_eq!(EPSILON_MICROS, 1);
    let bytes = normalize_channel(&vec![Some(41i64), Some(42)]);
    assert_eq!(bytes, vec![0, 255]);
}

#[test]
fn flat_channel_renders_as_midpoint() {
    let bytes = normalize_channel(&vec![Some(42i64); 5]);
    assert_eq!(bytes, vec![MIDPOINT_BYTE; 5]);
}

#[test]
fn non_finite_sample_degenerates_the_whole_channel() {
    let bytes = normalize_channel(&vec![Some(0i64), Some(1_000_000), None, Some(500_000)]);
    assert_eq!(bytes, vec![MIDPOINT_BYTE; 4]);
}

#[test]
fn empty_channel_renders_empty() {
    let bytes = normalize_channel(&Vec::new());
    assert!(bytes.is_empty());
}

#[test]
fn channels_normalize_independently() {
    // red spans a huge range, blue a tiny one; both still reach 0 and 255
    let samples = vec![sample(-9_000_000, 0, 10), sample(9_000_000, 0, 12)];
    let img = render(&samples, 2, 1);
    assert_eq!(img.pixels[0].r, 0);
    assert_eq!(img.pixels[1].r, 255);
    assert_eq!(img.pixels[0].b, 0);
    assert_eq!(img.pixels[1].b, 255);
    assert_eq!(img.pixels[0].g, MIDPOINT_BYTE);
}

#[test]
fn sample_count_mismatch_is_rejected() {
    let samples = vec![sample(0, 0, 0); 3];
    let err = generate_image_from_samples(&samples, 2, 2).unwrap_err();
    assert_eq!(err, RenderError::SampleCountMismatch);
}

#[test]
fn image_dimensions_are_recorded() {
    let samples = vec![sample(0, 0, 0); 6];
    let img = render(&samples, 3, 2);
    assert_eq!(img.width, 3);
    assert_eq!(img.height, 2);
    assert_eq!(img.pixels.len(), 6);
}
