use raytrace::color::{Color, BRIGHTEST};
use raytrace::fixed::Fixed;
use raytrace::vec3::Vec3;

fn colour(r: i64, g: i64, b: i64) -> Color {
    Vec3::new(Fixed::from_raw(r), Fixed::from_raw(g), Fixed::from_raw(b))
}

fn line(c: Color, samples: i32) -> String {
    let mut out = Vec::new();
    c.write_color(samples, &mut out);
    String::from_utf8(out).expect("ASCII")
}

#[test]
fn brightest_is_just_below_one() {
    assert_eq!(BRIGHTEST, 999_000);
}

#[test]
fn one_sample_is_gamma_corrected() {
    // sqrt(1) = 1 is clamped to 0.999: 255. sqrt(0.25) = 0.5: 128. sqrt(0) = 0.
    assert_eq!(line(colour(1_000_000, 250_000, 0), 1), "255 128 0\n");
}

#[test]
fn samples_are_averaged() {
    // Sums of 100, 25 and 4 over 100 samples: means 1, 0.25, 0.04; roots 1, 0.5, 0.2.
    assert_eq!(line(colour(100_000_000, 25_000_000, 4_000_000), 100), "255 128 51\n");
}

#[test]
fn one_two_and_three_digits() {
    // Means 0.0009, 0.01 and 0.36; roots 0.03, 0.1 and 0.6; bytes 7, 25 and 153.
    assert_eq!(line(colour(900, 10_000, 360_000), 1), "7 25 153\n");
    // Roots 0.04, 0.39 and 0.4: bytes 10 (10.24), 99 (99.84) and 102 (102.4).
    assert_eq!(line(colour(1_600, 152_100, 160_000), 1), "10 99 102\n");
}

#[test]
fn overbright_and_negative_channels_are_clamped() {
    assert_eq!(line(colour(9_000_000, -250_000, 998_001), 1), "255 0 255\n");
    // Roots 0.996117 and 0.996: 255.005 and 254.976.
    assert_eq!(line(colour(992_250, 992_016, -1), 1), "255 254 0\n");
}

#[test]
fn no_samples_saturate() {
    // The scale saturates: a positive channel is brightest, and zero stays zero.
    assert_eq!(line(colour(1, 0, 500_000), 0), "255 0 255\n");
}

#[test]
fn negative_sample_count_is_black() {
    assert_eq!(line(colour(1_000_000, 250_000, 0), -4), "0 0 0\n");
}

#[test]
fn line_is_appended() {
    let mut out = b"kept\n".to_vec();
    colour(1_000_000, 0, 0).write_color(1, &mut out);
    colour(0, 0, 250_000).write_color(1, &mut out);
    assert_eq!(out, b"kept\n255 0 0\n0 0 128\n".to_vec());
}
