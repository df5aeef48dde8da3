use lab_transform::{
    equalize_lightness_lab, invert_lightness_lab, laberation, mean_lightness, Lab, Rgb,
};
use palette::IntoColor;
use std::cell::RefCell;

// The colour arithmetic of the real pipeline: bytes are scaled to [0, 1],
// converted between sRGB and LAB, and components are clamped to [0, 1] and
// cut to a byte on the way back.

fn to_lab(color: Rgb) -> Lab<f32> {
    let rgb = palette::Srgb::new(
        color.red as f32 / 255.0,
        color.green as f32 / 255.0,
        color.blue as f32 / 255.0,
    );
    let lab: palette::Lab = rgb.into_color();
    Lab { l: lab.l, a: lab.a, b: lab.b }
}

fn to_byte(unit: f32) -> u8 {
    (unit.clamp(0.0, 1.0) * 255.0) as u8
}

fn to_rgb(color: Lab<f32>) -> Rgb {
    let rgb: palette::Srgb = palette::Lab::new(color.l, color.a, color.b).into_color();
    Rgb { red: to_byte(rgb.red), green: to_byte(rgb.green), blue: to_byte(rgb.blue) }
}

fn reflect(lightness: f32) -> f32 {
    100.0 - lightness
}

fn sum(total: f32, lightness: f32) -> f32 {
    total + lightness
}

fn share(total: f32, count: usize) -> f32 {
    total / count as f32
}

fn invert(image: &[u8]) -> Vec<u8> {
    invert_lightness_lab(image, 0, 0, to_lab, reflect, to_rgb).unwrap()
}

fn equalize(image: &[u8]) -> Vec<u8> {
    equalize_lightness_lab(image, 0, 0, to_lab, 0.0, sum, share, to_rgb).unwrap()
}

fn lightness_of(image: &[u8], pixel: usize) -> f32 {
    to_lab(Rgb { red: image[4 * pixel], green: image[4 * pixel + 1], blue: image[4 * pixel + 2] })
        .l
}

fn apart(left: u8, right: u8) -> u8 {
    left.abs_diff(right)
}

fn within(left: &[u8], right: &[u8], tolerance: u8) -> bool {
    left.len() == right.len()
        && left.iter().zip(right.iter()).all(|(l, r)| apart(*l, *r) <= tolerance)
}

// Muted colours, whose inverse and whose equalized form stay displayable.
fn muted_image() -> Vec<u8> {
    vec![
        128, 128, 128, 255, 100, 120, 140, 200, 60, 70, 80, 10, 90, 100, 110, 0, 200, 180, 160, 77,
        33, 33, 33, 1,
    ]
}

#[test]
fn round_trip_through_lab_is_within_one_step() {
    let mut image: Vec<u8> = Vec::new();
    for red in (0..=255u16).step_by(15) {
        for green in (0..=255u16).step_by(15) {
            for blue in (0..=255u16).step_by(15) {
                image.extend_from_slice(&[red as u8, green as u8, blue as u8, 255]);
            }
        }
    }
    let pixels: u32 = (image.len() / 4) as u32;
    let output = laberation(&image, pixels, 1, 0, to_lab, to_rgb).unwrap();
    assert!(within(&output, &image, 1));
}

#[test]
fn round_trip_of_every_gray_is_within_one_step() {
    let mut image: Vec<u8> = Vec::new();
    for gray in 0..=255u8 {
        image.extend_from_slice(&[gray, gray, gray, gray]);
    }
    let output = laberation(&image, 16, 16, 0, to_lab, to_rgb).unwrap();
    assert!(within(&output, &image, 1));
}

#[test]
fn white_inverts_to_black() {
    assert_eq!(invert(&[255, 255, 255, 255]), vec![0, 0, 0, 255]);
}

#[test]
fn black_inverts_to_white() {
    let output: Vec<u8> = invert(&[0, 0, 0, 9]);
    assert!(within(&output, &[255, 255, 255, 9], 1));
}

#[test]
fn middle_gray_inverts_to_a_darker_gray() {
    // Lightness 53.59 becomes 46.41, which is gray 109 or 110.
    let output: Vec<u8> = invert(&[128, 128, 128, 40]);
    assert!(within(&output, &[110, 110, 110, 40], 1));
    assert!(output[0] < 128);
}

#[test]
fn inversion_reflects_lightness_around_fifty() {
    let image: Vec<u8> = muted_image();
    let output: Vec<u8> = invert(&image);
    for pixel in 0..image.len() / 4 {
        let total: f32 = lightness_of(&image, pixel) + lightness_of(&output, pixel);
        assert!((total - 100.0).abs() < 1.0);
    }
}

#[test]
fn inversion_twice_returns_muted_colors() {
    let image: Vec<u8> = muted_image();
    let twice: Vec<u8> = invert(&invert(&image));
    assert!(within(&twice, &image, 1));
    for pixel in 0..image.len() / 4 {
        assert_eq!(twice[4 * pixel + 3], image[4 * pixel + 3]);
    }
}

#[test]
fn inversion_twice_loses_colors_that_leave_the_gamut() {
    // A saturated green has no displayable inverse: the first inversion is
    // clamped, and the second cannot find the way back.
    let image: Vec<u8> = vec![10, 200, 30, 255];
    let once: Vec<u8> = invert(&image);
    assert!(once.contains(&0));
    let twice: Vec<u8> = invert(&once);
    assert!(!within(&twice, &image, 2));
    assert_eq!(twice[3], 255);
}

#[test]
fn equalize_red_and_blue_share_lightness_and_keep_chroma() {
    let seen: RefCell<Vec<Lab<f32>>> = RefCell::new(Vec::new());
    let record = |color: Lab<f32>| {
        seen.borrow_mut().push(Lab { l: color.l, a: color.a, b: color.b });
        to_rgb(color)
    };
    let image: Vec<u8> = vec![255, 0, 0, 255, 0, 0, 255, 255];
    let output = equalize_lightness_lab(&image, 2, 1, to_lab, 0.0, sum, share, record).unwrap();

    let red = to_lab(Rgb { red: 255, green: 0, blue: 0 });
    let blue = to_lab(Rgb { red: 0, green: 0, blue: 255 });
    let mean: f32 = (0.0 + red.l + blue.l) / 2.0;
    assert!((mean - 42.77).abs() < 0.01);
    assert_eq!(
        *seen.borrow(),
        vec![Lab { l: mean, a: red.a, b: red.b }, Lab { l: mean, a: blue.a, b: blue.b }]
    );

    assert_eq!(output.len(), 8);
    assert_eq!(output[3], 255);
    assert_eq!(output[7], 255);
    // Still a red and still a blue.
    assert!(output[0] > 200 && output[1] < 20 && output[2] < 20);
    assert!(output[6] > 200 && output[4] < 100 && output[5] < 100);
    assert!(within(&output, &[219, 0, 0, 255, 82, 43, 255, 255], 1));
}

#[test]
fn mean_lightness_of_red_and_blue() {
    let image: Vec<u8> = vec![255, 0, 0, 255, 0, 0, 255, 255];
    let mean: f32 = mean_lightness(&image, &to_lab, 0.0, &sum, &share).unwrap();
    assert!((mean - 42.769).abs() < 0.01);
}

#[test]
fn mean_lightness_of_black_and_white() {
    let image: Vec<u8> = vec![0, 0, 0, 255, 255, 255, 255, 255];
    let mean: f32 = mean_lightness(&image, &to_lab, 0.0, &sum, &share).unwrap();
    assert!((mean - 50.0).abs() < 0.001);
}

#[test]
fn equalize_brings_every_pixel_to_the_mean_lightness() {
    let image: Vec<u8> = muted_image();
    let pixels: usize = image.len() / 4;
    let mean: f32 = mean_lightness(&image, &to_lab, 0.0, &sum, &share).unwrap();
    let by_hand: f32 = (0..pixels).map(|pixel| lightness_of(&image, pixel)).sum::<f32>()
        / pixels as f32;
    assert!((mean - by_hand).abs() < 0.001);
    let output: Vec<u8> = equalize(&image);
    for pixel in 0..pixels {
        assert!((lightness_of(&output, pixel) - mean).abs() < 1.0);
        assert_eq!(output[4 * pixel + 3], image[4 * pixel + 3]);
    }
}

#[test]
fn equalize_of_a_single_pixel_is_a_no_op() {
    for image in [[120u8, 80, 200, 77], [0, 0, 0, 0], [255, 255, 255, 255], [12, 200, 40, 3]] {
        let output: Vec<u8> = equalize(&image);
        assert!(within(&output, &image, 1));
        assert_eq!(output[3], image[3]);
    }
}

#[test]
fn equalize_of_equal_pixels_is_a_no_op() {
    let image: Vec<u8> = vec![90, 100, 110, 1, 90, 100, 110, 2, 90, 100, 110, 3];
    let output: Vec<u8> = equalize(&image);
    assert!(within(&output, &image, 1));
}

#[test]
fn laberation_with_offset_zero_reencodes_every_pixel() {
    let image: Vec<u8> = muted_image();
    let output = laberation(&image, 3, 2, 0, to_lab, to_rgb).unwrap();
    let mut expected: Vec<u8> = Vec::new();
    for pixel in 0..6usize {
        let color = to_rgb(to_lab(Rgb {
            red: image[4 * pixel],
            green: image[4 * pixel + 1],
            blue: image[4 * pixel + 2],
        }));
        expected.extend_from_slice(&[color.red, color.green, color.blue, image[4 * pixel + 3]]);
    }
    assert_eq!(output, expected);
    assert!(within(&output, &image, 1));
}

#[test]
fn laberation_of_a_flat_image_changes_nothing_visible() {
    let mut image: Vec<u8> = Vec::new();
    for pixel in 0..12u8 {
        image.extend_from_slice(&[90, 100, 110, pixel]);
    }
    for offset in [-5, -1, 0, 1, 5] {
        let output = laberation(&image, 4, 3, offset, to_lab, to_rgb).unwrap();
        assert!(within(&output, &image, 1));
    }
}

#[test]
fn laberation_mixes_the_channels_of_neighbors() {
    // 2 x 1, offset 1: the left pixel keeps its lightness and its `b` and
    // takes `a` from the right pixel; the right pixel keeps its lightness
    // and its `a` and takes `b` from the left pixel.
    let image: Vec<u8> = vec![100, 120, 140, 255, 200, 180, 160, 128];
    let left = to_lab(Rgb { red: 100, green: 120, blue: 140 });
    let right = to_lab(Rgb { red: 200, green: 180, blue: 160 });
    let first = to_rgb(Lab { l: left.l, a: right.a, b: left.b });
    let second = to_rgb(Lab { l: right.l, a: right.a, b: left.b });
    let output = laberation(&image, 2, 1, 1, to_lab, to_rgb).unwrap();
    assert_eq!(
        output,
        vec![first.red, first.green, first.blue, 255, second.red, second.green, second.blue, 128]
    );
    assert_ne!(output, image);
}

#[test]
fn laberation_with_a_huge_offset_smears_the_edges() {
    let image: Vec<u8> = muted_image();
    let corner_a: f32 = to_lab(Rgb { red: 60, green: 70, blue: 80 }).a;
    let corner_b: f32 = to_lab(Rgb { red: 128, green: 128, blue: 128 }).b;
    for offset in [2, 3, 50, i32::MAX] {
        let output = laberation(&image, 3, 2, offset, to_lab, to_rgb).unwrap();
        for y in 0..2usize {
            for x in 0..3usize {
                let pixel: usize = y * 3 + x;
                let below: usize = 3 + x;
                let expected = to_rgb(Lab {
                    l: lightness_of(&image, below),
                    a: corner_a,
                    b: corner_b,
                });
                assert_eq!(output[4 * pixel], expected.red);
                assert_eq!(output[4 * pixel + 1], expected.green);
                assert_eq!(output[4 * pixel + 2], expected.blue);
                assert_eq!(output[4 * pixel + 3], image[4 * pixel + 3]);
            }
        }
    }
}
