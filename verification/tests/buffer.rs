use lab_transform::{check_dimensions, count_pixels, TransformError};

#[test]
fn count_pixels_counts_whole_pixels() {
    assert_eq!(count_pixels(&[]), Ok(0));
    assert_eq!(count_pixels(&[1, 2, 3, 4]), Ok(1));
    assert_eq!(count_pixels(&[0; 12]), Ok(3));
}

#[test]
fn count_pixels_refuses_a_broken_pixel() {
    assert_eq!(count_pixels(&[1]), Err(TransformError::MalformedBuffer));
    assert_eq!(count_pixels(&[0; 7]), Err(TransformError::MalformedBuffer));
    assert_eq!(count_pixels(&[0; 9]), Err(TransformError::MalformedBuffer));
}

#[test]
fn check_dimensions_accepts_the_exact_size() {
    assert_eq!(check_dimensions(&[0; 8], 2, 1), Ok(2));
    assert_eq!(check_dimensions(&[0; 8], 1, 2), Ok(2));
    assert_eq!(check_dimensions(&[0; 24], 3, 2), Ok(6));
}

#[test]
fn check_dimensions_accepts_an_image_without_pixels() {
    assert_eq!(check_dimensions(&[], 0, 0), Ok(0));
    assert_eq!(check_dimensions(&[], 0, 5), Ok(0));
    assert_eq!(check_dimensions(&[], 5, 0), Ok(0));
}

#[test]
fn check_dimensions_refuses_another_size() {
    assert_eq!(check_dimensions(&[0; 8], 1, 1), Err(TransformError::DimensionMismatch));
    assert_eq!(check_dimensions(&[0; 4], 2, 1), Err(TransformError::DimensionMismatch));
    assert_eq!(check_dimensions(&[], 1, 1), Err(TransformError::DimensionMismatch));
    assert_eq!(check_dimensions(&[0; 4], 0, 0), Err(TransformError::DimensionMismatch));
}

#[test]
fn check_dimensions_reports_a_broken_pixel_first() {
    assert_eq!(check_dimensions(&[0; 6], 1, 1), Err(TransformError::MalformedBuffer));
    assert_eq!(check_dimensions(&[0; 7], 2, 1), Err(TransformError::MalformedBuffer));
}

#[test]
fn check_dimensions_takes_the_largest_dimensions() {
    assert_eq!(
        check_dimensions(&[0; 4], u32::MAX, u32::MAX),
        Err(TransformError::DimensionMismatch)
    );
    assert_eq!(check_dimensions(&[], u32::MAX, 0), Ok(0));
}
