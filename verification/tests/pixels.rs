use image::Rgb;
use vfi::operations::{pixel_average, pixel_difference};

#[test]
fn difference_of_equal_pixels_is_zero() {
    assert_eq!(pixel_difference(Rgb([10, 20, 30]), Rgb([10, 20, 30])), 0);
}

#[test]
fn difference_is_rounded_down() {
    // 1 + 1 + 1 = 3, whose root is 1.73...
    assert_eq!(pixel_difference(Rgb([1, 1, 1]), Rgb([0, 2, 0])), 1);
    // 9 + 16 + 0 = 25
    assert_eq!(pixel_difference(Rgb([3, 0, 7]), Rgb([0, 4, 7])), 5);
    // 3 * 255 * 255 = 195075, whose root is 441.67...
    assert_eq!(pixel_difference(Rgb([0, 0, 0]), Rgb([255, 255, 255])), 441);
}

#[test]
fn average_is_rounded_down_per_channel() {
    assert_eq!(pixel_average(Rgb([0, 1, 255]), Rgb([1, 2, 255])), Rgb([0, 1, 255]));
    assert_eq!(pixel_average(Rgb([10, 20, 30]), Rgb([20, 40, 61])), Rgb([15, 30, 45]));
}
