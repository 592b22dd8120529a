use image::Rgb;
use vfi::compensator::{compensate, half_displacement, half_motion, CompensationError};
use vfi::frame::Frame;

fn frame_of(width: u32, height: u32, pixels: &[[u8; 3]]) -> Frame {
    let mut data = Vec::new();
    for colour in pixels {
        data.extend_from_slice(colour);
    }
    Frame::from_raw(width, height, &data).unwrap()
}

fn pixels_of(frame: &Frame) -> Vec<[u8; 3]> {
    frame.to_raw().chunks(3).map(|c| [c[0], c[1], c[2]]).collect()
}

#[test]
fn half_of_a_component_is_rounded_away_from_zero() {
    assert_eq!(half_displacement(0), 0);
    assert_eq!(half_displacement(1), 1);
    assert_eq!(half_displacement(-1), -1);
    assert_eq!(half_displacement(2), 1);
    assert_eq!(half_displacement(-2), -1);
    assert_eq!(half_displacement(3), 2);
    assert_eq!(half_displacement(-3), -2);
    assert_eq!(half_displacement(7), (7.0f32 / 2.0).round() as i32);
    assert_eq!(half_displacement(-7), (-7.0f32 / 2.0).round() as i32);
    assert_eq!(half_displacement(i16::MAX), 16384);
    assert_eq!(half_displacement(i16::MIN), -16384);
}

#[test]
fn half_motion_keeps_the_shape() {
    let flow = vec![vec![(3i16, -3i16), (4, -4)], vec![(0, 1)]];
    assert_eq!(half_motion(&flow), vec![vec![(2i32, -2i32), (2, -2)], vec![(0, 1)]]);
}

#[test]
fn frames_of_different_size_are_refused() {
    let frame_1 = frame_of(2, 1, &[[1, 1, 1], [2, 2, 2]]);
    let frame_2 = frame_of(1, 2, &[[1, 1, 1], [2, 2, 2]]);
    let shifts = vec![vec![(0i32, 0i32); 2]];
    assert!(matches!(
        compensate(&frame_1, &frame_2, &shifts),
        Err(CompensationError::FrameMismatch)
    ));
}

#[test]
fn field_of_another_shape_is_refused() {
    let frame = frame_of(2, 2, &[[1, 1, 1]; 4]);
    for shifts in [
        vec![vec![(0i32, 0i32); 2]],
        vec![vec![(0i32, 0i32); 2]; 3],
        vec![vec![(0i32, 0i32); 2], vec![(0, 0); 3]],
        vec![vec![(0i32, 0i32); 1], vec![(0, 0); 2]],
        Vec::new(),
    ] {
        assert!(matches!(
            compensate(&frame, &frame, &shifts),
            Err(CompensationError::FieldMismatch)
        ));
    }
}

#[test]
fn still_pixels_are_averaged() {
    let frame_1 = frame_of(2, 1, &[[10, 20, 30], [100, 100, 100]]);
    let frame_2 = frame_of(2, 1, &[[20, 40, 61], [0, 0, 1]]);
    let shifts = vec![vec![(0i32, 0i32); 2]];
    let made = compensate(&frame_1, &frame_2, &shifts).unwrap();
    assert_eq!(made.dimensions(), (2, 1));
    assert_eq!(pixels_of(&made), vec![[15, 30, 45], [50, 50, 50]]);
}

#[test]
fn pixels_move_forward_from_the_first_and_backward_from_the_second_frame() {
    let frame_1 = frame_of(3, 1, &[[10, 20, 30], [40, 50, 60], [70, 80, 90]]);
    let frame_2 = frame_of(3, 1, &[[1, 2, 3], [7, 8, 9], [20, 40, 61]]);
    let shifts = vec![vec![(1i32, 0i32); 3]];
    let made = compensate(&frame_1, &frame_2, &shifts).unwrap();
    // Pixel 0 goes forward to place 1. Pixel 1 goes forward to place 2 and
    // backward, with its second colour, to place 0. Pixel 2 goes backward to
    // place 1, which is taken, and blends its second colour into it.
    assert_eq!(pixels_of(&made), vec![[7, 8, 9], [15, 30, 45], [40, 50, 60]]);
}

#[test]
fn forward_arrival_on_a_taken_place_blends_in_the_second_colour() {
    // Pixel 0 stays: place 0 holds the average of its two colours, 75.
    // Pixel 1 goes forward onto place 0 and blends in the colour it has in
    // the second frame, 25, not the one it has in the first, 255.
    let frame_1 = frame_of(2, 1, &[[100, 100, 100], [255, 255, 255]]);
    let frame_2 = frame_of(2, 1, &[[50, 50, 50], [25, 25, 25]]);
    let shifts = vec![vec![(0i32, 0i32), (-1, 0)]];
    let made = compensate(&frame_1, &frame_2, &shifts).unwrap();
    assert_eq!(pixels_of(&made), vec![[50, 50, 50], [140, 140, 140]]);
}

#[test]
fn single_arrival_is_put_down_unblended() {
    let frame_1 = frame_of(2, 1, &[[100, 100, 100], [200, 200, 200]]);
    let frame_2 = frame_of(2, 1, &[[1, 1, 1], [50, 60, 70]]);
    let shifts = vec![vec![(0i32, 5i32), (-1, 0)]];
    let made = compensate(&frame_1, &frame_2, &shifts).unwrap();
    // Pixel 0 leaves the frame both ways. Pixel 1 lands forward on place 0
    // with its first colour, and backward on place 2, outside.
    assert_eq!(made.pixel(0, 0), Some(Rgb([200, 200, 200])));
    // Place 1 was never written: the average of the two frames fills it.
    assert_eq!(made.pixel(1, 0), Some(Rgb([125, 130, 135])));
}

#[test]
fn vertical_shifts_move_between_rows() {
    let frame_1 = frame_of(1, 3, &[[10, 10, 10], [20, 20, 20], [30, 30, 30]]);
    let frame_2 = frame_of(1, 3, &[[2, 2, 2], [4, 4, 4], [6, 6, 6]]);
    let shifts = vec![vec![(0i32, -1i32)]; 3];
    let made = compensate(&frame_1, &frame_2, &shifts).unwrap();
    // Row 0: forward outside, backward to row 1 (second colour 2).
    // Row 1: forward to row 0 (first colour 20), backward to row 2 (4).
    // Row 2: forward to row 1, taken: average of 2 and 6; backward outside.
    assert_eq!(pixels_of(&made), vec![[20, 20, 20], [4, 4, 4], [4, 4, 4]]);
}

#[test]
fn places_never_reached_are_filled_with_the_average() {
    let frame_1 = frame_of(2, 2, &[[10, 0, 0], [20, 0, 0], [30, 0, 0], [40, 0, 0]]);
    let frame_2 = frame_of(2, 2, &[[30, 0, 0], [40, 0, 0], [50, 0, 0], [61, 0, 0]]);
    let shifts = vec![vec![(9i32, -9i32); 2]; 2];
    let made = compensate(&frame_1, &frame_2, &shifts).unwrap();
    assert_eq!(pixels_of(&made), vec![[20, 0, 0], [30, 0, 0], [40, 0, 0], [50, 0, 0]]);
}

#[test]
fn huge_shifts_fall_outside() {
    let frame_1 = frame_of(1, 1, &[[10, 10, 10]]);
    let frame_2 = frame_of(1, 1, &[[30, 30, 30]]);
    for shift in [(i32::MAX, 0), (i32::MIN, 0), (0, i32::MAX), (0, i32::MIN)] {
        let made = compensate(&frame_1, &frame_2, &vec![vec![shift]]).unwrap();
        assert_eq!(pixels_of(&made), vec![[20, 20, 20]]);
    }
}

#[test]
fn black_counts_as_not_yet_written() {
    // The first colour of the pixel is black: after the forward projection
    // its place still looks empty, and the backward projection writes the
    // second colour instead of blending.
    let frame_1 = frame_of(1, 1, &[[0, 0, 0]]);
    let frame_2 = frame_of(1, 1, &[[90, 90, 90]]);
    let made = compensate(&frame_1, &frame_2, &vec![vec![(0i32, 0i32)]]).unwrap();
    assert_eq!(pixels_of(&made), vec![[90, 90, 90]]);
}

#[test]
fn output_is_black_only_where_the_fill_is_black() {
    let frame_1 = frame_of(2, 1, &[[0, 0, 0], [1, 0, 0]]);
    let frame_2 = frame_of(2, 1, &[[0, 0, 0], [0, 1, 0]]);
    let made = compensate(&frame_1, &frame_2, &vec![vec![(7i32, 7i32); 2]]).unwrap();
    assert_eq!(pixels_of(&made), vec![[0, 0, 0], [0, 0, 0]]);
    let frame_2 = frame_of(2, 1, &[[2, 0, 0], [0, 3, 0]]);
    let made = compensate(&frame_1, &frame_2, &vec![vec![(7i32, 7i32); 2]]).unwrap();
    assert_eq!(pixels_of(&made), vec![[1, 0, 0], [0, 1, 0]]);
}

#[test]
fn textured_frames_leave_no_pixel_black() {
    let mut first = Vec::new();
    let mut second = Vec::new();
    for i in 0..48u32 {
        first.push([(1 + i * 5 % 250) as u8, (i * 3 % 256) as u8, (i % 7) as u8]);
        second.push([(2 + i * 7 % 250) as u8, (i * 11 % 256) as u8, (i % 5) as u8]);
    }
    let frame_1 = frame_of(8, 6, &first);
    let frame_2 = frame_of(8, 6, &second);
    let mut shifts = Vec::new();
    for y in 0..6i32 {
        let mut row = Vec::new();
        for x in 0..8i32 {
            row.push(((x + y) % 5 - 2, (x * y) % 3 - 1));
        }
        shifts.push(row);
    }
    let made = compensate(&frame_1, &frame_2, &shifts).unwrap();
    assert_eq!(made.dimensions(), (8, 6));
    assert!(pixels_of(&made).iter().all(|p| *p != [0, 0, 0]));
}

#[test]
fn frames_without_pixels_give_a_frame_without_pixels() {
    let empty = Frame::from_raw(0, 0, &Vec::new()).unwrap();
    let made = compensate(&empty, &empty, &Vec::new()).unwrap();
    assert_eq!(made.dimensions(), (0, 0));
}
