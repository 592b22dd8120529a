use image::Rgb;
use vfi::frame::Frame;
use vfi::plotter::{draw_line, draw_rect};

const RED: Rgb<u8> = Rgb([255, 0, 0]);
const GREEN: Rgb<u8> = Rgb([0, 255, 0]);

/// The places that are not black, with their colours, row by row.
fn painted(frame: &Frame) -> Vec<(u32, u32, Rgb<u8>)> {
    let (width, height) = frame.dimensions();
    let mut places = Vec::new();
    for y in 0..height {
        for x in 0..width {
            let pixel = frame.pixel(x, y).unwrap();
            if pixel != Rgb([0, 0, 0]) {
                places.push((x, y, pixel));
            }
        }
    }
    places
}

#[test]
fn new_frame_is_black() {
    let frame = Frame::new(3, 2).unwrap();
    assert_eq!(frame.dimensions(), (3, 2));
    assert_eq!(frame.to_raw(), vec![0u8; 18]);
    assert!(Frame::new(u32::MAX, u32::MAX).is_none());
    assert!(Frame::new(0, u32::MAX).is_some());
    // A frame without rows has no bytes, yet three times its width must be
    // a number this machine can count to.
    let countable = 3 * (u32::MAX as u128) <= usize::MAX as u128;
    assert_eq!(Frame::new(u32::MAX, 0).is_some(), countable);
    assert_eq!(Frame::from_raw(u32::MAX, 0, &Vec::new()).is_some(), countable);
}

#[test]
fn put_pixel_replaces_one_pixel() {
    let mut frame = Frame::new(3, 2).unwrap();
    assert!(frame.put_pixel(2, 1, RED));
    assert_eq!(painted(&frame), vec![(2, 1, RED)]);
    assert!(!frame.put_pixel(3, 1, RED));
    assert!(!frame.put_pixel(2, 2, RED));
    assert_eq!(painted(&frame), vec![(2, 1, RED)]);
}

#[test]
fn rectangle_is_filled() {
    let mut frame = Frame::new(5, 4).unwrap();
    draw_rect(&mut frame, 1, 1, 3, 2, RED);
    assert_eq!(
        painted(&frame),
        vec![(1, 1, RED), (2, 1, RED), (3, 1, RED), (1, 2, RED), (2, 2, RED), (3, 2, RED)]
    );
}

#[test]
fn rectangle_without_area_paints_nothing() {
    let mut frame = Frame::new(5, 4).unwrap();
    draw_rect(&mut frame, 9, 9, 0, 3, RED);
    draw_rect(&mut frame, 9, 9, 3, 0, RED);
    assert_eq!(painted(&frame), Vec::new());
}

#[test]
fn rectangle_can_cover_the_frame() {
    let mut frame = Frame::new(2, 3).unwrap();
    draw_rect(&mut frame, 0, 0, 2, 3, RED);
    assert_eq!(painted(&frame).len(), 6);
}

#[test]
fn line_from_a_point_to_itself_is_its_start_mark() {
    let mut frame = Frame::new(3, 3).unwrap();
    draw_line(&mut frame, (1, 2), (1, 2), RED, 1);
    assert_eq!(painted(&frame), vec![(1, 2, GREEN)]);
}

#[test]
fn level_line_runs_from_start_to_end() {
    let mut frame = Frame::new(6, 3).unwrap();
    draw_line(&mut frame, (1, 1), (4, 1), RED, 1);
    assert_eq!(painted(&frame), vec![(1, 1, GREEN), (2, 1, RED), (3, 1, RED), (4, 1, RED)]);
    let mut frame = Frame::new(6, 3).unwrap();
    draw_line(&mut frame, (4, 1), (1, 1), RED, 1);
    assert_eq!(painted(&frame), vec![(1, 1, RED), (2, 1, RED), (3, 1, RED), (4, 1, GREEN)]);
}

#[test]
fn upright_line_runs_from_start_to_end() {
    let mut frame = Frame::new(3, 5).unwrap();
    draw_line(&mut frame, (2, 0), (2, 4), RED, 1);
    assert_eq!(
        painted(&frame),
        vec![(2, 0, GREEN), (2, 1, RED), (2, 2, RED), (2, 3, RED), (2, 4, RED)]
    );
}

#[test]
fn diagonal_line_steps_both_ways_at_once() {
    let mut frame = Frame::new(4, 4).unwrap();
    draw_line(&mut frame, (0, 0), (3, 3), RED, 1);
    assert_eq!(painted(&frame), vec![(0, 0, GREEN), (1, 1, RED), (2, 2, RED), (3, 3, RED)]);
    let mut frame = Frame::new(4, 4).unwrap();
    draw_line(&mut frame, (3, 0), (0, 3), RED, 1);
    assert_eq!(painted(&frame), vec![(3, 0, GREEN), (2, 1, RED), (1, 2, RED), (0, 3, RED)]);
}

#[test]
fn flat_line_climbs_now_and_then() {
    let mut frame = Frame::new(6, 4).unwrap();
    draw_line(&mut frame, (0, 0), (5, 3), RED, 1);
    assert_eq!(
        painted(&frame),
        vec![(0, 0, GREEN), (1, 0, RED), (2, 1, RED), (3, 2, RED), (4, 2, RED), (5, 3, RED)]
    );
    let mut frame = Frame::new(6, 4).unwrap();
    draw_line(&mut frame, (5, 3), (0, 0), RED, 1);
    assert_eq!(
        painted(&frame),
        vec![(0, 0, RED), (1, 1, RED), (2, 1, RED), (3, 2, RED), (4, 3, RED), (5, 3, GREEN)]
    );
}

#[test]
fn steep_line_shifts_now_and_then() {
    let mut frame = Frame::new(4, 11).unwrap();
    draw_line(&mut frame, (0, 0), (3, 10), RED, 1);
    let places: Vec<(u32, u32)> = painted(&frame).iter().map(|p| (p.0, p.1)).collect();
    assert_eq!(
        places,
        vec![
            (0, 0),
            (0, 1),
            (0, 2),
            (1, 3),
            (1, 4),
            (1, 5),
            (2, 6),
            (2, 7),
            (2, 8),
            (3, 9),
            (3, 10)
        ]
    );
}

#[test]
fn wide_line_stamps_squares() {
    let mut frame = Frame::new(5, 3).unwrap();
    draw_line(&mut frame, (0, 0), (2, 0), RED, 2);
    assert_eq!(
        painted(&frame),
        vec![
            (0, 0, GREEN),
            (1, 0, RED),
            (2, 0, RED),
            (3, 0, RED),
            (0, 1, RED),
            (1, 1, RED),
            (2, 1, RED),
            (3, 1, RED)
        ]
    );
}

#[test]
fn line_without_width_paints_nothing() {
    let mut frame = Frame::new(5, 3).unwrap();
    draw_line(&mut frame, (0, 0), (4, 2), RED, 0);
    assert_eq!(painted(&frame), Vec::new());
}

#[test]
fn later_squares_paint_over_the_start_mark_of_a_wide_line() {
    // The second square of a wide line going left covers the first corner.
    let mut frame = Frame::new(4, 2).unwrap();
    draw_line(&mut frame, (1, 0), (0, 0), RED, 2);
    assert_eq!(frame.pixel(1, 0), Some(RED));
    assert_eq!(frame.pixel(0, 0), Some(RED));
}
