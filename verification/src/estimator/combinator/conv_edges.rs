//! Edge detection by convolution.

use crate::frame::{black, blank_frame, channels, copy_frame, frame_size, read_pixel, write_pixel, Frame};
use crate::operations::clamp;
use image::Rgb;
use vstd::pervasive::unreached;
use vstd::prelude::*;

verus! {

/// The share of the neighbour `(a, b)` away from `(x, y)` in the edge
/// response there: the first channel of that neighbour, weighted with
/// `a + b`. This is the sum of a horizontal and a vertical difference kernel.
pub open spec fn tap(frame: &Frame, x: int, y: int, a: int, b: int) -> int {
    (a + b) * frame.at(x + a, y + b).0
}

/// The edge response at `(x, y)`: the sum of the [`tap`]s of the pixel and
/// its eight neighbours.
pub open spec fn edge_response(frame: &Frame, x: int, y: int) -> int {
    tap(frame, x, y, -1, -1) + tap(frame, x, y, 0, -1) + tap(frame, x, y, 1, -1) + tap(
        frame,
        x,
        y,
        -1,
        0,
    ) + tap(frame, x, y, 0, 0) + tap(frame, x, y, 1, 0) + tap(frame, x, y, -1, 1) + tap(
        frame,
        x,
        y,
        0,
        1,
    ) + tap(frame, x, y, 1, 1)
}

/// The pixel `(x, y)` of the edge picture of `frame`: the edge response,
/// held between 0 and 255, on all three channels; black on the outermost
/// rows and columns, where a neighbour is missing.
pub open spec fn edge_at(frame: &Frame, x: int, y: int) -> (u8, u8, u8) {
    if 1 <= x < frame.width() - 1 && 1 <= y < frame.height() - 1 {
        let value = clamp(edge_response(frame, x, y), 0, 255) as u8;
        (value, value, value)
    } else {
        black()
    }
}

/// The share of one neighbour in the edge response.
fn weighted(img: &Frame, x: u32, y: u32, a: i32, b: i32) -> (share: i32)
    requires
        -1 <= a <= 1,
        -1 <= b <= 1,
        1 <= x < img.width() - 1,
        1 <= y < img.height() - 1,
        img.width() <= u32::MAX,
        img.height() <= u32::MAX,
    ensures
        share == tap(img, x as int, y as int, a as int, b as int),
        -510 <= share <= 510,
{
    let pixel = read_pixel(img, (x as i64 + a as i64) as u32, (y as i64 + b as i64) as u32);
    let value: i32 = pixel.0[0] as i32;
    assert(-510 <= (a + b) * value <= 510) by (nonlinear_arith)
        requires
            -2 <= a + b <= 2,
            0 <= value <= 255,
    ;
    (a + b) * value
}

/// Replaces the frame by its edge picture.
#[verifier::loop_isolation(false)]
pub fn get_conv_edges(img: &mut Frame)
    ensures
        final(img).width() == old(img).width(),
        final(img).height() == old(img).height(),
        forall|x: int, y: int|
            old(img).contains(x, y) ==> #[trigger] final(img).at(x, y) == edge_at(old(img), x, y),
{
    let (width, height) = frame_size(img);
    let mut res_img = blank_frame(width, height);
    if width >= 2 && height >= 2 {
        let mut i: u32 = 1;
        while i < height - 1
            invariant
                1 <= i <= height - 1,
                res_img.width() == width,
                res_img.height() == height,
                forall|x: int, y: int|
                    0 <= x < width && 0 <= y < height ==> #[trigger] res_img.at(x, y) == if y < i {
                        edge_at(img, x, y)
                    } else {
                        black()
                    },
            decreases height - i,
        {
            let mut j: u32 = 1;
            while j < width - 1
                invariant
                    1 <= j <= width - 1,
                    1 <= i < height - 1,
                    res_img.width() == width,
                    res_img.height() == height,
                    forall|x: int, y: int|
                        0 <= x < width && 0 <= y < height ==> #[trigger] res_img.at(x, y) == if y
                            < i || (y == i && x < j) {
                            edge_at(img, x, y)
                        } else {
                            black()
                        },
                decreases width - j,
            {
                let mut res_val: i32 = weighted(img, j, i, -1, -1) + weighted(img, j, i, 0, -1)
                    + weighted(img, j, i, 1, -1) + weighted(img, j, i, -1, 0) + weighted(
                    img,
                    j,
                    i,
                    0,
                    0,
                ) + weighted(img, j, i, 1, 0) + weighted(img, j, i, -1, 1) + weighted(
                    img,
                    j,
                    i,
                    0,
                    1,
                ) + weighted(img, j, i, 1, 1);
                if res_val < 0 {
                    res_val = 0;
                } else if res_val > 255 {
                    res_val = 255;
                }
                let value = res_val as u8;
                write_pixel(&mut res_img, j, i, Rgb([value, value, value]));
                j += 1;
            }
            i += 1;
        }
    }
    match copy_frame(img, &res_img, 0, 0) {
        Ok(_) => {},
        Err(_) => unreached(),
    }
}

} // verus!
