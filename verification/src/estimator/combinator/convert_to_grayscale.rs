//! Reduction of a frame to shades of grey.

use crate::frame::{channels, frame_size, read_pixel, write_pixel, Frame};
use image::Rgb;
use vstd::prelude::*;

verus! {

/// The grey that stands for a colour: the sum of the thirds of its channels,
/// each third rounded down, on all three channels.
pub open spec fn gray_of(pixel: (u8, u8, u8)) -> (u8, u8, u8) {
    let brightness = (pixel.0 / 3 + pixel.1 / 3 + pixel.2 / 3) as u8;
    (brightness, brightness, brightness)
}

/// The grey that stands for a colour.
pub fn pixel_to_grayscale(pix: Rgb<u8>) -> (gray: Rgb<u8>)
    ensures
        channels(gray) == gray_of(channels(pix)),
{
    let br: u8 = pix.0[0] / 3 + pix.0[1] / 3 + pix.0[2] / 3;
    Rgb([br, br, br])
}

/// Replaces every pixel of the frame by its grey.
#[verifier::loop_isolation(false)]
pub fn to_grayscale(img: &mut Frame)
    ensures
        final(img).width() == old(img).width(),
        final(img).height() == old(img).height(),
        forall|x: int, y: int|
            old(img).contains(x, y) ==> #[trigger] final(img).at(x, y) == gray_of(
                old(img).at(x, y),
            ),
{
    let (width, height) = frame_size(img);
    let mut i: u32 = 0;
    while i < height
        invariant
            i <= height,
            img.width() == width,
            img.height() == height,
            forall|x: int, y: int|
                0 <= x < width && 0 <= y < height ==> #[trigger] img.at(x, y) == if y < i {
                    gray_of(old(img).at(x, y))
                } else {
                    old(img).at(x, y)
                },
        decreases height - i,
    {
        let mut j: u32 = 0;
        while j < width
            invariant
                j <= width,
                i < height,
                img.width() == width,
                img.height() == height,
                forall|x: int, y: int|
                    0 <= x < width && 0 <= y < height ==> #[trigger] img.at(x, y) == if y < i || (y
                        == i && x < j) {
                        gray_of(old(img).at(x, y))
                    } else {
                        old(img).at(x, y)
                    },
            decreases width - j,
        {
            let res_color = pixel_to_grayscale(read_pixel(img, j, i));
            write_pixel(img, j, i, res_color);
            j += 1;
        }
        i += 1;
    }
}

} // verus!
