//! Frames: rasters of 8-bit RGB pixels kept in an `image::ImageBuffer`.
//!
//! Verus cannot look inside the buffer, so its dimensions and its pixels are
//! given names here, and every access goes through one of the small trusted
//! functions below. Everything else in the crate is proved against them.

use image::{GenericImage, ImageBuffer, ImageError, Rgb};
use vstd::prelude::*;

verus! {

/// `image::Rgb`: a pixel, which the `image` crate declares as a tuple struct
/// around the array of its three channels. The verifier reads that
/// declaration, so the channels can be taken out and put together here.
#[verifier::external_type_specification]
#[verifier::reject_recursive_types(T)]
pub struct ExRgb<T>(Rgb<T>);

/// `image::ImageError`: what `GenericImage::copy_from` fails with. Nothing is
/// said of what it holds.
#[verifier::external_type_specification]
#[verifier::external_body]
pub struct ExImageError(ImageError);

/// A raster of RGB pixels with 8 bits per channel.
///
/// The pixels live in an `image::ImageBuffer<Rgb<u8>, Vec<u8>>`, which stays
/// opaque to the verifier: contracts speak of [`frame_dimensions`] and
/// [`frame_pixels`].
#[verifier::external_body]
pub struct Frame {
    buffer: ImageBuffer<Rgb<u8>, Vec<u8>>,
}

/// Width and height of the buffer, as `ImageBuffer::dimensions` reports them.
pub uninterp spec fn frame_dimensions(frame: Frame) -> (nat, nat);

/// The pixels of the buffer by coordinate `(x, y)`, each as its three channels.
/// Only coordinates inside the dimensions carry meaning.
pub uninterp spec fn frame_pixels(frame: Frame) -> Map<(int, int), (u8, u8, u8)>;

/// The three channels of a pixel as a tuple.
pub open spec fn channels(pixel: Rgb<u8>) -> (u8, u8, u8) {
    (pixel.0[0], pixel.0[1], pixel.0[2])
}

/// The all-zero pixel, which new frames are filled with.
pub open spec fn black() -> (u8, u8, u8) {
    (0u8, 0u8, 0u8)
}

/// Position of the first channel of pixel `(x, y)` in row-major interleaved bytes.
pub open spec fn raw_index(width: int, x: int, y: int) -> int {
    3 * (y * width + x)
}

/// The pixel `(x, y)` read from row-major interleaved bytes.
pub open spec fn raw_pixel(data: Seq<u8>, width: int, x: int, y: int) -> (u8, u8, u8) {
    let i = raw_index(width, x, y);
    (data[i], data[i + 1], data[i + 2])
}

impl Frame {
    /// The number of pixels in a row.
    pub open spec fn width(&self) -> nat {
        frame_dimensions(*self).0
    }

    /// The number of rows.
    pub open spec fn height(&self) -> nat {
        frame_dimensions(*self).1
    }

    /// Whether `(x, y)` lies inside the frame.
    pub open spec fn contains(&self, x: int, y: int) -> bool {
        0 <= x < self.width() && 0 <= y < self.height()
    }

    /// The channels of the pixel at `(x, y)`.
    #[verifier::inline]
    pub open spec fn at(&self, x: int, y: int) -> (u8, u8, u8) {
        frame_pixels(*self)[(x, y)]
    }

    /// Two frames show the same picture: equal dimensions, equal pixels.
    pub open spec fn same_picture(&self, other: &Frame) -> bool {
        &&& self.width() == other.width()
        &&& self.height() == other.height()
        &&& forall|x: int, y: int|
            self.contains(x, y) ==> #[trigger] self.at(x, y) == other.at(x, y)
    }
}

/// Whether the bytes of a raster of `width` by `height` pixels can be counted
/// and held: three times the width is a `usize`, and three bytes for every
/// pixel are no more than a vector holds.
pub open spec fn can_hold(width: int, height: int) -> bool {
    3 * width <= usize::MAX && 3 * width * height <= isize::MAX
}

/// `ImageBuffer::new`: a buffer of the given dimensions with every channel zero.
/// It counts its bytes in `usize`, three times the width first and that times
/// the height, and panics where either product does not fit, or where the
/// vector cannot be made. The precondition excludes all three.
#[verifier::external_body]
pub(crate) fn blank_frame(width: u32, height: u32) -> (frame: Frame)
    requires
        3 * width <= usize::MAX,
        3 * width * height <= isize::MAX,
    ensures
        frame_dimensions(frame) == (width as nat, height as nat),
        forall|x: int, y: int|
            0 <= x < width && 0 <= y < height ==> #[trigger] frame_pixels(frame)[(x, y)]
                == black(),
{
    Frame { buffer: ImageBuffer::new(width, height) }
}

/// `ImageBuffer::dimensions`. Every buffer had its bytes counted at its
/// making, in `usize`, three times the width first, and was tested to fit
/// into the `Vec<u8>` that holds it; and no vector holds more than
/// `isize::MAX` bytes.
#[verifier::external_body]
pub(crate) fn frame_size(frame: &Frame) -> (size: (u32, u32))
    ensures
        frame_dimensions(*frame) == (size.0 as nat, size.1 as nat),
        3 * size.0 <= usize::MAX,
        3 * size.0 * size.1 <= isize::MAX,
{
    frame.buffer.dimensions()
}

/// `ImageBuffer::get_pixel`, which panics outside the dimensions.
#[verifier::external_body]
pub(crate) fn read_pixel(frame: &Frame, x: u32, y: u32) -> (pixel: Rgb<u8>)
    requires
        x < frame_dimensions(*frame).0,
        y < frame_dimensions(*frame).1,
    ensures
        channels(pixel) == frame_pixels(*frame)[(x as int, y as int)],
{
    *frame.buffer.get_pixel(x, y)
}

/// `ImageBuffer::put_pixel`, which panics outside the dimensions: one pixel is
/// replaced, the others and the dimensions stay.
#[verifier::external_body]
pub(crate) fn write_pixel(frame: &mut Frame, x: u32, y: u32, pixel: Rgb<u8>)
    requires
        x < frame_dimensions(*old(frame)).0,
        y < frame_dimensions(*old(frame)).1,
    ensures
        frame_dimensions(*final(frame)) == frame_dimensions(*old(frame)),
        frame_pixels(*final(frame)) == frame_pixels(*old(frame)).insert(
            (x as int, y as int),
            channels(pixel),
        ),
{
    frame.buffer.put_pixel(x, y, pixel)
}

/// Whether `source`, placed with its top-left corner at `(x, y)`, lies inside
/// `target`.
pub open spec fn fits_into(source: &Frame, target: &Frame, x: int, y: int) -> bool {
    source.width() + x <= target.width() && source.height() + y <= target.height()
}

/// The pixel `(i, j)` of `target` once `source` has been placed on it with its
/// top-left corner at `(x, y)`.
pub open spec fn pasted_at(target: &Frame, source: &Frame, x: int, y: int, i: int, j: int) -> (
    u8,
    u8,
    u8,
) {
    if source.contains(i - x, j - y) {
        source.at(i - x, j - y)
    } else {
        target.at(i, j)
    }
}

/// `GenericImage::copy_from`: places `source` with its top-left corner at
/// `(x, y)` of `target`. It fails, changing nothing, when `source` does not fit
/// there. The sums it tests are taken in `u32`, hence the precondition.
#[verifier::external_body]
pub(crate) fn copy_frame(target: &mut Frame, source: &Frame, x: u32, y: u32) -> (done: Result<
    (),
    ImageError,
>)
    requires
        frame_dimensions(*source).0 + x <= u32::MAX,
        frame_dimensions(*source).1 + y <= u32::MAX,
    ensures
        frame_dimensions(*final(target)) == frame_dimensions(*old(target)),
        done is Ok <==> fits_into(source, old(target), x as int, y as int),
        done is Ok ==> forall|i: int, j: int|
            old(target).contains(i, j) ==> #[trigger] frame_pixels(*final(target))[(i, j)]
                == pasted_at(old(target), source, x as int, y as int, i, j),
        done is Err ==> frame_pixels(*final(target)) == frame_pixels(*old(target)),
{
    target.buffer.copy_from(&source.buffer, x, y)
}

/// The three bytes of every pixel lie inside the bytes of the raster.
proof fn lemma_raw_index_in_bounds(width: int, height: int, x: int, y: int)
    requires
        0 <= x < width,
        0 <= y < height,
    ensures
        0 <= raw_index(width, x, y),
        raw_index(width, x, y) + 3 <= 3 * width * height,
        raw_index(width, x, y) + 3 <= 3 * (width * height),
        raw_index(width, x, y) + 3 <= 3 * (height * width),
{
    assert(y * width + x + 1 <= width * height) by (nonlinear_arith)
        requires
            0 <= x < width,
            0 <= y < height,
    ;
    assert(0 <= y * width) by (nonlinear_arith)
        requires
            0 <= y,
            0 <= width,
    ;
    assert(3 * width * height == 3 * (width * height)) by (nonlinear_arith);
    assert(width * height == height * width) by (nonlinear_arith);
}

impl Frame {
    /// A black frame of the given size, or `None` where its bytes cannot be
    /// counted or held.
    pub fn new(width: u32, height: u32) -> (made: Option<Frame>)
        ensures
            made is Some <==> can_hold(width as int, height as int),
            made matches Some(frame) ==> {
                &&& frame.width() == width
                &&& frame.height() == height
                &&& forall|x: int, y: int|
                    frame.contains(x, y) ==> #[trigger] frame.at(x, y) == black()
            },
    {
        assert((width as u128) * (height as u128) <= 0xFFFF_FFFF_FFFF_FFFF) by (nonlinear_arith);
        let bytes: u128 = 3u128 * ((width as u128) * (height as u128));
        assert(bytes == 3 * width * height) by (nonlinear_arith)
            requires
                bytes == 3 * (width * height),
        ;
        if 3u128 * (width as u128) > usize::MAX as u128 || bytes > isize::MAX as u128 {
            None
        } else {
            Some(blank_frame(width, height))
        }
    }

    /// Width and height of the frame.
    pub fn dimensions(&self) -> (size: (u32, u32))
        ensures
            size.0 == self.width(),
            size.1 == self.height(),
            can_hold(size.0 as int, size.1 as int),
    {
        frame_size(self)
    }

    /// The pixel at `(x, y)`, or `None` outside the frame.
    pub fn pixel(&self, x: u32, y: u32) -> (found: Option<Rgb<u8>>)
        ensures
            found is Some <==> self.contains(x as int, y as int),
            found matches Some(p) ==> channels(p) == self.at(x as int, y as int),
    {
        let (width, height) = frame_size(self);
        if x < width && y < height {
            Some(read_pixel(self, x, y))
        } else {
            None
        }
    }

    /// Replaces the pixel at `(x, y)`, and tells whether there is such a
    /// pixel. Outside the frame nothing changes.
    pub fn put_pixel(&mut self, x: u32, y: u32, pixel: Rgb<u8>) -> (done: bool)
        ensures
            done == old(self).contains(x as int, y as int),
            final(self).width() == old(self).width(),
            final(self).height() == old(self).height(),
            forall|i: int, j: int|
                old(self).contains(i, j) ==> #[trigger] final(self).at(i, j) == if done && (i, j)
                    == (x as int, y as int) {
                    channels(pixel)
                } else {
                    old(self).at(i, j)
                },
    {
        let (width, height) = frame_size(self);
        if x < width && y < height {
            write_pixel(self, x, y, pixel);
            true
        } else {
            false
        }
    }

    /// Builds a frame from interleaved RGB bytes in row-major order. The bytes
    /// must be exactly those of a `width` by `height` raster, and such that
    /// they can be counted and held.
    #[verifier::loop_isolation(false)]
    pub fn from_raw(width: u32, height: u32, data: &Vec<u8>) -> (made: Option<Frame>)
        ensures
            made is Some <==> data.len() == 3 * width * height && can_hold(
                width as int,
                height as int,
            ),
            made matches Some(frame) ==> {
                &&& frame.width() == width
                &&& frame.height() == height
                &&& forall|x: int, y: int|
                    frame.contains(x, y) ==> #[trigger] frame.at(x, y) == raw_pixel(
                        data@,
                        width as int,
                        x,
                        y,
                    )
            },
    {
        assert((width as u128) * (height as u128) <= 0xFFFF_FFFF_FFFF_FFFF) by (nonlinear_arith);
        let area: u128 = (width as u128) * (height as u128);
        let wanted: u128 = 3u128 * area;
        assert(wanted == 3 * width * height) by (nonlinear_arith)
            requires
                wanted == 3 * (width * height),
        ;
        if data.len() as u128 != wanted || wanted > isize::MAX as u128 || 3u128 * (width as u128)
            > usize::MAX as u128 {
            return None;
        }
        let mut frame = blank_frame(width, height);
        let mut y: u32 = 0;
        while y < height
            invariant
                y <= height,
                frame.width() == width,
                frame.height() == height,
                forall|i: int, j: int|
                    0 <= i < width && 0 <= j < y ==> #[trigger] frame.at(i, j) == raw_pixel(
                        data@,
                        width as int,
                        i,
                        j,
                    ),
            decreases height - y,
        {
            let mut x: u32 = 0;
            while x < width
                invariant
                    x <= width,
                    y < height,
                    frame.width() == width,
                    frame.height() == height,
                    forall|i: int, j: int|
                        0 <= i < width && (0 <= j < y || (j == y && i < x))
                            ==> #[trigger] frame.at(i, j) == raw_pixel(data@, width as int, i, j),
                decreases width - x,
            {
                proof {
                    lemma_raw_index_in_bounds(width as int, height as int, x as int, y as int);
                }
                let i: usize = 3 * (y as usize * width as usize + x as usize);
                write_pixel(&mut frame, x, y, Rgb([data[i], data[i + 1], data[i + 2]]));
                x += 1;
            }
            y += 1;
        }
        Some(frame)
    }

    /// The pixels as interleaved RGB bytes in row-major order.
    #[verifier::loop_isolation(false)]
    pub fn to_raw(&self) -> (data: Vec<u8>)
        ensures
            data.len() == 3 * self.width() * self.height(),
            forall|x: int, y: int|
                self.contains(x, y) ==> raw_pixel(data@, self.width() as int, x, y)
                    == #[trigger] self.at(x, y),
    {
        let (width, height) = frame_size(self);
        let mut data: Vec<u8> = Vec::new();
        let mut y: u32 = 0;
        proof {
            assert(3 * (0 * width) == 0) by (nonlinear_arith);
        }
        while y < height
            invariant
                y <= height,
                data.len() == 3 * (y * width),
                forall|i: int, j: int|
                    0 <= i < width && 0 <= j < y ==> raw_pixel(data@, width as int, i, j)
                        == #[trigger] self.at(i, j),
            decreases height - y,
        {
            let mut x: u32 = 0;
            while x < width
                invariant
                    x <= width,
                    y < height,
                    data.len() == 3 * (y * width + x),
                    forall|i: int, j: int|
                        0 <= i < width && (0 <= j < y || (j == y && i < x)) ==> raw_pixel(
                            data@,
                            width as int,
                            i,
                            j,
                        ) == #[trigger] self.at(i, j),
                decreases width - x,
            {
                let p = read_pixel(self, x, y);
                let ghost before = data@;
                data.push(p.0[0]);
                data.push(p.0[1]);
                data.push(p.0[2]);
                proof {
                    assert forall|i: int, j: int|
                        0 <= i < width && (0 <= j < y || (j == y && i < x + 1)) implies raw_pixel(
                        data@,
                        width as int,
                        i,
                        j,
                    ) == #[trigger] self.at(i, j) by {
                        if j < y {
                            lemma_raw_index_in_bounds(width as int, y as int, i, j);
                        }
                        if j < y || i < x {
                            assert(raw_pixel(before, width as int, i, j) == self.at(i, j));
                        }
                    }
                }
                x += 1;
            }
            proof {
                assert(3 * (y * width + width) == 3 * ((y + 1) * width)) by (nonlinear_arith);
            }
            y += 1;
        }
        proof {
            assert(3 * (height * width) == 3 * width * height) by (nonlinear_arith);
        }
        data
    }
}

} // verus!
