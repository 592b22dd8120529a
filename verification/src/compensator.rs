//! Synthesis of the frame halfway between two frames, by moving the pixels of
//! both along half of their motion.

use crate::frame::{black, blank_frame, channels, frame_size, read_pixel, write_pixel, Frame};
use crate::operations::{average_of, has_shape, is_field_of, pixel_average, same_shape};
use image::Rgb;
use vstd::prelude::*;

verus! {

/// Why two frames and a motion field cannot be compensated.
#[derive(Debug, Clone, Copy, PartialEq, Eq, Structural)]
pub enum CompensationError {
    /// The two frames differ in width or height.
    FrameMismatch,
    /// The motion field does not hold one row per pixel row of the frames, or
    /// one of its rows does not hold one vector per pixel column.
    FieldMismatch,
}

/// A picture under construction: a pixel value for every coordinate.
pub type Canvas = Map<(int, int), (u8, u8, u8)>;

/// Half of `v`, rounded to the nearest integer, halves away from zero.
pub open spec fn half_rounded(v: int) -> int {
    if v >= 0 {
        (v + 1) / 2
    } else {
        -((1 - v) / 2)
    }
}

/// Half of a motion vector, component by component.
pub open spec fn half_vector(v: (i16, i16)) -> (i32, i32) {
    (half_rounded(v.0 as int) as i32, half_rounded(v.1 as int) as i32)
}

/// One pixel arrives at `(tx, ty)`. Outside the `width` by `height` picture
/// it is dropped. On a black place, which counts as not yet written, `fresh`
/// is put down; on any other place the value found there is averaged with
/// `blend`.
pub open spec fn splat(
    canvas: Canvas,
    width: int,
    height: int,
    tx: int,
    ty: int,
    fresh: (u8, u8, u8),
    blend: (u8, u8, u8),
) -> Canvas {
    if 0 <= tx < width && 0 <= ty < height {
        if canvas[(tx, ty)] == black() {
            canvas.insert((tx, ty), fresh)
        } else {
            canvas.insert((tx, ty), average_of(canvas[(tx, ty)], blend))
        }
    } else {
        canvas
    }
}

/// The source pixel `(x, y)` is projected forward by `shift` with the colour
/// it has in `frame_1`, then backward with the colour it has in `frame_2`.
/// Where either lands on a place already written, that place is blended with
/// the colour of `frame_2` at the source `(x, y)`.
pub open spec fn project_pixel(
    canvas: Canvas,
    frame_1: &Frame,
    frame_2: &Frame,
    x: int,
    y: int,
    shift: (i32, i32),
) -> Canvas {
    let width = frame_1.width() as int;
    let height = frame_1.height() as int;
    let forward = splat(
        canvas,
        width,
        height,
        x + shift.0,
        y + shift.1,
        frame_1.at(x, y),
        frame_2.at(x, y),
    );
    splat(forward, width, height, x - shift.0, y - shift.1, frame_2.at(x, y), frame_2.at(x, y))
}

/// The canvas after the first `count` pixels of row `y` have been projected
/// from left to right.
pub open spec fn project_row(
    canvas: Canvas,
    frame_1: &Frame,
    frame_2: &Frame,
    shifts: Seq<Vec<(i32, i32)>>,
    y: int,
    count: int,
) -> Canvas
    decreases count,
{
    if count <= 0 {
        canvas
    } else {
        project_pixel(
            project_row(canvas, frame_1, frame_2, shifts, y, count - 1),
            frame_1,
            frame_2,
            count - 1,
            y,
            shifts[y][count - 1],
        )
    }
}

/// The canvas after the first `count` rows have been projected from top to
/// bottom, starting from an all-black canvas.
pub open spec fn project_rows(
    frame_1: &Frame,
    frame_2: &Frame,
    shifts: Seq<Vec<(i32, i32)>>,
    count: int,
) -> Canvas
    decreases count,
{
    if count <= 0 {
        Map::total(|place: (int, int)| black())
    } else {
        project_row(
            project_rows(frame_1, frame_2, shifts, count - 1),
            frame_1,
            frame_2,
            shifts,
            count - 1,
            frame_1.width() as int,
        )
    }
}

/// The pixel `(x, y)` of the compensated frame: what the projection of all
/// rows left there, or, where that is black, the average of the two frames at
/// `(x, y)`.
pub open spec fn compensated_at(
    frame_1: &Frame,
    frame_2: &Frame,
    shifts: Seq<Vec<(i32, i32)>>,
    x: int,
    y: int,
) -> (u8, u8, u8) {
    let projected = project_rows(frame_1, frame_2, shifts, frame_1.height() as int)[(x, y)];
    if projected == black() {
        average_of(frame_1.at(x, y), frame_2.at(x, y))
    } else {
        projected
    }
}

/// The frame shows the canvas: inside the frame both hold the same pixels.
spec fn shows(frame: &Frame, canvas: Canvas) -> bool {
    forall|x: int, y: int| frame.contains(x, y) ==> #[trigger] frame.at(x, y) == canvas[(x, y)]
}

/// Half of a motion component, rounded to the nearest integer, halves away
/// from zero.
pub fn half_displacement(v: i16) -> (half: i32)
    ensures
        half == half_rounded(v as int),
{
    let wide: i32 = v as i32;
    if wide >= 0 {
        (wide + 1) / 2
    } else {
        -((1 - wide) / 2)
    }
}

/// Turns a per-pixel motion field into the displacement that compensation
/// applies: half of every component, rounded.
#[verifier::loop_isolation(false)]
pub fn half_motion(flow: &Vec<Vec<(i16, i16)>>) -> (shifts: Vec<Vec<(i32, i32)>>)
    ensures
        same_shape(shifts@, flow@),
        forall|i: int, j: int|
            0 <= i < flow.len() && 0 <= j < flow[i].len() ==> #[trigger] shifts[i][j]
                == half_vector(flow[i][j]),
{
    let mut shifts: Vec<Vec<(i32, i32)>> = Vec::new();
    let mut i: usize = 0;
    while i < flow.len()
        invariant
            i <= flow.len(),
            shifts.len() == i,
            forall|r: int| 0 <= r < i ==> (#[trigger] shifts[r]).len() == flow[r].len(),
            forall|r: int, c: int|
                0 <= r < i && 0 <= c < flow[r].len() ==> #[trigger] shifts[r][c] == half_vector(
                    flow[r][c],
                ),
        decreases flow.len() - i,
    {
        let mut row: Vec<(i32, i32)> = Vec::new();
        let mut j: usize = 0;
        while j < flow[i].len()
            invariant
                i < flow.len(),
                j <= flow[i as int].len(),
                row.len() == j,
                forall|c: int| 0 <= c < j ==> #[trigger] row[c] == half_vector(flow[i as int][c]),
            decreases flow[i as int].len() - j,
        {
            let v = flow[i][j];
            row.push((half_displacement(v.0), half_displacement(v.1)));
            j += 1;
        }
        shifts.push(row);
        i += 1;
    }
    shifts
}

/// Whether a pixel is black, which is how a place not yet written looks.
fn is_black(pixel: Rgb<u8>) -> (dark: bool)
    ensures
        dark == (channels(pixel) == black()),
{
    pixel.0[0] == 0 && pixel.0[1] == 0 && pixel.0[2] == 0
}

/// Lets one pixel arrive on the frame.
fn land(
    img: &mut Frame,
    tx: i64,
    ty: i64,
    fresh: Rgb<u8>,
    blend: Rgb<u8>,
    Ghost(canvas): Ghost<Canvas>,
)
    requires
        shows(old(img), canvas),
    ensures
        final(img).width() == old(img).width(),
        final(img).height() == old(img).height(),
        shows(
            final(img),
            splat(
                canvas,
                old(img).width() as int,
                old(img).height() as int,
                tx as int,
                ty as int,
                channels(fresh),
                channels(blend),
            ),
        ),
{
    let (width, height) = frame_size(img);
    if 0 <= tx && tx < width as i64 && 0 <= ty && ty < height as i64 {
        let x = tx as u32;
        let y = ty as u32;
        let found = read_pixel(img, x, y);
        if is_black(found) {
            write_pixel(img, x, y, fresh);
        } else {
            write_pixel(img, x, y, pixel_average(found, blend));
        }
    }
}

/// `img` is the frame between `frame_1` and `frame_2` under the
/// displacements `shifts`: as large as they are, and pixel by pixel what
/// [`compensated_at`] tells.
pub open spec fn is_compensation_of(
    img: &Frame,
    frame_1: &Frame,
    frame_2: &Frame,
    shifts: Seq<Vec<(i32, i32)>>,
) -> bool {
    &&& img.width() == frame_1.width()
    &&& img.height() == frame_1.height()
    &&& forall|x: int, y: int|
        img.contains(x, y) ==> #[trigger] img.at(x, y) == compensated_at(
            frame_1,
            frame_2,
            shifts,
            x,
            y,
        )
}

/// Synthesizes the frame between `frame_1` and `frame_2`. `shifts` holds for
/// every pixel, by row and then column, the displacement `(dx, dy)` that
/// carries it halfway: each source pixel is projected forward by it from
/// `frame_1` and backward by it from `frame_2`, in row-major order, and what
/// stays black afterwards is filled with the average of the two frames.
///
/// A black pixel counts as not yet written. A pixel that is black in a
/// source frame therefore leaves its place open for the next arrival.
#[verifier::loop_isolation(false)]
pub fn compensate(frame_1: &Frame, frame_2: &Frame, shifts: &Vec<Vec<(i32, i32)>>) -> (made:
    Result<Frame, CompensationError>)
    ensures
        made matches Err(e) ==> e == if frame_1.width() != frame_2.width() || frame_1.height()
            != frame_2.height() {
            CompensationError::FrameMismatch
        } else {
            CompensationError::FieldMismatch
        },
        made is Ok <==> frame_1.width() == frame_2.width() && frame_1.height()
            == frame_2.height() && is_field_of(
            shifts@,
            frame_1.height() as int,
            frame_1.width() as int,
        ),
        made matches Ok(img) ==> is_compensation_of(&img, frame_1, frame_2, shifts@),
{
    let (width, height) = frame_size(frame_1);
    let (width_2, height_2) = frame_size(frame_2);
    if width != width_2 || height != height_2 {
        return Err(CompensationError::FrameMismatch);
    }
    if !has_shape(shifts, height, width) {
        return Err(CompensationError::FieldMismatch);
    }
    let mut img = blank_frame(width, height);
    let mut i: u32 = 0;
    while i < height
        invariant
            i <= height,
            img.width() == width,
            img.height() == height,
            shows(&img, project_rows(frame_1, frame_2, shifts@, i as int)),
        decreases height - i,
    {
        let ghost start = project_rows(frame_1, frame_2, shifts@, i as int);
        let mut j: u32 = 0;
        while j < width
            invariant
                j <= width,
                i < height,
                img.width() == width,
                img.height() == height,
                shows(&img, project_row(start, frame_1, frame_2, shifts@, i as int, j as int)),
            decreases width - j,
        {
            let ghost before = project_row(start, frame_1, frame_2, shifts@, i as int, j as int);
            let (dx, dy) = shifts[i as usize][j as usize];
            let source_1 = read_pixel(frame_1, j, i);
            let source_2 = read_pixel(frame_2, j, i);
            let ghost forward = splat(
                before,
                width as int,
                height as int,
                j + dx,
                i + dy,
                channels(source_1),
                channels(source_2),
            );
            land(
                &mut img,
                j as i64 + dx as i64,
                i as i64 + dy as i64,
                source_1,
                source_2,
                Ghost(before),
            );
            land(
                &mut img,
                j as i64 - dx as i64,
                i as i64 - dy as i64,
                source_2,
                source_2,
                Ghost(forward),
            );
            j += 1;
        }
        i += 1;
    }
    let ghost projected = project_rows(frame_1, frame_2, shifts@, height as int);
    let mut i: u32 = 0;
    while i < height
        invariant
            i <= height,
            img.width() == width,
            img.height() == height,
            forall|x: int, y: int|
                0 <= x < width && 0 <= y < height ==> #[trigger] img.at(x, y) == if y < i {
                    compensated_at(frame_1, frame_2, shifts@, x, y)
                } else {
                    projected[(x, y)]
                },
        decreases height - i,
    {
        let mut j: u32 = 0;
        while j < width
            invariant
                j <= width,
                i < height,
                img.width() == width,
                img.height() == height,
                forall|x: int, y: int|
                    0 <= x < width && 0 <= y < height ==> #[trigger] img.at(x, y) == if y < i || (y
                        == i && x < j) {
                        compensated_at(frame_1, frame_2, shifts@, x, y)
                    } else {
                        projected[(x, y)]
                    },
            decreases width - j,
        {
            if is_black(read_pixel(&img, j, i)) {
                let mean = pixel_average(read_pixel(frame_1, j, i), read_pixel(frame_2, j, i));
                write_pixel(&mut img, j, i, mean);
            }
            j += 1;
        }
        i += 1;
    }
    Ok(img)
}

/// Two pixels have a channel on which both are at least 1.
pub open spec fn share_a_lit_channel(p: (u8, u8, u8), q: (u8, u8, u8)) -> bool {
    (p.0 >= 1 && q.0 >= 1) || (p.1 >= 1 && q.1 >= 1) || (p.2 >= 1 && q.2 >= 1)
}

/// The average of two pixels that share a lit channel is not black.
pub proof fn lemma_lit_channel_survives_averaging(p: (u8, u8, u8), q: (u8, u8, u8))
    requires
        share_a_lit_channel(p, q),
    ensures
        average_of(p, q) != black(),
{
}

/// Compensation leaves no pixel unset, which is to say black, between two
/// frames whose average is black nowhere: what the projection did not reach,
/// or left black, is filled with that average. Whatever the displacements
/// are, the result is then as large as the frames and without a black pixel.
pub proof fn lemma_compensation_leaves_no_pixel_unset(
    img: &Frame,
    frame_1: &Frame,
    frame_2: &Frame,
    shifts: Seq<Vec<(i32, i32)>>,
)
    requires
        is_compensation_of(img, frame_1, frame_2, shifts),
        forall|x: int, y: int|
            frame_1.contains(x, y) ==> average_of(#[trigger] frame_1.at(x, y), frame_2.at(x, y))
                != black(),
    ensures
        img.width() == frame_1.width(),
        img.height() == frame_1.height(),
        forall|x: int, y: int| img.contains(x, y) ==> #[trigger] img.at(x, y) != black(),
{
    assert forall|x: int, y: int| img.contains(x, y) implies #[trigger] img.at(x, y)
        != black() by {
        assert(frame_1.contains(x, y));
        assert(average_of(frame_1.at(x, y), frame_2.at(x, y)) != black());
        assert(img.at(x, y) == compensated_at(frame_1, frame_2, shifts, x, y));
    }
}

/// Compensation leaves no pixel unset between two frames that share, pixel
/// by pixel, a channel on which both are at least 1.
pub proof fn lemma_lit_frames_leave_no_pixel_unset(
    img: &Frame,
    frame_1: &Frame,
    frame_2: &Frame,
    shifts: Seq<Vec<(i32, i32)>>,
)
    requires
        is_compensation_of(img, frame_1, frame_2, shifts),
        forall|x: int, y: int|
            frame_1.contains(x, y) ==> share_a_lit_channel(
                #[trigger] frame_1.at(x, y),
                frame_2.at(x, y),
            ),
    ensures
        forall|x: int, y: int| img.contains(x, y) ==> #[trigger] img.at(x, y) != black(),
{
    assert forall|x: int, y: int| frame_1.contains(x, y) implies average_of(
        #[trigger] frame_1.at(x, y),
        frame_2.at(x, y),
    ) != black() by {
        lemma_lit_channel_survives_averaging(frame_1.at(x, y), frame_2.at(x, y));
    }
    lemma_compensation_leaves_no_pixel_unset(img, frame_1, frame_2, shifts);
}

} // verus!
