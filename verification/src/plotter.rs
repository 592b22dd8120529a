//! Lines and rectangles on a frame.

use crate::frame::{channels, frame_size, write_pixel, Frame};
use image::Rgb;
use vstd::prelude::*;

verus! {

/// The colour that marks the start of a line.
pub open spec fn start_mark() -> (u8, u8, u8) {
    (0u8, 255u8, 0u8)
}

/// Where a line stands on its way: the point reached, and the error term
/// that tells which way to step next.
pub type Walk = (int, int, int);

/// The absolute difference of two coordinates.
pub open spec fn span(from: int, to: int) -> int {
    if from > to {
        from - to
    } else {
        to - from
    }
}

/// The direction from one coordinate toward another.
pub open spec fn toward(from: int, to: int) -> int {
    if from < to {
        1
    } else {
        -1
    }
}

/// The error term that a line of extent `dx` by `dy` starts with.
pub open spec fn first_error(dx: int, dy: int) -> int {
    if dx > dy {
        dx / 2
    } else {
        -(dy / 2)
    }
}

/// One step of a line toward `end`: sideways when twice the error term
/// exceeds `-dx`, up or down when it lies below `dy`, or both.
pub open spec fn walk_step(walk: Walk, start: (int, int), end: (int, int)) -> Walk {
    let dx = span(start.0, end.0);
    let dy = span(start.1, end.1);
    let doubled = 2 * walk.2;
    let sideways = if doubled > -dx {
        (walk.0 + toward(start.0, end.0), walk.1, walk.2 - dy)
    } else {
        walk
    };
    if doubled < dy {
        (sideways.0, sideways.1 + toward(start.1, end.1), sideways.2 + dx)
    } else {
        sideways
    }
}

/// The colour of `place` after a square of side `width` has been stamped
/// with its corner at `(x, y)`: the colour of the line inside the square, the
/// start mark on the corner of the first square, and `before` outside.
pub open spec fn stamped(
    before: (u8, u8, u8),
    place: (int, int),
    x: int,
    y: int,
    width: int,
    color: (u8, u8, u8),
    first: bool,
) -> (u8, u8, u8) {
    if x <= place.0 < x + width && y <= place.1 < y + width {
        if first && place == (x, y) {
            start_mark()
        } else {
            color
        }
    } else {
        before
    }
}

/// The colour of `place` once the line has been drawn from where `walk`
/// stands to `end`, a square stamped at every point on the way. `steps` bounds
/// the number of steps still to go.
pub open spec fn colour_after(
    before: (u8, u8, u8),
    place: (int, int),
    walk: Walk,
    start: (int, int),
    end: (int, int),
    width: int,
    color: (u8, u8, u8),
    first: bool,
    steps: nat,
) -> (u8, u8, u8)
    decreases steps,
{
    let here = stamped(before, place, walk.0, walk.1, width, color, first);
    if (walk.0, walk.1) == end || steps == 0 {
        here
    } else {
        colour_after(
            here,
            place,
            walk_step(walk, start, end),
            start,
            end,
            width,
            color,
            false,
            (steps - 1) as nat,
        )
    }
}

/// The colour of `place` once a line has been drawn from `start` to `end`.
pub open spec fn colour_on_line(
    before: (u8, u8, u8),
    place: (int, int),
    start: (int, int),
    end: (int, int),
    width: int,
    color: (u8, u8, u8),
) -> (u8, u8, u8) {
    let dx = span(start.0, end.0);
    let dy = span(start.1, end.1);
    colour_after(
        before,
        place,
        (start.0, start.1, first_error(dx, dy)),
        start,
        end,
        width,
        color,
        true,
        (dx + dy) as nat,
    )
}

/// The colour of `place` once the squares that follow the one at `walk` have
/// been stamped.
spec fn colour_to_come(
    now: (u8, u8, u8),
    place: (int, int),
    walk: Walk,
    start: (int, int),
    end: (int, int),
    width: int,
    color: (u8, u8, u8),
    steps: nat,
) -> (u8, u8, u8) {
    if (walk.0, walk.1) == end || steps == 0 {
        now
    } else {
        colour_after(
            now,
            place,
            walk_step(walk, start, end),
            start,
            end,
            width,
            color,
            false,
            (steps - 1) as nat,
        )
    }
}

/// The line from `start` to `end` can stand at `walk` after `a` steps
/// sideways and `b` steps up or down.
spec fn is_on_line(walk: Walk, start: (int, int), end: (int, int), a: int, b: int) -> bool {
    let dx = span(start.0, end.0);
    let dy = span(start.1, end.1);
    &&& 0 <= a <= dx
    &&& 0 <= b <= dy
    &&& walk.0 == start.0 + toward(start.0, end.0) * a
    &&& walk.1 == start.1 + toward(start.1, end.1) * b
    &&& walk.2 == first_error(dx, dy) - a * dy + b * dx
    &&& -dx - dy <= walk.2 <= dx + dy
}

/// A step of a line that has not arrived keeps it on the line and brings it
/// nearer to its end: it neither stands still nor passes the end in either
/// direction.
proof fn lemma_step_stays_on_line(
    walk: Walk,
    start: (int, int),
    end: (int, int),
    a: int,
    b: int,
) -> (gone: (int, int))
    requires
        is_on_line(walk, start, end, a, b),
        (walk.0, walk.1) != end,
    ensures
        is_on_line(walk_step(walk, start, end), start, end, gone.0, gone.1),
        a <= gone.0,
        b <= gone.1,
        a + b < gone.0 + gone.1,
{
    let dx = span(start.0, end.0);
    let dy = span(start.1, end.1);
    let sx = toward(start.0, end.0);
    let sy = toward(start.1, end.1);
    assert(sx * dx == end.0 - start.0 && sy * dy == end.1 - start.1) by (nonlinear_arith)
        requires
            dx == span(start.0, end.0),
            dy == span(start.1, end.1),
            sx == toward(start.0, end.0),
            sy == toward(start.1, end.1),
    ;
    assert(a < dx || b < dy) by {
        if a == dx && b == dy {
            assert(walk.0 == end.0 && walk.1 == end.1);
        }
    }
    let doubled = 2 * walk.2;
    if a == dx {
        assert(walk.2 == first_error(dx, dy) - dx * dy + b * dx);
        assert(dx * dy - b * dx >= dx) by (nonlinear_arith)
            requires
                0 <= dx,
                dy - b >= 1,
        ;
        assert(doubled <= -dx);
    }
    if b == dy {
        assert(walk.2 == first_error(dx, dy) - a * dy + dy * dx);
        assert(dy * dx - a * dy >= dy) by (nonlinear_arith)
            requires
                0 <= dy,
                dx - a >= 1,
        ;
        assert(doubled >= dy);
    }
    let a2 = if doubled > -dx {
        a + 1
    } else {
        a
    };
    let b2 = if doubled < dy {
        b + 1
    } else {
        b
    };
    assert((a + 1) * dy == a * dy + dy && (b + 1) * dx == b * dx + dx && sx * (a + 1) == sx * a
        + sx && sy * (b + 1) == sy * b + sy) by (nonlinear_arith);
    (a2, b2)
}

/// Stamping the square of the next point takes one step off what is to come.
proof fn lemma_colour_step(
    now: (u8, u8, u8),
    place: (int, int),
    walk: Walk,
    start: (int, int),
    end: (int, int),
    width: int,
    color: (u8, u8, u8),
    steps: nat,
)
    requires
        (walk.0, walk.1) != end,
        steps >= 1,
    ensures
        colour_to_come(now, place, walk, start, end, width, color, steps) == colour_to_come(
            stamped(
                now,
                place,
                walk_step(walk, start, end).0,
                walk_step(walk, start, end).1,
                width,
                color,
                false,
            ),
            place,
            walk_step(walk, start, end),
            start,
            end,
            width,
            color,
            (steps - 1) as nat,
        ),
{
}

/// One step of a line that has not arrived.
fn advance(
    x0: i64,
    y0: i64,
    err: i64,
    start: (u32, u32),
    end: (u32, u32),
    Ghost(a): Ghost<int>,
    Ghost(b): Ghost<int>,
) -> (next: (i64, i64, i64))
    requires
        is_on_line(
            (x0 as int, y0 as int, err as int),
            (start.0 as int, start.1 as int),
            (end.0 as int, end.1 as int),
            a,
            b,
        ),
        (x0 as int, y0 as int) != (end.0 as int, end.1 as int),
    ensures
        (next.0 as int, next.1 as int, next.2 as int) == walk_step(
            (x0 as int, y0 as int, err as int),
            (start.0 as int, start.1 as int),
            (end.0 as int, end.1 as int),
        ),
{
    let from_x: i64 = start.0 as i64;
    let from_y: i64 = start.1 as i64;
    let x1: i64 = end.0 as i64;
    let y1: i64 = end.1 as i64;
    let dx: i64 = if from_x > x1 { from_x - x1 } else { x1 - from_x };
    let dy: i64 = if from_y > y1 { from_y - y1 } else { y1 - from_y };
    let sx: i64 = if from_x < x1 { 1 } else { -1 };
    let sy: i64 = if from_y < y1 { 1 } else { -1 };
    proof {
        let gone = lemma_step_stays_on_line(
            (x0 as int, y0 as int, err as int),
            (start.0 as int, start.1 as int),
            (end.0 as int, end.1 as int),
            a,
            b,
        );
    }
    let mut x = x0;
    let mut y = y0;
    let mut e = err;
    let err2 = 2 * err;
    if err2 > -dx {
        e -= dy;
        x += sx;
    }
    if err2 < dy {
        e += dx;
        y += sy;
    }
    (x, y, e)
}

/// Stamps a square of side `width` with its corner at `(x, y)`.
#[verifier::loop_isolation(false)]
fn stamp(img: &mut Frame, x: u32, y: u32, width: u32, color: Rgb<u8>, first: bool)
    requires
        width > 0 ==> x + width <= old(img).width() && y + width <= old(img).height(),
    ensures
        final(img).width() == old(img).width(),
        final(img).height() == old(img).height(),
        forall|i: int, j: int|
            old(img).contains(i, j) ==> #[trigger] final(img).at(i, j) == stamped(
                old(img).at(i, j),
                (i, j),
                x as int,
                y as int,
                width as int,
                channels(color),
                first,
            ),
{
    let (w, h) = frame_size(img);
    let mut ox: u32 = 0;
    while ox < width
        invariant
            ox <= width,
            img.width() == w,
            img.height() == h,
            forall|i: int, j: int|
                0 <= i < w && 0 <= j < h ==> #[trigger] img.at(i, j) == if i < x + ox {
                    stamped(
                        old(img).at(i, j),
                        (i, j),
                        x as int,
                        y as int,
                        width as int,
                        channels(color),
                        first,
                    )
                } else {
                    old(img).at(i, j)
                },
        decreases width - ox,
    {
        let mut oy: u32 = 0;
        while oy < width
            invariant
                oy <= width,
                ox < width,
                img.width() == w,
                img.height() == h,
                forall|i: int, j: int|
                    0 <= i < w && 0 <= j < h ==> #[trigger] img.at(i, j) == if i < x + ox || (i
                        == x + ox && j < y + oy) {
                        stamped(
                            old(img).at(i, j),
                            (i, j),
                            x as int,
                            y as int,
                            width as int,
                            channels(color),
                            first,
                        )
                    } else {
                        old(img).at(i, j)
                    },
            decreases width - oy,
        {
            if first && ox == 0 && oy == 0 {
                write_pixel(img, x + ox, y + oy, Rgb([0, 255, 0]));
            } else {
                write_pixel(img, x + ox, y + oy, color);
            }
            oy += 1;
        }
        ox += 1;
    }
}

/// Draws a line from `start` to `end`, stepping from pixel to pixel and
/// stamping a square of side `width` at each, the corner of the square on the
/// line. The very first pixel drawn is marked green. The squares at both ends
/// must lie inside the frame.
#[verifier::loop_isolation(false)]
pub fn draw_line(img: &mut Frame, start: (u32, u32), end: (u32, u32), color: Rgb<u8>, width: u32)
    requires
        width > 0 ==> {
            &&& start.0 + width <= old(img).width()
            &&& end.0 + width <= old(img).width()
            &&& start.1 + width <= old(img).height()
            &&& end.1 + width <= old(img).height()
        },
    ensures
        final(img).width() == old(img).width(),
        final(img).height() == old(img).height(),
        forall|i: int, j: int|
            old(img).contains(i, j) ==> #[trigger] final(img).at(i, j) == colour_on_line(
                old(img).at(i, j),
                (i, j),
                (start.0 as int, start.1 as int),
                (end.0 as int, end.1 as int),
                width as int,
                channels(color),
            ),
{
    let (w, h) = frame_size(img);
    let mut x0: i64 = start.0 as i64;
    let mut y0: i64 = start.1 as i64;
    let x1: i64 = end.0 as i64;
    let y1: i64 = end.1 as i64;
    let dx: i64 = if x0 > x1 { x0 - x1 } else { x1 - x0 };
    let dy: i64 = if y0 > y1 { y0 - y1 } else { y1 - y0 };
    let mut err: i64 = if dx > dy { dx / 2 } else { -(dy / 2) };

    let ghost from = (start.0 as int, start.1 as int);
    let ghost to = (end.0 as int, end.1 as int);
    let ghost paint = channels(color);
    let ghost a: int = 0;
    let ghost b: int = 0;
    let ghost steps: nat = (dx + dy) as nat;
    proof {
        assert(0 * dy == 0 && 0 * dx == 0 && toward(from.0, to.0) * 0 == 0 && toward(
            from.1,
            to.1,
        ) * 0 == 0) by (nonlinear_arith);
    }

    stamp(img, start.0, start.1, width, color, true);

    while x0 != x1 || y0 != y1
        invariant
            is_on_line((x0 as int, y0 as int, err as int), from, to, a, b),
            (dx - a) + (dy - b) <= steps,
            img.width() == w,
            img.height() == h,
            forall|i: int, j: int|
                0 <= i < w && 0 <= j < h ==> colour_to_come(
                    #[trigger] img.at(i, j),
                    (i, j),
                    (x0 as int, y0 as int, err as int),
                    from,
                    to,
                    width as int,
                    paint,
                    steps,
                ) == colour_on_line(old(img).at(i, j), (i, j), from, to, width as int, paint),
        decreases steps,
    {
        let ghost walk = (x0 as int, y0 as int, err as int);
        let ghost before = *img;
        let ghost budget = steps;
        let next = advance(x0, y0, err, start, end, Ghost(a), Ghost(b));
        proof {
            let gone = lemma_step_stays_on_line(walk, from, to, a, b);
            a = gone.0;
            b = gone.1;
            steps = (steps - 1) as nat;
        }
        x0 = next.0;
        y0 = next.1;
        err = next.2;
        proof {
            assert(toward(from.0, to.0) * a <= span(from.0, to.0) && toward(from.0, to.0) * a
                >= -span(from.0, to.0)) by (nonlinear_arith)
                requires
                    0 <= a <= span(from.0, to.0),
                    -1 <= toward(from.0, to.0) <= 1,
            ;
            assert(toward(from.1, to.1) * b <= span(from.1, to.1) && toward(from.1, to.1) * b
                >= -span(from.1, to.1)) by (nonlinear_arith)
                requires
                    0 <= b <= span(from.1, to.1),
                    -1 <= toward(from.1, to.1) <= 1,
            ;
        }
        stamp(img, x0 as u32, y0 as u32, width, color, false);
        proof {
            assert forall|i: int, j: int| 0 <= i < w && 0 <= j < h implies colour_to_come(
                #[trigger] img.at(i, j),
                (i, j),
                (x0 as int, y0 as int, err as int),
                from,
                to,
                width as int,
                paint,
                steps,
            ) == colour_on_line(old(img).at(i, j), (i, j), from, to, width as int, paint) by {
                lemma_colour_step(
                    before.at(i, j),
                    (i, j),
                    walk,
                    from,
                    to,
                    width as int,
                    paint,
                    budget,
                );
            }
        }
    }
}

/// Fills the rectangle of `w` by `h` pixels whose corner is `(x, y)`. The
/// rectangle must lie inside the frame.
#[verifier::loop_isolation(false)]
pub fn draw_rect(img: &mut Frame, x: u32, y: u32, w: u32, h: u32, color: Rgb<u8>)
    requires
        w > 0 && h > 0 ==> x + w <= old(img).width() && y + h <= old(img).height(),
    ensures
        final(img).width() == old(img).width(),
        final(img).height() == old(img).height(),
        forall|i: int, j: int|
            old(img).contains(i, j) ==> #[trigger] final(img).at(i, j) == if x <= i < x + w && y
                <= j < y + h {
                channels(color)
            } else {
                old(img).at(i, j)
            },
{
    if h == 0 {
        return;
    }
    let (width, height) = frame_size(img);
    let mut ox: u32 = 0;
    while ox < w
        invariant
            ox <= w,
            img.width() == width,
            img.height() == height,
            forall|i: int, j: int|
                0 <= i < width && 0 <= j < height ==> #[trigger] img.at(i, j) == if x <= i < x
                    + ox && y <= j < y + h {
                    channels(color)
                } else {
                    old(img).at(i, j)
                },
        decreases w - ox,
    {
        let mut oy: u32 = 0;
        while oy < h
            invariant
                oy <= h,
                ox < w,
                img.width() == width,
                img.height() == height,
                forall|i: int, j: int|
                    0 <= i < width && 0 <= j < height ==> #[trigger] img.at(i, j) == if y <= j
                        < y + h && (x <= i < x + ox || (i == x + ox && j < y + oy)) {
                        channels(color)
                    } else {
                        old(img).at(i, j)
                    },
            decreases h - oy,
        {
            write_pixel(img, x + ox, y + oy, color);
            oy += 1;
        }
        ox += 1;
    }
}

} // verus!
