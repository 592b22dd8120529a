//! Pixel metrics, border-replicating padding and flow upscaling.

use crate::frame::{
    black, blank_frame, can_hold, channels, copy_frame, frame_size, read_pixel, write_pixel, Frame,
};
use image::Rgb;
use num::integer::Roots;
use vstd::pervasive::unreached;
use vstd::prelude::*;

verus! {

/// The absolute difference of two channel values.
pub open spec fn channel_gap(a: u8, b: u8) -> int {
    if a >= b {
        a - b
    } else {
        b - a
    }
}

/// The squared Euclidean distance of two pixels over their three channels.
pub open spec fn squared_distance(p: (u8, u8, u8), q: (u8, u8, u8)) -> int {
    channel_gap(p.0, q.0) * channel_gap(p.0, q.0) + channel_gap(p.1, q.1) * channel_gap(p.1, q.1)
        + channel_gap(p.2, q.2) * channel_gap(p.2, q.2)
}

/// `r` is the square root of `n`, rounded down.
pub open spec fn is_floor_sqrt(n: int, r: int) -> bool {
    0 <= r && r * r <= n < (r + 1) * (r + 1)
}

/// The square root of `n`, rounded down (for `n >= 0`).
pub open spec fn floor_sqrt(n: int) -> int {
    choose|r: int| is_floor_sqrt(n, r)
}

/// The Euclidean distance of two pixels, rounded down.
pub open spec fn pixel_distance(p: (u8, u8, u8), q: (u8, u8, u8)) -> int {
    floor_sqrt(squared_distance(p, q))
}

/// The channel-wise mean of two pixels, rounded down.
pub open spec fn average_of(p: (u8, u8, u8), q: (u8, u8, u8)) -> (u8, u8, u8) {
    (((p.0 + q.0) / 2) as u8, ((p.1 + q.1) / 2) as u8, ((p.2 + q.2) / 2) as u8)
}

/// A number has at most one rounded-down square root.
pub proof fn lemma_floor_sqrt_unique(n: int, r1: int, r2: int)
    requires
        is_floor_sqrt(n, r1),
        is_floor_sqrt(n, r2),
    ensures
        r1 == r2,
{
    if r1 < r2 {
        assert((r1 + 1) * (r1 + 1) <= r2 * r2) by (nonlinear_arith)
            requires
                0 <= r1,
                r1 + 1 <= r2,
        ;
    } else if r2 < r1 {
        assert((r2 + 1) * (r2 + 1) <= r1 * r1) by (nonlinear_arith)
            requires
                0 <= r2,
                r2 + 1 <= r1,
        ;
    }
}

/// Every natural number has a rounded-down square root, and `floor_sqrt` is it.
pub proof fn lemma_floor_sqrt_exists(n: int)
    requires
        0 <= n,
    ensures
        is_floor_sqrt(n, floor_sqrt(n)),
    decreases n,
{
    if n == 0 {
        assert(is_floor_sqrt(0, 0));
    } else {
        lemma_floor_sqrt_exists(n - 1);
        let r = floor_sqrt(n - 1);
        if (r + 1) * (r + 1) <= n {
            assert((r + 2) * (r + 2) > (r + 1) * (r + 1)) by (nonlinear_arith)
                requires
                    0 <= r,
            ;
            assert(is_floor_sqrt(n, r + 1));
        } else {
            assert(is_floor_sqrt(n, r));
        }
    }
}

/// Whatever meets the definition is the rounded-down square root.
pub proof fn lemma_floor_sqrt_is(n: int, r: int)
    requires
        is_floor_sqrt(n, r),
    ensures
        floor_sqrt(n) == r,
{
    lemma_floor_sqrt_unique(n, r, floor_sqrt(n));
}

/// The squared distance of two pixels is at most `3 * 255 * 255`, and zero
/// exactly between equal pixels.
pub proof fn lemma_squared_distance_bounds(p: (u8, u8, u8), q: (u8, u8, u8))
    ensures
        0 <= squared_distance(p, q) <= 195075,
        squared_distance(p, q) == 0 <==> p == q,
{
    let a = channel_gap(p.0, q.0);
    let b = channel_gap(p.1, q.1);
    let c = channel_gap(p.2, q.2);
    assert(0 <= a * a <= 65025 && (a * a == 0 <==> a == 0)) by (nonlinear_arith)
        requires
            0 <= a <= 255,
    ;
    assert(0 <= b * b <= 65025 && (b * b == 0 <==> b == 0)) by (nonlinear_arith)
        requires
            0 <= b <= 255,
    ;
    assert(0 <= c * c <= 65025 && (c * c == 0 <==> c == 0)) by (nonlinear_arith)
        requires
            0 <= c <= 255,
    ;
}

/// The distance of two pixels is at most 441, and zero exactly between equal
/// pixels.
pub proof fn lemma_pixel_distance_bounds(p: (u8, u8, u8), q: (u8, u8, u8))
    ensures
        0 <= pixel_distance(p, q) <= 441,
        pixel_distance(p, q) == 0 <==> p == q,
{
    lemma_squared_distance_bounds(p, q);
    let n = squared_distance(p, q);
    lemma_floor_sqrt_exists(n);
    let r = floor_sqrt(n);
    if r >= 442 {
        assert(r * r >= 195364) by (nonlinear_arith)
            requires
                r >= 442,
        ;
    }
    if r == 0 {
        assert((r + 1) * (r + 1) == 1) by (nonlinear_arith)
            requires
                r == 0,
        ;
    } else {
        assert(r * r >= 1) by (nonlinear_arith)
            requires
                r >= 1,
        ;
    }
}

/// `num::integer::Roots::sqrt` on `u32`: the truncated square root, the one
/// `r` with `r * r <= x < (r + 1) * (r + 1)`.
#[verifier::external_body]
fn integer_sqrt(x: u32) -> (r: u32)
    ensures
        is_floor_sqrt(x as int, r as int),
{
    x.sqrt()
}

/// The absolute difference of two channel values.
fn abs_diff(a: u8, b: u8) -> (gap: u32)
    ensures
        gap == channel_gap(a, b),
{
    if a >= b {
        (a - b) as u32
    } else {
        (b - a) as u32
    }
}

/// The Euclidean distance of two pixels over their three channels, rounded down.
pub fn pixel_difference(pix_1: Rgb<u8>, pix_2: Rgb<u8>) -> (distance: u16)
    ensures
        distance == pixel_distance(channels(pix_1), channels(pix_2)),
        distance <= 441,
{
    let d0 = abs_diff(pix_1.0[0], pix_2.0[0]);
    let d1 = abs_diff(pix_1.0[1], pix_2.0[1]);
    let d2 = abs_diff(pix_1.0[2], pix_2.0[2]);
    proof {
        lemma_squared_distance_bounds(channels(pix_1), channels(pix_2));
        assert(0 <= d0 * d0 <= 65025) by (nonlinear_arith)
            requires
                0 <= d0 <= 255,
        ;
        assert(0 <= d1 * d1 <= 65025) by (nonlinear_arith)
            requires
                0 <= d1 <= 255,
        ;
        assert(0 <= d2 * d2 <= 65025) by (nonlinear_arith)
            requires
                0 <= d2 <= 255,
        ;
    }
    let root = integer_sqrt(d0 * d0 + d1 * d1 + d2 * d2);
    proof {
        lemma_floor_sqrt_is(squared_distance(channels(pix_1), channels(pix_2)), root as int);
        lemma_pixel_distance_bounds(channels(pix_1), channels(pix_2));
    }
    root as u16
}

/// The channel-wise mean of two pixels, rounded down.
pub fn pixel_average(pix_1: Rgb<u8>, pix_2: Rgb<u8>) -> (mean: Rgb<u8>)
    ensures
        channels(mean) == average_of(channels(pix_1), channels(pix_2)),
{
    Rgb(
        [
            ((pix_1.0[0] as u32 + pix_2.0[0] as u32) / 2) as u8,
            ((pix_1.0[1] as u32 + pix_2.0[1] as u32) / 2) as u8,
            ((pix_1.0[2] as u32 + pix_2.0[2] as u32) / 2) as u8,
        ],
    )
}

/// `v` moved into the range from `low` to `high`.
pub open spec fn clamp(v: int, low: int, high: int) -> int {
    if v < low {
        low
    } else if v > high {
        high
    } else {
        v
    }
}

/// The pixel at `(x, y)` of `frame` continued without end in every direction,
/// where every place outside the frame repeats the nearest pixel of its border.
/// A frame without pixels has nothing to repeat and is continued with black.
pub open spec fn replicated_at(frame: &Frame, x: int, y: int) -> (u8, u8, u8) {
    if frame.width() == 0 || frame.height() == 0 {
        black()
    } else {
        frame.at(clamp(x, 0, frame.width() - 1), clamp(y, 0, frame.height() - 1))
    }
}

/// The pixel at `(x, y)` of `frame` extended by `padding` pixels on each side
/// with its border replicated outward.
pub open spec fn padded_at(frame: &Frame, padding: int, x: int, y: int) -> (u8, u8, u8) {
    replicated_at(frame, x - padding, y - padding)
}

/// `padded` is `frame` extended by `padding` pixels on each side with its
/// border replicated outward.
pub open spec fn is_padding_of(padded: &Frame, frame: &Frame, padding: int) -> bool {
    &&& padded.width() == frame.width() + 2 * padding
    &&& padded.height() == frame.height() + 2 * padding
    &&& forall|x: int, y: int|
        padded.contains(x, y) ==> #[trigger] padded.at(x, y) == padded_at(frame, padding, x, y)
}

/// A padded frame holds the frame itself in its centre, and beside each row
/// of it, on the left the row's first pixel and on the right its last, over
/// the whole width of the padding.
pub proof fn lemma_padding_keeps_frame_and_repeats_border(
    padded: &Frame,
    frame: &Frame,
    padding: int,
    x: int,
    y: int,
)
    requires
        0 <= padding,
        is_padding_of(padded, frame, padding),
        0 <= y < frame.height(),
    ensures
        0 <= x < frame.width() ==> padded.at(padding + x, padding + y) == frame.at(x, y),
        0 <= x < padding && frame.width() > 0 ==> padded.at(x, padding + y) == frame.at(0, y),
        0 <= x < padding && frame.width() > 0 ==> padded.at(
            padding + frame.width() + x,
            padding + y,
        ) == frame.at(frame.width() - 1, y),
{
    if 0 <= x < frame.width() {
        assert(padded.contains(padding + x, padding + y));
    }
    if 0 <= x < padding && frame.width() > 0 {
        assert(padded.contains(x, padding + y));
        assert(padded.contains(padding + frame.width() + x, padding + y));
    }
}

/// Extends a frame by `p_width` pixels on each side. The frame sits in the
/// centre; its edge rows and columns are replicated outward, first sideways
/// and then upward and downward, so that each corner repeats the frame's
/// corner pixel.
#[verifier::loop_isolation(false)]
pub fn add_padding(img: &Frame, p_width: u32) -> (out_img: Frame)
    requires
        img.width() + 2 * p_width <= u32::MAX,
        img.height() + 2 * p_width <= u32::MAX,
        can_hold(img.width() + 2 * p_width, img.height() + 2 * p_width),
    ensures
        is_padding_of(&out_img, img, p_width as int),
{
    let (width, height) = frame_size(img);
    let mut out_img = blank_frame(width + p_width * 2, height + p_width * 2);
    if width == 0 || height == 0 {
        return out_img;
    }
    match copy_frame(&mut out_img, img, p_width, p_width) {
        Ok(_) => {},
        Err(_) => unreached(),
    }
    let ghost p = p_width as int;
    let mut y: u32 = p_width;
    while y < p_width + height
        invariant
            p_width <= y <= p_width + height,
            out_img.width() == width + 2 * p,
            out_img.height() == height + 2 * p,
            forall|i: int, j: int|
                p <= j < p + height && (p <= i < p + width || (0 <= i < width + 2 * p && j < y))
                    ==> #[trigger] out_img.at(i, j) == padded_at(img, p, i, j),
        decreases p_width + height - y,
    {
        let l_pixel_val = read_pixel(&out_img, p_width, y);
        let r_pixel_val = read_pixel(&out_img, p_width + width - 1, y);
        let mut x: u32 = 0;
        while x < p_width
            invariant
                x <= p_width,
                p_width <= y < p_width + height,
                out_img.width() == width + 2 * p,
                out_img.height() == height + 2 * p,
                forall|i: int, j: int|
                    p <= j < p + height && (p <= i < p + width || (0 <= i < width + 2 * p && j
                        < y) || (j == y && (0 <= i < x || p + width <= i < p + width + x)))
                        ==> #[trigger] out_img.at(i, j) == padded_at(img, p, i, j),
            decreases p_width - x,
        {
            write_pixel(&mut out_img, x, y, l_pixel_val);
            write_pixel(&mut out_img, x + width + p_width, y, r_pixel_val);
            x += 1;
        }
        y += 1;
    }
    let mut x: u32 = 0;
    while x < width + 2 * p_width
        invariant
            x <= width + 2 * p_width,
            out_img.width() == width + 2 * p,
            out_img.height() == height + 2 * p,
            forall|i: int, j: int|
                0 <= i < width + 2 * p && 0 <= j < height + 2 * p && (p <= j < p + height || i
                    < x) ==> #[trigger] out_img.at(i, j) == padded_at(img, p, i, j),
        decreases width + 2 * p_width - x,
    {
        let t_pixel_val = read_pixel(&out_img, x, p_width);
        let b_pixel_val = read_pixel(&out_img, x, p_width + height - 1);
        let mut y: u32 = 0;
        while y < p_width
            invariant
                y <= p_width,
                x < width + 2 * p_width,
                out_img.width() == width + 2 * p,
                out_img.height() == height + 2 * p,
                forall|i: int, j: int|
                    0 <= i < width + 2 * p && 0 <= j < height + 2 * p && (p <= j < p + height
                        || i < x || (i == x && (j < y || p + height <= j < p + height + y)))
                        ==> #[trigger] out_img.at(i, j) == padded_at(img, p, i, j),
            decreases p_width - y,
        {
            write_pixel(&mut out_img, x, y, t_pixel_val);
            write_pixel(&mut out_img, x, y + p_width + height, b_pixel_val);
            y += 1;
        }
        x += 1;
    }
    out_img
}

/// Position `block * factor + offset` lies in block number `block`.
pub proof fn lemma_block_index(block: int, factor: int, offset: int)
    requires
        0 <= block,
        0 <= offset < factor,
    ensures
        (block * factor + offset) / factor == block,
        0 <= block * factor + offset < (block + 1) * factor,
        (block + 1) * factor == block * factor + factor,
{
    assert((block + 1) * factor == block * factor + factor) by (nonlinear_arith);
    assert(0 <= block * factor) by (nonlinear_arith)
        requires
            0 <= block,
            0 < factor,
    ;
    vstd::arithmetic::div_mod::lemma_fundamental_div_mod_converse(
        block * factor + offset,
        factor,
        block,
        offset,
    );
}

/// `scaled` is `flow` with every cell replicated into a square of side
/// `factor`: cell `(i, j)` of `scaled` repeats cell `(i / factor, j / factor)`.
pub open spec fn is_scaled_up<T>(scaled: Seq<Vec<T>>, flow: Seq<Vec<T>>, factor: int) -> bool {
    &&& scaled.len() == flow.len() * factor
    &&& forall|i: int|
        0 <= i < scaled.len() ==> (#[trigger] scaled[i]).len() == flow[i / factor].len() * factor
    &&& forall|i: int, j: int|
        0 <= i < scaled.len() && 0 <= j < scaled[i].len() ==> #[trigger] scaled[i][j]
            == flow[i / factor][j / factor]
}

/// A rectangular field of `rows` by `cols` cells, scaled up by `factor`, has
/// `rows * factor` rows of `cols * factor` cells, and the square of side
/// `factor` that stands for cell `(i, j)` holds the value of that cell
/// throughout: at `(di, dj)` inside the square as everywhere else in it.
pub proof fn lemma_scaled_field_replicates_cells<T>(
    scaled: Seq<Vec<T>>,
    flow: Seq<Vec<T>>,
    factor: int,
    rows: int,
    cols: int,
    i: int,
    j: int,
    di: int,
    dj: int,
)
    requires
        0 < factor,
        is_field_of(flow, rows, cols),
        is_scaled_up(scaled, flow, factor),
        0 <= i < rows,
        0 <= j < cols,
        0 <= di < factor,
        0 <= dj < factor,
    ensures
        is_field_of(scaled, rows * factor, cols * factor),
        0 <= i * factor + di < rows * factor,
        0 <= j * factor + dj < cols * factor,
        scaled[i * factor + di][j * factor + dj] == flow[i][j],
{
    assert forall|r: int| 0 <= r < scaled.len() implies (#[trigger] scaled[r]).len() == cols
        * factor by {
        assert(0 <= r / factor < rows) by (nonlinear_arith)
            requires
                0 <= r < rows * factor,
                0 < factor,
        ;
        assert(flow[r / factor].len() == cols);
    }
    lemma_block_index(i, factor, di);
    lemma_block_index(j, factor, dj);
    assert((i + 1) * factor <= rows * factor && (j + 1) * factor <= cols * factor)
        by (nonlinear_arith)
        requires
            i + 1 <= rows,
            j + 1 <= cols,
            0 < factor,
    ;
    let r = i * factor + di;
    let c = j * factor + dj;
    assert(scaled[r].len() == cols * factor);
    assert(scaled[r][c] == flow[r / factor][c / factor]);
}

/// Replicates every cell of a flow field into a square of side `factor`, which
/// turns a field with one vector per block into one with a vector per pixel.
/// A factor of one hands the field back as it is.
#[verifier::loop_isolation(false)]
pub fn scale_up<T: Copy>(flow: Vec<Vec<T>>, factor: u32) -> (res_flow: Vec<Vec<T>>)
    requires
        factor != 1 ==> flow.len() * factor <= usize::MAX,
        factor != 1 ==> forall|i: int|
            0 <= i < flow.len() ==> (#[trigger] flow[i]).len() * factor <= usize::MAX,
    ensures
        factor == 1 ==> res_flow == flow,
        factor != 1 ==> is_scaled_up(res_flow@, flow@, factor as int),
{
    if factor == 1 {
        return flow;
    }
    let mut res_flow: Vec<Vec<T>> = Vec::new();
    let ghost f = factor as int;
    let mut i: usize = 0;
    proof {
        assert(0 * f == 0) by (nonlinear_arith);
    }
    while i < flow.len()
        invariant
            i <= flow.len(),
            res_flow.len() == i * f,
            forall|r: int|
                0 <= r < res_flow.len() ==> (#[trigger] res_flow[r]).len() == flow[r / f].len()
                    * f,
            forall|r: int, c: int|
                0 <= r < res_flow.len() && 0 <= c < res_flow[r].len() ==> #[trigger] res_flow[r][c]
                    == flow[r / f][c / f],
        decreases flow.len() - i,
    {
        let mut ib: u32 = 0;
        while ib < factor
            invariant
                i < flow.len(),
                ib <= factor,
                res_flow.len() == i * f + ib,
                forall|r: int|
                    0 <= r < res_flow.len() ==> (#[trigger] res_flow[r]).len() == flow[r
                        / f].len() * f,
                forall|r: int, c: int|
                    0 <= r < res_flow.len() && 0 <= c < res_flow[r].len()
                        ==> #[trigger] res_flow[r][c] == flow[r / f][c / f],
            decreases factor - ib,
        {
            let row = scaled_row(&flow[i], factor);
            proof {
                lemma_block_index(i as int, f, ib as int);
            }
            res_flow.push(row);
            ib += 1;
        }
        proof {
            assert((i + 1) * f == i * f + f) by (nonlinear_arith);
        }
        i += 1;
    }
    res_flow
}

/// One row with every cell repeated `factor` times in place.
#[verifier::loop_isolation(false)]
fn scaled_row<T: Copy>(row: &Vec<T>, factor: u32) -> (scaled: Vec<T>)
    requires
        row.len() * factor <= usize::MAX,
    ensures
        scaled.len() == row.len() * factor,
        factor > 0 ==> forall|c: int|
            0 <= c < scaled.len() ==> #[trigger] scaled[c] == row[c / (factor as int)],
{
    let mut scaled: Vec<T> = Vec::new();
    let ghost f = factor as int;
    let mut j: usize = 0;
    proof {
        assert(0 * f == 0) by (nonlinear_arith);
    }
    while j < row.len()
        invariant
            j <= row.len(),
            scaled.len() == j * f,
            forall|c: int| 0 <= c < scaled.len() ==> #[trigger] scaled[c] == row[c / f],
        decreases row.len() - j,
    {
        let mut jb: u32 = 0;
        while jb < factor
            invariant
                j < row.len(),
                jb <= factor,
                scaled.len() == j * f + jb,
                forall|c: int| 0 <= c < scaled.len() ==> #[trigger] scaled[c] == row[c / f],
            decreases factor - jb,
        {
            proof {
                lemma_block_index(j as int, f, jb as int);
            }
            scaled.push(row[j]);
            jb += 1;
        }
        proof {
            assert((j + 1) * f == j * f + f) by (nonlinear_arith);
        }
        j += 1;
    }
    scaled
}

/// The field holds `rows` rows of `cols` entries each.
pub open spec fn is_field_of<T>(field: Seq<Vec<T>>, rows: int, cols: int) -> bool {
    &&& field.len() == rows
    &&& forall|i: int| 0 <= i < field.len() ==> (#[trigger] field[i]).len() == cols
}

/// Two fields have the same number of rows, and row by row the same number
/// of entries.
pub open spec fn same_shape<A, B>(left: Seq<Vec<A>>, right: Seq<Vec<B>>) -> bool {
    &&& left.len() == right.len()
    &&& forall|i: int| 0 <= i < left.len() ==> (#[trigger] left[i]).len() == right[i].len()
}

#[verifier::loop_isolation(false)]
pub(crate) fn has_shape<T>(field: &Vec<Vec<T>>, rows: u32, cols: u32) -> (fits: bool)
    ensures
        fits == is_field_of(field@, rows as int, cols as int),
{
    if field.len() != rows as usize {
        return false;
    }
    let mut i: usize = 0;
    while i < field.len()
        invariant
            i <= field.len(),
            forall|r: int| 0 <= r < i ==> (#[trigger] field[r]).len() == cols,
        decreases field.len() - i,
    {
        if field[i].len() != cols as usize {
            return false;
        }
        i += 1;
    }
    true
}

/// Tells whether two fields have the same number of rows, and row by row the
/// same number of entries.
#[verifier::loop_isolation(false)]
pub fn shapes_match<A, B>(left: &Vec<Vec<A>>, right: &Vec<Vec<B>>) -> (same: bool)
    ensures
        same == same_shape(left@, right@),
{
    if left.len() != right.len() {
        return false;
    }
    let mut i: usize = 0;
    while i < left.len()
        invariant
            i <= left.len(),
            forall|r: int| 0 <= r < i ==> (#[trigger] left[r]).len() == right[r].len(),
        decreases left.len() - i,
    {
        if left[i].len() != right[i].len() {
            return false;
        }
        i += 1;
    }
    true
}

} // verus!
