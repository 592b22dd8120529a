//! Exhaustive block matching: for every block of the first frame, the offset
//! at which the second frame resembles it most.

pub mod laws;

use crate::frame::{can_hold, frame_size, read_pixel, Frame};
use crate::operations::{
    add_padding, is_field_of, is_padding_of, lemma_pixel_distance_bounds, pixel_difference,
    pixel_distance, replicated_at,
};
use vstd::prelude::*;

verus! {

/// The largest squared distance two pixels can have once the distance has
/// been rounded down: `441 * 441`.
pub const MAX_PIXEL_COST: u32 = 194481;

/// The match error of a block that was not searched.
pub const UNSEARCHED: u32 = u32::MAX;

/// What block matching can be told.
#[derive(Debug, Clone, Copy)]
pub struct BmaSettings {
    /// Whether progress is reported. The library itself reports nothing.
    pub verbose: bool,
    /// Side of a block in pixels; must not be zero.
    pub block_width: u32,
    /// Offsets from `-search_radius` up to, but not including, `search_radius`
    /// are tried in each direction.
    pub search_radius: u8,
    /// Whether blocks that hardly changed are left unsearched.
    pub use_movement_map: bool,
    /// A pixel counts as changed when its two colours lie further apart than this.
    pub movement_map_min_pix_diff: u16,
    /// A block counts as moved when its change figure exceeds this.
    pub movement_map_min_change_percentage: u16,
}

impl BmaSettings {
    /// Blocks of 16 pixels, a search radius of 7, and the movement map on
    /// with thresholds of 10 and 30.
    pub fn default() -> (settings: BmaSettings)
        ensures
            settings == (BmaSettings {
                verbose: false,
                block_width: 16,
                search_radius: 7,
                use_movement_map: true,
                movement_map_min_pix_diff: 10,
                movement_map_min_change_percentage: 30,
            }),
    {
        BmaSettings {
            verbose: false,
            block_width: 16,
            search_radius: 7,
            use_movement_map: true,
            movement_map_min_pix_diff: 10,
            movement_map_min_change_percentage: 30,
        }
    }
}

/// The squared rounded distance between the pixel `(x, y)` of `frame_1` and
/// the pixel of `frame_2` that lies `(ox, oy)` away from it, both frames
/// continued beyond their borders.
pub open spec fn pixel_cost(frame_1: &Frame, frame_2: &Frame, x: int, y: int, ox: int, oy: int) -> int {
    let d = pixel_distance(replicated_at(frame_1, x, y), replicated_at(frame_2, x + ox, y + oy));
    d * d
}

/// The sum of [`pixel_cost`] down the first `count` pixels of the column that
/// starts at `(x, y0)`.
pub open spec fn column_cost(
    frame_1: &Frame,
    frame_2: &Frame,
    x: int,
    y0: int,
    ox: int,
    oy: int,
    count: int,
) -> int
    decreases count,
{
    if count <= 0 {
        0
    } else {
        column_cost(frame_1, frame_2, x, y0, ox, oy, count - 1) + pixel_cost(
            frame_1,
            frame_2,
            x,
            y0 + count - 1,
            ox,
            oy,
        )
    }
}

/// The sum of [`column_cost`] over the first `count` columns, each `side`
/// pixels high, of the block whose corner is `(x0, y0)`.
pub open spec fn block_cost(
    frame_1: &Frame,
    frame_2: &Frame,
    x0: int,
    y0: int,
    ox: int,
    oy: int,
    side: int,
    count: int,
) -> int
    decreases count,
{
    if count <= 0 {
        0
    } else {
        block_cost(frame_1, frame_2, x0, y0, ox, oy, side, count - 1) + column_cost(
            frame_1,
            frame_2,
            x0 + count - 1,
            y0,
            ox,
            oy,
            side,
        )
    }
}

/// The error of matching block `(block_i, block_j)` of `frame_1`, by row and
/// column of the block grid, against `frame_2` at offset `(ox, oy)`: the mean
/// of [`pixel_cost`] over the block, rounded down.
pub open spec fn match_error(
    frame_1: &Frame,
    frame_2: &Frame,
    block_width: int,
    block_i: int,
    block_j: int,
    ox: int,
    oy: int,
) -> int {
    block_cost(
        frame_1,
        frame_2,
        block_j * block_width,
        block_i * block_width,
        ox,
        oy,
        block_width,
        block_width,
    ) / (block_width * block_width)
}

/// The cost of a pair of pixels lies between zero and [`MAX_PIXEL_COST`], and
/// is zero exactly where the two pixels have the same colour.
pub proof fn lemma_pixel_cost_bounds(
    frame_1: &Frame,
    frame_2: &Frame,
    x: int,
    y: int,
    ox: int,
    oy: int,
)
    ensures
        0 <= pixel_cost(frame_1, frame_2, x, y, ox, oy) <= MAX_PIXEL_COST,
        pixel_cost(frame_1, frame_2, x, y, ox, oy) == 0 <==> replicated_at(frame_1, x, y)
            == replicated_at(frame_2, x + ox, y + oy),
{
    let p = replicated_at(frame_1, x, y);
    let q = replicated_at(frame_2, x + ox, y + oy);
    lemma_pixel_distance_bounds(p, q);
    let d = pixel_distance(p, q);
    assert(0 <= d * d <= 194481 && (d * d == 0 <==> d == 0)) by (nonlinear_arith)
        requires
            0 <= d <= 441,
    ;
}

/// The cost of a column is at most [`MAX_PIXEL_COST`] for each of its pixels.
pub proof fn lemma_column_cost_bounds(
    frame_1: &Frame,
    frame_2: &Frame,
    x: int,
    y0: int,
    ox: int,
    oy: int,
    count: int,
)
    requires
        0 <= count,
    ensures
        0 <= column_cost(frame_1, frame_2, x, y0, ox, oy, count) <= count * MAX_PIXEL_COST,
    decreases count,
{
    if count > 0 {
        lemma_column_cost_bounds(frame_1, frame_2, x, y0, ox, oy, count - 1);
        lemma_pixel_cost_bounds(frame_1, frame_2, x, y0 + count - 1, ox, oy);
    }
}

/// The cost of a block is at most [`MAX_PIXEL_COST`] for each of its pixels.
pub proof fn lemma_block_cost_bounds(
    frame_1: &Frame,
    frame_2: &Frame,
    x0: int,
    y0: int,
    ox: int,
    oy: int,
    side: int,
    count: int,
)
    requires
        0 <= count,
        0 <= side,
    ensures
        0 <= block_cost(frame_1, frame_2, x0, y0, ox, oy, side, count) <= count * (side
            * MAX_PIXEL_COST),
    decreases count,
{
    if count > 0 {
        lemma_block_cost_bounds(frame_1, frame_2, x0, y0, ox, oy, side, count - 1);
        lemma_column_cost_bounds(frame_1, frame_2, x0 + count - 1, y0, ox, oy, side);
        assert(count * (side * MAX_PIXEL_COST) == (count - 1) * (side * MAX_PIXEL_COST) + side
            * MAX_PIXEL_COST) by (nonlinear_arith);
    }
}

/// A match error lies between zero and [`MAX_PIXEL_COST`].
pub proof fn lemma_match_error_bounds(
    frame_1: &Frame,
    frame_2: &Frame,
    block_width: int,
    block_i: int,
    block_j: int,
    ox: int,
    oy: int,
)
    requires
        0 < block_width,
    ensures
        0 <= match_error(frame_1, frame_2, block_width, block_i, block_j, ox, oy)
            <= MAX_PIXEL_COST,
{
    let total = block_cost(
        frame_1,
        frame_2,
        block_j * block_width,
        block_i * block_width,
        ox,
        oy,
        block_width,
        block_width,
    );
    lemma_block_cost_bounds(
        frame_1,
        frame_2,
        block_j * block_width,
        block_i * block_width,
        ox,
        oy,
        block_width,
        block_width,
    );
    let area = block_width * block_width;
    assert(area > 0 && block_width * (block_width * MAX_PIXEL_COST) == MAX_PIXEL_COST * area)
        by (nonlinear_arith)
        requires
            0 < block_width,
            area == block_width * block_width,
    ;
    assert(0 <= total / area <= MAX_PIXEL_COST) by (nonlinear_arith)
        requires
            0 <= total <= MAX_PIXEL_COST * area,
            area > 0,
    ;
}

/// The error of one block at one offset, read from the padded frames.
#[verifier::loop_isolation(false)]
fn block_error(
    padded_1: &Frame,
    padded_2: &Frame,
    Ghost(frame_1): Ghost<&Frame>,
    Ghost(frame_2): Ghost<&Frame>,
    padding: u32,
    block_width: u32,
    block_i: u32,
    block_j: u32,
    x_offset: i16,
    y_offset: i16,
) -> (error: u32)
    requires
        is_padding_of(padded_1, frame_1, padding as int),
        is_padding_of(padded_2, frame_2, padding as int),
        frame_1.width() == frame_2.width(),
        frame_1.height() == frame_2.height(),
        block_width > 0,
        -padding + block_width <= x_offset <= padding - block_width,
        -padding + block_width <= y_offset <= padding - block_width,
        block_j * block_width < frame_1.width(),
        block_i * block_width < frame_1.height(),
        frame_1.width() + 2 * padding <= u32::MAX,
        frame_1.height() + 2 * padding <= u32::MAX,
    ensures
        error == match_error(
            frame_1,
            frame_2,
            block_width as int,
            block_i as int,
            block_j as int,
            x_offset as int,
            y_offset as int,
        ),
        error <= MAX_PIXEL_COST,
{
    let ghost x0 = block_j * block_width;
    let ghost y0 = block_i * block_width;
    let ghost ox = x_offset as int;
    let ghost oy = y_offset as int;
    let ghost side = block_width as int;
    let left: u32 = padding + block_j * block_width;
    let top: u32 = padding + block_i * block_width;
    let mut total: u128 = 0;
    let mut x: u32 = 0;
    while x < block_width
        invariant
            x <= block_width,
            total == block_cost(frame_1, frame_2, x0, y0, ox, oy, side, x as int),
        decreases block_width - x,
    {
        let ghost before = total;
        let mut y: u32 = 0;
        while y < block_width
            invariant
                y <= block_width,
                x < block_width,
                total == before + column_cost(frame_1, frame_2, x0 + x, y0, ox, oy, y as int),
            decreases block_width - y,
        {
            let pix_x: u32 = left + x;
            let pix_y: u32 = top + y;
            let other_x: u32 = (pix_x as i64 + x_offset as i64) as u32;
            let other_y: u32 = (pix_y as i64 + y_offset as i64) as u32;
            let distance = pixel_difference(
                read_pixel(padded_1, pix_x, pix_y),
                read_pixel(padded_2, other_x, other_y),
            );
            proof {
                lemma_block_cost_bounds(frame_1, frame_2, x0, y0, ox, oy, side, x as int);
                lemma_column_cost_bounds(frame_1, frame_2, x0 + x, y0, ox, oy, y as int);
                assert(x * (side * MAX_PIXEL_COST) + y * MAX_PIXEL_COST <= 0xFFFF_FFFF * (
                0xFFFF_FFFF * 194481) + 0xFFFF_FFFF * 194481) by (nonlinear_arith)
                    requires
                        0 <= x <= 0xFFFF_FFFF,
                        0 <= y <= 0xFFFF_FFFF,
                        0 <= side <= 0xFFFF_FFFF,
                ;
                assert(0 <= distance * distance <= 194481) by (nonlinear_arith)
                    requires
                        0 <= distance <= 441,
                ;
            }
            total = total + (distance as u128) * (distance as u128);
            y += 1;
        }
        x += 1;
    }
    proof {
        lemma_match_error_bounds(
            frame_1,
            frame_2,
            side,
            block_i as int,
            block_j as int,
            ox,
            oy,
        );
        assert(0 < (block_width as u128) * (block_width as u128) <= 0xFFFF_FFFF * 0xFFFF_FFFF)
            by (nonlinear_arith)
            requires
                0 < block_width <= 0xFFFF_FFFF,
        ;
    }
    let area: u128 = (block_width as u128) * (block_width as u128);
    (total / area) as u32
}

/// The offset `(ox, oy)` is among those a search of the given radius tries.
pub open spec fn in_window(radius: int, ox: int, oy: int) -> bool {
    -radius <= ox < radius && -radius <= oy < radius
}

/// The search tries offset `a` before offset `b`: it walks through the
/// horizontal offsets, and for each of them through the vertical ones.
pub open spec fn tried_before(a: (int, int), b: (int, int)) -> bool {
    a.0 < b.0 || (a.0 == b.0 && a.1 < b.1)
}

/// `cell` is what the exhaustive search finds for block `(block_i, block_j)`:
/// the offset of least [`match_error`] in the window, the first of them in
/// the order of the search where several are equally good, together with its
/// error. A window of radius zero holds no offset, and the block stays
/// unsearched.
pub open spec fn is_best_match(
    frame_1: &Frame,
    frame_2: &Frame,
    block_width: int,
    radius: int,
    block_i: int,
    block_j: int,
    cell: (i16, i16, u32),
) -> bool {
    if radius <= 0 {
        cell == (0i16, 0i16, UNSEARCHED)
    } else {
        &&& in_window(radius, cell.0 as int, cell.1 as int)
        &&& cell.2 == match_error(
            frame_1,
            frame_2,
            block_width,
            block_i,
            block_j,
            cell.0 as int,
            cell.1 as int,
        )
        &&& forall|ox: int, oy: int|
            in_window(radius, ox, oy) ==> {
                &&& #[trigger] match_error(frame_1, frame_2, block_width, block_i, block_j, ox, oy)
                    >= cell.2
                &&& tried_before((ox, oy), (cell.0 as int, cell.1 as int)) ==> match_error(
                    frame_1,
                    frame_2,
                    block_width,
                    block_i,
                    block_j,
                    ox,
                    oy,
                ) > cell.2
            }
    }
}

/// `cell` is the best match among the offsets that the search tries before
/// it reaches `next`; before the first offset it is the unsearched cell.
spec fn is_best_so_far(
    frame_1: &Frame,
    frame_2: &Frame,
    block_width: int,
    radius: int,
    block_i: int,
    block_j: int,
    next: (int, int),
    cell: (i16, i16, u32),
) -> bool {
    if cell.2 == UNSEARCHED {
        &&& cell == (0i16, 0i16, UNSEARCHED)
        &&& forall|ox: int, oy: int|
            in_window(radius, ox, oy) ==> !tried_before((ox, oy), next)
    } else {
        &&& in_window(radius, cell.0 as int, cell.1 as int)
        &&& tried_before((cell.0 as int, cell.1 as int), next)
        &&& cell.2 == match_error(
            frame_1,
            frame_2,
            block_width,
            block_i,
            block_j,
            cell.0 as int,
            cell.1 as int,
        )
        &&& forall|ox: int, oy: int|
            in_window(radius, ox, oy) && tried_before((ox, oy), next) ==> {
                &&& #[trigger] match_error(frame_1, frame_2, block_width, block_i, block_j, ox, oy)
                    >= cell.2
                &&& tried_before((ox, oy), (cell.0 as int, cell.1 as int)) ==> match_error(
                    frame_1,
                    frame_2,
                    block_width,
                    block_i,
                    block_j,
                    ox,
                    oy,
                ) > cell.2
            }
    }
}

/// Whether the pixel `(x, y)` lies in both frames and its two colours are
/// further apart than `min_pix_diff`.
pub open spec fn has_changed(
    frame_1: &Frame,
    frame_2: &Frame,
    min_pix_diff: int,
    x: int,
    y: int,
) -> bool {
    frame_1.contains(x, y) && frame_2.contains(x, y) && pixel_distance(
        frame_1.at(x, y),
        frame_2.at(x, y),
    ) > min_pix_diff
}

/// The number of changed pixels among the first `count` of the column that
/// starts at `(x, y0)`.
pub open spec fn changed_in_column(
    frame_1: &Frame,
    frame_2: &Frame,
    min_pix_diff: int,
    x: int,
    y0: int,
    count: int,
) -> int
    decreases count,
{
    if count <= 0 {
        0
    } else {
        changed_in_column(frame_1, frame_2, min_pix_diff, x, y0, count - 1) + if has_changed(
            frame_1,
            frame_2,
            min_pix_diff,
            x,
            y0 + count - 1,
        ) {
            1int
        } else {
            0int
        }
    }
}

/// The number of changed pixels in the first `count` columns, each `side`
/// pixels high, of the block whose corner is `(x0, y0)`. Pixels of the block
/// that lie outside the frames do not count.
pub open spec fn changed_in_block(
    frame_1: &Frame,
    frame_2: &Frame,
    min_pix_diff: int,
    x0: int,
    y0: int,
    side: int,
    count: int,
) -> int
    decreases count,
{
    if count <= 0 {
        0
    } else {
        changed_in_block(frame_1, frame_2, min_pix_diff, x0, y0, side, count - 1)
            + changed_in_column(frame_1, frame_2, min_pix_diff, x0 + count - 1, y0, side)
    }
}

/// The number of changed pixels of block `(block_i, block_j)`.
pub open spec fn changed_pixels(
    frame_1: &Frame,
    frame_2: &Frame,
    settings: BmaSettings,
    block_i: int,
    block_j: int,
) -> int {
    changed_in_block(
        frame_1,
        frame_2,
        settings.movement_map_min_pix_diff as int,
        block_j * settings.block_width,
        block_i * settings.block_width,
        settings.block_width as int,
        settings.block_width as int,
    )
}

/// Whether the movement map lets block `(block_i, block_j)` be searched. A
/// block without a changed pixel has not moved. Otherwise its change figure is
/// a hundred times the block's area divided by the number of changed pixels,
/// rounded down, and the block has moved when that exceeds
/// `movement_map_min_change_percentage`. The figure falls as more pixels
/// change.
pub open spec fn block_has_moved(
    frame_1: &Frame,
    frame_2: &Frame,
    settings: BmaSettings,
    block_i: int,
    block_j: int,
) -> bool {
    let changed = changed_pixels(frame_1, frame_2, settings, block_i, block_j);
    changed > 0 && (settings.block_width * settings.block_width * 100) / changed
        > settings.movement_map_min_change_percentage
}

/// `cell` is the entry of the flow field for block `(block_i, block_j)`: the
/// best match where the block is searched, and the zero vector with the error
/// [`UNSEARCHED`] where the movement map holds it back.
pub open spec fn is_flow_cell(
    frame_1: &Frame,
    frame_2: &Frame,
    settings: BmaSettings,
    block_i: int,
    block_j: int,
    cell: (i16, i16, u32),
) -> bool {
    if !settings.use_movement_map || block_has_moved(frame_1, frame_2, settings, block_i, block_j) {
        is_best_match(
            frame_1,
            frame_2,
            settings.block_width as int,
            settings.search_radius as int,
            block_i,
            block_j,
            cell,
        )
    } else {
        cell == (0i16, 0i16, UNSEARCHED)
    }
}

/// The number of blocks of side `block_width` that cover `length` pixels.
pub open spec fn block_count(length: int, block_width: int) -> int {
    if length % block_width == 0 {
        length / block_width
    } else {
        length / block_width + 1
    }
}

/// `flow` is the error-tagged flow field from `frame_1` to `frame_2`: one
/// cell for each block of the grid that covers the frames, row by row.
pub open spec fn is_error_flow(
    flow: Seq<Vec<(i16, i16, u32)>>,
    frame_1: &Frame,
    frame_2: &Frame,
    settings: BmaSettings,
) -> bool {
    &&& is_field_of(
        flow,
        block_count(frame_1.height() as int, settings.block_width as int),
        block_count(frame_1.width() as int, settings.block_width as int),
    )
    &&& forall|i: int, j: int|
        0 <= i < flow.len() && 0 <= j < flow[i].len() ==> is_flow_cell(
            frame_1,
            frame_2,
            settings,
            i,
            j,
            #[trigger] flow[i][j],
        )
}

/// The blocks of the grid start inside what they cover: block number `block`
/// begins before `length`.
pub proof fn lemma_block_starts_inside(length: int, block_width: int, block: int)
    requires
        0 <= length,
        0 < block_width,
        0 <= block < block_count(length, block_width),
    ensures
        0 <= block * block_width < length,
        block * block_width + block_width <= length + block_width,
        block_count(length, block_width) <= length,
{
    vstd::arithmetic::div_mod::lemma_fundamental_div_mod(length, block_width);
    let q = length / block_width;
    let r = length % block_width;
    assert(0 <= r < block_width) by {
        vstd::arithmetic::div_mod::lemma_mod_bound(length, block_width);
    }
    assert(length == block_width * q + r);
    assert(q >= 0) by (nonlinear_arith)
        requires
            length == block_width * q + r,
            0 <= r < block_width,
            0 <= length,
            0 < block_width,
    ;
    assert(0 <= block * block_width) by (nonlinear_arith)
        requires
            0 <= block,
            0 < block_width,
    ;
    assert(block * block_width < length) by (nonlinear_arith)
        requires
            length == block_width * q + r,
            0 <= r < block_width,
            0 <= block,
            0 < block_width,
            block < q || (r > 0 && block == q),
    ;
    assert(q <= length && (r > 0 ==> q + 1 <= length)) by (nonlinear_arith)
        requires
            length == block_width * q + r,
            0 <= r < block_width,
            0 <= q,
            0 < block_width,
    ;
}

/// A positive length is covered by at least one block, and by no more blocks
/// than it has pixels.
pub proof fn lemma_block_count_bounds(length: int, block_width: int)
    requires
        0 < length,
        0 < block_width,
    ensures
        1 <= block_count(length, block_width) <= length,
{
    vstd::arithmetic::div_mod::lemma_fundamental_div_mod(length, block_width);
    vstd::arithmetic::div_mod::lemma_mod_bound(length, block_width);
    let q = length / block_width;
    let r = length % block_width;
    assert(q >= 0 && (r == 0 ==> q >= 1) && q <= length && (r > 0 ==> q + 1 <= length))
        by (nonlinear_arith)
        requires
            length == block_width * q + r,
            0 <= r < block_width,
            0 < length,
            0 < block_width,
    ;
}

/// `num::integer::div_ceil` on `u32`: the quotient rounded up. It divides, and
/// so panics, by zero.
#[verifier::external_body]
fn ceiled_division(x: u32, y: u32) -> (quotient: u32)
    requires
        y != 0,
    ensures
        quotient == block_count(x as int, y as int),
{
    num::integer::div_ceil(x, y)
}

/// The margin that frames are padded with under the given settings: the
/// search radius plus the block width.
pub open spec fn padding_for(settings: BmaSettings) -> int {
    settings.search_radius + settings.block_width
}

/// Whether frames of the given size can be searched under the given settings:
/// the block width is not zero, and the padded frames stay within what a frame
/// can be.
pub open spec fn can_process(settings: BmaSettings, width: int, height: int) -> bool {
    &&& settings.block_width > 0
    &&& width + 2 * padding_for(settings) <= u32::MAX
    &&& height + 2 * padding_for(settings) <= u32::MAX
    &&& can_hold(width + 2 * padding_for(settings), height + 2 * padding_for(settings))
}

/// Block matching with its settings.
pub struct BMA {
    settings: BmaSettings,
}

impl BMA {
    /// The settings in force.
    pub closed spec fn settings(&self) -> BmaSettings {
        self.settings
    }

    /// The margin the frames are padded with before the search, so that no
    /// offset of any block reaches outside: the search radius plus the block
    /// width. It follows the two whenever either is set.
    pub open spec fn padding(&self) -> int {
        padding_for(self.settings())
    }

    /// Whether `calc_flow` can take frames of the given size.
    pub open spec fn can_process(&self, width: int, height: int) -> bool {
        can_process(self.settings(), width, height)
    }

    /// Block matching with the default settings.
    pub fn new() -> (bma: BMA)
        ensures
            bma.settings() == (BmaSettings {
                verbose: false,
                block_width: 16,
                search_radius: 7,
                use_movement_map: true,
                movement_map_min_pix_diff: 10,
                movement_map_min_change_percentage: 30,
            }),
    {
        BMA { settings: BmaSettings::default() }
    }

    /// Replaces all settings at once.
    pub fn apply_settings(&mut self, settings: &BmaSettings)
        ensures
            final(self).settings() == *settings,
    {
        self.settings = *settings;
    }

    /// Sets whether progress is reported.
    pub fn set_verbose(&mut self, verbose: bool)
        ensures
            final(self).settings() == (BmaSettings { verbose, ..old(self).settings() }),
    {
        self.settings.verbose = verbose;
    }

    /// Sets the side of the blocks, and with it the padding.
    pub fn set_block_width(&mut self, b_width: u32)
        ensures
            final(self).settings() == (BmaSettings { block_width: b_width, ..old(self).settings() }),
    {
        self.settings.block_width = b_width;
    }

    /// Sets the search radius, and with it the padding.
    pub fn set_search_radius(&mut self, s_radius: u8)
        ensures
            final(self).settings() == (BmaSettings {
                search_radius: s_radius,
                ..old(self).settings()
            }),
    {
        self.settings.search_radius = s_radius;
    }

    /// Turns the movement map on or off.
    pub fn set_use_movement_map(&mut self, use_mov_map: bool)
        ensures
            final(self).settings() == (BmaSettings {
                use_movement_map: use_mov_map,
                ..old(self).settings()
            }),
    {
        self.settings.use_movement_map = use_mov_map;
    }

    /// Sets how far apart the two colours of a changed pixel lie at least.
    pub fn set_movement_map_min_pix_diff(&mut self, min_pix_diff: u16)
        ensures
            final(self).settings() == (BmaSettings {
                movement_map_min_pix_diff: min_pix_diff,
                ..old(self).settings()
            }),
    {
        self.settings.movement_map_min_pix_diff = min_pix_diff;
    }

    /// Sets what the change figure of a moved block exceeds.
    pub fn set_movement_map_min_change_percentage(&mut self, min_change_percentage: u16)
        ensures
            final(self).settings() == (BmaSettings {
                movement_map_min_change_percentage: min_change_percentage,
                ..old(self).settings()
            }),
    {
        self.settings.movement_map_min_change_percentage = min_change_percentage;
    }

    /// The settings in force.
    pub fn current_settings(&self) -> (settings: BmaSettings)
        ensures
            settings == self.settings(),
    {
        self.settings
    }

    /// The margin that frames are padded with before the search. It follows
    /// the block width and the search radius whenever either is set.
    pub fn padding_width(&self) -> (padding: u64)
        ensures
            padding == self.padding(),
    {
        self.settings.search_radius as u64 + self.settings.block_width as u64
    }

    /// Tells whether `calc_flow` can take frames of the given size.
    pub fn fits(&self, width: u32, height: u32) -> (fitting: bool)
        ensures
            fitting == self.can_process(width as int, height as int),
    {
        if self.settings.block_width == 0 {
            return false;
        }
        let padding: u64 = self.settings.search_radius as u64 + self.settings.block_width as u64;
        let padded_width: u64 = width as u64 + 2 * padding;
        let padded_height: u64 = height as u64 + 2 * padding;
        if padded_width > u32::MAX as u64 || padded_height > u32::MAX as u64 {
            return false;
        }
        assert(padded_width * padded_height <= 0xFFFF_FFFF * 0xFFFF_FFFF) by (nonlinear_arith)
            requires
                0 <= padded_width <= 0xFFFF_FFFF,
                0 <= padded_height <= 0xFFFF_FFFF,
        ;
        if 3u128 * (padded_width as u128) > usize::MAX as u128 {
            return false;
        }
        let bytes: u128 = 3 * ((padded_width as u128) * (padded_height as u128));
        assert(bytes == 3 * (width + 2 * self.padding()) * (height + 2 * self.padding()))
            by (nonlinear_arith)
            requires
                bytes == 3 * (padded_width * padded_height),
                padded_width == width + 2 * self.padding(),
                padded_height == height + 2 * self.padding(),
        ;
        bytes <= isize::MAX as u128
    }
}

/// A column holds no more changed pixels than pixels.
proof fn lemma_changed_in_column_bounds(
    frame_1: &Frame,
    frame_2: &Frame,
    min_pix_diff: int,
    x: int,
    y0: int,
    count: int,
)
    requires
        0 <= count,
    ensures
        0 <= changed_in_column(frame_1, frame_2, min_pix_diff, x, y0, count) <= count,
    decreases count,
{
    if count > 0 {
        lemma_changed_in_column_bounds(frame_1, frame_2, min_pix_diff, x, y0, count - 1);
    }
}

/// A block holds no more changed pixels than pixels.
proof fn lemma_changed_in_block_bounds(
    frame_1: &Frame,
    frame_2: &Frame,
    min_pix_diff: int,
    x0: int,
    y0: int,
    side: int,
    count: int,
)
    requires
        0 <= count,
        0 <= side,
    ensures
        0 <= changed_in_block(frame_1, frame_2, min_pix_diff, x0, y0, side, count) <= count
            * side,
    decreases count,
{
    if count > 0 {
        lemma_changed_in_block_bounds(frame_1, frame_2, min_pix_diff, x0, y0, side, count - 1);
        lemma_changed_in_column_bounds(frame_1, frame_2, min_pix_diff, x0 + count - 1, y0, side);
        assert(count * side == (count - 1) * side + side) by (nonlinear_arith);
    }
}

impl BMA {
    /// Counts the changed pixels of a block and applies the movement map.
    #[verifier::loop_isolation(false)]
    fn has_block_moved(&self, block_i: u32, block_j: u32, frame_1: &Frame, frame_2: &Frame) -> (moved:
        bool)
        requires
            frame_1.width() == frame_2.width(),
            frame_1.height() == frame_2.height(),
            self.settings().block_width > 0,
            block_j * self.settings().block_width < frame_1.width(),
            block_i * self.settings().block_width < frame_1.height(),
        ensures
            moved == block_has_moved(
                frame_1,
                frame_2,
                self.settings(),
                block_i as int,
                block_j as int,
            ),
    {
        let (width, height) = frame_size(frame_1);
        let block_width = self.settings.block_width;
        let min_pix_diff = self.settings.movement_map_min_pix_diff;
        let ghost x0 = block_j * block_width;
        let ghost y0 = block_i * block_width;
        let ghost side = block_width as int;
        let ghost least = min_pix_diff as int;
        let left: u32 = block_j * block_width;
        let top: u32 = block_i * block_width;
        let mut changed_pixels: u64 = 0;
        let mut x: u32 = 0;
        while x < block_width
            invariant
                x <= block_width,
                changed_pixels == changed_in_block(frame_1, frame_2, least, x0, y0, side, x as int),
            decreases block_width - x,
        {
            let ghost before = changed_pixels;
            let mut y: u32 = 0;
            while y < block_width
                invariant
                    y <= block_width,
                    x < block_width,
                    changed_pixels == before + changed_in_column(
                        frame_1,
                        frame_2,
                        least,
                        x0 + x,
                        y0,
                        y as int,
                    ),
                decreases block_width - y,
            {
                proof {
                    lemma_changed_in_block_bounds(frame_1, frame_2, least, x0, y0, side, x as int);
                    lemma_changed_in_column_bounds(frame_1, frame_2, least, x0 + x, y0, y as int);
                    assert(x * side + y <= 0xFFFF_FFFF * 0xFFFF_FFFF + 0xFFFF_FFFF)
                        by (nonlinear_arith)
                        requires
                            0 <= x <= 0xFFFF_FFFF,
                            0 <= y <= 0xFFFF_FFFF,
                            0 <= side <= 0xFFFF_FFFF,
                    ;
                }
                let pix_x: u64 = left as u64 + x as u64;
                let pix_y: u64 = top as u64 + y as u64;
                if pix_x < width as u64 && pix_y < height as u64 {
                    let distance = pixel_difference(
                        read_pixel(frame_1, pix_x as u32, pix_y as u32),
                        read_pixel(frame_2, pix_x as u32, pix_y as u32),
                    );
                    if distance > min_pix_diff {
                        changed_pixels += 1;
                    }
                }
                y += 1;
            }
            x += 1;
        }
        if changed_pixels == 0 {
            return false;
        }
        assert((block_width as u128) * (block_width as u128) * 100 <= 0xFFFF_FFFF * 0xFFFF_FFFF
            * 100) by (nonlinear_arith)
            requires
                0 <= block_width <= 0xFFFF_FFFF,
        ;
        let change_percentage: u128 = (block_width as u128) * (block_width as u128) * 100
            / (changed_pixels as u128);
        change_percentage > self.settings.movement_map_min_change_percentage as u128
    }

    /// Searches the window of one block for its best match.
    #[verifier::loop_isolation(false)]
    fn get_motion_vector(
        &self,
        img_1: &Frame,
        img_2: &Frame,
        Ghost(frame_1): Ghost<&Frame>,
        Ghost(frame_2): Ghost<&Frame>,
        block_i: u32,
        block_j: u32,
    ) -> (motion_vector: (i16, i16, u32))
        requires
            is_padding_of(img_1, frame_1, self.padding()),
            is_padding_of(img_2, frame_2, self.padding()),
            frame_1.width() == frame_2.width(),
            frame_1.height() == frame_2.height(),
            self.can_process(frame_1.width() as int, frame_1.height() as int),
            block_j * self.settings().block_width < frame_1.width(),
            block_i * self.settings().block_width < frame_1.height(),
        ensures
            is_best_match(
                frame_1,
                frame_2,
                self.settings().block_width as int,
                self.settings().search_radius as int,
                block_i as int,
                block_j as int,
                motion_vector,
            ),
    {
        let block_width = self.settings.block_width;
        let radius: i16 = self.settings.search_radius as i16;
        let padding: u32 = self.settings.search_radius as u32 + block_width;
        let ghost side = block_width as int;
        let ghost bi = block_i as int;
        let ghost bj = block_j as int;
        let mut motion_vector: (i16, i16, u32) = (0, 0, UNSEARCHED);
        let mut x_offset: i16 = -radius;
        while x_offset < radius
            invariant
                -radius <= x_offset <= radius,
                is_best_so_far(
                    frame_1,
                    frame_2,
                    side,
                    radius as int,
                    bi,
                    bj,
                    (x_offset as int, -radius as int),
                    motion_vector,
                ),
            decreases radius - x_offset,
        {
            let mut y_offset: i16 = -radius;
            while y_offset < radius
                invariant
                    -radius <= x_offset < radius,
                    -radius <= y_offset <= radius,
                    is_best_so_far(
                        frame_1,
                        frame_2,
                        side,
                        radius as int,
                        bi,
                        bj,
                        (x_offset as int, y_offset as int),
                        motion_vector,
                    ),
                decreases radius - y_offset,
            {
                let cur_error = block_error(
                    img_1,
                    img_2,
                    Ghost(frame_1),
                    Ghost(frame_2),
                    padding,
                    block_width,
                    block_i,
                    block_j,
                    x_offset,
                    y_offset,
                );
                if cur_error < motion_vector.2 {
                    motion_vector = (x_offset, y_offset, cur_error);
                }
                y_offset += 1;
            }
            x_offset += 1;
        }
        motion_vector
    }

    /// Estimates the motion from `frame_1` to `frame_2` block by block. The
    /// result holds, for each block of the grid by row and column, the offset
    /// found for it and its match error.
    #[verifier::loop_isolation(false)]
    pub fn calc_flow(&self, frame_1: &Frame, frame_2: &Frame) -> (flow: Vec<Vec<(i16, i16, u32)>>)
        requires
            frame_1.width() == frame_2.width(),
            frame_1.height() == frame_2.height(),
            self.can_process(frame_1.width() as int, frame_1.height() as int),
        ensures
            is_error_flow(flow@, frame_1, frame_2, self.settings()),
    {
        let block_width = self.settings.block_width;
        let padding: u32 = self.settings.search_radius as u32 + block_width;
        let pf1 = add_padding(frame_1, padding);
        let pf2 = add_padding(frame_2, padding);
        let (width, height) = frame_size(frame_1);
        let hor_blocks = ceiled_division(width, block_width);
        let ver_blocks = ceiled_division(height, block_width);
        let mut flow: Vec<Vec<(i16, i16, u32)>> = Vec::new();
        let mut block_i: u32 = 0;
        while block_i < ver_blocks
            invariant
                block_i <= ver_blocks,
                flow.len() == block_i,
                forall|i: int| 0 <= i < flow.len() ==> (#[trigger] flow[i]).len() == hor_blocks,
                forall|i: int, j: int|
                    0 <= i < flow.len() && 0 <= j < flow[i].len() ==> is_flow_cell(
                        frame_1,
                        frame_2,
                        self.settings(),
                        i,
                        j,
                        #[trigger] flow[i][j],
                    ),
            decreases ver_blocks - block_i,
        {
            let mut row: Vec<(i16, i16, u32)> = Vec::new();
            let mut block_j: u32 = 0;
            while block_j < hor_blocks
                invariant
                    block_j <= hor_blocks,
                    block_i < ver_blocks,
                    row.len() == block_j,
                    forall|j: int|
                        0 <= j < row.len() ==> is_flow_cell(
                            frame_1,
                            frame_2,
                            self.settings(),
                            block_i as int,
                            j,
                            #[trigger] row[j],
                        ),
                decreases hor_blocks - block_j,
            {
                proof {
                    lemma_block_starts_inside(width as int, block_width as int, block_j as int);
                    lemma_block_starts_inside(height as int, block_width as int, block_i as int);
                }
                let mut cell: (i16, i16, u32) = (0, 0, UNSEARCHED);
                if !self.settings.use_movement_map || self.has_block_moved(
                    block_i,
                    block_j,
                    frame_1,
                    frame_2,
                ) {
                    cell = self.get_motion_vector(
                        &pf1,
                        &pf2,
                        Ghost(frame_1),
                        Ghost(frame_2),
                        block_i,
                        block_j,
                    );
                }
                row.push(cell);
                block_j += 1;
            }
            flow.push(row);
            block_i += 1;
        }
        flow
    }
}

} // verus!
