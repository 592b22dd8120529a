//! What block matching finds where the answer is known beforehand: between
//! frames that show the same picture, and where a block of the first frame
//! reappears in the second.

use crate::estimator::combinator::bma::{
    block_cost, changed_in_block, changed_in_column, column_cost, in_window, is_best_match,
    is_error_flow, is_flow_cell, lemma_match_error_bounds, lemma_pixel_cost_bounds, match_error,
    tried_before, BmaSettings, UNSEARCHED,
};
use crate::frame::Frame;
use crate::operations::{lemma_pixel_distance_bounds, replicated_at};
use vstd::prelude::*;

verus! {

/// The block `(block_i, block_j)` of `frame_1` is found again in `frame_2`
/// at offset `(ox, oy)`: every pixel of the block has in `frame_1` the colour
/// that the pixel `(ox, oy)` away from it has in `frame_2`, both frames
/// continued beyond their borders.
pub open spec fn block_reappears(
    frame_1: &Frame,
    frame_2: &Frame,
    block_width: int,
    block_i: int,
    block_j: int,
    ox: int,
    oy: int,
) -> bool {
    forall|x: int, y: int|
        block_j * block_width <= x < block_j * block_width + block_width && block_i * block_width
            <= y < block_i * block_width + block_width ==> #[trigger] replicated_at(frame_1, x, y)
            == replicated_at(frame_2, x + ox, y + oy)
}

/// No offset that the search tries before `(ox, oy)` matches the block
/// without error.
pub open spec fn no_earlier_exact_match(
    frame_1: &Frame,
    frame_2: &Frame,
    block_width: int,
    radius: int,
    block_i: int,
    block_j: int,
    ox: int,
    oy: int,
) -> bool {
    forall|a: int, b: int|
        in_window(radius, a, b) && tried_before((a, b), (ox, oy)) ==> #[trigger] match_error(
            frame_1,
            frame_2,
            block_width,
            block_i,
            block_j,
            a,
            b,
        ) != 0
}

/// A column that is found again costs nothing.
proof fn lemma_column_reappears(
    frame_1: &Frame,
    frame_2: &Frame,
    x: int,
    y0: int,
    ox: int,
    oy: int,
    count: int,
)
    requires
        forall|y: int|
            y0 <= y < y0 + count ==> #[trigger] replicated_at(frame_1, x, y) == replicated_at(
                frame_2,
                x + ox,
                y + oy,
            ),
    ensures
        column_cost(frame_1, frame_2, x, y0, ox, oy, count) == 0,
    decreases count,
{
    if count > 0 {
        lemma_column_reappears(frame_1, frame_2, x, y0, ox, oy, count - 1);
        assert(replicated_at(frame_1, x, y0 + count - 1) == replicated_at(
            frame_2,
            x + ox,
            y0 + count - 1 + oy,
        ));
        lemma_pixel_cost_bounds(frame_1, frame_2, x, y0 + count - 1, ox, oy);
    }
}

/// Columns that are all found again cost nothing together.
proof fn lemma_block_reappears(
    frame_1: &Frame,
    frame_2: &Frame,
    x0: int,
    y0: int,
    ox: int,
    oy: int,
    side: int,
    count: int,
)
    requires
        forall|x: int, y: int|
            x0 <= x < x0 + count && y0 <= y < y0 + side ==> #[trigger] replicated_at(
                frame_1,
                x,
                y,
            ) == replicated_at(frame_2, x + ox, y + oy),
    ensures
        block_cost(frame_1, frame_2, x0, y0, ox, oy, side, count) == 0,
    decreases count,
{
    if count > 0 {
        lemma_block_reappears(frame_1, frame_2, x0, y0, ox, oy, side, count - 1);
        lemma_column_reappears(frame_1, frame_2, x0 + count - 1, y0, ox, oy, side);
    }
}

/// A block that is found again at an offset matches there without error.
pub proof fn lemma_exact_match_costs_nothing(
    frame_1: &Frame,
    frame_2: &Frame,
    block_width: int,
    block_i: int,
    block_j: int,
    ox: int,
    oy: int,
)
    requires
        0 < block_width,
        block_reappears(frame_1, frame_2, block_width, block_i, block_j, ox, oy),
    ensures
        match_error(frame_1, frame_2, block_width, block_i, block_j, ox, oy) == 0,
{
    lemma_block_reappears(
        frame_1,
        frame_2,
        block_j * block_width,
        block_i * block_width,
        ox,
        oy,
        block_width,
        block_width,
    );
    assert(block_width * block_width > 0) by (nonlinear_arith)
        requires
            0 < block_width,
    ;
}

/// A search whose window holds an offset at which the block is found again
/// ends with the error zero, and with that very offset unless an offset tried
/// earlier matches without error too.
pub proof fn lemma_search_finds_exact_match(
    frame_1: &Frame,
    frame_2: &Frame,
    block_width: int,
    radius: int,
    block_i: int,
    block_j: int,
    ox: int,
    oy: int,
    cell: (i16, i16, u32),
)
    requires
        0 < block_width,
        in_window(radius, ox, oy),
        block_reappears(frame_1, frame_2, block_width, block_i, block_j, ox, oy),
        is_best_match(frame_1, frame_2, block_width, radius, block_i, block_j, cell),
    ensures
        cell.2 == 0,
        no_earlier_exact_match(frame_1, frame_2, block_width, radius, block_i, block_j, ox, oy)
            ==> (cell.0 as int, cell.1 as int) == (ox, oy),
{
    lemma_exact_match_costs_nothing(frame_1, frame_2, block_width, block_i, block_j, ox, oy);
    let found = (cell.0 as int, cell.1 as int);
    lemma_match_error_bounds(frame_1, frame_2, block_width, block_i, block_j, found.0, found.1);
    assert(match_error(frame_1, frame_2, block_width, block_i, block_j, ox, oy) >= cell.2);
    if no_earlier_exact_match(frame_1, frame_2, block_width, radius, block_i, block_j, ox, oy) {
        if tried_before(found, (ox, oy)) {
            assert(match_error(frame_1, frame_2, block_width, block_i, block_j, found.0, found.1)
                != 0);
        }
    }
}

/// Between frames that show the same picture no pixel of a column has changed.
proof fn lemma_nothing_changed_in_column(
    frame_1: &Frame,
    frame_2: &Frame,
    min_pix_diff: int,
    x: int,
    y0: int,
    count: int,
)
    requires
        frame_1.same_picture(frame_2),
        0 <= min_pix_diff,
    ensures
        changed_in_column(frame_1, frame_2, min_pix_diff, x, y0, count) == 0,
    decreases count,
{
    if count > 0 {
        lemma_nothing_changed_in_column(frame_1, frame_2, min_pix_diff, x, y0, count - 1);
        let y = y0 + count - 1;
        if frame_1.contains(x, y) {
            assert(frame_1.at(x, y) == frame_2.at(x, y));
            lemma_pixel_distance_bounds(frame_1.at(x, y), frame_2.at(x, y));
        }
    }
}

/// Between frames that show the same picture no pixel of a block has changed.
proof fn lemma_nothing_changed_in_block(
    frame_1: &Frame,
    frame_2: &Frame,
    min_pix_diff: int,
    x0: int,
    y0: int,
    side: int,
    count: int,
)
    requires
        frame_1.same_picture(frame_2),
        0 <= min_pix_diff,
    ensures
        changed_in_block(frame_1, frame_2, min_pix_diff, x0, y0, side, count) == 0,
    decreases count,
{
    if count > 0 {
        lemma_nothing_changed_in_block(frame_1, frame_2, min_pix_diff, x0, y0, side, count - 1);
        lemma_nothing_changed_in_column(frame_1, frame_2, min_pix_diff, x0 + count - 1, y0, side);
    }
}

/// Between two frames that show the same picture, the cell of every block
/// holds the zero vector. With the movement map on, no block has moved and
/// every cell is unsearched. With it off and a search radius above zero, every
/// block matches without error, at offset zero unless an offset tried earlier
/// matches without error as well; a radius of zero leaves the cell unsearched.
pub proof fn lemma_identity_search(
    frame_1: &Frame,
    frame_2: &Frame,
    settings: BmaSettings,
    block_i: int,
    block_j: int,
    cell: (i16, i16, u32),
)
    requires
        frame_1.same_picture(frame_2),
        settings.block_width > 0,
        is_flow_cell(frame_1, frame_2, settings, block_i, block_j, cell),
    ensures
        settings.use_movement_map || settings.search_radius == 0 ==> cell == (
            0i16,
            0i16,
            UNSEARCHED,
        ),
        !settings.use_movement_map && settings.search_radius > 0 ==> cell.2 == 0,
        !settings.use_movement_map && settings.search_radius > 0 && no_earlier_exact_match(
            frame_1,
            frame_2,
            settings.block_width as int,
            settings.search_radius as int,
            block_i,
            block_j,
            0,
            0,
        ) ==> (cell.0, cell.1) == (0i16, 0i16),
{
    let side = settings.block_width as int;
    let radius = settings.search_radius as int;
    lemma_nothing_changed_in_block(
        frame_1,
        frame_2,
        settings.movement_map_min_pix_diff as int,
        block_j * side,
        block_i * side,
        side,
        side,
    );
    if !settings.use_movement_map && radius > 0 {
        assert(block_reappears(frame_1, frame_2, side, block_i, block_j, 0, 0)) by {
            assert forall|x: int, y: int| true implies #[trigger] replicated_at(frame_1, x, y)
                == replicated_at(frame_2, x, y) by {}
        }
        lemma_search_finds_exact_match(
            frame_1,
            frame_2,
            side,
            radius,
            block_i,
            block_j,
            0,
            0,
            cell,
        );
    }
}

/// `frame_2` shows block `(block_i, block_j)` of `frame_1` moved by
/// `(sx, sy)`: the block lies inside `frame_1`, its moved copy inside
/// `frame_2`, and every pixel of the block has in `frame_1` the colour that the
/// pixel `(sx, sy)` away from it has in `frame_2`.
pub open spec fn is_moved_inside(
    frame_1: &Frame,
    frame_2: &Frame,
    block_width: int,
    block_i: int,
    block_j: int,
    sx: int,
    sy: int,
) -> bool {
    forall|x: int, y: int|
        block_j * block_width <= x < block_j * block_width + block_width && block_i * block_width
            <= y < block_i * block_width + block_width ==> frame_1.contains(x, y)
            && frame_2.contains(x + sx, y + sy) && #[trigger] frame_1.at(x, y) == frame_2.at(
            x + sx,
            y + sy,
        )
}

/// Where `frame_2` shows a block of `frame_1` moved by `(sx, sy)`, the block
/// and its moved copy both lying inside the frames, and `(sx, sy)` is in the
/// window, the search ends with the error zero, and with the vector
/// `(sx, sy)` unless an offset tried earlier matches without error too.
pub proof fn lemma_exact_shift_recovery(
    frame_1: &Frame,
    frame_2: &Frame,
    block_width: int,
    radius: int,
    block_i: int,
    block_j: int,
    sx: int,
    sy: int,
    cell: (i16, i16, u32),
)
    requires
        0 < block_width,
        in_window(radius, sx, sy),
        is_moved_inside(frame_1, frame_2, block_width, block_i, block_j, sx, sy),
        is_best_match(frame_1, frame_2, block_width, radius, block_i, block_j, cell),
    ensures
        cell.2 == 0,
        no_earlier_exact_match(frame_1, frame_2, block_width, radius, block_i, block_j, sx, sy)
            ==> (cell.0 as int, cell.1 as int) == (sx, sy),
{
    assert(block_reappears(frame_1, frame_2, block_width, block_i, block_j, sx, sy)) by {
        assert forall|x: int, y: int|
            block_j * block_width <= x < block_j * block_width + block_width && block_i
                * block_width <= y < block_i * block_width + block_width implies #[trigger] replicated_at(
            frame_1,
            x,
            y,
        ) == replicated_at(frame_2, x + sx, y + sy) by {
            assert(frame_1.at(x, y) == frame_2.at(x + sx, y + sy));
        }
    }
    lemma_search_finds_exact_match(
        frame_1,
        frame_2,
        block_width,
        radius,
        block_i,
        block_j,
        sx,
        sy,
        cell,
    );
}

/// In the flow field between two frames that show the same picture, searched
/// without the movement map and with a radius above zero, every block that
/// no earlier offset matches exactly holds the zero vector with the error
/// zero.
pub proof fn lemma_flow_of_equal_frames(
    flow: Seq<Vec<(i16, i16, u32)>>,
    frame_1: &Frame,
    frame_2: &Frame,
    settings: BmaSettings,
    i: int,
    j: int,
)
    requires
        frame_1.same_picture(frame_2),
        settings.block_width > 0,
        settings.search_radius > 0,
        !settings.use_movement_map,
        is_error_flow(flow, frame_1, frame_2, settings),
        0 <= i < flow.len(),
        0 <= j < flow[i].len(),
        no_earlier_exact_match(
            frame_1,
            frame_2,
            settings.block_width as int,
            settings.search_radius as int,
            i,
            j,
            0,
            0,
        ),
    ensures
        flow[i][j] == (0i16, 0i16, 0u32),
{
    assert(is_flow_cell(frame_1, frame_2, settings, i, j, flow[i][j]));
    lemma_identity_search(frame_1, frame_2, settings, i, j, flow[i][j]);
}

/// In a flow field searched without the movement map, a block of the first
/// frame that the second frame shows moved by `(sx, sy)`, block and moved copy
/// both inside the frames and `(sx, sy)` in the window, holds the vector
/// `(sx, sy)` with the error zero, unless an offset tried earlier matches
/// without error too.
pub proof fn lemma_flow_recovers_exact_shift(
    flow: Seq<Vec<(i16, i16, u32)>>,
    frame_1: &Frame,
    frame_2: &Frame,
    settings: BmaSettings,
    i: int,
    j: int,
    sx: int,
    sy: int,
)
    requires
        settings.block_width > 0,
        !settings.use_movement_map,
        is_error_flow(flow, frame_1, frame_2, settings),
        0 <= i < flow.len(),
        0 <= j < flow[i].len(),
        in_window(settings.search_radius as int, sx, sy),
        is_moved_inside(frame_1, frame_2, settings.block_width as int, i, j, sx, sy),
        no_earlier_exact_match(
            frame_1,
            frame_2,
            settings.block_width as int,
            settings.search_radius as int,
            i,
            j,
            sx,
            sy,
        ),
    ensures
        flow[i][j] == (sx as i16, sy as i16, 0u32),
{
    assert(is_flow_cell(frame_1, frame_2, settings, i, j, flow[i][j]));
    lemma_exact_shift_recovery(
        frame_1,
        frame_2,
        settings.block_width as int,
        settings.search_radius as int,
        i,
        j,
        sx,
        sy,
        flow[i][j],
    );
}

} // verus!
