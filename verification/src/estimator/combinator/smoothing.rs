//! Spatial smoothing of a flow field: every block away from the border takes
//! the vector of one block of its neighbourhood.
//!
//! Which neighbour that is, is decided by a selector that the caller brings.
//! It sees the neighbourhood with its match errors and names one place in it.
//! The selector this library is meant for weighs the neighbours by ratios of
//! their errors and compares sums of distances, all in floating point, which
//! verified code does not take; so it comes in from outside. The field is
//! walked, the neighbourhoods are gathered and the border is kept here.

use crate::operations::{is_field_of, same_shape};
use vstd::prelude::*;

verus! {

/// What smoothing can be told.
#[derive(Debug, Clone, Copy)]
pub struct SmoothingSettings {
    /// Side of the neighbourhood in blocks; must be odd.
    pub filter_window_width: u32,
}

impl SmoothingSettings {
    /// A window of three by three blocks.
    pub fn default() -> (settings: SmoothingSettings)
        ensures
            settings.filter_window_width == 3,
    {
        SmoothingSettings { filter_window_width: 3 }
    }
}

/// Why a flow field was not smoothed.
#[derive(Debug, Clone, Copy, PartialEq, Eq, Structural)]
pub enum SmoothingError {
    /// The window width is even, so that no block sits in the middle.
    EvenWindow,
}

/// A flow field with its match errors.
pub type ErrorFlow = Vec<Vec<(i16, i16, u32)>>;

/// All rows of the field have the length of the first.
pub open spec fn is_rectangular<T>(field: Seq<Vec<T>>) -> bool {
    forall|i: int| 0 <= i < field.len() ==> (#[trigger] field[i]).len() == field[0].len()
}

/// The number of columns of a rectangular field.
pub open spec fn columns<T>(field: Seq<Vec<T>>) -> int {
    if field.len() == 0 {
        0
    } else {
        field[0].len() as int
    }
}

/// The vector of a cell, without its error.
pub open spec fn vector_of(cell: (i16, i16, u32)) -> (i16, i16) {
    (cell.0, cell.1)
}

/// Block `(i, j)` lies within `half` blocks of an edge of a grid of `rows` by
/// `cols` blocks.
pub open spec fn is_border(rows: int, cols: int, half: int, i: int, j: int) -> bool {
    i < half || j < half || i >= rows - half || j >= cols - half
}

/// `window` is the neighbourhood of block `(i, j)`: the square of side
/// `filter_w` around it, row by row.
pub open spec fn is_window_of(
    window: Seq<Vec<(i16, i16, u32)>>,
    flow: Seq<Vec<(i16, i16, u32)>>,
    filter_w: int,
    i: int,
    j: int,
) -> bool {
    &&& is_field_of(window, filter_w, filter_w)
    &&& forall|vi: int, vj: int|
        0 <= vi < filter_w && 0 <= vj < filter_w ==> #[trigger] window[vi][vj] == flow[i + vi
            - filter_w / 2][j + vj - filter_w / 2]
}

/// The vector at the place that the selector named, or the zero vector where
/// it named none, or one outside the window.
pub open spec fn chosen_vector(
    window: Seq<Vec<(i16, i16, u32)>>,
    choice: Option<(usize, usize)>,
) -> (i16, i16) {
    match choice {
        Some((vi, vj)) => if vi < window.len() && vj < window[vi as int].len() {
            vector_of(window[vi as int][vj as int])
        } else {
            (0i16, 0i16)
        },
        None => (0i16, 0i16),
    }
}

/// `vector` is what smoothing with `select` may put at block `(i, j)`: what
/// the selector chose in the neighbourhood of the block.
pub open spec fn is_selection<F: Fn(&ErrorFlow) -> Option<(usize, usize)>>(
    vector: (i16, i16),
    flow: Seq<Vec<(i16, i16, u32)>>,
    filter_w: int,
    select: F,
    i: int,
    j: int,
) -> bool {
    exists|window: ErrorFlow, choice: Option<(usize, usize)>|
        is_window_of(window@, flow, filter_w, i, j) && #[trigger] call_ensures(
            select,
            (&window,),
            choice,
        ) && vector == chosen_vector(window@, choice)
}

/// `smoothed` is `flow` smoothed with a window of side `filter_w` and the
/// selector `select`: the blocks at the border keep their vector, every other
/// block has the vector selected in its neighbourhood.
pub open spec fn is_smoothing_of<F: Fn(&ErrorFlow) -> Option<(usize, usize)>>(
    smoothed: Seq<Vec<(i16, i16)>>,
    flow: Seq<Vec<(i16, i16, u32)>>,
    filter_w: int,
    select: F,
) -> bool {
    &&& same_shape(smoothed, flow)
    &&& forall|i: int, j: int|
        0 <= i < smoothed.len() && 0 <= j < smoothed[i].len() ==> if is_border(
            flow.len() as int,
            columns(flow),
            filter_w / 2,
            i,
            j,
        ) {
            #[trigger] smoothed[i][j] == vector_of(flow[i][j])
        } else {
            is_selection(smoothed[i][j], flow, filter_w, select, i, j)
        }
}

/// The selector can be called on every window of side `filter_w`.
pub open spec fn accepts_windows<F: Fn(&ErrorFlow) -> Option<(usize, usize)>>(
    select: F,
    filter_w: int,
) -> bool {
    forall|window: &ErrorFlow|
        is_field_of(window@, filter_w, filter_w) ==> #[trigger] call_requires(select, (window,))
}

/// The squared Euclidean distance of two vectors.
pub open spec fn squared_gap(v1: (i16, i16), v2: (i16, i16)) -> int {
    (v1.0 - v2.0) * (v1.0 - v2.0) + (v1.1 - v2.1) * (v1.1 - v2.1)
}

/// The squared Euclidean distance of two vectors, by which a selector can
/// tell how far a candidate lies from a neighbour.
pub fn vector_distance_squared(v1: (i16, i16), v2: (i16, i16)) -> (squared: u64)
    ensures
        squared == squared_gap(v1, v2),
{
    let dx: i64 = v1.0 as i64 - v2.0 as i64;
    let dy: i64 = v1.1 as i64 - v2.1 as i64;
    assert(0 <= dx * dx <= 65535 * 65535 && 0 <= dy * dy <= 65535 * 65535) by (nonlinear_arith)
        requires
            -65535 <= dx <= 65535,
            -65535 <= dy <= 65535,
    ;
    (dx * dx + dy * dy) as u64
}

/// Gathers the neighbourhood of a block that is not at the border.
#[verifier::loop_isolation(false)]
fn window_around(error_flow: &ErrorFlow, filter_w: u32, i: usize, j: usize) -> (window: ErrorFlow)
    requires
        is_rectangular(error_flow@),
        filter_w % 2 == 1,
        !is_border(
            error_flow.len() as int,
            columns(error_flow@),
            filter_w as int / 2,
            i as int,
            j as int,
        ),
    ensures
        is_window_of(window@, error_flow@, filter_w as int, i as int, j as int),
{
    let half: usize = (filter_w / 2) as usize;
    let ghost fw = filter_w as int;
    let mut window: ErrorFlow = Vec::new();
    let mut vi: usize = 0;
    while vi < filter_w as usize
        invariant
            vi <= filter_w,
            window.len() == vi,
            forall|r: int| 0 <= r < vi ==> (#[trigger] window[r]).len() == fw,
            forall|r: int, c: int|
                0 <= r < vi && 0 <= c < fw ==> #[trigger] window[r][c] == error_flow[i + r
                    - half][j + c - half],
        decreases filter_w - vi,
    {
        let mut row: Vec<(i16, i16, u32)> = Vec::new();
        let mut vj: usize = 0;
        while vj < filter_w as usize
            invariant
                vj <= filter_w,
                vi < filter_w,
                row.len() == vj,
                forall|c: int|
                    0 <= c < vj ==> #[trigger] row[c] == error_flow[i + vi - half][j + c - half],
            decreases filter_w - vj,
        {
            assert(error_flow[i + vi - half].len() == columns(error_flow@));
            row.push(error_flow[i - half + vi][j - half + vj]);
            vj += 1;
        }
        window.push(row);
        vi += 1;
    }
    window
}

/// Reads the chosen vector out of a window.
fn pick(window: &ErrorFlow, choice: Option<(usize, usize)>) -> (vector: (i16, i16))
    ensures
        vector == chosen_vector(window@, choice),
{
    match choice {
        Some((vi, vj)) => {
            if vi < window.len() && vj < window[vi].len() {
                (window[vi][vj].0, window[vi][vj].1)
            } else {
                (0, 0)
            }
        },
        None => (0, 0),
    }
}

/// Smooths an error-tagged flow field and drops the errors. `filter_w` is the
/// side of the neighbourhood and must be odd, so that a block sits in the
/// middle of its neighbourhood. Blocks within `filter_w / 2` of
/// an edge keep their vector. For every other block `select` is shown the
/// neighbourhood, taken from the field as it came in, and answers with the row
/// and column of a place in it, whose vector the block receives; the block
/// itself sits in the middle. An answer of `None`, or one outside the
/// neighbourhood, gives the block the zero vector.
#[verifier::loop_isolation(false)]
pub fn smooth_error_flow<F: Fn(&ErrorFlow) -> Option<(usize, usize)>>(
    error_flow: &ErrorFlow,
    filter_w: u32,
    select: &F,
) -> (flow: Vec<Vec<(i16, i16)>>)
    requires
        filter_w % 2 == 1,
        is_rectangular(error_flow@),
        accepts_windows(*select, filter_w as int),
    ensures
        is_smoothing_of(flow@, error_flow@, filter_w as int, *select),
{
    let half: usize = (filter_w / 2) as usize;
    let rows = error_flow.len();
    let ghost fw = filter_w as int;
    let ghost cols = columns(error_flow@);
    let mut flow: Vec<Vec<(i16, i16)>> = Vec::new();
    let mut i: usize = 0;
    while i < rows
        invariant
            i <= rows,
            flow.len() == i,
            forall|r: int| 0 <= r < i ==> (#[trigger] flow[r]).len() == error_flow[r].len(),
            forall|r: int, c: int|
                0 <= r < i && 0 <= c < flow[r].len() ==> if is_border(
                    rows as int,
                    cols,
                    fw / 2,
                    r,
                    c,
                ) {
                    #[trigger] flow[r][c] == vector_of(error_flow[r][c])
                } else {
                    is_selection(flow[r][c], error_flow@, fw, *select, r, c)
                },
        decreases rows - i,
    {
        let width = error_flow[i].len();
        assert(width == cols);
        let mut row: Vec<(i16, i16)> = Vec::new();
        let mut j: usize = 0;
        while j < width
            invariant
                j <= width,
                i < rows,
                row.len() == j,
                forall|c: int|
                    0 <= c < j ==> if is_border(rows as int, cols, fw / 2, i as int, c) {
                        #[trigger] row[c] == vector_of(error_flow[i as int][c])
                    } else {
                        is_selection(row[c], error_flow@, fw, *select, i as int, c)
                    },
            decreases width - j,
        {
            let inside = half <= i && half <= j && i < rows - half && j < width - half;
            if inside {
                let window = window_around(error_flow, filter_w, i, j);
                let choice = select(&window);
                let vector = pick(&window, choice);
                proof {
                    assert(is_window_of(window@, error_flow@, fw, i as int, j as int)
                        && call_ensures(*select, (&window,), choice) && vector == chosen_vector(
                        window@,
                        choice,
                    ));
                }
                row.push(vector);
            } else {
                row.push((error_flow[i][j].0, error_flow[i][j].1));
            }
            j += 1;
        }
        flow.push(row);
        i += 1;
    }
    flow
}

/// The selector always names a place inside the window it is shown.
pub open spec fn picks_inside<F: Fn(&ErrorFlow) -> Option<(usize, usize)>>(select: F) -> bool {
    forall|window: ErrorFlow, choice: Option<(usize, usize)>| #[trigger]
        call_ensures(select, (&window,), choice) ==> {
            &&& choice matches Some((vi, vj))
            &&& vi < window.len()
            &&& vj < window[vi as int].len()
        }
}

/// Smoothing changes nothing in a field whose blocks all share one vector,
/// whatever their errors are: the border keeps it, and every neighbourhood has
/// nothing else to choose from. This needs a selector that always names a
/// place inside the window, unless the shared vector is the zero vector.
pub proof fn lemma_uniform_field_stays<F: Fn(&ErrorFlow) -> Option<(usize, usize)>>(
    smoothed: Seq<Vec<(i16, i16)>>,
    flow: Seq<Vec<(i16, i16, u32)>>,
    filter_w: int,
    select: F,
    vector: (i16, i16),
)
    requires
        filter_w % 2 == 1,
        0 < filter_w,
        is_rectangular(flow),
        is_smoothing_of(smoothed, flow, filter_w, select),
        forall|i: int, j: int|
            0 <= i < flow.len() && 0 <= j < flow[i].len() ==> vector_of(#[trigger] flow[i][j])
                == vector,
        vector == (0i16, 0i16) || picks_inside(select),
    ensures
        forall|i: int, j: int|
            0 <= i < smoothed.len() && 0 <= j < smoothed[i].len() ==> #[trigger] smoothed[i][j]
                == vector,
{
    let half = filter_w / 2;
    assert forall|i: int, j: int|
        0 <= i < smoothed.len() && 0 <= j < smoothed[i].len() implies #[trigger] smoothed[i][j]
        == vector by {
        assert(smoothed[i].len() == flow[i].len());
        assert(flow[i].len() == columns(flow));
        if is_border(flow.len() as int, columns(flow), half, i, j) {
            assert(smoothed[i][j] == vector_of(flow[i][j]));
        } else {
            assert(is_selection(smoothed[i][j], flow, filter_w, select, i, j));
            let (window, choice) = choose|window: ErrorFlow, choice: Option<(usize, usize)>|
                is_window_of(window@, flow, filter_w, i, j) && #[trigger] call_ensures(
                    select,
                    (&window,),
                    choice,
                ) && smoothed[i][j] == chosen_vector(window@, choice);
            match choice {
                Some((vi, vj)) => {
                    if vi < window.len() && vj < window[vi as int].len() {
                        let r = i + vi - half;
                        let c = j + vj - half;
                        assert(window@[vi as int][vj as int] == flow[r][c]);
                        assert(flow[r].len() == columns(flow));
                        assert(vector_of(flow[r][c]) == vector);
                    }
                },
                None => {},
            }
        }
    }
}

} // verus!
