//! Merging a forward and a backward flow field into one.

use crate::operations::same_shape;
use vstd::prelude::*;

verus! {

/// Half of `d`, rounded toward zero.
pub open spec fn truncated_half(d: int) -> int {
    if d >= 0 {
        d / 2
    } else {
        -((-d) / 2)
    }
}

/// The combination of a forward vector with the backward vector of the same
/// block: half of their difference, component by component, rounded toward
/// zero. Backward motion is taken to mirror forward motion, so this is the
/// mean of two estimates of the forward vector.
pub open spec fn combined_vector(forward: (i16, i16), backward: (i16, i16)) -> (i16, i16) {
    (
        truncated_half(forward.0 - backward.0) as i16,
        truncated_half(forward.1 - backward.1) as i16,
    )
}

/// `flow` is the combination of `forward` and `backward`: it has their shape,
/// and each of its cells is the [`combined_vector`] of theirs.
pub open spec fn is_combination(
    flow: Seq<Vec<(i16, i16)>>,
    forward: Seq<Vec<(i16, i16)>>,
    backward: Seq<Vec<(i16, i16)>>,
) -> bool {
    &&& same_shape(flow, forward)
    &&& forall|i: int, j: int|
        0 <= i < flow.len() && 0 <= j < flow[i].len() ==> #[trigger] flow[i][j] == combined_vector(
            forward[i][j],
            backward[i][j],
        )
}

/// Half of the difference of two components, rounded toward zero.
fn half_difference(forward: i16, backward: i16) -> (half: i16)
    ensures
        half == truncated_half(forward - backward),
{
    let d: i32 = forward as i32 - backward as i32;
    if d >= 0 {
        (d / 2) as i16
    } else {
        (-((-d) / 2)) as i16
    }
}

/// Combines the flow from the first frame to the second with the flow from the
/// second to the first. The two fields must have the same shape, which
/// [`shapes_match`](crate::operations::shapes_match) tells; each cell of the
/// result is the [`combined_vector`] of the two cells in its place.
#[verifier::loop_isolation(false)]
pub fn combine_bidirectional_flows(
    forward_flow: &Vec<Vec<(i16, i16)>>,
    backward_flow: &Vec<Vec<(i16, i16)>>,
) -> (flow: Vec<Vec<(i16, i16)>>)
    requires
        same_shape(forward_flow@, backward_flow@),
    ensures
        is_combination(flow@, forward_flow@, backward_flow@),
{
    let mut flow: Vec<Vec<(i16, i16)>> = Vec::new();
    let mut i: usize = 0;
    while i < forward_flow.len()
        invariant
            i <= forward_flow.len(),
            flow.len() == i,
            forall|r: int| 0 <= r < i ==> (#[trigger] flow[r]).len() == forward_flow[r].len(),
            forall|r: int, c: int|
                0 <= r < i && 0 <= c < flow[r].len() ==> #[trigger] flow[r][c] == combined_vector(
                    forward_flow[r][c],
                    backward_flow[r][c],
                ),
        decreases forward_flow.len() - i,
    {
        let mut row: Vec<(i16, i16)> = Vec::new();
        let mut j: usize = 0;
        while j < forward_flow[i].len()
            invariant
                i < forward_flow.len(),
                j <= forward_flow[i as int].len(),
                row.len() == j,
                forall|c: int|
                    0 <= c < j ==> #[trigger] row[c] == combined_vector(
                        forward_flow[i as int][c],
                        backward_flow[i as int][c],
                    ),
            decreases forward_flow[i as int].len() - j,
        {
            assert(backward_flow[i as int].len() == forward_flow[i as int].len());
            let fx = half_difference(forward_flow[i][j].0, backward_flow[i][j].0);
            let fy = half_difference(forward_flow[i][j].1, backward_flow[i][j].1);
            row.push((fx, fy));
            j += 1;
        }
        flow.push(row);
        i += 1;
    }
    flow
}

/// A flow field can always be combined with itself, and then cancels: every
/// vector of the result is zero.
pub proof fn lemma_self_cancellation(flow: Seq<Vec<(i16, i16)>>, combined: Seq<Vec<(i16, i16)>>)
    requires
        is_combination(combined, flow, flow),
    ensures
        same_shape(flow, flow),
        forall|i: int, j: int|
            0 <= i < combined.len() && 0 <= j < combined[i].len() ==> #[trigger] combined[i][j]
                == (0i16, 0i16),
{
    assert forall|i: int, j: int|
        0 <= i < combined.len() && 0 <= j < combined[i].len() implies #[trigger] combined[i][j]
        == (0i16, 0i16) by {
        assert(combined[i][j] == combined_vector(flow[i][j], flow[i][j]));
    }
}

} // verus!
