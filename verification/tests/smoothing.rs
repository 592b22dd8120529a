use vfi::estimator::combinator::smoothing::{
    smooth_error_flow, vector_distance_squared, SmoothingSettings,
};

type Window = Vec<Vec<(i16, i16, u32)>>;

fn numbered(rows: usize, cols: usize) -> Window {
    let mut flow = Vec::new();
    for i in 0..rows {
        let mut row = Vec::new();
        for j in 0..cols {
            row.push((i as i16, j as i16, (10 * i + j) as u32));
        }
        flow.push(row);
    }
    flow
}

fn centre(window: &Window) -> Option<(usize, usize)> {
    Some((window.len() / 2, window.len() / 2))
}

fn top_left(_window: &Window) -> Option<(usize, usize)> {
    Some((0, 0))
}

/// The place of the least error in the window, the first of them.
fn least_error(window: &Window) -> Option<(usize, usize)> {
    let mut best: Option<(usize, usize, u32)> = None;
    for (vi, row) in window.iter().enumerate() {
        for (vj, cell) in row.iter().enumerate() {
            if best.map_or(true, |b| cell.2 < b.2) {
                best = Some((vi, vj, cell.2));
            }
        }
    }
    best.map(|b| (b.0, b.1))
}

#[test]
fn default_window_is_three_wide() {
    assert_eq!(SmoothingSettings::default().filter_window_width, 3);
}

#[test]
fn border_blocks_keep_their_vector() {
    let flow = numbered(5, 6);
    let smoothed = smooth_error_flow(&flow, 3, &top_left);
    assert_eq!(smoothed.len(), 5);
    for i in 0..5 {
        assert_eq!(smoothed[i].len(), 6);
        for j in 0..6 {
            if i == 0 || j == 0 || i == 4 || j == 5 {
                assert_eq!(smoothed[i][j], (i as i16, j as i16));
            }
        }
    }
}

#[test]
fn border_is_as_wide_as_half_the_window() {
    let flow = numbered(7, 7);
    let smoothed = smooth_error_flow(&flow, 5, &top_left);
    for i in 0..7 {
        for j in 0..7 {
            if i < 2 || j < 2 || i >= 5 || j >= 5 {
                assert_eq!(smoothed[i][j], (i as i16, j as i16));
            } else {
                assert_eq!(smoothed[i][j], (i as i16 - 2, j as i16 - 2));
            }
        }
    }
}

#[test]
fn inner_blocks_take_the_selected_neighbour() {
    let flow = numbered(4, 4);
    let smoothed = smooth_error_flow(&flow, 3, &top_left);
    assert_eq!(smoothed[1][1], (0, 0));
    assert_eq!(smoothed[1][2], (0, 1));
    assert_eq!(smoothed[2][1], (1, 0));
    assert_eq!(smoothed[2][2], (1, 1));
}

#[test]
fn selector_sees_the_neighbourhood_with_its_errors() {
    // In the numbered field the least error sits at the top left of every
    // window.
    let flow = numbered(4, 4);
    assert_eq!(
        smooth_error_flow(&flow, 3, &least_error),
        smooth_error_flow(&flow, 3, &top_left)
    );
    // A neighbour with a lower error draws the choice to itself.
    let mut flow = numbered(3, 3);
    flow[2][1].2 = 0;
    flow[0][0].2 = 5;
    let smoothed = smooth_error_flow(&flow, 3, &least_error);
    assert_eq!(smoothed[1][1], (2, 1));
}

#[test]
fn selecting_the_centre_changes_nothing() {
    let flow = numbered(6, 5);
    let smoothed = smooth_error_flow(&flow, 3, &centre);
    for i in 0..6 {
        for j in 0..5 {
            assert_eq!(smoothed[i][j], (i as i16, j as i16));
        }
    }
}

#[test]
fn window_of_one_has_no_border() {
    let flow = numbered(2, 3);
    let none = |_: &Window| -> Option<(usize, usize)> { None };
    assert_eq!(smooth_error_flow(&flow, 1, &none), vec![vec![(0i16, 0i16); 3]; 2]);
    let smoothed = smooth_error_flow(&flow, 1, &top_left);
    assert_eq!(smoothed[1][2], (1, 2));
}

#[test]
fn no_selection_gives_the_zero_vector() {
    let flow = numbered(3, 3);
    let none = |_: &Window| -> Option<(usize, usize)> { None };
    let outside = |_: &Window| -> Option<(usize, usize)> { Some((3, 0)) };
    let far_right = |_: &Window| -> Option<(usize, usize)> { Some((0, 3)) };
    assert_eq!(smooth_error_flow(&flow, 3, &none)[1][1], (0, 0));
    assert_eq!(smooth_error_flow(&flow, 3, &outside)[1][1], (0, 0));
    assert_eq!(smooth_error_flow(&flow, 3, &far_right)[1][1], (0, 0));
    let mut shifted = numbered(3, 3);
    shifted[0][0] = (7, 7, 0);
    assert_eq!(smooth_error_flow(&shifted, 3, &none)[0][0], (7, 7));
}

#[test]
fn field_smaller_than_the_window_is_all_border() {
    let flow = numbered(2, 2);
    let smoothed = smooth_error_flow(&flow, 5, &top_left);
    assert_eq!(smoothed, vec![vec![(0i16, 0i16), (0, 1)], vec![(1, 0), (1, 1)]]);
    let empty: Window = Vec::new();
    assert_eq!(smooth_error_flow(&empty, 3, &top_left), Vec::<Vec<(i16, i16)>>::new());
}

#[test]
fn uniform_field_stays_as_it_is() {
    let mut flow = Vec::new();
    for i in 0..6u32 {
        let mut row = Vec::new();
        for j in 0..7u32 {
            row.push((3i16, -2i16, 1 + i * 7 + j));
        }
        flow.push(row);
    }
    for width in [1u32, 3, 5] {
        for select in [centre, top_left, least_error] {
            let smoothed = smooth_error_flow(&flow, width, &select);
            assert_eq!(smoothed, vec![vec![(3i16, -2i16); 7]; 6]);
        }
    }
}

#[test]
fn squared_distance_of_vectors() {
    assert_eq!(vector_distance_squared((0, 0), (0, 0)), 0);
    assert_eq!(vector_distance_squared((3, 0), (0, 4)), 25);
    assert_eq!(vector_distance_squared((-3, 7), (1, 4)), 25);
    assert_eq!(
        vector_distance_squared((i16::MIN, i16::MIN), (i16::MAX, i16::MAX)),
        2 * 65535 * 65535
    );
}

/// The neighbour whose vector lies closest to all the others, each weighted
/// by the error of the block in the middle over its own.
fn weighted_median(window: &Window) -> Option<(usize, usize)> {
    let half = window.len() / 2;
    let center_error = window[half][half].2 as f64;
    let mut least = f64::INFINITY;
    let mut chosen = None;
    for (vi, candidates) in window.iter().enumerate() {
        for (vj, candidate) in candidates.iter().enumerate() {
            let mut deviation = 0f64;
            for neighbours in window.iter() {
                for neighbour in neighbours.iter() {
                    let weight = center_error / neighbour.2 as f64;
                    let gap = vector_distance_squared(
                        (candidate.0, candidate.1),
                        (neighbour.0, neighbour.1),
                    );
                    deviation += weight * (gap as f64).sqrt();
                }
            }
            if deviation < least {
                least = deviation;
                chosen = Some((vi, vj));
            }
        }
    }
    chosen
}

fn field(rows: usize, cols: usize, vector: (i16, i16), error: u32) -> Window {
    vec![vec![(vector.0, vector.1, error); cols]; rows]
}

#[test]
fn weighted_median_keeps_a_uniform_field() {
    let mut flow = field(5, 5, (4, -3), 10);
    flow[2][2].2 = 1;
    flow[1][3].2 = 700;
    let smoothed = smooth_error_flow(&flow, 3, &weighted_median);
    assert_eq!(smoothed, vec![vec![(4i16, -3i16); 5]; 5]);
}

#[test]
fn weighted_median_replaces_an_outlier() {
    let mut flow = field(3, 3, (1, 1), 10);
    flow[1][1] = (5, 5, 10);
    let smoothed = smooth_error_flow(&flow, 3, &weighted_median);
    assert_eq!(smoothed[1][1], (1, 1));
    assert_eq!(smoothed[0][0], (1, 1));
}

#[test]
fn weighted_median_trusts_neighbours_of_low_error() {
    // Four neighbours say (0, 0), four say (6, 0); the block itself says
    // (3, 0). With equal errors the block is its own median.
    let mut flow = field(3, 3, (0, 0), 10);
    for (i, j) in [(0, 1), (1, 2), (2, 1), (2, 2)] {
        flow[i][j] = (6, 0, 10);
    }
    flow[1][1] = (3, 0, 10);
    assert_eq!(smooth_error_flow(&flow, 3, &weighted_median)[1][1], (3, 0));
    // Neighbours that matched ten times better outweigh the others.
    for (i, j) in [(0, 1), (1, 2), (2, 1), (2, 2)] {
        flow[i][j].2 = 1;
    }
    assert_eq!(smooth_error_flow(&flow, 3, &weighted_median)[1][1], (6, 0));
}

#[test]
fn weighted_median_finds_nothing_beside_an_exact_match() {
    // A neighbour without error has a weight beyond all bounds: no sum that
    // it enters is below the starting bound, and the block gets the zero
    // vector.
    let mut flow = field(3, 3, (4, -3), 10);
    flow[0][2].2 = 0;
    assert_eq!(weighted_median(&flow), None);
    assert_eq!(smooth_error_flow(&flow, 3, &weighted_median)[1][1], (0, 0));
    // So does a block that matched exactly itself.
    let mut flow = field(3, 3, (4, -3), 10);
    flow[1][1].2 = 0;
    assert_eq!(smooth_error_flow(&flow, 3, &weighted_median)[1][1], (0, 0));
}
