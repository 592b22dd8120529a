use vfi::estimator::combinator::bidirectional_flow::combine_bidirectional_flows;
use vfi::estimator::combinator::remove_flow_error_data;
use vfi::operations::shapes_match;

#[test]
fn combination_halves_the_difference() {
    let forward = vec![vec![(4i16, -6i16), (1, 1)]];
    let backward = vec![vec![(-2i16, 2i16), (1, 1)]];
    let combined = combine_bidirectional_flows(&forward, &backward);
    assert_eq!(combined, vec![vec![(3i16, -4i16), (0, 0)]]);
}

#[test]
fn combination_rounds_toward_zero() {
    let forward = vec![vec![(3i16, -3i16), (1, -1), (0, 0)]];
    let backward = vec![vec![(0i16, 0i16), (0, 0), (1, -1)]];
    let combined = combine_bidirectional_flows(&forward, &backward);
    assert_eq!(combined, vec![vec![(1i16, -1i16), (0, 0), (0, 0)]]);
}

#[test]
fn combination_stays_within_range_at_the_extremes() {
    let forward = vec![vec![(i16::MAX, i16::MIN)]];
    let backward = vec![vec![(i16::MIN, i16::MAX)]];
    let combined = combine_bidirectional_flows(&forward, &backward);
    assert_eq!(combined, vec![vec![(32767i16, -32767i16)]]);
}

#[test]
fn flow_combined_with_itself_cancels() {
    let flow = vec![vec![(4i16, -6i16), (1, 1)], vec![(-7, 7), (i16::MIN, i16::MAX)]];
    let combined = combine_bidirectional_flows(&flow, &flow);
    assert_eq!(combined, vec![vec![(0i16, 0i16); 2]; 2]);
}

#[test]
fn flows_with_different_row_counts_do_not_match() {
    let forward = vec![vec![(0i16, 0i16)], vec![(0, 0)]];
    let backward = vec![vec![(0i16, 0i16)]];
    assert!(!shapes_match(&forward, &backward));
    assert!(!shapes_match(&backward, &forward));
}

#[test]
fn flows_with_different_row_lengths_do_not_match() {
    let forward = vec![vec![(1i16, 1i16), (2, 2)]];
    let backward = vec![vec![(1i16, 1i16)]];
    assert!(!shapes_match(&forward, &backward));
    assert!(!shapes_match(&backward, &forward));
    let ragged = vec![vec![(0i16, 0i16); 2], vec![(0, 0); 3]];
    let even = vec![vec![(0i16, 0i16); 2], vec![(0, 0); 2]];
    assert!(!shapes_match(&ragged, &even));
}

#[test]
fn flows_of_one_shape_match() {
    let forward = vec![vec![(1i16, 1i16), (2, 2)], vec![(3, 3), (4, 4)]];
    let backward = vec![vec![(0i16, 0i16); 2]; 2];
    assert!(shapes_match(&forward, &backward));
    assert!(shapes_match(&forward, &forward));
    let ragged = vec![vec![(0i16, 0i16); 2], vec![(0, 0); 3]];
    assert!(shapes_match(&ragged, &ragged));
    let tagged = vec![vec![(0i16, 0i16, 7u32); 2]; 2];
    assert!(shapes_match(&forward, &tagged));
}

#[test]
fn empty_flows_combine_to_an_empty_flow() {
    let empty: Vec<Vec<(i16, i16)>> = Vec::new();
    assert!(shapes_match(&empty, &empty));
    assert_eq!(combine_bidirectional_flows(&empty, &empty), Vec::<Vec<(i16, i16)>>::new());
}

#[test]
fn error_data_is_dropped_cell_by_cell() {
    let tagged = vec![vec![(1i16, -2i16, 30u32), (0, 0, u32::MAX)], vec![(5, 6, 0)]];
    assert_eq!(remove_flow_error_data(&tagged), vec![vec![(1i16, -2i16), (0, 0)], vec![(5, 6)]]);
}
