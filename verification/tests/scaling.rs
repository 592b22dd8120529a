use vfi::operations::scale_up;

#[test]
fn scaling_by_one_hands_the_field_back() {
    let flow = vec![vec![(1i16, 2i16), (3, 4)], vec![(5, 6), (7, 8)]];
    assert_eq!(scale_up(flow.clone(), 1), flow);
}

#[test]
fn scaling_by_one_keeps_an_empty_field() {
    let flow: Vec<Vec<(i16, i16)>> = Vec::new();
    assert_eq!(scale_up(flow, 1), Vec::<Vec<(i16, i16)>>::new());
}

#[test]
fn scaling_replicates_every_cell_into_a_square() {
    let flow = vec![vec![(1i16, 2i16), (3, 4)], vec![(5, 6), (7, 8)]];
    let scaled = scale_up(flow.clone(), 3);
    assert_eq!(scaled.len(), 6);
    for i in 0..6 {
        assert_eq!(scaled[i].len(), 6);
        for j in 0..6 {
            assert_eq!(scaled[i][j], flow[i / 3][j / 3]);
        }
    }
}

#[test]
fn scaling_by_two_gives_the_expected_rows() {
    let flow = vec![vec![(1i16, 0i16), (2, 0), (3, 0)]];
    let scaled = scale_up(flow, 2);
    let row = vec![(1i16, 0i16), (1, 0), (2, 0), (2, 0), (3, 0), (3, 0)];
    assert_eq!(scaled, vec![row.clone(), row]);
}

#[test]
fn scaling_works_on_fractional_vectors() {
    let flow = vec![vec![(0.5f32, -1.25f32)]];
    let scaled = scale_up(flow, 2);
    assert_eq!(scaled, vec![vec![(0.5f32, -1.25f32); 2]; 2]);
}

#[test]
fn scaling_by_nothing_leaves_nothing() {
    let flow = vec![vec![(1i16, 2i16), (3, 4)]];
    assert_eq!(scale_up(flow, 0), Vec::<Vec<(i16, i16)>>::new());
}
