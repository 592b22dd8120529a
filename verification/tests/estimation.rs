use vfi::estimator::combinator::bma::BmaSettings;
use vfi::estimator::combinator::{
    run_algo, run_bidirectional_bma, run_bma, run_smoothed_bidirectional_bma, run_smoothed_bma,
    AlgoSettings, Algorithm, EstimationError,
};
use vfi::estimator::combinator::smoothing::{SmoothingError, SmoothingSettings};
use vfi::estimator::{Estimator, EstimatorError};
use vfi::frame::Frame;

type Window = Vec<Vec<(i16, i16, u32)>>;

fn centre(window: &Window) -> Option<(usize, usize)> {
    Some((window.len() / 2, window.len() / 2))
}

fn top_left(_window: &Window) -> Option<(usize, usize)> {
    Some((0, 0))
}

fn texture(width: u32, height: u32) -> Vec<[u8; 3]> {
    let mut state: u32 = 2024;
    let mut pixels = Vec::new();
    for _ in 0..width * height {
        let mut colour = [0u8; 3];
        for channel in colour.iter_mut() {
            state = state.wrapping_mul(1103515245).wrapping_add(12345);
            *channel = (state >> 16) as u8;
        }
        pixels.push(colour);
    }
    pixels
}

fn frame_of(width: u32, height: u32, pixels: &Vec<[u8; 3]>) -> Frame {
    let mut data = Vec::new();
    for colour in pixels {
        data.extend_from_slice(colour);
    }
    Frame::from_raw(width, height, &data).unwrap()
}

fn moved(width: u32, height: u32, pixels: &Vec<[u8; 3]>, sx: i32, sy: i32) -> Vec<[u8; 3]> {
    let mut result = vec![[128u8; 3]; (width * height) as usize];
    for y in 0..height as i32 {
        for x in 0..width as i32 {
            let (tx, ty) = (x + sx, y + sy);
            if 0 <= tx && tx < width as i32 && 0 <= ty && ty < height as i32 {
                result[(ty * width as i32 + tx) as usize] = pixels[(y * width as i32 + x) as usize];
            }
        }
    }
    result
}

fn settings(block_width: u32, search_radius: u8, filter_window_width: u32) -> AlgoSettings {
    AlgoSettings {
        verbose: false,
        block_matching: BmaSettings {
            verbose: false,
            block_width,
            search_radius,
            use_movement_map: false,
            movement_map_min_pix_diff: 10,
            movement_map_min_change_percentage: 30,
        },
        smoothing: SmoothingSettings { filter_window_width },
    }
}

fn pair(sx: i32, sy: i32) -> (Frame, Frame) {
    let pixels = texture(40, 40);
    (frame_of(40, 40, &pixels), frame_of(40, 40, &moved(40, 40, &pixels, sx, sy)))
}

#[test]
fn defaults_of_all_settings() {
    let s = AlgoSettings::default();
    assert!(!s.verbose);
    assert_eq!(s.block_matching.block_width, 16);
    assert_eq!(s.block_matching.search_radius, 7);
    assert!(s.block_matching.use_movement_map);
    assert_eq!(s.block_matching.movement_map_min_pix_diff, 10);
    assert_eq!(s.block_matching.movement_map_min_change_percentage, 30);
    assert_eq!(s.smoothing.filter_window_width, 3);
}

#[test]
fn plain_block_matching_gives_the_vectors() {
    let (frame_1, frame_2) = pair(2, -1);
    let flow = run_bma(&frame_1, &frame_2, &settings(8, 4, 3));
    assert_eq!(flow.len(), 5);
    assert_eq!(flow[0].len(), 5);
    for i in 1..4 {
        for j in 1..4 {
            assert_eq!(flow[i][j], (2, -1));
        }
    }
}

#[test]
fn bidirectional_matching_averages_both_directions() {
    let (frame_1, frame_2) = pair(2, -2);
    let flow = run_bidirectional_bma(&frame_1, &frame_2, &settings(8, 4, 3));
    // Forward (2, -2), backward (-2, 2): half the difference is (2, -2).
    for i in 1..4 {
        for j in 1..4 {
            assert_eq!(flow[i][j], (2, -2));
        }
    }
}

#[test]
fn smoothed_matching_selects_among_neighbours() {
    let (frame_1, frame_2) = pair(1, 3);
    let plain = run_bma(&frame_1, &frame_2, &settings(8, 4, 3));
    let kept = run_smoothed_bma(&frame_1, &frame_2, &settings(8, 4, 3), &centre).unwrap();
    assert_eq!(kept, plain);
    let shifted = run_smoothed_bma(&frame_1, &frame_2, &settings(8, 4, 3), &top_left).unwrap();
    for i in 0..5 {
        for j in 0..5 {
            if i == 0 || j == 0 || i == 4 || j == 4 {
                assert_eq!(shifted[i][j], plain[i][j]);
            } else {
                assert_eq!(shifted[i][j], plain[i - 1][j - 1]);
            }
        }
    }
}

#[test]
fn smoothed_matching_refuses_an_even_window() {
    let (frame_1, frame_2) = pair(1, 1);
    assert_eq!(
        run_smoothed_bma(&frame_1, &frame_2, &settings(8, 4, 4), &centre),
        Err(SmoothingError::EvenWindow)
    );
    assert_eq!(
        run_smoothed_bidirectional_bma(&frame_1, &frame_2, &settings(8, 4, 2), &centre),
        Err(SmoothingError::EvenWindow)
    );
}

#[test]
fn smoothed_bidirectional_matching_combines_the_smoothed_flows() {
    let (frame_1, frame_2) = pair(-2, 2);
    let flow =
        run_smoothed_bidirectional_bma(&frame_1, &frame_2, &settings(8, 4, 3), &centre).unwrap();
    assert_eq!(flow, run_bidirectional_bma(&frame_1, &frame_2, &settings(8, 4, 3)));
    assert_eq!(flow[2][2], (-2, 2));
}

#[test]
fn every_algorithm_runs_through_the_dispatcher() {
    let (frame_1, frame_2) = pair(2, 0);
    let s = settings(8, 4, 3);
    assert_eq!(
        run_algo(&Algorithm::BlockMatching, &frame_1, &frame_2, &s, &centre),
        Ok(run_bma(&frame_1, &frame_2, &s))
    );
    assert_eq!(
        run_algo(&Algorithm::BidirectionalBlockMatching, &frame_1, &frame_2, &s, &centre),
        Ok(run_bidirectional_bma(&frame_1, &frame_2, &s))
    );
    assert_eq!(
        run_algo(&Algorithm::SmoothedBlockMatching, &frame_1, &frame_2, &s, &top_left),
        Ok(run_smoothed_bma(&frame_1, &frame_2, &s, &top_left).unwrap())
    );
    assert_eq!(
        run_algo(&Algorithm::SmoothedBidirectionalBlockMatching, &frame_1, &frame_2, &s, &top_left),
        Ok(run_smoothed_bidirectional_bma(&frame_1, &frame_2, &s, &top_left).unwrap())
    );
}

#[test]
fn dispatcher_refuses_what_it_cannot_run() {
    let (frame_1, frame_2) = pair(0, 0);
    let s = settings(8, 4, 3);
    assert_eq!(
        run_algo(&Algorithm::LucasKanade, &frame_1, &frame_2, &s, &centre),
        Err(EstimationError::ExternalAlgorithm)
    );
    assert_eq!(
        run_algo(&Algorithm::GunnarFarneback, &frame_1, &frame_2, &s, &centre),
        Err(EstimationError::ExternalAlgorithm)
    );
    let even = settings(8, 4, 2);
    assert_eq!(
        run_algo(&Algorithm::SmoothedBlockMatching, &frame_1, &frame_2, &even, &centre),
        Err(EstimationError::EvenWindow)
    );
    assert_eq!(
        run_algo(&Algorithm::SmoothedBidirectionalBlockMatching, &frame_1, &frame_2, &even, &centre),
        Err(EstimationError::EvenWindow)
    );
    assert!(run_algo(&Algorithm::BlockMatching, &frame_1, &frame_2, &even, &centre).is_ok());
}

#[test]
fn new_estimator_has_no_frames_and_the_defaults() {
    let estimator = Estimator::new();
    assert_eq!(estimator.get_frames_size(), None);
    assert_eq!(estimator.algorithm, Algorithm::BlockMatching);
    assert_eq!(estimator.description, "Default description");
    assert_eq!(estimator.settings.block_matching.block_width, 16);
    assert_eq!(estimator.settings.smoothing.filter_window_width, 3);
    assert_eq!(estimator.estimate_motion(&centre), Err(EstimatorError::FramesMissing));
}

#[test]
fn estimator_keeps_the_frames_it_is_handed() {
    let mut estimator = Estimator::new();
    let (frame_1, frame_2) = pair(0, 0);
    assert_eq!(frame_1.dimensions(), frame_2.dimensions());
    estimator.set_frames_directly(frame_1, frame_2);
    assert_eq!(estimator.get_frames_size(), Some((40, 40)));
    let small = texture(3, 2);
    estimator.set_frames_directly(frame_of(3, 2, &small), frame_of(3, 2, &small));
    assert_eq!(estimator.get_frames_size(), Some((3, 2)));
    let held = estimator.frames.as_ref().unwrap();
    assert_eq!(held.0.to_raw(), frame_of(3, 2, &small).to_raw());
    assert_eq!(held.1.to_raw(), frame_of(3, 2, &small).to_raw());
}

#[test]
fn estimator_scales_the_flow_to_the_pixels() {
    let mut estimator = Estimator::new();
    estimator.settings = settings(8, 4, 3);
    let (frame_1, frame_2) = pair(3, -2);
    estimator.set_frames_directly(frame_1, frame_2);
    let flow = estimator.estimate_motion(&centre).unwrap();
    assert_eq!(flow.len(), 40);
    for i in 0..40 {
        assert_eq!(flow[i].len(), 40);
    }
    for i in 8..32 {
        for j in 8..32 {
            assert_eq!(flow[i][j], (3, -2));
        }
    }
}

#[test]
fn estimator_divides_the_width_by_the_columns() {
    // Ten pixels under blocks of four make three columns and rows, and a
    // factor of three: the field at pixel resolution is nine by nine.
    let mut estimator = Estimator::new();
    estimator.settings = settings(4, 1, 3);
    let pixels = texture(10, 10);
    estimator.set_frames_directly(frame_of(10, 10, &pixels), frame_of(10, 10, &pixels));
    let flow = estimator.estimate_motion(&centre).unwrap();
    assert_eq!(flow.len(), 9);
    assert_eq!(flow[0].len(), 9);
}

#[test]
fn estimator_hands_back_the_block_flow_when_blocks_are_pixels() {
    let mut estimator = Estimator::new();
    estimator.settings = settings(1, 1, 3);
    let pixels = texture(6, 4);
    estimator.set_frames_directly(frame_of(6, 4, &pixels), frame_of(6, 4, &pixels));
    let flow = estimator.estimate_motion(&centre).unwrap();
    assert_eq!(flow.len(), 4);
    assert_eq!(flow[0].len(), 6);
}

#[test]
fn estimator_uses_the_algorithm_it_was_given() {
    let mut estimator = Estimator::new();
    estimator.settings = settings(8, 4, 3);
    let (frame_1, frame_2) = pair(1, 2);
    estimator.set_frames_directly(frame_1, frame_2);
    estimator.set_algorithm(Algorithm::SmoothedBlockMatching);
    assert_eq!(estimator.algorithm, Algorithm::SmoothedBlockMatching);
    let smoothed = estimator.estimate_motion(&top_left).unwrap();
    // The block at (2, 2) takes the vector of the block at (1, 1).
    assert_eq!(smoothed[16][16], (1, 2));
    estimator.set_algorithm(Algorithm::BidirectionalBlockMatching);
    let both = estimator.estimate_motion(&centre).unwrap();
    assert_eq!(both[20][20], (1, 2));
}

#[test]
fn estimator_names_what_keeps_it_from_estimating() {
    let mut estimator = Estimator::new();
    estimator.settings = settings(8, 4, 2);
    let empty = || Frame::from_raw(0, 0, &Vec::new()).unwrap();
    estimator.set_frames_directly(empty(), empty());
    assert_eq!(estimator.estimate_motion(&centre), Err(EstimatorError::EmptyFrames));
    let (frame_1, frame_2) = pair(0, 0);
    estimator.set_frames_directly(frame_1, frame_2);
    estimator.set_algorithm(Algorithm::LucasKanade);
    assert_eq!(estimator.estimate_motion(&centre), Err(EstimatorError::ExternalAlgorithm));
    estimator.set_algorithm(Algorithm::GunnarFarneback);
    assert_eq!(estimator.estimate_motion(&centre), Err(EstimatorError::ExternalAlgorithm));
    estimator.set_algorithm(Algorithm::SmoothedBlockMatching);
    assert_eq!(estimator.estimate_motion(&centre), Err(EstimatorError::EvenWindow));
    estimator.set_algorithm(Algorithm::BlockMatching);
    assert!(estimator.estimate_motion(&centre).is_ok());
    estimator.settings.block_matching.block_width = 0;
    assert_eq!(estimator.estimate_motion(&centre), Err(EstimatorError::ZeroBlockWidth));
    estimator.settings.block_matching.block_width = u32::MAX;
    assert_eq!(estimator.estimate_motion(&centre), Err(EstimatorError::TooLarge));
    let pixels = texture(3, 2);
    estimator.frames = Some((frame_of(3, 2, &pixels), frame_of(2, 3, &pixels)));
    assert_eq!(estimator.estimate_motion(&centre), Err(EstimatorError::DimensionMismatch));
    estimator.frames = None;
    assert_eq!(estimator.estimate_motion(&centre), Err(EstimatorError::FramesMissing));
}
