//! The estimation algorithms and the settings they share.

pub mod bidirectional_flow;
pub mod bma;
pub mod conv_edges;
pub mod convert_to_grayscale;
pub mod smoothing;

use crate::frame::Frame;
use crate::operations::same_shape;
use bidirectional_flow::{combine_bidirectional_flows, is_combination};
use bma::{can_process, is_error_flow, BmaSettings, BMA};
use smoothing::{
    accepts_windows, is_smoothing_of, smooth_error_flow, vector_of, ErrorFlow, SmoothingError,
    SmoothingSettings,
};
use vstd::prelude::*;

verus! {

/// The ways to estimate motion.
#[derive(Debug, Clone, Copy, PartialEq, Eq, Structural)]
pub enum Algorithm {
    /// Block matching from the first frame to the second.
    BlockMatching,
    /// Block matching in both directions, combined.
    BidirectionalBlockMatching,
    /// Block matching, smoothed.
    SmoothedBlockMatching,
    /// Block matching in both directions, each smoothed, then combined.
    SmoothedBidirectionalBlockMatching,
    /// The Lucas-Kanade method, which runs outside this library.
    LucasKanade,
    /// Gunnar Farneback's method, which runs outside this library.
    GunnarFarneback,
}

/// The settings of all algorithms.
#[derive(Debug, Clone, Copy)]
pub struct AlgoSettings {
    /// Whether progress is reported; handed on to block matching.
    pub verbose: bool,
    pub block_matching: BmaSettings,
    pub smoothing: SmoothingSettings,
}

impl AlgoSettings {
    /// Quiet, with the defaults of block matching and of smoothing.
    pub fn default() -> (settings: AlgoSettings)
        ensures
            settings.verbose == false,
            settings.block_matching == (BmaSettings {
                verbose: false,
                block_width: 16,
                search_radius: 7,
                use_movement_map: true,
                movement_map_min_pix_diff: 10,
                movement_map_min_change_percentage: 30,
            }),
            settings.smoothing.filter_window_width == 3,
    {
        AlgoSettings {
            verbose: false,
            block_matching: BmaSettings::default(),
            smoothing: SmoothingSettings::default(),
        }
    }
}

/// Why no flow field was estimated.
#[derive(Debug, Clone, Copy, PartialEq, Eq, Structural)]
pub enum EstimationError {
    /// The smoothing window width is even.
    EvenWindow,
    /// The algorithm is not one of the block-matching ones: it has to be run
    /// by whoever calls.
    ExternalAlgorithm,
}

/// The settings that block matching runs with: those of `settings`, with the
/// verbosity that holds for all algorithms.
pub open spec fn block_matching_settings(settings: AlgoSettings) -> BmaSettings {
    BmaSettings { verbose: settings.verbose, ..settings.block_matching }
}

/// `flow` holds the vectors of `tagged`, cell by cell.
pub open spec fn is_stripped(flow: Seq<Vec<(i16, i16)>>, tagged: Seq<Vec<(i16, i16, u32)>>) -> bool {
    &&& same_shape(flow, tagged)
    &&& forall|i: int, j: int|
        0 <= i < flow.len() && 0 <= j < flow[i].len() ==> #[trigger] flow[i][j] == vector_of(
            tagged[i][j],
        )
}

/// `flow` is the block-matching flow from `frame_1` to `frame_2`.
pub open spec fn is_block_flow(
    flow: Seq<Vec<(i16, i16)>>,
    frame_1: &Frame,
    frame_2: &Frame,
    settings: BmaSettings,
) -> bool {
    exists|tagged: ErrorFlow| #[trigger]
        is_error_flow(tagged@, frame_1, frame_2, settings) && is_stripped(flow, tagged@)
}

/// `flow` is the block-matching flow from `frame_1` to `frame_2`, smoothed
/// with a window of side `filter_w` and the selector `select`.
pub open spec fn is_smoothed_flow<F: Fn(&ErrorFlow) -> Option<(usize, usize)>>(
    flow: Seq<Vec<(i16, i16)>>,
    frame_1: &Frame,
    frame_2: &Frame,
    settings: BmaSettings,
    filter_w: int,
    select: F,
) -> bool {
    exists|tagged: ErrorFlow| #[trigger]
        is_error_flow(tagged@, frame_1, frame_2, settings) && is_smoothing_of(
            flow,
            tagged@,
            filter_w,
            select,
        )
}

/// `flow` combines the block-matching flows in both directions.
pub open spec fn is_bidirectional_flow(
    flow: Seq<Vec<(i16, i16)>>,
    frame_1: &Frame,
    frame_2: &Frame,
    settings: BmaSettings,
) -> bool {
    exists|forward: Vec<Vec<(i16, i16)>>, backward: Vec<Vec<(i16, i16)>>|
        is_block_flow(forward@, frame_1, frame_2, settings) && is_block_flow(
            backward@,
            frame_2,
            frame_1,
            settings,
        ) && #[trigger] is_combination(flow, forward@, backward@)
}

/// `flow` combines the smoothed block-matching flows in both directions.
pub open spec fn is_smoothed_bidirectional_flow<F: Fn(&ErrorFlow) -> Option<(usize, usize)>>(
    flow: Seq<Vec<(i16, i16)>>,
    frame_1: &Frame,
    frame_2: &Frame,
    settings: BmaSettings,
    filter_w: int,
    select: F,
) -> bool {
    exists|forward: Vec<Vec<(i16, i16)>>, backward: Vec<Vec<(i16, i16)>>|
        is_smoothed_flow(forward@, frame_1, frame_2, settings, filter_w, select)
            && is_smoothed_flow(backward@, frame_2, frame_1, settings, filter_w, select)
            && #[trigger] is_combination(flow, forward@, backward@)
}

/// Drops the match error from every cell of an error-tagged flow field.
#[verifier::loop_isolation(false)]
pub fn remove_flow_error_data(error_flow: &Vec<Vec<(i16, i16, u32)>>) -> (flow: Vec<
    Vec<(i16, i16)>,
>)
    ensures
        is_stripped(flow@, error_flow@),
{
    let mut flow: Vec<Vec<(i16, i16)>> = Vec::new();
    let mut i: usize = 0;
    while i < error_flow.len()
        invariant
            i <= error_flow.len(),
            flow.len() == i,
            forall|r: int| 0 <= r < i ==> (#[trigger] flow[r]).len() == error_flow[r].len(),
            forall|r: int, c: int|
                0 <= r < i && 0 <= c < flow[r].len() ==> #[trigger] flow[r][c] == vector_of(
                    error_flow[r][c],
                ),
        decreases error_flow.len() - i,
    {
        let mut row: Vec<(i16, i16)> = Vec::new();
        let mut j: usize = 0;
        while j < error_flow[i].len()
            invariant
                i < error_flow.len(),
                j <= error_flow[i as int].len(),
                row.len() == j,
                forall|c: int| 0 <= c < j ==> #[trigger] row[c] == vector_of(error_flow[i as int][c]),
            decreases error_flow[i as int].len() - j,
        {
            let cell = error_flow[i][j];
            row.push((cell.0, cell.1));
            j += 1;
        }
        flow.push(row);
        i += 1;
    }
    flow
}

/// Block matching set up from the settings of all algorithms.
pub(crate) fn get_bma(settings: &AlgoSettings) -> (bma: BMA)
    ensures
        bma.settings() == block_matching_settings(*settings),
{
    let mut bma = BMA::new();
    let mut algo_settings = settings.block_matching;
    algo_settings.verbose = settings.verbose;
    bma.apply_settings(&algo_settings);
    bma
}

/// Block matching from `frame_1` to `frame_2`.
pub fn run_bma(frame_1: &Frame, frame_2: &Frame, settings: &AlgoSettings) -> (flow: Vec<
    Vec<(i16, i16)>,
>)
    requires
        frame_1.width() == frame_2.width(),
        frame_1.height() == frame_2.height(),
        can_process(
            block_matching_settings(*settings),
            frame_1.width() as int,
            frame_1.height() as int,
        ),
    ensures
        is_block_flow(flow@, frame_1, frame_2, block_matching_settings(*settings)),
{
    let bma = get_bma(settings);
    let tagged = bma.calc_flow(frame_1, frame_2);
    let flow = remove_flow_error_data(&tagged);
    assert(is_error_flow(tagged@, frame_1, frame_2, block_matching_settings(*settings))
        && is_stripped(flow@, tagged@));
    flow
}

/// Block matching in both directions, combined into one flow.
pub fn run_bidirectional_bma(frame_1: &Frame, frame_2: &Frame, settings: &AlgoSettings) -> (flow:
    Vec<Vec<(i16, i16)>>)
    requires
        frame_1.width() == frame_2.width(),
        frame_1.height() == frame_2.height(),
        can_process(
            block_matching_settings(*settings),
            frame_1.width() as int,
            frame_1.height() as int,
        ),
    ensures
        is_bidirectional_flow(flow@, frame_1, frame_2, block_matching_settings(*settings)),
{
    let bma = get_bma(settings);
    let forward_tagged = bma.calc_flow(frame_1, frame_2);
    let backward_tagged = bma.calc_flow(frame_2, frame_1);
    let forward_flow = remove_flow_error_data(&forward_tagged);
    let backward_flow = remove_flow_error_data(&backward_tagged);
    assert(is_error_flow(forward_tagged@, frame_1, frame_2, block_matching_settings(*settings))
        && is_stripped(forward_flow@, forward_tagged@));
    assert(is_error_flow(backward_tagged@, frame_2, frame_1, block_matching_settings(*settings))
        && is_stripped(backward_flow@, backward_tagged@));
    let flow = combine_bidirectional_flows(&forward_flow, &backward_flow);
    assert(is_combination(flow@, forward_flow@, backward_flow@));
    flow
}

/// Block matching from `frame_1` to `frame_2`, smoothed with `select`.
pub fn run_smoothed_bma<F: Fn(&ErrorFlow) -> Option<(usize, usize)>>(
    frame_1: &Frame,
    frame_2: &Frame,
    settings: &AlgoSettings,
    select: &F,
) -> (smoothed: Result<Vec<Vec<(i16, i16)>>, SmoothingError>)
    requires
        frame_1.width() == frame_2.width(),
        frame_1.height() == frame_2.height(),
        can_process(
            block_matching_settings(*settings),
            frame_1.width() as int,
            frame_1.height() as int,
        ),
        accepts_windows(*select, settings.smoothing.filter_window_width as int),
    ensures
        smoothed is Err <==> settings.smoothing.filter_window_width % 2 == 0,
        smoothed matches Ok(flow) ==> is_smoothed_flow(
            flow@,
            frame_1,
            frame_2,
            block_matching_settings(*settings),
            settings.smoothing.filter_window_width as int,
            *select,
        ),
{
    if settings.smoothing.filter_window_width % 2 == 0 {
        return Err(SmoothingError::EvenWindow);
    }
    let bma = get_bma(settings);
    let tagged = bma.calc_flow(frame_1, frame_2);
    let flow = smooth_error_flow(&tagged, settings.smoothing.filter_window_width, select);
    assert(is_error_flow(tagged@, frame_1, frame_2, block_matching_settings(*settings))
        && is_smoothing_of(
        flow@,
        tagged@,
        settings.smoothing.filter_window_width as int,
        *select,
    ));
    Ok(flow)
}

/// Block matching in both directions, each flow smoothed with `select`, then
/// combined.
pub fn run_smoothed_bidirectional_bma<F: Fn(&ErrorFlow) -> Option<(usize, usize)>>(
    frame_1: &Frame,
    frame_2: &Frame,
    settings: &AlgoSettings,
    select: &F,
) -> (smoothed: Result<Vec<Vec<(i16, i16)>>, SmoothingError>)
    requires
        frame_1.width() == frame_2.width(),
        frame_1.height() == frame_2.height(),
        can_process(
            block_matching_settings(*settings),
            frame_1.width() as int,
            frame_1.height() as int,
        ),
        accepts_windows(*select, settings.smoothing.filter_window_width as int),
    ensures
        smoothed is Err <==> settings.smoothing.filter_window_width % 2 == 0,
        smoothed matches Ok(flow) ==> is_smoothed_bidirectional_flow(
            flow@,
            frame_1,
            frame_2,
            block_matching_settings(*settings),
            settings.smoothing.filter_window_width as int,
            *select,
        ),
{
    let forward_flow = match run_smoothed_bma(frame_1, frame_2, settings, select) {
        Ok(flow) => flow,
        Err(e) => {
            return Err(e);
        },
    };
    let backward_flow = match run_smoothed_bma(frame_2, frame_1, settings, select) {
        Ok(flow) => flow,
        Err(e) => {
            return Err(e);
        },
    };
    proof {
        lemma_smoothed_flows_agree_in_shape(
            forward_flow@,
            backward_flow@,
            frame_1,
            frame_2,
            block_matching_settings(*settings),
            settings.smoothing.filter_window_width as int,
            *select,
        );
    }
    let flow = combine_bidirectional_flows(&forward_flow, &backward_flow);
    assert(is_combination(flow@, forward_flow@, backward_flow@));
    Ok(flow)
}

/// The smoothed flows of two equally large frames in the two directions have
/// the same shape.
proof fn lemma_smoothed_flows_agree_in_shape<F: Fn(&ErrorFlow) -> Option<(usize, usize)>>(
    forward: Seq<Vec<(i16, i16)>>,
    backward: Seq<Vec<(i16, i16)>>,
    frame_1: &Frame,
    frame_2: &Frame,
    settings: BmaSettings,
    filter_w: int,
    select: F,
)
    requires
        frame_1.width() == frame_2.width(),
        frame_1.height() == frame_2.height(),
        is_smoothed_flow(forward, frame_1, frame_2, settings, filter_w, select),
        is_smoothed_flow(backward, frame_2, frame_1, settings, filter_w, select),
    ensures
        same_shape(forward, backward),
{
    let forward_tagged = choose|tagged: ErrorFlow| #[trigger]
        is_error_flow(tagged@, frame_1, frame_2, settings) && is_smoothing_of(
            forward,
            tagged@,
            filter_w,
            select,
        );
    let backward_tagged = choose|tagged: ErrorFlow| #[trigger]
        is_error_flow(tagged@, frame_2, frame_1, settings) && is_smoothing_of(
            backward,
            tagged@,
            filter_w,
            select,
        );
    assert forall|i: int| 0 <= i < forward.len() implies (#[trigger] forward[i]).len()
        == backward[i].len() by {
        assert(forward[i].len() == forward_tagged@[i].len());
        assert(backward[i].len() == backward_tagged@[i].len());
    }
}

/// Runs one of the block-matching algorithms on two frames of equal size.
/// `select` is the selector of the smoothing algorithms; the others leave it
/// alone. The two algorithms that run outside the library are refused.
pub fn run_algo<F: Fn(&ErrorFlow) -> Option<(usize, usize)>>(
    algo: &Algorithm,
    frame_1: &Frame,
    frame_2: &Frame,
    settings: &AlgoSettings,
    select: &F,
) -> (estimated: Result<Vec<Vec<(i16, i16)>>, EstimationError>)
    requires
        frame_1.width() == frame_2.width(),
        frame_1.height() == frame_2.height(),
        can_process(
            block_matching_settings(*settings),
            frame_1.width() as int,
            frame_1.height() as int,
        ),
        accepts_windows(*select, settings.smoothing.filter_window_width as int),
    ensures
        estimated == Err::<Vec<Vec<(i16, i16)>>, EstimationError>(
            EstimationError::ExternalAlgorithm,
        ) <==> (*algo == Algorithm::LucasKanade || *algo == Algorithm::GunnarFarneback),
        estimated == Err::<Vec<Vec<(i16, i16)>>, EstimationError>(EstimationError::EvenWindow)
            <==> (*algo == Algorithm::SmoothedBlockMatching || *algo
            == Algorithm::SmoothedBidirectionalBlockMatching)
            && settings.smoothing.filter_window_width % 2 == 0,
        estimated matches Ok(flow) ==> is_flow_of(
            flow@,
            *algo,
            frame_1,
            frame_2,
            *settings,
            *select,
        ),
{
    match algo {
        Algorithm::BlockMatching => Ok(run_bma(frame_1, frame_2, settings)),
        Algorithm::BidirectionalBlockMatching => Ok(
            run_bidirectional_bma(frame_1, frame_2, settings),
        ),
        Algorithm::SmoothedBlockMatching => match run_smoothed_bma(
            frame_1,
            frame_2,
            settings,
            select,
        ) {
            Ok(flow) => Ok(flow),
            Err(_) => Err(EstimationError::EvenWindow),
        },
        Algorithm::SmoothedBidirectionalBlockMatching => match run_smoothed_bidirectional_bma(
            frame_1,
            frame_2,
            settings,
            select,
        ) {
            Ok(flow) => Ok(flow),
            Err(_) => Err(EstimationError::EvenWindow),
        },
        Algorithm::LucasKanade => Err(EstimationError::ExternalAlgorithm),
        Algorithm::GunnarFarneback => Err(EstimationError::ExternalAlgorithm),
    }
}

/// `flow` is what the algorithm `algo` estimates between the two frames.
pub open spec fn is_flow_of<F: Fn(&ErrorFlow) -> Option<(usize, usize)>>(
    flow: Seq<Vec<(i16, i16)>>,
    algo: Algorithm,
    frame_1: &Frame,
    frame_2: &Frame,
    settings: AlgoSettings,
    select: F,
) -> bool {
    let block_matching = block_matching_settings(settings);
    let filter_w = settings.smoothing.filter_window_width as int;
    match algo {
        Algorithm::BlockMatching => is_block_flow(flow, frame_1, frame_2, block_matching),
        Algorithm::BidirectionalBlockMatching => is_bidirectional_flow(
            flow,
            frame_1,
            frame_2,
            block_matching,
        ),
        Algorithm::SmoothedBlockMatching => is_smoothed_flow(
            flow,
            frame_1,
            frame_2,
            block_matching,
            filter_w,
            select,
        ),
        Algorithm::SmoothedBidirectionalBlockMatching => is_smoothed_bidirectional_flow(
            flow,
            frame_1,
            frame_2,
            block_matching,
            filter_w,
            select,
        ),
        Algorithm::LucasKanade => false,
        Algorithm::GunnarFarneback => false,
    }
}

} // verus!
