//! Motion estimation between two frames.

pub mod combinator;

use crate::frame::{frame_size, Frame};
use crate::operations::{is_field_of, is_scaled_up, same_shape, scale_up};
use combinator::bidirectional_flow::is_combination;
use combinator::bma::{block_count, can_process, is_error_flow, lemma_block_count_bounds};
use combinator::smoothing::{accepts_windows, is_smoothing_of, ErrorFlow};
use combinator::{
    block_matching_settings, get_bma, is_block_flow, is_flow_of, is_smoothed_flow, is_stripped,
    run_algo, AlgoSettings, Algorithm, EstimationError,
};
use vstd::prelude::*;

verus! {

/// Why the estimator has no answer.
#[derive(Debug, Clone, Copy, PartialEq, Eq, Structural)]
pub enum EstimatorError {
    /// No frames have been set yet.
    FramesMissing,
    /// The two frames differ in width or height.
    DimensionMismatch,
    /// The frames hold no pixels.
    EmptyFrames,
    /// The algorithm runs outside this library.
    ExternalAlgorithm,
    /// The block width is zero.
    ZeroBlockWidth,
    /// The frames with their padding, or the flow field at pixel resolution,
    /// are larger than this machine can hold.
    TooLarge,
    /// The smoothing window width is even.
    EvenWindow,
}

/// Estimates the motion between two frames with the algorithm and the
/// settings it has been given.
pub struct Estimator {
    /// The two frames, once they have been set. `set_frames_directly` takes
    /// none but equally large ones.
    pub frames: Option<(Frame, Frame)>,
    pub algorithm: Algorithm,
    pub settings: AlgoSettings,
    /// A name for this estimator and its settings.
    pub description: String,
}

/// The side of the square of pixels that one cell of a flow field with
/// `cols` columns stands for in a frame `width` pixels wide.
pub open spec fn scale_factor(width: int, cols: int) -> int {
    width / cols
}

impl Estimator {
    /// Whether the frames have been set.
    pub open spec fn has_frames(&self) -> bool {
        self.frames is Some
    }

    /// The first frame, once the frames have been set.
    pub open spec fn frame_1(&self) -> Frame {
        (self.frames->0).0
    }

    /// The second frame, once the frames have been set.
    pub open spec fn frame_2(&self) -> Frame {
        (self.frames->0).1
    }

    /// The number of rows of the flow field at block resolution.
    pub open spec fn block_rows(&self) -> int {
        block_count(
            self.frame_1().height() as int,
            self.settings.block_matching.block_width as int,
        )
    }

    /// The number of columns of the flow field at block resolution.
    pub open spec fn block_cols(&self) -> int {
        block_count(
            self.frame_1().width() as int,
            self.settings.block_matching.block_width as int,
        )
    }

    /// The factor by which the flow field is scaled up.
    pub open spec fn factor(&self) -> int {
        scale_factor(self.frame_1().width() as int, self.block_cols())
    }

    /// Why `estimate_motion` gives no flow field, if it gives none. The
    /// reasons are looked for in this order.
    pub open spec fn refusal(&self) -> Option<EstimatorError> {
        if !self.has_frames() {
            Some(EstimatorError::FramesMissing)
        } else if self.frame_1().width() != self.frame_2().width()
            || self.frame_1().height() != self.frame_2().height() {
            Some(EstimatorError::DimensionMismatch)
        } else if self.frame_1().width() == 0 || self.frame_1().height() == 0 {
            Some(EstimatorError::EmptyFrames)
        } else if self.algorithm == Algorithm::LucasKanade || self.algorithm
            == Algorithm::GunnarFarneback {
            Some(EstimatorError::ExternalAlgorithm)
        } else if self.settings.block_matching.block_width == 0 {
            Some(EstimatorError::ZeroBlockWidth)
        } else if !can_process(
            block_matching_settings(self.settings),
            self.frame_1().width() as int,
            self.frame_1().height() as int,
        ) {
            Some(EstimatorError::TooLarge)
        } else if (self.algorithm == Algorithm::SmoothedBlockMatching || self.algorithm
            == Algorithm::SmoothedBidirectionalBlockMatching)
            && self.settings.smoothing.filter_window_width % 2 == 0 {
            Some(EstimatorError::EvenWindow)
        } else if self.factor() != 1 && self.block_rows() * self.factor() > usize::MAX {
            Some(EstimatorError::TooLarge)
        } else {
            None
        }
    }

    /// An estimator without frames, set to plain block matching with the
    /// default settings.
    pub fn new() -> (estimator: Estimator)
        ensures
            !estimator.has_frames(),
            estimator.algorithm == Algorithm::BlockMatching,
            estimator.settings.verbose == false,
            estimator.settings.block_matching.block_width == 16,
            estimator.settings.block_matching.search_radius == 7,
            estimator.settings.block_matching.use_movement_map,
            estimator.settings.block_matching.movement_map_min_pix_diff == 10,
            estimator.settings.block_matching.movement_map_min_change_percentage == 30,
            estimator.settings.smoothing.filter_window_width == 3,
            estimator.description@ == "Default description"@,
    {
        Estimator {
            algorithm: Algorithm::BlockMatching,
            settings: AlgoSettings::default(),
            frames: None,
            description: "Default description".to_owned(),
        }
    }

    /// Hands the estimator its two frames, which must be equally large;
    /// [`Frame::dimensions`] tells their sizes.
    pub fn set_frames_directly(&mut self, frame_1: Frame, frame_2: Frame)
        requires
            frame_1.width() == frame_2.width(),
            frame_1.height() == frame_2.height(),
        ensures
            final(self).frames == Some((frame_1, frame_2)),
            final(self).algorithm == old(self).algorithm,
            final(self).settings == old(self).settings,
            final(self).description == old(self).description,
    {
        self.frames = Some((frame_1, frame_2));
    }

    /// Width and height of the frames, once they have been set.
    pub fn get_frames_size(&self) -> (size: Option<(u32, u32)>)
        ensures
            size is Some <==> self.has_frames(),
            size matches Some(s) ==> s.0 == self.frame_1().width() && s.1
                == self.frame_1().height(),
    {
        match &self.frames {
            Some(pair) => Some(frame_size(&pair.0)),
            None => None,
        }
    }

    /// Chooses the algorithm.
    pub fn set_algorithm(&mut self, algo: Algorithm)
        ensures
            final(self).algorithm == algo,
            final(self).frames == old(self).frames,
            final(self).settings == old(self).settings,
            final(self).description == old(self).description,
    {
        self.algorithm = algo;
    }

    /// Estimates the motion from the first frame to the second and scales the
    /// flow field up, so that it holds one vector for every pixel of a square
    /// of side `width / cols` per block, `cols` being the number of block
    /// columns. `select` is the selector that the smoothing algorithms use.
    pub fn estimate_motion<F: Fn(&ErrorFlow) -> Option<(usize, usize)>>(&self, select: &F) -> (estimated:
        Result<Vec<Vec<(i16, i16)>>, EstimatorError>)
        requires
            accepts_windows(*select, self.settings.smoothing.filter_window_width as int),
        ensures
            estimated is Err <==> self.refusal() is Some,
            estimated matches Err(e) ==> self.refusal() == Some(e),
            estimated matches Ok(scaled) ==> exists|flow: Vec<Vec<(i16, i16)>>| #[trigger]
                is_flow_of(
                    flow@,
                    self.algorithm,
                    &self.frame_1(),
                    &self.frame_2(),
                    self.settings,
                    *select,
                ) && if self.factor() == 1 {
                    scaled == flow
                } else {
                    is_scaled_up(scaled@, flow@, self.factor())
                },
    {
        let (frame_1, frame_2) = match &self.frames {
            Some(pair) => (&pair.0, &pair.1),
            None => {
                return Err(EstimatorError::FramesMissing);
            },
        };
        let (width, height) = frame_size(frame_1);
        let (width_2, height_2) = frame_size(frame_2);
        if width != width_2 || height != height_2 {
            return Err(EstimatorError::DimensionMismatch);
        }
        if width == 0 || height == 0 {
            return Err(EstimatorError::EmptyFrames);
        }
        match self.algorithm {
            Algorithm::LucasKanade => {
                return Err(EstimatorError::ExternalAlgorithm);
            },
            Algorithm::GunnarFarneback => {
                return Err(EstimatorError::ExternalAlgorithm);
            },
            _ => {},
        }
        if self.settings.block_matching.block_width == 0 {
            return Err(EstimatorError::ZeroBlockWidth);
        }
        if !get_bma(&self.settings).fits(width, height) {
            return Err(EstimatorError::TooLarge);
        }
        let flow = match run_algo(&self.algorithm, frame_1, frame_2, &self.settings, select) {
            Ok(flow) => flow,
            Err(EstimationError::EvenWindow) => {
                return Err(EstimatorError::EvenWindow);
            },
            Err(EstimationError::ExternalAlgorithm) => {
                return Err(EstimatorError::ExternalAlgorithm);
            },
        };
        proof {
            lemma_flow_shape(
                flow@,
                self.algorithm,
                frame_1,
                frame_2,
                self.settings,
                *select,
            );
            lemma_block_count_bounds(
                width as int,
                self.settings.block_matching.block_width as int,
            );
            lemma_block_count_bounds(
                height as int,
                self.settings.block_matching.block_width as int,
            );
        }
        let cols: u32 = flow[0].len() as u32;
        let scale_factor: u32 = width / cols;
        if scale_factor != 1 {
            assert((flow.len() as u64) * (scale_factor as u64) <= 0xFFFF_FFFF * 0xFFFF_FFFF)
                by (nonlinear_arith)
                requires
                    0 <= flow.len() <= 0xFFFF_FFFF,
                    0 <= scale_factor <= 0xFFFF_FFFF,
            ;
            if (flow.len() as u64) * (scale_factor as u64) > usize::MAX as u64 {
                return Err(EstimatorError::TooLarge);
            }
            assert(cols * scale_factor <= width) by {
                vstd::arithmetic::div_mod::lemma_fundamental_div_mod(width as int, cols as int);
                vstd::arithmetic::div_mod::lemma_mod_bound(width as int, cols as int);
                assert(cols * (width as int / cols as int) == (width as int / cols as int) * cols)
                    by (nonlinear_arith);
            }
        }
        Ok(scale_up(flow, scale_factor))
    }
}

/// The flow field of every algorithm has one cell for each block of the grid
/// that covers the frames.
pub proof fn lemma_flow_shape<F: Fn(&ErrorFlow) -> Option<(usize, usize)>>(
    flow: Seq<Vec<(i16, i16)>>,
    algo: Algorithm,
    frame_1: &Frame,
    frame_2: &Frame,
    settings: AlgoSettings,
    select: F,
)
    requires
        frame_1.width() == frame_2.width(),
        frame_1.height() == frame_2.height(),
        is_flow_of(flow, algo, frame_1, frame_2, settings, select),
    ensures
        is_field_of(
            flow,
            block_count(frame_1.height() as int, settings.block_matching.block_width as int),
            block_count(frame_1.width() as int, settings.block_matching.block_width as int),
        ),
{
    let block_matching = block_matching_settings(settings);
    let filter_w = settings.smoothing.filter_window_width as int;
    match algo {
        Algorithm::BlockMatching => {
            lemma_block_flow_shape(flow, frame_1, frame_2, block_matching);
        },
        Algorithm::BidirectionalBlockMatching => {
            let (forward, backward) = choose|
                forward: Vec<Vec<(i16, i16)>>,
                backward: Vec<Vec<(i16, i16)>>,
            |
                is_block_flow(forward@, frame_1, frame_2, block_matching) && is_block_flow(
                    backward@,
                    frame_2,
                    frame_1,
                    block_matching,
                ) && #[trigger] is_combination(flow, forward@, backward@);
            lemma_block_flow_shape(forward@, frame_1, frame_2, block_matching);
            lemma_same_shape_is_field(flow, forward@);
        },
        Algorithm::SmoothedBlockMatching => {
            lemma_smoothed_flow_shape(flow, frame_1, frame_2, block_matching, filter_w, select);
        },
        Algorithm::SmoothedBidirectionalBlockMatching => {
            let (forward, backward) = choose|
                forward: Vec<Vec<(i16, i16)>>,
                backward: Vec<Vec<(i16, i16)>>,
            |
                is_smoothed_flow(forward@, frame_1, frame_2, block_matching, filter_w, select)
                    && is_smoothed_flow(
                    backward@,
                    frame_2,
                    frame_1,
                    block_matching,
                    filter_w,
                    select,
                ) && #[trigger] is_combination(flow, forward@, backward@);
            lemma_smoothed_flow_shape(
                forward@,
                frame_1,
                frame_2,
                block_matching,
                filter_w,
                select,
            );
            lemma_same_shape_is_field(flow, forward@);
        },
        Algorithm::LucasKanade => {},
        Algorithm::GunnarFarneback => {},
    }
}

proof fn lemma_same_shape_is_field<A, B>(left: Seq<Vec<A>>, right: Seq<Vec<B>>)
    requires
        same_shape(left, right),
    ensures
        forall|rows: int, cols: int|
            is_field_of(right, rows, cols) ==> is_field_of(left, rows, cols),
{
    assert forall|rows: int, cols: int| is_field_of(right, rows, cols) implies is_field_of(
        left,
        rows,
        cols,
    ) by {
        assert forall|i: int| 0 <= i < left.len() implies (#[trigger] left[i]).len() == cols by {
            assert(right[i].len() == cols);
        }
    }
}

proof fn lemma_block_flow_shape(
    flow: Seq<Vec<(i16, i16)>>,
    frame_1: &Frame,
    frame_2: &Frame,
    settings: combinator::bma::BmaSettings,
)
    requires
        is_block_flow(flow, frame_1, frame_2, settings),
    ensures
        is_field_of(
            flow,
            block_count(frame_1.height() as int, settings.block_width as int),
            block_count(frame_1.width() as int, settings.block_width as int),
        ),
{
    let tagged = choose|tagged: ErrorFlow| #[trigger]
        is_error_flow(tagged@, frame_1, frame_2, settings) && is_stripped(flow, tagged@);
    lemma_same_shape_is_field(flow, tagged@);
}

proof fn lemma_smoothed_flow_shape<F: Fn(&ErrorFlow) -> Option<(usize, usize)>>(
    flow: Seq<Vec<(i16, i16)>>,
    frame_1: &Frame,
    frame_2: &Frame,
    settings: combinator::bma::BmaSettings,
    filter_w: int,
    select: F,
)
    requires
        is_smoothed_flow(flow, frame_1, frame_2, settings, filter_w, select),
    ensures
        is_field_of(
            flow,
            block_count(frame_1.height() as int, settings.block_width as int),
            block_count(frame_1.width() as int, settings.block_width as int),
        ),
{
    let tagged = choose|tagged: ErrorFlow| #[trigger]
        is_error_flow(tagged@, frame_1, frame_2, settings) && is_smoothing_of(
            flow,
            tagged@,
            filter_w,
            select,
        );
    lemma_same_shape_is_field(flow, tagged@);
}

} // verus!
