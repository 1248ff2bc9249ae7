//! The orchestrator: which step the numeric back end is asked for next, and
//! what becomes of its answer.
//!
//! A [`Pipeline`] is a state machine. The host reads the pending [`Step`],
//! performs it with the back end, and hands the outcome back as an
//! [`Event`]. Every result is checked against its stage's contract before it
//! is admitted; the first refusal or reported failure aborts the run and
//! discards every raster collected so far.

use vstd::prelude::*;
use crate::error::{AnalysisError, EncodingFault, ProcessingFault};
use crate::grid::{
    is_greatest_rank, is_least_rank, lemma_one_fault, refused_as, rows_of, well_shaped, Grid,
};
use crate::matrix::{inverted, is_binary, splits_at, Matrix, LOW};
use crate::sample::INFINITY_MAGNITUDE;
use crate::scale::{
    holds_order, holds_scale, keeps_extremes, keeps_order, keeps_scale, lemma_extremes_unique,
    lemma_scale_keeps_extremes,
};
use crate::png::{declared_size, has_header, image_size};
use crate::raster::{base64_len, data_url, data_url_text};
use crate::window::{averages, is_average_of};

verus! {

/// The configured sequence of stages.
#[derive(Debug, Clone, Copy, PartialEq, Eq, Structural)]
pub enum Variant {
    /// Normalise to the unit range and smooth with the wide kernel.
    Preview,
    /// Normalise to the byte range, smooth with the narrow kernel and
    /// binarise; with `invert`, the binary matrix is shown complemented.
    Segmentation { invert: bool },
}

/// An observable stage; its name is its key in the result set.
#[derive(Debug, Clone, Copy, PartialEq, Eq, Structural)]
pub enum Stage {
    Normalized,
    Gaussian,
    Threshold,
}

/// The range a grid is rescaled to. Either way the matrix handed back holds
/// the result on the 8-bit scale.
#[derive(Debug, Clone, Copy, PartialEq, Eq, Structural)]
pub enum Range {
    /// Zero to one.
    Unit,
    /// Zero to 255.
    Byte,
}

/// How the smoothing kernel's spread is chosen.
#[derive(Debug, Clone, Copy, PartialEq, Eq, Structural)]
pub enum Sigma {
    /// A spread of one cell.
    One,
    /// The spread the back end derives from the kernel size.
    Derived,
}

/// How cells beyond the matrix's edge are synthesised during smoothing.
#[derive(Debug, Clone, Copy, PartialEq, Eq, Structural)]
pub enum Border {
    /// A fixed value.
    Constant,
    /// Interior values mirrored across the edge.
    Reflect,
}

/// What the host is asked to do next.
#[derive(Debug, Clone, Copy, PartialEq, Eq, Structural)]
pub enum Step {
    /// Rescale the grid linearly so that its least number maps to the lower
    /// bound of `range` and its greatest to the upper bound.
    Normalize { range: Range },
    /// Convolve the current matrix with a square Gaussian kernel.
    Smooth { kernel: usize, sigma: Sigma, border: Border },
    /// Cut the current matrix at the threshold its own histogram yields.
    Binarize,
    /// Encode the current matrix as a PNG stream.
    Encode { stage: Stage },
    /// Nothing: every stage is done and the result set can be taken.
    Finished,
    /// Nothing: the run was aborted.
    Aborted,
}

/// What the host reports back.
#[derive(Debug, PartialEq, Eq)]
pub enum Event {
    /// The matrix a numeric step produced.
    Matrix { width: usize, height: usize, levels: Vec<u8> },
    /// The stream an encoding step produced.
    Png(Vec<u8>),
    /// The back end failed, with its message.
    Failure(String),
}

/// The stages a variant shows, in the order they are produced.
pub open spec fn stages_of(variant: Variant) -> Seq<Stage> {
    match variant {
        Variant::Preview => seq![Stage::Normalized, Stage::Gaussian],
        Variant::Segmentation { .. } => seq![Stage::Normalized, Stage::Gaussian, Stage::Threshold],
    }
}

/// The step that follows `step` once its result is admitted.
pub open spec fn successor(variant: Variant, step: Step) -> Step {
    match step {
        Step::Normalize { .. } => Step::Encode { stage: Stage::Normalized },
        Step::Encode { stage: Stage::Normalized } => smoothing_of(variant),
        Step::Smooth { .. } => Step::Encode { stage: Stage::Gaussian },
        Step::Encode { stage: Stage::Gaussian } => match variant {
            Variant::Preview => Step::Finished,
            Variant::Segmentation { .. } => Step::Binarize,
        },
        Step::Binarize => Step::Encode { stage: Stage::Threshold },
        Step::Encode { stage: Stage::Threshold } => Step::Finished,
        Step::Finished => Step::Finished,
        Step::Aborted => Step::Aborted,
    }
}

/// The normalisation a variant asks for.
pub open spec fn normalisation_of(variant: Variant) -> Step {
    match variant {
        Variant::Preview => Step::Normalize { range: Range::Unit },
        Variant::Segmentation { .. } => Step::Normalize { range: Range::Byte },
    }
}

/// The smoothing a variant asks for: five by five with spread one and a
/// constant border, or three by three with derived spread and a reflected
/// border.
pub open spec fn smoothing_of(variant: Variant) -> Step {
    match variant {
        Variant::Preview => Step::Smooth { kernel: 5, sigma: Sigma::One, border: Border::Constant },
        Variant::Segmentation { .. } => Step::Smooth {
            kernel: 3,
            sigma: Sigma::Derived,
            border: Border::Reflect,
        },
    }
}

/// The stages whose rasters are collected when `step` is pending.
pub open spec fn shown_before(variant: Variant, step: Step) -> Seq<Stage> {
    match step {
        Step::Normalize { .. } | Step::Encode { stage: Stage::Normalized } | Step::Aborted => seq![],
        Step::Smooth { .. } | Step::Encode { stage: Stage::Gaussian } => seq![Stage::Normalized],
        Step::Binarize | Step::Encode { stage: Stage::Threshold } => seq![
            Stage::Normalized,
            Stage::Gaussian,
        ],
        Step::Finished => stages_of(variant),
    }
}

/// Whether `step` can be pending in a run of `variant`.
pub open spec fn reachable(variant: Variant, step: Step) -> bool {
    match step {
        Step::Normalize { .. } => step == normalisation_of(variant),
        Step::Smooth { .. } => step == smoothing_of(variant),
        Step::Binarize | Step::Encode { stage: Stage::Threshold } => variant is Segmentation,
        _ => true,
    }
}

/// The matrix kept when `levels` is admitted as the result of `step`: the
/// complement for an inverted binarisation, `levels` itself otherwise.
pub open spec fn kept(variant: Variant, step: Step, levels: Seq<u8>) -> Seq<u8> {
    if step == Step::Binarize && variant == (Variant::Segmentation { invert: true }) {
        inverted(levels)
    } else {
        levels
    }
}

/// How far a smoothed level may lie outside the range of its neighbourhood.
/// The byte range is smoothed level by level, so not at all. The unit range
/// is smoothed first and brought to levels after, which can move a level
/// across a rounding boundary: one level.
pub open spec fn slack_of(variant: Variant) -> int {
    match variant {
        Variant::Preview => 1,
        Variant::Segmentation { .. } => 0,
    }
}

/// Whether `levels` can be the smoothing that `step` asks for of `source`.
pub open spec fn smooths(
    variant: Variant,
    step: Step,
    source: Seq<u8>,
    levels: Seq<u8>,
    width: int,
    height: int,
) -> bool {
    step matches Step::Smooth { kernel, border, .. } && averages(
        source,
        levels,
        width,
        height,
        kernel as int / 2,
        border == Border::Constant,
        slack_of(variant),
    )
}

/// A grid has a scale when its least and its greatest number are finite and
/// differ: only then is the linear rescaling defined.
pub open spec fn has_scale(samples: Seq<u32>) -> bool {
    exists|low: int, high: int|
        #[trigger] is_least_rank(samples, low) && #[trigger] is_greatest_rank(samples, high)
            && -(INFINITY_MAGNITUDE as int) < low < high < INFINITY_MAGNITUDE
}

/// A grid is flat when it has no scale: it holds no number, or all its
/// numbers are equal, or one of them is infinite.
pub open spec fn flat(samples: Seq<u32>) -> bool {
    !has_scale(samples)
}

impl Stage {
    /// The stage's key in the result set.
    pub open spec fn spec_name(self) -> Seq<char> {
        match self {
            Stage::Normalized => "Normalized"@,
            Stage::Gaussian => "Gaussian"@,
            Stage::Threshold => "Threshold"@,
        }
    }

    /// The stage's key in the result set.
    pub fn name(&self) -> (text: String)
        ensures
            text@ == self.spec_name(),
    {
        match self {
            Stage::Normalized => "Normalized".to_owned(),
            Stage::Gaussian => "Gaussian".to_owned(),
            Stage::Threshold => "Threshold".to_owned(),
        }
    }
}

/// The named rasters of a finished run.
pub struct ResultSet {
    entries: Vec<(Stage, String)>,
}

impl ResultSet {
    /// The rasters in the order their stages were produced.
    pub closed spec fn view(&self) -> Seq<(Stage, Seq<char>)> {
        Seq::new(self.entries@.len(), |i: int| (self.entries@[i].0, self.entries@[i].1@))
    }

    /// Number of rasters.
    pub fn len(&self) -> (n: usize)
        ensures
            n == self@.len(),
    {
        self.entries.len()
    }

    /// The stage of the `i`-th raster.
    pub fn stage(&self, i: usize) -> (stage: Stage)
        requires
            i < self@.len(),
        ensures
            stage == self@[i as int].0,
    {
        self.entries[i].0
    }

    /// The inline text of the `i`-th raster.
    pub fn raster(&self, i: usize) -> (text: &String)
        requires
            i < self@.len(),
        ensures
            text@ == self@[i as int].1,
    {
        &self.entries[i].1
    }

    /// The raster of `stage`, if the run showed that stage.
    pub fn get(&self, stage: Stage) -> (found: Option<&String>)
        ensures
            match found {
                Some(text) => exists|i: int|
                    0 <= i < self@.len() && self@[i] == (stage, text@) && forall|k: int|
                        0 <= k < i ==> self@[k].0 != stage,
                None => forall|i: int| 0 <= i < self@.len() ==> self@[i].0 != stage,
            },
    {
        let n: usize = self.entries.len();
        let mut i: usize = 0;
        while i < n
            invariant
                0 <= i <= n,
                n == self.entries@.len(),
                forall|k: int| 0 <= k < i ==> self@[k].0 != stage,
            decreases n - i,
        {
            if self.entries[i].0 == stage {
                assert(self@[i as int] == (stage, self.entries@[i as int].1@));
                return Some(&self.entries[i].1);
            }
            i += 1;
        }
        None
    }

    /// Every raster under the name of its stage, in the order the stages
    /// were produced.
    pub fn named(&self) -> (pairs: Vec<(String, String)>)
        ensures
            pairs@.len() == self@.len(),
            forall|i: int|
                0 <= i < self@.len() ==> (#[trigger] pairs@[i]).0@ == self@[i].0.spec_name()
                    && pairs@[i].1@ == self@[i].1,
    {
        let n: usize = self.entries.len();
        let mut pairs: Vec<(String, String)> = Vec::new();
        let mut i: usize = 0;
        while i < n
            invariant
                0 <= i <= n,
                n == self.entries@.len(),
                pairs@.len() == i,
                forall|k: int|
                    0 <= k < i ==> (#[trigger] pairs@[k]).0@ == self@[k].0.spec_name()
                        && pairs@[k].1@ == self@[k].1,
            decreases n - i,
        {
            let name = self.entries[i].0.name();
            let text = self.entries[i].1.clone();
            assert(self@[i as int] == (self.entries@[i as int].0, self.entries@[i as int].1@));
            pairs.push((name, text));
            i += 1;
        }
        pairs
    }
}

/// One run of the analysis over one grid.
pub struct Pipeline {
    variant: Variant,
    grid: Grid,
    step: Step,
    current: Option<Matrix>,
    rasters: Vec<(Stage, String)>,
}

impl Pipeline {
    /// The configured variant.
    pub closed spec fn spec_variant(&self) -> Variant {
        self.variant
    }

    /// The grid under analysis.
    pub closed spec fn spec_grid(&self) -> Grid {
        self.grid
    }

    /// The pending step.
    pub closed spec fn spec_step(&self) -> Step {
        self.step
    }

    /// The levels of the latest admitted matrix.
    pub closed spec fn spec_current(&self) -> Option<Seq<u8>> {
        match self.current {
            Some(m) => Some(m@),
            None => None,
        }
    }

    /// The rasters collected so far, in the order of their stages.
    pub closed spec fn spec_rasters(&self) -> Seq<(Stage, Seq<char>)> {
        Seq::new(self.rasters@.len(), |i: int| (self.rasters@[i].0, self.rasters@[i].1@))
    }

    /// The stages of the rasters collected so far.
    pub open spec fn spec_shown(&self) -> Seq<Stage> {
        Seq::new(self.spec_rasters().len(), |i: int| self.spec_rasters()[i].0)
    }

    /// What holds of every pipeline, in every state:
    /// the pending step belongs to the variant; the rasters collected are
    /// those of the stages before it; a matrix is at hand whenever a step
    /// needs one, and it has the grid's dimensions; a grid is only ever sent
    /// to normalisation when it has a scale; the normalised matrix is on the
    /// grid's scale and in the grid's order, or all low for a flat grid; the
    /// binarised matrix holds two levels.
    pub closed spec fn wf(&self) -> bool {
        &&& self.grid.wf()
        &&& reachable(self.variant, self.step)
        &&& self.spec_shown() == shown_before(self.variant, self.step)
        &&& match self.step {
            Step::Normalize { .. } => self.current is None && !flat(self.grid.spec_samples()),
            Step::Encode { .. } | Step::Smooth { .. } | Step::Binarize => self.current is Some,
            Step::Finished | Step::Aborted => true,
        }
        &&& match self.current {
            Some(m) => m.wf() && m.shaped_like(&self.grid),
            None => true,
        }
        &&& (self.step == Step::Encode { stage: Stage::Normalized } ==> if flat(
            self.grid.spec_samples(),
        ) {
            forall|i: int|
                0 <= i < self.spec_current()->0.len() ==> self.spec_current()->0[i] == LOW
        } else {
            &&& keeps_scale(self.grid.spec_samples(), self.spec_current()->0)
            &&& keeps_order(self.grid.spec_samples(), self.spec_current()->0)
        })
        &&& (self.step == Step::Encode { stage: Stage::Threshold } ==> is_binary(
            self.spec_current()->0,
        ))
    }

    /// Whether a step is pending, that is the run is neither finished nor
    /// aborted.
    pub open spec fn active(&self) -> bool {
        self.spec_step() != Step::Finished && self.spec_step() != Step::Aborted
    }

    /// Whether a matrix of these dimensions and levels fits the grid.
    pub open spec fn fits_grid(&self, width: usize, height: usize, levels: Seq<u8>) -> bool {
        &&& width == self.spec_grid().spec_width()
        &&& height == self.spec_grid().spec_height()
        &&& levels.len() == height * width
    }

    /// Why `event` is refused in this state, or `None` where it is admitted.
    ///
    /// A reported failure is surfaced with the back end's message. A matrix
    /// is admitted for a numeric step when it has the grid's dimensions and
    ///
    /// - for a normalisation, holds for every number of the grid the floor
    ///   or the ceiling of its place on the grid's scale, and reverses the
    ///   order of no two numbers;
    /// - for a smoothing, holds in every cell a level between the least and
    ///   the greatest that the current matrix holds under the kernel;
    /// - for a binarisation, holds two levels and is a cut of the current
    ///   matrix at some threshold.
    ///
    /// A stream is admitted for an encoding step when it opens as a PNG
    /// stream of the matrix's dimensions and its inline text fits the
    /// machine word. Anything else comes out of turn.
    pub open spec fn refusal(&self, event: Event) -> Option<AnalysisError> {
        if !self.active() {
            Some(AnalysisError::Processing(ProcessingFault::OutOfTurn))
        } else {
            match event {
                Event::Failure(text) => Some(
                    AnalysisError::Processing(ProcessingFault::Backend(text)),
                ),
                Event::Matrix { width, height, levels } => match self.spec_step() {
                    Step::Normalize { .. } => if !self.fits_grid(width, height, levels@) {
                        Some(AnalysisError::Processing(ProcessingFault::Dimensions))
                    } else if !keeps_scale(self.spec_grid().spec_samples(), levels@) {
                        Some(AnalysisError::Processing(ProcessingFault::OffScale))
                    } else if !keeps_order(self.spec_grid().spec_samples(), levels@) {
                        Some(AnalysisError::Processing(ProcessingFault::Disorder))
                    } else {
                        None
                    },
                    Step::Smooth { .. } => if !self.fits_grid(width, height, levels@) {
                        Some(AnalysisError::Processing(ProcessingFault::Dimensions))
                    } else if !smooths(
                        self.spec_variant(),
                        self.spec_step(),
                        self.spec_current()->0,
                        levels@,
                        width as int,
                        height as int,
                    ) {
                        Some(AnalysisError::Processing(ProcessingFault::OffRange))
                    } else {
                        None
                    },
                    Step::Binarize => if !self.fits_grid(width, height, levels@) {
                        Some(AnalysisError::Processing(ProcessingFault::Dimensions))
                    } else if !is_binary(levels@) {
                        Some(AnalysisError::Processing(ProcessingFault::NotBinary))
                    } else if !exists|t: u8| splits_at(self.spec_current()->0, levels@, t) {
                        Some(AnalysisError::Processing(ProcessingFault::NotASplit))
                    } else {
                        None
                    },
                    _ => Some(AnalysisError::Processing(ProcessingFault::OutOfTurn)),
                },
                Event::Png(bytes) => match self.spec_step() {
                    Step::Encode { .. } => if !has_header(bytes@) || declared_size(bytes@) != (
                        self.spec_grid().spec_width() as int,
                        self.spec_grid().spec_height() as int,
                    ) {
                        Some(AnalysisError::Processing(ProcessingFault::Raster))
                    } else if base64_len(bytes@.len()) > usize::MAX {
                        Some(AnalysisError::Encoding(EncodingFault::TooLong))
                    } else {
                        None
                    },
                    _ => Some(AnalysisError::Processing(ProcessingFault::OutOfTurn)),
                },
            }
        }
    }

    /// This state is what `before` becomes when `event` is admitted: the
    /// next step is pending; a matrix replaces the current one (complemented
    /// after an inverted binarisation); a stream adds its inline text under
    /// the stage that was encoded.
    pub open spec fn follows(&self, before: &Pipeline, event: Event) -> bool {
        &&& self.spec_variant() == before.spec_variant()
        &&& self.spec_grid() == before.spec_grid()
        &&& self.spec_step() == successor(before.spec_variant(), before.spec_step())
        &&& match event {
            Event::Matrix { levels, .. } => {
                &&& self.spec_current() == Some(
                    kept(before.spec_variant(), before.spec_step(), levels@),
                )
                &&& self.spec_rasters() == before.spec_rasters()
            },
            Event::Png(bytes) => {
                &&& self.spec_current() == before.spec_current()
                &&& before.spec_step() matches Step::Encode { stage }
                &&& self.spec_rasters() == before.spec_rasters().push(
                    (stage, data_url_text(bytes@)),
                )
            },
            Event::Failure(_) => false,
        }
    }

    /// This state is `before` aborted: nothing is pending, nothing is kept.
    pub open spec fn aborts(&self, before: &Pipeline) -> bool {
        &&& self.spec_variant() == before.spec_variant()
        &&& self.spec_grid() == before.spec_grid()
        &&& self.spec_step() == Step::Aborted
        &&& self.spec_current() is None
        &&& self.spec_rasters().len() == 0
    }

    /// Validates the grid and sets up a run. An empty, ragged or oversized
    /// grid is refused here, before any step exists.
    ///
    /// A flat grid has no linear rescaling. Its normalised matrix is defined
    /// to be all low, and the run starts with the encoding of that matrix;
    /// any other grid starts with the variant's normalisation.
    pub fn start(variant: Variant, rows: &Vec<Vec<u32>>) -> (result: Result<Pipeline, AnalysisError>)
        ensures
            match result {
                Ok(p) => {
                    &&& well_shaped(rows_of(rows@))
                    &&& p.wf()
                    &&& p.spec_variant() == variant
                    &&& p.spec_grid()@ == rows_of(rows@)
                    &&& p.spec_rasters().len() == 0
                    &&& if flat(p.spec_grid().spec_samples()) {
                        &&& p.spec_step() == Step::Encode { stage: Stage::Normalized }
                        &&& p.spec_current() matches Some(levels)
                        &&& levels.len() == p.spec_grid().spec_samples().len()
                        &&& forall|i: int| 0 <= i < levels.len() ==> levels[i] == LOW
                    } else {
                        &&& p.spec_step() == normalisation_of(variant)
                        &&& p.spec_current() is None
                    }
                },
                Err(error) => {
                    &&& !well_shaped(rows_of(rows@))
                    &&& error matches AnalysisError::Input(fault)
                    &&& refused_as(rows_of(rows@), fault)
                },
            },
    {
        let grid = match Grid::from_rows(rows) {
            Ok(grid) => grid,
            Err(fault) => {
                proof {
                    lemma_one_fault(rows_of(rows@), fault, fault);
                }
                return Err(AnalysisError::Input(fault));
            },
        };
        let is_flat: bool = match grid.extremes() {
            Some(e) => {
                proof {
                    lemma_extremes_unique(
                        grid.spec_samples(),
                        e.low as int,
                        e.high as int,
                    );
                }
                e.low >= e.high || e.low <= -(INFINITY_MAGNITUDE as i64) || e.high
                    >= INFINITY_MAGNITUDE as i64
            },
            None => true,
        };
        if is_flat {
            let m = Matrix::constant(&grid, LOW);
            let p = Pipeline {
                variant,
                grid,
                step: Step::Encode { stage: Stage::Normalized },
                current: Some(m),
                rasters: Vec::new(),
            };
            assert(p.spec_shown() =~= shown_before(variant, p.step));
            Ok(p)
        } else {
            let step = match variant {
                Variant::Preview => Step::Normalize { range: Range::Unit },
                Variant::Segmentation { .. } => Step::Normalize { range: Range::Byte },
            };
            let p = Pipeline { variant, grid, step, current: None, rasters: Vec::new() };
            assert(p.spec_shown() =~= shown_before(variant, p.step));
            Ok(p)
        }
    }

    /// The configured variant.
    pub fn variant(&self) -> (v: Variant)
        ensures
            v == self.spec_variant(),
    {
        self.variant
    }

    /// The grid under analysis.
    pub fn grid(&self) -> (g: &Grid)
        ensures
            *g == self.spec_grid(),
    {
        &self.grid
    }

    /// The step the host is asked to perform next.
    pub fn step(&self) -> (s: Step)
        ensures
            s == self.spec_step(),
    {
        self.step
    }

    /// The matrix the pending step works on: the input of a smoothing or a
    /// binarisation, and the matrix an encoding step renders.
    pub fn current(&self) -> (m: Option<&Matrix>)
        ensures
            match m {
                Some(m) => {
                    &&& self.spec_current() == Some(m@)
                    &&& self.wf() ==> m.wf() && m.shaped_like(&self.spec_grid())
                },
                None => {
                    &&& self.spec_current() is None
                    &&& self.wf() ==> !(self.spec_step() is Smooth || self.spec_step() is Binarize
                        || self.spec_step() is Encode)
                },
            },
    {
        self.current.as_ref()
    }

    fn abort(&mut self)
        requires
            old(self).wf(),
        ensures
            final(self).wf(),
            final(self).aborts(old(self)),
    {
        self.step = Step::Aborted;
        self.current = None;
        self.rasters = Vec::new();
        assert(self.spec_shown() =~= shown_before(self.variant, self.step));
    }

    /// Takes the outcome of the pending step.
    ///
    /// An admitted outcome moves the run to the next step, which is
    /// returned. A refused outcome or a reported failure aborts the run:
    /// the error is returned, no step remains and every raster collected so
    /// far is dropped. Once the run is finished or aborted, every event is
    /// out of turn and changes nothing.
    pub fn advance(&mut self, event: Event) -> (result: Result<Step, AnalysisError>)
        requires
            old(self).wf(),
        ensures
            final(self).wf(),
            match result {
                Ok(step) => {
                    &&& old(self).refusal(event) is None
                    &&& final(self).follows(old(self), event)
                    &&& step == final(self).spec_step()
                },
                Err(error) => {
                    &&& old(self).refusal(event) == Some(error)
                    &&& if old(self).active() {
                        final(self).aborts(old(self))
                    } else {
                        *final(self) == *old(self)
                    }
                },
            },
    {
        match self.step {
            Step::Finished | Step::Aborted => {
                return Err(AnalysisError::Processing(ProcessingFault::OutOfTurn));
            },
            _ => {},
        }
        match event {
            Event::Failure(text) => {
                self.abort();
                Err(AnalysisError::Processing(ProcessingFault::Backend(text)))
            },
            Event::Matrix { width, height, levels } => self.admit_matrix(width, height, levels),
            Event::Png(bytes) => self.admit_stream(bytes),
        }
    }

    fn admit_matrix(&mut self, width: usize, height: usize, levels: Vec<u8>) -> (result: Result<
        Step,
        AnalysisError,
    >)
        requires
            old(self).wf(),
            old(self).active(),
        ensures
            final(self).wf(),
            match result {
                Ok(step) => {
                    &&& old(self).refusal(Event::Matrix { width, height, levels }) is None
                    &&& final(self).follows(old(self), Event::Matrix { width, height, levels })
                    &&& step == final(self).spec_step()
                },
                Err(error) => {
                    &&& old(self).refusal(Event::Matrix { width, height, levels }) == Some(error)
                    &&& final(self).aborts(old(self))
                },
            },
    {
        match self.step {
            Step::Normalize { .. } | Step::Smooth { .. } | Step::Binarize => {},
            _ => {
                self.abort();
                return Err(AnalysisError::Processing(ProcessingFault::OutOfTurn));
            },
        }
        if width != self.grid.width() || height != self.grid.height() {
            self.abort();
            return Err(AnalysisError::Processing(ProcessingFault::Dimensions));
        }
        let ghost offered = levels@;
        let m = match Matrix::from_parts(width, height, levels) {
            Ok(m) => m,
            Err(_) => {
                self.abort();
                return Err(AnalysisError::Processing(ProcessingFault::Dimensions));
            },
        };
        match self.step {
            Step::Normalize { .. } => {
                if !holds_scale(&m, &self.grid) {
                    self.abort();
                    return Err(AnalysisError::Processing(ProcessingFault::OffScale));
                }
                if !holds_order(&m, &self.grid) {
                    self.abort();
                    return Err(AnalysisError::Processing(ProcessingFault::Disorder));
                }
                self.current = Some(m);
                self.step = Step::Encode { stage: Stage::Normalized };
            },
            Step::Smooth { kernel, border, .. } => {
                let slack: u8 = match self.variant {
                    Variant::Preview => 1,
                    Variant::Segmentation { .. } => 0,
                };
                let padded: bool = match border {
                    Border::Constant => true,
                    Border::Reflect => false,
                };
                let averaged: bool = match &self.current {
                    Some(source) => is_average_of(&m, source, kernel / 2, padded, slack),
                    None => false,
                };
                if !averaged {
                    self.abort();
                    return Err(AnalysisError::Processing(ProcessingFault::OffRange));
                }
                self.current = Some(m);
                self.step = Step::Encode { stage: Stage::Gaussian };
            },
            _ => {
                if !m.is_two_level() {
                    self.abort();
                    return Err(AnalysisError::Processing(ProcessingFault::NotBinary));
                }
                let cut: Option<u8> = match &self.current {
                    Some(source) => m.split_threshold(source),
                    None => None,
                };
                match cut {
                    Some(t) => {
                        assert(splits_at(old(self).spec_current()->0, offered, t));
                    },
                    None => {
                        self.abort();
                        return Err(AnalysisError::Processing(ProcessingFault::NotASplit));
                    },
                }
                let invert: bool = match self.variant {
                    Variant::Segmentation { invert } => invert,
                    Variant::Preview => false,
                };
                if invert {
                    proof {
                        crate::matrix::lemma_invert_binary(m@);
                    }
                    self.current = Some(m.invert());
                } else {
                    self.current = Some(m);
                }
                self.step = Step::Encode { stage: Stage::Threshold };
            },
        }
        assert(self.spec_shown() =~= shown_before(self.variant, self.step));
        Ok(self.step)
    }

    fn admit_stream(&mut self, bytes: Vec<u8>) -> (result: Result<Step, AnalysisError>)
        requires
            old(self).wf(),
            old(self).active(),
        ensures
            final(self).wf(),
            match result {
                Ok(step) => {
                    &&& old(self).refusal(Event::Png(bytes)) is None
                    &&& final(self).follows(old(self), Event::Png(bytes))
                    &&& step == final(self).spec_step()
                },
                Err(error) => {
                    &&& old(self).refusal(Event::Png(bytes)) == Some(error)
                    &&& final(self).aborts(old(self))
                },
            },
    {
        let stage: Stage = match self.step {
            Step::Encode { stage } => stage,
            _ => {
                self.abort();
                return Err(AnalysisError::Processing(ProcessingFault::OutOfTurn));
            },
        };
        let sized: bool = match image_size(&bytes) {
            Some((w, h)) => w as u64 == self.grid.width() as u64 && h as u64
                == self.grid.height() as u64,
            None => false,
        };
        if !sized {
            self.abort();
            return Err(AnalysisError::Processing(ProcessingFault::Raster));
        }
        let text = match data_url(&bytes) {
            Ok(text) => text,
            Err(fault) => {
                self.abort();
                return Err(AnalysisError::Encoding(fault));
            },
        };
        let next: Step = match stage {
            Stage::Normalized => match self.variant {
                Variant::Preview => Step::Smooth {
                    kernel: 5,
                    sigma: Sigma::One,
                    border: Border::Constant,
                },
                Variant::Segmentation { .. } => Step::Smooth {
                    kernel: 3,
                    sigma: Sigma::Derived,
                    border: Border::Reflect,
                },
            },
            Stage::Gaussian => match self.variant {
                Variant::Preview => Step::Finished,
                Variant::Segmentation { .. } => Step::Binarize,
            },
            Stage::Threshold => Step::Finished,
        };
        let ghost before = self.spec_rasters();
        let ghost shown = self.spec_shown();
        self.rasters.push((stage, text));
        self.step = next;
        proof {
            assert(self.spec_rasters() =~= before.push((stage, data_url_text(bytes@))));
            assert(self.spec_shown() =~= shown.push(stage));
            assert(shown.push(stage) =~= shown_before(self.variant, next));
        }
        Ok(next)
    }

    /// Ends the run. The result set is handed out only when every stage of
    /// the variant is done; it then holds one raster per stage of the
    /// variant, in the order of the stages. An unfinished or aborted run
    /// hands out nothing.
    pub fn finish(self) -> (result: Result<ResultSet, AnalysisError>)
        requires
            self.wf(),
        ensures
            match result {
                Ok(set) => {
                    &&& self.spec_step() == Step::Finished
                    &&& set@ == self.spec_rasters()
                    &&& set@.len() == stages_of(self.spec_variant()).len()
                    &&& forall|i: int|
                        0 <= i < set@.len() ==> (#[trigger] set@[i]).0 == stages_of(
                            self.spec_variant(),
                        )[i]
                },
                Err(error) => {
                    &&& self.spec_step() != Step::Finished
                    &&& error == AnalysisError::Processing(ProcessingFault::Unfinished)
                },
            },
    {
        match self.step {
            Step::Finished => {
                let set = ResultSet { entries: self.rasters };
                proof {
                    assert(set@ =~= self.spec_rasters());
                    assert forall|i: int| 0 <= i < set@.len() implies (#[trigger] set@[i]).0
                        == stages_of(self.variant)[i] by {
                        assert(self.spec_shown()[i] == self.spec_rasters()[i].0);
                    }
                }
                Ok(set)
            },
            _ => Err(AnalysisError::Processing(ProcessingFault::Unfinished)),
        }
    }

    /// In every state the matrix at hand, if there is one, has the width
    /// and the height of the grid: no stage changes the dimensions.
    pub proof fn lemma_dimensions_kept(&self)
        requires
            self.wf(),
        ensures
            self.spec_grid().wf(),
            self.spec_current() matches Some(levels) ==> levels.len()
                == self.spec_grid().spec_height() * self.spec_grid().spec_width(),
            self.spec_step() is Smooth || self.spec_step() is Binarize || self.spec_step()
                is Encode ==> self.spec_current() is Some,
    {
    }

    /// While the normalised matrix awaits encoding it is all low where the
    /// grid is flat. Otherwise every level is the floor or the ceiling of
    /// its sample's place on the grid's scale, no two levels reverse the
    /// order of their samples, and so the matrix holds the low bound
    /// wherever the grid holds its least number and the high bound wherever
    /// it holds its greatest.
    pub proof fn lemma_normalised_extremes(&self)
        requires
            self.wf(),
            self.spec_step() == (Step::Encode { stage: Stage::Normalized }),
        ensures
            self.spec_current() matches Some(levels) && if flat(
                self.spec_grid().spec_samples(),
            ) {
                forall|i: int| 0 <= i < levels.len() ==> levels[i] == LOW
            } else {
                &&& keeps_scale(self.spec_grid().spec_samples(), levels)
                &&& keeps_order(self.spec_grid().spec_samples(), levels)
                &&& keeps_extremes(self.spec_grid().spec_samples(), levels)
            },
    {
        if !flat(self.spec_grid().spec_samples()) {
            lemma_scale_keeps_extremes(self.spec_grid().spec_samples(), self.spec_current()->0);
        }
    }

    /// While the binarised matrix awaits encoding it holds nothing but the
    /// two sentinels, inverted or not.
    pub proof fn lemma_binarised_levels(&self)
        requires
            self.wf(),
            self.spec_step() == (Step::Encode { stage: Stage::Threshold }),
        ensures
            self.spec_current() matches Some(levels) && is_binary(levels),
    {
    }

    /// The rasters collected are always those of the stages that precede
    /// the pending step, in order; an aborted run holds none.
    pub proof fn lemma_rasters_in_order(&self)
        requires
            self.wf(),
        ensures
            self.spec_shown() == shown_before(self.spec_variant(), self.spec_step()),
            reachable(self.spec_variant(), self.spec_step()),
            self.spec_step() is Normalize ==> !flat(self.spec_grid().spec_samples()),
    {
    }

    /// A run is a function of its events: two pipelines that follow the
    /// same state on the same admitted event agree in the pending step, the
    /// matrix at hand and the rasters collected.
    pub proof fn lemma_same_events_same_state(
        &self,
        other: &Pipeline,
        before: &Pipeline,
        event: Event,
    )
        requires
            self.follows(before, event),
            other.follows(before, event),
        ensures
            self.spec_variant() == other.spec_variant(),
            self.spec_grid() == other.spec_grid(),
            self.spec_step() == other.spec_step(),
            self.spec_current() == other.spec_current(),
            self.spec_rasters() == other.spec_rasters(),
    {
    }
}

} // verus!
