//! Error kinds of the analysis, and the message each one is surfaced with.

use vstd::prelude::*;
use vstd::string::StringExecFns;

verus! {

/// Why a grid was refused before any numeric stage ran.
#[derive(Debug, Clone, Copy, PartialEq, Eq, Structural)]
pub enum InputFault {
    /// The grid has no rows.
    NoRows,
    /// The first row has no columns.
    NoColumns,
    /// `row` is the first row whose length differs from that of row 0.
    Ragged { row: usize },
    /// A dimension exceeds [`crate::grid::MAX_DIMENSION`], or the number of
    /// cells does not fit the machine word.
    TooLarge,
}

/// Why a stage result was refused, or what the back end reported.
#[derive(Debug, PartialEq, Eq)]
pub enum ProcessingFault {
    /// The back end failed; its own message is carried verbatim.
    Backend(String),
    /// An event arrived that the pending step does not expect.
    OutOfTurn,
    /// A matrix does not have the dimensions of the grid, or its buffer does
    /// not hold width times height levels.
    Dimensions,
    /// A normalised matrix holds a level that is neither the floor nor the
    /// ceiling of its sample's place on the grid's scale.
    OffScale,
    /// A normalised matrix sends the greater of two samples to the lower
    /// level.
    Disorder,
    /// A smoothed matrix holds a level outside the range of the cells its
    /// kernel covers.
    OffRange,
    /// A binarised matrix holds a level other than the two sentinels.
    NotBinary,
    /// A binarised matrix is not a threshold split of its source.
    NotASplit,
    /// Encoded bytes are not a PNG stream of the matrix's dimensions.
    Raster,
    /// The result set was asked for before the last stage was done.
    Unfinished,
}

/// Why the textual encoding of a raster failed.
#[derive(Debug, Clone, Copy, PartialEq, Eq, Structural)]
pub enum EncodingFault {
    /// The base64 text of the stream would not fit the machine word.
    TooLong,
}

/// Every failure the analysis can surface.
#[derive(Debug, PartialEq, Eq)]
pub enum AnalysisError {
    /// The grid is empty, ragged or too large.
    Input(InputFault),
    /// The table could not be read; the loader's message is carried verbatim.
    Load(String),
    /// A numeric stage or the raster codec produced no valid result.
    Processing(ProcessingFault),
    /// A raster could not be turned into inline text.
    Encoding(EncodingFault),
}

/// The message of an input fault.
pub open spec fn input_message(fault: InputFault) -> Seq<char> {
    match fault {
        InputFault::NoRows => "input error: the grid has no rows"@,
        InputFault::NoColumns => "input error: the grid has no columns"@,
        InputFault::Ragged { .. } => "input error: the grid's rows differ in length"@,
        InputFault::TooLarge => "input error: the grid is too large"@,
    }
}

/// The message of a processing fault; a back-end failure speaks for itself.
pub open spec fn processing_message(fault: ProcessingFault) -> Seq<char> {
    match fault {
        ProcessingFault::Backend(text) => text@,
        ProcessingFault::OutOfTurn => "processing error: result offered out of turn"@,
        ProcessingFault::Dimensions => "processing error: matrix dimensions do not match the grid"@,
        ProcessingFault::OffScale => "processing error: normalised level off the grid's scale"@,
        ProcessingFault::Disorder => "processing error: normalised levels reverse the samples' order"@,
        ProcessingFault::OffRange => "processing error: smoothed level outside its neighbourhood's range"@,
        ProcessingFault::NotBinary => "processing error: binarised matrix holds a third level"@,
        ProcessingFault::NotASplit => "processing error: binarised matrix does not split its source"@,
        ProcessingFault::Raster => "processing error: raster is not a PNG of the matrix's size"@,
        ProcessingFault::Unfinished => "processing error: the run did not finish"@,
    }
}

/// The message of an encoding fault.
pub open spec fn encoding_message(fault: EncodingFault) -> Seq<char> {
    match fault {
        EncodingFault::TooLong => "encoding error: raster too long for inline text"@,
    }
}

/// The single descriptive message an error is surfaced with.
pub open spec fn message_text(error: AnalysisError) -> Seq<char> {
    match error {
        AnalysisError::Input(fault) => input_message(fault),
        AnalysisError::Load(text) => text@,
        AnalysisError::Processing(fault) => processing_message(fault),
        AnalysisError::Encoding(fault) => encoding_message(fault),
    }
}

impl AnalysisError {
    /// The message this error is surfaced with at the command boundary.
    pub fn message(&self) -> (text: String)
        ensures
            text@ == message_text(*self),
    {
        match self {
            AnalysisError::Input(fault) => match fault {
                InputFault::NoRows => String::from_str("input error: the grid has no rows"),
                InputFault::NoColumns => String::from_str("input error: the grid has no columns"),
                InputFault::Ragged { .. } => String::from_str(
                    "input error: the grid's rows differ in length",
                ),
                InputFault::TooLarge => String::from_str("input error: the grid is too large"),
            },
            AnalysisError::Load(text) => text.clone(),
            AnalysisError::Processing(fault) => match fault {
                ProcessingFault::Backend(text) => text.clone(),
                ProcessingFault::OutOfTurn => String::from_str(
                    "processing error: result offered out of turn",
                ),
                ProcessingFault::Dimensions => String::from_str(
                    "processing error: matrix dimensions do not match the grid",
                ),
                ProcessingFault::OffScale => String::from_str(
                    "processing error: normalised level off the grid's scale",
                ),
                ProcessingFault::Disorder => String::from_str(
                    "processing error: normalised levels reverse the samples' order",
                ),
                ProcessingFault::OffRange => String::from_str(
                    "processing error: smoothed level outside its neighbourhood's range",
                ),
                ProcessingFault::NotBinary => String::from_str(
                    "processing error: binarised matrix holds a third level",
                ),
                ProcessingFault::NotASplit => String::from_str(
                    "processing error: binarised matrix does not split its source",
                ),
                ProcessingFault::Raster => String::from_str(
                    "processing error: raster is not a PNG of the matrix's size",
                ),
                ProcessingFault::Unfinished => String::from_str(
                    "processing error: the run did not finish",
                ),
            },
            AnalysisError::Encoding(fault) => match fault {
                EncodingFault::TooLong => String::from_str(
                    "encoding error: raster too long for inline text",
                ),
            },
        }
    }
}

} // verus!
