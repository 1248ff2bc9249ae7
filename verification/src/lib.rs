//! Verified core of a grid-analysis pipeline.
//!
//! A rectangular grid of single-precision measurements is normalised,
//! smoothed, optionally binarised, and every stage is rendered as an inline
//! PNG image. The floating-point and image-codec work is done by a numeric
//! back end that lives outside this crate. The crate decides what the back
//! end is asked to do, admits each result only after checking the stage's
//! contract on it, and assembles the named rasters:
//!
//! - [`grid`] validates the input: rectangular, not empty, within limits.
//! - [`sample`] reads measurements as IEEE-754 binary32 bit patterns, so
//!   that everything decided about them is a statement about integers;
//!   [`wide`] holds the integers that takes.
//! - [`scale`], [`window`] and [`matrix`] decide whether a matrix can be the
//!   normalisation of a grid, the smoothing of a matrix, the binarisation of
//!   a matrix; [`matrix`] also inverts.
//! - [`png`] and [`raster`] check an encoded stream and render it inline.
//! - [`pipeline`] sequences the stages and collects the result set.
//! - [`table`] splits a delimited table into the fields of a grid.
//! - [`error`] names every failure and its message.

pub mod error;
pub mod sample;
pub mod wide;
pub mod grid;
pub mod matrix;
pub mod scale;
pub mod window;
pub mod png;
pub mod raster;
pub mod pipeline;
pub mod table;
