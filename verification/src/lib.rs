//! Straight-line detection in raster images with the Hough transform.
//!
//! Every edge pixel of an image votes, for every angle `theta`, for the line
//! through it whose normal stands at that angle; a line is named by `theta`
//! and by its distance `rho` from the origin. The cells of the accumulator
//! with enough votes are turned back into line segments and clipped to the
//! image.
//!
//! All arithmetic is exact: angles and distances are fixed-point numbers,
//! quotients are rounded to the nearest integer with ties away from zero, and
//! clipping works on fractions.
//!
//! - [`edge`]: which pixels vote.
//! - [`trig`], [`fixed`], [`rounding`]: sine, cosine and rounding.
//! - [`geometry`]: the distance `rho` and the bin of the rho axis it falls into.
//! - [`accumulator`], [`transform`]: the grid of votes and how it is filled.
//! - [`reconstruct`]: from a cell back to a line.
//! - [`clip`]: the part of a line inside a rectangle.
//! - [`render`]: what is drawn from an accumulator.

pub mod accumulator;
pub mod clip;
pub mod edge;
pub mod fixed;
pub mod geometry;
pub mod reconstruct;
pub mod render;
pub mod rounding;
pub mod transform;
pub mod trig;
