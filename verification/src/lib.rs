//! An interactive Chaikin corner-cutting curve demo, split into a verified
//! core and a thin platform shell.
//!
//! The core holds two parts: a curve model ([`model::ChaikinCurve`]) that owns
//! the control points, the selection state and the precomputed subdivision
//! levels of the animation, and a software rasterizer ([`raster`]) that plots
//! points, filled disks and Bresenham lines into a raw pixel buffer with
//! silent clipping.
//!
//! Coordinates are exact fixed-point integers: [`geometry::COORD_UNIT`]
//! subunits per pixel. The unit is `4^7`, so the seven precomputed Chaikin
//! passes, each of which divides by four, are exact on integer-pixel input.

pub mod geometry;
pub mod model;
pub mod raster;
