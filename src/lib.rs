//! Blending of cubic Bézier curves chosen by similarity, with weights taken
//! from a pointer position constrained to a convex polygon.
//!
//! Coordinates are fixed-point integers: one unit of the drawing plane is
//! `point::UNIT` steps, so all arithmetic below is exact.
pub mod point;
pub mod bezier_curve;
pub mod similarity;
pub mod polygon;
pub mod weights;
pub mod interpolation;
pub mod database;
