//! A construction-takeoff measurement engine.
//!
//! Drawings come in as pixel-space geometry; a per-region scale says how many
//! pixels equal one real-world unit. The library converts pixel measurements
//! into unit-aware lengths, areas and volumes, reconstructs elevation surfaces
//! from contour data, and integrates cut/fill volumes against reference
//! surfaces.
//!
//! All geometry is carried in exact arithmetic: pixel coordinates are
//! integers, derived quantities are exact fractions, and segment lengths are
//! fixed-point values pinned to the integer square root of the squared
//! distance. Every public operation states its result exactly.

pub mod contour;
pub mod error;
pub mod frac;
pub mod group;
pub mod geometry;
pub mod measurement;
pub mod scale;
pub mod simplify;
pub mod volume;
pub mod unit;

