//! Star catalog coordinate pipeline.
//!
//! Parses sexagesimal right-ascension/declination strings from astronomical
//! catalog rows, reconciles multiple coordinate-system readings per star into
//! one averaged equatorial coordinate, and assembles the resolved stars.
//!
//! All angles are held in fixed point: the unit is the micro-arcsecond
//! (3_600_000_000 per degree), so every conversion between sexagesimal
//! components and decimal angles is exact. Distances and parallaxes are held
//! in thousandths of their unit. Conversion to radians, and the trigonometric
//! spherical-to-Cartesian transform, are left to the calling application.

pub mod angle;
pub mod coord;
pub mod parse;
pub mod catalog;
