//! Map-matching and segment interpolation for a public-transit line:
//! reconcile fragmented route geometry into contiguous chains, project
//! known stops onto it, select consistent vehicle runs, aggregate their
//! timings into one canonical junction ordering per stop pair, and place
//! each junction on the geometry at its relative position.
//!
//! The library works on plain integer values throughout: positions in
//! microdegrees, distances in millimeters, times in seconds. Geodesic
//! measurements are data to it — the surrounding program measures with a
//! geometry crate and hands the numbers in — so every decision made on
//! them is verified.

use vstd::prelude::*;

pub mod aggregate;
pub mod geometry;
pub mod glue;
pub mod graph;
pub mod ids;
pub mod orient;
pub mod project;
pub mod r09;
pub mod reconcile;
pub mod refstops;
pub mod runs;
pub mod segmentize;
pub mod segments;
pub mod selector;

pub use ids::{Direction, Id, Junction, Line, LineRun, Run};

verus! {

/// The default tolerance, in millimeters, within which a known stop is
/// accepted as projecting onto route geometry.
pub const PROJECTION_TOLERANCE_MM: u64 = 30_000;

/// One line's final output: its display name and, per reconciled
/// fragment, the ordered result segments.
#[derive(Debug)]
pub struct ResultSegments {
    pub line: String,
    pub segments: Vec<Vec<crate::segmentize::ResultSegment>>,
}

} // verus!
