use vstd::prelude::*;

verus! {

/// Identifier of a transit line.
#[derive(Clone, Copy, Debug, PartialEq, Eq, Structural, Hash)]
pub struct Line(pub u16);

/// Identifier of one vehicle run (trip) on a line.
#[derive(Clone, Copy, Debug, PartialEq, Eq, Structural, Hash)]
pub struct Run(pub u16);

/// Opaque identifier of a detector junction on the network.
#[derive(Clone, Copy, Debug, PartialEq, Eq, Structural, Hash)]
pub struct Junction(pub u32);

/// Direction request code carried by a telegram.
#[derive(Clone, Copy, Debug, PartialEq, Eq, Structural, Hash)]
pub struct Direction(pub u32);

/// Stable identity of a waypoint in imported route geometry.
#[derive(Clone, Copy, Debug, PartialEq, Eq, Structural, Hash)]
pub struct Id(pub u64);

/// Identifies one vehicle trip: a (line, run) pair.
#[derive(Clone, Copy, Debug, PartialEq, Eq, Structural, Hash)]
pub struct LineRun {
    pub line: Line,
    pub run: Run,
}

} // verus!
