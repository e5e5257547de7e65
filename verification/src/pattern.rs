//! Settings enums for stamping a pattern along a path.  The placement
//! algorithm itself lives with the renderer; these are the choices a
//! caller makes about how many copies to place and how the pattern is
//! subdivided before warping.

use vstd::prelude::*;

verus! {

/// How many copies of the pattern are placed along the path.
#[derive(Clone, Copy, Debug, PartialEq, Eq, Structural)]
pub enum PatternCopies {
    /// One copy, stretched or anchored by the other settings.
    Single,
    /// As many copies as fit the path's arc length.
    Repeated,
    /// Exactly this many copies.
    Fixed(usize),
}

/// How the pattern is subdivided before being warped onto the path.
#[derive(Clone, Copy, Debug, PartialEq, Eq, Structural)]
pub enum PatternSubdivide {
    /// No subdivision.
    Off,
    /// Split every curve at its midpoint this many times.
    Simple(usize),
}

} // verus!
