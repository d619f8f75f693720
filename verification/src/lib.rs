//! Procedural generation of a 2D dungeon layout: rectangular rooms joined by
//! straight corridors, carved into a sparse grid of cells. Candidate features
//! are validated against the grid's current state and, only if valid,
//! committed by writing their cells.

pub mod feature;
pub mod grid;

use vstd::prelude::*;

verus! {

/// An integer coordinate on the grid. Ordering, where one is needed, is
/// row-major: compare `y` first, then `x`.
#[derive(Clone, Copy, PartialEq, Eq, Structural, Debug)]
pub struct Point {
    pub x: i32,
    pub y: i32,
}

impl Point {
    /// Row-major comparison: `y` decides first; within a row, `x` decides.
    /// Equality requires both components to be equal.
    pub open spec fn row_major_cmp(self, other: Point) -> core::cmp::Ordering {
        if self.y < other.y {
            core::cmp::Ordering::Less
        } else if self.y == other.y {
            if self.x < other.x {
                core::cmp::Ordering::Less
            } else if self.x == other.x {
                core::cmp::Ordering::Equal
            } else {
                core::cmp::Ordering::Greater
            }
        } else {
            core::cmp::Ordering::Greater
        }
    }
}

impl PartialOrd for Point {
    fn partial_cmp(&self, other: &Point) -> (r: Option<core::cmp::Ordering>) {
        if self.y < other.y {
            Some(core::cmp::Ordering::Less)
        } else if self.y == other.y {
            if self.x < other.x {
                Some(core::cmp::Ordering::Less)
            } else if self.x == other.x {
                Some(core::cmp::Ordering::Equal)
            } else {
                Some(core::cmp::Ordering::Greater)
            }
        } else {
            Some(core::cmp::Ordering::Greater)
        }
    }
}

impl vstd::std_specs::cmp::PartialOrdSpecImpl for Point {
    open spec fn obeys_partial_cmp_spec() -> bool {
        true
    }

    open spec fn partial_cmp_spec(&self, other: &Point) -> Option<core::cmp::Ordering> {
        Some(self.row_major_cmp(*other))
    }
}

} // verus!
