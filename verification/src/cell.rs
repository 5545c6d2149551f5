//! The two closed variants of the engine: the state of one board cell, and
//! the four directional commands.

use vstd::prelude::*;

verus! {

/// The state of one grid cell: free space, an immovable wall, or a particle.
#[derive(Clone, Copy, PartialEq, Eq, Structural, Debug)]
pub enum Cell {
    Empty,
    Wall,
    Particle,
}

/// A directional command selecting which step algorithm runs.
#[derive(Clone, Copy, PartialEq, Eq, Structural, Debug)]
pub enum Move {
    Left,
    Right,
    Up,
    Down,
}

/// What `reverse` does to a single cell: walls are kept, the other two
/// states are swapped.
pub open spec fn rev_cell(c: Cell) -> Cell {
    match c {
        Cell::Empty => Cell::Particle,
        Cell::Particle => Cell::Empty,
        Cell::Wall => Cell::Wall,
    }
}

} // verus!
