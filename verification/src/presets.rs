//! The named preset layouts: literal, fixed assignments of every cell on a
//! ten-by-ten board, each wrapped by an outer ring of walls.

use vstd::prelude::*;

use crate::cell::Cell;
use crate::grid::Grid;

verus! {

/// The side length shared by the shipped preset boards.
pub const GRID_SIZE: usize = 10;

/// Whether `(i, j)` lies on the outer ring of a ten-by-ten board.
pub open spec fn on_ring(i: int, j: int) -> bool {
    i == 0 || i == 9 || j == 0 || j == 9
}

/// The cell the three-particle preset assigns to `(i, j)`: the wall ring,
/// one more wall at (8, 4), and particles at (2, 2), (5, 4) and (8, 3).
pub open spec fn three_particule_cell(i: int, j: int) -> Cell {
    if on_ring(i, j) || (i == 8 && j == 4) {
        Cell::Wall
    } else if (i == 2 && j == 2) || (i == 5 && j == 4) || (i == 8 && j == 3) {
        Cell::Particle
    } else {
        Cell::Empty
    }
}

/// The three-particle preset board.
pub open spec fn three_particule_layout() -> Seq<Seq<Cell>> {
    Seq::new(10, |i: int| Seq::new(10, |j: int| three_particule_cell(i, j)))
}

/// The cell the maze-like one-particle preset assigns to `(i, j)`: the wall
/// ring, a set of internal walls, and a single particle at (5, 4).
pub open spec fn one_particule_cell(i: int, j: int) -> Cell {
    if on_ring(i, j) || (i == 1 && j == 2) || (i == 2 && (j == 5 || j == 6)) || (i == 3 && (j == 1
        || j == 2 || j == 3 || j == 8)) || (i == 5 && j == 2) || (i == 6 && (j == 2 || j == 7 || j
        == 8)) || (i == 7 && j == 4) || (i == 8 && j == 4) {
        Cell::Wall
    } else if i == 5 && j == 4 {
        Cell::Particle
    } else {
        Cell::Empty
    }
}

/// The one-particle preset board.
pub open spec fn one_particule_layout() -> Seq<Seq<Cell>> {
    Seq::new(10, |i: int| Seq::new(10, |j: int| one_particule_cell(i, j)))
}

/// The cell the open preset assigns to `(i, j)`: only the wall ring and a
/// single particle at (5, 4).
pub open spec fn four_particule_cell(i: int, j: int) -> Cell {
    if on_ring(i, j) {
        Cell::Wall
    } else if i == 5 && j == 4 {
        Cell::Particle
    } else {
        Cell::Empty
    }
}

/// The open preset board.
pub open spec fn four_particule_layout() -> Seq<Seq<Cell>> {
    Seq::new(10, |i: int| Seq::new(10, |j: int| four_particule_cell(i, j)))
}

/// The cell of the three-particle preset at `(i, j)`.
fn three_particule_cell_at(i: usize, j: usize) -> (c: Cell)
    requires
        i < 10,
        j < 10,
    ensures
        c == three_particule_cell(i as int, j as int),
{
    if i == 0 || i == 9 || j == 0 || j == 9 || (i == 8 && j == 4) {
        Cell::Wall
    } else if (i == 2 && j == 2) || (i == 5 && j == 4) || (i == 8 && j == 3) {
        Cell::Particle
    } else {
        Cell::Empty
    }
}

/// The cell of the one-particle preset at `(i, j)`.
fn one_particule_cell_at(i: usize, j: usize) -> (c: Cell)
    requires
        i < 10,
        j < 10,
    ensures
        c == one_particule_cell(i as int, j as int),
{
    if i == 0 || i == 9 || j == 0 || j == 9 || (i == 1 && j == 2) || (i == 2 && (j == 5 || j == 6))
        || (i == 3 && (j == 1 || j == 2 || j == 3 || j == 8)) || (i == 5 && j == 2) || (i == 6 && (j
        == 2 || j == 7 || j == 8)) || (i == 7 && j == 4) || (i == 8 && j == 4) {
        Cell::Wall
    } else if i == 5 && j == 4 {
        Cell::Particle
    } else {
        Cell::Empty
    }
}

/// The cell of the open preset at `(i, j)`.
fn four_particule_cell_at(i: usize, j: usize) -> (c: Cell)
    requires
        i < 10,
        j < 10,
    ensures
        c == four_particule_cell(i as int, j as int),
{
    if i == 0 || i == 9 || j == 0 || j == 9 {
        Cell::Wall
    } else if i == 5 && j == 4 {
        Cell::Particle
    } else {
        Cell::Empty
    }
}

impl Grid {
    /// The preset with particles at (2, 2), (5, 4) and (8, 3) and one
    /// internal wall beside the lowest particle.
    pub fn simple_three_particule() -> (g: Grid)
        ensures
            g.wf(),
            g@ == three_particule_layout(),
    {
        let mut cells: Vec<Vec<Cell>> = Vec::new();
        let mut i: usize = 0;
        while i < GRID_SIZE
            invariant
                i <= 10,
                cells@.len() == i,
                forall|r: int|
                    0 <= r < i ==> (#[trigger] cells@[r])@ == three_particule_layout()[r],
            decreases 10 - i,
        {
            let mut row: Vec<Cell> = Vec::new();
            let mut j: usize = 0;
            while j < GRID_SIZE
                invariant
                    i < 10,
                    j <= 10,
                    row@.len() == j,
                    forall|c: int| 0 <= c < j ==> row@[c] == three_particule_cell(i as int, c),
                decreases 10 - j,
            {
                row.push(three_particule_cell_at(i, j));
                j += 1;
            }
            proof {
                assert(row@ =~= three_particule_layout()[i as int]);
            }
            cells.push(row);
            i += 1;
        }
        let ghost rows = cells@;
        let g = Grid::from_cells(cells);
        proof {
            assert forall|r: int| 0 <= r < 10 implies g@[r] == three_particule_layout()[r] by {
                assert(g@[r] == rows[r]@);
            }
            assert(g@ =~= three_particule_layout());
        }
        g
    }

    /// The maze-like preset: internal walls and a single particle at (5, 4).
    pub fn simple_one_particule() -> (g: Grid)
        ensures
            g.wf(),
            g@ == one_particule_layout(),
    {
        let mut cells: Vec<Vec<Cell>> = Vec::new();
        let mut i: usize = 0;
        while i < GRID_SIZE
            invariant
                i <= 10,
                cells@.len() == i,
                forall|r: int| 0 <= r < i ==> (#[trigger] cells@[r])@ == one_particule_layout()[r],
            decreases 10 - i,
        {
            let mut row: Vec<Cell> = Vec::new();
            let mut j: usize = 0;
            while j < GRID_SIZE
                invariant
                    i < 10,
                    j <= 10,
                    row@.len() == j,
                    forall|c: int| 0 <= c < j ==> row@[c] == one_particule_cell(i as int, c),
                decreases 10 - j,
            {
                row.push(one_particule_cell_at(i, j));
                j += 1;
            }
            proof {
                assert(row@ =~= one_particule_layout()[i as int]);
            }
            cells.push(row);
            i += 1;
        }
        let ghost rows = cells@;
        let g = Grid::from_cells(cells);
        proof {
            assert forall|r: int| 0 <= r < 10 implies g@[r] == one_particule_layout()[r] by {
                assert(g@[r] == rows[r]@);
            }
            assert(g@ =~= one_particule_layout());
        }
        g
    }

    /// The open preset: no internal walls and a single particle at (5, 4).
    pub fn complex_four_particule() -> (g: Grid)
        ensures
            g.wf(),
            g@ == four_particule_layout(),
    {
        let mut cells: Vec<Vec<Cell>> = Vec::new();
        let mut i: usize = 0;
        while i < GRID_SIZE
            invariant
                i <= 10,
                cells@.len() == i,
                forall|r: int| 0 <= r < i ==> (#[trigger] cells@[r])@ == four_particule_layout()[r],
            decreases 10 - i,
        {
            let mut row: Vec<Cell> = Vec::new();
            let mut j: usize = 0;
            while j < GRID_SIZE
                invariant
                    i < 10,
                    j <= 10,
                    row@.len() == j,
                    forall|c: int| 0 <= c < j ==> row@[c] == four_particule_cell(i as int, c),
                decreases 10 - j,
            {
                row.push(four_particule_cell_at(i, j));
                j += 1;
            }
            proof {
                assert(row@ =~= four_particule_layout()[i as int]);
            }
            cells.push(row);
            i += 1;
        }
        let ghost rows = cells@;
        let g = Grid::from_cells(cells);
        proof {
            assert forall|r: int| 0 <= r < 10 implies g@[r] == four_particule_layout()[r] by {
                assert(g@[r] == rows[r]@);
            }
            assert(g@ =~= four_particule_layout());
        }
        g
    }
}

} // verus!
