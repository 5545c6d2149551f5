//! The board: a square matrix of cells, mutated in place by the four
//! directional step operations and by `reverse`.

use vstd::prelude::*;

use crate::cell::{rev_cell, Cell, Move};
use crate::slide::{
    row_after_high, row_after_low, scan_high, scan_low, shift_high, shift_low,
    lemma_scan_high_is_after, lemma_scan_low_is_after,
};

verus! {

/// A board is well formed when it is square: every row is as long as the
/// list of rows.
pub open spec fn grid_wf(g: Seq<Seq<Cell>>) -> bool {
    forall|i: int| 0 <= i < g.len() ==> (#[trigger] g[i]).len() == g.len()
}

/// Column `j` of the board, read top to bottom.
pub open spec fn col(g: Seq<Seq<Cell>>, j: int) -> Seq<Cell> {
    Seq::new(g.len(), |i: int| g[i][j])
}

/// The board after one step to the left: every row slides toward lower
/// column indices.
pub open spec fn grid_left(g: Seq<Seq<Cell>>) -> Seq<Seq<Cell>> {
    Seq::new(g.len(), |i: int| row_after_low(g[i]))
}

/// The board after one step to the right: every row slides toward higher
/// column indices.
pub open spec fn grid_right(g: Seq<Seq<Cell>>) -> Seq<Seq<Cell>> {
    Seq::new(g.len(), |i: int| row_after_high(g[i]))
}

/// The board after one step up: every column slides toward lower row
/// indices.
pub open spec fn grid_up(g: Seq<Seq<Cell>>) -> Seq<Seq<Cell>> {
    Seq::new(g.len(), |i: int| Seq::new(g.len(), |j: int| row_after_low(col(g, j))[i]))
}

/// The board after one step down: every column slides toward higher row
/// indices.
pub open spec fn grid_down(g: Seq<Seq<Cell>>) -> Seq<Seq<Cell>> {
    Seq::new(g.len(), |i: int| Seq::new(g.len(), |j: int| row_after_high(col(g, j))[i]))
}

/// The board after one step in the commanded direction.
pub open spec fn step_spec(g: Seq<Seq<Cell>>, m: Move) -> Seq<Seq<Cell>> {
    match m {
        Move::Left => grid_left(g),
        Move::Right => grid_right(g),
        Move::Up => grid_up(g),
        Move::Down => grid_down(g),
    }
}

/// The board after `reverse`: every cell toggled by `rev_cell`.
pub open spec fn reverse_spec(g: Seq<Seq<Cell>>) -> Seq<Seq<Cell>> {
    Seq::new(g.len(), |i: int| Seq::new(g[i].len(), |j: int| rev_cell(g[i][j])))
}

/// Overwriting one cell of a square board rewrites exactly one position of
/// exactly one column and leaves every other row and column as it was.
pub proof fn lemma_col_update(g: Seq<Seq<Cell>>, i: int, j: int, x: Cell)
    requires
        grid_wf(g),
        0 <= i < g.len(),
        0 <= j < g.len(),
    ensures
        grid_wf(g.update(i, g[i].update(j, x))),
        col(g.update(i, g[i].update(j, x)), j) == col(g, j).update(i, x),
        forall|c: int|
            0 <= c < g.len() && c != j ==> col(g.update(i, g[i].update(j, x)), c) == col(g, c),
{
    let g2 = g.update(i, g[i].update(j, x));
    assert(col(g2, j) =~= col(g, j).update(i, x));
    assert forall|c: int| 0 <= c < g.len() && c != j implies col(g2, c) == col(g, c) by {
        assert(col(g2, c) =~= col(g, c));
    }
}

/// The square grid of cells forming the puzzle state.
pub struct Grid {
    cells: Vec<Vec<Cell>>,
}

impl View for Grid {
    type V = Seq<Seq<Cell>>;

    closed spec fn view(&self) -> Seq<Seq<Cell>> {
        self.cells@.map_values(|r: Vec<Cell>| r@)
    }
}

impl Grid {
    /// The board is square.
    pub open spec fn wf(self) -> bool {
        grid_wf(self@)
    }

    /// Wraps a square matrix of cells as a board.
    pub fn from_cells(cells: Vec<Vec<Cell>>) -> (g: Grid)
        requires
            forall|i: int| 0 <= i < cells@.len() ==> (#[trigger] cells@[i])@.len() == cells@.len(),
        ensures
            g.wf(),
            g@.len() == cells@.len(),
            forall|i: int| 0 <= i < cells@.len() ==> g@[i] == (#[trigger] cells@[i])@,
    {
        let g = Grid { cells };
        g
    }

    /// An `n` by `n` board of empty cells.
    pub fn new_empty(n: usize) -> (g: Grid)
        ensures
            g.wf(),
            g@.len() == n,
            forall|i: int, j: int| 0 <= i < n && 0 <= j < n ==> g@[i][j] == Cell::Empty,
    {
        let mut cells: Vec<Vec<Cell>> = Vec::new();
        let mut i: usize = 0;
        while i < n
            invariant
                i <= n,
                cells@.len() == i,
                forall|r: int| 0 <= r < i ==> (#[trigger] cells@[r])@.len() == n,
                forall|r: int, c: int|
                    0 <= r < i && 0 <= c < n ==> #[trigger] cells@[r]@[c] == Cell::Empty,
            decreases n - i,
        {
            let mut row: Vec<Cell> = Vec::new();
            let mut j: usize = 0;
            while j < n
                invariant
                    j <= n,
                    row@.len() == j,
                    forall|c: int| 0 <= c < j ==> row@[c] == Cell::Empty,
                decreases n - j,
            {
                row.push(Cell::Empty);
                j += 1;
            }
            cells.push(row);
            i += 1;
        }
        Grid { cells }
    }

    /// The side length of the board.
    pub fn size(&self) -> (n: usize)
        ensures
            n == self@.len(),
    {
        self.cells.len()
    }

    /// The cell at row `i`, column `j`. Coordinates must be in range; an
    /// out-of-range lookup is a caller error, not a recoverable condition.
    pub fn cell_at(&self, i: usize, j: usize) -> (c: Cell)
        requires
            self.wf(),
            i < self@.len(),
            j < self@.len(),
        ensures
            c == self@[i as int][j as int],
    {
        self.cells[i][j]
    }

    /// Moves every particle whose left neighbour is free one cell to the
    /// left; chains of adjacent particles advance together.
    pub fn left_step(&mut self)
        requires
            old(self).wf(),
        ensures
            final(self).wf(),
            final(self)@ == grid_left(old(self)@),
    {
        let ghost g0 = self@;
        let n = self.cells.len();
        let mut i: usize = 0;
        while i < n
            invariant
                i <= n,
                n == g0.len(),
                grid_wf(g0),
                self@.len() == n,
                forall|r: int| 0 <= r < n ==> (#[trigger] self@[r]).len() == n,
                forall|r: int| 0 <= r < i ==> self@[r] == row_after_low(#[trigger] g0[r]),
                forall|r: int| i <= r < n ==> #[trigger] self@[r] == g0[r],
            decreases n - i,
        {
            proof {
                lemma_scan_low_is_after(g0[i as int]);
            }
            let mut j: usize = 0;
            while j < n
                invariant
                    i < n,
                    j <= n,
                    n == g0.len(),
                    grid_wf(g0),
                    self@.len() == n,
                    forall|r: int| 0 <= r < n ==> (#[trigger] self@[r]).len() == n,
                    forall|r: int| 0 <= r < i ==> self@[r] == row_after_low(#[trigger] g0[r]),
                    forall|r: int| i < r < n ==> #[trigger] self@[r] == g0[r],
                    scan_low(self@[i as int], j as int) == row_after_low(g0[i as int]),
                decreases n - j,
            {
                let ghost gprev = self@;
                let ghost pre = self@[i as int];
                if self.cells[i][j] == Cell::Particle && j > 0 && self.cells[i][j - 1]
                    == Cell::Empty {
                    self.cells[i][j] = Cell::Empty;
                    self.cells[i][j - 1] = Cell::Particle;
                    proof {
                        assert(self@[i as int] =~= shift_low(pre, j as int));
                        assert forall|r: int| 0 <= r < n && r != i implies #[trigger] self@[r]
                            == gprev[r] by {}
                    }
                } else {
                    proof {
                        assert(shift_low(pre, j as int) == pre);
                    }
                }
                j += 1;
            }
            i += 1;
        }
        proof {
            assert(self@ =~= grid_left(g0));
        }
    }

    /// Moves every particle whose right neighbour is free one cell to the
    /// right; chains of adjacent particles advance together.
    pub fn right_step(&mut self)
        requires
            old(self).wf(),
        ensures
            final(self).wf(),
            final(self)@ == grid_right(old(self)@),
    {
        let ghost g0 = self@;
        let n = self.cells.len();
        let mut i: usize = 0;
        while i < n
            invariant
                i <= n,
                n == g0.len(),
                grid_wf(g0),
                self@.len() == n,
                forall|r: int| 0 <= r < n ==> (#[trigger] self@[r]).len() == n,
                forall|r: int| 0 <= r < i ==> self@[r] == row_after_high(#[trigger] g0[r]),
                forall|r: int| i <= r < n ==> #[trigger] self@[r] == g0[r],
            decreases n - i,
        {
            proof {
                lemma_scan_high_is_after(g0[i as int]);
            }
            let mut jj: usize = n;
            while jj > 0
                invariant
                    i < n,
                    jj <= n,
                    n == g0.len(),
                    grid_wf(g0),
                    self@.len() == n,
                    forall|r: int| 0 <= r < n ==> (#[trigger] self@[r]).len() == n,
                    forall|r: int| 0 <= r < i ==> self@[r] == row_after_high(#[trigger] g0[r]),
                    forall|r: int| i < r < n ==> #[trigger] self@[r] == g0[r],
                    scan_high(self@[i as int], jj as int - 1) == row_after_high(g0[i as int]),
                decreases jj,
            {
                let j = jj - 1;
                let ghost gprev = self@;
                let ghost pre = self@[i as int];
                if self.cells[i][j] == Cell::Particle && j + 1 < n && self.cells[i][j + 1]
                    == Cell::Empty {
                    self.cells[i][j] = Cell::Empty;
                    self.cells[i][j + 1] = Cell::Particle;
                    proof {
                        assert(self@[i as int] =~= shift_high(pre, j as int));
                        assert forall|r: int| 0 <= r < n && r != i implies #[trigger] self@[r]
                            == gprev[r] by {}
                    }
                } else {
                    proof {
                        assert(shift_high(pre, j as int) == pre);
                    }
                }
                jj = j;
            }
            i += 1;
        }
        proof {
            assert(self@ =~= grid_right(g0));
        }
    }

    /// Moves every particle whose upper neighbour is free one cell up;
    /// chains of adjacent particles advance together.
    pub fn up_step(&mut self)
        requires
            old(self).wf(),
        ensures
            final(self).wf(),
            final(self)@ == grid_up(old(self)@),
    {
        let ghost g0 = self@;
        let n = self.cells.len();
        let mut j: usize = 0;
        while j < n
            invariant
                j <= n,
                n == g0.len(),
                grid_wf(g0),
                self@.len() == n,
                forall|r: int| 0 <= r < n ==> (#[trigger] self@[r]).len() == n,
                forall|c: int|
                    0 <= c < j ==> col(self@, c) == row_after_low(#[trigger] col(g0, c)),
                forall|c: int| j <= c < n ==> col(self@, c) == #[trigger] col(g0, c),
            decreases n - j,
        {
            proof {
                lemma_scan_low_is_after(col(g0, j as int));
            }
            let mut i: usize = 0;
            while i < n
                invariant
                    j < n,
                    i <= n,
                    n == g0.len(),
                    grid_wf(g0),
                    self@.len() == n,
                    forall|r: int| 0 <= r < n ==> (#[trigger] self@[r]).len() == n,
                    forall|c: int|
                        0 <= c < j ==> col(self@, c) == row_after_low(#[trigger] col(g0, c)),
                    forall|c: int| j < c < n ==> col(self@, c) == #[trigger] col(g0, c),
                    scan_low(col(self@, j as int), i as int) == row_after_low(col(g0, j as int)),
                decreases n - i,
            {
                let ghost gprev = self@;
                let ghost precol = col(self@, j as int);
                if self.cells[i][j] == Cell::Particle && i > 0 && self.cells[i - 1][j]
                    == Cell::Empty {
                    self.cells[i][j] = Cell::Empty;
                    self.cells[i - 1][j] = Cell::Particle;
                    proof {
                        let g1 = gprev.update(
                            i as int,
                            gprev[i as int].update(j as int, Cell::Empty),
                        );
                        let g2 = g1.update(
                            i as int - 1,
                            g1[i as int - 1].update(j as int, Cell::Particle),
                        );
                        assert(self@ =~= g2);
                        lemma_col_update(gprev, i as int, j as int, Cell::Empty);
                        lemma_col_update(g1, i as int - 1, j as int, Cell::Particle);
                        assert(col(self@, j as int) =~= shift_low(precol, i as int));
                        assert forall|c: int| 0 <= c < n && c != j implies col(self@, c) == col(
                            gprev,
                            c,
                        ) by {
                            assert(col(g2, c) == col(g1, c));
                            assert(col(g1, c) == col(gprev, c));
                        }
                    }
                } else {
                    proof {
                        assert(precol[i as int] == self@[i as int][j as int]);
                        if i > 0 {
                            assert(precol[i as int - 1] == self@[i as int - 1][j as int]);
                        }
                        assert(shift_low(precol, i as int) == precol);
                    }
                }
                i += 1;
            }
            j += 1;
        }
        proof {
            assert forall|r: int| 0 <= r < n implies self@[r] =~= grid_up(g0)[r] by {
                assert forall|c: int| 0 <= c < n implies self@[r][c] == row_after_low(
                    col(g0, c),
                )[r] by {
                    assert(self@[r][c] == col(self@, c)[r]);
                }
            }
            assert(self@ =~= grid_up(g0));
        }
    }

    /// Moves every particle whose lower neighbour is free one cell down;
    /// chains of adjacent particles advance together.
    pub fn down_step(&mut self)
        requires
            old(self).wf(),
        ensures
            final(self).wf(),
            final(self)@ == grid_down(old(self)@),
    {
        let ghost g0 = self@;
        let n = self.cells.len();
        let mut j: usize = 0;
        while j < n
            invariant
                j <= n,
                n == g0.len(),
                grid_wf(g0),
                self@.len() == n,
                forall|r: int| 0 <= r < n ==> (#[trigger] self@[r]).len() == n,
                forall|c: int|
                    0 <= c < j ==> col(self@, c) == row_after_high(#[trigger] col(g0, c)),
                forall|c: int| j <= c < n ==> col(self@, c) == #[trigger] col(g0, c),
            decreases n - j,
        {
            proof {
                lemma_scan_high_is_after(col(g0, j as int));
            }
            let mut ii: usize = n;
            while ii > 0
                invariant
                    j < n,
                    ii <= n,
                    n == g0.len(),
                    grid_wf(g0),
                    self@.len() == n,
                    forall|r: int| 0 <= r < n ==> (#[trigger] self@[r]).len() == n,
                    forall|c: int|
                        0 <= c < j ==> col(self@, c) == row_after_high(#[trigger] col(g0, c)),
                    forall|c: int| j < c < n ==> col(self@, c) == #[trigger] col(g0, c),
                    scan_high(col(self@, j as int), ii as int - 1) == row_after_high(
                        col(g0, j as int),
                    ),
                decreases ii,
            {
                let i = ii - 1;
                let ghost gprev = self@;
                let ghost precol = col(self@, j as int);
                if self.cells[i][j] == Cell::Particle && i + 1 < n && self.cells[i + 1][j]
                    == Cell::Empty {
                    self.cells[i][j] = Cell::Empty;
                    self.cells[i + 1][j] = Cell::Particle;
                    proof {
                        let g1 = gprev.update(
                            i as int,
                            gprev[i as int].update(j as int, Cell::Empty),
                        );
                        let g2 = g1.update(
                            i as int + 1,
                            g1[i as int + 1].update(j as int, Cell::Particle),
                        );
                        assert(self@ =~= g2);
                        lemma_col_update(gprev, i as int, j as int, Cell::Empty);
                        lemma_col_update(g1, i as int + 1, j as int, Cell::Particle);
                        assert(col(self@, j as int) =~= shift_high(precol, i as int));
                        assert forall|c: int| 0 <= c < n && c != j implies col(self@, c) == col(
                            gprev,
                            c,
                        ) by {
                            assert(col(g2, c) == col(g1, c));
                            assert(col(g1, c) == col(gprev, c));
                        }
                    }
                } else {
                    proof {
                        assert(precol[i as int] == self@[i as int][j as int]);
                        if i + 1 < n {
                            assert(precol[i as int + 1] == self@[i as int + 1][j as int]);
                        }
                        assert(shift_high(precol, i as int) == precol);
                    }
                }
                ii = i;
            }
            j += 1;
        }
        proof {
            assert forall|r: int| 0 <= r < n implies self@[r] =~= grid_down(g0)[r] by {
                assert forall|c: int| 0 <= c < n implies self@[r][c] == row_after_high(
                    col(g0, c),
                )[r] by {
                    assert(self@[r][c] == col(self@, c)[r]);
                }
            }
            assert(self@ =~= grid_down(g0));
        }
    }

    /// Performs one step in the commanded direction and records that
    /// direction as the last move taken.
    pub fn step(&mut self, m: Move, last_move: &mut Option<Move>)
        requires
            old(self).wf(),
        ensures
            final(self).wf(),
            final(self)@ == step_spec(old(self)@, m),
            *final(last_move) == Some(m),
    {
        match m {
            Move::Up => self.up_step(),
            Move::Down => self.down_step(),
            Move::Left => self.left_step(),
            Move::Right => self.right_step(),
        }
        *last_move = Some(m);
    }

    /// Toggles every non-wall cell: empty cells become particles and
    /// particles become empty cells; walls stay walls.
    pub fn reverse(&mut self)
        requires
            old(self).wf(),
        ensures
            final(self).wf(),
            final(self)@ == reverse_spec(old(self)@),
    {
        let ghost g0 = self@;
        let n = self.cells.len();
        let mut i: usize = 0;
        while i < n
            invariant
                i <= n,
                n == g0.len(),
                grid_wf(g0),
                self@.len() == n,
                forall|r: int| 0 <= r < n ==> (#[trigger] self@[r]).len() == n,
                forall|r: int, c: int|
                    0 <= r < i && 0 <= c < n ==> #[trigger] self@[r][c] == rev_cell(g0[r][c]),
                forall|r: int| i <= r < n ==> #[trigger] self@[r] == g0[r],
            decreases n - i,
        {
            let mut j: usize = 0;
            while j < n
                invariant
                    i < n,
                    j <= n,
                    n == g0.len(),
                    grid_wf(g0),
                    self@.len() == n,
                    forall|r: int| 0 <= r < n ==> (#[trigger] self@[r]).len() == n,
                    forall|r: int, c: int|
                        0 <= r < i && 0 <= c < n ==> #[trigger] self@[r][c] == rev_cell(g0[r][c]),
                    forall|c: int| 0 <= c < j ==> self@[i as int][c] == rev_cell(g0[i as int][c]),
                    forall|c: int| j <= c < n ==> self@[i as int][c] == g0[i as int][c],
                    forall|r: int| i < r < n ==> #[trigger] self@[r] == g0[r],
                decreases n - j,
            {
                let ghost gprev = self@;
                proof {
                    assert(self@[i as int].len() == n);
                }
                match self.cells[i][j] {
                    Cell::Particle => {
                        self.cells[i][j] = Cell::Empty;
                    },
                    Cell::Empty => {
                        self.cells[i][j] = Cell::Particle;
                    },
                    Cell::Wall => {},
                }
                proof {
                    assert forall|r: int| 0 <= r < n && r != i implies #[trigger] self@[r]
                        == gprev[r] by {}
                    assert forall|c: int| 0 <= c < n && c != j implies self@[i as int][c]
                        == gprev[i as int][c] by {}
                    assert(self@[i as int][j as int] == rev_cell(gprev[i as int][j as int]));
                    assert(self@[i as int].len() == n);
                }
                j += 1;
            }
            i += 1;
        }
        proof {
            assert forall|r: int| 0 <= r < n implies self@[r] =~= reverse_spec(g0)[r] by {}
            assert(self@ =~= reverse_spec(g0));
        }
    }
}

} // verus!
