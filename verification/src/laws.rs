//! The global laws of the engine, each stated over the board model and
//! proved: particle conservation, wall permanence, the single-cell movement
//! bound, blocking and edge behaviour, and the properties of `reverse`.

use vstd::prelude::*;

use crate::cell::{rev_cell, Cell, Move};
use crate::grid::{
    col, grid_down, grid_left, grid_right, grid_up, grid_wf, reverse_spec, step_spec,
};
use crate::slide::{
    cell_after_high, cell_after_low, count_row, lemma_count_row_after, lemma_count_row_push,
    moves_high, moves_low, row_after_high, row_after_low,
};

verus! {

/// How many particles the whole board holds.
pub open spec fn count_grid(g: Seq<Seq<Cell>>) -> nat
    decreases g.len(),
{
    if g.len() == 0 {
        0
    } else {
        count_grid(g.drop_last()) + count_row(g.last())
    }
}

/// The unit row displacement of a direction.
pub open spec fn delta_i(m: Move) -> int {
    match m {
        Move::Up => -1,
        Move::Down => 1,
        Move::Left => 0,
        Move::Right => 0,
    }
}

/// The unit column displacement of a direction.
pub open spec fn delta_j(m: Move) -> int {
    match m {
        Move::Up => 0,
        Move::Down => 0,
        Move::Left => -1,
        Move::Right => 1,
    }
}

/// Whether the particle at `(i, j)` moves during one step in direction `m`:
/// it does exactly when its neighbour cell in the travel direction is empty,
/// or holds a particle that itself moves and so vacates the cell in time.
pub open spec fn particle_moves(g: Seq<Seq<Cell>>, m: Move, i: int, j: int) -> bool {
    match m {
        Move::Left => moves_low(g[i], j),
        Move::Right => moves_high(g[i], j),
        Move::Up => moves_low(col(g, j), i),
        Move::Down => moves_high(col(g, j), i),
    }
}

/// The particle count of the first `m` columns.
spec fn count_cols(g: Seq<Seq<Cell>>, m: int) -> nat
    decreases m,
{
    if m <= 0 {
        0
    } else {
        count_cols(g, m - 1) + count_row(col(g, m - 1))
    }
}

/// A board whose rows are all empty holds no particle.
proof fn lemma_count_grid_empty_rows(g: Seq<Seq<Cell>>)
    requires
        forall|i: int| 0 <= i < g.len() ==> (#[trigger] g[i]).len() == 0,
    ensures
        count_grid(g) == 0,
    decreases g.len(),
{
    if g.len() > 0 {
        lemma_count_grid_empty_rows(g.drop_last());
        assert(g.last() =~= Seq::<Cell>::empty());
    }
}

/// Splitting off the last column: the count of a board whose rows have
/// length `m` is the count without that column plus the count of the column.
proof fn lemma_count_peel_col(g: Seq<Seq<Cell>>, m: int)
    requires
        m >= 1,
        forall|i: int| 0 <= i < g.len() ==> (#[trigger] g[i]).len() == m,
    ensures
        count_grid(g) == count_grid(g.map_values(|r: Seq<Cell>| r.drop_last())) + count_row(
            col(g, m - 1),
        ),
    decreases g.len(),
{
    let gd = g.map_values(|r: Seq<Cell>| r.drop_last());
    if g.len() == 0 {
        assert(col(g, m - 1) =~= Seq::<Cell>::empty());
    } else {
        let gp = g.drop_last();
        lemma_count_peel_col(gp, m);
        assert(gd.drop_last() =~= gp.map_values(|r: Seq<Cell>| r.drop_last()));
        assert(gd.last() == g.last().drop_last());
        assert(col(g, m - 1) =~= col(gp, m - 1).push(g.last()[m - 1]));
        lemma_count_row_push(col(gp, m - 1), g.last()[m - 1]);
    }
}

/// Dropping the last column leaves the counts of the remaining columns.
proof fn lemma_count_cols_drop(g: Seq<Seq<Cell>>, m: int, k: int)
    requires
        0 <= k <= m - 1,
        forall|i: int| 0 <= i < g.len() ==> (#[trigger] g[i]).len() == m,
    ensures
        count_cols(g.map_values(|r: Seq<Cell>| r.drop_last()), k) == count_cols(g, k),
    decreases k,
{
    if k > 0 {
        lemma_count_cols_drop(g, m, k - 1);
        assert(col(g.map_values(|r: Seq<Cell>| r.drop_last()), k - 1) =~= col(g, k - 1));
    }
}

/// Counting a rectangular board by rows and by columns agrees.
proof fn lemma_count_grid_cols(g: Seq<Seq<Cell>>, m: int)
    requires
        m >= 0,
        forall|i: int| 0 <= i < g.len() ==> (#[trigger] g[i]).len() == m,
    ensures
        count_grid(g) == count_cols(g, m),
    decreases m,
{
    if m == 0 {
        lemma_count_grid_empty_rows(g);
    } else {
        let gd = g.map_values(|r: Seq<Cell>| r.drop_last());
        lemma_count_peel_col(g, m);
        lemma_count_grid_cols(gd, m - 1);
        lemma_count_cols_drop(g, m, m - 1);
    }
}

/// Boards whose rows hold equally many particles hold equally many in all.
proof fn lemma_count_grid_rows_eq(g1: Seq<Seq<Cell>>, g2: Seq<Seq<Cell>>)
    requires
        g1.len() == g2.len(),
        forall|i: int| 0 <= i < g1.len() ==> count_row(#[trigger] g1[i]) == count_row(g2[i]),
    ensures
        count_grid(g1) == count_grid(g2),
    decreases g1.len(),
{
    if g1.len() > 0 {
        lemma_count_grid_rows_eq(g1.drop_last(), g2.drop_last());
    }
}

/// Boards whose columns hold equally many particles agree on `count_cols`.
proof fn lemma_count_cols_eq(g1: Seq<Seq<Cell>>, g2: Seq<Seq<Cell>>, m: int)
    requires
        forall|j: int| 0 <= j < m ==> count_row(#[trigger] col(g1, j)) == count_row(col(g2, j)),
    ensures
        count_cols(g1, m) == count_cols(g2, m),
    decreases m,
{
    if m > 0 {
        lemma_count_cols_eq(g1, g2, m - 1);
    }
}

/// Law: one step in any direction conserves the number of particles on the
/// board.
pub proof fn law_particle_conservation(g: Seq<Seq<Cell>>, m: Move)
    requires
        grid_wf(g),
    ensures
        count_grid(step_spec(g, m)) == count_grid(g),
{
    let n = g.len() as int;
    match m {
        Move::Left => {
            let h = grid_left(g);
            assert forall|i: int| 0 <= i < n implies count_row(#[trigger] h[i]) == count_row(
                g[i],
            ) by {
                lemma_count_row_after(g[i]);
            }
            lemma_count_grid_rows_eq(h, g);
        },
        Move::Right => {
            let h = grid_right(g);
            assert forall|i: int| 0 <= i < n implies count_row(#[trigger] h[i]) == count_row(
                g[i],
            ) by {
                lemma_count_row_after(g[i]);
            }
            lemma_count_grid_rows_eq(h, g);
        },
        Move::Up => {
            let h = grid_up(g);
            assert(forall|i: int| 0 <= i < h.len() ==> (#[trigger] h[i]).len() == n);
            lemma_count_grid_cols(h, n);
            lemma_count_grid_cols(g, n);
            assert forall|j: int| 0 <= j < n implies count_row(#[trigger] col(h, j)) == count_row(
                col(g, j),
            ) by {
                assert(col(h, j) =~= row_after_low(col(g, j)));
                lemma_count_row_after(col(g, j));
            }
            lemma_count_cols_eq(h, g, n);
        },
        Move::Down => {
            let h = grid_down(g);
            assert(forall|i: int| 0 <= i < h.len() ==> (#[trigger] h[i]).len() == n);
            lemma_count_grid_cols(h, n);
            lemma_count_grid_cols(g, n);
            assert forall|j: int| 0 <= j < n implies count_row(#[trigger] col(h, j)) == count_row(
                col(g, j),
            ) by {
                assert(col(h, j) =~= row_after_high(col(g, j)));
                lemma_count_row_after(col(g, j));
            }
            lemma_count_cols_eq(h, g, n);
        },
    }
}

/// Law: a step in any direction leaves a wall in a cell exactly where one
/// stood before.
pub proof fn law_wall_invariance_step(g: Seq<Seq<Cell>>, m: Move, i: int, j: int)
    requires
        grid_wf(g),
        0 <= i < g.len(),
        0 <= j < g.len(),
    ensures
        g[i][j] == Cell::Wall <==> step_spec(g, m)[i][j] == Cell::Wall,
{
    match m {
        Move::Left => {
            assert(step_spec(g, m)[i][j] == cell_after_low(g[i], j));
        },
        Move::Right => {
            assert(step_spec(g, m)[i][j] == cell_after_high(g[i], j));
        },
        Move::Up => {
            assert(step_spec(g, m)[i][j] == cell_after_low(col(g, j), i));
            assert(col(g, j)[i] == g[i][j]);
        },
        Move::Down => {
            assert(step_spec(g, m)[i][j] == cell_after_high(col(g, j), i));
            assert(col(g, j)[i] == g[i][j]);
        },
    }
}

/// Law: `reverse` leaves a wall in a cell exactly where one stood before.
pub proof fn law_wall_invariance_reverse(g: Seq<Seq<Cell>>, i: int, j: int)
    requires
        0 <= i < g.len(),
        0 <= j < g[i].len(),
    ensures
        g[i][j] == Cell::Wall <==> reverse_spec(g)[i][j] == Cell::Wall,
{
}

/// Law: one step moves every particle by at most one cell, along the
/// commanded direction only. A particle found after the step was already
/// there or one cell against the direction; a particle present before is
/// still there or one cell along it. The perpendicular coordinate never
/// changes.
pub proof fn law_single_cell_bound(g: Seq<Seq<Cell>>, m: Move, i: int, j: int)
    requires
        grid_wf(g),
        0 <= i < g.len(),
        0 <= j < g.len(),
    ensures
        step_spec(g, m)[i][j] == Cell::Particle ==> (g[i][j] == Cell::Particle || (0 <= i - delta_i(
            m,
        ) < g.len() && 0 <= j - delta_j(m) < g.len() && g[i - delta_i(m)][j - delta_j(m)]
            == Cell::Particle)),
        g[i][j] == Cell::Particle ==> (step_spec(g, m)[i][j] == Cell::Particle || (0 <= i + delta_i(
            m,
        ) < g.len() && 0 <= j + delta_j(m) < g.len() && step_spec(g, m)[i + delta_i(m)][j + delta_j(
            m,
        )] == Cell::Particle)),
{
    let n = g.len() as int;
    match m {
        Move::Left => {
            assert(step_spec(g, m)[i][j] == cell_after_low(g[i], j));
            if g[i][j] == Cell::Particle && moves_low(g[i], j) {
                assert(step_spec(g, m)[i][j - 1] == cell_after_low(g[i], j - 1));
            }
        },
        Move::Right => {
            assert(step_spec(g, m)[i][j] == cell_after_high(g[i], j));
            if g[i][j] == Cell::Particle && moves_high(g[i], j) {
                assert(step_spec(g, m)[i][j + 1] == cell_after_high(g[i], j + 1));
            }
        },
        Move::Up => {
            let s = col(g, j);
            assert(step_spec(g, m)[i][j] == cell_after_low(s, i));
            assert(s[i] == g[i][j]);
            if 0 < i {
                assert(s[i - 1] == g[i - 1][j]);
            }
            if i + 1 < n {
                assert(s[i + 1] == g[i + 1][j]);
            }
            if g[i][j] == Cell::Particle && moves_low(s, i) {
                assert(step_spec(g, m)[i - 1][j] == cell_after_low(s, i - 1));
            }
        },
        Move::Down => {
            let s = col(g, j);
            assert(step_spec(g, m)[i][j] == cell_after_high(s, i));
            assert(s[i] == g[i][j]);
            if 0 < i {
                assert(s[i - 1] == g[i - 1][j]);
            }
            if i + 1 < n {
                assert(s[i + 1] == g[i + 1][j]);
            }
            if g[i][j] == Cell::Particle && moves_high(s, i) {
                assert(step_spec(g, m)[i + 1][j] == cell_after_high(s, i + 1));
            }
        },
    }
}

/// Law: a particle moves on a step exactly as blocking dictates. One whose
/// neighbour cell in the travel direction is off-grid or a wall does not
/// move; one whose neighbour holds a particle that itself does not move does
/// not move either; one whose neighbour cell is empty does move, and the
/// vacated-in-time chain case is what `particle_moves` states. A particle
/// that does not move is still found in its cell; one that moves is found in
/// the neighbour cell.
pub proof fn law_blocking(g: Seq<Seq<Cell>>, m: Move, i: int, j: int)
    requires
        grid_wf(g),
        0 <= i < g.len(),
        0 <= j < g.len(),
        g[i][j] == Cell::Particle,
    ensures
        !(0 <= i + delta_i(m) < g.len() && 0 <= j + delta_j(m) < g.len()) ==> !particle_moves(
            g,
            m,
            i,
            j,
        ),
        (0 <= i + delta_i(m) < g.len() && 0 <= j + delta_j(m) < g.len()) ==> (particle_moves(
            g,
            m,
            i,
            j,
        ) <==> (g[i + delta_i(m)][j + delta_j(m)] == Cell::Empty || (g[i + delta_i(m)][j + delta_j(
            m,
        )] == Cell::Particle && particle_moves(g, m, i + delta_i(m), j + delta_j(m))))),
        !particle_moves(g, m, i, j) ==> step_spec(g, m)[i][j] == Cell::Particle,
        particle_moves(g, m, i, j) ==> step_spec(g, m)[i + delta_i(m)][j + delta_j(m)]
            == Cell::Particle,
{
    let n = g.len() as int;
    match m {
        Move::Left => {
            assert(step_spec(g, m)[i][j] == cell_after_low(g[i], j));
            if moves_low(g[i], j) {
                assert(step_spec(g, m)[i][j - 1] == cell_after_low(g[i], j - 1));
            }
        },
        Move::Right => {
            assert(step_spec(g, m)[i][j] == cell_after_high(g[i], j));
            if moves_high(g[i], j) {
                assert(step_spec(g, m)[i][j + 1] == cell_after_high(g[i], j + 1));
            }
        },
        Move::Up => {
            let s = col(g, j);
            assert(step_spec(g, m)[i][j] == cell_after_low(s, i));
            assert(s[i] == g[i][j]);
            if 0 < i {
                assert(s[i - 1] == g[i - 1][j]);
            }
            if moves_low(s, i) {
                assert(step_spec(g, m)[i - 1][j] == cell_after_low(s, i - 1));
            }
        },
        Move::Down => {
            let s = col(g, j);
            assert(step_spec(g, m)[i][j] == cell_after_high(s, i));
            assert(s[i] == g[i][j]);
            if i + 1 < n {
                assert(s[i + 1] == g[i + 1][j]);
            }
            if moves_high(s, i) {
                assert(step_spec(g, m)[i + 1][j] == cell_after_high(s, i + 1));
            }
        },
    }
}

/// Law: a particle on the boundary row or column facing off-grid does not
/// move on that step.
pub proof fn law_edge(g: Seq<Seq<Cell>>, m: Move, i: int, j: int)
    requires
        grid_wf(g),
        0 <= i < g.len(),
        0 <= j < g.len(),
        g[i][j] == Cell::Particle,
        !(0 <= i + delta_i(m) < g.len() && 0 <= j + delta_j(m) < g.len()),
    ensures
        !particle_moves(g, m, i, j),
        step_spec(g, m)[i][j] == Cell::Particle,
{
    law_blocking(g, m, i, j);
}

/// Law: reversing the board twice restores it.
pub proof fn law_reverse_involution(g: Seq<Seq<Cell>>)
    ensures
        reverse_spec(reverse_spec(g)) == g,
{
    let r = reverse_spec(g);
    let rr = reverse_spec(r);
    assert forall|i: int| 0 <= i < g.len() implies rr[i] =~= g[i] by {
        assert forall|j: int| 0 <= j < g[i].len() implies rr[i][j] == g[i][j] by {
            assert(r[i][j] == rev_cell(g[i][j]));
        }
    }
    assert(rr =~= g);
}

/// Law: `reverse` maps exactly empty to particle and particle to empty, and
/// is the identity on walls, cell by cell.
pub proof fn law_reverse_cells(g: Seq<Seq<Cell>>, i: int, j: int)
    requires
        0 <= i < g.len(),
        0 <= j < g[i].len(),
    ensures
        reverse_spec(g).len() == g.len(),
        reverse_spec(g)[i].len() == g[i].len(),
        g[i][j] == Cell::Empty ==> reverse_spec(g)[i][j] == Cell::Particle,
        g[i][j] == Cell::Particle ==> reverse_spec(g)[i][j] == Cell::Empty,
        g[i][j] == Cell::Wall ==> reverse_spec(g)[i][j] == Cell::Wall,
{
}

/// Law: the outcome of a step is a function of the board and the direction
/// alone; equal inputs give equal boards.
pub proof fn law_step_deterministic(g1: Seq<Seq<Cell>>, g2: Seq<Seq<Cell>>, m1: Move, m2: Move)
    requires
        g1 == g2,
        m1 == m2,
    ensures
        step_spec(g1, m1) == step_spec(g2, m2),
{
}

} // verus!
