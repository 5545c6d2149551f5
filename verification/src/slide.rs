//! The one-dimensional sliding pass.
//!
//! A directional step of the board acts independently on every line (a row
//! for a horizontal move, a column for a vertical one). On a line it is a
//! single in-place sweep: visiting positions from the far side of the travel
//! direction toward the near side, a particle whose neighbouring cell in the
//! travel direction is currently empty moves into it. A chain of adjacent
//! particles therefore advances as a whole, and no particle moves more than
//! one cell per pass.
//!
//! `scan_low` / `scan_high` state that sweep operationally; `row_after_low` /
//! `row_after_high` state the outcome declaratively, cell by cell, through
//! the `moves_low` / `moves_high` predicates. The main lemmas here prove the
//! two forms equal, so the board operations can carry the declarative
//! contract while being implemented as the sweep.

use vstd::prelude::*;

use crate::cell::Cell;

verus! {

// ---------------------------------------------------------------------------
// The sweep, operationally.
// ---------------------------------------------------------------------------

/// One visit of the sweep toward lower indices: if position `j` holds a
/// particle and position `j - 1` is currently empty, the particle moves.
pub open spec fn shift_low(s: Seq<Cell>, j: int) -> Seq<Cell> {
    if 0 < j < s.len() && s[j] == Cell::Particle && s[j - 1] == Cell::Empty {
        s.update(j, Cell::Empty).update(j - 1, Cell::Particle)
    } else {
        s
    }
}

/// One visit of the sweep toward higher indices: if position `j` holds a
/// particle and position `j + 1` is currently empty, the particle moves.
pub open spec fn shift_high(s: Seq<Cell>, j: int) -> Seq<Cell> {
    if 0 <= j && j + 1 < s.len() && s[j] == Cell::Particle && s[j + 1] == Cell::Empty {
        s.update(j, Cell::Empty).update(j + 1, Cell::Particle)
    } else {
        s
    }
}

/// The rest of the low-direction sweep: visits positions `j` up to the end
/// of the line, starting from the intermediate state `s`.
pub open spec fn scan_low(s: Seq<Cell>, j: int) -> Seq<Cell>
    decreases s.len() - j,
{
    if 0 <= j < s.len() {
        scan_low(shift_low(s, j), j + 1)
    } else {
        s
    }
}

/// The rest of the high-direction sweep: visits positions `j` down to the
/// start of the line, starting from the intermediate state `s`.
pub open spec fn scan_high(s: Seq<Cell>, j: int) -> Seq<Cell>
    decreases j + 1,
{
    if 0 <= j < s.len() {
        scan_high(shift_high(s, j), j - 1)
    } else {
        s
    }
}

// ---------------------------------------------------------------------------
// The outcome, declaratively.
// ---------------------------------------------------------------------------

/// Whether the particle at position `k` moves toward lower indices during
/// the pass on line `s`: it does when its neighbour at `k - 1` is empty, or
/// holds a particle that itself moves and so vacates the cell in time.
pub open spec fn moves_low(s: Seq<Cell>, k: int) -> bool
    decreases k,
{
    if 0 < k < s.len() && s[k] == Cell::Particle {
        s[k - 1] == Cell::Empty || (s[k - 1] == Cell::Particle && moves_low(s, k - 1))
    } else {
        false
    }
}

/// Whether the particle at position `k` moves toward higher indices during
/// the pass on line `s`.
pub open spec fn moves_high(s: Seq<Cell>, k: int) -> bool
    decreases s.len() - k,
{
    if 0 <= k && k + 1 < s.len() && s[k] == Cell::Particle {
        s[k + 1] == Cell::Empty || (s[k + 1] == Cell::Particle && moves_high(s, k + 1))
    } else {
        false
    }
}

/// The value of cell `k` once its own outgoing move (toward lower indices)
/// has been decided, but before a particle from `k + 1` may arrive.
spec fn settled_low(s: Seq<Cell>, k: int) -> Cell {
    if s[k] == Cell::Wall {
        Cell::Wall
    } else if s[k] == Cell::Particle && !moves_low(s, k) {
        Cell::Particle
    } else {
        Cell::Empty
    }
}

/// The value of cell `k` once its own outgoing move (toward higher indices)
/// has been decided, but before a particle from `k - 1` may arrive.
spec fn settled_high(s: Seq<Cell>, k: int) -> Cell {
    if s[k] == Cell::Wall {
        Cell::Wall
    } else if s[k] == Cell::Particle && !moves_high(s, k) {
        Cell::Particle
    } else {
        Cell::Empty
    }
}

/// The final value of cell `k` after the low-direction pass: a wall stays;
/// a particle stands there exactly when the one that was there did not move,
/// or the one at `k + 1` moved in.
pub open spec fn cell_after_low(s: Seq<Cell>, k: int) -> Cell {
    if s[k] == Cell::Wall {
        Cell::Wall
    } else if (s[k] == Cell::Particle && !moves_low(s, k)) || (k + 1 < s.len() && s[k + 1]
        == Cell::Particle && moves_low(s, k + 1)) {
        Cell::Particle
    } else {
        Cell::Empty
    }
}

/// The final value of cell `k` after the high-direction pass.
pub open spec fn cell_after_high(s: Seq<Cell>, k: int) -> Cell {
    if s[k] == Cell::Wall {
        Cell::Wall
    } else if (s[k] == Cell::Particle && !moves_high(s, k)) || (0 <= k - 1 && s[k - 1]
        == Cell::Particle && moves_high(s, k - 1)) {
        Cell::Particle
    } else {
        Cell::Empty
    }
}

/// The whole line after the low-direction pass, cell by cell.
pub open spec fn row_after_low(s: Seq<Cell>) -> Seq<Cell> {
    Seq::new(s.len(), |k: int| cell_after_low(s, k))
}

/// The whole line after the high-direction pass, cell by cell.
pub open spec fn row_after_high(s: Seq<Cell>) -> Seq<Cell> {
    Seq::new(s.len(), |k: int| cell_after_high(s, k))
}

// ---------------------------------------------------------------------------
// The sweep computes the declared outcome.
// ---------------------------------------------------------------------------

/// The intermediate state of the low-direction sweep before visiting
/// position `j`: positions below `j - 1` are final, position `j - 1` has
/// lost its outgoing particle but not yet received one, positions from `j`
/// on are untouched.
spec fn mid_low(s: Seq<Cell>, j: int) -> Seq<Cell> {
    Seq::new(
        s.len(),
        |k: int|
            if k < j - 1 {
                cell_after_low(s, k)
            } else if k == j - 1 {
                settled_low(s, k)
            } else {
                s[k]
            },
    )
}

/// The intermediate state of the high-direction sweep before visiting
/// position `j`: positions above `j + 1` are final, position `j + 1` has
/// lost its outgoing particle but not yet received one, positions from `j`
/// down are untouched.
spec fn mid_high(s: Seq<Cell>, j: int) -> Seq<Cell> {
    Seq::new(
        s.len(),
        |k: int|
            if k > j + 1 {
                cell_after_high(s, k)
            } else if k == j + 1 {
                settled_high(s, k)
            } else {
                s[k]
            },
    )
}

/// One visit of the low-direction sweep advances the intermediate state.
proof fn lemma_shift_mid_low(s: Seq<Cell>, j: int)
    requires
        0 <= j < s.len(),
    ensures
        shift_low(mid_low(s, j), j) == mid_low(s, j + 1),
{
    let m = mid_low(s, j);
    let r = shift_low(m, j);
    assert forall|k: int| 0 <= k < s.len() implies r[k] == mid_low(s, j + 1)[k] by {
        if j == 0 {
            assert(!(0 < j));
        } else {
            if moves_low(s, j) {
                assert(m[j - 1] == Cell::Empty);
                assert(m[j] == Cell::Particle);
            } else {
                if s[j] == Cell::Particle {
                    assert(m[j - 1] != Cell::Empty);
                }
            }
        }
    }
    assert(r =~= mid_low(s, j + 1));
}

/// One visit of the high-direction sweep advances the intermediate state.
proof fn lemma_shift_mid_high(s: Seq<Cell>, j: int)
    requires
        0 <= j < s.len(),
    ensures
        shift_high(mid_high(s, j), j) == mid_high(s, j - 1),
{
    let m = mid_high(s, j);
    let r = shift_high(m, j);
    assert forall|k: int| 0 <= k < s.len() implies r[k] == mid_high(s, j - 1)[k] by {
        if j == s.len() - 1 {
            assert(!(j + 1 < s.len()));
        } else {
            if moves_high(s, j) {
                assert(m[j + 1] == Cell::Empty);
                assert(m[j] == Cell::Particle);
            } else {
                if s[j] == Cell::Particle {
                    assert(m[j + 1] != Cell::Empty);
                }
            }
        }
    }
    assert(r =~= mid_high(s, j - 1));
}

/// Running the remaining low-direction sweep from the intermediate state
/// yields the declared outcome.
proof fn lemma_scan_mid_low(s: Seq<Cell>, j: int)
    requires
        0 <= j <= s.len(),
    ensures
        scan_low(mid_low(s, j), j) == row_after_low(s),
    decreases s.len() - j,
{
    if j == s.len() {
        assert(mid_low(s, j) =~= row_after_low(s));
    } else {
        lemma_shift_mid_low(s, j);
        lemma_scan_mid_low(s, j + 1);
    }
}

/// Running the remaining high-direction sweep from the intermediate state
/// yields the declared outcome.
proof fn lemma_scan_mid_high(s: Seq<Cell>, j: int)
    requires
        -1 <= j < s.len(),
    ensures
        scan_high(mid_high(s, j), j) == row_after_high(s),
    decreases j + 1,
{
    if j == -1 {
        assert(mid_high(s, j) =~= row_after_high(s));
    } else {
        lemma_shift_mid_high(s, j);
        lemma_scan_mid_high(s, j - 1);
    }
}

/// The full low-direction sweep of a line equals its declared outcome.
pub proof fn lemma_scan_low_is_after(s: Seq<Cell>)
    ensures
        scan_low(s, 0) == row_after_low(s),
{
    assert(mid_low(s, 0) =~= s);
    lemma_scan_mid_low(s, 0);
}

/// The full high-direction sweep of a line equals its declared outcome.
pub proof fn lemma_scan_high_is_after(s: Seq<Cell>)
    ensures
        scan_high(s, s.len() - 1) == row_after_high(s),
{
    assert(mid_high(s, s.len() - 1) =~= s);
    lemma_scan_mid_high(s, s.len() - 1);
}

// ---------------------------------------------------------------------------
// Counting particles on a line.
// ---------------------------------------------------------------------------

/// One for a particle, zero for anything else.
pub open spec fn one_if_particle(c: Cell) -> nat {
    if c == Cell::Particle {
        1
    } else {
        0
    }
}

/// How many particles a line holds.
pub open spec fn count_row(s: Seq<Cell>) -> nat
    decreases s.len(),
{
    if s.len() == 0 {
        0
    } else {
        count_row(s.drop_last()) + one_if_particle(s.last())
    }
}

/// Appending a cell adds its particle count.
pub proof fn lemma_count_row_push(s: Seq<Cell>, x: Cell)
    ensures
        count_row(s.push(x)) == count_row(s) + one_if_particle(x),
{
    assert(s.push(x).drop_last() =~= s);
}

/// Overwriting one cell trades its particle count for the new one's.
pub proof fn lemma_count_row_update(s: Seq<Cell>, k: int, x: Cell)
    requires
        0 <= k < s.len(),
    ensures
        count_row(s.update(k, x)) + one_if_particle(s[k]) == count_row(s) + one_if_particle(x),
    decreases s.len(),
{
    if k == s.len() - 1 {
        assert(s.update(k, x).drop_last() =~= s.drop_last());
    } else {
        assert(s.update(k, x).drop_last() =~= s.drop_last().update(k, x));
        lemma_count_row_update(s.drop_last(), k, x);
    }
}

/// One visit of either sweep conserves the particle count of the line.
proof fn lemma_count_shift(s: Seq<Cell>, j: int)
    ensures
        count_row(shift_low(s, j)) == count_row(s),
        count_row(shift_high(s, j)) == count_row(s),
{
    if 0 < j < s.len() && s[j] == Cell::Particle && s[j - 1] == Cell::Empty {
        let u = s.update(j, Cell::Empty);
        lemma_count_row_update(s, j, Cell::Empty);
        lemma_count_row_update(u, j - 1, Cell::Particle);
    }
    if 0 <= j && j + 1 < s.len() && s[j] == Cell::Particle && s[j + 1] == Cell::Empty {
        let u = s.update(j, Cell::Empty);
        lemma_count_row_update(s, j, Cell::Empty);
        lemma_count_row_update(u, j + 1, Cell::Particle);
    }
}

/// The low-direction sweep conserves the particle count of the line.
proof fn lemma_count_scan_low(s: Seq<Cell>, j: int)
    ensures
        count_row(scan_low(s, j)) == count_row(s),
    decreases s.len() - j,
{
    if 0 <= j < s.len() {
        lemma_count_shift(s, j);
        lemma_count_scan_low(shift_low(s, j), j + 1);
    }
}

/// The high-direction sweep conserves the particle count of the line.
proof fn lemma_count_scan_high(s: Seq<Cell>, j: int)
    ensures
        count_row(scan_high(s, j)) == count_row(s),
    decreases j + 1,
{
    if 0 <= j < s.len() {
        lemma_count_shift(s, j);
        lemma_count_scan_high(shift_high(s, j), j - 1);
    }
}

/// A pass in either direction conserves the particle count of the line.
pub proof fn lemma_count_row_after(s: Seq<Cell>)
    ensures
        count_row(row_after_low(s)) == count_row(s),
        count_row(row_after_high(s)) == count_row(s),
{
    lemma_scan_low_is_after(s);
    lemma_count_scan_low(s, 0);
    lemma_scan_high_is_after(s);
    lemma_count_scan_high(s, s.len() - 1);
}

} // verus!
