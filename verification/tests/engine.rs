use particle_grid::cell::{Cell, Move};
use particle_grid::grid::Grid;

/// A five-by-five board with a ring of walls and particles at the given
/// interior coordinates.
fn ring5(particles: &[(usize, usize)]) -> Grid {
    let n = 5;
    let mut cells: Vec<Vec<Cell>> = Vec::new();
    for i in 0..n {
        let mut row: Vec<Cell> = Vec::new();
        for j in 0..n {
            let c = if i == 0 || i == n - 1 || j == 0 || j == n - 1 {
                Cell::Wall
            } else if particles.contains(&(i, j)) {
                Cell::Particle
            } else {
                Cell::Empty
            };
            row.push(c);
        }
        cells.push(row);
    }
    Grid::from_cells(cells)
}

fn particle_positions(g: &Grid) -> Vec<(usize, usize)> {
    let n = g.size();
    let mut out = Vec::new();
    for i in 0..n {
        for j in 0..n {
            if g.cell_at(i, j) == Cell::Particle {
                out.push((i, j));
            }
        }
    }
    out
}

fn count_particles(g: &Grid) -> usize {
    particle_positions(g).len()
}

#[test]
fn empty_board_construction() {
    let g = Grid::new_empty(4);
    assert_eq!(g.size(), 4);
    for i in 0..4 {
        for j in 0..4 {
            assert_eq!(g.cell_at(i, j), Cell::Empty);
        }
    }
}

#[test]
fn from_cells_keeps_every_cell() {
    let cells = vec![
        vec![Cell::Wall, Cell::Empty],
        vec![Cell::Particle, Cell::Wall],
    ];
    let g = Grid::from_cells(cells);
    assert_eq!(g.size(), 2);
    assert_eq!(g.cell_at(0, 0), Cell::Wall);
    assert_eq!(g.cell_at(0, 1), Cell::Empty);
    assert_eq!(g.cell_at(1, 0), Cell::Particle);
    assert_eq!(g.cell_at(1, 1), Cell::Wall);
}

#[test]
fn boundary_wall_blocks_left_move() {
    // A particle beside the left wall stays put on a left step.
    let mut g = ring5(&[(1, 1)]);
    g.left_step();
    assert_eq!(particle_positions(&g), vec![(1, 1)]);
}

#[test]
fn right_step_moves_single_particle() {
    let mut g = ring5(&[(1, 1)]);
    g.right_step();
    assert_eq!(particle_positions(&g), vec![(1, 2)]);
}

#[test]
fn two_right_steps_move_two_cells() {
    let mut g = ring5(&[(1, 1)]);
    g.right_step();
    g.right_step();
    assert_eq!(particle_positions(&g), vec![(1, 3)]);
}

#[test]
fn right_step_chain_advances_together() {
    // The canonical chain case: (1,2) vacates its cell in time, so (1,1)
    // follows on the same step.
    let mut g = ring5(&[(1, 1), (1, 2)]);
    g.right_step();
    assert_eq!(particle_positions(&g), vec![(1, 2), (1, 3)]);
}

#[test]
fn left_step_chain_advances_together() {
    let mut g = ring5(&[(2, 2), (2, 3)]);
    g.left_step();
    assert_eq!(particle_positions(&g), vec![(2, 1), (2, 2)]);
}

#[test]
fn up_step_moves_particle() {
    let mut g = ring5(&[(3, 2)]);
    g.up_step();
    assert_eq!(particle_positions(&g), vec![(2, 2)]);
}

#[test]
fn down_step_chain_advances_together() {
    let mut g = ring5(&[(1, 3), (2, 3)]);
    g.down_step();
    assert_eq!(particle_positions(&g), vec![(2, 3), (3, 3)]);
}

#[test]
fn squeezed_chain_does_not_move() {
    // Two particles already against the left wall stay put.
    let mut g = ring5(&[(1, 1), (1, 2)]);
    g.left_step();
    assert_eq!(particle_positions(&g), vec![(1, 1), (1, 2)]);
}

#[test]
fn particle_blocked_by_nonmoving_particle_stays() {
    // (3,1) is against the wall below; (2,1) is blocked by it.
    let mut g = ring5(&[(2, 1), (3, 1)]);
    g.down_step();
    assert_eq!(particle_positions(&g), vec![(2, 1), (3, 1)]);
}

#[test]
fn particle_beside_empty_cell_moves() {
    let mut g = ring5(&[(2, 2)]);
    g.up_step();
    assert_eq!(particle_positions(&g), vec![(1, 2)]);
}

#[test]
fn edge_particle_without_walls_stays_on_grid() {
    // No walls at all: a particle on the boundary facing off-grid stays.
    let cells = vec![
        vec![Cell::Particle, Cell::Empty, Cell::Empty],
        vec![Cell::Empty, Cell::Empty, Cell::Empty],
        vec![Cell::Empty, Cell::Empty, Cell::Particle],
    ];
    let mut g = Grid::from_cells(cells);
    g.left_step();
    assert_eq!(g.cell_at(0, 0), Cell::Particle);
    g.up_step();
    assert_eq!(g.cell_at(0, 0), Cell::Particle);
    let cells2 = vec![
        vec![Cell::Empty, Cell::Empty, Cell::Empty],
        vec![Cell::Empty, Cell::Empty, Cell::Empty],
        vec![Cell::Empty, Cell::Empty, Cell::Particle],
    ];
    let mut h = Grid::from_cells(cells2);
    h.right_step();
    assert_eq!(h.cell_at(2, 2), Cell::Particle);
    h.down_step();
    assert_eq!(h.cell_at(2, 2), Cell::Particle);
}

#[test]
fn single_step_moves_at_most_one_cell() {
    // After one step the particle is exactly one cell along the commanded
    // direction and unmoved on the perpendicular axis.
    let g0 = ring5(&[(2, 2)]);
    let moves = [
        (Move::Left, (2usize, 1usize)),
        (Move::Right, (2, 3)),
        (Move::Up, (1, 2)),
        (Move::Down, (3, 2)),
    ];
    for (m, expected) in moves {
        let mut g = ring5(&[(2, 2)]);
        let mut last = None;
        g.step(m, &mut last);
        assert_eq!(particle_positions(&g), vec![expected]);
        assert_eq!(count_particles(&g0), count_particles(&g));
    }
}

#[test]
fn step_records_last_move() {
    let mut g = ring5(&[(2, 2)]);
    let mut last: Option<Move> = None;
    g.step(Move::Right, &mut last);
    assert_eq!(last, Some(Move::Right));
    g.step(Move::Up, &mut last);
    assert_eq!(last, Some(Move::Up));
}

#[test]
fn step_matches_directional_functions() {
    for m in [Move::Left, Move::Right, Move::Up, Move::Down] {
        let mut a = ring5(&[(1, 2), (2, 2), (3, 1)]);
        let mut b = ring5(&[(1, 2), (2, 2), (3, 1)]);
        let mut last = None;
        a.step(m, &mut last);
        match m {
            Move::Left => b.left_step(),
            Move::Right => b.right_step(),
            Move::Up => b.up_step(),
            Move::Down => b.down_step(),
        }
        assert_eq!(particle_positions(&a), particle_positions(&b));
    }
}

#[test]
fn step_is_deterministic() {
    for m in [Move::Left, Move::Right, Move::Up, Move::Down] {
        let mut a = ring5(&[(1, 1), (2, 3), (3, 2)]);
        let mut b = ring5(&[(1, 1), (2, 3), (3, 2)]);
        let mut last = None;
        a.step(m, &mut last);
        b.step(m, &mut last);
        for i in 0..5 {
            for j in 0..5 {
                assert_eq!(a.cell_at(i, j), b.cell_at(i, j));
            }
        }
    }
}

#[test]
fn steps_conserve_particles() {
    for m in [Move::Left, Move::Right, Move::Up, Move::Down] {
        let mut g = ring5(&[(1, 1), (1, 2), (2, 2), (3, 3)]);
        assert_eq!(count_particles(&g), 4);
        let mut last = None;
        g.step(m, &mut last);
        assert_eq!(count_particles(&g), 4);
    }
}

#[test]
fn steps_keep_walls() {
    // An internal wall and the ring stay put under every operation.
    for m in [Move::Left, Move::Right, Move::Up, Move::Down] {
        let mut cells = Vec::new();
        for i in 0..5 {
            let mut row = Vec::new();
            for j in 0..5 {
                let c = if i == 0 || i == 4 || j == 0 || j == 4 || (i == 2 && j == 2) {
                    Cell::Wall
                } else if i == 1 && j == 1 {
                    Cell::Particle
                } else {
                    Cell::Empty
                };
                row.push(c);
            }
            cells.push(row);
        }
        let g0 = Grid::from_cells(cells);
        let mut walls = Vec::new();
        for i in 0..5 {
            for j in 0..5 {
                if g0.cell_at(i, j) == Cell::Wall {
                    walls.push((i, j));
                }
            }
        }
        let mut g = g0;
        let mut last = None;
        g.step(m, &mut last);
        for i in 0..5 {
            for j in 0..5 {
                assert_eq!(g.cell_at(i, j) == Cell::Wall, walls.contains(&(i, j)));
            }
        }
        g.reverse();
        for i in 0..5 {
            for j in 0..5 {
                assert_eq!(g.cell_at(i, j) == Cell::Wall, walls.contains(&(i, j)));
            }
        }
    }
}

#[test]
fn degenerate_boards_are_harmless() {
    // A zero-by-zero board and a one-by-one board have nowhere to move.
    let mut z = Grid::new_empty(0);
    let mut last = None;
    for m in [Move::Left, Move::Right, Move::Up, Move::Down] {
        z.step(m, &mut last);
        assert_eq!(z.size(), 0);
    }
    let mut one = Grid::from_cells(vec![vec![Cell::Particle]]);
    for m in [Move::Left, Move::Right, Move::Up, Move::Down] {
        one.step(m, &mut last);
        assert_eq!(one.cell_at(0, 0), Cell::Particle);
    }
    one.reverse();
    assert_eq!(one.cell_at(0, 0), Cell::Empty);
}

#[test]
fn reverse_swaps_empty_and_particle() {
    let mut g = ring5(&[(1, 1), (2, 3)]);
    g.reverse();
    for i in 0..5 {
        for j in 0..5 {
            let expected = if i == 0 || i == 4 || j == 0 || j == 4 {
                Cell::Wall
            } else if (i, j) == (1, 1) || (i, j) == (2, 3) {
                Cell::Empty
            } else {
                Cell::Particle
            };
            assert_eq!(g.cell_at(i, j), expected);
        }
    }
}

#[test]
fn reverse_twice_restores_board() {
    let g0 = ring5(&[(1, 1), (2, 3), (3, 3)]);
    let mut g = ring5(&[(1, 1), (2, 3), (3, 3)]);
    g.reverse();
    g.reverse();
    for i in 0..5 {
        for j in 0..5 {
            assert_eq!(g.cell_at(i, j), g0.cell_at(i, j));
        }
    }
}
