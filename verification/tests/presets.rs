use particle_grid::cell::{Cell, Move};
use particle_grid::grid::Grid;
use particle_grid::presets::GRID_SIZE;

fn positions_of_particles(g: &Grid) -> Vec<(usize, usize)> {
    let n = g.size();
    let mut out = Vec::new();
    for i in 0..n {
        for j in 0..n {
            if g.cell_at(i, j) == Cell::Particle {
                out.push((i, j));
            }
        }
    }
    out
}

fn positions_of_walls(g: &Grid) -> Vec<(usize, usize)> {
    let n = g.size();
    let mut out = Vec::new();
    for i in 0..n {
        for j in 0..n {
            if g.cell_at(i, j) == Cell::Wall {
                out.push((i, j));
            }
        }
    }
    out
}

fn is_ring(i: usize, j: usize) -> bool {
    i == 0 || i == 9 || j == 0 || j == 9
}

#[test]
fn three_particule_preset_layout() {
    let g = Grid::simple_three_particule();
    assert_eq!(g.size(), GRID_SIZE);
    assert_eq!(positions_of_particles(&g), vec![(2, 2), (5, 4), (8, 3)]);
    let walls = positions_of_walls(&g);
    for i in 0..10 {
        for j in 0..10 {
            let expect_wall = is_ring(i, j) || (i == 8 && j == 4);
            assert_eq!(walls.contains(&(i, j)), expect_wall);
        }
    }
}

#[test]
fn one_particule_preset_layout() {
    let g = Grid::simple_one_particule();
    assert_eq!(g.size(), GRID_SIZE);
    assert_eq!(positions_of_particles(&g), vec![(5, 4)]);
    let inner_walls = [
        (1, 2),
        (2, 5),
        (2, 6),
        (3, 1),
        (3, 2),
        (3, 3),
        (3, 8),
        (5, 2),
        (6, 2),
        (6, 7),
        (6, 8),
        (7, 4),
        (8, 4),
    ];
    let walls = positions_of_walls(&g);
    for i in 0..10 {
        for j in 0..10 {
            let expect_wall = is_ring(i, j) || inner_walls.contains(&(i, j));
            assert_eq!(walls.contains(&(i, j)), expect_wall);
        }
    }
}

#[test]
fn four_particule_preset_layout() {
    let g = Grid::complex_four_particule();
    assert_eq!(g.size(), GRID_SIZE);
    assert_eq!(positions_of_particles(&g), vec![(5, 4)]);
    let walls = positions_of_walls(&g);
    for i in 0..10 {
        for j in 0..10 {
            assert_eq!(walls.contains(&(i, j)), is_ring(i, j));
        }
    }
}

#[test]
fn maze_preset_particle_slides_until_wall() {
    // In the maze preset the particle at (5,4) is stopped on its left by the
    // wall at (5,2): one left step puts it at (5,3), another leaves it there.
    let mut g = Grid::simple_one_particule();
    g.left_step();
    assert_eq!(positions_of_particles(&g), vec![(5, 3)]);
    g.left_step();
    assert_eq!(positions_of_particles(&g), vec![(5, 3)]);
}

#[test]
fn preset_reverse_keeps_particle_count_complement() {
    // The open preset has 64 interior non-wall cells, one of them a
    // particle; after reverse the complement, 63, are particles.
    let mut g = Grid::complex_four_particule();
    g.reverse();
    assert_eq!(positions_of_particles(&g).len(), 63);
}

#[test]
fn preset_steps_conserve_particles() {
    for m in [Move::Left, Move::Right, Move::Up, Move::Down] {
        let mut g = Grid::simple_three_particule();
        let mut last = None;
        for _ in 0..12 {
            g.step(m, &mut last);
            assert_eq!(positions_of_particles(&g).len(), 3);
        }
    }
}
