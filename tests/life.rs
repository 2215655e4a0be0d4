use life::coords::parse_coordinate_list;
use life::fuzz::{apply_fuzz, fuzz, FUZZ_SCALE};
use life::game::GameOfLife;
use life::grid::{fill_cells, Grid};
use life::pattern::{format_for_path, load_coordinate_list, load_pattern, LoadError, PatternFormat};
use life::rle::load_rle;
use rand::rngs::StdRng;
use rand::SeedableRng;

fn grid_with(width: usize, height: usize, live: &[(i64, i64)]) -> Grid {
    let mut g = Grid::new(width, height);
    for &(x, y) in live {
        g.set_cell(x, y, true);
    }
    g
}

fn all_cells(g: &Grid) -> Vec<Vec<bool>> {
    let mut rows = Vec::new();
    for y in 0..g.height() {
        let mut row = Vec::new();
        for x in 0..g.width() {
            row.push(g.get(x, y));
        }
        rows.push(row);
    }
    rows
}

#[test]
fn new_grid_is_dead() {
    let g = Grid::new(4, 3);
    assert_eq!(g.width(), 4);
    assert_eq!(g.height(), 3);
    assert!(g.live_cells().is_empty());
}

#[test]
fn dead_grid_stays_dead() {
    let g = Grid::new(7, 5);
    let next = g.next_generation();
    assert!(next.live_cells().is_empty());
    let mut game = GameOfLife::from_grid(Grid::new(3, 3));
    game.step();
    assert!(game.cells().live_cells().is_empty());
}

#[test]
fn surrounded_cell_counts_eight_everywhere() {
    for &(w, h) in &[(3usize, 3usize), (5, 4), (6, 6)] {
        for y in 0..h {
            for x in 0..w {
                let mut g = Grid::new(w, h);
                for dy in [h - 1, 0, 1] {
                    for dx in [w - 1, 0, 1] {
                        if dx != 0 || dy != 0 {
                            g.set((x + dx) % w, (y + dy) % h, true);
                        }
                    }
                }
                assert_eq!(g.count_alive_neighbors(x, y), 8, "cell ({}, {}) on {}x{}", x, y, w, h);
            }
        }
    }
}

#[test]
fn origin_wraps_to_far_corner() {
    let (w, h) = (6usize, 5usize);
    let g = grid_with(w, h, &[((w - 1) as i64, (h - 1) as i64)]);
    assert_eq!(g.count_alive_neighbors(0, 0), 1);
    let g = grid_with(w, h, &[((w - 1) as i64, 0), (0, (h - 1) as i64)]);
    assert_eq!(g.count_alive_neighbors(0, 0), 2);
}

/// A 5x5 grid whose centre has the given state and `n` live neighbours.
fn centre_with(alive: bool, n: usize) -> Grid {
    let ring = [(1, 1), (2, 1), (3, 1), (1, 2), (3, 2), (1, 3), (2, 3), (3, 3)];
    let mut g = Grid::new(5, 5);
    for &(x, y) in ring.iter().take(n) {
        g.set(x, y, true);
    }
    if alive {
        g.set(2, 2, true);
    }
    g
}

#[test]
fn rule_table() {
    for n in 0..=8usize {
        let live = centre_with(true, n);
        assert_eq!(live.count_alive_neighbors(2, 2) as usize, n);
        assert_eq!(live.next_generation().get(2, 2), n == 2 || n == 3, "live cell, {} neighbours", n);
        let dead = centre_with(false, n);
        assert_eq!(dead.next_generation().get(2, 2), n == 3, "dead cell, {} neighbours", n);
    }
}

#[test]
fn blinker_oscillates() {
    let g = grid_with(5, 5, &[(1, 2), (2, 2), (3, 2)]);
    let next = g.next_generation();
    assert_eq!(next.live_cells(), vec![(2, 1), (2, 2), (2, 3)]);
    assert_eq!(next.next_generation().live_cells(), vec![(1, 2), (2, 2), (3, 2)]);
}

#[test]
fn fuzz_zero_chance_keeps_grid() {
    let g = grid_with(12, 9, &[(0, 0), (3, 4), (11, 8)]);
    let before = all_cells(&g);
    for seed in 0..5u64 {
        let mut rng = StdRng::seed_from_u64(seed);
        let mut h = grid_with(12, 9, &[(0, 0), (3, 4), (11, 8)]);
        fuzz(&mut h, 0, &mut rng);
        assert_eq!(all_cells(&h), before);
    }
}

#[test]
fn fuzz_full_chance_flips_every_cell() {
    let g = grid_with(12, 9, &[(0, 0), (3, 4), (11, 8)]);
    let before = all_cells(&g);
    let mut rng = StdRng::seed_from_u64(7);
    let mut h = grid_with(12, 9, &[(0, 0), (3, 4), (11, 8)]);
    fuzz(&mut h, FUZZ_SCALE, &mut rng);
    let after = all_cells(&h);
    for y in 0..9 {
        for x in 0..12 {
            assert_eq!(after[y][x], !before[y][x]);
        }
    }
}

#[test]
fn fuzz_half_chance_flips_some_cells() {
    let mut rng = StdRng::seed_from_u64(42);
    let mut g = Grid::new(40, 40);
    fuzz(&mut g, FUZZ_SCALE / 2, &mut rng);
    let flipped = g.live_cells().len();
    assert!(flipped > 0 && flipped < 1600, "{} of 1600 flipped", flipped);
}

#[test]
fn fuzz_is_repeatable_under_a_seed() {
    let mut a = Grid::new(20, 20);
    let mut b = Grid::new(20, 20);
    fuzz(&mut a, 300_000, &mut StdRng::seed_from_u64(9));
    fuzz(&mut b, 300_000, &mut StdRng::seed_from_u64(9));
    assert_eq!(a.live_cells(), b.live_cells());
}

#[test]
fn apply_fuzz_flips_cells_below_chance() {
    let mut g = grid_with(3, 2, &[(0, 0)]);
    let draws = vec![10, 500, 9, 0, 999_999, 100];
    apply_fuzz(&mut g, 100, &draws);
    assert_eq!(g.live_cells(), vec![(2, 0), (0, 1)]);
}

#[test]
fn coordinate_list_skips_comments_and_malformed_lines() {
    let content = "# comment\n\n3 4\n5 x\n";
    assert_eq!(parse_coordinate_list(content.as_bytes()), vec![(3, 4)]);
    let g = load_coordinate_list(content.as_bytes(), 10, 10).unwrap();
    assert_eq!(g.live_cells(), vec![(3, 4)]);
}

#[test]
fn coordinate_list_field_forms() {
    let content = "  1\t2\r\n+3 -0\n3 4 5\n7\n-\n2147483648 1\n-2147483648 1\n#9 9\n 8 8\n1 2x\n";
    assert_eq!(
        parse_coordinate_list(content.as_bytes()),
        vec![(1, 2), (3, 0), (-2147483648, 1), (8, 8)]
    );
    assert_eq!(parse_coordinate_list("6 7".as_bytes()), vec![(6, 7)]);
    assert_eq!(parse_coordinate_list("".as_bytes()), vec![]);
}

#[test]
fn coordinate_list_out_of_bounds_is_rejected() {
    assert_eq!(load_coordinate_list("-1 3\n".as_bytes(), 10, 10).err(), Some(LoadError::OutOfBounds));
    assert_eq!(load_coordinate_list("1 1\n10 3\n".as_bytes(), 10, 10).err(), Some(LoadError::OutOfBounds));
    assert_eq!(load_coordinate_list("2 9\n".as_bytes(), 10, 9).err(), Some(LoadError::OutOfBounds));
    assert!(load_coordinate_list("9 8\n".as_bytes(), 10, 9).is_ok());
}

#[test]
fn rle_rows_and_runs() {
    let g = load_rle("2o$2b2o$2o!".as_bytes(), 0, 0, 10, 10).unwrap();
    assert_eq!(g.live_cells(), vec![(0, 0), (1, 0), (2, 1), (3, 1), (0, 2), (1, 2)]);
}

#[test]
fn rle_multi_digit_counts_comments_and_offset() {
    let content = "#C a comment with o and $\nbo$\n12o$3bo\n";
    let g = load_rle(content.as_bytes(), 2, 3, 20, 10).unwrap();
    let mut expected = vec![(3, 3)];
    for x in 2..14 {
        expected.push((x, 4));
    }
    expected.push((5, 5));
    assert_eq!(g.live_cells(), expected);
}

#[test]
fn rle_count_does_not_carry_over_a_line() {
    let g = load_rle("3\no".as_bytes(), 0, 0, 5, 5).unwrap();
    assert_eq!(g.live_cells(), vec![(0, 0)]);
}

#[test]
fn rle_zero_run_and_out_of_bounds() {
    let g = load_rle("0o".as_bytes(), 0, 0, 5, 5).unwrap();
    assert!(g.live_cells().is_empty());
    assert_eq!(load_rle("6o".as_bytes(), 0, 0, 5, 5).err(), Some(LoadError::OutOfBounds));
    assert_eq!(load_rle("o$o$o".as_bytes(), 0, 0, 5, 2).err(), Some(LoadError::OutOfBounds));
    assert_eq!(load_rle("o".as_bytes(), 50, 50, 20, 20).err(), Some(LoadError::OutOfBounds));
    assert!(load_rle("99999999999999999999999b$o".as_bytes(), 0, 0, 5, 5).is_ok());
    assert_eq!(
        load_rle("99999999999999999999999o".as_bytes(), 0, 0, 5, 5).err(),
        Some(LoadError::OutOfBounds)
    );
}

#[test]
fn format_follows_suffix() {
    assert_eq!(format_for_path("living_cells.txt".as_bytes()), Some(PatternFormat::CoordinateList));
    assert_eq!(format_for_path("glider.rle".as_bytes()), Some(PatternFormat::RunLengthEncoded));
    assert_eq!(format_for_path("glider.png".as_bytes()), None);
    assert_eq!(format_for_path("rle".as_bytes()), None);
}

#[test]
fn load_pattern_by_format() {
    let g = load_pattern("cells.txt".as_bytes(), "1 2\n".as_bytes(), 5, 5).unwrap();
    assert_eq!(g.live_cells(), vec![(1, 2)]);
    let g = load_pattern("cells.rle".as_bytes(), "2o".as_bytes(), 60, 60).unwrap();
    assert_eq!(g.live_cells(), vec![(50, 50), (51, 50)]);
    let g = load_pattern("cells.dat".as_bytes(), "1 2\n".as_bytes(), 5, 5).unwrap();
    assert!(g.live_cells().is_empty());
    assert_eq!(load_pattern("cells.rle".as_bytes(), "o".as_bytes(), 20, 20).err(), Some(LoadError::OutOfBounds));
}

#[test]
fn glider_moves_diagonally() {
    let glider = [(1, 0), (2, 1), (0, 2), (1, 2), (2, 2)];
    let start: Vec<(i64, i64)> = glider.iter().map(|&(x, y)| (x + 5, y + 5)).collect();
    let mut game = GameOfLife::from_grid(grid_with(20, 20, &start));
    for _ in 0..4 {
        game.step();
    }
    let mut expected: Vec<(usize, usize)> = glider.iter().map(|&(x, y)| ((x + 6) as usize, (y + 6) as usize)).collect();
    expected.sort_by_key(|&(x, y)| (y, x));
    assert_eq!(game.cells().live_cells(), expected);
    assert_eq!(game.generation(), 4);
}

#[test]
fn set_cell_out_of_bounds_is_ignored() {
    let mut g = grid_with(4, 3, &[(1, 1)]);
    let before = all_cells(&g);
    for &(x, y) in &[(-1, 0), (0, -1), (4, 0), (0, 3), (i64::MIN, i64::MAX), (100, 100)] {
        g.set_cell(x, y, true);
        assert_eq!(all_cells(&g), before);
    }
    g.set_cell(3, 2, true);
    g.set_cell(1, 1, false);
    assert_eq!(g.live_cells(), vec![(3, 2)]);
    assert_eq!(g.get_cell(3, 2), Some(true));
    assert_eq!(g.get_cell(4, 2), None);
}

#[test]
fn fill_cells_makes_a_run_live() {
    let mut g = Grid::new(6, 2);
    fill_cells(&mut g, 2, 1, 3);
    assert_eq!(g.live_cells(), vec![(2, 1), (3, 1), (4, 1)]);
}

#[test]
fn game_starts_paused_from_pattern() {
    let mut rng = StdRng::seed_from_u64(1);
    let game = GameOfLife::new("p.txt".as_bytes(), "1 1\n2 1\n3 1\n".as_bytes(), 6, 5, 0, &mut rng).unwrap();
    assert!(game.is_paused());
    assert_eq!(game.generation(), 0);
    assert_eq!(game.cells().live_cells(), vec![(1, 1), (2, 1), (3, 1)]);
    assert!(game.previous().live_cells().is_empty());
    let err = GameOfLife::new("p.txt".as_bytes(), "9 9\n".as_bytes(), 6, 5, 0, &mut rng).err();
    assert_eq!(err, Some(LoadError::OutOfBounds));
}

#[test]
fn game_update_respects_pause() {
    let mut game = GameOfLife::from_grid(grid_with(5, 5, &[(1, 2), (2, 2), (3, 2)]));
    assert!(!game.update(true));
    assert_eq!(game.generation(), 0);
    game.text_input('x');
    assert!(game.is_paused());
    game.text_input(' ');
    assert!(!game.is_paused());
    assert!(!game.update(false));
    assert!(game.update(true));
    assert_eq!(game.generation(), 1);
    assert_eq!(game.cells().live_cells(), vec![(2, 1), (2, 2), (2, 3)]);
    assert_eq!(game.previous().live_cells(), vec![(1, 2), (2, 2), (3, 2)]);
}

#[test]
fn redraw_everything_first_then_changes() {
    let mut game = GameOfLife::from_grid(grid_with(5, 5, &[(1, 2), (2, 2), (3, 2)]));
    let first = game.cells_to_draw();
    assert_eq!(first.len(), 25);
    assert_eq!(first[11], (1, 2, true));
    assert_eq!(first[0], (0, 0, false));
    game.step();
    assert_eq!(
        game.cells_to_draw(),
        vec![(2, 1, true), (1, 2, false), (3, 2, false), (2, 3, true)]
    );
}

#[test]
fn painting_with_the_pointer() {
    let mut game = GameOfLife::from_grid(Grid::new(5, 5));
    game.drag(1, 1);
    assert!(game.cells().live_cells().is_empty());
    game.press(0, 0);
    game.drag(1, 1);
    game.drag(7, 1);
    game.release();
    game.drag(2, 2);
    assert_eq!(game.cells().live_cells(), vec![(0, 0), (1, 1)]);
    game.set_cell(0, 0, false);
    game.set_cell(-3, 0, true);
    assert_eq!(game.get_cell(0, 0), Some(false));
    assert_eq!(game.get_cell(5, 0), None);
}
