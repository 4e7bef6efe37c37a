use arcade_markets::life::{GridState, Pattern, GRID_HEIGHT, GRID_WIDTH, GRID_WORDS, LCG_MULTIPLIER};

fn grid_with(cells: &[(usize, usize)]) -> GridState {
    let mut g = GridState::new();
    for &(x, y) in cells {
        g.set(x, y, true);
    }
    g
}

#[test]
fn new_grid_is_empty() {
    let g = GridState::new();
    assert_eq!(g.cells.len(), GRID_WORDS);
    assert_eq!(g.generation, 0);
    assert!(!g.running);
    assert_eq!(g.live_count(), 0);
    assert!(g.live_cells().is_empty());
}

#[test]
fn set_get_and_bounds() {
    let mut g = GridState::new();
    g.set(3, 4, true);
    assert!(g.get(3, 4));
    assert!(!g.get(4, 3));
    assert_eq!(g.cells[(4 * 32 + 3) / 64], 1u64 << ((4 * 32 + 3) % 64));
    g.set(GRID_WIDTH, 0, true);
    assert!(!g.get(GRID_WIDTH, 0));
    assert_eq!(g.live_count(), 1);
    g.set(3, 4, false);
    assert!(!g.get(3, 4));
    assert_eq!(g.live_count(), 0);
}

#[test]
fn toggle_flips_a_cell() {
    let mut g = GridState::new();
    g.toggle(31, 31);
    assert!(g.get(31, 31));
    g.toggle(31, 31);
    assert!(!g.get(31, 31));
    g.toggle(0, GRID_HEIGHT);
    assert_eq!(g.live_count(), 0);
}

#[test]
fn neighbors_are_counted_around_a_cell() {
    let g = grid_with(&[(0, 0), (1, 0), (2, 0), (0, 1), (2, 1), (0, 2), (1, 2), (2, 2)]);
    assert_eq!(g.count_neighbors(1, 1), 8);
    assert_eq!(g.count_neighbors(0, 0), 2);
    assert_eq!(g.count_neighbors(3, 1), 3);
    assert_eq!(g.count_neighbors(32, 0), 0);
    assert_eq!(g.count_neighbors(100, 100), 0);
}

#[test]
fn blinker_oscillates() {
    let mut g = grid_with(&[(4, 5), (5, 5), (6, 5)]);
    g.step();
    assert_eq!(g.generation, 1);
    assert_eq!(g.live_cells(), vec![(5, 4), (5, 5), (5, 6)]);
    g.step();
    assert_eq!(g.generation, 2);
    assert_eq!(g.live_cells(), vec![(4, 5), (5, 5), (6, 5)]);
}

#[test]
fn block_is_still_and_lone_cell_dies() {
    let mut g = grid_with(&[(10, 10), (11, 10), (10, 11), (11, 11), (20, 20)]);
    g.running = true;
    g.step();
    assert_eq!(g.live_cells(), vec![(10, 10), (11, 10), (10, 11), (11, 11)]);
    assert!(g.running);
}

#[test]
fn clear_resets_everything() {
    let mut g = grid_with(&[(1, 1), (2, 2)]);
    g.generation = 9;
    g.running = true;
    g.clear();
    assert_eq!(g.live_count(), 0);
    assert_eq!(g.generation, 0);
    assert!(!g.running);
}

#[test]
fn randomize_fills_words_from_the_seed() {
    let mut g = GridState::new();
    g.generation = 3;
    g.randomize(0);
    assert_eq!(g.cells[0], 1);
    assert_eq!(g.cells[1], LCG_MULTIPLIER.wrapping_add(1));
    assert_eq!(g.cells[2], g.cells[1].wrapping_mul(LCG_MULTIPLIER).wrapping_add(1));
    assert_eq!(g.generation, 0);
    let expected: u32 = g.cells.iter().map(|w| w.count_ones()).sum();
    assert_eq!(g.live_count(), expected);
}

#[test]
fn live_cells_are_row_major() {
    let g = grid_with(&[(5, 1), (2, 3), (0, 1)]);
    assert_eq!(g.live_cells(), vec![(0, 1), (5, 1), (2, 3)]);
}

#[test]
fn pattern_cells() {
    assert_eq!(Pattern::Block.cells(), vec![(0, 0), (1, 0), (0, 1), (1, 1)]);
    assert_eq!(Pattern::Blinker.cells().len(), 3);
    assert_eq!(Pattern::Glider.cells(), vec![(1, 0), (2, 1), (0, 2), (1, 2), (2, 2)]);
    assert_eq!(Pattern::Lwss.cells().len(), 9);
    assert_eq!(Pattern::GliderGun.cells().len(), 36);
    assert!(Pattern::Random.cells().is_empty());
}

#[test]
fn glider_moves_diagonally_in_four_steps() {
    let mut g = GridState::new();
    for (dx, dy) in Pattern::Glider.cells() {
        g.set(5 + dx as usize, 5 + dy as usize, true);
    }
    for _ in 0..4 {
        g.step();
    }
    let moved: Vec<(u32, u32)> = Pattern::Glider
        .cells()
        .iter()
        .map(|&(dx, dy)| (6 + dx as u32, 6 + dy as u32))
        .collect();
    let mut got = g.live_cells();
    got.sort_by_key(|&(x, y)| (y, x));
    let mut want = moved;
    want.sort_by_key(|&(x, y)| (y, x));
    assert_eq!(got, want);
}
