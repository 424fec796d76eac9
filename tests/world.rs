use life_grid::{life_rules, World};

fn world_with(width: usize, height: usize, alive: &[usize]) -> World {
    let mut w = World::new(width, height);
    for &i in alive {
        w.set(i, true);
    }
    w
}

fn alive_cells(w: &World) -> Vec<usize> {
    (0..w.size()).filter(|&i| w.get(i)).collect()
}

#[test]
fn new_world_is_all_dead() {
    let w = World::new(4, 3);
    assert_eq!(w.width(), 4);
    assert_eq!(w.height(), 3);
    assert_eq!(w.size(), 12);
    assert!(alive_cells(&w).is_empty());
}

#[test]
fn set_then_get_round_trip() {
    let mut w = World::new(5, 4);
    for idx in 0..w.size() {
        w.set(idx, true);
        assert!(w.get(idx));
        w.set(idx, false);
        assert!(!w.get(idx));
    }
}

#[test]
fn set_leaves_other_cells_alone() {
    let mut w = World::new(3, 3);
    w.set(4, true);
    assert_eq!(alive_cells(&w), vec![4]);
}

#[test]
fn rule_table_is_lifes() {
    let expected = vec![
        (true, false),
        (true, false),
        (true, true),
        (false, true),
        (true, false),
        (true, false),
        (true, false),
        (true, false),
        (true, false),
    ];
    assert_eq!(life_rules(), expected);
}

#[test]
fn corner_and_interior_candidates() {
    let all: Vec<usize> = (0..9).collect();
    let w = world_with(3, 3, &all);
    assert_eq!(w.neighbors(0), 3);
    assert_eq!(w.neighbors(2), 3);
    assert_eq!(w.neighbors(6), 3);
    assert_eq!(w.neighbors(8), 3);
    assert_eq!(w.neighbors(1), 5);
    assert_eq!(w.neighbors(3), 5);
    assert_eq!(w.neighbors(4), 8);
}

#[test]
fn edges_do_not_wrap() {
    // a live cell in the last column is no neighbor of the first column of the next row
    let w = world_with(4, 3, &[3]);
    assert_eq!(w.neighbors(4), 0);
    assert_eq!(w.neighbors(2), 1);
    assert_eq!(w.neighbors(7), 1);
    assert_eq!(w.neighbors(6), 1);
}

#[test]
fn single_row_and_column_grids() {
    let w = world_with(5, 1, &[0, 1, 2, 3, 4]);
    assert_eq!(w.neighbors(0), 1);
    assert_eq!(w.neighbors(2), 2);
    let w = world_with(1, 4, &[0, 1, 2, 3]);
    assert_eq!(w.neighbors(0), 1);
    assert_eq!(w.neighbors(1), 2);
    let w = world_with(1, 1, &[0]);
    assert_eq!(w.neighbors(0), 0);
}

#[test]
fn isolated_cell_dies() {
    let mut w = world_with(5, 5, &[12]);
    assert_eq!(w.neighbors(12), 0);
    w.cycle();
    assert!(alive_cells(&w).is_empty());
}

#[test]
fn square_is_still_life() {
    let square = [6, 7, 11, 12];
    let mut w = world_with(5, 5, &square);
    for &i in &square {
        assert_eq!(w.neighbors(i), 3);
    }
    w.cycle();
    assert_eq!(alive_cells(&w), square.to_vec());
    w.cycle();
    assert_eq!(alive_cells(&w), square.to_vec());
}

#[test]
fn square_in_corner_is_still_life() {
    let square = [0, 1, 4, 5];
    let mut w = world_with(4, 4, &square);
    w.cycle();
    assert_eq!(alive_cells(&w), square.to_vec());
}

#[test]
fn dead_cell_with_three_neighbors_is_born() {
    // cell 4 (center of 3x3) with neighbors 0, 1, 2 alive
    let mut w = world_with(3, 3, &[0, 1, 2]);
    assert_eq!(w.neighbors(4), 3);
    w.cycle();
    assert!(w.get(4));
}

#[test]
fn dead_cell_with_two_neighbors_stays_dead() {
    let mut w = world_with(3, 3, &[0, 2]);
    assert_eq!(w.neighbors(4), 2);
    w.cycle();
    assert!(!w.get(4));
}

#[test]
fn dead_cell_with_four_neighbors_stays_dead() {
    let mut w = world_with(3, 3, &[0, 2, 6, 8]);
    assert_eq!(w.neighbors(4), 4);
    w.cycle();
    assert!(!w.get(4));
}

#[test]
fn live_cell_survives_with_two_or_three_and_dies_otherwise() {
    let mut w = world_with(3, 3, &[4, 0, 2]);
    w.cycle();
    assert!(w.get(4));
    let mut w = world_with(3, 3, &[4, 0, 2, 6]);
    w.cycle();
    assert!(w.get(4));
    let mut w = world_with(3, 3, &[4, 0, 2, 6, 8]);
    w.cycle();
    assert!(!w.get(4));
    let mut w = world_with(3, 3, &[4, 0]);
    w.cycle();
    assert!(!w.get(4));
}

#[test]
fn step_reads_only_the_current_generation() {
    // A horizontal blinker. Cell 7 (above the middle) is processed before
    // cell 11 and becomes alive; had its new state leaked into the pass,
    // cell 11 would count four live neighbors and die.
    let mut w = world_with(5, 5, &[11, 12, 13]);
    w.cycle();
    assert_eq!(alive_cells(&w), vec![7, 12, 17]);
    w.cycle();
    assert_eq!(alive_cells(&w), vec![11, 12, 13]);
}

#[test]
fn render_single_live_corner() {
    // each line holds `width` glyphs
    let w = world_with(3, 2, &[0]);
    assert_eq!(w.render(), "*  \n   \n");
    let w = world_with(2, 2, &[0]);
    assert_eq!(w.render(), "* \n  \n");
}

#[test]
fn render_shape() {
    let w = world_with(4, 3, &[1, 6, 11]);
    assert_eq!(w.render(), " *  \n  * \n   *\n");
    let w = World::new(2, 2);
    assert_eq!(w.render(), "  \n  \n");
}

#[test]
fn render_follows_a_step() {
    let mut w = world_with(3, 3, &[3, 4, 5]);
    w.cycle();
    assert_eq!(w.render(), " * \n * \n * \n");
}

#[test]
fn seed_cells_ignores_repeats() {
    let mut w = World::new(3, 3);
    w.seed_cells(&vec![2, 5, 2, 5, 8]);
    assert_eq!(alive_cells(&w), vec![2, 5, 8]);
}

#[test]
fn seed_cells_keeps_live_cells() {
    let mut w = world_with(3, 3, &[0]);
    w.seed_cells(&vec![4]);
    assert_eq!(alive_cells(&w), vec![0, 4]);
}

#[test]
fn seed_draws_inside_the_grid() {
    let mut w = World::new(3, 2);
    w.seed(100);
    let n = alive_cells(&w).len();
    assert!(n >= 1 && n <= 6);
    let mut w = World::new(1, 1);
    w.seed(1);
    assert!(w.get(0));
}

#[test]
fn seed_with_zero_draws_changes_nothing() {
    let mut w = World::new(4, 4);
    w.seed(0);
    assert!(alive_cells(&w).is_empty());
}

#[test]
fn seed_at_most_target_cells() {
    let mut w = World::new(80, 25);
    w.seed(600);
    let n = alive_cells(&w).len();
    assert!(n >= 1 && n <= 600);
}
