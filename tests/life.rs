use game_of_life::life::{seed_patterns, MIN_HEIGHT, MIN_WIDTH};
use game_of_life::{Color, GameOfLife};

const W: usize = 80;
const H: usize = 40;

fn empty_game() -> GameOfLife {
    let mut g = GameOfLife::new(W, H);
    g.clear();
    g
}

fn alive_cells(g: &GameOfLife) -> Vec<(usize, usize)> {
    let mut v = Vec::new();
    for y in 0..H {
        for x in 0..W {
            if g.is_alive(x, y) {
                v.push((x, y));
            }
        }
    }
    v
}

#[test]
fn corner_cell_is_neighbor_across_edges() {
    let mut g = empty_game();
    g.set_cell(0, 0, true);
    assert_eq!(g.count_neighbors(79, 39), 1);
    assert_eq!(g.count_neighbors(0, 39), 1);
    assert_eq!(g.count_neighbors(1, 39), 1);
    assert_eq!(g.count_neighbors(79, 0), 1);
    assert_eq!(g.count_neighbors(79, 1), 1);
    assert_eq!(g.count_neighbors(1, 1), 1);
    assert_eq!(g.count_neighbors(0, 0), 0);
    assert_eq!(g.count_neighbors(2, 0), 0);
    assert_eq!(g.count_neighbors(78, 38), 0);
}

#[test]
fn all_corners_see_each_other() {
    let mut g = empty_game();
    g.set_cell(0, 0, true);
    g.set_cell(79, 0, true);
    g.set_cell(0, 39, true);
    g.set_cell(79, 39, true);
    assert_eq!(g.count_neighbors(0, 0), 3);
    assert_eq!(g.count_neighbors(79, 39), 3);
}

#[test]
fn block_is_still_life() {
    let mut g = empty_game();
    for (x, y) in [(10, 10), (11, 10), (10, 11), (11, 11)] {
        g.set_cell(x, y, true);
    }
    let before = alive_cells(&g);
    for (x, y) in [(10, 10), (11, 10), (10, 11), (11, 11)] {
        assert_eq!(g.count_neighbors(x, y), 3);
    }
    g.update();
    assert_eq!(alive_cells(&g), before);
    g.update();
    assert_eq!(alive_cells(&g), before);
}

#[test]
fn block_across_the_corner_is_still_life() {
    let mut g = empty_game();
    for (x, y) in [(79, 39), (0, 39), (79, 0), (0, 0)] {
        g.set_cell(x, y, true);
    }
    let before = alive_cells(&g);
    g.update();
    assert_eq!(alive_cells(&g), before);
}

#[test]
fn blinker_oscillates_with_period_two() {
    let mut g = empty_game();
    let horizontal = vec![(20, 21), (21, 21), (22, 21)];
    for &(x, y) in &horizontal {
        g.set_cell(x, y, true);
    }
    g.update();
    assert_eq!(alive_cells(&g), vec![(21, 20), (21, 21), (21, 22)]);
    g.update();
    assert_eq!(alive_cells(&g), horizontal);
}

#[test]
fn dead_cell_with_three_neighbors_is_born() {
    let mut g = empty_game();
    g.set_cell(30, 19, true);
    g.set_cell(29, 21, true);
    g.set_cell(31, 21, true);
    assert!(!g.is_alive(30, 20));
    assert_eq!(g.count_neighbors(30, 20), 3);
    g.update();
    assert!(g.is_alive(30, 20));
}

#[test]
fn dead_cell_with_two_neighbors_stays_dead() {
    let mut g = empty_game();
    g.set_cell(29, 19, true);
    g.set_cell(31, 21, true);
    assert_eq!(g.count_neighbors(30, 20), 2);
    g.update();
    assert!(!g.is_alive(30, 20));
}

#[test]
fn dead_cell_with_four_neighbors_stays_dead() {
    let mut g = empty_game();
    for (x, y) in [(29, 19), (31, 19), (29, 21), (31, 21)] {
        g.set_cell(x, y, true);
    }
    assert_eq!(g.count_neighbors(30, 20), 4);
    g.update();
    assert!(!g.is_alive(30, 20));
}

#[test]
fn crowded_and_lonely_cells_die() {
    let mut g = empty_game();
    g.set_cell(5, 5, true);
    for (x, y) in [(40, 20), (39, 19), (41, 19), (39, 21), (41, 21)] {
        g.set_cell(x, y, true);
    }
    assert_eq!(g.count_neighbors(40, 20), 4);
    g.update();
    assert!(!g.is_alive(5, 5));
    assert!(!g.is_alive(40, 20));
}

#[test]
fn render_then_display_twice_gives_same_text() {
    let mut g = GameOfLife::new(W, H);
    g.render();
    let first = g.display();
    g.render();
    let second = g.display();
    assert_eq!(first, second);
    let expected_len = 10 + H * (W * 2 + 1);
    assert_eq!(first.chars().count(), expected_len);
}

#[test]
fn render_shows_alive_cells_as_blocks() {
    let mut g = empty_game();
    g.set_cell(0, 0, true);
    g.set_cell(79, 39, true);
    g.render();
    let text = g.display();
    let body = text.strip_prefix("\u{1b}[2J\u{1b}[1;1H").unwrap();
    let rows: Vec<&str> = body.split_terminator('\n').collect();
    assert_eq!(rows.len(), H);
    let blank = " ".repeat(2 * W);
    assert_eq!(rows[0], format!("\u{2588}\u{2588}{}", " ".repeat(2 * W - 2)));
    assert_eq!(rows[39], format!("{}\u{2588}\u{2588}", " ".repeat(2 * W - 2)));
    for row in &rows[1..39] {
        assert_eq!(*row, blank);
    }
}

#[test]
fn generation_counts_updates() {
    let mut g = GameOfLife::new(W, H);
    assert_eq!(g.generation(), 0);
    for n in 1..=7 {
        g.update();
        assert_eq!(g.generation(), n);
    }
}

#[test]
fn update_does_not_touch_framebuffer() {
    let mut g = GameOfLife::new(W, H);
    g.render();
    let before = g.display();
    g.update();
    assert_eq!(g.display(), before);
    g.render();
    assert_ne!(g.display(), before);
}

#[test]
fn new_game_is_seeded_with_the_patterns() {
    let g = GameOfLife::new(W, H);
    let alive = alive_cells(&g);
    assert_eq!(alive.len(), 5 + 3 + 6 + 6 + 9 + 5 + 48 + 7 + 7);
    // glider at row 1, column 1
    for (x, y) in [(2, 1), (3, 2), (1, 3), (2, 3), (3, 3)] {
        assert!(g.is_alive(x, y));
    }
    // blinker at row 10, column 10
    for (x, y) in [(10, 11), (11, 11), (12, 11)] {
        assert!(g.is_alive(x, y));
    }
    // beacon at row 30, column 5
    for (x, y) in [(5, 30), (6, 30), (5, 31), (8, 32), (7, 33), (8, 33)] {
        assert!(g.is_alive(x, y));
    }
    // pulsar at row 2, column 65: its far corner
    assert!(g.is_alive(75, 14));
    // acorn at row 15, column 35
    assert!(g.is_alive(36, 15));
    assert!(!g.is_alive(0, 0));
}

#[test]
fn seeding_after_changes_restores_the_patterns() {
    let mut g = GameOfLife::new(W, H);
    let seeded = alive_cells(&g);
    g.update();
    g.set_cell(0, 0, true);
    g.load_multiple_patterns();
    assert_eq!(alive_cells(&g), seeded);
}

#[test]
fn seed_table_lists_nine_shapes() {
    let table = seed_patterns();
    assert_eq!(table.len(), 9);
    let anchors: Vec<(usize, usize)> = table.iter().map(|p| (p.row, p.col)).collect();
    assert_eq!(
        anchors,
        vec![(1, 1), (10, 10), (20, 20), (30, 5), (5, 50), (35, 45), (2, 65), (25, 10), (15, 35)]
    );
    for p in &table {
        for &(dx, dy) in &p.offsets {
            assert!(p.col + dx < MIN_WIDTH);
            assert!(p.row + dy < MIN_HEIGHT);
        }
    }
}

#[test]
fn smallest_grid_holds_every_shape() {
    let g = GameOfLife::new(MIN_WIDTH, MIN_HEIGHT);
    assert!(g.is_alive(77, 4));
    assert!(g.is_alive(46, 37));
    let mut n = 0;
    for y in 0..MIN_HEIGHT {
        for x in 0..MIN_WIDTH {
            if g.is_alive(x, y) {
                n += 1;
            }
        }
    }
    assert_eq!(n, 96);
}

#[test]
fn new_framebuffer_of_game_is_black() {
    let mut g = empty_game();
    g.render();
    let text = g.display();
    assert!(!text.contains('\u{2588}'));
    let _ = Color::black();
}
