use bigsryai::layout::{best_columns, div_ceil};

#[test]
fn div_ceil_rounds_up() {
    assert_eq!(div_ceil(7, 2), 4);
    assert_eq!(div_ceil(8, 2), 4);
    assert_eq!(div_ceil(0, 3), 0);
    assert_eq!(div_ceil(u32::MAX, 1), u32::MAX);
    assert_eq!(div_ceil(u32::MAX, 2), 1 << 31);
}

#[test]
fn no_cells_gives_one_column() {
    assert_eq!(best_columns(0, 10, 10, 100, 100), Some(1));
}

#[test]
fn square_cells_on_a_wide_target() {
    // c = 1: |1*10*10 - 3*10*30| = 800; c = 2: |200 - 600| = 400; c = 3: |300 - 300| = 0
    assert_eq!(best_columns(3, 10, 10, 30, 10), Some(3));
}

#[test]
fn search_stops_after_the_grid_gets_too_wide() {
    // 4 cells of 2 x 2 on 4 x 4: c = 1 scores 24, c = 2 scores 0, c = 3 is too wide (24 > 16).
    assert_eq!(best_columns(4, 2, 2, 4, 4), Some(2));
    // 10 cells of 1 x 1 on a 1 x 100 column: c = 1 is already too wide? 1*1*100 = 100 > 10*1*1 = 10
    assert_eq!(best_columns(10, 1, 1, 1, 100), Some(1));
}

#[test]
fn first_of_equal_scores_wins() {
    // 2 cells of 1 x 1 on a 3 x 2 target: c = 1: |2 - 6| = 4, c = 2: |4 - 3| = 1 and too wide.
    assert_eq!(best_columns(2, 1, 1, 3, 2), Some(2));
    // ties: 4 cells 1 x 1, target 1 x 1: c = 1: |1 - 4| = 3, c = 2: |2 - 2| = 0, c = 3: |3 - 2| = 1 too wide
    assert_eq!(best_columns(4, 1, 1, 1, 1), Some(2));
}

#[test]
fn overflow_is_reported() {
    // c = 1: 1 * 70000 * 70000 overflows u32
    assert_eq!(best_columns(2, 70000, 1, 1, 70000), None);
    // the vertical extent overflows: ceil(5/1) * 1_000_000 * 1_000
    assert_eq!(best_columns(5, 1, 1_000_000, 1_000, 1), None);
}

#[test]
fn overflow_beyond_the_stop_is_never_reached() {
    // c = 1 is already too wide (1 * 1 * u32::MAX > 10 * 1 * 1), so c = 2,
    // whose extent 2 * u32::MAX would overflow, is not scored.
    assert_eq!(best_columns(10, 1, 1, 1, u32::MAX), Some(1));
}

fn first_best_over_all(count: u32, cw: u32, ch: u32, w: u32, h: u32) -> u32 {
    let mut best = u64::MAX;
    let mut cols = 1;
    for c in 1..=count as u64 {
        let a = c * cw as u64 * h as u64;
        let b = (count as u64).div_ceil(c) * ch as u64 * w as u64;
        let score = a.max(b) - a.min(b);
        if score < best {
            best = score;
            cols = c as u32;
        }
    }
    cols
}

#[test]
fn stopping_early_finds_the_best_over_every_column_count() {
    for &(count, cw, ch, w, h) in &[
        (37u32, 47u32, 22u32, 1920u32, 1080u32),
        (100, 10, 10, 100, 100),
        (13, 3, 7, 50, 9),
        (64, 1, 1, 4, 1),
        (5, 9, 2, 1, 30),
        (250, 120, 40, 1920, 1080),
    ] {
        assert_eq!(best_columns(count, cw, ch, w, h), Some(first_best_over_all(count, cw, ch, w, h)));
    }
}

#[test]
fn a_wide_target_gets_one_row() {
    // 5 * 10 * 10 <= 10 * 100: one row of five
    assert_eq!(best_columns(5, 10, 10, 100, 10), Some(5));
    assert_eq!(best_columns(1, 3, 3, 9, 9), Some(1));
}
