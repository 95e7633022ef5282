use doom_fire::drift_source::DriftSource;
use doom_fire::heat_grid::{FireError, HeatGrid, LEVELS, MAX_LEVEL};
use doom_fire::stroke_painter::Vector2;

fn cells(grid: &HeatGrid) -> Vec<u8> {
    grid.snapshot().clone()
}

#[test]
fn new_seeds_the_last_row() {
    let grid = HeatGrid::new(4, 3).unwrap();
    assert_eq!(grid.width(), 4);
    assert_eq!(grid.height(), 3);
    assert_eq!(cells(&grid), vec![0, 0, 0, 0, 0, 0, 0, 0, 36, 36, 36, 36]);
}

#[test]
fn new_with_one_row_is_all_source() {
    let grid = HeatGrid::new(3, 1).unwrap();
    assert_eq!(cells(&grid), vec![36, 36, 36]);
    let cell = HeatGrid::new(1, 1).unwrap();
    assert_eq!(cells(&cell), vec![36]);
}

#[test]
fn new_rejects_zero_dimensions() {
    assert!(matches!(HeatGrid::new(0, 3), Err(FireError::InvalidDimension)));
    assert!(matches!(HeatGrid::new(4, 0), Err(FireError::InvalidDimension)));
    assert!(matches!(HeatGrid::new(0, 0), Err(FireError::InvalidDimension)));
}

#[test]
fn new_accepts_a_long_side() {
    let grid = HeatGrid::new(70_000, 2).unwrap();
    assert_eq!(grid.width(), 70_000);
    assert_eq!(grid.snapshot().len(), 140_000);
    assert!(grid.snapshot()[..70_000].iter().all(|&level| level == 0));
    assert!(grid.snapshot()[70_000..].iter().all(|&level| level == MAX_LEVEL));
}

#[test]
fn inject_paints_around_column_65535() {
    let mut grid = HeatGrid::new(70_000, 1).unwrap();
    grid.set_source(0);
    grid.inject(Vector2::new(65535, 0), Vector2::new(65535, 0));
    let after = grid.snapshot();
    assert_eq!(after[65535], 36);
    assert_eq!(after[65535 + 14], 33);
    assert_eq!(after[65535 + 15], 0);
    assert_eq!(after[65535 - 14], 33);
    assert_eq!(after[65535 - 15], 0);
    assert_eq!(after.iter().filter(|&&level| level != 0).count(), 29);
}

#[test]
fn levels_count_the_palette() {
    assert_eq!(LEVELS, 37);
    assert_eq!(MAX_LEVEL, LEVELS - 1);
}

#[test]
fn propagate_with_applies_each_drift() {
    let mut grid = HeatGrid::new(4, 3).unwrap();
    // Sources of the last row drift by 1, 2, 2 and 1: columns 0, 0, 1 and 3
    // of the row above are written, column 0 last by the source in column 1.
    grid.propagate_with(&vec![0, 0, 0, 0, 0, 0, 0, 0, 1, 2, 2, 1]);
    assert_eq!(cells(&grid), vec![0, 0, 0, 0, 36, 36, 0, 35, 36, 36, 36, 36]);
}

#[test]
fn propagate_with_drops_what_leaves_the_grid() {
    let mut grid = HeatGrid::new(3, 2).unwrap();
    // Column 0 drifts by 3 to column -2, column 1 by 3 to column -1, column 2
    // by 0 to column 3: nothing lands.
    grid.propagate_with(&vec![0, 0, 0, 3, 3, 0]);
    assert_eq!(cells(&grid), vec![0, 0, 0, 36, 36, 36]);
}

#[test]
fn propagate_with_lowers_by_one_on_odd_drift() {
    let mut grid = HeatGrid::new(3, 2).unwrap();
    // Drift 1 keeps the column and costs a level; drift 2 moves left for free.
    grid.propagate_with(&vec![0, 0, 0, 1, 1, 2]);
    assert_eq!(cells(&grid), vec![35, 36, 0, 36, 36, 36]);
    let mut other = HeatGrid::new(3, 2).unwrap();
    // Drift 0 moves right for free, drift 3 moves two to the left at a cost.
    other.propagate_with(&vec![0, 0, 0, 0, 0, 3]);
    assert_eq!(cells(&other), vec![35, 36, 36, 36, 36, 36]);
}

#[test]
fn propagate_with_reads_the_grid_as_it_was() {
    let mut grid = HeatGrid::new(2, 3).unwrap();
    // First step: both sources keep their column at a cost.
    grid.propagate_with(&vec![0, 0, 0, 0, 1, 1]);
    assert_eq!(cells(&grid), vec![0, 0, 35, 35, 36, 36]);
    // Second step: the source at (0, 2) drifts right into (1, 1). The cell
    // (1, 1) still spreads its old level 35 to (0, 0), not the 36 written to
    // it in this step; nothing lands on (1, 0) nor on (0, 1), which keep
    // their levels.
    grid.propagate_with(&vec![0, 0, 1, 2, 0, 3]);
    assert_eq!(cells(&grid), vec![35, 0, 35, 36, 36, 36]);
}

#[test]
fn propagate_with_puts_out_what_lies_above_a_cold_cell() {
    let mut grid = HeatGrid::new(2, 3).unwrap();
    grid.propagate_with(&vec![0, 0, 0, 0, 1, 1]);
    grid.propagate_with(&vec![0, 0, 1, 1, 1, 1]);
    assert_eq!(cells(&grid), vec![34, 34, 35, 35, 36, 36]);
    grid.set_source(0);
    grid.propagate_with(&vec![0, 0, 1, 1, 0, 0]);
    assert_eq!(cells(&grid), vec![34, 34, 0, 0, 0, 0]);
    grid.propagate_with(&vec![0, 0, 0, 0, 0, 0]);
    assert_eq!(cells(&grid), vec![0, 0, 0, 0, 0, 0]);
}

#[test]
fn propagate_with_a_fixed_seed_is_exact() {
    let mut grid = HeatGrid::new(4, 3).unwrap();
    let mut source = DriftSource::seeded(42);
    grid.propagate(&mut source);
    assert_eq!(&cells(&grid)[4..8], &[36, 36, 0, 35]);
    assert_eq!(cells(&grid), vec![0, 0, 0, 0, 36, 36, 0, 35, 36, 36, 36, 36]);
    grid.propagate(&mut source);
    assert_eq!(cells(&grid), vec![0, 0, 0, 0, 35, 35, 0, 35, 36, 36, 36, 36]);
}

#[test]
fn draw_drifts_draws_for_burning_sources_only() {
    let grid = HeatGrid::new(4, 3).unwrap();
    let mut source = DriftSource::seeded(42);
    let drifts = grid.draw_drifts(&mut source);
    assert_eq!(drifts, vec![0, 0, 0, 0, 0, 0, 0, 0, 1, 2, 2, 1]);
    // The four draws were the first four of the stream.
    let mut again = DriftSource::seeded(42);
    let first: Vec<u8> = (0..6).map(|_| again.next_drift()).collect();
    assert_eq!(first, vec![1, 2, 2, 1, 3, 3]);
    assert_eq!(source.next_drift(), 3);
}

#[test]
fn draw_drifts_goes_down_each_column_in_turn() {
    let mut grid = HeatGrid::new(2, 3).unwrap();
    grid.propagate_with(&vec![0, 0, 0, 0, 1, 1]);
    let mut source = DriftSource::seeded(42);
    // Stream 1, 2, 2, 1: column 0 takes rows 1 and 2, then column 1 does.
    assert_eq!(grid.draw_drifts(&mut source), vec![0, 0, 1, 2, 2, 1]);
}

#[test]
fn propagate_equals_propagate_with_the_drawn_drifts() {
    let mut by_source = HeatGrid::new(7, 5).unwrap();
    let mut by_hand = HeatGrid::new(7, 5).unwrap();
    let mut source = DriftSource::seeded(2024);
    let mut same = DriftSource::seeded(2024);
    for _ in 0..20 {
        let drifts = by_hand.draw_drifts(&mut same);
        by_hand.propagate_with(&drifts);
        by_source.propagate(&mut source);
        assert_eq!(cells(&by_source), cells(&by_hand));
    }
}

#[test]
fn levels_stay_in_range() {
    let mut grid = HeatGrid::new(16, 12).unwrap();
    let mut source = DriftSource::seeded(7);
    for step in 0..200u32 {
        if step % 3 == 0 {
            let a = Vector2::new(step % 17, step % 5);
            let b = Vector2::new((step * 7) % 17, (step * 3) % 13);
            grid.inject(a, b);
        }
        grid.propagate(&mut source);
        assert!(grid.snapshot().iter().all(|&level| level <= MAX_LEVEL));
        assert_eq!(grid.snapshot().len(), 16 * 12);
    }
}

#[test]
fn the_source_row_is_kept() {
    let mut grid = HeatGrid::new(9, 4).unwrap();
    let mut source = DriftSource::seeded(3);
    for _ in 0..50 {
        grid.propagate(&mut source);
        assert_eq!(&cells(&grid)[27..36], &[36; 9]);
    }
}

#[test]
fn an_extinguished_fire_stays_extinguished() {
    let mut grid = HeatGrid::new(4, 3).unwrap();
    grid.set_source(0);
    assert_eq!(cells(&grid), vec![0; 12]);
    let mut source = DriftSource::seeded(11);
    for _ in 0..10 {
        grid.propagate(&mut source);
        assert_eq!(cells(&grid), vec![0; 12]);
    }
    grid.propagate_with(&vec![3, 2, 1, 0, 3, 2, 1, 0, 3, 2, 1, 0]);
    assert_eq!(cells(&grid), vec![0; 12]);
}

#[test]
fn set_source_caps_the_level() {
    let mut grid = HeatGrid::new(3, 2).unwrap();
    grid.set_source(12);
    assert_eq!(cells(&grid), vec![0, 0, 0, 12, 12, 12]);
    grid.set_source(200);
    assert_eq!(cells(&grid), vec![0, 0, 0, 36, 36, 36]);
}

#[test]
fn inject_paints_a_stroke_along_the_first_row() {
    let mut grid = HeatGrid::new(4, 3).unwrap();
    grid.inject(Vector2::new(0, 0), Vector2::new(3, 0));
    // Row 0 lies on the stroke, row 1 at distance one; row 2 was hot already.
    assert_eq!(cells(&grid), vec![36, 36, 36, 36, 35, 35, 35, 35, 36, 36, 36, 36]);
}

#[test]
fn inject_never_lowers_a_cell() {
    let mut grid = HeatGrid::new(40, 30).unwrap();
    let mut source = DriftSource::seeded(5);
    for _ in 0..25 {
        grid.propagate(&mut source);
    }
    let before = cells(&grid);
    grid.inject(Vector2::new(3, 4), Vector2::new(30, 22));
    let after = cells(&grid);
    assert_eq!(after.len(), before.len());
    assert!(before.iter().zip(after.iter()).all(|(old, new)| new >= old));
    assert!(before.iter().zip(after.iter()).any(|(old, new)| new > old));
}

#[test]
fn inject_takes_the_greater_level() {
    let mut grid = HeatGrid::new(1, 40).unwrap();
    grid.set_source(34);
    // The point stroke at the last cell offers it 36; fourteen cells away it
    // offers 33, fifteen away nothing.
    grid.inject(Vector2::new(0, 39), Vector2::new(0, 39));
    let after = cells(&grid);
    assert_eq!(after[39], 36);
    assert_eq!(after[38], 35);
    assert_eq!(after[25], 33);
    assert_eq!(after[24], 0);
    // A second, cooler offer leaves the hot cell as it is.
    grid.inject(Vector2::new(0, 30), Vector2::new(0, 30));
    assert_eq!(cells(&grid)[39], 36);
    assert_eq!(cells(&grid)[30], 36);
    assert_eq!(cells(&grid)[38], 35);
}

#[test]
fn inject_of_a_point_is_the_degenerate_segment() {
    let mut grid = HeatGrid::new(40, 1).unwrap();
    grid.set_source(0);
    grid.inject(Vector2::new(10, 0), Vector2::new(10, 0));
    let mut expected = vec![0u8; 40];
    let by_distance = [36, 35, 35, 35, 35, 35, 35, 35, 34, 34, 34, 34, 34, 34, 33];
    for (d, &level) in by_distance.iter().enumerate() {
        expected[10 + d] = level;
        if d <= 10 {
            expected[10 - d] = level;
        }
    }
    assert_eq!(cells(&grid), expected);
}

#[test]
fn inject_reaches_past_the_ends_of_the_stroke() {
    let mut grid = HeatGrid::new(40, 1).unwrap();
    grid.set_source(0);
    grid.inject(Vector2::new(20, 0), Vector2::new(22, 0));
    let after = cells(&grid);
    assert_eq!(&after[20..23], &[36, 36, 36]);
    assert_eq!(after[19], 35);
    assert_eq!(after[23], 35);
    assert_eq!(after[6], 33);
    assert_eq!(after[5], 0);
    assert_eq!(after[36], 33);
    assert_eq!(after[37], 0);
}

#[test]
fn inject_paints_at_the_far_side_of_a_wide_grid() {
    let mut grid = HeatGrid::new(70_000, 1).unwrap();
    grid.set_source(0);
    grid.inject(Vector2::new(69_990, 0), Vector2::new(69_995, 0));
    let after = grid.snapshot();
    assert_eq!(after[69_975], 0);
    assert_eq!(after[69_976], 33);
    assert_eq!(&after[69_990..69_996], &[36; 6]);
    assert_eq!(after[69_999], 35);
    assert_eq!(after.iter().filter(|&&level| level != 0).count(), 24);
}

#[test]
fn draw_drifts_leaves_the_source_after_its_draws() {
    let mut grid = HeatGrid::new(3, 3).unwrap();
    grid.propagate_with(&vec![0, 0, 0, 0, 0, 0, 1, 1, 3]);
    assert_eq!(grid.snapshot(), &vec![0, 0, 0, 35, 35, 0, 36, 36, 36]);
    let mut source = DriftSource::seeded(42);
    // Five cells burn below the first row: five draws, taken column by
    // column, and the sixth drift of the stream comes next.
    assert_eq!(grid.draw_drifts(&mut source), vec![0, 0, 0, 1, 2, 0, 2, 1, 3]);
    assert_eq!(source.next_drift(), 3);
    // A grid of one row has no source cell and draws nothing.
    let row = HeatGrid::new(5, 1).unwrap();
    let mut untouched = DriftSource::seeded(42);
    assert_eq!(row.draw_drifts(&mut untouched), vec![0; 5]);
    assert_eq!(untouched.next_drift(), 1);
}
