use pixel_shift::grid::{PixelGrid, Rgb};
use pixel_shift::partition::Span;
use pixel_shift::stage::{shift_columns, shift_columns_band, shift_rows, shift_rows_band};

fn stage_pixel(id: u32) -> Rgb {
    Rgb { r: id as u8, g: (id >> 8) as u8, b: 200 }
}

fn stage_grid(width: u32, height: u32, ids: &[u32]) -> PixelGrid {
    let mut data = Vec::new();
    for id in ids {
        let p = stage_pixel(*id);
        data.push(p.r);
        data.push(p.g);
        data.push(p.b);
    }
    PixelGrid::from_raw(width, height, data).unwrap()
}

fn stage_counting(width: u32, height: u32) -> PixelGrid {
    let ids: Vec<u32> = (0..width * height).collect();
    stage_grid(width, height, &ids)
}

fn stage_ids(grid: &PixelGrid) -> Vec<u32> {
    let mut ids = Vec::new();
    for y in 0..grid.height() {
        for x in 0..grid.width() {
            let p = grid.get_pixel(x, y);
            assert_eq!(p.b, 200);
            ids.push(p.r as u32 + ((p.g as u32) << 8));
        }
    }
    ids
}

fn stage_expected_rows(grid: &PixelGrid, k: i64) -> Vec<u32> {
    let w = grid.width() as i64;
    let mut ids = Vec::new();
    for y in 0..grid.height() as i64 {
        let shift = (y * k).rem_euclid(w);
        for x in 0..w {
            let p = grid.get_pixel(((x + shift) % w) as u32, y as u32);
            ids.push(p.r as u32 + ((p.g as u32) << 8));
        }
    }
    ids
}

fn stage_expected_columns(grid: &PixelGrid, k: i64) -> Vec<u32> {
    let h = grid.height() as i64;
    let mut ids = Vec::new();
    for y in 0..h {
        for x in 0..grid.width() as i64 {
            let shift = (x * k).rem_euclid(h);
            let p = grid.get_pixel(x as u32, ((y + shift) % h) as u32);
            ids.push(p.r as u32 + ((p.g as u32) << 8));
        }
    }
    ids
}

#[test]
fn row_shift_by_a_multiple_of_the_width_changes_nothing() {
    let grid = stage_grid(4, 4, &[9, 8, 7, 6, 10, 11, 12, 13, 20, 21, 22, 23, 30, 31, 32, 33]);
    let out = shift_rows(&grid, 32, 4);
    assert_eq!(stage_ids(&out), vec![9, 8, 7, 6, 10, 11, 12, 13, 20, 21, 22, 23, 30, 31, 32, 33]);
    assert_eq!(out, grid);
}

#[test]
fn column_shift_of_two_by_two_swaps_the_second_column() {
    let grid = stage_grid(2, 2, &[10, 11, 20, 21]);
    let out = shift_columns(&grid, 1, 2);
    assert_eq!(stage_ids(&out), vec![10, 21, 20, 11]);
}

#[test]
fn column_shift_by_a_multiple_of_the_height_changes_nothing() {
    let grid = stage_counting(5, 4);
    assert_eq!(shift_columns(&grid, 32, 3), grid);
    assert_eq!(shift_columns(&grid, -32, 3), grid);
    assert_eq!(shift_columns(&grid, 0, 3), grid);
}

#[test]
fn rows_rotate_left_by_their_shift() {
    let grid = stage_counting(5, 3);
    let out = shift_rows(&grid, 2, 2);
    assert_eq!(stage_ids(&out), vec![0, 1, 2, 3, 4, 7, 8, 9, 5, 6, 14, 10, 11, 12, 13]);
}

#[test]
fn rows_under_a_negative_increment() {
    let grid = stage_counting(5, 3);
    let out = shift_rows(&grid, -1, 2);
    assert_eq!(stage_ids(&out), vec![0, 1, 2, 3, 4, 9, 5, 6, 7, 8, 13, 14, 10, 11, 12]);
}

#[test]
fn columns_rotate_upwards_by_their_shift() {
    let grid = stage_counting(5, 3);
    let out = shift_columns(&grid, 1, 2);
    assert_eq!(stage_ids(&out), vec![0, 6, 12, 3, 9, 5, 11, 2, 8, 14, 10, 1, 7, 13, 4]);
    let out = shift_columns(&grid, -32, 4);
    assert_eq!(stage_ids(&out), vec![0, 6, 12, 3, 9, 5, 11, 2, 8, 14, 10, 1, 7, 13, 4]);
}

#[test]
fn each_pixel_comes_from_where_the_formula_says() {
    for (width, height) in [(1, 1), (1, 6), (6, 1), (2, 2), (3, 5), (7, 4), (8, 8), (13, 9)] {
        let grid = stage_counting(width, height);
        for k in [-33i64, -32, -7, -1, 0, 1, 2, 31, 32, 33, 1 << 40, -(1 << 40)] {
            for workers in [1u32, 2, 3, 5, 16] {
                let rows = shift_rows(&grid, k, workers);
                assert_eq!(stage_ids(&rows), stage_expected_rows(&grid, k));
                let columns = shift_columns(&grid, k, workers);
                assert_eq!(stage_ids(&columns), stage_expected_columns(&grid, k));
            }
        }
    }
}

#[test]
fn the_shape_is_kept() {
    for (width, height) in [(0, 0), (0, 3), (3, 0), (1, 1), (1, 6), (6, 1), (4, 9)] {
        let grid = stage_counting(width, height);
        let rows = shift_rows(&grid, 32, 3);
        assert_eq!((rows.width(), rows.height()), (width, height));
        assert_eq!(rows.as_raw().len(), (3 * width * height) as usize);
        let columns = shift_columns(&grid, 32, 3);
        assert_eq!((columns.width(), columns.height()), (width, height));
        assert_eq!(columns.as_raw().len(), (3 * width * height) as usize);
    }
}

#[test]
fn grids_without_pixels_pass_through() {
    for (width, height) in [(0, 0), (0, 3), (3, 0)] {
        let grid = stage_counting(width, height);
        assert_eq!(shift_rows(&grid, 32, 2), grid);
        assert_eq!(shift_columns(&grid, 32, 2), grid);
    }
}

#[test]
fn the_source_is_left_alone() {
    let grid = stage_counting(5, 3);
    let before = grid.clone();
    let _ = shift_rows(&grid, 2, 2);
    let _ = shift_columns(&grid, 2, 2);
    assert_eq!(grid, before);
}

#[test]
fn a_row_keeps_its_pixels() {
    let grid = stage_grid(4, 3, &[5, 5, 6, 7, 1, 2, 2, 2, 9, 8, 9, 8]);
    let out = shift_rows(&grid, 3, 2);
    for y in 0..3 {
        let mut before: Vec<u32> = (0..4).map(|x| grid.get_pixel(x, y).r as u32).collect();
        let mut after: Vec<u32> = (0..4).map(|x| out.get_pixel(x, y).r as u32).collect();
        before.sort();
        after.sort();
        assert_eq!(before, after);
    }
    assert_eq!(stage_ids(&out), vec![5, 5, 6, 7, 2, 1, 2, 2, 9, 8, 9, 8]);
}

#[test]
fn a_column_keeps_its_pixels() {
    let grid = stage_grid(3, 4, &[5, 1, 9, 5, 2, 8, 6, 2, 9, 7, 2, 8]);
    let out = shift_columns(&grid, 3, 2);
    for x in 0..3 {
        let mut before: Vec<u32> = (0..4).map(|y| grid.get_pixel(x, y).r as u32).collect();
        let mut after: Vec<u32> = (0..4).map(|y| out.get_pixel(x, y).r as u32).collect();
        before.sort();
        after.sort();
        assert_eq!(before, after);
    }
    assert_eq!(stage_ids(&out), vec![5, 2, 9, 5, 1, 8, 6, 2, 9, 7, 2, 8]);
}

#[test]
fn the_worker_count_does_not_change_the_result() {
    let grid = stage_counting(11, 7);
    let rows = shift_rows(&grid, 32, 1);
    let columns = shift_columns(&grid, 32, 1);
    for workers in 2..40u32 {
        assert_eq!(shift_rows(&grid, 32, workers), rows);
        assert_eq!(shift_rows(&grid, 32, workers).as_raw(), rows.as_raw());
        assert_eq!(shift_columns(&grid, 32, workers), columns);
        assert_eq!(shift_columns(&grid, 32, workers).as_raw(), columns.as_raw());
    }
}

#[test]
fn repeated_runs_agree() {
    let grid = stage_counting(16, 16);
    let first = shift_columns(&shift_rows(&grid, 5, 8), 5, 8);
    for _ in 0..20 {
        assert_eq!(shift_columns(&shift_rows(&grid, 5, 8), 5, 8), first);
    }
}

#[test]
fn opposite_increments_undo_a_shift() {
    for (width, height) in [(1, 1), (1, 6), (6, 1), (3, 5), (7, 4)] {
        let grid = stage_counting(width, height);
        for k in [-32i64, -1, 1, 3, 32, i64::MAX, i64::MIN + 1] {
            assert_eq!(shift_rows(&shift_rows(&grid, k, 3), -k, 2), grid);
            assert_eq!(shift_columns(&shift_columns(&grid, k, 3), -k, 2), grid);
        }
    }
}

#[test]
fn a_row_band_is_a_run_of_rows_of_the_result() {
    let grid = stage_counting(5, 3);
    let band = shift_rows_band(&grid, 2, Span { start: 1, end: 3 });
    assert_eq!((band.width(), band.height()), (5, 2));
    assert_eq!(stage_ids(&band), vec![7, 8, 9, 5, 6, 14, 10, 11, 12, 13]);
    let none = shift_rows_band(&grid, 2, Span { start: 2, end: 2 });
    assert_eq!((none.width(), none.height()), (5, 0));
}

#[test]
fn a_column_band_is_a_run_of_columns_of_the_result() {
    let grid = stage_counting(5, 3);
    let band = shift_columns_band(&grid, 1, Span { start: 1, end: 4 });
    assert_eq!((band.width(), band.height()), (3, 3));
    assert_eq!(stage_ids(&band), vec![6, 12, 3, 11, 2, 8, 1, 7, 13]);
    let none = shift_columns_band(&grid, 1, Span { start: 5, end: 5 });
    assert_eq!((none.width(), none.height()), (0, 3));
}

#[test]
fn large_grids_are_shifted_as_small_ones_are() {
    let grid = stage_counting(257, 129);
    let rows = shift_rows(&grid, 32, 8);
    assert_eq!(stage_ids(&rows), stage_expected_rows(&grid, 32));
    let columns = shift_columns(&grid, -32, 8);
    assert_eq!(stage_ids(&columns), stage_expected_columns(&grid, -32));
}
