use papercut::grid::{SPLIT_LIMIT, TILE_LIMIT};
use papercut::{
    calc_columns_rows, select_grid, validate_image, validate_image_col_row, GridLayout, TileError,
};

#[test]
fn test_calc_columns_rows() {
    assert_eq!(calc_columns_rows(1), (1, 1));
    assert_eq!(calc_columns_rows(2), (2, 1));
    assert_eq!(calc_columns_rows(3), (2, 2));
    assert_eq!(calc_columns_rows(4), (2, 2));
    assert_eq!(calc_columns_rows(5), (3, 2));
    assert_eq!(calc_columns_rows(6), (3, 2));
    assert_eq!(calc_columns_rows(7), (3, 3));
    assert_eq!(calc_columns_rows(8), (3, 3));
    assert_eq!(calc_columns_rows(9), (3, 3));
}

#[test]
fn calc_columns_rows_at_the_edges() {
    assert_eq!(calc_columns_rows(0), (0, 0));
    assert_eq!(calc_columns_rows(10), (4, 3));
    assert_eq!(calc_columns_rows(9800), (99, 99));
    assert_eq!(calc_columns_rows(9801), (99, 99));
    assert_eq!(calc_columns_rows(9802), (100, 99));
    assert_eq!(calc_columns_rows(u32::MAX), (65536, 65536));
}

#[test]
fn calc_columns_rows_is_the_least_grid_that_holds_the_tiles() {
    for n in 1u64..=9801 {
        let (c, r) = calc_columns_rows(n as u32);
        let (c, r) = (c as u64, r as u64);
        assert!(c * c >= n, "columns squared reach {}", n);
        assert!((c - 1) * (c - 1) < n, "no fewer columns do for {}", n);
        assert!(c * r >= n, "the grid holds {}", n);
        assert!(c * (r - 1) < n, "no fewer rows do for {}", n);
    }
}

#[test]
fn validate_image_keeps_counts_in_range() {
    assert_eq!(validate_image(0), Err(TileError::InvalidInput));
    assert_eq!(validate_image(1), Err(TileError::InvalidInput));
    assert_eq!(validate_image(9802), Err(TileError::InvalidInput));
    assert_eq!(validate_image(u32::MAX), Err(TileError::InvalidInput));
    assert_eq!(validate_image(2), Ok(2));
    assert_eq!(validate_image(9801), Ok(9801));
    assert_eq!(TILE_LIMIT, SPLIT_LIMIT * SPLIT_LIMIT);
}

#[test]
fn validate_image_col_row_keeps_grids_in_range() {
    assert_eq!(validate_image_col_row(1, 1), Err(TileError::InvalidInput));
    assert_eq!(validate_image_col_row(0, 5), Err(TileError::InvalidInput));
    assert_eq!(validate_image_col_row(5, 0), Err(TileError::InvalidInput));
    assert_eq!(validate_image_col_row(100, 1), Err(TileError::InvalidInput));
    assert_eq!(validate_image_col_row(1, 100), Err(TileError::InvalidInput));
    assert_eq!(validate_image_col_row(2, 1), Ok((2, 1)));
    assert_eq!(validate_image_col_row(1, 2), Ok((1, 2)));
    assert_eq!(validate_image_col_row(99, 99), Ok((99, 99)));
}

#[test]
fn select_grid_prefers_the_tile_count() {
    assert_eq!(select_grid(Some(5), None, None), Ok((3, 2)));
    assert_eq!(select_grid(Some(5), Some(7), Some(8)), Ok((3, 2)));
    assert_eq!(select_grid(None, Some(7), Some(8)), Ok((7, 8)));
    assert_eq!(select_grid(Some(1), Some(7), Some(8)), Err(TileError::InvalidInput));
    assert_eq!(select_grid(None, Some(7), None), Err(TileError::InvalidInput));
    assert_eq!(select_grid(None, None, Some(8)), Err(TileError::InvalidInput));
    assert_eq!(select_grid(None, None, None), Err(TileError::InvalidInput));
    assert_eq!(select_grid(None, Some(1), Some(1)), Err(TileError::InvalidInput));
}

#[test]
fn grid_layout_divides_rounding_down() {
    let layout = GridLayout::for_image(101, 100, 2, 3);
    assert_eq!(layout, GridLayout { columns: 2, rows: 3, tile_width: 50, tile_height: 33 });
    let thin = GridLayout::for_image(3, 100, 5, 1);
    assert_eq!(thin.tile_width, 0);
}
