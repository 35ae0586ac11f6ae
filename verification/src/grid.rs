//! Grid shapes: how many columns and rows a tile count asks for, and which
//! requests are accepted.

use vstd::prelude::*;
use vstd::arithmetic::div_mod::lemma_fundamental_div_mod_converse;
use crate::error::TileError;

verus! {

/// The largest number of columns, and of rows, that a grid may have.
pub const SPLIT_LIMIT: u32 = 99;

/// The largest number of tiles that may be asked for: a full 99 by 99 grid.
pub const TILE_LIMIT: u32 = 9801;

/// `c` is the ceiling of the square root of `n`: the least natural number
/// whose square reaches `n`.
pub open spec fn is_ceil_sqrt(c: int, n: int) -> bool {
    &&& c >= 0
    &&& c * c >= n
    &&& c > 0 ==> (c - 1) * (c - 1) < n
}

/// The number of columns of the near-square grid for `n` tiles.
pub open spec fn grid_columns(n: int) -> int {
    choose|c: int| is_ceil_sqrt(c, n)
}

/// The ceiling of `n / d` for a positive `d`; zero where there is nothing to
/// divide by.
pub open spec fn ceil_div(n: int, d: int) -> int {
    if d <= 0 {
        0
    } else {
        (n + d - 1) / d
    }
}

/// The number of rows of the near-square grid for `n` tiles.
pub open spec fn grid_rows(n: int) -> int {
    ceil_div(n, grid_columns(n))
}

/// Whether a tile count is accepted.
pub open spec fn tile_count_ok(n: int) -> bool {
    2 <= n <= TILE_LIMIT
}

/// Whether an explicit column and row count is accepted: both within the
/// limit, and not the single cell that leaves nothing to cut.
pub open spec fn explicit_grid_ok(columns: int, rows: int) -> bool {
    &&& 1 <= columns <= SPLIT_LIMIT
    &&& 1 <= rows <= SPLIT_LIMIT
    &&& !(columns == 1 && rows == 1)
}

/// Every natural number has a ceiling square root.
pub proof fn lemma_ceil_sqrt_exists(n: int)
    ensures
        exists|c: int| is_ceil_sqrt(c, n),
    decreases n,
{
    if n <= 0 {
        assert(is_ceil_sqrt(0, n));
    } else {
        lemma_ceil_sqrt_exists(n - 1);
        let c = grid_columns(n - 1);
        if c * c >= n {
            assert(is_ceil_sqrt(c, n));
        } else {
            assert((c + 1) * (c + 1) == c * c + 2 * c + 1) by (nonlinear_arith);
            assert(is_ceil_sqrt(c + 1, n));
        }
    }
}

/// The ceiling square root is unique, so whatever meets `is_ceil_sqrt` is the
/// column count.
pub proof fn lemma_ceil_sqrt_unique(c: int, n: int)
    requires
        is_ceil_sqrt(c, n),
    ensures
        grid_columns(n) == c,
{
    let d = grid_columns(n);
    assert(is_ceil_sqrt(d, n));
    if d < c {
        assert(d * d <= (c - 1) * (c - 1)) by (nonlinear_arith)
            requires
                0 <= d <= c - 1,
        ;
    } else if c < d {
        assert(c * c <= (d - 1) * (d - 1)) by (nonlinear_arith)
            requires
                0 <= c <= d - 1,
        ;
    }
}

/// `ceil_div(n, d)` is the least number of times that `d` must be taken to
/// reach `n`.
pub proof fn lemma_ceil_div(n: int, d: int)
    requires
        n >= 0,
        d >= 1,
    ensures
        d * ceil_div(n, d) >= n,
        d * (ceil_div(n, d) - 1) < n,
        n >= 1 ==> ceil_div(n, d) >= 1,
{
    let q = (n + d - 1) / d;
    let m = (n + d - 1) % d;
    assert(n + d - 1 == d * q + m && 0 <= m < d) by (nonlinear_arith)
        requires
            d >= 1,
            q == (n + d - 1) / d,
            m == (n + d - 1) % d,
    ;
    assert(d * (q - 1) == d * q - d) by (nonlinear_arith);
    if n >= 1 && q < 1 {
        assert(d * q <= 0) by (nonlinear_arith)
            requires
                d >= 1,
                q <= 0,
        ;
    }
}

/// The grid for `n` tiles has room for all of them, is as narrow as a square
/// root allows, and has no row to spare.
pub proof fn lemma_grid_covers(n: int)
    requires
        n >= 1,
    ensures
        is_ceil_sqrt(grid_columns(n), n),
        grid_columns(n) >= 1,
        grid_rows(n) >= 1,
        grid_columns(n) * grid_rows(n) >= n,
        grid_columns(n) * (grid_rows(n) - 1) < n,
        grid_rows(n) <= grid_columns(n),
{
    lemma_ceil_sqrt_exists(n);
    let c = grid_columns(n);
    let r = grid_rows(n);
    assert(c >= 1) by (nonlinear_arith)
        requires
            c >= 0,
            c * c >= n,
            n >= 1,
    ;
    lemma_ceil_div(n, c);
    assert(r <= c) by (nonlinear_arith)
        requires
            c >= 1,
            c * c >= n,
            c * (r - 1) < n,
    ;
}

/// The near-square grid for an accepted tile count has at most 99 columns
/// and 99 rows.
pub proof fn lemma_grid_within_limit(n: int)
    requires
        1 <= n <= 9801,
    ensures
        1 <= grid_rows(n) <= grid_columns(n) <= 99,
{
    lemma_grid_covers(n);
    let c = grid_columns(n);
    if c >= 100 {
        assert((c - 1) * (c - 1) >= 99 * 99) by (nonlinear_arith)
            requires
                c - 1 >= 99,
        ;
    }
}

/// A near-square grid that is filled to its last cell is the near-square
/// grid for the number of its cells: from as many tiles as the grid for `n`
/// has cells, the same columns and rows are worked out again.
pub proof fn lemma_full_grid_is_its_own(n: int)
    requires
        n >= 1,
    ensures
        grid_columns(grid_columns(n) * grid_rows(n)) == grid_columns(n),
        grid_rows(grid_columns(n) * grid_rows(n)) == grid_rows(n),
{
    lemma_grid_covers(n);
    let c = grid_columns(n);
    let r = grid_rows(n);
    assert(c * c >= c * r) by (nonlinear_arith)
        requires
            c >= 1,
            r <= c,
    ;
    lemma_ceil_sqrt_unique(c, c * r);
    assert(c * r + c - 1 == r * c + (c - 1)) by (nonlinear_arith);
    lemma_fundamental_div_mod_converse(c * r + c - 1, c, r, c - 1);
}

/// Works out the near-square grid for `n` tiles: as many columns as the
/// ceiling of the square root of `n`, and as many rows as it takes to hold
/// `n` tiles in rows of that width. Zero tiles give an empty grid.
pub fn calc_columns_rows(n: u32) -> (grid: (u32, u32))
    ensures
        grid.0 == grid_columns(n as int),
        grid.1 == grid_rows(n as int),
        is_ceil_sqrt(grid.0 as int, n as int),
        n >= 1 ==> grid.0 * grid.1 >= n,
{
    if n == 0 {
        proof {
            lemma_ceil_sqrt_unique(0, 0);
        }
        return (0, 0);
    }
    let mut low: u64 = 0;
    let mut high: u64 = 65536;
    while high - low > 1
        invariant
            low < high <= 65536,
            low * low < n,
            high * high >= n,
        decreases high - low,
    {
        let mid: u64 = low + (high - low) / 2;
        assert(mid * mid <= 65536 * 65536) by (nonlinear_arith)
            requires
                mid <= 65536,
        ;
        if mid * mid >= n as u64 {
            high = mid;
        } else {
            low = mid;
        }
    }
    let columns: u32 = high as u32;
    let rows: u32 = ((n as u64 + high - 1) / high) as u32;
    proof {
        lemma_ceil_sqrt_unique(high as int, n as int);
        lemma_grid_covers(n as int);
    }
    (columns, rows)
}

/// Accepts a tile count between 2 and 9801 and hands it back; refuses any
/// other.
pub fn validate_image(number_tiles: u32) -> (checked: Result<u32, TileError>)
    ensures
        tile_count_ok(number_tiles as int) ==> checked == Ok::<u32, TileError>(number_tiles),
        !tile_count_ok(number_tiles as int) ==> checked == Err::<u32, TileError>(
            TileError::InvalidInput,
        ),
{
    if number_tiles < 2 || number_tiles > TILE_LIMIT {
        return Err(TileError::InvalidInput);
    }
    Ok(number_tiles)
}

/// Accepts a column and a row count, each between 1 and 99 and not both 1,
/// and hands the pair back; refuses any other.
pub fn validate_image_col_row(col: u32, row: u32) -> (checked: Result<(u32, u32), TileError>)
    ensures
        explicit_grid_ok(col as int, row as int) ==> checked == Ok::<(u32, u32), TileError>(
            (col, row),
        ),
        !explicit_grid_ok(col as int, row as int) ==> checked == Err::<(u32, u32), TileError>(
            TileError::InvalidInput,
        ),
{
    if col < 1 || row < 1 || col > SPLIT_LIMIT || row > SPLIT_LIMIT {
        return Err(TileError::InvalidInput);
    }
    if col == 1 && row == 1 {
        return Err(TileError::InvalidInput);
    }
    Ok((col, row))
}

} // verus!
