//! Cutting an image into the tiles of a grid.
//!
//! The grid decides the size of a tile: the image's width divided by the
//! number of columns, and its height by the number of rows, both rounded
//! down. Tiles of that size are laid from the top-left corner, row by row,
//! as long as a whole tile fits; what is left over at the right and bottom
//! edge belongs to no tile.

use vstd::prelude::*;
use image::DynamicImage;
use crate::error::TileError;
use crate::grid::{
    calc_columns_rows, explicit_grid_ok, grid_columns, grid_rows, lemma_grid_within_limit,
    tile_count_ok, validate_image, validate_image_col_row, SPLIT_LIMIT,
};
use crate::raster::{holds_rgba8, image_height, image_width, pixel_at, rgba8_at};
use crate::tile::Tile;

verus! {

/// The shape of a grid and the size of its tiles.
#[derive(Clone, Copy, Debug, PartialEq, Eq, Structural)]
pub struct GridLayout {
    /// The number of columns asked for.
    pub columns: u32,
    /// The number of rows asked for.
    pub rows: u32,
    /// The width of every tile, in pixels.
    pub tile_width: u32,
    /// The height of every tile, in pixels.
    pub tile_height: u32,
}

impl GridLayout {
    /// Whether the layout is the one that its columns and rows give for an
    /// image of `width` by `height` pixels.
    pub open spec fn divides(self, width: int, height: int) -> bool {
        &&& self.columns >= 1
        &&& self.rows >= 1
        &&& self.tile_width == width / (self.columns as int)
        &&& self.tile_height == height / (self.rows as int)
    }

    /// Whether the layout can be cut: the grid is within the supported size
    /// and a tile has at least one pixel each way.
    pub open spec fn can_cut(self) -> bool {
        &&& self.columns <= SPLIT_LIMIT
        &&& self.rows <= SPLIT_LIMIT
        &&& self.tile_width >= 1
        &&& self.tile_height >= 1
    }

    /// The layout of a grid of `columns` by `rows` cells over an image of
    /// `width` by `height` pixels.
    pub fn for_image(width: u32, height: u32, columns: u32, rows: u32) -> (layout: GridLayout)
        requires
            columns >= 1,
            rows >= 1,
        ensures
            layout.columns == columns,
            layout.rows == rows,
            layout.divides(width as int, height as int),
    {
        GridLayout { columns, rows, tile_width: width / columns, tile_height: height / rows }
    }
}

/// The grid that a request asks for. A tile count, where given, decides
/// alone and must be between 2 and 9801; it gives the near-square grid. If
/// none is given, both a column and a row count must be, each from 1 to 99
/// and not both 1. Any other request asks for nothing.
pub open spec fn requested_grid(
    number_tiles: Option<u32>,
    col: Option<u32>,
    row: Option<u32>,
) -> Option<(int, int)> {
    match number_tiles {
        Some(n) => if tile_count_ok(n as int) {
            Some((grid_columns(n as int), grid_rows(n as int)))
        } else {
            None
        },
        None => match (col, row) {
            (Some(c), Some(r)) => if explicit_grid_ok(c as int, r as int) {
                Some((c as int, r as int))
            } else {
                None
            },
            _ => None,
        },
    }
}

/// How many whole tiles of `tile` pixels lie side by side in `extent`
/// pixels.
pub open spec fn cells_along(extent: int, tile: int) -> int {
    extent / tile
}

/// The place of the cell in column `cx` and row `cy` (both from 0) when the
/// cells of a grid that is `across` cells wide are counted row by row.
pub open spec fn cell_index(across: int, cx: int, cy: int) -> int {
    cy * across + cx
}

/// Whether `cut` holds the pixels of the rectangle of `width` by `height`
/// pixels whose top-left corner is at `(x, y)` in `source`: it is stored as
/// 8-bit RGBA if and only if `source` is, and both its own pixels and those
/// of its 8-bit RGBA copy are the ones that `source` has in the rectangle.
pub open spec fn is_cut_of(
    cut: DynamicImage,
    source: DynamicImage,
    x: int,
    y: int,
    width: int,
    height: int,
) -> bool {
    &&& image_width(cut) == width
    &&& image_height(cut) == height
    &&& holds_rgba8(cut) == holds_rgba8(source)
    &&& forall|i: int, j: int|
        0 <= i < width && 0 <= j < height ==> #[trigger] pixel_at(cut, i, j) == pixel_at(
            source,
            x + i,
            y + j,
        )
    &&& forall|i: int, j: int|
        0 <= i < width && 0 <= j < height ==> #[trigger] rgba8_at(cut, i, j) == rgba8_at(
            source,
            x + i,
            y + j,
        )
}

/// Whether `tile` is the tile of the cell in column `cx` and row `cy` (both
/// from 0) of `source`, cut into tiles of `tile_width` by `tile_height`
/// pixels, `across` of them side by side.
pub open spec fn is_cell_tile(
    tile: Tile,
    source: DynamicImage,
    tile_width: int,
    tile_height: int,
    across: int,
    cx: int,
    cy: int,
) -> bool {
    &&& tile.number == cell_index(across, cx, cy) + 1
    &&& tile.position == ((cx + 1) as i32, (cy + 1) as i32)
    &&& tile.coords == ((cx * tile_width) as i32, (cy * tile_height) as i32)
    &&& tile.filename is None
    &&& is_cut_of(
        tile.image,
        source,
        cx * tile_width,
        cy * tile_height,
        tile_width,
        tile_height,
    )
}

/// Whether `tiles` is what cutting `source` into tiles of `tile_width` by
/// `tile_height` pixels gives: one tile for every cell that fits whole, row
/// by row from the top, and in a row from the left.
pub open spec fn is_partition(
    tiles: Seq<Tile>,
    source: DynamicImage,
    tile_width: int,
    tile_height: int,
) -> bool {
    let across = cells_along(image_width(source) as int, tile_width);
    let down = cells_along(image_height(source) as int, tile_height);
    &&& tiles.len() == across * down
    &&& forall|cx: int, cy: int|
        0 <= cx < across && 0 <= cy < down ==> is_cell_tile(
            #[trigger] tiles[cell_index(across, cx, cy)],
            source,
            tile_width,
            tile_height,
            across,
            cx,
            cy,
        )
}

/// A cell is cut exactly when all of it lies in the image: the cell that
/// starts `k` tiles from the edge fits iff `k` is less than the number of
/// whole tiles.
pub proof fn lemma_cell_fits(extent: int, tile: int, k: int)
    requires
        extent >= 0,
        tile >= 1,
        k >= 0,
    ensures
        k < cells_along(extent, tile) <==> k * tile + tile <= extent,
{
    let q = extent / tile;
    assert(extent == tile * q + extent % tile && 0 <= extent % tile < tile) by (nonlinear_arith)
        requires
            tile >= 1,
            q == extent / tile,
    ;
    if k < q {
        assert(k * tile + tile <= tile * q) by (nonlinear_arith)
            requires
                k + 1 <= q,
                tile >= 1,
        ;
    } else {
        assert(k * tile + tile > tile * q + extent % tile) by (nonlinear_arith)
            requires
                k >= q,
                tile >= 1,
                extent % tile < tile,
        ;
    }
}

/// Cutting into tiles of the size that `parts` equal parts would have gives
/// at least `parts` tiles and fewer than twice as many.
pub proof fn lemma_cells_bound(extent: int, parts: int)
    requires
        parts >= 1,
        extent / parts >= 1,
    ensures
        parts <= cells_along(extent, extent / parts) < 2 * parts,
{
    let tile = extent / parts;
    let cells = extent / tile;
    assert(extent == parts * tile + extent % parts && 0 <= extent % parts < parts)
        by (nonlinear_arith)
        requires
            parts >= 1,
            tile == extent / parts,
    ;
    assert(extent == tile * cells + extent % tile && 0 <= extent % tile < tile)
        by (nonlinear_arith)
        requires
            tile >= 1,
            cells == extent / tile,
    ;
    assert(cells >= parts) by (nonlinear_arith)
        requires
            extent >= parts * tile,
            extent < tile * cells + tile,
            tile >= 1,
    ;
    assert(cells < 2 * parts) by (nonlinear_arith)
        requires
            extent < parts * tile + parts,
            extent >= tile * cells,
            tile >= 1,
            parts >= 1,
    ;
}

/// Cells are counted row by row: a cell in an earlier row, or earlier in the
/// same row, has a smaller index, and the index stays below the number of
/// cells.
proof fn lemma_cell_index_order(across: int, cx: int, cy: int, dx: int, dy: int)
    requires
        0 <= cx < across,
        0 <= dx <= across,
        0 <= cy,
        cy < dy || (cy == dy && cx < dx),
    ensures
        0 <= cell_index(across, cx, cy) < cell_index(across, dx, dy),
{
    assert(cy * across >= 0) by (nonlinear_arith)
        requires
            cy >= 0,
            across >= 0,
    ;
    if cy < dy {
        assert(cy * across + across <= dy * across) by (nonlinear_arith)
            requires
                cy + 1 <= dy,
                across >= 0,
        ;
    }
}

/// Picks the grid that a request asks for: the near-square grid for a tile
/// count, or else the columns and rows given. Fails where the request is not
/// acceptable.
pub fn select_grid(number_tiles: Option<u32>, col: Option<u32>, row: Option<u32>) -> (grid: Result<
    (u32, u32),
    TileError,
>)
    ensures
        match grid {
            Ok((columns, rows)) => requested_grid(number_tiles, col, row) == Some(
                (columns as int, rows as int),
            ) && 1 <= columns <= SPLIT_LIMIT && 1 <= rows <= SPLIT_LIMIT,
            Err(e) => e == TileError::InvalidInput && requested_grid(number_tiles, col, row)
                is None,
        },
{
    match number_tiles {
        Some(n) => match validate_image(n) {
            Ok(_) => {
                let grid: (u32, u32) = calc_columns_rows(n);
                proof {
                    lemma_grid_within_limit(n as int);
                }
                Ok(grid)
            },
            Err(e) => Err(e),
        },
        None => match (col, row) {
            (Some(c), Some(r)) => match validate_image_col_row(c, r) {
                Ok(_) => Ok((c, r)),
                Err(e) => Err(e),
            },
            _ => Err(TileError::InvalidInput),
        },
    }
}

/// Cuts an image into the tiles of a layout. The tiles come row by row from
/// the top, and in a row from the left; they are numbered from 1 in that
/// order, and each knows its cell, counted from 1, and the pixel at which it
/// starts in the image. A cell that does not fit whole is not cut.
pub fn partition(image: &DynamicImage, layout: GridLayout) -> (tiles: Vec<Tile>)
    requires
        layout.divides(image_width(*image) as int, image_height(*image) as int),
        layout.can_cut(),
    ensures
        is_partition(tiles@, *image, layout.tile_width as int, layout.tile_height as int),
{
    let width: u32 = image.width();
    let height: u32 = image.height();
    let tile_width: u32 = layout.tile_width;
    let tile_height: u32 = layout.tile_height;
    let across: u32 = width / tile_width;
    let down: u32 = height / tile_height;
    proof {
        lemma_cells_bound(width as int, layout.columns as int);
        lemma_cells_bound(height as int, layout.rows as int);
    }
    let mut tiles: Vec<Tile> = Vec::new();
    let mut number: i32 = 1;
    let mut cy: u32 = 0;
    while cy < down
        invariant
            width == image_width(*image),
            height == image_height(*image),
            tile_width >= 1,
            tile_height >= 1,
            across == cells_along(width as int, tile_width as int),
            down == cells_along(height as int, tile_height as int),
            across < 200,
            down < 200,
            cy <= down,
            tiles.len() == cell_index(across as int, 0, cy as int),
            number == tiles.len() + 1,
            forall|ax: int, ay: int|
                0 <= ax < across && 0 <= ay < cy ==> is_cell_tile(
                    #[trigger] tiles@[cell_index(across as int, ax, ay)],
                    *image,
                    tile_width as int,
                    tile_height as int,
                    across as int,
                    ax,
                    ay,
                ),
        decreases down - cy,
    {
        let mut cx: u32 = 0;
        while cx < across
            invariant
                width == image_width(*image),
                height == image_height(*image),
                tile_width >= 1,
                tile_height >= 1,
                across == cells_along(width as int, tile_width as int),
                down == cells_along(height as int, tile_height as int),
                across < 200,
                down < 200,
                cy < down,
                cx <= across,
                tiles.len() == cell_index(across as int, cx as int, cy as int),
                number == tiles.len() + 1,
                forall|ax: int, ay: int|
                    0 <= ax < across && (0 <= ay < cy || (ay == cy && ax < cx)) ==> is_cell_tile(
                        #[trigger] tiles@[cell_index(across as int, ax, ay)],
                        *image,
                        tile_width as int,
                        tile_height as int,
                        across as int,
                        ax,
                        ay,
                    ),
            decreases across - cx,
        {
            proof {
                lemma_cell_fits(width as int, tile_width as int, cx as int);
                lemma_cell_fits(height as int, tile_height as int, cy as int);
                lemma_cell_index_order(
                    across as int,
                    cx as int,
                    cy as int,
                    across as int,
                    down as int - 1,
                );
                assert(cell_index(across as int, across as int, down as int - 1) <= 200 * 200)
                    by (nonlinear_arith)
                    requires
                        0 <= across < 200,
                        0 < down < 200,
                ;
                assert(cx * tile_width >= 0 && cy * tile_height >= 0) by (nonlinear_arith)
                    requires
                        cx >= 0,
                        cy >= 0,
                        tile_width >= 0,
                        tile_height >= 0,
                ;
            }
            let x: u32 = cx * tile_width;
            let y: u32 = cy * tile_height;
            let cut: DynamicImage = image.crop_imm(x, y, tile_width, tile_height);
            let tile: Tile = Tile::new(
                cut,
                number,
                ((cx + 1) as i32, (cy + 1) as i32),
                (#[verifier::truncate] (x as i32), #[verifier::truncate] (y as i32)),
                None,
            );
            let ghost before = tiles@;
            tiles.push(tile);
            proof {
                assert(is_cell_tile(
                    tiles@[cell_index(across as int, cx as int, cy as int)],
                    *image,
                    tile_width as int,
                    tile_height as int,
                    across as int,
                    cx as int,
                    cy as int,
                ));
                assert forall|ax: int, ay: int|
                    0 <= ax < across && (0 <= ay < cy || (ay == cy && ax < cx
                        + 1)) implies is_cell_tile(
                    #[trigger] tiles@[cell_index(across as int, ax, ay)],
                    *image,
                    tile_width as int,
                    tile_height as int,
                    across as int,
                    ax,
                    ay,
                ) by {
                    if !(ay == cy && ax == cx) {
                        lemma_cell_index_order(across as int, ax, ay, cx as int, cy as int);
                        assert(tiles@[cell_index(across as int, ax, ay)] == before[cell_index(
                            across as int,
                            ax,
                            ay,
                        )]);
                    }
                }
            }
            number = number + 1;
            cx = cx + 1;
        }
        assert(cell_index(across as int, across as int, cy as int) == cell_index(
            across as int,
            0,
            cy + 1,
        )) by (nonlinear_arith);
        cy = cy + 1;
    }
    assert(tiles.len() == across * down) by (nonlinear_arith)
        requires
            tiles.len() == cell_index(across as int, 0, down as int),
    ;
    tiles
}

/// Whether an image has at least one pixel for each column and each row of
/// the grid that a request asks for, so that the request can be cut. A
/// request that asks for no grid needs nothing of the image.
pub open spec fn can_slice(
    image: DynamicImage,
    number_tiles: Option<u32>,
    col: Option<u32>,
    row: Option<u32>,
) -> bool {
    match requested_grid(number_tiles, col, row) {
        Some((columns, rows)) => image_width(image) as int / columns >= 1 && image_height(
            image,
        ) as int / rows >= 1,
        None => true,
    }
}

/// Whether `tiles` is what slicing an image gives: for a request that asks
/// for a grid, the partition of the image into tiles as wide as the image
/// divided by the columns and as high as the image divided by the rows, both
/// rounded down; and for any other request, a refusal of the input.
pub open spec fn slice_outcome(
    image: DynamicImage,
    number_tiles: Option<u32>,
    col: Option<u32>,
    row: Option<u32>,
    tiles: Result<Vec<Tile>, TileError>,
) -> bool {
    match tiles {
        Ok(cut) => match requested_grid(number_tiles, col, row) {
            Some((columns, rows)) => is_partition(
                cut@,
                image,
                image_width(image) as int / columns,
                image_height(image) as int / rows,
            ),
            None => false,
        },
        Err(e) => e == TileError::InvalidInput && requested_grid(number_tiles, col, row) is None,
    }
}

/// Cuts an image into tiles. The grid is the near-square one for
/// `number_tiles`, where a count is given, or else `col` columns by `row`
/// rows; a tile is as wide as the image divided by the columns and as high
/// as the image divided by the rows, rounded down. Fails where the request
/// is not acceptable. The image must have at least one pixel for each column
/// and each row of the grid.
pub fn slice(
    image: &DynamicImage,
    number_tiles: Option<u32>,
    col: Option<u32>,
    row: Option<u32>,
) -> (tiles: Result<Vec<Tile>, TileError>)
    requires
        can_slice(*image, number_tiles, col, row),
    ensures
        slice_outcome(*image, number_tiles, col, row, tiles),
{
    match select_grid(number_tiles, col, row) {
        Ok((columns, rows)) => {
            let layout: GridLayout = GridLayout::for_image(
                image.width(),
                image.height(),
                columns,
                rows,
            );
            Ok(partition(image, layout))
        },
        Err(e) => Err(e),
    }
}

/// Cuts an image into tiles as `slice` does, after making sure that the
/// image is large enough for the grid. Hands back `None`, and cuts nothing,
/// where the image has fewer pixels across than the grid has columns, or
/// fewer down than it has rows.
pub fn try_slice(
    image: &DynamicImage,
    number_tiles: Option<u32>,
    col: Option<u32>,
    row: Option<u32>,
) -> (tiles: Option<Result<Vec<Tile>, TileError>>)
    ensures
        tiles is Some <==> can_slice(*image, number_tiles, col, row),
        match tiles {
            Some(outcome) => slice_outcome(*image, number_tiles, col, row, outcome),
            None => true,
        },
{
    match select_grid(number_tiles, col, row) {
        Ok((columns, rows)) => {
            if image.width() / columns >= 1 && image.height() / rows >= 1 {
                Some(slice(image, number_tiles, col, row))
            } else {
                None
            }
        },
        Err(e) => Some(Err(e)),
    }
}

} // verus!
