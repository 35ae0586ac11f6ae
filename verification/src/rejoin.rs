//! What joining makes of tiles that were cut from one image.
//!
//! The tiles of a partition do not overlap, so a canvas they are joined on
//! shows every tile whole, each in its own cell, and nothing outside the
//! grid: it shows the image the tiles were cut from, as 8-bit RGBA. Where
//! the grid divides the image without a rest, slicing by a tile count and
//! joining with no size asked for gives the whole image back.

use vstd::prelude::*;
use vstd::arithmetic::div_mod::lemma_fundamental_div_mod_converse;
use image::DynamicImage;
use crate::assemble::{
    all_fit, can_copy, can_join, combined_size, join_outcome, origin_x, origin_y, painted,
    shows_tiles, tile_count, tile_fits,
};
use crate::error::TileError;
use crate::grid::{
    grid_columns, grid_rows, lemma_full_grid_is_its_own, lemma_grid_within_limit, tile_count_ok,
};
use crate::partition::{
    can_slice, cell_index, cells_along, is_cell_tile, is_partition, lemma_cell_fits,
    requested_grid, slice_outcome,
};
use crate::raster::{can_store_rgba8, image_height, image_width, pasted_at, pixel_at, rgba8_at};
use crate::tile::Tile;

verus! {

/// Whether `(x, y)` lies in the part of an image that its tiles cover: the
/// whole cells, from the top-left corner.
pub open spec fn in_grid(
    source: DynamicImage,
    tile_width: int,
    tile_height: int,
    x: int,
    y: int,
) -> bool {
    &&& 0 <= x < cells_along(image_width(source) as int, tile_width) * tile_width
    &&& 0 <= y < cells_along(image_height(source) as int, tile_height) * tile_height
}

/// A 32-bit offset that is stored as a signed number is read back unchanged.
proof fn lemma_offset_survives(v: u32)
    ensures
        ((v as i32) as u32) == v,
{
    assert(((v as i32) as u32) == v) by (bit_vector);
}

/// The tile at index `k` of a partition is the tile of the cell in column
/// `k % across` and row `k / across`; it has the size of a tile and starts
/// where its cell starts.
pub proof fn lemma_tile_of_index(
    tiles: Seq<Tile>,
    source: DynamicImage,
    tile_width: int,
    tile_height: int,
    k: int,
)
    requires
        tile_width >= 1,
        tile_height >= 1,
        is_partition(tiles, source, tile_width, tile_height),
        0 <= k < tiles.len(),
    ensures
        ({
            let across = cells_along(image_width(source) as int, tile_width);
            let down = cells_along(image_height(source) as int, tile_height);
            let kx = k % across;
            let ky = k / across;
            &&& 0 <= kx < across
            &&& 0 <= ky < down
            &&& cell_index(across, kx, ky) == k
            &&& is_cell_tile(tiles[k], source, tile_width, tile_height, across, kx, ky)
            &&& origin_x(tiles[k]) == kx * tile_width
            &&& origin_y(tiles[k]) == ky * tile_height
            &&& image_width(tiles[k].image) == tile_width
            &&& image_height(tiles[k].image) == tile_height
            &&& kx * tile_width + tile_width <= image_width(source)
            &&& ky * tile_height + tile_height <= image_height(source)
        }),
{
    let width = image_width(source) as int;
    let height = image_height(source) as int;
    let across = cells_along(width, tile_width);
    let down = cells_along(height, tile_height);
    assert(across >= 0 && down >= 0) by (nonlinear_arith)
        requires
            across == width / tile_width,
            down == height / tile_height,
            width >= 0,
            height >= 0,
            tile_width >= 1,
            tile_height >= 1,
    ;
    assert(across >= 1) by (nonlinear_arith)
        requires
            across >= 0,
            down >= 0,
            across * down > 0,
    ;
    let kx = k % across;
    let ky = k / across;
    assert(k == across * ky + kx && 0 <= kx < across) by (nonlinear_arith)
        requires
            across >= 1,
            kx == k % across,
            ky == k / across,
    ;
    assert(0 <= ky < down) by (nonlinear_arith)
        requires
            k == across * ky + kx,
            0 <= kx < across,
            0 <= k < across * down,
    ;
    assert(cell_index(across, kx, ky) == k) by (nonlinear_arith)
        requires
            k == across * ky + kx,
            cell_index(across, kx, ky) == ky * across + kx,
    ;
    assert(is_cell_tile(
        tiles[cell_index(across, kx, ky)],
        source,
        tile_width,
        tile_height,
        across,
        kx,
        ky,
    ));
    lemma_cell_fits(width, tile_width, kx);
    lemma_cell_fits(height, tile_height, ky);
    assert(kx * tile_width >= 0 && ky * tile_height >= 0) by (nonlinear_arith)
        requires
            kx >= 0,
            ky >= 0,
            tile_width >= 1,
            tile_height >= 1,
    ;
    lemma_offset_survives((kx * tile_width) as u32);
    lemma_offset_survives((ky * tile_height) as u32);
}

/// A tile of a partition starts where its cell says: at its column, counted
/// from 0, times the width of a tile, and at its row times the height. This
/// holds of every image whose sides can be written as signed 32-bit numbers.
pub proof fn lemma_origin_follows_position(
    tiles: Seq<Tile>,
    source: DynamicImage,
    tile_width: int,
    tile_height: int,
    k: int,
)
    requires
        tile_width >= 1,
        tile_height >= 1,
        is_partition(tiles, source, tile_width, tile_height),
        0 <= k < tiles.len(),
        image_width(source) <= i32::MAX,
        image_height(source) <= i32::MAX,
    ensures
        tiles[k].coords.0 == (tiles[k].position.0 - 1) * tile_width,
        tiles[k].coords.1 == (tiles[k].position.1 - 1) * tile_height,
        tiles[k].position.0 >= 1,
        tiles[k].position.1 >= 1,
        tiles[k].number == k + 1,
{
    lemma_tile_of_index(tiles, source, tile_width, tile_height, k);
    let across = cells_along(image_width(source) as int, tile_width);
    let kx = k % across;
    let ky = k / across;
    assert(kx + 1 <= kx * tile_width + tile_width) by (nonlinear_arith)
        requires
            kx >= 0,
            tile_width >= 1,
    ;
    assert(ky + 1 <= ky * tile_height + tile_height) by (nonlinear_arith)
        requires
            ky >= 0,
            tile_height >= 1,
    ;
    assert(kx * tile_width >= 0 && ky * tile_height >= 0) by (nonlinear_arith)
        requires
            kx >= 0,
            ky >= 0,
            tile_width >= 1,
            tile_height >= 1,
    ;
}

/// Every tile of a partition lies within a canvas that is large enough for
/// the grid; a canvas of the image's own size is.
pub proof fn lemma_partition_fits(
    tiles: Seq<Tile>,
    source: DynamicImage,
    tile_width: int,
    tile_height: int,
    canvas_width: int,
    canvas_height: int,
)
    requires
        tile_width >= 1,
        tile_height >= 1,
        is_partition(tiles, source, tile_width, tile_height),
        cells_along(image_width(source) as int, tile_width) * tile_width <= canvas_width,
        cells_along(image_height(source) as int, tile_height) * tile_height <= canvas_height,
    ensures
        all_fit(tiles, canvas_width, canvas_height),
        cells_along(image_width(source) as int, tile_width) * tile_width <= image_width(source),
        cells_along(image_height(source) as int, tile_height) * tile_height <= image_height(
            source,
        ),
{
    let width = image_width(source) as int;
    let height = image_height(source) as int;
    let across = cells_along(width, tile_width);
    let down = cells_along(height, tile_height);
    assert(across * tile_width <= width && down * tile_height <= height) by (nonlinear_arith)
        requires
            across == width / tile_width,
            down == height / tile_height,
            tile_width >= 1,
            tile_height >= 1,
    ;
    assert forall|k: int| 0 <= k < tiles.len() implies tile_fits(
        #[trigger] tiles[k],
        canvas_width,
        canvas_height,
    ) by {
        lemma_tile_of_index(tiles, source, tile_width, tile_height, k);
        let kx = k % across;
        let ky = k / across;
        assert(kx * tile_width + tile_width <= across * tile_width) by (nonlinear_arith)
            requires
                kx + 1 <= across,
                tile_width >= 1,
        ;
        assert(ky * tile_height + tile_height <= down * tile_height) by (nonlinear_arith)
            requires
                ky + 1 <= down,
                tile_height >= 1,
        ;
    }
}

/// Two cells that share a pixel column are in the same grid column: the
/// pixel `i` places into cell `a` lies in cell `b` only if `a` is `b`.
proof fn lemma_cells_apart(tile: int, a: int, b: int, i: int)
    requires
        tile >= 1,
        0 <= i < tile,
        a != b,
    ensures
        !(b * tile <= a * tile + i < b * tile + tile),
{
    if b < a {
        assert(b * tile + tile <= a * tile) by (nonlinear_arith)
            requires
                b + 1 <= a,
                tile >= 1,
        ;
    } else {
        assert(a * tile + tile <= b * tile) by (nonlinear_arith)
            requires
                a + 1 <= b,
                tile >= 1,
        ;
    }
}

/// Once the first `count` tiles of a partition are pasted, the pixel `(i, j)`
/// of the cell in column `cx` and row `cy` shows that pixel of the cell's own
/// tile if the tile is among them, and is blank if it is not.
pub proof fn lemma_painted_in_cell(
    tiles: Seq<Tile>,
    source: DynamicImage,
    tile_width: int,
    tile_height: int,
    count: int,
    cx: int,
    cy: int,
    i: int,
    j: int,
)
    requires
        tile_width >= 1,
        tile_height >= 1,
        is_partition(tiles, source, tile_width, tile_height),
        0 <= count <= tiles.len(),
        0 <= cx < cells_along(image_width(source) as int, tile_width),
        0 <= cy < cells_along(image_height(source) as int, tile_height),
        0 <= i < tile_width,
        0 <= j < tile_height,
    ensures
        ({
            let across = cells_along(image_width(source) as int, tile_width);
            painted(tiles, count, cx * tile_width + i, cy * tile_height + j) == if cell_index(
                across,
                cx,
                cy,
            ) < count {
                pasted_at(tiles[cell_index(across, cx, cy)].image, i, j)
            } else {
                (0u8, 0u8, 0u8, 0u8)
            }
        }),
    decreases count,
{
    if count > 0 {
        let across = cells_along(image_width(source) as int, tile_width);
        let k = count - 1;
        lemma_tile_of_index(tiles, source, tile_width, tile_height, k);
        lemma_painted_in_cell(tiles, source, tile_width, tile_height, k, cx, cy, i, j);
        let kx = k % across;
        let ky = k / across;
        if cell_index(across, cx, cy) == k {
            lemma_fundamental_div_mod_converse(k, across, cy, cx);
        } else if kx != cx {
            lemma_cells_apart(tile_width, cx, kx, i);
        } else {
            lemma_cells_apart(tile_height, cy, ky, j);
        }
    }
}

/// Outside the grid the canvas stays blank, however many tiles of a
/// partition are pasted.
pub proof fn lemma_painted_off_grid(
    tiles: Seq<Tile>,
    source: DynamicImage,
    tile_width: int,
    tile_height: int,
    count: int,
    x: int,
    y: int,
)
    requires
        tile_width >= 1,
        tile_height >= 1,
        is_partition(tiles, source, tile_width, tile_height),
        0 <= count <= tiles.len(),
        !in_grid(source, tile_width, tile_height, x, y),
    ensures
        painted(tiles, count, x, y) == (0u8, 0u8, 0u8, 0u8),
    decreases count,
{
    if count > 0 {
        let across = cells_along(image_width(source) as int, tile_width);
        let down = cells_along(image_height(source) as int, tile_height);
        let k = count - 1;
        lemma_tile_of_index(tiles, source, tile_width, tile_height, k);
        lemma_painted_off_grid(tiles, source, tile_width, tile_height, k, x, y);
        let kx = k % across;
        let ky = k / across;
        assert(kx * tile_width + tile_width <= across * tile_width && kx * tile_width >= 0)
            by (nonlinear_arith)
            requires
                0 <= kx,
                kx + 1 <= across,
                tile_width >= 1,
        ;
        assert(ky * tile_height + tile_height <= down * tile_height && ky * tile_height >= 0)
            by (nonlinear_arith)
            requires
                0 <= ky,
                ky + 1 <= down,
                tile_height >= 1,
        ;
    }
}

/// A canvas on which the tiles of a partition were joined shows, at every
/// pixel within the grid, the pixel that the cell's tile gives there, and is
/// blank at every other pixel.
pub proof fn lemma_join_shows_each_tile(
    canvas: DynamicImage,
    tiles: Seq<Tile>,
    source: DynamicImage,
    tile_width: int,
    tile_height: int,
    canvas_width: int,
    canvas_height: int,
)
    requires
        tile_width >= 1,
        tile_height >= 1,
        is_partition(tiles, source, tile_width, tile_height),
        shows_tiles(canvas, tiles, tiles.len() as int, canvas_width, canvas_height),
    ensures
        forall|x: int, y: int|
            0 <= x < canvas_width && 0 <= y < canvas_height ==> #[trigger] pixel_at(canvas, x, y)
                == if in_grid(source, tile_width, tile_height, x, y) {
                pasted_at(
                    tiles[cell_index(
                        cells_along(image_width(source) as int, tile_width),
                        x / tile_width,
                        y / tile_height,
                    )].image,
                    x % tile_width,
                    y % tile_height,
                )
            } else {
                (0u8, 0u8, 0u8, 0u8)
            },
{
    let across = cells_along(image_width(source) as int, tile_width);
    let down = cells_along(image_height(source) as int, tile_height);
    assert forall|x: int, y: int| 0 <= x < canvas_width && 0 <= y < canvas_height implies
        #[trigger] pixel_at(canvas, x, y) == if in_grid(source, tile_width, tile_height, x, y) {
        pasted_at(
            tiles[cell_index(across, x / tile_width, y / tile_height)].image,
            x % tile_width,
            y % tile_height,
        )
    } else {
        (0u8, 0u8, 0u8, 0u8)
    } by {
        if in_grid(source, tile_width, tile_height, x, y) {
            lemma_pixel_cell(across, tile_width, x);
            lemma_pixel_cell(down, tile_height, y);
            let cx = x / tile_width;
            let cy = y / tile_height;
            lemma_cell_index_in_range(across, down, cx, cy);
            lemma_painted_in_cell(
                tiles,
                source,
                tile_width,
                tile_height,
                tiles.len() as int,
                cx,
                cy,
                x % tile_width,
                y % tile_height,
            );
        } else {
            lemma_painted_off_grid(
                tiles,
                source,
                tile_width,
                tile_height,
                tiles.len() as int,
                x,
                y,
            );
        }
    }
}

/// A pixel within `cells` whole tiles lies in the cell that the quotient
/// names, at the place that the remainder names.
proof fn lemma_pixel_cell(cells: int, tile: int, x: int)
    requires
        tile >= 1,
        0 <= x < cells * tile,
    ensures
        0 <= x / tile < cells,
        0 <= x % tile < tile,
        x == (x / tile) * tile + x % tile,
{
    let q = x / tile;
    let r = x % tile;
    assert(x == tile * q + r && 0 <= r < tile) by (nonlinear_arith)
        requires
            tile >= 1,
            q == x / tile,
            r == x % tile,
    ;
    assert(0 <= q < cells) by (nonlinear_arith)
        requires
            x == tile * q + r,
            0 <= r < tile,
            0 <= x < cells * tile,
    ;
    assert(q * tile == tile * q) by (nonlinear_arith);
}

/// A cell of the grid has an index below the number of cells.
proof fn lemma_cell_index_in_range(across: int, down: int, cx: int, cy: int)
    requires
        0 <= cx < across,
        0 <= cy < down,
    ensures
        0 <= cell_index(across, cx, cy) < across * down,
{
    assert(0 <= cy * across + cx < across * down) by (nonlinear_arith)
        requires
            0 <= cx < across,
            0 <= cy,
            cy + 1 <= down,
    ;
}

/// Cutting an image into tiles and joining the tiles restores the image: at
/// every place within the grid the canvas shows the pixel that the image
/// itself gives when pasted, which is its own pixel where it is stored as
/// 8-bit RGBA and else that of its 8-bit RGBA copy; at every other place the
/// canvas is blank.
pub proof fn lemma_join_restores_image(
    canvas: DynamicImage,
    tiles: Seq<Tile>,
    source: DynamicImage,
    tile_width: int,
    tile_height: int,
    canvas_width: int,
    canvas_height: int,
)
    requires
        tile_width >= 1,
        tile_height >= 1,
        is_partition(tiles, source, tile_width, tile_height),
        shows_tiles(canvas, tiles, tiles.len() as int, canvas_width, canvas_height),
    ensures
        forall|x: int, y: int|
            0 <= x < canvas_width && 0 <= y < canvas_height ==> #[trigger] pixel_at(canvas, x, y)
                == if in_grid(source, tile_width, tile_height, x, y) {
                pasted_at(source, x, y)
            } else {
                (0u8, 0u8, 0u8, 0u8)
            },
{
    let across = cells_along(image_width(source) as int, tile_width);
    let down = cells_along(image_height(source) as int, tile_height);
    lemma_join_shows_each_tile(
        canvas,
        tiles,
        source,
        tile_width,
        tile_height,
        canvas_width,
        canvas_height,
    );
    assert forall|x: int, y: int| 0 <= x < canvas_width && 0 <= y < canvas_height implies
        #[trigger] pixel_at(canvas, x, y) == if in_grid(source, tile_width, tile_height, x, y) {
        pasted_at(source, x, y)
    } else {
        (0u8, 0u8, 0u8, 0u8)
    } by {
        if in_grid(source, tile_width, tile_height, x, y) {
            lemma_pixel_cell(across, tile_width, x);
            lemma_pixel_cell(down, tile_height, y);
            let cx = x / tile_width;
            let cy = y / tile_height;
            let i = x % tile_width;
            let j = y % tile_height;
            let k = cell_index(across, cx, cy);
            lemma_cell_index_in_range(across, down, cx, cy);
            let tile = tiles[k];
            assert(is_cell_tile(tile, source, tile_width, tile_height, across, cx, cy));
            assert(pixel_at(tile.image, i, j) == pixel_at(
                source,
                cx * tile_width + i,
                cy * tile_height + j,
            ));
            assert(rgba8_at(tile.image, i, j) == rgba8_at(
                source,
                cx * tile_width + i,
                cy * tile_height + j,
            ));
        }
    }
}

/// Slicing an image by a tile count and joining the tiles with no size asked
/// for gives the image back, where the near-square grid for the count
/// divides both sides of the image without a rest: the slicing succeeds, the
/// tiles can be joined, the joining succeeds, and the canvas has the size of
/// the image and shows at every place the pixel of the image as 8-bit RGBA.
/// This holds of every image of which an 8-bit RGBA buffer can be made.
pub proof fn lemma_slice_then_join_restores(
    image: DynamicImage,
    n: u32,
    col: Option<u32>,
    row: Option<u32>,
    sliced: Result<Vec<Tile>, TileError>,
    joined: Result<DynamicImage, TileError>,
)
    requires
        tile_count_ok(n as int),
        image_width(image) as int % grid_columns(n as int) == 0,
        image_height(image) as int % grid_rows(n as int) == 0,
        image_width(image) >= grid_columns(n as int),
        image_height(image) >= grid_rows(n as int),
        can_store_rgba8(image_width(image) as int, image_height(image) as int),
        slice_outcome(image, Some(n), col, row, sliced),
        match sliced {
            Ok(tiles) => join_outcome(tiles@, 0, 0, joined),
            Err(_) => true,
        },
    ensures
        can_slice(image, Some(n), col, row),
        match sliced {
            Ok(tiles) => {
                &&& tiles@.len() == grid_columns(n as int) * grid_rows(n as int)
                &&& can_join(tiles@, 0, 0)
            },
            Err(_) => false,
        },
        match joined {
            Ok(canvas) => {
                &&& image_width(canvas) == image_width(image)
                &&& image_height(canvas) == image_height(image)
                &&& forall|x: int, y: int|
                    0 <= x < image_width(image) && 0 <= y < image_height(image)
                        ==> #[trigger] pixel_at(canvas, x, y) == pasted_at(image, x, y)
            },
            Err(_) => false,
        },
{
    let width = image_width(image) as int;
    let height = image_height(image) as int;
    let c = grid_columns(n as int);
    let r = grid_rows(n as int);
    lemma_grid_within_limit(n as int);
    lemma_full_grid_is_its_own(n as int);
    let tile_width = width / c;
    let tile_height = height / r;
    lemma_even_cut(width, c);
    lemma_even_cut(height, r);
    assert(requested_grid(Some(n), col, row) == Some((c, r)));
    match sliced {
        Ok(cut) => {
            let tiles = cut@;
            assert(is_partition(tiles, image, tile_width, tile_height));
            assert(1 <= c * r <= 99 * 99) by (nonlinear_arith)
                requires
                    1 <= c <= 99,
                    1 <= r <= 99,
            ;
            assert(tile_count(tiles) == c * r);
            lemma_tile_of_index(tiles, image, tile_width, tile_height, 0);
            assert(combined_size(tiles).0 == width && combined_size(tiles).1 == height)
                by (nonlinear_arith)
                requires
                    combined_size(tiles).0 == tile_width * c,
                    combined_size(tiles).1 == tile_height * r,
                    width == c * tile_width,
                    height == r * tile_height,
            ;
            assert forall|k: int| 0 <= k < tiles.len() implies can_copy(#[trigger] tiles[k]) by {
                lemma_tile_of_index(tiles, image, tile_width, tile_height, k);
                assert(4 * tile_width * tile_height <= 4 * width * height) by (nonlinear_arith)
                    requires
                        1 <= tile_width <= width,
                        1 <= tile_height <= height,
                ;
            }
            assert(can_join(tiles, 0, 0));
            lemma_partition_fits(tiles, image, tile_width, tile_height, width, height);
            match joined {
                Ok(canvas) => {
                    lemma_join_restores_image(
                        canvas,
                        tiles,
                        image,
                        tile_width,
                        tile_height,
                        width,
                        height,
                    );
                    assert forall|x: int, y: int| 0 <= x < width && 0 <= y < height implies
                        #[trigger] pixel_at(canvas, x, y) == pasted_at(image, x, y) by {
                        assert(in_grid(image, tile_width, tile_height, x, y));
                    }
                },
                Err(_) => {},
            }
        },
        Err(_) => {},
    }
}

/// A side of `extent` pixels that `parts` divides without a rest is cut into
/// exactly `parts` tiles, which together fill it.
proof fn lemma_even_cut(extent: int, parts: int)
    requires
        parts >= 1,
        extent >= parts,
        extent % parts == 0,
    ensures
        extent / parts >= 1,
        extent == parts * (extent / parts),
        cells_along(extent, extent / parts) == parts,
        cells_along(extent, extent / parts) * (extent / parts) == extent,
{
    let tile = extent / parts;
    assert(extent == parts * tile + extent % parts) by (nonlinear_arith)
        requires
            parts >= 1,
            tile == extent / parts,
    ;
    assert(tile >= 1) by (nonlinear_arith)
        requires
            extent == parts * tile,
            extent >= parts,
            parts >= 1,
    ;
    assert(extent == parts * tile + 0);
    lemma_fundamental_div_mod_converse(extent, tile, parts, 0);
}

} // verus!
