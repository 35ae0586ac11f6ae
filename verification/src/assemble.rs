//! Putting tiles back together on one canvas.

use vstd::prelude::*;
use image::DynamicImage;
use crate::error::TileError;
use crate::grid::{calc_columns_rows, grid_columns, grid_rows};
use crate::raster::{
    blank_canvas, can_store_rgba8, covers, fits_within, holds_rgba8, image_height, image_width,
    paste, pasted_at, pixel_at, Rgba,
};
use crate::tile::Tile;

verus! {

/// The number of tiles as the grid arithmetic sees it: a 32-bit count.
pub open spec fn tile_count(tiles: Seq<Tile>) -> int {
    (tiles.len() as u32) as int
}

/// The size, width first, of the canvas that holds a set of equal tiles laid
/// out on the near-square grid for their number: the first tile's width
/// times the columns, and its height times the rows.
pub open spec fn combined_size(tiles: Seq<Tile>) -> (int, int) {
    (
        image_width(tiles[0].image) * grid_columns(tile_count(tiles)),
        image_height(tiles[0].image) * grid_rows(tile_count(tiles)),
    )
}

/// Whether a set of tiles has a combined size: there is a first tile to go
/// by, and both sides fit in 32 bits.
pub open spec fn has_combined_size(tiles: Seq<Tile>) -> bool {
    &&& tiles.len() >= 1
    &&& combined_size(tiles).0 <= u32::MAX
    &&& combined_size(tiles).1 <= u32::MAX
}

/// The size, width first, of the canvas that tiles are joined on: the size
/// asked for where both sides are given, or else the combined size of the
/// tiles.
pub open spec fn canvas_size(tiles: Seq<Tile>, width: u32, height: u32) -> (int, int) {
    if width > 0 && height > 0 {
        (width as int, height as int)
    } else {
        combined_size(tiles)
    }
}

/// Whether the 8-bit RGBA copy of a tile can be made, as it is when the tile
/// is pasted.
pub open spec fn can_copy(tile: Tile) -> bool {
    can_store_rgba8(image_width(tile.image) as int, image_height(tile.image) as int)
}

/// Whether tiles can be joined: the size of the canvas can be worked out,
/// the canvas can be made, and so can the 8-bit RGBA copy of every tile.
pub open spec fn can_join(tiles: Seq<Tile>, width: u32, height: u32) -> bool {
    &&& width == 0 || height == 0 ==> has_combined_size(tiles)
    &&& can_store_rgba8(canvas_size(tiles, width, height).0, canvas_size(tiles, width, height).1)
    &&& forall|k: int| 0 <= k < tiles.len() ==> can_copy(#[trigger] tiles[k])
}

/// The pixel column at which a tile is pasted.
pub open spec fn origin_x(tile: Tile) -> int {
    (tile.coords.0 as u32) as int
}

/// The pixel row at which a tile is pasted.
pub open spec fn origin_y(tile: Tile) -> int {
    (tile.coords.1 as u32) as int
}

/// Whether a tile, pasted at its origin, lies within a canvas of the given
/// size.
pub open spec fn tile_fits(tile: Tile, canvas_width: int, canvas_height: int) -> bool {
    fits_within(
        origin_x(tile),
        origin_y(tile),
        image_width(tile.image) as int,
        image_height(tile.image) as int,
        canvas_width,
        canvas_height,
    )
}

/// Whether every tile lies within a canvas of the given size.
pub open spec fn all_fit(tiles: Seq<Tile>, canvas_width: int, canvas_height: int) -> bool {
    forall|k: int|
        0 <= k < tiles.len() ==> tile_fits(#[trigger] tiles[k], canvas_width, canvas_height)
}

/// The pixel that shows at `(x, y)` once the first `count` tiles have been
/// pasted in order on a blank canvas: the one given by the last tile that
/// covers the place, or a pixel of zeros where none does.
pub open spec fn painted(tiles: Seq<Tile>, count: int, x: int, y: int) -> Rgba
    decreases count,
{
    if count <= 0 {
        (0u8, 0u8, 0u8, 0u8)
    } else {
        let tile = tiles[count - 1];
        if covers(
            origin_x(tile),
            origin_y(tile),
            image_width(tile.image) as int,
            image_height(tile.image) as int,
            x,
            y,
        ) {
            pasted_at(tile.image, x - origin_x(tile), y - origin_y(tile))
        } else {
            painted(tiles, count - 1, x, y)
        }
    }
}

/// Whether `canvas` shows the first `count` tiles pasted in order on a blank
/// canvas of `width` by `height` pixels.
pub open spec fn shows_tiles(
    canvas: DynamicImage,
    tiles: Seq<Tile>,
    count: int,
    width: int,
    height: int,
) -> bool {
    &&& image_width(canvas) == width
    &&& image_height(canvas) == height
    &&& forall|x: int, y: int|
        0 <= x < width && 0 <= y < height ==> #[trigger] pixel_at(canvas, x, y) == painted(
            tiles,
            count,
            x,
            y,
        )
}

/// Whether `joined` is what joining the tiles gives: a canvas of the size
/// chosen, stored as 8-bit RGBA, that shows all the tiles, where every tile
/// lies within it; and a failure to compose where one does not.
pub open spec fn join_outcome(
    tiles: Seq<Tile>,
    width: u32,
    height: u32,
    joined: Result<DynamicImage, TileError>,
) -> bool {
    let canvas_width = canvas_size(tiles, width, height).0;
    let canvas_height = canvas_size(tiles, width, height).1;
    match joined {
        Ok(canvas) => {
            &&& all_fit(tiles, canvas_width, canvas_height)
            &&& holds_rgba8(canvas)
            &&& shows_tiles(canvas, tiles, tiles.len() as int, canvas_width, canvas_height)
        },
        Err(e) => e == TileError::CompositingError && !all_fit(
            tiles,
            canvas_width,
            canvas_height,
        ),
    }
}

/// Works out the size, width first, of the canvas for a set of equal tiles:
/// the first tile's size times the columns and rows of the near-square grid
/// for their number. There must be a tile, and the size must fit in 32 bits.
pub fn get_combined_size(tiles: &[Tile]) -> (size: (u32, u32))
    requires
        has_combined_size(tiles@),
    ensures
        size.0 == combined_size(tiles@).0,
        size.1 == combined_size(tiles@).1,
{
    let count: u32 = #[verifier::truncate] (tiles.len() as u32);
    let (columns, rows): (u32, u32) = calc_columns_rows(count);
    (tiles[0].image.width() * columns, tiles[0].image.height() * rows)
}

/// Joins tiles on one canvas. The canvas has the size asked for where both
/// `width` and `height` are positive, or else the combined size of the
/// tiles. It starts out blank, all samples zero, and each tile in turn is
/// written over it at the tile's origin, so that where tiles overlap the
/// later one shows. Fails where a tile does not lie within the canvas. The
/// canvas, and the 8-bit RGBA copy of every tile, must be of a size that can
/// be stored.
pub fn join(tiles: &[Tile], width: u32, height: u32) -> (joined: Result<DynamicImage, TileError>)
    requires
        can_join(tiles@, width, height),
    ensures
        join_outcome(tiles@, width, height, joined),
{
    let (canvas_width, canvas_height): (u32, u32) = if width > 0 && height > 0 {
        (width, height)
    } else {
        get_combined_size(tiles)
    };
    let mut canvas: DynamicImage = blank_canvas(canvas_width, canvas_height);
    let mut k: usize = 0;
    while k < tiles.len()
        invariant
            k <= tiles.len(),
            canvas_width == canvas_size(tiles@, width, height).0,
            canvas_height == canvas_size(tiles@, width, height).1,
            holds_rgba8(canvas),
            forall|j: int| 0 <= j < tiles@.len() ==> can_copy(#[trigger] tiles@[j]),
            all_fit(tiles@.take(k as int), canvas_width as int, canvas_height as int),
            shows_tiles(canvas, tiles@, k as int, canvas_width as int, canvas_height as int),
        decreases tiles.len() - k,
    {
        let tile: &Tile = &tiles[k];
        assert(can_copy(tiles@[k as int]));
        let x: u32 = #[verifier::truncate] (tile.coords.0 as u32);
        let y: u32 = #[verifier::truncate] (tile.coords.1 as u32);
        let ghost bare = canvas;
        match paste(&mut canvas, &tile.image, x, y) {
            Ok(_) => {},
            Err(_) => {
                assert(!tile_fits(tiles@[k as int], canvas_width as int, canvas_height as int));
                return Err(TileError::CompositingError);
            },
        }
        proof {
            let before = tiles@.take(k as int);
            let after = tiles@.take(k + 1);
            assert forall|j: int| 0 <= j < after.len() implies tile_fits(
                #[trigger] after[j],
                canvas_width as int,
                canvas_height as int,
            ) by {
                if j < k {
                    assert(after[j] == before[j]);
                }
            }
            assert forall|i: int, j: int|
                0 <= i < canvas_width && 0 <= j < canvas_height implies #[trigger] pixel_at(
                canvas,
                i,
                j,
            ) == painted(tiles@, k + 1, i, j) by {
                assert(pixel_at(bare, i, j) == painted(tiles@, k as int, i, j));
            }
        }
        k = k + 1;
    }
    assert(tiles@.take(k as int) =~= tiles@);
    Ok(canvas)
}

/// Works out the combined size of a set of equal tiles as
/// `get_combined_size` does, after making sure that it can be. Hands back
/// `None` where there is no tile or a side does not fit in 32 bits.
pub fn try_get_combined_size(tiles: &[Tile]) -> (size: Option<(u32, u32)>)
    ensures
        size is Some <==> has_combined_size(tiles@),
        match size {
            Some((width, height)) => width == combined_size(tiles@).0 && height == combined_size(
                tiles@,
            ).1,
            None => true,
        },
{
    if tiles.len() == 0 {
        return None;
    }
    let count: u32 = #[verifier::truncate] (tiles.len() as u32);
    let (columns, rows): (u32, u32) = calc_columns_rows(count);
    let width: Option<u32> = tiles[0].image.width().checked_mul(columns);
    let height: Option<u32> = tiles[0].image.height().checked_mul(rows);
    match (width, height) {
        (Some(w), Some(h)) => Some((w, h)),
        _ => None,
    }
}

/// Tells whether an 8-bit RGBA buffer of the given size can be made.
fn storable_as_rgba8(width: u32, height: u32) -> (storable: bool)
    ensures
        storable == can_store_rgba8(width as int, height as int),
{
    let row: u64 = 4 * (width as u64);
    assert(row * height <= 0x3_ffff_fffc * 0xffff_ffff) by (nonlinear_arith)
        requires
            0 <= row <= 0x3_ffff_fffc,
            0 <= height <= 0xffff_ffff,
    ;
    let samples: u128 = (row as u128) * (height as u128);
    assert(samples == 4 * width * height) by (nonlinear_arith)
        requires
            samples == row * height,
            row == 4 * width,
    ;
    row as u128 <= usize::MAX as u128 && samples <= isize::MAX as u128
}

/// Joins tiles as `join` does, after making sure that they can be joined.
/// Hands back `None`, and joins nothing, where the size of the canvas has to
/// be worked out from the tiles and cannot be, and where the canvas or the
/// 8-bit RGBA copy of a tile would be too large to store.
pub fn try_join(tiles: &[Tile], width: u32, height: u32) -> (joined: Option<
    Result<DynamicImage, TileError>,
>)
    ensures
        joined is Some <==> can_join(tiles@, width, height),
        match joined {
            Some(outcome) => join_outcome(tiles@, width, height, outcome),
            None => true,
        },
{
    let size: Option<(u32, u32)> = if width > 0 && height > 0 {
        Some((width, height))
    } else {
        try_get_combined_size(tiles)
    };
    match size {
        Some((canvas_width, canvas_height)) => {
            if !storable_as_rgba8(canvas_width, canvas_height) {
                return None;
            }
            let mut k: usize = 0;
            while k < tiles.len()
                invariant
                    k <= tiles.len(),
                    forall|j: int| 0 <= j < k ==> can_copy(#[trigger] tiles@[j]),
                decreases tiles.len() - k,
            {
                if !storable_as_rgba8(tiles[k].image.width(), tiles[k].image.height()) {
                    assert(!can_copy(tiles@[k as int]));
                    return None;
                }
                k = k + 1;
            }
            Some(join(tiles, width, height))
        },
        None => None,
    }
}

} // verus!
