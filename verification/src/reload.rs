//! Reading tiles back from a directory: which files are tiles, and where a
//! tile that was read back belongs.

use vstd::prelude::*;
use vstd::string::*;
use image::DynamicImage;
use crate::codec::position_stem;
use crate::paths::{file_stem, path_file_stem};
use crate::raster::{image_height, image_width};
use crate::tile::Tile;

verus! {

/// The word that the name of a joined image starts with.
pub open spec fn joined_word() -> Seq<char> {
    seq!['j', 'o', 'i', 'n', 'e', 'd']
}

/// Whether a stem is that of a tile file: it holds an underscore and does
/// not start with `joined`.
pub open spec fn is_tile_stem_text(stem: Seq<char>) -> bool {
    stem.contains('_') && !joined_word().is_prefix_of(stem)
}

/// Whether a file name is that of a tile file: it has a stem, and the stem
/// is that of a tile file.
pub open spec fn is_tile_name(filename: Seq<char>) -> bool {
    match path_file_stem(filename) {
        Some(stem) => is_tile_stem_text(stem),
        None => false,
    }
}

/// The pixel at which a tile that was read back starts: the decoded position
/// times the size of the tile, each way.
pub open spec fn reloaded_origin(position: (i32, i32), width: u32, height: u32) -> (int, int) {
    (position.0 * (width as i32), position.1 * (height as i32))
}

/// Whether a tile of the given size, read back for the given position, can
/// be placed: both sides of its origin fit in 32 bits.
pub open spec fn can_place(position: (i32, i32), width: u32, height: u32) -> bool {
    &&& i32::MIN <= reloaded_origin(position, width, height).0 <= i32::MAX
    &&& i32::MIN <= reloaded_origin(position, width, height).1 <= i32::MAX
}

/// Tells whether a stem is that of a tile file: one that holds an underscore
/// and does not start with `joined`, the mark of an image that was joined
/// before.
pub fn is_tile_stem(stem: &str) -> (is_tile: bool)
    ensures
        is_tile == is_tile_stem_text(stem@),
{
    let len: usize = stem.unicode_len();
    let mut k: usize = 0;
    while k < len && stem.get_char(k) != '_'
        invariant
            k <= len == stem@.len(),
            forall|i: int| 0 <= i < k ==> stem@[i] != '_',
        decreases len - k,
    {
        k = k + 1;
    }
    if k == len {
        return false;
    }
    assert(stem@[k as int] == '_');
    let starts_joined: bool = len >= 6 && stem.get_char(0) == 'j' && stem.get_char(1) == 'o'
        && stem.get_char(2) == 'i' && stem.get_char(3) == 'n' && stem.get_char(4) == 'e'
        && stem.get_char(5) == 'd';
    proof {
        let word = joined_word();
        if starts_joined {
            assert(word =~= stem@.subrange(0, 6));
        } else if len >= 6 {
            let head = stem@.subrange(0, 6);
            if word == head {
                assert(head[0] == word[0] && head[1] == word[1] && head[2] == word[2]);
                assert(head[3] == word[3] && head[4] == word[4] && head[5] == word[5]);
            }
        }
    }
    !starts_joined
}

/// Tells whether a file in a directory of tiles is a tile file, going by the
/// stem of its name.
pub fn is_tile_file(filename: &str) -> (is_tile: bool)
    ensures
        is_tile == is_tile_name(filename@),
{
    match file_stem(filename) {
        Some(stem) => is_tile_stem(stem.as_str()),
        None => false,
    }
}

/// Makes the tile for an image that was read back from the file at `path`,
/// whose name decoded to `position`. The tile keeps that position and starts
/// at the position times its own size, each way. Both products must fit in
/// 32 bits.
pub fn reload_tile(image: DynamicImage, number: i32, position: (i32, i32), path: &str) -> (tile:
    Tile)
    requires
        can_place(position, image_width(image), image_height(image)),
    ensures
        tile.image == image,
        tile.number == number,
        tile.position == position,
        tile.coords.0 == reloaded_origin(position, image_width(image), image_height(image)).0,
        tile.coords.1 == reloaded_origin(position, image_width(image), image_height(image)).1,
        tile.filename is Some,
        tile.filename->0@ == path@,
{
    let width: i32 = #[verifier::truncate] (image.width() as i32);
    let height: i32 = #[verifier::truncate] (image.height() as i32);
    let coords: (i32, i32) = (position.0 * width, position.1 * height);
    Tile::new(image, number, position, coords, Some(String::from_str(path)))
}

/// The stem written for a cell is that of a tile file, whatever the cell,
/// unless the prefix itself starts with `joined`.
pub proof fn lemma_encoded_stem_is_tile_stem(prefix: Seq<char>, column: int, row: int)
    ensures
        is_tile_stem_text(position_stem(prefix, column, row)) <==> !joined_word().is_prefix_of(
            prefix,
        ),
{
    let stem = position_stem(prefix, column, row);
    let word = joined_word();
    assert(stem[prefix.len() as int] == '_');
    assert(stem.contains('_'));
    if prefix.len() >= 6 {
        assert(stem.subrange(0, 6) =~= prefix.subrange(0, 6));
    } else if word.is_prefix_of(stem) {
        assert(stem.subrange(0, 6)[prefix.len() as int] == word[prefix.len() as int]);
    }
}

/// Makes the tile for an image that was read back as `reload_tile` does,
/// after making sure that the tile can be placed. Hands back `None` where a
/// side of the position times the tile's size does not fit in 32 bits.
pub fn try_reload_tile(image: DynamicImage, number: i32, position: (i32, i32), path: &str) -> (tile:
    Option<Tile>)
    ensures
        tile is Some <==> can_place(position, image_width(image), image_height(image)),
        match tile {
            Some(made) => {
                &&& made.image == image
                &&& made.number == number
                &&& made.position == position
                &&& made.coords.0 == reloaded_origin(
                    position,
                    image_width(image),
                    image_height(image),
                ).0
                &&& made.coords.1 == reloaded_origin(
                    position,
                    image_width(image),
                    image_height(image),
                ).1
                &&& made.filename is Some
                &&& made.filename->0@ == path@
            },
            None => true,
        },
{
    let width: i32 = #[verifier::truncate] (image.width() as i32);
    let height: i32 = #[verifier::truncate] (image.height() as i32);
    let x: Option<i32> = position.0.checked_mul(width);
    let y: Option<i32> = position.1.checked_mul(height);
    match (x, y) {
        (Some(_), Some(_)) => Some(reload_tile(image, number, position, path)),
        _ => None,
    }
}

} // verus!
