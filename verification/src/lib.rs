//! Cuts a raster image into a rectangular grid of tiles, names each tile after
//! its grid cell, and puts a set of tiles back together on one canvas.
//!
//! The grid arithmetic, the file-name codec, the partitioning and the assembly
//! are verified; pixel storage is left to the `image` crate, whose behaviour is
//! stated in the contracts of the `raster` module.

pub mod assemble;
pub mod codec;
pub mod error;
pub mod grid;
pub mod partition;
pub mod paths;
pub mod raster;
pub mod rejoin;
pub mod reload;
pub mod text;
pub mod tile;

pub use crate::assemble::{get_combined_size, join, try_get_combined_size, try_join};
pub use crate::codec::{
    decode_position, encode_file_name, encode_position, format_extension, get_columns_rows,
    get_image_column_row, rewrite_jpeg, stem_tokens,
};
pub use crate::error::TileError;
pub use crate::grid::{calc_columns_rows, validate_image, validate_image_col_row};
pub use crate::paths::get_basename;
pub use crate::partition::{partition, select_grid, slice, try_slice, GridLayout};
pub use crate::reload::{is_tile_file, is_tile_stem, reload_tile, try_reload_tile};
pub use crate::tile::Tile;
