//! The kinds of failure that slicing, reloading and joining report.

use vstd::prelude::*;

verus! {

/// Why an operation on tiles could not be carried out.
#[derive(Clone, Copy, Debug, PartialEq, Eq, Structural)]
pub enum TileError {
    /// A tile count or a column/row pair outside the supported range, a
    /// request for a single cell, or no grid given at all.
    InvalidInput,
    /// The source image could not be read or decoded.
    ImageOpenError,
    /// A file name does not end in a readable pair of grid coordinates.
    InvalidFilenameFormat,
    /// A tile reaches beyond the canvas it is pasted on.
    CompositingError,
    /// A directory could not be made or a file could not be written.
    FilesystemError,
}

} // verus!
