//! One cell of a grid: its pixels, where it lies, and the file it was stored
//! in.

use vstd::prelude::*;
use vstd::string::*;
use image::DynamicImage;
use crate::codec::{encode_file_name, jpeg_to_jpg, position_file_name};
use crate::paths::{file_name, file_stem, path_file_name, path_file_stem};
use crate::text::{lowercase_of, push_signed, signed_text};

verus! {

/// A rectangular piece of an image.
#[derive(Debug)]
pub struct Tile {
    /// The pixels of the tile.
    pub image: DynamicImage,
    /// The place of the tile in the order in which the tiles were made,
    /// counted from 1.
    pub number: i32,
    /// The grid cell of the tile: column first, row second. A tile cut from
    /// an image counts both from 1; a tile read back from a file holds the
    /// zero-based pair that its name decodes to.
    pub position: (i32, i32),
    /// The pixel at which the tile's top-left corner lies in the whole image:
    /// horizontal offset first, vertical second.
    pub coords: (i32, i32),
    /// The path of the file the tile was written to or read from, if any.
    pub filename: Option<String>,
}

/// The line that describes a tile with the given number: `<Tile #7>` for a
/// tile without a file, `<Tile #7 - name>` for one whose file is called
/// `name`.
pub open spec fn label_text(number: int, name: Option<Seq<char>>) -> Seq<char> {
    let head = seq!['<', 'T', 'i', 'l', 'e', ' ', '#'] + signed_text(number);
    match name {
        Some(text) => head + seq![' ', '-', ' '] + text + seq!['>'],
        None => head + seq!['>'],
    }
}

/// The name a path is known by: its last component, or nothing where it has
/// none.
pub open spec fn shown_name(path: Seq<char>) -> Seq<char> {
    match path_file_name(path) {
        Some(name) => name,
        None => Seq::empty(),
    }
}

impl Clone for Tile {
    /// A second tile with the same pixels, place and file.
    fn clone(&self) -> (copy: Tile)
        ensures
            copy == *self,
    {
        Tile {
            image: self.image.clone(),
            number: self.number,
            position: (self.position.0, self.position.1),
            coords: (self.coords.0, self.coords.1),
            filename: self.filename.clone(),
        }
    }
}

impl Tile {
    /// Makes a tile of its parts.
    pub fn new(
        image: DynamicImage,
        number: i32,
        position: (i32, i32),
        coords: (i32, i32),
        filename: Option<String>,
    ) -> (tile: Tile)
        ensures
            tile.image == image,
            tile.number == number,
            tile.position == position,
            tile.coords == coords,
            tile.filename == filename,
    {
        Tile { image, number, position, coords, filename }
    }

    /// The column of the tile's grid cell.
    pub fn column(&self) -> (column: i32)
        ensures
            column == self.position.0,
    {
        self.position.0
    }

    /// The row of the tile's grid cell.
    pub fn row(&self) -> (row: i32)
        ensures
            row == self.position.1,
    {
        self.position.1
    }

    /// The stem of the tile's file: its name without directories and
    /// extension. `None` for a tile that has no file, or whose path has no
    /// stem.
    pub fn basename(&self) -> (stem: Option<String>)
        ensures
            match stem {
                Some(text) => self.filename is Some && path_file_stem(self.filename->0@) == Some(
                    text@,
                ),
                None => self.filename is None || path_file_stem(self.filename->0@) is None,
            },
    {
        match &self.filename {
            Some(path) => file_stem(path.as_str()),
            None => None,
        }
    }

    /// The name of the file to store the tile in:
    /// `{prefix}_{row}_{column}.{extension}`, where both numbers have at
    /// least two digits and the extension is the format's name in lower
    /// case, with `jpeg` shortened to `jpg`.
    pub fn generate_filename(&self, prefix: &str, format: &str) -> (name: String)
        ensures
            name@ == position_file_name(
                prefix@,
                self.position.0 as int,
                self.position.1 as int,
                jpeg_to_jpg(lowercase_of(format@)),
            ),
    {
        encode_file_name(prefix, self.column(), self.row(), format)
    }

    /// A one-line description of the tile: its number and, where it has a
    /// file, the file's name without directories.
    pub fn describe(&self) -> (label: String)
        ensures
            label@ == label_text(
                self.number as int,
                match self.filename {
                    Some(path) => Some(shown_name(path@)),
                    None => None,
                },
            ),
    {
        proof {
            reveal_strlit("<Tile #");
            reveal_strlit(" - ");
        }
        let mut label: String = String::from_str("<Tile #");
        assert(label@ =~= seq!['<', 'T', 'i', 'l', 'e', ' ', '#']);
        push_signed(&mut label, self.number);
        match &self.filename {
            Some(path) => {
                label.append(" - ");
                assert(" - "@ =~= seq![' ', '-', ' ']);
                match file_name(path.as_str()) {
                    Some(name) => label.append(name.as_str()),
                    None => {},
                }
                label.push('>');
                assert(label@ =~= label_text(self.number as int, Some(shown_name(path@))));
            },
            None => {
                label.push('>');
            },
        }
        label
    }
}

} // verus!
