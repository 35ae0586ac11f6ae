//! What the library takes from the `image` crate, and what it trusts of it.
//!
//! An image is kept as the crate's own `DynamicImage`. Verus sees nothing
//! inside such a value, so its size and its pixels are named here, and the
//! contracts below say how each call reads or changes them. None of these
//! contracts is proved: they restate what the `image` crate does.

use vstd::prelude::*;
use image::{DynamicImage, GenericImage, ImageError, RgbaImage};

verus! {

/// A pixel as four 8-bit samples: red, green, blue, alpha.
pub type Rgba = (u8, u8, u8, u8);

/// `image::DynamicImage`, as a value that is carried through unopened.
#[verifier::external_type_specification]
#[verifier::external_body]
pub struct ExDynamicImage(DynamicImage);

/// `image::ImageError`, as a value that is carried through unopened.
#[verifier::external_type_specification]
#[verifier::external_body]
pub struct ExImageError(ImageError);

/// The number of pixel columns of an image.
pub uninterp spec fn image_width(image: DynamicImage) -> u32;

/// The number of pixel rows of an image.
pub uninterp spec fn image_height(image: DynamicImage) -> u32;

/// The pixels of an image as `GenericImageView::get_pixel` reports them:
/// one sequence for each pixel row, from the top, each holding the pixels of
/// its row from the left.
pub uninterp spec fn image_pixels(image: DynamicImage) -> Seq<Seq<Rgba>>;

/// The pixels of the copy that `DynamicImage::to_rgba8` makes of an image,
/// row by row as in `image_pixels`.
pub uninterp spec fn rgba8_pixels(image: DynamicImage) -> Seq<Seq<Rgba>>;

/// The pixel of an image at column `x` and row `y`.
pub open spec fn pixel_at(image: DynamicImage, x: int, y: int) -> Rgba {
    image_pixels(image)[y][x]
}

/// The pixel at column `x` and row `y` of the 8-bit RGBA copy of an image.
pub open spec fn rgba8_at(image: DynamicImage, x: int, y: int) -> Rgba {
    rgba8_pixels(image)[y][x]
}

/// Whether an image stores its pixels as 8-bit RGBA, so that a pixel put
/// into it is read back unchanged and its 8-bit RGBA copy is the image
/// itself.
pub uninterp spec fn holds_rgba8(image: DynamicImage) -> bool;

/// The pixel that an image gives when it is pasted: its own pixel at column
/// `x` and row `y` where it is stored as 8-bit RGBA, and else that of its
/// 8-bit RGBA copy.
pub open spec fn pasted_at(image: DynamicImage, x: int, y: int) -> Rgba {
    if holds_rgba8(image) {
        pixel_at(image, x, y)
    } else {
        rgba8_at(image, x, y)
    }
}

/// `DynamicImage::width`: the width of the image.
pub assume_specification[ DynamicImage::width ](image: &DynamicImage) -> (width: u32)
    ensures
        width == image_width(*image),
;

/// `DynamicImage::height`: the height of the image.
pub assume_specification[ DynamicImage::height ](image: &DynamicImage) -> (height: u32)
    ensures
        height == image_height(*image),
;

/// `Clone::clone` of a `DynamicImage`: a second image equal to the first.
pub assume_specification[ <DynamicImage as Clone>::clone ](image: &DynamicImage) -> (copy:
    DynamicImage)
    ensures
        copy == *image,
;

/// Where a cut that is asked to start at `start` begins in an image that is
/// `extent` pixels long: no further than the image's end.
pub open spec fn clamped_start(extent: int, start: int) -> int {
    if start <= extent {
        start
    } else {
        extent
    }
}

/// How long a cut of `length` pixels from `start` comes out in an image that
/// is `extent` pixels long: no longer than what is left of the image.
pub open spec fn clamped_length(extent: int, start: int, length: int) -> int {
    let room = extent - clamped_start(extent, start);
    if length <= room {
        length
    } else {
        room
    }
}

/// Whether a rectangle of `width` by `height` pixels with its top-left corner
/// at `(x, y)` lies within a frame of `frame_width` by `frame_height`.
pub open spec fn fits_within(
    x: int,
    y: int,
    width: int,
    height: int,
    frame_width: int,
    frame_height: int,
) -> bool {
    x + width <= frame_width && y + height <= frame_height
}

/// Whether the pixel `(i, j)` lies in the rectangle of `width` by `height`
/// pixels whose top-left corner is `(x, y)`.
pub open spec fn covers(x: int, y: int, width: int, height: int, i: int, j: int) -> bool {
    x <= i < x + width && y <= j < y + height
}

/// Whether an 8-bit RGBA buffer of `width` by `height` pixels can be made:
/// the four samples of one row of pixels can be counted in a `usize`, and
/// the whole buffer is no larger than a vector can be.
pub open spec fn can_store_rgba8(width: int, height: int) -> bool {
    &&& 4 * width <= usize::MAX
    &&& 4 * width * height <= isize::MAX
}

/// `DynamicImage::crop_imm`: a new image, stored like the first, that holds
/// the pixels of the asked rectangle. A rectangle that reaches beyond the
/// image is cut back to the image's bounds, so the call never fails. The
/// 8-bit RGBA copy is made pixel by pixel, each from the pixel at its place
/// and the colour space that the cut takes over, so the copy of the cut
/// holds the pixels that the copy of the image has in the rectangle.
pub assume_specification[ DynamicImage::crop_imm ](
    image: &DynamicImage,
    x: u32,
    y: u32,
    width: u32,
    height: u32,
) -> (cut: DynamicImage)
    ensures
        image_width(cut) == clamped_length(image_width(*image) as int, x as int, width as int),
        image_height(cut) == clamped_length(image_height(*image) as int, y as int, height as int),
        holds_rgba8(cut) == holds_rgba8(*image),
        forall|i: int, j: int|
            0 <= i < image_width(cut) && 0 <= j < image_height(cut) ==> #[trigger] image_pixels(
                cut,
            )[j][i] == image_pixels(*image)[clamped_start(image_height(*image) as int, y as int)
                + j][clamped_start(image_width(*image) as int, x as int) + i],
        forall|i: int, j: int|
            0 <= i < image_width(cut) && 0 <= j < image_height(cut) ==> #[trigger] rgba8_pixels(
                cut,
            )[j][i] == rgba8_pixels(*image)[clamped_start(image_height(*image) as int, y as int)
                + j][clamped_start(image_width(*image) as int, x as int) + i],
;

/// `RgbaImage::new`, wrapped as a `DynamicImage`: an 8-bit RGBA image of the
/// given size whose samples are all zero. The call counts the samples in a
/// `usize`, first those of a row and after that those of all rows, and panics
/// if either count overflows or the buffer would be larger than a vector can
/// be; the precondition rules all three out.
#[verifier::external_body]
pub(crate) fn blank_canvas(width: u32, height: u32) -> (canvas: DynamicImage)
    requires
        can_store_rgba8(width as int, height as int),
    ensures
        image_width(canvas) == width,
        image_height(canvas) == height,
        holds_rgba8(canvas),
        forall|x: int, y: int|
            0 <= x < width && 0 <= y < height ==> #[trigger] image_pixels(canvas)[y][x] == (
                0u8,
                0u8,
                0u8,
                0u8,
            ),
{
    DynamicImage::ImageRgba8(RgbaImage::new(width, height))
}

/// `DynamicImage::to_rgba8` followed by `GenericImage::copy_from`: writes the
/// 8-bit RGBA copy of `tile` over the pixels of `canvas`, top-left corner at
/// `(x, y)`. The call fails, and leaves the canvas as it was, exactly when the
/// tile does not lie within the canvas; otherwise every covered pixel is
/// replaced and no other pixel changes. The copy of a tile that is itself
/// stored as 8-bit RGBA holds the tile's own pixels. For any other tile the
/// copy is a new buffer of four samples to the pixel, and the call panics if
/// that buffer cannot be made, which the precondition rules out.
#[verifier::external_body]
pub(crate) fn paste(canvas: &mut DynamicImage, tile: &DynamicImage, x: u32, y: u32) -> (pasted:
    Result<(), ImageError>)
    requires
        holds_rgba8(*old(canvas)),
        holds_rgba8(*tile) || can_store_rgba8(
            image_width(*tile) as int,
            image_height(*tile) as int,
        ),
    ensures
        pasted is Ok <==> fits_within(
            x as int,
            y as int,
            image_width(*tile) as int,
            image_height(*tile) as int,
            image_width(*old(canvas)) as int,
            image_height(*old(canvas)) as int,
        ),
        image_width(*final(canvas)) == image_width(*old(canvas)),
        image_height(*final(canvas)) == image_height(*old(canvas)),
        holds_rgba8(*final(canvas)),
        forall|i: int, j: int|
            0 <= i < image_width(*old(canvas)) && 0 <= j < image_height(*old(canvas))
                ==> #[trigger] image_pixels(*final(canvas))[j][i] == if pasted is Ok && covers(
                x as int,
                y as int,
                image_width(*tile) as int,
                image_height(*tile) as int,
                i,
                j,
            ) {
                if holds_rgba8(*tile) {
                    image_pixels(*tile)[j - y][i - x]
                } else {
                    rgba8_pixels(*tile)[j - y][i - x]
                }
            } else {
                image_pixels(*old(canvas))[j][i]
            },
{
    canvas.copy_from(&tile.to_rgba8(), x, y)
}

} // verus!
