//! Conversions between raw RGBA pixels and PNG files, and the thumbnail
//! policy. The codec itself is the `image` crate's; what it returns is named
//! here and carried through the contracts.

use crate::models::THUMBNAIL_SIZE;
use vstd::prelude::*;

verus! {

/// The PNG file that the `image` crate writes for `width` x `height` RGBA
/// pixels, or `None` where it writes none.
pub uninterp spec fn png_of_rgba(rgba: Seq<u8>, width: u32, height: u32) -> Option<Seq<u8>>;

/// The PNG file that the `image` crate writes after scaling `width` x `height`
/// RGBA pixels with its triangle filter to fit `max_width` x `max_height`, or
/// `None` where it writes none.
pub uninterp spec fn scaled_png_of_rgba(
    rgba: Seq<u8>,
    width: u32,
    height: u32,
    max_width: u32,
    max_height: u32,
) -> Option<Seq<u8>>;

/// The RGBA pixels, width and height that the `image` crate decodes from an
/// image file, or `None` where it cannot decode the bytes.
pub uninterp spec fn rgba_of_image(data: Seq<u8>) -> Option<(Seq<u8>, u32, u32)>;

/// The side of a thumbnail that belongs to the shorter side `short` of an
/// image whose longer side is `long`: scaled as the longer side is scaled to
/// `THUMBNAIL_SIZE`, rounded down, and at least 1.
pub open spec fn scaled_side(short: u32, long: u32) -> u32 {
    if long == 0 || THUMBNAIL_SIZE * short / (long as int) < 1 {
        1
    } else {
        (THUMBNAIL_SIZE * short / (long as int)) as u32
    }
}

/// The box that a thumbnail of a `width` x `height` image is fitted into:
/// the longer side becomes `THUMBNAIL_SIZE`, the other keeps the proportion.
pub open spec fn thumbnail_bounds(width: u32, height: u32) -> (u32, u32) {
    if width > height {
        (THUMBNAIL_SIZE, scaled_side(height, width))
    } else {
        (scaled_side(width, height), THUMBNAIL_SIZE)
    }
}

fn scale_side(short: u32, long: u32) -> (side: u32)
    requires
        short <= long,
    ensures
        side == scaled_side(short, long),
        1 <= side <= THUMBNAIL_SIZE,
{
    if long == 0 {
        return 1;
    }
    assert(THUMBNAIL_SIZE * short <= THUMBNAIL_SIZE * u32::MAX) by (nonlinear_arith)
        requires
            short <= u32::MAX,
    ;
    let scaled: u64 = (THUMBNAIL_SIZE as u64) * (short as u64) / (long as u64);
    assert(THUMBNAIL_SIZE * short / (long as int) <= THUMBNAIL_SIZE) by (nonlinear_arith)
        requires
            0 <= short <= long,
            long > 0,
    ;
    if scaled < 1 {
        1
    } else {
        scaled as u32
    }
}

/// Computes the box of [`thumbnail_bounds`].
pub fn thumbnail_dimensions(width: u32, height: u32) -> (bounds: (u32, u32))
    ensures
        bounds == thumbnail_bounds(width, height),
        1 <= bounds.0 <= THUMBNAIL_SIZE,
        1 <= bounds.1 <= THUMBNAIL_SIZE,
{
    if width > height {
        (THUMBNAIL_SIZE, scale_side(height, width))
    } else {
        (scale_side(width, height), THUMBNAIL_SIZE)
    }
}

/// Whether the scaler's row buffer for an image of this width can be
/// allocated: sixteen bytes for each pixel of `THUMBNAIL_SIZE` rows.
pub open spec fn scalable_width(width: u32) -> bool {
    16 * width * THUMBNAIL_SIZE <= isize::MAX
}

/// The thumbnail of a raw image: none for an image without pixels or one too
/// wide to scale, else what the codec writes for the box of
/// [`thumbnail_bounds`].
pub open spec fn thumbnail_of_rgba(rgba: Seq<u8>, width: u32, height: u32) -> Option<Seq<u8>> {
    if width == 0 || height == 0 || !scalable_width(width) {
        None
    } else {
        scaled_png_of_rgba(
            rgba,
            width,
            height,
            thumbnail_bounds(width, height).0,
            thumbnail_bounds(width, height).1,
        )
    }
}

/// Encodes raw RGBA pixels as a PNG file through `image::RgbaImage::from_raw`
/// and `image::DynamicImage::write_to`.
///
/// Trusted: the result is the named value [`png_of_rgba`] of the arguments,
/// and there is none where the buffer holds fewer than four bytes for each
/// pixel, which is when `from_raw` refuses it.
#[verifier::external_body]
pub(crate) fn rgba_to_png(rgba_data: &[u8], width: u32, height: u32) -> (png: Option<Vec<u8>>)
    ensures
        match png {
            Some(bytes) => png_of_rgba(rgba_data@, width, height) == Some(bytes@),
            None => png_of_rgba(rgba_data@, width, height) is None,
        },
        rgba_data@.len() < 4 * width * height ==> png is None,
{
    let img = image::RgbaImage::from_raw(width, height, rgba_data.to_vec())?;
    let dynamic_img = image::DynamicImage::ImageRgba8(img);
    let mut png_bytes = Vec::new();
    let mut cursor = std::io::Cursor::new(&mut png_bytes);
    dynamic_img.write_to(&mut cursor, image::ImageOutputFormat::Png).ok()?;
    Some(png_bytes)
}

/// Scales raw RGBA pixels into a box with `image::DynamicImage::resize` and
/// the triangle filter, and encodes the outcome as a PNG file with
/// `image::DynamicImage::write_to`.
///
/// Trusted: the result is the named value [`scaled_png_of_rgba`] of the
/// arguments. The scaler indexes pixels of the source and allocates a row
/// buffer of floats, so an image without pixels and one whose buffer cannot
/// be allocated are left out.
#[verifier::external_body]
fn resize_to_png(
    rgba_data: &[u8],
    width: u32,
    height: u32,
    max_width: u32,
    max_height: u32,
) -> (png: Option<Vec<u8>>)
    requires
        width > 0,
        height > 0,
        1 <= max_width <= THUMBNAIL_SIZE,
        1 <= max_height <= THUMBNAIL_SIZE,
        scalable_width(width),
    ensures
        match png {
            Some(bytes) => scaled_png_of_rgba(rgba_data@, width, height, max_width, max_height)
                == Some(bytes@),
            None => scaled_png_of_rgba(rgba_data@, width, height, max_width, max_height) is None,
        },
{
    let img = image::RgbaImage::from_raw(width, height, rgba_data.to_vec())?;
    let dynamic_img = image::DynamicImage::ImageRgba8(img);
    let thumbnail = dynamic_img.resize(max_width, max_height, image::imageops::FilterType::Triangle);
    let mut png_bytes = Vec::new();
    let mut cursor = std::io::Cursor::new(&mut png_bytes);
    thumbnail.write_to(&mut cursor, image::ImageOutputFormat::Png).ok()?;
    Some(png_bytes)
}

/// Decodes an image file into RGBA pixels through `image::io::Reader` with a
/// guessed format and `image::DynamicImage::to_rgba8`.
///
/// Trusted: the result is the named value [`rgba_of_image`] of the bytes.
#[verifier::external_body]
pub(crate) fn png_to_rgba(png_data: &[u8]) -> (decoded: Option<(Vec<u8>, u32, u32)>)
    ensures
        match decoded {
            Some((rgba, width, height)) => rgba_of_image(png_data@) == Some((rgba@, width, height)),
            None => rgba_of_image(png_data@) is None,
        },
{
    let reader = image::io::Reader::new(std::io::Cursor::new(png_data));
    let img = reader.with_guessed_format().ok()?.decode().ok()?;
    let rgba = img.to_rgba8();
    let width = rgba.width();
    let height = rgba.height();
    Some((rgba.into_raw(), width, height))
}

/// Makes the thumbnail of a raw image, a PNG file.
pub fn create_thumbnail(rgba_data: &[u8], width: u32, height: u32) -> (thumbnail: Option<Vec<u8>>)
    ensures
        match thumbnail {
            Some(bytes) => thumbnail_of_rgba(rgba_data@, width, height) == Some(bytes@),
            None => thumbnail_of_rgba(rgba_data@, width, height) is None,
        },
{
    if width == 0 || height == 0 {
        return None;
    }
    let row_bytes: u64 = 16 * (width as u64) * (THUMBNAIL_SIZE as u64);
    if row_bytes > isize::MAX as u64 {
        return None;
    }
    let (max_width, max_height) = thumbnail_dimensions(width, height);
    resize_to_png(rgba_data, width, height, max_width, max_height)
}

} // verus!
