use vstd::prelude::*;

use crate::raster::RasterImage;

verus! {

/// Interleaved RGB bytes of a thumbnail of the given size made from an image
/// of the given size and bytes.
pub uninterp spec fn thumbnail_resampled(
    width: nat,
    height: nat,
    pixels: Seq<u8>,
    new_width: nat,
    new_height: nat,
) -> Seq<u8>;

/// Each block of source pixels that a thumbnail averages into one pixel has
/// sides of at most `width / new_width + 2` and `height / new_height + 2`; the
/// sum of one channel over such a block, at most 256 per pixel, fits in a
/// `u32`.
pub open spec fn thumbnail_fits(width: int, height: int, new_width: int, new_height: int) -> bool {
    (width / new_width + 2) * (height / new_height + 2) * 256 <= u32::MAX
}

/// Relies on `image::imageops::resize` with `FilterType::Lanczos3`: its result
/// is an RGB buffer of exactly the requested size. Its bytes are not stated:
/// the filter weights come from the platform's `f32::sin`, whose precision
/// may differ between machines. The sizes are bounded so that no buffer it
/// allocates overflows.
#[verifier::external_body]
pub(crate) fn resize_lanczos3(img: &RasterImage, new_width: u32, new_height: u32) -> (r:
    RasterImage)
    requires
        img.wf(),
        new_width >= 1,
        new_height >= 1,
        3 * (new_width as int) * (new_height as int) <= usize::MAX,
        16 * (img.width as int) * (new_height as int) <= isize::MAX,
    ensures
        r.wf(),
        r.width == new_width,
        r.height == new_height,
{
    let src = image::RgbImage::from_raw(img.width, img.height, img.pixels.clone()).unwrap();
    let out = image::imageops::resize(&src, new_width, new_height,
        image::imageops::FilterType::Lanczos3);
    RasterImage { width: out.width(), height: out.height(), pixels: out.into_raw() }
}

/// Relies on `image::imageops::thumbnail`: its result is an RGB buffer of
/// exactly the requested size, computed from the source pixels alone. It sums
/// each block of source pixels in a `u32`, so the blocks are bounded.
#[verifier::external_body]
pub(crate) fn resize_thumbnail(img: &RasterImage, new_width: u32, new_height: u32) -> (r:
    RasterImage)
    requires
        img.wf(),
        new_width >= 1,
        new_height >= 1,
        3 * (new_width as int) * (new_height as int) <= usize::MAX,
        thumbnail_fits(img.width as int, img.height as int, new_width as int, new_height as int),
    ensures
        r.wf(),
        r.width == new_width,
        r.height == new_height,
        r.pixels@ == thumbnail_resampled(
            img.width as nat,
            img.height as nat,
            img.pixels@,
            new_width as nat,
            new_height as nat,
        ),
{
    let src = image::RgbImage::from_raw(img.width, img.height, img.pixels.clone()).unwrap();
    let out = image::imageops::thumbnail(&src, new_width, new_height);
    RasterImage { width: out.width(), height: out.height(), pixels: out.into_raw() }
}

} // verus!
