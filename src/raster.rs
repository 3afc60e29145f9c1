use vstd::prelude::*;

verus! {

/// A decoded RGB image: `width * height` pixels, row-major, three interleaved
/// 8-bit channels per pixel.
pub struct RasterImage {
    pub width: u32,
    pub height: u32,
    pub pixels: Vec<u8>,
}

/// Position of channel `c` of pixel `(x, y)` in an interleaved buffer.
pub open spec fn interleaved_index(width: int, x: int, y: int, c: int) -> int {
    3 * (y * width + x) + c
}

impl RasterImage {
    /// Both sides are positive and the buffer holds exactly three bytes per pixel.
    pub open spec fn wf(&self) -> bool {
        &&& self.width >= 1
        &&& self.height >= 1
        &&& self.pixels@.len() == 3 * (self.width as int) * (self.height as int)
    }

    /// Channel `c` of the pixel at column `x`, row `y`.
    pub open spec fn spec_pixel(&self, x: int, y: int, c: int) -> u8 {
        self.pixels@[interleaved_index(self.width as int, x, y, c)]
    }

    /// Wraps an interleaved RGB buffer; `None` when a side is zero or the
    /// buffer length is not `3 * width * height`.
    pub fn from_raw(width: u32, height: u32, pixels: Vec<u8>) -> (r: Option<RasterImage>)
        ensures
            r is Some <==> (width >= 1 && height >= 1 && pixels@.len() == 3 * (width as int)
                * (height as int)),
            r matches Some(img) ==> img.wf() && img.width == width && img.height == height
                && img.pixels@ == pixels@,
    {
        if width == 0 || height == 0 {
            return None;
        }
        proof {
            assert((width as int) * (height as int) <= u64::MAX) by (nonlinear_arith)
                requires width <= u32::MAX, height <= u32::MAX;
            assert(3 * (width as int) * (height as int) == 3 * ((width as int) * (height as int)))
                by (nonlinear_arith);
        }
        let area: u64 = width as u64 * height as u64;
        let len: usize = pixels.len();
        if len % 3 != 0 || (len / 3) as u64 != area {
            return None;
        }
        Some(RasterImage { width, height, pixels })
    }

    /// Channel `c` of the pixel at column `x`, row `y`.
    pub fn pixel(&self, x: u32, y: u32, c: usize) -> (r: u8)
        requires
            self.wf(),
            x < self.width,
            y < self.height,
            c < 3,
        ensures
            r == self.spec_pixel(x as int, y as int, c as int),
    {
        let len: usize = self.pixels.len();
        proof {
            assert(3 * (self.width as int) * (self.height as int) == 3 * ((self.width as int) * (
            self.height as int))) by (nonlinear_arith);
            lemma_interleaved_in_bounds(
                self.width as int,
                self.height as int,
                x as int,
                y as int,
                c as int,
            );
            assert(0 <= (y as int) * (self.width as int) <= (y as int) * (self.width as int) + x)
                by (nonlinear_arith)
                requires y >= 0, self.width >= 1, x >= 0;
        }
        self.pixels[3 * (y as usize * self.width as usize + x as usize) + c]
    }
}

/// An interleaved index of an in-range pixel and channel lies in the buffer.
pub proof fn lemma_interleaved_in_bounds(w: int, h: int, x: int, y: int, c: int)
    requires
        0 <= x < w,
        0 <= y < h,
        0 <= c < 3,
    ensures
        0 <= interleaved_index(w, x, y, c) < 3 * w * h,
        0 <= y * w + x < w * h,
        3 * (y * w + x) + c < 3 * (w * h),
{
    assert(0 <= y * w + x < w * h) by (nonlinear_arith)
        requires 0 <= x < w, 0 <= y < h;
    assert(3 * (w * h) == 3 * w * h) by (nonlinear_arith);
}

} // verus!
