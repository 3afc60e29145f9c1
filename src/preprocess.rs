use vstd::prelude::*;

use crate::error::PipelineError;
use crate::layout::{
    framed_value,
    lay_out_planar,
    lemma_planar_frame_at,
    planar_frame,
    planar_index,
};
use crate::raster::interleaved_index;
use crate::raster::RasterImage;
use crate::resample::{
    resize_lanczos3,
    resize_thumbnail,
    thumbnail_fits,
    thumbnail_resampled,
};

verus! {

/// `n / d` rounded to the nearest integer, halves rounded up.
pub open spec fn round_div(n: int, d: int) -> int {
    n / d + if 2 * (n % d) >= d {
        1int
    } else {
        0int
    }
}

/// Size of the aspect-preserving resample of a `width x height` image into a
/// `target_w x target_h` frame: a landscape image (wider than tall) is scaled
/// by `target_w / width`, any other by `target_h / height`, and the other side
/// is rounded to the nearest integer.
pub open spec fn scaled_size(width: int, height: int, target_w: int, target_h: int) -> (int, int) {
    if width > height {
        (target_w, round_div(height * target_w, width))
    } else {
        (round_div(width * target_h, height), target_h)
    }
}

/// Offset of a side of length `inner` centred on a side of length `outer`;
/// negative when `inner` is the longer one.
pub open spec fn centred_offset(outer: int, inner: int) -> int {
    outer / 2 - inner / 2
}

/// Where the content goes in a letterboxed frame.
#[derive(Clone, Copy, Debug, PartialEq, Eq, Structural)]
pub struct LetterboxGeometry {
    pub new_width: u32,
    pub new_height: u32,
    pub x_start: i64,
    pub y_start: i64,
}

/// The letterbox geometry of a `width x height` image in a
/// `target_w x target_h` frame.
pub open spec fn spec_letterbox(width: int, height: int, target_w: int, target_h: int) -> (int, int, int, int) {
    let (nw, nh) = scaled_size(width, height, target_w, target_h);
    (nw, nh, centred_offset(target_w, nw), centred_offset(target_h, nh))
}

/// The sizes for which no buffer that preprocessing builds overflows: the
/// tensor itself; when stretching, the Lanczos3 intermediate of `f32` RGBA
/// pixels, `width x target_h`; when letterboxing, the thumbnail and the
/// blocks it sums. A zero target side is always accepted, being rejected
/// with an error.
pub open spec fn sizes_fit(width: u32, height: u32, target_w: u32, target_h: u32, letterbox: bool) -> bool {
    target_w == 0 || target_h == 0 || {
        &&& 3 * (target_w as int) * (target_h as int) <= usize::MAX
        &&& if letterbox {
            let (nw, nh, xs, ys) = spec_letterbox(
                width as int,
                height as int,
                target_w as int,
                target_h as int,
            );
            (nw >= 1 && nh >= 1) ==> {
                &&& 3 * nw * nh <= usize::MAX
                &&& thumbnail_fits(width as int, height as int, nw, nh)
            }
        } else {
            16 * (width as int) * (target_h as int) <= isize::MAX
        }
    }
}

/// Whether [`sizes_fit`] holds, so that `preprocess_for_model` may be called.
pub fn sizes_fit_exec(width: u32, height: u32, target_w: u32, target_h: u32, letterbox: bool) -> (r:
    bool)
    requires
        width >= 1,
        height >= 1,
    ensures
        r == sizes_fit(width, height, target_w, target_h, letterbox),
{
    if target_w == 0 || target_h == 0 {
        return true;
    }
    let tw: u128 = target_w as u128;
    let th: u128 = target_h as u128;
    proof {
        assert(tw * th <= u64::MAX) by (nonlinear_arith)
            requires tw <= u32::MAX, th <= u32::MAX;
        assert(3 * (tw as int) * (th as int) == 3 * (tw * th)) by (nonlinear_arith);
    }
    if 3 * (tw * th) > usize::MAX as u128 {
        return false;
    }
    if letterbox {
        let g = letterbox_geometry(width, height, target_w, target_h);
        if g.new_width == 0 || g.new_height == 0 {
            return true;
        }
        let nw: u128 = g.new_width as u128;
        let nh: u128 = g.new_height as u128;
        let bw: u128 = (width / g.new_width) as u128 + 2;
        let bh: u128 = (height / g.new_height) as u128 + 2;
        proof {
            assert(nw * nh <= u64::MAX) by (nonlinear_arith)
                requires nw <= u32::MAX, nh <= u32::MAX;
            assert(3 * (nw as int) * (nh as int) == 3 * (nw * nh)) by (nonlinear_arith);
            assert(bw * bh <= 0x2_0000_0000_0000_0000) by (nonlinear_arith)
                requires 0 <= bw <= 0x1_0000_0001, 0 <= bh <= 0x1_0000_0001;
            assert(bw * bh * 256 == (bw * bh) * 256) by (nonlinear_arith);
        }
        3 * (nw * nh) <= usize::MAX as u128 && (bw * bh) * 256 <= u32::MAX as u128
    } else {
        let w: u128 = width as u128;
        proof {
            assert(w * th <= u64::MAX) by (nonlinear_arith)
                requires w <= u32::MAX, th <= u32::MAX;
            assert(16 * (w as int) * (th as int) == 16 * (w * th)) by (nonlinear_arith);
        }
        16 * (w * th) <= isize::MAX as u128
    }
}

/// Rounding `n * t / d` with `n <= d` stays at most `t`.
proof fn lemma_round_div_scaled_le(n: int, d: int, t: int)
    requires
        0 <= n <= d,
        d >= 1,
        t >= 0,
    ensures
        0 <= round_div(n * t, d) <= t,
{
    let p = n * t;
    assert(0 <= p <= d * t) by (nonlinear_arith)
        requires 0 <= n <= d, t >= 0, p == n * t;
    let q = p / d;
    let r = p % d;
    vstd::arithmetic::div_mod::lemma_fundamental_div_mod(p, d);
    assert(0 <= r < d);
    assert(0 <= q) by (nonlinear_arith)
        requires p == d * q + r, 0 <= p, r < d, d >= 1;
    if p == d * t {
        assert(p == t * d + 0) by (nonlinear_arith)
            requires p == d * t;
        vstd::arithmetic::div_mod::lemma_fundamental_div_mod_converse(p, d, t, 0);
    } else {
        assert(q < t) by (nonlinear_arith)
            requires p == d * q + r, p < d * t, 0 <= r, d >= 1;
    }
}

/// `n / d` rounded to the nearest integer, halves rounded up.
fn round_div_u64(n: u64, d: u64) -> (r: u64)
    requires
        d >= 1,
        d <= u32::MAX,
    ensures
        r == round_div(n as int, d as int),
{
    let q = n / d;
    let rem = n % d;
    if 2 * rem >= d {
        proof {
            vstd::arithmetic::div_mod::lemma_fundamental_div_mod(n as int, d as int);
            assert(d >= 2);
            assert(q * 2 <= n) by (nonlinear_arith)
                requires n == d * q + rem, d >= 2, q >= 0, rem >= 0;
        }
        q + 1
    } else {
        q
    }
}

/// Computes the letterbox geometry: the aspect-preserving size of the
/// resampled image and the offsets that centre it in the frame.
pub fn letterbox_geometry(width: u32, height: u32, target_w: u32, target_h: u32) -> (r:
    LetterboxGeometry)
    requires
        width >= 1,
        height >= 1,
        target_w >= 1,
        target_h >= 1,
    ensures
        (r.new_width as int, r.new_height as int, r.x_start as int, r.y_start as int)
            == spec_letterbox(width as int, height as int, target_w as int, target_h as int),
        r.new_width <= if target_w > target_h { target_w } else { target_h },
        r.new_height <= if target_w > target_h { target_w } else { target_h },
{
    let (nw, nh): (u32, u32) = if width > height {
        proof {
            lemma_round_div_scaled_le(height as int, width as int, target_w as int);
            assert((height as int) * (target_w as int) <= u64::MAX) by (nonlinear_arith)
                requires height <= u32::MAX, target_w <= u32::MAX;
        }
        let nh = round_div_u64(height as u64 * target_w as u64, width as u64);
        (target_w, nh as u32)
    } else {
        proof {
            lemma_round_div_scaled_le(width as int, height as int, target_h as int);
            assert((width as int) * (target_h as int) <= u64::MAX) by (nonlinear_arith)
                requires width <= u32::MAX, target_h <= u32::MAX;
        }
        let nw = round_div_u64(width as u64 * target_h as u64, height as u64);
        (nw as u32, target_h)
    };
    LetterboxGeometry {
        new_width: nw,
        new_height: nh,
        x_start: (target_w / 2) as i64 - (nw / 2) as i64,
        y_start: (target_h / 2) as i64 - (nh / 2) as i64,
    }
}

/// The bytes of the resampled content of a letterboxed frame; empty when a
/// side of the content rounds to zero.
pub open spec fn letterbox_content(img: RasterImage, new_width: int, new_height: int) -> Seq<u8> {
    if new_width >= 1 && new_height >= 1 {
        thumbnail_resampled(
            img.width as nat,
            img.height as nat,
            img.pixels@,
            new_width as nat,
            new_height as nat,
        )
    } else {
        Seq::empty()
    }
}

/// The letterboxed tensor, as bytes: the thumbnail of the image, scaled to
/// fit and centred in the frame, zero elsewhere.
pub open spec fn letterboxed(img: RasterImage, target_w: int, target_h: int) -> Seq<u8> {
    let (nw, nh, xs, ys) = spec_letterbox(img.width as int, img.height as int, target_w, target_h);
    planar_frame(nw, nh, letterbox_content(img, nw, nh), target_w, target_h, xs, ys)
}

/// The stretched tensor, as bytes, of resampled content that fills the
/// whole frame.
pub open spec fn stretched(content: Seq<u8>, target_w: int, target_h: int) -> Seq<u8> {
    planar_frame(target_w, target_h, content, target_w, target_h, 0, 0)
}

/// Converts an image into the planar `[1, 3, target_h, target_w]` tensor
/// that a model takes, as bytes: the model's input is each byte divided by
/// 255. Without letterboxing the image is stretched to fill the frame; with
/// it, the image is scaled to fit, centred, and the rest is zero.
pub fn preprocess_for_model(image: &RasterImage, target_size: (u32, u32), letterbox: bool) -> (r:
    Result<Vec<u8>, PipelineError>)
    requires
        image.wf(),
        sizes_fit(image.width, image.height, target_size.0, target_size.1, letterbox),
    ensures
        r is Err <==> (target_size.0 == 0 || target_size.1 == 0),
        r is Err ==> r == Err::<Vec<u8>, PipelineError>(PipelineError::InvalidGeometry),
        r matches Ok(t) ==> letterbox ==> t@ == letterboxed(
            *image,
            target_size.0 as int,
            target_size.1 as int,
        ),
        r matches Ok(t) ==> !letterbox ==> exists|content: Seq<u8>|
            content.len() == 3 * (target_size.0 as int) * (target_size.1 as int) && t@
                == #[trigger] stretched(content, target_size.0 as int, target_size.1 as int),
{
    let (target_w, target_h) = target_size;
    if target_w == 0 || target_h == 0 {
        return Err(PipelineError::InvalidGeometry);
    }
    if letterbox {
        let g = letterbox_geometry(image.width, image.height, target_w, target_h);
        if g.new_width >= 1 && g.new_height >= 1 {
            let content = resize_thumbnail(image, g.new_width, g.new_height);
            Ok(lay_out_planar(content.width, content.height, &content.pixels, target_w, target_h,
                g.x_start, g.y_start))
        } else {
            let empty: Vec<u8> = Vec::new();
            proof {
                assert(3 * (g.new_width as int) * (g.new_height as int) == 0) by (nonlinear_arith)
                    requires g.new_width == 0 || g.new_height == 0;
                assert(empty@ =~= letterbox_content(*image, g.new_width as int, g.new_height as int));
            }
            Ok(lay_out_planar(g.new_width, g.new_height, &empty, target_w, target_h, g.x_start,
                g.y_start))
        }
    } else {
        let content = resize_lanczos3(image, target_w, target_h);
        let t = lay_out_planar(content.width, content.height, &content.pixels, target_w, target_h,
            0, 0);
        assert(t@ == stretched(content.pixels@, target_w as int, target_h as int));
        Ok(t)
    }
}

/// The tensor of a valid target size has three values per target pixel,
/// whichever the mode and whatever the resampled content.
pub proof fn law_tensor_length(img: RasterImage, content: Seq<u8>, target_w: int, target_h: int)
    requires
        img.wf(),
        target_w >= 1,
        target_h >= 1,
    ensures
        letterboxed(img, target_w, target_h).len() == 3 * target_w * target_h,
        stretched(content, target_w, target_h).len() == 3 * target_w * target_h,
{
    assert(3 * target_w * target_h >= 0) by (nonlinear_arith)
        requires target_w >= 1, target_h >= 1;
}

/// With letterboxing, each value of the tensor lies inside the resampled
/// content's rectangle, placed at the computed offsets, and equals the
/// content there; every value outside that rectangle is zero.
pub proof fn law_letterbox_frame(
    img: RasterImage,
    target_w: int,
    target_h: int,
    c: int,
    y: int,
    x: int,
)
    requires
        img.wf(),
        target_w >= 1,
        target_h >= 1,
        0 <= c < 3,
        0 <= y < target_h,
        0 <= x < target_w,
    ensures
        ({
            let (nw, nh, xs, ys) = spec_letterbox(
                img.width as int,
                img.height as int,
                target_w,
                target_h,
            );
            let t = letterboxed(img, target_w, target_h);
            let v = t[planar_index(target_w, target_h, c, y, x)];
            &&& 0 <= planar_index(target_w, target_h, c, y, x) < t.len()
            &&& (xs <= x < xs + nw && ys <= y < ys + nh) ==> v == letterbox_content(img, nw, nh)[
                interleaved_index(nw, x - xs, y - ys, c)]
            &&& !(xs <= x < xs + nw && ys <= y < ys + nh) ==> v == 0
        }),
{
    let (nw, nh, xs, ys) = spec_letterbox(img.width as int, img.height as int, target_w, target_h);
    lemma_planar_frame_at(nw, nh, letterbox_content(img, nw, nh), target_w, target_h, xs, ys, c, y, x);
}

/// When the resampled content holds the same byte `v` everywhere, as it
/// should for an image of one grey level, every value of the stretched
/// tensor is `v`.
pub proof fn law_uniform_stretch(content: Seq<u8>, target_w: int, target_h: int, v: u8)
    requires
        target_w >= 1,
        target_h >= 1,
        content.len() == 3 * target_w * target_h,
        forall|k: int| 0 <= k < content.len() ==> #[trigger] content[k] == v,
    ensures
        forall|k: int|
            0 <= k < stretched(content, target_w, target_h).len() ==> #[trigger] stretched(
                content,
                target_w,
                target_h,
            )[k] == v,
{
    let t = stretched(content, target_w, target_h);
    assert forall|k: int| 0 <= k < t.len() implies #[trigger] t[k] == v by {
        let a = target_w * target_h;
        assert(a >= 1) by (nonlinear_arith)
            requires target_w >= 1, target_h >= 1, a == target_w * target_h;
        let c = k / a;
        let y = (k % a) / target_w;
        let x = k % target_w;
        assert(3 * target_w * target_h == 3 * a) by (nonlinear_arith)
            requires a == target_w * target_h;
        assert(0 <= c < 3) by (nonlinear_arith)
            requires 0 <= k < 3 * a, a >= 1, c == k / a;
        assert(0 <= k % a < a) by (nonlinear_arith)
            requires a >= 1;
        assert(0 <= y < target_h) by (nonlinear_arith)
            requires 0 <= k % a < a, a == target_w * target_h, target_w >= 1,
                y == (k % a) / target_w;
        assert(0 <= x < target_w) by (nonlinear_arith)
            requires target_w >= 1, x == k % target_w;
        crate::raster::lemma_interleaved_in_bounds(target_w, target_h, x, y, c);
        assert(t[k] == framed_value(target_w, target_h, content, 0, 0, c, y, x));
    }
}

} // verus!
