use vstd::arithmetic::div_mod::lemma_fundamental_div_mod_converse;
use vstd::prelude::*;

use crate::raster::{interleaved_index, lemma_interleaved_in_bounds};

verus! {

/// Value at channel `c`, row `y`, column `x` of a `target_w x target_h` frame
/// whose content, an interleaved `content_w x content_h` image, has its
/// top-left corner at `(x_start, y_start)`; outside the content it is 0.
pub open spec fn framed_value(
    content_w: int,
    content_h: int,
    content: Seq<u8>,
    x_start: int,
    y_start: int,
    c: int,
    y: int,
    x: int,
) -> u8 {
    let sx = x - x_start;
    let sy = y - y_start;
    if 0 <= sx < content_w && 0 <= sy < content_h {
        content[interleaved_index(content_w, sx, sy, c)]
    } else {
        0
    }
}

/// The planar (channel, row, column) layout of that frame: channel 0 block,
/// then channel 1, then channel 2, each `target_h` rows of `target_w` values.
pub open spec fn planar_frame(
    content_w: int,
    content_h: int,
    content: Seq<u8>,
    target_w: int,
    target_h: int,
    x_start: int,
    y_start: int,
) -> Seq<u8> {
    Seq::new(
        (3 * target_w * target_h) as nat,
        |k: int|
            framed_value(
                content_w,
                content_h,
                content,
                x_start,
                y_start,
                k / (target_w * target_h),
                (k % (target_w * target_h)) / target_w,
                k % target_w,
            ),
    )
}

/// Position of channel `c`, row `y`, column `x` in a planar tensor.
pub open spec fn planar_index(target_w: int, target_h: int, c: int, y: int, x: int) -> int {
    (c * target_h + y) * target_w + x
}

/// A planar index decomposes back into its channel, row and column.
pub proof fn lemma_planar_index(target_w: int, target_h: int, c: int, y: int, x: int)
    requires
        0 <= x < target_w,
        0 <= y < target_h,
        0 <= c,
    ensures
        planar_index(target_w, target_h, c, y, x) / (target_w * target_h) == c,
        (planar_index(target_w, target_h, c, y, x) % (target_w * target_h)) / target_w == y,
        planar_index(target_w, target_h, c, y, x) % target_w == x,
        0 <= planar_index(target_w, target_h, c, y, x),
        c < 3 ==> planar_index(target_w, target_h, c, y, x) < 3 * target_w * target_h,
{
    let k = planar_index(target_w, target_h, c, y, x);
    let a = target_w * target_h;
    let inner = y * target_w + x;
    assert(0 <= y * target_w <= (target_h - 1) * target_w) by (nonlinear_arith)
        requires 0 <= y <= target_h - 1, target_w >= 0;
    assert((target_h - 1) * target_w == a - target_w) by (nonlinear_arith)
        requires a == target_w * target_h;
    assert(0 <= inner < a);
    assert(k == c * a + inner) by (nonlinear_arith)
        requires k == (c * target_h + y) * target_w + x, a == target_w * target_h,
            inner == y * target_w + x;
    lemma_fundamental_div_mod_converse(k, a, c, inner);
    lemma_fundamental_div_mod_converse(inner, target_w, y, x);
    assert(k == (c * target_h + y) * target_w + x);
    lemma_fundamental_div_mod_converse(k, target_w, c * target_h + y, x);
    assert(0 <= k) by (nonlinear_arith)
        requires k == c * a + inner, c >= 0, inner >= 0, a >= 0;
    if c < 3 {
        assert(c * a <= 2 * a) by (nonlinear_arith)
            requires c < 3, c >= 0, a >= 0;
        assert(3 * a == 3 * target_w * target_h) by (nonlinear_arith)
            requires a == target_w * target_h;
    }
}

/// Channel `c`, row `y`, column `x` of a planar frame holds the framed
/// value there.
pub proof fn lemma_planar_frame_at(
    content_w: int,
    content_h: int,
    content: Seq<u8>,
    target_w: int,
    target_h: int,
    x_start: int,
    y_start: int,
    c: int,
    y: int,
    x: int,
)
    requires
        0 <= c < 3,
        0 <= y < target_h,
        0 <= x < target_w,
    ensures
        0 <= planar_index(target_w, target_h, c, y, x) < planar_frame(
            content_w,
            content_h,
            content,
            target_w,
            target_h,
            x_start,
            y_start,
        ).len(),
        planar_frame(content_w, content_h, content, target_w, target_h, x_start, y_start)[planar_index(
            target_w,
            target_h,
            c,
            y,
            x,
        )] == framed_value(content_w, content_h, content, x_start, y_start, c, y, x),
{
    lemma_planar_index(target_w, target_h, c, y, x);
}

/// Lays out an interleaved `content_w x content_h` image in a planar
/// `3 x target_h x target_w` frame at offset `(x_start, y_start)`, zero
/// outside the content; content falling outside the frame is cut off.
pub fn lay_out_planar(
    content_w: u32,
    content_h: u32,
    content: &Vec<u8>,
    target_w: u32,
    target_h: u32,
    x_start: i64,
    y_start: i64,
) -> (r: Vec<u8>)
    requires
        content@.len() == 3 * (content_w as int) * (content_h as int),
        target_w >= 1,
        target_h >= 1,
        3 * (target_w as int) * (target_h as int) <= usize::MAX,
        -(u32::MAX as int) <= x_start <= u32::MAX,
        -(u32::MAX as int) <= y_start <= u32::MAX,
    ensures
        r@ == planar_frame(
            content_w as int,
            content_h as int,
            content@,
            target_w as int,
            target_h as int,
            x_start as int,
            y_start as int,
        ),
{
    let ghost spec_r = planar_frame(
        content_w as int,
        content_h as int,
        content@,
        target_w as int,
        target_h as int,
        x_start as int,
        y_start as int,
    );
    let ghost tw = target_w as int;
    let ghost th = target_h as int;
    proof {
        assert(3 * tw * th == 3 * (tw * th)) by (nonlinear_arith);
        assert(planar_index(tw, th, 0, 0, 0) == 0) by (nonlinear_arith);
        assert(tw * th >= 1) by (nonlinear_arith)
            requires tw >= 1, th >= 1;
    }
    let total: usize = 3 * (target_w as usize * target_h as usize);
    let mut out: Vec<u8> = Vec::with_capacity(total);
    let mut c: usize = 0;
    let mut y: u32 = 0;
    let mut x: u32 = 0;
    while out.len() < total
        invariant
            total == 3 * tw * th,
            tw == target_w,
            th == target_h,
            tw >= 1,
            th >= 1,
            spec_r == planar_frame(
                content_w as int,
                content_h as int,
                content@,
                tw,
                th,
                x_start as int,
                y_start as int,
            ),
            spec_r.len() == total,
            out@.len() <= total,
            content@.len() == 3 * (content_w as int) * (content_h as int),
            -(u32::MAX as int) <= x_start <= u32::MAX,
            -(u32::MAX as int) <= y_start <= u32::MAX,
            x < target_w,
            y < target_h,
            out@.len() < total ==> c < 3,
            out@.len() == planar_index(tw, th, c as int, y as int, x as int),
            forall|i: int| 0 <= i < out@.len() ==> #[trigger] out@[i] == spec_r[i],
        decreases total - out@.len(),
    {
        let k: usize = out.len();
        let clen: usize = content.len();
        proof {
            lemma_planar_index(tw, th, c as int, y as int, x as int);
        }
        let sx: i64 = x as i64 - x_start;
        let sy: i64 = y as i64 - y_start;
        let v: u8 = if 0 <= sx && sx < content_w as i64 && 0 <= sy && sy < content_h as i64 {
            proof {
                lemma_interleaved_in_bounds(
                    content_w as int,
                    content_h as int,
                    sx as int,
                    sy as int,
                    c as int,
                );
                assert(3 * (content_w as int) * (content_h as int) == 3 * ((content_w as int) * (
                content_h as int))) by (nonlinear_arith);
                assert(0 <= (sy as int) * (content_w as int) <= (sy as int) * (content_w as int)
                    + sx) by (nonlinear_arith)
                    requires sy >= 0, sx >= 0, content_w >= 1;
            }
            content[3 * (sy as usize * content_w as usize + sx as usize) + c]
        } else {
            0
        };
        out.push(v);
        proof {
            let ki = k as int;
            assert(out@[ki] == spec_r[ki]);
        }
        let ghost (c0, y0, x0) = (c as int, y as int, x as int);
        if x + 1 < target_w {
            x = x + 1;
        } else {
            x = 0;
            if y + 1 < target_h {
                y = y + 1;
                assert(planar_index(tw, th, c0, y0 + 1, 0) == k + 1) by (nonlinear_arith)
                    requires k == (c0 * th + y0) * tw + x0, x0 + 1 == tw;
            } else {
                y = 0;
                c = c + 1;
                assert(planar_index(tw, th, c0 + 1, 0, 0) == k + 1) by (nonlinear_arith)
                    requires k == (c0 * th + y0) * tw + x0, x0 + 1 == tw, y0 + 1 == th;
                assert(planar_index(tw, th, 3, 0, 0) == total) by (nonlinear_arith)
                    requires total == 3 * tw * th;
            }
        }
    }
    out
}

} // verus!
