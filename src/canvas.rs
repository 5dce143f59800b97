use vstd::arithmetic::div_mod::lemma_fundamental_div_mod_converse;
use vstd::prelude::*;

verus! {

/// A grid of RGBA pixels, row by row from the top, four bytes per pixel.
pub struct Canvas {
    pub width: u32,
    pub height: u32,
    pub pixels: Vec<u8>,
}

/// Column of the pixel that byte `i` belongs to, in a canvas `w` pixels wide.
pub open spec fn col_of(w: int, i: int) -> int {
    (i / 4) % w
}

/// Row of the pixel that byte `i` belongs to, in a canvas `w` pixels wide.
pub open spec fn row_of(w: int, i: int) -> int {
    (i / 4) / w
}

/// Channel of byte `i`: 0 red, 1 green, 2 blue, 3 alpha.
pub open spec fn chan_of(i: int) -> int {
    i % 4
}

/// Index of channel `k` of pixel (x, y) in a canvas `w` pixels wide.
pub open spec fn byte_index(w: int, x: int, y: int, k: int) -> int {
    4 * (y * w + x) + k
}

impl Canvas {
    /// The buffer holds exactly four bytes for each pixel.
    pub open spec fn wf(&self) -> bool {
        self.pixels@.len() == 4 * (self.width as int) * (self.height as int)
    }
}

proof fn lemma_index_parts(w: int, h: int, x: int, y: int, k: int)
    requires
        0 <= x < w,
        0 <= y < h,
        0 <= k < 4,
    ensures
        col_of(w, byte_index(w, x, y, k)) == x,
        row_of(w, byte_index(w, x, y, k)) == y,
        chan_of(byte_index(w, x, y, k)) == k,
        0 <= byte_index(w, x, y, k) < 4 * w * h,
{
    let i = byte_index(w, x, y, k);
    lemma_fundamental_div_mod_converse(i, 4, y * w + x, k);
    lemma_fundamental_div_mod_converse(y * w + x, w, y, x);
    assert(4 * (y * w + x) + k < 4 * w * h) by (nonlinear_arith)
        requires
            0 <= x < w,
            0 <= y < h,
            0 <= k < 4,
    ;
}

/// Start color of the gradient, #667eea, channel `k`.
pub open spec fn start_color(k: int) -> int {
    if k == 0 {
        0x66
    } else if k == 1 {
        0x7e
    } else {
        0xea
    }
}

/// End color of the gradient, #764ba2, channel `k`.
pub open spec fn end_color(k: int) -> int {
    if k == 0 {
        0x76
    } else if k == 1 {
        0x4b
    } else {
        0xa2
    }
}

/// `s` blended towards `e` by the ratio `t / n`, rounded down.
pub open spec fn blend(s: int, e: int, t: int, n: int) -> int {
    (s * (n - t) + e * t) / n
}

/// Channel `k` of pixel (x, y) of the 135° gradient on a `w` by `h` canvas:
/// the ratio towards the end color is (x + h - y) / (w + h), so the color runs
/// from the bottom-left corner to the top-right one.
pub open spec fn gradient_byte(w: int, h: int, x: int, y: int, k: int) -> int {
    if k == 3 {
        255
    } else {
        blend(start_color(k), end_color(k), x + h - y, w + h)
    }
}

/// The darkening factor of row `y` of `h` rows, as a fraction over `10 * h`:
/// 1 - (0.3 + 0.4 * y / h).
pub open spec fn keep_numerator(y: int, h: int) -> int {
    7 * h - 4 * y
}

/// A color channel `c` on row `y` of `h`, darkened by the overlay.
pub open spec fn darken(c: int, y: int, h: int) -> int {
    c * keep_numerator(y, h) / (10 * h)
}

fn color_channel(k: usize, at_end: bool) -> (r: u64)
    requires
        k < 3,
    ensures
        r == if at_end {
            end_color(k as int)
        } else {
            start_color(k as int)
        },
{
    if at_end {
        if k == 0 {
            0x76
        } else if k == 1 {
            0x4b
        } else {
            0xa2
        }
    } else {
        if k == 0 {
            0x66
        } else if k == 1 {
            0x7e
        } else {
            0xea
        }
    }
}

/// A `width` by `height` canvas filled with the diagonal gradient from #667eea
/// to #764ba2, fully opaque.
pub fn create_gradient_background(width: u32, height: u32) -> (r: Canvas)
    requires
        4 * (width as int) * (height as int) <= usize::MAX,
    ensures
        r.width == width,
        r.height == height,
        r.wf(),
        forall|i: int|
            0 <= i < r.pixels@.len() ==> #[trigger] r.pixels@[i] == gradient_byte(
                width as int,
                height as int,
                col_of(width as int, i),
                row_of(width as int, i),
                chan_of(i),
            ),
{
    let mut pixels: Vec<u8> = Vec::new();
    let n: u64 = width as u64 + height as u64;
    let mut y: u32 = 0;
    assert(4 * (y as int) * (width as int) == 0) by (nonlinear_arith)
        requires
            y == 0,
    ;
    while y < height
        invariant
            y <= height,
            n == width + height,
            4 * (width as int) * (height as int) <= usize::MAX,
            pixels@.len() == 4 * (y as int) * (width as int),
            forall|i: int|
                0 <= i < pixels@.len() ==> #[trigger] pixels@[i] == gradient_byte(
                    width as int,
                    height as int,
                    col_of(width as int, i),
                    row_of(width as int, i),
                    chan_of(i),
                ),
        decreases height - y,
    {
        let mut x: u32 = 0;
        assert(4 * (y as int) * (width as int) == 4 * ((y as int) * (width as int) + x)) by (
        nonlinear_arith)
            requires
                x == 0,
        ;
        while x < width
            invariant
                y < height,
                x <= width,
                n == width + height,
                pixels@.len() == 4 * ((y as int) * (width as int) + x),
                forall|i: int|
                    0 <= i < pixels@.len() ==> #[trigger] pixels@[i] == gradient_byte(
                        width as int,
                        height as int,
                        col_of(width as int, i),
                        row_of(width as int, i),
                        chan_of(i),
                    ),
            decreases width - x,
        {
            let t: u64 = x as u64 + height as u64 - y as u64;
            let mut k: usize = 0;
            while k < 4
                invariant
                    y < height,
                    x < width,
                    k <= 4,
                    n == width + height,
                    t == x + height - y,
                    1 <= t < n,
                    pixels@.len() == 4 * ((y as int) * (width as int) + x) + k,
                    forall|i: int|
                        0 <= i < pixels@.len() ==> #[trigger] pixels@[i] == gradient_byte(
                            width as int,
                            height as int,
                            col_of(width as int, i),
                            row_of(width as int, i),
                            chan_of(i),
                        ),
                decreases 4 - k,
            {
                proof {
                    lemma_index_parts(width as int, height as int, x as int, y as int, k as int);
                }
                let v: u8 = if k == 3 {
                    255
                } else {
                    let s = color_channel(k, false);
                    let e = color_channel(k, true);
                    proof {
                        assert(s * (n - t) + e * t <= 255 * n) by (nonlinear_arith)
                            requires
                                s <= 255,
                                e <= 255,
                                1 <= t < n,
                        ;
                        assert((s * (n - t) + e * t) / (n as int) <= 255) by (nonlinear_arith)
                            requires
                                s * (n - t) + e * t <= 255 * n,
                                n > 0,
                        ;
                    }
                    ((s * (n - t) + e * t) / n) as u8
                };
                pixels.push(v);
                k = k + 1;
            }
            x = x + 1;
        }
        proof {
            assert(4 * ((y as int) * (width as int) + width) == 4 * ((y + 1) as int) * (
            width as int)) by (nonlinear_arith);
        }
        y = y + 1;
    }
    assert(4 * (y as int) * (width as int) == 4 * (width as int) * (height as int)) by (
    nonlinear_arith)
        requires
            y == height,
    ;
    Canvas { width, height, pixels }
}

/// Byte `i` of a canvas `w` by `h` after the overlay: colors darkened by
/// their row, alpha opaque.
pub open spec fn overlay_byte(old: u8, w: int, h: int, i: int) -> int {
    if chan_of(i) == 3 {
        255
    } else {
        darken(old as int, row_of(w, i), h)
    }
}

/// The overlay darkens more (or as much) further down: a channel keeps no
/// more of its value on a lower row than on a higher one.
pub proof fn darkening_deepens_downward(c: nat, y1: int, y2: int, h: int)
    requires
        0 <= y1 <= y2 < h,
    ensures
        keep_numerator(y2, h) <= keep_numerator(y1, h),
        darken(c as int, y2, h) <= darken(c as int, y1, h),
        darken(c as int, y1, h) <= c,
{
    let a = c * keep_numerator(y2, h);
    let b = c * keep_numerator(y1, h);
    assert(a <= b) by (nonlinear_arith)
        requires
            a == c * keep_numerator(y2, h),
            b == c * keep_numerator(y1, h),
            keep_numerator(y2, h) <= keep_numerator(y1, h),
            c >= 0,
    ;
    vstd::arithmetic::div_mod::lemma_div_is_ordered(a, b, 10 * h);
    assert(b <= c * (10 * h)) by (nonlinear_arith)
        requires
            b == c * keep_numerator(y1, h),
            keep_numerator(y1, h) <= 10 * h,
            c >= 0,
    ;
    vstd::arithmetic::div_mod::lemma_div_is_ordered(b, c * (10 * h), 10 * h);
    vstd::arithmetic::div_mod::lemma_div_multiples_vanish(c as int, 10 * h);
}

/// Darkens `canvas` towards the bottom: each color channel on row y of h is
/// scaled by 1 - (0.3 + 0.4 * y / h), rounded down, and alpha made opaque.
pub fn apply_overlay(canvas: &mut Canvas)
    requires
        old(canvas).wf(),
    ensures
        final(canvas).width == old(canvas).width,
        final(canvas).height == old(canvas).height,
        final(canvas).wf(),
        forall|i: int|
            0 <= i < final(canvas).pixels@.len() ==> #[trigger] final(canvas).pixels@[i]
                == overlay_byte(
                old(canvas).pixels@[i],
                old(canvas).width as int,
                old(canvas).height as int,
                i,
            ),
{
    let ghost before = canvas.pixels@;
    let width = canvas.width;
    let height = canvas.height;
    let len = canvas.pixels.len();
    let mut idx: usize = 0;
    let mut y: u32 = 0;
    assert(4 * (y as int) * (width as int) == 0) by (nonlinear_arith)
        requires
            y == 0,
    ;
    while y < height
        invariant
            canvas.width == width,
            canvas.height == height,
            canvas.pixels@.len() == len,
            len == 4 * (width as int) * (height as int),
            len == before.len(),
            y <= height,
            idx == 4 * (y as int) * (width as int),
            forall|j: int|
                0 <= j < idx ==> #[trigger] canvas.pixels@[j] == overlay_byte(
                    before[j],
                    width as int,
                    height as int,
                    j,
                ),
            forall|j: int| idx <= j < len ==> #[trigger] canvas.pixels@[j] == before[j],
        decreases height - y,
    {
        let mut x: u32 = 0;
        assert(4 * (y as int) * (width as int) == 4 * ((y as int) * (width as int) + x)) by (
        nonlinear_arith)
            requires
                x == 0,
        ;
        while x < width
            invariant
                canvas.width == width,
                canvas.height == height,
                canvas.pixels@.len() == len,
                len == 4 * (width as int) * (height as int),
                len == before.len(),
                y < height,
                x <= width,
                idx == 4 * ((y as int) * (width as int) + x),
                forall|j: int|
                    0 <= j < idx ==> #[trigger] canvas.pixels@[j] == overlay_byte(
                        before[j],
                        width as int,
                        height as int,
                        j,
                    ),
                forall|j: int| idx <= j < len ==> #[trigger] canvas.pixels@[j] == before[j],
            decreases width - x,
        {
            let mut k: usize = 0;
            while k < 4
                invariant
                    canvas.width == width,
                    canvas.height == height,
                    canvas.pixels@.len() == len,
                    len == 4 * (width as int) * (height as int),
                    len == before.len(),
                    y < height,
                    x < width,
                    k <= 4,
                    idx == 4 * ((y as int) * (width as int) + x) + k,
                    forall|j: int|
                        0 <= j < idx ==> #[trigger] canvas.pixels@[j] == overlay_byte(
                            before[j],
                            width as int,
                            height as int,
                            j,
                        ),
                    forall|j: int| idx <= j < len ==> #[trigger] canvas.pixels@[j] == before[j],
                decreases 4 - k,
            {
                proof {
                    lemma_index_parts(width as int, height as int, x as int, y as int, k as int);
                }
                let v: u8 = if k == 3 {
                    255
                } else {
                    let c = canvas.pixels[idx] as u64;
                    let keep: u64 = 7 * height as u64 - 4 * y as u64;
                    let whole: u64 = 10 * height as u64;
                    proof {
                        darkening_deepens_downward(c as nat, y as int, y as int, height as int);
                        assert(c * keep <= 255 * 7 * 0xffff_ffff) by (nonlinear_arith)
                            requires
                                c <= 255,
                                keep <= 7 * 0xffff_ffff,
                        ;
                    }
                    (c * keep / whole) as u8
                };
                assert(idx < len);
                canvas.pixels.set(idx, v);
                idx = idx + 1;
                k = k + 1;
            }
            x = x + 1;
        }
        proof {
            assert(4 * ((y as int) * (width as int) + width) == 4 * ((y + 1) as int) * (
            width as int)) by (nonlinear_arith);
        }
        y = y + 1;
    }
    assert(idx == len) by (nonlinear_arith)
        requires
            idx == 4 * (y as int) * (width as int),
            y == height,
            len == 4 * (width as int) * (height as int),
            len == before.len(),
    ;
}

/// Size to which a `bw` by `bh` image is scaled so that it covers a
/// `tw` by `th` box with its aspect ratio kept: an image relatively wider
/// than the box takes the box's height, any other its width.
pub open spec fn cover_size_spec(bw: int, bh: int, tw: int, th: int) -> (int, int) {
    if bw * th > tw * bh {
        (th * bw / bh, th)
    } else {
        (tw, tw * bh / bw)
    }
}

/// Scaled size of a `bw` by `bh` image that covers a `tw` by `th` box.
pub fn cover_size(bw: u32, bh: u32, tw: u32, th: u32) -> (r: (u64, u64))
    requires
        bw > 0,
        bh > 0,
    ensures
        (r.0 as int, r.1 as int) == cover_size_spec(bw as int, bh as int, tw as int, th as int),
        r.0 >= tw,
        r.1 >= th,
{
    proof {
        assert((bw as int) * (th as int) <= 0xffff_ffff * 0xffff_ffff) by (nonlinear_arith)
            requires
                bw <= 0xffff_ffff,
                th <= 0xffff_ffff,
        ;
        assert((tw as int) * (bh as int) <= 0xffff_ffff * 0xffff_ffff) by (nonlinear_arith)
            requires
                tw <= 0xffff_ffff,
                bh <= 0xffff_ffff,
        ;
    }
    let wide = bw as u64 * th as u64;
    let tall = tw as u64 * bh as u64;
    if wide > tall {
        proof {
            let q: int = (th as int) * (bw as int);
            assert(q == wide);
            assert(q / (bh as int) >= tw) by (nonlinear_arith)
                requires
                    q > tw * bh,
                    bh > 0,
                    tw >= 0,
            ;
        }
        (th as u64 * bw as u64 / bh as u64, th as u64)
    } else {
        proof {
            assert((tall as int) / (bw as int) >= th) by (nonlinear_arith)
                requires
                    wide <= tall,
                    wide == bw * th,
                    bw > 0,
            ;
        }
        (tw as u64, tw as u64 * bh as u64 / bw as u64)
    }
}

proof fn lemma_blend_near(s: int, e: int, t: int, n: int)
    requires
        t == 1,
        n > 1,
        0 <= s < n,
        0 <= e < n,
    ensures
        s - 1 <= blend(s, e, t, n) <= s,
{
    let x = s * (n - t) + e * t;
    assert(x == s * n + (e - s)) by (nonlinear_arith)
        requires
            x == s * (n - t) + e * t,
            t == 1,
    ;
    if e >= s {
        lemma_fundamental_div_mod_converse(x, n, s, e - s);
    } else {
        assert(x == (s - 1) * n + (n + e - s)) by (nonlinear_arith)
            requires
                x == s * n + (e - s),
        ;
        lemma_fundamental_div_mod_converse(x, n, s - 1, n + e - s);
    }
}

/// The gradient is the start color at the bottom-left corner and the end
/// color at the top-right one, up to rounding down by one; alpha is opaque.
pub proof fn gradient_corners(w: int, h: int, k: int)
    requires
        w > 0,
        h > 0,
        w + h > 255,
        0 <= k < 3,
    ensures
        start_color(k) - 1 <= gradient_byte(w, h, 0, h - 1, k) <= start_color(k),
        end_color(k) - 1 <= gradient_byte(w, h, w - 1, 0, k) <= end_color(k),
        gradient_byte(w, h, 0, h - 1, 3) == 255,
        gradient_byte(w, h, w - 1, 0, 3) == 255,
{
    let n = w + h;
    lemma_blend_near(start_color(k), end_color(k), 1, n);
    lemma_blend_near(end_color(k), start_color(k), 1, n);
    assert(blend(start_color(k), end_color(k), n - 1, n) == blend(
        end_color(k),
        start_color(k),
        1,
        n,
    )) by (nonlinear_arith)
        requires
            n > 1,
    ;
}

} // verus!
