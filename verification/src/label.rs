//! Text as pixels: glyphs are laid side by side at double size and scaled down.

use crate::encode::planes::{lemma_grid_index, lemma_row_col};
use crate::tiling::in_i32;
use vstd::prelude::*;

verus! {

/// A rasterized character.
#[derive(Debug)]
pub struct Glyph {
    /// Distance to the next character.
    pub advance: i32,
    /// Distance of the bitmap from the start of the character.
    pub xmin: i32,
    /// Distance of the bitmap's lower edge from the baseline, upwards.
    pub ymin: i32,
    pub width: usize,
    pub height: usize,
    /// How much of each pixel the character covers, row by row.
    pub bitmap: Vec<u8>,
}

impl Glyph {
    /// The bitmap has the size that it claims, and its edges can be computed with.
    pub open spec fn wf(&self) -> bool {
        &&& self.bitmap@.len() == self.width * self.height
        &&& self.width <= i32::MAX
        &&& self.height <= i32::MAX
    }

    /// How much of a pixel the character covers when its bitmap starts at (`gx`, `gy`).
    pub open spec fn coverage(&self, gx: int, gy: int, x: int, y: int) -> u8 {
        let col = x - gx;
        let row = y - gy;
        if 0 <= col < self.width && 0 <= row < self.height {
            self.bitmap@[row * self.width + col]
        } else {
            0
        }
    }
}

pub open spec fn larger(a: u8, b: u8) -> u8 {
    if a >= b {
        a
    } else {
        b
    }
}

/// Where character `k` starts.
pub open spec fn origin(glyphs: Seq<Glyph>, k: int) -> int
    decreases k,
{
    if k <= 0 {
        0
    } else {
        origin(glyphs, k - 1) + glyphs[k - 1].advance
    }
}

/// How many characters from `k` on are drawn: up to the one that reaches the limit.
pub open spec fn drawn_from(glyphs: Seq<Glyph>, limit: int, k: int) -> int
    decreases glyphs.len() - k,
{
    if k >= glyphs.len() {
        k
    } else if origin(glyphs, k + 1) >= limit {
        k + 1
    } else {
        drawn_from(glyphs, limit, k + 1)
    }
}

/// How much of a pixel the first `n` characters cover: overlapping characters count by the larger.
pub open spec fn covered(glyphs: Seq<Glyph>, baseline: int, n: int, x: int, y: int) -> u8
    decreases n,
{
    if n <= 0 {
        0
    } else {
        let g = glyphs[n - 1];
        larger(
            covered(glyphs, baseline, n - 1, x, y),
            g.coverage(origin(glyphs, n - 1) + g.xmin, baseline - g.height - g.ymin, x, y),
        )
    }
}

/// Width at double size: that of the text, but at most `max_width` and at least one pixel.
pub open spec fn wide(glyphs: Seq<Glyph>, max_width: int) -> int {
    let total = origin(glyphs, glyphs.len() as int);
    let least = if total < 2 * max_width {
        total
    } else {
        2 * max_width
    };
    if least > 1 {
        least
    } else {
        1
    }
}

/// Width of the label.
pub open spec fn label_width(glyphs: Seq<Glyph>, max_width: int) -> int {
    if wide(glyphs, max_width) / 2 > 1 {
        wide(glyphs, max_width) / 2
    } else {
        1
    }
}

pub open spec fn at_most(a: int, b: int) -> int {
    if a <= b {
        a
    } else {
        b
    }
}

/// How much of a pixel of the label is covered: the average of four at double size.
pub open spec fn alpha_at(
    glyphs: Seq<Glyph>,
    baseline: int,
    max_width: int,
    x: int,
    y: int,
) -> int {
    let w = wide(glyphs, max_width);
    let n = drawn_from(glyphs, 2 * max_width, 0);
    let right = at_most(2 * x + 1, w - 1);
    let left = at_most(2 * x, w - 1);
    (covered(glyphs, baseline, n, left, 2 * y) + covered(glyphs, baseline, n, right, 2 * y)
        + covered(glyphs, baseline, n, left, 2 * y + 1) + covered(
        glyphs,
        baseline,
        n,
        right,
        2 * y + 1,
    )) / 4
}

/// The bytes of a pixel: blue, green and red, each by what is covered, and what is covered.
pub open spec fn channel(color: (u8, u8, u8), alpha: int, c: int) -> u8 {
    if c == 0 {
        (color.2 * alpha / 255) as u8
    } else if c == 1 {
        (color.1 * alpha / 255) as u8
    } else if c == 2 {
        (color.0 * alpha / 255) as u8
    } else {
        alpha as u8
    }
}

/// The label, four bytes a pixel, row by row.
pub open spec fn label_pixels(
    glyphs: Seq<Glyph>,
    baseline: int,
    color: (u8, u8, u8),
    max_width: int,
    height: int,
) -> Seq<u8> {
    let w = label_width(glyphs, max_width);
    Seq::new(
        (4 * (w * height)) as nat,
        |i: int|
            channel(
                color,
                alpha_at(glyphs, baseline, max_width, (i / 4) % w, (i / 4) / w),
                i % 4,
            ),
    )
}

/// The label can be drawn: every extent can be computed with.
pub open spec fn label_fits(
    glyphs: Seq<Glyph>,
    baseline: int,
    max_width: int,
    height: int,
) -> bool {
    &&& 1 <= height
    &&& in_i32(2 * max_width)
    &&& in_i32(2 * height)
    &&& in_i32(wide(glyphs, max_width) * (2 * height))
    &&& in_i32(4 * (label_width(glyphs, max_width) * height))
    &&& in_i32(baseline)
    &&& forall|k: int| 0 <= k < glyphs.len() ==> (#[trigger] glyphs[k]).wf()
    &&& forall|k: int| 0 <= k <= glyphs.len() ==> in_i32(#[trigger] origin(glyphs, k))
}

fn in_range(n: i128) -> (r: bool)
    ensures
        r == in_i32(n as int),
{
    i32::MIN as i128 <= n && n <= i32::MAX as i128
}

fn is_glyph_ok(g: &Glyph) -> (r: bool)
    ensures
        r == g.wf(),
{
    if g.width > 0x7fff_ffff || g.height > 0x7fff_ffff {
        return false;
    }
    assert(0 <= g.width * g.height <= 0x7fff_ffff * 0x7fff_ffff) by (nonlinear_arith)
        requires
            0 <= g.width <= 0x7fff_ffff,
            0 <= g.height <= 0x7fff_ffff,
    ;
    g.bitmap.len() as u64 == g.width as u64 * g.height as u64
}

/// Whether the label can be drawn.
pub fn can_render(glyphs: &[Glyph], baseline: i32, max_width: i32, height: i32) -> (r: bool)
    ensures
        r == label_fits(glyphs@, baseline as int, max_width as int, height as int),
{
    if height < 1 || !in_range(2 * max_width as i128) || !in_range(2 * height as i128) {
        return false;
    }
    let mut total: i32 = 0;
    let mut k: usize = 0;
    while k < glyphs.len()
        invariant
            k <= glyphs@.len(),
            total == origin(glyphs@, k as int),
            forall|j: int| 0 <= j < k ==> (#[trigger] glyphs@[j]).wf(),
            forall|j: int| 0 <= j <= k ==> in_i32(#[trigger] origin(glyphs@, j)),
        decreases glyphs@.len() - k,
    {
        let next: i128 = total as i128 + glyphs[k].advance as i128;
        assert(next == origin(glyphs@, k + 1));
        if !is_glyph_ok(&glyphs[k]) || !in_range(next) {
            assert(!glyphs@[k as int].wf() || !in_i32(origin(glyphs@, k + 1)));
            return false;
        }
        total = next as i32;
        k = k + 1;
    }
    let limit: i32 = 2 * max_width;
    let least: i32 = if total < limit {
        total
    } else {
        limit
    };
    let hi_w: i32 = if least > 1 {
        least
    } else {
        1
    };
    let out_w: i32 = if hi_w / 2 > 1 {
        hi_w / 2
    } else {
        1
    };
    assert(0 <= hi_w * (2 * height) <= 0x7fff_ffff * 0xffff_fffe) by (nonlinear_arith)
        requires
            0 <= hi_w <= 0x7fff_ffff,
            0 <= height <= 0x7fff_ffff,
    ;
    assert(0 <= out_w * height <= 0x7fff_ffff * 0x7fff_ffff) by (nonlinear_arith)
        requires
            0 <= out_w <= 0x7fff_ffff,
            0 <= height <= 0x7fff_ffff,
    ;
    in_range(hi_w as i128 * (2 * height as i128)) && in_range(4 * (out_w as i128 * height as i128))
}

/// Position `p` of a grid of `w` columns lies before column `col` of row `row` of a bitmap that
/// starts at (`gx`, `gy`).
spec fn visited(p: int, w: int, gx: int, gy: int, row: int, col: int) -> bool {
    p / w - gy < row || (p / w - gy == row && p % w - gx < col)
}

fn blend_glyph(alpha: &mut Vec<u8>, w: usize, h: usize, g: &Glyph, gx: i64, gy: i64)
    requires
        old(alpha)@.len() == w * h,
        0 < w <= i32::MAX,
        0 < h <= i32::MAX,
        g.wf(),
        -0x4_0000_0000 <= gx <= 0x4_0000_0000,
        -0x4_0000_0000 <= gy <= 0x4_0000_0000,
    ensures
        final(alpha)@.len() == old(alpha)@.len(),
        forall|p: int|
            0 <= p < w * h ==> #[trigger] final(alpha)@[p] == larger(
                old(alpha)@[p],
                g.coverage(gx as int, gy as int, p % w as int, p / w as int),
            ),
{
    let ghost before = alpha@;
    let mut row: usize = 0;
    while row < g.height
        invariant
            alpha@.len() == before.len() == w * h,
            0 < w <= i32::MAX,
            0 < h <= i32::MAX,
            g.wf(),
            -0x4_0000_0000 <= gx <= 0x4_0000_0000,
            -0x4_0000_0000 <= gy <= 0x4_0000_0000,
            row <= g.height,
            forall|p: int|
                0 <= p < w * h ==> #[trigger] alpha@[p] == (if visited(
                    p,
                    w as int,
                    gx as int,
                    gy as int,
                    row as int,
                    0,
                ) {
                    larger(
                        before[p],
                        g.coverage(gx as int, gy as int, p % w as int, p / w as int),
                    )
                } else {
                    before[p]
                }),
        decreases g.height - row,
    {
        let py: i64 = gy + row as i64;
        if 0 <= py && py < h as i64 {
            let mut col: usize = 0;
            while col < g.width
                invariant
                    alpha@.len() == before.len() == w * h,
                    0 < w <= i32::MAX,
                    0 < h <= i32::MAX,
                    g.wf(),
                    -0x4_0000_0000 <= gx <= 0x4_0000_0000,
                    py == gy + row,
                    0 <= py < h,
                    row < g.height,
                    col <= g.width,
                    forall|p: int|
                        0 <= p < w * h ==> #[trigger] alpha@[p] == (if visited(
                            p,
                            w as int,
                            gx as int,
                            gy as int,
                            row as int,
                            col as int,
                        ) {
                            larger(
                                before[p],
                                g.coverage(gx as int, gy as int, p % w as int, p / w as int),
                            )
                        } else {
                            before[p]
                        }),
                decreases g.width - col,
            {
                let px: i64 = gx + col as i64;
                let ghost held = alpha@;
                if 0 <= px && px < w as i64 {
                    proof {
                        lemma_grid_index(py as int, px as int, w as int, h as int);
                        lemma_grid_index(row as int, col as int, g.width as int, g.height as int);
                        lemma_row_col(
                            py as int * w as int + px as int,
                            py as int,
                            px as int,
                            w as int,
                        );
                    }
                    assert(g.bitmap@.len() == g.bitmap.len());
                    assert(0 <= row * g.width) by (nonlinear_arith);
                    assert(g.width * g.height == g.bitmap.len());
                    let a: u8 = g.bitmap[row * g.width + col];
                    assert(alpha@.len() == alpha.len());
                    assert(0 <= py * w) by (nonlinear_arith)
                        requires
                            0 <= py,
                    ;
                    let i: usize = py as usize * w + px as usize;
                    if alpha[i] < a {
                        alpha.set(i, a);
                    }
                }
                proof {
                    assert forall|p: int| 0 <= p < w * h implies #[trigger] alpha@[p] == (
                    if visited(p, w as int, gx as int, gy as int, row as int, col + 1) {
                        larger(
                            before[p],
                            g.coverage(gx as int, gy as int, p % w as int, p / w as int),
                        )
                    } else {
                        before[p]
                    }) by {
                        vstd::arithmetic::div_mod::lemma_fundamental_div_mod(p, w as int);
                        vstd::arithmetic::div_mod::lemma_mod_bound(p, w as int);
                        assert(w * (p / w as int) == (p / w as int) * w) by (nonlinear_arith);
                        assert(held[p] == held[p]);
                        if p / w as int == py && p % w as int == px {
                            assert(p == py * w + px);
                        }
                    }
                }
                col = col + 1;
            }
        }
        proof {
            assert forall|p: int| 0 <= p < w * h implies #[trigger] alpha@[p] == (if visited(
                p,
                w as int,
                gx as int,
                gy as int,
                row + 1,
                0,
            ) {
                larger(before[p], g.coverage(gx as int, gy as int, p % w as int, p / w as int))
            } else {
                before[p]
            }) by {
                lemma_in_rows(p, w as int, h as int);
            }
        }
        row = row + 1;
    }
}

/// The row of a position of a grid.
proof fn lemma_in_rows(p: int, w: int, h: int)
    requires
        0 <= p < w * h,
        0 < w,
    ensures
        0 <= p / w < h,
        0 <= p % w < w,
{
    vstd::arithmetic::div_mod::lemma_fundamental_div_mod(p, w);
    vstd::arithmetic::div_mod::lemma_mod_bound(p, w);
    let q = p / w;
    assert(q < h) by (nonlinear_arith)
        requires
            p == w * q + p % w,
            0 <= p % w,
            p < w * h,
            0 < w,
    ;
    assert(q >= 0) by (nonlinear_arith)
        requires
            p == w * q + p % w,
            p % w < w,
            p >= 0,
            0 < w,
    ;
}

/// What the characters cover at double size.
fn rasterize(glyphs: &[Glyph], baseline: i32, max_width: i32, height: i32, w: usize, h: usize) -> (r:
    Vec<u8>)
    requires
        label_fits(glyphs@, baseline as int, max_width as int, height as int),
        w == wide(glyphs@, max_width as int),
        h == 2 * height,
    ensures
        r@.len() == w * h,
        forall|p: int|
            0 <= p < w * h ==> #[trigger] r@[p] == covered(
                glyphs@,
                baseline as int,
                drawn_from(glyphs@, 2 * max_width, 0),
                p % w as int,
                p / w as int,
            ),
{
    let mut alpha: Vec<u8> = Vec::new();
    assert(w * h == wide(glyphs@, max_width as int) * (2 * height));
    let size: usize = w * h;
    while alpha.len() < size
        invariant
            alpha@.len() <= size,
            forall|p: int| 0 <= p < alpha@.len() ==> alpha@[p] == 0,
        decreases size - alpha@.len(),
    {
        alpha.push(0);
    }
    let limit: i32 = 2 * max_width;
    let mut cursor: i32 = 0;
    let mut k: usize = 0;
    let mut more = true;
    while more && k < glyphs.len()
        invariant
            label_fits(glyphs@, baseline as int, max_width as int, height as int),
            w == wide(glyphs@, max_width as int),
            h == 2 * height,
            0 < w <= i32::MAX,
            size == w * h,
            alpha@.len() == size,
            limit == 2 * max_width,
            k <= glyphs@.len(),
            cursor == origin(glyphs@, k as int),
            more ==> drawn_from(glyphs@, limit as int, k as int) == drawn_from(
                glyphs@,
                limit as int,
                0,
            ),
            !more ==> k == drawn_from(glyphs@, limit as int, 0),
            forall|p: int|
                0 <= p < w * h ==> #[trigger] alpha@[p] == covered(
                    glyphs@,
                    baseline as int,
                    k as int,
                    p % w as int,
                    p / w as int,
                ),
        decreases glyphs@.len() - k,
    {
        let g = &glyphs[k];
        assert(glyphs@[k as int].wf());
        assert(in_i32(origin(glyphs@, k + 1)));
        let gx: i64 = cursor as i64 + g.xmin as i64;
        let gy: i64 = baseline as i64 - g.height as i64 - g.ymin as i64;
        blend_glyph(&mut alpha, w, h, g, gx, gy);
        cursor = cursor + g.advance;
        if cursor >= limit {
            more = false;
        }
        k = k + 1;
    }
    alpha
}

/// Positions in the picture at double size that make up a pixel.
proof fn lemma_sample(w: int, h: int, px: int, py: int)
    requires
        0 <= px < w,
        0 <= py < h,
    ensures
        0 <= py * w + px < w * h,
        (py * w + px) / w == py,
        (py * w + px) % w == px,
{
    lemma_grid_index(py, px, w, h);
    lemma_row_col(py * w + px, py, px, w);
}

/// Draws characters side by side in one colour, at most `max_width` wide. The characters are
/// rasterized at double size, and the pixels average four of theirs. Returns the pixels, blue first
/// and multiplied by what is covered, with width and height.
pub fn render_glyphs(
    glyphs: &[Glyph],
    baseline: i32,
    color: (u8, u8, u8),
    max_width: i32,
    height: i32,
) -> (r: (Vec<u8>, i32, i32))
    requires
        label_fits(glyphs@, baseline as int, max_width as int, height as int),
    ensures
        r.0@ == label_pixels(glyphs@, baseline as int, color, max_width as int, height as int),
        r.1 == label_width(glyphs@, max_width as int),
        r.2 == height,
{
    let mut total: i32 = 0;
    let mut k: usize = 0;
    while k < glyphs.len()
        invariant
            label_fits(glyphs@, baseline as int, max_width as int, height as int),
            k <= glyphs@.len(),
            total == origin(glyphs@, k as int),
        decreases glyphs@.len() - k,
    {
        assert(in_i32(origin(glyphs@, k + 1)));
        total = total + glyphs[k].advance;
        k = k + 1;
    }
    let limit: i32 = 2 * max_width;
    let least: i32 = if total < limit {
        total
    } else {
        limit
    };
    let hi_w: i32 = if least > 1 {
        least
    } else {
        1
    };
    let out_w: i32 = if hi_w / 2 > 1 {
        hi_w / 2
    } else {
        1
    };
    let w: usize = hi_w as usize;
    let h: usize = (2 * height) as usize;
    let ow: usize = out_w as usize;
    let oh: usize = height as usize;
    let alpha = rasterize(glyphs, baseline, max_width, height, w, h);
    let ghost n = drawn_from(glyphs@, 2 * max_width, 0);
    let ghost pixels = label_pixels(
        glyphs@,
        baseline as int,
        color,
        max_width as int,
        height as int,
    );
    let mut r: Vec<u8> = Vec::new();
    let mut y: usize = 0;
    assert(4 * (0 * ow as int) == 0);
    while y < oh
        invariant
            label_fits(glyphs@, baseline as int, max_width as int, height as int),
            pixels == label_pixels(
                glyphs@,
                baseline as int,
                color,
                max_width as int,
                height as int,
            ),
            n == drawn_from(glyphs@, 2 * max_width, 0),
            0 < w <= i32::MAX,
            w == wide(glyphs@, max_width as int),
            h == 2 * oh,
            oh == height,
            ow == label_width(glyphs@, max_width as int),
            0 < ow,
            alpha@.len() == w * h,
            forall|p: int|
                0 <= p < w * h ==> #[trigger] alpha@[p] == covered(
                    glyphs@,
                    baseline as int,
                    n,
                    p % w as int,
                    p / w as int,
                ),
            y <= oh,
            r@.len() == 4 * (y * ow),
            forall|i: int| 0 <= i < r@.len() ==> r@[i] == #[trigger] pixels[i],
        decreases oh - y,
    {
        let mut x: usize = 0;
        while x < ow
            invariant
                label_fits(glyphs@, baseline as int, max_width as int, height as int),
                pixels == label_pixels(
                    glyphs@,
                    baseline as int,
                    color,
                    max_width as int,
                    height as int,
                ),
                n == drawn_from(glyphs@, 2 * max_width, 0),
                0 < w <= i32::MAX,
                w == wide(glyphs@, max_width as int),
                h == 2 * oh,
                oh == height,
                ow == label_width(glyphs@, max_width as int),
                0 < ow,
                alpha@.len() == w * h,
                forall|p: int|
                    0 <= p < w * h ==> #[trigger] alpha@[p] == covered(
                        glyphs@,
                        baseline as int,
                        n,
                        p % w as int,
                        p / w as int,
                    ),
                y < oh,
                x <= ow,
                r@.len() == 4 * (y * ow + x),
                forall|i: int| 0 <= i < r@.len() ==> r@[i] == #[trigger] pixels[i],
            decreases ow - x,
        {
            let left: usize = if 2 * x < w - 1 {
                2 * x
            } else {
                w - 1
            };
            let right: usize = if 2 * x + 1 < w - 1 {
                2 * x + 1
            } else {
                w - 1
            };
            assert(alpha@.len() == alpha.len());
            proof {
                lemma_sample(w as int, h as int, left as int, 2 * y);
                lemma_sample(w as int, h as int, right as int, 2 * y);
                lemma_sample(w as int, h as int, left as int, 2 * y + 1);
                lemma_sample(w as int, h as int, right as int, 2 * y + 1);
            }
            let upper: usize = (2 * y) * w;
            let lower: usize = (2 * y + 1) * w;
            let sum: u32 = alpha[upper + left] as u32 + alpha[upper + right] as u32 + alpha[lower
                + left] as u32 + alpha[lower + right] as u32;
            let a: u32 = sum / 4;
            assert(a == alpha_at(
                glyphs@,
                baseline as int,
                max_width as int,
                x as int,
                y as int,
            ));
            proof {
                lemma_grid_index(y as int, x as int, ow as int, oh as int);
                assert(ow * oh == label_width(glyphs@, max_width as int) * height);
                let q = y * ow + x;
                lemma_row_col(q, y as int, x as int, ow as int);
                assert(forall|c: int| 0 <= c < 4 ==> #[trigger] ((4 * q + c) / 4) == q && (4 * q
                    + c) % 4 == c);
                assert forall|c: int| 0 <= c < 4 implies #[trigger] pixels[4 * q + c] == channel(
                    color,
                    a as int,
                    c,
                ) by {
                    assert((4 * q + c) / 4 == q && (4 * q + c) % 4 == c);
                }
                lemma_scaled_channel(color.0 as int, a as int);
                lemma_scaled_channel(color.1 as int, a as int);
                lemma_scaled_channel(color.2 as int, a as int);
            }
            let ghost before = r@;
            r.push((color.2 as u32 * a / 255) as u8);
            r.push((color.1 as u32 * a / 255) as u8);
            r.push((color.0 as u32 * a / 255) as u8);
            r.push(a as u8);
            proof {
                let q = y * ow + x;
                assert forall|i: int| 0 <= i < r@.len() implies r@[i] == #[trigger] pixels[i] by {
                    if i >= before.len() {
                        let c = i - 4 * q;
                        assert(pixels[4 * q + c] == channel(color, a as int, c));
                    } else {
                        assert(r@[i] == before[i]);
                    }
                }
            }
            x = x + 1;
        }
        assert((y + 1) * ow == y * ow + ow) by (nonlinear_arith);
        y = y + 1;
    }
    proof {
        assert(oh * ow == ow * oh) by (nonlinear_arith);
        assert(r@ =~= pixels);
    }
    (r, out_w, height)
}

/// A channel scaled by what is covered still fits in a byte.
proof fn lemma_scaled_channel(c: int, a: int)
    requires
        0 <= c <= 255,
        0 <= a <= 255,
    ensures
        0 <= c * a <= 65025,
        0 <= c * a / 255 <= 255,
{
    assert(0 <= c * a <= 65025) by (nonlinear_arith)
        requires
            0 <= c <= 255,
            0 <= a <= 255,
    ;
}

} // verus!
