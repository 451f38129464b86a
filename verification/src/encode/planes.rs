//! Colour conversion between packed BGRA pixels and planar YUV (BT.601).

use vstd::prelude::*;

verus! {

pub open spec fn clamp_byte(v: int) -> u8 {
    if v < 0 {
        0
    } else if v > 255 {
        255
    } else {
        v as u8
    }
}

/// Brightness of a colour.
pub open spec fn luma(r: int, g: int, b: int) -> u8 {
    clamp_byte((66 * r + 129 * g + 25 * b + 128) / 256 + 16)
}

/// Blue difference of a colour.
pub open spec fn chroma_u(r: int, g: int, b: int) -> u8 {
    clamp_byte((-38 * r - 74 * g + 112 * b + 128) / 256 + 128)
}

/// Red difference of a colour.
pub open spec fn chroma_v(r: int, g: int, b: int) -> u8 {
    clamp_byte((112 * r - 94 * g - 18 * b + 128) / 256 + 128)
}

/// Blue (0), green (1), red (2) or alpha (3) of pixel `i`.
pub open spec fn channel(bgra: Seq<u8>, i: int, c: int) -> int {
    bgra[4 * i + c] as int
}

/// Average of one channel over the 2x2 block at block row `row`, block column `col`.
pub open spec fn block_average(bgra: Seq<u8>, w: int, row: int, col: int, c: int) -> int {
    let i = 2 * row * w + 2 * col;
    (channel(bgra, i, c) + channel(bgra, i + 1, c) + channel(bgra, i + w, c) + channel(
        bgra,
        i + w + 1,
        c,
    )) / 4
}

/// Average of a plane over the 2x2 block at block row `row`, block column `col`.
pub open spec fn plane_average(plane: Seq<u8>, w: int, row: int, col: int) -> u8 {
    let i = 2 * row * w + 2 * col;
    ((plane[i] + plane[i + 1] + plane[i + w] + plane[i + w + 1]) / 4) as u8
}

/// Number of samples in one subsampled plane.
pub open spec fn quarter_size(w: int, h: int) -> int {
    (w / 2) * (h / 2)
}

/// Number of samples of a full plane that its 2x2 blocks cover, counted to the last one used.
pub open spec fn block_extent(w: int, h: int) -> int {
    if w / 2 == 0 || h / 2 == 0 {
        0
    } else {
        (2 * (h / 2) - 1) * w + 2 * (w / 2)
    }
}

/// Sample `i` of a plane, or the neutral 128 where the plane is too short.
pub open spec fn sample(plane: Seq<u8>, i: int) -> u8 {
    if i < plane.len() {
        plane[i]
    } else {
        128
    }
}

pub(crate) proof fn lemma_row_col(p: int, row: int, col: int, w: int)
    requires
        p == row * w + col,
        0 <= col < w,
    ensures
        p / w == row,
        p % w == col,
{
    assert(row * w == w * row) by (nonlinear_arith);
    vstd::arithmetic::div_mod::lemma_fundamental_div_mod_converse(p, w, row, col);
}

/// A grid of `w` columns and `h` rows holds every index of its rows and columns.
pub(crate) proof fn lemma_grid_index(row: int, col: int, w: int, h: int)
    requires
        0 <= row < h,
        0 <= col < w,
    ensures
        0 <= row * w + col < w * h,
{
    assert(0 <= row * w) by (nonlinear_arith)
        requires
            0 <= row,
            0 <= w,
    ;
    assert(row * w + w <= w * h) by (nonlinear_arith)
        requires
            row + 1 <= h,
            0 < w,
    ;
}

/// The indices of a 2x2 block lie in the part of the plane that the blocks cover.
proof fn lemma_block_index(row: int, col: int, w: int, h: int)
    requires
        0 <= row < h / 2,
        0 <= col < w / 2,
    ensures
        0 <= 2 * row * w + 2 * col,
        2 * row * w + 2 * col + w + 1 < block_extent(w, h) <= w * h,
{
    assert(2 * row * w >= 0) by (nonlinear_arith)
        requires
            row >= 0,
            w >= 0,
    ;
    assert(2 * row * w + w + w <= 2 * (h / 2) * w) by (nonlinear_arith)
        requires
            row + 1 <= h / 2,
            w > 0,
    ;
    assert((2 * (h / 2) - 1) * w == 2 * (h / 2) * w - w) by (nonlinear_arith);
    assert(2 * (h / 2) * w <= w * h) by (nonlinear_arith)
        requires
            2 * (h / 2) <= h,
            w > 0,
    ;
    assert(2 * row * w + w + 2 * col + 2 <= (2 * (h / 2) - 1) * w + 2 * (w / 2)) by {
        assert(2 * row * w + w <= (2 * (h / 2) - 1) * w) by (nonlinear_arith)
            requires
                row + 1 <= h / 2,
                w > 0,
        ;
    }
}

/// The subsampled planes take at most half of the full one each two.
pub(crate) proof fn lemma_quarter_size(w: int, h: int)
    requires
        0 <= w,
        0 <= h,
    ensures
        0 <= quarter_size(w, h),
        4 * quarter_size(w, h) <= w * h,
{
    let a = w / 2;
    let b = h / 2;
    assert(0 <= a * b) by (nonlinear_arith)
        requires
            0 <= a,
            0 <= b,
    ;
    assert((2 * a) * (2 * b) <= w * h) by (nonlinear_arith)
        requires
            0 <= 2 * a <= w,
            0 <= 2 * b <= h,
    ;
    assert((2 * a) * (2 * b) == 4 * (a * b)) by (nonlinear_arith);
}

fn luma_of(r: u8, g: u8, b: u8) -> (y: u8)
    ensures
        y == luma(r as int, g as int, b as int),
{
    ((66 * r as u32 + 129 * g as u32 + 25 * b as u32 + 128) / 256 + 16) as u8
}

fn chroma_u_of(r: u8, g: u8, b: u8) -> (u: u8)
    ensures
        u == chroma_u(r as int, g as int, b as int),
{
    ((112 * b as u32 + 128 + 32768 - 38 * r as u32 - 74 * g as u32) / 256) as u8
}

fn chroma_v_of(r: u8, g: u8, b: u8) -> (v: u8)
    ensures
        v == chroma_v(r as int, g as int, b as int),
{
    ((112 * r as u32 + 128 + 32768 - 94 * g as u32 - 18 * b as u32) / 256) as u8
}

/// The first `count` samples of three full planes are those of the pixels.
pub open spec fn full_planes(
    y444: Seq<u8>,
    u444: Seq<u8>,
    v444: Seq<u8>,
    bgra: Seq<u8>,
    count: int,
) -> bool {
    forall|i: int|
        0 <= i < count ==> {
            let b = channel(bgra, i, 0);
            let g = channel(bgra, i, 1);
            let r = channel(bgra, i, 2);
            &&& #[trigger] y444[i] == luma(r, g, b)
            &&& u444[i] == chroma_u(r, g, b)
            &&& v444[i] == chroma_v(r, g, b)
        }
}

/// Convert BGRA pixels to full-resolution YUV444 planes.
/// `y444`, `u444` and `v444` must hold width*height samples each.
#[verifier::spinoff_prover]
#[verifier::rlimit(40)]
pub fn bgra_to_yuv444(
    bgra: &[u8],
    width: u32,
    height: u32,
    y444: &mut [u8],
    u444: &mut [u8],
    v444: &mut [u8],
)
    requires
        bgra@.len() >= 4 * (width * height),
        old(y444)@.len() >= width * height,
        old(u444)@.len() >= width * height,
        old(v444)@.len() >= width * height,
    ensures
        final(y444)@.len() == old(y444)@.len(),
        final(u444)@.len() == old(u444)@.len(),
        final(v444)@.len() == old(v444)@.len(),
        full_planes(final(y444)@, final(u444)@, final(v444)@, bgra@, width * height),
        forall|i: int|
            width * height <= i < old(y444)@.len() ==> #[trigger] final(y444)@[i] == old(y444)@[i],
        forall|i: int|
            width * height <= i < old(u444)@.len() ==> #[trigger] final(u444)@[i] == old(u444)@[i],
        forall|i: int|
            width * height <= i < old(v444)@.len() ==> #[trigger] final(v444)@[i] == old(v444)@[i],
{
    let ghost y_before = y444@;
    let ghost u_before = u444@;
    let ghost v_before = v444@;
    assert(width * height >= 0) by (nonlinear_arith);
    assert(bgra@.len() == bgra.len());
    let size: usize = width as usize * height as usize;
    let mut i: usize = 0;
    while i < size
        invariant
            i <= size,
            size == width * height,
            4 * size <= bgra@.len() <= usize::MAX,
            y444@.len() == y_before.len() >= size,
            u444@.len() == u_before.len() >= size,
            v444@.len() == v_before.len() >= size,
            forall|j: int|
                0 <= j < i ==> {
                    let b = channel(bgra@, j, 0);
                    let g = channel(bgra@, j, 1);
                    let r = channel(bgra@, j, 2);
                    &&& #[trigger] y444@[j] == luma(r, g, b)
                    &&& u444@[j] == chroma_u(r, g, b)
                    &&& v444@[j] == chroma_v(r, g, b)
                },
            forall|j: int| size <= j < y_before.len() ==> #[trigger] y444@[j] == y_before[j],
            forall|j: int| size <= j < u_before.len() ==> #[trigger] u444@[j] == u_before[j],
            forall|j: int| size <= j < v_before.len() ==> #[trigger] v444@[j] == v_before[j],
        decreases size - i,
    {
        let b: u8 = bgra[4 * i];
        let g: u8 = bgra[4 * i + 1];
        let r: u8 = bgra[4 * i + 2];
        y444[i] = luma_of(r, g, b);
        u444[i] = chroma_u_of(r, g, b);
        v444[i] = chroma_v_of(r, g, b);
        i = i + 1;
    }
    assert(full_planes(y444@, u444@, v444@, bgra@, width * height));
}

/// Sum of one channel over the 2x2 block whose first pixel is `i`.
fn block_sum(bgra: &[u8], i: usize, w: usize, c: usize) -> (s: u32)
    requires
        c < 4,
        4 * (i + w + 1) + 4 <= bgra@.len(),
    ensures
        s == channel(bgra@, i as int, c as int) + channel(bgra@, i + 1, c as int) + channel(
            bgra@,
            i + w,
            c as int,
        ) + channel(bgra@, i + w + 1, c as int),
        s <= 4 * 255,
{
    assert(bgra@.len() == bgra.len());
    bgra[4 * i + c] as u32 + bgra[4 * (i + 1) + c] as u32 + bgra[4 * (i + w) + c] as u32 + bgra[4
        * (i + w + 1) + c] as u32
}

/// Convert BGRA pixels to I420 (YUV420 planar) into the provided buffer: the luma plane, then
/// the two chroma planes with each whole 2x2 block averaged. A last odd row or column counts for
/// the luma plane only.
/// `yuv` must be at least width*height*3/2 bytes.
pub fn bgra_to_i420(bgra: &[u8], width: u32, height: u32, yuv: &mut [u8])
    requires
        bgra@.len() >= 4 * (width * height),
        old(yuv)@.len() >= width * height + 2 * quarter_size(width as int, height as int),
    ensures
        final(yuv)@.len() == old(yuv)@.len(),
        i420_luma(final(yuv)@, bgra@, width * height),
        i420_chroma(
            final(yuv)@,
            bgra@,
            width as int,
            height as int,
            quarter_size(width as int, height as int),
        ),
        forall|i: int|
            width * height + 2 * quarter_size(width as int, height as int) <= i < old(
                yuv,
            )@.len() ==> #[trigger] final(yuv)@[i] == old(yuv)@[i],
{
    let ghost before = yuv@;
    proof {
        lemma_quarter_size(width as int, height as int);
    }
    assert(width * height >= 0) by (nonlinear_arith);
    assert(bgra@.len() == bgra.len());
    assert(yuv@.len() == yuv.len());
    let w: usize = width as usize;
    let half_w: usize = w / 2;
    let half_h: usize = height as usize / 2;
    let y_size: usize = w * height as usize;
    let uv_size: usize = half_w * half_h;
    let mut i: usize = 0;
    while i < y_size
        invariant
            i <= y_size,
            y_size == width * height,
            4 * y_size <= bgra@.len() <= usize::MAX,
            yuv@.len() == before.len() >= y_size,
            forall|j: int|
                0 <= j < i ==> #[trigger] yuv@[j] == luma(
                    channel(bgra@, j, 2),
                    channel(bgra@, j, 1),
                    channel(bgra@, j, 0),
                ),
            forall|j: int| y_size <= j < before.len() ==> #[trigger] yuv@[j] == before[j],
        decreases y_size - i,
    {
        yuv[i] = luma_of(bgra[4 * i + 2], bgra[4 * i + 1], bgra[4 * i]);
        i = i + 1;
    }
    let ghost lumas = yuv@;
    assert(uv_size > 0 ==> 0 < half_w) by (nonlinear_arith)
        requires
            uv_size == half_w * half_h,
    ;
    let mut k: usize = 0;
    let mut row: usize = 0;
    let mut col: usize = 0;
    while k < uv_size
        invariant
            w == width,
            half_w == w / 2,
            half_h == height as int / 2,
            y_size == width * height,
            4 * y_size <= bgra@.len() <= usize::MAX,
            uv_size == half_w * half_h,
            uv_size == quarter_size(width as int, height as int),
            4 * uv_size <= y_size,
            k <= uv_size,
            k == row * half_w + col,
            uv_size > 0 ==> col < half_w,
            y_size + 2 * uv_size <= yuv@.len() == lumas.len() <= usize::MAX,
            lumas.len() == before.len(),
            i420_chroma(yuv@, bgra@, width as int, height as int, k as int),
            forall|j: int| 0 <= j < y_size ==> #[trigger] yuv@[j] == lumas[j],
            forall|j: int|
                y_size + 2 * uv_size <= j < before.len() ==> #[trigger] yuv@[j] == before[j],
        decreases uv_size - k,
    {
        proof {
            lemma_row_col(k as int, row as int, col as int, half_w as int);
            assert(row < half_h) by (nonlinear_arith)
                requires
                    row * half_w + col < half_w * half_h,
                    col >= 0,
                    half_w > 0,
            ;
            lemma_block_index(row as int, col as int, w as int, height as int);
            assert(2 * row * w == 2 * (row * w)) by (nonlinear_arith);
            assert((row + 1) * half_w == row * half_w + half_w) by (nonlinear_arith);
        }
        let first: usize = 2 * (row * w) + 2 * col;
        let b: u8 = (block_sum(bgra, first, w, 0) / 4) as u8;
        let g: u8 = (block_sum(bgra, first, w, 1) / 4) as u8;
        let r: u8 = (block_sum(bgra, first, w, 2) / 4) as u8;
        yuv[y_size + k] = chroma_u_of(r, g, b);
        yuv[y_size + uv_size + k] = chroma_v_of(r, g, b);
        k = k + 1;
        col = col + 1;
        if col == half_w {
            col = 0;
            row = row + 1;
        }
    }
}

/// The first `count` samples of the luma plane of an I420 buffer are those of the pixels.
pub open spec fn i420_luma(yuv: Seq<u8>, bgra: Seq<u8>, count: int) -> bool {
    forall|i: int|
        0 <= i < count ==> #[trigger] yuv[i] == luma(
            channel(bgra, i, 2),
            channel(bgra, i, 1),
            channel(bgra, i, 0),
        )
}

/// The first `count` samples of the chroma planes of an I420 buffer are those of the pixels.
pub open spec fn i420_chroma(yuv: Seq<u8>, bgra: Seq<u8>, w: int, h: int, count: int) -> bool {
    forall|k: int|
        #![trigger yuv[w * h + k]]
        #![trigger yuv[w * h + quarter_size(w, h) + k]]
        0 <= k < count ==> {
            let row = k / (w / 2);
            let col = k % (w / 2);
            let b = block_average(bgra, w, row, col, 0);
            let g = block_average(bgra, w, row, col, 1);
            let r = block_average(bgra, w, row, col, 2);
            &&& yuv[w * h + k] == chroma_u(r, g, b)
            &&& yuv[w * h + quarter_size(w, h) + k] == chroma_v(r, g, b)
        }
}

/// The first `count` samples of the chroma planes of an I420 buffer are the block averages of
/// two full planes.
pub open spec fn i420_subsampled(
    i420: Seq<u8>,
    u444: Seq<u8>,
    v444: Seq<u8>,
    w: int,
    h: int,
    count: int,
) -> bool {
    forall|k: int|
        #![trigger i420[w * h + k]]
        #![trigger i420[w * h + quarter_size(w, h) + k]]
        0 <= k < count ==> {
            let row = k / (w / 2);
            let col = k % (w / 2);
            &&& i420[w * h + k] == plane_average(u444, w, row, col)
            &&& i420[w * h + quarter_size(w, h) + k] == plane_average(v444, w, row, col)
        }
}

/// The first `count` samples of an I420 buffer are those of a luma plane; where that is too short, they
/// are as they were.
pub open spec fn luma_copied(i420: Seq<u8>, y444: Seq<u8>, before: Seq<u8>, count: int) -> bool {
    forall|i: int|
        0 <= i < count ==> #[trigger] i420[i] == if i < y444.len() {
            y444[i]
        } else {
            before[i]
        }
}

fn average_of(plane: &[u8], i: usize, w: usize) -> (a: u8)
    requires
        i + w + 1 < plane@.len(),
        w >= 1,
    ensures
        a == (plane@[i as int] + plane@[i + 1] + plane@[i + w] + plane@[i + w + 1]) / 4,
{
    assert(plane@.len() == plane.len());
    ((plane[i] as u16 + plane[i + 1] as u16 + plane[i + w] as u16 + plane[i + w + 1] as u16) / 4) as u8
}

/// Downsample full-resolution YUV444 planes to I420 (YUV420 planar): the first stream of AVC444,
/// a 4:2:0 subsample with 2x2 averaging.
/// `i420` must be at least width*height*3/2 bytes. Where `y444` is shorter than the picture, the
/// rest of the luma plane keeps its bytes.
pub fn yuv444_to_i420(
    y444: &[u8],
    u444: &[u8],
    v444: &[u8],
    width: u32,
    height: u32,
    i420: &mut [u8],
)
    requires
        u444@.len() >= block_extent(width as int, height as int),
        v444@.len() >= block_extent(width as int, height as int),
        old(i420)@.len() >= width * height + 2 * quarter_size(width as int, height as int),
    ensures
        final(i420)@.len() == old(i420)@.len(),
        luma_copied(final(i420)@, y444@, old(i420)@, width * height),
        i420_subsampled(
            final(i420)@,
            u444@,
            v444@,
            width as int,
            height as int,
            quarter_size(width as int, height as int),
        ),
        forall|i: int|
            width * height + 2 * quarter_size(width as int, height as int) <= i < old(
                i420,
            )@.len() ==> #[trigger] final(i420)@[i] == old(i420)@[i],
{
    let ghost before = i420@;
    proof {
        lemma_quarter_size(width as int, height as int);
    }
    assert(width * height >= 0) by (nonlinear_arith);
    assert(i420@.len() == i420.len());
    assert(u444@.len() == u444.len());
    let w: usize = width as usize;
    let half_w: usize = w / 2;
    let half_h: usize = height as usize / 2;
    let y_size: usize = w * height as usize;
    let uv_size: usize = half_w * half_h;
    let copied: usize = if y_size <= y444.len() {
        y_size
    } else {
        y444.len()
    };
    let mut i: usize = 0;
    while i < copied
        invariant
            i <= copied <= y444@.len(),
            copied <= y_size,
            y_size <= i420@.len() == before.len(),
            forall|j: int| 0 <= j < i ==> #[trigger] i420@[j] == y444@[j],
            forall|j: int| i <= j < before.len() ==> #[trigger] i420@[j] == before[j],
        decreases copied - i,
    {
        i420[i] = y444[i];
        i = i + 1;
    }
    let ghost lumas = i420@;
    let mut k: usize = 0;
    let mut row: usize = 0;
    let mut col: usize = 0;
    while k < uv_size
        invariant
            w == width,
            half_w == w / 2,
            half_h == height as int / 2,
            y_size == width * height,
            block_extent(width as int, height as int) <= u444@.len() <= usize::MAX,
            block_extent(width as int, height as int) <= v444@.len(),
            uv_size == half_w * half_h,
            uv_size == quarter_size(width as int, height as int),
            k <= uv_size,
            k == row * half_w + col,
            uv_size > 0 ==> col < half_w,
            y_size + 2 * uv_size <= i420@.len() == lumas.len() <= usize::MAX,
            lumas.len() == before.len(),
            i420_subsampled(i420@, u444@, v444@, width as int, height as int, k as int),
            forall|j: int| 0 <= j < y_size ==> #[trigger] i420@[j] == lumas[j],
            forall|j: int|
                y_size + 2 * uv_size <= j < before.len() ==> #[trigger] i420@[j] == before[j],
        decreases uv_size - k,
    {
        proof {
            lemma_row_col(k as int, row as int, col as int, half_w as int);
            assert(row < half_h) by (nonlinear_arith)
                requires
                    row * half_w + col < half_w * half_h,
                    col >= 0,
                    half_w > 0,
            ;
            lemma_block_index(row as int, col as int, w as int, height as int);
            assert(2 * row * w == 2 * (row * w)) by (nonlinear_arith);
            assert((row + 1) * half_w == row * half_w + half_w) by (nonlinear_arith);
        }
        let first: usize = 2 * (row * w) + 2 * col;
        i420[y_size + k] = average_of(u444, first, w);
        i420[y_size + uv_size + k] = average_of(v444, first, w);
        k = k + 1;
        col = col + 1;
        if col == half_w {
            col = 0;
            row = row + 1;
        }
    }
}

/// Sample `p` of the luma plane of the chroma stream: the odd columns of U on the left half of
/// each row, those of V on the right half. `kept` stands where the width is odd.
pub open spec fn packed_luma(u444: Seq<u8>, v444: Seq<u8>, w: int, p: int, kept: u8) -> u8 {
    let row = p / w;
    let col = p % w;
    let half = w / 2;
    if col < half {
        sample(u444, row * w + (2 * col + 1))
    } else if col < 2 * half {
        sample(v444, row * w + (2 * (col - half) + 1))
    } else {
        kept
    }
}

/// Sample `p` of a chroma plane of the chroma stream: every fourth column from `offset` of the
/// odd rows, of U on the left half of each row and of V on the right half. `kept` stands where
/// the plane's width is odd.
pub open spec fn packed_chroma(
    u444: Seq<u8>,
    v444: Seq<u8>,
    w: int,
    offset: int,
    p: int,
    kept: u8,
) -> u8 {
    let half = w / 2;
    let quarter = half / 2;
    let row = p / half;
    let col = p % half;
    if col < quarter {
        sample(u444, (2 * row + 1) * w + (4 * col + offset))
    } else if col < 2 * quarter {
        sample(v444, (2 * row + 1) * w + (4 * (col - quarter) + offset))
    } else {
        kept
    }
}

fn sample_of(plane: &[u8], i: usize) -> (s: u8)
    ensures
        s == sample(plane@, i as int),
{
    if i < plane.len() {
        plane[i]
    } else {
        128
    }
}

/// Writes one chroma plane of the chroma stream at `base` of `out`.
fn pack_chroma_plane(
    u444: &[u8],
    v444: &[u8],
    w: usize,
    h: usize,
    offset: usize,
    base: usize,
    out: &mut [u8],
)
    requires
        offset <= 2,
        w * h <= base,
        base + quarter_size(w as int, h as int) <= old(out)@.len(),
    ensures
        final(out)@.len() == old(out)@.len(),
        forall|p: int|
            0 <= p < quarter_size(w as int, h as int) ==> #[trigger] final(out)@[base + p]
                == packed_chroma(u444@, v444@, w as int, offset as int, p, old(out)@[base + p]),
        forall|j: int|
            0 <= j < old(out)@.len() && !(base <= j < base + quarter_size(w as int, h as int))
                ==> #[trigger] final(out)@[j] == old(out)@[j],
{
    let ghost before = out@;
    proof {
        lemma_quarter_size(w as int, h as int);
    }
    assert(out@.len() == out.len());
    let half_w: usize = w / 2;
    let half_h: usize = h / 2;
    let quarter_w: usize = half_w / 2;
    let size: usize = half_w * half_h;
    assert(half_w == 0 ==> size == 0) by (nonlinear_arith)
        requires
            size == half_w * half_h,
    ;
    let mut p: usize = 0;
    let mut row: usize = 0;
    let mut col: usize = 0;
    while p < size
        invariant
            offset <= 2,
            half_w == w / 2,
            half_h == h / 2,
            quarter_w == half_w / 2,
            w * h <= base,
            size == half_w * half_h,
            size == quarter_size(w as int, h as int),
            p <= size,
            p == row * half_w + col,
            size > 0 ==> col < half_w,
            base + size <= out@.len() == before.len() <= usize::MAX,
            forall|j: int|
                0 <= j < p ==> #[trigger] out@[base + j] == packed_chroma(
                    u444@,
                    v444@,
                    w as int,
                    offset as int,
                    j,
                    before[base + j],
                ),
            forall|j: int|
                0 <= j < before.len() && !(base <= j < base + p) ==> #[trigger] out@[j]
                    == before[j],
        decreases size - p,
    {
        proof {
            lemma_row_col(p as int, row as int, col as int, half_w as int);
            assert(row < half_h) by (nonlinear_arith)
                requires
                    row * half_w + col < half_w * half_h,
                    col >= 0,
                    half_w > 0,
            ;
            assert((row + 1) * half_w == row * half_w + half_w) by (nonlinear_arith);
            lemma_grid_index(2 * row + 1, w - 1, w as int, h as int);
            assert((2 * row + 1) * w >= 0) by (nonlinear_arith);
        }
        if col < quarter_w {
            out[base + p] = sample_of(u444, (2 * row + 1) * w + (4 * col + offset));
        } else if col < 2 * quarter_w {
            out[base + p] = sample_of(v444, (2 * row + 1) * w + (4 * (col - quarter_w) + offset));
        }
        p = p + 1;
        col = col + 1;
        if col == half_w {
            col = 0;
            row = row + 1;
        }
    }
}

/// The buffer `out` holds the chroma stream of two full planes, and behind it what it held before.
pub open spec fn chroma_packed(
    out: Seq<u8>,
    before: Seq<u8>,
    u444: Seq<u8>,
    v444: Seq<u8>,
    w: int,
    h: int,
) -> bool {
    let size = w * h;
    let quarter = quarter_size(w, h);
    &&& forall|p: int|
        0 <= p < size ==> #[trigger] out[p] == packed_luma(u444, v444, w, p, before[p])
    &&& forall|p: int|
        0 <= p < quarter ==> #[trigger] out[size + p] == packed_chroma(
            u444,
            v444,
            w,
            0,
            p,
            before[size + p],
        )
    &&& forall|p: int|
        0 <= p < quarter ==> #[trigger] out[size + quarter + p] == packed_chroma(
            u444,
            v444,
            w,
            2,
            p,
            before[size + quarter + p],
        )
    &&& forall|j: int| size + 2 * quarter <= j < before.len() ==> #[trigger] out[j] == before[j]
}

/// Pack the AVC444v2 chroma residual stream (stream 2) from full-resolution U444/V444 planes.
///
/// Luma plane (width x height): the left half of each row holds the odd columns of U, the right
/// half those of V. First chroma plane (width/2 x height/2): columns 0, 4, 8, ... of the odd
/// rows, of U on the left, of V on the right. Second chroma plane: columns 2, 6, 10, ... of the
/// odd rows in the same way. A sample that a plane does not hold counts as 128.
///
/// `chroma_yuv420` must be at least width*height*3/2 bytes.
pub fn pack_avc444v2_chroma(
    u444: &[u8],
    v444: &[u8],
    width: u32,
    height: u32,
    chroma_yuv420: &mut [u8],
)
    requires
        old(chroma_yuv420)@.len() >= width * height + 2 * quarter_size(
            width as int,
            height as int,
        ),
    ensures
        final(chroma_yuv420)@.len() == old(chroma_yuv420)@.len(),
        chroma_packed(
            final(chroma_yuv420)@,
            old(chroma_yuv420)@,
            u444@,
            v444@,
            width as int,
            height as int,
        ),
{
    let ghost before = chroma_yuv420@;
    proof {
        lemma_quarter_size(width as int, height as int);
    }
    assert(width * height >= 0) by (nonlinear_arith);
    assert(chroma_yuv420@.len() == chroma_yuv420.len());
    let w: usize = width as usize;
    let h: usize = height as usize;
    let half_w: usize = w / 2;
    let y_size: usize = w * h;
    let uv_size: usize = half_w * (h / 2);
    assert(w == 0 ==> y_size == 0) by (nonlinear_arith)
        requires
            y_size == w * h,
    ;
    let mut p: usize = 0;
    let mut row: usize = 0;
    let mut col: usize = 0;
    while p < y_size
        invariant
            w == width,
            h == height,
            half_w == w / 2,
            y_size == w * h,
            p <= y_size,
            p == row * w + col,
            y_size > 0 ==> col < w,
            y_size <= chroma_yuv420@.len() == before.len() <= usize::MAX,
            forall|j: int|
                0 <= j < p ==> #[trigger] chroma_yuv420@[j] == packed_luma(
                    u444@,
                    v444@,
                    w as int,
                    j,
                    before[j],
                ),
            forall|j: int| p <= j < before.len() ==> #[trigger] chroma_yuv420@[j] == before[j],
        decreases y_size - p,
    {
        proof {
            lemma_row_col(p as int, row as int, col as int, w as int);
            assert(row < h) by (nonlinear_arith)
                requires
                    row * w + col < w * h,
                    col >= 0,
                    w > 0,
            ;
            assert((row + 1) * w == row * w + w) by (nonlinear_arith);
            lemma_grid_index(row as int, w - 1, w as int, h as int);
        }
        if col < half_w {
            chroma_yuv420[p] = sample_of(u444, row * w + (2 * col + 1));
        } else if col < 2 * half_w {
            chroma_yuv420[p] = sample_of(v444, row * w + (2 * (col - half_w) + 1));
        }
        p = p + 1;
        col = col + 1;
        if col == w {
            col = 0;
            row = row + 1;
        }
    }
    let ghost lumas = chroma_yuv420@;
    pack_chroma_plane(u444, v444, w, h, 0, y_size, chroma_yuv420);
    let ghost half = chroma_yuv420@;
    pack_chroma_plane(u444, v444, w, h, 2, y_size + uv_size, chroma_yuv420);
    proof {
        let size = y_size as int;
        let quarter = uv_size as int;
        assert forall|p: int| 0 <= p < quarter implies #[trigger] chroma_yuv420@[size + p]
            == packed_chroma(u444@, v444@, w as int, 0, p, before[size + p]) by {
            assert(half[size + p] == packed_chroma(u444@, v444@, w as int, 0, p, lumas[size + p]));
        }
        assert forall|p: int| 0 <= p < quarter implies #[trigger] chroma_yuv420@[size + quarter + p]
            == packed_chroma(u444@, v444@, w as int, 2, p, before[size + quarter + p]) by {
            assert(half[size + quarter + p] == lumas[size + quarter + p]);
        }
    }
}

/// Grey has no colour: both differences of it are neutral.
pub proof fn lemma_grey_is_neutral(v: int)
    ensures
        chroma_u(v, v, v) == 128,
        chroma_v(v, v, v) == 128,
{
}

/// A colour sample: of U or of V, at a row and a column.
pub struct ColorSample {
    pub of_v: bool,
    pub row: int,
    pub col: int,
}

/// A picture whose chroma stream has a place for every sample: four divides the width, and two the
/// height.
pub open spec fn divides_evenly(w: int, h: int) -> bool {
    &&& w > 0
    &&& h > 0
    &&& w % 4 == 0
    &&& h % 2 == 0
}

/// A sample that the chroma stream keeps: one in an odd row or an odd column.
pub open spec fn is_kept(s: ColorSample, w: int, h: int) -> bool {
    &&& 0 <= s.row < h
    &&& 0 <= s.col < w
    &&& s.row % 2 == 1 || s.col % 2 == 1
}

/// Where the chroma stream keeps a sample: in an odd column on the luma plane, else on the first or
/// the second chroma plane.
pub open spec fn place_of(s: ColorSample, w: int, h: int) -> int {
    let half = w / 2;
    if s.col % 2 == 1 {
        s.row * w + if s.of_v {
            half + s.col / 2
        } else {
            s.col / 2
        }
    } else {
        let k = (s.row / 2) * half + if s.of_v {
            half / 2 + s.col / 4
        } else {
            s.col / 4
        };
        if s.col % 4 == 0 {
            w * h + k
        } else {
            w * h + quarter_size(w, h) + k
        }
    }
}

/// The sample that the chroma stream keeps at a place.
pub open spec fn sample_at(p: int, w: int, h: int) -> ColorSample {
    let half = w / 2;
    if p < w * h {
        let col = p % w;
        ColorSample {
            of_v: col >= half,
            row: p / w,
            col: 2 * (if col >= half {
                col - half
            } else {
                col
            }) + 1,
        }
    } else {
        let second = p >= w * h + quarter_size(w, h);
        let k = if second {
            p - w * h - quarter_size(w, h)
        } else {
            p - w * h
        };
        let col = k % half;
        ColorSample {
            of_v: col >= half / 2,
            row: 2 * (k / half) + 1,
            col: 4 * (if col >= half / 2 {
                col - half / 2
            } else {
                col
            }) + (if second {
                2int
            } else {
                0int
            }),
        }
    }
}

/// A sample of two full planes.
pub open spec fn sample_value(s: ColorSample, u444: Seq<u8>, v444: Seq<u8>, w: int) -> u8 {
    if s.of_v {
        v444[s.row * w + s.col]
    } else {
        u444[s.row * w + s.col]
    }
}

/// The chroma stream takes half as many bytes again as a full plane.
pub proof fn lemma_chroma_size(w: int, h: int)
    requires
        divides_evenly(w, h),
    ensures
        w * h + 2 * quarter_size(w, h) == (w * h * 3) / 2,
{
    let a = w / 2;
    let b = h / 2;
    assert((2 * a) * (2 * b) == 4 * (a * b)) by (nonlinear_arith);
    assert(w == 2 * a && h == 2 * b);
    assert(w * h == 4 * (a * b));
}

/// A sample of the chroma stream has a place in it, and is the one that is kept there: no two samples
/// share a place.
pub proof fn lemma_chroma_has_a_place(s: ColorSample, w: int, h: int)
    requires
        divides_evenly(w, h),
        is_kept(s, w, h),
    ensures
        0 <= place_of(s, w, h) < w * h + 2 * quarter_size(w, h),
        sample_at(place_of(s, w, h), w, h) == s,
{
    let half = w / 2;
    lemma_quarter_size(w, h);
    if s.col % 2 == 1 {
        let c = if s.of_v {
            half + s.col / 2
        } else {
            s.col / 2
        };
        lemma_grid_index(s.row, c, w, h);
        lemma_row_col(s.row * w + c, s.row, c, w);
    } else {
        let r = s.row / 2;
        let c = if s.of_v {
            half / 2 + s.col / 4
        } else {
            s.col / 4
        };
        lemma_grid_index(r, c, half, h / 2);
        lemma_row_col(r * half + c, r, c, half);
    }
}

/// Every place of the chroma stream keeps one sample, and that sample is kept nowhere else.
pub proof fn lemma_place_has_a_sample(p: int, w: int, h: int)
    requires
        divides_evenly(w, h),
        0 <= p < w * h + 2 * quarter_size(w, h),
    ensures
        is_kept(sample_at(p, w, h), w, h),
        place_of(sample_at(p, w, h), w, h) == p,
{
    let half = w / 2;
    lemma_quarter_size(w, h);
    if p < w * h {
        lemma_split_index(p, w, h);
    } else {
        let second = p >= w * h + quarter_size(w, h);
        let k = if second {
            p - w * h - quarter_size(w, h)
        } else {
            p - w * h
        };
        lemma_split_index(k, half, h / 2);
    }
}

/// An index of a grid parts into its row and its column.
pub(crate) proof fn lemma_split_index(p: int, w: int, h: int)
    requires
        0 <= p < w * h,
        w > 0,
    ensures
        p == (p / w) * w + p % w,
        0 <= p / w < h,
        0 <= p % w < w,
{
    vstd::arithmetic::div_mod::lemma_fundamental_div_mod(p, w);
    let row = p / w;
    assert(w * row == row * w) by (nonlinear_arith);
    assert(row < h) by (nonlinear_arith)
        requires
            row * w <= p < w * h,
            w > 0,
    ;
    assert(row >= 0) by (nonlinear_arith)
        requires
            row * w > p - w,
            p >= 0,
            w > 0,
    ;
}

/// Each colour sample in an odd column or an odd row is found in the chroma stream, at its place.
pub proof fn lemma_packed_sample(
    out: Seq<u8>,
    before: Seq<u8>,
    u444: Seq<u8>,
    v444: Seq<u8>,
    w: int,
    h: int,
    s: ColorSample,
)
    requires
        divides_evenly(w, h),
        u444.len() == w * h,
        v444.len() == w * h,
        chroma_packed(out, before, u444, v444, w, h),
        is_kept(s, w, h),
    ensures
        out[place_of(s, w, h)] == sample_value(s, u444, v444, w),
{
    let half = w / 2;
    lemma_grid_index(s.row, s.col, w, h);
    lemma_chroma_has_a_place(s, w, h);
    if s.col % 2 == 1 {
        let c = if s.of_v {
            half + s.col / 2
        } else {
            s.col / 2
        };
        let p = s.row * w + c;
        lemma_grid_index(s.row, c, w, h);
        lemma_row_col(p, s.row, c, w);
        assert(out[p] == packed_luma(u444, v444, w, p, before[p]));
    } else {
        let r = s.row / 2;
        let c = if s.of_v {
            half / 2 + s.col / 4
        } else {
            s.col / 4
        };
        let k = r * half + c;
        lemma_grid_index(r, c, half, h / 2);
        lemma_row_col(k, r, c, half);
        assert(2 * r + 1 == s.row);
        if s.col % 4 == 0 {
            assert(out[w * h + k] == packed_chroma(u444, v444, w, 0, k, before[w * h + k]));
        } else {
            let start = w * h + quarter_size(w, h);
            assert(out[start + k] == packed_chroma(u444, v444, w, 2, k, before[start + k]));
        }
    }
}

/// Two chroma streams of one size are equal exactly if their planes agree in every sample of an odd
/// column or an odd row.
pub proof fn lemma_equal_chroma_streams(
    out: Seq<u8>,
    before: Seq<u8>,
    u444: Seq<u8>,
    v444: Seq<u8>,
    other_out: Seq<u8>,
    other_before: Seq<u8>,
    other_u444: Seq<u8>,
    other_v444: Seq<u8>,
    w: int,
    h: int,
)
    requires
        divides_evenly(w, h),
        u444.len() == w * h,
        v444.len() == w * h,
        other_u444.len() == w * h,
        other_v444.len() == w * h,
        chroma_packed(out, before, u444, v444, w, h),
        chroma_packed(other_out, other_before, other_u444, other_v444, w, h),
    ensures
        (forall|p: int| 0 <= p < (w * h * 3) / 2 ==> #[trigger] out[p] == other_out[p]) <==> (forall|
            s: ColorSample,
        | #[trigger]
            is_kept(s, w, h) ==> sample_value(s, u444, v444, w) == sample_value(
                s,
                other_u444,
                other_v444,
                w,
            )),
{
    lemma_chroma_size(w, h);
    if forall|p: int| 0 <= p < (w * h * 3) / 2 ==> #[trigger] out[p] == other_out[p] {
        assert forall|s: ColorSample| #[trigger] is_kept(s, w, h) implies sample_value(
            s,
            u444,
            v444,
            w,
        ) == sample_value(s, other_u444, other_v444, w) by {
            lemma_packed_sample(out, before, u444, v444, w, h, s);
            lemma_packed_sample(other_out, other_before, other_u444, other_v444, w, h, s);
            lemma_chroma_has_a_place(s, w, h);
            assert(out[place_of(s, w, h)] == other_out[place_of(s, w, h)]);
        }
    }
    if forall|s: ColorSample| #[trigger]
        is_kept(s, w, h) ==> sample_value(s, u444, v444, w) == sample_value(
            s,
            other_u444,
            other_v444,
            w,
        ) {
        assert forall|p: int| 0 <= p < (w * h * 3) / 2 implies #[trigger] out[p] == other_out[p] by {
            let s = sample_at(p, w, h);
            lemma_place_has_a_sample(p, w, h);
            lemma_packed_sample(out, before, u444, v444, w, h, s);
            lemma_packed_sample(other_out, other_before, other_u444, other_v444, w, h, s);
        }
    }
}

/// The four pixels of a 2x2 block have one colour.
pub open spec fn one_color(bgra: Seq<u8>, w: int, row: int, col: int) -> bool {
    let i = 2 * row * w + 2 * col;
    forall|c: int|
        0 <= c < 3 ==> {
            &&& #[trigger] channel(bgra, i + 1, c) == channel(bgra, i, c)
            &&& channel(bgra, i + w, c) == channel(bgra, i, c)
            &&& channel(bgra, i + w + 1, c) == channel(bgra, i, c)
        }
}

/// Pixels become the same luma plane in I420 at once and by way of full planes. Where each 2x2 block
/// has one colour, the whole pictures are the same.
pub proof fn lemma_two_ways_to_i420(
    bgra: Seq<u8>,
    w: int,
    h: int,
    direct: Seq<u8>,
    y444: Seq<u8>,
    u444: Seq<u8>,
    v444: Seq<u8>,
    stepped: Seq<u8>,
    before: Seq<u8>,
)
    requires
        0 <= w,
        0 <= h,
        y444.len() >= w * h,
        i420_luma(direct, bgra, w * h),
        i420_chroma(direct, bgra, w, h, quarter_size(w, h)),
        full_planes(y444, u444, v444, bgra, w * h),
        luma_copied(stepped, y444, before, w * h),
        i420_subsampled(stepped, u444, v444, w, h, quarter_size(w, h)),
    ensures
        forall|i: int| 0 <= i < w * h ==> #[trigger] direct[i] == stepped[i],
        (forall|row: int, col: int|
            0 <= row < h / 2 && 0 <= col < w / 2 ==> #[trigger] one_color(bgra, w, row, col))
            ==> (forall|i: int|
            0 <= i < w * h + 2 * quarter_size(w, h) ==> #[trigger] direct[i] == stepped[i]),
{
    let size = w * h;
    let quarter = quarter_size(w, h);
    lemma_quarter_size(w, h);
    assert forall|i: int| 0 <= i < size implies #[trigger] direct[i] == stepped[i] by {
        assert(y444[i] == stepped[i]);
    }
    if forall|row: int, col: int|
        0 <= row < h / 2 && 0 <= col < w / 2 ==> #[trigger] one_color(bgra, w, row, col) {
        assert forall|k: int| 0 <= k < quarter implies {
            &&& #[trigger] direct[size + k] == stepped[size + k]
            &&& direct[size + quarter + k] == stepped[size + quarter + k]
        } by {
            let half = w / 2;
            assert(half > 0) by (nonlinear_arith)
                requires
                    0 < half * (h / 2),
                    half >= 0,
            ;
            lemma_split_index(k, half, h / 2);
            assert(one_color(bgra, w, k / half, k % half));
            lemma_block_agrees(bgra, w, h, y444, u444, v444, k / half, k % half);
        }
        assert forall|i: int| 0 <= i < size + 2 * quarter implies #[trigger] direct[i] == stepped[i] by {
            if i >= size + quarter {
                let k = i - size - quarter;
                assert(direct[size + k] == stepped[size + k]);
            } else if i >= size {
                assert(direct[size + (i - size)] == stepped[size + (i - size)]);
            }
        }
    }
}

/// The colour of a block of one colour is the average of its samples.
#[verifier::spinoff_prover]
#[verifier::rlimit(40)]
proof fn lemma_block_agrees(
    bgra: Seq<u8>,
    w: int,
    h: int,
    y444: Seq<u8>,
    u444: Seq<u8>,
    v444: Seq<u8>,
    row: int,
    col: int,
)
    requires
        0 <= row < h / 2,
        0 <= col < w / 2,
        full_planes(y444, u444, v444, bgra, w * h),
        one_color(bgra, w, row, col),
    ensures
        ({
            let b = block_average(bgra, w, row, col, 0);
            let g = block_average(bgra, w, row, col, 1);
            let r = block_average(bgra, w, row, col, 2);
            &&& chroma_u(r, g, b) == plane_average(u444, w, row, col)
            &&& chroma_v(r, g, b) == plane_average(v444, w, row, col)
        }),
{
    lemma_block_index(row, col, w, h);
    let i = 2 * row * w + 2 * col;
    assert(channel(bgra, i + 1, 0) == channel(bgra, i, 0));
    assert(channel(bgra, i + 1, 1) == channel(bgra, i, 1));
    assert(channel(bgra, i + 1, 2) == channel(bgra, i, 2));
    lemma_same_samples(bgra, y444, u444, v444, w * h, i, i + 1);
    lemma_same_samples(bgra, y444, u444, v444, w * h, i, i + w);
    lemma_same_samples(bgra, y444, u444, v444, w * h, i, i + w + 1);
    lemma_equal_average(u444, i, w);
    lemma_equal_average(v444, i, w);
    lemma_equal_channel(bgra, i, w, 0);
    lemma_equal_channel(bgra, i, w, 1);
    lemma_equal_channel(bgra, i, w, 2);
    assert(block_average(bgra, w, row, col, 0) == channel(bgra, i, 0));
    assert(block_average(bgra, w, row, col, 1) == channel(bgra, i, 1));
    assert(block_average(bgra, w, row, col, 2) == channel(bgra, i, 2));
    assert(plane_average(u444, w, row, col) == u444[i]);
    assert(plane_average(v444, w, row, col) == v444[i]);
}

/// The average of four equal samples is one of them.
proof fn lemma_equal_average(plane: Seq<u8>, i: int, w: int)
    requires
        plane[i + 1] == plane[i],
        plane[i + w] == plane[i],
        plane[i + w + 1] == plane[i],
    ensures
        ((plane[i] + plane[i + 1] + plane[i + w] + plane[i + w + 1]) / 4) as u8 == plane[i],
{
}

/// The average of a channel over four equal pixels is that of one of them.
proof fn lemma_equal_channel(bgra: Seq<u8>, i: int, w: int, c: int)
    requires
        channel(bgra, i + 1, c) == channel(bgra, i, c),
        channel(bgra, i + w, c) == channel(bgra, i, c),
        channel(bgra, i + w + 1, c) == channel(bgra, i, c),
    ensures
        (channel(bgra, i, c) + channel(bgra, i + 1, c) + channel(bgra, i + w, c) + channel(
            bgra,
            i + w + 1,
            c,
        )) / 4 == channel(bgra, i, c),
{
}

/// Pixels of one colour have the same samples.
proof fn lemma_same_samples(
    bgra: Seq<u8>,
    y444: Seq<u8>,
    u444: Seq<u8>,
    v444: Seq<u8>,
    count: int,
    i: int,
    j: int,
)
    requires
        0 <= i < count,
        0 <= j < count,
        full_planes(y444, u444, v444, bgra, count),
        channel(bgra, j, 0) == channel(bgra, i, 0),
        channel(bgra, j, 1) == channel(bgra, i, 1),
        channel(bgra, j, 2) == channel(bgra, i, 2),
    ensures
        u444[i] == chroma_u(channel(bgra, i, 2), channel(bgra, i, 1), channel(bgra, i, 0)),
        v444[i] == chroma_v(channel(bgra, i, 2), channel(bgra, i, 1), channel(bgra, i, 0)),
        u444[j] == u444[i],
        v444[j] == v444[i],
{
    assert(y444[i] == y444[j]);
}

} // verus!
