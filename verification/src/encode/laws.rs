//! What colour conversion does to a picture, said of the bytes of its pixels.

use crate::encode::nal::{has_idr_nal, idr_at};
use crate::encode::planes::{
    bgra_to_i420, bgra_to_yuv444, block_average, channel, chroma_u, chroma_v, divides_evenly,
    lemma_grid_index, lemma_packed_sample, lemma_row_col, luma, pack_avc444v2_chroma,
    plane_average, quarter_size, yuv444_to_i420, ColorSample,
};
use vstd::prelude::*;

verus! {

/// `y` is the brightness of a colour, in whole steps: green counts for more than red, and red for more
/// than blue.
pub open spec fn is_brightness(y: u8, blue: int, green: int, red: int) -> bool {
    -128 <= 256 * (y - 16) - (66 * red + 129 * green + 25 * blue) <= 128
}

/// `u` is the blue difference of a colour, in whole steps: it rises with blue and falls with the others.
pub open spec fn is_blue_difference(u: u8, blue: int, green: int, red: int) -> bool {
    -128 <= 256 * (u - 128) - (112 * blue - 74 * green - 38 * red) <= 128
}

/// `v` is the red difference of a colour, in whole steps: it rises with red and falls with the others.
pub open spec fn is_red_difference(v: u8, blue: int, green: int, red: int) -> bool {
    -128 <= 256 * (v - 128) - (112 * red - 94 * green - 18 * blue) <= 128
}

/// The conversion of a colour is the brightness and the two differences of it.
proof fn lemma_conversion(r: int, g: int, b: int)
    requires
        0 <= r <= 255,
        0 <= g <= 255,
        0 <= b <= 255,
    ensures
        is_brightness(luma(r, g, b), b, g, r),
        is_blue_difference(chroma_u(r, g, b), b, g, r),
        is_red_difference(chroma_v(r, g, b), b, g, r),
{
}

/// Full planes hold, for each pixel, the brightness and the two differences of its colour. Of a pixel's
/// four bytes the first is blue, the second green and the third red.
pub proof fn lemma_full_planes_hold_the_colors(
    bgra: &[u8],
    width: u32,
    height: u32,
    y444: &mut [u8],
    u444: &mut [u8],
    v444: &mut [u8],
    i: int,
)
    requires
        bgra@.len() >= 4 * (width * height),
        call_ensures(bgra_to_yuv444, (bgra, width, height, y444, u444, v444), ()),
        0 <= i < width * height,
    ensures
        ({
            let blue = bgra@[4 * i] as int;
            let green = bgra@[4 * i + 1] as int;
            let red = bgra@[4 * i + 2] as int;
            &&& is_brightness(final(y444)@[i], blue, green, red)
            &&& is_blue_difference(final(u444)@[i], blue, green, red)
            &&& is_red_difference(final(v444)@[i], blue, green, red)
        }),
{
    lemma_conversion(channel(bgra@, i, 2), channel(bgra@, i, 1), channel(bgra@, i, 0));
    assert(final(y444)@[i] == luma(
        channel(bgra@, i, 2),
        channel(bgra@, i, 1),
        channel(bgra@, i, 0),
    ));
}

/// An I420 picture starts with the brightness of each pixel, row by row.
pub proof fn lemma_i420_holds_the_brightness(
    bgra: &[u8],
    width: u32,
    height: u32,
    yuv: &mut [u8],
    i: int,
)
    requires
        bgra@.len() >= 4 * (width * height),
        call_ensures(bgra_to_i420, (bgra, width, height, yuv), ()),
        0 <= i < width * height,
    ensures
        is_brightness(
            final(yuv)@[i],
            bgra@[4 * i] as int,
            bgra@[4 * i + 1] as int,
            bgra@[4 * i + 2] as int,
        ),
{
    lemma_conversion(channel(bgra@, i, 2), channel(bgra@, i, 1), channel(bgra@, i, 0));
}

/// The sum of a byte over the 2x2 pixels whose upper left one is at a row and a column.
pub open spec fn block_sum(bgra: Seq<u8>, width: int, row: int, col: int, byte: int) -> int {
    bgra[4 * (row * width + col) + byte] + bgra[4 * (row * width + col + 1) + byte] + bgra[4 * ((row
        + 1) * width + col) + byte] + bgra[4 * ((row + 1) * width + col + 1) + byte]
}

/// Behind the brightness, an I420 picture holds the blue differences of the 2x2 blocks, row by row, and
/// then their red differences, each of the average colour of the block.
pub proof fn lemma_i420_holds_the_differences(
    bgra: &[u8],
    width: u32,
    height: u32,
    yuv: &mut [u8],
    row: int,
    col: int,
)
    requires
        bgra@.len() >= 4 * (width * height),
        call_ensures(bgra_to_i420, (bgra, width, height, yuv), ()),
        0 <= row < height as int / 2,
        0 <= col < width as int / 2,
    ensures
        ({
            let w = width as int;
            let blue = block_sum(bgra@, w, 2 * row, 2 * col, 0) / 4;
            let green = block_sum(bgra@, w, 2 * row, 2 * col, 1) / 4;
            let red = block_sum(bgra@, w, 2 * row, 2 * col, 2) / 4;
            let k = row * (w / 2) + col;
            let plane = (w / 2) * (height as int / 2);
            &&& is_blue_difference(final(yuv)@[width * height + k], blue, green, red)
            &&& is_red_difference(final(yuv)@[width * height + plane + k], blue, green, red)
        }),
{
    let w = width as int;
    let h = height as int;
    let k = row * (w / 2) + col;
    lemma_grid_index(row, col, w / 2, h / 2);
    lemma_row_col(k, row, col, w / 2);
    let b = block_average(bgra@, w, row, col, 0);
    let g = block_average(bgra@, w, row, col, 1);
    let r = block_average(bgra@, w, row, col, 2);
    assert((2 * row + 1) * w == 2 * row * w + w) by (nonlinear_arith);
    assert(b == block_sum(bgra@, w, 2 * row, 2 * col, 0) / 4);
    assert(g == block_sum(bgra@, w, 2 * row, 2 * col, 1) / 4);
    assert(r == block_sum(bgra@, w, 2 * row, 2 * col, 2) / 4);
    lemma_conversion(r, g, b);
    assert(quarter_size(w, h) == (w / 2) * (h / 2));
    assert(final(yuv)@[w * h + k] == chroma_u(r, g, b));
    assert(final(yuv)@[w * h + quarter_size(w, h) + k] == chroma_v(r, g, b));
}

/// The sum of a plane's samples over 2x2 pixels whose upper left one is at a row and a column.
pub open spec fn sample_sum(plane: Seq<u8>, width: int, row: int, col: int) -> int {
    plane[row * width + col] + plane[row * width + col + 1] + plane[(row + 1) * width + col]
        + plane[(row + 1) * width + col + 1]
}

/// Full planes become an I420 picture by copying the brightness and averaging the differences over the
/// 2x2 blocks: first the blue ones, then the red ones.
pub proof fn lemma_full_planes_are_averaged(
    y444: &[u8],
    u444: &[u8],
    v444: &[u8],
    width: u32,
    height: u32,
    i420: &mut [u8],
    row: int,
    col: int,
)
    requires
        y444@.len() >= width * height,
        u444@.len() >= width * height,
        v444@.len() >= width * height,
        call_ensures(yuv444_to_i420, (y444, u444, v444, width, height, i420), ()),
    ensures
        0 <= row < height && 0 <= col < width ==> final(i420)@[row * width + col] == y444@[row * width
            + col],
        0 <= row < height as int / 2 && 0 <= col < width as int / 2 ==> {
            let w = width as int;
            let k = row * (w / 2) + col;
            let plane = (w / 2) * (height as int / 2);
            let u = final(i420)@[width * height + k] as int;
            let v = final(i420)@[width * height + plane + k] as int;
            &&& 4 * u <= sample_sum(u444@, w, 2 * row, 2 * col) < 4 * u + 4
            &&& 4 * v <= sample_sum(v444@, w, 2 * row, 2 * col) < 4 * v + 4
        },
{
    let w = width as int;
    let h = height as int;
    if 0 <= row < h && 0 <= col < w {
        lemma_grid_index(row, col, w, h);
        assert(final(i420)@[row * w + col] == y444@[row * w + col]);
    }
    if 0 <= row < h / 2 && 0 <= col < w / 2 {
        let k = row * (w / 2) + col;
        lemma_grid_index(row, col, w / 2, h / 2);
        lemma_row_col(k, row, col, w / 2);
        assert((2 * row + 1) * w == 2 * row * w + w) by (nonlinear_arith);
        assert(quarter_size(w, h) == (w / 2) * (h / 2));
        assert(final(i420)@[w * h + k] == plane_average(u444@, w, row, col));
        assert(final(i420)@[w * h + quarter_size(w, h) + k] == plane_average(v444@, w, row, col));
    }
}

/// The chroma stream of two full planes holds each sample of an odd column or an odd row at its place.
pub proof fn lemma_chroma_stream_holds_the_samples(
    u444: &[u8],
    v444: &[u8],
    width: u32,
    height: u32,
    out: &mut [u8],
    row: int,
    col: int,
)
    requires
        divides_evenly(width as int, height as int),
        u444@.len() == width * height,
        v444@.len() == width * height,
        call_ensures(pack_avc444v2_chroma, (u444, v444, width, height, out), ()),
        0 <= row < height,
        0 <= col < width,
    ensures
        ({
            let w = width as int;
            let size = width * height;
            let quarter = (w / 2) * (height as int / 2);
            let i = row * w + col;
            &&& col % 2 == 1 ==> {
                &&& final(out)@[row * w + col / 2] == u444@[i]
                &&& final(out)@[row * w + w / 2 + col / 2] == v444@[i]
            }
            &&& row % 2 == 1 && col % 4 == 0 ==> {
                &&& final(out)@[size + (row / 2) * (w / 2) + col / 4] == u444@[i]
                &&& final(out)@[size + (row / 2) * (w / 2) + w / 4 + col / 4] == v444@[i]
            }
            &&& row % 2 == 1 && col % 4 == 2 ==> {
                &&& final(out)@[size + quarter + (row / 2) * (w / 2) + col / 4] == u444@[i]
                &&& final(out)@[size + quarter + (row / 2) * (w / 2) + w / 4 + col / 4] == v444@[i]
            }
        }),
{
    let w = width as int;
    let h = height as int;
    if col % 2 == 1 || row % 2 == 1 {
        let u = ColorSample { of_v: false, row, col };
        let v = ColorSample { of_v: true, row, col };
        let (after, before) = (final(out)@, old(out)@);
        lemma_packed_sample(after, before, u444@, v444@, w, h, u);
        lemma_packed_sample(after, before, u444@, v444@, w, h, v);
        assert(w / 2 / 2 == w / 4);
        assert(quarter_size(w, h) == (w / 2) * (h / 2));
    }
}

/// A bitstream holds a keyframe exactly if a unit of type five stands behind a start code of two zeros
/// and a one, wherever that is.
pub proof fn lemma_keyframes_are_units_of_type_five(
    data: &[u8],
    found: bool,
    before: Seq<u8>,
    unit: u8,
    after: Seq<u8>,
)
    requires
        call_ensures(has_idr_nal, (data,), found),
    ensures
        data@ == before + seq![0u8, 0u8, 1u8, unit] + after && unit % 32 == 5 ==> found,
        found ==> exists|i: int|
            {
                &&& 0 <= i
                &&& i + 3 < data@.len()
                &&& #[trigger] data@[i] == 0
                &&& data@[i + 1] == 0
                &&& data@[i + 2] == 1
                &&& data@[i + 3] % 32 == 5
            },
{
    if data@ == before + seq![0u8, 0u8, 1u8, unit] + after && unit % 32 == 5 {
        assert((unit & 0x1F) == 5) by (bit_vector)
            requires
                unit % 32 == 5,
        ;
        let i = before.len() as int;
        assert(data@[i] == 0 && data@[i + 1] == 0 && data@[i + 2] == 1 && data@[i + 3] == unit);
        assert(idr_at(data@, i));
    }
    if found {
        let i = choose|i: int| idr_at(data@, i);
        let b = data@[i + 3];
        assert(b % 32 == 5) by (bit_vector)
            requires
                (b & 0x1F) == 5,
        ;
        assert(data@[i] == 0);
    }
}

} // verus!
