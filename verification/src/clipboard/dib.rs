//! Device-independent bitmaps, as clipboards of RDP clients hold pictures.

use crate::encode::planes::{lemma_grid_index, lemma_row_col};
use crate::session::pointer::source_channel;
use crate::wire::{
    get16, get32, le16, le32, lemma_le16_reads_back, lemma_le32_reads_back, push_u16, push_u32,
    read_u16, read_u32,
};
use vstd::prelude::*;

verus! {

/// Size of the header that is written.
pub const HEADER_BYTES: u32 = 40;

/// Why a bitmap cannot be read.
#[derive(Debug, Clone, Copy, PartialEq, Eq, Structural)]
pub enum DibError {
    /// The header is not there in full.
    TooShort,
    /// A pixel has neither 24 nor 32 bits.
    Depth { bits: u16 },
    /// The picture does not fit in memory.
    TooLarge,
}

/// A picture: four bytes a pixel, red first, row by row from the top.
#[derive(Debug)]
pub struct Picture {
    pub width: u32,
    pub height: u32,
    pub pixels: Vec<u8>,
}

/// The header of a bitmap with 32 bits a pixel.
pub open spec fn dib_header(w: int, h: int) -> Seq<u8> {
    le32(HEADER_BYTES as int) + le32(w) + le32(h) + le16(1) + le16(32) + le32(0) + le32(
        4 * (w * h),
    ) + le32(0) + le32(0) + le32(0) + le32(0)
}

/// The pixels of a bitmap: blue first, row by row from the bottom.
pub open spec fn dib_pixels(w: int, h: int, pixels: Seq<u8>) -> Seq<u8> {
    Seq::new(
        (4 * (w * h)) as nat,
        |i: int|
            pixels[4 * ((h - 1 - (i / 4) / w) * w + (i / 4) % w) + source_channel(i % 4)],
    )
}

/// A picture as a bitmap.
pub open spec fn dib_of(w: int, h: int, pixels: Seq<u8>) -> Seq<u8> {
    dib_header(w, h) + dib_pixels(w, h, pixels)
}

/// A picture can be written as a bitmap.
pub open spec fn dib_fits(w: int, h: int, pixels: Seq<u8>) -> bool {
    &&& 4 * w <= u32::MAX
    &&& HEADER_BYTES + 4 * (w * h) <= usize::MAX
    &&& 4 * (w * h) <= pixels.len()
}

/// Whether a picture can be written as a bitmap.
pub fn can_make_dib(w: u32, h: u32, pixels: &[u8]) -> (r: bool)
    ensures
        r == dib_fits(w as int, h as int, pixels@),
{
    assert(0 <= w * h <= 0xffff_ffff * 0xffff_ffff) by (nonlinear_arith)
        requires
            0 <= w <= 0xffff_ffff,
            0 <= h <= 0xffff_ffff,
    ;
    let size: u128 = 4 * (w as u128 * h as u128);
    w <= u32::MAX / 4 && HEADER_BYTES as u128 + size <= usize::MAX as u128 && size
        <= pixels.len() as u128
}

/// Low 32 bits of a number.
fn low_bits(n: u64) -> (r: u32)
    ensures
        le32(r as int) == le32(n as int),
{
    let r: u32 = (n % 0x1_0000_0000) as u32;
    proof {
        let q = n as int / 0x1_0000_0000;
        let m = n as int;
        let k = r as int;
        assert(m == 0x1_0000_0000 * q + k);
        assert(m % 256 == k % 256);
        assert(m / 0x100 == 0x100_0000 * q + k / 0x100);
        assert((0x100_0000 * q + k / 0x100) % 256 == k / 0x100 % 256);
        assert(m / 0x1_0000 == 0x1_0000 * q + k / 0x1_0000);
        assert((0x1_0000 * q + k / 0x1_0000) % 256 == k / 0x1_0000 % 256);
        assert(m / 0x100_0000 == 0x100 * q + k / 0x100_0000);
        assert((0x100 * q + k / 0x100_0000) % 256 == k / 0x100_0000 % 256);
        assert(le32(k) =~= le32(m));
    }
    r
}

/// Writes a picture as a bitmap.
pub fn make_dib(w: u32, h: u32, pixels: &[u8]) -> (r: Vec<u8>)
    requires
        dib_fits(w as int, h as int, pixels@),
    ensures
        r@ == dib_of(w as int, h as int, pixels@),
{
    let mut r: Vec<u8> = Vec::new();
    push_u32(&mut r, HEADER_BYTES);
    push_u32(&mut r, w);
    push_u32(&mut r, h);
    push_u16(&mut r, 1);
    push_u16(&mut r, 32);
    push_u32(&mut r, 0);
    assert(0 <= w * h) by (nonlinear_arith)
        requires
            0 <= w,
            0 <= h,
    ;
    let size: u64 = 4 * (w as u64 * h as u64);
    push_u32(&mut r, low_bits(size));
    push_u32(&mut r, 0);
    push_u32(&mut r, 0);
    push_u32(&mut r, 0);
    push_u32(&mut r, 0);
    assert(r@ =~= dib_header(w as int, h as int));
    let ghost header = r@;
    let ghost body = dib_pixels(w as int, h as int, pixels@);
    let mut row: u32 = 0;
    assert(4 * (0 * w as int) == 0);
    while row < h
        invariant
            dib_fits(w as int, h as int, pixels@),
            body == dib_pixels(w as int, h as int, pixels@),
            row <= h,
            r@.len() == header.len() + 4 * (row * w),
            header.len() == HEADER_BYTES,
            forall|i: int| 0 <= i < header.len() ==> r@[i] == header[i],
            forall|i: int|
                0 <= i < r@.len() - header.len() ==> #[trigger] body[i] == r@[header.len() + i],
        decreases h - row,
    {
        let y: u32 = h - 1 - row;
        let mut x: u32 = 0;
        while x < w
            invariant
                dib_fits(w as int, h as int, pixels@),
                body == dib_pixels(w as int, h as int, pixels@),
                row < h,
                y == h - 1 - row,
                x <= w,
                r@.len() == header.len() + 4 * (row * w + x),
                header.len() == HEADER_BYTES,
                forall|i: int| 0 <= i < header.len() ==> r@[i] == header[i],
                forall|i: int|
                    0 <= i < r@.len() - header.len() ==> #[trigger] body[i] == r@[header.len() + i],
            decreases w - x,
        {
            let ghost q = row * w + x;
            let ghost before = r@;
            proof {
                lemma_grid_index(y as int, x as int, w as int, h as int);
                lemma_grid_index(row as int, x as int, w as int, h as int);
                lemma_row_col(q, row as int, x as int, w as int);
                assert(0 <= y * w) by (nonlinear_arith)
                    requires
                        0 <= y,
                ;
                assert forall|c: int| 0 <= c < 4 implies #[trigger] body[4 * q + c] == pixels@[4 * (
                y * w + x) + source_channel(c)] by {
                    assert((4 * q + c) / 4 == q && (4 * q + c) % 4 == c);
                }
            }
            let at: usize = 4 * (y as usize * w as usize + x as usize);
            r.push(pixels[at + 2]);
            r.push(pixels[at + 1]);
            r.push(pixels[at]);
            r.push(pixels[at + 3]);
            proof {
                assert forall|i: int| 0 <= i < r@.len() - header.len() implies #[trigger] body[i]
                    == r@[header.len() + i] by {
                    if i >= before.len() - header.len() {
                        let c = i - 4 * q;
                        assert(body[4 * q + c] == pixels@[4 * (y * w + x) + source_channel(c)]);
                    } else {
                        assert(r@[header.len() + i] == before[header.len() + i]);
                    }
                }
            }
            x = x + 1;
        }
        assert((row + 1) * w == row * w + w) by (nonlinear_arith);
        row = row + 1;
    }
    proof {
        assert(h * w == w * h) by (nonlinear_arith);
        assert(r@ =~= dib_of(w as int, h as int, pixels@));
    }
    r
}

/// Height that a bitmap's header tells, without its sign.
pub open spec fn height_of(bits: int) -> int {
    if bits < 0x8000_0000 {
        bits
    } else {
        0x1_0000_0000 - bits
    }
}

/// Bytes of a row of a bitmap: a multiple of four.
pub open spec fn row_bytes(w: int, pixel_bytes: int) -> int {
    (w * pixel_bytes + 3) / 4 * 4
}

/// Where a pixel of a bitmap starts, behind the header.
pub open spec fn pixel_start(
    w: int,
    h: int,
    bottom_up: bool,
    pixel_bytes: int,
    x: int,
    y: int,
) -> int {
    (if bottom_up {
        h - 1 - y
    } else {
        y
    }) * row_bytes(w, pixel_bytes) + x * pixel_bytes
}

/// Byte `c` of a pixel of a bitmap: red first; what the bitmap does not hold is transparent, and
/// what has no transparency of its own is opaque.
pub open spec fn dib_channel(body: Seq<u8>, start: int, pixel_bytes: int, c: int) -> u8 {
    if start + pixel_bytes > body.len() {
        0
    } else if c == 3 && pixel_bytes == 3 {
        255
    } else {
        body[start + source_channel(c)]
    }
}

/// The picture of a bitmap.
pub open spec fn picture_pixels(
    body: Seq<u8>,
    w: int,
    h: int,
    bottom_up: bool,
    pixel_bytes: int,
) -> Seq<u8> {
    Seq::new(
        (4 * (w * h)) as nat,
        |i: int|
            dib_channel(
                body,
                pixel_start(w, h, bottom_up, pixel_bytes, (i / 4) % w, (i / 4) / w),
                pixel_bytes,
                i % 4,
            ),
    )
}

/// What reading a bitmap gives: width, height and pixels, or why it cannot be read.
pub open spec fn picture_of(dib: Seq<u8>) -> Result<(u32, u32, Seq<u8>), DibError> {
    let header = get32(dib, 0);
    let w = get32(dib, 4);
    let h = height_of(get32(dib, 8));
    let bottom_up = 0 < get32(dib, 8) < 0x8000_0000;
    let bits = get16(dib, 14);
    if dib.len() < HEADER_BYTES {
        Err(DibError::TooShort)
    } else if bits != 32 && bits != 24 {
        Err(DibError::Depth { bits: bits as u16 })
    } else if header > dib.len() {
        Err(DibError::TooShort)
    } else if 4 * (w * h) > usize::MAX {
        Err(DibError::TooLarge)
    } else {
        Ok((w as u32, h as u32, picture_pixels(dib.skip(header), w, h, bottom_up, bits / 8)))
    }
}

/// What a picture means.
pub open spec fn picture_view(r: Result<Picture, DibError>) -> Result<
    (u32, u32, Seq<u8>),
    DibError,
> {
    match r {
        Ok(p) => Ok((p.width, p.height, p.pixels@)),
        Err(e) => Err(e),
    }
}

/// Reads a bitmap.
pub fn read_dib(dib: &[u8]) -> (r: Result<Picture, DibError>)
    ensures
        picture_view(r) == picture_of(dib@),
{
    if dib.len() < HEADER_BYTES as usize {
        return Err(DibError::TooShort);
    }
    let header: u32 = read_u32(dib, 0);
    let w: u32 = read_u32(dib, 4);
    let raw: u32 = read_u32(dib, 8);
    let bottom_up = 0 < raw && raw < 0x8000_0000;
    let h: u32 = if raw < 0x8000_0000 {
        raw
    } else {
        (0x1_0000_0000 - raw as u64) as u32
    };
    let bits: u16 = read_u16(dib, 14);
    if bits != 32 && bits != 24 {
        return Err(DibError::Depth { bits });
    }
    if header as u64 > dib.len() as u64 {
        return Err(DibError::TooShort);
    }
    assert(0 <= w * h <= 0xffff_ffff * 0xffff_ffff) by (nonlinear_arith)
        requires
            0 <= w <= 0xffff_ffff,
            0 <= h <= 0xffff_ffff,
    ;
    if 4 * (w as u128 * h as u128) > usize::MAX as u128 {
        return Err(DibError::TooLarge);
    }
    let off: usize = header as usize;
    let pb: u128 = (bits / 8) as u128;
    let ghost body = dib@.skip(header as int);
    let ghost pixels = picture_pixels(body, w as int, h as int, bottom_up, bits as int / 8);
    let rest: u128 = (dib.len() - off) as u128;
    assert(0 <= w * pb <= 0xffff_ffff * 4) by (nonlinear_arith)
        requires
            0 <= w <= 0xffff_ffff,
            0 <= pb <= 4,
    ;
    let row: u128 = (w as u128 * pb + 3) / 4 * 4;
    assert(row == row_bytes(w as int, pb as int));
    let mut r: Vec<u8> = Vec::new();
    let mut y: u32 = 0;
    assert(4 * (0 * w as int) == 0);
    while y < h
        invariant
            off <= dib@.len(),
            off == header,
            body == dib@.skip(off as int),
            pb == bits as int / 8,
            pb == 3 || pb == 4,
            rest == body.len(),
            row == row_bytes(w as int, pb as int),
            0 <= row <= 0x5_0000_0000,
            4 * (w * h) <= usize::MAX,
            pixels == picture_pixels(body, w as int, h as int, bottom_up, pb as int),
            y <= h,
            r@.len() == 4 * (y * w),
            forall|i: int| 0 <= i < r@.len() ==> r@[i] == #[trigger] pixels[i],
        decreases h - y,
    {
        let source: u32 = if bottom_up {
            h - 1 - y
        } else {
            y
        };
        assert(0 <= source * row <= 0xffff_ffff * 0x5_0000_0000) by (nonlinear_arith)
            requires
                0 <= source <= 0xffff_ffff,
                0 <= row <= 0x5_0000_0000,
        ;
        let mut x: u32 = 0;
        while x < w
            invariant
                off <= dib@.len(),
                body == dib@.skip(off as int),
                pb == 3 || pb == 4,
                rest == body.len(),
                row == row_bytes(w as int, pb as int),
                0 <= source * row <= 0xffff_ffff * 0x5_0000_0000,
                source == (if bottom_up {
                    h - 1 - y
                } else {
                    y as int
                }),
                4 * (w * h) <= usize::MAX,
                pixels == picture_pixels(body, w as int, h as int, bottom_up, pb as int),
                y < h,
                x <= w,
                r@.len() == 4 * (y * w + x),
                forall|i: int| 0 <= i < r@.len() ==> r@[i] == #[trigger] pixels[i],
            decreases w - x,
        {
            assert(0 <= x * pb <= 0xffff_ffff * 4) by (nonlinear_arith)
                requires
                    0 <= x <= 0xffff_ffff,
                    0 <= pb <= 4,
            ;
            let start: u128 = source as u128 * row + x as u128 * pb;
            let ghost q = y * w + x;
            let ghost before = r@;
            proof {
                lemma_grid_index(y as int, x as int, w as int, h as int);
                lemma_row_col(q, y as int, x as int, w as int);
                assert(start == pixel_start(
                    w as int,
                    h as int,
                    bottom_up,
                    pb as int,
                    x as int,
                    y as int,
                ));
                assert forall|c: int| 0 <= c < 4 implies #[trigger] pixels[4 * q + c]
                    == dib_channel(body, start as int, pb as int, c) by {
                    assert((4 * q + c) / 4 == q && (4 * q + c) % 4 == c);
                }
            }
            if start + pb > rest {
                r.push(0);
                r.push(0);
                r.push(0);
                r.push(0);
            } else {
                assert(dib@.len() == dib.len());
                let at: usize = off + start as usize;
                r.push(dib[at + 2]);
                r.push(dib[at + 1]);
                r.push(dib[at]);
                if pb == 4 {
                    r.push(dib[at + 3]);
                } else {
                    r.push(255);
                }
            }
            proof {
                assert forall|i: int| 0 <= i < r@.len() implies r@[i] == #[trigger] pixels[i] by {
                    if i >= before.len() {
                        let c = i - 4 * q;
                        assert(pixels[4 * q + c] == dib_channel(
                            body,
                            start as int,
                            pb as int,
                            c,
                        ));
                    } else {
                        assert(r@[i] == before[i]);
                    }
                }
            }
            x = x + 1;
        }
        assert((y + 1) * w == y * w + w) by (nonlinear_arith);
        y = y + 1;
    }
    proof {
        assert(h * w == w * h) by (nonlinear_arith);
        assert(r@ =~= pixels);
    }
    Ok(Picture { width: w, height: h, pixels: r })
}

/// What the header of a written bitmap tells.
proof fn lemma_dib_header(w: int, h: int, pixels: Seq<u8>)
    requires
        0 < w <= u32::MAX,
        0 < h < 0x8000_0000,
    ensures
        ({
            let dib = dib_of(w, h, pixels);
            &&& dib_header(w, h).len() == HEADER_BYTES
            &&& get32(dib, 0) == HEADER_BYTES
            &&& get32(dib, 4) == w
            &&& get32(dib, 8) == h
            &&& get16(dib, 14) == 32
        }),
{
    let dib = dib_of(w, h, pixels);
    let a = le32(HEADER_BYTES as int) + le32(w) + le32(h);
    let b = a + le16(1) + le16(32);
    assert(dib.take(12) =~= a);
    assert(dib.take(16) =~= b);
    lemma_le32_reads_back(HEADER_BYTES as int);
    lemma_le32_reads_back(w);
    lemma_le32_reads_back(h);
    lemma_le16_reads_back(32);
    assert(forall|i: int| 0 <= i < 12 ==> dib[i] == #[trigger] a[i]);
    assert(forall|i: int| 0 <= i < 16 ==> dib[i] == #[trigger] b[i]);
    assert(a[0] == le32(HEADER_BYTES as int)[0] && a[1] == le32(HEADER_BYTES as int)[1] && a[2]
        == le32(HEADER_BYTES as int)[2] && a[3] == le32(HEADER_BYTES as int)[3]);
    assert(a[4] == le32(w)[0] && a[5] == le32(w)[1] && a[6] == le32(w)[2] && a[7] == le32(w)[3]);
    assert(a[8] == le32(h)[0] && a[9] == le32(h)[1] && a[10] == le32(h)[2] && a[11] == le32(h)[3]);
    assert(b[14] == le16(32)[0] && b[15] == le16(32)[1]);
}

/// A byte of a written bitmap's picture.
proof fn lemma_dib_pixel(w: int, h: int, pixels: Seq<u8>, i: int)
    requires
        0 < w,
        0 < h,
        pixels.len() == 4 * (w * h),
        0 <= i < pixels.len(),
    ensures
        picture_pixels(dib_pixels(w, h, pixels), w, h, true, 4)[i] == pixels[i],
{
    let body = dib_pixels(w, h, pixels);
    assert(row_bytes(w, 4) == 4 * w);
    let q = i / 4;
    let c = i % 4;
    let x = q % w;
    let y = q / w;
    vstd::arithmetic::div_mod::lemma_fundamental_div_mod(q, w);
    vstd::arithmetic::div_mod::lemma_mod_bound(q, w);
    assert(w * y == y * w) by (nonlinear_arith);
    assert(0 <= y < h) by (nonlinear_arith)
        requires
            q == y * w + x,
            0 <= x < w,
            0 <= q < w * h,
    ;
    let up = h - 1 - y;
    let p = up * w + x;
    lemma_grid_index(up, x, w, h);
    lemma_row_col(p, up, x, w);
    let start = pixel_start(w, h, true, 4, x, y);
    assert(start == 4 * p) by (nonlinear_arith)
        requires
            start == up * (4 * w) + x * 4,
            p == up * w + x,
    ;
    let k = start + source_channel(c);
    assert(k / 4 == p && k % 4 == source_channel(c));
    assert(source_channel(source_channel(c)) == c);
    assert(body[k] == pixels[4 * ((h - 1 - up) * w + x) + source_channel(source_channel(c))]);
}

/// A picture that is written as a bitmap reads back as itself.
pub proof fn lemma_dib_reads_back(w: int, h: int, pixels: Seq<u8>)
    requires
        0 < w,
        0 < h < 0x8000_0000,
        dib_fits(w, h, pixels),
        pixels.len() == 4 * (w * h),
    ensures
        picture_of(dib_of(w, h, pixels)) == Ok::<(u32, u32, Seq<u8>), DibError>(
            (w as u32, h as u32, pixels),
        ),
{
    let dib = dib_of(w, h, pixels);
    lemma_dib_header(w, h, pixels);
    assert(0 <= w * h) by (nonlinear_arith)
        requires
            0 < w,
            0 < h,
    ;
    let body = dib.skip(HEADER_BYTES as int);
    assert(body =~= dib_pixels(w, h, pixels));
    let read = picture_pixels(body, w, h, true, 4);
    assert forall|i: int| 0 <= i < pixels.len() implies read[i] == pixels[i] by {
        lemma_dib_pixel(w, h, pixels, i);
    }
    assert(read =~= pixels);
}

} // verus!
