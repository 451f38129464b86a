//! Adaptive encoding: an output cut into tiles, each with its own encoder, of which only the
//! damaged ones are encoded.

use crate::encode::ffmpeg::FfmpegEncoderPreference;
use crate::encode::planes::lemma_row_col;
use crate::encode::select::{
    chosen_encoder, create_tile_encoder, software_reached, AnyEncoder, TILE_SOFTWARE_BITRATE_BPS,
};
use crate::encode::software::native_refused;
use crate::encode::{even_up, EncodeError, EncodeResult, Encoder};
use crate::tiling::Rect;
use vstd::prelude::*;

verus! {

/// Result of encoding a single dirty tile.
#[derive(Debug)]
pub struct TileFrame {
    pub x: u16,
    pub y: u16,
    pub width: u16,
    pub height: u16,
    pub data: Vec<u8>,
    pub is_keyframe: bool,
}

/// A single tile in the grid with its own persistent H.264 encoder.
pub struct Tile<H> {
    pub x: u16,
    pub y: u16,
    pub width: u16,
    pub height: u16,
    pub encoder: AnyEncoder<H>,
    pub dirty: bool,
    pub frames_since_keyframe: u32,
}

/// Grid of tiles covering an output, each with an independent H.264 encoder.
/// Only tiles that intersect damage rectangles are encoded each frame.
pub struct TileGrid<H> {
    output_name: String,
    output_width: u16,
    output_height: u16,
    cols: u16,
    rows: u16,
    tiles: Vec<Tile<H>>,
}

/// Why a grid could not be made: the encoder of the tile at this column and row.
#[derive(Debug, Clone, Copy, PartialEq, Eq, Structural)]
pub struct TileError {
    pub col: u16,
    pub row: u16,
    pub error: EncodeError,
}

/// Deltas this small between keyframes hold no picture.
pub const EMPTY_DELTA_BYTES: usize = 50;

/// Frames after which a tile's turn for a keyframe counts.
pub const STAGGER_FRAMES: u32 = 120;

/// Where part `i` of `count` equal parts of `total` starts.
pub open spec fn part_start(total: int, count: int, i: int) -> int {
    i * (total / count)
}

/// Size of part `i` of `count` parts of `total`: the last takes the remaining pixels.
pub open spec fn part_size(total: int, count: int, i: int) -> int {
    if i == count - 1 {
        total - part_start(total, count, i)
    } else {
        total / count
    }
}

/// A grid that can be made: each tile's dimensions can be rounded up to even ones.
pub open spec fn grid_fits(width: u16, height: u16, cols: u16, rows: u16) -> bool {
    &&& cols > 0
    &&& rows > 0
    &&& cols * rows <= u16::MAX
    &&& part_size(width as int, cols as int, cols - 1) < u16::MAX
    &&& part_size(height as int, rows as int, rows - 1) < u16::MAX
}

proof fn lemma_parts(total: int, count: int, i: int)
    requires
        0 <= total,
        0 <= i < count,
    ensures
        0 <= part_start(total, count, i) <= total,
        0 <= part_size(total, count, i),
        part_start(total, count, i) + part_size(total, count, i) <= total,
        part_size(total, count, i) <= part_size(total, count, count - 1),
        i == count - 1 ==> part_start(total, count, i) + part_size(total, count, i) == total,
        i < count - 1 ==> part_start(total, count, i) + part_size(total, count, i) == part_start(
            total,
            count,
            i + 1,
        ),
{
    let base = total / count;
    vstd::arithmetic::div_mod::lemma_fundamental_div_mod(total, count);
    vstd::arithmetic::div_mod::lemma_mod_bound(total, count);
    assert(0 <= base) by (nonlinear_arith)
        requires
            base == total / count,
            0 <= total,
            0 < count,
    ;
    assert(0 <= i * base <= count * base - base) by (nonlinear_arith)
        requires
            0 <= i <= count - 1,
            0 <= base,
    ;
    assert((i + 1) * base == i * base + base) by (nonlinear_arith);
    assert((count - 1) * base == count * base - base) by (nonlinear_arith);
}

/// Every pixel of an extent lies in exactly one of its parts.
pub proof fn lemma_parts_partition(total: int, count: int, p: int)
    requires
        0 <= p < total,
        0 < count,
    ensures
        exists|i: int|
            0 <= i < count && #[trigger] part_start(total, count, i) <= p < part_start(
                total,
                count,
                i,
            ) + part_size(total, count, i),
        forall|i: int, j: int|
            0 <= i < j < count ==> #[trigger] part_start(total, count, i) + part_size(
                total,
                count,
                i,
            ) <= #[trigger] part_start(total, count, j),
{
    assert forall|i: int, j: int| 0 <= i < j < count implies #[trigger] part_start(total, count, i)
        + part_size(total, count, i) <= #[trigger] part_start(total, count, j) by {
        lemma_parts(total, count, i);
        let base = total / count;
        assert(0 <= base) by (nonlinear_arith)
            requires
                base == total / count,
                0 <= total,
                0 < count,
        ;
        assert((i + 1) * base <= j * base) by (nonlinear_arith)
            requires
                i + 1 <= j,
                0 <= base,
        ;
    }
    let i = part_holding(total, count, p, count);
    lemma_part_holding(total, count, p, count);
    assert(part_start(total, count, i) <= p);
}

/// The last of the first `n` parts that starts at or before `p`.
spec fn part_holding(total: int, count: int, p: int, n: int) -> int
    decreases n,
{
    if n <= 1 || part_start(total, count, n - 1) <= p {
        n - 1
    } else {
        part_holding(total, count, p, n - 1)
    }
}

proof fn lemma_part_holding(total: int, count: int, p: int, n: int)
    requires
        0 <= p < total,
        1 <= n <= count,
        n == count || p < part_start(total, count, n),
    ensures
        ({
            let i = part_holding(total, count, p, n);
            0 <= i < count && part_start(total, count, i) <= p < part_start(total, count, i)
                + part_size(total, count, i)
        }),
    decreases n,
{
    lemma_parts(total, count, n - 1);
    assert(part_start(total, count, 0) == 0) by (nonlinear_arith);
    if n > 1 && part_start(total, count, n - 1) > p {
        lemma_part_holding(total, count, p, n - 1);
    }
}

/// Two rectangles, each given by corner and size, share a point.
pub open spec fn overlap(a: Rect, b: Rect) -> bool {
    &&& a.x < b.x + b.width
    &&& a.x + a.width > b.x
    &&& a.y < b.y + b.height
    &&& a.y + a.height > b.y
}

/// Whether two rectangles, each given by corner and size, share a point.
pub fn rects_overlap(
    ax: i32,
    ay: i32,
    aw: i32,
    ah: i32,
    bx: i32,
    by: i32,
    bw: i32,
    bh: i32,
) -> (r: bool)
    ensures
        r == overlap(
            (Rect { x: ax, y: ay, width: aw, height: ah }),
            (Rect { x: bx, y: by, width: bw, height: bh }),
        ),
{
    (ax as i64) < bx as i64 + bw as i64 && ax as i64 + aw as i64 > bx as i64 && (ay as i64) < by
        as i64 + bh as i64 && ay as i64 + ah as i64 > by as i64
}

impl<H> Tile<H> {
    pub open spec fn rect(&self) -> Rect {
        Rect {
            x: self.x as i32,
            y: self.y as i32,
            width: self.width as i32,
            height: self.height as i32,
        }
    }

    /// Everything but the encoder and the marks is as in `other`.
    pub open spec fn same_place(&self, other: Self) -> bool {
        &&& self.x == other.x
        &&& self.y == other.y
        &&& self.width == other.width
        &&& self.height == other.height
    }

    /// Whether the tile intersects one of the damage rectangles.
    fn damaged_by(&self, damage_rects: &[Rect]) -> (r: bool)
        ensures
            r == damaged(self.rect(), damage_rects@),
    {
        let mut i: usize = 0;
        while i < damage_rects.len()
            invariant
                i <= damage_rects@.len(),
                forall|j: int|
                    0 <= j < i ==> !overlap(self.rect(), #[trigger] damage_rects@[j]),
            decreases damage_rects@.len() - i,
        {
            let d: Rect = damage_rects[i];
            if rects_overlap(
                self.x as i32,
                self.y as i32,
                self.width as i32,
                self.height as i32,
                d.x,
                d.y,
                d.width,
                d.height,
            ) {
                assert(overlap(self.rect(), damage_rects@[i as int]));
                return true;
            }
            i = i + 1;
        }
        false
    }
}

/// One of the damage rectangles intersects `rect`.
pub open spec fn damaged(rect: Rect, damage: Seq<Rect>) -> bool {
    exists|i: int| 0 <= i < damage.len() && overlap(rect, #[trigger] damage[i])
}

/// Pixels of a tile, row by row; a row that the framebuffer does not hold in full is black.
pub open spec fn tile_pixels(full: Seq<u8>, output_width: int, rect: Rect) -> Seq<u8> {
    let row_len = 4 * rect.width;
    Seq::new(
        (row_len * rect.height) as nat,
        |i: int|
            {
                let row = i / row_len;
                let start = (rect.y + row) * (4 * output_width) + 4 * rect.x;
                if start + row_len <= full.len() {
                    full[start + i % row_len]
                } else {
                    0u8
                }
            },
    )
}

/// Extracts the pixels of a tile from a framebuffer of `output_width` pixels a row.
pub fn extract_tile(full_bgra: &[u8], output_width: u16, x: u16, y: u16, width: u16, height: u16) -> (r:
    Vec<u8>)
    requires
        4 * (width * height) <= usize::MAX,
        (y + height) * (4 * output_width) + 4 * (x + width) <= usize::MAX,
    ensures
        r@ == tile_pixels(
            full_bgra@,
            output_width as int,
            (Rect { x: x as i32, y: y as i32, width: width as i32, height: height as i32 }),
        ),
{
    let stride: usize = output_width as usize * 4;
    let row_len: usize = width as usize * 4;
    let ghost rect = Rect { x: x as i32, y: y as i32, width: width as i32, height: height as i32 };
    let ghost pixels = tile_pixels(full_bgra@, output_width as int, rect);
    assert(row_len * height == 4 * (width * height)) by (nonlinear_arith)
        requires
            row_len == width * 4,
    ;
    let mut r: Vec<u8> = Vec::with_capacity(row_len * height as usize);
    let mut row: usize = 0;
    while row < height as usize
        invariant
            row <= height,
            stride == 4 * output_width,
            row_len == 4 * width,
            rect == (Rect {
                x: x as i32,
                y: y as i32,
                width: width as i32,
                height: height as i32,
            }),
            (y + height) * (4 * output_width) + 4 * (x + width) <= usize::MAX,
            pixels == tile_pixels(full_bgra@, output_width as int, rect),
            r@.len() == row * row_len,
            row_len * height == pixels.len(),
            forall|i: int| 0 <= i < r@.len() ==> r@[i] == #[trigger] pixels[i],
        decreases height - row,
    {
        proof {
            assert((y + row) * stride <= (y + height) * stride) by (nonlinear_arith)
                requires
                    row <= height,
            ;
            assert((row + 1) * row_len == row * row_len + row_len) by (nonlinear_arith);
            assert((row + 1) * row_len <= row_len * height) by (nonlinear_arith)
                requires
                    row + 1 <= height,
            ;
        }
        let start: usize = (y as usize + row) * stride + x as usize * 4;
        let whole: bool = start <= full_bgra.len() && full_bgra.len() - start >= row_len;
        let mut k: usize = 0;
        let ghost upper = r@;
        while k < row_len
            invariant
                k <= row_len,
                row < height,
                row_len == 4 * width,
                stride == 4 * output_width,
                rect == (Rect {
                    x: x as i32,
                    y: y as i32,
                    width: width as i32,
                    height: height as i32,
                }),
                start == (y + row) * stride + x * 4,
                start + row_len <= usize::MAX,
                whole == (start + row_len <= full_bgra@.len()),
                pixels == tile_pixels(full_bgra@, output_width as int, rect),
                row_len * height == pixels.len(),
                (row + 1) * row_len <= pixels.len(),
                (row + 1) * row_len == row * row_len + row_len,
                r@.len() == row * row_len + k,
                forall|i: int| 0 <= i < r@.len() ==> r@[i] == #[trigger] pixels[i],
            decreases row_len - k,
        {
            proof {
                let i = row * row_len + k;
                lemma_row_col(i, row as int, k as int, row_len as int);
                assert(pixels[i] == if whole {
                    full_bgra@[start + k]
                } else {
                    0u8
                });
            }
            if whole {
                r.push(full_bgra[start + k]);
            } else {
                r.push(0);
            }
            k = k + 1;
        }
        row = row + 1;
    }
    assert(row * row_len == row_len * height) by (nonlinear_arith)
        requires
            row == height,
    ;
    assert(r@ =~= pixels);
    r
}

/// A tile after its turn: clean, with the frames since its last keyframe counted.
pub open spec fn tile_encoded<H: Encoder>(
    before: Tile<H>,
    after: Tile<H>,
    full: Seq<u8>,
    output_width: int,
    result: EncodeResult,
) -> bool {
    &&& after.same_place(before)
    &&& !after.dirty
    &&& AnyEncoder::<H>::encoded(
        before.encoder,
        after.encoder,
        tile_pixels(full, output_width, before.rect()),
        before.width as u32,
        before.height as u32,
        result,
    )
    &&& after.frames_since_keyframe == match result {
        Ok(Some(f)) => if f.is_keyframe {
            0
        } else {
            (before.frames_since_keyframe + 1) as u32
        },
        _ => before.frames_since_keyframe,
    }
}

/// What is sent for a tile: every encoded frame but a delta too small to hold anything.
pub open spec fn tile_output<H>(tile: Tile<H>, result: EncodeResult) -> Option<TileFrame> {
    match result {
        Ok(Some(f)) => if f.data@.len() < EMPTY_DELTA_BYTES && !f.is_keyframe {
            None
        } else {
            Some(
                TileFrame {
                    x: tile.x,
                    y: tile.y,
                    width: tile.width,
                    height: tile.height,
                    data: f.data,
                    is_keyframe: f.is_keyframe,
                },
            )
        },
        _ => None,
    }
}

/// What is sent for the first `n` tiles, in their order.
pub open spec fn grid_output<H>(tiles: Seq<Tile<H>>, results: Seq<EncodeResult>, n: int) -> Seq<
    TileFrame,
>
    decreases n,
{
    if n <= 0 {
        Seq::empty()
    } else {
        let before = grid_output(tiles, results, n - 1);
        if tiles[n - 1].dirty {
            match tile_output(tiles[n - 1], results[n - 1]) {
                Some(f) => before.push(f),
                None => before,
            }
        } else {
            before
        }
    }
}

/// The frame that goes out for a tile, given what its encoder returned.
pub fn accept_tile<H>(tile: &Tile<H>, result: EncodeResult) -> (r: Option<TileFrame>)
    ensures
        r == tile_output(*tile, result),
{
    match result {
        Ok(Some(f)) => {
            if f.data.len() < EMPTY_DELTA_BYTES && !f.is_keyframe {
                None
            } else {
                Some(
                    TileFrame {
                        x: tile.x,
                        y: tile.y,
                        width: tile.width,
                        height: tile.height,
                        data: f.data,
                        is_keyframe: f.is_keyframe,
                    },
                )
            }
        },
        Ok(None) => None,
        Err(_) => None,
    }
}

impl<H: Encoder> TileGrid<H> {
    pub closed spec fn name(&self) -> Seq<char> {
        self.output_name@
    }

    pub closed spec fn width(&self) -> u16 {
        self.output_width
    }

    pub closed spec fn height(&self) -> u16 {
        self.output_height
    }

    pub closed spec fn cols(&self) -> u16 {
        self.cols
    }

    pub closed spec fn rows(&self) -> u16 {
        self.rows
    }

    pub closed spec fn tiles(&self) -> Seq<Tile<H>> {
        self.tiles@
    }

    /// The tiles cover the output, row by row.
    pub open spec fn wf(&self) -> bool {
        &&& grid_fits(self.width(), self.height(), self.cols(), self.rows())
        &&& self.tiles().len() == self.cols() * self.rows()
        &&& forall|k: int|
            0 <= k < self.tiles().len() ==> tile_in_place(
                #[trigger] self.tiles()[k],
                self.width() as int,
                self.height() as int,
                self.cols() as int,
                self.rows() as int,
                k,
            )
    }

    /// A grid as it is made: every tile is due, with an encoder of its own that the preference
    /// leads to.
    pub open spec fn is_fresh<
        F: Fn(u32, u32, u32, FfmpegEncoderPreference) -> Result<H, EncodeError>,
    >(
        &self,
        ffmpeg: F,
        pref: Seq<char>,
        name: Seq<char>,
        width: u16,
        height: u16,
        cols: u16,
        rows: u16,
    ) -> bool {
        &&& self.name() == name
        &&& self.width() == width
        &&& self.height() == height
        &&& self.cols() == cols
        &&& self.rows() == rows
        &&& forall|k: int|
            0 <= k < self.tiles().len() ==> {
                let t = #[trigger] self.tiles()[k];
                &&& t.dirty
                &&& t.frames_since_keyframe == 0
                &&& chosen_encoder(
                    ffmpeg,
                    pref,
                    even_up(t.width as int) as u32,
                    even_up(t.height as int) as u32,
                    TILE_SOFTWARE_BITRATE_BPS,
                    t.encoder,
                )
            }
    }

    /// Every tile that was due has been encoded and is due no more, the others are as they were,
    /// and `frames` goes out.
    pub open spec fn encoded_due(
        before: Self,
        after: Self,
        full: Seq<u8>,
        frames: Seq<TileFrame>,
    ) -> bool {
        exists|results: Seq<EncodeResult>|
            {
                &&& #[trigger] results.len() == before.tiles().len()
                &&& frames == grid_output(before.tiles(), results, results.len() as int)
                &&& forall|k: int|
                    0 <= k < results.len() ==> {
                        let tile = #[trigger] before.tiles()[k];
                        if tile.dirty {
                            tile_encoded(
                                tile,
                                after.tiles()[k],
                                full,
                                before.width() as int,
                                results[k],
                            )
                        } else {
                            after.tiles()[k] == tile
                        }
                    }
            }
    }

    /// The tiles that the damage touches are due, and those that were stay so.
    pub open spec fn damage_marked(before: Self, after: Self, damage: Seq<Rect>) -> bool {
        &&& after.same_grid(before)
        &&& forall|k: int|
            0 <= k < after.tiles().len() ==> {
                let t = #[trigger] after.tiles()[k];
                let earlier = before.tiles()[k];
                &&& t.dirty == (earlier.dirty || damaged(earlier.rect(), damage))
                &&& t.encoder == earlier.encoder
                &&& t.frames_since_keyframe == earlier.frames_since_keyframe
            }
    }

    /// The tile whose turn it is is due for a keyframe, if its last one is long ago. The others are
    /// as they were.
    pub open spec fn keyframe_staggered(before: Self, after: Self, frame_count: u64) -> bool {
        let turn = frame_count as usize as int % before.tiles().len() as int;
        &&& after.same_grid(before)
        &&& forall|k: int|
            0 <= k < after.tiles().len() && k != turn ==> #[trigger] after.tiles()[k]
                == before.tiles()[k]
        &&& if before.tiles()[turn].frames_since_keyframe > STAGGER_FRAMES {
            keyframe_due(before.tiles()[turn], after.tiles()[turn])
        } else {
            after.tiles()[turn] == before.tiles()[turn]
        }
    }

    /// The number of tiles that are due.
    pub open spec fn due(&self) -> nat {
        self.tiles().filter(|t: Tile<H>| t.dirty).len()
    }

    /// The frame and the tiles' places are those of `other`.
    pub open spec fn same_grid(&self, other: Self) -> bool {
        &&& self.name() == other.name()
        &&& self.width() == other.width()
        &&& self.height() == other.height()
        &&& self.cols() == other.cols()
        &&& self.rows() == other.rows()
        &&& self.tiles().len() == other.tiles().len()
        &&& forall|k: int|
            0 <= k < self.tiles().len() ==> (#[trigger] self.tiles()[k]).same_place(
                other.tiles()[k],
            )
    }

    /// Create a new tile grid for an output. Fails with the first tile whose encoder cannot be
    /// created.
    pub fn new<F: Fn(u32, u32, u32, FfmpegEncoderPreference) -> Result<H, EncodeError>>(
        output_name: String,
        output_width: u16,
        output_height: u16,
        cols: u16,
        rows: u16,
        encoder_pref: &str,
        ffmpeg: &F,
    ) -> (r: Result<Self, TileError>)
        requires
            grid_fits(output_width, output_height, cols, rows),
            tile_buffers_fit(output_width, output_height, cols, rows),
            forall|w: u32, h: u32, b: u32, p: FfmpegEncoderPreference|
                call_requires(*ffmpeg, (w, h, b, p)),
        ensures
            match r {
                Ok(grid) => {
                    &&& grid.wf()
                    &&& grid.is_fresh(
                        *ffmpeg,
                        encoder_pref@,
                        output_name@,
                        output_width,
                        output_height,
                        cols,
                        rows,
                    )
                },
                Err(e) => grid_refused(
                    *ffmpeg,
                    encoder_pref@,
                    output_width,
                    output_height,
                    cols,
                    rows,
                    e,
                ),
            },
    {
        let base_w: u16 = output_width / cols;
        let base_h: u16 = output_height / rows;
        let mut tiles: Vec<Tile<H>> = Vec::with_capacity((cols * rows) as usize);
        let mut row: u16 = 0;
        let mut col: u16 = 0;
        assert(cols * rows > 0) by (nonlinear_arith)
            requires
                cols > 0,
                rows > 0,
        ;
        while row < rows
            invariant
                grid_fits(output_width, output_height, cols, rows),
                tile_buffers_fit(output_width, output_height, cols, rows),
                forall|w: u32, h: u32, b: u32, p: FfmpegEncoderPreference|
                    call_requires(*ffmpeg, (w, h, b, p)),
                base_w == output_width / cols,
                base_h == output_height / rows,
                row <= rows,
                col < cols,
                row == rows ==> col == 0,
                tiles@.len() == row * cols + col,
                forall|k: int|
                    0 <= k < tiles@.len() ==> {
                        let t = #[trigger] tiles@[k];
                        &&& tile_in_place(
                            t,
                            output_width as int,
                            output_height as int,
                            cols as int,
                            rows as int,
                            k,
                        )
                        &&& t.dirty
                        &&& t.frames_since_keyframe == 0
                        &&& chosen_encoder(
                            *ffmpeg,
                            encoder_pref@,
                            even_up(t.width as int) as u32,
                            even_up(t.height as int) as u32,
                            TILE_SOFTWARE_BITRATE_BPS,
                            t.encoder,
                        )
                    },
            decreases (rows - row) * cols - col,
        {
            proof {
                lemma_parts(output_width as int, cols as int, col as int);
                lemma_parts(output_height as int, rows as int, row as int);
                lemma_row_col(row * cols + col, row as int, col as int, cols as int);
                assert(col * base_w == part_start(output_width as int, cols as int, col as int));
                assert(row * base_h == part_start(output_height as int, rows as int, row as int));
                assert((row + 1) * cols == row * cols + cols) by (nonlinear_arith);
                assert((rows - row) * cols == (rows - (row + 1)) * cols + cols) by (nonlinear_arith);
                assert(0 <= (rows - (row + 1)) * cols) by (nonlinear_arith)
                    requires
                        row + 1 <= rows,
                ;
            }
            let x: u16 = col * base_w;
            let y: u16 = row * base_h;
            let w: u16 = if col == cols - 1 {
                output_width - x
            } else {
                base_w
            };
            let h: u16 = if row == rows - 1 {
                output_height - y
            } else {
                base_h
            };
            proof {
                let last_w = even_up(part_size(output_width as int, cols as int, cols - 1));
                let last_h = even_up(part_size(output_height as int, rows as int, rows - 1));
                let even_w = even_up(w as int);
                let even_h = even_up(h as int);
                assert(even_w * even_h * 3 <= last_w * last_h * 3) by (nonlinear_arith)
                    requires
                        0 <= even_w <= last_w,
                        0 <= even_h <= last_h,
                ;
            }
            match create_tile_encoder(
                (w + w % 2) as u32,
                (h + h % 2) as u32,
                encoder_pref,
                ffmpeg,
            ) {
                Err(error) => {
                    assert forall|k: int| 0 <= k < row * cols + col implies #[trigger] tile_served(
                        *ffmpeg,
                        encoder_pref@,
                        output_width,
                        output_height,
                        cols,
                        rows,
                        k,
                    ) by {
                        let t = tiles@[k];
                        assert(chosen_encoder(
                            *ffmpeg,
                            encoder_pref@,
                            even_up(t.width as int) as u32,
                            even_up(t.height as int) as u32,
                            TILE_SOFTWARE_BITRATE_BPS,
                            t.encoder,
                        ));
                    }
                    return Err(TileError { col, row, error });
                },
                Ok(encoder) => {
                    tiles.push(
                        Tile {
                            x,
                            y,
                            width: w,
                            height: h,
                            encoder,
                            dirty: true,
                            frames_since_keyframe: 0,
                        },
                    );
                },
            }
            if col + 1 < cols {
                col = col + 1;
            } else {
                col = 0;
                row = row + 1;
            }
        }
        assert(rows * cols == cols * rows) by (nonlinear_arith);
        Ok(TileGrid { output_name, output_width, output_height, cols, rows, tiles })
    }

    /// Mark tiles that intersect any of the damage rectangles as dirty.
    pub fn mark_damage(&mut self, damage_rects: &[Rect])
        ensures
            old(self).wf() ==> final(self).wf(),
            Self::damage_marked(*old(self), *final(self), damage_rects@),
    {
        let mut k: usize = 0;
        while k < self.tiles.len()
            invariant
                k <= self.tiles@.len(),
                self.output_name == old(self).output_name,
                self.output_width == old(self).output_width,
                self.output_height == old(self).output_height,
                self.cols == old(self).cols,
                self.rows == old(self).rows,
                self.tiles@.len() == old(self).tiles@.len(),
                forall|j: int| k <= j < self.tiles@.len() ==> self.tiles@[j] == old(self).tiles@[j],
                forall|j: int|
                    0 <= j < k ==> {
                        let t = #[trigger] self.tiles@[j];
                        let before = old(self).tiles@[j];
                        &&& t.same_place(before)
                        &&& t.dirty == (before.dirty || damaged(before.rect(), damage_rects@))
                        &&& t.encoder == before.encoder
                        &&& t.frames_since_keyframe == before.frames_since_keyframe
                    },
            decreases self.tiles@.len() - k,
        {
            if self.tiles[k].damaged_by(damage_rects) {
                let tile = &mut self.tiles[k];
                tile.dirty = true;
            }
            k = k + 1;
        }
    }

    /// Whether every tile can be encoded, as far as the library knows its encoder: a software encoder
    /// takes the tile's size, and one more frame can be counted.
    pub fn can_encode(&self) -> (r: bool)
        requires
            forall|k: int|
                0 <= k < self.tiles().len() ==> has_sound_encoder(#[trigger] self.tiles()[k]),
        ensures
            r == (forall|k: int| 0 <= k < self.tiles().len() ==> encodable(#[trigger] self.tiles()[k])),
    {
        let mut k: usize = 0;
        while k < self.tiles.len()
            invariant
                k <= self.tiles@.len(),
                forall|j: int|
                    0 <= j < self.tiles().len() ==> has_sound_encoder(#[trigger] self.tiles()[j]),
                forall|j: int| 0 <= j < k ==> encodable(#[trigger] self.tiles()[j]),
            decreases self.tiles@.len() - k,
        {
            let t = &self.tiles[k];
            assert(has_sound_encoder(self.tiles()[k as int]));
            let taken: bool = match &t.encoder {
                AnyEncoder::OpenH264(e) => e.can_take(t.width as u32, t.height as u32),
                AnyEncoder::Ffmpeg(_) => true,
            };
            if !taken || t.frames_since_keyframe == u32::MAX {
                assert(!encodable(self.tiles()[k as int]));
                return false;
            }
            k = k + 1;
        }
        true
    }

    /// Encode all dirty tiles. Returns encoded frames for each dirty tile.
    /// `full_bgra` is the full output framebuffer in BGRA format.
    pub fn encode_dirty_tiles(&mut self, full_bgra: &[u8]) -> (frames: Vec<TileFrame>)
        requires
            old(self).wf(),
            4 * (old(self).width() * old(self).height()) + 4 * old(self).width() <= usize::MAX,
            forall|k: int|
                0 <= k < old(self).tiles().len() ==> {
                    let t = #[trigger] old(self).tiles()[k];
                    t.dirty ==> t.encoder.takes(t.width as u32, t.height as u32)
                        && t.frames_since_keyframe < u32::MAX
                },
        ensures
            final(self).wf(),
            final(self).same_grid(*old(self)),
            Self::encoded_due(*old(self), *final(self), full_bgra@, frames@),
    {
        let mut frames: Vec<TileFrame> = Vec::new();
        let ghost mut results: Seq<EncodeResult> = Seq::empty();
        let mut k: usize = 0;
        while k < self.tiles.len()
            invariant
                old(self).wf(),
                4 * (old(self).output_width * old(self).output_height) + 4
                    * old(self).output_width <= usize::MAX,
                forall|j: int|
                    0 <= j < old(self).tiles@.len() ==> {
                        let t = #[trigger] old(self).tiles@[j];
                        t.dirty ==> t.encoder.takes(t.width as u32, t.height as u32)
                            && t.frames_since_keyframe < u32::MAX
                    },
                k <= self.tiles@.len(),
                results.len() == k,
                self.output_name == old(self).output_name,
                self.output_width == old(self).output_width,
                self.output_height == old(self).output_height,
                self.cols == old(self).cols,
                self.rows == old(self).rows,
                self.tiles@.len() == old(self).tiles@.len(),
                forall|j: int| k <= j < self.tiles@.len() ==> self.tiles@[j] == old(self).tiles@[j],
                forall|j: int| 0 <= j < k ==> (#[trigger] self.tiles@[j]).same_place(old(self).tiles@[j]),
                forall|j: int|
                    0 <= j < k ==> {
                        let before = #[trigger] old(self).tiles@[j];
                        if before.dirty {
                            tile_encoded(
                                before,
                                self.tiles@[j],
                                full_bgra@,
                                old(self).output_width as int,
                                results[j],
                            )
                        } else {
                            self.tiles@[j] == before
                        }
                    },
                frames@ == grid_output(old(self).tiles@, results, k as int),
            decreases self.tiles@.len() - k,
        {
            let ghost shorter = results;
            let ghost before = self.tiles@[k as int];
            assert(before == old(self).tiles()[k as int]);
            if self.tiles[k].dirty {
                let width: u16 = self.tiles[k].width;
                let height: u16 = self.tiles[k].height;
                proof {
                    lemma_tile_inside(
                        before,
                        self.output_width as int,
                        self.output_height as int,
                        self.cols as int,
                        self.rows as int,
                        k as int,
                    );
                    lemma_tile_addresses(before, self.output_width as int, self.output_height as int);
                }
                let pixels = extract_tile(
                    full_bgra,
                    self.output_width,
                    self.tiles[k].x,
                    self.tiles[k].y,
                    width,
                    height,
                );
                let tile = &mut self.tiles[k];
                tile.dirty = false;
                assert(pixels@.len() == 4 * (width * height)) by (nonlinear_arith)
                    requires
                        pixels@.len() == (4 * width) * height,
                ;
                let result = tile.encoder.encode(&pixels, width as u32, height as u32);
                match &result {
                    Ok(Some(f)) => {
                        if f.is_keyframe {
                            tile.frames_since_keyframe = 0;
                        } else {
                            tile.frames_since_keyframe = tile.frames_since_keyframe + 1;
                        }
                    },
                    _ => {},
                }
                proof {
                    results = results.push(result);
                    lemma_output_prefix(old(self).tiles@, shorter, results, k as int);
                }
                match accept_tile(&self.tiles[k], result) {
                    Some(frame) => frames.push(frame),
                    None => {},
                }
            } else {
                proof {
                    results = results.push(Ok(None));
                    lemma_output_prefix(old(self).tiles@, shorter, results, k as int);
                }
            }
            k = k + 1;
        }
        assert(results.len() == old(self).tiles().len());
        frames
    }

    /// Force keyframe on all tile encoders.
    pub fn force_all_keyframes(&mut self)
        ensures
            final(self).same_grid(*old(self)),
            old(self).wf() ==> final(self).wf(),
            forall|k: int|
                0 <= k < final(self).tiles().len() ==> keyframe_due(
                    old(self).tiles()[k],
                    #[trigger] final(self).tiles()[k],
                ),
    {
        let mut k: usize = 0;
        while k < self.tiles.len()
            invariant
                k <= self.tiles@.len(),
                self.output_name == old(self).output_name,
                self.output_width == old(self).output_width,
                self.output_height == old(self).output_height,
                self.cols == old(self).cols,
                self.rows == old(self).rows,
                self.tiles@.len() == old(self).tiles@.len(),
                forall|j: int| k <= j < self.tiles@.len() ==> self.tiles@[j] == old(self).tiles@[j],
                forall|j: int|
                    0 <= j < k ==> keyframe_due(old(self).tiles@[j], #[trigger] self.tiles@[j]),
            decreases self.tiles@.len() - k,
        {
            let tile = &mut self.tiles[k];
            tile.encoder.force_keyframe();
            tile.dirty = true;
            k = k + 1;
        }
    }

    /// Force keyframe on one tile (round-robin staggering).
    /// Call once per frame to spread keyframes over time.
    pub fn stagger_keyframe(&mut self, frame_count: u64)
        requires
            old(self).tiles().len() > 0,
        ensures
            old(self).wf() ==> final(self).wf(),
            Self::keyframe_staggered(*old(self), *final(self), frame_count),
    {
        let turn: usize = frame_count as usize % self.tiles.len();
        if self.tiles[turn].frames_since_keyframe > STAGGER_FRAMES {
            let tile = &mut self.tiles[turn];
            tile.encoder.force_keyframe();
            tile.dirty = true;
        }
    }

    /// Resize the grid (recreates all encoders). A grid that cannot be made leaves this one as
    /// it is.
    pub fn resize<F: Fn(u32, u32, u32, FfmpegEncoderPreference) -> Result<H, EncodeError>>(
        &mut self,
        output_width: u16,
        output_height: u16,
        encoder_pref: &str,
        ffmpeg: &F,
    ) -> (r: Result<(), TileError>)
        requires
            grid_fits(output_width, output_height, old(self).cols(), old(self).rows()),
            tile_buffers_fit(output_width, output_height, old(self).cols(), old(self).rows()),
            forall|w: u32, h: u32, b: u32, p: FfmpegEncoderPreference|
                call_requires(*ffmpeg, (w, h, b, p)),
        ensures
            match r {
                Ok(_) => {
                    &&& final(self).wf()
                    &&& final(self).is_fresh(
                        *ffmpeg,
                        encoder_pref@,
                        old(self).name(),
                        output_width,
                        output_height,
                        old(self).cols(),
                        old(self).rows(),
                    )
                },
                Err(e) => {
                    &&& *final(self) == *old(self)
                    &&& grid_refused(
                        *ffmpeg,
                        encoder_pref@,
                        output_width,
                        output_height,
                        old(self).cols(),
                        old(self).rows(),
                        e,
                    )
                },
            },
    {
        match Self::new(
            self.output_name.clone(),
            output_width,
            output_height,
            self.cols,
            self.rows,
            encoder_pref,
            ffmpeg,
        ) {
            Ok(grid) => {
                *self = grid;
                Ok(())
            },
            Err(e) => Err(e),
        }
    }

    pub fn output_name(&self) -> (r: &str)
        ensures
            r@ == self.name(),
    {
        self.output_name.as_str()
    }

    pub fn tile_count(&self) -> (r: usize)
        ensures
            r == self.tiles().len(),
    {
        self.tiles.len()
    }

    pub fn dirty_count(&self) -> (r: usize)
        ensures
            r == self.due(),
    {
        let mut n: usize = 0;
        let mut k: usize = 0;
        let ghost is_dirty = |t: Tile<H>| t.dirty;
        while k < self.tiles.len()
            invariant
                k <= self.tiles@.len(),
                n <= k,
                is_dirty == (|t: Tile<H>| t.dirty),
                n == self.tiles@.take(k as int).filter(is_dirty).len(),
            decreases self.tiles@.len() - k,
        {
            proof {
                let shorter = self.tiles@.take(k as int);
                let longer = self.tiles@.take(k + 1);
                assert(longer.drop_last() =~= shorter);
                reveal(Seq::filter);
            }
            if self.tiles[k].dirty {
                n = n + 1;
            }
            k = k + 1;
        }
        assert(self.tiles@.take(k as int) =~= self.tiles@);
        n
    }
}

/// Tile `k` of a grid can have an encoder that the preference leads to.
pub open spec fn tile_served<
    H: Encoder,
    F: Fn(u32, u32, u32, FfmpegEncoderPreference) -> Result<H, EncodeError>,
>(ffmpeg: F, pref: Seq<char>, width: u16, height: u16, cols: u16, rows: u16, k: int) -> bool {
    exists|e: AnyEncoder<H>| #[trigger]
        chosen_encoder(
            ffmpeg,
            pref,
            even_up(part_size(width as int, cols as int, k % cols as int)) as u32,
            even_up(part_size(height as int, rows as int, k / cols as int)) as u32,
            TILE_SOFTWARE_BITRATE_BPS,
            e,
        )
}

/// Why a grid could not be made: its tile at this column and row is the first without an encoder,
/// as neither the preferred one nor the software encoder could be had.
pub open spec fn grid_refused<
    H: Encoder,
    F: Fn(u32, u32, u32, FfmpegEncoderPreference) -> Result<H, EncodeError>,
>(
    ffmpeg: F,
    pref: Seq<char>,
    width: u16,
    height: u16,
    cols: u16,
    rows: u16,
    e: TileError,
) -> bool {
    &&& e.error == EncodeError::Create
    &&& e.col < cols
    &&& e.row < rows
    &&& software_reached(
        ffmpeg,
        pref,
        even_up(part_size(width as int, cols as int, e.col as int)) as u32,
        even_up(part_size(height as int, rows as int, e.row as int)) as u32,
    )
    &&& native_refused(TILE_SOFTWARE_BITRATE_BPS)
    &&& forall|k: int|
        0 <= k < e.row * cols + e.col ==> #[trigger] tile_served(
            ffmpeg,
            pref,
            width,
            height,
            cols,
            rows,
            k,
        )
}

proof fn lemma_none_due<H: Encoder>(tiles: Seq<Tile<H>>)
    requires
        forall|k: int| 0 <= k < tiles.len() ==> !(#[trigger] tiles[k]).dirty,
    ensures
        tiles.filter(|t: Tile<H>| t.dirty).len() == 0,
    decreases tiles.len(),
{
    reveal(Seq::filter);
    if tiles.len() > 0 {
        lemma_none_due(tiles.drop_last());
    }
}

proof fn lemma_clean_output<H>(tiles: Seq<Tile<H>>, results: Seq<EncodeResult>, n: int)
    requires
        n <= tiles.len(),
        forall|k: int| 0 <= k < tiles.len() ==> !(#[trigger] tiles[k]).dirty,
    ensures
        grid_output(tiles, results, n) == Seq::<TileFrame>::empty(),
    decreases n,
{
    if n > 0 {
        lemma_clean_output(tiles, results, n - 1);
    }
}

/// No more tiles are due than there are.
pub proof fn lemma_due_bound<H: Encoder>(grid: TileGrid<H>)
    ensures
        grid.due() <= grid.tiles().len(),
{
    lemma_filter_len(grid.tiles());
}

proof fn lemma_filter_len<H: Encoder>(tiles: Seq<Tile<H>>)
    ensures
        tiles.filter(|t: Tile<H>| t.dirty).len() <= tiles.len(),
    decreases tiles.len(),
{
    reveal(Seq::filter);
    if tiles.len() > 0 {
        lemma_filter_len(tiles.drop_last());
    }
}

/// After the due tiles are encoded none is due, whatever the encoders answered.
pub proof fn lemma_encoding_leaves_none_due<H: Encoder>(
    before: TileGrid<H>,
    after: TileGrid<H>,
    full: Seq<u8>,
    frames: Seq<TileFrame>,
)
    requires
        after.same_grid(before),
        TileGrid::<H>::encoded_due(before, after, full, frames),
    ensures
        after.due() == 0,
        forall|k: int| 0 <= k < after.tiles().len() ==> !(#[trigger] after.tiles()[k]).dirty,
{
    assert forall|k: int| 0 <= k < after.tiles().len() implies !(#[trigger] after.tiles()[k]).dirty by {
        let tile = before.tiles()[k];
        assert(tile.dirty || after.tiles()[k] == tile);
    }
    lemma_none_due(after.tiles());
}

/// Encoding again without new damage gives nothing and changes nothing.
pub proof fn lemma_encoding_again_gives_nothing<H: Encoder>(
    before: TileGrid<H>,
    between: TileGrid<H>,
    after: TileGrid<H>,
    first: Seq<u8>,
    second: Seq<u8>,
    frames: Seq<TileFrame>,
    more: Seq<TileFrame>,
)
    requires
        between.same_grid(before),
        after.same_grid(between),
        TileGrid::<H>::encoded_due(before, between, first, frames),
        TileGrid::<H>::encoded_due(between, after, second, more),
    ensures
        more == Seq::<TileFrame>::empty(),
        after.tiles() == between.tiles(),
{
    lemma_encoding_leaves_none_due(before, between, first, frames);
    let results = choose|results: Seq<EncodeResult>|
        {
            &&& #[trigger] results.len() == between.tiles().len()
            &&& more == grid_output(between.tiles(), results, results.len() as int)
            &&& forall|k: int|
                0 <= k < results.len() ==> {
                    let tile = #[trigger] between.tiles()[k];
                    if tile.dirty {
                        tile_encoded(
                            tile,
                            after.tiles()[k],
                            second,
                            between.width() as int,
                            results[k],
                        )
                    } else {
                        after.tiles()[k] == tile
                    }
                }
        };
    lemma_clean_output(between.tiles(), results, results.len() as int);
    assert forall|k: int| 0 <= k < after.tiles().len() implies after.tiles()[k]
        == between.tiles()[k] by {
        assert(!between.tiles()[k].dirty);
    }
    assert(after.tiles() =~= between.tiles());
}

/// Tile `k` lies at its place in the grid.
pub open spec fn tile_in_place<H>(
    t: Tile<H>,
    width: int,
    height: int,
    cols: int,
    rows: int,
    k: int,
) -> bool {
    &&& t.x == part_start(width, cols, k % cols)
    &&& t.y == part_start(height, rows, k / cols)
    &&& t.width == part_size(width, cols, k % cols)
    &&& t.height == part_size(height, rows, k / cols)
}

/// The encoder of every tile has a picture buffer whose size is computed without overflow.
pub open spec fn tile_buffers_fit(width: u16, height: u16, cols: u16, rows: u16) -> bool {
    even_up(part_size(width as int, cols as int, cols - 1)) * even_up(
        part_size(height as int, rows as int, rows - 1),
    ) * 3 <= u32::MAX
}

/// The software encoder of a tile, where it has one, is well formed.
pub open spec fn has_sound_encoder<H>(t: Tile<H>) -> bool {
    match t.encoder {
        AnyEncoder::OpenH264(e) => e.wf(),
        AnyEncoder::Ffmpeg(_) => true,
    }
}

/// The software encoder of a tile, where it has one, takes the tile's size, and one more frame can be
/// counted.
pub open spec fn encodable<H>(t: Tile<H>) -> bool {
    &&& t.frames_since_keyframe < u32::MAX
    &&& match t.encoder {
        AnyEncoder::OpenH264(e) => e.takes(t.width as u32, t.height as u32),
        AnyEncoder::Ffmpeg(_) => true,
    }
}

/// A keyframe is to come of the tile, and nothing else changed but its encoder.
pub open spec fn keyframe_due<H: Encoder>(before: Tile<H>, after: Tile<H>) -> bool {
    &&& after.same_place(before)
    &&& after.dirty
    &&& after.frames_since_keyframe == before.frames_since_keyframe
    &&& AnyEncoder::<H>::keyframe_forced(before.encoder, after.encoder)
    &&& forall|w: u32, h: u32|
        before.encoder.takes(w, h) ==> #[trigger] after.encoder.takes(w, h)
}

/// A tile lies inside the output.
proof fn lemma_tile_inside<H>(
    t: Tile<H>,
    width: int,
    height: int,
    cols: int,
    rows: int,
    k: int,
)
    requires
        0 <= width,
        0 <= height,
        0 < cols,
        0 < rows,
        0 <= k < cols * rows,
        tile_in_place(t, width, height, cols, rows, k),
    ensures
        t.x + t.width <= width,
        t.y + t.height <= height,
{
    vstd::arithmetic::div_mod::lemma_fundamental_div_mod(k, cols);
    vstd::arithmetic::div_mod::lemma_mod_bound(k, cols);
    let row = k / cols;
    assert(0 <= row < rows) by (nonlinear_arith)
        requires
            k == cols * row + k % cols,
            0 <= k % cols < cols,
            0 <= k < cols * rows,
    ;
    lemma_parts(width, cols, k % cols);
    lemma_parts(height, rows, row);
}

/// Every tile of a grid lies inside the output.
pub proof fn lemma_tile_spot<H: Encoder>(grid: TileGrid<H>, k: int)
    requires
        grid.wf(),
        0 <= k < grid.tiles().len(),
    ensures
        grid.tiles()[k].x + grid.tiles()[k].width <= grid.width(),
        grid.tiles()[k].y + grid.tiles()[k].height <= grid.height(),
{
    lemma_tile_inside(
        grid.tiles()[k],
        grid.width() as int,
        grid.height() as int,
        grid.cols() as int,
        grid.rows() as int,
        k,
    );
}

/// Every pixel of an output lies in exactly one tile of its grid.
pub proof fn lemma_every_pixel_has_a_tile<H: Encoder>(grid: TileGrid<H>, x: int, y: int)
    requires
        grid.wf(),
        0 <= x < grid.width(),
        0 <= y < grid.height(),
    ensures
        exists|k: int|
            {
                &&& 0 <= k < grid.tiles().len()
                &&& #[trigger] grid.tiles()[k].x <= x < grid.tiles()[k].x + grid.tiles()[k].width
                &&& grid.tiles()[k].y <= y < grid.tiles()[k].y + grid.tiles()[k].height
                &&& forall|j: int|
                    {
                        &&& 0 <= j < grid.tiles().len()
                        &&& #[trigger] grid.tiles()[j].x <= x < grid.tiles()[j].x
                            + grid.tiles()[j].width
                        &&& grid.tiles()[j].y <= y < grid.tiles()[j].y + grid.tiles()[j].height
                    } ==> j == k
            },
{
    let (w, h) = (grid.width() as int, grid.height() as int);
    let (cols, rows) = (grid.cols() as int, grid.rows() as int);
    lemma_parts_partition(w, cols, x);
    lemma_parts_partition(h, rows, y);
    let c = choose|c: int|
        0 <= c < cols && #[trigger] part_start(w, cols, c) <= x < part_start(w, cols, c) + part_size(
            w,
            cols,
            c,
        );
    let r = choose|r: int|
        0 <= r < rows && #[trigger] part_start(h, rows, r) <= y < part_start(h, rows, r) + part_size(
            h,
            rows,
            r,
        );
    let k = r * cols + c;
    crate::encode::planes::lemma_grid_index(r, c, cols, rows);
    lemma_row_col(k, r, c, cols);
    assert(tile_in_place(grid.tiles()[k], w, h, cols, rows, k));
    assert forall|j: int|
        {
            &&& 0 <= j < grid.tiles().len()
            &&& #[trigger] grid.tiles()[j].x <= x < grid.tiles()[j].x + grid.tiles()[j].width
            &&& grid.tiles()[j].y <= y < grid.tiles()[j].y + grid.tiles()[j].height
        } implies j == k by {
        assert(tile_in_place(grid.tiles()[j], w, h, cols, rows, j));
        crate::encode::planes::lemma_split_index(j, cols, rows);
        let (jr, jc) = (j / cols, j % cols);
        if jc < c {
            assert(part_start(w, cols, jc) + part_size(w, cols, jc) <= part_start(w, cols, c));
        } else if c < jc {
            assert(part_start(w, cols, c) + part_size(w, cols, c) <= part_start(w, cols, jc));
        }
        if jr < r {
            assert(part_start(h, rows, jr) + part_size(h, rows, jr) <= part_start(h, rows, r));
        } else if r < jr {
            assert(part_start(h, rows, r) + part_size(h, rows, r) <= part_start(h, rows, jr));
        }
    }
}

proof fn lemma_tile_addresses<H>(t: Tile<H>, width: int, height: int)
    requires
        t.x + t.width <= width,
        t.y + t.height <= height,
        4 * (width * height) + 4 * width <= usize::MAX,
    ensures
        4 * (t.width * t.height) <= usize::MAX,
        (t.y + t.height) * (4 * width) + 4 * (t.x + t.width) <= usize::MAX,
{
    assert(t.width * t.height <= width * height) by (nonlinear_arith)
        requires
            0 <= t.width <= width,
            0 <= t.height <= height,
    ;
    assert((t.y + t.height) * (4 * width) <= 4 * (width * height)) by (nonlinear_arith)
        requires
            0 <= t.y + t.height <= height,
            0 <= width,
    ;
}

/// What is sent for the first `n` tiles rests on the first `n` results alone.
proof fn lemma_output_prefix<H>(
    tiles: Seq<Tile<H>>,
    shorter: Seq<EncodeResult>,
    longer: Seq<EncodeResult>,
    n: int,
)
    requires
        0 <= n <= shorter.len() <= longer.len(),
        forall|i: int| 0 <= i < shorter.len() ==> shorter[i] == longer[i],
    ensures
        grid_output(tiles, shorter, n) == grid_output(tiles, longer, n),
    decreases n,
{
    if n > 0 {
        lemma_output_prefix(tiles, shorter, longer, n - 1);
    }
}

} // verus!
