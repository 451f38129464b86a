//! What streaming by tiles does: which tiles are encoded, what their encoders get, and what is sent.

use crate::adaptive::{
    accept_tile, damaged, extract_tile, grid_output, lemma_every_pixel_has_a_tile, lemma_tile_spot,
    overlap, rects_overlap, tile_encoded, tile_in_place, tile_output, tile_pixels, Tile, TileError,
    TileFrame, TileGrid,
};
use crate::encode::ffmpeg::FfmpegEncoderPreference;
use crate::encode::planes::lemma_split_index;
use crate::encode::select::AnyEncoder;
use crate::encode::{EncodeError, EncodeResult, EncodedFrame, Encoder};
use crate::gfx::channel::GfxSharedState;
use crate::session::canvas::{swapped, DirtyOutput};
use crate::session::frames::{stream_tiles, TilesPassed};
use crate::tiling::Rect;
use vstd::prelude::*;

verus! {

/// The frame of a tile, with what its encoder gave.
pub open spec fn is_frame_of<H>(out: TileFrame, tile: Tile<H>, f: EncodedFrame) -> bool {
    &&& out.x == tile.x
    &&& out.y == tile.y
    &&& out.width == tile.width
    &&& out.height == tile.height
    &&& out.data@ == f.data@
    &&& out.is_keyframe == f.is_keyframe
}

/// What an encoder gives for a tile is sent with the tile's place if it is a keyframe or has fifty bytes
/// or more. A smaller delta holds nothing and is not sent.
pub proof fn lemma_changes_are_sent<H>(tile: Tile<H>, result: EncodeResult, r: Option<TileFrame>)
    requires
        call_ensures(accept_tile::<H>, (&tile, result), r),
    ensures
        match result {
            Ok(Some(f)) => {
                &&& f.is_keyframe || f.data@.len() >= 50 ==> r is Some && is_frame_of(r->0, tile, f)
                &&& !f.is_keyframe && f.data@.len() < 50 ==> r is None
            },
            _ => r is None,
        },
{
}

/// Whether a frame of an encoder is worth sending.
pub open spec fn holds_something(result: EncodeResult) -> bool {
    result matches Ok(Some(f)) && (f.is_keyframe || f.data@.len() >= 50)
}

/// The bytes of a tile's pixels, row by row, in the picture of an output.
pub open spec fn are_pixels_of(pixels: Seq<u8>, full: Seq<u8>, output_width: int, r: Rect) -> bool {
    &&& pixels.len() == 4 * r.width * r.height
    &&& forall|row: int, col: int, byte: int|
        #![trigger pixels[4 * (row * r.width + col) + byte]]
        0 <= row < r.height && 0 <= col < r.width && 0 <= byte < 4 ==> pixels[4 * (row * r.width
            + col) + byte] == full[4 * ((r.y + row) * output_width + r.x + col) + byte]
}

proof fn lemma_tile_pixels(full: Seq<u8>, output_width: int, r: Rect)
    requires
        0 <= r.x,
        0 <= r.y,
        0 <= r.width,
        0 <= r.height,
        r.x + r.width <= output_width,
        full.len() >= 4 * ((r.y + r.height) * output_width),
    ensures
        are_pixels_of(tile_pixels(full, output_width, r), full, output_width, r),
{
    let pixels = tile_pixels(full, output_width, r);
    let len = 4 * r.width;
    assert(len * r.height == 4 * r.width * r.height);
    assert(len * r.height >= 0) by (nonlinear_arith)
        requires
            len >= 0,
            r.height >= 0,
    ;
    assert forall|row: int, col: int, byte: int|
        #![trigger pixels[4 * (row * r.width + col) + byte]]
        0 <= row < r.height && 0 <= col < r.width && 0 <= byte < 4 implies pixels[4 * (row * r.width
        + col) + byte] == full[4 * ((r.y + row) * output_width + r.x + col) + byte] by {
        let i = 4 * (row * r.width + col) + byte;
        let c = 4 * col + byte;
        assert(i == row * len + c) by (nonlinear_arith)
            requires
                i == 4 * (row * r.width + col) + byte,
                c == 4 * col + byte,
                len == 4 * r.width,
        ;
        crate::encode::planes::lemma_row_col(i, row, c, len);
        crate::encode::planes::lemma_grid_index(row, c, len, r.height as int);
        let start = (r.y + row) * (4 * output_width) + 4 * r.x;
        assert(start + c == 4 * ((r.y + row) * output_width + r.x + col) + byte) by (nonlinear_arith)
            requires
                start == (r.y + row) * (4 * output_width) + 4 * r.x,
                c == 4 * col + byte,
        ;
        assert(start + len <= 4 * ((r.y + r.height) * output_width)) by (nonlinear_arith)
            requires
                start == (r.y + row) * (4 * output_width) + 4 * r.x,
                len == 4 * r.width,
                r.x + r.width <= output_width,
                row + 1 <= r.height,
                0 <= r.x,
                0 <= r.width,
        ;
    }
}

/// A tile is cut out of the picture of an output at its own place.
pub proof fn lemma_tiles_are_cut_out(
    full: &[u8],
    output_width: u16,
    x: u16,
    y: u16,
    width: u16,
    height: u16,
    pixels: Vec<u8>,
)
    requires
        call_ensures(extract_tile, (full, output_width, x, y, width, height), pixels),
        x + width <= output_width,
        full@.len() >= 4 * ((y + height) * output_width),
    ensures
        are_pixels_of(
            pixels@,
            full@,
            output_width as int,
            (Rect { x: x as i32, y: y as i32, width: width as i32, height: height as i32 }),
        ),
{
    lemma_tile_pixels(
        full@,
        output_width as int,
        Rect { x: x as i32, y: y as i32, width: width as i32, height: height as i32 },
    );
}

/// Every tile that is due is handed to its own encoder with its own pixels, and what comes back goes out
/// if it holds anything. Tiles that are not due are left alone, and nothing else goes out. None is due
/// afterwards.
pub proof fn lemma_due_tiles_are_encoded_and_sent<H: Encoder>(
    grid: &mut TileGrid<H>,
    full: &[u8],
    frames: Vec<TileFrame>,
)
    requires
        old(grid).wf(),
        full@.len() >= 4 * (old(grid).height() * old(grid).width()),
        call_ensures(TileGrid::<H>::encode_dirty_tiles, (grid, full), frames),
    ensures
        final(grid).tiles().len() == old(grid).tiles().len(),
        exists|results: Seq<EncodeResult>|
            {
                &&& #[trigger] results.len() == old(grid).tiles().len()
                &&& forall|k: int|
                    0 <= k < results.len() ==> tile_had_its_turn(
                        #[trigger] old(grid).tiles()[k],
                        final(grid).tiles()[k],
                        full@,
                        old(grid).width() as int,
                        results[k],
                        frames@,
                    )
                &&& forall|j: int|
                    0 <= j < frames@.len() ==> exists|k: int|
                        {
                            &&& 0 <= k < results.len()
                            &&& (#[trigger] old(grid).tiles()[k]).dirty
                            &&& holds_something(results[k])
                            &&& is_frame_of(
                                #[trigger] frames@[j],
                                old(grid).tiles()[k],
                                results[k]->Ok_0->0,
                            )
                        }
            },
{
    let before = *old(grid);
    let after = *final(grid);
    let results = choose|results: Seq<EncodeResult>|
        {
            &&& #[trigger] results.len() == before.tiles().len()
            &&& frames@ == grid_output(before.tiles(), results, results.len() as int)
            &&& forall|k: int|
                0 <= k < results.len() ==> {
                    let tile = #[trigger] before.tiles()[k];
                    if tile.dirty {
                        tile_encoded(
                            tile,
                            after.tiles()[k],
                            full@,
                            before.width() as int,
                            results[k],
                        )
                    } else {
                        after.tiles()[k] == tile
                    }
                }
        };
    let n = results.len() as int;
    assert forall|k: int| 0 <= k < n implies tile_had_its_turn(
        #[trigger] before.tiles()[k],
        after.tiles()[k],
        full@,
        before.width() as int,
        results[k],
        frames@,
    ) by {
        let tile = before.tiles()[k];
        if tile.dirty {
            lemma_tile_spot(before, k);
            assert((tile.y + tile.height) * before.width() <= before.height() * before.width())
                by (nonlinear_arith)
                requires
                    tile.y + tile.height <= before.height(),
                    0 <= before.width(),
            ;
            let pixels = tile_pixels(full@, before.width() as int, tile.rect());
            lemma_tile_pixels(full@, before.width() as int, tile.rect());
            assert(are_pixels_of(pixels, full@, before.width() as int, tile.rect()));
            if holds_something(results[k]) {
                lemma_sent(before.tiles(), results, n, k);
                let f = tile_output(tile, results[k])->0;
                let j = choose|j: int|
                    0 <= j < frames@.len() && #[trigger] frames@[j] == f;
                assert(is_frame_of(frames@[j], tile, results[k]->Ok_0->0));
            }
        }
    }
    assert forall|j: int| 0 <= j < frames@.len() implies exists|k: int|
        {
            &&& 0 <= k < results.len()
            &&& (#[trigger] before.tiles()[k]).dirty
            &&& holds_something(results[k])
            &&& is_frame_of(#[trigger] frames@[j], before.tiles()[k], results[k]->Ok_0->0)
        } by {
        lemma_sent_only(before.tiles(), results, n, j);
        let k = choose|k: int|
            {
                &&& 0 <= k < n
                &&& (#[trigger] before.tiles()[k]).dirty
                &&& tile_output(before.tiles()[k], results[k]) == Some(frames@[j])
            };
        assert(before.tiles()[k].dirty);
    }
    assert(results.len() == before.tiles().len());
}

/// A tile before and after its turn: one that was due has been handed to its encoder with its pixels,
/// and what came back is among the frames if it holds anything; one that was not is as it was.
pub open spec fn tile_had_its_turn<H: Encoder>(
    before: Tile<H>,
    after: Tile<H>,
    full: Seq<u8>,
    output_width: int,
    result: EncodeResult,
    frames: Seq<TileFrame>,
) -> bool {
    if before.dirty {
        &&& !after.dirty
        &&& exists|pixels: Seq<u8>|
            {
                &&& #[trigger] are_pixels_of(pixels, full, output_width, before.rect())
                &&& AnyEncoder::<H>::encoded(
                    before.encoder,
                    after.encoder,
                    pixels,
                    before.width as u32,
                    before.height as u32,
                    result,
                )
            }
        &&& holds_something(result) ==> exists|j: int|
            0 <= j < frames.len() && is_frame_of(#[trigger] frames[j], before, result->Ok_0->0)
    } else {
        after == before
    }
}

proof fn lemma_sent<H>(tiles: Seq<Tile<H>>, results: Seq<EncodeResult>, n: int, k: int)
    requires
        0 <= k < n <= tiles.len(),
        tiles[k].dirty,
        tile_output(tiles[k], results[k]) is Some,
    ensures
        exists|j: int|
            0 <= j < grid_output(tiles, results, n).len() && #[trigger] grid_output(
                tiles,
                results,
                n,
            )[j] == tile_output(tiles[k], results[k])->0,
    decreases n,
{
    let all = grid_output(tiles, results, n);
    let earlier = grid_output(tiles, results, n - 1);
    if k < n - 1 {
        lemma_sent(tiles, results, n - 1, k);
        let j = choose|j: int|
            0 <= j < earlier.len() && #[trigger] earlier[j] == tile_output(tiles[k], results[k])->0;
        assert(all[j] == earlier[j]);
    } else {
        assert(all[earlier.len() as int] == tile_output(tiles[k], results[k])->0);
    }
}

proof fn lemma_sent_only<H>(tiles: Seq<Tile<H>>, results: Seq<EncodeResult>, n: int, j: int)
    requires
        0 <= n <= tiles.len(),
        0 <= j < grid_output(tiles, results, n).len(),
    ensures
        exists|k: int|
            {
                &&& 0 <= k < n
                &&& (#[trigger] tiles[k]).dirty
                &&& tile_output(tiles[k], results[k]) == Some(grid_output(tiles, results, n)[j])
            },
    decreases n,
{
    let all = grid_output(tiles, results, n);
    if n > 0 {
        let earlier = grid_output(tiles, results, n - 1);
        if j < earlier.len() {
            lemma_sent_only(tiles, results, n - 1, j);
            let k = choose|k: int|
                {
                    &&& 0 <= k < n - 1
                    &&& (#[trigger] tiles[k]).dirty
                    &&& tile_output(tiles[k], results[k]) == Some(earlier[j])
                };
            assert(tiles[k].dirty && all[j] == earlier[j]);
        } else {
            assert(tiles[n - 1].dirty);
        }
    }
}

/// A pixel lies in a rectangle.
pub open spec fn has_pixel(r: Rect, x: int, y: int) -> bool {
    &&& r.x <= x < r.x + r.width
    &&& r.y <= y < r.y + r.height
}

/// Rectangles that have pixels overlap exactly if they share one.
pub proof fn lemma_overlapping_is_sharing_a_pixel(a: Rect, b: Rect, r: bool)
    requires
        call_ensures(
            rects_overlap,
            (a.x, a.y, a.width, a.height, b.x, b.y, b.width, b.height),
            r,
        ),
        a.width > 0,
        a.height > 0,
        b.width > 0,
        b.height > 0,
    ensures
        r <==> exists|x: int, y: int| has_pixel(a, x, y) && has_pixel(b, x, y),
{
    lemma_shared_pixel(a, b);
}

proof fn lemma_shared_pixel(a: Rect, b: Rect)
    requires
        a.width > 0,
        a.height > 0,
        b.width > 0,
        b.height > 0,
    ensures
        overlap(a, b) <==> exists|x: int, y: int| has_pixel(a, x, y) && has_pixel(b, x, y),
{
    if overlap(a, b) {
        let x = if a.x >= b.x {
            a.x as int
        } else {
            b.x as int
        };
        let y = if a.y >= b.y {
            a.y as int
        } else {
            b.y as int
        };
        assert(has_pixel(a, x, y) && has_pixel(b, x, y));
    }
}

/// Damage makes exactly the tiles due that share a pixel with it, besides those that were; nothing else
/// of a tile changes.
pub proof fn lemma_damaged_tiles_are_due<H: Encoder>(
    grid: &mut TileGrid<H>,
    damage: &[Rect],
    k: int,
)
    requires
        call_ensures(TileGrid::<H>::mark_damage, (grid, damage), ()),
        0 <= k < old(grid).tiles().len(),
        old(grid).tiles()[k].width > 0,
        old(grid).tiles()[k].height > 0,
        forall|i: int|
            0 <= i < damage@.len() ==> (#[trigger] damage@[i]).width > 0 && damage@[i].height > 0,
    ensures
        final(grid).tiles().len() == old(grid).tiles().len(),
        final(grid).tiles()[k] == (Tile {
            dirty: final(grid).tiles()[k].dirty,
            ..old(grid).tiles()[k]
        }),
        final(grid).tiles()[k].dirty <==> {
            ||| old(grid).tiles()[k].dirty
            ||| exists|i: int, x: int, y: int|
                {
                    let t = old(grid).tiles()[k];
                    &&& 0 <= i < damage@.len()
                    &&& #[trigger] has_pixel(damage@[i], x, y)
                    &&& t.x <= x < t.x + t.width
                    &&& t.y <= y < t.y + t.height
                }
        },
{
    let t = old(grid).tiles()[k];
    let after = final(grid).tiles()[k];
    assert(after.same_place(t));
    if damaged(t.rect(), damage@) {
        let i = choose|i: int| 0 <= i < damage@.len() && overlap(t.rect(), #[trigger] damage@[i]);
        lemma_shared_pixel(t.rect(), damage@[i]);
        let (x, y) = choose|x: int, y: int|
            has_pixel(t.rect(), x, y) && has_pixel(damage@[i], x, y);
        assert(has_pixel(damage@[i], x, y));
    }
    assert forall|i: int, x: int, y: int|
        {
            &&& 0 <= i < damage@.len()
            &&& #[trigger] has_pixel(damage@[i], x, y)
            &&& t.x <= x < t.x + t.width
            &&& t.y <= y < t.y + t.height
        } implies damaged(t.rect(), damage@) by {
        assert(has_pixel(t.rect(), x, y));
        lemma_shared_pixel(t.rect(), damage@[i]);
    }
}

/// The tiles take turns: for each frame the next one is due for a keyframe, if more than 120 frames
/// have gone out since its last one. No other tile changes.
pub proof fn lemma_tiles_take_turns<H: Encoder>(
    grid: &mut TileGrid<H>,
    frame_count: u64,
    k: int,
)
    requires
        0 <= k < old(grid).tiles().len(),
        old(grid).tiles().len() <= u16::MAX,
        frame_count <= u32::MAX,
        call_ensures(TileGrid::<H>::stagger_keyframe, (grid, frame_count), ()),
    ensures
        final(grid).tiles().len() == old(grid).tiles().len(),
        ({
            let before = old(grid).tiles()[k];
            let after = final(grid).tiles()[k];
            if frame_count as int % old(grid).tiles().len() as int == k
                && before.frames_since_keyframe > 120 {
                &&& after.dirty
                &&& AnyEncoder::<H>::keyframe_forced(before.encoder, after.encoder)
                &&& after == (Tile { dirty: true, encoder: after.encoder, ..before })
            } else {
                after == before
            }
        }),
{
    let turn = frame_count as usize as int % old(grid).tiles().len() as int;
    assert(turn == frame_count as int % old(grid).tiles().len() as int);
    assert(final(grid).tiles()[k].same_place(old(grid).tiles()[k]));
}

/// Forcing keyframes makes every tile due, with its encoder asked for a keyframe.
pub proof fn lemma_all_tiles_get_keyframes<H: Encoder>(grid: &mut TileGrid<H>, k: int)
    requires
        0 <= k < old(grid).tiles().len(),
        call_ensures(TileGrid::<H>::force_all_keyframes, (grid,), ()),
    ensures
        final(grid).tiles().len() == old(grid).tiles().len(),
        final(grid).tiles()[k].dirty,
        AnyEncoder::<H>::keyframe_forced(
            old(grid).tiles()[k].encoder,
            final(grid).tiles()[k].encoder,
        ),
{
    assert(final(grid).tiles()[k].same_place(old(grid).tiles()[k]));
}

/// A pixel of an output lies in a tile.
pub open spec fn is_in_tile<H>(t: Tile<H>, x: int, y: int) -> bool {
    t.x <= x < t.x + t.width && t.y <= y < t.y + t.height
}

/// A pixel of an output lies in one of the tiles of a grid.
pub open spec fn is_covered<H: Encoder>(grid: TileGrid<H>, x: int, y: int) -> bool {
    exists|k: int| 0 <= k < grid.tiles().len() && #[trigger] is_in_tile(grid.tiles()[k], x, y)
}

/// The tiles of a grid are as many as it has columns and rows, come row by row from the upper left, and
/// are equally wide and high but for those at the right and at the bottom. Every pixel lies in one of
/// them and in no other.
pub open spec fn covers_output<H: Encoder>(
    grid: TileGrid<H>,
    width: u16,
    height: u16,
    cols: u16,
    rows: u16,
) -> bool {
    &&& grid.width() == width && grid.height() == height
    &&& grid.tiles().len() == cols * rows
    &&& forall|x: int, y: int|
        0 <= x < width && 0 <= y < height ==> #[trigger] is_covered(grid, x, y)
    &&& forall|x: int, y: int, j: int, k: int|
        {
            &&& 0 <= j < grid.tiles().len() && 0 <= k < grid.tiles().len()
            &&& 0 <= x < width && 0 <= y < height
            &&& #[trigger] is_in_tile(grid.tiles()[j], x, y)
            &&& #[trigger] is_in_tile(grid.tiles()[k], x, y)
        } ==> j == k
    &&& grid.tiles()[0].x == 0 && grid.tiles()[0].y == 0
    &&& forall|k: int|
        0 <= k < grid.tiles().len() && k % cols as int != cols - 1 ==> (
        #[trigger] grid.tiles()[k]).width == width as int / cols as int
    &&& forall|k: int|
        0 <= k < grid.tiles().len() && k + cols < grid.tiles().len() ==> (
        #[trigger] grid.tiles()[k]).height == height as int / rows as int
    &&& forall|k: int| 0 <= k < grid.tiles().len() ==> (#[trigger] grid.tiles()[k]).dirty
}

proof fn lemma_grid_covers<H: Encoder>(grid: TileGrid<H>)
    requires
        grid.wf(),
        forall|k: int| 0 <= k < grid.tiles().len() ==> (#[trigger] grid.tiles()[k]).dirty,
    ensures
        covers_output(grid, grid.width(), grid.height(), grid.cols(), grid.rows()),
{
    let (w, h) = (grid.width() as int, grid.height() as int);
    let (cols, rows) = (grid.cols() as int, grid.rows() as int);
    let tiles = grid.tiles();
    assert(cols * rows > 0) by (nonlinear_arith)
        requires
            cols > 0,
            rows > 0,
    ;
    assert forall|x: int, y: int| 0 <= x < w && 0 <= y < h implies #[trigger] is_covered(grid, x, y) by {
        lemma_every_pixel_has_a_tile(grid, x, y);
        let k = choose|k: int|
            {
                &&& 0 <= k < grid.tiles().len()
                &&& #[trigger] grid.tiles()[k].x <= x < grid.tiles()[k].x + grid.tiles()[k].width
                &&& grid.tiles()[k].y <= y < grid.tiles()[k].y + grid.tiles()[k].height
            };
        assert(is_in_tile(tiles[k], x, y));
    }
    assert forall|x: int, y: int, j: int, k: int|
        {
            &&& 0 <= j < tiles.len() && 0 <= k < tiles.len()
            &&& 0 <= x < w && 0 <= y < h
            &&& #[trigger] is_in_tile(tiles[j], x, y)
            &&& #[trigger] is_in_tile(tiles[k], x, y)
        } implies j == k by {
        lemma_every_pixel_has_a_tile(grid, x, y);
        assert(tiles[j].x <= x && tiles[k].x <= x);
    }
    assert(tile_in_place(tiles[0], w, h, cols, rows, 0));
    vstd::arithmetic::div_mod::lemma_small_mod(0, cols as nat);
    assert(0int / cols == 0) by (nonlinear_arith)
        requires
            cols > 0,
    ;
    assert(0 * (w / cols) == 0 && 0 * (h / rows) == 0);
    assert forall|k: int| 0 <= k < tiles.len() && k % cols != cols - 1 implies (
    #[trigger] tiles[k]).width == w / cols by {
        assert(tile_in_place(tiles[k], w, h, cols, rows, k));
    }
    assert forall|k: int| 0 <= k < tiles.len() && k + cols < tiles.len() implies (
    #[trigger] tiles[k]).height == h / rows by {
        assert(tile_in_place(tiles[k], w, h, cols, rows, k));
        lemma_split_index(k, cols, rows);
        let row = k / cols;
        assert(row != rows - 1) by (nonlinear_arith)
            requires
                k == row * cols + k % cols,
                0 <= k % cols < cols,
                k + cols < cols * rows,
        ;
    }
}

/// A grid that is made covers its output, and so does one that is made anew for another size, with as
/// many columns and rows as before. Every tile is due at first. Where it cannot be made anew, it stays.
pub proof fn lemma_tiles_cover_the_output<
    H: Encoder,
    F: Fn(u32, u32, u32, FfmpegEncoderPreference) -> Result<H, EncodeError>,
>(
    name: String,
    width: u16,
    height: u16,
    cols: u16,
    rows: u16,
    pref: &str,
    ffmpeg: &F,
    r: Result<TileGrid<H>, TileError>,
    grid: &mut TileGrid<H>,
    resized: Result<(), TileError>,
)
    requires
        call_ensures(TileGrid::<H>::new::<F>, (name, width, height, cols, rows, pref, ffmpeg), r),
        call_ensures(TileGrid::<H>::resize::<F>, (grid, width, height, pref, ffmpeg), resized),
    ensures
        r matches Ok(fresh) ==> covers_output(fresh, width, height, cols, rows),
        r matches Ok(fresh) ==> fresh.name() == name@,
        resized is Ok ==> covers_output(*final(grid), width, height, old(grid).cols(), old(grid).rows()),
        resized is Ok ==> final(grid).name() == old(grid).name(),
        resized is Err ==> *final(grid) == *old(grid),
{
    match r {
        Ok(fresh) => {
            lemma_grid_covers(fresh);
        },
        Err(_) => {},
    }
    if resized is Ok {
        lemma_grid_covers(*final(grid));
    }
}

/// After an output has been streamed no tile is due. A tile that was not due, shares no pixel with the
/// damage and had a keyframe of late is left alone.
pub proof fn lemma_streaming_leaves_the_rest_alone<H: Encoder>(
    grid: &mut TileGrid<H>,
    gfx: &mut GfxSharedState,
    d: &DirtyOutput,
    damage: &[Rect],
    frame_count: u64,
    surface_id: u16,
    can_send: bool,
    r: TilesPassed,
    k: int,
)
    requires
        old(grid).wf(),
        0 <= k < old(grid).tiles().len(),
        call_ensures(
            stream_tiles::<H>,
            (grid, gfx, d, damage, frame_count, surface_id, can_send),
            r,
        ),
    ensures
        !final(grid).tiles()[k].dirty,
        final(grid).tiles().len() == old(grid).tiles().len(),
        ({
            let t = old(grid).tiles()[k];
            let place = Rect {
                x: t.x as i32,
                y: t.y as i32,
                width: t.width as i32,
                height: t.height as i32,
            };
            !t.dirty && t.frames_since_keyframe <= 120 && (forall|i: int|
                0 <= i < damage@.len() ==> !overlap(#[trigger] damage@[i], place) && !overlap(
                    place,
                    damage@[i],
                )) ==> final(grid).tiles()[k] == t
        }),
{
    let before = *old(grid);
    let after = *final(grid);
    let (marked, staggered, frames) = choose|
        marked: TileGrid<H>,
        staggered: TileGrid<H>,
        frames: Seq<TileFrame>,
    |
        {
            &&& #[trigger] TileGrid::<H>::damage_marked(before, marked, damage@)
            &&& #[trigger] TileGrid::<H>::keyframe_staggered(marked, staggered, frame_count)
            &&& #[trigger] TileGrid::<H>::encoded_due(
                staggered,
                after,
                swapped(d.pixels@),
                frames,
            )
        };
    assert(marked.tiles()[k].same_place(before.tiles()[k]));
    assert(staggered.tiles().len() == before.tiles().len());
    let full = swapped(d.pixels@);
    let results = choose|results: Seq<EncodeResult>|
        {
            &&& #[trigger] results.len() == staggered.tiles().len()
            &&& frames == grid_output(staggered.tiles(), results, results.len() as int)
            &&& forall|j: int|
                0 <= j < results.len() ==> {
                    let tile = #[trigger] staggered.tiles()[j];
                    if tile.dirty {
                        tile_encoded(
                            tile,
                            after.tiles()[j],
                            full,
                            staggered.width() as int,
                            results[j],
                        )
                    } else {
                        after.tiles()[j] == tile
                    }
                }
        };
    let t = before.tiles()[k];
    let m = marked.tiles()[k];
    assert(m.dirty == (t.dirty || damaged(t.rect(), damage@)));
    assert(staggered.tiles()[k].dirty ==> tile_encoded(
        staggered.tiles()[k],
        after.tiles()[k],
        full,
        staggered.width() as int,
        results[k],
    ));
    let turn = frame_count as usize as int % before.tiles().len() as int;
    if k == turn {
        assert(marked.tiles()[turn].frames_since_keyframe == t.frames_since_keyframe);
    }
}

} // verus!
