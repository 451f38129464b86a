//! What a session does with pictures, frames and the input of clients, said of what goes in and what
//! comes out.

use crate::adaptive::TileFrame;
use crate::compositor::event::{Effect, IpcEvent, Protocol};
use crate::compositor::moving::{is_focused, lemma_focused, lemma_view_parts, same_lists, same_windows};
use crate::compositor::state::{DinatorState, OutputState};
use crate::displaycontrol::DisplayControlState;
use crate::encode::planes::{lemma_grid_index, lemma_row_col};
use crate::encode::EncodedFrame;
use crate::gfx::channel::{whole_picture, GfxOutputInfo, GfxPendingResponse, GfxSharedState};
use crate::gfx::laws::{
    end_at, last_pixel, lemma_frame_bytes, lemma_part_length, picture_at, start_at,
};
use crate::input::remote::{changes, lemma_released, ButtonChange, RdpInputEvent};
use crate::session::canvas::{
    blitted, composite_size, extent, lemma_blit_keeps_size, lemma_blit_shows_output,
    lemma_extent_bounds, overwritten, swap_red_blue, Canvas, DirtyOutput,
};
use crate::session::events::{InputStep, RdpInput, VncInput, VncInputEvent};
use crate::session::frames::{
    compose, composed, pass_frame, pass_tiles, take_response, Passed, TilesPassed,
};
use crate::session::gate::{frame_interval_micros, Decision, FrameGate};
use crate::session::pointer::{cursor_pixels, rgba_pixels, CursorStatus, PointerFeed, PointerUpdate};
use crate::session::surfaces::{
    gfx_outputs, lemma_missing, listed, missing_from, primary_size, surface_id_for_output,
};
use vstd::prelude::*;

verus! {

broadcast use vstd::std_specs::hash::group_hash_axioms;

/// Keyframes are always sent. Other frames wait once more than five million bytes went out within a
/// second; those of fewer than fifty bytes hold no change, and those of more than 512000 are dropped, with
/// a keyframe to follow if the last one is long ago. A frame that waits or is dropped for its size uses up
/// its number.
pub proof fn lemma_frames_are_chosen(
    gate: &mut FrameGate,
    gfx: &mut GfxSharedState,
    size: usize,
    keyframe: bool,
    new_second: bool,
    cooled: bool,
    r: Decision,
)
    requires
        old(gfx).next_frame_id < u32::MAX,
        old(gate).dropped < u64::MAX,
        call_ensures(FrameGate::decide, (gate, gfx, size, keyframe, new_second, cooled), r),
    ensures
        ({
            let full = !new_second && old(gate).bytes_in_window > 5_000_000;
            let id = old(gfx).next_frame_id;
            &&& keyframe ==> r == (Decision::Send { frame_id: id })
            &&& !keyframe && full ==> r == Decision::Throttled
            &&& !keyframe && !full && size < 50 ==> r == Decision::Unchanged
            &&& !keyframe && !full && size > 512_000 ==> r == (Decision::Oversized {
                force_keyframe: cooled,
            })
            &&& !keyframe && !full && 50 <= size <= 512_000 ==> r == (Decision::Send { frame_id: id })
            &&& r is Send || r is Unchanged ==> final(gfx).next_frame_id == id
            &&& r is Throttled || r is Oversized ==> final(gfx).next_frame_id == id + 1
            &&& new_second ==> final(gate).bytes_in_window == 0
            &&& !new_second ==> final(gate).bytes_in_window == old(gate).bytes_in_window
            &&& r is Oversized ==> final(gate).dropped == old(gate).dropped + 1
            &&& r !is Oversized ==> final(gate).dropped == old(gate).dropped
        }),
{
}

/// What was sent counts towards the second, and the next frame has the next number.
pub proof fn lemma_sent_bytes_count(
    gate: &mut FrameGate,
    gfx: &mut GfxSharedState,
    frame_id: u32,
    bytes: Option<usize>,
)
    requires
        frame_id < u32::MAX,
        bytes is Some ==> old(gate).bytes_in_window + bytes->0 <= u64::MAX,
        call_ensures(FrameGate::sent, (gate, gfx, frame_id, bytes), ()),
    ensures
        final(gfx).next_frame_id == frame_id + 1,
        final(gfx).ready == old(gfx).ready,
        final(gfx).channel_id == old(gfx).channel_id,
        bytes matches Some(n) ==> final(gate).bytes_in_window == old(gate).bytes_in_window + n
            && final(gate).dropped == 0,
        bytes is None ==> *final(gate) == *old(gate),
{
}

/// The frames of a second fill it, but for less than a microsecond each.
pub proof fn lemma_frames_fill_a_second(fps: u32, r: u64)
    requires
        fps > 0,
        call_ensures(frame_interval_micros, (fps,), r),
    ensures
        r * fps <= 1_000_000 < (r + 1) * fps,
{
    vstd::arithmetic::div_mod::lemma_fundamental_div_mod(1_000_000, fps as int);
    vstd::arithmetic::div_mod::lemma_mod_bound(1_000_000, fps as int);
    let q = 1_000_000int / fps as int;
    assert(r * fps == fps * q && (r + 1) * fps == fps * q + fps) by (nonlinear_arith)
        requires
            r == q,
    ;
}

/// Exchanging red and blue moves the first byte of each pixel to the third place and back; the others
/// stay.
pub proof fn lemma_red_and_blue_change_places(pixels: &[u8], r: Vec<u8>)
    requires
        call_ensures(swap_red_blue, (pixels,), r),
    ensures
        r@.len() == pixels@.len(),
        forall|p: int|
            0 <= p && 4 * p + 4 <= pixels@.len() ==> {
                &&& #[trigger] r@[4 * p] == pixels@[4 * p + 2]
                &&& r@[4 * p + 1] == pixels@[4 * p + 1]
                &&& r@[4 * p + 2] == pixels@[4 * p]
                &&& r@[4 * p + 3] == pixels@[4 * p + 3]
            },
{
    assert forall|p: int| 0 <= p && 4 * p + 4 <= pixels@.len() implies {
        &&& #[trigger] r@[4 * p] == pixels@[4 * p + 2]
        &&& r@[4 * p + 1] == pixels@[4 * p + 1]
        &&& r@[4 * p + 2] == pixels@[4 * p]
        &&& r@[4 * p + 3] == pixels@[4 * p + 3]
    } by {
        assert((4 * p) % 4 == 0 && (4 * p + 1) % 4 == 1 && (4 * p + 2) % 4 == 2 && (4 * p + 3) % 4 == 3);
    }
}

/// The picture of all outputs reaches to the right and to the bottom as far as the outputs do, and no
/// further.
pub proof fn lemma_picture_holds_all_outputs(outputs: &[OutputState], r: (u16, u16))
    requires
        call_ensures(composite_size, (outputs,), r),
        outputs@.len() > 0,
        forall|i: int|
            0 <= i < outputs@.len() ==> {
                &&& 0 < (#[trigger] outputs@[i]).geometry.x + outputs@[i].geometry.width <= 65535
                &&& 0 < outputs@[i].geometry.y + outputs@[i].geometry.height <= 65535
            },
    ensures
        forall|i: int|
            0 <= i < outputs@.len() ==> {
                &&& (#[trigger] outputs@[i]).geometry.x + outputs@[i].geometry.width <= r.0
                &&& outputs@[i].geometry.y + outputs@[i].geometry.height <= r.1
            },
        exists|i: int|
            0 <= i < outputs@.len() && (#[trigger] outputs@[i]).geometry.x
                + outputs@[i].geometry.width == r.0,
        exists|i: int|
            0 <= i < outputs@.len() && (#[trigger] outputs@[i]).geometry.y
                + outputs@[i].geometry.height == r.1,
{
    let e = extent(outputs@);
    lemma_extent_is_reached(outputs@);
    let i = choose|i: int|
        0 <= i < outputs@.len() && (#[trigger] outputs@[i]).geometry.x + outputs@[i].geometry.width
            == e.0;
    let j = choose|j: int|
        0 <= j < outputs@.len() && (#[trigger] outputs@[j]).geometry.y + outputs@[j].geometry.height
            == e.1;
    assert(outputs@[i].geometry.x + outputs@[i].geometry.width == e.0);
    assert(outputs@[j].geometry.y + outputs@[j].geometry.height == e.1);
    assert(e.0 % 65536 == e.0 && e.1 % 65536 == e.1);
    assert(r.0 == e.0 && r.1 == e.1);
    assert forall|k: int| 0 <= k < outputs@.len() implies {
        &&& (#[trigger] outputs@[k]).geometry.x + outputs@[k].geometry.width <= r.0
        &&& outputs@[k].geometry.y + outputs@[k].geometry.height <= r.1
    } by {
        lemma_extent_bounds(outputs@, k);
    }
}

proof fn lemma_extent_is_reached(outputs: Seq<OutputState>)
    requires
        outputs.len() > 0,
        forall|i: int|
            0 <= i < outputs.len() ==> {
                &&& 0 < (#[trigger] outputs[i]).geometry.x + outputs[i].geometry.width
                &&& 0 < outputs[i].geometry.y + outputs[i].geometry.height
            },
    ensures
        exists|i: int|
            0 <= i < outputs.len() && (#[trigger] outputs[i]).geometry.x + outputs[i].geometry.width
                == extent(outputs).0,
        exists|i: int|
            0 <= i < outputs.len() && (#[trigger] outputs[i]).geometry.y + outputs[i].geometry.height
                == extent(outputs).1,
    decreases outputs.len(),
{
    let front = outputs.drop_last();
    let last = outputs.len() - 1;
    assert(forall|i: int| 0 <= i < front.len() ==> #[trigger] front[i] == outputs[i]);
    let g = outputs[last].geometry;
    if front.len() > 0 {
        lemma_extent_is_reached(front);
        let i = choose|i: int|
            0 <= i < front.len() && (#[trigger] front[i]).geometry.x + front[i].geometry.width == extent(
                front,
            ).0;
        let j = choose|j: int|
            0 <= j < front.len() && (#[trigger] front[j]).geometry.y + front[j].geometry.height
                == extent(front).1;
        let i2 = if g.x + g.width > extent(front).0 {
            last
        } else {
            i
        };
        let j2 = if g.y + g.height > extent(front).1 {
            last
        } else {
            j
        };
        assert(outputs[i2].geometry.x + outputs[i2].geometry.width == extent(outputs).0);
        assert(outputs[j2].geometry.y + outputs[j2].geometry.height == extent(outputs).1);
    } else {
        assert(extent(front) == (0int, 0int));
        assert(outputs[last].geometry.x + outputs[last].geometry.width == extent(outputs).0);
        assert(outputs[last].geometry.y + outputs[last].geometry.height == extent(outputs).1);
    }
}

/// The pixel lies within the output.
pub open spec fn within(d: DirtyOutput, row: int, col: int) -> bool {
    d.x <= col < d.x + d.width && d.y <= row < d.y + d.height
}

/// The output lies within the picture, and all its pixels are there.
pub open spec fn fits_in(d: DirtyOutput, c: Canvas) -> bool {
    &&& d.x + d.width <= c.width
    &&& d.y + d.height <= c.height
    &&& d.pixels@.len() == 4 * (d.width * d.height)
}

proof fn lemma_blit_keeps_rest(
    buffer: Seq<u8>,
    width: int,
    height: int,
    x: int,
    y: int,
    w: int,
    pixels: Seq<u8>,
    n: int,
    row: int,
    col: int,
    c: int,
)
    requires
        0 <= x,
        0 <= y,
        0 <= w,
        x + w <= width,
        0 <= n,
        y + n <= height,
        buffer.len() == 4 * (width * height),
        0 <= row < height,
        0 <= col < width,
        0 <= c < 4,
        !(x <= col < x + w && y <= row < y + n),
    ensures
        blitted(buffer, width, x, y, w, pixels, n)[4 * (row * width + col) + c] == buffer[4 * (row
            * width + col) + c],
    decreases n,
{
    if n > 0 {
        lemma_blit_keeps_rest(buffer, width, height, x, y, w, pixels, n - 1, row, col, c);
        lemma_blit_keeps_size(buffer, width, x, y, w, pixels, n - 1);
        let before = blitted(buffer, width, x, y, w, pixels, n - 1);
        let len = 4 * w;
        let from = (n - 1) * len;
        let to = (y + n - 1) * (4 * width) + 4 * x;
        let i = 4 * (row * width + col) + c;
        lemma_grid_index(row, col, width, height);
        assert(0 <= to && to + len <= 4 * (width * height)) by (nonlinear_arith)
            requires
                to == (y + n - 1) * (4 * width) + 4 * x,
                len == 4 * w,
                0 <= x,
                x + w <= width,
                0 <= y,
                1 <= n,
                y + n <= height,
                0 <= w,
        ;
        assert(0 <= from) by (nonlinear_arith)
            requires
                from == (n - 1) * len,
                1 <= n,
                0 <= len,
        ;
        assert(i < to || to + len <= i) by (nonlinear_arith)
            requires
                i == 4 * (row * width + col) + c,
                to == (y + n - 1) * (4 * width) + 4 * x,
                len == 4 * w,
                !(x <= col < x + w && y <= row < y + n),
                0 <= c < 4,
                0 <= col < width,
                0 <= x,
                0 <= w,
                x + w <= width,
                0 <= row,
                0 <= y,
                1 <= n,
        ;
        if from + len <= pixels.len() && to + len <= before.len() {
            let after = overwritten(before, to, pixels.subrange(from, from + len));
            assert(after[i] == before[i]);
        }
    }
}

proof fn lemma_composed_size(buffer: Seq<u8>, width: int, dirty: Seq<DirtyOutput>)
    requires
        0 <= width,
    ensures
        composed(buffer, width, dirty).len() == buffer.len(),
    decreases dirty.len(),
{
    if dirty.len() > 0 {
        lemma_composed_size(buffer, width, dirty.drop_last());
        let d = dirty.last();
        lemma_blit_keeps_size(
            composed(buffer, width, dirty.drop_last()),
            width,
            d.x as int,
            d.y as int,
            d.width as int,
            d.pixels@,
            d.height as int,
        );
    }
}

proof fn lemma_composed_pixel(
    c: Canvas,
    dirty: Seq<DirtyOutput>,
    k: int,
    row: int,
    col: int,
    b: int,
)
    requires
        c.buffer@.len() == 4 * (c.width * c.height),
        forall|j: int| 0 <= j < dirty.len() ==> fits_in(#[trigger] dirty[j], c),
        0 <= row < c.height,
        0 <= col < c.width,
        0 <= b < 4,
        -1 <= k < dirty.len(),
        k >= 0 ==> within(dirty[k], row, col),
        forall|j: int| k < j < dirty.len() ==> !within(#[trigger] dirty[j], row, col),
    ensures
        ({
            let after = composed(c.buffer@, c.width as int, dirty)[4 * (row * c.width + col) + b];
            &&& k < 0 ==> after == c.buffer@[4 * (row * c.width + col) + b]
            &&& k >= 0 ==> after == dirty[k].pixels@[4 * ((row - dirty[k].y) * dirty[k].width + (col
                - dirty[k].x)) + b]
        }),
    decreases dirty.len(),
{
    if dirty.len() > 0 {
        let front = dirty.drop_last();
        let last = dirty.len() - 1;
        let d = dirty[last];
        assert(forall|j: int| 0 <= j < front.len() ==> #[trigger] front[j] == dirty[j]);
        let before = composed(c.buffer@, c.width as int, front);
        lemma_composed_size(c.buffer@, c.width as int, front);
        assert(fits_in(dirty[last], c));
        if k == last {
            lemma_blit_shows_output(
                before,
                c.width as int,
                c.height as int,
                d.x as int,
                d.y as int,
                d.width as int,
                d.pixels@,
                d.height as int,
                row - d.y,
                col - d.x,
                b,
            );
        } else {
            assert(!within(dirty[last], row, col));
            lemma_composed_pixel(c, front, k, row, col, b);
            lemma_blit_keeps_rest(
                before,
                c.width as int,
                c.height as int,
                d.x as int,
                d.y as int,
                d.width as int,
                d.pixels@,
                d.height as int,
                row,
                col,
                b,
            );
        }
    }
}

/// In the picture that is made, each pixel is that of the last output that covers it, and stays as it was
/// where none does. The frame holds the same picture with blue first. Without outputs there is no frame.
pub proof fn lemma_outputs_are_shown(
    canvas: &mut Canvas,
    dirty: &[DirtyOutput],
    r: Option<Vec<u8>>,
    k: int,
    row: int,
    col: int,
)
    requires
        old(canvas).wf(),
        call_ensures(compose, (canvas, dirty), r),
        forall|j: int| 0 <= j < dirty@.len() ==> fits_in(#[trigger] dirty@[j], *old(canvas)),
        0 <= row < old(canvas).height,
        0 <= col < old(canvas).width,
        -1 <= k < dirty@.len(),
        k >= 0 ==> within(dirty@[k], row, col),
        forall|j: int| k < j < dirty@.len() ==> !within(#[trigger] dirty@[j], row, col),
    ensures
        r is Some <==> dirty@.len() > 0,
        final(canvas).width == old(canvas).width,
        final(canvas).height == old(canvas).height,
        ({
            let at = 4 * (row * old(canvas).width + col);
            let d = dirty@[k];
            let from = 4 * ((row - d.y) * d.width + (col - d.x));
            let picture = final(canvas).buffer@;
            &&& k < 0 ==> forall|b: int|
                0 <= b < 4 ==> #[trigger] picture[at + b] == old(canvas).buffer@[at + b]
            &&& k >= 0 ==> forall|b: int|
                0 <= b < 4 ==> #[trigger] picture[at + b] == d.pixels@[from + b]
            &&& r matches Some(frame) ==> {
                &&& frame@[at] == picture[at + 2]
                &&& frame@[at + 1] == picture[at + 1]
                &&& frame@[at + 2] == picture[at]
                &&& frame@[at + 3] == picture[at + 3]
            }
        }),
{
    let c = *old(canvas);
    let at = 4 * (row * c.width + col);
    lemma_grid_index(row, col, c.width as int, c.height as int);
    lemma_composed_size(c.buffer@, c.width as int, dirty@);
    lemma_composed_pixel(c, dirty@, k, row, col, 0);
    lemma_composed_pixel(c, dirty@, k, row, col, 1);
    lemma_composed_pixel(c, dirty@, k, row, col, 2);
    lemma_composed_pixel(c, dirty@, k, row, col, 3);
    assert(c.width * c.height == c.height * c.width) by (nonlinear_arith);
    assert(at % 4 == 0 && (at + 1) % 4 == 1 && (at + 2) % 4 == 2 && (at + 3) % 4 == 3);
}

/// Each output has a surface: numbered in order, at the output's place and of its size.
pub proof fn lemma_outputs_have_surfaces(outputs: &[OutputState], r: Vec<GfxOutputInfo>, k: int)
    requires
        call_ensures(gfx_outputs, (outputs,), r),
        0 <= k < outputs@.len(),
    ensures
        r@.len() == outputs@.len(),
        r@[k].name == outputs@[k].name,
        k < 65536 ==> r@[k].surface_id == k,
        outputs@[k].geometry.x >= 0 ==> r@[k].x == outputs@[k].geometry.x,
        outputs@[k].geometry.y >= 0 ==> r@[k].y == outputs@[k].geometry.y,
        0 <= outputs@[k].geometry.width < 65536 ==> r@[k].width == outputs@[k].geometry.width,
        0 <= outputs@[k].geometry.height < 65536 ==> r@[k].height == outputs@[k].geometry.height,
{
    assert(crate::session::surfaces::is_surface(outputs@, k, r@[k]));
    let g = outputs@[k].geometry;
    if g.x >= 0 {
        vstd::arithmetic::div_mod::lemma_small_mod(g.x as nat, 0x1_0000_0000);
    }
    if g.y >= 0 {
        vstd::arithmetic::div_mod::lemma_small_mod(g.y as nat, 0x1_0000_0000);
    }
}

/// An output's surface is found by its name.
pub proof fn lemma_surface_is_found(surfaces: &[GfxOutputInfo], name: &str, r: u16, k: int)
    requires
        call_ensures(surface_id_for_output, (surfaces, name), r),
        0 <= k < surfaces@.len(),
        surfaces@[k].name@ == name@,
        forall|j: int|
            0 <= j < surfaces@.len() && j != k ==> (#[trigger] surfaces@[j]).name@ != name@,
    ensures
        r == surfaces@[k].surface_id,
{
}

/// The desktop of a new client is as large as the first output.
pub proof fn lemma_desktop_is_the_first_output(outputs: &[OutputState], r: Option<(u16, u16)>)
    requires
        call_ensures(primary_size, (outputs,), r),
    ensures
        outputs@.len() == 0 <==> r is None,
        outputs@.len() > 0 && 0 <= outputs@[0].geometry.width < 65536 && 0
            <= outputs@[0].geometry.height < 65536 ==> (r matches Some(size) && size.0
            == outputs@[0].geometry.width && size.1 == outputs@[0].geometry.height),
{
}

/// What is missing is what is in the one list and not in the other.
pub proof fn lemma_what_is_missing(names: &[String], others: &[String], r: Vec<String>, name: Seq<char>)
    requires
        call_ensures(missing_from, (names, others), r),
    ensures
        (exists|k: int| 0 <= k < r@.len() && (#[trigger] r@[k])@ == name) <==> {
            &&& exists|k: int| 0 <= k < names@.len() && (#[trigger] names@[k])@ == name
            &&& forall|k: int| 0 <= k < others@.len() ==> (#[trigger] others@[k])@ != name
        },
{
    lemma_missing(names@, others@, name);
    assert(listed(r@, name) == (exists|k: int| 0 <= k < r@.len() && (#[trigger] r@[k])@ == name));
    assert(listed(names@, name) == (exists|k: int|
        0 <= k < names@.len() && (#[trigger] names@[k])@ == name));
    assert(listed(others@, name) == (exists|k: int|
        0 <= k < others@.len() && (#[trigger] others@[k])@ == name));
}

/// A response that waits goes out once, as soon as it can be sent, and then the channel is ready. If it
/// cannot be sent it is lost, and the channel is as ready as before.
pub proof fn lemma_response_goes_out_once(
    gfx: &mut GfxSharedState,
    can_send: bool,
    r: Option<GfxPendingResponse>,
)
    requires
        call_ensures(take_response, (gfx, can_send), r),
    ensures
        final(gfx).pending_response is None,
        can_send ==> r == old(gfx).pending_response,
        !can_send ==> r is None && final(gfx).ready == old(gfx).ready,
        r is Some ==> final(gfx).ready,
        r is None ==> final(gfx).ready == old(gfx).ready,
        final(gfx).next_frame_id == old(gfx).next_frame_id,
        final(gfx).channel_id == old(gfx).channel_id,
        final(gfx).outputs == old(gfx).outputs,
        final(gfx).avc_supported == old(gfx).avc_supported,
{
}

/// A frame that passes goes to the open channel as a message that holds it whole for the whole surface,
/// under the next number, and counts towards the second. Keyframes pass; others pass if they hold a change
/// and are not too large, and if not too much went out within the second.
pub proof fn lemma_frame_goes_out(
    gate: &mut FrameGate,
    gfx: &mut GfxSharedState,
    frame: &EncodedFrame,
    surface_id: u16,
    width: u16,
    height: u16,
    new_second: bool,
    cooled: bool,
    can_send: bool,
    r: Passed,
)
    requires
        old(gfx).next_frame_id < u32::MAX,
        old(gate).dropped < u64::MAX,
        old(gate).bytes_in_window <= u64::MAX / 2,
        frame.data@.len() <= u32::MAX - 39,
        call_ensures(
            pass_frame,
            (gate, gfx, frame, surface_id, width, height, new_second, cooled, can_send),
            r,
        ),
    ensures
        ({
            let n = frame.data@.len() as int;
            let count = if new_second {
                0int
            } else {
                old(gate).bytes_in_window as int
            };
            let passes = frame.is_keyframe || (count <= 5_000_000 && 50 <= n <= 512_000);
            let id = old(gfx).next_frame_id;
            &&& r.message is Some <==> passes && can_send && old(gfx).channel_id is Some
            &&& r.message matches Some((channel, m)) ==> {
                &&& old(gfx).channel_id == Some(channel)
                &&& m@.len() == 69 + n
                &&& start_at(m@, 2, id)
                &&& picture_at(
                    m@,
                    18,
                    surface_id,
                    0,
                    0,
                    last_pixel(width),
                    last_pixel(height),
                    frame.data@,
                )
                &&& end_at(m@, 57 + n, id)
                &&& r.keyframe == frame.is_keyframe
                &&& final(gate).bytes_in_window == count + m@.len()
            }
            &&& r.message is None ==> !r.keyframe && final(gate).bytes_in_window == count
            &&& r.force_keyframe <==> !frame.is_keyframe && count <= 5_000_000 && n > 512_000 && cooled
            &&& final(gfx).next_frame_id == if !frame.is_keyframe && count <= 5_000_000 && n < 50 {
                id as int
            } else {
                id + 1
            }
        }),
{
    let n = frame.data@.len() as int;
    lemma_part_length(frame.data@, surface_id, whole_picture(width, height));
    if r.message is Some {
        let m = (r.message->0).1@;
        lemma_frame_bytes(m, frame.data@, surface_id, width, height, old(gfx).next_frame_id);
    }
}

/// The frames of tiles go out together if there are any, the channel is open and can send, and each of
/// them can be carried. The message is a keyframe's if one of them is.
pub proof fn lemma_tiles_go_out(
    gfx: &mut GfxSharedState,
    frames: &[TileFrame],
    surface_id: u16,
    can_send: bool,
    r: TilesPassed,
)
    requires
        old(gfx).next_frame_id < u32::MAX,
        call_ensures(pass_tiles, (gfx, frames, surface_id, can_send), r),
        forall|k: int|
            0 <= k < frames@.len() ==> (#[trigger] frames@[k]).data@.len() <= u32::MAX - 39,
    ensures
        r.message is Some <==> frames@.len() > 0 && can_send && old(gfx).channel_id is Some,
        r.message is Some ==> old(gfx).channel_id == Some((r.message->0).0),
        r.keyframe <==> r.message is Some && exists|k: int|
            0 <= k < frames@.len() && (#[trigger] frames@[k]).is_keyframe,
        final(gfx).next_frame_id == old(gfx).next_frame_id + if frames@.len() > 0 {
            1int
        } else {
            0
        },
{
    assert forall|k: int| 0 <= k < frames@.len() implies crate::gfx::channel::part_picture(
        (#[trigger] frames@[k]).data@,
        surface_id,
        crate::gfx::channel::tile_rect(frames@[k]),
    ).len() <= u32::MAX by {
        lemma_part_length(
            frames@[k].data@,
            surface_id,
            crate::gfx::channel::tile_rect(frames@[k]),
        );
    }
    assert(crate::gfx::channel::tiles_fit(frames@, surface_id));
}

/// The focused output has the size that waited, where it was, and is arranged anew.
pub proof fn lemma_focused_output_is_resized(
    s: &mut DinatorState,
    width: u16,
    height: u16,
    effects: Vec<Effect>,
    i: int,
)
    requires
        old(s).wf(),
        is_focused(*old(s), i),
        call_ensures(DinatorState::resize_focused, (s, Some((width, height))), effects),
    ensures
        final(s).outputs@.len() == old(s).outputs@.len(),
        final(s).outputs@[i].geometry.width == width,
        final(s).outputs@[i].geometry.height == height,
        final(s).outputs@[i].geometry.x == old(s).outputs@[i].geometry.x,
        final(s).outputs@[i].geometry.y == old(s).outputs@[i].geometry.y,
        final(s).outputs@[i].layout == old(s).outputs@[i].layout,
        forall|j: int|
            0 <= j < old(s).outputs@.len() && j != i ==> #[trigger] final(s).outputs@[j] == old(
                s,
            ).outputs@[j],
        effects@ == seq![Effect::Retile { output: old(s).outputs@[i].name }],
        same_windows(*old(s), *final(s)),
        same_lists(*old(s), *final(s)),
{
    lemma_focused(*old(s), i);
    lemma_view_parts(*old(s), *final(s));
}

/// A hidden pointer is hidden for the client, one with a picture of its own is shown with it, and any
/// other is the client's own. The client hears of a move only while the pointer is shown, and only of a
/// new place.
pub proof fn lemma_pointer_is_told(
    feed: &mut PointerFeed,
    status: CursorStatus,
    r: PointerUpdate,
    x: u16,
    y: u16,
    tell: bool,
)
    ensures
        call_ensures(PointerFeed::set_shape, (feed, status), r) ==> {
            &&& status is Hidden <==> r is Hide
            &&& status is Surface <==> r is Picture
            &&& final(feed).hidden <==> status is Hidden
            &&& final(feed).x == old(feed).x && final(feed).y == old(feed).y
        },
        call_ensures(PointerFeed::moved, (feed, x, y), tell) ==> {
            &&& final(feed).hidden == old(feed).hidden
            &&& old(feed).hidden ==> !tell
            &&& !old(feed).hidden ==> final(feed).x == x && final(feed).y == y
            &&& !old(feed).hidden ==> (tell <==> old(feed).x != x || old(feed).y != y)
        },
{
}

/// The pointer's picture has the pixels of the buffer row by row, with red first where the buffer has
/// blue; what the buffer does not hold is transparent.
pub proof fn lemma_pointer_has_its_picture(
    data: &[u8],
    w: usize,
    h: usize,
    stride: usize,
    r: Vec<u8>,
    x: int,
    y: int,
)
    requires
        4 * (w * h) <= usize::MAX,
        h * stride + 4 * w + 4 <= usize::MAX,
        call_ensures(cursor_pixels, (data, w, h, stride), r),
        0 <= x < w,
        0 <= y < h,
    ensures
        r@.len() == 4 * (w * h),
        ({
            let at = 4 * (y * w + x);
            let from = y * stride + 4 * x;
            &&& from + 4 <= data@.len() ==> {
                &&& r@[at] == data@[from + 2]
                &&& r@[at + 1] == data@[from + 1]
                &&& r@[at + 2] == data@[from]
                &&& r@[at + 3] == data@[from + 3]
            }
            &&& from + 4 > data@.len() ==> {
                &&& r@[at] == 0
                &&& r@[at + 1] == 0
                &&& r@[at + 2] == 0
                &&& r@[at + 3] == 0
            }
        }),
{
    let q = y * w + x;
    lemma_grid_index(y, x, w as int, h as int);
    lemma_row_col(q, y, x, w as int);
    assert(w * h == h * w) by (nonlinear_arith);
    assert((4 * q) / 4 == q && (4 * q) % 4 == 0);
    assert((4 * q + 1) / 4 == q && (4 * q + 1) % 4 == 1);
    assert((4 * q + 2) / 4 == q && (4 * q + 2) % 4 == 2);
    assert((4 * q + 3) / 4 == q && (4 * q + 3) % 4 == 3);
    let p = rgba_pixels(data@, w as int, h as int, stride as int);
    assert(r@ == p);
    assert(p[4 * q] == p[4 * q + 0]);
}

/// A step is for the button.
pub open spec fn is_button(step: InputStep, button: u32, pressed: bool) -> bool {
    step matches InputStep::Button { button: b, pressed: p } && b == button && p == pressed
}

/// The steps press or release the button exactly if its bit changed, and to what the bit says.
pub open spec fn button_follows(steps: Seq<InputStep>, button: u32, before: int, after: int) -> bool {
    &&& before != after ==> exists|k: int|
        0 <= k < steps.len() && is_button(#[trigger] steps[k], button, after == 1)
    &&& forall|k: int|
        0 <= k < steps.len() ==> ((#[trigger] steps[k]) matches InputStep::Button { button: b, pressed }
            ==> (b == button ==> before != after && pressed == (after == 1)))
}

/// Of a VNC client's pointer, the place is followed first; then each button whose bit changed goes down
/// or up: bit 0 is the left button, bit 1 the middle one and bit 2 the right one.
pub proof fn lemma_vnc_pointer_is_followed(
    v: &mut VncInput,
    s: &mut DinatorState,
    x: u16,
    y: u16,
    button_mask: u8,
    steps: Vec<InputStep>,
)
    requires
        old(v).keys.wf(),
        old(s).wf(),
        call_ensures(
            VncInput::handle,
            (v, s, VncInputEvent::PointerMove { x, y, button_mask }),
            steps,
        ),
    ensures
        ({
            let a = old(v).button_mask as int;
            let b = button_mask as int;
            &&& final(v).button_mask == button_mask
            &&& final(v).keys@ == old(v).keys@
            &&& final(s)@ == old(s)@
            &&& steps@.len() >= 1
            &&& steps@[0] == (InputStep::PointerTo { x, y })
            &&& button_follows(steps@, 0x110, a % 2, b % 2)
            &&& button_follows(steps@, 0x112, a / 2 % 2, b / 2 % 2)
            &&& button_follows(steps@, 0x111, a / 4 % 2, b / 4 % 2)
        }),
{
    let a = old(v).button_mask;
    let b = button_mask;
    let all = changes(a, b);
    let mapped = all.map_values(|c: ButtonChange| crate::session::events::button_step(c));
    let left = crate::input::remote::change_of(a, b, 0, 0x110);
    let middle = crate::input::remote::change_of(a, b, 1, 0x112);
    let right = crate::input::remote::change_of(a, b, 2, 0x111);
    assert(all =~= left + middle + right);
    assert(steps@ == seq![InputStep::PointerTo { x, y }] + mapped);
    assert forall|k: int| 1 <= k < steps@.len() implies #[trigger] steps@[k]
        == crate::session::events::button_step(all[k - 1]) by {
        assert(steps@[k] == mapped[k - 1]);
    }
    if left.len() > 0 {
        assert(all[0] == left[0]);
        assert(is_button(steps@[1], 0x110, b as int % 2 == 1));
    }
    if middle.len() > 0 {
        let k = left.len() as int;
        assert(all[k] == middle[0]);
        assert(is_button(steps@[k + 1], 0x112, b as int / 2 % 2 == 1));
    }
    if right.len() > 0 {
        let k = (left.len() + middle.len()) as int;
        assert(all[k] == right[0]);
        assert(is_button(steps@[k + 1], 0x111, b as int / 4 % 2 == 1));
    }
}

/// A key goes down once for as long as a client holds it, and up when it lets go; repeated presses do
/// not count. Afterwards it is held or not, and the other keys are as they were.
pub open spec fn key_follows(
    before: Seq<u32>,
    after: Seq<u32>,
    steps: Seq<InputStep>,
    keycode: u32,
    pressed: bool,
) -> bool {
    &&& after.contains(keycode) <==> pressed
    &&& forall|k: u32| k != keycode ==> (#[trigger] after.contains(k) <==> before.contains(k))
    &&& pressed && before.contains(keycode) ==> steps == Seq::<InputStep>::empty()
    &&& !(pressed && before.contains(keycode)) ==> steps == seq![InputStep::Key { keycode, pressed }]
}

proof fn lemma_key_follows(
    before: Seq<u32>,
    after: Seq<u32>,
    steps: Seq<InputStep>,
    keycode: u32,
    pressed: bool,
)
    requires
        before.no_duplicates(),
        crate::input::remote::key_noted(before, after, keycode, pressed),
        steps == crate::session::events::key_steps(before, keycode, pressed),
    ensures
        key_follows(before, after, steps, keycode, pressed),
{
    if pressed && !before.contains(keycode) {
        assert(after == before.push(keycode));
        assert(after[before.len() as int] == keycode);
        assert forall|k: u32| k != keycode implies (#[trigger] after.contains(k) <==> before.contains(
            k,
        )) by {
            if before.contains(k) {
                let j = choose|j: int| 0 <= j < before.len() && before[j] == k;
                assert(after[j] == k);
            }
            if after.contains(k) {
                let j = choose|j: int| 0 <= j < after.len() && after[j] == k;
                assert(before[j] == k);
            }
        }
    } else if !pressed && before.contains(keycode) {
        let i = choose|i: int|
            0 <= i < before.len() && before[i] == keycode && after == #[trigger] before.remove(i);
        lemma_released(before, i, keycode);
        assert forall|k: u32| k != keycode implies (#[trigger] after.contains(k) <==> before.contains(
            k,
        )) by {
            lemma_released(before, i, k);
        }
    }
}

/// Keys of an RDP client go down and up as it presses and releases them, the pointer goes where it says,
/// its buttons and its wheel do what it does, and the compositor ends when it says so.
pub proof fn lemma_rdp_input_is_followed(
    input: &mut RdpInput,
    s: &mut DinatorState,
    monitors: &mut DisplayControlState,
    keycode: u32,
    pressed: bool,
    x: u16,
    y: u16,
    button: u32,
    value: i16,
    steps: Vec<InputStep>,
)
    requires
        old(input).keys.wf(),
        old(s).wf(),
    ensures
        call_ensures(
            RdpInput::handle,
            (input, s, monitors, RdpInputEvent::Key { keycode, pressed }),
            steps,
        ) ==> key_follows(old(input).keys@, final(input).keys@, steps@, keycode, pressed),
        call_ensures(RdpInput::handle, (input, s, monitors, RdpInputEvent::MouseMove { x, y }), steps)
            ==> steps@ == seq![InputStep::PointerTo { x, y }],
        call_ensures(
            RdpInput::handle,
            (input, s, monitors, RdpInputEvent::MouseButton { button, pressed }),
            steps,
        ) ==> steps@ == seq![InputStep::Button { button, pressed }],
        call_ensures(
            RdpInput::handle,
            (input, s, monitors, RdpInputEvent::MouseScroll { value }),
            steps,
        ) ==> steps@ == seq![InputStep::Scroll { value }],
        call_ensures(RdpInput::handle, (input, s, monitors, RdpInputEvent::Quit), steps) ==> steps@
            == seq![InputStep::Quit],
{
    if call_ensures(
        RdpInput::handle,
        (input, s, monitors, RdpInputEvent::Key { keycode, pressed }),
        steps,
    ) {
        lemma_key_follows(old(input).keys@, final(input).keys@, steps@, keycode, pressed);
    }
}

/// A step releases these keys.
pub open spec fn lets_go(step: InputStep, keys: Seq<u32>) -> bool {
    step matches InputStep::Release { keycodes } && keycodes@ == keys
}

/// A step tells of one event.
pub open spec fn tells_of(step: InputStep, event: IpcEvent) -> bool {
    step matches InputStep::Effects { effects } && effects@ == seq![Effect::Emit { event }]
}

/// When an RDP client goes, every key that it held goes up, what it told of its monitors is forgotten,
/// the desktop is that of the first output, and it counts no more. One that comes holds no key.
pub proof fn lemma_rdp_client_comes_and_goes(
    input: &mut RdpInput,
    s: &mut DinatorState,
    monitors: &mut DisplayControlState,
    steps: Vec<InputStep>,
)
    requires
        old(input).keys.wf(),
        old(s).wf(),
        old(s).rdp_clients < u32::MAX,
    ensures
        call_ensures(RdpInput::handle, (input, s, monitors, RdpInputEvent::ClientDisconnected), steps)
            ==> {
            &&& final(input).keys@.len() == 0
            &&& final(monitors).pending_layout is None
            &&& steps@.len() == 2
            &&& lets_go(steps@[0], old(input).keys@)
            &&& tells_of(steps@[1], IpcEvent::ClientDisconnected { protocol: Protocol::Rdp })
            &&& old(s).rdp_clients > 0 ==> final(s).rdp_clients == old(s).rdp_clients - 1
            &&& final(s).vnc_clients == old(s).vnc_clients
            &&& old(s).outputs@.len() > 0 && 0 <= old(s).outputs@[0].geometry.width < 65536 && 0
                <= old(s).outputs@[0].geometry.height < 65536 ==> {
                &&& final(input).desktop.0 == old(s).outputs@[0].geometry.width
                &&& final(input).desktop.1 == old(s).outputs@[0].geometry.height
            }
        },
        call_ensures(RdpInput::handle, (input, s, monitors, RdpInputEvent::ClientConnected), steps) ==> {
            &&& final(input).keys@.len() == 0
            &&& steps@.len() == 1
            &&& tells_of(steps@[0], IpcEvent::ClientConnected { protocol: Protocol::Rdp })
            &&& final(s).rdp_clients == old(s).rdp_clients + 1
            &&& final(s).vnc_clients == old(s).vnc_clients
            &&& final(monitors).pending_layout == old(monitors).pending_layout
        },
{
    if call_ensures(RdpInput::handle, (input, s, monitors, RdpInputEvent::ClientDisconnected), steps) {
        assert(final(s)@.rdp_clients == final(s).rdp_clients);
        assert(final(s)@.vnc_clients == final(s).vnc_clients);
    }
    if call_ensures(RdpInput::handle, (input, s, monitors, RdpInputEvent::ClientConnected), steps) {
        assert(final(s)@.rdp_clients == final(s).rdp_clients);
        assert(final(s)@.vnc_clients == final(s).vnc_clients);
    }
}

/// When a VNC client goes, every key that it held goes up, and it counts no more. One that comes holds no
/// key. A size that it asks for is the focused output's.
pub proof fn lemma_vnc_client_comes_and_goes(
    v: &mut VncInput,
    s: &mut DinatorState,
    width: u16,
    height: u16,
    steps: Vec<InputStep>,
)
    requires
        old(v).keys.wf(),
        old(s).wf(),
        old(s).vnc_clients < u32::MAX,
    ensures
        call_ensures(VncInput::handle, (v, s, VncInputEvent::ClientDisconnected), steps) ==> {
            &&& final(v).keys@.len() == 0
            &&& steps@.len() == 2
            &&& lets_go(steps@[0], old(v).keys@)
            &&& tells_of(steps@[1], IpcEvent::ClientDisconnected { protocol: Protocol::Vnc })
            &&& old(s).vnc_clients > 0 ==> final(s).vnc_clients == old(s).vnc_clients - 1
            &&& final(s).rdp_clients == old(s).rdp_clients
        },
        call_ensures(VncInput::handle, (v, s, VncInputEvent::ClientConnected), steps) ==> {
            &&& final(v).keys@.len() == 0
            &&& steps@.len() == 1
            &&& tells_of(steps@[0], IpcEvent::ClientConnected { protocol: Protocol::Vnc })
            &&& final(s).vnc_clients == old(s).vnc_clients + 1
            &&& final(s).rdp_clients == old(s).rdp_clients
        },
        call_ensures(
            VncInput::handle,
            (v, s, VncInputEvent::ResizeOutput { width, height }),
            steps,
        ) ==> steps@ == seq![InputStep::ResizeFocused { width, height }] && final(s)@ == old(s)@,
{
    if call_ensures(VncInput::handle, (v, s, VncInputEvent::ClientDisconnected), steps) || call_ensures(
        VncInput::handle,
        (v, s, VncInputEvent::ClientConnected),
        steps,
    ) {
        assert(final(s)@.rdp_clients == final(s).rdp_clients);
        assert(final(s)@.vnc_clients == final(s).vnc_clients);
    }
}

} // verus!
