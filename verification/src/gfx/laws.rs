//! What the graphics channel's messages say, read byte by byte as a client reads them.

use crate::adaptive::TileFrame;
use crate::clipboard::laws::{number_at, short_at};
use crate::gfx::capability::{
    advertised, capability_bytes, capability_of, is_best, parse_capabilities_advertise,
    select_capability, version_number, version_rank, Capability, CapabilityVersion,
};
use crate::gfx::channel::{
    answers, build_layout_reset_pdus, desktop_reset, encode_gfx_avc420_frame, encode_gfx_avc420_tiles,
    encode_gfx_surface_frame, frame_picture, frame_time, part_picture, surfaces_created,
    surfaces_deleted, tile_pictures, tile_rect, unwrapped, whole_picture, wrap_zgfx_uncompressed,
    wrapped, GfxHandler, GfxOutputInfo,
};
use crate::gfx::pdu::{
    capabilities_confirm_bytes, create_surface_bytes, delete_surface_bytes, end_frame_bytes,
    map_surface_bytes, message, monitor_bytes, rect_bytes, start_frame_bytes, zeros, SurfaceFormat,
    SurfaceMonitor, SurfaceRect,
};
use crate::wire::{bits_i32, le16, le32};
use vstd::prelude::*;

verus! {

/// The last pixel of an extent; an empty extent counts as one pixel.
pub open spec fn last_pixel(extent: u16) -> int {
    if extent == 0 {
        0
    } else {
        extent - 1
    }
}

/// At `at` stand the edges of a rectangle, the last row and column included.
pub open spec fn rect_at(s: Seq<u8>, at: int, left: int, top: int, right: int, bottom: int) -> bool {
    &&& short_at(s, at) == left
    &&& short_at(s, at + 2) == top
    &&& short_at(s, at + 4) == right
    &&& short_at(s, at + 6) == bottom
}

/// At `at` stands a picture: its surface, the codec, the format, the part of the surface, and the encoded
/// data behind one region of that part.
pub open spec fn picture_at(
    s: Seq<u8>,
    at: int,
    surface_id: u16,
    left: int,
    top: int,
    right: int,
    bottom: int,
    data: Seq<u8>,
) -> bool {
    let n = data.len() as int;
    &&& short_at(s, at) == 1
    &&& number_at(s, at + 4) == 39 + n
    &&& short_at(s, at + 8) == surface_id
    &&& short_at(s, at + 10) == 0xb
    &&& s[at + 12] == 0x20
    &&& rect_at(s, at + 13, left, top, right, bottom)
    &&& number_at(s, at + 21) == 14 + n
    &&& number_at(s, at + 25) == 1
    &&& rect_at(s, at + 29, left, top, right, bottom)
    &&& s[at + 37] == 22
    &&& s[at + 38] == 100
    &&& s.subrange(at + 39, at + 39 + n) == data
}

proof fn lemma_shorts(v: int)
    requires
        0 <= v < 0x1_0000,
    ensures
        le16(v).len() == 2,
        short_at(le16(v), 0) == v,
{
}

proof fn lemma_numbers(v: int)
    requires
        0 <= v < 0x1_0000_0000,
    ensures
        le32(v).len() == 4,
        number_at(le32(v), 0) == v,
{
}

proof fn lemma_rect(r: SurfaceRect)
    ensures
        rect_bytes(r).len() == 8,
        rect_at(rect_bytes(r), 0, r.left as int, r.top as int, r.right as int, r.bottom as int),
{
    lemma_shorts(r.left as int);
    lemma_shorts(r.top as int);
    lemma_shorts(r.right as int);
    lemma_shorts(r.bottom as int);
    let b = rect_bytes(r);
    assert(b[0] == le16(r.left as int)[0] && b[1] == le16(r.left as int)[1]);
    assert(b[2] == le16(r.top as int)[0] && b[3] == le16(r.top as int)[1]);
    assert(b[4] == le16(r.right as int)[0] && b[5] == le16(r.right as int)[1]);
    assert(b[6] == le16(r.bottom as int)[0] && b[7] == le16(r.bottom as int)[1]);
}

#[verifier::spinoff_prover]
#[verifier::rlimit(40)]
proof fn lemma_part(data: Seq<u8>, surface_id: u16, r: SurfaceRect)
    requires
        part_picture(data, surface_id, r).len() <= u32::MAX,
    ensures
        part_picture(data, surface_id, r).len() == 39 + data.len(),
        picture_at(
            part_picture(data, surface_id, r),
            0,
            surface_id,
            r.left as int,
            r.top as int,
            r.right as int,
            r.bottom as int,
            data,
        ),
{
    let n = data.len() as int;
    let p = part_picture(data, surface_id, r);
    let inner = le32(1) + rect_bytes(r) + seq![22u8, 100u8] + data;
    lemma_rect(r);
    lemma_numbers(1);
    assert(22int as u8 == 22u8);
    assert(p == message(
        0x1,
        le16(surface_id as int) + le16(0xb) + seq![0x20u8] + rect_bytes(r) + le32(inner.len() as int)
            + inner,
    ));
    assert(inner.len() == 14 + n);
    let fields = le16(surface_id as int) + le16(0xb) + seq![0x20u8] + rect_bytes(r) + le32(14 + n)
        + inner;
    assert(le16(surface_id as int).len() == 2 && le16(0xb).len() == 2 && le32(14 + n).len() == 4);
    assert(fields.len() == 31 + n);
    lemma_shorts(surface_id as int);
    lemma_shorts(0xb);
    lemma_shorts(1);
    lemma_shorts(0);
    lemma_numbers(39 + n);
    lemma_numbers(14 + n);
    let head = le16(1) + le16(0) + le32(39 + n);
    assert(head.len() == 8);
    assert(p == head + fields);
    assert(forall|i: int| 0 <= i < 8 ==> #[trigger] p[i] == head[i]);
    assert(forall|i: int| 0 <= i < fields.len() ==> p[8 + i] == #[trigger] fields[i]);
    assert(head[0] == le16(1)[0] && head[1] == le16(1)[1]);
    assert(head[4] == le32(39 + n)[0] && head[5] == le32(39 + n)[1] && head[6] == le32(39 + n)[2]
        && head[7] == le32(39 + n)[3]);
    assert(p[8] == fields[0] && p[9] == fields[1] && p[10] == fields[2] && p[11] == fields[3]
        && p[12] == fields[4]);
    assert(fields[0] == le16(surface_id as int)[0] && fields[1] == le16(surface_id as int)[1]);
    assert(fields[2] == le16(0xb)[0] && fields[3] == le16(0xb)[1]);
    assert(fields[4] == 0x20u8);
    assert forall|i: int| 0 <= i < 8 implies p[13 + i] == #[trigger] rect_bytes(r)[i] by {
        assert(p[8 + (5 + i)] == fields[5 + i]);
    }
    assert(p[13] == rect_bytes(r)[0] && p[14] == rect_bytes(r)[1] && p[15] == rect_bytes(r)[2]
        && p[16] == rect_bytes(r)[3] && p[17] == rect_bytes(r)[4] && p[18] == rect_bytes(r)[5]
        && p[19] == rect_bytes(r)[6] && p[20] == rect_bytes(r)[7]);
    assert forall|i: int| 0 <= i < 4 implies p[21 + i] == #[trigger] le32(14 + n)[i] by {
        assert(p[8 + (13 + i)] == fields[13 + i]);
    }
    assert(p[21] == le32(14 + n)[0] && p[22] == le32(14 + n)[1] && p[23] == le32(14 + n)[2] && p[24]
        == le32(14 + n)[3]);
    assert forall|i: int| 0 <= i < inner.len() implies p[25 + i] == #[trigger] inner[i] by {
        assert(p[8 + (17 + i)] == fields[17 + i]);
    }
    assert(inner[0] == le32(1)[0] && inner[1] == le32(1)[1] && inner[2] == le32(1)[2] && inner[3]
        == le32(1)[3]);
    assert(p[25] == inner[0] && p[26] == inner[1] && p[27] == inner[2] && p[28] == inner[3]);
    assert forall|i: int| 0 <= i < 8 implies p[29 + i] == #[trigger] rect_bytes(r)[i] by {
        assert(p[25 + (4 + i)] == inner[4 + i]);
    }
    assert(p[29] == rect_bytes(r)[0] && p[30] == rect_bytes(r)[1] && p[31] == rect_bytes(r)[2]
        && p[32] == rect_bytes(r)[3] && p[33] == rect_bytes(r)[4] && p[34] == rect_bytes(r)[5]
        && p[35] == rect_bytes(r)[6] && p[36] == rect_bytes(r)[7]);
    assert(p[37] == inner[12] && p[38] == inner[13]);
    assert(p.subrange(39, 39 + n) =~= data) by {
        assert forall|i: int| 0 <= i < n implies p[39 + i] == #[trigger] data[i] by {
            assert(p[25 + (14 + i)] == inner[14 + i]);
        }
    }
}

/// At `at` stands the start of a frame.
pub open spec fn start_at(s: Seq<u8>, at: int, frame_id: u32) -> bool {
    &&& short_at(s, at) == 0xb
    &&& number_at(s, at + 4) == 16
    &&& number_at(s, at + 12) == frame_id
}

/// At `at` stands the end of a frame.
pub open spec fn end_at(s: Seq<u8>, at: int, frame_id: u32) -> bool {
    &&& short_at(s, at) == 0xc
    &&& number_at(s, at + 4) == 12
    &&& number_at(s, at + 8) == frame_id
}

proof fn lemma_start(frame_id: u32)
    ensures
        start_frame_bytes(frame_time(), frame_id).len() == 16,
        start_at(start_frame_bytes(frame_time(), frame_id), 0, frame_id),
{
    let p = start_frame_bytes(frame_time(), frame_id);
    lemma_shorts(0xb);
    lemma_shorts(0);
    lemma_numbers(16);
    lemma_numbers(frame_id as int);
    lemma_numbers(0);
    let fields = le32(frame_time().packed()) + le32(frame_id as int);
    assert(fields.len() == 8);
    assert(p[0] == le16(0xb)[0] && p[1] == le16(0xb)[1]);
    assert(p[4] == le32(16)[0] && p[5] == le32(16)[1] && p[6] == le32(16)[2] && p[7] == le32(16)[3]);
    assert(p[12] == le32(frame_id as int)[0] && p[13] == le32(frame_id as int)[1] && p[14] == le32(
        frame_id as int,
    )[2] && p[15] == le32(frame_id as int)[3]);
}

proof fn lemma_end(frame_id: u32)
    ensures
        end_frame_bytes(frame_id).len() == 12,
        end_at(end_frame_bytes(frame_id), 0, frame_id),
{
    let p = end_frame_bytes(frame_id);
    lemma_shorts(0xc);
    lemma_shorts(0);
    lemma_numbers(12);
    lemma_numbers(frame_id as int);
    assert(p[0] == le16(0xc)[0] && p[1] == le16(0xc)[1]);
    assert(p[4] == le32(12)[0] && p[5] == le32(12)[1] && p[6] == le32(12)[2] && p[7] == le32(12)[3]);
    assert(p[8] == le32(frame_id as int)[0] && p[9] == le32(frame_id as int)[1] && p[10] == le32(
        frame_id as int,
    )[2] && p[11] == le32(frame_id as int)[3]);
}

/// What stands at `at` in a part stands at `from + at` in the whole.
proof fn lemma_shifted(whole: Seq<u8>, part: Seq<u8>, from: int)
    requires
        0 <= from,
        from + part.len() <= whole.len(),
        forall|i: int| 0 <= i < part.len() ==> whole[from + i] == #[trigger] part[i],
    ensures
        forall|at: int|
            0 <= at && at + 2 <= part.len() ==> short_at(whole, from + at) == #[trigger] short_at(
                part,
                at,
            ),
        forall|at: int|
            0 <= at && at + 4 <= part.len() ==> number_at(whole, from + at) == #[trigger] number_at(
                part,
                at,
            ),
{
    assert forall|at: int| 0 <= at && at + 2 <= part.len() implies short_at(whole, from + at)
        == #[trigger] short_at(part, at) by {
        assert(whole[from + at] == part[at]);
        assert(whole[from + (at + 1)] == part[at + 1]);
    }
    assert forall|at: int| 0 <= at && at + 4 <= part.len() implies number_at(whole, from + at)
        == #[trigger] number_at(part, at) by {
        assert(whole[from + at] == part[at]);
        assert(whole[from + (at + 1)] == part[at + 1]);
        assert(whole[from + (at + 2)] == part[at + 2]);
        assert(whole[from + (at + 3)] == part[at + 3]);
    }
}

/// A picture in a part is a picture in the whole.
proof fn lemma_picture_shifted(
    whole: Seq<u8>,
    part: Seq<u8>,
    from: int,
    surface_id: u16,
    r: SurfaceRect,
    data: Seq<u8>,
)
    requires
        0 <= from,
        from + part.len() <= whole.len(),
        part.len() == 39 + data.len(),
        forall|i: int| 0 <= i < part.len() ==> whole[from + i] == #[trigger] part[i],
        picture_at(
            part,
            0,
            surface_id,
            r.left as int,
            r.top as int,
            r.right as int,
            r.bottom as int,
            data,
        ),
    ensures
        picture_at(
            whole,
            from,
            surface_id,
            r.left as int,
            r.top as int,
            r.right as int,
            r.bottom as int,
            data,
        ),
{
    lemma_shifted(whole, part, from);
    let n = data.len() as int;
    assert(short_at(part, 0) == 1);
    assert(number_at(part, 4) == 39 + n);
    assert(short_at(part, 8) == surface_id);
    assert(short_at(part, 10) == 0xb);
    assert(short_at(part, 13) == r.left && short_at(part, 15) == r.top && short_at(part, 17)
        == r.right && short_at(part, 19) == r.bottom);
    assert(number_at(part, 21) == 14 + n);
    assert(number_at(part, 25) == 1);
    assert(short_at(part, 29) == r.left && short_at(part, 31) == r.top && short_at(part, 33)
        == r.right && short_at(part, 35) == r.bottom);
    assert(whole[from + 12] == part[12]);
    assert(whole[from + 37] == part[37]);
    assert(whole[from + 38] == part[38]);
    assert(whole.subrange(from + 39, from + 39 + n) =~= data) by {
        assert forall|i: int| 0 <= i < n implies whole[from + 39 + i] == #[trigger] data[i] by {
            assert(part.subrange(39, 39 + n)[i] == data[i]);
            assert(whole[from + (39 + i)] == part[39 + i]);
        }
    }
}

pub(crate) proof fn lemma_frame_bytes(
    v: Seq<u8>,
    h264: Seq<u8>,
    surface_id: u16,
    width: u16,
    height: u16,
    frame_id: u32,
)
    requires
        v == wrapped(
            start_frame_bytes(frame_time(), frame_id) + frame_picture(h264, surface_id, width, height)
                + end_frame_bytes(frame_id),
        ),
        frame_picture(h264, surface_id, width, height).len() <= u32::MAX,
    ensures
        v.len() == 69 + h264.len(),
        v[0] == 0xE0 && v[1] == 0x04,
        start_at(v, 2, frame_id),
        picture_at(v, 18, surface_id, 0, 0, last_pixel(width), last_pixel(height), h264),
        end_at(v, 57 + h264.len() as int, frame_id),
{
    let n = h264.len() as int;
    let rect = whole_picture(width, height);
    let p = frame_picture(h264, surface_id, width, height);
    lemma_part(h264, surface_id, rect);
    lemma_start(frame_id);
    lemma_end(frame_id);
    let start = start_frame_bytes(frame_time(), frame_id);
    let end = end_frame_bytes(frame_id);
    assert(v == seq![0xE0u8, 0x04u8] + (start + p + end));
    assert forall|i: int| 0 <= i < start.len() implies v[2 + i] == #[trigger] start[i] by {}
    assert forall|i: int| 0 <= i < p.len() implies v[18 + i] == #[trigger] p[i] by {}
    assert forall|i: int| 0 <= i < end.len() implies v[57 + n + i] == #[trigger] end[i] by {}
    lemma_shifted(v, start, 2);
    assert(short_at(start, 0) == 0xb && number_at(start, 4) == 16 && number_at(start, 12) == frame_id);
    lemma_picture_shifted(v, p, 18, surface_id, rect, h264);
    lemma_shifted(v, end, 57 + n);
    assert(short_at(end, 0) == 0xc && number_at(end, 4) == 12 && number_at(end, 8) == frame_id);
}

/// A frame's message is wrapped as one uncompressed segment. It starts the frame, holds one picture that
/// fills the surface and carries the encoded data whole, and ends the frame; both ends tell the frame's
/// number.
pub proof fn lemma_frame_carries_the_picture(
    h264: &[u8],
    surface_id: u16,
    width: u16,
    height: u16,
    frame_id: u32,
    r: Option<Vec<u8>>,
)
    requires
        call_ensures(encode_gfx_surface_frame, (h264, surface_id, width, height, frame_id), r),
    ensures
        h264@.len() <= u32::MAX - 39 <==> r is Some,
        r matches Some(v) ==> {
            let n = h264@.len() as int;
            &&& v@.len() == 69 + n
            &&& v@[0] == 0xE0 && v@[1] == 0x04
            &&& start_at(v@, 2, frame_id)
            &&& picture_at(
                v@,
                18,
                surface_id,
                0,
                0,
                last_pixel(width),
                last_pixel(height),
                h264@,
            )
            &&& end_at(v@, 57 + n, frame_id)
        },
{
    lemma_part_length(h264@, surface_id, whole_picture(width, height));
    if r is Some {
        lemma_frame_bytes(r->0@, h264@, surface_id, width, height, frame_id);
    }
}

pub(crate) proof fn lemma_part_length(data: Seq<u8>, surface_id: u16, r: SurfaceRect)
    ensures
        part_picture(data, surface_id, r).len() == 39 + data.len(),
{
}

/// The frame of the main display is a frame for surface 0.
pub proof fn lemma_main_display_is_surface_zero(
    h264: &[u8],
    width: u16,
    height: u16,
    frame_id: u32,
    r: Option<Vec<u8>>,
)
    requires
        call_ensures(encode_gfx_avc420_frame, (h264, width, height, frame_id), r),
    ensures
        r matches Some(v) ==> {
            &&& v@.len() == 69 + h264@.len()
            &&& start_at(v@, 2, frame_id)
            &&& picture_at(v@, 18, 0, 0, 0, last_pixel(width), last_pixel(height), h264@)
            &&& end_at(v@, 57 + h264@.len() as int, frame_id)
        },
{
    if r is Some {
        lemma_frame_bytes(r->0@, h264@, 0, width, height, frame_id);
    }
}

/// The last row or column of a tile, no further than the largest surface.
pub open spec fn tile_end(start: u16, extent: u16) -> int {
    if start + last_pixel(extent) > 65535 {
        65535
    } else {
        start + last_pixel(extent)
    }
}

/// Where the pictures of the first `n` tiles end, if the first one starts at 0.
pub open spec fn tiles_end(tiles: Seq<TileFrame>, n: int) -> int
    decreases n,
{
    if n <= 0 {
        0
    } else {
        tiles_end(tiles, n - 1) + 39 + tiles[n - 1].data@.len()
    }
}

proof fn lemma_tiles_len(tiles: Seq<TileFrame>, surface_id: u16, n: int)
    requires
        0 <= n <= tiles.len(),
    ensures
        tile_pictures(tiles.take(n), surface_id).len() == tiles_end(tiles, n),
    decreases n,
{
    if n > 0 {
        lemma_tiles_len(tiles, surface_id, n - 1);
        assert(tiles.take(n).drop_last() =~= tiles.take(n - 1));
        lemma_part_length(tiles[n - 1].data@, surface_id, tile_rect(tiles[n - 1]));
    } else {
        assert(tiles.take(0) =~= Seq::<TileFrame>::empty());
    }
}

/// The pictures of fewer tiles stand in front of those of more.
proof fn lemma_tiles_prefix(tiles: Seq<TileFrame>, surface_id: u16, k: int, n: int)
    requires
        0 <= k < n <= tiles.len(),
    ensures
        ({
            let all = tile_pictures(tiles.take(n), surface_id);
            let part = part_picture(tiles[k].data@, surface_id, tile_rect(tiles[k]));
            let at = tiles_end(tiles, k);
            &&& 0 <= at
            &&& at + part.len() <= all.len()
            &&& forall|i: int| 0 <= i < part.len() ==> all[at + i] == #[trigger] part[i]
        }),
    decreases n - k,
{
    lemma_tiles_len(tiles, surface_id, k);
    lemma_tiles_len(tiles, surface_id, n);
    lemma_tiles_len(tiles, surface_id, n - 1);
    assert(tiles.take(n).drop_last() =~= tiles.take(n - 1));
    let all = tile_pictures(tiles.take(n), surface_id);
    let before = tile_pictures(tiles.take(n - 1), surface_id);
    let part = part_picture(tiles[k].data@, surface_id, tile_rect(tiles[k]));
    let at = tiles_end(tiles, k);
    if k < n - 1 {
        lemma_tiles_prefix(tiles, surface_id, k, n - 1);
        assert forall|i: int| 0 <= i < part.len() implies all[at + i] == #[trigger] part[i] by {
            assert(before[at + i] == part[i]);
            assert(all[at + i] == before[at + i]);
        }
    } else {
        assert(all == before + part);
        assert forall|i: int| 0 <= i < part.len() implies all[at + i] == #[trigger] part[i] by {}
    }
}

/// A message of tiles carries each tile's data whole, for the tile's own part of the surface, in their
/// order and nothing between them, within one frame.
#[verifier::spinoff_prover]
#[verifier::rlimit(40)]
pub proof fn lemma_tiles_carry_their_parts(
    frames: &[TileFrame],
    surface_id: u16,
    frame_id: u32,
    r: Option<Vec<u8>>,
    k: int,
)
    requires
        call_ensures(encode_gfx_avc420_tiles, (frames, surface_id, frame_id), r),
        r is Some,
        0 <= k < frames@.len(),
    ensures
        ({
            let v = r->0@;
            let t = frames@[k];
            let n = frames@.len() as int;
            &&& v.len() == 30 + tiles_end(frames@, n)
            &&& v[0] == 0xE0 && v[1] == 0x04
            &&& start_at(v, 2, frame_id)
            &&& picture_at(
                v,
                18 + tiles_end(frames@, k),
                surface_id,
                t.x as int,
                t.y as int,
                tile_end(t.x, t.width),
                tile_end(t.y, t.height),
                t.data@,
            )
            &&& end_at(v, 18 + tiles_end(frames@, n), frame_id)
        }),
{
    let v = r->0@;
    let tiles = frames@;
    let n = tiles.len() as int;
    assert(tiles.take(n) =~= tiles);
    lemma_tiles_len(tiles, surface_id, n);
    lemma_tiles_prefix(tiles, surface_id, k, n);
    let t = tiles[k];
    let rect = tile_rect(t);
    let part = part_picture(t.data@, surface_id, rect);
    assert(part_picture(tiles[k].data@, surface_id, tile_rect(tiles[k])).len() <= u32::MAX);
    lemma_part(t.data@, surface_id, rect);
    lemma_start(frame_id);
    lemma_end(frame_id);
    let start = start_frame_bytes(frame_time(), frame_id);
    let p = tile_pictures(tiles, surface_id);
    let end = end_frame_bytes(frame_id);
    assert(v == seq![0xE0u8, 0x04u8] + (start + p + end));
    assert forall|i: int| 0 <= i < start.len() implies v[2 + i] == #[trigger] start[i] by {}
    let at = tiles_end(tiles, k);
    assert forall|i: int| 0 <= i < part.len() implies v[18 + at + i] == #[trigger] part[i] by {
        assert(p[at + i] == part[i]);
        assert(v[18 + (at + i)] == p[at + i]);
    }
    let stop = 18 + tiles_end(tiles, n);
    assert forall|i: int| 0 <= i < end.len() implies v[stop + i] == #[trigger] end[i] by {}
    lemma_shifted(v, start, 2);
    assert(short_at(start, 0) == 0xb && number_at(start, 4) == 16 && number_at(start, 12) == frame_id);
    lemma_picture_shifted(v, part, 18 + at, surface_id, rect, t.data@);
    lemma_shifted(v, end, stop);
    assert(short_at(end, 0) == 0xc && number_at(end, 4) == 12 && number_at(end, 8) == frame_id);
}

/// At `at` stands the deletion of a surface.
pub open spec fn deletion_at(s: Seq<u8>, at: int, surface_id: u16) -> bool {
    &&& short_at(s, at) == 0xa
    &&& number_at(s, at + 4) == 10
    &&& short_at(s, at + 8) == surface_id
}

/// At `at` stands the creation of a surface of a size, and behind it where the surface goes.
pub open spec fn creation_at(
    s: Seq<u8>,
    at: int,
    surface_id: u16,
    width: u16,
    height: u16,
    x: u32,
    y: u32,
) -> bool {
    &&& short_at(s, at) == 0x9
    &&& number_at(s, at + 4) == 15
    &&& short_at(s, at + 8) == surface_id
    &&& short_at(s, at + 10) == width
    &&& short_at(s, at + 12) == height
    &&& s[at + 14] == 0x20
    &&& short_at(s, at + 15) == 0xf
    &&& number_at(s, at + 19) == 20
    &&& short_at(s, at + 23) == surface_id
    &&& number_at(s, at + 27) == x
    &&& number_at(s, at + 31) == y
}

/// At `at` stands the reset of the desktop to a size, with one monitor that fills it.
pub open spec fn reset_at(s: Seq<u8>, at: int, width: u16, height: u16) -> bool {
    &&& short_at(s, at) == 0xe
    &&& number_at(s, at + 4) == 340
    &&& number_at(s, at + 8) == width
    &&& number_at(s, at + 12) == height
    &&& number_at(s, at + 16) == 1
    &&& number_at(s, at + 20) == 0
    &&& number_at(s, at + 24) == 0
    &&& width > 0 ==> number_at(s, at + 28) == width - 1
    &&& height > 0 ==> number_at(s, at + 32) == height - 1
    &&& number_at(s, at + 36) == 1
}

proof fn lemma_deletion(surface_id: u16)
    ensures
        delete_surface_bytes(surface_id).len() == 10,
        deletion_at(delete_surface_bytes(surface_id), 0, surface_id),
{
    let p = delete_surface_bytes(surface_id);
    lemma_shorts(0xa);
    lemma_shorts(0);
    lemma_numbers(10);
    lemma_shorts(surface_id as int);
    assert(p[0] == le16(0xa)[0] && p[1] == le16(0xa)[1]);
    assert(p[4] == le32(10)[0] && p[5] == le32(10)[1] && p[6] == le32(10)[2] && p[7] == le32(10)[3]);
    assert(p[8] == le16(surface_id as int)[0] && p[9] == le16(surface_id as int)[1]);
}

/// The creation of an output's surface and where it goes.
#[verifier::opaque]
spec fn creation(o: GfxOutputInfo) -> Seq<u8> {
    create_surface_bytes(o.surface_id, o.width, o.height, SurfaceFormat::XRgb) + map_surface_bytes(
        o.surface_id,
        o.x,
        o.y,
    )
}

proof fn lemma_creation(o: GfxOutputInfo)
    ensures
        ({
            let p = creation(o);
            p.len() == 35 && creation_at(p, 0, o.surface_id, o.width, o.height, o.x, o.y)
        }),
{
    reveal(creation);
    let c = create_surface_bytes(o.surface_id, o.width, o.height, SurfaceFormat::XRgb);
    let m = map_surface_bytes(o.surface_id, o.x, o.y);
    let p = c + m;
    lemma_shorts(0x9);
    lemma_shorts(0xf);
    lemma_shorts(0);
    lemma_numbers(15);
    lemma_numbers(20);
    lemma_shorts(o.surface_id as int);
    lemma_shorts(o.width as int);
    lemma_shorts(o.height as int);
    lemma_numbers(o.x as int);
    lemma_numbers(o.y as int);
    assert(c.len() == 15);
    assert(m.len() == 20);
    assert(c[0] == le16(0x9)[0] && c[1] == le16(0x9)[1]);
    assert(c[4] == le32(15)[0] && c[5] == le32(15)[1] && c[6] == le32(15)[2] && c[7] == le32(15)[3]);
    assert(c[8] == le16(o.surface_id as int)[0] && c[9] == le16(o.surface_id as int)[1]);
    assert(c[10] == le16(o.width as int)[0] && c[11] == le16(o.width as int)[1]);
    assert(c[12] == le16(o.height as int)[0] && c[13] == le16(o.height as int)[1]);
    assert(c[14] == 0x20u8);
    assert(m[0] == le16(0xf)[0] && m[1] == le16(0xf)[1]);
    assert(m[4] == le32(20)[0] && m[5] == le32(20)[1] && m[6] == le32(20)[2] && m[7] == le32(20)[3]);
    assert(m[8] == le16(o.surface_id as int)[0] && m[9] == le16(o.surface_id as int)[1]);
    assert(m[12] == le32(o.x as int)[0] && m[13] == le32(o.x as int)[1] && m[14] == le32(
        o.x as int,
    )[2] && m[15] == le32(o.x as int)[3]);
    assert(m[16] == le32(o.y as int)[0] && m[17] == le32(o.y as int)[1] && m[18] == le32(
        o.y as int,
    )[2] && m[19] == le32(o.y as int)[3]);
    assert forall|i: int| 0 <= i < c.len() implies p[0 + i] == #[trigger] c[i] by {}
    assert forall|i: int| 0 <= i < m.len() implies p[15 + i] == #[trigger] m[i] by {}
    lemma_shifted(p, c, 0);
    lemma_shifted(p, m, 15);
    assert(short_at(c, 0) == 0x9 && number_at(c, 4) == 15 && short_at(c, 8) == o.surface_id
        && short_at(c, 10) == o.width && short_at(c, 12) == o.height);
    assert(short_at(m, 0) == 0xf && number_at(m, 4) == 20 && short_at(m, 8) == o.surface_id
        && number_at(m, 12) == o.x && number_at(m, 16) == o.y);
    assert(p[14] == c[14]);
}

#[verifier::spinoff_prover]
#[verifier::rlimit(40)]
proof fn lemma_reset(width: u16, height: u16)
    ensures
        desktop_reset(width, height).len() == 340,
        reset_at(desktop_reset(width, height), 0, width, height),
{
    let p = desktop_reset(width, height);
    let monitor = SurfaceMonitor {
        left: 0,
        top: 0,
        right: (width - 1) as i32,
        bottom: (height - 1) as i32,
        flags: 1,
    };
    let m = monitor_bytes(monitor);
    let right = bits_i32(monitor.right as int);
    let bottom = bits_i32(monitor.bottom as int);
    lemma_shorts(0xe);
    lemma_shorts(0);
    lemma_numbers(340);
    lemma_numbers(width as int);
    lemma_numbers(height as int);
    lemma_numbers(1);
    lemma_numbers(0);
    lemma_numbers(right);
    lemma_numbers(bottom);
    assert(m.len() == 20);
    let fields = le32(width as int) + le32(height as int) + le32(1) + m + zeros(300);
    assert(fields.len() == 332);
    let head = le16(0xe) + le16(0) + le32(340);
    assert(head.len() == 8);
    assert(p == head + fields);
    assert(p[0] == le16(0xe)[0] && p[1] == le16(0xe)[1]);
    assert(p[4] == le32(340)[0] && p[5] == le32(340)[1] && p[6] == le32(340)[2] && p[7] == le32(340)[3]);
    assert forall|i: int| 0 <= i < fields.len() implies p[8 + i] == #[trigger] fields[i] by {}
    lemma_shifted(p, fields, 8);
    let w = le32(width as int);
    let h = le32(height as int);
    let one = le32(1);
    assert(fields[0] == w[0] && fields[1] == w[1] && fields[2] == w[2] && fields[3] == w[3]);
    assert(fields[4] == h[0] && fields[5] == h[1] && fields[6] == h[2] && fields[7] == h[3]);
    assert(fields[8] == one[0] && fields[9] == one[1] && fields[10] == one[2] && fields[11] == one[3]);
    assert forall|i: int| 0 <= i < m.len() implies fields[12 + i] == #[trigger] m[i] by {}
    lemma_shifted(fields, m, 12);
    let zero = le32(0);
    let r = le32(right);
    let b = le32(bottom);
    assert(m[0] == zero[0] && m[1] == zero[1] && m[2] == zero[2] && m[3] == zero[3]);
    assert(m[4] == zero[0] && m[5] == zero[1] && m[6] == zero[2] && m[7] == zero[3]);
    assert(m[8] == r[0] && m[9] == r[1] && m[10] == r[2] && m[11] == r[3]);
    assert(m[12] == b[0] && m[13] == b[1] && m[14] == b[2] && m[15] == b[3]);
    assert(m[16] == one[0] && m[17] == one[1] && m[18] == one[2] && m[19] == one[3]);
    assert(number_at(m, 0) == 0 && number_at(m, 4) == 0 && number_at(m, 8) == right && number_at(
        m,
        12,
    ) == bottom && number_at(m, 16) == 1);
    assert(number_at(fields, 0) == width && number_at(fields, 4) == height && number_at(fields, 8)
        == 1);
    assert(number_at(fields, 12) == 0 && number_at(fields, 16) == 0 && number_at(
        fields,
        20,
    ) == right && number_at(fields, 24) == bottom && number_at(fields, 28) == 1);
    assert(number_at(p, 8) == width && number_at(p, 12) == height && number_at(p, 16) == 1);
    assert(number_at(p, 20) == 0 && number_at(p, 24) == 0 && number_at(p, 28) == right
        && number_at(p, 32) == bottom && number_at(p, 36) == 1);
}

proof fn lemma_deletions(outputs: Seq<GfxOutputInfo>, k: int)
    requires
        0 <= k < outputs.len(),
    ensures
        surfaces_deleted(outputs).len() == 10 * outputs.len(),
        ({
            let part = delete_surface_bytes(outputs[k].surface_id);
            forall|i: int|
                0 <= i < part.len() ==> surfaces_deleted(outputs)[10 * k + i] == #[trigger] part[i]
        }),
    decreases outputs.len(),
{
    let front = outputs.drop_last();
    lemma_deletion(outputs.last().surface_id);
    lemma_deletion(outputs[k].surface_id);
    if front.len() > 0 {
        lemma_deletions(front, if k < front.len() {
            k
        } else {
            0
        });
    } else {
        assert(surfaces_deleted(front).len() == 0);
    }
    let before = surfaces_deleted(front);
    let all = surfaces_deleted(outputs);
    let part = delete_surface_bytes(outputs[k].surface_id);
    assert forall|i: int| 0 <= i < part.len() implies all[10 * k + i] == #[trigger] part[i] by {
        if k < front.len() {
            assert(front[k] == outputs[k]);
            assert(before[10 * k + i] == part[i]);
        }
    }
}

proof fn lemma_one_more(outputs: Seq<GfxOutputInfo>)
    requires
        outputs.len() > 0,
    ensures
        surfaces_created(outputs) == surfaces_created(outputs.drop_last()) + creation(outputs.last()),
{
    reveal(creation);
    assert(surfaces_created(outputs) =~= surfaces_created(outputs.drop_last()) + creation(
        outputs.last(),
    ));
}

proof fn lemma_creations(outputs: Seq<GfxOutputInfo>, k: int)
    requires
        0 <= k < outputs.len(),
    ensures
        surfaces_created(outputs).len() == 35 * outputs.len(),
        forall|i: int|
            0 <= i < 35 ==> surfaces_created(outputs)[35 * k + i] == #[trigger] creation(
                outputs[k],
            )[i],
    decreases outputs.len(),
{
    let front = outputs.drop_last();
    lemma_creation(outputs.last());
    lemma_creation(outputs[k]);
    lemma_one_more(outputs);
    if front.len() > 0 {
        lemma_creations(front, if k < front.len() {
            k
        } else {
            0
        });
    } else {
        assert(surfaces_created(front).len() == 0);
    }
    let before = surfaces_created(front);
    let all = surfaces_created(outputs);
    let part = creation(outputs[k]);
    assert forall|i: int| 0 <= i < 35 implies all[35 * k + i] == #[trigger] creation(outputs[k])[i] by {
        if k < front.len() {
            assert(front[k] == outputs[k]);
            assert(before[35 * k + i] == creation(front[k])[i]);
        }
    }
}

/// Setting up new surfaces deletes each of the old ones, resets the desktop to its size, and creates a
/// surface for each output, of the output's size and at its place.
#[verifier::spinoff_prover]
#[verifier::rlimit(40)]
pub proof fn lemma_surfaces_are_set_up(
    before: &[GfxOutputInfo],
    outputs: &[GfxOutputInfo],
    width: u16,
    height: u16,
    r: Vec<u8>,
    j: int,
    k: int,
)
    requires
        call_ensures(build_layout_reset_pdus, (before, outputs, width, height), r),
        0 <= j < before@.len(),
        0 <= k < outputs@.len(),
    ensures
        ({
            let old_end = 2 + 10 * before@.len() as int;
            let o = outputs@[k];
            &&& r@.len() == old_end + 340 + 35 * outputs@.len()
            &&& r@[0] == 0xE0 && r@[1] == 0x04
            &&& deletion_at(r@, 2 + 10 * j, before@[j].surface_id)
            &&& reset_at(r@, old_end, width, height)
            &&& creation_at(
                r@,
                old_end + 340 + 35 * k,
                o.surface_id,
                o.width,
                o.height,
                o.x,
                o.y,
            )
        }),
{
    let v = r@;
    let gone = surfaces_deleted(before@);
    let come = surfaces_created(outputs@);
    let desk = desktop_reset(width, height);
    lemma_deletions(before@, j);
    lemma_creations(outputs@, k);
    lemma_reset(width, height);
    assert(v == seq![0xE0u8, 0x04u8] + (gone + (desk + come)));
    let old_end = 2 + 10 * before@.len() as int;
    let d = delete_surface_bytes(before@[j].surface_id);
    lemma_deletion(before@[j].surface_id);
    assert forall|i: int| 0 <= i < d.len() implies v[2 + 10 * j + i] == #[trigger] d[i] by {
        assert(gone[10 * j + i] == d[i]);
        assert(v[2 + (10 * j + i)] == gone[10 * j + i]);
    }
    lemma_shifted(v, d, 2 + 10 * j);
    assert(short_at(d, 0) == 0xa && number_at(d, 4) == 10 && short_at(d, 8) == before@[j].surface_id);
    assert forall|i: int| 0 <= i < desk.len() implies v[old_end + i] == #[trigger] desk[i] by {}
    lemma_shifted(v, desk, old_end);
    assert(short_at(desk, 0) == 0xe && number_at(desk, 4) == 340 && number_at(desk, 8) == width
        && number_at(desk, 12) == height && number_at(desk, 16) == 1 && number_at(desk, 20) == 0
        && number_at(desk, 24) == 0 && number_at(desk, 36) == 1);
    assert(number_at(v, old_end + 28) == number_at(desk, 28));
    assert(number_at(v, old_end + 32) == number_at(desk, 32));
    let o = outputs@[k];
    lemma_creation(o);
    let c = creation(o);
    let at = old_end + 340 + 35 * k;
    assert forall|i: int| 0 <= i < c.len() implies v[at + i] == #[trigger] c[i] by {
        assert(come[35 * k + i] == c[i]);
        assert(v[old_end + 340 + (35 * k + i)] == come[35 * k + i]);
    }
    lemma_shifted(v, c, at);
    assert(short_at(c, 0) == 0x9 && number_at(c, 4) == 15 && short_at(c, 8) == o.surface_id
        && short_at(c, 10) == o.width && short_at(c, 12) == o.height && short_at(c, 15) == 0xf
        && number_at(c, 19) == 20 && short_at(c, 23) == o.surface_id && number_at(c, 27) == o.x
        && number_at(c, 31) == o.y);
    assert(v[at + 14] == c[14]);
}

/// What was sent is wrapped in two bytes and otherwise as it is.
pub proof fn lemma_messages_are_wrapped(message: &[u8], r: Vec<u8>)
    requires
        call_ensures(wrap_zgfx_uncompressed, (message,), r),
    ensures
        r@.len() == message@.len() + 2,
        r@[0] == 0xE0,
        r@[1] == 0x04,
        r@.skip(2) == message@,
{
    assert(r@.skip(2) =~= message@);
}

/// An acknowledgement, wrapped or not, is noted as that of the frame whose number it tells, and nothing
/// is answered.
pub proof fn lemma_acknowledgement_is_noted(
    h: &mut GfxHandler,
    payload: &[u8],
    messages: Vec<Vec<u8>>,
    at: int,
)
    requires
        call_ensures(GfxHandler::process, (h, payload), messages),
        at == (if payload@[0] == 0xE0 {
            2int
        } else {
            0
        }),
        payload@.len() >= at + 16,
        short_at(payload@, at) == 0x0D,
    ensures
        messages@.len() == 0,
        final(h).state.last_acked_frame_id == Some(number_at(payload@, at + 8) as u32),
        final(h).state.pending_response == old(h).state.pending_response,
        final(h).state.ready == old(h).state.ready,
        final(h).state.avc_supported == old(h).state.avc_supported,
        final(h).state.next_frame_id == old(h).state.next_frame_id,
        final(h).state.channel_id == old(h).state.channel_id,
        final(h).state.outputs == old(h).state.outputs,
{
    let data = unwrapped(payload@);
    assert forall|i: int| 0 <= i < data.len() implies payload@[at + i] == #[trigger] data[i] by {}
    lemma_shifted(payload@, data, at);
    assert(short_at(data, 0) == 0x0D);
    assert(number_at(payload@, at + 8) == number_at(data, 8));
}

/// Versions from the earliest to the latest.
pub open spec fn age_of(version: CapabilityVersion) -> int {
    match version {
        CapabilityVersion::V8 => 80,
        CapabilityVersion::V8_1 => 81,
        CapabilityVersion::V10 => 100,
        CapabilityVersion::V10_1 => 101,
        CapabilityVersion::V10_2 => 102,
        CapabilityVersion::V10_3 => 103,
        CapabilityVersion::V10_4 => 104,
        CapabilityVersion::V10_5 => 105,
        CapabilityVersion::V10_6 => 106,
        CapabilityVersion::V10_7 => 107,
    }
}

/// The client decodes AVC, by the version and the flags: version 8.1 sets bit 4 for it, and later ones
/// leave bit 5 clear; versions 8 and 10.1 do not decode it.
pub open spec fn decodes_avc(version: CapabilityVersion, flags: int) -> bool {
    &&& version != CapabilityVersion::V8
    &&& version != CapabilityVersion::V10_1
    &&& version == CapabilityVersion::V8_1 ==> flags / 16 % 2 == 1
    &&& version != CapabilityVersion::V8_1 ==> flags / 32 % 2 == 0
}

proof fn lemma_flags(flags: u32)
    ensures
        (flags & 0x10 == 0x10) <==> flags / 16 % 2 == 1,
        (flags & 0x20 != 0x20) <==> flags / 32 % 2 == 0,
{
    assert((flags & 0x10 == 0x10) <==> flags / 16 % 2 == 1) by (bit_vector);
    assert((flags & 0x20 != 0x20) <==> flags / 32 % 2 == 0) by (bit_vector);
}

/// What is chosen is advertised, and nothing that is advertised is of a later version. Whether it decodes
/// AVC is told by its version and flags. Without an advertisement the earliest version is chosen.
pub proof fn lemma_latest_version_is_chosen(advertised: &[Capability], r: (Capability, bool))
    requires
        call_ensures(select_capability, (advertised,), r),
    ensures
        advertised@.len() > 0 ==> advertised@.contains(r.0),
        forall|j: int|
            0 <= j < advertised@.len() ==> age_of((#[trigger] advertised@[j]).version) <= age_of(
                r.0.version,
            ),
        advertised@.len() == 0 ==> r.0.version == CapabilityVersion::V8 && r.0.flags == 0,
        r.1 == decodes_avc(r.0.version, r.0.flags as int),
{
    lemma_flags(r.0.flags);
    if advertised@.len() > 0 {
        let i = choose|i: int| is_best(advertised@, i) && r.0 == #[trigger] advertised@[i];
        assert forall|j: int| 0 <= j < advertised@.len() implies age_of(
            (#[trigger] advertised@[j]).version,
        ) <= age_of(r.0.version) by {
            assert(version_rank(advertised@[j].version) <= version_rank(advertised@[i].version));
        }
    }
}

/// A capability tells its version: the major number in the upper half, the minor one in the byte below.
/// Later versions have larger numbers. Its flags stand behind the length of four bytes; version 10.1 has
/// sixteen bytes without flags.
pub proof fn lemma_versions_are_told(c: &Capability, r: Vec<u8>, d: &Capability, q: Vec<u8>)
    requires
        call_ensures(Capability::to_bytes, (c,), r),
        call_ensures(Capability::to_bytes, (d,), q),
    ensures
        10 * (number_at(r@, 0) / 0x1_0000) + number_at(r@, 0) / 0x100 % 256 == age_of(c.version),
        age_of(c.version) < age_of(d.version) ==> number_at(r@, 0) < number_at(q@, 0),
        c.version == CapabilityVersion::V10_1 ==> r@.len() == 24 && number_at(r@, 4) == 16,
        c.version != CapabilityVersion::V10_1 ==> r@.len() == 12 && number_at(r@, 4) == 4 && number_at(
            r@,
            8,
        ) == c.flags,
{
    lemma_capability_bytes(*c);
    lemma_capability_bytes(*d);
}

proof fn lemma_capability_bytes(c: Capability)
    ensures
        ({
            let b = capability_bytes(c);
            &&& number_at(b, 0) == version_number(c.version)
            &&& c.version == CapabilityVersion::V10_1 ==> b.len() == 24 && number_at(b, 4) == 16
            &&& c.version != CapabilityVersion::V10_1 ==> b.len() == 12 && number_at(b, 4) == 4
                && number_at(b, 8) == c.flags
        }),
{
    let b = capability_bytes(c);
    let v = le32(version_number(c.version));
    lemma_numbers(version_number(c.version));
    lemma_numbers(16);
    lemma_numbers(4);
    lemma_numbers(c.flags as int);
    assert(b[0] == v[0] && b[1] == v[1] && b[2] == v[2] && b[3] == v[3]);
    if c.version == CapabilityVersion::V10_1 {
        let n = le32(16);
        assert(b[4] == n[0] && b[5] == n[1] && b[6] == n[2] && b[7] == n[3]);
    } else {
        let n = le32(4);
        let f = le32(c.flags as int);
        assert(b[4] == n[0] && b[5] == n[1] && b[6] == n[2] && b[7] == n[3]);
        assert(b[8] == f[0] && b[9] == f[1] && b[10] == f[2] && b[11] == f[3]);
    }
}

/// The version of a number, as it is told.
pub open spec fn tells_version(number: int, version: CapabilityVersion) -> bool {
    10 * (number / 0x1_0000) + number / 0x100 % 256 == age_of(version)
}

/// A set that is advertised alone is read as the version whose number it tells, and whether that decodes
/// AVC is what the client's own flags say.
pub proof fn lemma_advertisement_is_read(data: &[u8], caps: Vec<Capability>)
    requires
        call_ensures(parse_capabilities_advertise, (data,), caps),
        data@.len() == 14,
        short_at(data@, 0) == 1,
        number_at(data@, 6) == 4,
    ensures
        caps@.len() <= 1,
        caps@.len() == 1 ==> {
            &&& tells_version(number_at(data@, 2), caps@[0].version)
            &&& decodes_avc(caps@[0].version, caps@[0].flags as int) == decodes_avc(
                caps@[0].version,
                number_at(data@, 10),
            )
        },
        number_at(data@, 2) == 0x8_0105 || number_at(data@, 2) == 0xa_0701 || number_at(data@, 2)
            == 0x8_0004 ==> caps@.len() == 1,
{
    reveal_with_fuel(advertised, 2);
    let body = data@.subrange(10, 14);
    assert(number_at(data@, 10) == number_at(body, 0)) by {
        assert(body[0] == data@[10] && body[1] == data@[11] && body[2] == data@[12] && body[3]
            == data@[13]);
    }
    let flags = number_at(data@, 10) as u32;
    let number = number_at(data@, 2);
    let end = 14int;
    assert(advertised(data@, 14, 0) =~= Seq::<Capability>::empty());
    assert(caps@ == advertised(data@, 2, 1));
    match capability_of(number, body) {
        Some(c) => {
            assert(caps@ =~= seq![c]);
            let mask = crate::gfx::capability::known_flags(c.version);
            assert(c.flags == flags & mask);
            lemma_flags(flags);
            lemma_flags(flags & mask);
            assert((flags & 0x03) & 0x10 != 0x10 && (flags & 0x13) & 0x10 == flags & 0x10 && (flags & 0x22)
                & 0x20 == flags & 0x20 && (flags & 0x60) & 0x20 == flags & 0x20 && (flags & 0x62) & 0x20
                == flags & 0x20 && (flags & 0xe2) & 0x20 == flags & 0x20) by (bit_vector);
        },
        None => {
            assert(caps@ =~= Seq::<Capability>::empty());
        },
    }
}

#[verifier::spinoff_prover]
proof fn lemma_confirmation(c: Capability)
    ensures
        ({
            let v = wrapped(capabilities_confirm_bytes(c));
            &&& v.len() >= 14
            &&& v[0] == 0xE0
            &&& v[1] == 0x04
            &&& short_at(v, 2) == 0x13
            &&& tells_version(number_at(v, 10), c.version)
        }),
{
    lemma_capability_bytes(c);
    let b = capability_bytes(c);
    let head = le16(0x13) + le16(0) + le32(8 + b.len() as int);
    let v = wrapped(capabilities_confirm_bytes(c));
    lemma_shorts(0x13);
    lemma_shorts(0);
    assert(head.len() == 8);
    assert(v =~= seq![0xE0u8, 0x04u8] + (head + b));
    assert(head[0] == le16(0x13)[0] && head[1] == le16(0x13)[1]);
    assert(v[2] == head[0] && v[3] == head[1]);
    assert(v[10] == b[0] && v[11] == b[1] && v[12] == b[2] && v[13] == b[3]);
}

/// An advertisement is answered at once with a capability that the client advertised, and the surfaces of
/// the outputs wait to be set up.
pub proof fn lemma_advertisement_is_answered(
    h: &mut GfxHandler,
    payload: &[u8],
    messages: Vec<Vec<u8>>,
    at: int,
)
    requires
        call_ensures(GfxHandler::process, (h, payload), messages),
        at == (if payload@[0] == 0xE0 {
            2int
        } else {
            0
        }),
        payload@.len() >= at + 8,
        short_at(payload@, at) == 0x12,
    ensures
        messages@.len() == 1,
        final(h).state.pending_response is Some,
        old(h).state.channel_id is None ==> final(h).state.pending_response->0.channel_id == 2,
        old(h).state.channel_id matches Some(channel) ==> final(h).state.pending_response->0.channel_id
            == channel,
        exists|c: Capability|
            {
                &&& #[trigger] answers(payload@.skip(at + 8), c)
                &&& final(h).state.avc_supported == decodes_avc(c.version, c.flags as int)
                &&& messages@[0]@.len() >= 14
                &&& messages@[0]@[0] == 0xE0
                &&& messages@[0]@[1] == 0x04
                &&& short_at(messages@[0]@, 2) == 0x13
                &&& tells_version(number_at(messages@[0]@, 10), c.version)
            },
        final(h).state.ready == old(h).state.ready,
        final(h).state.next_frame_id == old(h).state.next_frame_id,
        final(h).state.channel_id == old(h).state.channel_id,
        final(h).state.outputs == old(h).state.outputs,
{
    let data = unwrapped(payload@);
    assert forall|i: int| 0 <= i < data.len() implies payload@[at + i] == #[trigger] data[i] by {}
    lemma_shifted(payload@, data, at);
    assert(short_at(data, 0) == 0x12);
    let c = choose|chosen: Capability|
        {
            &&& #[trigger] answers(data.skip(8), chosen)
            &&& messages@[0]@ == wrapped(capabilities_confirm_bytes(chosen))
            &&& crate::gfx::channel::capabilities_answered(old(h).state, final(h).state, chosen.avc())
        };
    assert(data.skip(8) =~= payload@.skip(at + 8));
    lemma_flags(c.flags);
    lemma_confirmation(c);
}

} // verus!
