//! State of the graphics channel, and the messages that set up surfaces and carry frames.

use crate::adaptive::TileFrame;
use crate::gfx::capability::{
    advertised_in, is_best, parse_capabilities_advertise, select_capability, Capability,
    CapabilityVersion,
};
use crate::gfx::pdu::{
    avc420_bytes, capabilities_confirm_bytes, create_surface_bytes, delete_surface_bytes, encode_avc420,
    encode_capabilities_confirm, encode_create_surface, encode_delete_surface, encode_end_frame, encode_map_surface,
    encode_reset_graphics, encode_start_frame, encode_wire_to_surface, end_frame_bytes, map_surface_bytes,
    reset_graphics_bytes, start_frame_bytes, wire_to_surface_bytes, FrameTime, RegionQuality, SurfaceCodec, SurfaceFormat, SurfaceMonitor,
    SurfaceRect, MONITOR_PRIMARY,
};
use crate::wire::{get16, get32, push_bytes, read_u16, read_u32};
use vstd::prelude::*;
use vstd::slice::slice_subrange;

verus! {

/// Surface number of the main display.
pub const SURFACE_ID: u16 = 0;

/// Channel number that is used where none was announced.
pub const DEFAULT_CHANNEL_ID: u32 = 2;

/// Quantization of every frame.
pub const FRAME_QUANTIZATION: u8 = 22;

/// Quality of every frame.
pub const FRAME_QUALITY: u8 = 100;

/// Graphics data that waits to be sent.
#[derive(Debug)]
pub struct GfxPendingResponse {
    pub channel_id: u32,
    pub data: Vec<u8>,
}

/// An output as the graphics channel shows it.
#[derive(Debug)]
pub struct GfxOutputInfo {
    pub name: String,
    pub surface_id: u16,
    pub x: u32,
    pub y: u32,
    pub width: u16,
    pub height: u16,
}

/// State shared between the graphics handler and the compositor.
#[derive(Debug)]
pub struct GfxSharedState {
    /// Channel number, set when the channel opens.
    pub channel_id: Option<u32>,
    /// Whether the channel is fully negotiated and ready for frames.
    pub ready: bool,
    /// Whether the client supports AVC420.
    pub avc_supported: bool,
    /// Current surface dimensions.
    pub width: u16,
    pub height: u16,
    /// The outputs, each with a surface of its own. Without any there is one surface of the
    /// dimensions.
    pub outputs: Vec<GfxOutputInfo>,
    /// Next frame number to use.
    pub next_frame_id: u32,
    /// Last frame number acknowledged by the client.
    pub last_acked_frame_id: Option<u32>,
    /// Response that waits to be sent.
    pub pending_response: Option<GfxPendingResponse>,
}

impl GfxSharedState {
    pub fn new(width: u16, height: u16) -> (r: Self)
        ensures
            r.channel_id is None,
            !r.ready,
            !r.avc_supported,
            r.width == width,
            r.height == height,
            r.outputs@.len() == 0,
            r.next_frame_id == 0,
            r.last_acked_frame_id is None,
            r.pending_response is None,
    {
        GfxSharedState {
            channel_id: None,
            ready: false,
            avc_supported: false,
            width,
            height,
            outputs: Vec::new(),
            next_frame_id: 0,
            last_acked_frame_id: None,
            pending_response: None,
        }
    }
}

/// Handler of the graphics channel.
#[derive(Debug)]
pub struct GfxHandler {
    pub state: GfxSharedState,
}

/// A message in a single uncompressed segment: two bytes in front of it.
pub open spec fn wrapped(message: Seq<u8>) -> Seq<u8> {
    seq![0xE0u8, 0x04u8] + message
}

/// What a client message holds: a single segment is taken out of its wrapping.
pub open spec fn unwrapped(payload: Seq<u8>) -> Seq<u8> {
    if payload.len() >= 2 && payload[0] == 0xE0 {
        payload.skip(2)
    } else {
        payload
    }
}

/// A message that was wrapped comes out of its wrapping unchanged.
pub proof fn lemma_wrapped_unwraps(message: Seq<u8>)
    ensures
        unwrapped(wrapped(message)) == message,
{
    assert(wrapped(message).skip(2) =~= message);
}

/// The messages that set up the surface of the main display.
pub open spec fn surface_setup(width: u16, height: u16) -> Seq<u8> {
    reset_graphics_bytes(
        width as u32,
        height as u32,
        (SurfaceMonitor {
            left: 0,
            top: 0,
            right: (width - 1) as i32,
            bottom: (height - 1) as i32,
            flags: MONITOR_PRIMARY,
        }),
    ) + create_surface_bytes(SURFACE_ID, width, height, SurfaceFormat::XRgb) + map_surface_bytes(
        SURFACE_ID,
        0,
        0,
    )
}

/// What the desktop is reset to: its size, with one monitor of that size.
pub open spec fn desktop_reset(width: u16, height: u16) -> Seq<u8> {
    reset_graphics_bytes(
        width as u32,
        height as u32,
        (SurfaceMonitor {
            left: 0,
            top: 0,
            right: (width - 1) as i32,
            bottom: (height - 1) as i32,
            flags: MONITOR_PRIMARY,
        }),
    )
}

/// The messages that create the surfaces of outputs and map each to its place, in order.
pub open spec fn surfaces_created(outputs: Seq<GfxOutputInfo>) -> Seq<u8>
    decreases outputs.len(),
{
    if outputs.len() == 0 {
        Seq::empty()
    } else {
        let o = outputs.last();
        surfaces_created(outputs.drop_last()) + create_surface_bytes(
            o.surface_id,
            o.width,
            o.height,
            SurfaceFormat::XRgb,
        ) + map_surface_bytes(o.surface_id, o.x, o.y)
    }
}

/// The messages that delete the surfaces of outputs, in order.
pub open spec fn surfaces_deleted(outputs: Seq<GfxOutputInfo>) -> Seq<u8>
    decreases outputs.len(),
{
    if outputs.len() == 0 {
        Seq::empty()
    } else {
        surfaces_deleted(outputs.drop_last()) + delete_surface_bytes(outputs.last().surface_id)
    }
}

/// The messages that set up a surface for each output, or one for the main display without any.
pub open spec fn layout_setup(outputs: Seq<GfxOutputInfo>, width: u16, height: u16) -> Seq<u8> {
    if outputs.len() == 0 {
        surface_setup(width, height)
    } else {
        desktop_reset(width, height) + surfaces_created(outputs)
    }
}

/// The messages that go from the surfaces of some outputs to those of others.
pub open spec fn layout_reset(
    before: Seq<GfxOutputInfo>,
    outputs: Seq<GfxOutputInfo>,
    width: u16,
    height: u16,
) -> Seq<u8> {
    (if before.len() == 0 {
        delete_surface_bytes(SURFACE_ID)
    } else {
        surfaces_deleted(before)
    }) + layout_setup(outputs, width, height)
}

/// One output that fills the desktop is set up as the main display is.
pub proof fn lemma_one_output_is_the_main_display(outputs: Seq<GfxOutputInfo>, width: u16, height: u16)
    requires
        outputs.len() == 1,
        outputs[0].surface_id == SURFACE_ID,
        outputs[0].x == 0,
        outputs[0].y == 0,
        outputs[0].width == width,
        outputs[0].height == height,
    ensures
        layout_setup(outputs, width, height) == surface_setup(width, height),
        layout_reset(outputs, outputs, width, height) == delete_surface_bytes(SURFACE_ID)
            + surface_setup(width, height),
{
    reveal_with_fuel(surfaces_created, 2);
    reveal_with_fuel(surfaces_deleted, 2);
    assert(layout_setup(outputs, width, height) =~= surface_setup(width, height));
    assert(surfaces_deleted(outputs) =~= delete_surface_bytes(SURFACE_ID));
}

/// The whole picture, edges included. An empty extent counts as one pixel.
pub open spec fn whole_picture(width: u16, height: u16) -> SurfaceRect {
    SurfaceRect {
        left: 0,
        top: 0,
        right: if width == 0 {
            0
        } else {
            (width - 1) as u16
        },
        bottom: if height == 0 {
            0
        } else {
            (height - 1) as u16
        },
    }
}

/// Frames carry no time of their own.
pub open spec fn frame_time() -> FrameTime {
    FrameTime { milliseconds: 0, seconds: 0, minutes: 0, hours: 0 }
}

/// A picture for a part of a surface, in the form that the channel carries.
pub open spec fn part_picture(h264: Seq<u8>, surface_id: u16, rect: SurfaceRect) -> Seq<u8> {
    let quality = RegionQuality {
        quantization: FRAME_QUANTIZATION,
        progressive: false,
        quality: FRAME_QUALITY,
    };
    wire_to_surface_bytes(
        surface_id,
        SurfaceCodec::Avc420,
        SurfaceFormat::XRgb,
        rect,
        avc420_bytes(rect, quality, h264),
    )
}

/// The picture of a frame, in the form that the channel carries: it fills the surface.
pub open spec fn frame_picture(h264: Seq<u8>, surface_id: u16, width: u16, height: u16) -> Seq<u8> {
    part_picture(h264, surface_id, whole_picture(width, height))
}

/// The part of a surface that a tile takes, edges included. An empty extent counts as one pixel, and
/// no part reaches beyond the largest surface.
pub open spec fn tile_rect(t: TileFrame) -> SurfaceRect {
    let whole = whole_picture(t.width, t.height);
    SurfaceRect {
        left: t.x,
        top: t.y,
        right: if t.x + whole.right > u16::MAX {
            u16::MAX
        } else {
            (t.x + whole.right) as u16
        },
        bottom: if t.y + whole.bottom > u16::MAX {
            u16::MAX
        } else {
            (t.y + whole.bottom) as u16
        },
    }
}

/// The pictures of tiles, in order.
pub open spec fn tile_pictures(tiles: Seq<TileFrame>, surface_id: u16) -> Seq<u8>
    decreases tiles.len(),
{
    if tiles.len() == 0 {
        Seq::empty()
    } else {
        tile_pictures(tiles.drop_last(), surface_id) + part_picture(
            tiles.last().data@,
            surface_id,
            tile_rect(tiles.last()),
        )
    }
}

/// The message of a frame that is made of tiles.
pub open spec fn tiles_message(tiles: Seq<TileFrame>, surface_id: u16, frame_id: u32) -> Seq<u8> {
    wrapped(
        start_frame_bytes(frame_time(), frame_id) + tile_pictures(tiles, surface_id)
            + end_frame_bytes(frame_id),
    )
}

/// The length of every tile's picture fits in 32 bits.
pub open spec fn tiles_fit(tiles: Seq<TileFrame>, surface_id: u16) -> bool {
    forall|i: int|
        0 <= i < tiles.len() ==> part_picture(
            (#[trigger] tiles[i]).data@,
            surface_id,
            tile_rect(tiles[i]),
        ).len() <= u32::MAX
}

/// Wrap message bytes in a single uncompressed segment.
///
/// Every message from server to client is wrapped. Uncompressed, that takes two bytes: 0xE0 for
/// a single segment and 0x04 for its compression type.
pub fn wrap_zgfx_uncompressed(gfx_pdu: &[u8]) -> (r: Vec<u8>)
    ensures
        r@ == wrapped(gfx_pdu@),
{
    let mut r: Vec<u8> = Vec::new();
    r.push(0xE0);
    r.push(0x04);
    push_bytes(&mut r, gfx_pdu);
    assert(r@ =~= wrapped(gfx_pdu@));
    r
}

/// Appends the messages that set up the surface of the main display.
fn push_surface_setup(out: &mut Vec<u8>, width: u16, height: u16)
    ensures
        final(out)@ == old(out)@ + surface_setup(width, height),
{
    let ghost before = out@;
    let monitor = SurfaceMonitor {
        left: 0,
        top: 0,
        right: width as i32 - 1,
        bottom: height as i32 - 1,
        flags: MONITOR_PRIMARY,
    };
    match encode_reset_graphics(width as u32, height as u32, monitor) {
        Some(bytes) => push_bytes(out, &bytes),
        None => {},
    }
    match encode_create_surface(SURFACE_ID, width, height, SurfaceFormat::XRgb) {
        Some(bytes) => push_bytes(out, &bytes),
        None => {},
    }
    match encode_map_surface(SURFACE_ID, 0, 0) {
        Some(bytes) => push_bytes(out, &bytes),
        None => {},
    }
    assert(out@ =~= before + surface_setup(width, height));
}

/// Build the messages that reset the surface at a new resolution: the old surface goes, the
/// desktop is reset, and a new surface is created and mapped. The result is wrapped.
pub fn build_reset_surface_pdus(width: u16, height: u16) -> (r: Vec<u8>)
    ensures
        r@ == wrapped(delete_surface_bytes(SURFACE_ID) + surface_setup(width, height)),
{
    let mut raw: Vec<u8> = Vec::new();
    match encode_delete_surface(SURFACE_ID) {
        Some(bytes) => push_bytes(&mut raw, &bytes),
        None => {},
    }
    push_surface_setup(&mut raw, width, height);
    assert(raw@ =~= delete_surface_bytes(SURFACE_ID) + surface_setup(width, height));
    wrap_zgfx_uncompressed(&raw)
}

/// Appends the messages that set up a surface for each output.
fn push_layout_setup(out: &mut Vec<u8>, outputs: &[GfxOutputInfo], width: u16, height: u16)
    ensures
        final(out)@ == old(out)@ + layout_setup(outputs@, width, height),
{
    if outputs.len() == 0 {
        push_surface_setup(out, width, height);
        return;
    }
    let ghost before = out@;
    let monitor = SurfaceMonitor {
        left: 0,
        top: 0,
        right: width as i32 - 1,
        bottom: height as i32 - 1,
        flags: MONITOR_PRIMARY,
    };
    match encode_reset_graphics(width as u32, height as u32, monitor) {
        Some(bytes) => push_bytes(out, &bytes),
        None => {},
    }
    let ghost reset = out@;
    assert(reset =~= before + desktop_reset(width, height));
    let mut i: usize = 0;
    assert(outputs@.take(0) =~= Seq::<GfxOutputInfo>::empty());
    assert(reset =~= reset + surfaces_created(outputs@.take(0)));
    while i < outputs.len()
        invariant
            i <= outputs@.len(),
            out@ == reset + surfaces_created(outputs@.take(i as int)),
        decreases outputs@.len() - i,
    {
        let ghost earlier = out@;
        let o = &outputs[i];
        match encode_create_surface(o.surface_id, o.width, o.height, SurfaceFormat::XRgb) {
            Some(bytes) => push_bytes(out, &bytes),
            None => {},
        }
        match encode_map_surface(o.surface_id, o.x, o.y) {
            Some(bytes) => push_bytes(out, &bytes),
            None => {},
        }
        proof {
            assert(outputs@.take(i + 1).drop_last() =~= outputs@.take(i as int));
            assert(out@ =~= reset + surfaces_created(outputs@.take(i + 1)));
        }
        i = i + 1;
    }
    proof {
        assert(outputs@.take(i as int) =~= outputs@);
        assert(out@ =~= before + layout_setup(outputs@, width, height));
    }
}

/// Build the messages that go from the surfaces of some outputs to those of others: the old surfaces
/// go, the desktop is reset, and the new ones are created and mapped. The result is wrapped.
pub fn build_layout_reset_pdus(
    before: &[GfxOutputInfo],
    outputs: &[GfxOutputInfo],
    width: u16,
    height: u16,
) -> (r: Vec<u8>)
    ensures
        r@ == wrapped(layout_reset(before@, outputs@, width, height)),
{
    let mut raw: Vec<u8> = Vec::new();
    if before.len() == 0 {
        match encode_delete_surface(SURFACE_ID) {
            Some(bytes) => push_bytes(&mut raw, &bytes),
            None => {},
        }
    }
    let ghost start = raw@;
    let mut i: usize = 0;
    assert(before@.take(0) =~= Seq::<GfxOutputInfo>::empty());
    assert(start =~= start + surfaces_deleted(before@.take(0)));
    while i < before.len()
        invariant
            i <= before@.len(),
            raw@ == start + surfaces_deleted(before@.take(i as int)),
        decreases before@.len() - i,
    {
        match encode_delete_surface(before[i].surface_id) {
            Some(bytes) => push_bytes(&mut raw, &bytes),
            None => {},
        }
        proof {
            assert(before@.take(i + 1).drop_last() =~= before@.take(i as int));
            assert(raw@ =~= start + surfaces_deleted(before@.take(i + 1)));
        }
        i = i + 1;
    }
    assert(before@.take(i as int) =~= before@);
    push_layout_setup(&mut raw, outputs, width, height);
    assert(raw@ =~= layout_reset(before@, outputs@, width, height));
    wrap_zgfx_uncompressed(&raw)
}

/// Appends a picture for a part of a surface. Returns false, and leaves `out` as it is, where the
/// length of its message does not fit in 32 bits.
fn push_part(out: &mut Vec<u8>, h264_data: &[u8], surface_id: u16, rect: SurfaceRect) -> (done: bool)
    ensures
        done == (part_picture(h264_data@, surface_id, rect).len() <= u32::MAX),
        final(out)@ == if done {
            old(out)@ + part_picture(h264_data@, surface_id, rect)
        } else {
            old(out)@
        },
{
    let quality = RegionQuality {
        quantization: FRAME_QUANTIZATION,
        progressive: false,
        quality: FRAME_QUALITY,
    };
    let bitmap: Vec<u8> = match encode_avc420(rect, quality, h264_data) {
        Some(bytes) => bytes,
        None => Vec::new(),
    };
    match encode_wire_to_surface(
        surface_id,
        SurfaceCodec::Avc420,
        SurfaceFormat::XRgb,
        rect,
        bitmap,
    ) {
        Some(bytes) => {
            push_bytes(out, &bytes);
            true
        },
        None => false,
    }
}

/// Encode an H.264 frame for the surface of an output: the frame's start, its picture, and its end,
/// wrapped. A picture whose message length does not fit in 32 bits gives nothing.
pub fn encode_gfx_surface_frame(
    h264_data: &[u8],
    surface_id: u16,
    width: u16,
    height: u16,
    frame_id: u32,
) -> (r: Option<Vec<u8>>)
    ensures
        match r {
            Some(v) => v@ == wrapped(
                start_frame_bytes(frame_time(), frame_id) + frame_picture(
                    h264_data@,
                    surface_id,
                    width,
                    height,
                ) + end_frame_bytes(frame_id),
            ) && frame_picture(h264_data@, surface_id, width, height).len() <= u32::MAX,
            None => frame_picture(h264_data@, surface_id, width, height).len() > u32::MAX,
        },
{
    let rect = SurfaceRect {
        left: 0,
        top: 0,
        right: width.saturating_sub(1),
        bottom: height.saturating_sub(1),
    };
    assert(rect == whole_picture(width, height));
    let mut raw: Vec<u8> = Vec::new();
    push_start(&mut raw, frame_id);
    if !push_part(&mut raw, h264_data, surface_id, rect) {
        return None;
    }
    push_end(&mut raw, frame_id);
    assert(raw@ =~= start_frame_bytes(frame_time(), frame_id) + frame_picture(
        h264_data@,
        surface_id,
        width,
        height,
    ) + end_frame_bytes(frame_id));
    Some(wrap_zgfx_uncompressed(&raw))
}

/// Encode an H.264 frame for the main display.
pub fn encode_gfx_avc420_frame(h264_data: &[u8], width: u16, height: u16, frame_id: u32) -> (r:
    Option<Vec<u8>>)
    ensures
        match r {
            Some(v) => v@ == wrapped(
                start_frame_bytes(frame_time(), frame_id) + frame_picture(
                    h264_data@,
                    SURFACE_ID,
                    width,
                    height,
                ) + end_frame_bytes(frame_id),
            ) && frame_picture(h264_data@, SURFACE_ID, width, height).len() <= u32::MAX,
            None => frame_picture(h264_data@, SURFACE_ID, width, height).len() > u32::MAX,
        },
{
    encode_gfx_surface_frame(h264_data, SURFACE_ID, width, height, frame_id)
}

fn push_start(out: &mut Vec<u8>, frame_id: u32)
    ensures
        final(out)@ == old(out)@ + start_frame_bytes(frame_time(), frame_id),
{
    let time = FrameTime { milliseconds: 0, seconds: 0, minutes: 0, hours: 0 };
    match encode_start_frame(time, frame_id) {
        Some(bytes) => push_bytes(out, &bytes),
        None => {},
    }
}

fn push_end(out: &mut Vec<u8>, frame_id: u32)
    ensures
        final(out)@ == old(out)@ + end_frame_bytes(frame_id),
{
    match encode_end_frame(frame_id) {
        Some(bytes) => push_bytes(out, &bytes),
        None => {},
    }
}

/// Encode the tiles of an output as one frame for its surface: the frame's start, a picture for each
/// tile, and its end, wrapped. A tile whose message length does not fit in 32 bits gives nothing.
pub fn encode_gfx_avc420_tiles(frames: &[TileFrame], surface_id: u16, frame_id: u32) -> (r: Option<
    Vec<u8>,
>)
    ensures
        match r {
            Some(v) => tiles_fit(frames@, surface_id) && v@ == tiles_message(
                frames@,
                surface_id,
                frame_id,
            ),
            None => !tiles_fit(frames@, surface_id),
        },
{
    let mut raw: Vec<u8> = Vec::new();
    push_start(&mut raw, frame_id);
    let ghost start = raw@;
    let mut i: usize = 0;
    assert(frames@.take(0) =~= Seq::<TileFrame>::empty());
    assert(start =~= start + tile_pictures(frames@.take(0), surface_id));
    while i < frames.len()
        invariant
            i <= frames@.len(),
            raw@ == start + tile_pictures(frames@.take(i as int), surface_id),
            forall|k: int|
                0 <= k < i ==> part_picture(
                    (#[trigger] frames@[k]).data@,
                    surface_id,
                    tile_rect(frames@[k]),
                ).len() <= u32::MAX,
        decreases frames@.len() - i,
    {
        let t = &frames[i];
        let rect = SurfaceRect {
            left: t.x,
            top: t.y,
            right: t.x.saturating_add(t.width.saturating_sub(1)),
            bottom: t.y.saturating_add(t.height.saturating_sub(1)),
        };
        assert(rect == tile_rect(*t));
        if !push_part(&mut raw, &t.data, surface_id, rect) {
            assert(part_picture(frames@[i as int].data@, surface_id, tile_rect(frames@[i as int])).len()
                > u32::MAX);
            return None;
        }
        proof {
            assert(frames@.take(i + 1).drop_last() =~= frames@.take(i as int));
            assert(raw@ =~= start + tile_pictures(frames@.take(i + 1), surface_id));
        }
        i = i + 1;
    }
    assert(frames@.take(i as int) =~= frames@);
    push_end(&mut raw, frame_id);
    assert(raw@ =~= start_frame_bytes(frame_time(), frame_id) + tile_pictures(frames@, surface_id)
        + end_frame_bytes(frame_id));
    Some(wrap_zgfx_uncompressed(&raw))
}

/// The capability that answers an advertisement.
pub open spec fn answers(body: Seq<u8>, chosen: Capability) -> bool {
    let caps = advertised_in(body);
    if caps.len() == 0 {
        chosen == (Capability { version: CapabilityVersion::V8, flags: 0 })
    } else {
        exists|i: int| is_best(caps, i) && chosen == #[trigger] caps[i]
    }
}

impl GfxHandler {
    pub fn new(state: GfxSharedState) -> (r: Self)
        ensures
            r.state == state,
    {
        GfxHandler { state }
    }

    /// Name of the graphics channel.
    pub fn channel_name(&self) -> (r: &str)
        ensures
            r@ == "Microsoft::Windows::RDS::Graphics"@,
    {
        "Microsoft::Windows::RDS::Graphics"
    }

    /// The channel opens: everything but the dimensions and the outputs starts anew, and the client's
    /// capabilities are waited for.
    pub fn start(&mut self, channel_id: u32) -> (messages: Vec<Vec<u8>>)
        ensures
            messages@.len() == 0,
            ({
                let s = final(self).state;
                &&& s.channel_id == Some(channel_id)
                &&& !s.ready
                &&& !s.avc_supported
                &&& s.next_frame_id == 0
                &&& s.last_acked_frame_id is None
                &&& s.pending_response is None
                &&& s.width == old(self).state.width
                &&& s.height == old(self).state.height
                &&& s.outputs == old(self).state.outputs
            }),
    {
        self.state.channel_id = Some(channel_id);
        self.state.ready = false;
        self.state.avc_supported = false;
        self.state.next_frame_id = 0;
        self.state.last_acked_frame_id = None;
        self.state.pending_response = None;
        Vec::new()
    }

    /// The channel closes.
    pub fn close(&mut self)
        ensures
            final(self).state == (GfxSharedState {
                channel_id: None,
                ready: false,
                ..old(self).state
            }),
    {
        self.state.channel_id = None;
        self.state.ready = false;
    }

    /// Handle a message from the client and return what is sent back at once.
    ///
    /// An advertisement of capabilities is answered with the chosen one, and the messages that
    /// set up the surface wait in the state. An acknowledgement is noted. Anything else, and
    /// anything too short, changes nothing.
    pub fn process(&mut self, payload: &[u8]) -> (messages: Vec<Vec<u8>>)
        ensures
            ({
                let data = unwrapped(payload@);
                let before = old(self).state;
                let after = final(self).state;
                if data.len() >= 8 && get16(data, 0) == 0x12 {
                    &&& messages@.len() == 1
                    &&& exists|chosen: Capability|
                        {
                            &&& #[trigger] answers(data.skip(8), chosen)
                            &&& messages@[0]@ == wrapped(capabilities_confirm_bytes(chosen))
                            &&& capabilities_answered(before, after, chosen.avc())
                        }
                } else if data.len() >= 16 && get16(data, 0) == 0x0D {
                    &&& messages@.len() == 0
                    &&& after == (GfxSharedState {
                        last_acked_frame_id: Some(get32(data, 8) as u32),
                        ..before
                    })
                } else {
                    &&& messages@.len() == 0
                    &&& after == before
                }
            }),
    {
        let data: &[u8] = if payload.len() >= 2 && payload[0] == 0xE0 {
            slice_subrange(payload, 2, payload.len())
        } else {
            payload
        };
        assert(data@ =~= unwrapped(payload@));
        let mut messages: Vec<Vec<u8>> = Vec::new();
        if data.len() < 8 {
            return messages;
        }
        let command: u16 = read_u16(data, 0);
        if command == 0x12 {
            messages.push(self.handle_capabilities_advertise(slice_subrange(data, 8, data.len())));
            assert(data@.subrange(8, data@.len() as int) =~= unwrapped(payload@).skip(8));
        } else if command == 0x0D && data.len() >= 16 {
            self.state.last_acked_frame_id = Some(read_u32(data, 8));
        }
        messages
    }

    /// Choose a capability, answer with it, and leave the surface setup for the next frame.
    fn handle_capabilities_advertise(&mut self, body: &[u8]) -> (answer: Vec<u8>)
        ensures
            exists|chosen: Capability|
                {
                    &&& #[trigger] answers(body@, chosen)
                    &&& answer@ == wrapped(capabilities_confirm_bytes(chosen))
                    &&& capabilities_answered(old(self).state, final(self).state, chosen.avc())
                },
    {
        let advertised = parse_capabilities_advertise(body);
        let (chosen, avc_supported) = select_capability(&advertised);
        proof {
            assert(0u32 & 3u32 == 0u32) by (bit_vector);
            assert(chosen.wf());
            assert(answers(body@, chosen));
        }
        let bytes = chosen.to_bytes();
        let confirm: Vec<u8> = match encode_capabilities_confirm(chosen, &bytes) {
            Some(bytes) => bytes,
            None => Vec::new(),
        };
        let mut raw: Vec<u8> = Vec::new();
        push_layout_setup(
            &mut raw,
            &self.state.outputs,
            self.state.width,
            self.state.height,
        );
        assert(raw@ =~= layout_setup(
            self.state.outputs@,
            self.state.width,
            self.state.height,
        ));
        let channel_id: u32 = match self.state.channel_id {
            Some(id) => id,
            None => DEFAULT_CHANNEL_ID,
        };
        self.state.pending_response = Some(
            GfxPendingResponse { channel_id, data: wrap_zgfx_uncompressed(&raw) },
        );
        self.state.avc_supported = avc_supported;
        wrap_zgfx_uncompressed(&confirm)
    }
}

/// The surface setup waits to be sent, and whether the client takes AVC is known. Nothing else
/// changed.
pub open spec fn capabilities_answered(
    before: GfxSharedState,
    after: GfxSharedState,
    avc: bool,
) -> bool {
    &&& after.pending_response is Some
    &&& after.pending_response->0.data@ == wrapped(
        layout_setup(before.outputs@, before.width, before.height),
    )
    &&& after.pending_response->0.channel_id == match before.channel_id {
        Some(id) => id,
        None => DEFAULT_CHANNEL_ID,
    }
    &&& after.avc_supported == avc
    &&& after.channel_id == before.channel_id
    &&& after.ready == before.ready
    &&& after.width == before.width
    &&& after.height == before.height
    &&& after.outputs == before.outputs
    &&& after.next_frame_id == before.next_frame_id
    &&& after.last_acked_frame_id == before.last_acked_frame_id
}

} // verus!
