//! What happens before, in and after each frame.

use crate::adaptive::{TileFrame, TileGrid};
use crate::compositor::event::{Effect, IpcEvent};
use crate::compositor::monitors::with_geometry;
use crate::compositor::state::{geometry_ok, lemma_index_of, DinatorState, Model, OutputState};
use crate::encode::{EncodeResult, EncodedFrame, Encoder};
use crate::gfx::channel::{
    build_layout_reset_pdus, encode_gfx_avc420_tiles, encode_gfx_surface_frame, frame_picture,
    frame_time, layout_reset, tiles_fit, tiles_message, wrapped, GfxOutputInfo, GfxPendingResponse,
    GfxSharedState,
};
use crate::gfx::pdu::{end_frame_bytes, start_frame_bytes};
use crate::session::canvas::{
    as_size, blitted, composite_size, extent, swap_red_blue, swapped, Canvas, DirtyOutput,
};
use crate::session::events::desktop_of;
use crate::session::gate::{decision, Decision, FrameGate};
use crate::session::surfaces::{gfx_outputs, is_surface, primary_size};
use crate::tiling::Rect;
use vstd::prelude::*;

verus! {

/// What a size that waits does to the focused output.
pub open spec fn focused_resized(
    before: Model,
    after: Model,
    size: Option<(u16, u16)>,
    effects: Seq<Effect>,
) -> bool {
    if size is Some && before.focused_index() is Some {
        let i = before.focused_index()->0;
        let (width, height) = size->0;
        &&& after == with_geometry(
            before,
            i,
            Rect { width: width as i32, height: height as i32, ..before.outputs[i].geometry },
        )
        &&& effects == seq![Effect::Retile { output: before.outputs[i].name }]
    } else {
        after == before && effects == Seq::<Effect>::empty()
    }
}

/// The focused output's far edges can be written down at this size.
pub open spec fn focused_fits(m: Model, size: Option<(u16, u16)>) -> bool {
    size is Some && m.focused_index() is Some ==> {
        let g = m.outputs[m.focused_index()->0].geometry;
        let (width, height) = size->0;
        g.x + width <= i32::MAX && g.y + height <= i32::MAX
    }
}

impl DinatorState {
    /// Gives the focused output the size that waits, and arranges it anew.
    pub fn resize_focused(&mut self, size: Option<(u16, u16)>) -> (effects: Vec<Effect>)
        requires
            old(self).wf(),
            focused_fits(old(self)@, size),
        ensures
            final(self).wf(),
            focused_resized(old(self)@, final(self)@, size, effects@),
    {
        let mut effects: Vec<Effect> = Vec::new();
        match (size, self.focused_output_index()) {
            (Some((width, height)), Some(i)) => {
                let g = self.outputs[i].geometry;
                let name = self.outputs[i].name.clone();
                proof {
                    lemma_index_of(self.outputs@, name@, i as int);
                }
                self.set_output_geometry(
                    name.as_str(),
                    Rect { x: g.x, y: g.y, width: width as i32, height: height as i32 },
                );
                effects.push(Effect::Retile { output: name });
            },
            _ => {},
        }
        effects
    }
}

/// The picture of all outputs has another size.
#[derive(Debug)]
pub struct LayoutChange {
    pub width: u16,
    pub height: u16,
    /// Another size of the desktop that RDP clients are told.
    pub desktop: Option<(u16, u16)>,
    /// The channel and the messages that set the surfaces up anew.
    pub reset: Option<(u32, Vec<u8>)>,
    /// Whether every encoder starts with a keyframe.
    pub keyframes: bool,
    pub effects: Vec<Effect>,
}

/// What follows when the picture of all outputs gets another size.
pub open spec fn is_layout_change(
    c: LayoutChange,
    width: u16,
    height: u16,
    outputs: Seq<OutputState>,
    desktop: (u16, u16),
    gfx: GfxSharedState,
    surfaces: Seq<GfxOutputInfo>,
) -> bool {
    &&& c.width == width
    &&& c.height == height
    &&& c.desktop == (if desktop_of(outputs, desktop) != desktop {
        Some(desktop_of(outputs, desktop))
    } else {
        None
    })
    &&& c.keyframes == gfx.ready
    &&& match c.reset {
        Some((channel, messages)) => {
            &&& gfx.ready
            &&& gfx.channel_id == Some(channel)
            &&& messages@ == wrapped(layout_reset(gfx.outputs@, surfaces, width, height))
        },
        None => !gfx.ready || gfx.channel_id is None,
    }
    &&& c.effects@ == seq![Effect::Emit { event: IpcEvent::ResolutionChanged { width, height } }]
}

/// There is a surface for each output.
pub open spec fn are_surfaces(outputs: Seq<OutputState>, surfaces: Seq<GfxOutputInfo>) -> bool {
    &&& surfaces.len() == outputs.len()
    &&& forall|i: int| 0 <= i < surfaces.len() ==> is_surface(outputs, i, #[trigger] surfaces[i])
}

/// Fits the picture of all outputs and the graphics channel to the outputs that there are, each with
/// a surface of its own. If the picture changes its size it is cleared, and clients are told.
pub fn sync_layout(
    canvas: &mut Canvas,
    gfx: &mut GfxSharedState,
    outputs: &[OutputState],
    desktop: (u16, u16),
) -> (change: Option<LayoutChange>)
    requires
        old(canvas).wf(),
        forall|i: int| 0 <= i < outputs@.len() ==> geometry_ok((#[trigger] outputs@[i]).geometry),
        4 * (as_size(extent(outputs@).0) * as_size(extent(outputs@).1)) <= usize::MAX,
    ensures
        final(canvas).wf(),
        ({
            let width = as_size(extent(outputs@).0);
            let height = as_size(extent(outputs@).1);
            let changed = width != old(canvas).width || height != old(canvas).height;
            &&& final(canvas).width == width
            &&& final(canvas).height == height
            &&& final(canvas).buffer@ == (if changed {
                Seq::new((4 * (width * height)) as nat, |i: int| 0u8)
            } else {
                old(canvas).buffer@
            })
            &&& are_surfaces(outputs@, final(gfx).outputs@)
            &&& *final(gfx) == (GfxSharedState {
                width,
                height,
                outputs: final(gfx).outputs,
                ..*old(gfx)
            })
            &&& match change {
                Some(c) => changed && is_layout_change(
                    c,
                    width,
                    height,
                    outputs@,
                    desktop,
                    *old(gfx),
                    final(gfx).outputs@,
                ),
                None => !changed,
            }
        }),
{
    let (width, height) = composite_size(outputs);
    gfx.width = width;
    gfx.height = height;
    let mut surfaces = gfx_outputs(outputs);
    std::mem::swap(&mut gfx.outputs, &mut surfaces);
    if !canvas.resize(width, height) {
        return None;
    }
    let new_desktop: Option<(u16, u16)> = match primary_size(outputs) {
        Some(size) => if size.0 != desktop.0 || size.1 != desktop.1 {
            Some(size)
        } else {
            None
        },
        None => None,
    };
    let reset: Option<(u32, Vec<u8>)> = match gfx.channel_id {
        Some(channel) => if gfx.ready {
            Some((channel, build_layout_reset_pdus(&surfaces, &gfx.outputs, width, height)))
        } else {
            None
        },
        None => None,
    };
    let mut effects: Vec<Effect> = Vec::new();
    effects.push(Effect::Emit { event: IpcEvent::ResolutionChanged { width, height } });
    Some(
        LayoutChange { width, height, desktop: new_desktop, reset, keyframes: gfx.ready, effects },
    )
}

/// Takes the response that waits for the client. If it can be sent, the channel is ready from now
/// on, and every output is to be drawn and encoded anew.
pub fn take_response(gfx: &mut GfxSharedState, can_send: bool) -> (r: Option<GfxPendingResponse>)
    ensures
        r == (if can_send {
            old(gfx).pending_response
        } else {
            None
        }),
        *final(gfx) == (GfxSharedState {
            pending_response: None,
            ready: old(gfx).ready || (can_send && old(gfx).pending_response is Some),
            ..*old(gfx)
        }),
{
    match gfx.pending_response.take() {
        Some(response) => {
            if can_send {
                gfx.ready = true;
                Some(response)
            } else {
                None
            }
        },
        None => None,
    }
}

/// A picture with outputs copied into it, one after the other.
pub open spec fn composed(buffer: Seq<u8>, width: int, dirty: Seq<DirtyOutput>) -> Seq<u8>
    decreases dirty.len(),
{
    if dirty.len() == 0 {
        buffer
    } else {
        let d = dirty.last();
        blitted(
            composed(buffer, width, dirty.drop_last()),
            width,
            d.x as int,
            d.y as int,
            d.width as int,
            d.pixels@,
            d.height as int,
        )
    }
}

/// The places in the picture that an output takes can be counted.
pub open spec fn countable(d: DirtyOutput, width: u16) -> bool {
    &&& d.y + d.height <= usize::MAX
    &&& (d.y + d.height) * (4 * width) + 4 * d.x + 4 * d.width <= usize::MAX
    &&& d.height * (4 * d.width) <= usize::MAX
}

/// Copies the outputs that changed into the picture of all outputs. If any did, returns the picture
/// with blue first.
pub fn compose(canvas: &mut Canvas, dirty: &[DirtyOutput]) -> (r: Option<Vec<u8>>)
    requires
        old(canvas).wf(),
        forall|i: int|
            0 <= i < dirty@.len() ==> countable(#[trigger] dirty@[i], old(canvas).width),
    ensures
        final(canvas).wf(),
        final(canvas).width == old(canvas).width,
        final(canvas).height == old(canvas).height,
        final(canvas).buffer@ == composed(old(canvas).buffer@, old(canvas).width as int, dirty@),
        match r {
            Some(frame) => dirty@.len() > 0 && frame@ == swapped(final(canvas).buffer@),
            None => dirty@.len() == 0,
        },
{
    if dirty.len() == 0 {
        return None;
    }
    let ghost before = canvas.buffer@;
    let mut i: usize = 0;
    assert(dirty@.take(0) =~= Seq::<DirtyOutput>::empty());
    while i < dirty.len()
        invariant
            i <= dirty@.len(),
            canvas.wf(),
            canvas.width == old(canvas).width,
            canvas.height == old(canvas).height,
            canvas.buffer@ == composed(before, canvas.width as int, dirty@.take(i as int)),
            forall|k: int|
                0 <= k < dirty@.len() ==> countable(#[trigger] dirty@[k], old(canvas).width),
        decreases dirty@.len() - i,
    {
        assert(dirty@.take(i + 1).drop_last() =~= dirty@.take(i as int));
        assert(countable(dirty@[i as int], canvas.width));
        canvas.blit(&dirty[i]);
        i = i + 1;
    }
    assert(dirty@.take(i as int) =~= dirty@);
    Some(swap_red_blue(&canvas.buffer))
}

/// What became of an encoded frame.
#[derive(Debug)]
pub struct Passed {
    /// The channel and the message that goes to the client.
    pub message: Option<(u32, Vec<u8>)>,
    /// Whether the message is a keyframe.
    pub keyframe: bool,
    /// Whether the encoder is to start anew with a keyframe.
    pub force_keyframe: bool,
}

/// The message of a frame.
pub open spec fn frame_message(
    h264: Seq<u8>,
    surface_id: u16,
    width: u16,
    height: u16,
    frame_id: u32,
) -> Seq<u8> {
    wrapped(
        start_frame_bytes(frame_time(), frame_id) + frame_picture(h264, surface_id, width, height)
            + end_frame_bytes(frame_id),
    )
}

/// What becomes of an encoded frame: it is dropped, or goes to the channel, if that is open and can
/// send. A frame that the channel cannot carry leaves everything as it was.
pub open spec fn frame_passed(
    gate: FrameGate,
    gfx: GfxSharedState,
    frame: EncodedFrame,
    surface_id: u16,
    width: u16,
    height: u16,
    new_second: bool,
    cooled: bool,
    can_send: bool,
    new_gate: FrameGate,
    new_gfx: GfxSharedState,
    r: Passed,
) -> bool {
    let bytes = if new_second {
        0
    } else {
        gate.bytes_in_window
    };
    let decided = decision(
        bytes,
        frame.data@.len() as usize,
        frame.is_keyframe,
        cooled,
        gfx.next_frame_id,
    );
    let next = GfxSharedState { next_frame_id: (gfx.next_frame_id + 1) as u32, ..gfx };
    match decided {
        Decision::Send { frame_id } => {
            &&& !r.force_keyframe
            &&& if frame_picture(frame.data@, surface_id, width, height).len() > u32::MAX {
                &&& r.message is None
                &&& !r.keyframe
                &&& new_gfx == gfx
                &&& new_gate == (FrameGate { bytes_in_window: bytes, ..gate })
            } else {
                &&& new_gfx == next
                &&& match r.message {
                    Some((channel, message)) => {
                        &&& can_send
                        &&& gfx.channel_id == Some(channel)
                        &&& message@ == frame_message(
                            frame.data@,
                            surface_id,
                            width,
                            height,
                            frame_id,
                        )
                        &&& r.keyframe == frame.is_keyframe
                        &&& new_gate == (FrameGate {
                            bytes_in_window: (bytes + message@.len()) as u64,
                            dropped: 0,
                        })
                    },
                    None => {
                        &&& !can_send || gfx.channel_id is None
                        &&& !r.keyframe
                        &&& new_gate == (FrameGate { bytes_in_window: bytes, ..gate })
                    },
                }
            }
        },
        _ => {
            &&& r.message is None
            &&& !r.keyframe
            &&& r.force_keyframe == (decided == Decision::Oversized { force_keyframe: true })
            &&& new_gfx == (if decided is Unchanged {
                gfx
            } else {
                next
            })
            &&& new_gate == (FrameGate {
                bytes_in_window: bytes,
                dropped: (gate.dropped + (if decided is Oversized {
                    1int
                } else {
                    0
                })) as u64,
            })
        },
    }
}

/// Decides on an encoded frame and makes its message for a surface. `new_second` tells that a second has passed
/// since the count of bytes began, `cooled` that the last keyframe is long ago, and `can_send` that
/// there is a client to send to.
pub fn pass_frame(
    gate: &mut FrameGate,
    gfx: &mut GfxSharedState,
    frame: &EncodedFrame,
    surface_id: u16,
    width: u16,
    height: u16,
    new_second: bool,
    cooled: bool,
    can_send: bool,
) -> (r: Passed)
    requires
        old(gfx).next_frame_id < u32::MAX,
        old(gate).dropped < u64::MAX,
        old(gate).bytes_in_window <= u64::MAX / 2,
    ensures
        frame_passed(
            *old(gate),
            *old(gfx),
            *frame,
            surface_id,
            width,
            height,
            new_second,
            cooled,
            can_send,
            *final(gate),
            *final(gfx),
            r,
        ),
{
    match gate.decide(gfx, frame.data.len(), frame.is_keyframe, new_second, cooled) {
        Decision::Throttled => Passed { message: None, keyframe: false, force_keyframe: false },
        Decision::Unchanged => Passed { message: None, keyframe: false, force_keyframe: false },
        Decision::Oversized { force_keyframe } => Passed {
            message: None,
            keyframe: false,
            force_keyframe,
        },
        Decision::Send { frame_id } => {
            match encode_gfx_surface_frame(&frame.data, surface_id, width, height, frame_id) {
                None => Passed { message: None, keyframe: false, force_keyframe: false },
                Some(message) => {
                    match gfx.channel_id {
                        Some(channel) => {
                            if can_send {
                                gate.sent(gfx, frame_id, Some(message.len()));
                                return Passed {
                                    message: Some((channel, message)),
                                    keyframe: frame.is_keyframe,
                                    force_keyframe: false,
                                };
                            }
                        },
                        None => {},
                    }
                    gate.sent(gfx, frame_id, None);
                    Passed { message: None, keyframe: false, force_keyframe: false }
                },
            }
        },
    }
}

/// What streaming an output makes of the encoder and the session, once the encoder has answered.
pub open spec fn streamed<E: Encoder>(
    between: E,
    after: E,
    result: EncodeResult,
    gate: FrameGate,
    gfx: GfxSharedState,
    d: DirtyOutput,
    surface_id: u16,
    new_second: bool,
    cooled: bool,
    can_send: bool,
    new_gate: FrameGate,
    new_gfx: GfxSharedState,
    r: Option<Passed>,
) -> bool {
    match result {
        Ok(Some(frame)) => {
            &&& r is Some
            &&& frame_passed(
                gate,
                gfx,
                frame,
                surface_id,
                d.width,
                d.height,
                new_second,
                cooled,
                can_send,
                new_gate,
                new_gfx,
                r->0,
            )
            &&& if r->0.force_keyframe {
                E::keyframe_forced(between, after)
            } else {
                after == between
            }
        },
        _ => {
            &&& r is None
            &&& after == between
            &&& new_gate == gate
            &&& new_gfx == gfx
        },
    }
}

/// Encodes an output that changed and passes the frame on to its surface.
pub fn stream_output<E: Encoder>(
    encoder: &mut E,
    gate: &mut FrameGate,
    gfx: &mut GfxSharedState,
    d: &DirtyOutput,
    surface_id: u16,
    new_second: bool,
    cooled: bool,
    can_send: bool,
) -> (r: Option<Passed>)
    requires
        old(encoder).takes(d.width as u32, d.height as u32),
        d.pixels@.len() >= 4 * (d.width * d.height),
        old(gfx).next_frame_id < u32::MAX,
        old(gate).dropped < u64::MAX,
        old(gate).bytes_in_window <= u64::MAX / 2,
    ensures
        exists|between: E, result: EncodeResult|
            {
                &&& #[trigger] E::encoded(
                    *old(encoder),
                    between,
                    swapped(d.pixels@),
                    d.width as u32,
                    d.height as u32,
                    result,
                )
                &&& streamed(
                    between,
                    *final(encoder),
                    result,
                    *old(gate),
                    *old(gfx),
                    *d,
                    surface_id,
                    new_second,
                    cooled,
                    can_send,
                    *final(gate),
                    *final(gfx),
                    r,
                )
            },
{
    let bgra = swap_red_blue(&d.pixels);
    let result = encoder.encode(&bgra, d.width as u32, d.height as u32);
    let ghost between = *encoder;
    assert(E::encoded(
        *old(encoder),
        between,
        swapped(d.pixels@),
        d.width as u32,
        d.height as u32,
        result,
    ));
    match &result {
        Ok(Some(frame)) => {
            let passed = pass_frame(
                gate,
                gfx,
                frame,
                surface_id,
                d.width,
                d.height,
                new_second,
                cooled,
                can_send,
            );
            if passed.force_keyframe {
                encoder.force_keyframe();
            }
            Some(passed)
        },
        _ => None,
    }
}

/// What became of the tiles of an output.
#[derive(Debug)]
pub struct TilesPassed {
    /// The channel and the message that goes to the client.
    pub message: Option<(u32, Vec<u8>)>,
    /// Whether the message holds a keyframe.
    pub keyframe: bool,
}

/// One of the tiles is a keyframe.
pub open spec fn holds_keyframe(frames: Seq<TileFrame>) -> bool {
    exists|i: int| 0 <= i < frames.len() && (#[trigger] frames[i]).is_keyframe
}

/// What becomes of the frames of tiles: they go to the channel as one, if it is open and can send.
/// Without any, and where the channel cannot carry them, everything stays as it was.
pub open spec fn tiles_passed(
    frames: Seq<TileFrame>,
    surface_id: u16,
    gfx: GfxSharedState,
    can_send: bool,
    new_gfx: GfxSharedState,
    r: TilesPassed,
) -> bool {
    if frames.len() == 0 || !tiles_fit(frames, surface_id) {
        &&& r.message is None
        &&& !r.keyframe
        &&& new_gfx == gfx
    } else {
        &&& new_gfx == (GfxSharedState { next_frame_id: (gfx.next_frame_id + 1) as u32, ..gfx })
        &&& match r.message {
            Some((channel, message)) => {
                &&& can_send
                &&& gfx.channel_id == Some(channel)
                &&& message@ == tiles_message(frames, surface_id, gfx.next_frame_id)
                &&& r.keyframe == holds_keyframe(frames)
            },
            None => {
                &&& !can_send || gfx.channel_id is None
                &&& !r.keyframe
            },
        }
    }
}

/// Makes the message of the frames of tiles.
pub fn pass_tiles(
    gfx: &mut GfxSharedState,
    frames: &[TileFrame],
    surface_id: u16,
    can_send: bool,
) -> (r: TilesPassed)
    requires
        old(gfx).next_frame_id < u32::MAX,
    ensures
        tiles_passed(frames@, surface_id, *old(gfx), can_send, *final(gfx), r),
{
    if frames.len() == 0 {
        return TilesPassed { message: None, keyframe: false };
    }
    let frame_id: u32 = gfx.next_frame_id;
    let message = match encode_gfx_avc420_tiles(frames, surface_id, frame_id) {
        Some(message) => message,
        None => {
            return TilesPassed { message: None, keyframe: false };
        },
    };
    gfx.next_frame_id = frame_id + 1;
    let channel: u32 = match gfx.channel_id {
        Some(channel) => channel,
        None => {
            return TilesPassed { message: None, keyframe: false };
        },
    };
    if !can_send {
        return TilesPassed { message: None, keyframe: false };
    }
    let mut keyframe: bool = false;
    let mut i: usize = 0;
    while i < frames.len()
        invariant
            i <= frames@.len(),
            keyframe == holds_keyframe(frames@.take(i as int)),
        decreases frames@.len() - i,
    {
        proof {
            let shorter = frames@.take(i as int);
            let longer = frames@.take(i + 1);
            assert(longer[i as int] == frames@[i as int]);
            if holds_keyframe(shorter) {
                let k = choose|k: int| 0 <= k < shorter.len() && (#[trigger] shorter[k]).is_keyframe;
                assert(longer[k].is_keyframe);
            }
            if holds_keyframe(longer) {
                let k = choose|k: int| 0 <= k < longer.len() && (#[trigger] longer[k]).is_keyframe;
                if k < i {
                    assert(shorter[k].is_keyframe);
                }
            }
        }
        if frames[i].is_keyframe {
            keyframe = true;
        }
        i = i + 1;
    }
    assert(frames@.take(i as int) =~= frames@);
    TilesPassed { message: Some((channel, message)), keyframe }
}

/// What streaming an output by tiles does: the damage is marked, one tile may get its turn for a
/// keyframe, the tiles that are due are encoded, and their frames are passed on.
pub open spec fn tiles_streamed<H: Encoder>(
    before: TileGrid<H>,
    after: TileGrid<H>,
    d: DirtyOutput,
    damage: Seq<Rect>,
    frame_count: u64,
    surface_id: u16,
    gfx: GfxSharedState,
    can_send: bool,
    new_gfx: GfxSharedState,
    r: TilesPassed,
) -> bool {
    exists|marked: TileGrid<H>, staggered: TileGrid<H>, frames: Seq<TileFrame>|
        {
            &&& #[trigger] TileGrid::<H>::damage_marked(before, marked, damage)
            &&& #[trigger] TileGrid::<H>::keyframe_staggered(marked, staggered, frame_count)
            &&& #[trigger] TileGrid::<H>::encoded_due(
                staggered,
                after,
                swapped(d.pixels@),
                frames,
            )
            &&& tiles_passed(frames, surface_id, gfx, can_send, new_gfx, r)
        }
}

/// Encodes the tiles of an output that changed and passes their frames on to its surface.
pub fn stream_tiles<H: Encoder>(
    grid: &mut TileGrid<H>,
    gfx: &mut GfxSharedState,
    d: &DirtyOutput,
    damage: &[Rect],
    frame_count: u64,
    surface_id: u16,
    can_send: bool,
) -> (r: TilesPassed)
    requires
        old(grid).wf(),
        4 * (old(grid).width() * old(grid).height()) + 4 * old(grid).width() <= usize::MAX,
        forall|k: int|
            0 <= k < old(grid).tiles().len() ==> {
                let t = #[trigger] old(grid).tiles()[k];
                t.encoder.takes(t.width as u32, t.height as u32) && t.frames_since_keyframe
                    < u32::MAX
            },
        old(gfx).next_frame_id < u32::MAX,
    ensures
        final(grid).wf(),
        final(grid).same_grid(*old(grid)),
        tiles_streamed(
            *old(grid),
            *final(grid),
            *d,
            damage@,
            frame_count,
            surface_id,
            *old(gfx),
            can_send,
            *final(gfx),
            r,
        ),
{
    let bgra = swap_red_blue(&d.pixels);
    grid.mark_damage(damage);
    let ghost marked = *grid;
    assert(grid.tiles().len() > 0) by {
        assert(grid.cols() * grid.rows() > 0) by (nonlinear_arith)
            requires
                grid.cols() > 0,
                grid.rows() > 0,
        ;
    }
    grid.stagger_keyframe(frame_count);
    let ghost staggered = *grid;
    assert forall|k: int| 0 <= k < grid.tiles().len() implies ({
        let t = #[trigger] grid.tiles()[k];
        t.encoder.takes(t.width as u32, t.height as u32) && t.frames_since_keyframe < u32::MAX
    }) by {
        let first = old(grid).tiles()[k];
        assert(marked.tiles()[k].same_place(first));
        assert(grid.tiles()[k].same_place(marked.tiles()[k]));
        assert(marked.tiles()[k].encoder == first.encoder);
        let turn = frame_count as usize as int % marked.tiles().len() as int;
        if k != turn {
            assert(grid.tiles()[k] == marked.tiles()[k]);
        }
    }
    let frames = grid.encode_dirty_tiles(&bgra);
    let r = pass_tiles(gfx, &frames, surface_id, can_send);
    proof {
        assert(TileGrid::<H>::damage_marked(*old(grid), marked, damage@));
        assert(TileGrid::<H>::keyframe_staggered(marked, staggered, frame_count));
        assert(TileGrid::<H>::encoded_due(staggered, *grid, swapped(d.pixels@), frames@));
    }
    r
}

} // verus!
