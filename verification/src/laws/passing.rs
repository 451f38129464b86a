//! What goes through the library from one side to the other: texts, pictures and keys.

use crate::adaptive::{Tile, TileGrid};
use crate::background::Background;
use crate::clipboard::state::ClipboardState;
use crate::clipboard::utf16::{decode_text, lemma_text_survives};
use crate::compositor::actions::action_done;
use crate::compositor::arranging::lemma_covers;
use crate::compositor::choosing::{gap_of, goes_by, only_layout_changed};
use crate::compositor::event::{Effect, PluginAction};
use crate::compositor::keeping::lemma_named;
use crate::compositor::layout::ActiveLayout;
use crate::compositor::moving::{is_focused, lemma_focused, lemma_view_parts, unchanged};
use crate::compositor::neighbours::nameless;
use crate::compositor::state::{DinatorState, Model, OutputState};
use crate::config::join_path;
use crate::displaycontrol::{
    lemma_every_monitor_counts, monitor_order, ordered, DisplayControlDvc, MonitorEntry,
};
use crate::drm::{connector_done, connectors_done, crtcs_of, first_free, Connector, DrmOutput};
use crate::encode::ffmpeg::{FfmpegEncoderPreference, H264Codec, PixelLayout, RateControl};
use crate::encode::nal::has_idr_nal;
use crate::encode::select::{create_encoder, create_tile_encoder, AnyEncoder};
use crate::encode::software::frame_of_bitstream;
use crate::encode::{EncodeError, EncodeResult, EncodedFrame, Encoder};
use crate::gfx::channel::{GfxHandler, GfxSharedState};
use crate::input::remote::PressedKeys;
use crate::ipc::command::socket_path;
use crate::session::canvas::{composite_size, swapped, Canvas, DirtyOutput};
use crate::session::frames::{stream_output, sync_layout, LayoutChange, Passed};
use crate::session::gate::FrameGate;
use vstd::prelude::*;

verus! {

/// The text that the client copied is handed over once; after an application has copied something it is
/// not handed over at all.
pub proof fn lemma_client_text_is_taken_once(
    state: &mut ClipboardState,
    again: &mut ClipboardState,
    first: Option<String>,
    second: Option<String>,
    copying: &mut ClipboardState,
    text: String,
    formats: Vec<u32>,
    after: &mut ClipboardState,
    third: Option<String>,
)
    requires
        call_ensures(ClipboardState::take_rdp_text, (state,), first),
        *old(again) == *final(state),
        call_ensures(ClipboardState::take_rdp_text, (again,), second),
        call_ensures(ClipboardState::wayland_copied, (copying, text), formats),
        *old(after) == *final(copying),
        call_ensures(ClipboardState::take_rdp_text, (after,), third),
    ensures
        old(state).rdp_owns_clipboard ==> first == old(state).rdp_text,
        !old(state).rdp_owns_clipboard ==> first is None,
        second is None,
        third is None,
{
}

/// What an application copies is what the client pastes.
pub proof fn lemma_copied_text_is_pasted(
    state: &mut ClipboardState,
    text: String,
    formats: Vec<u32>,
    k: int,
    served: Option<Vec<u8>>,
    data: &[u8],
    back: String,
)
    requires
        text@.len() > 0 ==> text@.last() != '\0',
        call_ensures(ClipboardState::wayland_copied, (state, text), formats),
        0 <= k < formats@.len(),
        call_ensures(ClipboardState::format_data, (&*final(state), formats@[k]), served),
        served is Some ==> data@ == served->0@,
        call_ensures(decode_text, (data,), back),
    ensures
        formats@.len() == 1,
        served is Some,
        back@ == text@,
{
    lemma_text_survives(text@);
}

/// An output goes to the encoder in its own size, with red and blue in each other's place.
pub proof fn lemma_output_is_encoded<E: Encoder>(
    encoder: &mut E,
    gate: &mut FrameGate,
    gfx: &mut GfxSharedState,
    d: &DirtyOutput,
    surface_id: u16,
    new_second: bool,
    cooled: bool,
    can_send: bool,
    r: Option<Passed>,
)
    requires
        d.pixels@.len() == 4 * (d.width * d.height),
        call_ensures(
            stream_output::<E>,
            (encoder, gate, gfx, d, surface_id, new_second, cooled, can_send),
            r,
        ),
    ensures
        exists|between: E, bytes: Seq<u8>, result: EncodeResult|
            {
                &&& #[trigger] E::encoded(
                    *old(encoder),
                    between,
                    bytes,
                    d.width as u32,
                    d.height as u32,
                    result,
                )
                &&& bytes.len() == d.pixels@.len()
                &&& forall|k: int|
                    0 <= k < d.width * d.height ==> {
                        &&& bytes[#[trigger] first_byte(k)] == d.pixels@[first_byte(k) + 2]
                        &&& bytes[first_byte(k) + 1] == d.pixels@[first_byte(k) + 1]
                        &&& bytes[first_byte(k) + 2] == d.pixels@[first_byte(k)]
                        &&& bytes[first_byte(k) + 3] == d.pixels@[first_byte(k) + 3]
                    }
            },
{
    let bytes = swapped(d.pixels@);
    let (between, result) = choose|between: E, result: EncodeResult| #[trigger]
        E::encoded(*old(encoder), between, bytes, d.width as u32, d.height as u32, result);
    assert(E::encoded(*old(encoder), between, bytes, d.width as u32, d.height as u32, result));
    assert forall|k: int| 0 <= k < d.width * d.height implies {
        &&& bytes[#[trigger] first_byte(k)] == d.pixels@[first_byte(k) + 2]
        &&& bytes[first_byte(k) + 1] == d.pixels@[first_byte(k) + 1]
        &&& bytes[first_byte(k) + 2] == d.pixels@[first_byte(k)]
        &&& bytes[first_byte(k) + 3] == d.pixels@[first_byte(k) + 3]
    } by {
        let i = first_byte(k);
        assert(i % 4 == 0 && (i + 1) % 4 == 1 && (i + 2) % 4 == 2 && (i + 3) % 4 == 3);
    }
}

/// Where the four bytes of a pixel start.
pub open spec fn first_byte(k: int) -> int {
    4 * k
}

/// The picture is as large as all outputs together, and a change of that is told.
pub proof fn lemma_picture_follows_the_outputs(
    canvas: &mut Canvas,
    gfx: &mut GfxSharedState,
    outputs: &[OutputState],
    desktop: (u16, u16),
    change: Option<LayoutChange>,
    size: (u16, u16),
)
    requires
        call_ensures(sync_layout, (canvas, gfx, outputs, desktop), change),
        call_ensures(composite_size, (outputs,), size),
    ensures
        final(canvas).width == size.0 && final(canvas).height == size.1,
        final(gfx).width == size.0 && final(gfx).height == size.1,
        change is Some <==> old(canvas).width != size.0 || old(canvas).height != size.1,
        change is None ==> final(canvas).buffer@ == old(canvas).buffer@,
        change is Some ==> final(canvas).buffer@.len() == 4 * (size.0 * size.1) && forall|i: int|
            0 <= i < final(canvas).buffer@.len() ==> #[trigger] final(canvas).buffer@[i] == 0,
{
}

/// The hardware's encoder is used only where it was made for this size and preference; where software is
/// asked for by its name, it is not used. The software encoder is made for this size, at two million bits a
/// second, and for a tile at a quarter of that.
pub proof fn lemma_preferred_encoder_is_made<
    H: Encoder,
    F: Fn(u32, u32, u32, FfmpegEncoderPreference) -> Result<H, EncodeError>,
>(
    width: u32,
    height: u32,
    pref: &str,
    ffmpeg: &F,
    preference: FfmpegEncoderPreference,
    r: Option<AnyEncoder<H>>,
    tile: Result<AnyEncoder<H>, EncodeError>,
)
    requires
        call_ensures(create_encoder::<H, F>, (width, height, pref, ffmpeg), r),
        call_ensures(create_tile_encoder::<H, F>, (width, height, pref, ffmpeg), tile),
        call_ensures(FfmpegEncoderPreference::named, (pref,), preference),
    ensures
        pref@ == "openh264"@ ==> !(r matches Some(AnyEncoder::Ffmpeg(_))) && !(tile matches Ok(
            AnyEncoder::Ffmpeg(_),
        )),
        r matches Some(AnyEncoder::Ffmpeg(e)) ==> call_ensures(
            *ffmpeg,
            (width, height, 2_000_000u32, preference),
            Ok(e),
        ),
        tile matches Ok(AnyEncoder::Ffmpeg(e)) ==> call_ensures(
            *ffmpeg,
            (width, height, 2_000_000u32, preference),
            Ok(e),
        ),
        r matches Some(AnyEncoder::OpenH264(e)) ==> e.width() == width && e.height() == height
            && e.bitrate_bps() == 2_000_000,
        tile matches Ok(AnyEncoder::OpenH264(e)) ==> e.width() == width && e.height() == height
            && e.bitrate_bps() == 500_000,
        r is None && pref@ != "openh264"@ ==> exists|e: EncodeError| #[trigger]
            call_ensures(*ffmpeg, (width, height, 2_000_000u32, preference), Err(e)),
{
}

/// A preference that is named leads to the encoder of that name, and no other; the hardware's encoders aim
/// at the rate that is asked for.
pub proof fn lemma_named_encoders_are_tried(
    pref: &str,
    preference: FfmpegEncoderPreference,
    list: Vec<H264Codec>,
    name: &str,
    layout: PixelLayout,
    bitrate: u32,
    rate: RateControl,
)
    requires
        call_ensures(FfmpegEncoderPreference::named, (pref,), preference),
        call_ensures(FfmpegEncoderPreference::encoders, (&preference,), list),
        list@.len() > 0,
        call_ensures(H264Codec::name, (&list@[0],), name),
        call_ensures(H264Codec::pixel_layout, (&list@[0],), layout),
        call_ensures(H264Codec::rate_control, (&list@[0], bitrate), rate),
    ensures
        pref@ == "vaapi"@ ==> list@.len() == 1 && name@ == "h264_vaapi"@ && layout is Nv12 && rate
            == RateControl::Target(bitrate),
        pref@ == "nvenc"@ ==> list@.len() == 1 && name@ == "h264_nvenc"@ && layout is Yuv420p && rate
            == RateControl::Target(bitrate),
        pref@ == "x264"@ ==> list@.len() == 1 && name@ == "libx264"@ && layout is Yuv420p && rate is Capped,
        pref@ == "auto"@ ==> list@.len() == 3 && name@ == "h264_vaapi"@,
{
    reveal_strlit("vaapi");
    reveal_strlit("nvenc");
    reveal_strlit("x264");
    reveal_strlit("auto");
    assert("vaapi"@.len() == 5 && "vaapi"@[0] == 'v');
    assert("nvenc"@.len() == 5 && "nvenc"@[0] == 'n');
    assert("x264"@.len() == 4 && "x264"@[0] == 'x');
    assert("auto"@.len() == 4 && "auto"@[0] == 'a');
}

proof fn lemma_filtered<H: Encoder>(tiles: Seq<Tile<H>>)
    ensures
        tiles.filter(|t: Tile<H>| t.dirty).len() <= tiles.len(),
        tiles.filter(|t: Tile<H>| t.dirty).len() == 0 <==> forall|k: int|
            0 <= k < tiles.len() ==> !(#[trigger] tiles[k]).dirty,
        tiles.filter(|t: Tile<H>| t.dirty).len() == tiles.len() <==> forall|k: int|
            0 <= k < tiles.len() ==> (#[trigger] tiles[k]).dirty,
    decreases tiles.len(),
{
    reveal(Seq::filter);
    if tiles.len() > 0 {
        let front = tiles.drop_last();
        lemma_filtered(front);
        assert(forall|k: int| 0 <= k < front.len() ==> #[trigger] front[k] == tiles[k]);
        let last = tiles.len() - 1;
        assert(tiles[last] == tiles.last());
        if forall|k: int| 0 <= k < tiles.len() ==> !(#[trigger] tiles[k]).dirty {
            assert(!tiles[last].dirty);
        }
        if forall|k: int| 0 <= k < tiles.len() ==> (#[trigger] tiles[k]).dirty {
            assert(tiles[last].dirty);
            assert forall|k: int| 0 <= k < front.len() implies (#[trigger] front[k]).dirty by {
                assert(tiles[k].dirty);
            }
        }
        if forall|k: int| 0 <= k < front.len() ==> !(#[trigger] front[k]).dirty {
            if !tiles[last].dirty {
                assert forall|k: int| 0 <= k < tiles.len() implies !(#[trigger] tiles[k]).dirty by {
                    if k < last {
                        assert(!front[k].dirty);
                    }
                }
            }
        } else {
            let k = choose|k: int| 0 <= k < front.len() && (#[trigger] front[k]).dirty;
            assert(tiles[k].dirty);
        }
        if forall|k: int| 0 <= k < front.len() ==> (#[trigger] front[k]).dirty {
            if tiles[last].dirty {
                assert forall|k: int| 0 <= k < tiles.len() implies (#[trigger] tiles[k]).dirty by {
                    if k < last {
                        assert(front[k].dirty);
                    }
                }
            }
        } else {
            let k = choose|k: int| 0 <= k < front.len() && !(#[trigger] front[k]).dirty;
            assert(!tiles[k].dirty);
        }
    }
}

/// The tiles that have changed are counted: none where no tile has, and all where each has.
pub proof fn lemma_changed_tiles_are_counted<H: Encoder>(grid: &TileGrid<H>, changed: usize, all: usize)
    requires
        call_ensures(TileGrid::<H>::dirty_count, (grid,), changed),
        call_ensures(TileGrid::<H>::tile_count, (grid,), all),
    ensures
        all == grid.tiles().len(),
        changed <= all,
        changed == 0 <==> forall|k: int|
            0 <= k < grid.tiles().len() ==> !(#[trigger] grid.tiles()[k]).dirty,
        changed == all <==> forall|k: int|
            0 <= k < grid.tiles().len() ==> (#[trigger] grid.tiles()[k]).dirty,
{
    lemma_filtered(grid.tiles());
}

proof fn lemma_differ(
    before: Model,
    after: Model,
    connectors: Seq<Connector>,
    crtcs: Seq<u32>,
    outputs: Seq<DrmOutput>,
)
    requires
        connectors_done(before, after, connectors, crtcs, outputs),
        forall|i: int| 0 <= i < connectors.len() ==> (#[trigger] connectors[i]).current_crtc is None,
    ensures
        outputs.len() <= connectors.len(),
        forall|i: int, j: int|
            0 <= i < j < outputs.len() ==> (#[trigger] outputs[i]).crtc != (#[trigger] outputs[j]).crtc,
        forall|i: int| 0 <= i < outputs.len() ==> crtcs.contains((#[trigger] outputs[i]).crtc),
    decreases connectors.len(),
{
    if connectors.len() > 0 {
        let (between, fewer) = choose|between: Model, fewer: Seq<DrmOutput>|
            {
                &&& #[trigger] connector_done(between, after, connectors.last(), crtcs, fewer, outputs)
                &&& connectors_done(before, between, connectors.drop_last(), crtcs, fewer)
            };
        let front = connectors.drop_last();
        assert(forall|i: int| 0 <= i < front.len() ==> #[trigger] front[i] == connectors[i]);
        lemma_differ(before, between, front, crtcs, fewer);
        assert(connectors[connectors.len() - 1].current_crtc is None);
        if outputs != fewer {
            let n = fewer.len() as int;
            let used = crtcs_of(fewer);
            let o = outputs.last();
            assert forall|i: int| 0 <= i < n implies #[trigger] outputs[i] == fewer[i] by {
                assert(outputs.drop_last()[i] == outputs[i]);
            }
            let k = choose|k: int| #[trigger] first_free(crtcs, used, k) && o.crtc == crtcs[k];
            assert(!used.contains(crtcs[k]));
            assert forall|i: int, j: int| 0 <= i < j < outputs.len() implies (
            #[trigger] outputs[i]).crtc != (#[trigger] outputs[j]).crtc by {
                if j == n {
                    assert(used[i] == fewer[i].crtc);
                    assert(used.contains(fewer[i].crtc));
                } else {
                    assert(fewer[i].crtc != fewer[j].crtc);
                }
            }
            assert forall|i: int| 0 <= i < outputs.len() implies crtcs.contains(
                (#[trigger] outputs[i]).crtc,
            ) by {
                if i < n {
                    assert(crtcs.contains(fewer[i].crtc));
                }
            }
        }
    }
}

/// Connectors that nothing drives yet get controllers of the device, no two the same one.
pub proof fn lemma_controllers_differ(
    s: &mut DinatorState,
    connectors: &[Connector],
    crtcs: &[u32],
    r: Vec<DrmOutput>,
    i: int,
    j: int,
)
    requires
        old(s).wf(),
        forall|k: int| 0 <= k < connectors@.len() ==> (#[trigger] connectors@[k]).current_crtc is None,
        call_ensures(DinatorState::add_connectors, (s, connectors, crtcs), r),
        0 <= i < j < r@.len(),
    ensures
        r@.len() <= connectors@.len(),
        r@[i].crtc != r@[j].crtc,
        crtcs@.contains(r@[i].crtc) && crtcs@.contains(r@[j].crtc),
{
    lemma_differ(old(s)@, final(s)@, connectors@, crtcs@, r@);
}

/// All keys that were held are released, each once, and none is held then.
pub proof fn lemma_held_keys_are_released(
    keys: &mut PressedKeys,
    again: &mut PressedKeys,
    released: Vec<u32>,
    more: Vec<u32>,
    k: int,
)
    requires
        call_ensures(PressedKeys::release_all, (keys,), released),
        *old(again) == *final(keys),
        call_ensures(PressedKeys::release_all, (again,), more),
    ensures
        released@ == old(keys)@,
        more@.len() == 0,
{
}

/// The socket lies in the directory for such files, where there is one.
pub proof fn lemma_socket_has_its_place(dir: &str, r: String, joined: String, without: String)
    requires
        call_ensures(socket_path, (Some(dir),), r),
        call_ensures(join_path, (dir, "desktopinator.sock"), joined),
        call_ensures(socket_path, (None,), without),
    ensures
        r@ == joined@,
        without@ == "/tmp/desktopinator.sock"@,
{
    reveal_strlit("/tmp");
    reveal_strlit("desktopinator.sock");
    reveal_strlit("/tmp/desktopinator.sock");
    assert("/tmp"@.last() == 'p');
    assert(without@ =~= "/tmp/desktopinator.sock"@);
}

/// A primary monitor comes before the others; otherwise a monitor comes before those to its right, and
/// one above another before it. Each monitor comes once.
pub proof fn lemma_monitors_are_ordered(monitors: &[MonitorEntry], order: Vec<usize>, a: int, b: int, i: int)
    requires
        call_ensures(monitor_order, (monitors,), order),
        0 <= a < b < order@.len(),
        0 <= i < monitors@.len(),
    ensures
        order@.len() == monitors@.len(),
        order@[a] < monitors@.len() && order@[b] < monitors@.len(),
        order@[a] != order@[b],
        exists|k: int| 0 <= k < order@.len() && #[trigger] order@[k] == i,
        ({
            let m = monitors@[order@[a] as int];
            let n = monitors@[order@[b] as int];
            &&& n.is_primary ==> m.is_primary
            &&& m.is_primary == n.is_primary ==> m.left <= n.left
            &&& m.is_primary == n.is_primary && m.left == n.left ==> m.top <= n.top
            &&& m.is_primary == n.is_primary && m.left == n.left && m.top == n.top ==> order@[a] < order@[b]
        }),
{
    lemma_every_monitor_counts(monitors@, order@, i);
    assert(ordered(monitors@, order@[a] as int, order@[b] as int));
}

/// A client is offered sixteen monitors, each of at most 3840 by 2400 pixels, in a message of twenty bytes.
pub proof fn lemma_monitors_are_offered(channel: &mut DisplayControlDvc, message: Vec<u8>)
    requires
        call_ensures(DisplayControlDvc::start, (channel,), message),
    ensures
        message@.len() == 20,
        message@[0] == 5 && message@[1] == 0 && message@[2] == 0 && message@[3] == 0,
        message@[4] == 20 && message@[5] == 0,
        message@[8] == 16 && message@[9] == 0,
        message@[12] + 256 * message@[13] == 3840 && message@[14] == 0,
        message@[16] + 256 * message@[17] == 2400 && message@[18] == 0,
        *final(channel) == *old(channel),
{
}

/// What an encoder wrote is the frame, and it is a keyframe where it holds one. Where nothing was written
/// there is no frame.
pub proof fn lemma_bitstreams_become_frames(data: Vec<u8>, given: &[u8], found: bool, r: Option<EncodedFrame>)
    requires
        call_ensures(frame_of_bitstream, (data,), r),
        given@ == data@,
        call_ensures(has_idr_nal, (given,), found),
    ensures
        r is None <==> data@.len() == 0,
        r matches Some(f) ==> f.data@ == data@ && (f.is_keyframe <==> found),
{
}

/// An output has its own background; one that is not there has the default.
pub proof fn lemma_outputs_have_their_backgrounds(s: &DinatorState, name: &str, r: &Background, t: int)
    requires
        s.wf(),
        call_ensures(DinatorState::background_for_output, (s, name), r),
    ensures
        0 <= t < s.outputs@.len() && s.outputs@[t].name@ == name@ ==> *r == s.outputs@[t].background,
        nameless(*s, name@) ==> *r is Default,
{
    lemma_named(*s, name@, t);
}

/// A layout that is chosen takes over the gap of the one before it, and nothing else.
pub proof fn lemma_chosen_layouts_keep_the_gap(s: &mut DinatorState, layout: ActiveLayout, i: int)
    requires
        old(s).wf(),
        is_focused(*old(s), i),
        layout.wf(),
        call_ensures(DinatorState::set_focused_layout, (s, layout), ()),
    ensures
        only_layout_changed(*old(s), *final(s), i),
        layout !is Plugin ==> gap_of(final(s).outputs@[i].layout) == gap_of(old(s).outputs@[i].layout),
        layout is Column <==> final(s).outputs@[i].layout is Column,
        layout is Monocle <==> final(s).outputs@[i].layout is Monocle,
        layout is Dwindle <==> final(s).outputs@[i].layout is Dwindle,
        layout is Centered <==> final(s).outputs@[i].layout is Centered,
        layout is Stacked <==> final(s).outputs@[i].layout is Stacked,
        layout is Plugin ==> final(s).outputs@[i].layout == layout,
{
    lemma_focused(*old(s), i);
    lemma_view_parts(*old(s), *final(s));
}

/// A graphics channel that opens starts anew with its number, and one that closes has none; the outputs
/// stay.
pub proof fn lemma_channels_open_and_close(
    opening: &mut GfxHandler,
    id: u32,
    messages: Vec<Vec<u8>>,
    closing: &mut GfxHandler,
)
    requires
        call_ensures(GfxHandler::start, (opening, id), messages),
        call_ensures(GfxHandler::close, (closing,), ()),
    ensures
        final(opening).state.channel_id == Some(id) && !final(opening).state.ready,
        final(opening).state.next_frame_id == 0 && final(opening).state.last_acked_frame_id is None,
        final(opening).state.pending_response is None && !final(opening).state.avc_supported,
        final(opening).state.outputs == old(opening).state.outputs,
        final(opening).state.width == old(opening).state.width,
        final(opening).state.height == old(opening).state.height,
        final(closing).state.channel_id is None && !final(closing).state.ready,
        final(closing).state.next_frame_id == old(closing).state.next_frame_id,
        final(closing).state.outputs == old(closing).state.outputs,
{
}

/// Actions of plugins are done in order, the last one last; where there are none nothing is done.
pub proof fn lemma_actions_are_done_in_order(
    s: &mut DinatorState,
    actions: Vec<PluginAction>,
    effects: Vec<Effect>,
    cmd: String,
    args: Vec<String>,
)
    requires
        old(s).wf(),
        call_ensures(DinatorState::execute_plugin_actions, (s, actions), effects),
    ensures
        actions@.len() == 0 ==> unchanged(*old(s), *final(s)) && effects@.len() == 0,
        actions@.len() > 0 && actions@.last() == (PluginAction::Spawn { cmd, args }) ==> effects@.len() > 0
            && effects@.last() == (Effect::Spawn { cmd, args }),
{
    lemma_view_parts(*old(s), *final(s));
    if actions@.len() > 0 {
        let (between, last) = choose|between: Model, last: Seq<Effect>|
            {
                &&& #[trigger] action_done(between, final(s)@, actions@.last(), last)
                &&& last.is_suffix_of(effects@)
            };
        if actions@.last() == (PluginAction::Spawn { cmd, args }) {
            assert(last == seq![Effect::Spawn { cmd, args }]);
            assert(effects@.subrange(effects@.len() - 1, effects@.len() as int)[0] == last[0]);
        }
    }
}

/// A ratio is so many hundredths, as near as it can be kept.
pub open spec fn is_hundredths(units: u64, n: int) -> bool {
    n * 144115188075855872 - 800 <= 100 * units <= n * 144115188075855872 + 800
}

/// A built-in layout is had by its name, and starts out with a gap of four pixels, none in monocle. The
/// master area starts out with 55 hundredths, with a half where it is centred.
pub proof fn lemma_layouts_start_out(name: &str, r: Option<ActiveLayout>)
    requires
        call_ensures(ActiveLayout::builtin, (name,), r),
    ensures
        r matches Some(layout) ==> goes_by(layout, name@) && layout !is Plugin,
        r is None ==> name@ != "column"@ && name@ != "monocle"@ && name@ != "dwindle"@ && name@
            != "centered"@ && name@ != "stacked"@,
        r matches Some(ActiveLayout::Column(l)) ==> l.gap == 4 && is_hundredths(l.main_ratio.units, 55),
        r matches Some(ActiveLayout::Dwindle(l)) ==> l.gap == 4 && is_hundredths(l.main_ratio.units, 55),
        r matches Some(ActiveLayout::Centered(l)) ==> l.gap == 4 && is_hundredths(l.main_ratio.units, 50),
        r matches Some(ActiveLayout::Stacked(l)) ==> l.gap == 4 && l.tab_height == 24,
        r matches Some(ActiveLayout::Monocle(l)) ==> l.gap == 0,
{
}

/// A layout tells its name, its gap, and whether its windows cover each other.
pub proof fn lemma_layouts_tell_of_themselves(layout: &ActiveLayout, name: &str, gap: i32, covering: bool)
    requires
        *layout !is Plugin,
        call_ensures(ActiveLayout::name, (layout,), name),
        call_ensures(ActiveLayout::gap, (layout,), gap),
        call_ensures(ActiveLayout::is_overlapping, (layout,), covering),
    ensures
        goes_by(*layout, name@),
        gap == gap_of(*layout),
        covering <==> *layout is Monocle || *layout is Stacked,
{
    lemma_covers(*layout);
}

} // verus!
