//! What the library makes of the machine that it runs on: monitors, sound, the command line, files and
//! encoders.

use crate::audio::{
    chunk_size, concatenated, negotiate, none_agreed, offered, supported_formats, Chunker,
    SoundFormat,
};
use crate::cli::{option_at, parse_args, Options};
use crate::compositor::event::{plugin_event, IpcEvent, PluginEvent};
use crate::compositor::moving::{lemma_view_parts, unchanged};
use crate::compositor::neighbours::nameless;
use crate::compositor::state::{
    has_output, index_of, is_fresh_output, named, DinatorState, OutputState,
};
use crate::config::{config_path, config_paths, join_path, plugin_dir, Config};
use crate::drm::{crtcs_of, first_free, Connector, DrmOutput};
use crate::encode::ffmpeg::{
    copy_rows, encoded_size, i420_planes, FfmpegEncoderPreference, FrameClock, H264Codec,
    PlaneSource,
};
use crate::encode::planes::lemma_row_col;
use crate::ipc::handle::{new_geometry, right_edge};
use crate::ipc::laws::{lemma_resolution, lemma_right_edge};
use crate::text::{decimal, lemma_decimal_reads_back};
use vstd::prelude::*;

verus! {

/// The outputs drive a controller.
pub open spec fn drive(outputs: Seq<DrmOutput>, crtc: u32) -> bool {
    exists|k: int| 0 <= k < outputs.len() && (#[trigger] outputs[k]).crtc == crtc
}

/// A connector that has a monitor, a mode and a controller gets an output: named by its plug and number,
/// in the first mode that the monitor prefers, else its first, driven by its own controller, else by the
/// first that is free, and to the right of all other outputs.
pub proof fn lemma_monitors_get_outputs(
    s: &mut DinatorState,
    c: &Connector,
    crtcs: &[u32],
    outputs: &mut Vec<DrmOutput>,
    free: int,
    mode: int,
)
    requires
        old(s).wf(),
        old(s).outputs@.len() > 0,
        0 <= right_edge(old(s).outputs@),
        right_edge(old(s).outputs@) + u16::MAX <= i32::MAX,
        nameless(*old(s), c.interface@ + "-"@ + decimal(c.interface_id as nat)),
        call_ensures(DinatorState::add_connector, (s, c, crtcs, outputs), ()),
        0 <= mode < c.modes@.len(),
        forall|j: int| 0 <= j < mode ==> !(#[trigger] c.modes@[j]).preferred,
        c.modes@[mode].preferred || (mode == 0 && forall|j: int|
            0 <= j < c.modes@.len() ==> !(#[trigger] c.modes@[j]).preferred),
        c.connected,
        c.current_crtc is Some || (c.has_encoder && 0 <= free < crtcs@.len() && !drive(
            old(outputs)@,
            crtcs@[free],
        ) && forall|j: int| 0 <= j < free ==> drive(old(outputs)@, #[trigger] crtcs@[j])),
    ensures
        ({
            let n = old(outputs)@.len() as int;
            let o = final(outputs)@[n];
            let k = old(s).outputs@.len() as int;
            let g = final(s).outputs@[k].geometry;
            &&& final(outputs)@.len() == n + 1
            &&& forall|j: int| 0 <= j < n ==> #[trigger] final(outputs)@[j] == old(outputs)@[j]
            &&& o.name@ == c.interface@ + "-"@ + decimal(c.interface_id as nat)
            &&& o.mode == c.modes@[mode]
            &&& o.refresh == 1000 * c.modes@[mode].vrefresh
            &&& o.crtc == (match c.current_crtc {
                Some(own) => own,
                None => crtcs@[free],
            })
            &&& final(s).outputs@.len() == k + 1
            &&& forall|j: int| 0 <= j < k ==> #[trigger] final(s).outputs@[j] == old(s).outputs@[j]
            &&& final(s).outputs@[k].name@ == o.name@
            &&& g.width == c.modes@[mode].width && g.height == c.modes@[mode].height && g.y == 0
            &&& forall|j: int|
                0 <= j < k ==> (#[trigger] old(s).outputs@[j]).geometry.x + old(
                    s,
                ).outputs@[j].geometry.width <= g.x
        }),
{
    let a = *old(s);
    let b = *final(s);
    lemma_view_parts(a, b);
    lemma_right_edge(a.outputs@);
    let used = crtcs_of(old(outputs)@);
    assert forall|x: u32| drive(old(outputs)@, x) == #[trigger] used.contains(x) by {
        if drive(old(outputs)@, x) {
            let k = choose|k: int|
                0 <= k < old(outputs)@.len() && (#[trigger] old(outputs)@[k]).crtc == x;
            assert(used[k] == x);
        }
        if used.contains(x) {
            let k = choose|k: int| 0 <= k < used.len() && used[k] == x;
            assert(old(outputs)@[k].crtc == x);
        }
    }
    if c.current_crtc is None {
        assert(first_free(crtcs@, used, free));
        assert(!used.contains(crtcs@[free]));
    }
    let n = old(outputs)@.len() as int;
    let o = final(outputs)@.last();
    assert forall|j: int| 0 <= j < n implies #[trigger] final(outputs)@[j] == old(outputs)@[j] by {
        assert(final(outputs)@.drop_last()[j] == final(outputs)@[j]);
    }
    if c.current_crtc is None {
        let i = choose|i: int| #[trigger] first_free(crtcs@, used, i) && o.crtc == crtcs@[i];
        if i < free {
            assert(used.contains(crtcs@[i]));
        }
        if free < i {
            assert(used.contains(crtcs@[free]));
        }
    }
    assert(o.mode == c.modes@[mode]);
    if has_output(a.outputs@, o.name@) {
        let k = index_of(a.outputs@, o.name@);
        assert(named(a.outputs@, o.name@, k));
        assert(a.outputs@[k].name@ == o.name@);
    }
    let g = new_geometry(a.outputs@, o.mode.width, o.mode.height);
    let fresh = choose|fresh: OutputState|
        {
            &&& #[trigger] is_fresh_output(fresh, o.name, g)
            &&& b.outputs@ == a.outputs@.push(fresh)
        };
    assert(b.outputs@[a.outputs@.len() as int] == fresh);
}

/// A connector without a monitor, or whose monitor has no mode, changes nothing.
pub proof fn lemma_unused_connectors_are_skipped(
    s: &mut DinatorState,
    c: &Connector,
    crtcs: &[u32],
    outputs: &mut Vec<DrmOutput>,
)
    requires
        old(s).wf(),
        !c.connected || c.modes@.len() == 0,
        call_ensures(DinatorState::add_connector, (s, c, crtcs, outputs), ()),
    ensures
        unchanged(*old(s), *final(s)),
        final(outputs)@ == old(outputs)@,
{
    lemma_view_parts(*old(s), *final(s));
}

/// The formats of sound on offer are plain samples of sixteen bits in stereo, and their numbers belong
/// together. The client's first format that is on offer is played.
pub proof fn lemma_sound_formats_agree(
    client: &[SoundFormat],
    ours: Vec<SoundFormat>,
    r: Option<u16>,
    k: int,
    i: int,
)
    requires
        call_ensures(supported_formats, (), ours),
        call_ensures(negotiate, (client,), r),
    ensures
        ours@.len() == 3,
        ours@[0].samples_per_second == 44100 && ours@[1].samples_per_second == 48000
            && ours@[2].samples_per_second == 22050,
        forall|j: int|
            0 <= j < ours@.len() ==> {
                &&& (#[trigger] ours@[j]).tag == 1 && ours@[j].channels == 2
                &&& ours@[j].bits_per_sample == 16
                &&& 8 * ours@[j].block_align == ours@[j].channels * ours@[j].bits_per_sample
                &&& ours@[j].bytes_per_second == ours@[j].samples_per_second * ours@[j].block_align
            },
        r matches Some(n) ==> n < ours@.len(),
        0 <= k < client@.len() && 0 <= i < ours@.len() && client@[k] == ours@[i] && (forall|j: int|
            0 <= j < k ==> (#[trigger] client@[j]).tag != 1) ==> r is Some && r->0 == i,
        (forall|j: int| 0 <= j < client@.len() ==> (#[trigger] client@[j]).tag != 1) ==> r is None,
{
    let all = offered();
    assert(all.len() == 3);
    assert(all[0].samples_per_second == 44100 && all[1].samples_per_second == 48000
        && all[2].samples_per_second == 22050);
    assert forall|j: int| 0 <= j < all.len() implies {
        &&& (#[trigger] all[j]).tag == 1 && all[j].channels == 2 && all[j].bits_per_sample == 16
        &&& 8 * all[j].block_align == all[j].channels * all[j].bits_per_sample
        &&& all[j].bytes_per_second == all[j].samples_per_second * all[j].block_align
    } by {
        assert(j == 0 || j == 1 || j == 2);
    }
    assert(forall|x: int, y: int| 0 <= x < 3 && 0 <= y < 3 && (#[trigger] all[x]).samples_per_second == (
    #[trigger] all[y]).samples_per_second ==> x == y);
    if r is None {
        assert(none_agreed(client@, all));
        if 0 <= k < client@.len() && 0 <= i < all.len() && client@[k] == all[i] {
            assert(crate::audio::matches_none(client@[k], all));
            assert(!crate::audio::same_samples(client@[k], all[i]));
        }
    } else {
        let n = r->0 as int;
        let m = choose|m: int| crate::audio::agreed(client@, all, m, n);
        assert(crate::audio::agreed(client@, all, m, n));
        assert(all[n].tag == 1);
        if 0 <= k < client@.len() && 0 <= i < all.len() && client@[k] == all[i] && (forall|j: int|
            0 <= j < k ==> (#[trigger] client@[j]).tag != 1) {
            if m < k {
                assert(client@[m].tag == 1);
            }
            if k < m {
                assert(crate::audio::matches_none(client@[k], all));
                assert(!crate::audio::same_samples(client@[k], all[i]));
            }
            assert(all[i].samples_per_second == all[n].samples_per_second);
        }
    }
}

proof fn lemma_pieces(chunks: Seq<Vec<u8>>, size: int)
    requires
        forall|i: int| 0 <= i < chunks.len() ==> (#[trigger] chunks[i])@.len() == size,
    ensures
        concatenated(chunks).len() == size * chunks.len(),
    decreases chunks.len(),
{
    if chunks.len() > 0 {
        let front = chunks.drop_last();
        assert(forall|i: int| 0 <= i < front.len() ==> #[trigger] front[i] == chunks[i]);
        lemma_pieces(front, size);
        let n = chunks.len() as int;
        assert(chunks[n - 1]@.len() == size);
        assert(size * (n - 1) + size == size * n) by (nonlinear_arith);
    } else {
        assert(size * 0 == 0);
    }
}

/// Sound goes out in pieces of a fiftieth of a second, in the order in which it came, and all that is
/// complete goes out at once.
pub proof fn lemma_sound_goes_out_in_pieces(
    rate: u32,
    channels: u16,
    fresh: Chunker,
    c: &mut Chunker,
    buffer: &[u8],
    offset: usize,
    size: usize,
    chunks: Vec<Vec<u8>>,
)
    requires
        0 < chunk_size(rate, channels) <= u32::MAX,
        call_ensures(Chunker::new, (rate, channels), fresh),
        old(c).wf(),
        offset + size <= buffer@.len(),
        call_ensures(Chunker::push, (c, buffer, offset, size), chunks),
    ensures
        rate % 50 == 0 ==> 50 * fresh.chunk_bytes == rate * (2 * channels),
        fresh.pending@.len() == 0,
        concatenated(chunks@) + final(c).pending@ == old(c).pending@ + buffer@.subrange(
            offset as int,
            offset + size,
        ),
        forall|i: int| 0 <= i < chunks@.len() ==> (#[trigger] chunks@[i])@.len() == old(c).chunk_bytes,
        final(c).pending@.len() < old(c).chunk_bytes,
        chunks@.len() == (old(c).pending@.len() + size) / old(c).chunk_bytes as int,
{
    if rate % 50 == 0 {
        assert(rate == 50 * (rate / 50));
        assert(50 * ((rate / 50) * (channels * 2)) == (50 * (rate / 50)) * (2 * channels))
            by (nonlinear_arith);
    }
    if size == 0 {
        assert(buffer@.subrange(offset as int, offset + size) =~= Seq::<u8>::empty());
    }
    let b = old(c).chunk_bytes as int;
    lemma_pieces(chunks@, b);
    let n = chunks@.len() as int;
    let rest = final(c).pending@.len() as int;
    assert((concatenated(chunks@) + final(c).pending@).len() == b * n + rest);
    vstd::arithmetic::div_mod::lemma_fundamental_div_mod_converse(b * n + rest, b, n, rest);
}

/// The word stands in the command line at this place for the first time.
pub open spec fn stands_first(args: Seq<String>, word: Seq<char>, i: int) -> bool {
    &&& 0 <= i < args.len() - 1
    &&& args[i]@ == word
    &&& forall|j: int| 0 <= j < i ==> (#[trigger] args[j])@ != word
}

/// The word does not stand in the command line.
pub open spec fn is_absent(args: Seq<String>, word: Seq<char>) -> bool {
    forall|j: int| 0 <= j < args.len() ==> (#[trigger] args[j])@ != word
}

proof fn lemma_value(args: Seq<String>, word: Seq<char>, i: int)
    ensures
        stands_first(args, word, i) ==> crate::cli::option_value(args, word) == Some(args[i + 1]@),
        is_absent(args, word) ==> crate::cli::option_value(args, word) is None,
{
    if stands_first(args, word, i) {
        assert(option_at(args, word, i));
        let k = choose|k: int| option_at(args, word, k);
        assert(option_at(args, word, k));
        if k < i {
            assert(args[k]@ != word);
        }
        if i < k {
            assert(args[i]@ != word);
        }
    }
    if is_absent(args, word) {
        assert forall|k: int| !option_at(args, word, k) by {
            if 0 <= k < args.len() {
                assert(args[k]@ != word);
            }
        }
    }
}

/// A number behind its word on the command line counts; without the word, the ports of the configuration
/// count, and sixty frames a second.
pub proof fn lemma_options_are_read(
    args: &[String],
    config: &Config,
    r: Options,
    i: int,
    port: u16,
    fps: u32,
    width: u16,
    height: u16,
)
    requires
        call_ensures(parse_args, (args, config), r),
    ensures
        stands_first(args@, "--vnc-port"@, i) && args@[i + 1]@ == decimal(port as nat) ==> r.vnc_port
            == port,
        stands_first(args@, "--rdp-port"@, i) && args@[i + 1]@ == decimal(port as nat) ==> r.rdp_port
            == port,
        stands_first(args@, "--fps"@, i) && args@[i + 1]@ == decimal(fps as nat) ==> r.fps == fps,
        stands_first(args@, "--resolution"@, i) && args@[i + 1]@ == decimal(width as nat) + seq!['x']
            + decimal(height as nat) ==> r.width == width && r.height == height,
        stands_first(args@, "--encoder"@, i) ==> r.encoder@ == args@[i + 1]@,
        is_absent(args@, "--vnc-port"@) ==> r.vnc_port == config.vnc.port,
        is_absent(args@, "--rdp-port"@) ==> r.rdp_port == config.rdp.port,
        is_absent(args@, "--fps"@) ==> r.fps == 60,
        is_absent(args@, "--resolution"@) ==> r.width == 1920 && r.height == 1080,
        is_absent(args@, "--encoder"@) ==> r.encoder@ == "auto"@,
        r.one_shot <==> !is_absent(args@, "--one-shot"@),
        r.backend is Drm <==> !is_absent(args@, "--drm"@),
        r.backend is Headless <==> is_absent(args@, "--drm"@) && !is_absent(args@, "--headless"@),
{
    lemma_value(args@, "--vnc-port"@, i);
    lemma_value(args@, "--rdp-port"@, i);
    lemma_value(args@, "--fps"@, i);
    lemma_value(args@, "--resolution"@, i);
    lemma_value(args@, "--encoder"@, i);
    lemma_decimal_reads_back(port as nat, u16::MAX as nat);
    lemma_decimal_reads_back(fps as nat, u32::MAX as nat);
    lemma_resolution(width, height);
    assert(crate::cli::has_word(args@, "--one-shot"@) == !is_absent(args@, "--one-shot"@));
    assert(crate::cli::has_word(args@, "--drm"@) == !is_absent(args@, "--drm"@));
    assert(crate::cli::has_word(args@, "--headless"@) == !is_absent(args@, "--headless"@));
}

/// A path below a directory starts with the directory and ends with the path, with one slash between
/// where the directory has none at its end.
pub proof fn lemma_paths_are_joined(base: &str, rest: &str, r: String)
    requires
        call_ensures(join_path, (base, rest), r),
    ensures
        base@.len() > 0 && base@.last() != '/' ==> r@ == base@ + seq!['/'] + rest@,
        base@.len() > 0 && base@.last() == '/' ==> r@ == base@ + rest@,
        base@.len() == 0 ==> r@ == rest@,
{
    if base@.len() == 0 {
        assert(base@ + rest@ =~= rest@);
    }
    assert(base@.push('/') =~= base@ + seq!['/']);
}

/// The configuration is looked for below the configuration directory, then below the home directory, and
/// the first place is the one that is told. Plugins lie beside it.
pub proof fn lemma_files_have_their_places(
    xdg: Option<&str>,
    home: Option<&str>,
    path: String,
    paths: Vec<String>,
    plugins: String,
    named: String,
    beside: String,
    hidden: String,
)
    requires
        call_ensures(config_path, (xdg, home), path),
        call_ensures(config_paths, (xdg, home), paths),
        call_ensures(plugin_dir, (xdg, home), plugins),
        xdg matches Some(dir) ==> call_ensures(join_path, (dir, "desktopinator/config.toml"), named),
        xdg matches Some(dir) ==> call_ensures(join_path, (dir, "desktopinator/plugins"), beside),
        home matches Some(dir) ==> call_ensures(
            join_path,
            (dir, ".config/desktopinator/config.toml"),
            hidden,
        ),
    ensures
        paths@.len() > 0,
        paths@[0]@ == path@,
        xdg is Some ==> path@ == named@ && plugins@ == beside@,
        xdg is None && home is Some ==> path@ == hidden@,
        xdg is Some && home is Some ==> paths@.len() == 2 && paths@[1]@ == hidden@,
        xdg is None && home is None ==> path@ == "/etc/desktopinator/config.toml"@,
{
    let views = paths@.map_values(|s: String| s@);
    assert(views.len() == paths@.len());
    assert(views[0] == paths@[0]@);
    if paths@.len() > 1 {
        assert(views[1] == paths@[1]@);
    }
}

/// A preferred encoder is the only one that is tried; without a preference the hardware comes first and
/// libx264 last.
pub proof fn lemma_encoders_are_tried(p: FfmpegEncoderPreference, list: Vec<H264Codec>)
    requires
        call_ensures(FfmpegEncoderPreference::encoders, (&p,), list),
    ensures
        list@.len() > 0,
        list@.no_duplicates(),
        p is Auto <==> list@.contains(H264Codec::Vaapi) && list@.contains(H264Codec::Libx264),
        p is Auto ==> list@.len() == 3 && list@[0] is Vaapi && list@[2] is Libx264,
        p is Vaapi ==> list@ == seq![H264Codec::Vaapi],
        p is Nvenc ==> list@ == seq![H264Codec::Nvenc],
        p is Software ==> list@ == seq![H264Codec::Libx264],
{
    if p is Auto {
        assert(list@[0] is Vaapi && list@[2] is Libx264);
        assert(list@[0] == H264Codec::Vaapi && list@[2] == H264Codec::Libx264);
    }
}

/// The size of an encoded picture is even, and at most one more than that of the picture. Of a picture in
/// three planes, the colours follow the brightness, one after the other, at half the width and height.
pub proof fn lemma_planes_follow_each_other(
    x: u32,
    even: u32,
    width: u32,
    height: u32,
    r: (PlaneSource, PlaneSource, PlaneSource),
)
    requires
        x < u32::MAX,
        call_ensures(encoded_size, (x,), even),
        width * height * 3 <= u32::MAX,
        width % 2 == 0,
        height % 2 == 0,
        call_ensures(i420_planes, (width, height, height), r),
    ensures
        even % 2 == 0 && x <= even <= x + 1,
        r.0.from == 0 && r.0.row_len == width && r.0.rows == height,
        r.1.from == r.0.from + r.0.row_len * r.0.rows,
        2 * r.1.row_len == width && 2 * r.1.rows == height,
        r.2.from == r.1.from + r.1.row_len * r.1.rows,
        r.2.row_len == r.1.row_len && r.2.rows == r.1.rows,
        2 * (r.2.from + r.2.row_len * r.2.rows) == 3 * (width * height),
{
    let w = width as int;
    let h = height as int;
    assert(0 <= w * h) by (nonlinear_arith)
        requires
            0 <= w,
            0 <= h,
    ;
    assert(4 * ((w / 2) * (h / 2)) == (2 * (w / 2)) * (2 * (h / 2))) by (nonlinear_arith);
    assert(2 * (w / 2) == w && 2 * (h / 2) == h);
}

/// Rows are copied one by one to where they start in the destination; between them nothing changes.
pub proof fn lemma_rows_are_copied(
    src: &[u8],
    from: usize,
    row_len: usize,
    rows: usize,
    dst: &mut [u8],
    stride: usize,
    row: int,
    col: int,
)
    requires
        from + rows * row_len + row_len <= usize::MAX,
        0 < row_len <= stride,
        from + rows * row_len <= src@.len(),
        0 <= row < rows,
        0 <= col < stride,
        row * stride + col < old(dst)@.len(),
        call_ensures(copy_rows, (src, from, row_len, rows, dst, stride), ()),
    ensures
        final(dst)@.len() == old(dst)@.len(),
        col < row_len ==> final(dst)@[row * stride + col] == src@[from + row * row_len + col],
        col >= row_len ==> final(dst)@[row * stride + col] == old(dst)@[row * stride + col],
{
    lemma_row_col(row * stride + col, row, col, stride as int);
    assert(0 <= row * stride) by (nonlinear_arith)
        requires
            0 <= row,
            0 < stride,
    ;
    assert(row * row_len + row_len <= rows * row_len) by (nonlinear_arith)
        requires
            0 <= row < rows,
            0 < row_len,
    ;
    assert(final(dst)@[row * stride + col] == final(dst)@[row * stride + col]);
}

/// Frames are counted from the first on, also after a change of size, which starts with a keyframe; a
/// keyframe that is asked for comes with the next frame and with no other.
pub proof fn lemma_keyframes_come_once(
    asked: &mut FrameClock,
    next: &mut FrameClock,
    after: &mut FrameClock,
    first: (i64, bool),
    second: (i64, bool),
)
    requires
        old(asked).frame_index < i64::MAX - 1,
        call_ensures(FrameClock::force_keyframe, (asked,), ()),
        *old(next) == *final(asked),
        call_ensures(FrameClock::stamp, (next,), first),
        *old(after) == *final(next),
        call_ensures(FrameClock::stamp, (after,), second),
    ensures
        first.1,
        !second.1,
        first.0 == old(asked).frame_index,
        second.0 == first.0 + 1,
{
}

/// Plugins hear of windows, layouts and workspaces what the event tells, and of nothing else.
pub proof fn lemma_plugins_hear_events(event: &IpcEvent, r: Option<PluginEvent>)
    requires
        call_ensures(plugin_event, (event,), r),
    ensures
        match *event {
            IpcEvent::WindowOpened { id, app_id, title } => r matches Some(
                PluginEvent::WindowOpened { id: i, app_id: a, title: t },
            ) && i == id && a == app_id && t == title,
            IpcEvent::WindowClosed { id } => r matches Some(PluginEvent::WindowClosed { id: i }) && i
                == id,
            IpcEvent::WindowFocused { id } => r matches Some(PluginEvent::WindowFocused { id: i }) && i
                == id,
            IpcEvent::LayoutChanged { name } => r matches Some(PluginEvent::LayoutChanged { name: n })
                && n == name,
            IpcEvent::WorkspaceChanged { workspace } => r matches Some(
                PluginEvent::WorkspaceChanged { workspace: w },
            ) && w == workspace,
            IpcEvent::WindowMovedWorkspace { id, workspace } => r matches Some(
                PluginEvent::WindowMovedWorkspace { id: i, workspace: w },
            ) && i == id && w == workspace,
            _ => r is None,
        },
{
}

} // verus!
