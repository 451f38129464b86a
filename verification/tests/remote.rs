use desktopinator::adaptive::{TileFrame, TileGrid};
use desktopinator::compositor::event::{Effect, IpcEvent, Protocol};
use desktopinator::compositor::state::DinatorState;
use desktopinator::displaycontrol::{DisplayControlState, MonitorEntry};
use desktopinator::encode::ffmpeg::FfmpegEncoderPreference;
use desktopinator::encode::software::OpenH264Encoder;
use desktopinator::encode::{EncodeError, EncodedFrame};
use desktopinator::gfx::channel::{
    build_layout_reset_pdus, encode_gfx_avc420_tiles, GfxPendingResponse, GfxSharedState,
};
use desktopinator::input::codes::{
    next_resolution, parse_modifiers, rdp_scancode_to_xkb, xkeysym_to_xkb_keycode,
};
use desktopinator::input::remote::{
    button_changes, keyboard, mouse, ButtonChange, PressedKeys, RdpInputEvent, RdpKeyboard,
    RdpMouse,
};
use desktopinator::session::canvas::{composite_size, swap_red_blue, Canvas, DirtyOutput};
use desktopinator::session::events::{InputStep, RdpInput, VncInput, VncInputEvent};
use desktopinator::session::frames::{
    compose, pass_frame, pass_tiles, stream_output, stream_tiles, sync_layout, take_response,
};
use desktopinator::session::gate::{frame_interval_micros, Decision, FrameGate};
use desktopinator::session::pointer::{cursor_pixels, CursorStatus, PointerFeed, PointerUpdate};
use desktopinator::session::surfaces::{
    gfx_outputs, missing_from, primary_size, surface_id_for_output,
};
use desktopinator::tiling::Rect;

fn state() -> DinatorState {
    let mut state = DinatorState::new();
    state.register_output("a".to_string(), Rect { x: 0, y: 0, width: 4, height: 2 });
    state.register_output("b".to_string(), Rect { x: 4, y: 0, width: 2, height: 3 });
    state
}

#[test]
fn keysyms_and_scancodes_have_keycodes() {
    assert_eq!(xkeysym_to_xkb_keycode(0x61), Some(38));
    assert_eq!(xkeysym_to_xkb_keycode(0x41), Some(38));
    assert_eq!(xkeysym_to_xkb_keycode(0xff0d), Some(36));
    assert_eq!(xkeysym_to_xkb_keycode(0x1234_5678), None);
    assert_eq!(rdp_scancode_to_xkb(0x1e, false), Some(38));
    assert_eq!(rdp_scancode_to_xkb(0x1d, true), Some(105));
}

#[test]
fn modifiers_have_names() {
    let names = |list: &[&str]| list.iter().map(|s| s.to_string()).collect::<Vec<String>>();
    let m = parse_modifiers(&names(&["Mod1", "CONTROL"]));
    assert!(m.alt && m.ctrl && !m.shift && !m.logo);
    let m = parse_modifiers(&names(&["shift", "super", "nonsense"]));
    assert!(!m.alt && !m.ctrl && m.shift && m.logo);
}

#[test]
fn resolutions_have_neighbours() {
    assert_eq!(next_resolution(1920, 1080, 1), (2560, 1440));
    assert_eq!(next_resolution(1920, 1080, -1), (1600, 900));
    assert_eq!(next_resolution(3840, 2160, 1), (3840, 2160));
    assert_eq!(next_resolution(640, 480, -1), (1280, 720));
}

#[test]
fn repeated_presses_do_not_count() {
    let mut keys = PressedKeys::new();
    assert!(keys.key(30, true));
    assert!(!keys.key(30, true));
    assert!(keys.key(31, true));
    assert!(keys.key(30, false));
    assert_eq!(keys.release_all(), vec![31]);
    assert!(keys.release_all().is_empty());
}

#[test]
fn button_masks_tell_what_changed() {
    assert_eq!(
        button_changes(0b001, 0b110),
        vec![
            ButtonChange { button: 0x110, pressed: false },
            ButtonChange { button: 0x112, pressed: true },
            ButtonChange { button: 0x111, pressed: true },
        ]
    );
    assert!(button_changes(0, 0b1111_1000).is_empty());
}

#[test]
fn rdp_events_are_understood() {
    assert_eq!(
        keyboard(RdpKeyboard::Pressed { code: 0x1e, extended: false }),
        Some(RdpInputEvent::Key { keycode: 38, pressed: true })
    );
    assert_eq!(keyboard(RdpKeyboard::Other), None);
    assert_eq!(
        mouse(RdpMouse::RightReleased),
        Some(RdpInputEvent::MouseButton { button: 0x111, pressed: false })
    );
    assert_eq!(
        mouse(RdpMouse::VerticalScroll { value: -120 }),
        Some(RdpInputEvent::MouseScroll { value: -120 })
    );
    assert_eq!(mouse(RdpMouse::Other), None);
}

#[test]
fn vnc_clients_leave_no_key_stuck() {
    let mut s = state();
    let mut input = VncInput::new();
    let came = input.handle(&mut s, VncInputEvent::ClientConnected);
    assert_eq!(s.vnc_clients, 1);
    assert_eq!(came.len(), 1);
    let key = VncInputEvent::Key { keysym: 0x61, pressed: true };
    assert!(matches!(
        input.handle(&mut s, key)[..],
        [InputStep::Key { keycode: 38, pressed: true }]
    ));
    assert!(input.handle(&mut s, key).is_empty());
    let moved = VncInputEvent::PointerMove { x: 3, y: 4, button_mask: 1 };
    assert!(matches!(
        input.handle(&mut s, moved)[..],
        [InputStep::PointerTo { x: 3, y: 4 }, InputStep::Button { button: 0x110, pressed: true }]
    ));
    let gone = input.handle(&mut s, VncInputEvent::ClientDisconnected);
    assert_eq!(s.vnc_clients, 0);
    match &gone[..] {
        [InputStep::Release { keycodes }, InputStep::Effects { effects }] => {
            assert_eq!(keycodes, &[38]);
            assert!(matches!(
                effects[..],
                [Effect::Emit { event: IpcEvent::ClientDisconnected { protocol: Protocol::Vnc } }]
            ));
        }
        other => panic!("{other:?}"),
    }
    let resize = VncInputEvent::ResizeOutput { width: 5, height: 6 };
    assert!(matches!(
        input.handle(&mut s, resize)[..],
        [InputStep::ResizeFocused { width: 5, height: 6 }]
    ));
}

#[test]
fn rdp_clients_leave_the_desktop_of_the_first_output() {
    let mut s = state();
    let mut input = RdpInput::new(100, 100);
    let monitor = MonitorEntry { is_primary: true, left: 0, top: 0, width: 1, height: 1 };
    let mut monitors = DisplayControlState { pending_layout: Some(vec![monitor]) };
    input.handle(&mut s, &mut monitors, RdpInputEvent::ClientConnected);
    assert_eq!(s.rdp_clients, 1);
    input.handle(&mut s, &mut monitors, RdpInputEvent::Key { keycode: 50, pressed: true });
    assert!(monitors.pending_layout.is_some());
    let gone = input.handle(&mut s, &mut monitors, RdpInputEvent::ClientDisconnected);
    assert!(matches!(&gone[0], InputStep::Release { keycodes } if keycodes == &[50]));
    assert_eq!(input.desktop, (4, 2));
    assert!(monitors.pending_layout.is_none());
    let quit = input.handle(&mut s, &mut monitors, RdpInputEvent::Quit);
    assert!(matches!(quit[..], [InputStep::Quit]));
}

#[test]
fn the_focused_output_takes_the_size_that_waits() {
    let mut s = state();
    let effects = s.resize_focused(Some((40, 20)));
    assert_eq!(s.outputs[0].geometry, Rect { x: 0, y: 0, width: 40, height: 20 });
    assert!(matches!(&effects[..], [Effect::Retile { output }] if output == "a"));
    assert!(s.resize_focused(None).is_empty());
}

fn dirty(x: usize, width: u16, height: u16, value: u8) -> DirtyOutput {
    let pixels = vec![value; width as usize * height as usize * 4];
    DirtyOutput { x, y: 0, width, height, pixels }
}

#[test]
fn outputs_are_composed_into_one_picture() {
    let s = state();
    assert_eq!(composite_size(&s.outputs), (6, 3));
    let mut canvas = Canvas::new(6, 3);
    let frame = compose(&mut canvas, &[dirty(0, 4, 2, 7), dirty(4, 2, 3, 9)]).unwrap();
    assert_eq!(frame.len(), 6 * 3 * 4);
    assert_eq!(frame[0], 7);
    assert_eq!(frame[4 * 4], 9);
    assert_eq!(frame[(2 * 6) * 4], 0);
    assert_eq!(frame[(2 * 6 + 5) * 4], 9);
    assert!(compose(&mut canvas, &[]).is_none());
}

#[test]
fn red_and_blue_change_places() {
    let pixels = [1u8, 2, 3, 4, 5, 6, 7, 8];
    let swapped = swap_red_blue(&pixels);
    assert_eq!(swapped, vec![3, 2, 1, 4, 7, 6, 5, 8]);
    assert_eq!(swap_red_blue(&swapped), pixels);
}

#[test]
fn clients_hear_of_another_size() {
    let s = state();
    let mut canvas = Canvas::new(6, 3);
    let mut gfx = GfxSharedState::new(6, 3);
    assert!(sync_layout(&mut canvas, &mut gfx, &s.outputs, (4, 2)).is_none());
    let mut canvas = Canvas::new(1, 1);
    gfx.ready = true;
    gfx.channel_id = Some(9);
    let change = sync_layout(&mut canvas, &mut gfx, &s.outputs, (1, 1)).unwrap();
    assert_eq!((change.width, change.height), (6, 3));
    assert_eq!(change.desktop, Some((4, 2)));
    assert!(change.keyframes);
    let (channel, messages) = change.reset.unwrap();
    assert_eq!(channel, 9);
    assert_eq!(messages[..2], [0xE0, 0x04]);
    assert!(matches!(
        change.effects[..],
        [Effect::Emit { event: IpcEvent::ResolutionChanged { width: 6, height: 3 } }]
    ));
    assert_eq!((gfx.width, gfx.height), (6, 3));
    assert_eq!(canvas.buffer, vec![0; 72]);
    // Each output has a surface, before and after.
    assert_eq!(gfx.outputs.len(), 2);
    assert_eq!(messages, build_layout_reset_pdus(&gfx.outputs, &gfx.outputs, 6, 3));
}

#[test]
fn the_channel_is_ready_once_its_response_is_sent() {
    let mut gfx = GfxSharedState::new(1, 1);
    assert!(take_response(&mut gfx, true).is_none());
    assert!(!gfx.ready);
    gfx.pending_response = Some(GfxPendingResponse { channel_id: 3, data: vec![1] });
    assert!(take_response(&mut gfx, false).is_none());
    assert!(!gfx.ready && gfx.pending_response.is_none());
    gfx.pending_response = Some(GfxPendingResponse { channel_id: 3, data: vec![1] });
    assert_eq!(take_response(&mut gfx, true).unwrap().data, vec![1]);
    assert!(gfx.ready);
}

#[test]
fn frames_are_held_back() {
    let mut gate = FrameGate::new();
    let mut gfx = GfxSharedState::new(1, 1);
    assert_eq!(gate.decide(&mut gfx, 49, false, false, false), Decision::Unchanged);
    assert_eq!(gfx.next_frame_id, 0);
    assert_eq!(gate.decide(&mut gfx, 49, true, false, false), Decision::Send { frame_id: 0 });
    assert_eq!(
        gate.decide(&mut gfx, 512_001, false, false, true),
        Decision::Oversized { force_keyframe: true }
    );
    assert_eq!(gfx.next_frame_id, 1);
    gate.bytes_in_window = 5_000_001;
    assert_eq!(gate.decide(&mut gfx, 100, false, false, false), Decision::Throttled);
    assert_eq!(gate.decide(&mut gfx, 100, false, true, false), Decision::Send { frame_id: 2 });
    assert_eq!(gate.bytes_in_window, 0);
    assert_eq!(frame_interval_micros(60), 16_666);
}

#[test]
fn frames_that_pass_become_messages() {
    let mut gate = FrameGate::new();
    let mut gfx = GfxSharedState::new(64, 64);
    gfx.channel_id = Some(7);
    let frame = EncodedFrame { data: vec![5; 100], is_keyframe: true };
    let passed = pass_frame(&mut gate, &mut gfx, &frame, 0, 64, 64, false, false, true);
    let (channel, message) = passed.message.unwrap();
    assert_eq!(channel, 7);
    assert!(passed.keyframe && !passed.force_keyframe);
    assert_eq!(gate.bytes_in_window, message.len() as u64);
    assert_eq!(gfx.next_frame_id, 1);
    let unsent = pass_frame(&mut gate, &mut gfx, &frame, 0, 64, 64, false, false, false);
    assert!(unsent.message.is_none());
    assert_eq!(gfx.next_frame_id, 2);
    let big = EncodedFrame { data: vec![5; 600_000], is_keyframe: false };
    let dropped = pass_frame(&mut gate, &mut gfx, &big, 0, 64, 64, false, true, true);
    assert!(dropped.message.is_none() && dropped.force_keyframe);
}

#[test]
fn outputs_are_streamed() {
    let mut encoder = OpenH264Encoder::new(64, 64, 500_000).unwrap();
    let mut gate = FrameGate::new();
    let mut gfx = GfxSharedState::new(64, 64);
    gfx.channel_id = Some(1);
    let d = dirty(0, 64, 64, 90);
    let passed =
        stream_output(&mut encoder, &mut gate, &mut gfx, &d, 0, false, false, true).unwrap();
    assert!(passed.keyframe);
    assert!(passed.message.unwrap().1.len() > 50);
}

#[test]
fn pointers_are_told_when_they_change() {
    let mut feed = PointerFeed::new();
    assert!(!feed.moved(5, 5));
    assert_eq!(feed.set_shape(CursorStatus::Named), PointerUpdate::Default);
    assert!(feed.moved(5, 5));
    assert!(!feed.moved(5, 5));
    assert_eq!(feed.set_shape(CursorStatus::Surface), PointerUpdate::Picture);
    assert_eq!(feed.set_shape(CursorStatus::Hidden), PointerUpdate::Hide);
    assert!(!feed.moved(6, 5));
    assert_eq!(
        cursor_pixels(&[1, 2, 3, 4, 9, 9, 9, 9, 5, 6, 7, 8], 1, 2, 8),
        vec![3, 2, 1, 4, 7, 6, 5, 8]
    );
}

#[test]
fn outputs_have_surfaces() {
    let s = state();
    let surfaces = gfx_outputs(&s.outputs);
    assert_eq!((surfaces[1].surface_id, surfaces[1].x, surfaces[1].width), (1, 4, 2));
    assert_eq!(surface_id_for_output(&surfaces, "b"), 1);
    assert_eq!(surface_id_for_output(&surfaces, "c"), 0);
    assert_eq!(primary_size(&s.outputs), Some((4, 2)));
    assert_eq!(primary_size(&[]), None);
    let names = |list: &[&str]| list.iter().map(|s| s.to_string()).collect::<Vec<String>>();
    assert_eq!(missing_from(&names(&["a", "b", "c"]), &names(&["b"])), vec!["a", "c"]);
}

#[test]
fn frames_go_to_the_surface_of_their_output() {
    let mut gate = FrameGate::new();
    let mut gfx = GfxSharedState::new(64, 64);
    gfx.channel_id = Some(7);
    let frame = EncodedFrame { data: vec![5; 100], is_keyframe: true };
    let passed = pass_frame(&mut gate, &mut gfx, &frame, 1, 64, 64, false, false, true);
    let message = passed.message.unwrap().1;
    // After the wrapping and the start of the frame: the header of the picture, then its surface.
    assert_eq!(message[18..20], [0x01, 0]);
    assert_eq!(message[26..28], [1, 0]);
}

fn no_ffmpeg(
    _width: u32,
    _height: u32,
    _bitrate: u32,
    _preference: FfmpegEncoderPreference,
) -> Result<OpenH264Encoder, EncodeError> {
    Err(EncodeError::Create)
}

#[test]
fn outputs_are_streamed_by_tiles() {
    let mut grid = TileGrid::new("out".to_string(), 64, 64, 2, 2, "openh264", &no_ffmpeg).unwrap();
    assert!(grid.can_encode());
    let mut gfx = GfxSharedState::new(64, 64);
    gfx.channel_id = Some(4);
    let d = dirty(0, 64, 64, 90);
    let passed = stream_tiles(&mut grid, &mut gfx, &d, &[], 0, 1, true);
    let (channel, message) = passed.message.unwrap();
    assert_eq!(channel, 4);
    assert!(passed.keyframe);
    assert_eq!(message[26..28], [1, 0]);
    assert_eq!(gfx.next_frame_id, 1);
    assert_eq!(grid.dirty_count(), 0);
    // Nothing changed, so nothing is sent.
    let passed = stream_tiles(&mut grid, &mut gfx, &d, &[], 1, 1, true);
    assert!(passed.message.is_none() && !passed.keyframe);
    assert_eq!(gfx.next_frame_id, 1);
}

#[test]
fn tiles_pass_in_one_message() {
    let tile = |x: u16, is_keyframe: bool| TileFrame {
        x,
        y: 0,
        width: 16,
        height: 16,
        data: vec![x as u8; 60],
        is_keyframe,
    };
    let mut gfx = GfxSharedState::new(64, 64);
    gfx.next_frame_id = 9;
    let tiles = [tile(0, false), tile(16, true)];
    assert!(pass_tiles(&mut gfx, &[], 0, true).message.is_none());
    assert_eq!(gfx.next_frame_id, 9);
    // Without a channel nothing is sent, but the frame has been numbered.
    assert!(pass_tiles(&mut gfx, &tiles, 0, true).message.is_none());
    assert_eq!(gfx.next_frame_id, 10);
    gfx.channel_id = Some(3);
    let passed = pass_tiles(&mut gfx, &tiles, 2, true);
    let message = encode_gfx_avc420_tiles(&tiles, 2, 10).unwrap();
    assert_eq!(passed.message, Some((3, message)));
    assert!(passed.keyframe);
    assert!(pass_tiles(&mut gfx, &tiles, 2, false).message.is_none());
    assert!(!pass_tiles(&mut gfx, &tiles[..1], 2, true).keyframe);
}
