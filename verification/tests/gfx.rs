use desktopinator::displaycontrol::{
    monitor_order, ClientMonitor, DisplayControlDvc, DisplayControlState, MonitorEntry,
};
use desktopinator::gfx::capability::{
    parse_capabilities_advertise, select_capability, Capability, CapabilityVersion,
};
use desktopinator::adaptive::TileFrame;
use desktopinator::gfx::channel::{
    build_layout_reset_pdus, build_reset_surface_pdus, encode_gfx_avc420_frame,
    encode_gfx_avc420_tiles, encode_gfx_surface_frame, wrap_zgfx_uncompressed, GfxHandler,
    GfxOutputInfo, GfxSharedState,
};

fn le32(n: u32) -> [u8; 4] {
    n.to_le_bytes()
}

fn capability(version: u32, flags: u32) -> Vec<u8> {
    [le32(version), le32(4), le32(flags)].concat()
}

fn advertise(caps: &[Vec<u8>]) -> Vec<u8> {
    let body: Vec<u8> = [(caps.len() as u16).to_le_bytes().to_vec(), caps.concat()].concat();
    let header = [0x12, 0, 0, 0];
    let length = le32(8 + body.len() as u32);
    [&header[..], &length[..], &body[..]].concat()
}

#[test]
fn messages_are_wrapped() {
    assert_eq!(wrap_zgfx_uncompressed(&[1, 2]), vec![0xE0, 0x04, 1, 2]);
}

#[test]
fn capabilities_are_read_and_the_best_is_taken() {
    let caps = [capability(0x0008_0004, 0), capability(0x0008_0105, 0x10)];
    let body = &advertise(&caps)[8..];
    let read = parse_capabilities_advertise(body);
    assert_eq!(read.len(), 2);
    assert_eq!(read[0].version, CapabilityVersion::V8);
    assert_eq!(read[1], Capability { version: CapabilityVersion::V8_1, flags: 0x10 });
    let (chosen, avc) = select_capability(&read);
    assert_eq!(chosen.version, CapabilityVersion::V8_1);
    assert!(avc);
    let (none, avc) = select_capability(&[]);
    assert_eq!(none, Capability { version: CapabilityVersion::V8, flags: 0 });
    assert!(!avc);
    assert!(parse_capabilities_advertise(&[1]).is_empty());
}

#[test]
fn advertisements_are_confirmed() {
    let mut handler = GfxHandler::new(GfxSharedState::new(1920, 1080));
    assert!(handler.start(5).is_empty());
    let messages = handler.process(&advertise(&[capability(0x0008_0105, 0x10)]));
    assert_eq!(messages.len(), 1);
    let expected: Vec<u8> = [
        &[0xE0, 0x04, 0x13, 0, 0, 0][..],
        &le32(20),
        &le32(0x0008_0105),
        &le32(4),
        &le32(0x10),
    ]
    .concat();
    assert_eq!(messages[0], expected);
    assert!(handler.state.avc_supported);
    let waiting = handler.state.pending_response.as_ref().unwrap();
    assert_eq!(waiting.channel_id, 5);
    assert_eq!(waiting.data[..4], [0xE0, 0x04, 0x0E, 0]);
    handler.close();
    assert!(handler.state.channel_id.is_none() && !handler.state.ready);
    assert_eq!(handler.channel_name(), "Microsoft::Windows::RDS::Graphics");
}

#[test]
fn acknowledgements_are_noted() {
    let mut handler = GfxHandler::new(GfxSharedState::new(8, 8));
    let ack: Vec<u8> = [&[0x0D, 0, 0, 0][..], &le32(20), &le32(77), &le32(1), &le32(2)].concat();
    assert!(handler.process(&ack).is_empty());
    assert_eq!(handler.state.last_acked_frame_id, Some(77));
    assert!(handler.process(&[1, 2, 3]).is_empty());
}

#[test]
fn surfaces_are_reset() {
    let messages = build_reset_surface_pdus(640, 480);
    // The old surface goes first.
    assert_eq!(messages[..12], [0xE0, 0x04, 0x0A, 0, 0, 0, 10, 0, 0, 0, 0, 0]);
    // Then the desktop gets its size.
    assert_eq!(messages[12..20], [0x0E, 0, 0, 0, 0x54, 1, 0, 0]);
    assert_eq!(messages[20..28], [0x80, 2, 0, 0, 0xE0, 1, 0, 0]);
}

#[test]
fn frames_stand_between_start_and_end() {
    let message = encode_gfx_avc420_frame(&[9, 8, 7], 64, 32, 5).unwrap();
    assert_eq!(message[2..10], [0x0B, 0, 0, 0, 16, 0, 0, 0]);
    assert_eq!(message[14..18], [5, 0, 0, 0]);
    assert_eq!(message[18..20], [0x01, 0]);
    let end = &message[message.len() - 12..];
    assert_eq!(end, &[0x0C, 0, 0, 0, 12, 0, 0, 0, 5, 0, 0, 0]);
    let picture = &message[..message.len() - 12];
    assert_eq!(picture[picture.len() - 3..], [9, 8, 7]);
}

#[test]
fn display_control_advertises_its_limits() {
    let mut dvc = DisplayControlDvc::new(DisplayControlState::default());
    let expected: Vec<u8> =
        [le32(5), le32(20), le32(16), le32(3840), le32(2400)].concat();
    assert_eq!(dvc.start(), expected);
    assert_eq!(dvc.channel_name(), "Microsoft::Windows::RDS::DisplayControl");
}

fn monitor_message(flags: u32, left: i32, width: u32) -> Vec<u8> {
    [
        le32(2),
        le32(56),
        le32(40),
        le32(1),
        le32(flags),
        left.to_le_bytes(),
        0i32.to_le_bytes(),
        le32(width),
        le32(1080),
        le32(100),
        le32(100),
        le32(0),
        le32(100),
        le32(100),
    ]
    .concat()
}

#[test]
fn display_control_keeps_the_layout() {
    let mut dvc = DisplayControlDvc::new(DisplayControlState::default());
    assert!(dvc.process(&monitor_message(1, 0, 1920)).is_ok());
    let entry = MonitorEntry { is_primary: true, left: 0, top: 0, width: 1920, height: 1080 };
    assert_eq!(dvc.state.pending_layout, Some(vec![entry]));
    assert!(dvc.process(&[1, 2, 3]).is_err());
    assert_eq!(dvc.state.pending_layout, Some(vec![entry]));
}

#[test]
fn monitors_without_a_place_stand_at_the_origin() {
    let mut dvc = DisplayControlDvc::new(DisplayControlState::default());
    dvc.accept_layout(&[ClientMonitor {
        is_primary: false,
        position: None,
        width: 10,
        height: 20,
    }]);
    let entry = MonitorEntry { is_primary: false, left: 0, top: 0, width: 10, height: 20 };
    assert_eq!(dvc.state.pending_layout, Some(vec![entry]));
}

#[test]
fn the_primary_monitor_comes_first() {
    let m = |is_primary, left, top| MonitorEntry { is_primary, left, top, width: 1, height: 1 };
    let monitors = [m(false, 5, 0), m(false, -5, 9), m(true, 100, 0), m(false, -5, 3)];
    assert_eq!(monitor_order(&monitors), vec![2, 3, 1, 0]);
    assert_eq!(monitor_order(&[m(false, 1, 1), m(false, 1, 1)]), vec![0, 1]);
}

fn surface(surface_id: u16, x: u32) -> GfxOutputInfo {
    GfxOutputInfo { name: format!("o{surface_id}"), surface_id, x, y: 0, width: 640, height: 480 }
}

#[test]
fn one_output_is_the_main_display() {
    let one = [surface(0, 0)];
    assert_eq!(build_layout_reset_pdus(&one, &one, 640, 480), build_reset_surface_pdus(640, 480));
    assert_eq!(
        encode_gfx_surface_frame(&[9, 8, 7], 0, 64, 32, 5),
        encode_gfx_avc420_frame(&[9, 8, 7], 64, 32, 5)
    );
}

#[test]
fn outputs_get_surfaces_at_their_places() {
    let two = [surface(0, 0), surface(1, 640)];
    let messages = build_layout_reset_pdus(&two, &two, 1280, 480);
    // Both old surfaces go first, then the desktop gets its size.
    assert_eq!(messages[2..12], [0x0A, 0, 0, 0, 10, 0, 0, 0, 0, 0]);
    assert_eq!(messages[12..22], [0x0A, 0, 0, 0, 10, 0, 0, 0, 1, 0]);
    assert_eq!(messages[22..30], [0x0E, 0, 0, 0, 0x54, 1, 0, 0]);
    // The last message maps the second surface to its place.
    let mapped = &messages[messages.len() - 20..];
    assert_eq!(mapped[..10], [0x0F, 0, 0, 0, 20, 0, 0, 0, 1, 0]);
    assert_eq!(mapped[12..], [0x80, 2, 0, 0, 0, 0, 0, 0]);
}

#[test]
fn tiles_stand_between_one_start_and_end() {
    let tile = |x: u16, data: &[u8]| TileFrame {
        x,
        y: 32,
        width: 64,
        height: 32,
        data: data.to_vec(),
        is_keyframe: true,
    };
    let one = encode_gfx_avc420_tiles(&[tile(0, &[1, 2, 3])], 2, 5).unwrap();
    let both = encode_gfx_avc420_tiles(&[tile(0, &[1, 2, 3]), tile(64, &[7])], 2, 5).unwrap();
    assert_eq!(one[2..10], [0x0B, 0, 0, 0, 16, 0, 0, 0]);
    assert_eq!(both[..one.len() - 12], one[..one.len() - 12]);
    let second = &both[one.len() - 12..both.len() - 12];
    // The picture's surface, and the corners of its place.
    assert_eq!(second[..2], [0x01, 0]);
    assert_eq!(second[8..10], [2, 0]);
    assert_eq!(second[13..21], [64, 0, 32, 0, 127, 0, 63, 0]);
    assert_eq!(second[second.len() - 1], 7);
    assert_eq!(both[both.len() - 12..], [0x0C, 0, 0, 0, 12, 0, 0, 0, 5, 0, 0, 0]);
}
