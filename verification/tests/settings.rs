use desktopinator::background::{parse_background, Background, Color};
use desktopinator::cli::{parse_args, Backend};
use desktopinator::compositor::state::DinatorState;
use desktopinator::compositor::tabs::{StackedTabs, Tab};
use desktopinator::config::{config_path, config_paths, join_path, plugin_dir, Config};
use desktopinator::drm::{Connector, ModeInfo};
use desktopinator::label::{can_render, render_glyphs, Glyph};
use desktopinator::overlay::{build_overlay, can_draw, can_draw_tabs, Shape};
use desktopinator::plugins::manifest::KeybindingRequest;
use desktopinator::plugins::set::{choose_keysym, register_keybindings};
use desktopinator::tiling::Rect;

fn words(line: &str) -> Vec<String> {
    line.split_whitespace().map(str::to_string).collect()
}

#[test]
fn paths_follow_the_environment() {
    assert_eq!(config_path(Some("/x"), Some("/h")), "/x/desktopinator/config.toml");
    assert_eq!(config_path(None, Some("/h/")), "/h/.config/desktopinator/config.toml");
    assert_eq!(config_path(None, None), "/etc/desktopinator/config.toml");
    assert_eq!(
        config_paths(Some("/x"), Some("/h")),
        vec!["/x/desktopinator/config.toml", "/h/.config/desktopinator/config.toml"]
    );
    assert_eq!(config_paths(None, Some("/h")), vec!["/h/.config/desktopinator/config.toml"]);
    assert_eq!(config_paths(None, None), vec!["/etc/desktopinator/config.toml"]);
    assert_eq!(join_path("/a", "b"), "/a/b");
    assert!(plugin_dir(Some("/x"), None).ends_with("desktopinator/plugins"));
}

#[test]
fn the_command_line_goes_before_the_configuration() {
    let config = Config::default();
    let plain = parse_args(&[], &config);
    assert_eq!(plain.backend, Backend::Window);
    assert_eq!((plain.vnc_port, plain.rdp_port, plain.fps), (5900, 3389, 60));
    assert_eq!((plain.width, plain.height, plain.encoder.as_str()), (1920, 1080, "auto"));
    let line = "--headless --vnc-port 1 --rdp-port x --resolution 8x9 --encoder nvenc --one-shot --fps 30";
    let given = parse_args(&words(line), &config);
    assert_eq!(given.backend, Backend::Headless);
    assert_eq!((given.vnc_port, given.rdp_port, given.fps), (1, 3389, 30));
    assert_eq!((given.width, given.height, given.encoder.as_str()), (8, 9, "nvenc"));
    assert!(given.one_shot);
    assert_eq!(parse_args(&words("--headless --drm"), &config).backend, Backend::Drm);
}

#[test]
fn backgrounds_are_read() {
    assert!(matches!(
        parse_background("#0A0b0C"),
        Some(Background::Solid(Color::Hex(10, 11, 12)))
    ));
    match parse_background("0.5, 1,255") {
        Some(Background::Solid(Color::Numbers { red, green, blue })) => {
            assert_eq!((red.as_str(), green.as_str(), blue.as_str()), ("0.5", "1", "255"));
        }
        other => panic!("{other:?}"),
    }
    assert!(matches!(
        parse_background("#000000-#0000ff"),
        Some(Background::Gradient { top: Color::Hex(0, 0, 0), bottom: Color::Hex(0, 0, 255) })
    ));
    for mixed in ["#000000-255,255,255", "0,0,0-#ffffff", "0,0,0-1,1,1", "1e-2,0,0-#ffffff"] {
        let read = parse_background(mixed);
        assert!(matches!(read, Some(Background::Gradient { .. })), "{mixed}");
    }
    for wrong in ["", "#12345", "#12345g", "1,2", "a,b,c", "#000000-x"] {
        assert!(parse_background(wrong).is_none(), "{wrong}");
    }
}

#[test]
fn overlays_frame_the_windows() {
    let area = Rect { x: 100, y: 0, width: 640, height: 128 };
    let focused = Rect { x: 110, y: 10, width: 50, height: 40 };
    let floating = Rect { x: 200, y: 20, width: 30, height: 30 };
    assert!(can_draw(area, focused) && can_draw(area, floating));
    let overlay = build_overlay(
        area,
        Some((640, 128)),
        Some(focused),
        &[floating],
        &None,
        Some((105, 6)),
        true,
    );
    assert_eq!(overlay.below[0].shape, Shape::FocusBorder);
    let border = overlay.below[0].rect;
    assert!(border.x < 10 && border.width > 50);
    let bands: Vec<i32> = overlay.below[1..].iter().map(|i| i.rect.height).collect();
    assert_eq!(bands.iter().sum::<i32>(), 128);
    assert_eq!(overlay.above.iter().filter(|i| i.shape == Shape::FloatEdge).count(), 4);
    let pointer = overlay.above.iter().find(|i| i.shape == Shape::Cursor).unwrap();
    assert_eq!(pointer.rect, Rect { x: 5, y: 6, width: 8, height: 8 });
    let elsewhere = build_overlay(area, None, None, &[], &None, Some((5, 6)), false);
    assert!(elsewhere.above.is_empty() && elsewhere.below.is_empty());
}

#[test]
fn overlays_hold_title_bars() {
    let tab = |focused| Tab { app_id: "a".to_string(), title: "t".to_string(), focused };
    let tabs = StackedTabs { tabs: vec![tab(true), tab(false)], tab_height: 24, gap: 4 };
    assert!(can_draw_tabs(&tabs, 640));
    assert_eq!(tabs.tabs[0].label(), "t  —  a");
    let area = Rect { x: 0, y: 0, width: 640, height: 480 };
    let overlay = build_overlay(area, Some((640, 480)), None, &[], &Some(tabs), None, false);
    let labels = overlay.above.iter().filter(|i| matches!(i.shape, Shape::TabLabel { .. }));
    assert_eq!(labels.count(), 2);
    assert!(overlay
        .above
        .iter()
        .any(|i| i.shape == Shape::TabBackground { focused: true } && i.rect.height == 24));
}

#[test]
fn glyphs_are_averaged() {
    let glyph = Glyph { advance: 2, xmin: 0, ymin: 0, width: 2, height: 2, bitmap: vec![255; 4] };
    let glyphs = [glyph];
    assert!(can_render(&glyphs, 2, 10, 1));
    let (pixels, width, height) = render_glyphs(&glyphs, 2, (10, 20, 30), 10, 1);
    assert_eq!(height, 1);
    assert_eq!(pixels.len(), 4 * width as usize);
    assert_eq!(pixels[..4], [30, 20, 10, 255]);
}

#[test]
fn keys_are_resolved() {
    assert_eq!(choose_keysym(5, 6), Some(5));
    assert_eq!(choose_keysym(0, 6), Some(6));
    assert_eq!(choose_keysym(0, 0), None);
    let request = |key: &str| KeybindingRequest {
        modifiers: vec!["Alt".to_string()],
        key: key.to_string(),
        callback_id: format!("id-{key}"),
    };
    let bound = register_keybindings(&[request("x"), request("?")], &[Some(120), None]);
    assert_eq!(bound.len(), 1);
    assert_eq!((bound[0].keysym, bound[0].alt, bound[0].ctrl), (120, true, false));
    assert_eq!(bound[0].callback_id, "id-x");
}

fn connector(connected: bool, current: Option<u32>, modes: Vec<ModeInfo>) -> Connector {
    Connector {
        connected,
        current_crtc: current,
        has_encoder: true,
        modes,
        interface: "HDMI-A".to_string(),
        interface_id: 1,
    }
}

fn mode(width: u16, preferred: bool) -> ModeInfo {
    ModeInfo { width, height: 100, vrefresh: 60, preferred }
}

#[test]
fn connectors_become_outputs_side_by_side() {
    let mut state = DinatorState::new();
    let mut second = connector(true, None, vec![mode(300, false), mode(200, true)]);
    second.interface_id = 2;
    let list = [
        connector(false, Some(1), vec![mode(1, true)]),
        connector(true, Some(10), vec![mode(400, false)]),
        second,
        connector(true, None, vec![]),
    ];
    let outputs = state.add_connectors(&list, &[10, 11]);
    assert_eq!(outputs.len(), 2);
    assert_eq!((outputs[0].name.as_str(), outputs[0].crtc), ("HDMI-A-1", 10));
    assert_eq!((outputs[1].name.as_str(), outputs[1].crtc), ("HDMI-A-2", 11));
    assert_eq!((outputs[1].mode.width, outputs[1].refresh), (200, 60_000));
    assert_eq!(state.outputs[1].geometry, Rect { x: 400, y: 0, width: 200, height: 100 });
}

#[test]
fn controllers_run_out() {
    let mut state = DinatorState::new();
    let mut second = connector(true, None, vec![mode(2, true)]);
    second.interface_id = 2;
    let list = [connector(true, None, vec![mode(1, true)]), second];
    assert_eq!(state.add_connectors(&list, &[7]).len(), 1);
}
