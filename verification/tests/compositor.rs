use desktopinator::background::{Background, Color};
use desktopinator::compositor::actions::Request;
use desktopinator::compositor::event::{
    plugin_event, Effect, IpcEvent, PluginAction, PluginEvent, Protocol, WindowRule,
};
use desktopinator::compositor::layout::ActiveLayout;
use desktopinator::compositor::monitors::LayoutStep;
use desktopinator::compositor::seen::SeenWindow;
use desktopinator::compositor::state::{DinatorState, PluginKeybinding};
use desktopinator::compositor::x11::{X11Window, X11Windows};
use desktopinator::cursors::CursorIcon;
use desktopinator::displaycontrol::MonitorEntry;
use desktopinator::input::codes::Modifiers;
use desktopinator::input::keys::{filter_key, keysym_to_workspace, KeyAction, KeyFilter, KeySource};
use desktopinator::tiling::{Placement, Rect, WindowId};

fn area(x: i32) -> Rect {
    Rect { x, y: 0, width: 1000, height: 600 }
}

fn one_output() -> DinatorState {
    let mut state = DinatorState::new();
    state.register_output("headless-0".to_string(), area(0));
    state
}

fn two_outputs() -> DinatorState {
    let mut state = one_output();
    state.register_output("right".to_string(), area(1000));
    state
}

fn open(state: &mut DinatorState) -> WindowId {
    state.new_toplevel(None, None).0
}

fn shows(effects: &[Effect]) -> Vec<String> {
    effects.iter().map(|e| format!("{e:?}")).collect()
}

#[test]
fn outputs_get_workspaces_of_their_own() {
    let state = two_outputs();
    assert_eq!(state.outputs[0].active_workspace, 1);
    assert_eq!(state.outputs[1].active_workspace, 2);
    assert_eq!(state.focused_output.as_deref(), Some("headless-0"));
    assert_eq!(state.outputs[0].layout.name(), "column");
}

#[test]
fn a_tenth_output_shows_workspace_one() {
    let mut state = DinatorState::new();
    for n in 0..10 {
        state.register_output(format!("o{n}"), area(1000 * n));
    }
    assert_eq!(state.outputs[8].active_workspace, 9);
    assert_eq!(state.outputs[9].active_workspace, 1);
}

#[test]
fn windows_open_focused_at_the_end() {
    let mut state = one_output();
    let a = open(&mut state);
    let (b, effects) = state.new_toplevel(Some("foot".to_string()), Some("Terminal".to_string()));
    assert_eq!(state.ws_window_list(1), &[a, b]);
    assert_eq!(state.focused_window(), Some(b));
    match &effects[..] {
        [Effect::Cursor { icon: CursorIcon::Default }, Effect::MoveTo { id, x: 0, y: 0 }, Effect::Retile { output }, Effect::Focus { target }, Effect::Emit { event: IpcEvent::WindowOpened { id: told, app_id, title } }] =>
        {
            assert_eq!((*id, *target, *told), (b, Some(b), b.0));
            assert_eq!(output, "headless-0");
            assert_eq!(app_id.as_deref(), Some("foot"));
            assert_eq!(title.as_deref(), Some("Terminal"));
        }
        other => panic!("{other:?}"),
    }
}

#[test]
fn rules_open_windows_floating_or_fullscreen() {
    let mut state = one_output();
    state.window_rules = vec![
        WindowRule { app_id: Some("mpv".to_string()), title: None, float: true, fullscreen: true },
        WindowRule { app_id: None, title: Some("Set".to_string()), float: false, fullscreen: true },
    ];
    let (a, _) = state.new_toplevel(Some("mpv".to_string()), None);
    let (b, _) = state.new_toplevel(Some("x".to_string()), Some("Settings".to_string()));
    let (c, _) = state.new_toplevel(Some("mpv2".to_string()), Some("other".to_string()));
    assert!(state.floating.contains(&a.0) && !state.fullscreen.contains(&a.0));
    assert!(state.fullscreen.contains(&b.0) && !state.floating.contains(&b.0));
    assert!(!state.fullscreen.contains(&c.0) && !state.floating.contains(&c.0));
    assert_eq!(state.match_window_rule(Some("mpv"), None), Some(0));
    assert_eq!(state.match_window_rule(None, None), None);
}

#[test]
fn focus_goes_round_and_back() {
    let mut state = one_output();
    let (a, b, c) = (open(&mut state), open(&mut state), open(&mut state));
    state.focus_next();
    assert_eq!(state.focused_window(), Some(a));
    state.focus_prev();
    assert_eq!(state.focused_window(), Some(c));
    state.focus_prev();
    assert_eq!(state.focused_window(), Some(b));
    assert_eq!(state.ws_window_list(1), &[a, b, c]);
}

#[test]
fn focus_turns_the_list_where_windows_overlap() {
    let mut state = one_output();
    let (a, b, c) = (open(&mut state), open(&mut state), open(&mut state));
    assert!(state.set_layout("monocle"));
    let effects = state.focus_next();
    assert_eq!(state.focused_window(), Some(a));
    assert_eq!(state.ws_window_list(1), &[a, b, c]);
    assert!(matches!(effects.last(), Some(Effect::Retile { .. })));
    state.focus_next();
    assert_eq!(state.ws_window_list(1), &[b, c, a]);
    state.focus_prev();
    assert_eq!(state.focused_window(), Some(a));
    assert_eq!(state.ws_window_list(1), &[a, b, c]);
}

#[test]
fn one_window_keeps_the_focus() {
    let mut state = one_output();
    let a = open(&mut state);
    assert!(state.focus_next().is_empty());
    assert_eq!(state.focused_window(), Some(a));
}

#[test]
fn swap_brings_the_focused_window_first() {
    let mut state = one_output();
    let (a, b, c) = (open(&mut state), open(&mut state), open(&mut state));
    state.swap_master();
    assert_eq!(state.ws_window_list(1), &[c, b, a]);
    assert!(state.swap_master().is_empty());
    assert_eq!(state.ws_window_list(1), &[c, b, a]);
}

#[test]
fn workspaces_remember_their_focus() {
    let mut state = one_output();
    let (a, _b) = (open(&mut state), open(&mut state));
    state.focus_next();
    assert_eq!(state.focused_window(), Some(a));
    let effects = state.switch_workspace(3);
    assert_eq!(state.focused_workspace(), 3);
    assert_eq!(state.focused_window(), None);
    assert!(shows(&effects).iter().any(|e| e.contains("WorkspaceChanged")));
    state.switch_workspace(1);
    assert_eq!(state.focused_window(), Some(a));
    assert_eq!(state.ws_window_list(1).len(), 2);
}

#[test]
fn workspaces_outside_one_to_nine_are_ignored() {
    let mut state = one_output();
    open(&mut state);
    for n in [0, 1, 10] {
        assert!(state.switch_workspace(n).is_empty());
        assert!(state.move_to_workspace(n).is_empty());
    }
    assert_eq!(state.focused_workspace(), 1);
}

#[test]
fn windows_move_between_workspaces() {
    let mut state = one_output();
    let (a, b) = (open(&mut state), open(&mut state));
    let effects = state.move_to_workspace(4);
    assert_eq!(state.ws_window_list(1), &[a]);
    assert_eq!(state.ws_window_list(4), &[b]);
    assert_eq!(state.focused_window(), Some(a));
    assert!(matches!(effects[0], Effect::Unmap { id } if id == b));
    assert!(matches!(
        effects.last(),
        Some(Effect::Emit { event: IpcEvent::WindowMovedWorkspace { id, workspace: 4 } }) if *id == b.0
    ));
    state.move_to_workspace(4);
    assert_eq!(state.focused_window(), None);
}

#[test]
fn closing_gives_the_focus_to_the_last_window() {
    let mut state = one_output();
    let (a, b, c) = (open(&mut state), open(&mut state), open(&mut state));
    let asked = state.close_focused_window();
    assert!(matches!(asked[..], [Effect::Close { id }] if id == c));
    let effects = state.toplevel_destroyed(c);
    assert_eq!(state.ws_window_list(1), &[a, b]);
    assert_eq!(state.focused_window(), Some(b));
    assert!(matches!(
        effects[0],
        Effect::Emit { event: IpcEvent::WindowClosed { id } } if id == c.0
    ));
    assert!(state.toplevel_destroyed(c).is_empty());
}

#[test]
fn toggles_undo_themselves() {
    let mut state = one_output();
    let a = open(&mut state);
    assert_eq!(state.toggle_float().0, Some((a, true)));
    assert!(state.floating.contains(&a.0));
    assert_eq!(state.toggle_fullscreen().0, Some((a, true)));
    assert!(!state.floating.contains(&a.0) && state.fullscreen.contains(&a.0));
    assert_eq!(state.toggle_fullscreen().0, Some((a, false)));
    assert!(!state.floating.contains(&a.0) && !state.fullscreen.contains(&a.0));
    assert_eq!(DinatorState::new().toggle_float().0, None);
}

#[test]
fn floating_windows_stand_in_the_middle() {
    let mut state = one_output();
    let a = open(&mut state);
    let (_, effects) = state.toggle_float();
    assert!(matches!(
        effects[0],
        Effect::Place { id, rect: Rect { x: 167, y: 100, width: 666, height: 400 }, fullscreen: false }
            if id == a
    ));
}

#[test]
fn arranging_places_raises_and_fills() {
    let mut state = one_output();
    let (a, b, c) = (open(&mut state), open(&mut state), open(&mut state));
    state.toggle_fullscreen();
    state.focus_next();
    state.toggle_float();
    assert_eq!(state.focused_window(), Some(a));
    assert_eq!(state.tiled_windows(1), vec![b]);
    assert!(state.can_retile("headless-0"));
    let effects = state.retile("headless-0", &[]);
    let expected = [
        Effect::Place {
            id: b,
            rect: Rect { x: 4, y: 4, width: 992, height: 592 },
            fullscreen: false,
        },
        Effect::Place { id: c, rect: area(0), fullscreen: true },
        Effect::Raise { id: c, activate: false },
        Effect::Raise { id: a, activate: false },
    ];
    assert_eq!(shows(&effects), shows(&expected));
    assert!(state.retile("nowhere", &[]).is_empty());
}

#[test]
fn plugin_layouts_place_what_they_are_given() {
    let mut state = one_output();
    let a = open(&mut state);
    state.plugin_layouts = vec!["grid".to_string()];
    assert!(state.set_layout("grid"));
    assert_eq!(state.layout_name(), "grid");
    let rect = Rect { x: 1, y: 2, width: 3, height: 4 };
    let effects = state.retile("headless-0", &[Placement { id: a, rect }]);
    assert_eq!(shows(&effects), shows(&[Effect::Place { id: a, rect, fullscreen: false }]));
}

#[test]
fn layouts_keep_the_gap_and_cycle() {
    let mut state = one_output();
    assert!(state.set_layout_gap(11));
    assert!(!state.set_layout("nonsense"));
    assert!(!DinatorState::new().set_layout("dwindle"));
    assert!(state.set_layout("dwindle"));
    assert_eq!(state.outputs[0].layout.gap(), 11);
    let names = state.available_layouts();
    assert_eq!(names, vec!["column", "monocle", "dwindle", "centered", "stacked"]);
    for expected in ["centered", "stacked", "column", "monocle", "dwindle"] {
        assert_eq!(state.cycle_layout(1).as_deref(), Some(expected));
    }
    assert_eq!(state.cycle_layout(-1).as_deref(), Some("monocle"));
}

#[test]
fn master_ratio_belongs_to_the_focused_output() {
    let mut state = two_outputs();
    assert!(state.grow_master());
    assert_ne!(state.outputs[0].layout.master_ratio(), state.outputs[1].layout.master_ratio());
    assert!(state.shrink_master());
    state.set_focused_layout(ActiveLayout::builtin("monocle").unwrap());
    assert!(!state.grow_master());
    assert_eq!(state.master_ratio(), None);
    assert_eq!(state.layout_name_for_output("right"), "column");
}

#[test]
fn backgrounds_belong_to_outputs() {
    let mut state = two_outputs();
    state.set_background(Background::Solid(Color::Hex(1, 2, 3)));
    assert!(matches!(
        state.background_for_output("headless-0"),
        Background::Solid(Color::Hex(1, 2, 3))
    ));
    assert!(matches!(state.background_for_output("right"), Background::Default));
}

#[test]
fn focus_moves_between_outputs() {
    let mut state = two_outputs();
    let a = open(&mut state);
    state.focus_output_direction(1);
    assert_eq!(state.focused_output.as_deref(), Some("right"));
    state.focus_output_direction(-1);
    assert_eq!(state.focused_output.as_deref(), Some("headless-0"));
    assert_eq!(state.focused_window(), Some(a));
    assert_eq!(state.outputs_by_position(), vec![0, 1]);
    assert!(state.focus_output("nowhere").is_empty());
}

#[test]
fn windows_move_between_outputs() {
    let mut state = two_outputs();
    let a = open(&mut state);
    let (sent, effects) = state.move_window_to_output_direction(1);
    assert!(sent);
    assert_eq!(state.ws_window_list(1).len(), 0);
    assert_eq!(state.ws_window_list(2), &[a]);
    assert!(matches!(effects[0], Effect::Unmap { id } if id == a));
    assert_eq!(state.focused_output.as_deref(), Some("right"));
    let (again, _) = state.move_window_to_output("right");
    assert!(!again);
}

#[test]
fn removed_outputs_give_the_focus_away() {
    let mut state = two_outputs();
    let a = open(&mut state);
    let effects = state.unregister_output("headless-0");
    assert!(matches!(effects[..], [Effect::Unmap { id }] if id == a));
    assert_eq!(state.focused_output.as_deref(), Some("right"));
    assert_eq!(state.ws_window_list(1), &[a]);
    assert_eq!(state.retile_all().len(), 1);
}

#[test]
fn windows_without_a_name_float_after_three_commits() {
    let mut state = one_output();
    let a = open(&mut state);
    for _ in 0..2 {
        assert!(state.commit(a, false, false, 300, 200, Some((300, 200))).is_empty());
    }
    let effects = state.commit(a, false, false, 300, 200, Some((300, 200)));
    assert!(state.floating.contains(&a.0));
    assert!(matches!(effects[0], Effect::MoveTo { id, x: 350, y: 200 } if id == a));
}

#[test]
fn windows_with_a_parent_float_at_once() {
    let mut state = one_output();
    let a = open(&mut state);
    let effects = state.commit(a, true, true, 10, 10, None);
    assert!(matches!(effects[0], Effect::MoveTo { x: 450, y: 250, .. }));
    let b = open(&mut state);
    let effects = state.commit(b, false, true, 0, 0, None);
    assert!(matches!(effects[..], [Effect::Retile { .. }]));
    let effects = state.commit(b, false, true, 10, 20, Some((30, 40)));
    assert!(matches!(effects[..], [Effect::Resize { width: 30, height: 40, .. }]));
}

#[test]
fn activation_counts_for_ten_seconds() {
    let mut state = one_output();
    let (a, b) = (open(&mut state), open(&mut state));
    assert!(matches!(
        state.request_activation(a, 10)[..],
        [Effect::Cursor { icon: CursorIcon::Progress }]
    ));
    assert_eq!(state.focused_window(), Some(b));
    let effects = state.request_activation(a, 9);
    assert!(matches!(
        effects[..2],
        [Effect::Cursor { icon: CursorIcon::Progress }, Effect::Raise { activate: true, .. }]
    ));
    assert_eq!(state.focused_window(), Some(a));
}

#[test]
fn fullscreen_requests_are_granted() {
    let mut state = one_output();
    let a = open(&mut state);
    state.toggle_float();
    state.fullscreen_request(a);
    assert!(state.fullscreen.contains(&a.0) && !state.floating.contains(&a.0));
    state.unfullscreen_request(a);
    assert!(!state.fullscreen.contains(&a.0));
}

#[test]
fn plugins_hear_of_windows_and_workspaces_only() {
    assert!(matches!(
        plugin_event(&IpcEvent::WindowFocused { id: 3 }),
        Some(PluginEvent::WindowFocused { id: 3 })
    ));
    assert!(plugin_event(&IpcEvent::OutputRemoved { name: "x".to_string() }).is_none());
    assert!(plugin_event(&IpcEvent::ClientConnected { protocol: Protocol::Rdp }).is_none());
}

#[test]
fn plugin_actions_are_carried_out_in_order() {
    let mut state = one_output();
    let (a, _b) = (open(&mut state), open(&mut state));
    let effects = state.execute_plugin_actions(vec![
        PluginAction::FocusNext,
        PluginAction::Spawn { cmd: "echo".to_string(), args: vec!["x".to_string()] },
        PluginAction::SetLayout { name: "monocle".to_string() },
        PluginAction::Log { message: "done".to_string() },
        PluginAction::MoveToWorkspace { workspace: 5 },
    ]);
    assert_eq!(state.layout_name(), "monocle");
    assert_eq!(state.ws_window_list(5), &[a]);
    let text = shows(&effects);
    let spawn = text.iter().position(|e| e.starts_with("Spawn")).unwrap();
    let log = text.iter().position(|e| e.starts_with("Log")).unwrap();
    assert!(spawn < log);
}

#[test]
fn keys_ask_for_what_they_are_bound_to() {
    let mut state = one_output();
    let (effects, request) = state.perform_key_action(KeyAction::LaunchTerminal, None);
    assert!(matches!(&effects[..], [Effect::Spawn { cmd, args }] if cmd == "foot" && args.is_empty()));
    assert!(matches!(request, Request::Nothing));
    let (_, request) = state.perform_key_action(KeyAction::Quit, None);
    assert!(matches!(request, Request::Quit));
    let (_, request) = state.perform_key_action(KeyAction::ResolutionUp, Some((1280, 720)));
    assert!(matches!(request, Request::Resize { .. }));
    let (_, request) = state.perform_key_action(KeyAction::ResolutionUp, None);
    assert!(matches!(request, Request::Nothing));
    let (_, request) =
        state.perform_key_action(KeyAction::PluginCallback("p:x".to_string()), None);
    assert!(matches!(request, Request::Callback { id } if id == "p:x"));
    state.perform_key_action(KeyAction::SwitchWorkspace(7), None);
    assert_eq!(state.focused_workspace(), 7);
}

fn mods(alt: bool, shift: bool) -> Modifiers {
    Modifiers { alt, ctrl: false, shift, logo: false }
}

#[test]
fn bound_keys_are_kept_whole() {
    let bindings = vec![PluginKeybinding {
        keysym: 0x78,
        alt: false,
        ctrl: false,
        shift: false,
        logo: false,
        callback_id: "cb".to_string(),
    }];
    let press = filter_key(KeySource::Local, &bindings, mods(true, false), 0x6a, true);
    assert!(matches!(press, KeyFilter::Intercept(Some(KeyAction::FocusNext))));
    let release = filter_key(KeySource::Local, &bindings, mods(true, false), 0x6a, false);
    assert!(matches!(release, KeyFilter::Intercept(None)));
    let plain = filter_key(KeySource::Local, &bindings, mods(false, false), 0x6a, true);
    assert!(matches!(plain, KeyFilter::Forward));
    let plugin = filter_key(KeySource::Local, &bindings, mods(false, false), 0x78, true);
    assert!(matches!(plugin, KeyFilter::Intercept(Some(KeyAction::PluginCallback(id))) if id == "cb"));
    let remote = filter_key(KeySource::Remote, &[], mods(true, false), 0x68, true);
    assert!(matches!(remote, KeyFilter::Intercept(Some(KeyAction::MasterShrink))));
    let local = filter_key(KeySource::Local, &[], mods(true, false), 0x68, true);
    assert!(matches!(local, KeyFilter::Forward));
    let moved = filter_key(KeySource::Local, &[], mods(true, true), 0x21, true);
    assert!(matches!(moved, KeyFilter::Intercept(Some(KeyAction::MoveToWorkspace(1)))));
    assert_eq!(keysym_to_workspace(0x39), Some(9));
    assert_eq!(keysym_to_workspace(0x30), None);
}

#[test]
fn clients_are_counted() {
    let mut state = one_output();
    let came = state.client_connected(Protocol::Vnc);
    assert!(matches!(
        came[..],
        [Effect::Emit { event: IpcEvent::ClientConnected { protocol: Protocol::Vnc } }]
    ));
    assert_eq!((state.vnc_clients, state.rdp_clients), (1, 0));
    state.client_disconnected(Protocol::Vnc);
    state.client_disconnected(Protocol::Vnc);
    assert_eq!(state.vnc_clients, 0);
}

#[test]
fn title_bars_name_the_windows() {
    let mut state = one_output();
    let (a, b) = (open(&mut state), open(&mut state));
    state.set_layout("stacked");
    let seen = vec![
        SeenWindow {
            id: a.0,
            geometry: None,
            app_id: Some("foot".to_string()),
            title: Some("one".to_string()),
        },
        SeenWindow { id: b.0, geometry: None, app_id: Some("mpv".to_string()), title: None },
    ];
    let tabs = state.stacked_tabs("headless-0", &seen).unwrap();
    assert_eq!(tabs.tab_height, 24);
    assert_eq!(tabs.tabs.len(), 2);
    assert_eq!(tabs.tabs.iter().filter(|t| t.focused).count(), 1);
    state.set_layout("column");
    assert!(state.stacked_tabs("headless-0", &seen).is_none());
}

#[test]
fn layers_go_to_the_output_they_ask_for() {
    let state = two_outputs();
    assert_eq!(state.layer_output(Some("right")), Some(1));
    assert_eq!(state.layer_output(Some("nowhere")), Some(0));
    assert_eq!(state.layer_output(None), Some(0));
    assert_eq!(DinatorState::new().layer_output(None), None);
}

#[test]
fn the_keyboard_returns_when_a_layer_goes() {
    let mut state = one_output();
    let a = open(&mut state);
    let effects = state.layer_destroyed();
    assert!(matches!(effects[..], [Effect::Focus { target: Some(id) }] if id == a));
    assert!(one_output().layer_destroyed().is_empty());
}

fn monitor(primary: bool, left: i32, width: u32, height: u32) -> MonitorEntry {
    MonitorEntry { is_primary: primary, left, top: 0, width, height }
}

fn follow(state: &mut DinatorState, monitors: &[MonitorEntry]) -> Vec<Effect> {
    let mut effects = Vec::new();
    for step in state.layout_steps(monitors) {
        assert!(state.can_take(&step));
        effects.append(&mut state.take_step(&step));
    }
    effects
}

#[test]
fn outputs_follow_the_clients_monitors() {
    let mut state = two_outputs();
    let monitors = [monitor(false, 1920, 1280, 9000), monitor(true, 0, 1920, 1080)];
    let effects = follow(&mut state, &monitors);
    let names: Vec<&str> = state.outputs.iter().map(|o| o.name.as_str()).collect();
    assert_eq!(names, vec!["headless-0", "rdp-1"]);
    assert_eq!(state.outputs[0].geometry, Rect { x: 0, y: 0, width: 1920, height: 1080 });
    assert_eq!(state.outputs[1].geometry, Rect { x: 1920, y: 0, width: 1280, height: 8192 });
    let text = shows(&effects);
    assert!(text[0].contains("OutputRemoved") && text[0].contains("right"));
    assert!(text.iter().any(|e| e.contains("Retile") && e.contains("headless-0")));
    assert!(text.last().unwrap().contains("OutputCreated"));
}

#[test]
fn no_monitors_change_nothing() {
    let mut state = two_outputs();
    assert!(follow(&mut state, &[]).is_empty());
    assert_eq!(state.outputs.len(), 2);
}

#[test]
fn a_layout_that_stands_is_left_alone() {
    let mut state = one_output();
    let effects = follow(&mut state, &[monitor(true, 0, 1000, 600)]);
    assert!(effects.is_empty());
    assert_eq!(state.outputs[0].geometry, area(0));
}

#[test]
fn the_last_output_is_never_removed() {
    let mut state = one_output();
    let step = LayoutStep::Remove { name: "headless-0".to_string() };
    assert!(state.take_step(&step).is_empty());
    assert_eq!(state.outputs.len(), 1);
}

#[test]
fn steps_that_cannot_be_written_down_are_known() {
    let state = one_output();
    let far = LayoutStep::Create {
        name: "far".to_string(),
        x: i32::MAX,
        y: 0,
        width: 10,
        height: 10,
    };
    assert!(!state.can_take(&far));
}

fn x11(number: u64, override_redirect: bool, has_surface: bool) -> X11Window {
    X11Window {
        number,
        override_redirect,
        has_surface,
        geometry: Rect { x: 5, y: 6, width: 70, height: 80 },
        class: "xterm".to_string(),
        title: String::new(),
    }
}

#[test]
fn x11_windows_wait_for_their_surface() {
    let mut state = one_output();
    let mut windows = X11Windows::new();
    assert!(windows.map_window_notify(&mut state, &x11(9, false, false)).is_empty());
    assert_eq!(windows.pending, vec![9]);
    let effects = windows.surface_associated(&mut state, &x11(9, false, true));
    assert!(windows.pending.is_empty());
    let id = windows.ids[&9];
    assert_eq!(state.ws_window_list(1), &[id]);
    assert!(state.windows[&id.0].x11);
    assert!(shows(&effects).iter().any(|e| e.contains("WindowOpened") && e.contains("xterm")));
    windows.unmapped_window(&mut state, &x11(9, false, true));
    assert!(state.ws_window_list(1).is_empty());
    assert!(windows.ids.is_empty());
}

#[test]
fn the_configuration_is_applied() {
    let mut state = one_output();
    let mut config = desktopinator::config::Config::default();
    config.gap = Some(7);
    config.layout = Some("dwindle".to_string());
    config.background = Some("#010203".to_string());
    let effects = state.apply_config(&config, &"headless-0".to_string());
    assert_eq!(effects.len(), 2);
    assert_eq!(state.layout_name(), "dwindle");
    assert_eq!(state.outputs[0].layout.gap(), 7);
    assert!(matches!(
        state.background_for_output("headless-0"),
        Background::Solid(Color::Hex(1, 2, 3))
    ));
}
