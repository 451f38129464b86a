use desktopinator::compositor::event::{PluginAction, PluginEvent};
use desktopinator::plugins::lua::{api_functions, LoadError, LuaRuntime};
use desktopinator::plugins::manifest::parse_lua_manifest;
use desktopinator::tiling::{Rect, WindowId};

#[test]
fn test_grid_layout_plugin() {
    let source = r#"
--[[ [manifest]
id = "test-grid"
name = "Test Grid Layout"
version = "0.1.0"
]]

desktopinator.register_layout("grid", function(windows, area)
    local n = #windows
    if n == 0 then return {} end

    local cols = math.ceil(math.sqrt(n))
    local rows = math.ceil(n / cols)
    local cell_w = math.floor(area.width / cols)
    local cell_h = math.floor(area.height / rows)

    local placements = {}
    for i, id in ipairs(windows) do
        local col = (i - 1) % cols
        local row = math.floor((i - 1) / cols)
        placements[i] = {
            id = id,
            x = area.x + col * cell_w,
            y = area.y + row * cell_h,
            width = cell_w,
            height = cell_h,
        }
    end
    return placements
end)
"#;

    let mut runtime = LuaRuntime::new();
    runtime.load_plugin_source("test-grid", source).unwrap();

    assert_eq!(runtime.layout_names(), vec!["grid"]);

    let layout = runtime.create_layout("grid").unwrap();
    assert_eq!(layout.name(), "grid");

    // 4 windows should produce 2x2 grid
    let area = Rect { x: 0, y: 0, width: 1000, height: 1000 };
    let windows = vec![WindowId(1), WindowId(2), WindowId(3), WindowId(4)];
    let placements = layout.arrange(&mut runtime, &windows, area);

    assert_eq!(placements.len(), 4);
    assert_eq!(placements[0].rect, Rect { x: 0, y: 0, width: 500, height: 500 });
    assert_eq!(placements[1].rect, Rect { x: 500, y: 0, width: 500, height: 500 });
    assert_eq!(placements[2].rect, Rect { x: 0, y: 500, width: 500, height: 500 });
    assert_eq!(placements[3].rect, Rect { x: 500, y: 500, width: 500, height: 500 });
}

#[test]
fn test_event_handler() {
    let source = r#"
--[[ [manifest]
id = "test-events"
name = "Test Events"
version = "0.1.0"
]]

last_event = nil

desktopinator.on("window_opened", function(e)
    last_event = e.app_id
end)
"#;

    let mut runtime = LuaRuntime::new();
    runtime.load_plugin_source("test-events", source).unwrap();

    runtime.on_event(&PluginEvent::WindowOpened {
        id: 1,
        app_id: Some("foot".to_string()),
        title: Some("Terminal".to_string()),
    });

    // Verify the handler ran by checking the global
    let val: String = runtime.machines[0].globals().get("last_event").unwrap();
    assert_eq!(val, "foot");
}

#[test]
fn test_single_window_grid() {
    let source = r#"
--[[ [manifest]
id = "test-grid-single"
name = "Grid Single"
version = "0.1.0"
]]

desktopinator.register_layout("grid", function(windows, area)
    local n = #windows
    if n == 0 then return {} end
    local cols = math.ceil(math.sqrt(n))
    local rows = math.ceil(n / cols)
    local cell_w = math.floor(area.width / cols)
    local cell_h = math.floor(area.height / rows)
    local placements = {}
    for i, id in ipairs(windows) do
        local col = (i - 1) % cols
        local row = math.floor((i - 1) / cols)
        placements[i] = {
            id = id, x = area.x + col * cell_w, y = area.y + row * cell_h,
            width = cell_w, height = cell_h,
        }
    end
    return placements
end)
"#;

    let mut runtime = LuaRuntime::new();
    runtime.load_plugin_source("test", source).unwrap();
    let layout = runtime.create_layout("grid").unwrap();

    let area = Rect { x: 0, y: 0, width: 1920, height: 1080 };
    let placements = layout.arrange(&mut runtime, &[WindowId(1)], area);

    assert_eq!(placements.len(), 1);
    assert_eq!(placements[0].rect, area);
}

#[test]
fn test_plugin_actions() {
    let source = r#"
--[[ [manifest]
id = "test-actions"
name = "Test Actions"
version = "0.1.0"
]]

desktopinator.on("window_opened", function(e)
    desktopinator.spawn("echo", {"hello"})
    desktopinator.set_layout("grid")
    desktopinator.focus_next()
end)
"#;

    let mut runtime = LuaRuntime::new();
    runtime.load_plugin_source("test-actions", source).unwrap();

    // No actions yet
    assert!(runtime.drain_actions().is_empty());

    // Trigger event that queues actions
    runtime.on_event(&PluginEvent::WindowOpened {
        id: 1,
        app_id: Some("test".to_string()),
        title: None,
    });

    let actions = runtime.drain_actions();
    assert_eq!(actions.len(), 3);
    assert!(matches!(&actions[0], PluginAction::Spawn { cmd, .. } if cmd == "echo"));
    assert!(matches!(&actions[1], PluginAction::SetLayout { name } if name == "grid"));
    assert!(matches!(&actions[2], PluginAction::FocusNext));

    // Queue should be empty after drain
    assert!(runtime.drain_actions().is_empty());
}

#[test]
fn test_window_rules() {
    let source = r#"
--[[ [manifest]
id = "test-rules"
name = "Test Rules"
version = "0.1.0"
]]

desktopinator.window_rule({ app_id = "mpv", float = true })
desktopinator.window_rule({ title = "Settings", fullscreen = true })
"#;

    let mut runtime = LuaRuntime::new();
    runtime.load_plugin_source("test-rules", source).unwrap();

    let rules = runtime.drain_window_rules();
    assert_eq!(rules.len(), 2);
    assert_eq!(rules[0].app_id.as_deref(), Some("mpv"));
    assert!(rules[0].float);
    assert!(!rules[0].fullscreen);
    assert_eq!(rules[1].title.as_deref(), Some("Settings"));
    assert!(!rules[1].float);
    assert!(rules[1].fullscreen);
}

fn loaded(body: &str) -> LuaRuntime {
    let source = format!("--[[ [manifest]\nid = \"p\"\nname = \"P\"\nversion = \"1\"\n]]\n{body}");
    let mut runtime = LuaRuntime::new();
    runtime.load_plugin_source("p", &source).unwrap();
    runtime
}

#[test]
fn manifest_needs_a_header_and_three_texts() {
    assert!(parse_lua_manifest("print(1)").is_none());
    assert!(parse_lua_manifest("--[[ [manifest]\nid = \"a\"\n]]").is_none());
    assert!(parse_lua_manifest("--[[ [manifest]\nnot toml at all\n]]").is_none());
    assert!(parse_lua_manifest("--[[ [manifest]\nid=\"a\"\nname=\"b\"\nversion=1\n]]").is_none());
    assert!(parse_lua_manifest("--[[ [manifest]\nid=\"a\"\nname=\"b\"\nversion=\"c\"\n").is_none());
    let m = parse_lua_manifest(
        "--[[ [manifest]\nid=\"a\"\nname=\"b\"\nversion=\"c\"\nhooks=[\"x\",\"y\"]\nother=3\n]] rest",
    )
    .unwrap();
    assert_eq!((m.id.as_str(), m.name.as_str(), m.version.as_str()), ("a", "b", "c"));
    assert!(m.capabilities.is_empty());
    assert_eq!(m.hooks, vec!["x", "y"]);
}

#[test]
fn manifest_lists_hold_texts_only() {
    let source = "--[[ [manifest]\nid=\"a\"\nname=\"b\"\nversion=\"c\"\nhooks=[1]\n]]";
    assert!(parse_lua_manifest(source).is_none());
}

#[test]
fn plugins_without_a_manifest_are_refused() {
    let mut runtime = LuaRuntime::new();
    match runtime.load_plugin_source("bare", "x = 1") {
        Err(LoadError::NoManifest(message)) => {
            assert_eq!(message, "plugin 'bare' has no manifest header");
        }
        other => panic!("{other:?}"),
    }
    assert!(runtime.plugins.plugins.is_empty());
}

#[test]
fn plugins_that_fail_are_not_kept() {
    let mut runtime = LuaRuntime::new();
    let source = "--[[ [manifest]\nid=\"a\"\nname=\"b\"\nversion=\"c\"\n]]\nerror('no')";
    match runtime.load_plugin_source("a", source) {
        Err(LoadError::Script(message)) => assert!(message.contains("no")),
        other => panic!("{other:?}"),
    }
    assert!(runtime.plugin_info().is_empty());
}

#[test]
fn plugins_cannot_reach_files_or_the_system() {
    let runtime = loaded("has_io = io ~= nil\nhas_os = os ~= nil\nhas_math = math ~= nil");
    let globals = runtime.machines[0].globals();
    assert!(!globals.get::<bool>("has_io").unwrap());
    assert!(!globals.get::<bool>("has_os").unwrap());
    assert!(globals.get::<bool>("has_math").unwrap());
}

#[test]
fn bindings_get_an_id_and_can_be_invoked() {
    let mut runtime = loaded(
        "desktopinator.bind({\"alt\", \"shift\"}, \"x\", function() desktopinator.close_window() end)",
    );
    let requests = runtime.drain_keybinding_requests();
    assert_eq!(requests.len(), 1);
    assert_eq!(requests[0].modifiers, vec!["alt", "shift"]);
    assert_eq!(requests[0].key, "x");
    assert_eq!(requests[0].callback_id, "p:alt+shift+x");
    assert!(runtime.drain_keybinding_requests().is_empty());
    assert!(runtime.invoke_callback("p:alt+shift+x").is_none());
    assert!(matches!(runtime.drain_actions()[..], [PluginAction::CloseWindow]));
    assert!(runtime.invoke_callback("p:alt+y").is_none());
    assert!(runtime.drain_actions().is_empty());
}

#[test]
fn every_plain_action_is_queued() {
    let mut runtime = loaded(
        "desktopinator.focus_next() desktopinator.focus_prev() desktopinator.close_window() \
         desktopinator.swap_master() desktopinator.toggle_float() desktopinator.toggle_fullscreen()",
    );
    assert!(matches!(
        runtime.drain_actions()[..],
        [
            PluginAction::FocusNext,
            PluginAction::FocusPrev,
            PluginAction::CloseWindow,
            PluginAction::SwapMaster,
            PluginAction::ToggleFloat,
            PluginAction::ToggleFullscreen
        ]
    ));
}

#[test]
fn spawn_takes_an_optional_list() {
    let mut runtime = loaded("desktopinator.spawn(\"a\") desktopinator.spawn(\"b\", {\"c\", \"d\"})");
    match &runtime.drain_actions()[..] {
        [PluginAction::Spawn { cmd: a, args: none }, PluginAction::Spawn { cmd: b, args }] => {
            assert_eq!((a.as_str(), b.as_str()), ("a", "b"));
            assert!(none.is_empty());
            assert_eq!(args, &["c", "d"]);
        }
        other => panic!("{other:?}"),
    }
}

#[test]
fn logged_messages_are_kept() {
    let runtime = loaded("desktopinator.log(\"hello\")");
    assert_eq!(runtime.plugins.plugins[0].messages, vec!["hello"]);
}

#[test]
fn handlers_get_the_fields_of_each_event() {
    let mut runtime = loaded(
        "for _, n in ipairs({\"window_closed\", \"window_focused\", \"layout_changed\", \
         \"workspace_changed\", \"window_moved_workspace\"}) do \
         desktopinator.on(n, function(e) \
         desktopinator.log(n .. tostring(e.id) .. tostring(e.name) .. tostring(e.workspace)) end) end",
    );
    runtime.on_event(&PluginEvent::WindowClosed { id: 7 });
    runtime.on_event(&PluginEvent::WindowFocused { id: 8 });
    runtime.on_event(&PluginEvent::LayoutChanged { name: "grid".to_string() });
    runtime.on_event(&PluginEvent::WorkspaceChanged { workspace: 3 });
    runtime.on_event(&PluginEvent::WindowMovedWorkspace { id: 9, workspace: 4 });
    assert_eq!(
        runtime.plugins.plugins[0].messages,
        vec![
            "window_closed7nilnil",
            "window_focused8nilnil",
            "layout_changednilgridnil",
            "workspace_changednilnil3",
            "window_moved_workspace9nil4",
        ]
    );
}

#[test]
fn only_the_first_handler_is_called_and_errors_are_told() {
    let mut runtime = loaded(
        "desktopinator.on(\"window_closed\", function() error(\"first\") end) \
         desktopinator.on(\"window_closed\", function() desktopinator.focus_next() end)",
    );
    let errors = runtime.on_event(&PluginEvent::WindowClosed { id: 1 });
    assert_eq!(errors.len(), 1);
    assert!(errors[0].contains("first"));
    assert!(runtime.drain_actions().is_empty());
}

#[test]
fn layouts_that_fail_place_nothing() {
    let mut runtime = loaded(
        "desktopinator.register_layout(\"bad\", function() error(\"x\") end) \
         desktopinator.register_layout(\"short\", function(w) return {{ id = w[1], x = 1 }} end)",
    );
    let area = Rect { x: 0, y: 0, width: 10, height: 10 };
    let windows = [WindowId(5), WindowId(6)];
    let bad = runtime.create_layout("bad").unwrap();
    assert!(bad.arrange(&mut runtime, &windows, area).is_empty());
    let short = runtime.create_layout("short").unwrap();
    let placed = short.arrange(&mut runtime, &windows, area);
    assert_eq!(placed.len(), 1);
    assert_eq!(placed[0].id, WindowId(5));
    assert_eq!(placed[0].rect, Rect { x: 1, y: 0, width: 0, height: 0 });
    assert!(runtime.create_layout("none").is_none());
}

#[test]
fn a_layout_registered_again_is_the_last_one() {
    let mut runtime = loaded(
        "desktopinator.register_layout(\"a\", function() return {{ x = 1 }} end) \
         desktopinator.register_layout(\"a\", function() return {{ x = 2 }} end)",
    );
    assert_eq!(runtime.layout_names(), vec!["a"]);
    let layout = runtime.create_layout("a").unwrap();
    let area = Rect { x: 0, y: 0, width: 10, height: 10 };
    assert_eq!(layout.arrange(&mut runtime, &[WindowId(1)], area)[0].rect.x, 2);
}

#[test]
fn plugins_tell_of_themselves() {
    let mut runtime = LuaRuntime::new();
    let source = "--[[ [manifest]\nid=\"a\"\nname=\"b\"\nversion=\"c\"\n]]\n\
                  desktopinator.register_layout(\"x\", function() end)";
    runtime.load_plugin_file("/plugins/a.lua", source).unwrap();
    runtime.load_plugin_source("a", source).unwrap();
    let info = runtime.plugin_info();
    assert_eq!(info.len(), 2);
    assert_eq!(info[0].source, "/plugins/a.lua");
    assert_eq!(info[1].source, "builtin");
    assert_eq!(info[0].layouts, vec!["x"]);
    assert_eq!((info[0].id.as_str(), info[0].name.as_str(), info[0].version.as_str()), ("a", "b", "c"));
    runtime.clear();
    assert!(runtime.layout_names().is_empty());
}

#[test]
fn plugins_find_every_function_of_the_api() {
    let runtime = loaded("count = 0 for _ in pairs(desktopinator) do count = count + 1 end");
    let globals = runtime.machines[0].globals();
    assert_eq!(globals.get::<usize>("count").unwrap(), api_functions().len());
    let api: mlua::Table = globals.get("desktopinator").unwrap();
    for (name, _) in api_functions() {
        assert!(api.get::<mlua::Function>(name).is_ok(), "{name}");
    }
}

#[test]
fn plugins_have_the_safe_libraries_only() {
    let runtime = loaded(
        "names = '' for _, n in ipairs({'table', 'string', 'math', 'utf8', 'io', 'os', 'package', \
         'debug', 'coroutine'}) do if _G[n] then names = names .. n .. ' ' end end",
    );
    let names: String = runtime.machines[0].globals().get("names").unwrap();
    assert_eq!(names, "table string math utf8 ");
}

#[test]
fn plugins_have_a_limit_of_memory() {
    let mut runtime = LuaRuntime::new();
    let header = "--[[ [manifest]\nid=\"a\"\nname=\"b\"\nversion=\"c\"\n]]\n";
    let small = format!("{header}local s = string.rep('x', 16 * 1024 * 1024)");
    assert!(runtime.load_plugin_source("a", &small).is_ok());
    let large = format!("{header}local s = string.rep('x', 128 * 1024 * 1024)");
    assert!(matches!(runtime.load_plugin_source("a", &large), Err(LoadError::Script(_))));
    assert_eq!(runtime.plugin_info().len(), 1);
}

#[test]
fn handlers_that_fail_are_told_in_order() {
    let mut runtime = loaded("desktopinator.on('window_closed', function(e) error('first') end)");
    let header = "--[[ [manifest]\nid=\"d\"\nname=\"b\"\nversion=\"c\"\n]]\n";
    for body in [
        "desktopinator.on('window_closed', function(e) end)",
        "desktopinator.on('window_closed', function(e) error('third ' .. e.id) end)",
    ] {
        runtime.load_plugin_source("d", &format!("{header}{body}")).unwrap();
    }
    let errors = runtime.on_event(&PluginEvent::WindowClosed { id: 5 });
    assert_eq!(errors.len(), 2);
    assert!(errors[0].contains("first"));
    assert!(errors[1].contains("third 5"));
}

#[test]
fn rules_are_read_key_by_key() {
    let body = "desktopinator.window_rule({ app_id = \"a\", title = \"t\", float = true, \
                fullscreen = true, other = 1 })\n\
                desktopinator.window_rule({})\n\
                desktopinator.window_rule({ title = \"only\", float = false })";
    let rules = loaded(body).drain_window_rules();
    assert_eq!(rules.len(), 3);
    assert_eq!((rules[0].app_id.as_deref(), rules[0].title.as_deref()), (Some("a"), Some("t")));
    assert!(rules[0].float && rules[0].fullscreen);
    assert_eq!((rules[1].app_id.as_deref(), rules[1].title.as_deref()), (None, None));
    assert!(!rules[1].float && !rules[1].fullscreen);
    assert_eq!((rules[2].app_id.as_deref(), rules[2].title.as_deref()), (None, Some("only")));
    assert!(!rules[2].float);
}

#[test]
fn what_a_plugin_calls_is_taken_after_it_ran() {
    let body = "desktopinator.on(\"window_opened\", function(e) \
                    desktopinator.focus_next() \
                    desktopinator.log(\"heard \" .. e.id) \
                end)\n\
                desktopinator.bind({}, \"x\", function() desktopinator.swap_master() end)\n\
                desktopinator.register_layout(\"odd\", function(windows, area) \
                    return setmetatable({}, { __index = function(_, i) \
                        desktopinator.log(\"asked \" .. i) \
                        return nil \
                    end }) \
                end)";
    let mut runtime = loaded(body);
    assert_eq!(runtime.layout_names(), vec!["odd"]);
    let event = PluginEvent::WindowOpened { id: 4, app_id: None, title: None };
    assert!(runtime.on_event(&event).is_empty());
    assert_eq!(runtime.drain_actions().len(), 1);
    let requests = runtime.drain_keybinding_requests();
    assert!(runtime.invoke_callback(&requests[0].callback_id).is_none());
    assert!(matches!(runtime.drain_actions()[..], [PluginAction::SwapMaster]));
    let layout = runtime.create_layout("odd").unwrap();
    let area = Rect { x: 0, y: 0, width: 1, height: 1 };
    assert!(layout.arrange(&mut runtime, &[WindowId(4)], area).is_empty());
    // Reading what the layout gave ran its code once more.
    assert_eq!(runtime.plugins.plugins[0].messages, vec!["heard 4", "asked 1"]);
}

#[test]
fn plugins_have_machines_of_their_own() {
    let mut runtime = loaded("desktopinator.on(\"window_closed\", function() shared = 1 end)");
    let other = "--[[ [manifest]\nid = \"q\"\nname = \"Q\"\nversion = \"1\"\n]]\n\
                 desktopinator.on(\"window_closed\", function() \
                     desktopinator.log(tostring(shared)) \
                 end)";
    runtime.load_plugin_source("q", other).unwrap();
    assert!(runtime.on_event(&PluginEvent::WindowClosed { id: 1 }).is_empty());
    assert!(runtime.plugins.plugins[0].messages.is_empty());
    assert_eq!(runtime.plugins.plugins[1].messages, vec!["nil"]);
}
