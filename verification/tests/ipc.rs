use desktopinator::compositor::actions::Request;
use desktopinator::compositor::event::{Effect, IpcEvent};
use desktopinator::compositor::state::DinatorState;
use desktopinator::ipc::command::{socket_path, IpcCommand};
use desktopinator::ipc::handle::{
    client_step, invalid_command, no_response, reload_failure, spawn_answer, subscribed, Answer,
    ClientStep, Handled, IpcData, IpcResponse,
};
use desktopinator::ipc::parse::{parse_command, parse_resolution, CommandError, Usage};
use desktopinator::tiling::Rect;

fn words(line: &str) -> Vec<String> {
    line.split_whitespace().map(str::to_string).collect()
}

fn parse(line: &str) -> Result<IpcCommand, CommandError> {
    parse_command(&words(line))
}

fn refusal(line: &str) -> String {
    parse(line).unwrap_err().message()
}

#[test]
fn commands_have_several_spellings() {
    for line in ["focus-next", "focus_next"] {
        assert!(matches!(parse(line), Ok(IpcCommand::FocusNext)));
    }
    for line in ["workspace 3", "switch-workspace 3", "switch_workspace 3"] {
        assert!(matches!(parse(line), Ok(IpcCommand::SwitchWorkspace { workspace: 3 })));
    }
    for line in ["background x", "bg x", "set-background x"] {
        assert!(matches!(parse(line), Ok(IpcCommand::SetBackground { spec }) if spec == "x"));
    }
}

#[test]
fn commands_take_their_arguments() {
    assert!(matches!(
        parse("resize 1920x1080"),
        Ok(IpcCommand::Resize { width: 1920, height: 1080 })
    ));
    assert!(matches!(parse("gap -3"), Ok(IpcCommand::SetGap { pixels: -3 })));
    match parse("spawn foot -e sh") {
        Ok(IpcCommand::Spawn { cmd, args }) => {
            assert_eq!(cmd, "foot");
            assert_eq!(args, vec!["-e", "sh"]);
        }
        other => panic!("{other:?}"),
    }
    match parse("output create left 800x600") {
        Ok(IpcCommand::CreateOutput { name, width, height }) => {
            assert_eq!((name.as_str(), width, height), ("left", 800, 600));
        }
        other => panic!("{other:?}"),
    }
    assert!(matches!(parse("output list"), Ok(IpcCommand::ListOutputs)));
    assert!(matches!(parse("output focus a"), Ok(IpcCommand::FocusOutput { name }) if name == "a"));
    assert!(matches!(parse("output remove a"), Ok(IpcCommand::RemoveOutput { name }) if name == "a"));
    assert!(matches!(
        parse("output move-to a"),
        Ok(IpcCommand::MoveWindowToOutput { name }) if name == "a"
    ));
}

#[test]
fn wrong_commands_are_explained() {
    assert_eq!(refusal("resize"), "usage: dinatorctl resize WIDTHxHEIGHT");
    assert_eq!(refusal("resize 12"), "resolution must be WIDTHxHEIGHT (e.g. 1920x1080)");
    assert_eq!(refusal("resize ax1"), "invalid width");
    assert_eq!(refusal("resize 1x70000"), "invalid height");
    assert_eq!(refusal("workspace x"), "invalid workspace number");
    assert_eq!(refusal("gap x"), "invalid gap size");
    assert_eq!(
        refusal("dance"),
        "unknown command: dance\n\nRun 'dinatorctl' with no args for usage."
    );
    assert_eq!(
        refusal("output dance"),
        "unknown output subcommand: dance\n\nSubcommands: create, remove, list, focus, move-to"
    );
    assert!(matches!(parse("spawn"), Err(CommandError::Usage(Usage::Spawn))));
    assert!(matches!(parse("layout"), Err(CommandError::Usage(Usage::Layout))));
    assert!(matches!(parse("output"), Err(CommandError::Usage(Usage::Output))));
    assert!(matches!(parse("output create a"), Err(CommandError::Usage(Usage::OutputCreate))));
    assert!(matches!(parse_resolution("1x2x3"), Err(CommandError::Resolution)));
    assert!(matches!(parse_resolution("+1x2"), Ok((1, 2))));
}

#[test]
fn the_socket_lies_in_the_runtime_directory() {
    assert_eq!(socket_path(Some("/run/user/1")), "/run/user/1/desktopinator.sock");
    assert_eq!(socket_path(None), "/tmp/desktopinator.sock");
}

fn state() -> DinatorState {
    let mut state = DinatorState::new();
    state.register_output("main".to_string(), Rect { x: 0, y: 0, width: 1000, height: 600 });
    state
}

fn run(state: &mut DinatorState, command: IpcCommand) -> Handled {
    state.handle_ipc_command(&command, &[], 0)
}

fn says(handled: &Handled) -> String {
    match &handled.answer {
        Answer::Now(IpcResponse::Success { message: Some(m) }) => m.clone(),
        other => panic!("{other:?}"),
    }
}

fn refuses(handled: &Handled) -> String {
    assert!(handled.effects.is_empty());
    match &handled.answer {
        Answer::Now(IpcResponse::Error { message }) => message.clone(),
        other => panic!("{other:?}"),
    }
}

#[test]
fn resizing_is_asked_for() {
    let mut s = state();
    let handled = run(&mut s, IpcCommand::Resize { width: 640, height: 480 });
    assert_eq!(says(&handled), "resizing to 640x480");
    assert!(matches!(handled.request, Request::Resize { width: 640, height: 480 }));
}

#[test]
fn outputs_come_and_go() {
    let mut s = state();
    let create = || IpcCommand::CreateOutput { name: "b".to_string(), width: 800, height: 600 };
    let handled = run(&mut s, create());
    assert_eq!(says(&handled), "created output 'b' (800x600)");
    assert_eq!(s.outputs[1].geometry, Rect { x: 1000, y: 0, width: 800, height: 600 });
    assert!(matches!(
        &handled.effects[..],
        [Effect::Emit { event: IpcEvent::OutputCreated { name, .. } }] if name == "b"
    ));
    assert_eq!(refuses(&run(&mut s, create())), "output 'b' already exists");
    let handled = run(&mut s, IpcCommand::RemoveOutput { name: "main".to_string() });
    assert_eq!(says(&handled), "removed output 'main'");
    let last = run(&mut s, IpcCommand::RemoveOutput { name: "b".to_string() });
    assert_eq!(refuses(&last), "cannot remove the last output");
    let none = run(&mut s, IpcCommand::RemoveOutput { name: "x".to_string() });
    assert_eq!(refuses(&none), "output 'x' not found");
    assert_eq!(s.outputs.len(), 1);
}

#[test]
fn workspaces_are_checked() {
    let mut s = state();
    let handled = run(&mut s, IpcCommand::SwitchWorkspace { workspace: 12 });
    assert_eq!(refuses(&handled), "invalid workspace: 12 (must be 1-9)");
    run(&mut s, IpcCommand::SwitchWorkspace { workspace: 2 });
    assert_eq!(s.focused_workspace(), 2);
    let handled = run(&mut s, IpcCommand::ListWorkspaces);
    match handled.answer {
        Answer::Now(IpcResponse::Data { data: IpcData::Workspaces(rows) }) => {
            assert!(rows.iter().any(|r| r.workspace == 2 && r.active));
        }
        other => panic!("{other:?}"),
    }
}

#[test]
fn windows_are_listed_in_order() {
    let mut s = state();
    let (a, _) = s.new_toplevel(None, None);
    let (b, _) = s.new_toplevel(None, None);
    s.toggle_float();
    match run(&mut s, IpcCommand::ListWindows).answer {
        Answer::Now(IpcResponse::Data { data: IpcData::Windows(rows) }) => {
            assert_eq!(rows.iter().map(|r| r.id).collect::<Vec<u64>>(), vec![a.0, b.0]);
            assert!(!rows[0].floating && rows[1].floating);
        }
        other => panic!("{other:?}"),
    }
}

#[test]
fn the_master_ratio_ends_somewhere() {
    let mut s = state();
    for _ in 0..20 {
        run(&mut s, IpcCommand::MasterGrow);
    }
    assert_eq!(says(&run(&mut s, IpcCommand::MasterGrow)), "master ratio at maximum");
    assert!(matches!(run(&mut s, IpcCommand::MasterShrink).answer, Answer::Percent(_)));
    run(&mut s, IpcCommand::SetLayout { name: "monocle".to_string() });
    assert_eq!(says(&run(&mut s, IpcCommand::MasterGrow)), "master ratio at maximum");
}

#[test]
fn unknown_layouts_are_refused() {
    let mut s = state();
    let handled = run(&mut s, IpcCommand::SetLayout { name: "spiral".to_string() });
    assert!(refuses(&handled).contains("spiral"));
    match run(&mut s, IpcCommand::ListLayouts).answer {
        Answer::Now(IpcResponse::Data { data: IpcData::Layouts(rows) }) => {
            assert_eq!(rows.iter().filter(|r| r.active).count(), 1);
        }
        other => panic!("{other:?}"),
    }
}

#[test]
fn the_status_counts() {
    let mut s = state();
    s.rdp_clients = 2;
    match s.handle_ipc_command(&IpcCommand::Status, &[], 5).answer {
        Answer::Now(IpcResponse::Data { data: IpcData::Status(status) }) => {
            assert_eq!((status.rdp_clients, status.windows, status.outputs), (2, 5, 1));
            assert_eq!(status.focused_output, "main");
        }
        other => panic!("{other:?}"),
    }
}

#[test]
fn programs_and_plugins_are_answered_later() {
    let mut s = state();
    let spawn = IpcCommand::Spawn { cmd: "foot".to_string(), args: vec![] };
    assert!(matches!(run(&mut s, spawn).answer, Answer::AfterSpawn { cmd, .. } if cmd == "foot"));
    assert!(matches!(run(&mut s, IpcCommand::ReloadPlugins).answer, Answer::AfterReload));
    assert!(matches!(run(&mut s, IpcCommand::Quit).request, Request::Quit));
    assert!(matches!(
        spawn_answer("foot", Some("missing")),
        IpcResponse::Error { message } if message == "failed to spawn foot: missing"
    ));
    assert!(matches!(
        spawn_answer("foot", None),
        IpcResponse::Success { message: Some(m) } if m == "spawned foot"
    ));
    assert!(matches!(
        reload_failure(None),
        IpcResponse::Error { message } if message == "no plugin runtime configured"
    ));
    let (_, response) = s.plugins_reloaded(3, vec!["grid".to_string()]);
    assert!(matches!(
        response,
        IpcResponse::Success { message: Some(m) } if m == "reloaded 3 plugins"
    ));
    assert_eq!(s.plugin_layouts, vec!["grid"]);
}

#[test]
fn connections_decide_line_by_line() {
    assert_eq!(client_step("  ", None), ClientStep::Skip);
    assert_eq!(client_step("x", None), ClientStep::Refuse);
    assert_eq!(client_step("x", Some(&IpcCommand::Subscribe)), ClientStep::Subscribe);
    assert_eq!(client_step("x", Some(&IpcCommand::Quit)), ClientStep::Forward);
    assert!(matches!(
        invalid_command("bad"),
        IpcResponse::Error { message } if message == "invalid command: bad"
    ));
    assert!(matches!(subscribed(), IpcResponse::Success { message: Some(m) } if m == "subscribed"));
    assert!(matches!(
        no_response(),
        IpcResponse::Error { message } if message == "compositor did not respond"
    ));
}
