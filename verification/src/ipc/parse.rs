//! Commands on the command line of the control program.

use crate::ipc::command::IpcCommand;
use crate::text::{parse_signed, parse_unsigned, same, signed_value, split, split_on, unsigned_value};
use vstd::prelude::*;
use vstd::string::*;

verus! {

/// Which command was used wrongly.
#[derive(Debug, Clone, Copy, PartialEq, Eq, Structural)]
pub enum Usage {
    Resize,
    Spawn,
    Layout,
    Workspace,
    MoveToWorkspace,
    Gap,
    Background,
    Output,
    OutputCreate,
    OutputRemove,
    OutputFocus,
    OutputMoveTo,
}

/// Why a command line was refused.
#[derive(Debug)]
pub enum CommandError {
    /// The number of arguments is wrong.
    Usage(Usage),
    /// A resolution is not of the form WIDTHxHEIGHT.
    Resolution,
    Width,
    Height,
    Workspace,
    Gap,
    UnknownCommand(String),
    UnknownSubcommand(String),
}

/// One of the two spellings.
pub open spec fn either(word: Seq<char>, a: Seq<char>, b: Seq<char>) -> bool {
    word == a || word == b
}

/// One of the three spellings.
pub open spec fn any_of(word: Seq<char>, a: Seq<char>, b: Seq<char>, c: Seq<char>) -> bool {
    word == a || word == b || word == c
}

/// The resolution that a text stands for.
pub open spec fn resolution(text: Seq<char>) -> Result<(u16, u16), CommandError> {
    let parts = split_on(text, 'x');
    if parts.len() != 2 {
        Err(CommandError::Resolution)
    } else {
        match unsigned_value(parts[0], u16::MAX as nat) {
            None => Err(CommandError::Width),
            Some(w) => match unsigned_value(parts[1], u16::MAX as nat) {
                None => Err(CommandError::Height),
                Some(h) => Ok((w as u16, h as u16)),
            },
        }
    }
}

/// A command without arguments of its own. What stands behind it does not count.
pub open spec fn plain_command(word: Seq<char>) -> Option<IpcCommand> {
    if either(word, "focus-next"@, "focus_next"@) {
        Some(IpcCommand::FocusNext)
    } else if either(word, "focus-prev"@, "focus_prev"@) {
        Some(IpcCommand::FocusPrev)
    } else if word == "close"@ {
        Some(IpcCommand::Close)
    } else if either(word, "swap-master"@, "swap_master"@) {
        Some(IpcCommand::SwapMaster)
    } else if word == "quit"@ {
        Some(IpcCommand::Quit)
    } else if any_of(word, "list-windows"@, "list_windows"@, "windows"@) {
        Some(IpcCommand::ListWindows)
    } else if either(word, "master-grow"@, "master_grow"@) {
        Some(IpcCommand::MasterGrow)
    } else if either(word, "master-shrink"@, "master_shrink"@) {
        Some(IpcCommand::MasterShrink)
    } else if any_of(word, "toggle-float"@, "toggle_float"@, "float"@) {
        Some(IpcCommand::ToggleFloat)
    } else if any_of(word, "toggle-fullscreen"@, "toggle_fullscreen"@, "fullscreen"@) {
        Some(IpcCommand::ToggleFullscreen)
    } else if any_of(word, "list-layouts"@, "list_layouts"@, "layouts"@) {
        Some(IpcCommand::ListLayouts)
    } else if any_of(word, "list-plugins"@, "list_plugins"@, "plugins"@) {
        Some(IpcCommand::ListPlugins)
    } else if any_of(word, "reload-plugins"@, "reload_plugins"@, "reload"@) {
        Some(IpcCommand::ReloadPlugins)
    } else if any_of(word, "list-workspaces"@, "list_workspaces"@, "workspaces"@) {
        Some(IpcCommand::ListWorkspaces)
    } else if either(word, "subscribe"@, "events"@) {
        Some(IpcCommand::Subscribe)
    } else {
        None
    }
}

/// The command that `output` and its arguments stand for.
pub open spec fn output_command(args: Seq<String>) -> Result<IpcCommand, CommandError> {
    if args.len() < 2 {
        Err(CommandError::Usage(Usage::Output))
    } else {
        let word = args[1]@;
        if word == "create"@ {
            if args.len() != 4 {
                Err(CommandError::Usage(Usage::OutputCreate))
            } else {
                match resolution(args[3]@) {
                    Ok((width, height)) => Ok(
                        IpcCommand::CreateOutput { name: args[2], width, height },
                    ),
                    Err(e) => Err(e),
                }
            }
        } else if either(word, "remove"@, "rm"@) {
            if args.len() != 3 {
                Err(CommandError::Usage(Usage::OutputRemove))
            } else {
                Ok(IpcCommand::RemoveOutput { name: args[2] })
            }
        } else if either(word, "list"@, "ls"@) {
            Ok(IpcCommand::ListOutputs)
        } else if word == "focus"@ {
            if args.len() != 3 {
                Err(CommandError::Usage(Usage::OutputFocus))
            } else {
                Ok(IpcCommand::FocusOutput { name: args[2] })
            }
        } else if either(word, "move-to"@, "move"@) {
            if args.len() != 3 {
                Err(CommandError::Usage(Usage::OutputMoveTo))
            } else {
                Ok(IpcCommand::MoveWindowToOutput { name: args[2] })
            }
        } else {
            Err(CommandError::UnknownSubcommand(args[1]))
        }
    }
}

/// The workspace number that the one argument of a command stands for.
pub open spec fn workspace_argument(args: Seq<String>, usage: Usage) -> Result<usize, CommandError> {
    if args.len() != 2 {
        Err(CommandError::Usage(usage))
    } else {
        match unsigned_value(args[1]@, usize::MAX as nat) {
            Some(n) => Ok(n as usize),
            None => Err(CommandError::Workspace),
        }
    }
}

/// The command that a command line stands for, except `spawn`.
pub open spec fn parsed(args: Seq<String>) -> Result<IpcCommand, CommandError> {
    let word = args[0]@;
    if plain_command(word) is Some {
        Ok(plain_command(word)->0)
    } else if word == "resize"@ {
        if args.len() != 2 {
            Err(CommandError::Usage(Usage::Resize))
        } else {
            match resolution(args[1]@) {
                Ok((width, height)) => Ok(IpcCommand::Resize { width, height }),
                Err(e) => Err(e),
            }
        }
    } else if any_of(word, "layout"@, "set-layout"@, "set_layout"@) {
        if args.len() != 2 {
            Err(CommandError::Usage(Usage::Layout))
        } else {
            Ok(IpcCommand::SetLayout { name: args[1] })
        }
    } else if any_of(word, "workspace"@, "switch-workspace"@, "switch_workspace"@) {
        match workspace_argument(args, Usage::Workspace) {
            Ok(workspace) => Ok(IpcCommand::SwitchWorkspace { workspace }),
            Err(e) => Err(e),
        }
    } else if any_of(word, "move-to-workspace"@, "move_to_workspace"@, "move-workspace"@) {
        match workspace_argument(args, Usage::MoveToWorkspace) {
            Ok(workspace) => Ok(IpcCommand::MoveToWorkspace { workspace }),
            Err(e) => Err(e),
        }
    } else if any_of(word, "gap"@, "set-gap"@, "set_gap"@) {
        if args.len() != 2 {
            Err(CommandError::Usage(Usage::Gap))
        } else {
            match signed_value(args[1]@) {
                Some(pixels) => Ok(IpcCommand::SetGap { pixels: pixels as i32 }),
                None => Err(CommandError::Gap),
            }
        }
    } else if any_of(word, "background"@, "set-background"@, "set_background"@) || word == "bg"@ {
        if args.len() != 2 {
            Err(CommandError::Usage(Usage::Background))
        } else {
            Ok(IpcCommand::SetBackground { spec: args[1] })
        }
    } else if word == "output"@ {
        output_command(args)
    } else {
        Err(CommandError::UnknownCommand(args[0]))
    }
}

fn is_either(word: &str, a: &str, b: &str) -> (r: bool)
    ensures
        r == either(word@, a@, b@),
{
    same(word, a) || same(word, b)
}

fn is_any_of(word: &str, a: &str, b: &str, c: &str) -> (r: bool)
    ensures
        r == any_of(word@, a@, b@, c@),
{
    same(word, a) || same(word, b) || same(word, c)
}

/// The resolution that a text of the form WIDTHxHEIGHT stands for.
pub fn parse_resolution(text: &str) -> (r: Result<(u16, u16), CommandError>)
    ensures
        r == resolution(text@),
{
    let parts = split(text, 'x');
    if parts.len() != 2 {
        return Err(CommandError::Resolution);
    }
    match parse_unsigned(parts[0].as_str(), u16::MAX as u64) {
        None => Err(CommandError::Width),
        Some(w) => match parse_unsigned(parts[1].as_str(), u16::MAX as u64) {
            None => Err(CommandError::Height),
            Some(h) => Ok((w as u16, h as u16)),
        },
    }
}

fn parse_plain(word: &str) -> (r: Option<IpcCommand>)
    ensures
        r == plain_command(word@),
{
    if is_either(word, "focus-next", "focus_next") {
        Some(IpcCommand::FocusNext)
    } else if is_either(word, "focus-prev", "focus_prev") {
        Some(IpcCommand::FocusPrev)
    } else if same(word, "close") {
        Some(IpcCommand::Close)
    } else if is_either(word, "swap-master", "swap_master") {
        Some(IpcCommand::SwapMaster)
    } else if same(word, "quit") {
        Some(IpcCommand::Quit)
    } else if is_any_of(word, "list-windows", "list_windows", "windows") {
        Some(IpcCommand::ListWindows)
    } else if is_either(word, "master-grow", "master_grow") {
        Some(IpcCommand::MasterGrow)
    } else if is_either(word, "master-shrink", "master_shrink") {
        Some(IpcCommand::MasterShrink)
    } else if is_any_of(word, "toggle-float", "toggle_float", "float") {
        Some(IpcCommand::ToggleFloat)
    } else if is_any_of(word, "toggle-fullscreen", "toggle_fullscreen", "fullscreen") {
        Some(IpcCommand::ToggleFullscreen)
    } else if is_any_of(word, "list-layouts", "list_layouts", "layouts") {
        Some(IpcCommand::ListLayouts)
    } else if is_any_of(word, "list-plugins", "list_plugins", "plugins") {
        Some(IpcCommand::ListPlugins)
    } else if is_any_of(word, "reload-plugins", "reload_plugins", "reload") {
        Some(IpcCommand::ReloadPlugins)
    } else if is_any_of(word, "list-workspaces", "list_workspaces", "workspaces") {
        Some(IpcCommand::ListWorkspaces)
    } else if is_either(word, "subscribe", "events") {
        Some(IpcCommand::Subscribe)
    } else {
        None
    }
}

fn parse_output(args: &[String]) -> (r: Result<IpcCommand, CommandError>)
    requires
        args@.len() > 0,
    ensures
        r == output_command(args@),
{
    if args.len() < 2 {
        return Err(CommandError::Usage(Usage::Output));
    }
    let word = args[1].as_str();
    if same(word, "create") {
        if args.len() != 4 {
            return Err(CommandError::Usage(Usage::OutputCreate));
        }
        match parse_resolution(args[3].as_str()) {
            Ok((width, height)) => Ok(
                IpcCommand::CreateOutput { name: args[2].clone(), width, height },
            ),
            Err(e) => Err(e),
        }
    } else if is_either(word, "remove", "rm") {
        if args.len() != 3 {
            return Err(CommandError::Usage(Usage::OutputRemove));
        }
        Ok(IpcCommand::RemoveOutput { name: args[2].clone() })
    } else if is_either(word, "list", "ls") {
        Ok(IpcCommand::ListOutputs)
    } else if same(word, "focus") {
        if args.len() != 3 {
            return Err(CommandError::Usage(Usage::OutputFocus));
        }
        Ok(IpcCommand::FocusOutput { name: args[2].clone() })
    } else if is_either(word, "move-to", "move") {
        if args.len() != 3 {
            return Err(CommandError::Usage(Usage::OutputMoveTo));
        }
        Ok(IpcCommand::MoveWindowToOutput { name: args[2].clone() })
    } else {
        Err(CommandError::UnknownSubcommand(args[1].clone()))
    }
}

fn parse_workspace(args: &[String], usage: Usage) -> (r: Result<usize, CommandError>)
    ensures
        r == workspace_argument(args@, usage),
{
    if args.len() != 2 {
        return Err(CommandError::Usage(usage));
    }
    match parse_unsigned(args[1].as_str(), usize::MAX as u64) {
        Some(n) => Ok(n as usize),
        None => Err(CommandError::Workspace),
    }
}

/// The command that a command line stands for.
pub fn parse_command(args: &[String]) -> (r: Result<IpcCommand, CommandError>)
    requires
        args@.len() > 0,
    ensures
        if args@[0]@ == "spawn"@ {
            if args@.len() < 2 {
                r == Err::<IpcCommand, CommandError>(CommandError::Usage(Usage::Spawn))
            } else {
                r matches Ok(IpcCommand::Spawn { cmd, args: rest }) && cmd == args@[1]
                    && rest@ == args@.skip(2)
            }
        } else {
            r == parsed(args@)
        },
{
    let word = args[0].as_str();
    if same(word, "spawn") {
        if args.len() < 2 {
            return Err(CommandError::Usage(Usage::Spawn));
        }
        let mut rest: Vec<String> = Vec::new();
        let mut i: usize = 2;
        while i < args.len()
            invariant
                2 <= i <= args@.len(),
                rest@ =~= args@.subrange(2, i as int),
            decreases args@.len() - i,
        {
            rest.push(args[i].clone());
            i = i + 1;
        }
        assert(rest@ =~= args@.skip(2));
        return Ok(IpcCommand::Spawn { cmd: args[1].clone(), args: rest });
    }
    match parse_plain(word) {
        Some(command) => {
            return Ok(command);
        },
        None => {},
    }
    if same(word, "resize") {
        if args.len() != 2 {
            return Err(CommandError::Usage(Usage::Resize));
        }
        match parse_resolution(args[1].as_str()) {
            Ok((width, height)) => Ok(IpcCommand::Resize { width, height }),
            Err(e) => Err(e),
        }
    } else if is_any_of(word, "layout", "set-layout", "set_layout") {
        if args.len() != 2 {
            return Err(CommandError::Usage(Usage::Layout));
        }
        Ok(IpcCommand::SetLayout { name: args[1].clone() })
    } else if is_any_of(word, "workspace", "switch-workspace", "switch_workspace") {
        match parse_workspace(args, Usage::Workspace) {
            Ok(workspace) => Ok(IpcCommand::SwitchWorkspace { workspace }),
            Err(e) => Err(e),
        }
    } else if is_any_of(word, "move-to-workspace", "move_to_workspace", "move-workspace") {
        match parse_workspace(args, Usage::MoveToWorkspace) {
            Ok(workspace) => Ok(IpcCommand::MoveToWorkspace { workspace }),
            Err(e) => Err(e),
        }
    } else if is_any_of(word, "gap", "set-gap", "set_gap") {
        if args.len() != 2 {
            return Err(CommandError::Usage(Usage::Gap));
        }
        match parse_signed(args[1].as_str()) {
            Some(pixels) => Ok(IpcCommand::SetGap { pixels }),
            None => Err(CommandError::Gap),
        }
    } else if is_any_of(word, "background", "set-background", "set_background") || same(
        word,
        "bg",
    ) {
        if args.len() != 2 {
            return Err(CommandError::Usage(Usage::Background));
        }
        Ok(IpcCommand::SetBackground { spec: args[1].clone() })
    } else if same(word, "output") {
        parse_output(args)
    } else {
        Err(CommandError::UnknownCommand(args[0].clone()))
    }
}

/// How a command is used.
pub open spec fn usage_text(usage: Usage) -> Seq<char> {
    match usage {
        Usage::Resize => "usage: dinatorctl resize WIDTHxHEIGHT"@,
        Usage::Spawn => "usage: dinatorctl spawn COMMAND [ARGS...]"@,
        Usage::Layout => "usage: dinatorctl layout <column|monocle>"@,
        Usage::Workspace => "usage: dinatorctl workspace <1-9>"@,
        Usage::MoveToWorkspace => "usage: dinatorctl move-to-workspace <1-9>"@,
        Usage::Gap => "usage: dinatorctl gap PIXELS"@,
        Usage::Background => "usage: dinatorctl background SPEC\n  SPEC: #RRGGBB, r,g,b (0-255 or 0.0-1.0)\n  gradient: COLOR-COLOR (e.g. #000000-#0000ff)"@,
        Usage::Output => "usage: dinatorctl output <create|remove|list|focus|move-to> [args...]"@,
        Usage::OutputCreate => "usage: dinatorctl output create NAME WIDTHxHEIGHT"@,
        Usage::OutputRemove => "usage: dinatorctl output remove NAME"@,
        Usage::OutputFocus => "usage: dinatorctl output focus NAME"@,
        Usage::OutputMoveTo => "usage: dinatorctl output move-to NAME"@,
    }
}

/// What is printed of an error.
pub open spec fn error_text(error: CommandError) -> Seq<char> {
    match error {
        CommandError::Usage(usage) => usage_text(usage),
        CommandError::Resolution => "resolution must be WIDTHxHEIGHT (e.g. 1920x1080)"@,
        CommandError::Width => "invalid width"@,
        CommandError::Height => "invalid height"@,
        CommandError::Workspace => "invalid workspace number"@,
        CommandError::Gap => "invalid gap size"@,
        CommandError::UnknownCommand(word) => "unknown command: "@ + word@
            + "\n\nRun 'dinatorctl' with no args for usage."@,
        CommandError::UnknownSubcommand(word) => "unknown output subcommand: "@ + word@
            + "\n\nSubcommands: create, remove, list, focus, move-to"@,
    }
}

impl Usage {
    /// How the command is used.
    pub fn text(&self) -> (r: &'static str)
        ensures
            r@ == usage_text(*self),
    {
        match self {
            Usage::Resize => "usage: dinatorctl resize WIDTHxHEIGHT",
            Usage::Spawn => "usage: dinatorctl spawn COMMAND [ARGS...]",
            Usage::Layout => "usage: dinatorctl layout <column|monocle>",
            Usage::Workspace => "usage: dinatorctl workspace <1-9>",
            Usage::MoveToWorkspace => "usage: dinatorctl move-to-workspace <1-9>",
            Usage::Gap => "usage: dinatorctl gap PIXELS",
            Usage::Background => "usage: dinatorctl background SPEC\n  SPEC: #RRGGBB, r,g,b (0-255 or 0.0-1.0)\n  gradient: COLOR-COLOR (e.g. #000000-#0000ff)",
            Usage::Output => "usage: dinatorctl output <create|remove|list|focus|move-to> [args...]",
            Usage::OutputCreate => "usage: dinatorctl output create NAME WIDTHxHEIGHT",
            Usage::OutputRemove => "usage: dinatorctl output remove NAME",
            Usage::OutputFocus => "usage: dinatorctl output focus NAME",
            Usage::OutputMoveTo => "usage: dinatorctl output move-to NAME",
        }
    }
}

impl CommandError {
    /// What is printed of the error.
    pub fn message(&self) -> (r: String)
        ensures
            r@ == error_text(*self),
    {
        match self {
            CommandError::Usage(usage) => String::from_str(usage.text()),
            CommandError::Resolution => String::from_str(
                "resolution must be WIDTHxHEIGHT (e.g. 1920x1080)",
            ),
            CommandError::Width => String::from_str("invalid width"),
            CommandError::Height => String::from_str("invalid height"),
            CommandError::Workspace => String::from_str("invalid workspace number"),
            CommandError::Gap => String::from_str("invalid gap size"),
            CommandError::UnknownCommand(word) => {
                let mut r = String::from_str("unknown command: ");
                r.append(word.as_str());
                r.append("\n\nRun 'dinatorctl' with no args for usage.");
                r
            },
            CommandError::UnknownSubcommand(word) => {
                let mut r = String::from_str("unknown output subcommand: ");
                r.append(word.as_str());
                r.append("\n\nSubcommands: create, remove, list, focus, move-to");
                r
            },
        }
    }
}

} // verus!
