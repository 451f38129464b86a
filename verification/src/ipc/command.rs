//! Commands and answers.

use crate::config::{join_path, joined};
use vstd::prelude::*;

verus! {

/// A command sent to the compositor.
#[derive(Debug)]
pub enum IpcCommand {
    /// Change the output resolution.
    Resize { width: u16, height: u16 },
    /// Focus the next window.
    FocusNext,
    /// Focus the previous window.
    FocusPrev,
    /// Close the focused window.
    Close,
    /// Swap the focused window with master.
    SwapMaster,
    /// Spawn a process.
    Spawn { cmd: String, args: Vec<String> },
    /// Quit the compositor.
    Quit,
    /// List all windows.
    ListWindows,
    /// Grow the master area.
    MasterGrow,
    /// Shrink the master area.
    MasterShrink,
    /// Set the tiling layout.
    SetLayout { name: String },
    /// Toggle the focused window between floating and tiled.
    ToggleFloat,
    /// Toggle fullscreen for the focused window.
    ToggleFullscreen,
    /// List all available layouts (built-in + plugin-provided).
    ListLayouts,
    /// List loaded plugins.
    ListPlugins,
    /// Reload plugins from disk.
    ReloadPlugins,
    /// Subscribe to compositor events.
    Subscribe,
    /// Switch to a workspace.
    SwitchWorkspace { workspace: usize },
    /// Move the focused window to a workspace.
    MoveToWorkspace { workspace: usize },
    /// List all workspaces.
    ListWorkspaces,
    /// Set the gap between windows.
    SetGap { pixels: i32 },
    /// Set the background.
    SetBackground { spec: String },
    /// Create an output.
    CreateOutput { name: String, width: u16, height: u16 },
    /// Remove an output.
    RemoveOutput { name: String },
    /// List all outputs.
    ListOutputs,
    /// Focus an output.
    FocusOutput { name: String },
    /// Move the focused window to an output.
    MoveWindowToOutput { name: String },
    /// Show the state of the compositor.
    Status,
}

/// Path of the socket, given `XDG_RUNTIME_DIR`.
pub fn socket_path(runtime_dir: Option<&str>) -> (r: String)
    ensures
        r@ == joined(
            match runtime_dir {
                Some(dir) => dir@,
                None => "/tmp"@,
            },
            "desktopinator.sock"@,
        ),
{
    match runtime_dir {
        Some(dir) => join_path(dir, "desktopinator.sock"),
        None => join_path("/tmp", "desktopinator.sock"),
    }
}

} // verus!
