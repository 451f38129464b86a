//! Events, plugin actions, and the effects that state changes ask for.

use crate::cursors::CursorIcon;
use crate::tiling::{Rect, WindowId};
use vstd::prelude::*;

verus! {

/// An event pushed from the compositor to subscribed clients.
#[derive(Debug)]
pub enum IpcEvent {
    /// A new window was opened.
    WindowOpened { id: u64, app_id: Option<String>, title: Option<String> },
    /// A window was closed.
    WindowClosed { id: u64 },
    /// A window gained focus.
    WindowFocused { id: u64 },
    /// The output resolution changed.
    ResolutionChanged { width: u16, height: u16 },
    /// The tiling layout changed.
    LayoutChanged { name: String },
    /// The focused output shows another workspace.
    WorkspaceChanged { workspace: usize },
    /// A window went to another workspace.
    WindowMovedWorkspace { id: u64, workspace: usize },
    /// A remote client connected.
    ClientConnected { protocol: Protocol },
    /// A remote client disconnected.
    ClientDisconnected { protocol: Protocol },
    /// An output was created.
    OutputCreated { name: String, width: u16, height: u16 },
    /// An output was removed.
    OutputRemoved { name: String },
    /// An output gained focus.
    OutputFocused { name: String },
}

/// How a remote client is connected.
#[derive(Debug, Clone, Copy, PartialEq, Eq, Structural)]
pub enum Protocol {
    Rdp,
    Vnc,
}

/// Events the compositor sends to the plugin runtime.
#[derive(Debug)]
pub enum PluginEvent {
    WindowOpened { id: u64, app_id: Option<String>, title: Option<String> },
    WindowClosed { id: u64 },
    WindowFocused { id: u64 },
    LayoutChanged { name: String },
    WorkspaceChanged { workspace: usize },
    WindowMovedWorkspace { id: u64, workspace: usize },
}

/// What plugins hear of an event: changes of windows, layouts and workspaces.
pub open spec fn heard_by_plugins(event: IpcEvent) -> Option<PluginEvent> {
    match event {
        IpcEvent::WindowOpened { id, app_id, title } => Some(
            PluginEvent::WindowOpened { id, app_id, title },
        ),
        IpcEvent::WindowClosed { id } => Some(PluginEvent::WindowClosed { id }),
        IpcEvent::WindowFocused { id } => Some(PluginEvent::WindowFocused { id }),
        IpcEvent::LayoutChanged { name } => Some(PluginEvent::LayoutChanged { name }),
        IpcEvent::WorkspaceChanged { workspace } => Some(
            PluginEvent::WorkspaceChanged { workspace },
        ),
        IpcEvent::WindowMovedWorkspace { id, workspace } => Some(
            PluginEvent::WindowMovedWorkspace { id, workspace },
        ),
        _ => None,
    }
}

pub(crate) fn clone_text(text: &Option<String>) -> (r: Option<String>)
    ensures
        r == *text,
{
    match text {
        Some(s) => Some(s.clone()),
        None => None,
    }
}

/// What plugins hear of an event.
pub fn plugin_event(event: &IpcEvent) -> (r: Option<PluginEvent>)
    ensures
        r == heard_by_plugins(*event),
{
    match event {
        IpcEvent::WindowOpened { id, app_id, title } => Some(
            PluginEvent::WindowOpened {
                id: *id,
                app_id: clone_text(app_id),
                title: clone_text(title),
            },
        ),
        IpcEvent::WindowClosed { id } => Some(PluginEvent::WindowClosed { id: *id }),
        IpcEvent::WindowFocused { id } => Some(PluginEvent::WindowFocused { id: *id }),
        IpcEvent::LayoutChanged { name } => Some(PluginEvent::LayoutChanged { name: name.clone() }),
        IpcEvent::WorkspaceChanged { workspace } => Some(
            PluginEvent::WorkspaceChanged { workspace: *workspace },
        ),
        IpcEvent::WindowMovedWorkspace { id, workspace } => Some(
            PluginEvent::WindowMovedWorkspace { id: *id, workspace: *workspace },
        ),
        _ => None,
    }
}

/// What a plugin asks the compositor to do.
#[derive(Debug)]
pub enum PluginAction {
    Spawn { cmd: String, args: Vec<String> },
    SetLayout { name: String },
    FocusNext,
    FocusPrev,
    CloseWindow,
    SwapMaster,
    ToggleFloat,
    ToggleFullscreen,
    Log { message: String },
    SwitchWorkspace { workspace: usize },
    MoveToWorkspace { workspace: usize },
}

/// A rule of a plugin: windows that match both patterns open floating or fullscreen.
#[derive(Debug)]
pub struct WindowRule {
    /// The application's whole name.
    pub app_id: Option<String>,
    /// A part of the title.
    pub title: Option<String>,
    pub float: bool,
    pub fullscreen: bool,
}

/// What a change of the state asks of the display server, in order.
#[derive(Debug)]
pub enum Effect {
    /// Show the window at a place and in a size, and mark it fullscreen or not.
    Place { id: WindowId, rect: Rect, fullscreen: bool },
    /// Show the window at a place and leave its size.
    MoveTo { id: WindowId, x: i32, y: i32 },
    /// Ask the window for a size.
    Resize { id: WindowId, width: i32, height: i32 },
    /// Put the window above the others, and activate it or not.
    Raise { id: WindowId, activate: bool },
    /// Take the window off the screen.
    Unmap { id: WindowId },
    /// Move the keyboard focus.
    Focus { target: Option<WindowId> },
    /// Arrange the windows of an output anew.
    Retile { output: String },
    /// Ask the window to close.
    Close { id: WindowId },
    /// Tell subscribers and plugins.
    Emit { event: IpcEvent },
    /// Start a program.
    Spawn { cmd: String, args: Vec<String> },
    /// Write a plugin's message to the log.
    Log { message: String },
    /// Give the pointer a shape.
    Cursor { icon: CursorIcon },
}

} // verus!
