//! What the compositor does on a command, and what it answers.

use crate::background::{backdrop_of, parse_background, Background};
use crate::compositor::actions::{lemma_layout_keeps_names, Request};
use crate::compositor::event::{clone_text, Effect, IpcEvent};
use crate::compositor::layout::ActiveLayout;
use crate::compositor::layouts::{
    contains_name, find_name, gap_set, layout_set, master_grown, master_shrunk, views,
};
use crate::compositor::outputs::{output_focused, output_removed, window_sent};
use crate::compositor::seen::{find_seen, is_first_seen, SeenWindow};
use crate::compositor::state::{
    geometry_ok, has_output, index_of, lemma_same_names, named, output_added, DinatorState,
    LAST_WORKSPACE, Model, OutputState,
};
use crate::ipc::command::IpcCommand;
use crate::text::{
    chars_of, decimal, decimal_text, join, joined_by, push_signed, same, signed_decimal, text2,
    text3, trim_chars, trimmed,
};
use crate::tiling::column::ColumnLayout;
use crate::tiling::ratio::Ratio;
use crate::tiling::{Rect, WindowId};
use vstd::prelude::*;
use vstd::string::*;

verus! {

/// A window of the focused workspace.
#[derive(Debug)]
pub struct WindowRow {
    pub index: usize,
    pub id: u64,
    pub floating: bool,
    pub fullscreen: bool,
    pub workspace: usize,
    pub geometry: Option<Rect>,
    pub app_id: Option<String>,
    pub title: Option<String>,
}

/// A layout that can be chosen.
#[derive(Debug)]
pub struct LayoutRow {
    pub name: String,
    pub active: bool,
}

/// A workspace and how many windows it has.
#[derive(Debug, Clone, Copy, PartialEq, Eq, Structural)]
pub struct WorkspaceRow {
    pub workspace: usize,
    pub windows: usize,
    pub active: bool,
}

/// An output.
#[derive(Debug)]
pub struct OutputRow {
    pub name: String,
    pub geometry: Rect,
    pub workspace: usize,
    pub layout: String,
    pub focused: bool,
}

/// The state of the compositor in numbers.
#[derive(Debug)]
pub struct Status {
    pub rdp_clients: u32,
    pub vnc_clients: u32,
    pub windows: usize,
    pub outputs: usize,
    pub focused_output: String,
    pub focused_workspace: usize,
}

/// What a command asked to see.
#[derive(Debug)]
pub enum IpcData {
    Windows(Vec<WindowRow>),
    Layouts(Vec<LayoutRow>),
    Workspaces(Vec<WorkspaceRow>),
    Outputs(Vec<OutputRow>),
    Status(Status),
}

/// Response sent back to the control program.
#[allow(inconsistent_fields)]
#[derive(Debug)]
pub enum IpcResponse {
    /// Command succeeded.
    Success { message: Option<String> },
    /// Command failed.
    Error { message: String },
    /// What the command asked to see.
    Data { data: IpcData },
}

/// How a command is answered.
#[derive(Debug)]
pub enum Answer {
    /// With this response.
    Now(IpcResponse),
    /// With the ratio of the master area in per cent.
    Percent(Ratio),
    /// With a description of the focused output's background.
    Background,
    /// With what the plugin runtimes tell of the loaded plugins.
    Plugins,
    /// Once the program has been started.
    AfterSpawn { cmd: String, args: Vec<String> },
    /// Once the plugins have been loaded again.
    AfterReload,
}

/// What a command leads to.
#[derive(Debug)]
pub struct Handled {
    pub effects: Vec<Effect>,
    pub request: Request,
    pub answer: Answer,
}

/// The answer is this text.
pub open spec fn says(answer: Answer, text: Seq<char>) -> bool {
    answer matches Answer::Now(IpcResponse::Success { message: Some(m) }) && m@ == text
}

/// The answer is success without a text.
pub open spec fn agrees(answer: Answer) -> bool {
    answer matches Answer::Now(IpcResponse::Success { message }) && message is None
}

/// The answer is this error.
pub open spec fn refuses(answer: Answer, text: Seq<char>) -> bool {
    answer matches Answer::Now(IpcResponse::Error { message }) && message@ == text
}

/// Row `i` of the list of windows.
pub open spec fn is_window_row(m: Model, seen: Seq<SeenWindow>, i: int, row: WindowRow) -> bool {
    let ws = m.focused_workspace();
    let id = m.order(ws)[i].0;
    let known = m.windows.dom().contains(id);
    &&& row.index == i
    &&& row.id == id
    &&& row.floating == m.floating.contains(id)
    &&& row.fullscreen == m.fullscreen.contains(id)
    &&& row.workspace == (if known && m.windows[id].workspace is Some {
        m.windows[id].workspace->0
    } else {
        ws
    })
    &&& {
        ||| exists|k: int|
            {
                &&& known
                &&& #[trigger] is_first_seen(seen, id, k)
                &&& row.geometry == seen[k].geometry
                &&& row.app_id == seen[k].app_id
                &&& row.title == seen[k].title
            }
        ||| {
            &&& !known || forall|k: int| 0 <= k < seen.len() ==> (#[trigger] seen[k]).id != id
            &&& row.geometry is None
            &&& row.app_id is None
            &&& row.title is None
        }
    }
}

/// The windows of the focused workspace, in order.
pub open spec fn are_window_rows(m: Model, seen: Seq<SeenWindow>, rows: Seq<WindowRow>) -> bool {
    &&& rows.len() == m.order(m.focused_workspace()).len()
    &&& forall|i: int| 0 <= i < rows.len() ==> is_window_row(m, seen, i, #[trigger] rows[i])
}

/// The layouts that can be chosen, and which of them is.
pub open spec fn are_layout_rows(m: Model, rows: Seq<LayoutRow>) -> bool {
    &&& rows.len() == m.layout_names().len()
    &&& forall|i: int|
        0 <= i < rows.len() ==> (#[trigger] rows[i]).name@ == m.layout_names()[i] && rows[i].active
            == (m.layout_names()[i] == m.layout_label())
}

/// Workspaces 1 to 9.
pub open spec fn are_workspace_rows(m: Model, rows: Seq<WorkspaceRow>) -> bool {
    &&& rows.len() == LAST_WORKSPACE
    &&& forall|i: int|
        0 <= i < rows.len() ==> {
            &&& (#[trigger] rows[i]).workspace == i + 1
            &&& rows[i].windows == m.order((i + 1) as usize).len()
            &&& rows[i].active == (i + 1 == m.focused_workspace())
        }
}

/// The outputs, in the order in which they were mapped.
pub open spec fn are_output_rows(m: Model, rows: Seq<OutputRow>) -> bool {
    &&& rows.len() == m.outputs.len()
    &&& forall|i: int|
        0 <= i < rows.len() ==> {
            &&& (#[trigger] rows[i]).name == m.outputs[i].name
            &&& rows[i].geometry == m.outputs[i].geometry
            &&& rows[i].workspace == m.outputs[i].active_workspace
            &&& rows[i].layout@ == m.outputs[i].layout.label()
            &&& rows[i].focused == (m.focused_output == Some(m.outputs[i].name@))
        }
}

/// Where the outputs end on the right; 0 without outputs.
pub open spec fn right_edge(outputs: Seq<OutputState>) -> int
    decreases outputs.len(),
{
    if outputs.len() == 0 {
        0
    } else {
        let edge = outputs.last().geometry.x + outputs.last().geometry.width;
        let before = right_edge(outputs.drop_last());
        if outputs.len() > 1 && before > edge {
            before
        } else {
            edge
        }
    }
}

/// Where a new output goes: to the right of the others.
pub open spec fn new_geometry(outputs: Seq<OutputState>, width: u16, height: u16) -> Rect {
    Rect { x: right_edge(outputs) as i32, y: 0, width: width as i32, height: height as i32 }
}

/// The number of a workspace is refused.
pub open spec fn bad_workspace(workspace: usize) -> Seq<char> {
    "invalid workspace: "@ + decimal(workspace as nat) + " (must be 1-9)"@
}

/// A window and what became of it.
pub open spec fn window_state(id: WindowId, state: Seq<char>) -> Seq<char> {
    "window "@ + decimal(id.0 as nat) + state
}

/// What a command does to the state and how it is answered. `seen` is what the display server
/// knows of the windows, `mapped` how many it shows.
pub open spec fn command_done(
    before: Model,
    after: Model,
    command: IpcCommand,
    seen: Seq<SeenWindow>,
    mapped: usize,
    effects: Seq<Effect>,
    request: Request,
    answer: Answer,
) -> bool {
    let none = Seq::<Effect>::empty();
    let still = after == before && effects == none;
    let quiet = request is Nothing;
    match command {
        IpcCommand::Resize { width, height } => {
            &&& still
            &&& request == Request::Resize { width, height }
            &&& says(
                answer,
                "resizing to "@ + decimal(width as nat) + "x"@ + decimal(height as nat),
            )
        },
        IpcCommand::FocusNext => quiet && agrees(answer) && after == before.cycled(1) && effects
            == before.cycle_effects(1),
        IpcCommand::FocusPrev => quiet && agrees(answer) && after == before.cycled(-1) && effects
            == before.cycle_effects(-1),
        IpcCommand::Close => quiet && agrees(answer) && after == before && effects
            == before.close_effects(),
        IpcCommand::SwapMaster => quiet && agrees(answer) && after == before.master_swapped()
            && effects == before.swap_effects(),
        IpcCommand::Spawn { cmd, args } => {
            &&& still && quiet
            &&& answer matches Answer::AfterSpawn { cmd: c, args: a } && c == cmd && a@ == args@
        },
        IpcCommand::Quit => still && request is Quit && agrees(answer),
        IpcCommand::ListWindows => {
            &&& still && quiet
            &&& answer matches Answer::Now(IpcResponse::Data { data: IpcData::Windows(rows) })
                && are_window_rows(before, seen, rows@)
        },
        IpcCommand::MasterGrow => {
            &&& quiet
            &&& if tells_ratio(answer) {
                &&& master_grown(before, after, true)
                &&& effects == before.retiles_focused()
                &&& answer == Answer::Percent(
                    after.outputs[before.focused_index()->0].layout.ratio()->0,
                )
            } else {
                &&& master_grown(before, after, false)
                &&& effects == none
                &&& says(answer, "master ratio at maximum"@)
            }
        },
        IpcCommand::MasterShrink => {
            &&& quiet
            &&& if tells_ratio(answer) {
                &&& master_shrunk(before, after, true)
                &&& effects == before.retiles_focused()
                &&& answer == Answer::Percent(
                    after.outputs[before.focused_index()->0].layout.ratio()->0,
                )
            } else {
                &&& master_shrunk(before, after, false)
                &&& effects == none
                &&& says(answer, "master ratio at minimum"@)
            }
        },
        IpcCommand::SetLayout { name } => {
            &&& quiet
            &&& layout_set(before, after, name@)
            &&& if before.takes_layout(name@) {
                &&& effects == before.retiles_focused().push(
                    Effect::Emit { event: IpcEvent::LayoutChanged { name } },
                )
                &&& says(answer, "layout: "@ + name@)
            } else {
                &&& effects == none
                &&& refuses(
                    answer,
                    "unknown layout: "@ + name@ + " (available: "@ + joined_by(
                        before.layout_names(),
                        ", "@,
                    ) + ")"@,
                )
            }
        },
        IpcCommand::ToggleFloat => {
            &&& quiet
            &&& after == before.float_switched()
            &&& effects == before.float_switch_effects()
            &&& match before.focused_id() {
                Some(id) => says(
                    answer,
                    window_state(
                        id,
                        if before.floating.contains(id.0) {
                            " tiled"@
                        } else {
                            " floating"@
                        },
                    ),
                ),
                None => refuses(answer, "no focused window"@),
            }
        },
        IpcCommand::ToggleFullscreen => {
            &&& quiet
            &&& after == before.fullscreen_switched()
            &&& effects == before.fullscreen_switch_effects()
            &&& match before.focused_id() {
                Some(id) => says(
                    answer,
                    window_state(
                        id,
                        if before.fullscreen.contains(id.0) {
                            " normal"@
                        } else {
                            " fullscreen"@
                        },
                    ),
                ),
                None => refuses(answer, "no focused window"@),
            }
        },
        IpcCommand::ListLayouts => {
            &&& still && quiet
            &&& answer matches Answer::Now(IpcResponse::Data { data: IpcData::Layouts(rows) })
                && are_layout_rows(before, rows@)
        },
        IpcCommand::ListPlugins => still && quiet && answer is Plugins,
        IpcCommand::ReloadPlugins => still && quiet && answer is AfterReload,
        IpcCommand::Subscribe => still && quiet && refuses(
            answer,
            "subscribe should be handled by IPC server"@,
        ),
        IpcCommand::SwitchWorkspace { workspace } => {
            &&& quiet
            &&& after == before.switched(workspace)
            &&& effects == before.switch_effects(workspace)
            &&& if 1 <= workspace <= LAST_WORKSPACE {
                says(answer, "workspace "@ + decimal(workspace as nat))
            } else {
                refuses(answer, bad_workspace(workspace))
            }
        },
        IpcCommand::MoveToWorkspace { workspace } => {
            &&& quiet
            &&& after == before.moved_to(workspace)
            &&& effects == before.move_effects(workspace)
            &&& if 1 <= workspace <= LAST_WORKSPACE {
                says(answer, "moved to workspace "@ + decimal(workspace as nat))
            } else {
                refuses(answer, bad_workspace(workspace))
            }
        },
        IpcCommand::ListWorkspaces => {
            &&& still && quiet
            &&& answer matches Answer::Now(IpcResponse::Data { data: IpcData::Workspaces(rows) })
                && are_workspace_rows(before, rows@)
        },
        IpcCommand::SetGap { pixels } => {
            &&& quiet
            &&& exists|changed: bool|
                {
                    &&& #[trigger] gap_set(before, after, pixels, changed)
                    &&& effects == (if changed {
                        before.retiles_focused()
                    } else {
                        none
                    })
                }
            &&& says(answer, "gap: "@ + signed_decimal(pixels as int) + "px"@)
        },
        IpcCommand::SetBackground { spec: text } => {
            &&& quiet
            &&& effects == none
            &&& match backdrop_of(text@) {
                Some(b) => answer is Background && exists|background: Background| #[trigger]
                    background@ == b && after == before.with_background(background),
                None => after == before && refuses(
                    answer,
                    "invalid background spec: "@ + text@
                        + " (use #RRGGBB, r,g,b, or two colors separated by -)"@,
                ),
            }
        },
        IpcCommand::CreateOutput { name, width, height } => {
            &&& quiet
            &&& if has_output(before.outputs, name@) {
                still && refuses(answer, "output '"@ + name@ + "' already exists"@)
            } else {
                &&& output_added(before, after, name, new_geometry(before.outputs, width, height))
                &&& effects == seq![
                    Effect::Emit { event: IpcEvent::OutputCreated { name, width, height } },
                ]
                &&& says(
                    answer,
                    "created output '"@ + name@ + "' ("@ + decimal(width as nat) + "x"@ + decimal(
                        height as nat,
                    ) + ")"@,
                )
            }
        },
        IpcCommand::RemoveOutput { name } => {
            &&& quiet
            &&& if !has_output(before.outputs, name@) {
                still && refuses(answer, "output '"@ + name@ + "' not found"@)
            } else if before.outputs.len() <= 1 {
                still && refuses(answer, "cannot remove the last output"@)
            } else {
                &&& effects.len() > 0
                &&& output_removed(before, after, name@, effects.drop_last())
                &&& effects.last() == (Effect::Emit { event: IpcEvent::OutputRemoved { name } })
                &&& says(answer, "removed output '"@ + name@ + "'"@)
            }
        },
        IpcCommand::ListOutputs => {
            &&& still && quiet
            &&& answer matches Answer::Now(IpcResponse::Data { data: IpcData::Outputs(rows) })
                && are_output_rows(before, rows@)
        },
        IpcCommand::FocusOutput { name } => {
            &&& quiet
            &&& if !has_output(before.outputs, name@) {
                still && refuses(answer, "output '"@ + name@ + "' not found"@)
            } else {
                &&& effects.len() > 0
                &&& output_focused(before, after, name@, effects.drop_last())
                &&& effects.last() == (Effect::Emit { event: IpcEvent::OutputFocused { name } })
                &&& says(answer, "focused output '"@ + name@ + "'"@)
            }
        },
        IpcCommand::MoveWindowToOutput { name } => {
            &&& quiet
            &&& {
                ||| window_sent(before, after, name@, true, effects) && says(
                    answer,
                    "moved window to output '"@ + name@ + "'"@,
                )
                ||| window_sent(before, after, name@, false, effects) && refuses(
                    answer,
                    "failed to move window to output '"@ + name@
                        + "' (no focused window or output not found)"@,
                )
            }
        },
        IpcCommand::Status => {
            &&& still && quiet
            &&& answer matches Answer::Now(IpcResponse::Data { data: IpcData::Status(s) }) && {
                &&& s.rdp_clients == before.rdp_clients
                &&& s.vnc_clients == before.vnc_clients
                &&& s.windows == mapped
                &&& s.outputs == before.outputs.len()
                &&& s.focused_output@ == (match before.focused_output {
                    Some(name) => name,
                    None => ""@,
                })
                &&& s.focused_workspace == before.focused_workspace()
            }
        },
    }
}

/// A command that is refused changes nothing and asks for nothing.
pub proof fn lemma_refusal_changes_nothing(
    before: Model,
    after: Model,
    command: IpcCommand,
    seen: Seq<SeenWindow>,
    mapped: usize,
    effects: Seq<Effect>,
    request: Request,
    answer: Answer,
)
    requires
        command_done(before, after, command, seen, mapped, effects, request, answer),
        answer matches Answer::Now(response) && response is Error,
    ensures
        after == before,
        effects == Seq::<Effect>::empty(),
        request is Nothing,
{
}

/// Questions change nothing and ask for nothing.
pub proof fn lemma_questions_change_nothing(
    before: Model,
    after: Model,
    command: IpcCommand,
    seen: Seq<SeenWindow>,
    mapped: usize,
    effects: Seq<Effect>,
    request: Request,
    answer: Answer,
)
    requires
        command_done(before, after, command, seen, mapped, effects, request, answer),
        command is ListWindows || command is ListLayouts || command is ListPlugins || command
            is ListWorkspaces || command is ListOutputs || command is Status,
    ensures
        after == before,
        effects == Seq::<Effect>::empty(),
        request is Nothing,
{
}

/// No command takes the last output.
pub proof fn lemma_an_output_stays(
    before: Model,
    after: Model,
    name: String,
    seen: Seq<SeenWindow>,
    mapped: usize,
    effects: Seq<Effect>,
    request: Request,
    answer: Answer,
)
    requires
        before.outputs.len() > 0,
        command_done(
            before,
            after,
            IpcCommand::RemoveOutput { name },
            seen,
            mapped,
            effects,
            request,
            answer,
        ),
    ensures
        after.outputs.len() > 0,
{
    if has_output(before.outputs, name@) {
        assert(named(
            before.outputs,
            name@,
            index_of(before.outputs, name@),
        ));
    }
}

/// The answer tells of a changed ratio.
pub open spec fn tells_ratio(answer: Answer) -> bool {
    answer is Percent
}

fn say(text: String) -> (r: Answer)
    ensures
        says(r, text@),
{
    Answer::Now(IpcResponse::Success { message: Some(text) })
}

fn agree() -> (r: Answer)
    ensures
        agrees(r),
{
    Answer::Now(IpcResponse::Success { message: None })
}

fn refuse(text: String) -> (r: Answer)
    ensures
        refuses(r, text@),
{
    Answer::Now(IpcResponse::Error { message: text })
}

fn show(data: IpcData) -> (r: Answer)
    ensures
        r == Answer::Now(IpcResponse::Data { data }),
{
    Answer::Now(IpcResponse::Data { data })
}

impl DinatorState {
    fn window_rows(&self, seen: &[SeenWindow]) -> (rows: Vec<WindowRow>)
        requires
            self.wf(),
        ensures
            are_window_rows(self@, seen@, rows@),
    {
        broadcast use vstd::std_specs::hash::group_hash_axioms;

        let ws: usize = self.focused_workspace();
        let order = self.ws_window_list(ws);
        let mut rows: Vec<WindowRow> = Vec::new();
        let mut i: usize = 0;
        while i < order.len()
            invariant
                self.wf(),
                ws == self@.focused_workspace(),
                order@ == self@.order(ws),
                i <= order@.len(),
                rows@.len() == i,
                forall|k: int|
                    0 <= k < i ==> is_window_row(self@, seen@, k, #[trigger] rows@[k]),
            decreases order@.len() - i,
        {
            let id: u64 = order[i].0;
            let mut row = WindowRow {
                index: i,
                id,
                floating: self.floating.contains(&id),
                fullscreen: self.fullscreen.contains(&id),
                workspace: ws,
                geometry: None,
                app_id: None,
                title: None,
            };
            match self.windows.get(&id) {
                Some(info) => {
                    match info.workspace {
                        Some(home) => {
                            row.workspace = home;
                        },
                        None => {},
                    }
                    match find_seen(seen, id) {
                        Some(k) => {
                            row.geometry = seen[k].geometry;
                            row.app_id = clone_text(&seen[k].app_id);
                            row.title = clone_text(&seen[k].title);
                            assert(is_first_seen(seen@, id, k as int));
                        },
                        None => {},
                    }
                },
                None => {},
            }
            rows.push(row);
            i = i + 1;
        }
        rows
    }

    fn layout_rows(&self) -> (rows: Vec<LayoutRow>)
        requires
            self.wf(),
        ensures
            are_layout_rows(self@, rows@),
    {
        let names = self.available_layouts();
        let current = self.layout_name();
        let mut rows: Vec<LayoutRow> = Vec::new();
        let mut i: usize = 0;
        while i < names.len()
            invariant
                i <= names@.len(),
                current@ == self@.layout_label(),
                views(names@) == self@.layout_names(),
                rows@.len() == i,
                forall|k: int|
                    0 <= k < i ==> (#[trigger] rows@[k]).name@ == self@.layout_names()[k]
                        && rows@[k].active == (self@.layout_names()[k] == self@.layout_label()),
            decreases names@.len() - i,
        {
            assert(views(names@)[i as int] == names@[i as int]@);
            let active = same(names[i].as_str(), current);
            rows.push(LayoutRow { name: names[i].clone(), active });
            i = i + 1;
        }
        assert(views(names@).len() == names@.len());
        rows
    }

    fn workspace_rows(&self) -> (rows: Vec<WorkspaceRow>)
        requires
            self.wf(),
        ensures
            are_workspace_rows(self@, rows@),
    {
        let active: usize = self.focused_workspace();
        let mut rows: Vec<WorkspaceRow> = Vec::new();
        let mut ws: usize = 1;
        while ws <= LAST_WORKSPACE
            invariant
                self.wf(),
                active == self@.focused_workspace(),
                1 <= ws <= LAST_WORKSPACE + 1,
                rows@.len() == ws - 1,
                forall|i: int|
                    0 <= i < rows@.len() ==> {
                        &&& (#[trigger] rows@[i]).workspace == i + 1
                        &&& rows@[i].windows == self@.order((i + 1) as usize).len()
                        &&& rows@[i].active == (i + 1 == active)
                    },
            decreases LAST_WORKSPACE + 1 - ws,
        {
            let windows: usize = self.ws_window_list(ws).len();
            rows.push(WorkspaceRow { workspace: ws, windows, active: ws == active });
            ws = ws + 1;
        }
        rows
    }

    fn output_rows(&self) -> (rows: Vec<OutputRow>)
        requires
            self.wf(),
        ensures
            are_output_rows(self@, rows@),
    {
        let mut rows: Vec<OutputRow> = Vec::new();
        let mut i: usize = 0;
        while i < self.outputs.len()
            invariant
                self.wf(),
                i <= self.outputs@.len(),
                rows@.len() == i,
                forall|k: int|
                    0 <= k < i ==> {
                        &&& (#[trigger] rows@[k]).name == self@.outputs[k].name
                        &&& rows@[k].geometry == self@.outputs[k].geometry
                        &&& rows@[k].workspace == self@.outputs[k].active_workspace
                        &&& rows@[k].layout@ == self@.outputs[k].layout.label()
                        &&& rows@[k].focused == (self@.focused_output == Some(
                            self@.outputs[k].name@,
                        ))
                    },
            decreases self.outputs@.len() - i,
        {
            let o = &self.outputs[i];
            let focused = match &self.focused_output {
                Some(name) => same(name.as_str(), o.name.as_str()),
                None => false,
            };
            rows.push(
                OutputRow {
                    name: o.name.clone(),
                    geometry: o.geometry,
                    workspace: o.active_workspace,
                    layout: String::from_str(o.layout.name()),
                    focused,
                },
            );
            i = i + 1;
        }
        rows
    }

    /// Where the outputs end on the right; 0 without outputs.
    pub fn right_edge(&self) -> (r: i32)
        requires
            self.wf(),
        ensures
            r == right_edge(self.outputs@),
    {
        let mut r: i32 = 0;
        let mut i: usize = 0;
        assert(self.outputs@.take(0) =~= Seq::<OutputState>::empty());
        while i < self.outputs.len()
            invariant
                self.wf(),
                i <= self.outputs@.len(),
                r == right_edge(self.outputs@.take(i as int)),
            decreases self.outputs@.len() - i,
        {
            assert(self.outputs@.take(i + 1).drop_last() =~= self.outputs@.take(i as int));
            let g = self.outputs[i].geometry;
            assert(geometry_ok(self.outputs@[i as int].geometry));
            let edge: i32 = g.x + g.width;
            if i == 0 || edge >= r {
                r = edge;
            }
            i = i + 1;
        }
        assert(self.outputs@.take(i as int) =~= self.outputs@);
        r
    }

    /// Handles a command of the control program. `seen` is what the display server knows of the
    /// windows, `mapped` how many it shows.
    pub fn handle_ipc_command(
        &mut self,
        command: &IpcCommand,
        seen: &[SeenWindow],
        mapped: usize,
    ) -> (r: Handled)
        requires
            old(self).wf(),
            *command matches IpcCommand::CreateOutput { name, width, height } ==> right_edge(
                old(self).outputs@,
            ) + width <= i32::MAX,
        ensures
            final(self).wf(),
            command_done(
                old(self)@,
                final(self)@,
                *command,
                seen@,
                mapped,
                r.effects@,
                r.request,
                r.answer,
            ),
    {
        let mut effects: Vec<Effect> = Vec::new();
        let mut request = Request::Nothing;
        let answer = match command {
            IpcCommand::Resize { width, height } => {
                request = Request::Resize { width: *width, height: *height };
                let mut text = String::from_str("resizing to ");
                text.append(decimal_text(*width as u64).as_str());
                text.append("x");
                text.append(decimal_text(*height as u64).as_str());
                say(text)
            },
            IpcCommand::FocusNext => {
                effects = self.focus_next();
                agree()
            },
            IpcCommand::FocusPrev => {
                effects = self.focus_prev();
                agree()
            },
            IpcCommand::Close => {
                effects = self.close_focused_window();
                agree()
            },
            IpcCommand::SwapMaster => {
                effects = self.swap_master();
                agree()
            },
            IpcCommand::Spawn { cmd, args } => {
                Answer::AfterSpawn { cmd: cmd.clone(), args: clone_texts(args) }
            },
            IpcCommand::Quit => {
                request = Request::Quit;
                agree()
            },
            IpcCommand::ListWindows => show(IpcData::Windows(self.window_rows(seen))),
            IpcCommand::MasterGrow => {
                if self.grow_master() {
                    proof {
                        lemma_same_names(old(self)@.outputs, self@.outputs);
                    }
                    self.push_retile_focused(&mut effects);
                    self.ratio_answer()
                } else {
                    say(String::from_str("master ratio at maximum"))
                }
            },
            IpcCommand::MasterShrink => {
                if self.shrink_master() {
                    proof {
                        lemma_same_names(old(self)@.outputs, self@.outputs);
                    }
                    self.push_retile_focused(&mut effects);
                    self.ratio_answer()
                } else {
                    say(String::from_str("master ratio at minimum"))
                }
            },
            IpcCommand::SetLayout { name } => {
                if self.set_layout(name.as_str()) {
                    proof {
                        lemma_layout_keeps_names(old(self)@, self@, name@);
                    }
                    self.push_retile_focused(&mut effects);
                    effects.push(
                        Effect::Emit { event: IpcEvent::LayoutChanged { name: name.clone() } },
                    );
                    say(text2("layout: ", name.as_str()))
                } else {
                    let mut text = text3("unknown layout: ", name.as_str(), " (available: ");
                    text.append(join(&self.available_layouts(), ", ").as_str());
                    text.append(")");
                    refuse(text)
                }
            },
            IpcCommand::ToggleFloat => {
                let (toggled, todo) = self.toggle_float();
                effects = todo;
                match toggled {
                    Some((id, floating)) => say(
                        text3(
                            "window ",
                            decimal_text(id.0).as_str(),
                            if floating {
                                " floating"
                            } else {
                                " tiled"
                            },
                        ),
                    ),
                    None => refuse(String::from_str("no focused window")),
                }
            },
            IpcCommand::ToggleFullscreen => {
                let (toggled, todo) = self.toggle_fullscreen();
                effects = todo;
                match toggled {
                    Some((id, fullscreen)) => say(
                        text3(
                            "window ",
                            decimal_text(id.0).as_str(),
                            if fullscreen {
                                " fullscreen"
                            } else {
                                " normal"
                            },
                        ),
                    ),
                    None => refuse(String::from_str("no focused window")),
                }
            },
            IpcCommand::ListLayouts => show(IpcData::Layouts(self.layout_rows())),
            IpcCommand::ListPlugins => Answer::Plugins,
            IpcCommand::ReloadPlugins => Answer::AfterReload,
            IpcCommand::Subscribe => refuse(
                String::from_str("subscribe should be handled by IPC server"),
            ),
            IpcCommand::SwitchWorkspace { workspace } => {
                if *workspace < 1 || *workspace > LAST_WORKSPACE {
                    refuse_workspace(*workspace)
                } else {
                    effects = self.switch_workspace(*workspace);
                    say(text2("workspace ", decimal_text(*workspace as u64).as_str()))
                }
            },
            IpcCommand::MoveToWorkspace { workspace } => {
                if *workspace < 1 || *workspace > LAST_WORKSPACE {
                    refuse_workspace(*workspace)
                } else {
                    effects = self.move_to_workspace(*workspace);
                    say(text2("moved to workspace ", decimal_text(*workspace as u64).as_str()))
                }
            },
            IpcCommand::ListWorkspaces => show(IpcData::Workspaces(self.workspace_rows())),
            IpcCommand::SetGap { pixels } => {
                let changed = self.set_layout_gap(*pixels);
                proof {
                    lemma_same_names(old(self)@.outputs, self@.outputs);
                    assert(gap_set(old(self)@, self@, *pixels, changed));
                }
                if changed {
                    self.push_retile_focused(&mut effects);
                }
                let mut text = String::from_str("gap: ");
                push_signed(&mut text, *pixels as i64);
                text.append("px");
                say(text)
            },
            IpcCommand::SetBackground { spec: text } => {
                match parse_background(text.as_str()) {
                    Some(background) => {
                        self.set_background(background);
                        Answer::Background
                    },
                    None => refuse(
                        text3(
                            "invalid background spec: ",
                            text.as_str(),
                            " (use #RRGGBB, r,g,b, or two colors separated by -)",
                        ),
                    ),
                }
            },
            IpcCommand::CreateOutput { name, width, height } => {
                if self.output_index(name.as_str()).is_some() {
                    refuse(text3("output '", name.as_str(), "' already exists"))
                } else {
                    let x: i32 = self.right_edge();
                    let geometry = Rect { x, y: 0, width: *width as i32, height: *height as i32 };
                    self.register_output(name.clone(), geometry);
                    effects.push(
                        Effect::Emit {
                            event: IpcEvent::OutputCreated {
                                name: name.clone(),
                                width: *width,
                                height: *height,
                            },
                        },
                    );
                    let mut text = text3("created output '", name.as_str(), "' (");
                    text.append(decimal_text(*width as u64).as_str());
                    text.append("x");
                    text.append(decimal_text(*height as u64).as_str());
                    text.append(")");
                    say(text)
                }
            },
            IpcCommand::RemoveOutput { name } => {
                if self.output_index(name.as_str()).is_none() {
                    refuse(text3("output '", name.as_str(), "' not found"))
                } else if self.outputs.len() <= 1 {
                    refuse(String::from_str("cannot remove the last output"))
                } else {
                    effects = self.unregister_output(name.as_str());
                    let ghost first = effects@;
                    effects.push(
                        Effect::Emit { event: IpcEvent::OutputRemoved { name: name.clone() } },
                    );
                    assert(effects@.drop_last() =~= first);
                    say(text3("removed output '", name.as_str(), "'"))
                }
            },
            IpcCommand::ListOutputs => show(IpcData::Outputs(self.output_rows())),
            IpcCommand::FocusOutput { name } => {
                if self.output_index(name.as_str()).is_none() {
                    refuse(text3("output '", name.as_str(), "' not found"))
                } else {
                    effects = self.focus_output(name.as_str());
                    let ghost first = effects@;
                    effects.push(
                        Effect::Emit { event: IpcEvent::OutputFocused { name: name.clone() } },
                    );
                    assert(effects@.drop_last() =~= first);
                    say(text3("focused output '", name.as_str(), "'"))
                }
            },
            IpcCommand::MoveWindowToOutput { name } => {
                let (sent, todo) = self.move_window_to_output(name.as_str());
                effects = todo;
                if sent {
                    say(text3("moved window to output '", name.as_str(), "'"))
                } else {
                    refuse(
                        text3(
                            "failed to move window to output '",
                            name.as_str(),
                            "' (no focused window or output not found)",
                        ),
                    )
                }
            },
            IpcCommand::Status => {
                let focused_output = match &self.focused_output {
                    Some(name) => name.clone(),
                    None => String::from_str(""),
                };
                show(
                    IpcData::Status(
                        Status {
                            rdp_clients: self.rdp_clients,
                            vnc_clients: self.vnc_clients,
                            windows: mapped,
                            outputs: self.outputs.len(),
                            focused_output,
                            focused_workspace: self.focused_workspace(),
                        },
                    ),
                )
            },
        };
        Handled { effects, request, answer }
    }

    /// Tells the ratio of the focused output's layout.
    fn ratio_answer(&self) -> (r: Answer)
        requires
            self.wf(),
            self@.focused_index() is Some,
            self.outputs@[self@.focused_index()->0].layout.ratio() is Some,
        ensures
            r == Answer::Percent(self.outputs@[self@.focused_index()->0].layout.ratio()->0),
    {
        match self.master_ratio() {
            Some(ratio) => Answer::Percent(ratio),
            None => agree(),
        }
    }

    /// The plugins have been loaded again: `count` of them, with these layouts. A layout of the
    /// focused output other than column and monocle is made anew, or gives way to column where no
    /// plugin has it any more.
    pub fn plugins_reloaded(&mut self, count: usize, layouts: Vec<String>) -> (r: (
        Vec<Effect>,
        IpcResponse,
    ))
        requires
            old(self).wf(),
        ensures
            final(self).wf(),
            reloaded(old(self)@, final(self)@, layouts@, r.0@),
            says(
                Answer::Now(r.1),
                "reloaded "@ + decimal(count as nat) + " plugins"@,
            ),
    {
        let current = String::from_str(self.layout_name());
        let keep = same(current.as_str(), "column") || same(current.as_str(), "monocle");
        let found = find_name(&layouts, current.as_str()).is_some();
        self.plugin_layouts = layouts;
        let ghost loaded = self@;
        let mut effects: Vec<Effect> = Vec::new();
        if !keep {
            let layout = if found {
                ActiveLayout::Plugin(current)
            } else {
                ActiveLayout::Column(ColumnLayout::default())
            };
            assert(is_after_reload(layout, old(self)@.layout_label(), layouts@));
            self.set_focused_layout(layout);
            proof {
                lemma_same_names(old(self)@.outputs, self@.outputs);
            }
            self.push_retile_focused(&mut effects);
            assert(effects@ =~= old(self)@.retiles_focused());
        }
        (
            effects,
            IpcResponse::Success {
                message: Some(text3("reloaded ", decimal_text(count as u64).as_str(), " plugins")),
            },
        )
    }
}

/// The layout of the focused output after a reload.
pub open spec fn is_after_reload(
    layout: ActiveLayout,
    label: Seq<char>,
    layouts: Seq<String>,
) -> bool {
    if contains_name(layouts, label) {
        layout matches ActiveLayout::Plugin(name) && name@ == label
    } else {
        layout matches ActiveLayout::Column(l) && l.main_ratio.units == 79263353441720736 && l.gap
            == 4
    }
}

/// What a reload of the plugins does to the state.
pub open spec fn reloaded(
    before: Model,
    after: Model,
    layouts: Seq<String>,
    effects: Seq<Effect>,
) -> bool {
    let loaded = Model { plugin_layouts: layouts, ..before };
    let label = before.layout_label();
    if label == "column"@ || label == "monocle"@ {
        after == loaded && effects == Seq::<Effect>::empty()
    } else {
        &&& exists|layout: ActiveLayout| #[trigger]
            is_after_reload(layout, label, layouts) && after == loaded.with_layout_gapped(layout)
        &&& effects == before.retiles_focused()
    }
}

/// The answer to a program start: success, or the reason why it failed.
pub fn spawn_answer(cmd: &str, error: Option<&str>) -> (r: IpcResponse)
    ensures
        match error {
            Some(e) => refuses(Answer::Now(r), "failed to spawn "@ + cmd@ + ": "@ + e@),
            None => says(Answer::Now(r), "spawned "@ + cmd@),
        },
{
    match error {
        Some(e) => {
            let mut message = text3("failed to spawn ", cmd, ": ");
            message.append(e);
            IpcResponse::Error { message }
        },
        None => {
            let mut message = String::from_str("spawned ");
            message.append(cmd);
            IpcResponse::Success { message: Some(message) }
        },
    }
}

/// The answer to a reload that failed; without a reason there was no runtime to load plugins.
pub fn reload_failure(error: Option<&str>) -> (r: IpcResponse)
    ensures
        match error {
            Some(e) => refuses(Answer::Now(r), "reload failed: "@ + e@),
            None => refuses(Answer::Now(r), "no plugin runtime configured"@),
        },
{
    match error {
        Some(e) => {
            let mut message = String::from_str("reload failed: ");
            message.append(e);
            IpcResponse::Error { message }
        },
        None => IpcResponse::Error { message: String::from_str("no plugin runtime configured") },
    }
}

/// What a connection does with a line that it has read.
#[derive(Debug, Clone, Copy, PartialEq, Eq, Structural)]
pub enum ClientStep {
    /// Nothing: the line is empty.
    Skip,
    /// Answer that the line is no command.
    Refuse,
    /// Confirm, and pass on events from now on.
    Subscribe,
    /// Hand the command to the compositor, and answer with its response.
    Forward,
}

/// Decides on a line, given the command that it stands for, if it does.
pub fn client_step(line: &str, command: Option<&IpcCommand>) -> (r: ClientStep)
    ensures
        r == (if trimmed(line@).len() == 0 {
            ClientStep::Skip
        } else {
            match command {
                None => ClientStep::Refuse,
                Some(c) => if *c is Subscribe {
                    ClientStep::Subscribe
                } else {
                    ClientStep::Forward
                },
            }
        }),
{
    let content = trim_chars(&chars_of(line));
    if content.len() == 0 {
        ClientStep::Skip
    } else {
        match command {
            None => ClientStep::Refuse,
            Some(c) => match c {
                IpcCommand::Subscribe => ClientStep::Subscribe,
                _ => ClientStep::Forward,
            },
        }
    }
}

/// The answer to a line that is no command.
pub fn invalid_command(error: &str) -> (r: IpcResponse)
    ensures
        refuses(Answer::Now(r), "invalid command: "@ + error@),
{
    IpcResponse::Error { message: text2("invalid command: ", error) }
}

/// The answer to a subscription.
pub fn subscribed() -> (r: IpcResponse)
    ensures
        says(Answer::Now(r), "subscribed"@),
{
    IpcResponse::Success { message: Some(String::from_str("subscribed")) }
}

/// The answer where the compositor gave none.
pub fn no_response() -> (r: IpcResponse)
    ensures
        refuses(Answer::Now(r), "compositor did not respond"@),
{
    IpcResponse::Error { message: String::from_str("compositor did not respond") }
}

fn refuse_workspace(workspace: usize) -> (r: Answer)
    ensures
        refuses(r, bad_workspace(workspace)),
{
    refuse(
        text3("invalid workspace: ", decimal_text(workspace as u64).as_str(), " (must be 1-9)"),
    )
}

pub(crate) fn clone_texts(texts: &Vec<String>) -> (r: Vec<String>)
    ensures
        r@ == texts@,
{
    let mut r: Vec<String> = Vec::new();
    let mut i: usize = 0;
    while i < texts.len()
        invariant
            i <= texts@.len(),
            r@ =~= texts@.take(i as int),
        decreases texts@.len() - i,
    {
        r.push(texts[i].clone());
        i = i + 1;
    }
    assert(texts@.take(i as int) =~= texts@);
    r
}

} // verus!
