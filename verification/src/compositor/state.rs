//! Outputs, workspaces and windows.

use crate::background::Background;
use crate::compositor::event::WindowRule;
use crate::compositor::layout::ActiveLayout;
use crate::compositor::workspaces::Workspaces;
use crate::text::same;
use crate::tiling::column::ColumnLayout;
use crate::tiling::{Rect, WindowId};
use std::collections::{HashMap, HashSet};
use vstd::prelude::*;
use vstd::string::*;

verus! {

broadcast use vstd::std_specs::hash::group_hash_axioms;

/// Largest number of a workspace that can be switched to.
pub const LAST_WORKSPACE: usize = 9;

/// Per-output state. Each output has independent workspace focus, layout, and background.
#[derive(Debug)]
pub struct OutputState {
    pub name: String,
    /// Where the output lies in the compositor's space.
    pub geometry: Rect,
    pub active_workspace: usize,
    pub layout: ActiveLayout,
    pub background: Background,
}

/// What is known of a window.
#[derive(Debug, Clone, Copy, PartialEq, Eq, Structural)]
pub struct WindowInfo {
    /// Whether the window has a surface that can take the keyboard focus.
    pub has_surface: bool,
    /// Whether the window belongs to an X11 application.
    pub x11: bool,
    /// The workspace that the window belongs to. Menus and tooltips of X11 belong to none.
    pub workspace: Option<usize>,
    /// How often the window has committed its surface.
    pub commits: u32,
}

/// A keybinding that a plugin registered.
#[derive(Debug)]
pub struct PluginKeybinding {
    pub keysym: u32,
    pub alt: bool,
    pub ctrl: bool,
    pub shift: bool,
    pub logo: bool,
    pub callback_id: String,
}

/// The compositor's state.
#[derive(Debug)]
pub struct DinatorState {
    /// The outputs, in the order in which they were mapped.
    pub outputs: Vec<OutputState>,
    /// Name of the currently focused output (receives keyboard input).
    pub focused_output: Option<String>,
    /// Every window, by its number.
    pub windows: HashMap<u64, WindowInfo>,
    pub floating: HashSet<u64>,
    pub fullscreen: HashSet<u64>,
    /// Window order per workspace. Each output shows one workspace.
    pub workspaces: Workspaces,
    /// The window that has the keyboard focus.
    pub keyboard_focus: Option<WindowId>,
    /// Number of the next window.
    pub next_window: u64,
    /// Names of the layouts that plugins provide.
    pub plugin_layouts: Vec<String>,
    /// Window rules from plugins.
    pub window_rules: Vec<WindowRule>,
    pub plugin_keybindings: Vec<PluginKeybinding>,
    pub rdp_clients: u32,
    pub vnc_clients: u32,
}

/// The state as mathematical values.
#[verifier::ext_equal]
pub struct Model {
    pub outputs: Seq<OutputState>,
    pub focused_output: Option<Seq<char>>,
    pub windows: Map<u64, WindowInfo>,
    pub floating: Set<u64>,
    pub fullscreen: Set<u64>,
    pub orders: Map<usize, Seq<WindowId>>,
    pub saved_focus: Map<usize, Option<WindowId>>,
    pub keyboard_focus: Option<WindowId>,
    pub next_window: u64,
    pub plugin_layouts: Seq<String>,
    pub window_rules: Seq<WindowRule>,
    pub plugin_keybindings: Seq<PluginKeybinding>,
    pub rdp_clients: u32,
    pub vnc_clients: u32,
}

/// Output `i` has this name.
pub open spec fn named(outputs: Seq<OutputState>, name: Seq<char>, i: int) -> bool {
    0 <= i < outputs.len() && outputs[i].name@ == name
}

/// An output of this name exists.
pub open spec fn has_output(outputs: Seq<OutputState>, name: Seq<char>) -> bool {
    exists|i: int| named(outputs, name, i)
}

/// The index of the output of this name.
pub open spec fn index_of(outputs: Seq<OutputState>, name: Seq<char>) -> int {
    choose|i: int| named(outputs, name, i)
}

pub open spec fn distinct(outputs: Seq<OutputState>) -> bool {
    forall|i: int, j: int|
        0 <= i < j < outputs.len() ==> (#[trigger] outputs[i]).name@ != (
        #[trigger] outputs[j]).name@
}

/// An output has an area, and its far edges can be written down.
pub open spec fn geometry_ok(r: Rect) -> bool {
    &&& 0 <= r.width
    &&& 0 <= r.height
    &&& r.x + r.width <= i32::MAX
    &&& r.y + r.height <= i32::MAX
}

pub(crate) proof fn lemma_index_of(outputs: Seq<OutputState>, name: Seq<char>, i: int)
    requires
        distinct(outputs),
        named(outputs, name, i),
    ensures
        has_output(outputs, name),
        index_of(outputs, name) == i,
{
    let k = index_of(outputs, name);
    assert(named(outputs, name, k));
    if k < i {
        assert(outputs[k].name@ != outputs[i].name@);
    } else if i < k {
        assert(outputs[i].name@ != outputs[k].name@);
    }
}

/// Workspace `n` is shown by one of the outputs.
pub open spec fn shown(outputs: Seq<OutputState>, n: usize) -> bool {
    exists|i: int| 0 <= i < outputs.len() && (#[trigger] outputs[i]).active_workspace == n
}

/// The workspace for a new output: the first of 1 to 9 that no output shows, else 1.
pub open spec fn is_free_workspace(outputs: Seq<OutputState>, n: usize) -> bool {
    ||| {
        &&& 1 <= n <= LAST_WORKSPACE
        &&& !shown(outputs, n)
        &&& forall|m: usize| 1 <= m < n ==> #[trigger] shown(outputs, m)
    }
    ||| {
        &&& n == 1
        &&& forall|m: usize| 1 <= m <= LAST_WORKSPACE ==> #[trigger] shown(outputs, m)
    }
}

impl Model {
    /// The windows of a workspace, in order.
    pub open spec fn order(&self, workspace: usize) -> Seq<WindowId> {
        self.orders[workspace]
    }

    /// The index of the focused output, if there is one.
    pub open spec fn focused_index(&self) -> Option<int> {
        match self.focused_output {
            Some(name) => if has_output(self.outputs, name) {
                Some(index_of(self.outputs, name))
            } else {
                None
            },
            None => None,
        }
    }

    /// The workspace that the focused output shows, else 1.
    pub open spec fn focused_workspace(&self) -> usize {
        match self.focused_index() {
            Some(i) => self.outputs[i].active_workspace,
            None => 1,
        }
    }

    /// The window exists and can take the keyboard focus.
    pub open spec fn focusable(&self, id: WindowId) -> bool {
        self.windows.dom().contains(id.0) && self.windows[id.0].has_surface
    }

    /// The window that has the keyboard focus, if it is one of the windows.
    pub open spec fn focused_id(&self) -> Option<WindowId> {
        match self.keyboard_focus {
            Some(id) => if self.windows.dom().contains(id.0) {
                Some(id)
            } else {
                None
            },
            None => None,
        }
    }
}

impl DinatorState {
    pub open spec fn view(&self) -> Model {
        Model {
            outputs: self.outputs@,
            focused_output: match self.focused_output {
                Some(name) => Some(name@),
                None => None,
            },
            windows: self.windows@,
            floating: self.floating@,
            fullscreen: self.fullscreen@,
            orders: self.workspaces.orders(),
            saved_focus: self.workspaces.focuses(),
            keyboard_focus: self.keyboard_focus,
            next_window: self.next_window,
            plugin_layouts: self.plugin_layouts@,
            window_rules: self.window_rules@,
            plugin_keybindings: self.plugin_keybindings@,
            rdp_clients: self.rdp_clients,
            vnc_clients: self.vnc_clients,
        }
    }

    /// Output names differ, every output has a layout and a geometry in order, and an output is
    /// focused exactly while there is one.
    pub open spec fn wf(&self) -> bool {
        &&& self.workspaces.wf()
        &&& distinct(self.outputs@)
        &&& forall|i: int|
            0 <= i < self.outputs@.len() ==> (#[trigger] self.outputs@[i]).layout.wf()
                && geometry_ok(self.outputs@[i].geometry)
        &&& match self.focused_output {
            Some(name) => has_output(self.outputs@, name@),
            None => self.outputs@.len() == 0,
        }
        &&& forall|id: u64| self.windows@.dom().contains(id) ==> id < self.next_window
    }

    /// A state without outputs and windows.
    pub fn new() -> (r: Self)
        ensures
            r.wf(),
            r@.outputs == Seq::<OutputState>::empty(),
            r@.focused_output is None,
            r@.windows == Map::<u64, WindowInfo>::empty(),
            r@.floating == Set::<u64>::empty(),
            r@.fullscreen == Set::<u64>::empty(),
            forall|n: usize| #[trigger] r@.orders[n] == Seq::<WindowId>::empty(),
            forall|n: usize| #[trigger] r@.saved_focus[n] is None,
            r@.keyboard_focus is None,
            r@.next_window == 1,
            r@.plugin_layouts.len() == 0,
            r@.window_rules.len() == 0,
            r@.plugin_keybindings.len() == 0,
            r@.rdp_clients == 0,
            r@.vnc_clients == 0,
    {
        DinatorState {
            outputs: Vec::new(),
            focused_output: None,
            windows: HashMap::new(),
            floating: HashSet::new(),
            fullscreen: HashSet::new(),
            workspaces: Workspaces::new(),
            keyboard_focus: None,
            next_window: 1,
            plugin_layouts: Vec::new(),
            window_rules: Vec::new(),
            plugin_keybindings: Vec::new(),
            rdp_clients: 0,
            vnc_clients: 0,
        }
    }

    /// Index of the output of this name.
    pub fn output_index(&self, name: &str) -> (r: Option<usize>)
        requires
            distinct(self.outputs@),
        ensures
            match r {
                Some(i) => named(self.outputs@, name@, i as int) && has_output(
                    self.outputs@,
                    name@,
                ) && index_of(self.outputs@, name@) == i,
                None => !has_output(self.outputs@, name@),
            },
    {
        let mut i: usize = 0;
        while i < self.outputs.len()
            invariant
                distinct(self.outputs@),
                i <= self.outputs@.len(),
                forall|j: int| 0 <= j < i ==> !named(self.outputs@, name@, j),
            decreases self.outputs@.len() - i,
        {
            if same(self.outputs[i].name.as_str(), name) {
                proof {
                    lemma_index_of(self.outputs@, name@, i as int);
                }
                return Some(i);
            }
            i = i + 1;
        }
        None
    }

    /// Index of the focused output.
    pub fn focused_output_index(&self) -> (r: Option<usize>)
        requires
            distinct(self.outputs@),
        ensures
            match r {
                Some(i) => self@.focused_index() == Some(i as int) && i < self.outputs@.len(),
                None => self@.focused_index() is None,
            },
    {
        match &self.focused_output {
            Some(name) => self.output_index(name.as_str()),
            None => None,
        }
    }

    /// Get the focused output's active workspace number.
    pub fn focused_workspace(&self) -> (r: usize)
        requires
            distinct(self.outputs@),
        ensures
            r == self@.focused_workspace(),
    {
        match self.focused_output_index() {
            Some(i) => self.outputs[i].active_workspace,
            None => 1,
        }
    }

    /// Get the focused output.
    pub fn get_focused_output(&self) -> (r: Option<&OutputState>)
        requires
            distinct(self.outputs@),
        ensures
            match r {
                Some(o) => self@.focused_index() is Some && *o
                    == self.outputs@[self@.focused_index()->0],
                None => self@.focused_index() is None,
            },
    {
        match self.focused_output_index() {
            Some(i) => Some(&self.outputs[i]),
            None => None,
        }
    }

    /// Whether an output shows a workspace.
    fn is_shown(&self, n: usize) -> (r: bool)
        ensures
            r == shown(self.outputs@, n),
    {
        let mut i: usize = 0;
        while i < self.outputs.len()
            invariant
                i <= self.outputs@.len(),
                forall|j: int|
                    0 <= j < i ==> (#[trigger] self.outputs@[j]).active_workspace != n,
            decreases self.outputs@.len() - i,
        {
            if self.outputs[i].active_workspace == n {
                assert(self.outputs@[i as int].active_workspace == n);
                return true;
            }
            i = i + 1;
        }
        false
    }

    /// The first workspace of 1 to 9 that no output shows, else 1.
    pub fn free_workspace(&self) -> (r: usize)
        ensures
            is_free_workspace(self.outputs@, r),
    {
        let mut n: usize = 1;
        while n <= LAST_WORKSPACE
            invariant
                1 <= n <= LAST_WORKSPACE + 1,
                forall|m: usize| 1 <= m < n ==> #[trigger] shown(self.outputs@, m),
            decreases LAST_WORKSPACE + 1 - n,
        {
            if !self.is_shown(n) {
                return n;
            }
            n = n + 1;
        }
        1
    }

    /// Register a new output with default per-output state. It shows the first free workspace, so
    /// that each output has its own. The first output takes the focus. An output of the same name
    /// gives way in its place.
    pub fn register_output(&mut self, name: String, geometry: Rect)
        requires
            old(self).wf(),
            geometry_ok(geometry),
        ensures
            final(self).wf(),
            output_added(old(self)@, final(self)@, name, geometry),
    {
        let focus_name: String = name.clone();
        let index: Option<usize> = self.output_index(name.as_str());
        let layout = ActiveLayout::Column(ColumnLayout::default());
        let active_workspace: usize = self.free_workspace();
        let fresh = OutputState {
            name,
            geometry,
            active_workspace,
            layout,
            background: Background::Default,
        };
        let ghost made = fresh;
        assert(is_fresh_output(made, name, geometry));
        let ghost before = self.outputs@;
        match index {
            Some(i) => {
                self.outputs.set(i, fresh);
                proof {
                    assert(self.outputs@ =~= before.update(i as int, made));
                    lemma_same_names(before, self.outputs@);
                }
            },
            None => {
                self.outputs.push(fresh);
                proof {
                    let after = self.outputs@;
                    assert forall|i: int, j: int| 0 <= i < j < after.len() implies (
                    #[trigger] after[i]).name@ != (#[trigger] after[j]).name@ by {
                        if j == before.len() {
                            assert(!named(before, name@, i));
                        }
                    }
                    lemma_kept_outputs(before, after);
                    assert(named(after, name@, before.len() as int));
                }
            },
        }
        if self.focused_output.is_none() {
            self.focused_output = Some(focus_name);
        }
        proof {
            assert(has_output(self.outputs@, name@));
        }
    }

    /// Move or resize an output.
    pub fn set_output_geometry(&mut self, name: &str, geometry: Rect)
        requires
            old(self).wf(),
            geometry_ok(geometry),
        ensures
            final(self).wf(),
            has_output(old(self).outputs@, name@) ==> final(self)@ == (Model {
                outputs: old(self).outputs@.update(
                    index_of(old(self).outputs@, name@),
                    (OutputState {
                        geometry,
                        ..old(self).outputs@[index_of(old(self).outputs@, name@)]
                    }),
                ),
                ..old(self)@
            }),
            !has_output(old(self).outputs@, name@) ==> final(self)@ == old(self)@,
    {
        match self.output_index(name) {
            Some(i) => {
                let ghost before = self.outputs@;
                let output = &mut self.outputs[i];
                output.geometry = geometry;
                proof {
                    lemma_same_names(before, self.outputs@);
                }
            },
            None => {},
        }
    }

    /// Find which output is currently showing a workspace.
    pub fn output_for_workspace(&self, ws: usize) -> (r: Option<usize>)
        ensures
            match r {
                Some(i) => {
                    &&& i < self.outputs@.len()
                    &&& self.outputs@[i as int].active_workspace == ws
                    &&& forall|j: int|
                        0 <= j < i ==> (#[trigger] self.outputs@[j]).active_workspace != ws
                },
                None => !shown(self.outputs@, ws),
            },
    {
        let mut i: usize = 0;
        while i < self.outputs.len()
            invariant
                i <= self.outputs@.len(),
                forall|j: int|
                    0 <= j < i ==> (#[trigger] self.outputs@[j]).active_workspace != ws,
            decreases self.outputs@.len() - i,
        {
            if self.outputs[i].active_workspace == ws {
                return Some(i);
            }
            i = i + 1;
        }
        None
    }

    /// Get the window list for a workspace.
    pub fn ws_window_list(&self, ws: usize) -> (r: &[WindowId])
        requires
            self.workspaces.wf(),
        ensures
            r@ == self@.order(ws),
    {
        self.workspaces.list(ws)
    }

    /// Whether a window exists and can take the keyboard focus.
    pub fn is_focusable(&self, id: WindowId) -> (r: bool)
        ensures
            r == self@.focusable(id),
    {
        match self.windows.get(&id.0) {
            Some(w) => w.has_surface,
            None => false,
        }
    }

    /// The window that has the keyboard focus, if it is one of the windows.
    pub fn focused_window(&self) -> (r: Option<WindowId>)
        ensures
            r == self@.focused_id(),
    {
        match self.keyboard_focus {
            Some(id) => if self.windows.contains_key(&id.0) {
                Some(id)
            } else {
                None
            },
            None => None,
        }
    }
}

/// An output is registered: it shows the first free workspace, takes the place of one of the same
/// name or the last place, and takes the focus if there was none.
pub open spec fn output_added(before: Model, after: Model, name: String, geometry: Rect) -> bool {
    exists|fresh: OutputState|
        {
            &&& #[trigger] is_fresh_output(fresh, name, geometry)
            &&& is_free_workspace(before.outputs, fresh.active_workspace)
            &&& after == Model {
                outputs: if has_output(before.outputs, name@) {
                    before.outputs.update(index_of(before.outputs, name@), fresh)
                } else {
                    before.outputs.push(fresh)
                },
                focused_output: match before.focused_output {
                    Some(n) => Some(n),
                    None => Some(name@),
                },
                ..before
            }
        }
}

/// An output as it is registered.
pub open spec fn is_fresh_output(o: OutputState, name: String, geometry: Rect) -> bool {
    &&& o.name == name
    &&& o.geometry == geometry
    &&& o.background == Background::Default
    &&& o.layout matches ActiveLayout::Column(l) && l.main_ratio.units == 79263353441720736
        && l.gap == 4
}

/// Changes that keep every name keep the names distinct and findable.
pub(crate) proof fn lemma_same_names(before: Seq<OutputState>, after: Seq<OutputState>)
    requires
        after.len() == before.len(),
        forall|i: int|
            0 <= i < after.len() ==> (#[trigger] after[i]).name@ == before[i].name@,
    ensures
        distinct(before) ==> distinct(after),
        forall|name: Seq<char>| has_output(before, name) ==> #[trigger] has_output(after, name),
        forall|name: Seq<char>| #[trigger] has_output(after, name) ==> has_output(before, name),
        distinct(before) ==> forall|name: Seq<char>|
            has_output(before, name) ==> #[trigger] index_of(after, name) == index_of(before, name),
{
    assert forall|name: Seq<char>| has_output(before, name) implies #[trigger] has_output(
        after,
        name,
    ) by {
        let i = index_of(before, name);
        assert(named(after, name, i));
    }
    assert forall|name: Seq<char>| #[trigger] has_output(after, name) implies has_output(
        before,
        name,
    ) by {
        let i = index_of(after, name);
        assert(named(before, name, i));
    }
    if distinct(before) {
        assert forall|i: int, j: int| 0 <= i < j < after.len() implies (#[trigger] after[i]).name@
            != (#[trigger] after[j]).name@ by {
            assert(before[i].name@ != before[j].name@);
        }
        assert forall|name: Seq<char>| has_output(before, name) implies #[trigger] index_of(
            after,
            name,
        ) == index_of(before, name) by {
            let i = index_of(before, name);
            assert(named(after, name, i));
            lemma_index_of(after, name, i);
        }
    }
}

/// Outputs that are kept in front of others can still be found.
pub(crate) proof fn lemma_kept_outputs(before: Seq<OutputState>, after: Seq<OutputState>)
    requires
        before.len() <= after.len(),
        forall|i: int| 0 <= i < before.len() ==> (#[trigger] after[i]).name@ == before[i].name@,
    ensures
        forall|name: Seq<char>| has_output(before, name) ==> #[trigger] has_output(after, name),
{
    assert forall|name: Seq<char>| has_output(before, name) implies #[trigger] has_output(
        after,
        name,
    ) by {
        let i = index_of(before, name);
        assert(named(after, name, i));
    }
}

} // verus!
