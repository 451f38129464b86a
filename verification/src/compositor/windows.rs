//! What moves the keyboard focus and windows within and between workspaces, and toggles how
//! windows are shown.

use crate::compositor::event::{Effect, IpcEvent};
use crate::compositor::outputs::{cycle_index, unmaps};
use crate::compositor::state::{
    geometry_ok, lemma_same_names, DinatorState, Model, OutputState, WindowInfo, LAST_WORKSPACE,
};
use crate::tiling::{Rect, WindowId};
use vstd::prelude::*;

verus! {

broadcast use vstd::std_specs::hash::group_hash_axioms;

/// Index of the first occurrence of a window in a list, or the list's length.
pub open spec fn position_in(order: Seq<WindowId>, id: WindowId) -> int
    decreases order.len(),
{
    if order.len() == 0 {
        0
    } else {
        let i = position_in(order.drop_last(), id);
        if i < order.len() - 1 {
            i
        } else if order.last() == id {
            order.len() - 1
        } else {
            order.len() as int
        }
    }
}

pub(crate) proof fn lemma_position_stable(order: Seq<WindowId>, id: WindowId, n: int)
    requires
        0 <= n <= order.len(),
        position_in(order.take(n), id) < n,
    ensures
        position_in(order, id) == position_in(order.take(n), id),
    decreases order.len() - n,
{
    if n < order.len() {
        assert(order.take(n + 1).drop_last() =~= order.take(n));
        lemma_position_stable(order, id, n + 1);
    } else {
        assert(order.take(n) =~= order);
    }
}

/// The first occurrence is one, and none comes before it.
pub proof fn lemma_position(order: Seq<WindowId>, id: WindowId)
    ensures
        0 <= position_in(order, id) <= order.len(),
        position_in(order, id) < order.len() ==> order[position_in(order, id)] == id,
        forall|j: int| 0 <= j < position_in(order, id) ==> #[trigger] order[j] != id,
    decreases order.len(),
{
    if order.len() > 0 {
        lemma_position(order.drop_last(), id);
        assert forall|j: int| 0 <= j < position_in(order, id) implies #[trigger] order[j] != id by {
            if j < order.len() - 1 {
                assert(order.drop_last()[j] == order[j]);
            }
        }
    }
}

/// Index of the first occurrence of a window in a list.
pub fn window_position(order: &[WindowId], id: WindowId) -> (r: Option<usize>)
    ensures
        match r {
            Some(i) => i < order@.len() && position_in(order@, id) == i,
            None => position_in(order@, id) == order@.len(),
        },
{
    let mut i: usize = 0;
    while i < order.len()
        invariant
            i <= order@.len(),
            position_in(order@.take(i as int), id) == i,
        decreases order@.len() - i,
    {
        assert(order@.take(i + 1).drop_last() =~= order@.take(i as int));
        if order[i] == id {
            proof {
                lemma_position_stable(order@, id, i + 1);
            }
            return Some(i);
        }
        i = i + 1;
    }
    assert(order@.take(i as int) =~= order@);
    None
}

/// A list turned so that index `k` comes first.
pub open spec fn rotated(order: Seq<WindowId>, k: int) -> Seq<WindowId> {
    order.skip(k) + order.take(k)
}

/// A list with the first window and the one at `k` exchanged.
pub open spec fn swapped(order: Seq<WindowId>, k: int) -> Seq<WindowId> {
    order.update(0, order[k]).update(k, order[0])
}

/// A list turned so that index `k` comes first.
fn rotate(order: &[WindowId], k: usize) -> (r: Vec<WindowId>)
    requires
        k <= order@.len(),
    ensures
        r@ == rotated(order@, k as int),
{
    let mut r: Vec<WindowId> = Vec::new();
    let mut i: usize = k;
    while i < order.len()
        invariant
            k <= i <= order@.len(),
            r@ =~= order@.subrange(k as int, i as int),
        decreases order@.len() - i,
    {
        r.push(order[i]);
        i = i + 1;
    }
    let mut j: usize = 0;
    while j < k
        invariant
            j <= k <= order@.len(),
            r@ =~= order@.skip(k as int) + order@.take(j as int),
        decreases k - j,
    {
        r.push(order[j]);
        j = j + 1;
    }
    r
}

/// Two thirds of an area, in its middle.
pub open spec fn centered_in(area: Rect) -> Rect {
    let w = area.width * 2 / 3;
    let h = area.height * 2 / 3;
    Rect {
        x: (area.x + (area.width - w) / 2) as i32,
        y: (area.y + (area.height - h) / 2) as i32,
        width: w as i32,
        height: h as i32,
    }
}

/// Two thirds of an area, in its middle.
pub(crate) fn center_in(area: Rect) -> (r: Rect)
    requires
        geometry_ok(area),
    ensures
        r == centered_in(area),
{
    let w: i32 = (area.width as i64 * 2 / 3) as i32;
    let h: i32 = (area.height as i64 * 2 / 3) as i32;
    Rect {
        x: area.x + (area.width - w) / 2,
        y: area.y + (area.height - h) / 2,
        width: w,
        height: h,
    }
}

impl Model {
    /// What arranging the focused output asks for.
    pub open spec fn retiles_focused(&self) -> Seq<Effect> {
        match self.focused_index() {
            Some(i) => seq![Effect::Retile { output: self.outputs[i].name }],
            None => Seq::empty(),
        }
    }

    /// The layout of the focused output lets windows cover each other.
    pub open spec fn overlapping(&self) -> bool {
        self.focused_index() is Some && self.outputs[self.focused_index()->0].layout.overlapping()
    }

    /// Place of the focused window in a list; the first place where it is not there.
    pub open spec fn focus_place(&self, order: Seq<WindowId>) -> int {
        match self.focused_id() {
            Some(id) => if position_in(order, id) < order.len() {
                position_in(order, id)
            } else {
                0
            },
            None => 0,
        }
    }

    /// The window that gets the focus when it moves `direction` windows on.
    pub open spec fn next_focus(&self, direction: int) -> WindowId {
        let order = self.order(self.focused_workspace());
        order[(self.focus_place(order) + direction) % order.len() as int]
    }

    /// The focus can move on: two windows or more are on the focused workspace, and the next one
    /// exists.
    pub open spec fn can_cycle(&self, direction: int) -> bool {
        &&& self.order(self.focused_workspace()).len() >= 2
        &&& self.windows.dom().contains(self.next_focus(direction).0)
    }

    /// The state after the focus moved on. Where windows cover each other, the list turns so that
    /// the focused window comes first.
    pub open spec fn cycled(&self, direction: int) -> Model {
        let ws = self.focused_workspace();
        let order = self.order(ws);
        let next = self.next_focus(direction);
        let focused = self.focusing(next);
        if !self.can_cycle(direction) {
            *self
        } else if self.overlapping() {
            Model {
                orders: self.orders.insert(ws, rotated(order, position_in(order, next))),
                ..focused
            }
        } else {
            focused
        }
    }

    /// What moving the focus on asks for.
    pub open spec fn cycle_effects(&self, direction: int) -> Seq<Effect> {
        let next = self.next_focus(direction);
        if !self.can_cycle(direction) {
            Seq::empty()
        } else {
            let raised = seq![Effect::Raise { id: next, activate: true }] + self.focus_effects(
                next,
            );
            if self.overlapping() {
                raised + self.retiles_focused()
            } else {
                raised
            }
        }
    }

    /// The focused window is on the focused workspace, and not its first.
    pub open spec fn can_swap(&self) -> bool {
        let order = self.order(self.focused_workspace());
        &&& self.focused_id() is Some
        &&& 0 < position_in(order, self.focused_id()->0) < order.len()
    }

    /// The state after the focused window changed places with the first one.
    pub open spec fn master_swapped(&self) -> Model {
        let ws = self.focused_workspace();
        let order = self.order(ws);
        if self.can_swap() {
            Model {
                orders: self.orders.insert(
                    ws,
                    swapped(order, position_in(order, self.focused_id()->0)),
                ),
                ..*self
            }
        } else {
            *self
        }
    }

    /// The workspace can be switched to: it is one of 1 to 9 and not shown on the focused output.
    pub open spec fn can_switch(&self, workspace: usize) -> bool {
        &&& self.focused_index() is Some
        &&& 1 <= workspace <= LAST_WORKSPACE
        &&& workspace != self.focused_workspace()
    }

    /// The state after the focused output shows another workspace and before a window there has
    /// the focus.
    pub open spec fn arrived(&self, workspace: usize) -> Model {
        let i = self.focused_index()->0;
        Model {
            outputs: self.outputs.update(
                i,
                OutputState { active_workspace: workspace, ..self.outputs[i] },
            ),
            saved_focus: self.saved_focus.insert(self.focused_workspace(), self.focused_id()),
            keyboard_focus: None,
            ..*self
        }
    }

    /// The window that gets the focus on a workspace: the one that had it last, else the last.
    pub open spec fn focus_on_arrival(&self, workspace: usize) -> Option<WindowId> {
        let order = self.order(workspace);
        match self.saved_focus[workspace] {
            Some(id) => Some(id),
            None => if order.len() > 0 {
                Some(order.last())
            } else {
                None
            },
        }
    }

    /// The state after switching to a workspace.
    pub open spec fn switched(&self, workspace: usize) -> Model {
        if !self.can_switch(workspace) {
            *self
        } else {
            match self.focus_on_arrival(workspace) {
                Some(id) => self.arrived(workspace).focusing(id),
                None => self.arrived(workspace),
            }
        }
    }

    /// What switching to a workspace asks for: the old windows go, the focus is cleared, the new
    /// windows come, and one of them gets the focus.
    pub open spec fn switch_effects(&self, workspace: usize) -> Seq<Effect> {
        if !self.can_switch(workspace) {
            Seq::empty()
        } else {
            unmaps(self.order(self.focused_workspace()), self.windows) + seq![
                Effect::Focus { target: None },
            ] + self.retiles_focused() + (match self.focus_on_arrival(workspace) {
                Some(id) => if self.windows.dom().contains(id.0) {
                    seq![Effect::Raise { id, activate: true }] + self.focus_effects(id)
                } else {
                    Seq::empty()
                },
                None => Seq::empty(),
            }) + seq![Effect::Emit { event: IpcEvent::WorkspaceChanged { workspace } }]
        }
    }

    /// The focused window can be moved to a workspace.
    pub open spec fn can_move(&self, workspace: usize) -> bool {
        &&& 1 <= workspace <= LAST_WORKSPACE
        &&& workspace != self.focused_workspace()
        &&& self.focused_id() is Some
    }

    /// The state after the focused window went to a workspace. The last window that is left gets
    /// the focus.
    pub open spec fn moved_to(&self, workspace: usize) -> Model {
        let from = self.focused_workspace();
        let sent = self.sent(self.focused_id()->0, from, workspace);
        let left = sent.order(from);
        if !self.can_move(workspace) {
            *self
        } else if left.len() > 0 {
            sent.focusing(left.last())
        } else {
            Model { keyboard_focus: None, ..sent }
        }
    }

    /// What moving the focused window to a workspace asks for.
    pub open spec fn move_effects(&self, workspace: usize) -> Seq<Effect> {
        let from = self.focused_workspace();
        let id = self.focused_id()->0;
        let sent = self.sent(id, from, workspace);
        let left = sent.order(from);
        if !self.can_move(workspace) {
            Seq::empty()
        } else {
            seq![Effect::Unmap { id }] + self.retiles_focused() + (if left.len() > 0 {
                sent.focus_effects(left.last())
            } else {
                seq![Effect::Focus { target: None }]
            }) + seq![
                Effect::Emit { event: IpcEvent::WindowMovedWorkspace { id: id.0, workspace } },
            ]
        }
    }

    /// The state after a window changed between floating and tiled. A window that starts to float
    /// is not fullscreen any more.
    pub open spec fn float_toggled(&self, id: WindowId) -> Model {
        if self.floating.contains(id.0) {
            Model { floating: self.floating.remove(id.0), ..*self }
        } else {
            Model {
                floating: self.floating.insert(id.0),
                fullscreen: self.fullscreen.remove(id.0),
                ..*self
            }
        }
    }

    /// What toggling a floating window asks for: one that starts to float goes to the middle of
    /// the focused output.
    pub open spec fn float_effects(&self, id: WindowId) -> Seq<Effect> {
        match self.focused_index() {
            Some(i) => if self.floating.contains(id.0) {
                self.retiles_focused()
            } else {
                self.centering(id) + self.retiles_focused()
            },
            None => Seq::empty(),
        }
    }

    /// Put a window in the middle of the focused output, above the others.
    pub open spec fn centering(&self, id: WindowId) -> Seq<Effect> {
        match self.focused_index() {
            Some(i) => seq![
                Effect::Place {
                    id,
                    rect: centered_in(self.outputs[i].geometry),
                    fullscreen: false,
                },
                Effect::Raise { id, activate: true },
            ],
            None => Seq::empty(),
        }
    }

    /// The state after a window changed between fullscreen and not. A window that becomes
    /// fullscreen floats no more.
    pub open spec fn fullscreen_toggled(&self, id: WindowId) -> Model {
        if self.fullscreen.contains(id.0) {
            Model { fullscreen: self.fullscreen.remove(id.0), ..*self }
        } else {
            Model {
                fullscreen: self.fullscreen.insert(id.0),
                floating: self.floating.remove(id.0),
                ..*self
            }
        }
    }
}

impl DinatorState {
    /// Ask for the focused output to be arranged anew.
    pub(crate) fn push_retile_focused(&self, effects: &mut Vec<Effect>)
        requires
            self.wf(),
        ensures
            final(effects)@ == old(effects)@ + self@.retiles_focused(),
    {
        let ghost before = effects@;
        match self.focused_output_index() {
            Some(i) => {
                effects.push(Effect::Retile { output: self.outputs[i].name.clone() });
            },
            None => {},
        }
        assert(effects@ =~= before + self@.retiles_focused());
    }

    /// Whether the layout of the focused output lets windows cover each other.
    fn is_overlapping(&self) -> (r: bool)
        requires
            self.wf(),
        ensures
            r == self@.overlapping(),
    {
        match self.focused_output_index() {
            Some(i) => self.outputs[i].layout.is_overlapping(),
            None => false,
        }
    }

    /// Focus the next window in the window order.
    pub fn focus_next(&mut self) -> (effects: Vec<Effect>)
        requires
            old(self).wf(),
        ensures
            final(self).wf(),
            final(self)@ == old(self)@.cycled(1),
            effects@ == old(self)@.cycle_effects(1),
    {
        self.focus_cycle(1)
    }

    /// Focus the previous window in the window order.
    pub fn focus_prev(&mut self) -> (effects: Vec<Effect>)
        requires
            old(self).wf(),
        ensures
            final(self).wf(),
            final(self)@ == old(self)@.cycled(-1),
            effects@ == old(self)@.cycle_effects(-1),
    {
        self.focus_cycle(-1)
    }

    fn focus_cycle(&mut self, direction: i32) -> (effects: Vec<Effect>)
        requires
            old(self).wf(),
        ensures
            final(self).wf(),
            final(self)@ == old(self)@.cycled(direction as int),
            effects@ == old(self)@.cycle_effects(direction as int),
    {
        let ws: usize = self.focused_workspace();
        let mut effects: Vec<Effect> = Vec::new();
        let order: Vec<WindowId> = vstd::slice::slice_to_vec(self.workspaces.list(ws));
        assert(order@ == self@.order(ws));
        if order.len() < 2 {
            return effects;
        }
        let place: usize = match self.focused_window() {
            Some(id) => match window_position(&order, id) {
                Some(i) => i,
                None => 0,
            },
            None => 0,
        };
        let next: WindowId = order[cycle_index(place, direction, order.len())];
        assert(next == self@.next_focus(direction as int));
        if !self.windows.contains_key(&next.0) {
            return effects;
        }
        effects.push(Effect::Raise { id: next, activate: true });
        self.give_focus(next, &mut effects);
        let ghost raised = effects@;
        if self.is_overlapping() {
            proof {
                lemma_position(order@, next);
            }
            match window_position(&order, next) {
                Some(k) => {
                    let turned = rotate(&order, k);
                    self.workspaces.set_order(ws, turned);
                },
                None => {},
            }
            self.push_retile_focused(&mut effects);
            assert(self@.retiles_focused() == old(self)@.retiles_focused());
        }
        assert(effects@ =~= old(self)@.cycle_effects(direction as int));
        assert(self@ =~= old(self)@.cycled(direction as int));
        effects
    }

    /// Swap the focused window with the master (first) position.
    pub fn swap_master(&mut self) -> (effects: Vec<Effect>)
        requires
            old(self).wf(),
        ensures
            final(self).wf(),
            final(self)@ == old(self)@.master_swapped(),
            effects@ == (if old(self)@.can_swap() {
                old(self)@.retiles_focused()
            } else {
                Seq::empty()
            }),
    {
        let ws: usize = self.focused_workspace();
        let mut effects: Vec<Effect> = Vec::new();
        let mut order: Vec<WindowId> = vstd::slice::slice_to_vec(self.workspaces.list(ws));
        let ghost before = order@;
        match self.focused_window() {
            Some(id) => match window_position(&order, id) {
                Some(k) => {
                    if k != 0 {
                        let first: WindowId = order[0];
                        let other: WindowId = order[k];
                        order.set(0, other);
                        order.set(k, first);
                        assert(order@ =~= swapped(before, k as int));
                        self.workspaces.set_order(ws, order);
                        self.push_retile_focused(&mut effects);
                        assert(self@.retiles_focused() == old(self)@.retiles_focused());
                    }
                },
                None => {},
            },
            None => {},
        }
        assert(self@ =~= old(self)@.master_swapped());
        effects
    }

    /// Switch to a workspace (1-9) on the focused output.
    pub fn switch_workspace(&mut self, workspace: usize) -> (effects: Vec<Effect>)
        requires
            old(self).wf(),
        ensures
            final(self).wf(),
            final(self)@ == old(self)@.switched(workspace),
            effects@ == old(self)@.switch_effects(workspace),
    {
        let index: usize = match self.focused_output_index() {
            Some(i) => i,
            None => {
                return Vec::new();
            },
        };
        let current: usize = self.outputs[index].active_workspace;
        if workspace < 1 || workspace > LAST_WORKSPACE || workspace == current {
            return Vec::new();
        }
        let ghost m = self@;
        let focus: Option<WindowId> = self.focused_window();
        self.workspaces.save_focus(current, focus);
        let mut effects = self.unmap_workspace(current);
        assert(effects@ == unmaps(m.order(current), m.windows));
        self.keyboard_focus = None;
        effects.push(Effect::Focus { target: None });
        let ghost before = self.outputs@;
        let output = &mut self.outputs[index];
        output.active_workspace = workspace;
        proof {
            lemma_same_names(before, self.outputs@);
            assert(self.outputs@ =~= before.update(index as int, self.outputs@[index as int]));
            assert(self@ =~= m.arrived(workspace));
        }
        self.push_retile_focused(&mut effects);
        assert(self@.retiles_focused() == m.retiles_focused());
        let ghost shown = effects@;
        let target: Option<WindowId> = match self.workspaces.saved_focus(workspace) {
            Some(id) => Some(id),
            None => {
                let order = self.workspaces.list(workspace);
                if order.len() > 0 {
                    Some(order[order.len() - 1])
                } else {
                    None
                }
            },
        };
        assert(m.arrived(workspace).saved_focus[workspace] == m.saved_focus[workspace]);
        assert(target == m.focus_on_arrival(workspace));
        match target {
            Some(id) => {
                if self.windows.contains_key(&id.0) {
                    effects.push(Effect::Raise { id, activate: true });
                    self.give_focus(id, &mut effects);
                }
            },
            None => {},
        }
        effects.push(Effect::Emit { event: IpcEvent::WorkspaceChanged { workspace } });
        assert(effects@ =~= m.switch_effects(workspace));
        effects
    }

    /// Move the focused window to a workspace (1-9).
    pub fn move_to_workspace(&mut self, workspace: usize) -> (effects: Vec<Effect>)
        requires
            old(self).wf(),
        ensures
            final(self).wf(),
            final(self)@ == old(self)@.moved_to(workspace),
            effects@ == old(self)@.move_effects(workspace),
    {
        let mut effects: Vec<Effect> = Vec::new();
        let current: usize = self.focused_workspace();
        if workspace < 1 || workspace > LAST_WORKSPACE || workspace == current {
            return effects;
        }
        let ghost m = self@;
        let id: WindowId = match self.focused_window() {
            Some(id) => id,
            None => {
                return effects;
            },
        };
        let info: WindowInfo = match self.windows.get(&id.0) {
            Some(w) => *w,
            None => {
                return effects;
            },
        };
        self.windows.insert(id.0, WindowInfo { workspace: Some(workspace), ..info });
        self.workspaces.remove_from(current, id);
        self.workspaces.push(workspace, id);
        assert(self@ =~= m.sent(id, current, workspace));
        effects.push(Effect::Unmap { id });
        self.push_retile_focused(&mut effects);
        assert(self@.retiles_focused() == m.retiles_focused());
        let last: Option<WindowId> = {
            let order = self.workspaces.list(current);
            if order.len() > 0 {
                Some(order[order.len() - 1])
            } else {
                None
            }
        };
        match last {
            Some(next) => {
                self.give_focus(next, &mut effects);
            },
            None => {
                self.keyboard_focus = None;
                effects.push(Effect::Focus { target: None });
            },
        }
        effects.push(
            Effect::Emit { event: IpcEvent::WindowMovedWorkspace { id: id.0, workspace } },
        );
        assert(effects@ =~= m.move_effects(workspace));
        effects
    }

    /// Appends the effects that put a window in the middle of the focused output.
    pub(crate) fn push_centering(&self, id: WindowId, effects: &mut Vec<Effect>)
        requires
            self.wf(),
        ensures
            final(effects)@ == old(effects)@ + self@.centering(id),
    {
        let ghost before = effects@;
        match self.focused_output_index() {
            Some(i) => {
                let rect: Rect = center_in(self.outputs[i].geometry);
                effects.push(Effect::Place { id, rect, fullscreen: false });
                effects.push(Effect::Raise { id, activate: true });
            },
            None => {},
        }
        assert(effects@ =~= before + self@.centering(id));
    }

    /// Toggle the focused window between floating and tiled. Returns the window and whether it
    /// floats now.
    pub fn toggle_float(&mut self) -> (r: (Option<(WindowId, bool)>, Vec<Effect>))
        requires
            old(self).wf(),
        ensures
            final(self).wf(),
            match old(self)@.focused_id() {
                Some(id) => {
                    &&& r.0 == Some((id, !old(self)@.floating.contains(id.0)))
                    &&& final(self)@ == old(self)@.float_toggled(id)
                    &&& r.1@ == old(self)@.float_effects(id)
                },
                None => {
                    &&& r.0 is None
                    &&& final(self)@ == old(self)@
                    &&& r.1@ == Seq::<Effect>::empty()
                },
            },
    {
        let mut effects: Vec<Effect> = Vec::new();
        let id: WindowId = match self.focused_window() {
            Some(id) => id,
            None => {
                return (None, effects);
            },
        };
        let ghost m = self@;
        let floats: bool = !self.floating.contains(&id.0);
        if floats {
            self.fullscreen.remove(&id.0);
            self.floating.insert(id.0);
            self.push_centering(id, &mut effects);
            assert(self@.centering(id) == m.centering(id));
        } else {
            self.floating.remove(&id.0);
        }
        self.push_retile_focused(&mut effects);
        assert(self@.retiles_focused() == m.retiles_focused());
        assert(self@ =~= m.float_toggled(id));
        assert(effects@ =~= m.float_effects(id));
        (Some((id, floats)), effects)
    }

    /// Toggle fullscreen for the focused window. Returns the window and whether it is fullscreen
    /// now.
    pub fn toggle_fullscreen(&mut self) -> (r: (Option<(WindowId, bool)>, Vec<Effect>))
        requires
            old(self).wf(),
        ensures
            final(self).wf(),
            match old(self)@.focused_id() {
                Some(id) => {
                    &&& r.0 == Some((id, !old(self)@.fullscreen.contains(id.0)))
                    &&& final(self)@ == old(self)@.fullscreen_toggled(id)
                    &&& r.1@ == old(self)@.retiles_focused()
                },
                None => {
                    &&& r.0 is None
                    &&& final(self)@ == old(self)@
                    &&& r.1@ == Seq::<Effect>::empty()
                },
            },
    {
        let mut effects: Vec<Effect> = Vec::new();
        let id: WindowId = match self.focused_window() {
            Some(id) => id,
            None => {
                return (None, effects);
            },
        };
        let ghost m = self@;
        let full: bool = !self.fullscreen.contains(&id.0);
        if full {
            self.floating.remove(&id.0);
            self.fullscreen.insert(id.0);
        } else {
            self.fullscreen.remove(&id.0);
        }
        self.push_retile_focused(&mut effects);
        assert(self@.retiles_focused() == m.retiles_focused());
        assert(self@ =~= m.fullscreen_toggled(id));
        (Some((id, full)), effects)
    }

    /// Close the currently focused window.
    pub fn close_focused_window(&self) -> (effects: Vec<Effect>)
        ensures
            effects@ == (match self@.focused_id() {
                Some(id) => seq![Effect::Close { id }],
                None => Seq::empty(),
            }),
    {
        let mut effects: Vec<Effect> = Vec::new();
        match self.focused_window() {
            Some(id) => effects.push(Effect::Close { id }),
            None => {},
        }
        assert(effects@ =~= (match self@.focused_id() {
            Some(id) => seq![Effect::Close { id }],
            None => Seq::empty(),
        }));
        effects
    }
}

impl Model {
    /// The focused window is asked to close.
    pub open spec fn close_effects(&self) -> Seq<Effect> {
        match self.focused_id() {
            Some(id) => seq![Effect::Close { id }],
            None => Seq::empty(),
        }
    }

    /// A swap with the master arranges the output anew.
    pub open spec fn swap_effects(&self) -> Seq<Effect> {
        if self.can_swap() {
            self.retiles_focused()
        } else {
            Seq::empty()
        }
    }

    /// The focused window floats if it did not, and the other way round.
    pub open spec fn float_switched(&self) -> Model {
        match self.focused_id() {
            Some(id) => self.float_toggled(id),
            None => *self,
        }
    }

    pub open spec fn float_switch_effects(&self) -> Seq<Effect> {
        match self.focused_id() {
            Some(id) => self.float_effects(id),
            None => Seq::empty(),
        }
    }

    /// The focused window is fullscreen if it was not, and the other way round.
    pub open spec fn fullscreen_switched(&self) -> Model {
        match self.focused_id() {
            Some(id) => self.fullscreen_toggled(id),
            None => *self,
        }
    }

    pub open spec fn fullscreen_switch_effects(&self) -> Seq<Effect> {
        match self.focused_id() {
            Some(id) => self.retiles_focused(),
            None => Seq::empty(),
        }
    }
}

} // verus!
