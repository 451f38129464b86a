//! What moves focus and windows between outputs.

use crate::compositor::event::{Effect, IpcEvent};
use crate::compositor::state::{
    has_output, index_of, lemma_index_of, named, shown, DinatorState, Model, OutputState,
    WindowInfo,
};
use crate::compositor::workspaces::without;
use crate::text::same;
use crate::tiling::WindowId;
use vstd::prelude::*;
use vstd::string::*;

verus! {

broadcast use vstd::std_specs::hash::group_hash_axioms;

/// Take those of the listed windows that exist off the screen.
pub open spec fn unmaps(order: Seq<WindowId>, windows: Map<u64, WindowInfo>) -> Seq<Effect>
    decreases order.len(),
{
    if order.len() == 0 {
        Seq::empty()
    } else {
        let before = unmaps(order.drop_last(), windows);
        if windows.dom().contains(order.last().0) {
            before.push(Effect::Unmap { id: order.last() })
        } else {
            before
        }
    }
}

impl Model {
    /// The state after a window got the keyboard focus, if it can take it.
    pub open spec fn focusing(&self, id: WindowId) -> Model {
        if self.focusable(id) {
            Model { keyboard_focus: Some(id), ..*self }
        } else {
            *self
        }
    }

    /// What moving the keyboard focus to a window asks for.
    pub open spec fn focus_effects(&self, id: WindowId) -> Seq<Effect> {
        if self.focusable(id) {
            seq![Effect::Focus { target: Some(id) }]
        } else {
            Seq::empty()
        }
    }

    /// What arranging the output that shows a workspace asks for: nothing where none shows it.
    pub open spec fn retiles_workspace(&self, effects: Seq<Effect>, ws: usize) -> bool {
        if shown(self.outputs, ws) {
            exists|i: int|
                {
                    &&& 0 <= i < self.outputs.len()
                    &&& (#[trigger] self.outputs[i]).active_workspace == ws
                    &&& effects == seq![Effect::Retile { output: self.outputs[i].name }]
                }
        } else {
            effects == Seq::<Effect>::empty()
        }
    }
}

/// `order` lists the outputs' indices, each once, from left to right.
pub open spec fn is_left_to_right(outputs: Seq<OutputState>, order: Seq<usize>) -> bool {
    &&& order.len() == outputs.len()
    &&& forall|k: int| 0 <= k < order.len() ==> 0 <= #[trigger] order[k] < outputs.len()
    &&& forall|a: int, b: int|
        0 <= a < b < order.len() ==> left_of(
            outputs,
            #[trigger] order[a] as int,
            #[trigger] order[b] as int,
        )
}

/// Output `i` comes before output `j`: it starts further left, or as far left and earlier.
pub open spec fn left_of(outputs: Seq<OutputState>, i: int, j: int) -> bool {
    outputs[i].geometry.x < outputs[j].geometry.x || (outputs[i].geometry.x
        == outputs[j].geometry.x && i < j)
}

/// Output `target` is `direction` steps to the right of output `from`, around the ends.
pub open spec fn is_neighbour(
    outputs: Seq<OutputState>,
    from: int,
    direction: int,
    target: int,
) -> bool {
    exists|order: Seq<usize>, k: int|
        {
            &&& is_left_to_right(outputs, order)
            &&& 0 <= k < order.len()
            &&& #[trigger] order[k] == from
            &&& target == order[(k + direction) % order.len() as int]
        }
}

impl DinatorState {
    /// Unregister an output and clean up per-output state. The windows on its workspace are not
    /// removed, just taken off the screen. If it was focused, the first output left is.
    pub fn unregister_output(&mut self, name: &str) -> (effects: Vec<Effect>)
        requires
            old(self).wf(),
        ensures
            final(self).wf(),
            output_removed(old(self)@, final(self)@, name@, effects@),
    {
        match self.output_index(name) {
            None => Vec::new(),
            Some(i) => {
                let ws: usize = self.outputs[i].active_workspace;
                let effects = self.unmap_workspace(ws);
                let ghost before = self.outputs@;
                let gone = self.outputs.remove(i);
                proof {
                    let after = self.outputs@;
                    assert(after =~= before.remove(i as int));
                    assert forall|a: int, b: int| 0 <= a < b < after.len() implies (
                    #[trigger] after[a]).name@ != (#[trigger] after[b]).name@ by {
                        let a0 = if a < i {
                            a
                        } else {
                            a + 1
                        };
                        let b0 = if b < i {
                            b
                        } else {
                            b + 1
                        };
                        assert(before[a0].name@ != before[b0].name@);
                    }
                    assert forall|n: Seq<char>| n != name@ && has_output(before, n) implies has_output(
                        after,
                        n,
                    ) by {
                        let k = index_of(before, n);
                        assert(named(after, n, if k < i {
                            k
                        } else {
                            k - 1
                        }));
                    }
                }
                let was_focused: bool = match &self.focused_output {
                    Some(focused) => same(focused.as_str(), name),
                    None => false,
                };
                if was_focused {
                    if self.outputs.len() > 0 {
                        self.focused_output = Some(self.outputs[0].name.clone());
                        assert(named(self.outputs@, self.outputs@[0].name@, 0));
                    } else {
                        self.focused_output = None;
                    }
                }
                effects
            },
        }
    }

    /// Effects that take the windows of a workspace off the screen.
    pub(crate) fn unmap_workspace(&self, ws: usize) -> (effects: Vec<Effect>)
        requires
            self.workspaces.wf(),
        ensures
            effects@ == unmaps(self@.order(ws), self@.windows),
    {
        let order = self.workspaces.list(ws);
        let mut effects: Vec<Effect> = Vec::new();
        let mut k: usize = 0;
        while k < order.len()
            invariant
                k <= order@.len(),
                effects@ == unmaps(order@.take(k as int), self.windows@),
            decreases order@.len() - k,
        {
            assert(order@.take(k + 1).drop_last() =~= order@.take(k as int));
            if self.windows.contains_key(&order[k].0) {
                effects.push(Effect::Unmap { id: order[k] });
            }
            k = k + 1;
        }
        assert(order@.take(k as int) =~= order@);
        effects
    }

    /// Move the keyboard focus to a window, if it can take it.
    pub(crate) fn give_focus(&mut self, id: WindowId, effects: &mut Vec<Effect>)
        requires
            old(self).wf(),
        ensures
            final(self).wf(),
            final(self)@ == old(self)@.focusing(id),
            final(effects)@ == old(effects)@ + old(self)@.focus_effects(id),
    {
        let ghost before = effects@;
        if self.is_focusable(id) {
            self.keyboard_focus = Some(id);
            effects.push(Effect::Focus { target: Some(id) });
        }
        assert(effects@ =~= before + old(self)@.focus_effects(id));
    }

    /// Focus an output by name. Also focuses the first window on that output.
    pub fn focus_output(&mut self, name: &str) -> (effects: Vec<Effect>)
        requires
            old(self).wf(),
        ensures
            final(self).wf(),
            output_focused(old(self)@, final(self)@, name@, effects@),
    {
        let mut effects: Vec<Effect> = Vec::new();
        match self.output_index(name) {
            None => effects,
            Some(i) => {
                let ws: usize = self.outputs[i].active_workspace;
                self.focused_output = Some(String::from_str(name));
                let first: Option<WindowId> = {
                    let order = self.workspaces.list(ws);
                    if order.len() > 0 {
                        Some(order[0])
                    } else {
                        None
                    }
                };
                match first {
                    Some(id) => {
                        self.give_focus(id, &mut effects);
                    },
                    None => {},
                }
                effects
            },
        }
    }

    /// The outputs' indices, sorted by x position (left to right).
    pub fn outputs_by_position(&self) -> (order: Vec<usize>)
        ensures
            is_left_to_right(self.outputs@, order@),
    {
        let mut order: Vec<usize> = Vec::new();
        let mut i: usize = 0;
        while i < self.outputs.len()
            invariant
                i <= self.outputs@.len(),
                is_left_to_right(self.outputs@.take(i as int), order@),
            decreases self.outputs@.len() - i,
        {
            let ghost known = self.outputs@.take(i as int);
            let ghost more = self.outputs@.take(i + 1);
            let ghost before = order@;
            let mut p: usize = order.len();
            while p > 0 && self.outputs[i].geometry.x < self.outputs[order[p - 1]].geometry.x
                invariant
                    p <= order@.len() == i,
                    i < self.outputs@.len(),
                    order@ == before,
                    known == self.outputs@.take(i as int),
                    is_left_to_right(known, order@),
                    forall|k: int|
                        p <= k < order@.len() ==> self.outputs@[i as int].geometry.x
                            < self.outputs@[#[trigger] order@[k] as int].geometry.x,
                decreases p,
            {
                p = p - 1;
            }
            order.insert(p, i);
            proof {
                assert(order@ =~= before.insert(p as int, i));
                assert(forall|k: int| 0 <= k < i ==> #[trigger] more[k] == known[k]);
                assert forall|a: int, b: int| 0 <= a < b < order@.len() implies left_of(
                    more,
                    #[trigger] order@[a] as int,
                    #[trigger] order@[b] as int,
                ) by {
                    let a0 = if a < p {
                        a
                    } else {
                        a - 1
                    };
                    let b0 = if b < p {
                        b
                    } else {
                        b - 1
                    };
                    if a != p && b != p {
                        assert(order@[a] == before[a0] && order@[b] == before[b0]);
                        assert(left_of(known, before[a0] as int, before[b0] as int));
                    } else if b == p {
                        assert(order@[a] == before[a]);
                        if a < p - 1 {
                            assert(left_of(known, before[a] as int, before[p - 1] as int));
                        }
                    } else {
                        assert(order@[b] == before[b0]);
                    }
                }
            }
            i = i + 1;
        }
        assert(self.outputs@.take(i as int) =~= self.outputs@);
        order
    }

    /// The output that lies `direction` steps to the right of the focused one, around the ends.
    /// None where there are fewer than two outputs.
    pub fn neighbour_output(&self, direction: i32) -> (r: Option<usize>)
        requires
            self.wf(),
        ensures
            match r {
                Some(i) => {
                    &&& self.outputs@.len() >= 2
                    &&& i < self.outputs@.len()
                    &&& is_neighbour(
                        self.outputs@,
                        self@.focused_index()->0,
                        direction as int,
                        i as int,
                    )
                },
                None => self.outputs@.len() < 2,
            },
    {
        let order = self.outputs_by_position();
        if order.len() < 2 {
            return None;
        }
        let current: usize = match self.focused_output_index() {
            Some(i) => i,
            None => 0,
        };
        assert(self@.focused_index() == Some(current as int));
        let mut k: usize = 0;
        proof {
            lemma_order_is_complete(self.outputs@, order@, current as int);
        }
        while k < order.len() && order[k] != current
            invariant
                k < order@.len(),
                exists|j: int| k <= j < order@.len() && #[trigger] order@[j] == current,
            decreases order@.len() - k,
        {
            k = k + 1;
        }
        let n: usize = order.len();
        let next: usize = cycle_index(k, direction, n);
        assert(order@[k as int] == current);
        Some(order[next])
    }

    /// Focus the output to the left or right of the currently focused one.
    /// `direction`: -1 for left, +1 for right.
    pub fn focus_output_direction(&mut self, direction: i32) -> (effects: Vec<Effect>)
        requires
            old(self).wf(),
        ensures
            final(self).wf(),
            output_focus_moved(old(self)@, final(self)@, direction as int, effects@),
    {
        match self.neighbour_output(direction) {
            None => Vec::new(),
            Some(i) => {
                let name: String = self.outputs[i].name.clone();
                proof {
                    lemma_index_of(self.outputs@, name@, i as int);
                }
                let mut effects = self.focus_output(name.as_str());
                let ghost before = effects@;
                effects.push(Effect::Emit { event: IpcEvent::OutputFocused { name } });
                assert(is_neighbour(
                    old(self)@.outputs,
                    old(self)@.focused_index()->0,
                    direction as int,
                    i as int,
                ));
                effects
            },
        }
    }

    /// Move the focused window to a different output.
    /// The window is moved to that output's active workspace. Returns false, and changes
    /// nothing, where no window has the focus, the output does not exist, or the window is there
    /// already.
    pub fn move_window_to_output(&mut self, target_output_name: &str) -> (r: (bool, Vec<Effect>))
        requires
            old(self).wf(),
        ensures
            final(self).wf(),
            window_sent(old(self)@, final(self)@, target_output_name@, r.0, r.1@),
    {
        let mut effects: Vec<Effect> = Vec::new();
        let id: WindowId = match self.focused_window() {
            Some(id) => id,
            None => {
                return (false, effects);
            },
        };
        let target: usize = match self.output_index(target_output_name) {
            Some(i) => i,
            None => {
                return (false, effects);
            },
        };
        let info: WindowInfo = match self.windows.get(&id.0) {
            Some(w) => *w,
            None => {
                return (false, effects);
            },
        };
        let target_ws: usize = self.outputs[target].active_workspace;
        let current_ws: usize = match info.workspace {
            Some(ws) => ws,
            None => 1,
        };
        match self.output_for_workspace(current_ws) {
            Some(i) => {
                if i == target {
                    return (false, effects);
                }
            },
            None => {},
        }
        self.windows.insert(id.0, WindowInfo { workspace: Some(target_ws), ..info });
        self.workspaces.remove_from(current_ws, id);
        self.workspaces.push(target_ws, id);
        effects.push(Effect::Unmap { id });
        let ghost unmapped = effects@;
        self.push_retile(current_ws, &mut effects);
        let ghost first = effects@.skip(1);
        let ghost half = effects@;
        self.push_retile(target_ws, &mut effects);
        let ghost second = effects@.skip(half.len() as int);
        effects.push(
            Effect::Emit { event: IpcEvent::WindowMovedWorkspace { id: id.0, workspace: target_ws } },
        );
        proof {
            assert(half =~= unmapped + first);
            assert(effects@ =~= seq![Effect::Unmap { id }] + first + second + seq![
                Effect::Emit {
                    event: IpcEvent::WindowMovedWorkspace { id: id.0, workspace: target_ws },
                },
            ]);
            assert(self@.retiles_workspace(first, current_ws));
            assert(self@.retiles_workspace(second, target_ws));
            assert(old(self)@.retiles_workspace(first, current_ws));
            assert(old(self)@.retiles_workspace(second, target_ws));
            let moved = old(self)@.sent(id, current_ws, target_ws);
            assert(self@ =~= moved);
        }
        (true, effects)
    }

    /// Ask for the output that shows a workspace to be arranged anew.
    pub(crate) fn push_retile(&self, ws: usize, effects: &mut Vec<Effect>)
        ensures
            final(effects)@.len() >= old(effects)@.len(),
            final(effects)@.take(old(effects)@.len() as int) == old(effects)@,
            self@.retiles_workspace(final(effects)@.skip(old(effects)@.len() as int), ws),
    {
        let ghost before = effects@;
        match self.output_for_workspace(ws) {
            Some(i) => {
                effects.push(Effect::Retile { output: self.outputs[i].name.clone() });
                assert(self.outputs@[i as int].active_workspace == ws);
                assert(effects@.skip(before.len() as int) =~= seq![
                    Effect::Retile { output: self@.outputs[i as int].name },
                ]);
            },
            None => {
                assert(effects@.skip(before.len() as int) =~= Seq::<Effect>::empty());
            },
        }
        assert(effects@.take(before.len() as int) =~= before);
    }

    /// Move the focused window to the output left/right of current, then focus that output.
    /// `direction`: -1 for left, +1 for right.
    pub fn move_window_to_output_direction(&mut self, direction: i32) -> (r: (bool, Vec<Effect>))
        requires
            old(self).wf(),
        ensures
            final(self).wf(),
            window_sent_towards(old(self)@, final(self)@, direction as int, r.0, r.1@),
    {
        match self.neighbour_output(direction) {
            None => (false, Vec::new()),
            Some(i) => {
                let name: String = self.outputs[i].name.clone();
                assert(is_neighbour(
                    old(self)@.outputs,
                    old(self)@.focused_index()->0,
                    direction as int,
                    i as int,
                ));
                let (sent, mut effects) = self.move_window_to_output(name.as_str());
                if sent {
                    let ghost moved = self@;
                    let ghost first = effects@;
                    assert(window_sent(old(self)@, moved, name@, true, first));
                    let mut focusing = self.focus_output(name.as_str());
                    let ghost second = focusing@;
                    effects.append(&mut focusing);
                    assert(output_focused(moved, self@, name@, second));
                    assert(window_taken_along(old(self)@, self@, name@, effects@));
                }
                (sent, effects)
            },
        }
    }

    /// Arrange every output anew.
    pub fn retile_all(&self) -> (effects: Vec<Effect>)
        ensures
            effects@ == Seq::new(
                self.outputs@.len(),
                |i: int| Effect::Retile { output: self.outputs@[i].name },
            ),
    {
        let mut effects: Vec<Effect> = Vec::new();
        let mut i: usize = 0;
        while i < self.outputs.len()
            invariant
                i <= self.outputs@.len(),
                effects@.len() == i,
                forall|j: int|
                    0 <= j < i ==> #[trigger] effects@[j] == (Effect::Retile {
                        output: self.outputs@[j].name,
                    }),
            decreases self.outputs@.len() - i,
        {
            effects.push(Effect::Retile { output: self.outputs[i].name.clone() });
            i = i + 1;
        }
        assert(effects@ =~= Seq::new(
            self.outputs@.len(),
            |i: int| Effect::Retile { output: self.outputs@[i].name },
        ));
        effects
    }
}

impl Model {
    /// The workspace that a window belongs to, or 1.
    pub open spec fn home(&self, id: WindowId) -> usize {
        match self.windows[id.0].workspace {
            Some(ws) => ws,
            None => 1,
        }
    }

    /// The state after a window went from one workspace to another.
    pub open spec fn sent(&self, id: WindowId, from: usize, to: usize) -> Model {
        let left = self.orders.insert(from, without(self.order(from), id));
        Model {
            windows: self.windows.insert(
                id.0,
                WindowInfo { workspace: Some(to), ..self.windows[id.0] },
            ),
            orders: left.insert(to, left[to].push(id)),
            ..*self
        }
    }
}

/// What sending the focused window to an output makes of the state.
pub open spec fn window_sent(
    before: Model,
    after: Model,
    name: Seq<char>,
    sent: bool,
    effects: Seq<Effect>,
) -> bool {
    let id = before.focused_id()->0;
    let from = before.home(id);
    let target = index_of(before.outputs, name);
    let to = before.outputs[target].active_workspace;
    let there = before.focused_id() is Some && has_output(before.outputs, name)
        && before.outputs[target].active_workspace == from && forall|j: int|
        0 <= j < target ==> (#[trigger] before.outputs[j]).active_workspace != from;
    &&& sent == (before.focused_id() is Some && has_output(before.outputs, name) && !there)
    &&& if sent {
        &&& after == before.sent(id, from, to)
        &&& exists|first: Seq<Effect>, second: Seq<Effect>|
            {
                &&& #[trigger] before.retiles_workspace(first, from)
                &&& #[trigger] before.retiles_workspace(second, to)
                &&& effects == seq![Effect::Unmap { id }] + first + second + seq![
                    Effect::Emit {
                        event: IpcEvent::WindowMovedWorkspace { id: id.0, workspace: to },
                    },
                ]
            }
    } else {
        &&& after == before
        &&& effects == Seq::<Effect>::empty()
    }
}

/// Each output occurs in the order.
pub(crate) proof fn lemma_order_is_complete(outputs: Seq<OutputState>, order: Seq<usize>, i: int)
    requires
        is_left_to_right(outputs, order),
        0 <= i < outputs.len(),
    ensures
        exists|k: int| 0 <= k < order.len() && #[trigger] order[k] == i,
{
    let ints = order.map_values(|v: usize| v as int);
    assert(ints.no_duplicates()) by {
        assert forall|a: int, b: int| 0 <= a < ints.len() && 0 <= b < ints.len() && a
            != b implies ints[a] != ints[b] by {
            if a < b {
                assert(left_of(outputs, order[a] as int, order[b] as int));
            } else {
                assert(left_of(outputs, order[b] as int, order[a] as int));
            }
        }
    }
    ints.unique_seq_to_set();
    let all = vstd::set_lib::set_int_range(0, outputs.len() as int);
    vstd::set_lib::lemma_int_range(0, outputs.len() as int);
    assert(ints.to_set().subset_of(all)) by {
        assert forall|x: int| ints.to_set().contains(x) implies all.contains(x) by {
            let k = choose|k: int| 0 <= k < ints.len() && ints[k] == x;
            assert(0 <= order[k] < outputs.len());
        }
    }
    vstd::set_lib::lemma_subset_equality(ints.to_set(), all);
    assert(all.contains(i));
    let k = choose|k: int| 0 <= k < ints.len() && ints[k] == i;
    assert(order[k] == i);
}

/// The index `direction` steps after `k` in a cycle of `n`.
pub(crate) fn cycle_index(k: usize, direction: i32, n: usize) -> (r: usize)
    requires
        k < n,
    ensures
        r == (k + direction) % n as int,
        r < n,
{
    let m: i128 = n as i128;
    let raw: i128 = k as i128 + direction as i128;
    proof {
        vstd::arithmetic::div_mod::lemma_mod_bound(raw as int, m as int);
    }
    if raw >= 0 {
        (raw % m) as usize
    } else {
        let back: i128 = (-raw) % m;
        let r: i128 = if back == 0 {
            0
        } else {
            m - back
        };
        proof {
            let q = (-raw) as int / m as int;
            vstd::arithmetic::div_mod::lemma_fundamental_div_mod((-raw) as int, m as int);
            vstd::arithmetic::div_mod::lemma_mod_bound((-raw) as int, m as int);
            assert(raw == -(m * q) - back);
            if back == 0 {
                assert(raw == m * (-q)) by (nonlinear_arith)
                    requires
                        raw == -(m * q) - back,
                        back == 0,
                ;
                vstd::arithmetic::div_mod::lemma_fundamental_div_mod_converse(
                    raw as int,
                    m as int,
                    -q,
                    0,
                );
            } else {
                assert(raw == m * (-q - 1) + (m - back)) by (nonlinear_arith)
                    requires
                        raw == -(m * q) - back,
                ;
                vstd::arithmetic::div_mod::lemma_fundamental_div_mod_converse(
                    raw as int,
                    m as int,
                    -q - 1,
                    m - back,
                );
            }
        }
        r as usize
    }
}

/// What becomes of the state when an output goes.
pub open spec fn output_removed(before: Model, after: Model, name: Seq<char>, effects: Seq<Effect>) -> bool {
    let m = before;
    if has_output(m.outputs, name) {
        let i = index_of(m.outputs, name);
        let left = m.outputs.remove(i);
        &&& effects == unmaps(m.order(m.outputs[i].active_workspace), m.windows)
        &&& after == Model {
            outputs: left,
            focused_output: if m.focused_output == Some(name) {
                if left.len() > 0 {
                    Some(left[0].name@)
                } else {
                    None
                }
            } else {
                m.focused_output
            },
            ..m
        }
    } else {
        &&& effects == Seq::<Effect>::empty()
        &&& after == m
    }
}

/// What becomes of the state when an output takes the focus.
pub open spec fn output_focused(before: Model, after: Model, name: Seq<char>, effects: Seq<Effect>) -> bool {
    let m = before;
    if has_output(m.outputs, name) {
        let order = m.order(
            m.outputs[index_of(m.outputs, name)].active_workspace,
        );
        let there = Model { focused_output: Some(name), ..m };
        if order.len() > 0 {
            &&& after == there.focusing(order[0])
            &&& effects == there.focus_effects(order[0])
        } else {
            &&& after == there
            &&& effects == Seq::<Effect>::empty()
        }
    } else {
        &&& after == m
        &&& effects == Seq::<Effect>::empty()
    }
}

/// What becomes of the state when the focus moves to a neighbouring output.
pub open spec fn output_focus_moved(before: Model, after: Model, direction: int, effects: Seq<Effect>) -> bool {
    let m = before;
    if m.outputs.len() < 2 {
        &&& after == m
        &&& effects == Seq::<Effect>::empty()
    } else {
        exists|i: int|
            {
                let there = Model {
                    focused_output: Some(m.outputs[i].name@),
                    ..m
                };
                let order = m.order(m.outputs[i].active_workspace);
                let emit = Effect::Emit {
                    event: IpcEvent::OutputFocused { name: m.outputs[i].name },
                };
                &&& 0 <= i < m.outputs.len()
                &&& #[trigger] is_neighbour(
                    m.outputs,
                    m.focused_index()->0,
                    direction,
                    i,
                )
                &&& if order.len() > 0 {
                    &&& after == there.focusing(order[0])
                    &&& effects == there.focus_effects(order[0]).push(emit)
                } else {
                    &&& after == there
                    &&& effects == seq![emit]
                }
            }
    }
}

/// What becomes of the state when the focused window goes to an output, and the focus with it.
pub open spec fn window_taken_along(
    before: Model,
    after: Model,
    name: Seq<char>,
    effects: Seq<Effect>,
) -> bool {
    exists|moved: Model, first: Seq<Effect>, second: Seq<Effect>|
        {
            &&& #[trigger] window_sent(before, moved, name, true, first)
            &&& #[trigger] output_focused(moved, after, name, second)
            &&& effects == first + second
        }
}

/// What becomes of the state when the focused window goes to a neighbouring output: that output has
/// the focus after. Where the window is there already, or none has the focus, nothing changes.
pub open spec fn window_sent_towards(
    before: Model,
    after: Model,
    direction: int,
    sent: bool,
    effects: Seq<Effect>,
) -> bool {
    let m = before;
    if m.outputs.len() < 2 {
        !sent && effects == Seq::<Effect>::empty() && after == m
    } else {
        exists|i: int|
            {
                &&& 0 <= i < m.outputs.len()
                &&& #[trigger] is_neighbour(
                    m.outputs,
                    m.focused_index()->0,
                    direction,
                    i,
                )
                &&& if sent {
                    &&& after.focused_output == Some(m.outputs[i].name@)
                    &&& window_taken_along(m, after, m.outputs[i].name@, effects)
                } else {
                    window_sent(m, after, m.outputs[i].name@, false, effects)
                }
            }
    }
}

} // verus!
