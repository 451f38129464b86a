//! What the commands do to the focus and to the windows, said of the state before and after.

use crate::compositor::arranging::{
    covers, exists_in, lemma_covers, lemma_first_window_is_on_top, lies_flat, on_top, shown_on,
};
use crate::compositor::event::{Effect, IpcEvent};
use crate::compositor::outputs::unmaps;
use crate::compositor::state::{lemma_index_of, DinatorState, WindowInfo};
use crate::compositor::windows::{lemma_position, position_in};
use crate::compositor::workspaces::without;
use crate::tiling::{Placement, Rect, WindowId};
use vstd::prelude::*;

verus! {

broadcast use vstd::std_specs::hash::group_hash_axioms;

/// Output `i` has the focus.
pub open spec fn is_focused(s: DinatorState, i: int) -> bool {
    &&& 0 <= i < s.outputs@.len()
    &&& s.focused_output matches Some(name) && name@ == s.outputs@[i].name@
}

/// The window is there and can take the keyboard focus.
pub open spec fn takes_focus(s: DinatorState, w: WindowId) -> bool {
    exists_in(s, w) && s.windows@[w.0].has_surface
}

/// The windows, and how they are shown, are the same.
pub open spec fn same_windows(a: DinatorState, b: DinatorState) -> bool {
    &&& b.windows@ == a.windows@
    &&& b.floating@ == a.floating@
    &&& b.fullscreen@ == a.fullscreen@
    &&& b.next_window == a.next_window
}

/// The outputs, and which one has the focus, are the same.
pub open spec fn same_outputs(a: DinatorState, b: DinatorState) -> bool {
    &&& b.outputs@ == a.outputs@
    &&& b@.focused_output == a@.focused_output
}

/// What plugins have set up, and who is connected, is the same.
pub open spec fn same_setup(a: DinatorState, b: DinatorState) -> bool {
    &&& b.plugin_layouts@ == a.plugin_layouts@
    &&& b.window_rules@ == a.window_rules@
    &&& b.plugin_keybindings@ == a.plugin_keybindings@
    &&& b.rdp_clients == a.rdp_clients
    &&& b.vnc_clients == a.vnc_clients
}

/// Every workspace but these two has the same windows in the same order.
pub open spec fn same_lists_but(a: DinatorState, b: DinatorState, ws: usize, other: usize) -> bool {
    forall|n: usize|
        n != ws && n != other ==> #[trigger] b.workspaces.order(n) == a.workspaces.order(n)
}

/// Every workspace has the same windows in the same order.
pub open spec fn same_lists(a: DinatorState, b: DinatorState) -> bool {
    forall|n: usize| #[trigger] b.workspaces.order(n) == a.workspaces.order(n)
}

/// Every workspace has the same window in mind for when it is shown again.
pub open spec fn same_memory(a: DinatorState, b: DinatorState) -> bool {
    forall|n: usize| #[trigger] b.workspaces.focus(n) == a.workspaces.focus(n)
}

/// Nothing is different.
pub open spec fn unchanged(a: DinatorState, b: DinatorState) -> bool {
    &&& same_windows(a, b)
    &&& same_outputs(a, b)
    &&& same_setup(a, b)
    &&& same_lists(a, b)
    &&& same_memory(a, b)
    &&& b.keyboard_focus == a.keyboard_focus
}

/// Equal views are equal in every part.
pub(crate) proof fn lemma_view_parts(a: DinatorState, b: DinatorState)
    ensures
        b@.orders == a@.orders ==> same_lists(a, b),
        b@.saved_focus == a@.saved_focus ==> same_memory(a, b),
        b@ == a@ ==> unchanged(a, b),
        forall|n: usize| #[trigger] a.workspaces.order(n) == a@.orders[n],
        forall|n: usize| #[trigger] b.workspaces.order(n) == b@.orders[n],
        forall|n: usize| #[trigger] a.workspaces.focus(n) == a@.saved_focus[n],
        forall|n: usize| #[trigger] b.workspaces.focus(n) == b@.saved_focus[n],
{
    assert forall|n: usize| #[trigger] a.workspaces.order(n) == a@.orders[n] by {}
    assert forall|n: usize| #[trigger] b.workspaces.order(n) == b@.orders[n] by {}
    assert forall|n: usize| #[trigger] a.workspaces.focus(n) == a@.saved_focus[n] by {}
    assert forall|n: usize| #[trigger] b.workspaces.focus(n) == b@.saved_focus[n] by {}
}

/// The focused output of the state's model.
pub(crate) proof fn lemma_focused(s: DinatorState, i: int)
    requires
        s.wf(),
        is_focused(s, i),
    ensures
        s@.focused_index() == Some(i),
        s@.focused_workspace() == s.outputs@[i].active_workspace,
        s@.order(s@.focused_workspace()) == shown_on(s, i),
        s@.retiles_focused() == seq![Effect::Retile { output: s.outputs@[i].name }],
        s.outputs@[i].layout !is Plugin ==> s@.overlapping() == covers(s.outputs@[i].layout),
{
    lemma_index_of(s.outputs@, s.outputs@[i].name@, i);
    lemma_covers(s.outputs@[i].layout);
}

/// In a list where nothing occurs twice, each window is found where it is.
pub(crate) proof fn lemma_place(order: Seq<WindowId>, p: int)
    requires
        0 <= p < order.len(),
        order.no_duplicates(),
    ensures
        position_in(order, order[p]) == p,
{
    lemma_position(order, order[p]);
}

/// The steps of the focus: one place on, or one back, around the ends.
pub open spec fn next_place(p: int, n: int) -> int {
    if p + 1 < n {
        p + 1
    } else {
        0
    }
}

pub open spec fn previous_place(p: int, n: int) -> int {
    if p > 0 {
        p - 1
    } else {
        n - 1
    }
}

/// The focus is on the window at place `q` of what was shown, which is raised. Where windows cover each
/// other, the list is turned so that the window comes first, and the output is arranged anew; elsewhere
/// the list stays. Nothing else changes.
pub open spec fn focus_went_to(
    a: DinatorState,
    b: DinatorState,
    effects: Seq<Effect>,
    i: int,
    q: int,
) -> bool {
    let order = shown_on(a, i);
    let n = order.len() as int;
    let turned = covers(a.outputs@[i].layout);
    let raised = seq![
        Effect::Raise { id: order[q], activate: true },
        Effect::Focus { target: Some(order[q]) },
    ];
    &&& b.keyboard_focus == Some(order[q])
    &&& turned ==> {
        &&& effects == raised + seq![Effect::Retile { output: a.outputs@[i].name }]
        &&& shown_on(b, i).len() == n
        &&& forall|k: int|
            0 <= k < n ==> #[trigger] shown_on(b, i)[k] == order[if q + k < n {
                q + k
            } else {
                q + k - n
            }]
        &&& same_lists_but(a, b, a.outputs@[i].active_workspace, a.outputs@[i].active_workspace)
    }
    &&& !turned ==> effects == raised && same_lists(a, b)
    &&& same_windows(a, b)
    &&& same_outputs(a, b)
    &&& same_setup(a, b)
    &&& same_memory(a, b)
}

pub(crate) proof fn lemma_focus_went(a: DinatorState, b: DinatorState, effects: Seq<Effect>, i: int, p: int, d: int)
    requires
        a.wf(),
        d == 1 || d == -1,
        is_focused(a, i),
        a.outputs@[i].layout !is Plugin,
        shown_on(a, i).len() >= 2,
        shown_on(a, i).no_duplicates(),
        forall|k: int| 0 <= k < shown_on(a, i).len() ==> takes_focus(a, #[trigger] shown_on(a, i)[k]),
        0 <= p < shown_on(a, i).len(),
        a.keyboard_focus == Some(shown_on(a, i)[p]) || (p == 0 && (a.keyboard_focus matches Some(w)
            ==> !shown_on(a, i).contains(w))),
        b@ == a@.cycled(d),
        effects == a@.cycle_effects(d),
    ensures
        focus_went_to(
            a,
            b,
            effects,
            i,
            if d == 1 {
                next_place(p, shown_on(a, i).len() as int)
            } else {
                previous_place(p, shown_on(a, i).len() as int)
            },
        ),
{
    let order = shown_on(a, i);
    let n = order.len() as int;
    lemma_focused(a, i);
    lemma_view_parts(a, b);
    lemma_place(order, p);
    match a.keyboard_focus {
        Some(w) => lemma_position(order, w),
        None => {},
    }
    assert(a@.focus_place(order) == p) by {
        if a.keyboard_focus == Some(order[p]) {
            assert(takes_focus(a, order[p]));
        } else if a.keyboard_focus is Some {
            let w = a.keyboard_focus->0;
            if position_in(order, w) < n {
                assert(order.contains(w));
            }
        }
    }
    let q = if d == 1 {
        next_place(p, n)
    } else {
        previous_place(p, n)
    };
    assert((p + d) % n == q) by {
        if d == 1 {
            if p + 1 < n {
                vstd::arithmetic::div_mod::lemma_small_mod((p + 1) as nat, n as nat);
            } else {
                vstd::arithmetic::div_mod::lemma_mod_self_0(n);
            }
        } else if p > 0 {
            vstd::arithmetic::div_mod::lemma_small_mod((p - 1) as nat, n as nat);
        } else {
            vstd::arithmetic::div_mod::lemma_fundamental_div_mod_converse(-1, n, -1, n - 1);
        }
    }
    assert(a@.next_focus(d) == order[q]);
    assert(takes_focus(a, order[q]));
    lemma_place(order, q);
    let raised = seq![
        Effect::Raise { id: order[q], activate: true },
        Effect::Focus { target: Some(order[q]) },
    ];
    assert(seq![Effect::Raise { id: order[q], activate: true }] + seq![
        Effect::Focus { target: Some(order[q]) },
    ] =~= raised);
    if covers(a.outputs@[i].layout) {
        let turned = order.skip(q) + order.take(q);
        assert(shown_on(b, i) == turned);
        assert forall|k: int| 0 <= k < n implies #[trigger] turned[k] == order[if q + k < n {
            q + k
        } else {
            q + k - n
        }] by {}
    }
}

/// The focus moves on to the next window of the workspace, from the last to the first, and back to the
/// one before, from the first to the last. Where the focus is on none of them, it moves as from the
/// first.
pub proof fn lemma_focus_moves_on(s: &mut DinatorState, effects: Vec<Effect>, i: int, p: int)
    requires
        old(s).wf(),
        is_focused(*old(s), i),
        old(s).outputs@[i].layout !is Plugin,
        shown_on(*old(s), i).len() >= 2,
        shown_on(*old(s), i).no_duplicates(),
        forall|k: int|
            0 <= k < shown_on(*old(s), i).len() ==> takes_focus(
                *old(s),
                #[trigger] shown_on(*old(s), i)[k],
            ),
        0 <= p < shown_on(*old(s), i).len(),
        old(s).keyboard_focus == Some(shown_on(*old(s), i)[p]) || (p == 0 && (
        old(s).keyboard_focus matches Some(w) ==> !shown_on(*old(s), i).contains(w))),
    ensures
        call_ensures(DinatorState::focus_next, (s,), effects) ==> focus_went_to(
            *old(s),
            *final(s),
            effects@,
            i,
            next_place(p, shown_on(*old(s), i).len() as int),
        ),
        call_ensures(DinatorState::focus_prev, (s,), effects) ==> focus_went_to(
            *old(s),
            *final(s),
            effects@,
            i,
            previous_place(p, shown_on(*old(s), i).len() as int),
        ),
{
    if call_ensures(DinatorState::focus_next, (s,), effects) {
        lemma_focus_went(*old(s), *final(s), effects@, i, p, 1);
    }
    if call_ensures(DinatorState::focus_prev, (s,), effects) {
        lemma_focus_went(*old(s), *final(s), effects@, i, p, -1);
    }
}

/// Where windows cover each other, the window that the focus moves to lies above the others once the
/// output is arranged.
pub proof fn lemma_focused_window_comes_on_top(
    s: &mut DinatorState,
    moved: Vec<Effect>,
    after: &DinatorState,
    output: &str,
    by_plugin: &[Placement],
    effects: Vec<Effect>,
    i: int,
    p: int,
)
    requires
        old(s).wf(),
        is_focused(*old(s), i),
        covers(old(s).outputs@[i].layout),
        shown_on(*old(s), i).len() >= 2,
        shown_on(*old(s), i).no_duplicates(),
        forall|k: int|
            0 <= k < shown_on(*old(s), i).len() ==> takes_focus(
                *old(s),
                #[trigger] shown_on(*old(s), i)[k],
            ) && lies_flat(*old(s), shown_on(*old(s), i)[k]),
        0 <= p < shown_on(*old(s), i).len(),
        old(s).keyboard_focus == Some(shown_on(*old(s), i)[p]) || (p == 0 && (
        old(s).keyboard_focus matches Some(w) ==> !shown_on(*old(s), i).contains(w))),
        after.wf(),
        output@ == after.outputs@[i].name@,
        call_ensures(DinatorState::retile, (after, output, by_plugin), effects),
    ensures
        *final(s) == *after && (call_ensures(DinatorState::focus_next, (s,), moved) || call_ensures(
            DinatorState::focus_prev,
            (s,),
            moved,
        )) ==> {
            &&& after.keyboard_focus is Some
            &&& after.keyboard_focus->0 == shown_on(*after, i)[0]
            &&& on_top(*after, effects@, after.keyboard_focus->0)
        },
{
    if *final(s) == *after && (call_ensures(DinatorState::focus_next, (s,), moved) || call_ensures(
        DinatorState::focus_prev,
        (s,),
        moved,
    )) {
        let order = shown_on(*old(s), i);
        let n = order.len() as int;
        lemma_focus_moves_on(s, moved, i, p);
        let q = if call_ensures(DinatorState::focus_next, (s,), moved) {
            next_place(p, n)
        } else {
            previous_place(p, n)
        };
        assert(focus_went_to(*old(s), *after, moved@, i, q));
        assert(shown_on(*after, i)[0] == order[q]);
        assert(takes_focus(*old(s), order[q]));
        lemma_first_window_is_on_top(after, output, by_plugin, effects, i, 0);
    }
}

/// With fewer than two windows on the workspace the focus stays.
pub proof fn lemma_lone_window_keeps_the_focus(s: &mut DinatorState, effects: Vec<Effect>, i: int)
    requires
        old(s).wf(),
        is_focused(*old(s), i),
        shown_on(*old(s), i).len() < 2,
    ensures
        call_ensures(DinatorState::focus_next, (s,), effects) || call_ensures(
            DinatorState::focus_prev,
            (s,),
            effects,
        ) ==> unchanged(*old(s), *final(s)) && effects@ == Seq::<Effect>::empty(),
{
    lemma_focused(*old(s), i);
    lemma_view_parts(*old(s), *final(s));
}

/// The window at place `p` and the first one have changed places; the others stay. The focus stays on the
/// window, and the output is arranged anew. If the window is the first, nothing happens.
pub open spec fn swapped_with_first(
    a: DinatorState,
    b: DinatorState,
    effects: Seq<Effect>,
    i: int,
    p: int,
) -> bool {
    let before = shown_on(a, i);
    let after = shown_on(b, i);
    let ws = a.outputs@[i].active_workspace;
    &&& p == 0 ==> unchanged(a, b) && effects == Seq::<Effect>::empty()
    &&& p > 0 ==> {
        &&& effects == seq![Effect::Retile { output: a.outputs@[i].name }]
        &&& after.len() == before.len()
        &&& after[0] == before[p]
        &&& after[p] == before[0]
        &&& forall|k: int| 0 < k < before.len() && k != p ==> #[trigger] after[k] == before[k]
        &&& b.keyboard_focus == a.keyboard_focus
        &&& same_windows(a, b)
        &&& same_outputs(a, b)
        &&& same_setup(a, b)
        &&& same_memory(a, b)
        &&& same_lists_but(a, b, ws, ws)
    }
}

pub(crate) proof fn lemma_swapped_with_first(
    a: DinatorState,
    b: DinatorState,
    effects: Seq<Effect>,
    i: int,
    p: int,
)
    requires
        a.wf(),
        is_focused(a, i),
        shown_on(a, i).no_duplicates(),
        0 <= p < shown_on(a, i).len(),
        exists_in(a, shown_on(a, i)[p]),
        a.keyboard_focus == Some(shown_on(a, i)[p]),
        b@ == a@.master_swapped(),
        effects == a@.swap_effects(),
    ensures
        swapped_with_first(a, b, effects, i, p),
{
    lemma_focused(a, i);
    lemma_view_parts(a, b);
    lemma_place(shown_on(a, i), p);
}

/// The focused window and the first of the workspace change places; the others stay. If the window is
/// the first, nothing happens.
pub proof fn lemma_master_is_swapped(s: &mut DinatorState, effects: Vec<Effect>, i: int, p: int)
    requires
        old(s).wf(),
        is_focused(*old(s), i),
        call_ensures(DinatorState::swap_master, (s,), effects),
        shown_on(*old(s), i).no_duplicates(),
        0 <= p < shown_on(*old(s), i).len(),
        exists_in(*old(s), shown_on(*old(s), i)[p]),
        old(s).keyboard_focus == Some(shown_on(*old(s), i)[p]),
    ensures
        swapped_with_first(*old(s), *final(s), effects@, i, p),
{
    lemma_swapped_with_first(*old(s), *final(s), effects@, i, p);
}

pub(crate) proof fn lemma_unmaps_all(order: Seq<WindowId>, windows: Map<u64, WindowInfo>)
    requires
        forall|k: int| 0 <= k < order.len() ==> windows.dom().contains((#[trigger] order[k]).0),
    ensures
        unmaps(order, windows) == Seq::new(order.len(), |k: int| Effect::Unmap { id: order[k] }),
    decreases order.len(),
{
    if order.len() > 0 {
        let front = order.drop_last();
        assert(forall|k: int| 0 <= k < front.len() ==> #[trigger] front[k] == order[k]);
        assert(windows.dom().contains(order[order.len() - 1].0));
        lemma_unmaps_all(front, windows);
    }
    assert(unmaps(order, windows) =~= Seq::new(
        order.len(),
        |k: int| Effect::Unmap { id: order[k] },
    ));
}

/// The window that gets the focus when a workspace is shown: the one that had it when the workspace was
/// left, else the last.
pub open spec fn remembered(s: DinatorState, ws: usize) -> Option<WindowId> {
    if s.workspaces.focus(ws) is Some {
        s.workspaces.focus(ws)
    } else if s.workspaces.order(ws).len() > 0 {
        Some(s.workspaces.order(ws).last())
    } else {
        None
    }
}

/// Output `i` shows another workspace. The windows that it showed have left the screen, and one of the new
/// ones, the one in mind, is raised and has the focus. The workspace that was left keeps in mind which
/// window had it. No window changed its workspace, and the other outputs stay.
pub open spec fn switched_to(
    a: DinatorState,
    b: DinatorState,
    effects: Seq<Effect>,
    i: int,
    workspace: usize,
) -> bool {
    let from = a.outputs@[i].active_workspace;
    let gone = shown_on(a, i);
    let start = Seq::new(gone.len(), |k: int| Effect::Unmap { id: gone[k] }) + seq![
        Effect::Focus { target: None },
        Effect::Retile { output: a.outputs@[i].name },
    ];
    let end = seq![Effect::Emit { event: IpcEvent::WorkspaceChanged { workspace } }];
    &&& b.outputs@.len() == a.outputs@.len()
    &&& b.outputs@[i].active_workspace == workspace
    &&& b.outputs@[i].name == a.outputs@[i].name
    &&& b.outputs@[i].geometry == a.outputs@[i].geometry
    &&& b.outputs@[i].layout == a.outputs@[i].layout
    &&& b.outputs@[i].background == a.outputs@[i].background
    &&& forall|j: int|
        0 <= j < a.outputs@.len() && j != i ==> #[trigger] b.outputs@[j] == a.outputs@[j]
    &&& b@.focused_output == a@.focused_output
    &&& b.keyboard_focus == remembered(a, workspace)
    &&& b.workspaces.focus(from) == a.keyboard_focus
    &&& forall|n: usize|
        n != from ==> #[trigger] b.workspaces.focus(n) == a.workspaces.focus(n)
    &&& same_lists(a, b)
    &&& same_windows(a, b)
    &&& same_setup(a, b)
    &&& effects == match remembered(a, workspace) {
        Some(w) => start + seq![
            Effect::Raise { id: w, activate: true },
            Effect::Focus { target: Some(w) },
        ] + end,
        None => start + end,
    }
}

pub(crate) proof fn lemma_switched_to(
    a: DinatorState,
    b: DinatorState,
    effects: Seq<Effect>,
    i: int,
    workspace: usize,
)
    requires
        a.wf(),
        is_focused(a, i),
        1 <= workspace <= 9,
        workspace != a.outputs@[i].active_workspace,
        forall|k: int|
            0 <= k < shown_on(a, i).len() ==> exists_in(a, #[trigger] shown_on(a, i)[k]),
        a.keyboard_focus matches Some(w) ==> exists_in(a, w),
        remembered(a, workspace) matches Some(w) ==> takes_focus(a, w),
        b@ == a@.switched(workspace),
        effects == a@.switch_effects(workspace),
    ensures
        switched_to(a, b, effects, i, workspace),
{
    lemma_focused(a, i);
    lemma_view_parts(a, b);
    let gone = shown_on(a, i);
    assert forall|k: int| 0 <= k < gone.len() implies a.windows@.dom().contains(
        (#[trigger] gone[k]).0,
    ) by {
        assert(exists_in(a, gone[k]));
    }
    lemma_unmaps_all(gone, a.windows@);
    assert(a@.focus_on_arrival(workspace) == remembered(a, workspace));
    assert(a@.arrived(workspace).windows == a@.windows);
    assert(b@ == a@.switched(workspace));
    assert(b@.orders == a@.orders);
    assert(b@.outputs == a@.outputs.update(i, b@.outputs[i]));
    let start = Seq::new(gone.len(), |k: int| Effect::Unmap { id: gone[k] }) + seq![
        Effect::Focus { target: None },
        Effect::Retile { output: a.outputs@[i].name },
    ];
    let end = seq![Effect::Emit { event: IpcEvent::WorkspaceChanged { workspace } }];
    match remembered(a, workspace) {
        Some(w) => {
            assert(effects =~= start + seq![
                Effect::Raise { id: w, activate: true },
                Effect::Focus { target: Some(w) },
            ] + end);
        },
        None => {
            assert(effects =~= start + end);
        },
    }
}

/// Switching to another workspace of 1 to 9: the windows that were shown leave the screen, the output
/// shows the other workspace and is arranged anew, and the window that had the focus there, else the
/// last, is raised and gets it. The workspace that is left keeps in mind which window had the focus. No
/// window changes its workspace, and the other outputs stay.
pub proof fn lemma_workspace_is_switched(
    s: &mut DinatorState,
    effects: Vec<Effect>,
    i: int,
    workspace: usize,
)
    requires
        old(s).wf(),
        is_focused(*old(s), i),
        1 <= workspace <= 9,
        workspace != old(s).outputs@[i].active_workspace,
        call_ensures(DinatorState::switch_workspace, (s, workspace), effects),
        forall|k: int|
            0 <= k < shown_on(*old(s), i).len() ==> exists_in(*old(s), #[trigger] shown_on(*old(s), i)[k]),
        old(s).keyboard_focus matches Some(w) ==> exists_in(*old(s), w),
        remembered(*old(s), workspace) matches Some(w) ==> takes_focus(*old(s), w),
    ensures
        switched_to(*old(s), *final(s), effects@, i, workspace),
{
    lemma_switched_to(*old(s), *final(s), effects@, i, workspace);
}

/// A workspace that is shown already, or is none of 1 to 9, is not switched to.
pub proof fn lemma_no_such_workspace(s: &mut DinatorState, effects: Vec<Effect>, i: int, workspace: usize)
    requires
        old(s).wf(),
        is_focused(*old(s), i),
        workspace < 1 || workspace > 9 || workspace == old(s).outputs@[i].active_workspace,
    ensures
        call_ensures(DinatorState::switch_workspace, (s, workspace), effects) || call_ensures(
            DinatorState::move_to_workspace,
            (s, workspace),
            effects,
        ) ==> unchanged(*old(s), *final(s)) && effects@ == Seq::<Effect>::empty(),
{
    lemma_focused(*old(s), i);
    lemma_view_parts(*old(s), *final(s));
}

/// A list without one window, in the old order.
pub open spec fn is_without(after: Seq<WindowId>, before: Seq<WindowId>, p: int) -> bool {
    &&& after.len() == before.len() - 1
    &&& forall|k: int| 0 <= k < p ==> #[trigger] after[k] == before[k]
    &&& forall|k: int| p <= k < after.len() ==> #[trigger] after[k] == before[k + 1]
}

pub(crate) proof fn lemma_without_one(order: Seq<WindowId>, p: int)
    requires
        0 <= p < order.len(),
        order.no_duplicates(),
    ensures
        is_without(without(order, order[p]), order, p),
    decreases order.len(),
{
    reveal(Seq::filter);
    let front = order.drop_last();
    let left = without(order, order[p]);
    if p < front.len() {
        assert(front[p] == order[p]);
        assert(front.no_duplicates());
        lemma_without_one(front, p);
        assert(order.last() != order[p]);
        let shorter = without(front, order[p]);
        assert(left == shorter.push(order.last()));
        assert forall|k: int| p <= k < left.len() implies #[trigger] left[k] == order[k + 1] by {
            if k < shorter.len() {
                assert(left[k] == shorter[k]);
                assert(shorter[k] == front[k + 1]);
            }
        }
        assert forall|k: int| 0 <= k < p implies #[trigger] left[k] == order[k] by {
            assert(left[k] == shorter[k]);
            assert(shorter[k] == front[k]);
        }
    } else {
        assert(left == without(front, order[p]));
        lemma_without_none(front, order[p]);
    }
}

/// A list without a window that is not in it.
pub(crate) proof fn lemma_without_none(order: Seq<WindowId>, w: WindowId)
    requires
        forall|k: int| 0 <= k < order.len() ==> #[trigger] order[k] != w,
    ensures
        without(order, w) == order,
    decreases order.len(),
{
    reveal(Seq::filter);
    if order.len() > 0 {
        let front = order.drop_last();
        assert(forall|k: int| 0 <= k < front.len() ==> #[trigger] front[k] == order[k]);
        lemma_without_none(front, w);
        assert(order[order.len() - 1] != w);
        assert(without(order, w) =~= order);
    } else {
        assert(without(order, w) =~= order);
    }
}

/// The window at place `p` of what output `i` showed has left the screen and its list, and is last in
/// the list of another workspace. The last window that is left has the focus.
pub open spec fn went_to_workspace(
    a: DinatorState,
    b: DinatorState,
    effects: Seq<Effect>,
    i: int,
    p: int,
    workspace: usize,
) -> bool {
    let from = a.outputs@[i].active_workspace;
    let w = shown_on(a, i)[p];
    let left = shown_on(b, i);
    let next = if left.len() > 0 {
        Some(left.last())
    } else {
        None
    };
    &&& is_without(left, shown_on(a, i), p)
    &&& b.workspaces.order(workspace) == a.workspaces.order(workspace).push(w)
    &&& same_lists_but(a, b, from, workspace)
    &&& b.windows@.dom() == a.windows@.dom()
    &&& b.windows@[w.0].workspace == Some(workspace)
    &&& b.windows@[w.0].has_surface == a.windows@[w.0].has_surface
    &&& b.windows@[w.0].x11 == a.windows@[w.0].x11
    &&& b.windows@[w.0].commits == a.windows@[w.0].commits
    &&& forall|id: u64| id != w.0 ==> #[trigger] b.windows@[id] == a.windows@[id]
    &&& b.floating@ == a.floating@
    &&& b.fullscreen@ == a.fullscreen@
    &&& b.next_window == a.next_window
    &&& same_outputs(a, b)
    &&& same_setup(a, b)
    &&& same_memory(a, b)
    &&& b.keyboard_focus == next
    &&& effects == seq![
        Effect::Unmap { id: w },
        Effect::Retile { output: a.outputs@[i].name },
        Effect::Focus { target: next },
        Effect::Emit { event: IpcEvent::WindowMovedWorkspace { id: w.0, workspace } },
    ]
}

pub(crate) proof fn lemma_went_to_workspace(
    a: DinatorState,
    b: DinatorState,
    effects: Seq<Effect>,
    i: int,
    p: int,
    workspace: usize,
)
    requires
        a.wf(),
        is_focused(a, i),
        1 <= workspace <= 9,
        workspace != a.outputs@[i].active_workspace,
        shown_on(a, i).no_duplicates(),
        forall|k: int|
            0 <= k < shown_on(a, i).len() ==> takes_focus(
                a,
                #[trigger] shown_on(a, i)[k],
            ),
        0 <= p < shown_on(a, i).len(),
        a.keyboard_focus == Some(shown_on(a, i)[p]),
        b@ == a@.moved_to(workspace),
        effects == a@.move_effects(workspace),
    ensures
        went_to_workspace(a, b, effects, i, p, workspace),
{
    lemma_focused(a, i);
    lemma_view_parts(a, b);
    let from = a.outputs@[i].active_workspace;
    let order = shown_on(a, i);
    let w = order[p];
    assert(takes_focus(a, w));
    lemma_without_one(order, p);
    let left = without(order, w);
    let sent = a@.sent(w, from, workspace);
    assert(sent.order(from) == left);
    if left.len() > 0 {
        let k = left.len() - 1;
        let next = if k < p {
            k
        } else {
            k + 1
        };
        assert(left[k] == order[next]);
        assert(takes_focus(a, order[next]));
        assert(sent.focusable(left.last()));
    }
    assert(b@.windows == sent.windows && b@.orders == sent.orders);
    assert(b.windows@.dom() =~= a.windows@.dom());
    assert(effects =~= seq![
        Effect::Unmap { id: w },
        Effect::Retile { output: a.outputs@[i].name },
        Effect::Focus {
            target: if left.len() > 0 {
                Some(left.last())
            } else {
                None
            },
        },
        Effect::Emit { event: IpcEvent::WindowMovedWorkspace { id: w.0, workspace } },
    ]);
}

/// The focused window goes to another workspace of 1 to 9: it leaves the screen and its list, and comes
/// last in the other list. The last window that is left gets the focus.
pub proof fn lemma_window_goes_to_workspace(
    s: &mut DinatorState,
    effects: Vec<Effect>,
    i: int,
    p: int,
    workspace: usize,
)
    requires
        old(s).wf(),
        is_focused(*old(s), i),
        1 <= workspace <= 9,
        workspace != old(s).outputs@[i].active_workspace,
        call_ensures(DinatorState::move_to_workspace, (s, workspace), effects),
        shown_on(*old(s), i).no_duplicates(),
        forall|k: int|
            0 <= k < shown_on(*old(s), i).len() ==> takes_focus(
                *old(s),
                #[trigger] shown_on(*old(s), i)[k],
            ),
        0 <= p < shown_on(*old(s), i).len(),
        old(s).keyboard_focus == Some(shown_on(*old(s), i)[p]),
    ensures
        went_to_workspace(*old(s), *final(s), effects@, i, p, workspace),
{
    lemma_went_to_workspace(*old(s), *final(s), effects@, i, p, workspace);
}

/// The window floats where it did not, in the middle of output `i` and above the others, and is not
/// fullscreen; or it floats no more. The output is arranged anew.
pub open spec fn float_was_toggled(
    a: DinatorState,
    b: DinatorState,
    effects: Seq<Effect>,
    i: int,
    w: WindowId,
) -> bool {
    let area = a.outputs@[i].geometry;
    let arranged = Effect::Retile { output: a.outputs@[i].name };
    let floats = b.floating@.contains(w.0);
    &&& floats != a.floating@.contains(w.0)
    &&& forall|id: u64|
        id != w.0 ==> #[trigger] b.floating@.contains(id) == a.floating@.contains(id)
    &&& forall|id: u64|
        id != w.0 ==> #[trigger] b.fullscreen@.contains(id) == a.fullscreen@.contains(id)
    &&& floats ==> !b.fullscreen@.contains(w.0)
    &&& !floats ==> b.fullscreen@ == a.fullscreen@ && effects == seq![arranged]
    &&& floats ==> {
        &&& effects.len() == 3
        &&& effects[0] matches Effect::Place { id, rect, fullscreen } && id == w && !fullscreen
            && in_the_middle(rect, area)
        &&& effects[1] == (Effect::Raise { id: w, activate: true })
        &&& effects[2] == arranged
    }
    &&& b.windows@ == a.windows@
    &&& b.next_window == a.next_window
    &&& b.keyboard_focus == a.keyboard_focus
    &&& same_outputs(a, b)
    &&& same_setup(a, b)
    &&& same_lists(a, b)
    &&& same_memory(a, b)
}

pub(crate) proof fn lemma_float_was_toggled(
    a: DinatorState,
    b: DinatorState,
    effects: Seq<Effect>,
    i: int,
    w: WindowId,
)
    requires
        a.wf(),
        is_focused(a, i),
        a.keyboard_focus == Some(w),
        exists_in(a, w),
        b@ == a@.float_toggled(w),
        effects == a@.float_effects(w),
    ensures
        float_was_toggled(a, b, effects, i, w),
{
    lemma_focused(a, i);
    lemma_view_parts(a, b);
}

/// The focused window starts to float, in the middle of the focused output on two thirds of its width
/// and height and above the others, and is not fullscreen; or it floats no more. Either way the output is
/// arranged anew.
pub proof fn lemma_floating_is_toggled(
    s: &mut DinatorState,
    r: (Option<(WindowId, bool)>, Vec<Effect>),
    i: int,
    w: WindowId,
)
    requires
        old(s).wf(),
        is_focused(*old(s), i),
        call_ensures(DinatorState::toggle_float, (s,), r),
        old(s).keyboard_focus == Some(w),
        exists_in(*old(s), w),
    ensures
        r.0 == Some((w, final(s).floating@.contains(w.0))),
        float_was_toggled(*old(s), *final(s), r.1@, i, w),
{
    lemma_float_was_toggled(*old(s), *final(s), r.1@, i, w);
}

/// Two thirds of an area, cut off to whole pixels, and as far from the left and the upper edge as from
/// the right and the lower one, to a pixel.
pub open spec fn in_the_middle(r: Rect, area: Rect) -> bool {
    let right = area.x + area.width - r.x - r.width;
    let bottom = area.y + area.height - r.y - r.height;
    &&& 3 * r.width <= 2 * area.width < 3 * r.width + 3
    &&& 3 * r.height <= 2 * area.height < 3 * r.height + 3
    &&& r.x - area.x <= right <= r.x - area.x + 1
    &&& r.y - area.y <= bottom <= r.y - area.y + 1
}

/// The window is fullscreen where it was not, and does not float; or it is fullscreen no more. The output
/// is arranged anew.
pub open spec fn fullscreen_was_toggled(
    a: DinatorState,
    b: DinatorState,
    effects: Seq<Effect>,
    i: int,
    w: WindowId,
) -> bool {
    let full = b.fullscreen@.contains(w.0);
    &&& full != a.fullscreen@.contains(w.0)
    &&& forall|id: u64|
        id != w.0 ==> #[trigger] b.floating@.contains(id) == a.floating@.contains(id)
    &&& forall|id: u64|
        id != w.0 ==> #[trigger] b.fullscreen@.contains(id) == a.fullscreen@.contains(id)
    &&& full ==> !b.floating@.contains(w.0)
    &&& !full ==> b.floating@ == a.floating@
    &&& effects == seq![Effect::Retile { output: a.outputs@[i].name }]
    &&& b.windows@ == a.windows@
    &&& b.next_window == a.next_window
    &&& b.keyboard_focus == a.keyboard_focus
    &&& same_outputs(a, b)
    &&& same_setup(a, b)
    &&& same_lists(a, b)
    &&& same_memory(a, b)
}

pub(crate) proof fn lemma_fullscreen_was_toggled(
    a: DinatorState,
    b: DinatorState,
    effects: Seq<Effect>,
    i: int,
    w: WindowId,
)
    requires
        a.wf(),
        is_focused(a, i),
        a.keyboard_focus == Some(w),
        exists_in(a, w),
        b@ == a@.fullscreen_toggled(w),
        effects == a@.retiles_focused(),
    ensures
        fullscreen_was_toggled(a, b, effects, i, w),
{
    lemma_focused(a, i);
    lemma_view_parts(a, b);
}

/// The focused window becomes fullscreen and does not float, or is fullscreen no more. Either way the
/// output is arranged anew.
pub proof fn lemma_fullscreen_is_toggled(
    s: &mut DinatorState,
    r: (Option<(WindowId, bool)>, Vec<Effect>),
    i: int,
    w: WindowId,
)
    requires
        old(s).wf(),
        is_focused(*old(s), i),
        call_ensures(DinatorState::toggle_fullscreen, (s,), r),
        old(s).keyboard_focus == Some(w),
        exists_in(*old(s), w),
    ensures
        r.0 == Some((w, final(s).fullscreen@.contains(w.0))),
        fullscreen_was_toggled(*old(s), *final(s), r.1@, i, w),
{
    lemma_fullscreen_was_toggled(*old(s), *final(s), r.1@, i, w);
}

/// The focused window is asked to close, and no other.
pub proof fn lemma_focused_window_is_closed(s: &DinatorState, effects: Vec<Effect>)
    requires
        call_ensures(DinatorState::close_focused_window, (s,), effects),
    ensures
        s.keyboard_focus matches Some(w) ==> (exists_in(*s, w) ==> effects@ == seq![
            Effect::Close { id: w },
        ]),
        s.keyboard_focus is None ==> effects@ == Seq::<Effect>::empty(),
{
}

} // verus!
