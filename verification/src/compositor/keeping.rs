//! What is kept of outputs, workspaces and windows is found again.

use crate::compositor::arranging::{exists_in, shown_on};
use crate::compositor::event::Effect;
use crate::compositor::moving::{
    is_focused, is_without, lemma_focused, lemma_view_parts, lemma_without_none, lemma_without_one,
    same_lists, same_windows, takes_focus, unchanged,
};
use crate::compositor::neighbours::{hidden, nameless};
use crate::compositor::outputs::{cycle_index, left_of, lemma_order_is_complete};
use crate::compositor::state::{
    geometry_ok, has_output, index_of, lemma_index_of, named, shown, DinatorState, OutputState,
};
use crate::compositor::windows::{position_in, window_position};
use crate::compositor::workspaces::{remove_window, without, Workspaces};
use crate::tiling::{Rect, WindowId};
use vstd::prelude::*;

verus! {

broadcast use vstd::std_specs::hash::group_hash_axioms;

pub(crate) proof fn lemma_named(s: DinatorState, name: Seq<char>, t: int)
    requires
        s.wf(),
    ensures
        0 <= t < s.outputs@.len() && s.outputs@[t].name@ == name ==> has_output(s.outputs@, name)
            && index_of(s.outputs@, name) == t,
        nameless(s, name) ==> !has_output(s.outputs@, name),
{
    if 0 <= t < s.outputs@.len() && s.outputs@[t].name@ == name {
        lemma_index_of(s.outputs@, name, t);
    }
    if has_output(s.outputs@, name) {
        let k = index_of(s.outputs@, name);
        assert(named(s.outputs@, name, k));
        assert(s.outputs@[k].name@ == name);
    }
}

/// An output is found by its name, and a surface that asks for one by its name gets it, else the focused
/// one.
pub proof fn lemma_outputs_are_found_by_name(
    s: &DinatorState,
    name: &str,
    r: Option<usize>,
    for_layer: Option<usize>,
    for_any: Option<usize>,
    t: int,
    i: int,
)
    requires
        s.wf(),
        is_focused(*s, i),
        call_ensures(DinatorState::output_index, (s, name), r),
        call_ensures(DinatorState::layer_output, (s, Some(name)), for_layer),
        call_ensures(DinatorState::layer_output, (s, None), for_any),
    ensures
        0 <= t < s.outputs@.len() && s.outputs@[t].name@ == name@ ==> r == Some(t as usize) && for_layer
            == Some(t as usize),
        nameless(*s, name@) ==> r is None && for_layer == Some(i as usize),
        for_any == Some(i as usize),
{
    lemma_named(*s, name@, t);
    lemma_focused(*s, i);
    if 0 <= t < s.outputs@.len() && s.outputs@[t].name@ == name@ {
        let k = for_layer->0 as int;
        assert(named(s.outputs@, name@, k));
        lemma_index_of(s.outputs@, name@, k);
    }
}

/// The focused output is the one that has the focus, with the workspace that it shows, and the focused
/// window is the one that has the keyboard, if it is there.
pub proof fn lemma_focus_is_found(
    s: &DinatorState,
    i: int,
    index: Option<usize>,
    output: Option<&OutputState>,
    workspace: usize,
    window: Option<WindowId>,
    w: WindowId,
    focusable: bool,
)
    requires
        s.wf(),
        is_focused(*s, i),
        call_ensures(DinatorState::focused_output_index, (s,), index),
        call_ensures(DinatorState::get_focused_output, (s,), output),
        call_ensures(DinatorState::focused_workspace, (s,), workspace),
        call_ensures(DinatorState::focused_window, (s,), window),
        call_ensures(DinatorState::is_focusable, (s, w), focusable),
    ensures
        index == Some(i as usize),
        output == Some(&s.outputs@[i]),
        workspace == s.outputs@[i].active_workspace,
        window == Some(w) <==> s.keyboard_focus == Some(w) && exists_in(*s, w),
        s.keyboard_focus is None ==> window is None,
        focusable <==> takes_focus(*s, w),
{
    lemma_focused(*s, i);
}

/// The list of a workspace that an output shows is that of the windows which it shows. An output is found
/// by its workspace: the first that shows it.
pub proof fn lemma_workspaces_are_found(
    s: &DinatorState,
    t: int,
    list: &[WindowId],
    r: Option<usize>,
    ws: usize,
)
    requires
        s.wf(),
        0 <= t < s.outputs@.len(),
        call_ensures(DinatorState::ws_window_list, (s, s.outputs@[t].active_workspace), list),
        call_ensures(DinatorState::output_for_workspace, (s, ws), r),
    ensures
        list@ == shown_on(*s, t),
        s.outputs@[t].active_workspace == ws ==> r is Some && r->0 <= t,
        r is Some ==> r->0 < s.outputs@.len() && s.outputs@[r->0 as int].active_workspace == ws,
        hidden(*s, ws) ==> r is None,
{
    if s.outputs@[t].active_workspace == ws {
        assert(shown(s.outputs@, ws));
    }
}

/// A new output gets the first workspace of the nine that no output shows.
pub proof fn lemma_free_workspace_is_found(s: &DinatorState, r: usize, free: usize)
    requires
        call_ensures(DinatorState::free_workspace, (s,), r),
        1 <= free <= 9,
        hidden(*s, free),
        forall|m: usize| 1 <= m < free ==> !#[trigger] hidden(*s, m),
    ensures
        r == free,
{
    assert forall|m: usize| shown(s.outputs@, m) == !#[trigger] hidden(*s, m) by {
        if shown(s.outputs@, m) {
            let k = choose|k: int|
                0 <= k < s.outputs@.len() && (#[trigger] s.outputs@[k]).active_workspace == m;
            assert(s.outputs@[k].active_workspace == m);
        }
        if !hidden(*s, m) {
            let k = choose|k: int|
                0 <= k < s.outputs@.len() && (#[trigger] s.outputs@[k]).active_workspace == m;
            assert(shown(s.outputs@, m));
        }
    }
    assert(shown(s.outputs@, r) == !hidden(*s, r));
    assert(shown(s.outputs@, free) == !hidden(*s, free));
    assert(crate::compositor::state::is_free_workspace(s.outputs@, r));
    if r < free {
        assert(!hidden(*s, r));
    }
}

/// An output that is moved lies where it was moved to, and nothing else changes.
pub proof fn lemma_outputs_are_moved(s: &mut DinatorState, name: &str, geometry: Rect, t: int)
    requires
        old(s).wf(),
        geometry_ok(geometry),
        0 <= t < old(s).outputs@.len(),
        call_ensures(DinatorState::set_output_geometry, (s, name, geometry), ()),
    ensures
        nameless(*old(s), name@) ==> unchanged(*old(s), *final(s)),
        final(s).outputs@.len() == old(s).outputs@.len(),
        old(s).outputs@[t].name@ == name@ ==> final(s).outputs@[t].geometry == geometry,
        old(s).outputs@[t].name@ != name@ ==> final(s).outputs@[t] == old(s).outputs@[t],
        final(s).outputs@[t].name@ == old(s).outputs@[t].name@,
        final(s).outputs@[t].active_workspace == old(s).outputs@[t].active_workspace,
        final(s).outputs@[t].layout == old(s).outputs@[t].layout,
        same_windows(*old(s), *final(s)),
        same_lists(*old(s), *final(s)),
{
    lemma_named(*old(s), name@, t);
    lemma_view_parts(*old(s), *final(s));
    if has_output(old(s).outputs@, name@) {
        let k = index_of(old(s).outputs@, name@);
        assert(named(old(s).outputs@, name@, k));
        lemma_named(*old(s), name@, k);
    }
}

/// A window that is added to a workspace comes last in its list; the other lists stay.
pub proof fn lemma_windows_are_listed_last(
    w: &mut Workspaces,
    number: usize,
    id: WindowId,
    other: usize,
    before: &[WindowId],
    after: &[WindowId],
    focus_before: Option<WindowId>,
    focus_after: Option<WindowId>,
)
    requires
        old(w).wf(),
        call_ensures(Workspaces::push, (w, number, id), ()),
        call_ensures(Workspaces::list, (&*old(w), other), before),
        call_ensures(Workspaces::list, (&*final(w), other), after),
        call_ensures(Workspaces::saved_focus, (&*old(w), other), focus_before),
        call_ensures(Workspaces::saved_focus, (&*final(w), other), focus_after),
    ensures
        other == number ==> after@ == before@.push(id),
        other != number ==> after@ == before@,
        focus_after == focus_before,
{
    assert(final(w).orders()[other] == final(w).order(other));
    assert(final(w).focuses()[other] == final(w).focus(other));
    assert(old(w).focuses()[other] == old(w).focus(other));
    assert(old(w).orders()[other] == old(w).order(other));
}

/// A list that is put in place of another is the one of its workspace, and the focus that is noted is
/// told; what other workspaces hold stays.
pub proof fn lemma_what_is_noted_is_told(
    w: &mut Workspaces,
    number: usize,
    order: Vec<WindowId>,
    focus: Option<WindowId>,
    other: usize,
    before: &[WindowId],
    after: &[WindowId],
    focus_before: Option<WindowId>,
    focus_after: Option<WindowId>,
)
    requires
        old(w).wf(),
        call_ensures(Workspaces::list, (&*old(w), other), before),
        call_ensures(Workspaces::list, (&*final(w), other), after),
        call_ensures(Workspaces::saved_focus, (&*old(w), other), focus_before),
        call_ensures(Workspaces::saved_focus, (&*final(w), other), focus_after),
    ensures
        call_ensures(Workspaces::set_order, (w, number, order), ()) ==> focus_after == focus_before
            && after@ == (if other == number {
            order@
        } else {
            before@
        }),
        call_ensures(Workspaces::save_focus, (w, number, focus), ()) ==> after@ == before@
            && focus_after == (if other == number {
            focus
        } else {
            focus_before
        }),
{
    assert(final(w).orders()[other] == final(w).order(other));
    assert(final(w).focuses()[other] == final(w).focus(other));
    assert(old(w).focuses()[other] == old(w).focus(other));
    assert(old(w).orders()[other] == old(w).order(other));
}

/// A window that goes is in no list, and no workspace gives it the focus; the others stay in order.
pub proof fn lemma_windows_are_taken_out(
    w: &mut Workspaces,
    id: WindowId,
    number: usize,
    p: int,
    before: &[WindowId],
    after: &[WindowId],
    focus_before: Option<WindowId>,
    focus_after: Option<WindowId>,
)
    requires
        old(w).wf(),
        call_ensures(Workspaces::remove_everywhere, (w, id), ()),
        call_ensures(Workspaces::list, (&*old(w), number), before),
        call_ensures(Workspaces::list, (&*final(w), number), after),
        call_ensures(Workspaces::saved_focus, (&*old(w), number), focus_before),
        call_ensures(Workspaces::saved_focus, (&*final(w), number), focus_after),
        before@.no_duplicates(),
    ensures
        0 <= p < before@.len() && before@[p] == id ==> is_without(after@, before@, p),
        (forall|k: int| 0 <= k < before@.len() ==> #[trigger] before@[k] != id) ==> after@ == before@,
        focus_before == Some(id) ==> focus_after is None,
        focus_before != Some(id) ==> focus_after == focus_before,
{
    assert(final(w).order(number) == without(old(w).order(number), id));
    assert(final(w).focus(number) == final(w).focus(number));
    if 0 <= p < before@.len() && before@[p] == id {
        lemma_without_one(before@, p);
    }
    if forall|k: int| 0 <= k < before@.len() ==> #[trigger] before@[k] != id {
        lemma_without_none(before@, id);
    }
}

/// A window is found in a list at its first place, and gone from the list without it.
pub proof fn lemma_places_are_found(
    order: &[WindowId],
    id: WindowId,
    p: int,
    r: Option<usize>,
    left: Vec<WindowId>,
)
    requires
        order@.no_duplicates(),
        call_ensures(window_position, (order, id), r),
        call_ensures(remove_window, (order, id), left),
    ensures
        0 <= p < order@.len() && order@[p] == id ==> r == Some(p as usize) && is_without(left@, order@, p),
        (forall|k: int| 0 <= k < order@.len() ==> #[trigger] order@[k] != id) ==> r is None && left@
            == order@,
{
    if 0 <= p < order@.len() && order@[p] == id {
        lemma_without_one(order@, p);
        lemma_position(order@, id, p);
    }
    if forall|k: int| 0 <= k < order@.len() ==> #[trigger] order@[k] != id {
        lemma_without_none(order@, id);
        lemma_no_position(order@, id);
    }
}

proof fn lemma_position(order: Seq<WindowId>, id: WindowId, p: int)
    requires
        0 <= p < order.len(),
        order[p] == id,
        order.no_duplicates(),
    ensures
        position_in(order, id) == p,
    decreases order.len(),
{
    let front = order.drop_last();
    assert(forall|k: int| 0 <= k < front.len() ==> #[trigger] front[k] == order[k]);
    if p < front.len() {
        assert(front.no_duplicates());
        lemma_position(front, id, p);
    } else {
        assert forall|k: int| 0 <= k < front.len() implies #[trigger] front[k] != id by {
            assert(order[k] != order[p]);
        }
        lemma_no_position(front, id);
    }
}

proof fn lemma_no_position(order: Seq<WindowId>, id: WindowId)
    requires
        forall|k: int| 0 <= k < order.len() ==> #[trigger] order[k] != id,
    ensures
        position_in(order, id) == order.len(),
    decreases order.len(),
{
    if order.len() > 0 {
        let front = order.drop_last();
        assert(forall|k: int| 0 <= k < front.len() ==> #[trigger] front[k] == order[k]);
        lemma_no_position(front, id);
        assert(order[order.len() - 1] != id);
    }
}

/// One step on in a ring goes to the next place, and from the last to the first; one step back undoes it.
pub(crate) proof fn lemma_steps_go_round(k: usize, n: usize, on: usize, back: usize)
    requires
        k < n,
        call_ensures(cycle_index, (k, 1i32, n), on),
        call_ensures(cycle_index, (on, -1i32, n), back),
    ensures
        k + 1 < n ==> on == k + 1,
        k + 1 == n ==> on == 0,
        back == k,
{
    if k + 1 < n {
        vstd::arithmetic::div_mod::lemma_small_mod((k + 1) as nat, n as nat);
        vstd::arithmetic::div_mod::lemma_small_mod(k as nat, n as nat);
    } else {
        vstd::arithmetic::div_mod::lemma_mod_self_0(n as int);
        vstd::arithmetic::div_mod::lemma_mod_add_multiples_vanish(-1, n as int);
        vstd::arithmetic::div_mod::lemma_small_mod((n - 1) as nat, n as nat);
    }
}

/// Outputs are ordered from left to right, each of them once.
pub proof fn lemma_outputs_are_ordered(s: &DinatorState, order: Vec<usize>, i: int, a: int, b: int)
    requires
        call_ensures(DinatorState::outputs_by_position, (s,), order),
        0 <= i < s.outputs@.len(),
    ensures
        order@.len() == s.outputs@.len(),
        exists|k: int| 0 <= k < order@.len() && #[trigger] order@[k] == i,
        0 <= a < b < order@.len() ==> order@[a] != order@[b] && s.outputs@[order@[a] as int].geometry.x
            <= s.outputs@[order@[b] as int].geometry.x,
{
    lemma_order_is_complete(s.outputs@, order@, i);
    if 0 <= a < b < order@.len() {
        assert(left_of(s.outputs@, order@[a] as int, order@[b] as int));
    }
}

/// When a surface outside the windows goes, the keyboard goes back to the window that had it.
pub proof fn lemma_keyboard_goes_back(s: &mut DinatorState, effects: Vec<Effect>, w: WindowId)
    requires
        old(s).wf(),
        call_ensures(DinatorState::layer_destroyed, (s,), effects),
    ensures
        unchanged(*old(s), *final(s)),
        old(s).keyboard_focus == Some(w) && takes_focus(*old(s), w) ==> effects@ == seq![
            Effect::Focus { target: Some(w) },
        ],
        old(s).keyboard_focus is None ==> effects@.len() == 0,
{
    lemma_view_parts(*old(s), *final(s));
}

} // verus!
