//! What holds across the operations on windows, workspaces and outputs.

use crate::background::Background;
use crate::compositor::layout::ActiveLayout;
use crate::compositor::outputs::{is_left_to_right, is_neighbour};
use crate::compositor::state::{
    distinct, has_output, is_free_workspace, lemma_same_names, named, output_added, shown, Model,
    OutputState, WindowInfo, LAST_WORKSPACE,
};
use crate::compositor::windows::{lemma_position, position_in, rotated, swapped};
use crate::compositor::workspaces::without;
use crate::tiling::{Rect, WindowId};
use vstd::prelude::*;

verus! {

/// Every window that belongs to a workspace is in the list of that workspace, once, and in no other
/// list.
pub open spec fn tidy(m: Model) -> bool {
    &&& forall|ws: usize| (#[trigger] m.orders[ws]).no_duplicates()
    &&& forall|ws: usize, id: WindowId| #[trigger]
        m.orders[ws].contains(id) ==> m.windows.dom().contains(id.0) && m.windows[id.0].workspace
            == Some(ws)
    &&& forall|id: WindowId| #[trigger]
        m.windows.dom().contains(id.0) && m.windows[id.0].workspace is Some
            ==> m.orders[m.windows[id.0].workspace->0].contains(id)
}

/// A list without a window holds exactly the others.
pub proof fn lemma_without(order: Seq<WindowId>, id: WindowId, other: WindowId)
    ensures
        without(order, id).contains(other) <==> order.contains(other) && other != id,
        order.no_duplicates() ==> without(order, id).no_duplicates(),
    decreases order.len(),
{
    reveal(Seq::filter);
    if order.len() > 0 {
        let front = order.drop_last();
        let last = order.last();
        let left = without(front, id);
        lemma_without(front, id, other);
        lemma_without(front, id, last);
        assert(order =~= front.push(last));
        assert(without(order, id) == if last != id {
            left.push(last)
        } else {
            left
        });
        if front.contains(other) {
            let i = choose|i: int| 0 <= i < front.len() && front[i] == other;
            assert(order[i] == other);
        }
        if order.contains(other) && other != last {
            let i = choose|i: int| 0 <= i < order.len() && order[i] == other;
            assert(front[i] == other);
        }
        if other == last {
            assert(order[order.len() - 1] == other);
        }
        if last != id {
            let all = left.push(last);
            if left.contains(other) {
                let i = choose|i: int| 0 <= i < left.len() && left[i] == other;
                assert(all[i] == other);
            }
            if all.contains(other) && other != last {
                let i = choose|i: int| 0 <= i < all.len() && all[i] == other;
                assert(left[i] == other);
            }
            assert(all[left.len() as int] == last);
            if order.no_duplicates() {
                assert(front.no_duplicates());
                if left.contains(last) {
                    let i = choose|i: int| 0 <= i < front.len() && front[i] == last;
                    assert(order[i] == order[order.len() - 1]);
                }
            }
        } else if order.no_duplicates() {
            assert(front.no_duplicates());
        }
    } else {
        assert(without(order, id) =~= order);
    }
}

/// A turned list holds the same windows, each as often.
pub proof fn lemma_rotated_holds_the_same(order: Seq<WindowId>, k: int)
    requires
        0 <= k <= order.len(),
    ensures
        rotated(order, k).to_multiset() == order.to_multiset(),
        rotated(order, k).len() == order.len(),
{
    let a = order.take(k);
    let b = order.skip(k);
    assert(order =~= a + b);
    vstd::seq_lib::lemma_multiset_commutative(a, b);
    vstd::seq_lib::lemma_multiset_commutative(b, a);
    assert(rotated(order, k) == b + a);
    assert(a.to_multiset().add(b.to_multiset()) =~= b.to_multiset().add(a.to_multiset()));
}

proof fn lemma_rotated_contains(order: Seq<WindowId>, k: int, id: WindowId)
    requires
        0 <= k <= order.len(),
    ensures
        rotated(order, k).contains(id) == order.contains(id),
        order.no_duplicates() ==> rotated(order, k).no_duplicates(),
{
    let turned = rotated(order, k);
    let n = order.len() as int;
    assert forall|i: int| 0 <= i < n implies #[trigger] turned[i] == order[if i < n - k {
        i + k
    } else {
        i - (n - k)
    }] by {}
    if order.contains(id) {
        let i = choose|i: int| 0 <= i < n && order[i] == id;
        assert(turned[if i < k {
            i + (n - k)
        } else {
            i - k
        }] == id);
    }
    if turned.contains(id) {
        let i = choose|i: int| 0 <= i < n && turned[i] == id;
        assert(order[if i < n - k {
            i + k
        } else {
            i - (n - k)
        }] == id);
    }
}

proof fn lemma_swapped_contains(order: Seq<WindowId>, k: int, id: WindowId)
    requires
        0 <= k < order.len(),
    ensures
        swapped(order, k).contains(id) == order.contains(id),
        order.no_duplicates() ==> swapped(order, k).no_duplicates(),
{
    let new = swapped(order, k);
    if order.contains(id) {
        let i = choose|i: int| 0 <= i < order.len() && order[i] == id;
        assert(new[if i == 0 {
            k
        } else if i == k {
            0
        } else {
            i
        }] == id);
    }
    if new.contains(id) {
        let i = choose|i: int| 0 <= i < new.len() && new[i] == id;
        assert(order[if i == 0 {
            k
        } else if i == k {
            0
        } else {
            i
        }] == id);
    }
}

/// The state with another list of the same windows for one workspace is as tidy.
proof fn lemma_reordered_is_tidy(m: Model, ws: usize, list: Seq<WindowId>)
    requires
        tidy(m),
        list.no_duplicates(),
        forall|id: WindowId| #[trigger] list.contains(id) == m.orders[ws].contains(id),
    ensures
        tidy(Model { orders: m.orders.insert(ws, list), ..m }),
{
    let after = Model { orders: m.orders.insert(ws, list), ..m };
    assert forall|w: usize, id: WindowId| #[trigger] after.orders[w].contains(
        id,
    ) implies after.windows.dom().contains(id.0) && after.windows[id.0].workspace == Some(w) by {
        if w == ws {
            assert(list.contains(id));
        }
        assert(m.orders[w].contains(id));
    }
    assert forall|id: WindowId| #[trigger]
        after.windows.dom().contains(id.0) && after.windows[id.0].workspace is Some implies after.orders[after.windows[id.0].workspace->0].contains(
    id) by {
        let home = m.windows[id.0].workspace->0;
        assert(m.windows.dom().contains(id.0));
        assert(m.orders[home].contains(id));
        if home == ws {
            assert(list.contains(id));
        }
    }
}

/// A window that opens joins the list of its workspace, and no other.
pub proof fn lemma_opening_keeps_tidy(m: Model, info: WindowInfo)
    requires
        tidy(m),
        !m.windows.dom().contains(m.next_window),
        info.workspace == Some(m.focused_workspace()),
    ensures
        tidy(m.with_window(info)),
{
    let ws = m.focused_workspace();
    let id = WindowId(m.next_window);
    let after = m.with_window(info);
    let list = m.orders[ws];
    assert(!list.contains(id));
    let longer = list.push(id);
    assert(after.orders == m.orders.insert(ws, longer));
    assert forall|w: usize| (#[trigger] after.orders[w]).no_duplicates() by {
        assert(m.orders[w].no_duplicates());
        if w == ws {
            assert forall|i: int, j: int| 0 <= i < j < longer.len() implies longer[i] != longer[j] by {
                if j == list.len() {
                    assert(list.contains(list[i]));
                }
            }
        }
    }
    assert forall|w: usize, other: WindowId| #[trigger] after.orders[w].contains(
        other,
    ) implies after.windows.dom().contains(other.0) && after.windows[other.0].workspace == Some(
        w,
    ) by {
        if w == ws {
            let i = choose|i: int| 0 <= i < longer.len() && longer[i] == other;
            if i < list.len() {
                assert(list[i] == other);
                assert(m.orders[w].contains(other));
            }
        } else {
            assert(m.orders[w].contains(other));
        }
    }
    assert forall|other: WindowId| #[trigger]
        after.windows.dom().contains(other.0) && after.windows[other.0].workspace is Some implies after.orders[after.windows[other.0].workspace->0].contains(
    other) by {
        if other.0 == id.0 {
            assert(longer[list.len() as int] == other);
        } else {
            assert(m.windows.dom().contains(other.0));
            let home = m.windows[other.0].workspace->0;
            assert(m.orders[home].contains(other));
            if home == ws {
                let i = choose|i: int| 0 <= i < list.len() && list[i] == other;
                assert(longer[i] == other);
            }
        }
    }
}

/// A window that closes leaves its list, and every other window stays in its own.
pub proof fn lemma_closing_keeps_tidy(m: Model, id: WindowId)
    requires
        tidy(m),
    ensures
        tidy(m.without_window(id)),
        forall|ws: usize| !(#[trigger] m.without_window(id).orders[ws]).contains(id),
        forall|ws: usize, other: WindowId|
            other != id ==> (#[trigger] m.without_window(id).orders[ws].contains(other)
                <==> m.orders[ws].contains(other)),
{
    let after = m.without_window(id);
    assert forall|ws: usize, other: WindowId| #[trigger] after.orders[ws].contains(other) <==> (
    m.orders[ws].contains(other) && other != id) by {
        lemma_without(m.orders[ws], id, other);
    }
    assert forall|ws: usize| (#[trigger] after.orders[ws]).no_duplicates() by {
        assert(m.orders[ws].no_duplicates());
        lemma_without(m.orders[ws], id, id);
    }
    assert forall|other: WindowId| #[trigger]
        after.windows.dom().contains(other.0) && after.windows[other.0].workspace is Some implies after.orders[after.windows[other.0].workspace->0].contains(
    other) by {
        assert(m.windows.dom().contains(other.0));
        assert(m.orders[m.windows[other.0].workspace->0].contains(other));
    }
    assert forall|ws: usize| !(#[trigger] after.orders[ws]).contains(id) by {
        assert(after.orders[ws].contains(id) <==> (m.orders[ws].contains(id) && id != id));
    }
}

/// A window that is sent from its workspace to another is in the list of that one only, and every
/// other window stays where it is.
pub proof fn lemma_sending_keeps_tidy(m: Model, id: WindowId, to: usize)
    requires
        tidy(m),
        m.windows.dom().contains(id.0),
        m.windows[id.0].workspace is Some,
        m.windows[id.0].workspace->0 != to,
    ensures
        ({
            let from = m.windows[id.0].workspace->0;
            let after = m.sent(id, from, to);
            &&& tidy(after)
            &&& after.orders[to].contains(id)
            &&& !after.orders[from].contains(id)
            &&& forall|ws: usize, other: WindowId|
                other != id ==> (#[trigger] after.orders[ws].contains(other)
                    <==> m.orders[ws].contains(other))
        }),
{
    let from = m.windows[id.0].workspace->0;
    let after = m.sent(id, from, to);
    let left = without(m.orders[from], id);
    let joined = m.orders[to].push(id);
    assert(!m.orders[to].contains(id));
    lemma_without(m.orders[from], id, id);
    assert(m.orders[from].no_duplicates() && m.orders[to].no_duplicates());
    assert(after.orders =~= m.orders.insert(from, left).insert(to, joined));
    assert forall|other: WindowId| other != id implies (#[trigger] joined.contains(other)
        <==> m.orders[to].contains(other)) by {
        if m.orders[to].contains(other) {
            let i = choose|i: int| 0 <= i < m.orders[to].len() && m.orders[to][i] == other;
            assert(joined[i] == other);
        }
        if joined.contains(other) {
            let i = choose|i: int| 0 <= i < joined.len() && joined[i] == other;
            assert(m.orders[to][i] == other);
        }
    }
    assert(joined[m.orders[to].len() as int] == id);
    assert forall|ws: usize, other: WindowId| other != id implies (
    #[trigger] after.orders[ws].contains(other) <==> m.orders[ws].contains(other)) by {
        if ws == to {
            assert(joined.contains(other) <==> m.orders[to].contains(other));
        } else if ws == from {
            lemma_without(m.orders[from], id, other);
        }
    }
    assert forall|ws: usize| (#[trigger] after.orders[ws]).no_duplicates() by {
        assert(m.orders[ws].no_duplicates());
        if ws == to {
            let list = m.orders[to];
            assert forall|i: int, j: int| 0 <= i < j < joined.len() implies joined[i] != joined[j] by {
                if j == list.len() {
                    assert(list.contains(list[i]));
                }
            }
        }
    }
    assert forall|ws: usize, other: WindowId| #[trigger] after.orders[ws].contains(
        other,
    ) implies after.windows.dom().contains(other.0) && after.windows[other.0].workspace == Some(
        ws,
    ) by {
        if other == id {
            if ws != to {
                if ws != from {
                    assert(m.orders[ws].contains(id));
                }
            }
        } else {
            assert(m.orders[ws].contains(other));
        }
    }
    assert forall|other: WindowId| #[trigger]
        after.windows.dom().contains(other.0) && after.windows[other.0].workspace is Some implies after.orders[after.windows[other.0].workspace->0].contains(
    other) by {
        if other.0 == id.0 {
            assert(other == id);
        } else {
            assert(m.windows.dom().contains(other.0));
            assert(m.orders[m.windows[other.0].workspace->0].contains(other));
        }
    }
}

/// The state with another keyboard focus is as tidy.
proof fn lemma_focusing_keeps_tidy(m: Model, id: WindowId)
    requires
        tidy(m),
    ensures
        tidy(m.focusing(id)),
{
    let after = m.focusing(id);
    assert forall|ws: usize, other: WindowId| #[trigger] after.orders[ws].contains(
        other,
    ) implies after.windows.dom().contains(other.0) && after.windows[other.0].workspace == Some(
        ws,
    ) by {
        assert(m.orders[ws].contains(other));
    }
    assert forall|other: WindowId| #[trigger]
        after.windows.dom().contains(other.0) && after.windows[other.0].workspace is Some implies after.orders[after.windows[other.0].workspace->0].contains(
    other) by {
        assert(m.windows.dom().contains(other.0));
    }
}

/// Moving the focused window to a workspace takes it from the focused one, if it belongs there, and
/// leaves every other window alone.
pub proof fn lemma_moving_keeps_tidy(m: Model, workspace: usize)
    requires
        tidy(m),
        m.can_move(workspace),
        m.windows[(m.focused_id()->0).0].workspace == Some(m.focused_workspace()),
    ensures
        ({
            let id = m.focused_id()->0;
            let after = m.moved_to(workspace);
            &&& tidy(after)
            &&& after.windows[id.0].workspace == Some(workspace)
            &&& after.orders[workspace].contains(id)
            &&& !after.orders[m.focused_workspace()].contains(id)
        }),
{
    let id = m.focused_id()->0;
    let from = m.focused_workspace();
    lemma_sending_keeps_tidy(m, id, workspace);
    let sent = m.sent(id, from, workspace);
    let left = sent.order(from);
    if left.len() > 0 {
        lemma_focusing_keeps_tidy(sent, left.last());
    } else {
        let after = m.moved_to(workspace);
        assert(after.orders == sent.orders && after.windows == sent.windows);
        assert forall|ws: usize, other: WindowId| #[trigger] after.orders[ws].contains(
            other,
        ) implies after.windows.dom().contains(other.0) && after.windows[other.0].workspace == Some(
            ws,
        ) by {
            assert(sent.orders[ws].contains(other));
        }
        assert forall|other: WindowId| #[trigger]
            after.windows.dom().contains(other.0) && after.windows[other.0].workspace is Some implies after.orders[after.windows[other.0].workspace->0].contains(
        other) by {
            assert(sent.windows.dom().contains(other.0));
        }
    }
}

/// Moving the focus on keeps every window in its list.
pub proof fn lemma_cycling_keeps_tidy(m: Model, direction: int)
    requires
        tidy(m),
    ensures
        tidy(m.cycled(direction)),
{
    if m.can_cycle(direction) {
        let ws = m.focused_workspace();
        let order = m.order(ws);
        let next = m.next_focus(direction);
        let focused = m.focusing(next);
        lemma_focusing_keeps_tidy(m, next);
        if m.overlapping() {
            let k = position_in(order, next);
            lemma_position(order, next);
            assert(order.no_duplicates());
            lemma_rotated_contains(order, k, next);
            assert forall|id: WindowId| #[trigger] rotated(order, k).contains(id)
                == focused.orders[ws].contains(id) by {
                lemma_rotated_contains(order, k, id);
            }
            lemma_reordered_is_tidy(focused, ws, rotated(order, k));
            assert(m.cycled(direction) =~= Model {
                orders: focused.orders.insert(ws, rotated(order, k)),
                ..focused
            });
        }
    }
}

/// Exchanging the focused window with the master keeps every window in its list.
pub proof fn lemma_swapping_keeps_tidy(m: Model)
    requires
        tidy(m),
    ensures
        tidy(m.master_swapped()),
        m.can_swap() ==> m.master_swapped().order(m.focused_workspace())[0] == m.focused_id()->0,
{
    if m.can_swap() {
        let ws = m.focused_workspace();
        let order = m.order(ws);
        let k = position_in(order, m.focused_id()->0);
        lemma_position(order, m.focused_id()->0);
        assert(order.no_duplicates());
        lemma_swapped_contains(order, k, order[0]);
        assert forall|id: WindowId| #[trigger] swapped(order, k).contains(id)
            == m.orders[ws].contains(id) by {
            lemma_swapped_contains(order, k, id);
        }
        lemma_reordered_is_tidy(m, ws, swapped(order, k));
    }
}

/// Focus that moves on and back is where it was: on a workspace of different windows that can take
/// the focus, with the focused one among them.
pub proof fn lemma_focus_comes_back(m: Model, direction: int)
    requires
        direction == 1 || direction == -1,
        m.order(m.focused_workspace()).no_duplicates(),
        m.order(m.focused_workspace()).len() >= 2,
        forall|i: int|
            0 <= i < m.order(m.focused_workspace()).len() ==> m.focusable(
                #[trigger] m.order(m.focused_workspace())[i],
            ),
        m.focused_id() is Some,
        m.order(m.focused_workspace()).contains(m.focused_id()->0),
    ensures
        m.cycled(direction).cycled(-direction).focused_id() == m.focused_id(),
{
    let ws = m.focused_workspace();
    let order = m.order(ws);
    let n = order.len() as int;
    let id = m.focused_id()->0;
    let p = position_in(order, id);
    lemma_position(order, id);
    let at = choose|i: int| 0 <= i < n && order[i] == id;
    assert(p == at) by {
        if p < n {
            assert(order[p] == order[at]);
        } else {
            assert(order[at] != id);
        }
    }
    let q = (p + direction) % n;
    let next = order[q];
    assert(0 <= q < n) by {
        vstd::arithmetic::div_mod::lemma_mod_bound(p + direction, n);
    }
    assert(q == if direction == 1 {
        if p + 1 < n {
            p + 1
        } else {
            0
        }
    } else if p > 0 {
        p - 1
    } else {
        n - 1
    } && (q - direction) % n == p) by {
        vstd::arithmetic::div_mod::lemma_small_mod(p as nat, n as nat);
        vstd::arithmetic::div_mod::lemma_small_mod((n - 1) as nat, n as nat);
        vstd::arithmetic::div_mod::lemma_mod_self_0(n);
        vstd::arithmetic::div_mod::lemma_mod_add_multiples_vanish(-1, n);
        if p + 1 < n {
            vstd::arithmetic::div_mod::lemma_small_mod((p + 1) as nat, n as nat);
        }
        if p > 0 {
            vstd::arithmetic::div_mod::lemma_small_mod((p - 1) as nat, n as nat);
        }
    }
    assert(m.focusable(order[q]));
    assert(m.next_focus(direction) == next);
    let between = m.cycled(direction);
    lemma_position(order, next);
    assert(position_in(order, next) == q) by {
        let k = position_in(order, next);
        if k < n {
            assert(order[k] == order[q]);
        } else {
            assert(order[q] != next);
        }
    }
    assert(between.outputs == m.outputs && between.windows == m.windows);
    assert(between.focused_workspace() == ws);
    assert(between.focused_id() == Some(next));
    assert(between.overlapping() == m.overlapping());
    assert(m.focusable(order[p]));
    if m.overlapping() {
        let turned = rotated(order, q);
        assert(between.order(ws) == turned);
        assert(turned[0] == next);
        lemma_position(turned, next);
        assert(position_in(turned, next) == 0) by {
            if position_in(turned, next) > 0 {
                assert(turned[0] != next);
            }
        }
        let back = (0 - direction) % n;
        if direction == 1 {
            vstd::arithmetic::div_mod::lemma_mod_add_multiples_vanish(-1, n);
            vstd::arithmetic::div_mod::lemma_small_mod((n - 1) as nat, n as nat);
            assert(back == n - 1);
            assert(turned[n - 1] == order[p]) by {
                if q > 0 {
                    assert(turned[n - 1] == order[q - 1]);
                } else {
                    assert(turned[n - 1] == order[n - 1]);
                }
            }
        } else {
            vstd::arithmetic::div_mod::lemma_small_mod(1, n as nat);
            assert(back == 1);
            assert(turned[1] == order[p]) by {
                if q < n - 1 {
                    assert(turned[1] == order[q + 1]);
                } else {
                    assert(turned[1] == order[0]);
                }
            }
        }
        assert(between.next_focus(-direction) == order[p]);
    } else {
        assert(between.order(ws) == order);
        assert(between.next_focus(-direction) == order[p]);
    }
}

/// Toggling a window between floating and tiled twice changes nothing, unless it was fullscreen.
pub proof fn lemma_float_twice(m: Model, id: WindowId)
    requires
        !m.fullscreen.contains(id.0),
    ensures
        m.float_toggled(id).float_toggled(id) == m,
{
    let twice = m.float_toggled(id).float_toggled(id);
    assert(twice.floating =~= m.floating);
    assert(twice.fullscreen =~= m.fullscreen);
    assert(twice =~= m);
}

/// Toggling a window between fullscreen and not twice changes nothing, unless it floated.
pub proof fn lemma_fullscreen_twice(m: Model, id: WindowId)
    requires
        !m.floating.contains(id.0),
    ensures
        m.fullscreen_toggled(id).fullscreen_toggled(id) == m,
{
    let twice = m.fullscreen_toggled(id).fullscreen_toggled(id);
    assert(twice.floating =~= m.floating);
    assert(twice.fullscreen =~= m.fullscreen);
    assert(twice =~= m);
}

/// Toggles never leave a window both floating and fullscreen.
pub proof fn lemma_floating_or_fullscreen(m: Model, id: WindowId)
    requires
        m.floating.disjoint(m.fullscreen),
    ensures
        m.float_toggled(id).floating.disjoint(m.float_toggled(id).fullscreen),
        m.fullscreen_toggled(id).floating.disjoint(m.fullscreen_toggled(id).fullscreen),
{
}

/// Switching to another workspace and back shows the first one again, with the focus where it was,
/// if that window can still take it. No list of windows changes.
pub proof fn lemma_switching_back(m: Model, workspace: usize)
    requires
        m.can_switch(workspace),
        1 <= m.focused_workspace() <= LAST_WORKSPACE,
        m.focused_id() is Some,
        m.focusable(m.focused_id()->0),
        distinct(m.outputs),
    ensures
        ({
            let back = m.switched(workspace).switched(m.focused_workspace());
            &&& back.focused_workspace() == m.focused_workspace()
            &&& back.focused_id() == m.focused_id()
            &&& back.orders == m.orders
            &&& back.windows == m.windows
            &&& back.outputs == m.outputs
        }),
{
    let i = m.focused_index()->0;
    let name = m.focused_output->0;
    assert(named(m.outputs, name, i));
    let there = m.switched(workspace);
    lemma_same_names(m.outputs, there.outputs);
    assert(there.focused_index() == Some(i));
    assert(there.focused_workspace() == workspace);
    assert(there.saved_focus[m.focused_workspace()] == m.focused_id());
    let back = there.switched(m.focused_workspace());
    lemma_same_names(there.outputs, back.outputs);
    assert(back.focused_index() == Some(i));
    assert(back.outputs =~= m.outputs);
}

/// What the focused output is given leaves the other outputs alone: each has its own workspace,
/// layout and background.
pub proof fn lemma_outputs_are_independent(
    m: Model,
    workspace: usize,
    layout: ActiveLayout,
    background: Background,
    j: int,
)
    requires
        0 <= j < m.outputs.len(),
        m.focused_index() != Some(j),
    ensures
        m.switched(workspace).outputs[j] == m.outputs[j],
        m.with_layout(layout).outputs[j] == m.outputs[j],
        m.with_background(background).outputs[j] == m.outputs[j],
{
}

/// No two outputs show the same workspace.
pub open spec fn own_workspaces(outputs: Seq<OutputState>) -> bool {
    forall|i: int, j: int|
        0 <= i < j < outputs.len() ==> (#[trigger] outputs[i]).active_workspace != (
        #[trigger] outputs[j]).active_workspace
}

/// A new output shows a workspace of its own, as long as one of the nine is free.
pub proof fn lemma_new_output_has_own_workspace(
    before: Model,
    after: Model,
    name: String,
    geometry: Rect,
)
    requires
        output_added(before, after, name, geometry),
        !has_output(before.outputs, name@),
        own_workspaces(before.outputs),
        exists|n: usize| 1 <= n <= LAST_WORKSPACE && !#[trigger] shown(before.outputs, n),
    ensures
        own_workspaces(after.outputs),
{
    let fresh = after.outputs.last();
    assert(is_free_workspace(before.outputs, fresh.active_workspace));
    assert(!shown(before.outputs, fresh.active_workspace));
    assert forall|i: int, j: int| 0 <= i < j < after.outputs.len() implies (
    #[trigger] after.outputs[i]).active_workspace != (
    #[trigger] after.outputs[j]).active_workspace by {
        assert(before.outputs[i] == after.outputs[i]);
        if j < before.outputs.len() {
            assert(before.outputs[j] == after.outputs[j]);
        }
    }
}

/// The output to the right of the one to the left is the output itself.
pub proof fn lemma_neighbours_come_back(
    outputs: Seq<OutputState>,
    order: Seq<usize>,
    from: int,
    target: int,
)
    requires
        is_left_to_right(outputs, order),
        is_neighbour(outputs, from, -1, target),
    ensures
        is_neighbour(outputs, target, 1, from),
{
    let (o, k) = choose|o: Seq<usize>, k: int|
        {
            &&& is_left_to_right(outputs, o)
            &&& 0 <= k < o.len()
            &&& #[trigger] o[k] == from
            &&& target == o[(k - 1) % o.len() as int]
        };
    let n = o.len() as int;
    let b = (k - 1) % n;
    vstd::arithmetic::div_mod::lemma_mod_bound(k - 1, n);
    if k > 0 {
        vstd::arithmetic::div_mod::lemma_small_mod((k - 1) as nat, n as nat);
        vstd::arithmetic::div_mod::lemma_small_mod(k as nat, n as nat);
    } else {
        vstd::arithmetic::div_mod::lemma_mod_add_multiples_vanish(-1, n);
        vstd::arithmetic::div_mod::lemma_small_mod((n - 1) as nat, n as nat);
        vstd::arithmetic::div_mod::lemma_mod_self_0(n);
    }
    assert(o[b] == target);
    assert(from == o[(b + 1) % n]);
}

} // verus!
