//! What becomes of the state when outputs come and go, and when the focus and windows move between
//! them.

use crate::background::Background;
use crate::compositor::arranging::{exists_in, shown_on};
use crate::compositor::event::{Effect, IpcEvent};
use crate::compositor::layout::ActiveLayout;
use crate::compositor::moving::{
    is_focused, is_without, lemma_focused, lemma_unmaps_all, lemma_view_parts, lemma_without_one,
    same_lists, same_lists_but, same_memory, same_setup, same_windows, takes_focus, unchanged,
};
use crate::compositor::outputs::{
    is_left_to_right, is_neighbour, left_of, lemma_order_is_complete, output_focus_moved,
    output_focused, window_sent, window_sent_towards, window_taken_along,
};
use crate::compositor::state::{
    has_output, index_of, is_fresh_output, is_free_workspace, lemma_index_of, named, shown,
    DinatorState, OutputState,
};
use crate::tiling::{Rect, WindowId};
use vstd::prelude::*;

verus! {

broadcast use vstd::std_specs::hash::group_hash_axioms;

/// No output has the name.
pub open spec fn nameless(s: DinatorState, name: Seq<char>) -> bool {
    forall|j: int| 0 <= j < s.outputs@.len() ==> (#[trigger] s.outputs@[j]).name@ != name
}

/// No output shows the workspace.
pub open spec fn hidden(s: DinatorState, ws: usize) -> bool {
    forall|j: int| 0 <= j < s.outputs@.len() ==> (#[trigger] s.outputs@[j]).active_workspace != ws
}

/// A new output comes last. It shows the lowest of the workspaces 1 to 9 that no other output shows,
/// lies where it was told to, and has the master and stack layout. It gets the focus if it is the first.
pub proof fn lemma_output_comes(s: &mut DinatorState, name: String, geometry: Rect, ws: usize)
    requires
        old(s).wf(),
        nameless(*old(s), name@),
        call_ensures(DinatorState::register_output, (s, name, geometry), ()),
        1 <= ws <= 9,
        hidden(*old(s), ws),
        forall|n: usize| 1 <= n < ws ==> !#[trigger] hidden(*old(s), n),
    ensures
        ({
            let a = *old(s);
            let b = *final(s);
            let count = a.outputs@.len() as int;
            let new = b.outputs@[count];
            &&& b.outputs@.len() == count + 1
            &&& forall|j: int| 0 <= j < count ==> #[trigger] b.outputs@[j] == a.outputs@[j]
            &&& new.name@ == name@
            &&& new.geometry == geometry
            &&& new.active_workspace == ws
            &&& new.layout matches ActiveLayout::Column(l) && l.gap == 4 && 11 * 144115188075855872 - 160
                <= 20 * l.main_ratio.units <= 11 * 144115188075855872 + 160
            &&& new.background == Background::Default
            &&& count == 0 ==> is_focused(b, 0)
            &&& count > 0 ==> b@.focused_output == a@.focused_output
            &&& b.keyboard_focus == a.keyboard_focus
            &&& same_windows(a, b)
            &&& same_setup(a, b)
            &&& same_lists(a, b)
            &&& same_memory(a, b)
        }),
{
    let a = *old(s);
    let b = *final(s);
    lemma_view_parts(a, b);
    if has_output(a.outputs@, name@) {
        let i = index_of(a.outputs@, name@);
        assert(named(a.outputs@, name@, i));
        assert(a.outputs@[i].name@ != name@);
    }
    let fresh = choose|fresh: OutputState|
        {
            &&& #[trigger] is_fresh_output(fresh, name, geometry)
            &&& is_free_workspace(a.outputs@, fresh.active_workspace)
            &&& b.outputs@ == a.outputs@.push(fresh)
        };
    let n = fresh.active_workspace;
    assert forall|m: usize| #[trigger] shown(a.outputs@, m) == !hidden(a, m) by {
        if shown(a.outputs@, m) {
            let j = choose|j: int|
                0 <= j < a.outputs@.len() && (#[trigger] a.outputs@[j]).active_workspace == m;
            assert(a.outputs@[j].active_workspace == m);
        }
        if !hidden(a, m) {
            let j = choose|j: int|
                0 <= j < a.outputs@.len() && (#[trigger] a.outputs@[j]).active_workspace == m;
            assert(a.outputs@[j].active_workspace == m);
        }
    }
    assert(!shown(a.outputs@, ws));
    if n < ws {
        assert(!hidden(a, n));
        assert(shown(a.outputs@, n));
    }
    if ws < n {
        assert(shown(a.outputs@, ws));
    }
    assert(n == ws);
}

/// An output that goes takes its windows off the screen, but they stay on its workspace. The other
/// outputs stay. If it had the focus, the first of them gets it.
pub proof fn lemma_output_goes(s: &mut DinatorState, name: &str, effects: Vec<Effect>, i: int)
    requires
        old(s).wf(),
        0 <= i < old(s).outputs@.len(),
        old(s).outputs@[i].name@ == name@,
        call_ensures(DinatorState::unregister_output, (s, name), effects),
        forall|k: int|
            0 <= k < shown_on(*old(s), i).len() ==> exists_in(*old(s), #[trigger] shown_on(*old(s), i)[k]),
    ensures
        ({
            let a = *old(s);
            let b = *final(s);
            let gone = shown_on(a, i);
            &&& b.outputs@.len() == a.outputs@.len() - 1
            &&& forall|j: int| 0 <= j < i ==> #[trigger] b.outputs@[j] == a.outputs@[j]
            &&& forall|j: int|
                i <= j < b.outputs@.len() ==> #[trigger] b.outputs@[j] == a.outputs@[j + 1]
            &&& !is_focused(a, i) ==> b@.focused_output == a@.focused_output
            &&& is_focused(a, i) && a.outputs@.len() > 1 ==> is_focused(b, 0)
            &&& is_focused(a, i) && a.outputs@.len() == 1 ==> b.focused_output is None
            &&& effects@ == Seq::new(gone.len(), |k: int| Effect::Unmap { id: gone[k] })
            &&& b.keyboard_focus == a.keyboard_focus
            &&& same_windows(a, b)
            &&& same_setup(a, b)
            &&& same_lists(a, b)
            &&& same_memory(a, b)
        }),
{
    let a = *old(s);
    let b = *final(s);
    lemma_view_parts(a, b);
    lemma_index_of(a.outputs@, name@, i);
    let gone = shown_on(a, i);
    assert forall|k: int| 0 <= k < gone.len() implies a.windows@.dom().contains(
        (#[trigger] gone[k]).0,
    ) by {
        assert(exists_in(a, gone[k]));
    }
    lemma_unmaps_all(gone, a.windows@);
    assert(b.outputs@ == a.outputs@.remove(i));
}

/// Output `i` lies before output `j`, from left to right; of two that start as far left, the older one
/// comes first.
pub open spec fn lies_before(s: DinatorState, i: int, j: int) -> bool {
    let a = s.outputs@[i].geometry.x;
    let b = s.outputs@[j].geometry.x;
    a < b || (a == b && i < j)
}

/// Output `t` is the next one to the right of output `f`; right of the last one comes the first.
pub open spec fn is_next(s: DinatorState, f: int, t: int) -> bool {
    let n = s.outputs@.len() as int;
    &&& 0 <= f < n
    &&& 0 <= t < n
    &&& f != t
    &&& {
        ||| {
            &&& lies_before(s, f, t)
            &&& forall|k: int|
                0 <= k < n ==> !(#[trigger] lies_before(s, f, k) && lies_before(s, k, t))
        }
        ||| {
            &&& forall|k: int| 0 <= k < n ==> !#[trigger] lies_before(s, f, k)
            &&& forall|k: int| 0 <= k < n ==> !#[trigger] lies_before(s, k, t)
        }
    }
}

proof fn lemma_next_in_order(s: DinatorState, order: Seq<usize>, k: int)
    requires
        is_left_to_right(s.outputs@, order),
        s.outputs@.len() >= 2,
        0 <= k < order.len(),
    ensures
        k + 1 < order.len() ==> is_next(s, order[k] as int, order[k + 1] as int),
        k + 1 == order.len() ==> is_next(s, order[k] as int, order[0] as int),
{
    let n = order.len() as int;
    let to = if k + 1 < n {
        k + 1
    } else {
        0
    };
    let f = order[k] as int;
    let t = order[to] as int;
    if k < to {
        assert(left_of(s.outputs@, order[k] as int, order[to] as int));
    } else {
        assert(left_of(s.outputs@, order[to] as int, order[k] as int));
    }
    assert forall|j: int| 0 <= j < n implies !(#[trigger] lies_before(s, f, j) && (k + 1 == n
        || lies_before(s, j, t))) by {
        lemma_order_is_complete(s.outputs@, order, j);
        let q = choose|q: int| 0 <= q < order.len() && #[trigger] order[q] == j;
        if q < k {
            assert(left_of(s.outputs@, order[q] as int, order[k] as int));
        } else if q > k && k + 1 < n {
            if q > k + 1 {
                assert(left_of(s.outputs@, order[k + 1] as int, order[q] as int));
            }
        }
    }
    if k + 1 == n {
        assert forall|j: int| 0 <= j < n implies !#[trigger] lies_before(s, j, t) by {
            lemma_order_is_complete(s.outputs@, order, j);
            let q = choose|q: int| 0 <= q < order.len() && #[trigger] order[q] == j;
            if q > 0 {
                assert(left_of(s.outputs@, order[0] as int, order[q] as int));
            }
        }
    }
}

proof fn lemma_only_next(s: DinatorState, f: int, t: int, u: int)
    ensures
        is_next(s, f, t) && is_next(s, f, u) ==> t == u,
        is_next(s, t, f) && is_next(s, u, f) ==> t == u,
{
    if is_next(s, f, t) && is_next(s, f, u) && t != u {
        assert(lies_before(s, t, u) || lies_before(s, u, t));
        assert(lies_before(s, f, t) == lies_before(s, f, t));
        assert(lies_before(s, f, u) == lies_before(s, f, u));
    }
    if is_next(s, t, f) && is_next(s, u, f) && t != u {
        assert(lies_before(s, t, u) || lies_before(s, u, t));
        assert(lies_before(s, t, f) == lies_before(s, t, f));
        assert(lies_before(s, u, f) == lies_before(s, u, f));
    }
}

proof fn lemma_neighbour(s: DinatorState, f: int, d: int, u: int)
    requires
        s.outputs@.len() >= 2,
        d == 1 || d == -1,
        is_neighbour(s.outputs@, f, d, u),
    ensures
        d == 1 ==> is_next(s, f, u),
        d == -1 ==> is_next(s, u, f),
{
    let (order, k) = choose|order: Seq<usize>, k: int|
        {
            &&& is_left_to_right(s.outputs@, order)
            &&& 0 <= k < order.len()
            &&& #[trigger] order[k] == f
            &&& u == order[(k + d) % order.len() as int]
        };
    let n = order.len() as int;
    if d == 1 {
        if k + 1 < n {
            vstd::arithmetic::div_mod::lemma_small_mod((k + 1) as nat, n as nat);
        } else {
            vstd::arithmetic::div_mod::lemma_mod_self_0(n);
        }
        lemma_next_in_order(s, order, k);
    } else if k > 0 {
        vstd::arithmetic::div_mod::lemma_small_mod((k - 1) as nat, n as nat);
        lemma_next_in_order(s, order, k - 1);
    } else {
        vstd::arithmetic::div_mod::lemma_fundamental_div_mod_converse(-1, n, -1, n - 1);
        lemma_next_in_order(s, order, n - 1);
    }
}

/// The output to the right of the focused one is the next from left to right, around the ends; the one
/// to the left is that to whose right the focused one is.
pub proof fn lemma_outputs_have_neighbours(s: &DinatorState, direction: i32, r: Option<usize>, f: int)
    requires
        s.wf(),
        is_focused(*s, f),
        call_ensures(DinatorState::neighbour_output, (s, direction), r),
    ensures
        r is None <==> s.outputs@.len() < 2,
        r is Some && direction == 1 ==> is_next(*s, f, r->0 as int),
        r is Some && direction == -1 ==> is_next(*s, r->0 as int, f),
{
    lemma_focused(*s, f);
    if r is Some && (direction == 1 || direction == -1) {
        lemma_neighbour(*s, f, direction as int, r->0 as int);
    }
}

/// Output `t` has the focus, and the first window that it shows has the keyboard. Nothing else changes.
pub open spec fn focus_is_on(a: DinatorState, b: DinatorState, t: int) -> bool {
    &&& is_focused(b, t)
    &&& b.outputs@ == a.outputs@
    &&& shown_on(a, t).len() > 0 ==> b.keyboard_focus == Some(shown_on(a, t)[0])
    &&& shown_on(a, t).len() == 0 ==> b.keyboard_focus == a.keyboard_focus
    &&& same_windows(a, b)
    &&& same_setup(a, b)
    &&& same_lists(a, b)
    &&& same_memory(a, b)
}

/// An output that is focused by its name has the focus, and the first window that it shows has the
/// keyboard. An unknown name changes nothing.
pub proof fn lemma_output_is_focused(s: &mut DinatorState, name: &str, effects: Vec<Effect>, t: int)
    requires
        old(s).wf(),
        call_ensures(DinatorState::focus_output, (s, name), effects),
        0 <= t < old(s).outputs@.len() ==> {
            shown_on(*old(s), t).len() > 0 ==> takes_focus(*old(s), shown_on(*old(s), t)[0])
        },
    ensures
        nameless(*old(s), name@) ==> unchanged(*old(s), *final(s)) && effects@ == Seq::<Effect>::empty(),
        0 <= t < old(s).outputs@.len() && old(s).outputs@[t].name@ == name@ ==> {
            &&& focus_is_on(*old(s), *final(s), t)
            &&& effects@ == if shown_on(*old(s), t).len() > 0 {
                seq![Effect::Focus { target: Some(shown_on(*old(s), t)[0]) }]
            } else {
                Seq::empty()
            }
        },
{
    let a = *old(s);
    lemma_view_parts(a, *final(s));
    if has_output(a.outputs@, name@) {
        let i = index_of(a.outputs@, name@);
        assert(named(a.outputs@, name@, i));
        assert(a.outputs@[i].name@ == name@);
    }
    if 0 <= t < a.outputs@.len() && a.outputs@[t].name@ == name@ {
        lemma_index_of(a.outputs@, name@, t);
    }
}

/// Output `t` has the focus, as has the first window that it shows, and everyone is told.
pub open spec fn focus_went_over(a: DinatorState, b: DinatorState, effects: Seq<Effect>, t: int) -> bool {
    let told = Effect::Emit { event: IpcEvent::OutputFocused { name: a.outputs@[t].name } };
    &&& focus_is_on(a, b, t)
    &&& shown_on(a, t).len() > 0 ==> effects == seq![
        Effect::Focus { target: Some(shown_on(a, t)[0]) },
        told,
    ]
    &&& shown_on(a, t).len() == 0 ==> effects == seq![told]
}

pub(crate) proof fn lemma_focus_went_over(
    a: DinatorState,
    b: DinatorState,
    d: int,
    effects: Seq<Effect>,
    f: int,
    t: int,
)
    requires
        a.wf(),
        is_focused(a, f),
        output_focus_moved(a@, b@, d, effects),
        d == 1 && is_next(a, f, t) || d == -1 && is_next(a, t, f),
        shown_on(a, t).len() > 0 ==> takes_focus(a, shown_on(a, t)[0]),
    ensures
        focus_went_over(a, b, effects, t),
{
    lemma_view_parts(a, b);
    lemma_focused(a, f);
    let m = a@;
    assert(m.outputs.len() >= 2);
    let i = choose|i: int|
        {
            let there = crate::compositor::state::Model {
                focused_output: Some(m.outputs[i].name@),
                ..m
            };
            let order = m.order(m.outputs[i].active_workspace);
            let emit = Effect::Emit {
                event: IpcEvent::OutputFocused { name: m.outputs[i].name },
            };
            &&& 0 <= i < m.outputs.len()
            &&& #[trigger] is_neighbour(m.outputs, f, d, i)
            &&& if order.len() > 0 {
                &&& b@ == there.focusing(order[0])
                &&& effects == there.focus_effects(order[0]).push(emit)
            } else {
                &&& b@ == there
                &&& effects == seq![emit]
            }
        };
    lemma_neighbour(a, f, d, i);
    lemma_only_next(a, f, i, t);
    assert(i == t);
    if shown_on(a, t).len() > 0 {
        let told = Effect::Emit { event: IpcEvent::OutputFocused { name: a.outputs@[t].name } };
        let focus = Effect::Focus { target: Some(shown_on(a, t)[0]) };
        assert(seq![focus].push(told) =~= seq![focus, told]);
    }
}

/// The focus moves to the output on the right or on the left, around the ends, and to the first window
/// there.
pub proof fn lemma_output_focus_moves(
    s: &mut DinatorState,
    direction: i32,
    effects: Vec<Effect>,
    f: int,
    t: int,
)
    requires
        old(s).wf(),
        is_focused(*old(s), f),
        call_ensures(DinatorState::focus_output_direction, (s, direction), effects),
        direction == 1 && is_next(*old(s), f, t) || direction == -1 && is_next(*old(s), t, f),
        shown_on(*old(s), t).len() > 0 ==> takes_focus(*old(s), shown_on(*old(s), t)[0]),
    ensures
        focus_went_over(*old(s), *final(s), effects@, t),
{
    lemma_focus_went_over(*old(s), *final(s), direction as int, effects@, f, t);
}

/// The window went from the workspace `from`, where it stood at `p`, to the end of the workspace that
/// output `t` shows.
pub open spec fn went_to(a: DinatorState, b: DinatorState, w: WindowId, from: usize, p: int, t: int) -> bool {
    let to = a.outputs@[t].active_workspace;
    &&& is_without(b.workspaces.order(from), a.workspaces.order(from), p)
    &&& b.workspaces.order(to) == a.workspaces.order(to).push(w)
    &&& same_lists_but(a, b, from, to)
    &&& b.windows@.dom() == a.windows@.dom()
    &&& b.windows@[w.0].workspace == Some(to)
    &&& b.windows@[w.0].has_surface == a.windows@[w.0].has_surface
    &&& b.windows@[w.0].x11 == a.windows@[w.0].x11
    &&& b.windows@[w.0].commits == a.windows@[w.0].commits
    &&& forall|id: u64| id != w.0 ==> #[trigger] b.windows@[id] == a.windows@[id]
    &&& b.floating@ == a.floating@
    &&& b.fullscreen@ == a.fullscreen@
    &&& b.next_window == a.next_window
    &&& b.outputs@ == a.outputs@
    &&& same_setup(a, b)
    &&& same_memory(a, b)
}

/// Output `h` shows the workspace, and no other does.
pub open spec fn only_shown_by(s: DinatorState, ws: usize, h: int) -> bool {
    &&& 0 <= h < s.outputs@.len()
    &&& forall|j: int|
        0 <= j < s.outputs@.len() ==> ((#[trigger] s.outputs@[j]).active_workspace == ws <==> j == h)
}

proof fn lemma_sent(
    a: DinatorState,
    b: DinatorState,
    w: WindowId,
    from: usize,
    p: int,
    h: int,
    t: int,
    effects: Seq<Effect>,
)
    requires
        a.wf(),
        a.keyboard_focus == Some(w),
        exists_in(a, w),
        a.windows@[w.0].workspace == Some(from),
        only_shown_by(a, from, h),
        0 <= t < a.outputs@.len(),
        t != h,
        only_shown_by(a, a.outputs@[t].active_workspace, t),
        a.workspaces.order(from).no_duplicates(),
        0 <= p < a.workspaces.order(from).len(),
        a.workspaces.order(from)[p] == w,
        window_sent(a@, b@, a.outputs@[t].name@, true, effects),
    ensures
        went_to(a, b, w, from, p, t),
        b.keyboard_focus == a.keyboard_focus,
        b@.focused_output == a@.focused_output,
        effects == seq![
            Effect::Unmap { id: w },
            Effect::Retile { output: a.outputs@[h].name },
            Effect::Retile { output: a.outputs@[t].name },
            Effect::Emit {
                event: IpcEvent::WindowMovedWorkspace {
                    id: w.0,
                    workspace: a.outputs@[t].active_workspace,
                },
            },
        ],
{
    lemma_view_parts(a, b);
    let to = a.outputs@[t].active_workspace;
    let m = a@;
    lemma_index_of(a.outputs@, a.outputs@[t].name@, t);
    assert(a.outputs@[h].active_workspace == from);
    assert(a.outputs@[t].active_workspace == to);
    assert(from != to);
    lemma_without_one(a.workspaces.order(from), p);
    assert(b@ == m.sent(w, from, to));
    assert(b.windows@.dom() =~= a.windows@.dom());
    let (first, second) = choose|first: Seq<Effect>, second: Seq<Effect>|
        {
            &&& #[trigger] m.retiles_workspace(first, from)
            &&& #[trigger] m.retiles_workspace(second, to)
            &&& effects == seq![Effect::Unmap { id: w }] + first + second + seq![
                Effect::Emit {
                    event: IpcEvent::WindowMovedWorkspace { id: w.0, workspace: to },
                },
            ]
        };
    assert(shown(m.outputs, from));
    assert(shown(m.outputs, to));
    assert(first =~= seq![Effect::Retile { output: a.outputs@[h].name }]);
    assert(second =~= seq![Effect::Retile { output: a.outputs@[t].name }]);
    assert(effects =~= seq![
        Effect::Unmap { id: w },
        Effect::Retile { output: a.outputs@[h].name },
        Effect::Retile { output: a.outputs@[t].name },
        Effect::Emit { event: IpcEvent::WindowMovedWorkspace { id: w.0, workspace: to } },
    ]);
}

/// The focused window goes from the output that shows it to the end of what another output shows. Both
/// are arranged anew.
pub proof fn lemma_window_goes_to_output(
    s: &mut DinatorState,
    name: &str,
    r: (bool, Vec<Effect>),
    w: WindowId,
    from: usize,
    p: int,
    h: int,
    t: int,
)
    requires
        old(s).wf(),
        call_ensures(DinatorState::move_window_to_output, (s, name), r),
        old(s).keyboard_focus == Some(w),
        exists_in(*old(s), w),
        old(s).windows@[w.0].workspace == Some(from),
        only_shown_by(*old(s), from, h),
        0 <= t < old(s).outputs@.len(),
        old(s).outputs@[t].name@ == name@,
        only_shown_by(*old(s), old(s).outputs@[t].active_workspace, t),
        old(s).workspaces.order(from).no_duplicates(),
        0 <= p < old(s).workspaces.order(from).len(),
        old(s).workspaces.order(from)[p] == w,
    ensures
        r.0 <==> t != h,
        t == h ==> unchanged(*old(s), *final(s)) && r.1@ == Seq::<Effect>::empty(),
        t != h ==> {
            &&& went_to(*old(s), *final(s), w, from, p, t)
            &&& final(s).keyboard_focus == old(s).keyboard_focus
            &&& final(s)@.focused_output == old(s)@.focused_output
            &&& r.1@ == seq![
                Effect::Unmap { id: w },
                Effect::Retile { output: old(s).outputs@[h].name },
                Effect::Retile { output: old(s).outputs@[t].name },
                Effect::Emit {
                    event: IpcEvent::WindowMovedWorkspace {
                        id: w.0,
                        workspace: old(s).outputs@[t].active_workspace,
                    },
                },
            ]
        },
{
    let a = *old(s);
    lemma_view_parts(a, *final(s));
    lemma_index_of(a.outputs@, name@, t);
    assert(a.outputs@[h].active_workspace == from);
    assert(a.outputs@[t].active_workspace == from <==> t == h);
    if t == h {
        assert forall|j: int| 0 <= j < t implies (#[trigger] a.outputs@[j]).active_workspace
            != from by {}
    } else {
        lemma_sent(a, *final(s), w, from, p, h, t, r.1@);
    }
}

/// The window went from the workspace `from`, which output `h` shows, to the end of what output `t`
/// shows, and that output has the focus, as has the first window that it shows.
pub open spec fn went_over(
    a: DinatorState,
    b: DinatorState,
    effects: Seq<Effect>,
    w: WindowId,
    from: usize,
    p: int,
    h: int,
    t: int,
) -> bool {
    let workspace = a.outputs@[t].active_workspace;
    &&& went_to(a, b, w, from, p, t)
    &&& is_focused(b, t)
    &&& b.keyboard_focus == Some(shown_on(b, t)[0])
    &&& effects == seq![
        Effect::Unmap { id: w },
        Effect::Retile { output: a.outputs@[h].name },
        Effect::Retile { output: a.outputs@[t].name },
        Effect::Emit { event: IpcEvent::WindowMovedWorkspace { id: w.0, workspace } },
        Effect::Focus { target: Some(shown_on(b, t)[0]) },
    ]
}

pub(crate) proof fn lemma_went_over(
    a: DinatorState,
    b: DinatorState,
    d: int,
    sent: bool,
    effects: Seq<Effect>,
    w: WindowId,
    from: usize,
    p: int,
    h: int,
    t: int,
)
    requires
        a.wf(),
        is_focused(a, h),
        window_sent_towards(a@, b@, d, sent, effects),
        d == 1 && is_next(a, h, t) || d == -1 && is_next(a, t, h),
        a.keyboard_focus == Some(w),
        takes_focus(a, w),
        a.windows@[w.0].workspace == Some(from),
        only_shown_by(a, from, h),
        only_shown_by(a, a.outputs@[t].active_workspace, t),
        a.workspaces.order(from).no_duplicates(),
        0 <= p < a.workspaces.order(from).len(),
        a.workspaces.order(from)[p] == w,
        shown_on(a, t).len() > 0 ==> takes_focus(a, shown_on(a, t)[0]),
    ensures
        sent,
        went_over(a, b, effects, w, from, p, h, t),
{
    lemma_view_parts(a, b);
    lemma_focused(a, h);
    let m = a@;
    assert(m.outputs.len() >= 2);
    let i = choose|i: int|
        {
            &&& 0 <= i < m.outputs.len()
            &&& #[trigger] is_neighbour(m.outputs, h, d, i)
            &&& if sent {
                &&& b@.focused_output == Some(m.outputs[i].name@)
                &&& window_taken_along(m, b@, m.outputs[i].name@, effects)
            } else {
                window_sent(m, b@, m.outputs[i].name@, false, effects)
            }
        };
    lemma_neighbour(a, h, d, i);
    lemma_only_next(a, h, i, t);
    assert(i == t);
    let name = a.outputs@[t].name@;
    lemma_index_of(a.outputs@, name, t);
    assert(a.outputs@[h].active_workspace == from);
    assert(a.outputs@[t].active_workspace != from);
    assert(sent);
    let (moved, first, second) = choose|
        moved: crate::compositor::state::Model,
        first: Seq<Effect>,
        second: Seq<Effect>,
    |
        {
            &&& #[trigger] window_sent(m, moved, name, true, first)
            &&& #[trigger] output_focused(moved, b@, name, second)
            &&& effects == first + second
        };
    let to = a.outputs@[t].active_workspace;
    assert(moved == m.sent(w, from, to));
    let list = moved.order(to);
    assert(list == a.workspaces.order(to).push(w));
    assert(b@.orders == moved.orders);
    assert(shown_on(b, t) == list);
    if shown_on(a, t).len() > 0 {
        assert(list[0] == shown_on(a, t)[0]);
    }
    assert(moved.focusable(list[0]));
    lemma_without_one(a.workspaces.order(from), p);
    assert(b.windows@.dom() =~= a.windows@.dom());
    let (one, two) = choose|one: Seq<Effect>, two: Seq<Effect>|
        {
            &&& #[trigger] m.retiles_workspace(one, from)
            &&& #[trigger] m.retiles_workspace(two, to)
            &&& first == seq![Effect::Unmap { id: w }] + one + two + seq![
                Effect::Emit {
                    event: IpcEvent::WindowMovedWorkspace { id: w.0, workspace: to },
                },
            ]
        };
    assert(a.outputs@[t].active_workspace == to);
    assert(shown(m.outputs, from));
    assert(shown(m.outputs, to));
    assert(one =~= seq![Effect::Retile { output: a.outputs@[h].name }]);
    assert(two =~= seq![Effect::Retile { output: a.outputs@[t].name }]);
    assert(second =~= seq![Effect::Focus { target: Some(list[0]) }]);
    assert(effects =~= seq![
        Effect::Unmap { id: w },
        Effect::Retile { output: a.outputs@[h].name },
        Effect::Retile { output: a.outputs@[t].name },
        Effect::Emit { event: IpcEvent::WindowMovedWorkspace { id: w.0, workspace: to } },
        Effect::Focus { target: Some(list[0]) },
    ]);
}

/// The focused window goes to the output on the right or on the left of its own, and the focus goes with
/// it to that output.
pub proof fn lemma_window_goes_sideways(
    s: &mut DinatorState,
    direction: i32,
    r: (bool, Vec<Effect>),
    w: WindowId,
    from: usize,
    p: int,
    h: int,
    t: int,
)
    requires
        old(s).wf(),
        is_focused(*old(s), h),
        call_ensures(DinatorState::move_window_to_output_direction, (s, direction), r),
        direction == 1 && is_next(*old(s), h, t) || direction == -1 && is_next(*old(s), t, h),
        old(s).keyboard_focus == Some(w),
        takes_focus(*old(s), w),
        old(s).windows@[w.0].workspace == Some(from),
        only_shown_by(*old(s), from, h),
        only_shown_by(*old(s), old(s).outputs@[t].active_workspace, t),
        old(s).workspaces.order(from).no_duplicates(),
        0 <= p < old(s).workspaces.order(from).len(),
        old(s).workspaces.order(from)[p] == w,
        shown_on(*old(s), t).len() > 0 ==> takes_focus(*old(s), shown_on(*old(s), t)[0]),
    ensures
        r.0,
        went_over(*old(s), *final(s), r.1@, w, from, p, h, t),
{
    lemma_went_over(*old(s), *final(s), direction as int, r.0, r.1@, w, from, p, h, t);
}

/// Arranging all outputs arranges each of them once.
pub proof fn lemma_all_outputs_are_arranged(s: &DinatorState, effects: Vec<Effect>)
    requires
        call_ensures(DinatorState::retile_all, (s,), effects),
    ensures
        effects@.len() == s.outputs@.len(),
        forall|i: int|
            0 <= i < s.outputs@.len() ==> #[trigger] effects@[i] == (Effect::Retile {
                output: s.outputs@[i].name,
            }),
{
}

} // verus!
