//! What becomes of the windows of X11 applications.

use crate::compositor::arranging::shown_on;
use crate::compositor::event::{Effect, IpcEvent};
use crate::compositor::moving::{
    is_focused, lemma_focused, lemma_view_parts, same_lists, same_lists_but, same_memory, same_outputs,
    same_setup, unchanged,
};
use crate::compositor::lifecycle::text_view;
use crate::compositor::opening::{fits_first, lemma_first_fit};
use crate::compositor::state::DinatorState;
use crate::compositor::workspaces::without;
use crate::compositor::x11::{all_but, if_any, opens, X11Window, X11Windows};
use crate::tiling::{Rect, WindowId};
use vstd::prelude::*;

verus! {

broadcast use vstd::std_specs::hash::group_hash_axioms;

/// A menu or tooltip goes where it wants to be, above the others. It floats, belongs to no workspace,
/// and leaves the focus alone. Nobody is told.
pub proof fn lemma_menu_is_shown(
    x: &mut X11Windows,
    s: &mut DinatorState,
    w: &X11Window,
    effects: Vec<Effect>,
)
    requires
        old(s).wf(),
        old(s).next_window < u64::MAX,
        w.override_redirect,
        w.has_surface,
        call_ensures(X11Windows::map_window_notify, (x, s, w), effects),
    ensures
        ({
            let a = *old(s);
            let b = *final(s);
            let id = WindowId(a.next_window);
            &&& effects@ == seq![
                Effect::MoveTo { id, x: w.geometry.x, y: w.geometry.y },
                Effect::Raise { id, activate: true },
            ]
            &&& final(x).ids@ == old(x).ids@.insert(w.number, id)
            &&& final(x).pending@ == old(x).pending@
            &&& b.next_window == a.next_window + 1
            &&& b.windows@.dom() == a.windows@.dom().insert(id.0)
            &&& b.windows@[id.0].x11
            &&& b.windows@[id.0].has_surface
            &&& b.windows@[id.0].workspace is None
            &&& forall|n: u64| n != id.0 ==> #[trigger] b.windows@[n] == a.windows@[n]
            &&& b.floating@ == a.floating@.insert(id.0)
            &&& b.fullscreen@ == a.fullscreen@
            &&& b.keyboard_focus == a.keyboard_focus
            &&& same_outputs(a, b)
            &&& same_setup(a, b)
            &&& same_lists(a, b)
            &&& same_memory(a, b)
        }),
{
    lemma_view_parts(*old(s), *final(s));
    assert(final(s).windows@.dom() =~= old(s).windows@.dom().insert(old(s).next_window));
}

/// A window that is not shown yet waits for its surface, and nothing else changes.
pub proof fn lemma_window_waits(
    x: &mut X11Windows,
    s: &mut DinatorState,
    w: &X11Window,
    effects: Vec<Effect>,
)
    requires
        old(s).wf(),
        old(s).next_window < u64::MAX,
        !w.override_redirect,
        !w.has_surface,
        call_ensures(X11Windows::map_window_notify, (x, s, w), effects),
    ensures
        unchanged(*old(s), *final(s)),
        effects@.len() == 0,
        final(x).ids@ == old(x).ids@,
        final(x).pending@ == old(x).pending@.push(w.number),
{
    lemma_view_parts(*old(s), *final(s));
}

/// The window is last on the workspace that output `i` shows, has the focus, and opens as the first rule
/// for it says; the first output is arranged anew.
pub open spec fn window_is_mapped(
    a: DinatorState,
    b: DinatorState,
    w: X11Window,
    effects: Seq<Effect>,
    i: int,
) -> bool {
    let id = WindowId(a.next_window);
    let ws = a.outputs@[i].active_workspace;
    let arranged = Effect::Retile { output: a.outputs@[0].name };
    &&& b.next_window == a.next_window + 1
    &&& b.windows@.dom() == a.windows@.dom().insert(id.0)
    &&& b.windows@[id.0].x11
    &&& b.windows@[id.0].has_surface
    &&& b.windows@[id.0].workspace == Some(ws)
    &&& b.windows@[id.0].commits == 0
    &&& forall|n: u64| n != id.0 ==> #[trigger] b.windows@[n] == a.windows@[n]
    &&& shown_on(b, i) == shown_on(a, i).push(id)
    &&& same_lists_but(a, b, ws, ws)
    &&& same_memory(a, b)
    &&& same_outputs(a, b)
    &&& same_setup(a, b)
    &&& b.keyboard_focus == Some(id)
    &&& effects.len() >= 4
    &&& effects[0] == (Effect::MoveTo { id, x: 0, y: 0 })
    &&& effects[1] == arranged
    &&& effects[2] == (Effect::Focus { target: Some(id) })
    &&& effects[3] matches Effect::Emit { event } && (event matches IpcEvent::WindowOpened {
        id: n,
        app_id,
        title,
    } && n == id.0 && tells(app_id, w.class@) && tells(title, w.title@) && {
        &&& forall|k: int|
            #[trigger] fits_first(a.window_rules@, app_id, title, k) && a.window_rules@[k].float ==> {
                &&& b.floating@ == a.floating@.insert(id.0)
                &&& b.fullscreen@ == a.fullscreen@
            }
        &&& forall|k: int|
            #[trigger] fits_first(a.window_rules@, app_id, title, k) && !a.window_rules@[k].float
                && a.window_rules@[k].fullscreen ==> {
                &&& b.floating@ == a.floating@
                &&& b.fullscreen@ == a.fullscreen@.insert(id.0)
            }
        &&& (forall|k: int|
            #[trigger] fits_first(a.window_rules@, app_id, title, k) ==> !a.window_rules@[k].float
                && !a.window_rules@[k].fullscreen) ==> {
            &&& b.floating@ == a.floating@
            &&& b.fullscreen@ == a.fullscreen@
        }
    })
}

/// A text is told, unless it is empty.
pub open spec fn tells(told: Option<String>, text: Seq<char>) -> bool {
    match told {
        Some(s) => s@ == text && text.len() > 0,
        None => text.len() == 0,
    }
}

/// A window that has its surface opens when it is mapped, and one that waited for it opens when it gets
/// it: last on the workspace in focus, with the focus, and as the first rule for it says. It opens once.
pub proof fn lemma_window_is_mapped(
    x: &mut X11Windows,
    s: &mut DinatorState,
    w: &X11Window,
    effects: Vec<Effect>,
    i: int,
)
    requires
        old(s).wf(),
        old(s).next_window < u64::MAX,
        is_focused(*old(s), i),
        !w.override_redirect,
        w.has_surface,
    ensures
        ({
            let mapped = call_ensures(X11Windows::map_window_notify, (x, s, w), effects);
            let associated = call_ensures(X11Windows::surface_associated, (x, s, w), effects);
            let known = old(x).ids@.dom().contains(w.number);
            let waits = old(x).pending@.contains(w.number);
            &&& (mapped && !known) || (associated && waits && !known) ==> {
                &&& window_is_mapped(*old(s), *final(s), *w, effects@, i)
                &&& final(x).ids@ == old(x).ids@.insert(w.number, WindowId(old(s).next_window))
            }
            &&& (mapped && known) || (associated && (known || !waits)) ==> {
                &&& unchanged(*old(s), *final(s))
                &&& effects@.len() == 0
                &&& final(x).ids@ == old(x).ids@
            }
            &&& associated && waits ==> !final(x).pending@.contains(w.number)
        }),
{
    let a = *old(s);
    let b = *final(s);
    lemma_focused(a, i);
    lemma_view_parts(a, b);
    let known = old(x).ids@.dom().contains(w.number);
    let waits = old(x).pending@.contains(w.number);
    let mapped = call_ensures(X11Windows::map_window_notify, (x, s, w), effects);
    let associated = call_ensures(X11Windows::surface_associated, (x, s, w), effects);
    if associated && waits {
        lemma_none_left(old(x).pending@, w.number);
    }
    if (mapped && !known) || (associated && waits && !known) {
        let id = WindowId(a.next_window);
        let opening = a@.opening(if_any(w.class@), if_any(w.title@));
        let event = choose|event: IpcEvent|
            {
                &&& #[trigger] opens(event, id, *w)
                &&& effects@ == seq![Effect::MoveTo { id, x: 0, y: 0 }] + a@.retiles_first() + seq![
                    Effect::Focus { target: Some(id) },
                    Effect::Emit { event },
                ] + (if opening is Tiled {
                    Seq::empty()
                } else {
                    a@.retiles_first()
                })
            };
        match event {
            IpcEvent::WindowOpened { id: n, app_id, title } => {
                lemma_first_fit(a.window_rules@, app_id, title);
                let f = crate::compositor::lifecycle::first_rule(
                    a.window_rules@,
                    text_view(app_id),
                    text_view(title),
                );
                assert forall|k: int| #[trigger] fits_first(
                    a.window_rules@,
                    app_id,
                    title,
                    k,
                ) implies k == f by {
                    if f < k {
                        assert(!crate::compositor::opening::fits(a.window_rules@[f], app_id, title));
                    }
                    if k < f {
                        assert(!crate::compositor::opening::fits(a.window_rules@[k], app_id, title));
                    }
                }
            },
            _ => {},
        }
        assert(b.windows@.dom() =~= a.windows@.dom().insert(id.0));
        assert(effects@[3] == (Effect::Emit { event }));
    }
}

proof fn lemma_none_left(numbers: Seq<u64>, number: u64)
    ensures
        !all_but(numbers, number).contains(number),
    decreases numbers.len(),
{
    reveal(Seq::filter);
    if numbers.len() > 0 {
        lemma_none_left(numbers.drop_last(), number);
        let before = all_but(numbers.drop_last(), number);
        let all = all_but(numbers, number);
        if all.contains(number) {
            let k = choose|k: int| 0 <= k < all.len() && all[k] == number;
            if k < before.len() {
                assert(before[k] == number);
            }
        }
    }
}

/// A window that is destroyed is on no workspace, and is known and awaited no more.
pub proof fn lemma_window_is_destroyed(
    x: &mut X11Windows,
    s: &mut DinatorState,
    number: u64,
    effects: Vec<Effect>,
)
    requires
        old(s).wf(),
        old(x).ids@.dom().contains(number),
        call_ensures(X11Windows::destroyed_window, (x, s, number), effects),
    ensures
        ({
            let id = old(x).ids@[number];
            &&& effects@ == seq![Effect::Unmap { id }]
            &&& final(s).windows@ == old(s).windows@.remove(id.0)
            &&& final(s).floating@ == old(s).floating@.remove(id.0)
            &&& final(s).fullscreen@ == old(s).fullscreen@.remove(id.0)
            &&& forall|n: usize| !(#[trigger] final(s).workspaces.order(n)).contains(id)
            &&& forall|n: usize| #[trigger] final(s).workspaces.focus(n) != Some(id)
            &&& final(x).ids@ == old(x).ids@.remove(number)
            &&& !final(x).pending@.contains(number)
            &&& same_outputs(*old(s), *final(s))
            &&& same_setup(*old(s), *final(s))
        }),
{
    let a = *old(s);
    let b = *final(s);
    lemma_view_parts(a, b);
    lemma_none_left(old(x).pending@, number);
    let id = old(x).ids@[number];
    assert forall|n: usize| !(#[trigger] b.workspaces.order(n)).contains(id) by {
        assert(b.workspaces.order(n) == without(a@.orders[n], id));
        crate::compositor::laws::lemma_without(a@.orders[n], id, id);
    }
}

/// A window that is unmapped is closed: it is on no workspace, everyone is told, and the last window of
/// the workspace in focus gets the keyboard. A menu or tooltip just leaves the screen.
pub proof fn lemma_window_is_unmapped(
    x: &mut X11Windows,
    s: &mut DinatorState,
    w: &X11Window,
    effects: Vec<Effect>,
    i: int,
)
    requires
        old(s).wf(),
        is_focused(*old(s), i),
        old(x).ids@.dom().contains(w.number),
        call_ensures(X11Windows::unmapped_window, (x, s, w), effects),
    ensures
        ({
            let a = *old(s);
            let b = *final(s);
            let id = old(x).ids@[w.number];
            let left = shown_on(b, i);
            &&& final(x).ids@ == old(x).ids@.remove(w.number)
            &&& b.windows@ == a.windows@.remove(id.0)
            &&& b.floating@ == a.floating@.remove(id.0)
            &&& same_outputs(a, b)
            &&& same_setup(a, b)
            &&& w.override_redirect ==> {
                &&& effects@ == seq![Effect::Unmap { id }]
                &&& same_lists(a, b)
                &&& b.keyboard_focus == a.keyboard_focus
            }
            &&& !w.override_redirect ==> {
                &&& forall|n: usize| !(#[trigger] b.workspaces.order(n)).contains(id)
                &&& effects@.len() >= 3
                &&& effects@[0] == (Effect::Emit { event: IpcEvent::WindowClosed { id: id.0 } })
                &&& effects@[1] == (Effect::Unmap { id })
                &&& effects@[2] == (Effect::Retile { output: a.outputs@[0].name })
                &&& left.len() > 0 && b.windows@.dom().contains(left.last().0)
                    && b.windows@[left.last().0].has_surface ==> {
                    &&& b.keyboard_focus == Some(left.last())
                    &&& effects@.len() == 4
                    &&& effects@[3] == (Effect::Focus { target: Some(left.last()) })
                }
                &&& left.len() == 0 ==> b.keyboard_focus == a.keyboard_focus && effects@.len() == 3
            }
        }),
{
    let a = *old(s);
    let b = *final(s);
    lemma_focused(a, i);
    lemma_view_parts(a, b);
    let id = old(x).ids@[w.number];
    if !w.override_redirect {
        let left = a@.without_window(id);
        assert forall|n: usize| !(#[trigger] b.workspaces.order(n)).contains(id) by {
            assert(b@.orders[n] == left.orders[n]);
            assert(b.workspaces.order(n) == without(a@.orders[n], id));
            crate::compositor::laws::lemma_without(a@.orders[n], id, id);
        }
        assert(left.order(a@.focused_workspace()) == shown_on(b, i));
    }
}

/// What a window that may place itself asks for it gets; what it does not ask for stays. Menus, tooltips
/// and floating windows may, others may not.
pub proof fn lemma_window_places_itself(
    x: &X11Windows,
    s: &DinatorState,
    w: &X11Window,
    left: Option<i32>,
    top: Option<i32>,
    width: Option<u32>,
    height: Option<u32>,
    r: Option<Rect>,
)
    requires
        call_ensures(X11Windows::configure_request, (x, s, w, left, top, width, height), r),
    ensures
        r is Some <==> w.override_redirect || (x.ids@.dom().contains(w.number)
            && s.floating@.contains(x.ids@[w.number].0)),
        r matches Some(place) ==> {
            &&& left matches Some(v) ==> place.x == v
            &&& left is None ==> place.x == w.geometry.x
            &&& top matches Some(v) ==> place.y == v
            &&& top is None ==> place.y == w.geometry.y
            &&& width matches Some(v) ==> (v < 0x8000_0000 ==> place.width == v)
            &&& width is None ==> place.width == w.geometry.width
            &&& height matches Some(v) ==> (v < 0x8000_0000 ==> place.height == v)
            &&& height is None ==> place.height == w.geometry.height
        },
{
}

/// A window that asks for it is fullscreen and does not float, or is fullscreen no more; the first output
/// is arranged anew.
pub proof fn lemma_x11_fullscreen_is_asked_for(
    x: &X11Windows,
    s: &mut DinatorState,
    number: u64,
    fullscreen: bool,
    effects: Vec<Effect>,
)
    requires
        old(s).wf(),
        old(s).outputs@.len() > 0,
        x.ids@.dom().contains(number),
        call_ensures(X11Windows::fullscreen_request, (x, s, number, fullscreen), effects),
    ensures
        ({
            let id = x.ids@[number].0;
            &&& effects@ == seq![Effect::Retile { output: old(s).outputs@[0].name }]
            &&& fullscreen ==> final(s).fullscreen@ == old(s).fullscreen@.insert(id)
            &&& fullscreen ==> final(s).floating@ == old(s).floating@.remove(id)
            &&& !fullscreen ==> final(s).fullscreen@ == old(s).fullscreen@.remove(id)
            &&& !fullscreen ==> final(s).floating@ == old(s).floating@
            &&& final(s).windows@ == old(s).windows@
            &&& final(s).keyboard_focus == old(s).keyboard_focus
            &&& same_outputs(*old(s), *final(s))
            &&& same_setup(*old(s), *final(s))
            &&& same_lists(*old(s), *final(s))
            &&& same_memory(*old(s), *final(s))
        }),
{
    lemma_view_parts(*old(s), *final(s));
}

} // verus!
