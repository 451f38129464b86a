//! What becomes of the state when windows open, commit, ask for something, and go.

use crate::compositor::arranging::{exists_in, shown_on};
use crate::compositor::event::{Effect, IpcEvent, WindowRule};
use crate::compositor::lifecycle::{first_rule, float_origin, text_view, window_home_retiled};
use crate::compositor::moving::{
    in_the_middle, is_focused, is_without, lemma_focused, lemma_view_parts, lemma_without_none,
    lemma_without_one, same_lists, same_lists_but, same_memory, same_outputs, same_setup, same_windows,
    takes_focus, unchanged,
};
use crate::compositor::state::{shown, DinatorState};
use crate::compositor::workspaces::without;
use crate::cursors::CursorIcon;
use crate::text::{contains_text, stands_at};
use crate::tiling::{in_i32, WindowId};
use vstd::prelude::*;

verus! {

broadcast use vstd::std_specs::hash::group_hash_axioms;

/// The text reads `part` from `at` on.
pub open spec fn reads_at(text: Seq<char>, part: Seq<char>, at: int) -> bool {
    &&& 0 <= at
    &&& at + part.len() <= text.len()
    &&& forall|k: int| 0 <= k < part.len() ==> text[at + k] == #[trigger] part[k]
}

/// The rule is one for the window: the application has exactly the name that the rule asks for, and the
/// title has the rule's text in it. A rule that asks for neither is one for every window.
pub open spec fn fits(rule: WindowRule, app_id: Option<String>, title: Option<String>) -> bool {
    &&& rule.app_id matches Some(asked) ==> (app_id matches Some(name) && name@ == asked@)
    &&& rule.title matches Some(asked) ==> (title matches Some(text) && exists|at: int|
        #[trigger] reads_at(text@, asked@, at))
}

/// Rule `k` is the first for the window.
pub open spec fn fits_first(
    rules: Seq<WindowRule>,
    app_id: Option<String>,
    title: Option<String>,
    k: int,
) -> bool {
    &&& 0 <= k < rules.len()
    &&& fits(rules[k], app_id, title)
    &&& forall|j: int| 0 <= j < k ==> !fits(#[trigger] rules[j], app_id, title)
}

proof fn lemma_fits(rule: WindowRule, app_id: Option<String>, title: Option<String>)
    ensures
        crate::compositor::lifecycle::rule_matches(rule, text_view(app_id), text_view(title)) == fits(
            rule,
            app_id,
            title,
        ),
{
    if rule.title is Some && title is Some {
        let text = title->0@;
        let asked = rule.title->0@;
        assert forall|at: int| reads_at(text, asked, at) == stands_at(text, asked, at) by {
            if reads_at(text, asked, at) {
                assert(text.subrange(at, at + asked.len()) =~= asked);
            }
            if stands_at(text, asked, at) {
                assert forall|k: int| 0 <= k < asked.len() implies text[at + k]
                    == #[trigger] asked[k] by {
                    assert(text.subrange(at, at + asked.len())[k] == asked[k]);
                }
            }
        }
        if contains_text(text, asked) {
            let at = choose|at: int| stands_at(text, asked, at);
            assert(reads_at(text, asked, at));
        }
        if exists|at: int| #[trigger] reads_at(text, asked, at) {
            let at = choose|at: int| #[trigger] reads_at(text, asked, at);
            assert(stands_at(text, asked, at));
        }
    }
}

pub(crate) proof fn lemma_first_fit(
    rules: Seq<WindowRule>,
    app_id: Option<String>,
    title: Option<String>,
)
    ensures
        ({
            let i = first_rule(rules, text_view(app_id), text_view(title));
            &&& 0 <= i <= rules.len()
            &&& i < rules.len() ==> fits_first(rules, app_id, title, i)
            &&& forall|j: int| 0 <= j < i ==> !fits(#[trigger] rules[j], app_id, title)
        }),
    decreases rules.len(),
{
    if rules.len() > 0 {
        let front = rules.drop_last();
        lemma_first_fit(front, app_id, title);
        lemma_fits(rules.last(), app_id, title);
        let i = first_rule(rules, text_view(app_id), text_view(title));
        let i0 = first_rule(front, text_view(app_id), text_view(title));
        assert forall|j: int| 0 <= j < i implies !fits(#[trigger] rules[j], app_id, title) by {
            if j < front.len() {
                assert(front[j] == rules[j]);
            }
        }
        if i < front.len() {
            assert(front[i] == rules[i]);
        }
    }
}

/// A window opens as the first rule for it says: floating, or else fullscreen; with no rule for it, or
/// one that says neither, as any other. It comes last on the workspace that the focused output shows,
/// and has the keyboard focus. The pointer shows that what was launched has started.
pub proof fn lemma_window_opens(
    s: &mut DinatorState,
    app_id: Option<String>,
    title: Option<String>,
    r: (WindowId, Vec<Effect>),
    i: int,
)
    requires
        old(s).wf(),
        old(s).next_window < u64::MAX,
        is_focused(*old(s), i),
        call_ensures(DinatorState::new_toplevel, (s, app_id, title), r),
    ensures
        ({
            let a = *old(s);
            let b = *final(s);
            let w = WindowId(a.next_window);
            let ws = a.outputs@[i].active_workspace;
            let rules = a.window_rules@;
            let arranged = Effect::Retile { output: a.outputs@[i].name };
            &&& r.0 == w
            &&& b.next_window == a.next_window + 1
            &&& b.windows@.dom() == a.windows@.dom().insert(w.0)
            &&& b.windows@[w.0].has_surface
            &&& !b.windows@[w.0].x11
            &&& b.windows@[w.0].workspace == Some(ws)
            &&& b.windows@[w.0].commits == 0
            &&& forall|id: u64| id != w.0 ==> #[trigger] b.windows@[id] == a.windows@[id]
            &&& shown_on(b, i) == shown_on(a, i).push(w)
            &&& same_lists_but(a, b, ws, ws)
            &&& same_memory(a, b)
            &&& same_outputs(a, b)
            &&& same_setup(a, b)
            &&& b.keyboard_focus == Some(w)
            &&& r.1@.len() >= 5
            &&& r.1@[0] == (Effect::Cursor { icon: CursorIcon::Default })
            &&& r.1@[1] == (Effect::MoveTo { id: w, x: 0, y: 0 })
            &&& r.1@[2] == arranged
            &&& r.1@[3] == (Effect::Focus { target: Some(w) })
            &&& r.1@.last() == (Effect::Emit {
                event: IpcEvent::WindowOpened { id: w.0, app_id, title },
            })
            &&& forall|k: int|
                #[trigger] fits_first(rules, app_id, title, k) && rules[k].float ==> {
                    &&& b.floating@ == a.floating@.insert(w.0)
                    &&& b.fullscreen@ == a.fullscreen@
                    &&& r.1@.len() == 8
                    &&& r.1@[4] matches Effect::Place { id, rect, fullscreen } && id == w
                        && !fullscreen && in_the_middle(rect, a.outputs@[i].geometry)
                    &&& r.1@[5] == (Effect::Raise { id: w, activate: true })
                    &&& r.1@[6] == arranged
                }
            &&& forall|k: int|
                #[trigger] fits_first(rules, app_id, title, k) && !rules[k].float
                    && rules[k].fullscreen ==> {
                    &&& b.floating@ == a.floating@
                    &&& b.fullscreen@ == a.fullscreen@.insert(w.0)
                    &&& r.1@.len() == 6
                    &&& r.1@[4] == arranged
                }
            &&& (forall|k: int|
                #[trigger] fits_first(rules, app_id, title, k) ==> !rules[k].float
                    && !rules[k].fullscreen) ==> {
                &&& b.floating@ == a.floating@
                &&& b.fullscreen@ == a.fullscreen@
                &&& r.1@.len() == 5
            }
        }),
{
    let a = *old(s);
    let b = *final(s);
    lemma_focused(a, i);
    lemma_view_parts(a, b);
    let rules = a.window_rules@;
    lemma_first_fit(rules, app_id, title);
    let f = first_rule(rules, text_view(app_id), text_view(title));
    assert forall|k: int| #[trigger] fits_first(rules, app_id, title, k) implies k == f by {
        if f < k {
            assert(!fits(rules[f], app_id, title));
        }
        if k < f {
            assert(!fits(rules[k], app_id, title));
        }
    }
    assert(b.windows@.dom() =~= a.windows@.dom().insert(a.next_window));
}

/// A window that is gone is on no workspace and in nobody's mind. The output that shows its workspace is
/// arranged anew, and the last window of the workspace in focus gets the keyboard.
pub proof fn lemma_window_goes(
    s: &mut DinatorState,
    effects: Vec<Effect>,
    w: WindowId,
    i: int,
    home: int,
    p: int,
)
    requires
        old(s).wf(),
        is_focused(*old(s), i),
        call_ensures(DinatorState::toplevel_destroyed, (s, w), effects),
        exists_in(*old(s), w),
        0 <= home < old(s).outputs@.len(),
        old(s).windows@[w.0].workspace == Some(old(s).outputs@[home].active_workspace),
        forall|j: int|
            0 <= j < old(s).outputs@.len() && j != home ==> (
            #[trigger] old(s).outputs@[j]).active_workspace != old(
                s,
            ).outputs@[home].active_workspace,
        shown_on(*old(s), home).no_duplicates(),
        0 <= p < shown_on(*old(s), home).len(),
        shown_on(*old(s), home)[p] == w,
        forall|n: usize|
            n != old(s).outputs@[home].active_workspace ==> !(#[trigger] old(s).workspaces.order(
                n,
            )).contains(w),
        forall|k: int|
            0 <= k < shown_on(*old(s), i).len() ==> takes_focus(
                *old(s),
                #[trigger] shown_on(*old(s), i)[k],
            ),
    ensures
        ({
            let a = *old(s);
            let b = *final(s);
            let ws = a.outputs@[home].active_workspace;
            let gone = seq![
                Effect::Emit { event: IpcEvent::WindowClosed { id: w.0 } },
                Effect::Unmap { id: w },
                Effect::Retile { output: a.outputs@[home].name },
            ];
            let left = shown_on(b, i);
            &&& b.windows@ == a.windows@.remove(w.0)
            &&& b.floating@ == a.floating@.remove(w.0)
            &&& b.fullscreen@ == a.fullscreen@.remove(w.0)
            &&& b.next_window == a.next_window
            &&& is_without(shown_on(b, home), shown_on(a, home), p)
            &&& same_lists_but(a, b, ws, ws)
            &&& forall|n: usize|
                #[trigger] b.workspaces.focus(n) == if a.workspaces.focus(n) == Some(w) {
                    None
                } else {
                    a.workspaces.focus(n)
                }
            &&& same_outputs(a, b)
            &&& same_setup(a, b)
            &&& left.len() > 0 ==> {
                &&& b.keyboard_focus == Some(left.last())
                &&& effects@ == gone.push(Effect::Focus { target: Some(left.last()) })
            }
            &&& left.len() == 0 ==> b.keyboard_focus == a.keyboard_focus && effects@ == gone
        }),
{
    let a = *old(s);
    let b = *final(s);
    lemma_focused(a, i);
    lemma_view_parts(a, b);
    let ws = a.outputs@[home].active_workspace;
    let order = shown_on(a, home);
    lemma_without_one(order, p);
    let m = a@;
    let left = m.without_window(w);
    assert forall|n: usize| n != ws implies #[trigger] b.workspaces.order(n) == a.workspaces.order(
        n,
    ) by {
        assert(!a.workspaces.order(n).contains(w));
        lemma_without_none(a.workspaces.order(n), w);
        assert(left.orders[n] == without(m.orders[n], w));
    }
    assert(left.orders[ws] == without(order, w));
    let retile = choose|retile: Seq<Effect>|
        {
            &&& #[trigger] window_home_retiled(m, w, retile)
            &&& effects@ == seq![
                Effect::Emit { event: IpcEvent::WindowClosed { id: w.0 } },
                Effect::Unmap { id: w },
            ] + retile + (match left.last_focused() {
                Some(next) => left.focus_effects(next),
                None => Seq::empty(),
            })
        };
    assert(a.outputs@[home].active_workspace == ws);
    assert(shown(m.outputs, ws));
    assert(retile =~= seq![Effect::Retile { output: a.outputs@[home].name }]);
    let after = shown_on(b, i);
    let fws = a.outputs@[i].active_workspace;
    assert(left.focused_workspace() == fws);
    assert(left.order(fws) == after);
    if after.len() > 0 {
        let before = shown_on(a, i);
        if fws == ws {
            let k = after.len() - 1;
            let q = if k < p {
                k
            } else {
                k + 1
            };
            assert(after.last() == before[q]);
            assert(takes_focus(a, before[q]));
            assert(before[q] != before[p]);
        } else {
            assert(after == before);
            let q = before.len() - 1;
            assert(takes_focus(a, before[q]));
            assert(before.contains(before[q]));
            assert(before[q] != w);
        }
        assert(left.focusable(after.last()));
    }
    let gone = seq![
        Effect::Emit { event: IpcEvent::WindowClosed { id: w.0 } },
        Effect::Unmap { id: w },
        Effect::Retile { output: a.outputs@[home].name },
    ];
    if after.len() > 0 {
        assert(effects@ =~= gone.push(Effect::Focus { target: Some(after.last()) }));
    } else {
        assert(effects@ =~= gone);
    }
}

/// A window that asks for it is fullscreen and does not float; one that asks for the opposite is
/// fullscreen no more. The focused output is arranged anew.
pub proof fn lemma_fullscreen_is_asked_for(
    s: &mut DinatorState,
    effects: Vec<Effect>,
    w: WindowId,
    i: int,
)
    requires
        old(s).wf(),
        is_focused(*old(s), i),
        exists_in(*old(s), w),
    ensures
        call_ensures(DinatorState::fullscreen_request, (s, w), effects) ==> {
            &&& final(s).fullscreen@ == old(s).fullscreen@.insert(w.0)
            &&& final(s).floating@ == old(s).floating@.remove(w.0)
        },
        call_ensures(DinatorState::unfullscreen_request, (s, w), effects) ==> {
            &&& final(s).fullscreen@ == old(s).fullscreen@.remove(w.0)
            &&& final(s).floating@ == old(s).floating@
        },
        call_ensures(DinatorState::fullscreen_request, (s, w), effects) || call_ensures(
            DinatorState::unfullscreen_request,
            (s, w),
            effects,
        ) ==> {
            &&& effects@ == seq![Effect::Retile { output: old(s).outputs@[i].name }]
            &&& final(s).windows@ == old(s).windows@
            &&& final(s).next_window == old(s).next_window
            &&& final(s).keyboard_focus == old(s).keyboard_focus
            &&& same_outputs(*old(s), *final(s))
            &&& same_setup(*old(s), *final(s))
            &&& same_lists(*old(s), *final(s))
            &&& same_memory(*old(s), *final(s))
        },
{
    lemma_focused(*old(s), i);
    lemma_view_parts(*old(s), *final(s));
}

/// `half` is half of `whole`, cut off towards zero.
pub open spec fn is_half(half: int, whole: int) -> bool {
    &&& whole >= 0 ==> 0 <= whole - 2 * half <= 1
    &&& whole < 0 ==> -1 <= whole - 2 * half <= 0
}

/// At least a hundred pixels.
pub open spec fn at_least_100(extent: i32) -> int {
    if extent < 100 {
        100
    } else {
        extent as int
    }
}

/// A window that commits starts to float if it has a parent, or has no application name at its third
/// commit: in the middle of the focused output, taken to be at least a hundred pixels wide and high,
/// and above the others. A window that floats is left alone. Another one without a size is given its
/// place, and one that is not as large as it was told to be is told again.
pub proof fn lemma_window_commits(
    s: &mut DinatorState,
    w: WindowId,
    has_parent: bool,
    has_app_id: bool,
    width: i32,
    height: i32,
    configured: Option<(i32, i32)>,
    effects: Vec<Effect>,
    i: int,
)
    requires
        old(s).wf(),
        is_focused(*old(s), i),
        exists_in(*old(s), w),
        old(s).windows@[w.0].commits < u32::MAX,
        ({
            let origin = float_origin(old(s).outputs@[i].geometry, width, height);
            in_i32(origin.0) && in_i32(origin.1)
        }),
        call_ensures(
            DinatorState::commit,
            (s, w, has_parent, has_app_id, width, height, configured),
            effects,
        ),
    ensures
        ({
            let a = *old(s);
            let b = *final(s);
            let area = a.outputs@[i].geometry;
            let arranged = Effect::Retile { output: a.outputs@[i].name };
            let floated = a.floating@.contains(w.0);
            let floats = !floated && (has_parent || (a.windows@[w.0].commits == 2 && !has_app_id));
            &&& b.windows@.dom() == a.windows@.dom()
            &&& b.windows@[w.0].commits == a.windows@[w.0].commits + 1
            &&& b.windows@[w.0].has_surface == a.windows@[w.0].has_surface
            &&& b.windows@[w.0].x11 == a.windows@[w.0].x11
            &&& b.windows@[w.0].workspace == a.windows@[w.0].workspace
            &&& forall|id: u64| id != w.0 ==> #[trigger] b.windows@[id] == a.windows@[id]
            &&& b.fullscreen@ == a.fullscreen@
            &&& b.next_window == a.next_window
            &&& b.keyboard_focus == a.keyboard_focus
            &&& same_outputs(a, b)
            &&& same_setup(a, b)
            &&& same_lists(a, b)
            &&& same_memory(a, b)
            &&& floats ==> {
                &&& b.floating@ == a.floating@.insert(w.0)
                &&& effects@.len() == 3
                &&& effects@[0] matches Effect::MoveTo { id, x, y } && id == w && is_half(
                    x - area.x,
                    area.width - at_least_100(width),
                ) && is_half(y - area.y, area.height - at_least_100(height))
                &&& effects@[1] == (Effect::Raise { id: w, activate: true })
                &&& effects@[2] == arranged
            }
            &&& !floats ==> b.floating@ == a.floating@
            &&& floated ==> effects@ == Seq::<Effect>::empty()
            &&& !floats && !floated && (width == 0 || height == 0) ==> effects@ == seq![arranged]
            &&& !floats && !floated && width != 0 && height != 0 ==> match configured {
                Some((cw, ch)) if cw != width || ch != height => effects@ == seq![
                    Effect::Resize { id: w, width: cw, height: ch },
                ],
                _ => effects@ == Seq::<Effect>::empty(),
            }
        }),
{
    lemma_focused(*old(s), i);
    lemma_view_parts(*old(s), *final(s));
    assert(final(s).windows@.dom() =~= old(s).windows@.dom());
}

/// A window that is clicked comes above the others and has the keyboard focus; one of an X11
/// application only comes above the others. A request for activation does the same while it is less
/// than ten seconds old, after the pointer shows that something starts.
pub proof fn lemma_window_is_activated(
    s: &mut DinatorState,
    effects: Vec<Effect>,
    w: WindowId,
    seconds: u64,
)
    requires
        old(s).wf(),
        takes_focus(*old(s), w),
    ensures
        ({
            let a = *old(s);
            let b = *final(s);
            let starts = seq![Effect::Cursor { icon: CursorIcon::Progress }];
            let done = if a.windows@[w.0].x11 {
                seq![Effect::Raise { id: w, activate: true }]
            } else {
                seq![
                    Effect::Raise { id: w, activate: true },
                    Effect::Focus { target: Some(w) },
                ]
            };
            let clicked = call_ensures(DinatorState::raise_and_focus, (s, w), effects);
            let asked = call_ensures(DinatorState::request_activation, (s, w, seconds), effects);
            &&& clicked ==> effects@ == done
            &&& asked && seconds < 10 ==> effects@ == starts + done
            &&& asked && seconds >= 10 ==> effects@ == starts && unchanged(a, b)
            &&& clicked || (asked && seconds < 10) ==> {
                &&& b.keyboard_focus == if a.windows@[w.0].x11 {
                    a.keyboard_focus
                } else {
                    Some(w)
                }
                &&& same_windows(a, b)
                &&& same_outputs(a, b)
                &&& same_setup(a, b)
                &&& same_lists(a, b)
                &&& same_memory(a, b)
            }
        }),
{
    lemma_view_parts(*old(s), *final(s));
    let raised = Effect::Raise { id: w, activate: true };
    let focused = Effect::Focus { target: Some(w) };
    let starts = Effect::Cursor { icon: CursorIcon::Progress };
    assert(seq![raised] + seq![focused] =~= seq![raised, focused]);
    assert(seq![starts, raised] + seq![focused] =~= seq![starts] + seq![raised, focused]);
    assert(seq![starts, raised] =~= seq![starts] + seq![raised]);
}

/// When the keyboard focus is on a window, subscribers hear of that window.
pub proof fn lemma_focus_is_told(s: &mut DinatorState, target: Option<WindowId>, effects: Vec<Effect>)
    requires
        old(s).wf(),
        call_ensures(DinatorState::focus_changed, (s, target), effects),
    ensures
        final(s).keyboard_focus == target,
        target matches Some(w) ==> (exists_in(*old(s), w) ==> effects@ == seq![
            Effect::Emit { event: IpcEvent::WindowFocused { id: w.0 } },
        ]),
        target is None ==> effects@ == Seq::<Effect>::empty(),
        same_windows(*old(s), *final(s)),
        same_outputs(*old(s), *final(s)),
        same_setup(*old(s), *final(s)),
        same_lists(*old(s), *final(s)),
        same_memory(*old(s), *final(s)),
{
    lemma_view_parts(*old(s), *final(s));
}

} // verus!
