//! What key bindings, plugins, the configuration and remote clients get when they ask for something.

use crate::background::{backdrop_of, Background};
use crate::compositor::actions::{gap_configured, background_configured, Request};
use crate::compositor::arranging::{exists_in, shown_on};
use crate::compositor::choosing::{
    follows, gap_of, goes_by, is_on_offer, lemma_chosen, lemma_cycled, lemma_grown, lemma_shrunk,
    only_layout_changed, ratio_units, same_but_ratio,
};
use crate::compositor::event::{Effect, IpcEvent, PluginAction, Protocol};
use crate::compositor::layouts::layout_cycled;
use crate::compositor::moving::{
    float_was_toggled, focus_went_to, fullscreen_was_toggled, is_focused, lemma_float_was_toggled,
    lemma_focus_went, lemma_focused, lemma_fullscreen_was_toggled, lemma_swapped_with_first,
    lemma_switched_to, lemma_view_parts, lemma_went_to_workspace, next_place, previous_place,
    remembered, same_lists, same_memory, same_outputs, same_windows, swapped_with_first, switched_to,
    takes_focus, unchanged, went_to_workspace,
};
use crate::compositor::neighbours::{
    focus_went_over, is_next, lemma_focus_went_over, lemma_went_over, only_shown_by, went_over,
};
use crate::compositor::outputs::window_sent_towards;
use crate::compositor::state::{lemma_same_names, DinatorState, Model};
use crate::config::Config;
use crate::input::keys::KeyAction;
use crate::tiling::laws::{is_step_down, is_step_up};
use crate::tiling::WindowId;
use vstd::prelude::*;

verus! {

broadcast use vstd::std_specs::hash::group_hash_axioms;

/// The keys and the plugin actions for it move the focus on and back.
pub proof fn lemma_focus_is_asked_to_move(
    s: &mut DinatorState,
    size: Option<(u16, u16)>,
    r: (Vec<Effect>, Request),
    effects: Vec<Effect>,
    i: int,
    p: int,
)
    requires
        old(s).wf(),
        is_focused(*old(s), i),
        old(s).outputs@[i].layout !is Plugin,
        shown_on(*old(s), i).len() >= 2,
        shown_on(*old(s), i).no_duplicates(),
        forall|k: int|
            0 <= k < shown_on(*old(s), i).len() ==> takes_focus(
                *old(s),
                #[trigger] shown_on(*old(s), i)[k],
            ),
        0 <= p < shown_on(*old(s), i).len(),
        old(s).keyboard_focus == Some(shown_on(*old(s), i)[p]),
    ensures
        ({
            let n = shown_on(*old(s), i).len() as int;
            &&& call_ensures(DinatorState::perform_key_action, (s, KeyAction::FocusNext, size), r) ==> {
                &&& r.1 is Nothing
                &&& focus_went_to(*old(s), *final(s), r.0@, i, next_place(p, n))
            }
            &&& call_ensures(DinatorState::perform_key_action, (s, KeyAction::FocusPrev, size), r) ==> {
                &&& r.1 is Nothing
                &&& focus_went_to(*old(s), *final(s), r.0@, i, previous_place(p, n))
            }
            &&& call_ensures(
                DinatorState::execute_plugin_action,
                (s, PluginAction::FocusNext),
                effects,
            ) ==> focus_went_to(*old(s), *final(s), effects@, i, next_place(p, n))
            &&& call_ensures(
                DinatorState::execute_plugin_action,
                (s, PluginAction::FocusPrev),
                effects,
            ) ==> focus_went_to(*old(s), *final(s), effects@, i, previous_place(p, n))
        }),
{
    if call_ensures(DinatorState::perform_key_action, (s, KeyAction::FocusNext, size), r) {
        lemma_focus_went(*old(s), *final(s), r.0@, i, p, 1);
    }
    if call_ensures(DinatorState::perform_key_action, (s, KeyAction::FocusPrev, size), r) {
        lemma_focus_went(*old(s), *final(s), r.0@, i, p, -1);
    }
    if call_ensures(DinatorState::execute_plugin_action, (s, PluginAction::FocusNext), effects) {
        lemma_focus_went(*old(s), *final(s), effects@, i, p, 1);
    }
    if call_ensures(DinatorState::execute_plugin_action, (s, PluginAction::FocusPrev), effects) {
        lemma_focus_went(*old(s), *final(s), effects@, i, p, -1);
    }
}

/// The key and the plugin action for it swap the focused window with the first one.
pub proof fn lemma_swap_is_asked_for(
    s: &mut DinatorState,
    size: Option<(u16, u16)>,
    r: (Vec<Effect>, Request),
    effects: Vec<Effect>,
    i: int,
    p: int,
)
    requires
        old(s).wf(),
        is_focused(*old(s), i),
        shown_on(*old(s), i).no_duplicates(),
        0 <= p < shown_on(*old(s), i).len(),
        exists_in(*old(s), shown_on(*old(s), i)[p]),
        old(s).keyboard_focus == Some(shown_on(*old(s), i)[p]),
    ensures
        call_ensures(DinatorState::perform_key_action, (s, KeyAction::SwapMaster, size), r) ==> {
            &&& r.1 is Nothing
            &&& swapped_with_first(*old(s), *final(s), r.0@, i, p)
        },
        call_ensures(DinatorState::execute_plugin_action, (s, PluginAction::SwapMaster), effects)
            ==> swapped_with_first(*old(s), *final(s), effects@, i, p),
{
    if call_ensures(DinatorState::perform_key_action, (s, KeyAction::SwapMaster, size), r) {
        lemma_swapped_with_first(*old(s), *final(s), r.0@, i, p);
    }
    if call_ensures(DinatorState::execute_plugin_action, (s, PluginAction::SwapMaster), effects) {
        lemma_swapped_with_first(*old(s), *final(s), effects@, i, p);
    }
}

/// The keys and the plugin actions for it make the focused window float or fullscreen, or undo it, and
/// ask it to close.
pub proof fn lemma_focused_window_is_asked(
    s: &mut DinatorState,
    size: Option<(u16, u16)>,
    r: (Vec<Effect>, Request),
    effects: Vec<Effect>,
    i: int,
    w: WindowId,
)
    requires
        old(s).wf(),
        is_focused(*old(s), i),
        old(s).keyboard_focus == Some(w),
        exists_in(*old(s), w),
    ensures
        call_ensures(DinatorState::perform_key_action, (s, KeyAction::ToggleFloat, size), r) ==> {
            &&& r.1 is Nothing
            &&& float_was_toggled(*old(s), *final(s), r.0@, i, w)
        },
        call_ensures(DinatorState::perform_key_action, (s, KeyAction::ToggleFullscreen, size), r) ==> {
            &&& r.1 is Nothing
            &&& fullscreen_was_toggled(*old(s), *final(s), r.0@, i, w)
        },
        call_ensures(DinatorState::perform_key_action, (s, KeyAction::CloseWindow, size), r) ==> {
            &&& r.1 is Nothing
            &&& unchanged(*old(s), *final(s))
            &&& r.0@ == seq![Effect::Close { id: w }]
        },
        call_ensures(DinatorState::execute_plugin_action, (s, PluginAction::ToggleFloat), effects)
            ==> float_was_toggled(*old(s), *final(s), effects@, i, w),
        call_ensures(
            DinatorState::execute_plugin_action,
            (s, PluginAction::ToggleFullscreen),
            effects,
        ) ==> fullscreen_was_toggled(*old(s), *final(s), effects@, i, w),
        call_ensures(DinatorState::execute_plugin_action, (s, PluginAction::CloseWindow), effects)
            ==> unchanged(*old(s), *final(s)) && effects@ == seq![Effect::Close { id: w }],
{
    lemma_view_parts(*old(s), *final(s));
    if call_ensures(DinatorState::perform_key_action, (s, KeyAction::ToggleFloat, size), r) {
        lemma_float_was_toggled(*old(s), *final(s), r.0@, i, w);
    }
    if call_ensures(DinatorState::perform_key_action, (s, KeyAction::ToggleFullscreen, size), r) {
        lemma_fullscreen_was_toggled(*old(s), *final(s), r.0@, i, w);
    }
    if call_ensures(DinatorState::execute_plugin_action, (s, PluginAction::ToggleFloat), effects) {
        lemma_float_was_toggled(*old(s), *final(s), effects@, i, w);
    }
    if call_ensures(DinatorState::execute_plugin_action, (s, PluginAction::ToggleFullscreen), effects) {
        lemma_fullscreen_was_toggled(*old(s), *final(s), effects@, i, w);
    }
}

/// The keys and the plugin actions for it switch to a workspace and move the focused window there.
pub proof fn lemma_workspace_is_asked_for(
    s: &mut DinatorState,
    size: Option<(u16, u16)>,
    r: (Vec<Effect>, Request),
    effects: Vec<Effect>,
    i: int,
    p: int,
    workspace: usize,
)
    requires
        old(s).wf(),
        is_focused(*old(s), i),
        1 <= workspace <= 9,
        workspace != old(s).outputs@[i].active_workspace,
        shown_on(*old(s), i).no_duplicates(),
        forall|k: int|
            0 <= k < shown_on(*old(s), i).len() ==> takes_focus(
                *old(s),
                #[trigger] shown_on(*old(s), i)[k],
            ),
        0 <= p < shown_on(*old(s), i).len(),
        old(s).keyboard_focus == Some(shown_on(*old(s), i)[p]),
        remembered(*old(s), workspace) matches Some(w) ==> takes_focus(*old(s), w),
    ensures
        call_ensures(
            DinatorState::perform_key_action,
            (s, KeyAction::SwitchWorkspace(workspace), size),
            r,
        ) ==> {
            &&& r.1 is Nothing
            &&& switched_to(*old(s), *final(s), r.0@, i, workspace)
        },
        call_ensures(
            DinatorState::perform_key_action,
            (s, KeyAction::MoveToWorkspace(workspace), size),
            r,
        ) ==> {
            &&& r.1 is Nothing
            &&& went_to_workspace(*old(s), *final(s), r.0@, i, p, workspace)
        },
        call_ensures(
            DinatorState::execute_plugin_action,
            (s, PluginAction::SwitchWorkspace { workspace }),
            effects,
        ) ==> switched_to(*old(s), *final(s), effects@, i, workspace),
        call_ensures(
            DinatorState::execute_plugin_action,
            (s, PluginAction::MoveToWorkspace { workspace }),
            effects,
        ) ==> went_to_workspace(*old(s), *final(s), effects@, i, p, workspace),
{
    let a = *old(s);
    let b = *final(s);
    assert forall|k: int| 0 <= k < shown_on(a, i).len() implies exists_in(
        a,
        #[trigger] shown_on(a, i)[k],
    ) by {
        assert(takes_focus(a, shown_on(a, i)[k]));
    }
    if call_ensures(
        DinatorState::perform_key_action,
        (s, KeyAction::SwitchWorkspace(workspace), size),
        r,
    ) {
        lemma_switched_to(a, b, r.0@, i, workspace);
    }
    if call_ensures(
        DinatorState::perform_key_action,
        (s, KeyAction::MoveToWorkspace(workspace), size),
        r,
    ) {
        lemma_went_to_workspace(a, b, r.0@, i, p, workspace);
    }
    if call_ensures(
        DinatorState::execute_plugin_action,
        (s, PluginAction::SwitchWorkspace { workspace }),
        effects,
    ) {
        lemma_switched_to(a, b, effects@, i, workspace);
    }
    if call_ensures(
        DinatorState::execute_plugin_action,
        (s, PluginAction::MoveToWorkspace { workspace }),
        effects,
    ) {
        lemma_went_to_workspace(a, b, effects@, i, p, workspace);
    }
}

/// The keys for it move the focus to the output on the right and on the left.
pub proof fn lemma_output_is_asked_for(
    s: &mut DinatorState,
    size: Option<(u16, u16)>,
    r: (Vec<Effect>, Request),
    f: int,
    t: int,
)
    requires
        old(s).wf(),
        is_focused(*old(s), f),
        0 <= t < old(s).outputs@.len(),
        shown_on(*old(s), t).len() > 0 ==> takes_focus(*old(s), shown_on(*old(s), t)[0]),
    ensures
        is_next(*old(s), f, t) && call_ensures(
            DinatorState::perform_key_action,
            (s, KeyAction::FocusOutputRight, size),
            r,
        ) ==> r.1 is Nothing && focus_went_over(*old(s), *final(s), r.0@, t),
        is_next(*old(s), t, f) && call_ensures(
            DinatorState::perform_key_action,
            (s, KeyAction::FocusOutputLeft, size),
            r,
        ) ==> r.1 is Nothing && focus_went_over(*old(s), *final(s), r.0@, t),
{
    if is_next(*old(s), f, t) && call_ensures(
        DinatorState::perform_key_action,
        (s, KeyAction::FocusOutputRight, size),
        r,
    ) {
        lemma_focus_went_over(*old(s), *final(s), 1, r.0@, f, t);
    }
    if is_next(*old(s), t, f) && call_ensures(
        DinatorState::perform_key_action,
        (s, KeyAction::FocusOutputLeft, size),
        r,
    ) {
        lemma_focus_went_over(*old(s), *final(s), -1, r.0@, f, t);
    }
}

/// The keys for it take the focused window to the output on the right and on the left.
pub proof fn lemma_window_is_asked_over(
    s: &mut DinatorState,
    size: Option<(u16, u16)>,
    r: (Vec<Effect>, Request),
    w: WindowId,
    from: usize,
    p: int,
    h: int,
    t: int,
)
    requires
        old(s).wf(),
        is_focused(*old(s), h),
        old(s).keyboard_focus == Some(w),
        takes_focus(*old(s), w),
        old(s).windows@[w.0].workspace == Some(from),
        only_shown_by(*old(s), from, h),
        0 <= t < old(s).outputs@.len(),
        only_shown_by(*old(s), old(s).outputs@[t].active_workspace, t),
        old(s).workspaces.order(from).no_duplicates(),
        0 <= p < old(s).workspaces.order(from).len(),
        old(s).workspaces.order(from)[p] == w,
        shown_on(*old(s), t).len() > 0 ==> takes_focus(*old(s), shown_on(*old(s), t)[0]),
    ensures
        is_next(*old(s), h, t) && call_ensures(
            DinatorState::perform_key_action,
            (s, KeyAction::MoveToOutputRight, size),
            r,
        ) ==> r.1 is Nothing && went_over(*old(s), *final(s), r.0@, w, from, p, h, t),
        is_next(*old(s), t, h) && call_ensures(
            DinatorState::perform_key_action,
            (s, KeyAction::MoveToOutputLeft, size),
            r,
        ) ==> r.1 is Nothing && went_over(*old(s), *final(s), r.0@, w, from, p, h, t),
{
    let a = *old(s);
    let b = *final(s);
    if is_next(a, h, t) && call_ensures(
        DinatorState::perform_key_action,
        (s, KeyAction::MoveToOutputRight, size),
        r,
    ) {
        let sent = choose|sent: bool| #[trigger] window_sent_towards(a@, b@, 1, sent, r.0@);
        lemma_went_over(a, b, 1, sent, r.0@, w, from, p, h, t);
    }
    if is_next(a, t, h) && call_ensures(
        DinatorState::perform_key_action,
        (s, KeyAction::MoveToOutputLeft, size),
        r,
    ) {
        let sent = choose|sent: bool| #[trigger] window_sent_towards(a@, b@, -1, sent, r.0@);
        lemma_went_over(a, b, -1, sent, r.0@, w, from, p, h, t);
    }
}

/// The keys for it choose the next layout and the one before, and everyone is told its name. The plugin
/// action for it chooses a layout by its name. The output is arranged anew.
pub proof fn lemma_layout_is_asked_for(
    s: &mut DinatorState,
    size: Option<(u16, u16)>,
    r: (Vec<Effect>, Request),
    name: String,
    effects: Vec<Effect>,
    i: int,
)
    requires
        old(s).wf(),
        is_focused(*old(s), i),
        old(s).outputs@[i].layout !is Plugin,
    ensures
        ({
            let a = *old(s);
            let b = *final(s);
            let on = call_ensures(
                DinatorState::perform_key_action,
                (s, KeyAction::CycleLayoutForward, size),
                r,
            );
            let back = call_ensures(
                DinatorState::perform_key_action,
                (s, KeyAction::CycleLayoutBackward, size),
                r,
            );
            let chosen = call_ensures(
                DinatorState::execute_plugin_action,
                (s, PluginAction::SetLayout { name }),
                effects,
            );
            let arranged = Effect::Retile { output: a.outputs@[i].name };
            &&& a.plugin_layouts@.len() == 0 && (on || back) ==> {
                &&& r.1 is Nothing
                &&& only_layout_changed(a, b, i)
                &&& gap_of(b.outputs@[i].layout) == gap_of(a.outputs@[i].layout)
                &&& on ==> follows(a.outputs@[i].layout, b.outputs@[i].layout)
                &&& back ==> follows(b.outputs@[i].layout, a.outputs@[i].layout)
                &&& r.0@.len() == 2
                &&& r.0@[0] == arranged
                &&& r.0@[1] matches Effect::Emit { event } && (event matches IpcEvent::LayoutChanged {
                    name: told,
                } && goes_by(b.outputs@[i].layout, told@))
            }
            &&& chosen && is_on_offer(a, name@) ==> {
                &&& only_layout_changed(a, b, i)
                &&& goes_by(b.outputs@[i].layout, name@)
                &&& effects@ == seq![arranged]
            }
            &&& chosen && !is_on_offer(a, name@) ==> {
                &&& unchanged(a, b)
                &&& effects@ == Seq::<Effect>::empty()
            }
        }),
{
    let a = *old(s);
    let b = *final(s);
    lemma_focused(a, i);
    lemma_view_parts(a, b);
    if a.plugin_layouts@.len() == 0 && call_ensures(
        DinatorState::perform_key_action,
        (s, KeyAction::CycleLayoutForward, size),
        r,
    ) {
        let told = choose|told: String|
            {
                &&& #[trigger] layout_cycled(a@, b@, 1, told@)
                &&& r.0@ == a@.retiles_focused() + seq![
                    Effect::Emit { event: IpcEvent::LayoutChanged { name: told } },
                ]
            };
        lemma_cycled(a, b, 1, told@, i);
    }
    if a.plugin_layouts@.len() == 0 && call_ensures(
        DinatorState::perform_key_action,
        (s, KeyAction::CycleLayoutBackward, size),
        r,
    ) {
        let told = choose|told: String|
            {
                &&& #[trigger] layout_cycled(a@, b@, -1, told@)
                &&& r.0@ == a@.retiles_focused() + seq![
                    Effect::Emit { event: IpcEvent::LayoutChanged { name: told } },
                ]
            };
        lemma_cycled(a, b, -1, told@, i);
    }
    if call_ensures(DinatorState::execute_plugin_action, (s, PluginAction::SetLayout { name }), effects) {
        lemma_chosen(a, b, name@, i);
    }
}

/// The keys for it grow and shrink the master area. The output is arranged anew if anything changed.
pub proof fn lemma_master_is_asked_for(
    s: &mut DinatorState,
    size: Option<(u16, u16)>,
    r: (Vec<Effect>, Request),
    i: int,
)
    requires
        old(s).wf(),
        is_focused(*old(s), i),
    ensures
        ({
            let before = old(s).outputs@[i].layout;
            let after = final(s).outputs@[i].layout;
            let grows = call_ensures(
                DinatorState::perform_key_action,
                (s, KeyAction::MasterGrow, size),
                r,
            );
            let shrinks = call_ensures(
                DinatorState::perform_key_action,
                (s, KeyAction::MasterShrink, size),
                r,
            );
            let changed = r.0@.len() > 0;
            &&& grows || shrinks ==> {
                &&& r.1 is Nothing
                &&& only_layout_changed(*old(s), *final(s), i)
                &&& same_but_ratio(before, after)
                &&& changed ==> r.0@ == seq![Effect::Retile { output: old(s).outputs@[i].name }]
                &&& ratio_units(before) is None ==> !changed
            }
            &&& grows && ratio_units(before) is Some ==> is_step_up(
                ratio_units(before)->0,
                ratio_units(after)->0,
                changed,
            )
            &&& shrinks && ratio_units(before) is Some ==> is_step_down(
                ratio_units(before)->0,
                ratio_units(after)->0,
                changed,
            )
        }),
{
    let a = *old(s);
    let b = *final(s);
    lemma_focused(a, i);
    if call_ensures(DinatorState::perform_key_action, (s, KeyAction::MasterGrow, size), r) {
        lemma_grown(a, b, r.0@.len() > 0, i);
    }
    if call_ensures(DinatorState::perform_key_action, (s, KeyAction::MasterShrink, size), r) {
        lemma_shrunk(a, b, r.0@.len() > 0, i);
    }
}

/// The keys for it start the terminal and the launcher, quit, and call a plugin back. A plugin can start
/// a program and write to the log. None of this changes the state.
pub proof fn lemma_programs_are_asked_for(
    s: &mut DinatorState,
    size: Option<(u16, u16)>,
    r: (Vec<Effect>, Request),
    effects: Vec<Effect>,
    callback: String,
    cmd: String,
    args: Vec<String>,
    message: String,
)
    requires
        old(s).wf(),
    ensures
        call_ensures(DinatorState::perform_key_action, (s, KeyAction::LaunchTerminal, size), r) ==> {
            &&& unchanged(*old(s), *final(s))
            &&& r.1 is Nothing
            &&& r.0@.len() == 1
            &&& r.0@[0] matches Effect::Spawn { cmd: c, args: g } && c@ == "foot"@ && g@.len() == 0
        },
        call_ensures(DinatorState::perform_key_action, (s, KeyAction::LaunchLauncher, size), r) ==> {
            &&& unchanged(*old(s), *final(s))
            &&& r.1 is Nothing
            &&& r.0@.len() == 1
            &&& r.0@[0] matches Effect::Spawn { cmd: c, args: g } && c@ == "fuzzel"@ && g@.len() == 0
        },
        call_ensures(DinatorState::perform_key_action, (s, KeyAction::Quit, size), r) ==> {
            &&& unchanged(*old(s), *final(s))
            &&& r.1 is Quit
            &&& r.0@.len() == 0
        },
        call_ensures(
            DinatorState::perform_key_action,
            (s, KeyAction::PluginCallback(callback), size),
            r,
        ) ==> {
            &&& unchanged(*old(s), *final(s))
            &&& r.1 matches Request::Callback { id } && id == callback
            &&& r.0@.len() == 0
        },
        call_ensures(
            DinatorState::execute_plugin_action,
            (s, PluginAction::Spawn { cmd, args }),
            effects,
        ) ==> unchanged(*old(s), *final(s)) && effects@ == seq![Effect::Spawn { cmd, args }],
        call_ensures(
            DinatorState::execute_plugin_action,
            (s, PluginAction::Log { message }),
            effects,
        ) ==> unchanged(*old(s), *final(s)) && effects@ == seq![Effect::Log { message }],
{
    lemma_view_parts(*old(s), *final(s));
}

/// The keys for it ask for a resolution of more pixels and of fewer, where there is one.
pub proof fn lemma_resolution_is_asked_for(
    s: &mut DinatorState,
    w: u16,
    h: u16,
    r: (Vec<Effect>, Request),
)
    requires
        old(s).wf(),
    ensures
        call_ensures(
            DinatorState::perform_key_action,
            (s, KeyAction::ResolutionUp, Some((w, h))),
            r,
        ) ==> {
            &&& unchanged(*old(s), *final(s))
            &&& r.0@.len() == 0
            &&& r.1 matches Request::Resize { width, height } && (w * h < 3840 * 2160 ==> width * height
                > w * h)
        },
        call_ensures(
            DinatorState::perform_key_action,
            (s, KeyAction::ResolutionDown, Some((w, h))),
            r,
        ) ==> {
            &&& unchanged(*old(s), *final(s))
            &&& r.0@.len() == 0
            &&& r.1 matches Request::Resize { width, height } && (w * h > 1280 * 720 ==> width * height
                < w * h)
        },
{
    lemma_view_parts(*old(s), *final(s));
    let all = crate::input::codes::resolutions();
    assert(all[0] == (1280u16, 720u16));
    assert(all[5] == (3840u16, 2160u16));
    assert(crate::input::codes::area(all[0]) == 921600);
    assert(crate::input::codes::area(all[5]) == 8294400);
}

/// A background that is set is on the focused output, and nothing else changes.
pub proof fn lemma_background_is_set(s: &mut DinatorState, background: Background, i: int)
    requires
        old(s).wf(),
        is_focused(*old(s), i),
        call_ensures(DinatorState::set_background, (s, background), ()),
    ensures
        final(s).outputs@[i].background == background,
        final(s).outputs@[i].layout == old(s).outputs@[i].layout,
        final(s).outputs@[i].name == old(s).outputs@[i].name,
        final(s).outputs@[i].geometry == old(s).outputs@[i].geometry,
        final(s).outputs@[i].active_workspace == old(s).outputs@[i].active_workspace,
        final(s).outputs@.len() == old(s).outputs@.len(),
        forall|j: int|
            0 <= j < old(s).outputs@.len() && j != i ==> #[trigger] final(s).outputs@[j] == old(
                s,
            ).outputs@[j],
        same_windows(*old(s), *final(s)),
        same_lists(*old(s), *final(s)),
        same_memory(*old(s), *final(s)),
        final(s).keyboard_focus == old(s).keyboard_focus,
{
    lemma_focused(*old(s), i);
    lemma_view_parts(*old(s), *final(s));
}

/// What the configuration says of the layout, the gap and the background holds of the focused output
/// afterwards, as far as it can be read.
pub proof fn lemma_configuration_is_applied(
    s: &mut DinatorState,
    config: &Config,
    output: &String,
    effects: Vec<Effect>,
    i: int,
)
    requires
        old(s).wf(),
        is_focused(*old(s), i),
        old(s).outputs@[i].layout !is Plugin,
        call_ensures(DinatorState::apply_config, (s, config, output), effects),
    ensures
        config.layout matches Some(name) ==> (is_on_offer(*old(s), name@) ==> goes_by(
            final(s).outputs@[i].layout,
            name@,
        )),
        config.layout is None ==> forall|name: Seq<char>| #[trigger]
            goes_by(final(s).outputs@[i].layout, name) == goes_by(old(s).outputs@[i].layout, name),
        final(s).outputs@[i].layout !is Plugin ==> gap_of(final(s).outputs@[i].layout)
            == match config.gap {
            Some(gap) => gap,
            None => gap_of(old(s).outputs@[i].layout),
        },
        config.background is None ==> final(s).outputs@[i].background
            == old(s).outputs@[i].background,
        config.background matches Some(text) ==> (backdrop_of(text@) matches Some(b)
            ==> final(s).outputs@[i].background@ == b),
        config.background matches Some(text) ==> (backdrop_of(text@) is None
            ==> final(s).outputs@[i].background == old(s).outputs@[i].background),
        config.gap is None && config.layout is None ==> effects@.len() == 0,
        forall|k: int|
            0 <= k < effects@.len() ==> #[trigger] effects@[k] == (Effect::Retile { output: *output }),
        config.gap is Some ==> effects@.len() >= 1,
        config.layout matches Some(name) ==> (is_on_offer(*old(s), name@) ==> effects@.len() >= 1),
{
    let a = *old(s);
    let b = *final(s);
    lemma_focused(a, i);
    lemma_view_parts(a, b);
    let (first, second) = choose|first: Model, second: Model|
        {
            &&& #[trigger] background_configured(a@, first, config.background)
            &&& #[trigger] gap_configured(first, second, config.gap)
            &&& crate::compositor::actions::layout_configured(second, b@, config.layout)
        };
    lemma_same_names(a@.outputs, first.outputs);
    assert(first.focused_index() == Some(i));
    assert(first.outputs[i].layout == a.outputs@[i].layout);
    assert(first.plugin_layouts == a.plugin_layouts@);
    lemma_same_names(first.outputs, second.outputs);
    assert(second.focused_index() == Some(i));
    assert(second.plugin_layouts == a.plugin_layouts@);
    assert(second.outputs[i].background == first.outputs[i].background);
    crate::compositor::choosing::lemma_chosen_in(a, second, b@, config.layout, i);
}

/// A client that comes counts as one more of its kind, and one that goes as one less; the other kind
/// stays. Subscribers hear of it.
pub proof fn lemma_clients_are_counted(s: &mut DinatorState, protocol: Protocol, effects: Vec<Effect>)
    requires
        old(s).wf(),
    ensures
        ({
            let comes = call_ensures(DinatorState::client_connected, (s, protocol), effects);
            let goes = call_ensures(DinatorState::client_disconnected, (s, protocol), effects);
            &&& comes || goes ==> {
                &&& protocol is Rdp ==> final(s).vnc_clients == old(s).vnc_clients
                &&& protocol is Vnc ==> final(s).rdp_clients == old(s).rdp_clients
                &&& same_windows(*old(s), *final(s))
                &&& same_outputs(*old(s), *final(s))
                &&& same_lists(*old(s), *final(s))
                &&& same_memory(*old(s), *final(s))
                &&& final(s).keyboard_focus == old(s).keyboard_focus
            }
            &&& comes && protocol is Rdp && old(s).rdp_clients < u32::MAX ==> final(s).rdp_clients
                == old(s).rdp_clients + 1
            &&& comes && protocol is Vnc && old(s).vnc_clients < u32::MAX ==> final(s).vnc_clients
                == old(s).vnc_clients + 1
            &&& goes && protocol is Rdp && old(s).rdp_clients > 0 ==> final(s).rdp_clients
                == old(s).rdp_clients - 1
            &&& goes && protocol is Vnc && old(s).vnc_clients > 0 ==> final(s).vnc_clients
                == old(s).vnc_clients - 1
            &&& comes ==> effects@ == seq![
                Effect::Emit { event: IpcEvent::ClientConnected { protocol } },
            ]
            &&& goes ==> effects@ == seq![
                Effect::Emit { event: IpcEvent::ClientDisconnected { protocol } },
            ]
        }),
{
    lemma_view_parts(*old(s), *final(s));
}

} // verus!
