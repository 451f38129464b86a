//! What the commands of the control program do, and what it is answered.

use crate::background::backdrop_of;
use crate::compositor::actions::Request;
use crate::compositor::arranging::{exists_in, shown_on};
use crate::compositor::choosing::{
    gap_of, goes_by, is_on_offer, lemma_chosen, lemma_grown, lemma_name_found, lemma_shrunk,
    only_layout_changed, ratio_units, same_but_ratio,
};
use crate::compositor::event::{Effect, IpcEvent};
use crate::compositor::layout::ActiveLayout;
use crate::compositor::layouts::{gap_set, name_index, views};
use crate::compositor::moving::{
    float_was_toggled, focus_went_to, fullscreen_was_toggled, is_focused, lemma_float_was_toggled,
    lemma_focus_went, lemma_focused, lemma_fullscreen_was_toggled, lemma_swapped_with_first,
    lemma_switched_to, lemma_view_parts, lemma_went_to_workspace, next_place, previous_place,
    remembered, swapped_with_first, switched_to, takes_focus, unchanged, went_to_workspace,
};
use crate::compositor::neighbours::{focus_is_on, nameless};
use crate::compositor::seen::{is_first_seen, SeenWindow};
use crate::compositor::state::{
    has_output, index_of, is_fresh_output, lemma_index_of, named, DinatorState, OutputState,
};
use crate::ipc::command::IpcCommand;
use crate::ipc::handle::{
    client_step, new_geometry, right_edge, spawn_answer, Answer, ClientStep, Handled, IpcData,
    IpcResponse,
};
use crate::ipc::parse::{parse_command, parse_resolution, plain_command, resolution, CommandError};
use crate::text::{
    decimal, is_space, lemma_decimal_digits, lemma_decimal_reads_back, split_on, trimmed,
};
use crate::tiling::WindowId;
use crate::tiling::laws::{is_step_down, is_step_up};
use vstd::prelude::*;

verus! {

broadcast use vstd::std_specs::hash::group_hash_axioms;

/// The command is done without more to ask for.
pub open spec fn is_quiet(r: Handled) -> bool {
    r.request is Nothing
}

/// The command was refused.
pub open spec fn is_refused(r: Handled) -> bool {
    r.answer matches Answer::Now(response) && response is Error
}

/// The command was agreed to.
pub open spec fn is_agreed(r: Handled) -> bool {
    r.answer matches Answer::Now(response) && response is Success
}

/// The commands for it move the focus on and back.
pub proof fn lemma_commands_move_the_focus(
    s: &mut DinatorState,
    command: &IpcCommand,
    seen: &[SeenWindow],
    mapped: usize,
    r: Handled,
    i: int,
    p: int,
)
    requires
        old(s).wf(),
        call_ensures(DinatorState::handle_ipc_command, (s, command, seen, mapped), r),
        is_focused(*old(s), i),
        old(s).outputs@[i].layout !is Plugin,
        shown_on(*old(s), i).len() >= 2,
        shown_on(*old(s), i).no_duplicates(),
        forall|k: int|
            0 <= k < shown_on(*old(s), i).len() ==> takes_focus(
                *old(s),
                #[trigger] shown_on(*old(s), i)[k],
            ),
        0 <= p < shown_on(*old(s), i).len(),
        old(s).keyboard_focus == Some(shown_on(*old(s), i)[p]),
    ensures
        ({
            let n = shown_on(*old(s), i).len() as int;
            &&& *command == IpcCommand::FocusNext ==> is_quiet(r) && is_agreed(r) && focus_went_to(
                *old(s),
                *final(s),
                r.effects@,
                i,
                next_place(p, n),
            )
            &&& *command == IpcCommand::FocusPrev ==> is_quiet(r) && is_agreed(r) && focus_went_to(
                *old(s),
                *final(s),
                r.effects@,
                i,
                previous_place(p, n),
            )
            &&& *command == IpcCommand::SwapMaster ==> is_quiet(r) && is_agreed(r) && swapped_with_first(
                *old(s),
                *final(s),
                r.effects@,
                i,
                p,
            )
        }),
{
    assert(takes_focus(*old(s), shown_on(*old(s), i)[p]));
    if *command == IpcCommand::FocusNext {
        lemma_focus_went(*old(s), *final(s), r.effects@, i, p, 1);
    }
    if *command == IpcCommand::FocusPrev {
        lemma_focus_went(*old(s), *final(s), r.effects@, i, p, -1);
    }
    if *command == IpcCommand::SwapMaster {
        lemma_swapped_with_first(*old(s), *final(s), r.effects@, i, p);
    }
}

/// The commands for it make the focused window float or fullscreen, or undo it, and ask it to close.
pub proof fn lemma_commands_change_the_window(
    s: &mut DinatorState,
    command: &IpcCommand,
    seen: &[SeenWindow],
    mapped: usize,
    r: Handled,
    i: int,
    w: WindowId,
)
    requires
        old(s).wf(),
        call_ensures(DinatorState::handle_ipc_command, (s, command, seen, mapped), r),
        is_focused(*old(s), i),
        old(s).keyboard_focus == Some(w),
        exists_in(*old(s), w),
    ensures
        *command == IpcCommand::ToggleFloat ==> is_quiet(r) && is_agreed(r) && float_was_toggled(*old(s), *final(s), r.effects@, i, w),
        *command == IpcCommand::ToggleFullscreen ==> is_quiet(r) && is_agreed(r) && fullscreen_was_toggled(
            *old(s),
            *final(s),
            r.effects@,
            i,
            w,
        ),
        *command == IpcCommand::Close ==> {
            &&& is_quiet(r) && is_agreed(r)
            &&& unchanged(*old(s), *final(s))
            &&& r.effects@ == seq![Effect::Close { id: w }]
        },
{
    lemma_view_parts(*old(s), *final(s));
    if *command == IpcCommand::ToggleFloat {
        lemma_float_was_toggled(*old(s), *final(s), r.effects@, i, w);
    }
    if *command == IpcCommand::ToggleFullscreen {
        lemma_fullscreen_was_toggled(*old(s), *final(s), r.effects@, i, w);
    }
}

/// The commands for it switch to a workspace of 1 to 9 and move the focused window there; another number
/// is refused, and nothing changes then.
pub proof fn lemma_commands_change_the_workspace(
    s: &mut DinatorState,
    command: &IpcCommand,
    seen: &[SeenWindow],
    mapped: usize,
    r: Handled,
    i: int,
    p: int,
    workspace: usize,
)
    requires
        old(s).wf(),
        call_ensures(DinatorState::handle_ipc_command, (s, command, seen, mapped), r),
        is_focused(*old(s), i),
        workspace != old(s).outputs@[i].active_workspace,
        shown_on(*old(s), i).no_duplicates(),
        forall|k: int|
            0 <= k < shown_on(*old(s), i).len() ==> takes_focus(
                *old(s),
                #[trigger] shown_on(*old(s), i)[k],
            ),
        0 <= p < shown_on(*old(s), i).len(),
        old(s).keyboard_focus == Some(shown_on(*old(s), i)[p]),
        remembered(*old(s), workspace) matches Some(w) ==> takes_focus(*old(s), w),
    ensures
        ({
            let switches = *command == (IpcCommand::SwitchWorkspace { workspace });
            let moves = *command == (IpcCommand::MoveToWorkspace { workspace });
            let known = 1 <= workspace <= 9;
            &&& (switches || moves) ==> is_quiet(r)
            &&& known && switches ==> is_agreed(r) && switched_to(
                *old(s),
                *final(s),
                r.effects@,
                i,
                workspace,
            )
            &&& known && moves ==> is_agreed(r) && went_to_workspace(
                *old(s),
                *final(s),
                r.effects@,
                i,
                p,
                workspace,
            )
            &&& !known && (switches || moves) ==> {
                &&& is_refused(r)
                &&& unchanged(*old(s), *final(s))
                &&& r.effects@.len() == 0
            }
        }),
{
    let a = *old(s);
    let b = *final(s);
    lemma_focused(a, i);
    lemma_view_parts(a, b);
    assert forall|k: int| 0 <= k < shown_on(a, i).len() implies exists_in(
        a,
        #[trigger] shown_on(a, i)[k],
    ) by {
        assert(takes_focus(a, shown_on(a, i)[k]));
    }
    if 1 <= workspace <= 9 {
        if *command == (IpcCommand::SwitchWorkspace { workspace }) {
            lemma_switched_to(a, b, r.effects@, i, workspace);
        }
        if *command == (IpcCommand::MoveToWorkspace { workspace }) {
            lemma_went_to_workspace(a, b, r.effects@, i, p, workspace);
        }
    }
}

/// The commands for it choose a layout, set its gap, and grow and shrink its master area.
pub proof fn lemma_commands_change_the_layout(
    s: &mut DinatorState,
    command: &IpcCommand,
    name: String,
    pixels: i32,
    seen: &[SeenWindow],
    mapped: usize,
    r: Handled,
    i: int,
)
    requires
        old(s).wf(),
        call_ensures(DinatorState::handle_ipc_command, (s, command, seen, mapped), r),
        is_focused(*old(s), i),
        old(s).outputs@[i].layout !is Plugin,
    ensures
        ({
            let a = *old(s);
            let b = *final(s);
            let before = a.outputs@[i].layout;
            let after = b.outputs@[i].layout;
            let arranged = Effect::Retile { output: a.outputs@[i].name };
            let chooses = *command == (IpcCommand::SetLayout { name });
            let gaps = *command == (IpcCommand::SetGap { pixels });
            let grows = *command == IpcCommand::MasterGrow;
            let shrinks = *command == IpcCommand::MasterShrink;
            &&& chooses && is_on_offer(a, name@) ==> {
                &&& is_quiet(r) && is_agreed(r)
                &&& only_layout_changed(a, b, i)
                &&& goes_by(after, name@)
                &&& r.effects@ == seq![
                    arranged,
                    Effect::Emit { event: IpcEvent::LayoutChanged { name } },
                ]
            }
            &&& chooses && !is_on_offer(a, name@) ==> {
                &&& is_quiet(r) && is_refused(r)
                &&& unchanged(a, b)
                &&& r.effects@.len() == 0
            }
            &&& gaps ==> {
                &&& is_quiet(r) && is_agreed(r)
                &&& only_layout_changed(a, b, i)
                &&& gap_of(after) == pixels
                &&& ratio_units(after) == ratio_units(before)
                &&& gap_of(before) != pixels ==> r.effects@ == seq![arranged]
                &&& gap_of(before) == pixels ==> r.effects@.len() == 0
            }
            &&& grows || shrinks ==> {
                &&& is_quiet(r)
                &&& only_layout_changed(a, b, i)
                &&& same_but_ratio(before, after)
                &&& r.answer is Percent ==> r.effects@ == seq![arranged]
                &&& r.answer is Percent ==> r.answer == Answer::Percent(after.ratio()->0)
                &&& r.answer !is Percent ==> is_agreed(r) && r.effects@.len() == 0
            }
            &&& grows && ratio_units(before) is Some ==> is_step_up(
                ratio_units(before)->0,
                ratio_units(after)->0,
                r.answer is Percent,
            )
            &&& shrinks && ratio_units(before) is Some ==> is_step_down(
                ratio_units(before)->0,
                ratio_units(after)->0,
                r.answer is Percent,
            )
        }),
{
    let a = *old(s);
    let b = *final(s);
    lemma_focused(a, i);
    lemma_view_parts(a, b);
    if *command == (IpcCommand::SetLayout { name }) {
        lemma_chosen(a, b, name@, i);
        if is_on_offer(a, name@) {
            assert(r.effects@ =~= seq![
                Effect::Retile { output: a.outputs@[i].name },
                Effect::Emit { event: IpcEvent::LayoutChanged { name } },
            ]);
        }
    }
    if *command == (IpcCommand::SetGap { pixels }) {
        let changed = choose|changed: bool|
            {
                &&& #[trigger] gap_set(a@, b@, pixels, changed)
                &&& r.effects@ == (if changed {
                    a@.retiles_focused()
                } else {
                    Seq::empty()
                })
            };
        assert(b.outputs@[i].layout == a.outputs@[i].layout.with_gap(pixels));
    }
    if *command == IpcCommand::MasterGrow {
        lemma_grown(a, b, r.answer is Percent, i);
    }
    if *command == IpcCommand::MasterShrink {
        lemma_shrunk(a, b, r.answer is Percent, i);
    }
}

/// A background that can be read is on the focused output; another one is refused and changes nothing.
pub proof fn lemma_command_changes_the_background(
    s: &mut DinatorState,
    command: &IpcCommand,
    text: String,
    seen: &[SeenWindow],
    mapped: usize,
    r: Handled,
    i: int,
)
    requires
        old(s).wf(),
        call_ensures(DinatorState::handle_ipc_command, (s, command, seen, mapped), r),
        is_focused(*old(s), i),
        *command == (IpcCommand::SetBackground { spec: text }),
    ensures
        is_quiet(r),
        r.effects@.len() == 0,
        backdrop_of(text@) matches Some(b) ==> r.answer is Background
            && final(s).outputs@[i].background@ == b && final(s).outputs@[i].layout
            == old(s).outputs@[i].layout,
        backdrop_of(text@) is None ==> is_refused(r) && unchanged(*old(s), *final(s)),
{
    lemma_focused(*old(s), i);
    lemma_view_parts(*old(s), *final(s));
}

/// A new output comes to the right of all others, at the top, in the size that was asked for. A name that
/// is taken is refused.
pub proof fn lemma_command_creates_an_output(
    s: &mut DinatorState,
    command: &IpcCommand,
    name: String,
    width: u16,
    height: u16,
    seen: &[SeenWindow],
    mapped: usize,
    r: Handled,
)
    requires
        old(s).wf(),
        call_ensures(DinatorState::handle_ipc_command, (s, command, seen, mapped), r),
        right_edge(old(s).outputs@) + width <= i32::MAX,
        old(s).outputs@.len() > 0,
        *command == (IpcCommand::CreateOutput { name, width, height }),
    ensures
        is_quiet(r),
        !nameless(*old(s), name@) ==> is_refused(r) && unchanged(*old(s), *final(s)) && r.effects@.len()
            == 0,
        nameless(*old(s), name@) ==> {
            let n = old(s).outputs@.len() as int;
            let g = final(s).outputs@[n].geometry;
            &&& is_agreed(r)
            &&& final(s).outputs@.len() == n + 1
            &&& forall|j: int| 0 <= j < n ==> #[trigger] final(s).outputs@[j] == old(s).outputs@[j]
            &&& final(s).outputs@[n].name@ == name@
            &&& g.width == width && g.height == height && g.y == 0
            &&& forall|j: int|
                0 <= j < n ==> (#[trigger] old(s).outputs@[j]).geometry.x + old(
                    s,
                ).outputs@[j].geometry.width <= g.x
            &&& exists|j: int|
                0 <= j < n && (#[trigger] old(s).outputs@[j]).geometry.x + old(
                    s,
                ).outputs@[j].geometry.width == g.x
            &&& r.effects@ == seq![
                Effect::Emit { event: IpcEvent::OutputCreated { name, width, height } },
            ]
        },
{
    let a = *old(s);
    let b = *final(s);
    lemma_view_parts(a, b);
    lemma_right_edge(a.outputs@);
    if has_output(a.outputs@, name@) {
        let k = index_of(a.outputs@, name@);
        assert(named(a.outputs@, name@, k));
        assert(a.outputs@[k].name@ == name@);
    } else {
        assert forall|j: int| 0 <= j < a.outputs@.len() implies (#[trigger] a.outputs@[j]).name@
            != name@ by {
            assert(!named(a.outputs@, name@, j));
        }
        let g = new_geometry(a.outputs@, width, height);
        let fresh = choose|fresh: OutputState|
            {
                &&& #[trigger] is_fresh_output(fresh, name, g)
                &&& b.outputs@ == a.outputs@.push(fresh)
            };
        assert(b.outputs@[a.outputs@.len() as int] == fresh);
        let j = choose|j: int|
            0 <= j < a.outputs@.len() && (#[trigger] a.outputs@[j]).geometry.x
                + a.outputs@[j].geometry.width == right_edge(a.outputs@);
        assert(crate::compositor::state::geometry_ok(a.outputs@[j].geometry));
        assert(a.outputs@[j].geometry.x + a.outputs@[j].geometry.width == g.x);
    }
}

pub(crate) proof fn lemma_right_edge(outputs: Seq<OutputState>)
    requires
        outputs.len() > 0,
    ensures
        forall|j: int|
            0 <= j < outputs.len() ==> (#[trigger] outputs[j]).geometry.x + outputs[j].geometry.width
                <= right_edge(outputs),
        exists|j: int|
            0 <= j < outputs.len() && (#[trigger] outputs[j]).geometry.x + outputs[j].geometry.width
                == right_edge(outputs),
    decreases outputs.len(),
{
    let front = outputs.drop_last();
    let last = outputs.len() - 1;
    assert(forall|j: int| 0 <= j < front.len() ==> #[trigger] front[j] == outputs[j]);
    if front.len() > 0 {
        lemma_right_edge(front);
        let k = choose|k: int|
            0 <= k < front.len() && (#[trigger] front[k]).geometry.x + front[k].geometry.width
                == right_edge(front);
        let edge = outputs[last].geometry.x + outputs[last].geometry.width;
        let at = if right_edge(front) > edge {
            k
        } else {
            last
        };
        assert(outputs[at].geometry.x + outputs[at].geometry.width == right_edge(outputs));
        assert forall|j: int| 0 <= j < outputs.len() implies (#[trigger] outputs[j]).geometry.x
            + outputs[j].geometry.width <= right_edge(outputs) by {
            if j < front.len() {
                assert(front[j] == outputs[j]);
            }
        }
    } else {
        assert(outputs[0].geometry.x + outputs[0].geometry.width == right_edge(outputs));
    }
}

/// An output is removed by its name, and focused by its name. The last output stays, and an unknown name
/// is refused; nothing changes then.
pub proof fn lemma_commands_name_an_output(
    s: &mut DinatorState,
    command: &IpcCommand,
    name: String,
    seen: &[SeenWindow],
    mapped: usize,
    r: Handled,
    t: int,
)
    requires
        old(s).wf(),
        call_ensures(DinatorState::handle_ipc_command, (s, command, seen, mapped), r),
        0 <= t < old(s).outputs@.len(),
        shown_on(*old(s), t).len() > 0 ==> takes_focus(*old(s), shown_on(*old(s), t)[0]),
    ensures
        ({
            let a = *old(s);
            let b = *final(s);
            let removes = *command == (IpcCommand::RemoveOutput { name });
            let focuses = *command == (IpcCommand::FocusOutput { name });
            &&& removes || focuses ==> is_quiet(r)
            &&& nameless(a, name@) && (removes || focuses) ==> is_refused(r) && unchanged(a, b)
                && r.effects@.len() == 0
            &&& removes && a.outputs@.len() == 1 ==> is_refused(r) && unchanged(a, b)
                && r.effects@.len() == 0
            &&& removes && a.outputs@.len() > 1 && a.outputs@[t].name@ == name@ ==> {
                &&& is_agreed(r)
                &&& b.outputs@ == a.outputs@.remove(t)
                &&& r.effects@.len() > 0
                &&& r.effects@.last() == (Effect::Emit { event: IpcEvent::OutputRemoved { name } })
            }
            &&& focuses && a.outputs@[t].name@ == name@ ==> {
                &&& is_agreed(r)
                &&& focus_is_on(a, b, t)
                &&& r.effects@.len() > 0
                &&& r.effects@.last() == (Effect::Emit { event: IpcEvent::OutputFocused { name } })
            }
        }),
{
    let a = *old(s);
    let b = *final(s);
    lemma_view_parts(a, b);
    if has_output(a.outputs@, name@) {
        let i = index_of(a.outputs@, name@);
        assert(named(a.outputs@, name@, i));
        assert(a.outputs@[i].name@ == name@);
    }
    if a.outputs@[t].name@ == name@ {
        lemma_index_of(a.outputs@, name@, t);
    }
}

/// A resolution and the end of the compositor are passed on as they were asked for, and nothing changes
/// before. A program is started as it was told.
pub proof fn lemma_commands_are_passed_on(
    s: &mut DinatorState,
    command: &IpcCommand,
    width: u16,
    height: u16,
    cmd: String,
    args: Vec<String>,
    seen: &[SeenWindow],
    mapped: usize,
    r: Handled,
)
    requires
        old(s).wf(),
        call_ensures(DinatorState::handle_ipc_command, (s, command, seen, mapped), r),
    ensures
        *command == (IpcCommand::Resize { width, height }) ==> {
            &&& r.request matches Request::Resize { width: w, height: h } && w == width && h == height
            &&& is_agreed(r) && unchanged(*old(s), *final(s)) && r.effects@.len() == 0
        },
        *command == IpcCommand::Quit ==> {
            &&& r.request is Quit
            &&& is_agreed(r) && unchanged(*old(s), *final(s)) && r.effects@.len() == 0
        },
        *command == (IpcCommand::Spawn { cmd, args }) ==> {
            &&& is_quiet(r) && unchanged(*old(s), *final(s)) && r.effects@.len() == 0
            &&& r.answer matches Answer::AfterSpawn { cmd: c, args: a } && c == cmd && a@ == args@
        },
        *command == IpcCommand::ListPlugins
            ==> r.answer is Plugins && is_quiet(r) && unchanged(*old(s), *final(s)),
        *command == IpcCommand::ReloadPlugins ==> r.answer is AfterReload && is_quiet(r) && unchanged(*old(s), *final(s)),
{
    lemma_view_parts(*old(s), *final(s));
}

/// The list of windows tells of each window of the focused workspace, in order, how it is shown and what
/// it is called.
pub proof fn lemma_windows_are_listed(
    s: &mut DinatorState,
    command: &IpcCommand,
    seen: &[SeenWindow],
    mapped: usize,
    r: Handled,
    i: int,
)
    requires
        old(s).wf(),
        call_ensures(DinatorState::handle_ipc_command, (s, command, seen, mapped), r),
        is_focused(*old(s), i),
        *command == IpcCommand::ListWindows,
    ensures
        is_quiet(r) && unchanged(*old(s), *final(s)) && r.effects@.len() == 0,
        r.answer matches Answer::Now(IpcResponse::Data { data: IpcData::Windows(rows) }) && {
            let order = shown_on(*old(s), i);
            &&& rows@.len() == order.len()
            &&& forall|k: int|
                0 <= k < order.len() ==> {
                    &&& (#[trigger] rows@[k]).index == k
                    &&& rows@[k].id == order[k].0
                    &&& rows@[k].floating == old(s).floating@.contains(order[k].0)
                    &&& rows@[k].fullscreen == old(s).fullscreen@.contains(order[k].0)
                    &&& exists_in(*old(s), order[k]) && old(s).windows@[order[k].0].workspace is Some
                        ==> rows@[k].workspace == old(s).windows@[order[k].0].workspace->0
                }
            &&& forall|k: int, j: int|
                0 <= k < order.len() && exists_in(*old(s), order[k]) && is_first_seen(
                    seen@,
                    order[k].0,
                    j,
                ) ==> {
                    &&& (#[trigger] rows@[k]).title == (#[trigger] seen@[j]).title
                    &&& rows@[k].app_id == seen@[j].app_id
                    &&& rows@[k].geometry == seen@[j].geometry
                }
        },
{
    let a = *old(s);
    lemma_focused(a, i);
    lemma_view_parts(a, *final(s));
    match r.answer {
        Answer::Now(IpcResponse::Data { data: IpcData::Windows(rows) }) => {
            let order = shown_on(a, i);
            assert forall|k: int| 0 <= k < order.len() implies crate::ipc::handle::is_window_row(
                a@,
                seen@,
                k,
                #[trigger] rows@[k],
            ) by {}
            assert forall|k: int, j: int|
                0 <= k < order.len() && exists_in(a, order[k]) && is_first_seen(
                    seen@,
                    order[k].0,
                    j,
                ) implies {
                &&& (#[trigger] rows@[k]).title == (#[trigger] seen@[j]).title
                &&& rows@[k].app_id == seen@[j].app_id
                &&& rows@[k].geometry == seen@[j].geometry
            } by {
                assert(crate::ipc::handle::is_window_row(a@, seen@, k, rows@[k]));
                assert(seen@[j].id == order[k].0);
                let m = choose|m: int|
                    {
                        &&& #[trigger] is_first_seen(seen@, order[k].0, m)
                        &&& rows@[k].geometry == seen@[m].geometry
                        &&& rows@[k].app_id == seen@[m].app_id
                        &&& rows@[k].title == seen@[m].title
                    };
                if m < j {
                    assert(seen@[m].id != order[k].0);
                }
                if j < m {
                    assert(seen@[j].id != order[k].0);
                }
            }
        },
        _ => {},
    }
}

/// The list of workspaces tells of each of the nine how many windows it has, and which one is in focus.
/// The list of outputs tells of each where it lies, what it shows and how, and which one has the focus.
/// The state is told in numbers.
pub proof fn lemma_state_is_listed(
    s: &mut DinatorState,
    command: &IpcCommand,
    seen: &[SeenWindow],
    mapped: usize,
    r: Handled,
    i: int,
)
    requires
        old(s).wf(),
        call_ensures(DinatorState::handle_ipc_command, (s, command, seen, mapped), r),
        is_focused(*old(s), i),
    ensures
        *command == IpcCommand::ListWorkspaces ==> {
            &&& is_quiet(r) && unchanged(*old(s), *final(s)) && r.effects@.len() == 0
            &&& r.answer matches Answer::Now(IpcResponse::Data { data: IpcData::Workspaces(rows) }) && {
                &&& rows@.len() == 9
                &&& forall|k: int|
                    0 <= k < 9 ==> {
                        &&& (#[trigger] rows@[k]).workspace == k + 1
                        &&& rows@[k].windows == old(s).workspaces.order((k + 1) as usize).len()
                        &&& rows@[k].active <==> k + 1 == old(s).outputs@[i].active_workspace
                    }
            }
        },
        *command == IpcCommand::ListOutputs
            ==> {
            &&& is_quiet(r) && unchanged(*old(s), *final(s)) && r.effects@.len() == 0
            &&& r.answer matches Answer::Now(IpcResponse::Data { data: IpcData::Outputs(rows) }) && {
                &&& rows@.len() == old(s).outputs@.len()
                &&& forall|k: int|
                    0 <= k < rows@.len() ==> {
                        &&& (#[trigger] rows@[k]).name == old(s).outputs@[k].name
                        &&& rows@[k].geometry == old(s).outputs@[k].geometry
                        &&& rows@[k].workspace == old(s).outputs@[k].active_workspace
                        &&& goes_by(old(s).outputs@[k].layout, rows@[k].layout@)
                        &&& rows@[k].focused <==> k == i
                    }
            }
        },
        *command == IpcCommand::Status ==> {
            &&& is_quiet(r) && unchanged(*old(s), *final(s)) && r.effects@.len() == 0
            &&& r.answer matches Answer::Now(IpcResponse::Data { data: IpcData::Status(t) }) && {
                &&& t.rdp_clients == old(s).rdp_clients
                &&& t.vnc_clients == old(s).vnc_clients
                &&& t.windows == mapped
                &&& t.outputs == old(s).outputs@.len()
                &&& t.focused_output@ == old(s).outputs@[i].name@
                &&& t.focused_workspace == old(s).outputs@[i].active_workspace
            }
        },
{
    let a = *old(s);
    lemma_focused(a, i);
    lemma_view_parts(a, *final(s));
    match r.answer {
        Answer::Now(IpcResponse::Data { data: IpcData::Workspaces(rows) }) => {
            assert forall|k: int| 0 <= k < 9 implies a@.order((k + 1) as usize)
                == #[trigger] a.workspaces.order((k + 1) as usize) by {}
        },
        Answer::Now(IpcResponse::Data { data: IpcData::Outputs(rows) }) => {
            assert forall|k: int| 0 <= k < a.outputs@.len() implies ((#[trigger] a.outputs@[k]).name@
                == a.outputs@[i].name@ <==> k == i) by {
                if k < i {
                    assert(a.outputs@[k].name@ != a.outputs@[i].name@);
                }
                if i < k {
                    assert(a.outputs@[i].name@ != a.outputs@[k].name@);
                }
            }
        },
        _ => {},
    }
}

proof fn lemma_split_digits(s: Seq<char>)
    requires
        forall|k: int| 0 <= k < s.len() ==> #[trigger] s[k] != 'x',
    ensures
        split_on(s, 'x') == seq![s],
    decreases s.len(),
{
    if s.len() > 0 {
        let front = s.drop_last();
        assert(forall|k: int| 0 <= k < front.len() ==> #[trigger] front[k] == s[k]);
        lemma_split_digits(front);
        assert(s[s.len() - 1] != 'x');
        assert(front.push(s.last()) =~= s);
        assert(split_on(s, 'x') =~= seq![s]);
    } else {
        assert(s =~= Seq::<char>::empty());
        assert(split_on(s, 'x') =~= seq![s]);
    }
}

proof fn lemma_split_pair(a: Seq<char>, b: Seq<char>)
    requires
        forall|k: int| 0 <= k < a.len() ==> #[trigger] a[k] != 'x',
        forall|k: int| 0 <= k < b.len() ==> #[trigger] b[k] != 'x',
    ensures
        split_on(a + seq!['x'] + b, 'x') == seq![a, b],
    decreases b.len(),
{
    let s = a + seq!['x'] + b;
    if b.len() > 0 {
        let front = b.drop_last();
        assert(forall|k: int| 0 <= k < front.len() ==> #[trigger] front[k] == b[k]);
        lemma_split_pair(a, front);
        assert(s.drop_last() =~= a + seq!['x'] + front);
        assert(b[b.len() - 1] != 'x');
        assert(front.push(b.last()) =~= b);
        assert(split_on(s, 'x') =~= seq![a, b]);
    } else {
        lemma_split_digits(a);
        assert(s.drop_last() =~= a);
        assert(s.last() == 'x');
        assert(b =~= Seq::<char>::empty());
        assert(split_on(s, 'x') =~= seq![a, b]);
    }
}

pub(crate) proof fn lemma_resolution(width: u16, height: u16)
    ensures
        resolution(decimal(width as nat) + seq!['x'] + decimal(height as nat)) == Ok::<
            (u16, u16),
            CommandError,
        >((width, height)),
{
    let a = decimal(width as nat);
    let b = decimal(height as nat);
    lemma_decimal_digits(width as nat);
    lemma_decimal_digits(height as nat);
    assert forall|k: int| 0 <= k < a.len() implies #[trigger] a[k] != 'x' by {
        assert(crate::text::is_digit(a[k]));
    }
    assert forall|k: int| 0 <= k < b.len() implies #[trigger] b[k] != 'x' by {
        assert(crate::text::is_digit(b[k]));
    }
    lemma_split_pair(a, b);
    lemma_decimal_reads_back(width as nat, u16::MAX as nat);
    lemma_decimal_reads_back(height as nat, u16::MAX as nat);
}

/// A resolution is read as its width and its height, in this order.
pub proof fn lemma_resolutions_are_read(
    text: &str,
    width: u16,
    height: u16,
    r: Result<(u16, u16), CommandError>,
)
    requires
        text@ == decimal(width as nat) + seq!['x'] + decimal(height as nat),
        call_ensures(parse_resolution, (text,), r),
    ensures
        r == Ok::<(u16, u16), CommandError>((width, height)),
{
    lemma_resolution(width, height);
}

/// The words of the command line are told apart by what they are written like.
proof fn lemma_words()
    ensures
        plain_command("resize"@) is None,
        plain_command("layout"@) is None,
        plain_command("set-layout"@) is None,
        plain_command("set_layout"@) is None,
        plain_command("workspace"@) is None,
        plain_command("switch-workspace"@) is None,
        plain_command("switch_workspace"@) is None,
        plain_command("move-to-workspace"@) is None,
        plain_command("move_to_workspace"@) is None,
        plain_command("move-workspace"@) is None,
        plain_command("gap"@) is None,
        plain_command("set-gap"@) is None,
        plain_command("set_gap"@) is None,
        plain_command("background"@) is None,
        plain_command("set-background"@) is None,
        plain_command("set_background"@) is None,
        plain_command("bg"@) is None,
        plain_command("output"@) is None,
        plain_command("spawn"@) is None,
        plain_command("focus-next"@) == Some(IpcCommand::FocusNext),
        "focus-next"@ != "spawn"@,
        plain_command("focus_next"@) == Some(IpcCommand::FocusNext),
        "focus_next"@ != "spawn"@,
        plain_command("focus-prev"@) == Some(IpcCommand::FocusPrev),
        "focus-prev"@ != "spawn"@,
        plain_command("focus_prev"@) == Some(IpcCommand::FocusPrev),
        "focus_prev"@ != "spawn"@,
        plain_command("close"@) == Some(IpcCommand::Close),
        "close"@ != "spawn"@,
        plain_command("swap-master"@) == Some(IpcCommand::SwapMaster),
        "swap-master"@ != "spawn"@,
        plain_command("swap_master"@) == Some(IpcCommand::SwapMaster),
        "swap_master"@ != "spawn"@,
        plain_command("quit"@) == Some(IpcCommand::Quit),
        "quit"@ != "spawn"@,
        plain_command("list-windows"@) == Some(IpcCommand::ListWindows),
        "list-windows"@ != "spawn"@,
        plain_command("list_windows"@) == Some(IpcCommand::ListWindows),
        "list_windows"@ != "spawn"@,
        plain_command("windows"@) == Some(IpcCommand::ListWindows),
        "windows"@ != "spawn"@,
        plain_command("master-grow"@) == Some(IpcCommand::MasterGrow),
        "master-grow"@ != "spawn"@,
        plain_command("master_grow"@) == Some(IpcCommand::MasterGrow),
        "master_grow"@ != "spawn"@,
        plain_command("master-shrink"@) == Some(IpcCommand::MasterShrink),
        "master-shrink"@ != "spawn"@,
        plain_command("master_shrink"@) == Some(IpcCommand::MasterShrink),
        "master_shrink"@ != "spawn"@,
        plain_command("toggle-float"@) == Some(IpcCommand::ToggleFloat),
        "toggle-float"@ != "spawn"@,
        plain_command("toggle_float"@) == Some(IpcCommand::ToggleFloat),
        "toggle_float"@ != "spawn"@,
        plain_command("float"@) == Some(IpcCommand::ToggleFloat),
        "float"@ != "spawn"@,
        plain_command("toggle-fullscreen"@) == Some(IpcCommand::ToggleFullscreen),
        "toggle-fullscreen"@ != "spawn"@,
        plain_command("toggle_fullscreen"@) == Some(IpcCommand::ToggleFullscreen),
        "toggle_fullscreen"@ != "spawn"@,
        plain_command("fullscreen"@) == Some(IpcCommand::ToggleFullscreen),
        "fullscreen"@ != "spawn"@,
        plain_command("list-layouts"@) == Some(IpcCommand::ListLayouts),
        "list-layouts"@ != "spawn"@,
        plain_command("list_layouts"@) == Some(IpcCommand::ListLayouts),
        "list_layouts"@ != "spawn"@,
        plain_command("layouts"@) == Some(IpcCommand::ListLayouts),
        "layouts"@ != "spawn"@,
        plain_command("list-plugins"@) == Some(IpcCommand::ListPlugins),
        "list-plugins"@ != "spawn"@,
        plain_command("list_plugins"@) == Some(IpcCommand::ListPlugins),
        "list_plugins"@ != "spawn"@,
        plain_command("plugins"@) == Some(IpcCommand::ListPlugins),
        "plugins"@ != "spawn"@,
        plain_command("reload-plugins"@) == Some(IpcCommand::ReloadPlugins),
        "reload-plugins"@ != "spawn"@,
        plain_command("reload_plugins"@) == Some(IpcCommand::ReloadPlugins),
        "reload_plugins"@ != "spawn"@,
        plain_command("reload"@) == Some(IpcCommand::ReloadPlugins),
        "reload"@ != "spawn"@,
        plain_command("list-workspaces"@) == Some(IpcCommand::ListWorkspaces),
        "list-workspaces"@ != "spawn"@,
        plain_command("list_workspaces"@) == Some(IpcCommand::ListWorkspaces),
        "list_workspaces"@ != "spawn"@,
        plain_command("workspaces"@) == Some(IpcCommand::ListWorkspaces),
        "workspaces"@ != "spawn"@,
        plain_command("subscribe"@) == Some(IpcCommand::Subscribe),
        "subscribe"@ != "spawn"@,
        plain_command("events"@) == Some(IpcCommand::Subscribe),
        "events"@ != "spawn"@,
        "layout"@ != "resize"@,
        "set-layout"@ != "resize"@,
        "set-layout"@ != "layout"@,
        "set_layout"@ != "resize"@,
        "set_layout"@ != "layout"@,
        "set_layout"@ != "set-layout"@,
        "workspace"@ != "resize"@,
        "workspace"@ != "layout"@,
        "workspace"@ != "set-layout"@,
        "workspace"@ != "set_layout"@,
        "switch-workspace"@ != "resize"@,
        "switch-workspace"@ != "layout"@,
        "switch-workspace"@ != "set-layout"@,
        "switch-workspace"@ != "set_layout"@,
        "switch-workspace"@ != "workspace"@,
        "switch_workspace"@ != "resize"@,
        "switch_workspace"@ != "layout"@,
        "switch_workspace"@ != "set-layout"@,
        "switch_workspace"@ != "set_layout"@,
        "switch_workspace"@ != "workspace"@,
        "switch_workspace"@ != "switch-workspace"@,
        "move-to-workspace"@ != "resize"@,
        "move-to-workspace"@ != "layout"@,
        "move-to-workspace"@ != "set-layout"@,
        "move-to-workspace"@ != "set_layout"@,
        "move-to-workspace"@ != "workspace"@,
        "move-to-workspace"@ != "switch-workspace"@,
        "move-to-workspace"@ != "switch_workspace"@,
        "move_to_workspace"@ != "resize"@,
        "move_to_workspace"@ != "layout"@,
        "move_to_workspace"@ != "set-layout"@,
        "move_to_workspace"@ != "set_layout"@,
        "move_to_workspace"@ != "workspace"@,
        "move_to_workspace"@ != "switch-workspace"@,
        "move_to_workspace"@ != "switch_workspace"@,
        "move_to_workspace"@ != "move-to-workspace"@,
        "move-workspace"@ != "resize"@,
        "move-workspace"@ != "layout"@,
        "move-workspace"@ != "set-layout"@,
        "move-workspace"@ != "set_layout"@,
        "move-workspace"@ != "workspace"@,
        "move-workspace"@ != "switch-workspace"@,
        "move-workspace"@ != "switch_workspace"@,
        "move-workspace"@ != "move-to-workspace"@,
        "move-workspace"@ != "move_to_workspace"@,
        "gap"@ != "resize"@,
        "gap"@ != "layout"@,
        "gap"@ != "set-layout"@,
        "gap"@ != "set_layout"@,
        "gap"@ != "workspace"@,
        "gap"@ != "switch-workspace"@,
        "gap"@ != "switch_workspace"@,
        "gap"@ != "move-to-workspace"@,
        "gap"@ != "move_to_workspace"@,
        "gap"@ != "move-workspace"@,
        "set-gap"@ != "resize"@,
        "set-gap"@ != "layout"@,
        "set-gap"@ != "set-layout"@,
        "set-gap"@ != "set_layout"@,
        "set-gap"@ != "workspace"@,
        "set-gap"@ != "switch-workspace"@,
        "set-gap"@ != "switch_workspace"@,
        "set-gap"@ != "move-to-workspace"@,
        "set-gap"@ != "move_to_workspace"@,
        "set-gap"@ != "move-workspace"@,
        "set-gap"@ != "gap"@,
        "set_gap"@ != "resize"@,
        "set_gap"@ != "layout"@,
        "set_gap"@ != "set-layout"@,
        "set_gap"@ != "set_layout"@,
        "set_gap"@ != "workspace"@,
        "set_gap"@ != "switch-workspace"@,
        "set_gap"@ != "switch_workspace"@,
        "set_gap"@ != "move-to-workspace"@,
        "set_gap"@ != "move_to_workspace"@,
        "set_gap"@ != "move-workspace"@,
        "set_gap"@ != "gap"@,
        "set_gap"@ != "set-gap"@,
        "background"@ != "resize"@,
        "background"@ != "layout"@,
        "background"@ != "set-layout"@,
        "background"@ != "set_layout"@,
        "background"@ != "workspace"@,
        "background"@ != "switch-workspace"@,
        "background"@ != "switch_workspace"@,
        "background"@ != "move-to-workspace"@,
        "background"@ != "move_to_workspace"@,
        "background"@ != "move-workspace"@,
        "background"@ != "gap"@,
        "background"@ != "set-gap"@,
        "background"@ != "set_gap"@,
        "set-background"@ != "resize"@,
        "set-background"@ != "layout"@,
        "set-background"@ != "set-layout"@,
        "set-background"@ != "set_layout"@,
        "set-background"@ != "workspace"@,
        "set-background"@ != "switch-workspace"@,
        "set-background"@ != "switch_workspace"@,
        "set-background"@ != "move-to-workspace"@,
        "set-background"@ != "move_to_workspace"@,
        "set-background"@ != "move-workspace"@,
        "set-background"@ != "gap"@,
        "set-background"@ != "set-gap"@,
        "set-background"@ != "set_gap"@,
        "set-background"@ != "background"@,
        "set_background"@ != "resize"@,
        "set_background"@ != "layout"@,
        "set_background"@ != "set-layout"@,
        "set_background"@ != "set_layout"@,
        "set_background"@ != "workspace"@,
        "set_background"@ != "switch-workspace"@,
        "set_background"@ != "switch_workspace"@,
        "set_background"@ != "move-to-workspace"@,
        "set_background"@ != "move_to_workspace"@,
        "set_background"@ != "move-workspace"@,
        "set_background"@ != "gap"@,
        "set_background"@ != "set-gap"@,
        "set_background"@ != "set_gap"@,
        "set_background"@ != "background"@,
        "set_background"@ != "set-background"@,
        "bg"@ != "resize"@,
        "bg"@ != "layout"@,
        "bg"@ != "set-layout"@,
        "bg"@ != "set_layout"@,
        "bg"@ != "workspace"@,
        "bg"@ != "switch-workspace"@,
        "bg"@ != "switch_workspace"@,
        "bg"@ != "move-to-workspace"@,
        "bg"@ != "move_to_workspace"@,
        "bg"@ != "move-workspace"@,
        "bg"@ != "gap"@,
        "bg"@ != "set-gap"@,
        "bg"@ != "set_gap"@,
        "bg"@ != "background"@,
        "bg"@ != "set-background"@,
        "bg"@ != "set_background"@,
        "output"@ != "resize"@,
        "output"@ != "layout"@,
        "output"@ != "set-layout"@,
        "output"@ != "set_layout"@,
        "output"@ != "workspace"@,
        "output"@ != "switch-workspace"@,
        "output"@ != "switch_workspace"@,
        "output"@ != "move-to-workspace"@,
        "output"@ != "move_to_workspace"@,
        "output"@ != "move-workspace"@,
        "output"@ != "gap"@,
        "output"@ != "set-gap"@,
        "output"@ != "set_gap"@,
        "output"@ != "background"@,
        "output"@ != "set-background"@,
        "output"@ != "set_background"@,
        "output"@ != "bg"@,
        "spawn"@ != "resize"@,
        "spawn"@ != "layout"@,
        "spawn"@ != "set-layout"@,
        "spawn"@ != "set_layout"@,
        "spawn"@ != "workspace"@,
        "spawn"@ != "switch-workspace"@,
        "spawn"@ != "switch_workspace"@,
        "spawn"@ != "move-to-workspace"@,
        "spawn"@ != "move_to_workspace"@,
        "spawn"@ != "move-workspace"@,
        "spawn"@ != "gap"@,
        "spawn"@ != "set-gap"@,
        "spawn"@ != "set_gap"@,
        "spawn"@ != "background"@,
        "spawn"@ != "set-background"@,
        "spawn"@ != "set_background"@,
        "spawn"@ != "bg"@,
        "spawn"@ != "output"@,
{
    reveal_strlit("focus-next");
    reveal_strlit("focus_next");
    reveal_strlit("focus-prev");
    reveal_strlit("focus_prev");
    reveal_strlit("close");
    reveal_strlit("swap-master");
    reveal_strlit("swap_master");
    reveal_strlit("quit");
    reveal_strlit("list-windows");
    reveal_strlit("list_windows");
    reveal_strlit("windows");
    reveal_strlit("master-grow");
    reveal_strlit("master_grow");
    reveal_strlit("master-shrink");
    reveal_strlit("master_shrink");
    reveal_strlit("toggle-float");
    reveal_strlit("toggle_float");
    reveal_strlit("float");
    reveal_strlit("toggle-fullscreen");
    reveal_strlit("toggle_fullscreen");
    reveal_strlit("fullscreen");
    reveal_strlit("list-layouts");
    reveal_strlit("list_layouts");
    reveal_strlit("layouts");
    reveal_strlit("list-plugins");
    reveal_strlit("list_plugins");
    reveal_strlit("plugins");
    reveal_strlit("reload-plugins");
    reveal_strlit("reload_plugins");
    reveal_strlit("reload");
    reveal_strlit("list-workspaces");
    reveal_strlit("list_workspaces");
    reveal_strlit("workspaces");
    reveal_strlit("subscribe");
    reveal_strlit("events");
    reveal_strlit("resize");
    reveal_strlit("layout");
    reveal_strlit("set-layout");
    reveal_strlit("set_layout");
    reveal_strlit("workspace");
    reveal_strlit("switch-workspace");
    reveal_strlit("switch_workspace");
    reveal_strlit("move-to-workspace");
    reveal_strlit("move_to_workspace");
    reveal_strlit("move-workspace");
    reveal_strlit("gap");
    reveal_strlit("set-gap");
    reveal_strlit("set_gap");
    reveal_strlit("background");
    reveal_strlit("set-background");
    reveal_strlit("set_background");
    reveal_strlit("bg");
    reveal_strlit("output");
    reveal_strlit("spawn");
    assert("focus-next"@.len() == 10 && "focus-next"@[6] == 'n');
    assert("focus_next"@.len() == 10 && "focus_next"@[6] == 'n');
    assert("focus-prev"@.len() == 10 && "focus-prev"@[6] == 'p');
    assert("focus_prev"@.len() == 10 && "focus_prev"@[6] == 'p');
    assert("close"@.len() == 5 && "close"@[0] == 'c');
    assert("swap-master"@.len() == 11 && "swap-master"@[0] == 's');
    assert("swap_master"@.len() == 11 && "swap_master"@[0] == 's');
    assert("quit"@.len() == 4);
    assert("list-windows"@.len() == 12 && "list-windows"@[0] == 'l' && "list-windows"@[5] == 'w');
    assert("list_windows"@.len() == 12 && "list_windows"@[0] == 'l' && "list_windows"@[5] == 'w');
    assert("windows"@.len() == 7 && "windows"@[0] == 'w');
    assert("master-grow"@.len() == 11 && "master-grow"@[0] == 'm');
    assert("master_grow"@.len() == 11 && "master_grow"@[0] == 'm');
    assert("master-shrink"@.len() == 13);
    assert("master_shrink"@.len() == 13);
    assert("toggle-float"@.len() == 12 && "toggle-float"@[0] == 't');
    assert("toggle_float"@.len() == 12 && "toggle_float"@[0] == 't');
    assert("float"@.len() == 5 && "float"@[0] == 'f');
    assert("toggle-fullscreen"@.len() == 17 && "toggle-fullscreen"@[0] == 't');
    assert("toggle_fullscreen"@.len() == 17 && "toggle_fullscreen"@[0] == 't');
    assert("fullscreen"@.len() == 10 && "fullscreen"@[6] == 'r');
    assert("list-layouts"@.len() == 12 && "list-layouts"@[0] == 'l' && "list-layouts"@[5] == 'l');
    assert("list_layouts"@.len() == 12 && "list_layouts"@[0] == 'l' && "list_layouts"@[5] == 'l');
    assert("layouts"@.len() == 7 && "layouts"@[0] == 'l');
    assert("list-plugins"@.len() == 12 && "list-plugins"@[0] == 'l' && "list-plugins"@[5] == 'p');
    assert("list_plugins"@.len() == 12 && "list_plugins"@[0] == 'l' && "list_plugins"@[5] == 'p');
    assert("plugins"@.len() == 7 && "plugins"@[0] == 'p');
    assert("reload-plugins"@.len() == 14 && "reload-plugins"@[0] == 'r');
    assert("reload_plugins"@.len() == 14 && "reload_plugins"@[0] == 'r');
    assert("reload"@.len() == 6 && "reload"@[0] == 'r' && "reload"@[2] == 'l');
    assert("list-workspaces"@.len() == 15);
    assert("list_workspaces"@.len() == 15);
    assert("workspaces"@.len() == 10 && "workspaces"@[6] == 'a');
    assert("subscribe"@.len() == 9 && "subscribe"@[0] == 's');
    assert("events"@.len() == 6 && "events"@[0] == 'e');
    assert("resize"@.len() == 6 && "resize"@[0] == 'r' && "resize"@[2] == 's');
    assert("layout"@.len() == 6 && "layout"@[0] == 'l');
    assert("set-layout"@.len() == 10 && "set-layout"@[3] == '-' && "set-layout"@[6] == 'y');
    assert("set_layout"@.len() == 10 && "set_layout"@[3] == '_' && "set_layout"@[6] == 'y');
    assert("workspace"@.len() == 9 && "workspace"@[0] == 'w');
    assert("switch-workspace"@.len() == 16 && "switch-workspace"@[6] == '-');
    assert("switch_workspace"@.len() == 16 && "switch_workspace"@[6] == '_');
    assert("move-to-workspace"@.len() == 17 && "move-to-workspace"@[0] == 'm' && "move-to-workspace"@[4] == '-');
    assert("move_to_workspace"@.len() == 17 && "move_to_workspace"@[0] == 'm' && "move_to_workspace"@[4] == '_');
    assert("move-workspace"@.len() == 14 && "move-workspace"@[0] == 'm');
    assert("gap"@.len() == 3);
    assert("set-gap"@.len() == 7 && "set-gap"@[0] == 's' && "set-gap"@[3] == '-');
    assert("set_gap"@.len() == 7 && "set_gap"@[0] == 's' && "set_gap"@[3] == '_');
    assert("background"@.len() == 10 && "background"@[6] == 'o');
    assert("set-background"@.len() == 14 && "set-background"@[0] == 's' && "set-background"@[3] == '-');
    assert("set_background"@.len() == 14 && "set_background"@[0] == 's' && "set_background"@[3] == '_');
    assert("bg"@.len() == 2);
    assert("output"@.len() == 6 && "output"@[0] == 'o');
    assert("spawn"@.len() == 5 && "spawn"@[0] == 's');
}

/// A command without arguments is known by its name, with hyphens or underscores; some have a short name
/// too. What follows it does not count.
pub proof fn lemma_plain_words_are_read(args: &[String], r: Result<IpcCommand, CommandError>)
    requires
        args@.len() > 0,
        call_ensures(parse_command, (args,), r),
    ensures
        args@[0]@ == "focus-next"@ || args@[0]@ == "focus_next"@ ==> r == Ok::<IpcCommand, CommandError>(IpcCommand::FocusNext),
        args@[0]@ == "focus-prev"@ || args@[0]@ == "focus_prev"@ ==> r == Ok::<IpcCommand, CommandError>(IpcCommand::FocusPrev),
        args@[0]@ == "close"@ ==> r == Ok::<IpcCommand, CommandError>(IpcCommand::Close),
        args@[0]@ == "swap-master"@ || args@[0]@ == "swap_master"@ ==> r == Ok::<IpcCommand, CommandError>(IpcCommand::SwapMaster),
        args@[0]@ == "quit"@ ==> r == Ok::<IpcCommand, CommandError>(IpcCommand::Quit),
        args@[0]@ == "list-windows"@ || args@[0]@ == "list_windows"@ || args@[0]@ == "windows"@ ==> r == Ok::<IpcCommand, CommandError>(IpcCommand::ListWindows),
        args@[0]@ == "master-grow"@ || args@[0]@ == "master_grow"@ ==> r == Ok::<IpcCommand, CommandError>(IpcCommand::MasterGrow),
        args@[0]@ == "master-shrink"@ || args@[0]@ == "master_shrink"@ ==> r == Ok::<IpcCommand, CommandError>(IpcCommand::MasterShrink),
        args@[0]@ == "toggle-float"@ || args@[0]@ == "toggle_float"@ || args@[0]@ == "float"@ ==> r == Ok::<IpcCommand, CommandError>(IpcCommand::ToggleFloat),
        args@[0]@ == "toggle-fullscreen"@ || args@[0]@ == "toggle_fullscreen"@ || args@[0]@ == "fullscreen"@ ==> r == Ok::<IpcCommand, CommandError>(IpcCommand::ToggleFullscreen),
        args@[0]@ == "list-layouts"@ || args@[0]@ == "list_layouts"@ || args@[0]@ == "layouts"@ ==> r == Ok::<IpcCommand, CommandError>(IpcCommand::ListLayouts),
        args@[0]@ == "list-plugins"@ || args@[0]@ == "list_plugins"@ || args@[0]@ == "plugins"@ ==> r == Ok::<IpcCommand, CommandError>(IpcCommand::ListPlugins),
        args@[0]@ == "reload-plugins"@ || args@[0]@ == "reload_plugins"@ || args@[0]@ == "reload"@ ==> r == Ok::<IpcCommand, CommandError>(IpcCommand::ReloadPlugins),
        args@[0]@ == "list-workspaces"@ || args@[0]@ == "list_workspaces"@ || args@[0]@ == "workspaces"@ ==> r == Ok::<IpcCommand, CommandError>(IpcCommand::ListWorkspaces),
        args@[0]@ == "subscribe"@ || args@[0]@ == "events"@ ==> r == Ok::<IpcCommand, CommandError>(IpcCommand::Subscribe),
{
    lemma_words();
}

proof fn lemma_subwords()
    ensures
        "remove"@ != "create"@,
        "rm"@ != "create"@,
        "rm"@ != "remove"@,
        "list"@ != "create"@,
        "list"@ != "remove"@,
        "list"@ != "rm"@,
        "ls"@ != "create"@,
        "ls"@ != "remove"@,
        "ls"@ != "rm"@,
        "ls"@ != "list"@,
        "focus"@ != "create"@,
        "focus"@ != "remove"@,
        "focus"@ != "rm"@,
        "focus"@ != "list"@,
        "focus"@ != "ls"@,
        "move-to"@ != "create"@,
        "move-to"@ != "remove"@,
        "move-to"@ != "rm"@,
        "move-to"@ != "list"@,
        "move-to"@ != "ls"@,
        "move-to"@ != "focus"@,
        "move"@ != "create"@,
        "move"@ != "remove"@,
        "move"@ != "rm"@,
        "move"@ != "list"@,
        "move"@ != "ls"@,
        "move"@ != "focus"@,
        "move"@ != "move-to"@,
{
    reveal_strlit("create");
    reveal_strlit("remove");
    reveal_strlit("rm");
    reveal_strlit("list");
    reveal_strlit("ls");
    reveal_strlit("focus");
    reveal_strlit("move-to");
    reveal_strlit("move");
    assert("create"@.len() == 6 && "create"@[0] == 'c');
    assert("remove"@.len() == 6 && "remove"@[0] == 'r');
    assert("rm"@.len() == 2 && "rm"@[0] == 'r');
    assert("list"@.len() == 4 && "list"@[0] == 'l');
    assert("ls"@.len() == 2 && "ls"@[0] == 'l');
    assert("focus"@.len() == 5);
    assert("move-to"@.len() == 7);
    assert("move"@.len() == 4 && "move"@[0] == 'm');
}

/// A command with one argument takes exactly one: a resolution, a number, a name or a text.
pub proof fn lemma_words_with_an_argument_are_read(
    args: &[String],
    width: u16,
    height: u16,
    number: usize,
    r: Result<IpcCommand, CommandError>,
)
    requires
        args@.len() == 2,
        call_ensures(parse_command, (args,), r),
    ensures
        ({
            let word = args@[0]@;
            let argument = args@[1];
            &&& word == "resize"@ && argument@ == decimal(width as nat) + seq!['x'] + decimal(
                height as nat,
            ) ==> r == Ok::<IpcCommand, CommandError>(IpcCommand::Resize { width, height })
            &&& word == "layout"@ || word == "set-layout"@ || word == "set_layout"@ ==> r == Ok::<
                IpcCommand,
                CommandError,
            >(IpcCommand::SetLayout { name: argument })
            &&& (word == "workspace"@ || word == "switch-workspace"@ || word == "switch_workspace"@)
                && argument@ == decimal(number as nat) ==> r == Ok::<IpcCommand, CommandError>(
                IpcCommand::SwitchWorkspace { workspace: number },
            )
            &&& (word == "move-to-workspace"@ || word == "move_to_workspace"@ || word
                == "move-workspace"@) && argument@ == decimal(number as nat) ==> r == Ok::<
                IpcCommand,
                CommandError,
            >(IpcCommand::MoveToWorkspace { workspace: number })
            &&& word == "background"@ || word == "set-background"@ || word == "set_background"@
                || word == "bg"@ ==> r == Ok::<IpcCommand, CommandError>(
                IpcCommand::SetBackground { spec: argument },
            )
            &&& word == "spawn"@ ==> (r matches Ok(IpcCommand::Spawn { cmd, args: rest }) && cmd
                == argument && rest@.len() == 0)
        }),
{
    lemma_words();
    lemma_decimal_reads_back(number as nat, usize::MAX as nat);
    if args@[1]@ == decimal(width as nat) + seq!['x'] + decimal(height as nat) {
        lemma_resolution(width, height);
    }
}

/// A gap is read as the number of pixels that it is written as.
pub proof fn lemma_gaps_are_read(
    args: &[String],
    pixels: i32,
    r: Result<IpcCommand, CommandError>,
)
    requires
        args@.len() == 2,
        args@[0]@ == "gap"@ || args@[0]@ == "set-gap"@ || args@[0]@ == "set_gap"@,
        pixels >= 0,
        args@[1]@ == decimal(pixels as nat),
        call_ensures(parse_command, (args,), r),
    ensures
        r == Ok::<IpcCommand, CommandError>(IpcCommand::SetGap { pixels }),
{
    lemma_words();
    lemma_decimal_digits(pixels as nat);
    lemma_decimal_reads_back(pixels as nat, i32::MAX as nat);
    assert(crate::text::is_digit(args@[1]@[0]));
}

/// Outputs are made, removed, listed and focused by their names, and windows sent to them.
pub proof fn lemma_output_words_are_read(
    args: &[String],
    width: u16,
    height: u16,
    r: Result<IpcCommand, CommandError>,
)
    requires
        args@.len() >= 2,
        args@[0]@ == "output"@,
        call_ensures(parse_command, (args,), r),
    ensures
        ({
            let word = args@[1]@;
            &&& word == "create"@ && args@.len() == 4 && args@[3]@ == decimal(width as nat) + seq!['x']
                + decimal(height as nat) ==> r == Ok::<IpcCommand, CommandError>(
                IpcCommand::CreateOutput { name: args@[2], width, height },
            )
            &&& (word == "remove"@ || word == "rm"@) && args@.len() == 3 ==> r == Ok::<
                IpcCommand,
                CommandError,
            >(IpcCommand::RemoveOutput { name: args@[2] })
            &&& word == "list"@ || word == "ls"@ ==> r == Ok::<IpcCommand, CommandError>(
                IpcCommand::ListOutputs,
            )
            &&& word == "focus"@ && args@.len() == 3 ==> r == Ok::<IpcCommand, CommandError>(
                IpcCommand::FocusOutput { name: args@[2] },
            )
            &&& (word == "move-to"@ || word == "move"@) && args@.len() == 3 ==> r == Ok::<
                IpcCommand,
                CommandError,
            >(IpcCommand::MoveWindowToOutput { name: args@[2] })
        }),
{
    lemma_words();
    lemma_subwords();
    lemma_resolution(width, height);
}

/// What a client is told of an empty line, of one that is no command, and of a command: nothing, a
/// refusal, a confirmation with the events to follow, or what the compositor answers.
pub proof fn lemma_lines_are_answered(
    line: &str,
    command: Option<&IpcCommand>,
    error: &str,
    step: ClientStep,
)
    requires
        call_ensures(client_step, (line, command), step),
    ensures
        step is Skip <==> forall|k: int| 0 <= k < line@.len() ==> is_space(#[trigger] line@[k]),
        step is Refuse ==> command is None,
        step is Subscribe ==> command == Some(&IpcCommand::Subscribe),
        step is Forward ==> command is Some && command != Some(&IpcCommand::Subscribe),
{
    lemma_trimmed_is_empty(line@);
    if command is Some && *command->0 is Subscribe {
        assert(*command->0 == IpcCommand::Subscribe);
    }
}

proof fn lemma_trimmed_is_empty(s: Seq<char>)
    ensures
        trimmed(s).len() == 0 <==> forall|k: int| 0 <= k < s.len() ==> is_space(#[trigger] s[k]),
    decreases s.len(),
{
    if s.len() > 0 {
        if is_space(s[0]) {
            let rest = s.skip(1);
            lemma_trimmed_is_empty(rest);
            assert forall|k: int| 0 <= k < rest.len() implies #[trigger] rest[k] == s[k + 1] by {}
            if trimmed(s).len() == 0 {
                assert forall|k: int| 0 <= k < s.len() implies is_space(#[trigger] s[k]) by {
                    if k > 0 {
                        assert(is_space(rest[k - 1]));
                    }
                }
            }
        } else if is_space(s.last()) {
            lemma_trimmed_is_empty(s.drop_last());
            assert(s.drop_last()[0] == s[0]);
        }
    }
}

/// After the plugins are loaded anew their layouts are on offer. A layout that is still there, or that
/// comes with the compositor as column or monocle, stays; another one gives way to the column layout.
pub proof fn lemma_plugins_are_reloaded(
    s: &mut DinatorState,
    count: usize,
    layouts: Vec<String>,
    r: (Vec<Effect>, IpcResponse),
    i: int,
)
    requires
        old(s).wf(),
        is_focused(*old(s), i),
        call_ensures(DinatorState::plugins_reloaded, (s, count, layouts), r),
    ensures
        final(s).plugin_layouts@ == layouts@,
        r.1 is Success,
        ({
            let effects = r.0;
            let before = old(s).outputs@[i].layout;
            let after = final(s).outputs@[i].layout;
            let anew = effects@ == seq![Effect::Retile { output: old(s).outputs@[i].name }];
            &&& before is Column || before is Monocle ==> after == before && effects@.len() == 0
            &&& before matches ActiveLayout::Plugin(name) ==> (name@ != "column"@
                && name@ != "monocle"@ && (exists|k: int|
                0 <= k < layouts@.len() && (#[trigger] layouts@[k])@ == name@) ==> anew
                && (after matches ActiveLayout::Plugin(now) && now@ == name@))
            &&& before matches ActiveLayout::Plugin(name) ==> (name@ != "column"@
                && name@ != "monocle"@ && (forall|k: int|
                0 <= k < layouts@.len() ==> (#[trigger] layouts@[k])@ != name@) ==> anew
                && after is Column)
        }),
{
    let a = *old(s);
    let b = *final(s);
    lemma_focused(a, i);
    lemma_view_parts(a, b);
    let before = a.outputs@[i].layout;
    match before {
        ActiveLayout::Plugin(name) => {
            lemma_name_found(views(layouts@), name@);
            let k = name_index(views(layouts@), name@);
            if k < layouts@.len() {
                assert(layouts@[k]@ == name@);
            }
            assert(forall|k: int| 0 <= k < layouts@.len() ==> views(layouts@)[k] == #[trigger] layouts@[k]@);
        },
        _ => {},
    }
}

/// The answer is success with this text.
pub open spec fn tells(r: Handled, text: Seq<char>) -> bool {
    r.answer matches Answer::Now(IpcResponse::Success { message: Some(m) }) && m@ == text
}

/// The answer is a refusal with this text.
pub open spec fn complains(r: Handled, text: Seq<char>) -> bool {
    r.answer matches Answer::Now(IpcResponse::Error { message }) && message@ == text
}

/// What is answered names what was asked for, and says why it is refused.
pub proof fn lemma_answers_name_what_was_asked_for(
    s: &mut DinatorState,
    command: &IpcCommand,
    name: String,
    width: u16,
    height: u16,
    workspace: usize,
    seen: &[SeenWindow],
    mapped: usize,
    r: Handled,
    w: WindowId,
)
    requires
        old(s).wf(),
        call_ensures(DinatorState::handle_ipc_command, (s, command, seen, mapped), r),
    ensures
        *command == (IpcCommand::Resize { width, height }) ==> tells(
            r,
            "resizing to "@ + decimal(width as nat) + "x"@ + decimal(height as nat),
        ),
        *command == (IpcCommand::SwitchWorkspace { workspace }) && 1 <= workspace <= 9 ==> tells(
            r,
            "workspace "@ + decimal(workspace as nat),
        ),
        *command == (IpcCommand::MoveToWorkspace { workspace }) && 1 <= workspace <= 9 ==> tells(
            r,
            "moved to workspace "@ + decimal(workspace as nat),
        ),
        (*command == (IpcCommand::SwitchWorkspace { workspace }) || *command == (
        IpcCommand::MoveToWorkspace { workspace })) && !(1 <= workspace <= 9) ==> complains(
            r,
            "invalid workspace: "@ + decimal(workspace as nat) + " (must be 1-9)"@,
        ),
        *command == (IpcCommand::SetLayout { name }) && is_agreed(r) ==> tells(
            r,
            "layout: "@ + name@,
        ),
        *command == (IpcCommand::CreateOutput { name, width, height }) && is_agreed(r) ==> tells(
            r,
            "created output '"@ + name@ + "' ("@ + decimal(width as nat) + "x"@ + decimal(
                height as nat,
            ) + ")"@,
        ),
        *command == (IpcCommand::CreateOutput { name, width, height }) && is_refused(r) ==> complains(
            r,
            "output '"@ + name@ + "' already exists"@,
        ),
        *command == (IpcCommand::RemoveOutput { name }) && is_agreed(r) ==> tells(
            r,
            "removed output '"@ + name@ + "'"@,
        ),
        *command == (IpcCommand::FocusOutput { name }) && is_agreed(r) ==> tells(
            r,
            "focused output '"@ + name@ + "'"@,
        ),
        *command == (IpcCommand::FocusOutput { name }) && is_refused(r) ==> complains(
            r,
            "output '"@ + name@ + "' not found"@,
        ),
        *command == (IpcCommand::MoveWindowToOutput { name }) && is_agreed(r) ==> tells(
            r,
            "moved window to output '"@ + name@ + "'"@,
        ),
        *command == IpcCommand::ToggleFloat && old(s).keyboard_focus == Some(w) && exists_in(*old(s), w)
            ==> tells(
            r,
            "window "@ + decimal(w.0 as nat) + (if old(s).floating@.contains(w.0) {
                " tiled"@
            } else {
                " floating"@
            }),
        ),
        *command == IpcCommand::ToggleFullscreen && old(s).keyboard_focus == Some(w) && exists_in(
            *old(s),
            w,
        ) ==> tells(
            r,
            "window "@ + decimal(w.0 as nat) + (if old(s).fullscreen@.contains(w.0) {
                " normal"@
            } else {
                " fullscreen"@
            }),
        ),
        (*command == IpcCommand::ToggleFloat || *command == IpcCommand::ToggleFullscreen) && old(
            s,
        ).keyboard_focus is None ==> complains(r, "no focused window"@),
{
    lemma_view_parts(*old(s), *final(s));
}

/// The answer to a program start names the program, and the reason where it failed.
pub proof fn lemma_starts_are_answered(cmd: &str, e: &str, started: IpcResponse, failed: IpcResponse)
    requires
        call_ensures(spawn_answer, (cmd, None), started),
        call_ensures(spawn_answer, (cmd, Some(e)), failed),
    ensures
        started matches IpcResponse::Success { message: Some(m) } && m@ == "spawned "@ + cmd@,
        failed matches IpcResponse::Error { message } && message@ == "failed to spawn "@ + cmd@ + ": "@
            + e@,
{
}

} // verus!
