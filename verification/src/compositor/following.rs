//! How the outputs follow the monitors that a client tells of.

use crate::compositor::event::{Effect, IpcEvent};
use crate::compositor::monitors::{
    is_target, lemma_layout_is_reached, place, planned, steps_done, target_name, views, LayoutStep,
};
use crate::compositor::moving::{
    lemma_view_parts, same_lists, same_memory, same_windows, unchanged,
};
use crate::compositor::neighbours::nameless;
use crate::compositor::state::{
    distinct, has_output, index_of, is_fresh_output, lemma_index_of, named, DinatorState, Model,
    OutputState,
};
use crate::displaycontrol::{
    is_monitor_order, lemma_every_monitor_counts, ordered, ClientMonitor, DisplayControlDvc,
    MonitorEntry,
};
use crate::tiling::Rect;
use vstd::prelude::*;

verus! {

broadcast use vstd::std_specs::hash::group_hash_axioms;

/// The monitors of a layout wait to be applied as the client told them; one without a valid position
/// stands at the origin.
pub proof fn lemma_monitors_are_noted(d: &mut DisplayControlDvc, monitors: &[ClientMonitor])
    requires
        call_ensures(DisplayControlDvc::accept_layout, (d, monitors), ()),
    ensures
        final(d).state.pending_layout matches Some(entries) && entries@.len() == monitors@.len() && (
        forall|k: int|
            0 <= k < monitors@.len() ==> {
                &&& (#[trigger] entries@[k]).is_primary == monitors@[k].is_primary
                &&& entries@[k].width == monitors@[k].width
                &&& entries@[k].height == monitors@[k].height
                &&& monitors@[k].position matches Some(p) ==> entries@[k].left == p.0
                    && entries@[k].top == p.1
                &&& monitors@[k].position is None ==> entries@[k].left == 0 && entries@[k].top == 0
            }),
{
    let entries = final(d).state.pending_layout->0@;
    let all = monitors@.map_values(|m: ClientMonitor| crate::displaycontrol::monitor_entry(m));
    assert(entries == all);
    assert forall|k: int| 0 <= k < monitors@.len() implies {
        &&& (#[trigger] entries[k]).is_primary == monitors@[k].is_primary
        &&& entries[k].width == monitors@[k].width
        &&& entries[k].height == monitors@[k].height
        &&& monitors@[k].position matches Some(p) ==> entries[k].left == p.0 && entries[k].top == p.1
        &&& monitors@[k].position is None ==> entries[k].left == 0 && entries[k].top == 0
    } by {
        assert(all[k] == crate::displaycontrol::monitor_entry(monitors@[k]));
    }
}

/// Only output `i` changed, and of it only where it lies.
pub open spec fn only_place_changed(a: DinatorState, b: DinatorState, i: int) -> bool {
    &&& b.outputs@.len() == a.outputs@.len()
    &&& forall|j: int|
        0 <= j < a.outputs@.len() && j != i ==> #[trigger] b.outputs@[j] == a.outputs@[j]
    &&& b.outputs@[i].name == a.outputs@[i].name
    &&& b.outputs@[i].layout == a.outputs@[i].layout
    &&& b.outputs@[i].active_workspace == a.outputs@[i].active_workspace
    &&& b.outputs@[i].background == a.outputs@[i].background
    &&& b@.focused_output == a@.focused_output
    &&& b.keyboard_focus == a.keyboard_focus
    &&& same_windows(a, b)
    &&& same_lists(a, b)
    &&& same_memory(a, b)
}

/// A step that resizes gives the output its size and leaves it where it is, and the output is arranged
/// anew if the size is another one. A step that moves leaves the size. A step that creates adds an
/// output, and one that removes takes it away, unless it is the last. Everyone is told of the last two.
pub proof fn lemma_step_is_taken(
    s: &mut DinatorState,
    step: &LayoutStep,
    effects: Vec<Effect>,
    i: int,
)
    requires
        old(s).wf(),
        call_ensures(DinatorState::take_step, (s, step), effects),
        0 <= i < old(s).outputs@.len(),
    ensures
        ({
            let a = *old(s);
            let b = *final(s);
            let g = a.outputs@[i].geometry;
            let h = b.outputs@[i].geometry;
            &&& *step matches LayoutStep::Resize { name, width, height } ==> (name@
                == a.outputs@[i].name@ ==> {
                &&& only_place_changed(a, b, i)
                &&& h.width == width && h.height == height && h.x == g.x && h.y == g.y
                &&& effects@ == if h == g {
                    Seq::empty()
                } else {
                    seq![Effect::Retile { output: name }]
                }
            })
            &&& *step matches LayoutStep::Move { name, x, y } ==> (name@ == a.outputs@[i].name@ ==> {
                &&& only_place_changed(a, b, i)
                &&& h.width == g.width && h.height == g.height && h.x == x && h.y == y
                &&& effects@.len() == 0
            })
            &&& *step matches LayoutStep::Create { name, x, y, width, height } ==> (nameless(a, name@)
                ==> {
                let n = a.outputs@.len() as int;
                let fresh = b.outputs@[n].geometry;
                &&& b.outputs@.len() == n + 1
                &&& forall|j: int| 0 <= j < n ==> #[trigger] b.outputs@[j] == a.outputs@[j]
                &&& b.outputs@[n].name@ == name@
                &&& fresh.x == x && fresh.y == y && fresh.width == width && fresh.height == height
                &&& effects@ == seq![
                    Effect::Emit { event: IpcEvent::OutputCreated { name, width, height } },
                ]
            })
            &&& *step matches LayoutStep::Remove { name } ==> (name@ == a.outputs@[i].name@
                && a.outputs@.len() > 1 ==> {
                &&& b.outputs@ == a.outputs@.remove(i)
                &&& effects@.len() > 0
                &&& effects@.last() == (Effect::Emit { event: IpcEvent::OutputRemoved { name } })
            })
            &&& *step is Remove && a.outputs@.len() == 1 ==> unchanged(a, b) && effects@.len() == 0
        }),
{
    let a = *old(s);
    let b = *final(s);
    lemma_view_parts(a, b);
    lemma_index_of(a.outputs@, a.outputs@[i].name@, i);
    match *step {
        LayoutStep::Create { name, x, y, width, height } => {
            if nameless(a, name@) && has_output(a.outputs@, name@) {
                let k = index_of(a.outputs@, name@);
                assert(named(a.outputs@, name@, k));
                assert(a.outputs@[k].name@ != name@);
            }
            if nameless(a, name@) {
                let r = Rect { x, y, width: width as i32, height: height as i32 };
                let fresh = choose|fresh: OutputState|
                    {
                        &&& #[trigger] is_fresh_output(fresh, name, r)
                        &&& b.outputs@ == a.outputs@.push(fresh)
                    };
                assert(b.outputs@[a.outputs@.len() as int] == fresh);
            }
        },
        _ => {},
    }
}

/// The width or height of an output for that of a monitor: at most 8192.
pub open spec fn at_most_8192(extent: u32) -> int {
    if extent > 8192 {
        8192
    } else {
        extent as int
    }
}

/// The output lies where the monitor is, and is as large.
pub open spec fn stands_for(o: OutputState, m: MonitorEntry) -> bool {
    &&& o.geometry.x == m.left
    &&& o.geometry.y == m.top
    &&& o.geometry.width == at_most_8192(m.width)
    &&& o.geometry.height == at_most_8192(m.height)
}

/// When the steps for some monitors have been taken, each monitor has an output that stands for it, and
/// there are no other outputs. The output that was the first before stands for the primary monitor.
/// (The first output must not be named like one for a further monitor.)
pub proof fn lemma_outputs_follow_the_monitors(
    s: &DinatorState,
    monitors: &[MonitorEntry],
    steps: Vec<LayoutStep>,
    after: Model,
)
    requires
        s.wf(),
        s.outputs@.len() > 0,
        monitors@.len() > 0,
        call_ensures(DinatorState::layout_steps, (s, monitors), steps),
        steps_done(s@, after, steps@),
        forall|k: int|
            1 <= k < monitors@.len() ==> #[trigger] target_name(s.outputs@, k) != s.outputs@[0].name@,
    ensures
        forall|j: int|
            0 <= j < monitors@.len() ==> exists|k: int|
                0 <= k < after.outputs.len() && stands_for(
                    #[trigger] after.outputs[k],
                    #[trigger] monitors@[j],
                ),
        forall|k: int|
            0 <= k < after.outputs.len() && distinct(after.outputs) ==> exists|j: int|
                0 <= j < monitors@.len() && stands_for(
                    #[trigger] after.outputs[k],
                    #[trigger] monitors@[j],
                ),
        forall|p: int|
            0 <= p < monitors@.len() && (#[trigger] monitors@[p]).is_primary && (forall|j: int|
                0 <= j < monitors@.len() && j != p ==> !(#[trigger] monitors@[j]).is_primary)
                ==> exists|k: int|
                {
                    &&& 0 <= k < after.outputs.len()
                    &&& (#[trigger] after.outputs[k]).name@ == s.outputs@[0].name@
                    &&& stands_for(after.outputs[k], monitors@[p])
                },
{
    let outputs = s.outputs@;
    let order = choose|order: Seq<usize>| #[trigger]
        is_monitor_order(monitors@, order) && views(steps@) == planned(outputs, monitors@, order);
    assert(target_name(outputs, 0) == outputs[0].name@);
    lemma_layout_is_reached(s@, after, steps@, monitors@, order);
    assert forall|q: int| 0 <= q < monitors@.len() implies exists|k: int|
        {
            &&& 0 <= k < after.outputs.len()
            &&& (#[trigger] after.outputs[k]).name@ == #[trigger] target_name(outputs, q)
            &&& stands_for(after.outputs[k], monitors@[order[q] as int])
        } by {
        let name = target_name(outputs, q);
        assert(place(after.outputs, name) is Some);
        let k = index_of(after.outputs, name);
        assert(named(after.outputs, name, k));
        assert(after.outputs[k].name@ == name);
        assert(0 <= order[q] < monitors@.len());
    }
    assert forall|j: int| 0 <= j < monitors@.len() implies exists|k: int|
        0 <= k < after.outputs.len() && stands_for(
            #[trigger] after.outputs[k],
            #[trigger] monitors@[j],
        ) by {
        lemma_every_monitor_counts(monitors@, order, j);
        let q = choose|q: int| 0 <= q < order.len() && #[trigger] order[q] == j;
        let name = target_name(outputs, q);
        let k = choose|k: int|
            {
                &&& 0 <= k < after.outputs.len()
                &&& (#[trigger] after.outputs[k]).name@ == name
                &&& stands_for(after.outputs[k], monitors@[order[q] as int])
            };
        assert(stands_for(after.outputs[k], monitors@[j]));
    }
    assert forall|k: int| 0 <= k < after.outputs.len() && distinct(after.outputs) implies exists|j: int|
        0 <= j < monitors@.len() && stands_for(
            #[trigger] after.outputs[k],
            #[trigger] monitors@[j],
        ) by {
        let name = after.outputs[k].name@;
        assert(named(after.outputs, name, k));
        lemma_index_of(after.outputs, name, k);
        assert(is_target(outputs, monitors@.len() as int, name));
        let q = choose|q: int| 0 <= q < monitors@.len() && #[trigger] target_name(outputs, q) == name;
        assert(0 <= order[q] < monitors@.len());
        assert(stands_for(after.outputs[k], monitors@[order[q] as int]));
    }
    assert forall|p: int|
        0 <= p < monitors@.len() && (#[trigger] monitors@[p]).is_primary && (forall|j: int|
            0 <= j < monitors@.len() && j != p ==> !(#[trigger] monitors@[j]).is_primary) implies exists|
        k: int,
    |
        {
            &&& 0 <= k < after.outputs.len()
            &&& (#[trigger] after.outputs[k]).name@ == outputs[0].name@
            &&& stands_for(after.outputs[k], monitors@[p])
        } by {
        lemma_every_monitor_counts(monitors@, order, p);
        let q = choose|q: int| 0 <= q < order.len() && #[trigger] order[q] == p;
        if q > 0 {
            assert(ordered(monitors@, order[0] as int, order[q] as int));
            let first = order[0] as int;
            assert(0 <= order[0] < monitors@.len());
            if first != p {
                assert(!monitors@[first].is_primary);
            }
            assert(false);
        }
        let k = choose|k: int|
            {
                &&& 0 <= k < after.outputs.len()
                &&& (#[trigger] after.outputs[k]).name@ == target_name(outputs, 0)
                &&& stands_for(after.outputs[k], monitors@[order[0] as int])
            };
        assert(after.outputs[k].name@ == outputs[0].name@);
    }
}

} // verus!
