//! The outputs that follow the monitors of a remote client.

use crate::compositor::event::{Effect, IpcEvent};
use crate::compositor::outputs::output_removed;
use crate::compositor::state::{
    distinct, has_output, index_of, lemma_index_of, lemma_same_names, named, output_added,
    DinatorState, Model, OutputState,
};
use crate::displaycontrol::{is_monitor_order, monitor_order, MonitorEntry, MAX_OUTPUT_EXTENT};
use crate::text::{decimal, lemma_decimal_digits, push_decimal, same};
use crate::tiling::Rect;
use vstd::prelude::*;
use vstd::string::*;

verus! {

/// One step towards the outputs of a monitor layout.
#[derive(Debug)]
#[allow(inconsistent_fields)]
pub enum LayoutStep {
    /// The output goes, unless it is the last one.
    Remove { name: String },
    /// The output gets this size.
    Resize { name: String, width: u16, height: u16 },
    /// The output goes to this place.
    Move { name: String, x: i32, y: i32 },
    /// An output comes.
    Create { name: String, x: i32, y: i32, width: u16, height: u16 },
}

/// A step as mathematical values.
pub enum PlannedStep {
    Remove { name: Seq<char> },
    Resize { name: Seq<char>, width: u16, height: u16 },
    Move { name: Seq<char>, x: i32, y: i32 },
    Create { name: Seq<char>, x: i32, y: i32, width: u16, height: u16 },
}

impl LayoutStep {
    pub open spec fn view(&self) -> PlannedStep {
        match *self {
            LayoutStep::Remove { name } => PlannedStep::Remove { name: name@ },
            LayoutStep::Resize { name, width, height } => PlannedStep::Resize {
                name: name@,
                width,
                height,
            },
            LayoutStep::Move { name, x, y } => PlannedStep::Move { name: name@, x, y },
            LayoutStep::Create { name, x, y, width, height } => PlannedStep::Create {
                name: name@,
                x,
                y,
                width,
                height,
            },
        }
    }
}

impl PlannedStep {
    /// The output that the step is about.
    pub open spec fn name(self) -> Seq<char> {
        match self {
            PlannedStep::Remove { name } => name,
            PlannedStep::Resize { name, .. } => name,
            PlannedStep::Move { name, .. } => name,
            PlannedStep::Create { name, .. } => name,
        }
    }
}

/// The steps as mathematical values.
pub open spec fn views(steps: Seq<LayoutStep>) -> Seq<PlannedStep> {
    steps.map_values(|s: LayoutStep| s@)
}

/// Name of output `k` of a layout: the first keeps the name of the first output that exists.
pub open spec fn target_name(outputs: Seq<OutputState>, k: int) -> Seq<char> {
    if k == 0 {
        if outputs.len() > 0 {
            outputs[0].name@
        } else {
            "headless-0"@
        }
    } else {
        "rdp-"@ + decimal(k as nat)
    }
}

/// The width or height of an output for that of a monitor.
pub open spec fn limited(extent: u32) -> u16 {
    if extent <= MAX_OUTPUT_EXTENT {
        extent as u16
    } else {
        MAX_OUTPUT_EXTENT as u16
    }
}

/// Where the output of a monitor lies.
pub open spec fn monitor_rect(m: MonitorEntry) -> Rect {
    Rect {
        x: m.left,
        y: m.top,
        width: limited(m.width) as i32,
        height: limited(m.height) as i32,
    }
}

/// A layout of `count` monitors has an output of this name.
pub open spec fn is_target(outputs: Seq<OutputState>, count: int, name: Seq<char>) -> bool {
    exists|k: int| 0 <= k < count && #[trigger] target_name(outputs, k) == name
}

/// Those of the first `n` outputs go that the layout has no place for.
pub open spec fn removals(outputs: Seq<OutputState>, count: int, n: int) -> Seq<PlannedStep>
    decreases n,
{
    if n <= 0 {
        Seq::empty()
    } else {
        let before = removals(outputs, count, n - 1);
        if is_target(outputs, count, outputs[n - 1].name@) {
            before
        } else {
            before.push(PlannedStep::Remove { name: outputs[n - 1].name@ })
        }
    }
}

/// The steps for monitor `m` as output `k`: one that exists is fitted, else one is made.
pub open spec fn monitor_steps(outputs: Seq<OutputState>, k: int, m: MonitorEntry) -> Seq<
    PlannedStep,
> {
    let name = target_name(outputs, k);
    let r = monitor_rect(m);
    if has_output(outputs, name) {
        seq![
            PlannedStep::Resize { name, width: limited(m.width), height: limited(m.height) },
            PlannedStep::Move { name, x: r.x, y: r.y },
        ]
    } else {
        seq![
            PlannedStep::Create {
                name,
                x: r.x,
                y: r.y,
                width: limited(m.width),
                height: limited(m.height),
            },
        ]
    }
}

/// The steps for the first `n` monitors of an order.
pub open spec fn arrivals(
    outputs: Seq<OutputState>,
    monitors: Seq<MonitorEntry>,
    order: Seq<usize>,
    n: int,
) -> Seq<PlannedStep>
    decreases n,
{
    if n <= 0 {
        Seq::empty()
    } else {
        arrivals(outputs, monitors, order, n - 1) + monitor_steps(
            outputs,
            n - 1,
            monitors[order[n - 1] as int],
        )
    }
}

/// The steps to a layout: what has no place in it goes, then each monitor gets its output.
pub open spec fn planned(
    outputs: Seq<OutputState>,
    monitors: Seq<MonitorEntry>,
    order: Seq<usize>,
) -> Seq<PlannedStep> {
    removals(outputs, monitors.len() as int, outputs.len() as int) + arrivals(
        outputs,
        monitors,
        order,
        monitors.len() as int,
    )
}

/// The steps lead to the layout, the monitors taken in the order of the outputs.
pub open spec fn leads_to(
    steps: Seq<PlannedStep>,
    outputs: Seq<OutputState>,
    monitors: Seq<MonitorEntry>,
) -> bool {
    exists|order: Seq<usize>| #[trigger]
        is_monitor_order(monitors, order) && steps == planned(outputs, monitors, order)
}

/// The state with another geometry of output `i`.
pub open spec fn with_geometry(m: Model, i: int, geometry: Rect) -> Model {
    Model { outputs: m.outputs.update(i, OutputState { geometry, ..m.outputs[i] }), ..m }
}

/// What a step does.
pub open spec fn step_done(
    before: Model,
    after: Model,
    step: LayoutStep,
    effects: Seq<Effect>,
) -> bool {
    match step {
        LayoutStep::Remove { name } => if before.outputs.len() <= 1 {
            after == before && effects == Seq::<Effect>::empty()
        } else {
            &&& effects.len() > 0
            &&& output_removed(before, after, name@, effects.drop_last())
            &&& effects.last() == (Effect::Emit { event: IpcEvent::OutputRemoved { name } })
        },
        LayoutStep::Resize { name, width, height } => if has_output(before.outputs, name@) {
            let i = index_of(before.outputs, name@);
            let g = before.outputs[i].geometry;
            if g.width == width && g.height == height {
                after == before && effects == Seq::<Effect>::empty()
            } else {
                &&& after == with_geometry(
                    before,
                    i,
                    Rect { width: width as i32, height: height as i32, ..g },
                )
                &&& effects == seq![Effect::Retile { output: name }]
            }
        } else {
            after == before && effects == Seq::<Effect>::empty()
        },
        LayoutStep::Move { name, x, y } => {
            &&& effects == Seq::<Effect>::empty()
            &&& if has_output(before.outputs, name@) {
                let i = index_of(before.outputs, name@);
                after == with_geometry(before, i, Rect { x, y, ..before.outputs[i].geometry })
            } else {
                after == before
            }
        },
        LayoutStep::Create { name, x, y, width, height } => {
            &&& output_added(
                before,
                after,
                name,
                Rect { x, y, width: width as i32, height: height as i32 },
            )
            &&& effects == seq![
                Effect::Emit { event: IpcEvent::OutputCreated { name, width, height } },
            ]
        },
    }
}

/// The far edges of the output after a step can be written down.
pub open spec fn step_fits(m: Model, step: LayoutStep) -> bool {
    match step {
        LayoutStep::Remove { .. } => true,
        LayoutStep::Resize { name, width, height } => has_output(m.outputs, name@) ==> {
            let g = m.outputs[index_of(m.outputs, name@)].geometry;
            g.x + width <= i32::MAX && g.y + height <= i32::MAX
        },
        LayoutStep::Move { name, x, y } => has_output(m.outputs, name@) ==> {
            let g = m.outputs[index_of(m.outputs, name@)].geometry;
            x + g.width <= i32::MAX && y + g.height <= i32::MAX
        },
        LayoutStep::Create { x, y, width, height, .. } => x + width <= i32::MAX && y + height
            <= i32::MAX,
    }
}

fn limit(extent: u32) -> (r: u16)
    ensures
        r == limited(extent),
{
    if extent <= MAX_OUTPUT_EXTENT {
        extent as u16
    } else {
        MAX_OUTPUT_EXTENT as u16
    }
}

impl DinatorState {
    /// Name of output `k` of a layout.
    fn layout_name_at(&self, k: usize) -> (r: String)
        ensures
            r@ == target_name(self.outputs@, k as int),
    {
        if k == 0 {
            if self.outputs.len() > 0 {
                self.outputs[0].name.clone()
            } else {
                String::from_str("headless-0")
            }
        } else {
            let mut name: String = String::from_str("rdp-");
            push_decimal(&mut name, k as u64);
            name
        }
    }

    fn has_place(&self, count: usize, name: &str) -> (r: bool)
        ensures
            r == is_target(self.outputs@, count as int, name@),
    {
        let mut k: usize = 0;
        while k < count
            invariant
                k <= count,
                forall|j: int| 0 <= j < k ==> #[trigger] target_name(self.outputs@, j) != name@,
            decreases count - k,
        {
            let target = self.layout_name_at(k);
            if same(target.as_str(), name) {
                assert(target_name(self.outputs@, k as int) == name@);
                return true;
            }
            k = k + 1;
        }
        false
    }

    /// The steps from the outputs that exist to one output for each monitor, the primary monitor
    /// first, then from left to right. Without monitors nothing changes.
    pub fn layout_steps(&self, monitors: &[MonitorEntry]) -> (steps: Vec<LayoutStep>)
        requires
            distinct(self.outputs@),
        ensures
            monitors@.len() == 0 ==> steps@.len() == 0,
            monitors@.len() > 0 ==> leads_to(views(steps@), self.outputs@, monitors@),
    {
        let mut steps: Vec<LayoutStep> = Vec::new();
        if monitors.len() == 0 {
            return steps;
        }
        let count: usize = monitors.len();
        let mut n: usize = 0;
        assert(views(steps@) =~= removals(self.outputs@, count as int, 0));
        while n < self.outputs.len()
            invariant
                n <= self.outputs@.len(),
                views(steps@) == removals(self.outputs@, count as int, n as int),
            decreases self.outputs@.len() - n,
        {
            let ghost earlier = steps@;
            if !self.has_place(count, self.outputs[n].name.as_str()) {
                steps.push(LayoutStep::Remove { name: self.outputs[n].name.clone() });
            }
            assert(views(steps@) =~= removals(self.outputs@, count as int, n + 1));
            n = n + 1;
        }
        let order = monitor_order(monitors);
        let ghost gone = views(steps@);
        let mut k: usize = 0;
        assert(views(steps@) =~= gone + arrivals(self.outputs@, monitors@, order@, 0));
        while k < order.len()
            invariant
                k <= order@.len() == monitors@.len(),
                distinct(self.outputs@),
                is_monitor_order(monitors@, order@),
                views(steps@) == gone + arrivals(self.outputs@, monitors@, order@, k as int),
            decreases order@.len() - k,
        {
            let ghost earlier = steps@;
            let m: MonitorEntry = monitors[order[k]];
            let name = self.layout_name_at(k);
            let width: u16 = limit(m.width);
            let height: u16 = limit(m.height);
            match self.output_index(name.as_str()) {
                Some(_) => {
                    steps.push(LayoutStep::Resize { name: name.clone(), width, height });
                    steps.push(LayoutStep::Move { name, x: m.left, y: m.top });
                },
                None => {
                    steps.push(LayoutStep::Create { name, x: m.left, y: m.top, width, height });
                },
            }
            assert(views(steps@) =~= views(earlier) + monitor_steps(self.outputs@, k as int, m));
            assert(views(steps@) =~= gone + arrivals(self.outputs@, monitors@, order@, k + 1));
            k = k + 1;
        }
        assert(is_monitor_order(monitors@, order@));
        steps
    }

    /// Whether the output's far edges can be written down after a step.
    pub fn can_take(&self, step: &LayoutStep) -> (r: bool)
        requires
            distinct(self.outputs@),
        ensures
            r == step_fits(self@, *step),
    {
        match step {
            LayoutStep::Remove { .. } => true,
            LayoutStep::Resize { name, width, height } => match self.output_index(name.as_str()) {
                Some(i) => {
                    let g = self.outputs[i].geometry;
                    g.x <= i32::MAX - *width as i32 && g.y <= i32::MAX - *height as i32
                },
                None => true,
            },
            LayoutStep::Move { name, x, y } => match self.output_index(name.as_str()) {
                Some(i) => {
                    let g = self.outputs[i].geometry;
                    *x as i64 + g.width as i64 <= i32::MAX as i64 && *y as i64 + g.height as i64
                        <= i32::MAX as i64
                },
                None => true,
            },
            LayoutStep::Create { x, y, width, height, .. } => *x <= i32::MAX - *width as i32 && *y
                <= i32::MAX - *height as i32,
        }
    }

    /// Takes a step. An output that is resized is arranged anew before it moves.
    pub fn take_step(&mut self, step: &LayoutStep) -> (effects: Vec<Effect>)
        requires
            old(self).wf(),
            step_fits(old(self)@, *step),
        ensures
            final(self).wf(),
            step_done(old(self)@, final(self)@, *step, effects@),
    {
        let mut effects: Vec<Effect> = Vec::new();
        match step {
            LayoutStep::Remove { name } => {
                if self.outputs.len() > 1 {
                    effects = self.unregister_output(name.as_str());
                    let ghost first = effects@;
                    effects.push(
                        Effect::Emit { event: IpcEvent::OutputRemoved { name: name.clone() } },
                    );
                    assert(effects@.drop_last() =~= first);
                }
            },
            LayoutStep::Resize { name, width, height } => {
                match self.output_index(name.as_str()) {
                    Some(i) => {
                        let g = self.outputs[i].geometry;
                        if g.width != *width as i32 || g.height != *height as i32 {
                            self.set_output_geometry(
                                name.as_str(),
                                Rect {
                                    x: g.x,
                                    y: g.y,
                                    width: *width as i32,
                                    height: *height as i32,
                                },
                            );
                            effects.push(Effect::Retile { output: name.clone() });
                        }
                    },
                    None => {},
                }
            },
            LayoutStep::Move { name, x, y } => {
                match self.output_index(name.as_str()) {
                    Some(i) => {
                        let g = self.outputs[i].geometry;
                        self.set_output_geometry(
                            name.as_str(),
                            Rect { x: *x, y: *y, width: g.width, height: g.height },
                        );
                    },
                    None => {},
                }
            },
            LayoutStep::Create { name, x, y, width, height } => {
                self.register_output(
                    name.clone(),
                    Rect { x: *x, y: *y, width: *width as i32, height: *height as i32 },
                );
                effects.push(
                    Effect::Emit {
                        event: IpcEvent::OutputCreated {
                            name: name.clone(),
                            width: *width,
                            height: *height,
                        },
                    },
                );
            },
        }
        effects
    }
}

/// Steps that are taken one after the other.
pub open spec fn steps_done(before: Model, after: Model, steps: Seq<LayoutStep>) -> bool
    decreases steps.len(),
{
    if steps.len() == 0 {
        after == before
    } else {
        exists|between: Model, effects: Seq<Effect>|
            {
                &&& #[trigger] step_done(between, after, steps.last(), effects)
                &&& steps_done(before, between, steps.drop_last())
            }
    }
}

/// Where the output of this name lies, if there is one.
pub open spec fn place(outputs: Seq<OutputState>, name: Seq<char>) -> Option<Rect> {
    if has_output(outputs, name) {
        Some(outputs[index_of(outputs, name)].geometry)
    } else {
        None
    }
}

/// Where an output lies after a step, if it lay at `p` before.
pub open spec fn place_after(step: PlannedStep, name: Seq<char>, p: Option<Rect>) -> Option<Rect> {
    if step.name() != name {
        p
    } else {
        match step {
            PlannedStep::Remove { .. } => None,
            PlannedStep::Resize { width, height, .. } => match p {
                Some(g) => Some(Rect { width: width as i32, height: height as i32, ..g }),
                None => None,
            },
            PlannedStep::Move { x, y, .. } => match p {
                Some(g) => Some(Rect { x, y, ..g }),
                None => None,
            },
            PlannedStep::Create { x, y, width, height, .. } => Some(
                Rect { x, y, width: width as i32, height: height as i32 },
            ),
        }
    }
}

/// Where an output lies after some steps.
pub open spec fn place_after_all(
    steps: Seq<PlannedStep>,
    name: Seq<char>,
    p: Option<Rect>,
) -> Option<Rect>
    decreases steps.len(),
{
    if steps.len() == 0 {
        p
    } else {
        place_after(steps.last(), name, place_after_all(steps.drop_last(), name, p))
    }
}

proof fn lemma_place(outputs: Seq<OutputState>, name: Seq<char>, i: int)
    requires
        distinct(outputs),
        named(outputs, name, i),
    ensures
        place(outputs, name) == Some(outputs[i].geometry),
{
    lemma_index_of(outputs, name, i);
}

/// A step moves the output that it is about, and no other. `kept` is an output that stays.
proof fn lemma_step_moves(
    before: Model,
    after: Model,
    step: LayoutStep,
    effects: Seq<Effect>,
    kept: Seq<char>,
)
    requires
        distinct(before.outputs),
        step_done(before, after, step, effects),
        step is Remove ==> has_output(before.outputs, kept) && step@.name() != kept,
    ensures
        distinct(after.outputs),
        forall|n: Seq<char>| #[trigger]
            place(after.outputs, n) == place_after(step@, n, place(before.outputs, n)),
{
    let old_outputs = before.outputs;
    let new_outputs = after.outputs;
    let name = step@.name();
    match step {
        LayoutStep::Remove { .. } => {
            let w = index_of(old_outputs, kept);
            assert(named(old_outputs, kept, w));
            if has_output(old_outputs, name) {
                let i = index_of(old_outputs, name);
                assert(named(old_outputs, name, i));
                assert(new_outputs == old_outputs.remove(i));
                assert forall|a: int, b: int| 0 <= a < b < new_outputs.len() implies (
                #[trigger] new_outputs[a]).name@ != (#[trigger] new_outputs[b]).name@ by {
                    let a0 = if a < i {
                        a
                    } else {
                        a + 1
                    };
                    let b0 = if b < i {
                        b
                    } else {
                        b + 1
                    };
                    assert(old_outputs[a0].name@ != old_outputs[b0].name@);
                }
                assert forall|n: Seq<char>| #[trigger]
                    place(new_outputs, n) == place_after(step@, n, place(old_outputs, n)) by {
                    if has_output(new_outputs, n) {
                        let k = index_of(new_outputs, n);
                        assert(named(new_outputs, n, k));
                        let k0 = if k < i {
                            k
                        } else {
                            k + 1
                        };
                        assert(named(old_outputs, n, k0));
                        lemma_place(old_outputs, n, k0);
                        if n == name {
                            lemma_index_of(old_outputs, name, k0);
                        }
                    } else if has_output(old_outputs, n) {
                        let k = index_of(old_outputs, n);
                        assert(named(old_outputs, n, k));
                        if k != i {
                            assert(named(new_outputs, n, if k < i {
                                k
                            } else {
                                k - 1
                            }));
                        }
                    }
                }
            }
        },
        LayoutStep::Create { name: text, x, y, width, height } => {
            let r = Rect { x, y, width: width as i32, height: height as i32 };
            if has_output(old_outputs, name) {
                let i = index_of(old_outputs, name);
                assert(named(old_outputs, name, i));
                lemma_same_names(old_outputs, new_outputs);
            } else {
                assert forall|a: int, b: int| 0 <= a < b < new_outputs.len() implies (
                #[trigger] new_outputs[a]).name@ != (#[trigger] new_outputs[b]).name@ by {
                    if b == old_outputs.len() {
                        assert(!named(old_outputs, name, a));
                    }
                }
            }
            assert forall|n: Seq<char>| #[trigger]
                place(new_outputs, n) == place_after(step@, n, place(old_outputs, n)) by {
                if n == name {
                    let i = if has_output(old_outputs, name) {
                        index_of(old_outputs, name)
                    } else {
                        old_outputs.len() as int
                    };
                    if has_output(old_outputs, name) {
                        assert(named(old_outputs, name, i));
                    }
                    assert(named(new_outputs, name, i));
                    lemma_place(new_outputs, name, i);
                } else if has_output(old_outputs, n) {
                    let k = index_of(old_outputs, n);
                    assert(named(old_outputs, n, k));
                    assert(named(new_outputs, n, k));
                    lemma_place(new_outputs, n, k);
                } else if has_output(new_outputs, n) {
                    let k = index_of(new_outputs, n);
                    assert(named(new_outputs, n, k));
                    assert(named(old_outputs, n, k));
                }
            }
        },
        _ => {
            lemma_same_names(old_outputs, new_outputs);
            assert forall|n: Seq<char>| #[trigger]
                place(new_outputs, n) == place_after(step@, n, place(old_outputs, n)) by {
                if has_output(old_outputs, n) {
                    let k = index_of(old_outputs, n);
                    assert(named(old_outputs, n, k));
                    assert(has_output(new_outputs, n));
                    if has_output(old_outputs, name) {
                        assert(named(old_outputs, name, index_of(old_outputs, name)));
                    }
                } else {
                    assert(!has_output(new_outputs, n));
                }
            }
        },
    }
}

/// Each output lies where the steps put it.
proof fn lemma_steps_move(before: Model, after: Model, steps: Seq<LayoutStep>, kept: Seq<char>)
    requires
        distinct(before.outputs),
        steps_done(before, after, steps),
        forall|i: int|
            0 <= i < steps.len() && steps[i] is Remove ==> has_output(before.outputs, kept)
                && (#[trigger] steps[i])@.name() != kept,
    ensures
        distinct(after.outputs),
        forall|n: Seq<char>| #[trigger]
            place(after.outputs, n) == place_after_all(views(steps), n, place(before.outputs, n)),
    decreases steps.len(),
{
    if steps.len() > 0 {
        let (between, effects) = choose|between: Model, effects: Seq<Effect>|
            {
                &&& #[trigger] step_done(between, after, steps.last(), effects)
                &&& steps_done(before, between, steps.drop_last())
            };
        let shorter = steps.drop_last();
        assert forall|i: int| 0 <= i < shorter.len() && shorter[i] is Remove implies has_output(
            before.outputs,
            kept,
        ) && (#[trigger] shorter[i])@.name() != kept by {
            assert(steps[i] == shorter[i]);
        }
        lemma_steps_move(before, between, shorter, kept);
        assert(views(steps).drop_last() =~= views(shorter));
        assert(views(steps).last() == steps.last()@);
        if steps.last() is Remove {
            assert(steps[steps.len() - 1]@.name() != kept);
            lemma_kept_place(views(shorter), kept, place(before.outputs, kept));
            assert(place(between.outputs, kept) is Some);
        }
        lemma_step_moves(between, after, steps.last(), effects, kept);
        assert forall|n: Seq<char>| #[trigger]
            place(after.outputs, n) == place_after_all(views(steps), n, place(before.outputs, n)) by {
            assert(place(between.outputs, n) == place_after_all(
                views(shorter),
                n,
                place(before.outputs, n),
            ));
        }
    }
}

/// An output that no step removes stays.
proof fn lemma_kept_place(steps: Seq<PlannedStep>, name: Seq<char>, p: Option<Rect>)
    requires
        p is Some,
        forall|i: int|
            0 <= i < steps.len() && steps[i] is Remove ==> (#[trigger] steps[i]).name() != name,
    ensures
        place_after_all(steps, name, p) is Some,
    decreases steps.len(),
{
    if steps.len() > 0 {
        let shorter = steps.drop_last();
        assert forall|i: int| 0 <= i < shorter.len() && shorter[i] is Remove implies (
        #[trigger] shorter[i]).name() != name by {
            assert(steps[i] == shorter[i]);
        }
        lemma_kept_place(shorter, name, p);
        assert(steps.last() == steps[steps.len() - 1]);
    }
}

/// The names of a layout differ, if the first output is not named like a further one.
proof fn lemma_target_names_differ(outputs: Seq<OutputState>, j: int, k: int)
    requires
        1 <= j < k,
    ensures
        target_name(outputs, j) != target_name(outputs, k),
{
    if target_name(outputs, j) == target_name(outputs, k) {
        let a = "rdp-"@ + decimal(j as nat);
        let b = "rdp-"@ + decimal(k as nat);
        assert(a.skip("rdp-"@.len() as int) =~= decimal(j as nat));
        assert(b.skip("rdp-"@.len() as int) =~= decimal(k as nat));
        lemma_decimal_digits(j as nat);
        lemma_decimal_digits(k as nat);
    }
}

/// What the removals leave of an output.
proof fn lemma_removed(
    outputs: Seq<OutputState>,
    count: int,
    n: int,
    name: Seq<char>,
    p: Option<Rect>,
)
    requires
        0 <= n <= outputs.len(),
    ensures
        is_target(outputs, count, name) ==> place_after_all(
            removals(outputs, count, n),
            name,
            p,
        ) == p,
        !is_target(outputs, count, name) && (exists|i: int| 0 <= i < n && named(outputs, name, i))
            ==> place_after_all(removals(outputs, count, n), name, p) is None,
        p is None ==> place_after_all(removals(outputs, count, n), name, p) is None,
        forall|i: int|
            0 <= i < removals(outputs, count, n).len() ==> (#[trigger] removals(
                outputs,
                count,
                n,
            )[i]) is Remove && !is_target(outputs, count, removals(outputs, count, n)[i].name()),
    decreases n,
{
    if n > 0 {
        lemma_removed(outputs, count, n - 1, name, p);
        let before = removals(outputs, count, n - 1);
        let all = removals(outputs, count, n);
        if !is_target(outputs, count, outputs[n - 1].name@) {
            assert(all.drop_last() =~= before);
        }
        if exists|i: int| 0 <= i < n && named(outputs, name, i) {
            let i = choose|i: int| 0 <= i < n && named(outputs, name, i);
            if i < n - 1 {
                assert(named(outputs, name, i));
            }
        }
    }
}

/// What the arrivals make of an output.
proof fn lemma_arrived(
    outputs: Seq<OutputState>,
    monitors: Seq<MonitorEntry>,
    order: Seq<usize>,
    n: int,
    name: Seq<char>,
    p: Option<Rect>,
)
    requires
        is_monitor_order(monitors, order),
        0 <= n <= monitors.len(),
        forall|k: int|
            1 <= k < monitors.len() ==> #[trigger] target_name(outputs, k) != target_name(
                outputs,
                0,
            ),
        is_target(outputs, monitors.len() as int, name) ==> p == place(outputs, name),
    ensures
        !is_target(outputs, monitors.len() as int, name) ==> place_after_all(
            arrivals(outputs, monitors, order, n),
            name,
            p,
        ) == p,
        forall|k: int|
            0 <= k < n && #[trigger] target_name(outputs, k) == name ==> place_after_all(
                arrivals(outputs, monitors, order, n),
                name,
                p,
            ) == Some(monitor_rect(monitors[order[k] as int])),
        forall|k: int|
            n <= k < monitors.len() && #[trigger] target_name(outputs, k) == name
                ==> place_after_all(arrivals(outputs, monitors, order, n), name, p) == p,
        forall|i: int|
            0 <= i < arrivals(outputs, monitors, order, n).len() ==> !((#[trigger] arrivals(
                outputs,
                monitors,
                order,
                n,
            )[i]) is Remove),
    decreases n,
{
    if n > 0 {
        lemma_arrived(outputs, monitors, order, n - 1, name, p);
        let before = arrivals(outputs, monitors, order, n - 1);
        let all = arrivals(outputs, monitors, order, n);
        let m = monitors[order[n - 1] as int];
        let target = target_name(outputs, n - 1);
        let q = place_after_all(before, name, p);
        assert(is_target(outputs, monitors.len() as int, target));
        assert forall|k: int| 0 <= k < monitors.len() && k != n - 1 implies #[trigger] target_name(
            outputs,
            k,
        ) != target by {
            if k == 0 || n == 1 {
            } else if k < n - 1 {
                lemma_target_names_differ(outputs, k, n - 1);
            } else {
                lemma_target_names_differ(outputs, n - 1, k);
            }
        }
        if has_output(outputs, target) {
            assert(all.drop_last().drop_last() =~= before);
            assert(all.drop_last().last() == monitor_steps(outputs, n - 1, m)[0]);
            assert(all.last() == monitor_steps(outputs, n - 1, m)[1]);
            assert(place_after_all(all.drop_last(), name, p) == place_after(
                all.drop_last().last(),
                name,
                q,
            ));
        } else {
            assert(all.drop_last() =~= before);
        }
    }
}

/// Steps one after the other.
proof fn lemma_places_add(
    first: Seq<PlannedStep>,
    second: Seq<PlannedStep>,
    name: Seq<char>,
    p: Option<Rect>,
)
    ensures
        place_after_all(first + second, name, p) == place_after_all(
            second,
            name,
            place_after_all(first, name, p),
        ),
    decreases second.len(),
{
    if second.len() == 0 {
        assert(first + second =~= first);
    } else {
        lemma_places_add(first, second.drop_last(), name, p);
        assert((first + second).drop_last() =~= first + second.drop_last());
    }
}

/// When the steps to a layout have been taken, each monitor has an output of its size at its place,
/// and there is no other output. The first output must not be named like one for a further monitor.
pub proof fn lemma_layout_is_reached(
    before: Model,
    after: Model,
    steps: Seq<LayoutStep>,
    monitors: Seq<MonitorEntry>,
    order: Seq<usize>,
)
    requires
        distinct(before.outputs),
        monitors.len() > 0,
        is_monitor_order(monitors, order),
        views(steps) == planned(before.outputs, monitors, order),
        steps_done(before, after, steps),
        forall|k: int|
            1 <= k < monitors.len() ==> #[trigger] target_name(before.outputs, k) != target_name(
                before.outputs,
                0,
            ),
    ensures
        forall|k: int|
            0 <= k < monitors.len() ==> place(
                after.outputs,
                #[trigger] target_name(before.outputs, k),
            ) == Some(monitor_rect(monitors[order[k] as int])),
        forall|name: Seq<char>| #[trigger]
            has_output(after.outputs, name) ==> is_target(
                before.outputs,
                monitors.len() as int,
                name,
            ),
{
    let outputs = before.outputs;
    let count = monitors.len() as int;
    let gone = removals(outputs, count, outputs.len() as int);
    let come = arrivals(outputs, monitors, order, count);
    let kept = target_name(outputs, 0);
    lemma_removed(outputs, count, outputs.len() as int, kept, place(outputs, kept));
    lemma_arrived(outputs, monitors, order, count, kept, place(outputs, kept));
    assert(is_target(outputs, count, kept));
    assert forall|i: int| 0 <= i < steps.len() && steps[i] is Remove implies has_output(
        outputs,
        kept,
    ) && (#[trigger] steps[i])@.name() != kept by {
        assert(views(steps)[i] == steps[i]@);
        assert(views(steps).len() == gone.len() + come.len());
        if i < gone.len() {
            assert(steps[i]@ == gone[i]);
            assert(outputs.len() > 0);
            assert(named(outputs, kept, 0));
        } else {
            assert(steps[i]@ == come[i - gone.len()]);
        }
    }
    lemma_steps_move(before, after, steps, kept);
    assert forall|name: Seq<char>| true implies #[trigger] place(after.outputs, name)
        == place_after_all(
        come,
        name,
        place_after_all(gone, name, place(outputs, name)),
    ) by {
        lemma_places_add(gone, come, name, place(outputs, name));
    }
    assert forall|k: int| 0 <= k < monitors.len() implies place(
        after.outputs,
        #[trigger] target_name(outputs, k),
    ) == Some(monitor_rect(monitors[order[k] as int])) by {
        let name = target_name(outputs, k);
        assert(is_target(outputs, count, name));
        lemma_removed(outputs, count, outputs.len() as int, name, place(outputs, name));
        lemma_arrived(outputs, monitors, order, count, name, place(outputs, name));
    }
    assert forall|name: Seq<char>| #[trigger] has_output(after.outputs, name) implies is_target(
        outputs,
        count,
        name,
    ) by {
        if !is_target(outputs, count, name) {
            let p = place(outputs, name);
            lemma_removed(outputs, count, outputs.len() as int, name, p);
            let q = place_after_all(gone, name, p);
            if has_output(outputs, name) {
                assert(named(outputs, name, index_of(outputs, name)));
            }
            assert(q is None);
            lemma_arrived(outputs, monitors, order, count, name, q);
            assert(place(after.outputs, name) is None);
        }
    }
}

} // verus!
