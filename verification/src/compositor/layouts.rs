//! Choice and adjustment of the focused output's layout.

use crate::compositor::layout::{is_builtin_name, is_fresh_builtin, ActiveLayout};
use crate::compositor::outputs::cycle_index;
use crate::compositor::state::{
    has_output, index_of, lemma_same_names, DinatorState, Model, OutputState,
};
use crate::text::same;
use crate::tiling::ratio::{grown, shrunk, Ratio, RATIO_MAX, RATIO_MIN};
use vstd::prelude::*;
use vstd::string::*;

verus! {

/// Index of the first name that is the same, or the number of names.
pub open spec fn name_index(names: Seq<Seq<char>>, name: Seq<char>) -> int
    decreases names.len(),
{
    if names.len() == 0 {
        0
    } else {
        let i = name_index(names.drop_last(), name);
        if i < names.len() - 1 {
            i
        } else if names.last() == name {
            names.len() - 1
        } else {
            names.len() as int
        }
    }
}

proof fn lemma_name_index_stable(names: Seq<Seq<char>>, name: Seq<char>, n: int)
    requires
        0 <= n <= names.len(),
        name_index(names.take(n), name) < n,
    ensures
        name_index(names, name) == name_index(names.take(n), name),
    decreases names.len() - n,
{
    if n < names.len() {
        assert(names.take(n + 1).drop_last() =~= names.take(n));
        lemma_name_index_stable(names, name, n + 1);
    } else {
        assert(names.take(n) =~= names);
    }
}

pub open spec fn views(names: Seq<String>) -> Seq<Seq<char>> {
    names.map_values(|s: String| s@)
}

/// Index of the first name that is the same.
pub(crate) fn find_name(names: &[String], name: &str) -> (r: Option<usize>)
    ensures
        match r {
            Some(i) => i < names@.len() && name_index(views(names@), name@) == i,
            None => name_index(views(names@), name@) == names@.len(),
        },
{
    let ghost all = views(names@);
    let mut i: usize = 0;
    while i < names.len()
        invariant
            i <= names@.len(),
            all == views(names@),
            name_index(all.take(i as int), name@) == i,
        decreases names@.len() - i,
    {
        assert(all.take(i + 1).drop_last() =~= all.take(i as int));
        if same(names[i].as_str(), name) {
            proof {
                lemma_name_index_stable(all, name@, i + 1);
            }
            return Some(i);
        }
        i = i + 1;
    }
    assert(all.take(i as int) =~= all);
    None
}

/// Whether one of the names is the same.
pub open spec fn contains_name(names: Seq<String>, name: Seq<char>) -> bool {
    name_index(views(names), name) < names.len()
}

/// The names of the built-in layouts.
pub open spec fn builtin_names() -> Seq<Seq<char>> {
    seq!["column"@, "monocle"@, "dwindle"@, "centered"@, "stacked"@]
}

/// A layout of this name as it is chosen: a built-in one with its defaults, else a plugin's.
pub open spec fn is_chosen(layout: ActiveLayout, name: Seq<char>) -> bool {
    if is_builtin_name(name) {
        is_fresh_builtin(layout, name)
    } else {
        layout matches ActiveLayout::Plugin(s) && s@ == name
    }
}

impl Model {
    /// The label of the focused output's layout, or "column".
    pub open spec fn layout_label(&self) -> Seq<char> {
        match self.focused_index() {
            Some(i) => self.outputs[i].layout.label(),
            None => "column"@,
        }
    }

    /// The state with another layout on the focused output.
    pub open spec fn with_layout(&self, layout: ActiveLayout) -> Model {
        match self.focused_index() {
            Some(i) => Model {
                outputs: self.outputs.update(i, OutputState { layout, ..self.outputs[i] }),
                ..*self
            },
            None => *self,
        }
    }

    /// The state with a layout that takes over the gap of the one before.
    pub open spec fn with_layout_gapped(&self, layout: ActiveLayout) -> Model {
        match self.focused_index() {
            Some(i) => self.with_layout(layout.with_gap(self.outputs[i].layout.gap_width())),
            None => *self,
        }
    }

    /// A layout of this name can be had.
    pub open spec fn knows_layout(&self, name: Seq<char>) -> bool {
        is_builtin_name(name) || contains_name(self.plugin_layouts, name)
    }

    /// All layout names: the built-in ones, then those of plugins.
    pub open spec fn layout_names(&self) -> Seq<Seq<char>> {
        builtin_names() + views(self.plugin_layouts)
    }
}

impl DinatorState {
    /// Name of the focused output's layout.
    pub fn layout_name(&self) -> (r: &str)
        requires
            self.wf(),
        ensures
            r@ == self@.layout_label(),
    {
        match self.focused_output_index() {
            Some(i) => self.outputs[i].layout.name(),
            None => "column",
        }
    }

    /// Get the layout name for a specific output.
    pub fn layout_name_for_output(&self, output: &str) -> (r: &str)
        requires
            self.wf(),
        ensures
            r@ == (if has_output(self.outputs@, output@) {
                self.outputs@[index_of(
                    self.outputs@,
                    output@,
                )].layout.label()
            } else {
                "column"@
            }),
    {
        match self.output_index(output) {
            Some(i) => self.outputs[i].layout.name(),
            None => "column",
        }
    }

    /// Increase the master area ratio on the focused output. Returns true if changed.
    pub fn grow_master(&mut self) -> (changed: bool)
        requires
            old(self).wf(),
        ensures
            final(self).wf(),
            master_grown(old(self)@, final(self)@, changed),
    {
        match self.focused_output_index() {
            None => false,
            Some(i) => {
                let ghost before = self.outputs@;
                let output = &mut self.outputs[i];
                let changed = output.layout.grow_master();
                proof {
                    lemma_same_names(before, self.outputs@);
                    assert(self.outputs@ =~= before.update(i as int, self.outputs@[i as int]));
                    if changed {
                        let r = self.outputs@[i as int].layout.ratio()->0;
                        assert(r@ == grown(before[i as int].layout.ratio()->0@));
                        assert(self@ =~= old(self)@.with_layout(
                            before[i as int].layout.with_ratio(r),
                        ));
                    } else {
                        assert(self@ =~= old(self)@);
                    }
                }
                changed
            },
        }
    }

    /// Decrease the master area ratio on the focused output. Returns true if changed.
    pub fn shrink_master(&mut self) -> (changed: bool)
        requires
            old(self).wf(),
        ensures
            final(self).wf(),
            master_shrunk(old(self)@, final(self)@, changed),
    {
        match self.focused_output_index() {
            None => false,
            Some(i) => {
                let ghost before = self.outputs@;
                let output = &mut self.outputs[i];
                let changed = output.layout.shrink_master();
                proof {
                    lemma_same_names(before, self.outputs@);
                    assert(self.outputs@ =~= before.update(i as int, self.outputs@[i as int]));
                    if changed {
                        let r = self.outputs@[i as int].layout.ratio()->0;
                        assert(r@ == shrunk(before[i as int].layout.ratio()->0@));
                        assert(self@ =~= old(self)@.with_layout(
                            before[i as int].layout.with_ratio(r),
                        ));
                    } else {
                        assert(self@ =~= old(self)@);
                    }
                }
                changed
            },
        }
    }

    /// Current master ratio on the focused output, if applicable.
    pub fn master_ratio(&self) -> (r: Option<Ratio>)
        requires
            self.wf(),
        ensures
            r == (match self@.focused_index() {
                Some(i) => self.outputs@[i].layout.ratio(),
                None => None,
            }),
    {
        match self.focused_output_index() {
            Some(i) => self.outputs[i].layout.master_ratio(),
            None => None,
        }
    }

    /// Set the gap of the focused output's layout. Returns true if changed.
    pub fn set_layout_gap(&mut self, gap: i32) -> (changed: bool)
        requires
            old(self).wf(),
        ensures
            final(self).wf(),
            gap_set(old(self)@, final(self)@, gap, changed),
    {
        match self.focused_output_index() {
            None => false,
            Some(i) => {
                let ghost before = self.outputs@;
                let output = &mut self.outputs[i];
                let changed = output.layout.set_gap(gap);
                proof {
                    lemma_same_names(before, self.outputs@);
                    assert(self.outputs@ =~= before.update(i as int, self.outputs@[i as int]));
                }
                changed
            },
        }
    }

    /// Put a layout on the focused output. It takes over the gap of the layout before.
    pub fn set_focused_layout(&mut self, layout: ActiveLayout)
        requires
            old(self).wf(),
            layout.wf(),
        ensures
            final(self).wf(),
            final(self)@ == old(self)@.with_layout_gapped(layout),
    {
        match self.focused_output_index() {
            None => {},
            Some(i) => {
                let ghost before = self.outputs@;
                let gap: i32 = self.outputs[i].layout.gap();
                let mut gapped = layout;
                gapped.set_gap(gap);
                let output = &mut self.outputs[i];
                output.layout = gapped;
                proof {
                    lemma_same_names(before, self.outputs@);
                    assert(self.outputs@ =~= before.update(i as int, self.outputs@[i as int]));
                }
            },
        }
    }

    /// Set the tiling layout by name on the focused output. Returns true if changed.
    /// Checks built-in layouts first, then plugin-provided layouts.
    pub fn set_layout(&mut self, name: &str) -> (changed: bool)
        requires
            old(self).wf(),
        ensures
            final(self).wf(),
            changed == old(self)@.takes_layout(name@),
            layout_set(old(self)@, final(self)@, name@),
    {
        let layout: ActiveLayout = match ActiveLayout::builtin(name) {
            Some(layout) => layout,
            None => {
                match find_name(&self.plugin_layouts, name) {
                    Some(_) => ActiveLayout::Plugin(String::from_str(name)),
                    None => {
                        return false;
                    },
                }
            },
        };
        let ghost chosen = layout;
        assert(is_chosen(chosen, name@));
        let changed = self.focused_output_index().is_some();
        self.set_focused_layout(layout);
        changed
    }

    /// List all available layout names (built-in + plugin-provided).
    pub fn available_layouts(&self) -> (names: Vec<String>)
        ensures
            views(names@) == self@.layout_names(),
    {
        let mut names: Vec<String> = Vec::new();
        names.push(String::from_str("column"));
        names.push(String::from_str("monocle"));
        names.push(String::from_str("dwindle"));
        names.push(String::from_str("centered"));
        names.push(String::from_str("stacked"));
        assert(views(names@) =~= builtin_names());
        let mut i: usize = 0;
        while i < self.plugin_layouts.len()
            invariant
                i <= self.plugin_layouts@.len(),
                views(names@) =~= builtin_names() + views(self.plugin_layouts@.take(i as int)),
            decreases self.plugin_layouts@.len() - i,
        {
            let ghost before = names@;
            names.push(self.plugin_layouts[i].clone());
            proof {
                let name = self.plugin_layouts@[i as int]@;
                assert(views(names@) =~= views(before).push(name));
                assert(views(self.plugin_layouts@.take(i + 1)) =~= views(
                    self.plugin_layouts@.take(i as int),
                ).push(name));
            }
            i = i + 1;
        }
        assert(self.plugin_layouts@.take(i as int) =~= self.plugin_layouts@);
        names
    }

    /// Cycle to the next layout (forward or backward). Returns its name, if an output took it.
    pub fn cycle_layout(&mut self, direction: i32) -> (r: Option<String>)
        requires
            old(self).wf(),
        ensures
            final(self).wf(),
            match r {
                Some(name) => {
                    &&& old(self)@.focused_index() is Some
                    &&& layout_cycled(old(self)@, final(self)@, direction as int, name@)
                },
                None => old(self)@.focused_index() is None && final(self)@ == old(self)@,
            },
    {
        let names = self.available_layouts();
        let from: usize = match find_name(&names, self.layout_name()) {
            Some(i) => i,
            None => 0,
        };
        assert(views(names@).len() == names@.len());
        let next: usize = cycle_index(from, direction, names.len());
        let name: String = names[next].clone();
        proof {
            assert(views(names@)[next as int] == name@);
            lemma_listed_is_known(self@, next as int);
        }
        if self.set_layout(name.as_str()) {
            Some(name)
        } else {
            None
        }
    }
}

impl Model {
    /// A layout of this name can be put on the focused output: the name is known, and there is
    /// such an output.
    pub open spec fn takes_layout(&self, name: Seq<char>) -> bool {
        self.knows_layout(name) && self.focused_index() is Some
    }
}

/// What choosing a layout by name makes of the state: nothing where the name is not known.
pub open spec fn layout_set(before: Model, after: Model, name: Seq<char>) -> bool {
    if before.knows_layout(name) {
        exists|layout: ActiveLayout|
            #[trigger] is_chosen(layout, name) && after == before.with_layout_gapped(layout)
    } else {
        after == before
    }
}

proof fn lemma_name_index_bound(names: Seq<Seq<char>>, name: Seq<char>, i: int)
    requires
        0 <= i < names.len(),
        names[i] == name,
    ensures
        name_index(names, name) < names.len(),
    decreases names.len(),
{
    if i < names.len() - 1 {
        lemma_name_index_bound(names.drop_last(), name, i);
    }
}

/// Every layout that is listed can be had.
pub proof fn lemma_listed_is_known(m: Model, i: int)
    requires
        0 <= i < m.layout_names().len(),
    ensures
        m.knows_layout(m.layout_names()[i]),
{
    if i >= 5 {
        let names = views(m.plugin_layouts);
        lemma_name_index_bound(names, m.layout_names()[i], i - 5);
    }
}

/// The master area of the focused output grew by one step, if it could.
pub open spec fn master_grown(before: Model, after: Model, changed: bool) -> bool {
    let m = before;
    let ratio = m.outputs[m.focused_index()->0].layout.ratio();
    &&& changed == (m.focused_index() is Some && ratio is Some && ratio->0@
        < RATIO_MAX)
    &&& changed ==> exists|r: Ratio|
        (#[trigger] r@) == grown(ratio->0@) && after == m.with_layout(
            m.outputs[m.focused_index()->0].layout.with_ratio(r),
        )
    &&& !changed ==> after == m
}

/// The master area of the focused output shrank by one step, if it could.
pub open spec fn master_shrunk(before: Model, after: Model, changed: bool) -> bool {
    let m = before;
    let ratio = m.outputs[m.focused_index()->0].layout.ratio();
    &&& changed == (m.focused_index() is Some && ratio is Some && ratio->0@
        > RATIO_MIN)
    &&& changed ==> exists|r: Ratio|
        (#[trigger] r@) == shrunk(ratio->0@) && after == m.with_layout(
            m.outputs[m.focused_index()->0].layout.with_ratio(r),
        )
    &&& !changed ==> after == m
}

/// The layout of the focused output has this gap, if it knows one.
pub open spec fn gap_set(before: Model, after: Model, gap: i32, changed: bool) -> bool {
    let m = before;
    let layout = m.outputs[m.focused_index()->0].layout;
    &&& changed == (m.focused_index() is Some && layout !is Plugin
        && layout.gap_width() != gap)
    &&& after == m.with_layout(layout.with_gap(gap))
}

/// The focused output has the layout that follows its own in the list.
pub open spec fn layout_cycled(before: Model, after: Model, direction: int, name: Seq<char>) -> bool {
    let names = before.layout_names();
    let found = name_index(names, before.layout_label());
    let from = if found < names.len() {
        found
    } else {
        0
    };
    &&& name == names[(from + direction) % names.len() as int]
    &&& layout_set(before, after, name)
}

} // verus!
