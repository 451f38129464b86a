//! Arrangement of an output's windows.

use crate::compositor::event::Effect;
use crate::compositor::layout::ActiveLayout;
use crate::compositor::state::{has_output, index_of, DinatorState, Model, WindowInfo};
use crate::tiling::{Placement, Rect, WindowId};
use vstd::prelude::*;

verus! {

broadcast use vstd::std_specs::hash::group_hash_axioms;

/// The windows of a list that are neither floating nor fullscreen.
pub open spec fn is_tiled(floating: Set<u64>, fullscreen: Set<u64>) -> spec_fn(WindowId) -> bool {
    |w: WindowId| !floating.contains(w.0) && !fullscreen.contains(w.0)
}

/// Show the placed windows that exist.
pub open spec fn placing(placements: Seq<Placement>, windows: Map<u64, WindowInfo>) -> Seq<Effect>
    decreases placements.len(),
{
    if placements.len() == 0 {
        Seq::empty()
    } else {
        let before = placing(placements.drop_last(), windows);
        let p = placements.last();
        if windows.dom().contains(p.id.0) {
            before.push(Effect::Place { id: p.id, rect: p.rect, fullscreen: false })
        } else {
            before
        }
    }
}

/// Show the fullscreen windows of a list over the whole output, above the tiled ones.
pub open spec fn filling(
    order: Seq<WindowId>,
    fullscreen: Set<u64>,
    windows: Map<u64, WindowInfo>,
    area: Rect,
) -> Seq<Effect>
    decreases order.len(),
{
    if order.len() == 0 {
        Seq::empty()
    } else {
        let before = filling(order.drop_last(), fullscreen, windows, area);
        let id = order.last();
        if fullscreen.contains(id.0) && windows.dom().contains(id.0) {
            before.push(Effect::Place { id, rect: area, fullscreen: true }).push(
                Effect::Raise { id, activate: false },
            )
        } else {
            before
        }
    }
}

/// Raise the floating windows of a list above everything else.
pub open spec fn floating_up(
    order: Seq<WindowId>,
    floating: Set<u64>,
    windows: Map<u64, WindowInfo>,
) -> Seq<Effect>
    decreases order.len(),
{
    if order.len() == 0 {
        Seq::empty()
    } else {
        let before = floating_up(order.drop_last(), floating, windows);
        let id = order.last();
        if floating.contains(id.0) && windows.dom().contains(id.0) {
            before.push(Effect::Raise { id, activate: false })
        } else {
            before
        }
    }
}

impl Model {
    /// The windows of a workspace that a layout arranges.
    pub open spec fn tiled(&self, ws: usize) -> Seq<WindowId> {
        self.order(ws).filter(is_tiled(self.floating, self.fullscreen))
    }

    /// What arranging output `i` by the given placements asks for: the tiled windows, the first of
    /// them above the others where windows cover each other, then the fullscreen windows, then
    /// the floating ones.
    pub open spec fn retile_effects(&self, i: int, placements: Seq<Placement>) -> Seq<Effect> {
        let o = self.outputs[i];
        let order = self.order(o.active_workspace);
        let tiled = self.tiled(o.active_workspace);
        placing(placements, self.windows) + (if o.layout.overlapping() && tiled.len() > 0
            && self.windows.dom().contains(tiled[0].0) {
            seq![Effect::Raise { id: tiled[0], activate: false }]
        } else {
            Seq::empty()
        }) + filling(order, self.fullscreen, self.windows, o.geometry) + floating_up(
            order,
            self.floating,
            self.windows,
        )
    }
}

impl DinatorState {
    /// The windows of a workspace that a layout arranges.
    pub fn tiled_windows(&self, ws: usize) -> (r: Vec<WindowId>)
        requires
            self.wf(),
        ensures
            r@ == self@.tiled(ws),
    {
        let order = self.workspaces.list(ws);
        let ghost keeps = is_tiled(self.floating@, self.fullscreen@);
        let mut r: Vec<WindowId> = Vec::new();
        let mut k: usize = 0;
        while k < order.len()
            invariant
                k <= order@.len(),
                keeps == is_tiled(self.floating@, self.fullscreen@),
                r@ == order@.take(k as int).filter(keeps),
            decreases order@.len() - k,
        {
            proof {
                assert(order@.take(k + 1).drop_last() =~= order@.take(k as int));
                reveal(Seq::filter);
            }
            if !self.floating.contains(&order[k].0) && !self.fullscreen.contains(&order[k].0) {
                r.push(order[k]);
            }
            k = k + 1;
        }
        assert(order@.take(k as int) =~= order@);
        r
    }

    /// Whether a built-in layout can arrange the windows of an output.
    pub fn can_retile(&self, output: &str) -> (r: bool)
        requires
            self.wf(),
        ensures
            r == self.retilable(output@),
    {
        match self.output_index(output) {
            Some(i) => {
                let o = &self.outputs[i];
                let tiled = self.tiled_windows(o.active_workspace);
                match o.layout {
                    ActiveLayout::Plugin(_) => true,
                    _ => o.layout.can_arrange(tiled.len(), o.geometry),
                }
            },
            None => true,
        }
    }

    /// The windows of an output can be arranged: its layout is a plugin's, or every place can be
    /// written down.
    pub open spec fn retilable(&self, output: Seq<char>) -> bool {
        has_output(self.outputs@, output) ==> {
            let o = self.outputs@[index_of(self.outputs@, output)];
            o.layout is Plugin || o.layout.arrangeable(
                self@.tiled(o.active_workspace).len(),
                o.geometry,
            )
        }
    }

    /// Re-tile all windows on the given output, by its active workspace and layout. Floating and
    /// fullscreen windows are left out of the layout. `by_plugin` is what a plugin's layout made
    /// of the tiled windows; a built-in layout does not look at it.
    pub fn retile(&self, output: &str, by_plugin: &[Placement]) -> (effects: Vec<Effect>)
        requires
            self.wf(),
            self.retilable(output@),
        ensures
            if has_output(self.outputs@, output@) {
                let i = index_of(self.outputs@, output@);
                let o = self.outputs@[i];
                if o.layout is Plugin {
                    effects@ == self@.retile_effects(i, by_plugin@)
                } else {
                    exists|placements: Seq<Placement>|
                        #[trigger] o.layout.arranges(
                            self@.tiled(o.active_workspace),
                            o.geometry,
                            placements,
                        ) && effects@ == self@.retile_effects(i, placements)
                }
            } else {
                effects@ == Seq::<Effect>::empty()
            },
    {
        match self.output_index(output) {
            Some(i) => {
                let o = &self.outputs[i];
                let tiled = self.tiled_windows(o.active_workspace);
                match o.layout {
                    ActiveLayout::Plugin(_) => self.retile_with(i, &tiled, by_plugin),
                    _ => {
                        let placements = o.layout.arrange(&tiled, o.geometry);
                        self.retile_with(i, &tiled, &placements)
                    },
                }
            },
            None => Vec::new(),
        }
    }

    /// The effects of arranging output `i` by the given placements.
    fn retile_with(&self, i: usize, tiled: &[WindowId], placements: &[Placement]) -> (effects: Vec<
        Effect,
    >)
        requires
            self.wf(),
            i < self.outputs@.len(),
            tiled@ == self@.tiled(self.outputs@[i as int].active_workspace),
        ensures
            effects@ == self@.retile_effects(i as int, placements@),
    {
        let o = &self.outputs[i];
        let order = self.workspaces.list(o.active_workspace);
        let mut effects: Vec<Effect> = Vec::new();
        let mut k: usize = 0;
        while k < placements.len()
            invariant
                k <= placements@.len(),
                effects@ == placing(placements@.take(k as int), self.windows@),
            decreases placements@.len() - k,
        {
            assert(placements@.take(k + 1).drop_last() =~= placements@.take(k as int));
            let p: Placement = placements[k];
            if self.windows.contains_key(&p.id.0) {
                effects.push(Effect::Place { id: p.id, rect: p.rect, fullscreen: false });
            }
            k = k + 1;
        }
        assert(placements@.take(k as int) =~= placements@);
        if o.layout.is_overlapping() && tiled.len() > 0 && self.windows.contains_key(&tiled[0].0) {
            effects.push(Effect::Raise { id: tiled[0], activate: false });
        }
        let ghost placed = effects@;
        k = 0;
        assert(order@.take(0) =~= Seq::<WindowId>::empty());
        assert(placed =~= placed + filling(order@.take(0), self.fullscreen@, self.windows@, o.geometry));
        while k < order.len()
            invariant
                k <= order@.len(),
                effects@ =~= placed + filling(
                    order@.take(k as int),
                    self.fullscreen@,
                    self.windows@,
                    o.geometry,
                ),
            decreases order@.len() - k,
        {
            assert(order@.take(k + 1).drop_last() =~= order@.take(k as int));
            let id: WindowId = order[k];
            if self.fullscreen.contains(&id.0) && self.windows.contains_key(&id.0) {
                effects.push(Effect::Place { id, rect: o.geometry, fullscreen: true });
                effects.push(Effect::Raise { id, activate: false });
            }
            k = k + 1;
        }
        assert(order@.take(k as int) =~= order@);
        let ghost filled = effects@;
        k = 0;
        assert(filled =~= filled + floating_up(order@.take(0), self.floating@, self.windows@));
        while k < order.len()
            invariant
                k <= order@.len(),
                effects@ =~= filled + floating_up(
                    order@.take(k as int),
                    self.floating@,
                    self.windows@,
                ),
            decreases order@.len() - k,
        {
            assert(order@.take(k + 1).drop_last() =~= order@.take(k as int));
            let id: WindowId = order[k];
            if self.floating.contains(&id.0) && self.windows.contains_key(&id.0) {
                effects.push(Effect::Raise { id, activate: false });
            }
            k = k + 1;
        }
        assert(order@.take(k as int) =~= order@);
        assert(effects@ =~= self@.retile_effects(i as int, placements@));
        effects
    }
}

} // verus!
