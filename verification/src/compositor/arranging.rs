//! Which windows an arranged output shows, where, and which lie above which.

use crate::compositor::event::Effect;
use crate::compositor::layout::ActiveLayout;
use crate::compositor::retile::{filling, floating_up, is_tiled, placing};
use crate::compositor::state::{lemma_index_of, DinatorState, WindowInfo};
use crate::tiling::laws::{
    centered_few_places, centered_places, column_places, dwindle_places, lemma_centered_few_places,
    lemma_centered_places, lemma_column_places, lemma_dwindle_places, lemma_monocle_places,
    lemma_stacked_places, monocle_places, stacked_places,
};
use crate::tiling::{Placement, Rect, WindowId};
use vstd::prelude::*;

verus! {

broadcast use vstd::std_specs::hash::group_hash_axioms;

/// The window is neither floating nor fullscreen.
pub open spec fn lies_flat(s: DinatorState, w: WindowId) -> bool {
    !s.floating@.contains(w.0) && !s.fullscreen@.contains(w.0)
}

/// The window is one of the state's.
pub open spec fn exists_in(s: DinatorState, w: WindowId) -> bool {
    s.windows@.dom().contains(w.0)
}

/// The windows of the workspace that output `i` shows, in order.
pub open spec fn shown_on(s: DinatorState, i: int) -> Seq<WindowId> {
    s.workspaces.order(s.outputs@[i].active_workspace)
}

/// Effect `k` raises the window.
pub open spec fn raises(effects: Seq<Effect>, k: int, w: WindowId) -> bool {
    effects[k] matches Effect::Raise { id, .. } && id == w
}

/// The window is raised, and after it no window is raised or placed that is neither floating nor
/// fullscreen: among those it lies above all others.
pub open spec fn on_top(s: DinatorState, effects: Seq<Effect>, w: WindowId) -> bool {
    exists|k: int|
        {
            &&& 0 <= k < effects.len()
            &&& #[trigger] raises(effects, k, w)
            &&& forall|j: int|
                k < j < effects.len() ==> (#[trigger] effects[j] matches Effect::Raise { id, .. }
                    ==> !lies_flat(s, id))
            &&& forall|j: int|
                k < j < effects.len() ==> (#[trigger] effects[j] matches Effect::Place { id, .. }
                    ==> !lies_flat(s, id))
        }
}

/// The layout lets windows cover each other.
pub open spec fn covers(layout: ActiveLayout) -> bool {
    layout is Stacked || layout is Monocle
}

/// The names of the layouts differ.
pub(crate) proof fn lemma_covers(layout: ActiveLayout)
    ensures
        layout !is Plugin ==> layout.overlapping() == covers(layout),
{
    reveal_strlit("column");
    reveal_strlit("monocle");
    reveal_strlit("dwindle");
    reveal_strlit("centered");
    reveal_strlit("stacked");
    assert("column"@.len() == 6);
    assert("monocle"@.len() == 7);
    assert("dwindle"@.len() == 7);
    assert("centered"@.len() == 8);
    assert("stacked"@.len() == 7);
    assert("monocle"@[0] != "dwindle"@[0]);
    assert("stacked"@[0] != "dwindle"@[0]);
}

proof fn lemma_placing(placements: Seq<Placement>, windows: Map<u64, WindowInfo>)
    ensures
        ({
            let e = placing(placements, windows);
            &&& forall|k: int|
                0 <= k < e.len() ==> {
                    &&& #[trigger] e[k] matches Effect::Place { fullscreen, .. } && !fullscreen
                    &&& exists|p: int|
                        0 <= p < placements.len() && e[k] == (Effect::Place {
                            id: (#[trigger] placements[p]).id,
                            rect: placements[p].rect,
                            fullscreen: false,
                        })
                }
            &&& (forall|p: int|
                0 <= p < placements.len() ==> windows.dom().contains((#[trigger] placements[p]).id.0))
                ==> {
                &&& e.len() == placements.len()
                &&& forall|p: int|
                    0 <= p < placements.len() ==> #[trigger] e[p] == (Effect::Place {
                        id: placements[p].id,
                        rect: placements[p].rect,
                        fullscreen: false,
                    })
            }
        }),
    decreases placements.len(),
{
    if placements.len() > 0 {
        let front = placements.drop_last();
        lemma_placing(front, windows);
        let e = placing(placements, windows);
        let before = placing(front, windows);
        assert forall|k: int|
            #![trigger e[k]]
            0 <= k < e.len() implies exists|p: int|
            0 <= p < placements.len() && e[k] == (Effect::Place {
                id: (#[trigger] placements[p]).id,
                rect: placements[p].rect,
                fullscreen: false,
            }) by {
            if k < before.len() {
                assert(e[k] == before[k]);
                let p = choose|p: int|
                    0 <= p < front.len() && before[k] == (Effect::Place {
                        id: (#[trigger] front[p]).id,
                        rect: front[p].rect,
                        fullscreen: false,
                    });
                assert(placements[p] == front[p]);
            } else {
                assert(placements[placements.len() - 1] == placements.last());
            }
        }
        assert forall|k: int| 0 <= k < e.len() implies #[trigger] e[k] matches Effect::Place {
            fullscreen,
            ..
        } && !fullscreen by {
            if k < before.len() {
                assert(e[k] == before[k]);
            }
        }
        if forall|p: int|
            0 <= p < placements.len() ==> windows.dom().contains((#[trigger] placements[p]).id.0) {
            assert forall|p: int| 0 <= p < front.len() implies windows.dom().contains(
                (#[trigger] front[p]).id.0,
            ) by {
                assert(front[p] == placements[p]);
            }
            assert(windows.dom().contains(placements[placements.len() - 1].id.0));
            assert forall|p: int| 0 <= p < placements.len() implies #[trigger] e[p] == (
            Effect::Place { id: placements[p].id, rect: placements[p].rect, fullscreen: false }) by {
                if p < front.len() {
                    assert(e[p] == before[p]);
                    assert(front[p] == placements[p]);
                }
            }
        }
    }
}

proof fn lemma_filling(
    order: Seq<WindowId>,
    fullscreen: Set<u64>,
    windows: Map<u64, WindowInfo>,
    area: Rect,
)
    ensures
        ({
            let e = filling(order, fullscreen, windows, area);
            &&& forall|k: int|
                0 <= k < e.len() ==> {
                    ||| #[trigger] e[k] matches Effect::Place { id, rect, fullscreen: f } && f && rect
                        == area && fullscreen.contains(id.0)
                    ||| e[k] matches Effect::Raise { id, activate } && !activate
                        && fullscreen.contains(id.0)
                }
            &&& forall|p: int|
                0 <= p < order.len() && fullscreen.contains((#[trigger] order[p]).0)
                    && windows.dom().contains(order[p].0) ==> exists|k: int|
                    {
                        &&& 0 <= k < e.len() - 1
                        &&& #[trigger] e[k] == (Effect::Place {
                            id: order[p],
                            rect: area,
                            fullscreen: true,
                        })
                        &&& e[k + 1] == (Effect::Raise { id: order[p], activate: false })
                    }
        }),
    decreases order.len(),
{
    if order.len() > 0 {
        let front = order.drop_last();
        lemma_filling(front, fullscreen, windows, area);
        let e = filling(order, fullscreen, windows, area);
        let before = filling(front, fullscreen, windows, area);
        assert(forall|k: int| 0 <= k < before.len() ==> #[trigger] e[k] == before[k]);
        assert forall|p: int|
            0 <= p < order.len() && fullscreen.contains((#[trigger] order[p]).0)
                && windows.dom().contains(order[p].0) implies exists|k: int|
            {
                &&& 0 <= k < e.len() - 1
                &&& #[trigger] e[k] == (Effect::Place {
                    id: order[p],
                    rect: area,
                    fullscreen: true,
                })
                &&& e[k + 1] == (Effect::Raise { id: order[p], activate: false })
            } by {
            if p < front.len() {
                assert(front[p] == order[p]);
                let k = choose|k: int|
                    {
                        &&& 0 <= k < before.len() - 1
                        &&& #[trigger] before[k] == (Effect::Place {
                            id: front[p],
                            rect: area,
                            fullscreen: true,
                        })
                        &&& before[k + 1] == (Effect::Raise { id: front[p], activate: false })
                    };
                assert(e[k] == before[k] && e[k + 1] == before[k + 1]);
            } else {
                let k = before.len() as int;
                assert(e[k] == (Effect::Place { id: order[p], rect: area, fullscreen: true }));
                assert(e[k + 1] == (Effect::Raise { id: order[p], activate: false }));
            }
        }
    }
}

proof fn lemma_floating_up(order: Seq<WindowId>, floating: Set<u64>, windows: Map<u64, WindowInfo>)
    ensures
        ({
            let e = floating_up(order, floating, windows);
            &&& forall|k: int|
                0 <= k < e.len() ==> (#[trigger] e[k] matches Effect::Raise { id, activate }
                    && !activate && floating.contains(id.0))
            &&& forall|p: int|
                0 <= p < order.len() && floating.contains((#[trigger] order[p]).0)
                    && windows.dom().contains(order[p].0) ==> exists|k: int|
                    0 <= k < e.len() && #[trigger] e[k] == (Effect::Raise {
                        id: order[p],
                        activate: false,
                    })
        }),
    decreases order.len(),
{
    if order.len() > 0 {
        let front = order.drop_last();
        lemma_floating_up(front, floating, windows);
        let e = floating_up(order, floating, windows);
        let before = floating_up(front, floating, windows);
        assert(forall|k: int| 0 <= k < before.len() ==> #[trigger] e[k] == before[k]);
        assert forall|p: int|
            0 <= p < order.len() && floating.contains((#[trigger] order[p]).0)
                && windows.dom().contains(order[p].0) implies exists|k: int|
            0 <= k < e.len() && #[trigger] e[k] == (Effect::Raise {
                id: order[p],
                activate: false,
            }) by {
            if p < front.len() {
                assert(front[p] == order[p]);
                let k = choose|k: int|
                    0 <= k < before.len() && #[trigger] before[k] == (Effect::Raise {
                        id: front[p],
                        activate: false,
                    });
                assert(e[k] == before[k]);
            } else {
                assert(e[before.len() as int] == (Effect::Raise { id: order[p], activate: false }));
            }
        }
    }
}

/// What is kept of a list starts with its first item that is kept.
proof fn lemma_first_kept(order: Seq<WindowId>, keeps: spec_fn(WindowId) -> bool, p: int)
    requires
        0 <= p < order.len(),
        keeps(order[p]),
        forall|q: int| 0 <= q < p ==> !keeps(#[trigger] order[q]),
    ensures
        order.filter(keeps).len() > 0,
        order.filter(keeps)[0] == order[p],
    decreases order.len(),
{
    reveal(Seq::filter);
    let front = order.drop_last();
    if p < front.len() {
        assert(forall|q: int| 0 <= q < front.len() ==> #[trigger] front[q] == order[q]);
        lemma_first_kept(front, keeps, p);
    } else {
        lemma_none_kept(front, keeps);
    }
}

proof fn lemma_none_kept(order: Seq<WindowId>, keeps: spec_fn(WindowId) -> bool)
    requires
        forall|q: int| 0 <= q < order.len() ==> !keeps(#[trigger] order[q]),
    ensures
        order.filter(keeps).len() == 0,
    decreases order.len(),
{
    reveal(Seq::filter);
    if order.len() > 0 {
        let front = order.drop_last();
        assert(forall|q: int| 0 <= q < front.len() ==> #[trigger] front[q] == order[q]);
        assert(!keeps(order[order.len() - 1]));
        lemma_none_kept(front, keeps);
    }
}

/// Where windows cover each other, the first window of the workspace that is neither floating nor
/// fullscreen is raised above the other such windows, after all of them have their places; none of the
/// others is raised. Only floating and fullscreen windows come above it.
pub proof fn lemma_first_window_is_on_top(
    s: &DinatorState,
    output: &str,
    by_plugin: &[Placement],
    effects: Vec<Effect>,
    i: int,
    p: int,
)
    requires
        s.wf(),
        call_ensures(DinatorState::retile, (s, output, by_plugin), effects),
        0 <= i < s.outputs@.len(),
        s.outputs@[i].name@ == output@,
        covers(s.outputs@[i].layout),
        0 <= p < shown_on(*s, i).len(),
        exists_in(*s, shown_on(*s, i)[p]),
        lies_flat(*s, shown_on(*s, i)[p]),
        forall|q: int| 0 <= q < p ==> !lies_flat(*s, #[trigger] shown_on(*s, i)[q]),
    ensures
        on_top(*s, effects@, shown_on(*s, i)[p]),
        forall|j: int|
            0 <= j < effects@.len() ==> (#[trigger] effects@[j] matches Effect::Raise { id, .. }
                ==> (lies_flat(*s, id) ==> id == shown_on(*s, i)[p])),
{
    lemma_index_of(s.outputs@, output@, i);
    let o = s.outputs@[i];
    lemma_covers(o.layout);
    let order = shown_on(*s, i);
    let keeps = is_tiled(s.floating@, s.fullscreen@);
    assert forall|q: int| 0 <= q < p implies !keeps(#[trigger] order[q]) by {
        assert(!lies_flat(*s, order[q]));
    }
    lemma_first_kept(order, keeps, p);
    assert(s@.order(o.active_workspace) == order);
    let tiled = s@.tiled(o.active_workspace);
    assert(tiled[0] == order[p]);
    let placements = choose|placements: Seq<Placement>|
        #[trigger] o.layout.arranges(tiled, o.geometry, placements) && effects@
            == s@.retile_effects(i, placements);
    lemma_placing(placements, s.windows@);
    lemma_filling(order, s.fullscreen@, s.windows@, o.geometry);
    lemma_floating_up(order, s.floating@, s.windows@);
    let a = placing(placements, s.windows@);
    let b = filling(order, s.fullscreen@, s.windows@, o.geometry);
    let c = floating_up(order, s.floating@, s.windows@);
    let k = a.len() as int;
    assert(effects@ == a + seq![Effect::Raise { id: tiled[0], activate: false }] + b + c);
    assert(raises(effects@, k, order[p]));
    assert forall|j: int| k < j < effects@.len() implies (#[trigger] effects@[j] matches Effect::Raise {
        id,
        ..
    } ==> !lies_flat(*s, id)) && (effects@[j] matches Effect::Place { id, .. } ==> !lies_flat(
        *s,
        id,
    )) by {
        let j2 = j - k - 1;
        if j2 < b.len() {
            assert(effects@[j] == b[j2]);
        } else {
            assert(effects@[j] == c[j2 - b.len()]);
        }
    }
    assert forall|j: int| 0 <= j < effects@.len() implies (#[trigger] effects@[j] matches Effect::Raise {
        id,
        ..
    } ==> (lies_flat(*s, id) ==> id == order[p])) by {
        if j < k {
            assert(effects@[j] == a[j]);
        }
    }
}

/// What output `i` is asked to show, in its parts.
proof fn lemma_parts(
    s: &DinatorState,
    output: &str,
    by_plugin: &[Placement],
    effects: Vec<Effect>,
    i: int,
) -> (r: (Seq<Placement>, Seq<Effect>, Seq<Effect>, Seq<Effect>, Seq<Effect>))
    requires
        s.wf(),
        call_ensures(DinatorState::retile, (s, output, by_plugin), effects),
        0 <= i < s.outputs@.len(),
        s.outputs@[i].name@ == output@,
    ensures
        ({
            let o = s.outputs@[i];
            let order = shown_on(*s, i);
            &&& effects@ == r.1 + r.2 + r.3 + r.4
            &&& r.1 == placing(r.0, s.windows@)
            &&& r.2.len() <= 1
            &&& o.layout !is Plugin && !covers(o.layout) ==> r.2.len() == 0
            &&& forall|k: int| 0 <= k < r.2.len() ==> #[trigger] r.2[k] is Raise
            &&& r.3 == filling(order, s.fullscreen@, s.windows@, o.geometry)
            &&& r.4 == floating_up(order, s.floating@, s.windows@)
            &&& o.layout is Plugin ==> r.0 == by_plugin@
            &&& o.layout !is Plugin ==> o.layout.arranges(
                s@.tiled(o.active_workspace),
                o.geometry,
                r.0,
            )
        }),
{
    lemma_index_of(s.outputs@, output@, i);
    let o = s.outputs@[i];
    lemma_covers(o.layout);
    let order = shown_on(*s, i);
    let tiled = s@.tiled(o.active_workspace);
    assert(s@.order(o.active_workspace) == order);
    let placements = if o.layout is Plugin {
        by_plugin@
    } else {
        choose|placements: Seq<Placement>|
            #[trigger] o.layout.arranges(tiled, o.geometry, placements) && effects@
                == s@.retile_effects(i, placements)
    };
    let up = if o.layout.overlapping() && tiled.len() > 0 && s.windows@.dom().contains(tiled[0].0) {
        seq![Effect::Raise { id: tiled[0], activate: false }]
    } else {
        Seq::empty()
    };
    (
        placements,
        placing(placements, s.windows@),
        up,
        filling(order, s.fullscreen@, s.windows@, o.geometry),
        floating_up(order, s.floating@, s.windows@),
    )
}

/// Where windows stand side by side, none of them is raised above the others.
pub proof fn lemma_side_by_side_none_is_raised(
    s: &DinatorState,
    output: &str,
    by_plugin: &[Placement],
    effects: Vec<Effect>,
    i: int,
)
    requires
        s.wf(),
        call_ensures(DinatorState::retile, (s, output, by_plugin), effects),
        0 <= i < s.outputs@.len(),
        s.outputs@[i].name@ == output@,
        s.outputs@[i].layout is Column || s.outputs@[i].layout is Dwindle || s.outputs@[i].layout
            is Centered,
    ensures
        forall|j: int|
            0 <= j < effects@.len() ==> (#[trigger] effects@[j] matches Effect::Raise { id, .. }
                ==> !lies_flat(*s, id)),
{
    let o = s.outputs@[i];
    let order = shown_on(*s, i);
    let (placements, a, up, b, c) = lemma_parts(s, output, by_plugin, effects, i);
    lemma_placing(placements, s.windows@);
    lemma_filling(order, s.fullscreen@, s.windows@, o.geometry);
    lemma_floating_up(order, s.floating@, s.windows@);
    assert(up =~= Seq::<Effect>::empty());
    assert forall|j: int| 0 <= j < effects@.len() implies (#[trigger] effects@[j] matches Effect::Raise {
        id,
        ..
    } ==> !lies_flat(*s, id)) by {
        if j < a.len() {
            assert(effects@[j] == a[j]);
        } else if j < a.len() + b.len() {
            assert(effects@[j] == b[j - a.len()]);
        } else {
            assert(effects@[j] == c[j - a.len() - b.len()]);
        }
    }
}

/// A fullscreen window of the workspace covers the whole output, gaps and all, and is raised above
/// every window that the layout placed. No other window is shown fullscreen.
pub proof fn lemma_fullscreen_covers_the_output(
    s: &DinatorState,
    output: &str,
    by_plugin: &[Placement],
    effects: Vec<Effect>,
    i: int,
)
    requires
        s.wf(),
        call_ensures(DinatorState::retile, (s, output, by_plugin), effects),
        0 <= i < s.outputs@.len(),
        s.outputs@[i].name@ == output@,
    ensures
        forall|p: int|
            0 <= p < shown_on(*s, i).len() && s.fullscreen@.contains(
                (#[trigger] shown_on(*s, i)[p]).0,
            ) && exists_in(*s, shown_on(*s, i)[p]) ==> exists|k: int|
                {
                    &&& 0 <= k < effects@.len() - 1
                    &&& #[trigger] effects@[k] == (Effect::Place {
                        id: shown_on(*s, i)[p],
                        rect: s.outputs@[i].geometry,
                        fullscreen: true,
                    })
                    &&& raises(effects@, k + 1, shown_on(*s, i)[p])
                    &&& forall|j: int|
                        k < j < effects@.len() ==> (#[trigger] effects@[j] matches Effect::Place {
                            fullscreen,
                            ..
                        } ==> fullscreen)
                },
        forall|j: int|
            0 <= j < effects@.len() ==> (#[trigger] effects@[j] matches Effect::Place {
                id,
                rect,
                fullscreen,
            } ==> (fullscreen ==> s.fullscreen@.contains(id.0) && rect == s.outputs@[i].geometry)),
{
    let o = s.outputs@[i];
    let order = shown_on(*s, i);
    let (placements, a, up, b, c) = lemma_parts(s, output, by_plugin, effects, i);
    lemma_placing(placements, s.windows@);
    lemma_filling(order, s.fullscreen@, s.windows@, o.geometry);
    lemma_floating_up(order, s.floating@, s.windows@);
    let n = (a.len() + up.len()) as int;
    assert forall|j: int| n <= j < effects@.len() implies (#[trigger] effects@[j] matches Effect::Place {
        fullscreen,
        ..
    } ==> fullscreen) by {
        if j < n + b.len() {
            assert(effects@[j] == b[j - n]);
        } else {
            assert(effects@[j] == c[j - n - b.len()]);
        }
    }
    assert forall|p: int|
        0 <= p < order.len() && s.fullscreen@.contains((#[trigger] order[p]).0) && exists_in(
            *s,
            order[p],
        ) implies exists|k: int|
        {
            &&& 0 <= k < effects@.len() - 1
            &&& #[trigger] effects@[k] == (Effect::Place {
                id: order[p],
                rect: o.geometry,
                fullscreen: true,
            })
            &&& raises(effects@, k + 1, order[p])
            &&& forall|j: int|
                k < j < effects@.len() ==> (#[trigger] effects@[j] matches Effect::Place {
                    fullscreen,
                    ..
                } ==> fullscreen)
        } by {
        let q = choose|q: int|
            {
                &&& 0 <= q < b.len() - 1
                &&& #[trigger] b[q] == (Effect::Place {
                    id: order[p],
                    rect: o.geometry,
                    fullscreen: true,
                })
                &&& b[q + 1] == (Effect::Raise { id: order[p], activate: false })
            };
        assert(effects@[n + q] == b[q]);
        assert(effects@[n + q + 1] == b[q + 1]);
        assert(raises(effects@, n + q + 1, order[p]));
    }
    assert forall|j: int| 0 <= j < effects@.len() implies (#[trigger] effects@[j] matches Effect::Place {
        id,
        rect,
        fullscreen,
    } ==> (fullscreen ==> s.fullscreen@.contains(id.0) && rect == o.geometry)) by {
        if j < a.len() {
            assert(effects@[j] == a[j]);
        } else if j < n {
            assert(effects@[j] == up[j - a.len()]);
        } else if j < n + b.len() {
            assert(effects@[j] == b[j - n]);
        } else {
            assert(effects@[j] == c[j - n - b.len()]);
        }
    }
}

/// The floating windows of the workspace come above all others: each is raised, and after it nothing
/// but floating windows. Arranging moves no floating window.
pub proof fn lemma_floating_windows_are_above(
    s: &DinatorState,
    output: &str,
    by_plugin: &[Placement],
    effects: Vec<Effect>,
    i: int,
)
    requires
        s.wf(),
        call_ensures(DinatorState::retile, (s, output, by_plugin), effects),
        0 <= i < s.outputs@.len(),
        s.outputs@[i].name@ == output@,
    ensures
        forall|p: int|
            0 <= p < shown_on(*s, i).len() && s.floating@.contains(
                (#[trigger] shown_on(*s, i)[p]).0,
            ) && exists_in(*s, shown_on(*s, i)[p]) ==> exists|k: int|
                {
                    &&& 0 <= k < effects@.len()
                    &&& #[trigger] raises(effects@, k, shown_on(*s, i)[p])
                    &&& forall|j: int|
                        k < j < effects@.len() ==> (#[trigger] effects@[j] matches Effect::Raise {
                            id,
                            ..
                        } && s.floating@.contains(id.0))
                },
{
    let o = s.outputs@[i];
    let order = shown_on(*s, i);
    let (placements, a, up, b, c) = lemma_parts(s, output, by_plugin, effects, i);
    lemma_floating_up(order, s.floating@, s.windows@);
    let n = (a.len() + up.len() + b.len()) as int;
    assert forall|j: int| n <= j < effects@.len() implies (#[trigger] effects@[j] matches Effect::Raise {
        id,
        ..
    } && s.floating@.contains(id.0)) by {
        assert(effects@[j] == c[j - n]);
    }
    assert forall|p: int|
        0 <= p < order.len() && s.floating@.contains((#[trigger] order[p]).0) && exists_in(
            *s,
            order[p],
        ) implies exists|k: int|
        {
            &&& 0 <= k < effects@.len()
            &&& #[trigger] raises(effects@, k, order[p])
            &&& forall|j: int|
                k < j < effects@.len() ==> (#[trigger] effects@[j] matches Effect::Raise { id, .. }
                    && s.floating@.contains(id.0))
        } by {
        let q = choose|q: int|
            0 <= q < c.len() && #[trigger] c[q] == (Effect::Raise {
                id: order[p],
                activate: false,
            });
        assert(effects@[n + q] == c[q]);
        assert(raises(effects@, n + q, order[p]));
    }
}

/// The places are those of the layout.
pub open spec fn layout_places(
    layout: ActiveLayout,
    windows: Seq<WindowId>,
    area: Rect,
    r: Seq<Placement>,
) -> bool {
    match layout {
        ActiveLayout::Column(l) => column_places(l, windows, area, r),
        ActiveLayout::Monocle(l) => monocle_places(l, windows, area, r),
        ActiveLayout::Dwindle(l) => dwindle_places(l, windows, area, r),
        ActiveLayout::Centered(l) => if windows.len() >= 3 {
            centered_places(l, windows, area, r)
        } else if windows.len() >= 1 {
            centered_few_places(l, windows, area, r)
        } else {
            r.len() == 0
        },
        ActiveLayout::Stacked(l) => stacked_places(l, windows, area, r),
        ActiveLayout::Plugin(_) => false,
    }
}

proof fn lemma_layout_places(
    layout: ActiveLayout,
    windows: Seq<WindowId>,
    area: Rect,
    r: Seq<Placement>,
)
    requires
        layout.arrangeable(windows.len(), area),
        layout.arranges(windows, area, r),
    ensures
        layout_places(layout, windows, area, r),
        r.len() == windows.len(),
{
    match layout {
        ActiveLayout::Column(l) => lemma_column_places(l, windows, area, r),
        ActiveLayout::Monocle(l) => lemma_monocle_places(l, windows, area, r),
        ActiveLayout::Dwindle(l) => lemma_dwindle_places(l, windows, area, r),
        ActiveLayout::Centered(l) => {
            if windows.len() >= 3 {
                lemma_centered_places(l, windows, area, r);
            } else if windows.len() >= 1 {
                lemma_centered_few_places(l, windows, area, r);
            }
        },
        ActiveLayout::Stacked(l) => lemma_stacked_places(l, windows, area, r),
        ActiveLayout::Plugin(_) => {},
    }
}

/// A layout that is asked by its name arranges as that layout does.
pub proof fn lemma_layouts_arrange(
    layout: &ActiveLayout,
    windows: &[WindowId],
    area: Rect,
    r: Vec<Placement>,
)
    requires
        layout.arrangeable(windows@.len(), area),
        call_ensures(ActiveLayout::arrange, (layout, windows, area), r),
    ensures
        layout_places(*layout, windows@, area, r@),
{
    lemma_layout_places(*layout, windows@, area, r@);
}

/// The windows of the workspace that neither float nor are fullscreen stand where the output's layout
/// puts them, in their order: first of all, and before any other window is shown.
pub proof fn lemma_windows_stand_where_the_layout_says(
    s: &DinatorState,
    output: &str,
    by_plugin: &[Placement],
    effects: Vec<Effect>,
    i: int,
    flat: Seq<WindowId>,
)
    requires
        s.wf(),
        s.retilable(output@),
        call_ensures(DinatorState::retile, (s, output, by_plugin), effects),
        0 <= i < s.outputs@.len(),
        s.outputs@[i].name@ == output@,
        s.outputs@[i].layout !is Plugin,
        forall|p: int| 0 <= p < shown_on(*s, i).len() ==> exists_in(*s, #[trigger] shown_on(*s, i)[p]),
        flat == shown_on(*s, i).filter(|w: WindowId| lies_flat(*s, w)),
    ensures
        exists|r: Seq<Placement>|
            {
                &&& #[trigger] layout_places(
                    s.outputs@[i].layout,
                    flat,
                    s.outputs@[i].geometry,
                    r,
                )
                &&& r.len() <= effects@.len()
                &&& forall|p: int|
                    0 <= p < r.len() ==> #[trigger] effects@[p] == (Effect::Place {
                        id: r[p].id,
                        rect: r[p].rect,
                        fullscreen: false,
                    })
                &&& forall|p: int|
                    r.len() <= p < effects@.len() ==> (#[trigger] effects@[p] matches Effect::Place {
                        id,
                        ..
                    } ==> !lies_flat(*s, id))
            },
{
    lemma_index_of(s.outputs@, output@, i);
    let o = s.outputs@[i];
    let order = shown_on(*s, i);
    let keeps = |w: WindowId| lies_flat(*s, w);
    assert(keeps =~= is_tiled(s.floating@, s.fullscreen@));
    let tiled = order.filter(keeps);
    assert(s@.order(o.active_workspace) == order);
    assert(tiled == s@.tiled(o.active_workspace));
    let (r, a, up, b, c) = lemma_parts(s, output, by_plugin, effects, i);
    lemma_layout_places(o.layout, tiled, o.geometry, r);
    assert forall|p: int| 0 <= p < tiled.len() implies exists_in(*s, #[trigger] tiled[p]) by {
        let kept = is_tiled(s.floating@, s.fullscreen@);
        assert(tiled == order.filter(kept));
        assert(order.filter(kept).contains(tiled[p]));
        order.lemma_filter_contains_rev(kept, tiled[p]);
        let q = choose|q: int| 0 <= q < order.len() && order[q] == tiled[p];
        assert(exists_in(*s, shown_on(*s, i)[q]));
    }
    lemma_places_are_of_windows(o.layout, tiled, o.geometry, r);
    lemma_placing(r, s.windows@);
    lemma_filling(order, s.fullscreen@, s.windows@, o.geometry);
    lemma_floating_up(order, s.floating@, s.windows@);
    let n = (a.len() + up.len()) as int;
    assert forall|p: int| 0 <= p < r.len() implies #[trigger] effects@[p] == (Effect::Place {
        id: r[p].id,
        rect: r[p].rect,
        fullscreen: false,
    }) by {
        assert(effects@[p] == a[p]);
    }
    assert forall|p: int| r.len() <= p < effects@.len() implies (
    #[trigger] effects@[p] matches Effect::Place { id, .. } ==> !lies_flat(*s, id)) by {
        if p < n {
            assert(effects@[p] == up[p - a.len()]);
        } else if p < n + b.len() {
            assert(effects@[p] == b[p - n]);
        } else {
            assert(effects@[p] == c[p - n - b.len()]);
        }
    }
}

/// Every place is one for a window of the list.
proof fn lemma_places_are_of_windows(
    layout: ActiveLayout,
    windows: Seq<WindowId>,
    area: Rect,
    r: Seq<Placement>,
)
    requires
        layout_places(layout, windows, area, r),
        r.len() == windows.len(),
    ensures
        forall|p: int| 0 <= p < r.len() ==> windows.contains((#[trigger] r[p]).id),
{
    assert forall|p: int| 0 <= p < r.len() implies windows.contains((#[trigger] r[p]).id) by {
        let n = windows.len() as int;
        match layout {
            ActiveLayout::Centered(_) => {
                if n >= 3 {
                    if p == 0 {
                        assert(r[p].id == windows[0]);
                    } else if p <= n / 2 {
                        assert(r[p].id == windows[2 * p - 1]);
                    } else {
                        assert(r[p].id == windows[2 * (p - n / 2)]);
                    }
                } else if p == 0 {
                    assert(r[p].id == windows[0]);
                } else {
                    assert(r[p].id == windows[1]);
                }
            },
            _ => {
                assert(r[p].id == windows[p]);
            },
        }
    }
}

} // verus!
