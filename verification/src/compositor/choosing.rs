//! What choosing and adjusting a layout does, and what the title bars show.

use crate::compositor::arranging::{exists_in, lies_flat, shown_on};
use crate::compositor::layout::{is_builtin_name, ActiveLayout};
use crate::compositor::actions::layout_configured;
use crate::compositor::layouts::{
    builtin_names, is_chosen, layout_cycled, layout_set, master_grown, master_shrunk, name_index, views,
};
use crate::compositor::moving::{
    is_focused, lemma_focused, lemma_view_parts, same_lists, same_memory, same_setup, same_windows,
    unchanged,
};
use crate::compositor::retile::is_tiled;
use crate::compositor::seen::{is_first_seen, SeenWindow};
use crate::compositor::state::{lemma_index_of, DinatorState, Model};
use crate::compositor::tabs::{is_tab, tab_windows, StackedTabs, Tab};
use crate::tiling::laws::{is_step_down, is_step_up};
use crate::tiling::ratio::{grown, lemma_steps_are_twentieths, shrunk, Ratio};
use crate::tiling::WindowId;
use vstd::prelude::*;

verus! {

broadcast use vstd::std_specs::hash::group_hash_axioms;

/// The gap between the windows of a layout.
pub open spec fn gap_of(layout: ActiveLayout) -> i32 {
    match layout {
        ActiveLayout::Column(l) => l.gap,
        ActiveLayout::Monocle(l) => l.gap,
        ActiveLayout::Dwindle(l) => l.gap,
        ActiveLayout::Centered(l) => l.gap,
        ActiveLayout::Stacked(l) => l.gap,
        ActiveLayout::Plugin(_) => 0,
    }
}

/// The layout goes by the name.
pub open spec fn goes_by(layout: ActiveLayout, name: Seq<char>) -> bool {
    match layout {
        ActiveLayout::Column(_) => name == "column"@,
        ActiveLayout::Monocle(_) => name == "monocle"@,
        ActiveLayout::Dwindle(_) => name == "dwindle"@,
        ActiveLayout::Centered(_) => name == "centered"@,
        ActiveLayout::Stacked(_) => name == "stacked"@,
        ActiveLayout::Plugin(own) => name == own@,
    }
}

/// Only output `i` changed, and of it only the layout.
pub open spec fn only_layout_changed(a: DinatorState, b: DinatorState, i: int) -> bool {
    &&& b.outputs@.len() == a.outputs@.len()
    &&& forall|j: int|
        0 <= j < a.outputs@.len() && j != i ==> #[trigger] b.outputs@[j] == a.outputs@[j]
    &&& b.outputs@[i].name == a.outputs@[i].name
    &&& b.outputs@[i].geometry == a.outputs@[i].geometry
    &&& b.outputs@[i].active_workspace == a.outputs@[i].active_workspace
    &&& b.outputs@[i].background == a.outputs@[i].background
    &&& b@.focused_output == a@.focused_output
    &&& b.keyboard_focus == a.keyboard_focus
    &&& same_windows(a, b)
    &&& same_setup(a, b)
    &&& same_lists(a, b)
    &&& same_memory(a, b)
}

/// A layout is one of the five that are built in, or plugins provide it.
pub open spec fn is_on_offer(s: DinatorState, name: Seq<char>) -> bool {
    ||| name == "column"@ || name == "monocle"@ || name == "dwindle"@ || name == "centered"@ || name
        == "stacked"@
    ||| exists|k: int| 0 <= k < s.plugin_layouts@.len() && (#[trigger] s.plugin_layouts@[k])@ == name
}

proof fn lemma_names_differ()
    ensures
        "column"@ != "monocle"@,
        "column"@ != "dwindle"@,
        "column"@ != "centered"@,
        "column"@ != "stacked"@,
        "monocle"@ != "dwindle"@,
        "monocle"@ != "centered"@,
        "monocle"@ != "stacked"@,
        "dwindle"@ != "centered"@,
        "dwindle"@ != "stacked"@,
        "centered"@ != "stacked"@,
{
    reveal_strlit("column");
    reveal_strlit("monocle");
    reveal_strlit("dwindle");
    reveal_strlit("centered");
    reveal_strlit("stacked");
    assert("column"@.len() == 6);
    assert("monocle"@.len() == 7);
    assert("dwindle"@.len() == 7);
    assert("centered"@.len() == 8);
    assert("stacked"@.len() == 7);
    assert("monocle"@[0] != "dwindle"@[0]);
    assert("monocle"@[0] != "stacked"@[0]);
    assert("stacked"@[0] != "dwindle"@[0]);
}

pub(crate) proof fn lemma_name_found(names: Seq<Seq<char>>, name: Seq<char>)
    ensures
        0 <= name_index(names, name) <= names.len(),
        name_index(names, name) < names.len() ==> names[name_index(names, name)] == name,
        forall|j: int| 0 <= j < name_index(names, name) ==> #[trigger] names[j] != name,
    decreases names.len(),
{
    if names.len() > 0 {
        let front = names.drop_last();
        lemma_name_found(front, name);
        assert forall|j: int| 0 <= j < name_index(names, name) implies #[trigger] names[j]
            != name by {
            if j < front.len() {
                assert(front[j] == names[j]);
            }
        }
    }
}

proof fn lemma_on_offer(s: DinatorState, name: Seq<char>)
    ensures
        s@.knows_layout(name) == is_on_offer(s, name),
{
    let names = views(s.plugin_layouts@);
    lemma_name_found(names, name);
    let k = name_index(names, name);
    if k < names.len() {
        assert(names[k] == s.plugin_layouts@[k]@);
        assert(s.plugin_layouts@[k]@ == name);
    }
    if exists|j: int| 0 <= j < s.plugin_layouts@.len() && (#[trigger] s.plugin_layouts@[j])@ == name {
        let j = choose|j: int|
            0 <= j < s.plugin_layouts@.len() && (#[trigger] s.plugin_layouts@[j])@ == name;
        assert(names[j] == name);
    }
}

pub(crate) proof fn lemma_chosen(a: DinatorState, b: DinatorState, name: Seq<char>, i: int)
    requires
        a.wf(),
        is_focused(a, i),
        layout_set(a@, b@, name),
    ensures
        a@.takes_layout(name) == is_on_offer(a, name),
        !is_on_offer(a, name) ==> unchanged(a, b),
        is_on_offer(a, name) ==> {
            &&& only_layout_changed(a, b, i)
            &&& goes_by(b.outputs@[i].layout, name)
            &&& b.outputs@[i].layout !is Plugin ==> gap_of(b.outputs@[i].layout) == gap_of(
                a.outputs@[i].layout,
            )
        },
{
    lemma_focused(a, i);
    lemma_view_parts(a, b);
    lemma_on_offer(a, name);
    lemma_names_differ();
    if is_on_offer(a, name) {
        let layout = choose|layout: ActiveLayout|
            #[trigger] is_chosen(layout, name) && b@ == a@.with_layout_gapped(layout);
        assert(b.outputs@[i].layout == layout.with_gap(a.outputs@[i].layout.gap_width()));
    }
}

/// The same of the steps of a configuration: the layout is chosen last.
pub(crate) proof fn lemma_chosen_in(
    a: DinatorState,
    before: Model,
    after: Model,
    name: Option<String>,
    i: int,
)
    requires
        before.plugin_layouts == a.plugin_layouts@,
        before.focused_index() == Some(i),
        0 <= i < before.outputs.len(),
        layout_configured(before, after, name),
    ensures
        name is None ==> after == before,
        name matches Some(n) ==> (is_on_offer(a, n@) ==> {
            &&& goes_by(after.outputs[i].layout, n@)
            &&& after.outputs[i].layout !is Plugin ==> gap_of(after.outputs[i].layout) == gap_of(
                before.outputs[i].layout,
            )
        }),
        name matches Some(n) ==> (!is_on_offer(a, n@) ==> after == before),
        name matches Some(n) ==> before.takes_layout(n@) == is_on_offer(a, n@),
        after.outputs[i].background == before.outputs[i].background,
{
    lemma_names_differ();
    if name is Some {
        let n = name->0@;
        lemma_on_offer(a, n);
        assert(before.knows_layout(n) == a@.knows_layout(n));
        if is_on_offer(a, n) {
            let layout = choose|layout: ActiveLayout|
                #[trigger] is_chosen(layout, n) && after == before.with_layout_gapped(layout);
            assert(after.outputs[i].layout == layout.with_gap(before.outputs[i].layout.gap_width()));
        }
    }
}

/// A layout that is chosen by its name is that layout, on the focused output alone, with the gap of the
/// one before. Only layouts on offer can be chosen.
pub proof fn lemma_layout_is_chosen(s: &mut DinatorState, name: &str, changed: bool, i: int)
    requires
        old(s).wf(),
        is_focused(*old(s), i),
        call_ensures(DinatorState::set_layout, (s, name), changed),
    ensures
        changed <==> is_on_offer(*old(s), name@),
        !changed ==> unchanged(*old(s), *final(s)),
        changed ==> {
            &&& only_layout_changed(*old(s), *final(s), i)
            &&& goes_by(final(s).outputs@[i].layout, name@)
            &&& final(s).outputs@[i].layout !is Plugin ==> gap_of(final(s).outputs@[i].layout)
                == gap_of(old(s).outputs@[i].layout)
        },
{
    lemma_chosen(*old(s), *final(s), name@, i);
}

/// The layouts on offer are the five that are built in, and then those of plugins.
pub proof fn lemma_layouts_are_listed(s: &DinatorState, names: Vec<String>)
    requires
        call_ensures(DinatorState::available_layouts, (s,), names),
    ensures
        names@.len() == 5 + s.plugin_layouts@.len(),
        names@[0]@ == "column"@,
        names@[1]@ == "monocle"@,
        names@[2]@ == "dwindle"@,
        names@[3]@ == "centered"@,
        names@[4]@ == "stacked"@,
        forall|k: int|
            0 <= k < s.plugin_layouts@.len() ==> (#[trigger] names@[5 + k])@ == s.plugin_layouts@[k]@,
{
    let all = views(names@);
    assert(all.len() == names@.len());
    assert(all[0] == names@[0]@ && all[1] == names@[1]@ && all[2] == names@[2]@ && all[3]
        == names@[3]@ && all[4] == names@[4]@);
    assert forall|k: int| 0 <= k < s.plugin_layouts@.len() implies (#[trigger] names@[5 + k])@
        == s.plugin_layouts@[k]@ by {
        assert(all[5 + k] == names@[5 + k]@);
        assert(all[5 + k] == views(s.plugin_layouts@)[k]);
    }
}

/// Layout `l` comes right after layout `k`: column, monocle, dwindle, centered, stacked, and column
/// again.
pub open spec fn follows(k: ActiveLayout, l: ActiveLayout) -> bool {
    ||| k is Column && l is Monocle
    ||| k is Monocle && l is Dwindle
    ||| k is Dwindle && l is Centered
    ||| k is Centered && l is Stacked
    ||| k is Stacked && l is Column
}

pub(crate) proof fn lemma_cycled(
    a: DinatorState,
    b: DinatorState,
    direction: int,
    name: Seq<char>,
    i: int,
)
    requires
        a.wf(),
        is_focused(a, i),
        a.plugin_layouts@.len() == 0,
        a.outputs@[i].layout !is Plugin,
        layout_cycled(a@, b@, direction, name),
    ensures
        only_layout_changed(a, b, i),
        goes_by(b.outputs@[i].layout, name),
        gap_of(b.outputs@[i].layout) == gap_of(a.outputs@[i].layout),
        direction == 1 ==> follows(a.outputs@[i].layout, b.outputs@[i].layout),
        direction == -1 ==> follows(b.outputs@[i].layout, a.outputs@[i].layout),
{
    lemma_focused(a, i);
    lemma_view_parts(a, b);
    lemma_names_differ();
    let names = a@.layout_names();
    assert(views(a.plugin_layouts@) =~= Seq::<Seq<char>>::empty());
    assert(names =~= builtin_names());
    let label = a.outputs@[i].layout.label();
    lemma_name_found(names, label);
    let from = name_index(names, label);
    assert(names[0] == "column"@ && names[1] == "monocle"@ && names[2] == "dwindle"@ && names[3]
        == "centered"@ && names[4] == "stacked"@);
    assert(is_builtin_name(name)) by {
        vstd::arithmetic::div_mod::lemma_mod_bound(from + direction, 5);
    }
    let layout = choose|layout: ActiveLayout|
        #[trigger] is_chosen(layout, name) && b@ == a@.with_layout_gapped(layout);
    assert(b.outputs@[i].layout == layout.with_gap(a.outputs@[i].layout.gap_width()));
    assert(name == names[(from + direction) % 5]);
}

/// Going on through the built-in layouts gives the next one, going back the one before, around the
/// ends. The gap stays.
pub proof fn lemma_layouts_take_turns(
    s: &mut DinatorState,
    direction: i32,
    r: Option<String>,
    i: int,
)
    requires
        old(s).wf(),
        is_focused(*old(s), i),
        old(s).plugin_layouts@.len() == 0,
        old(s).outputs@[i].layout !is Plugin,
        call_ensures(DinatorState::cycle_layout, (s, direction), r),
    ensures
        r is Some,
        only_layout_changed(*old(s), *final(s), i),
        goes_by(final(s).outputs@[i].layout, r->0@),
        gap_of(final(s).outputs@[i].layout) == gap_of(old(s).outputs@[i].layout),
        direction == 1 ==> follows(old(s).outputs@[i].layout, final(s).outputs@[i].layout),
        direction == -1 ==> follows(final(s).outputs@[i].layout, old(s).outputs@[i].layout),
{
    lemma_focused(*old(s), i);
    lemma_cycled(*old(s), *final(s), direction as int, r->0@, i);
}

/// The ratio of the master area.
pub open spec fn ratio_units(layout: ActiveLayout) -> Option<u64> {
    match layout {
        ActiveLayout::Column(l) => Some(l.main_ratio.units),
        ActiveLayout::Dwindle(l) => Some(l.main_ratio.units),
        ActiveLayout::Centered(l) => Some(l.main_ratio.units),
        _ => None,
    }
}

/// The same kind of layout with the same gap and the same height of title bars: only the ratio of the
/// master area may differ.
pub open spec fn same_but_ratio(k: ActiveLayout, l: ActiveLayout) -> bool {
    match (k, l) {
        (ActiveLayout::Column(a), ActiveLayout::Column(b)) => a.gap == b.gap,
        (ActiveLayout::Dwindle(a), ActiveLayout::Dwindle(b)) => a.gap == b.gap,
        (ActiveLayout::Centered(a), ActiveLayout::Centered(b)) => a.gap == b.gap,
        _ => k == l,
    }
}

pub(crate) proof fn lemma_grown(a: DinatorState, b: DinatorState, changed: bool, i: int)
    requires
        a.wf(),
        is_focused(a, i),
        master_grown(a@, b@, changed),
    ensures
        only_layout_changed(a, b, i),
        same_but_ratio(a.outputs@[i].layout, b.outputs@[i].layout),
        ratio_units(a.outputs@[i].layout) is None ==> !changed,
        ratio_units(a.outputs@[i].layout) is Some ==> is_step_up(
            ratio_units(a.outputs@[i].layout)->0,
            ratio_units(b.outputs@[i].layout)->0,
            changed,
        ),
{
    lemma_focused(a, i);
    lemma_view_parts(a, b);
    let before = a.outputs@[i].layout;
    assert(before.wf());
    if before.ratio() is Some {
        lemma_steps_are_twentieths(before.ratio()->0@);
    }
    if changed {
        let r = choose|r: Ratio|
            (#[trigger] r@) == grown(before.ratio()->0@) && b@ == a@.with_layout(
                before.with_ratio(r),
            );
        assert(b.outputs@[i].layout == before.with_ratio(r));
    }
}

pub(crate) proof fn lemma_shrunk(a: DinatorState, b: DinatorState, changed: bool, i: int)
    requires
        a.wf(),
        is_focused(a, i),
        master_shrunk(a@, b@, changed),
    ensures
        only_layout_changed(a, b, i),
        same_but_ratio(a.outputs@[i].layout, b.outputs@[i].layout),
        ratio_units(a.outputs@[i].layout) is None ==> !changed,
        ratio_units(a.outputs@[i].layout) is Some ==> is_step_down(
            ratio_units(a.outputs@[i].layout)->0,
            ratio_units(b.outputs@[i].layout)->0,
            changed,
        ),
{
    lemma_focused(a, i);
    lemma_view_parts(a, b);
    let before = a.outputs@[i].layout;
    assert(before.wf());
    if before.ratio() is Some {
        lemma_steps_are_twentieths(before.ratio()->0@);
    }
    if changed {
        let r = choose|r: Ratio|
            (#[trigger] r@) == shrunk(before.ratio()->0@) && b@ == a@.with_layout(
                before.with_ratio(r),
            );
        assert(b.outputs@[i].layout == before.with_ratio(r));
    }
}

/// Growing the master area of the focused output adds a twentieth to its ratio, up to four fifths, and
/// shrinking it takes one away, down to one fifth. A layout without a master area stays.
pub proof fn lemma_master_area_steps(s: &mut DinatorState, changed: bool, i: int)
    requires
        old(s).wf(),
        is_focused(*old(s), i),
    ensures
        ({
            let before = old(s).outputs@[i].layout;
            let after = final(s).outputs@[i].layout;
            let grows = call_ensures(DinatorState::grow_master, (s,), changed);
            let shrinks = call_ensures(DinatorState::shrink_master, (s,), changed);
            &&& grows || shrinks ==> {
                &&& only_layout_changed(*old(s), *final(s), i)
                &&& same_but_ratio(before, after)
                &&& ratio_units(before) is None ==> !changed
            }
            &&& grows && ratio_units(before) is Some ==> is_step_up(
                ratio_units(before)->0,
                ratio_units(after)->0,
                changed,
            )
            &&& shrinks && ratio_units(before) is Some ==> is_step_down(
                ratio_units(before)->0,
                ratio_units(after)->0,
                changed,
            )
        }),
{
    if call_ensures(DinatorState::grow_master, (s,), changed) {
        lemma_grown(*old(s), *final(s), changed, i);
    }
    if call_ensures(DinatorState::shrink_master, (s,), changed) {
        lemma_shrunk(*old(s), *final(s), changed, i);
    }
}

/// The gap of the focused output's layout is what it was set to, and nothing else of the layout
/// changes.
pub proof fn lemma_layout_gap_is_set(s: &mut DinatorState, gap: i32, changed: bool, i: int)
    requires
        old(s).wf(),
        is_focused(*old(s), i),
        old(s).outputs@[i].layout !is Plugin,
        call_ensures(DinatorState::set_layout_gap, (s, gap), changed),
    ensures
        only_layout_changed(*old(s), *final(s), i),
        gap_of(final(s).outputs@[i].layout) == gap,
        ratio_units(final(s).outputs@[i].layout) == ratio_units(old(s).outputs@[i].layout),
        forall|name: Seq<char>| #[trigger]
            goes_by(final(s).outputs@[i].layout, name) == goes_by(old(s).outputs@[i].layout, name),
        old(s).outputs@[i].layout matches ActiveLayout::Stacked(l) ==> (
        final(s).outputs@[i].layout matches ActiveLayout::Stacked(k) && k.tab_height == l.tab_height),
        changed <==> gap_of(old(s).outputs@[i].layout) != gap,
{
    lemma_focused(*old(s), i);
    lemma_view_parts(*old(s), *final(s));
}

/// An output's layout goes by the name that is told.
pub proof fn lemma_layout_name_is_told(s: &DinatorState, output: &str, r: &str, i: int)
    requires
        s.wf(),
    ensures
        is_focused(*s, i) && call_ensures(DinatorState::layout_name, (s,), r) ==> goes_by(
            s.outputs@[i].layout,
            r@,
        ),
        0 <= i < s.outputs@.len() && s.outputs@[i].name@ == output@ && call_ensures(
            DinatorState::layout_name_for_output,
            (s, output),
            r,
        ) ==> goes_by(s.outputs@[i].layout, r@),
{
    if is_focused(*s, i) {
        lemma_focused(*s, i);
    }
    if 0 <= i < s.outputs@.len() && s.outputs@[i].name@ == output@ {
        lemma_index_of(s.outputs@, output@, i);
    }
}

/// The stacked layout shows a title bar for each window of the workspace that is neither floating nor
/// fullscreen, in their order, once there are two of them. The first one's is marked, and each tells the
/// name and the title of its window.
pub proof fn lemma_title_bars(
    s: &DinatorState,
    output: &str,
    seen: &[SeenWindow],
    r: Option<StackedTabs>,
    i: int,
    flat: Seq<WindowId>,
)
    requires
        s.wf(),
        0 <= i < s.outputs@.len(),
        s.outputs@[i].name@ == output@,
        call_ensures(DinatorState::stacked_tabs, (s, output, seen), r),
        flat == shown_on(*s, i).filter(|w: WindowId| lies_flat(*s, w)),
        forall|k: int| 0 <= k < flat.len() ==> exists_in(*s, #[trigger] flat[k]),
        s.outputs@[i].layout !is Plugin,
    ensures
        r is Some <==> s.outputs@[i].layout is Stacked && flat.len() >= 2,
        r matches Some(t) ==> {
            &&& s.outputs@[i].layout matches ActiveLayout::Stacked(l) && t.tab_height == l.tab_height
                && t.gap == l.gap
            &&& t.tabs@.len() == flat.len()
            &&& forall|k: int|
                0 <= k < flat.len() ==> ((#[trigger] t.tabs@[k]).focused <==> k == 0)
            &&& forall|k: int, j: int|
                0 <= k < flat.len() && is_entry_of(seen@, j, flat[k]) && seen@[j].title is Some
                    ==> (#[trigger] t.tabs@[k]).title@ == (#[trigger] seen@[j]).title->0@
            &&& forall|k: int, j: int|
                0 <= k < flat.len() && is_entry_of(seen@, j, flat[k]) && seen@[j].app_id is Some
                    ==> (#[trigger] t.tabs@[k]).app_id@ == (#[trigger] seen@[j]).app_id->0@
        },
{
    lemma_index_of(s.outputs@, output@, i);
    lemma_names_differ();
    let o = s.outputs@[i];
    let keeps = |w: WindowId| lies_flat(*s, w);
    assert(keeps =~= is_tiled(s.floating@, s.fullscreen@));
    assert(s@.order(o.active_workspace) == shown_on(*s, i));
    assert(s@.tiled(o.active_workspace) == flat);
    lemma_tab_windows(*s, flat);
    if r is Some {
        let t = r->0;
        let windows = tab_windows(flat, s@);
        assert forall|k: int| 0 <= k < flat.len() implies ((#[trigger] t.tabs@[k]).focused <==> k == 0)
            && is_tab(seen@, flat[k], k == 0, t.tabs@[k]) by {
            assert(windows[k] == (flat[k], k == 0));
        }
        assert forall|k: int, j: int|
            0 <= k < flat.len() && is_entry_of(seen@, j, flat[k]) && seen@[j].title is Some implies (
        #[trigger] t.tabs@[k]).title@ == (#[trigger] seen@[j]).title->0@ by {
            lemma_same_entry(seen@, flat[k], t.tabs@[k], j, k == 0);
        }
        assert forall|k: int, j: int|
            0 <= k < flat.len() && is_entry_of(seen@, j, flat[k]) && seen@[j].app_id is Some implies (
        #[trigger] t.tabs@[k]).app_id@ == (#[trigger] seen@[j]).app_id->0@ by {
            lemma_same_entry(seen@, flat[k], t.tabs@[k], j, k == 0);
        }
    }
}

/// Entry `j` is the only one on the window.
pub open spec fn is_entry_of(seen: Seq<SeenWindow>, j: int, w: WindowId) -> bool {
    &&& 0 <= j < seen.len()
    &&& forall|k: int| 0 <= k < seen.len() ==> ((#[trigger] seen[k]).id == w.0 <==> k == j)
}

proof fn lemma_same_entry(seen: Seq<SeenWindow>, w: WindowId, tab: Tab, j: int, focused: bool)
    requires
        is_entry_of(seen, j, w),
        is_tab(seen, w, focused, tab),
    ensures
        seen[j].title is Some ==> tab.title@ == seen[j].title->0@,
        seen[j].app_id is Some ==> tab.app_id@ == seen[j].app_id->0@,
{
    assert(seen[j].id == w.0);
    let k = choose|k: int|
        {
            &&& #[trigger] is_first_seen(seen, w.0, k)
            &&& tab.app_id@ == crate::compositor::tabs::or_empty(seen[k].app_id)
            &&& tab.title@ == crate::compositor::tabs::or_empty(seen[k].title)
        };
    assert(seen[k].id == w.0);
}

proof fn lemma_tab_windows(s: DinatorState, flat: Seq<WindowId>)
    requires
        forall|k: int| 0 <= k < flat.len() ==> exists_in(s, #[trigger] flat[k]),
    ensures
        tab_windows(flat, s@).len() == flat.len(),
        forall|k: int|
            0 <= k < flat.len() ==> #[trigger] tab_windows(flat, s@)[k] == (flat[k], k == 0),
    decreases flat.len(),
{
    if flat.len() > 0 {
        let front = flat.drop_last();
        assert(forall|k: int| 0 <= k < front.len() ==> #[trigger] front[k] == flat[k]);
        assert(exists_in(s, flat[flat.len() - 1]));
        lemma_tab_windows(s, front);
        assert forall|k: int| 0 <= k < flat.len() implies #[trigger] tab_windows(flat, s@)[k] == (
            flat[k],
            k == 0,
        ) by {
            if k < front.len() {
                assert(tab_windows(flat, s@)[k] == tab_windows(front, s@)[k]);
            }
        }
    }
}

/// A title bar reads the title and then the application's name, with a dash between; where one of them
/// is missing, it reads the other alone.
pub proof fn lemma_title_bar_reads(tab: &Tab, r: String)
    requires
        call_ensures(Tab::label, (tab,), r),
    ensures
        tab.title@.len() == 0 ==> r@ == tab.app_id@,
        tab.app_id@.len() == 0 && tab.title@.len() > 0 ==> r@ == tab.title@,
        tab.app_id@.len() > 0 && tab.title@.len() > 0 ==> {
            let n = tab.title@.len() as int;
            &&& r@.len() == n + 5 + tab.app_id@.len()
            &&& r@.take(n) == tab.title@
            &&& r@.subrange(n, n + 5) == seq![' ', ' ', '\u{2014}', ' ', ' ']
            &&& r@.skip(n + 5) == tab.app_id@
        },
{
    reveal_strlit("  —  ");
    if tab.app_id@.len() > 0 && tab.title@.len() > 0 {
        let n = tab.title@.len() as int;
        assert("  —  "@.len() == 5);
        assert(r@.take(n) =~= tab.title@);
        assert(r@.subrange(n, n + 5) =~= seq![' ', ' ', '\u{2014}', ' ', ' ']);
        assert(r@.skip(n + 5) =~= tab.app_id@);
    }
}

} // verus!
