//! What plugins register and ask for, and what becomes of it.

use crate::compositor::event::{PluginAction, PluginEvent, WindowRule};
use crate::compositor::state::PluginKeybinding;
use crate::input::codes::names_word;
use crate::plugins::data::{
    event_fields, event_name, is_first_named, none_named, placements_of, ApiCall, Field, FieldValue,
    LayoutEntry, NamedFunction, PluginData,
};
use crate::plugins::lua::{
    all_heard, api, api_functions, bind_call, heard_at, listed, naming_call, plain_call, rule_call,
    spawn_call, text_call, ApiFunction, LoadError, LuaRuntime,
};
use crate::plugins::manifest::{
    lookup, lua_manifest_text, manifest_of, shapes, KeybindingRequest, PluginInfo,
    RawPluginManifest, TomlEntry, TomlShape, TomlValue,
};
use crate::plugins::set::{
    all_actions, all_layouts, all_requests, all_rules, choose_keysym, is_callback_owner,
    lemma_drained_is_empty, names_of, register_keybindings, resolved, PluginSet,
};
use crate::plugins::wasm::{
    all_answers, event_failures, failures, gather, is_missing_function, lemma_listed_can_be_created,
    missing_function, provided_by_none, texts, ArrangeInput, PlacementJson, WasmLayout, WasmRuntime,
};
use crate::tiling::{Placement, Rect, WindowId};
use vstd::prelude::*;

verus! {

/// The function that stands first under a name is found.
proof fn lemma_one_is_first<F>(list: Seq<NamedFunction<F>>, name: Seq<char>, i: int, j: int)
    requires
        is_first_named(list, name, i),
        is_first_named(list, name, j),
    ensures
        i == j,
{
    if i < j {
        assert(list[i].name@ != name);
    }
    if j < i {
        assert(list[j].name@ != name);
    }
}

/// A layout that a plugin registers is the one of its name from then on; the layouts of other names stay.
pub proof fn lemma_last_layout_counts<F>(
    p: &mut PluginData<F>,
    name: String,
    function: F,
    asked: &str,
    before: Option<&F>,
    after: Option<&F>,
)
    requires
        old(p).wf(),
        call_ensures(PluginData::<F>::call, (p, ApiCall::RegisterLayout { name, function }), ()),
        call_ensures(PluginData::<F>::layout_function, (&*old(p), asked), before),
        call_ensures(PluginData::<F>::layout_function, (&*final(p), asked), after),
    ensures
        asked@ == name@ ==> after == Some(&function),
        asked@ != name@ ==> after == before,
{
    lemma_put(old(p).layouts@, final(p).layouts@, name@, function, asked@);
    if before is Some {
        let i = choose|i: int| #[trigger]
            is_first_named(old(p).layouts@, asked@, i) && *before->0 == old(p).layouts@[i].function;
        assert(is_first_named(old(p).layouts@, asked@, i));
    }
    if after is Some {
        let i = choose|i: int| #[trigger]
            is_first_named(final(p).layouts@, asked@, i) && *after->0 == final(p).layouts@[i].function;
        assert(is_first_named(final(p).layouts@, asked@, i));
    }
    if before is Some && after is Some && asked@ != name@ {
        let i = choose|i: int| #[trigger]
            is_first_named(old(p).layouts@, asked@, i) && *before->0 == old(p).layouts@[i].function;
        let j = choose|j: int| #[trigger]
            is_first_named(final(p).layouts@, asked@, j) && *after->0 == final(p).layouts@[j].function;
        lemma_one_is_first(final(p).layouts@, asked@, i, j);
    }
}

/// What is found under a name after a function is put under one.
proof fn lemma_put<F>(
    list: Seq<NamedFunction<F>>,
    next: Seq<NamedFunction<F>>,
    name: Seq<char>,
    function: F,
    asked: Seq<char>,
)
    requires
        crate::plugins::data::put(list, next, name, function),
    ensures
        asked == name ==> !none_named(next, asked) && forall|i: int| #[trigger]
            is_first_named(next, asked, i) ==> next[i].function == function,
        asked != name ==> none_named(next, asked) == none_named(list, asked),
        asked != name ==> forall|i: int| #[trigger]
            is_first_named(list, asked, i) ==> is_first_named(next, asked, i) && next[i].function
                == list[i].function,
{
    if none_named(list, name) {
        assert forall|j: int| 0 <= j < list.len() implies #[trigger] next[j] == list[j] by {
            assert(next.drop_last()[j] == next[j]);
        }
        let last = next.len() - 1;
        assert(next[last].name@ == name);
        assert forall|i: int| asked == name && #[trigger] is_first_named(next, asked, i) implies
            next[i].function == function by {
            if i < list.len() {
                assert(list[i].name@ != name);
            }
        }
        assert forall|i: int| asked != name && #[trigger] is_first_named(list, asked, i) implies
            is_first_named(next, asked, i) by {}
        if asked != name {
            assert(none_named(next, asked) == none_named(list, asked)) by {
                if none_named(next, asked) {
                    assert forall|j: int| 0 <= j < list.len() implies (#[trigger] list[j]).name@
                        != asked by {
                        assert(next[j].name@ != asked);
                    }
                }
            }
        }
    } else {
        let k = choose|k: int|
            {
                &&& #[trigger] is_first_named(list, name, k)
                &&& next == list.update(k, NamedFunction { function, ..list[k] })
            };
        assert forall|j: int| 0 <= j < list.len() implies (#[trigger] next[j]).name@
            == list[j].name@ by {}
        assert(next[k].name@ == name);
        assert forall|i: int| asked == name && #[trigger] is_first_named(next, asked, i) implies
            next[i].function == function by {
            if i < k {
                assert(list[i].name@ != name);
            }
            if k < i {
                assert(next[k].name@ != name);
            }
        }
        assert forall|i: int| asked != name && #[trigger] is_first_named(list, asked, i) implies
            is_first_named(next, asked, i) && next[i].function == list[i].function by {
            assert forall|j: int| 0 <= j < i implies (#[trigger] next[j]).name@ != asked by {
                assert(list[j].name@ != asked);
            }
        }
        if asked != name {
            assert(none_named(next, asked) == none_named(list, asked)) by {
                if none_named(next, asked) {
                    assert forall|j: int| 0 <= j < list.len() implies (#[trigger] list[j]).name@
                        != asked by {
                        assert(next[j].name@ != asked);
                    }
                }
                if none_named(list, asked) {
                    assert forall|j: int| 0 <= j < next.len() implies (#[trigger] next[j]).name@
                        != asked by {
                        assert(list[j].name@ != asked);
                    }
                }
            }
        }
    }
}

/// Of the handlers of an event, the first that was registered hears of it.
pub proof fn lemma_first_handler_counts<F>(
    p: &mut PluginData<F>,
    event: String,
    function: F,
    asked: &str,
    before: Option<&F>,
    after: Option<&F>,
)
    requires
        old(p).wf(),
        call_ensures(PluginData::<F>::call, (p, ApiCall::On { event, function }), ()),
        call_ensures(PluginData::<F>::event_handler, (&*old(p), asked), before),
        call_ensures(PluginData::<F>::event_handler, (&*final(p), asked), after),
    ensures
        before is Some ==> after == before,
        before is None && asked@ == event@ ==> after == Some(&function),
        before is None && asked@ != event@ ==> after is None,
{
    let list = old(p).event_handlers@;
    let next = final(p).event_handlers@;
    assert(forall|j: int| 0 <= j < list.len() ==> #[trigger] next[j] == list[j]);
    let last = list.len() as int;
    assert(next[last].name@ == event@ && next[last].function == function);
    if before is Some {
        let i = choose|i: int| #[trigger]
            is_first_named(list, asked@, i) && *before->0 == list[i].function;
        assert(is_first_named(next, asked@, i));
        assert(next[i].name@ == asked@);
        let j = choose|j: int| #[trigger]
            is_first_named(next, asked@, j) && *after->0 == next[j].function;
        lemma_one_is_first(next, asked@, i, j);
    } else if asked@ == event@ {
        let j = choose|j: int| #[trigger]
            is_first_named(next, asked@, j) && *after->0 == next[j].function;
        if j < last {
            assert(list[j].name@ != asked@);
        }
    } else {
        if after is Some {
            let j = choose|j: int| #[trigger]
                is_first_named(next, asked@, j) && *after->0 == next[j].function;
            if j < last {
                assert(list[j].name@ != asked@);
            }
        }
    }
}

/// A keybinding that a plugin wants is asked for with the keys as they were given and a name under which
/// its function is found. The name starts with the plugin's.
pub proof fn lemma_bound_function_is_found<F>(
    p: &mut PluginData<F>,
    modifiers: Vec<String>,
    key: String,
    function: F,
    asked: &str,
    after: Option<&F>,
)
    requires
        old(p).wf(),
        call_ensures(PluginData::<F>::call, (p, ApiCall::Bind { modifiers, key, function }), ()),
        asked@ == final(p).keybinding_requests@.last().callback_id@,
        call_ensures(PluginData::<F>::callback, (&*final(p), asked), after),
    ensures
        after == Some(&function),
        final(p).keybinding_requests@.len() == old(p).keybinding_requests@.len() + 1,
        final(p).keybinding_requests@.last().modifiers@ == modifiers@,
        final(p).keybinding_requests@.last().key == key,
        asked@.len() > old(p).manifest.id@.len(),
        asked@.take(old(p).manifest.id@.len() as int) == old(p).manifest.id@,
        asked@.skip(asked@.len() - key@.len()) == key@,
{
    lemma_put(old(p).callbacks@, final(p).callbacks@, asked@, function, asked@);
    let id = old(p).manifest.id@;
    reveal_strlit(":");
    reveal_strlit("+");
    assert(asked@.take(id.len() as int) =~= id);
    assert(asked@.skip(asked@.len() - key@.len()) =~= key@);
}

/// What a plugin asks for comes last in its own list, and nothing else changes.
pub proof fn lemma_wishes_are_queued<F>(
    p: &mut PluginData<F>,
    action: PluginAction,
    rule: WindowRule,
    message: String,
)
    requires
        old(p).wf(),
    ensures
        call_ensures(PluginData::<F>::call, (p, ApiCall::Act(action)), ()) ==> {
            &&& final(p).action_queue@ == old(p).action_queue@.push(action)
            &&& final(p).window_rules@ == old(p).window_rules@
            &&& final(p).messages@ == old(p).messages@
            &&& final(p).layouts@ == old(p).layouts@
        },
        call_ensures(PluginData::<F>::call, (p, ApiCall::Rule(rule)), ()) ==> {
            &&& final(p).window_rules@ == old(p).window_rules@.push(rule)
            &&& final(p).action_queue@ == old(p).action_queue@
            &&& final(p).messages@ == old(p).messages@
        },
        call_ensures(PluginData::<F>::call, (p, ApiCall::Log(message)), ()) ==> {
            &&& final(p).messages@ == old(p).messages@.push(message)
            &&& final(p).action_queue@ == old(p).action_queue@
            &&& final(p).window_rules@ == old(p).window_rules@
        },
{
}

/// The list holds another one from a place on.
pub open spec fn holds_from<T>(whole: Seq<T>, part: Seq<T>, at: int) -> bool {
    &&& 0 <= at && at + part.len() <= whole.len()
    &&& forall|k: int| 0 <= k < part.len() ==> #[trigger] part[k] == whole[at + k]
}

proof fn lemma_actions_held<F>(plugins: Seq<PluginData<F>>, p: int) -> (at: int)
    requires
        0 <= p < plugins.len(),
    ensures
        holds_from(all_actions(plugins), plugins[p].action_queue@, at),
    decreases plugins.len(),
{
    let front = plugins.drop_last();
    if p == plugins.len() - 1 {
        all_actions(front).len() as int
    } else {
        lemma_actions_held(front, p)
    }
}

proof fn lemma_rules_held<F>(plugins: Seq<PluginData<F>>, p: int) -> (at: int)
    requires
        0 <= p < plugins.len(),
    ensures
        holds_from(all_rules(plugins), plugins[p].window_rules@, at),
    decreases plugins.len(),
{
    let front = plugins.drop_last();
    if p == plugins.len() - 1 {
        all_rules(front).len() as int
    } else {
        lemma_rules_held(front, p)
    }
}

proof fn lemma_requests_held<F>(plugins: Seq<PluginData<F>>, p: int) -> (at: int)
    requires
        0 <= p < plugins.len(),
    ensures
        holds_from(all_requests(plugins), plugins[p].keybinding_requests@, at),
    decreases plugins.len(),
{
    let front = plugins.drop_last();
    if p == plugins.len() - 1 {
        all_requests(front).len() as int
    } else {
        lemma_requests_held(front, p)
    }
}

/// What plugins have asked for is handed out once: each plugin's wishes together and in order, and
/// nothing is left then.
pub proof fn lemma_actions_are_handed_out<F>(
    set: &mut PluginSet<F>,
    again: &mut PluginSet<F>,
    r: Vec<PluginAction>,
    more: Vec<PluginAction>,
    p: int,
)
    requires
        0 <= p < old(set).plugins@.len(),
        call_ensures(PluginSet::<F>::drain_actions, (set,), r),
        *old(again) == *final(set),
        call_ensures(PluginSet::<F>::drain_actions, (again,), more),
    ensures
        exists|at: int| #[trigger] holds_from(r@, old(set).plugins@[p].action_queue@, at),
        more@.len() == 0,
        final(set).plugins@.len() == old(set).plugins@.len(),
        final(set).plugins@[p].action_queue@.len() == 0,
        final(set).plugins@[p].window_rules@ == old(set).plugins@[p].window_rules@,
        final(set).plugins@[p].keybinding_requests@ == old(set).plugins@[p].keybinding_requests@,
{
    let at = lemma_actions_held(old(set).plugins@, p);
    assert(holds_from(r@, old(set).plugins@[p].action_queue@, at));
    lemma_drained_is_empty(final(set).plugins@);
    assert(crate::plugins::set::same_but_actions(old(set).plugins@[p], final(set).plugins@[p]));
}

/// The rules and keybindings of each plugin are handed out together and in order, and none is left then.
pub proof fn lemma_rules_and_keys_are_handed_out<F>(
    set: &mut PluginSet<F>,
    rules: Vec<WindowRule>,
    requests: Vec<KeybindingRequest>,
    p: int,
)
    requires
        0 <= p < old(set).plugins@.len(),
    ensures
        call_ensures(PluginSet::<F>::drain_window_rules, (set,), rules) ==> {
            &&& exists|at: int| #[trigger] holds_from(rules@, old(set).plugins@[p].window_rules@, at)
            &&& final(set).plugins@[p].window_rules@.len() == 0
            &&& final(set).plugins@[p].action_queue@ == old(set).plugins@[p].action_queue@
        },
        call_ensures(PluginSet::<F>::drain_keybinding_requests, (set,), requests) ==> {
            &&& exists|at: int| #[trigger]
                holds_from(requests@, old(set).plugins@[p].keybinding_requests@, at)
            &&& final(set).plugins@[p].keybinding_requests@.len() == 0
            &&& final(set).plugins@[p].action_queue@ == old(set).plugins@[p].action_queue@
        },
{
    let a = lemma_rules_held(old(set).plugins@, p);
    let b = lemma_requests_held(old(set).plugins@, p);
    assert(holds_from(all_rules(old(set).plugins@), old(set).plugins@[p].window_rules@, a));
    assert(holds_from(all_requests(old(set).plugins@), old(set).plugins@[p].keybinding_requests@, b));
    assert(final(set).plugins@[p] == final(set).plugins@[p]);
}

proof fn lemma_layouts_listed<F>(plugins: Seq<PluginData<F>>, name: Seq<char>)
    ensures
        all_layouts(plugins).contains(name) <==> exists|p: int|
            0 <= p < plugins.len() && !none_named((#[trigger] plugins[p]).layouts@, name),
    decreases plugins.len(),
{
    if plugins.len() > 0 {
        let front = plugins.drop_last();
        let own = plugins.last().layouts@;
        let n = all_layouts(front).len();
        let all = all_layouts(plugins);
        lemma_layouts_listed(front, name);
        assert(all == all_layouts(front) + names_of(own));
        if all.contains(name) {
            let i = choose|i: int| 0 <= i < all.len() && all[i] == name;
            if i < n {
                assert(all_layouts(front)[i] == name);
                let p = choose|p: int|
                    0 <= p < front.len() && !none_named((#[trigger] front[p]).layouts@, name);
                assert(plugins[p] == front[p]);
            } else {
                assert(own[i - n].name@ == name);
                assert(!none_named(plugins[plugins.len() - 1].layouts@, name));
            }
        }
        if exists|p: int| 0 <= p < plugins.len() && !none_named((#[trigger] plugins[p]).layouts@, name) {
            let p = choose|p: int|
                0 <= p < plugins.len() && !none_named((#[trigger] plugins[p]).layouts@, name);
            if p < front.len() {
                assert(front[p] == plugins[p]);
                let i = choose|i: int| 0 <= i < n && all_layouts(front)[i] == name;
                assert(all[i] == name);
            } else {
                let i = choose|i: int| 0 <= i < own.len() && (#[trigger] own[i]).name@ == name;
                assert(all[n + i] == name);
            }
        }
    }
}

/// A layout that is listed can be had, and one that can be had is listed. Where plugins share a name, the
/// layout of the first one is taken.
pub proof fn lemma_listed_layouts_can_be_had<F>(
    set: &PluginSet<F>,
    name: &str,
    names: Vec<String>,
    r: Option<(usize, &F)>,
    own: Option<&F>,
    q: int,
)
    requires
        call_ensures(PluginSet::<F>::layout_names, (set,), names),
        call_ensures(PluginSet::<F>::find_layout, (set, name), r),
        0 <= q < set.plugins@.len(),
        call_ensures(PluginData::<F>::layout_function, (&set.plugins@[q], name), own),
    ensures
        r is Some <==> exists|i: int| 0 <= i < names@.len() && (#[trigger] names@[i])@ == name@,
        own is Some ==> r is Some && (r matches Some(found) && found.0 <= q),
        r matches Some(found) ==> (found.0 == q ==> own == Some(found.1)),
{
    lemma_layouts_listed(set.plugins@, name@);
    let views = names@.map_values(|s: String| s@);
    assert(forall|i: int| 0 <= i < names@.len() ==> views[i] == (#[trigger] names@[i])@);
    if views.contains(name@) {
        let i = choose|i: int| 0 <= i < views.len() && views[i] == name@;
        assert(names@[i]@ == name@);
    }
    if exists|i: int| 0 <= i < names@.len() && (#[trigger] names@[i])@ == name@ {
        let i = choose|i: int| 0 <= i < names@.len() && (#[trigger] names@[i])@ == name@;
        assert(views[i] == name@);
    }
    let mine = set.plugins@[q].layouts@;
    if own is Some {
        let i = choose|i: int| #[trigger] is_first_named(mine, name@, i) && *own->0 == mine[i].function;
        assert(mine[i].name@ == name@);
        assert(!none_named(mine, name@));
        assert(!none_named(set.plugins@[q].layouts@, name@));
    }
    match r {
        Some(found) => {
            let p = found.0 as int;
            let list = set.plugins@[p].layouts@;
            let i = choose|i: int| #[trigger]
                is_first_named(list, name@, i) && *found.1 == list[i].function;
            assert(list[i].name@ == name@);
            if own is Some && p > q {
                assert(none_named(set.plugins@[q].layouts@, name@));
            }
            if p == q && own is Some {
                let j = choose|j: int| #[trigger]
                    is_first_named(mine, name@, j) && *own->0 == mine[j].function;
                lemma_one_is_first(list, name@, i, j);
            }
        },
        None => {},
    }
}

/// The fields hold a number under a name.
pub open spec fn tell_number(fields: Seq<Field>, name: Seq<char>, n: int) -> bool {
    exists|k: int|
        {
            &&& 0 <= k < fields.len()
            &&& (#[trigger] fields[k]).name@ == name
            &&& fields[k].value matches FieldValue::Number(m)
            &&& m == n
        }
}

/// The fields hold a text under a name.
pub open spec fn tell_text(fields: Seq<Field>, name: Seq<char>, text: Seq<char>) -> bool {
    exists|k: int|
        {
            &&& 0 <= k < fields.len()
            &&& (#[trigger] fields[k]).name@ == name
            &&& fields[k].value matches FieldValue::Text(t)
            &&& t@ == text
        }
}

/// A handler is told all that an event holds, each under its name.
pub proof fn lemma_events_are_told(event: &PluginEvent, fields: Vec<Field>)
    requires
        call_ensures(event_fields, (event,), fields),
    ensures
        match *event {
            PluginEvent::WindowOpened { id, app_id, title } => {
                &&& tell_number(fields@, "id"@, id as int)
                &&& app_id is Some ==> tell_text(fields@, "app_id"@, app_id->0@)
                &&& title is Some ==> tell_text(fields@, "title"@, title->0@)
                &&& app_id is None && title is None ==> fields@.len() == 1
            },
            PluginEvent::WindowClosed { id } => tell_number(fields@, "id"@, id as int),
            PluginEvent::WindowFocused { id } => tell_number(fields@, "id"@, id as int),
            PluginEvent::LayoutChanged { name } => tell_text(fields@, "name"@, name@),
            PluginEvent::WorkspaceChanged { workspace } => tell_number(
                fields@,
                "workspace"@,
                workspace as int,
            ),
            PluginEvent::WindowMovedWorkspace { id, workspace } => tell_number(
                fields@,
                "id"@,
                id as int,
            ) && tell_number(fields@, "workspace"@, workspace as int),
        },
{
    assert(fields@[0] == fields@[0]);
    if fields@.len() > 1 {
        assert(fields@[1] == fields@[1]);
    }
    if fields@.len() > 2 {
        assert(fields@[2] == fields@[2]);
    }
}

/// A window goes where the layout of a plugin puts it, and no more windows are placed than there are.
pub proof fn lemma_entries_are_places(
    entries: &[LayoutEntry],
    windows: usize,
    r: Vec<Placement>,
    k: int,
)
    requires
        call_ensures(placements_of, (entries, windows), r),
    ensures
        r@.len() <= windows,
        r@.len() <= entries@.len(),
        r@.len() == windows || r@.len() == entries@.len(),
        0 <= k < r@.len() ==> {
            let e = entries@[k];
            let p = r@[k];
            &&& e.id is Some ==> p.id.0 == e.id->0
            &&& e.x is Some ==> p.rect.x == e.x->0
            &&& e.y is Some ==> p.rect.y == e.y->0
            &&& e.width is Some ==> p.rect.width == e.width->0
            &&& e.height is Some ==> p.rect.height == e.height->0
            &&& e.x is None ==> p.rect.x == 0
            &&& e.y is None ==> p.rect.y == 0
        },
{
}

/// A WASM plugin is asked for its layout with all windows, in order, and the area; its answer says where
/// each window goes.
pub proof fn lemma_wasm_layouts_are_asked(
    layout: &WasmLayout,
    windows: &[WindowId],
    area: Rect,
    request: ArrangeInput,
    answer: Option<Vec<PlacementJson>>,
    r: Vec<Placement>,
)
    requires
        call_ensures(WasmLayout::request, (layout, windows, area), request),
        call_ensures(WasmLayout::arrange, (layout, answer), r),
    ensures
        request.layout@ == layout.layout_name@,
        request.area == area,
        request.windows@.len() == windows@.len(),
        forall|k: int| 0 <= k < windows@.len() ==> #[trigger] request.windows@[k] == windows@[k].0,
        answer is None ==> r@.len() == 0,
        answer matches Some(list) ==> r@.len() == list@.len() && forall|k: int|
            0 <= k < list@.len() ==> {
                &&& (#[trigger] r@[k]).id.0 == list@[k].id
                &&& r@[k].rect.x == list@[k].x && r@[k].rect.y == list@[k].y
                &&& r@[k].rect.width == list@[k].width && r@[k].rect.height == list@[k].height
            },
{
}

/// A layout that a WASM plugin lists can be made, from the first plugin that lists it, and no other one.
pub proof fn lemma_wasm_layouts_can_be_made(
    runtime: &WasmRuntime,
    name: &str,
    names: Vec<String>,
    r: Option<WasmLayout>,
)
    requires
        call_ensures(WasmRuntime::layout_names, (runtime,), names),
        call_ensures(WasmRuntime::create_layout, (runtime, name), r),
    ensures
        r is Some <==> exists|i: int| 0 <= i < names@.len() && (#[trigger] names@[i])@ == name@,
        r matches Some(layout) ==> layout.layout_name@ == name@ && layout.plugin
            < runtime.plugins@.len() && exists|i: int|
            0 <= i < runtime.plugins@[layout.plugin as int].layouts@.len() && (
            #[trigger] runtime.plugins@[layout.plugin as int].layouts@[i])@ == name@,
{
    lemma_listed_can_be_created(runtime.plugins@, name@);
    let views = texts(names@);
    assert(forall|i: int| 0 <= i < names@.len() ==> views[i] == (#[trigger] names@[i])@);
    if views.contains(name@) {
        let i = choose|i: int| 0 <= i < views.len() && views[i] == name@;
        assert(names@[i]@ == name@);
    }
    if exists|i: int| 0 <= i < names@.len() && (#[trigger] names@[i])@ == name@ {
        let i = choose|i: int| 0 <= i < names@.len() && (#[trigger] names@[i])@ == name@;
        assert(views[i] == name@);
    }
    match r {
        Some(layout) => {
            let list = runtime.plugins@[layout.plugin as int].layouts@;
            let own = texts(list);
            assert(own.contains(name@));
            assert(texts(runtime.plugins@[layout.plugin as int].layouts@).contains(name@));
            assert(views.contains(name@));
            let k = choose|k: int| 0 <= k < views.len() && views[k] == name@;
            assert(0 <= k < names@.len() && names@[k]@ == name@);
            let i = choose|i: int| 0 <= i < own.len() && own[i] == name@;
            assert(list[i]@ == name@);
        },
        None => {
            assert(provided_by_none(runtime.plugins@, name@));
            if views.contains(name@) {
                let p = choose|p: int|
                    0 <= p < runtime.plugins@.len() && texts(
                        (#[trigger] runtime.plugins@[p]).layouts@,
                    ).contains(name@);
                assert(!texts(runtime.plugins@[p].layouts@).contains(name@));
            }
        },
    }
}

proof fn lemma_answers_held<T>(answers: Seq<Option<Vec<T>>>, p: int) -> (at: int)
    requires
        0 <= p < answers.len(),
        answers[p] is Some,
    ensures
        holds_from(all_answers(answers), answers[p]->0@, at),
    decreases answers.len(),
{
    let front = answers.drop_last();
    if p == answers.len() - 1 {
        all_answers(front).len() as int
    } else {
        lemma_answers_held(front, p)
    }
}

proof fn lemma_no_answers<T>(answers: Seq<Option<Vec<T>>>)
    requires
        forall|p: int| 0 <= p < answers.len() ==> (#[trigger] answers[p]) is None,
    ensures
        all_answers(answers).len() == 0,
    decreases answers.len(),
{
    if answers.len() > 0 {
        let front = answers.drop_last();
        assert(forall|p: int| 0 <= p < front.len() ==> #[trigger] front[p] == answers[p]);
        assert(answers[answers.len() - 1] is None);
        lemma_no_answers(front);
    }
}

/// What each plugin answers is gathered, together and in order; where none answers, there is nothing.
pub proof fn lemma_answers_are_gathered<T>(answers: Vec<Option<Vec<T>>>, r: Vec<T>, p: int)
    requires
        call_ensures(gather::<T>, (answers,), r),
    ensures
        0 <= p < answers@.len() && answers@[p] is Some ==> exists|at: int| #[trigger]
            holds_from(r@, answers@[p]->0@, at),
        (forall|q: int| 0 <= q < answers@.len() ==> (#[trigger] answers@[q]) is None) ==> r@.len() == 0,
{
    if 0 <= p < answers@.len() && answers@[p] is Some {
        let at = lemma_answers_held(answers@, p);
        assert(holds_from(r@, answers@[p]->0@, at));
    }
    if forall|q: int| 0 <= q < answers@.len() ==> (#[trigger] answers@[q]) is None {
        lemma_no_answers(answers@);
    }
}

/// A symbol of the exact name comes before one of another case.
pub proof fn lemma_exact_names_come_first(exact: u32, any_case: u32, r: Option<u32>)
    requires
        call_ensures(choose_keysym, (exact, any_case), r),
    ensures
        exact != 0 ==> r == Some(exact),
        exact == 0 && any_case != 0 ==> r == Some(any_case),
        r is None <==> exact == 0 && any_case == 0,
{
}

proof fn lemma_all_resolved(requests: Seq<KeybindingRequest>, keysyms: Seq<Option<u32>>)
    requires
        requests.len() == keysyms.len(),
        forall|k: int| 0 <= k < keysyms.len() ==> (#[trigger] keysyms[k]) is Some,
    ensures
        resolved(requests, keysyms).len() == requests.len(),
        forall|k: int|
            0 <= k < requests.len() ==> (#[trigger] resolved(requests, keysyms)[k]).0 == requests[k]
                && resolved(requests, keysyms)[k].1 == keysyms[k]->0,
    decreases requests.len(),
{
    if requests.len() > 0 {
        assert(forall|k: int|
            0 <= k < keysyms.len() - 1 ==> #[trigger] keysyms.drop_last()[k] == keysyms[k]);
        assert(keysyms[keysyms.len() - 1] is Some);
        lemma_all_resolved(requests.drop_last(), keysyms.drop_last());
        let before = resolved(requests.drop_last(), keysyms.drop_last());
        assert forall|k: int| 0 <= k < requests.len() implies (
        #[trigger] resolved(requests, keysyms)[k]).0 == requests[k] && resolved(requests, keysyms)[k].1
            == keysyms[k]->0 by {
            if k < requests.len() - 1 {
                assert(before[k].0 == requests.drop_last()[k]);
                assert(before[k].1 == keysyms.drop_last()[k]->0);
            }
        }
    }
}

/// Requests whose keys are all known become keybindings in order: of the key's symbol, with the function
/// that was asked for, and with the keys held that were named.
pub proof fn lemma_keybindings_are_made(
    requests: &[KeybindingRequest],
    keysyms: &[Option<u32>],
    r: Vec<PluginKeybinding>,
    k: int,
)
    requires
        requests@.len() == keysyms@.len(),
        forall|j: int| 0 <= j < keysyms@.len() ==> (#[trigger] keysyms@[j]) is Some,
        0 <= k < requests@.len(),
        call_ensures(register_keybindings, (requests, keysyms), r),
    ensures
        r@.len() == requests@.len(),
        r@[k].keysym == keysyms@[k]->0,
        r@[k].callback_id == requests@[k].callback_id,
        names_word(requests@[k].modifiers@, "alt"@) || names_word(requests@[k].modifiers@, "mod1"@)
            <==> r@[k].alt,
        names_word(requests@[k].modifiers@, "ctrl"@) || names_word(requests@[k].modifiers@, "control"@)
            <==> r@[k].ctrl,
        names_word(requests@[k].modifiers@, "shift"@) <==> r@[k].shift,
        names_word(requests@[k].modifiers@, "super"@) || names_word(requests@[k].modifiers@, "logo"@)
            || names_word(requests@[k].modifiers@, "mod4"@) <==> r@[k].logo,
{
    lemma_all_resolved(requests@, keysyms@);
    assert(resolved(requests@, keysyms@)[k].0 == requests@[k]);
    assert(r@[k] == r@[k]);
}

/// Entry `i` is the first of its key and holds a text.
pub open spec fn tells(entries: Seq<TomlEntry>, key: Seq<char>, i: int, text: Seq<char>) -> bool {
    &&& 0 <= i < entries.len()
    &&& entries[i].key@ == key
    &&& entries[i].value matches TomlValue::Text(t)
    &&& t@ == text
    &&& forall|j: int| 0 <= j < i ==> (#[trigger] entries[j]).key@ != key
}

/// No entry has the key.
pub open spec fn lacks(entries: Seq<TomlEntry>, key: Seq<char>) -> bool {
    forall|j: int| 0 <= j < entries.len() ==> (#[trigger] entries[j]).key@ != key
}

proof fn lemma_lookup(doc: Seq<(Seq<char>, TomlShape)>, key: Seq<char>, i: int)
    requires
        forall|j: int| 0 <= j < i ==> (#[trigger] doc[j]).0 != key,
        0 <= i <= doc.len(),
        i < doc.len() ==> doc[i].0 == key,
    ensures
        i < doc.len() ==> lookup(doc, key) == Some(doc[i].1),
        i == doc.len() ==> lookup(doc, key) is None,
    decreases doc.len(),
{
    if i > 0 {
        assert(doc[0].0 != key);
        let rest = doc.skip(1);
        assert forall|j: int| 0 <= j < i - 1 implies (#[trigger] rest[j]).0 != key by {
            assert(doc[j + 1].0 != key);
        }
        lemma_lookup(rest, key, i - 1);
    }
}

proof fn lemma_entry(entries: Seq<TomlEntry>, key: Seq<char>, i: int, text: Seq<char>)
    ensures
        tells(entries, key, i, text) ==> lookup(shapes(entries), key) == Some(TomlShape::Text(text)),
        lacks(entries, key) ==> lookup(shapes(entries), key) is None,
{
    let doc = shapes(entries);
    assert(forall|j: int| 0 <= j < entries.len() ==> (#[trigger] doc[j]).0 == entries[j].key@);
    if tells(entries, key, i, text) {
        assert forall|j: int| 0 <= j < i implies (#[trigger] doc[j]).0 != key by {
            assert(entries[j].key@ != key);
        }
        lemma_lookup(doc, key, i);
    }
    if lacks(entries, key) {
        assert forall|j: int| 0 <= j < doc.len() implies (#[trigger] doc[j]).0 != key by {
            assert(entries[j].key@ != key);
        }
        lemma_lookup(doc, key, doc.len() as int);
    }
}

/// A plugin is known by the id, the name and the version that its header tells, whatever else the header
/// holds. Where one of the three is missing, it is no plugin.
pub proof fn lemma_manifests_are_read(
    entries: &[TomlEntry],
    at: (int, int, int),
    id: Seq<char>,
    name: Seq<char>,
    version: Seq<char>,
    r: Option<RawPluginManifest>,
)
    requires
        call_ensures(manifest_of, (entries,), r),
    ensures
        tells(entries@, "id"@, at.0, id) && tells(entries@, "name"@, at.1, name) && tells(
            entries@,
            "version"@,
            at.2,
            version,
        ) && lacks(entries@, "capabilities"@) && lacks(entries@, "hooks"@) ==> r is Some,
        tells(entries@, "id"@, at.0, id) ==> (r matches Some(m) ==> m.id@ == id),
        tells(entries@, "name"@, at.1, name) ==> (r matches Some(m) ==> m.name@ == name),
        tells(entries@, "version"@, at.2, version) ==> (r matches Some(m) ==> m.version@ == version),
        lacks(entries@, "id"@) || lacks(entries@, "name"@) || lacks(entries@, "version"@) ==> r is None,
{
    lemma_entry(entries@, "id"@, at.0, id);
    lemma_entry(entries@, "name"@, at.1, name);
    lemma_entry(entries@, "version"@, at.2, version);
    lemma_entry(entries@, "capabilities"@, 0, id);
    lemma_entry(entries@, "hooks"@, 0, id);
}

/// The header of a plugin is what stands between the mark that starts it and the first mark after it that
/// ends it.
pub proof fn lemma_headers_are_found(source: &str, r: Option<String>)
    requires
        call_ensures(lua_manifest_text, (source,), r),
    ensures
        r matches Some(text) ==> exists|head: Seq<char>, tail: Seq<char>|
            source@ == #[trigger] (head + "--[[ [manifest]"@ + text@ + "]]"@ + tail),
{
    match r {
        Some(text) => {
            let mark = "--[[ [manifest]"@;
            let (start, end) = choose|start: int, end: int| #[trigger]
                crate::plugins::manifest::manifest_bounds(source@, start, end) && text@
                    == source@.subrange(start, end);
            let head = source@.take(start - mark.len());
            let tail = source@.skip(end + "]]"@.len());
            assert(source@ =~= head + source@.subrange(start - mark.len(), start) + source@.subrange(
                start,
                end,
            ) + source@.subrange(end, end + "]]"@.len()) + tail);
            assert(source@ == head + "--[[ [manifest]"@ + text@ + "]]"@ + tail);
        },
        None => {},
    }
}

proof fn lemma_api_names(list: Seq<(&'static str, ApiFunction)>, k: int)
    requires
        listed(list) == api(),
        0 <= k < list.len(),
    ensures
        list[k].0@ == api()[k].0 && list[k].1 == api()[k].1,
        list.len() == 13,
        list[k].0@ == "register_layout"@ ==> k == 0,
        list[k].0@ == "on"@ ==> k == 1,
        list[k].0@ == "bind"@ ==> k == 2,
        list[k].0@ == "log"@ ==> k == 3,
        list[k].0@ == "spawn"@ ==> k == 4,
        list[k].0@ == "set_layout"@ ==> k == 5,
        list[k].0@ == "focus_next"@ ==> k == 6,
        list[k].0@ == "focus_prev"@ ==> k == 7,
        list[k].0@ == "close_window"@ ==> k == 8,
        list[k].0@ == "swap_master"@ ==> k == 9,
        list[k].0@ == "toggle_float"@ ==> k == 10,
        list[k].0@ == "toggle_fullscreen"@ ==> k == 11,
        list[k].0@ == "window_rule"@ ==> k == 12,
{
    reveal_strlit("register_layout");
    reveal_strlit("on");
    reveal_strlit("bind");
    reveal_strlit("log");
    reveal_strlit("spawn");
    reveal_strlit("set_layout");
    reveal_strlit("focus_next");
    reveal_strlit("focus_prev");
    reveal_strlit("close_window");
    reveal_strlit("swap_master");
    reveal_strlit("toggle_float");
    reveal_strlit("toggle_fullscreen");
    reveal_strlit("window_rule");
    assert("register_layout"@.len() == 15);
    assert("on"@.len() == 2);
    assert("bind"@.len() == 4);
    assert("log"@.len() == 3);
    assert("spawn"@.len() == 5);
    assert("set_layout"@.len() == 10 && "set_layout"@[0] == 's');
    assert("focus_next"@.len() == 10 && "focus_next"@[0] == 'f' && "focus_next"@[6] == 'n');
    assert("focus_prev"@.len() == 10 && "focus_prev"@[0] == 'f' && "focus_prev"@[6] == 'p');
    assert("close_window"@.len() == 12 && "close_window"@[0] == 'c');
    assert("swap_master"@.len() == 11 && "swap_master"@[0] == 's');
    assert("toggle_float"@.len() == 12 && "toggle_float"@[0] == 't');
    assert("toggle_fullscreen"@.len() == 17);
    assert("window_rule"@.len() == 11 && "window_rule"@[0] == 'w');
    assert(listed(list)[k] == (list[k].0@, list[k].1));
    assert(api().len() == 13);
}

/// The functions that plugins can call do what they are named after.
pub proof fn lemma_api_functions_keep_their_word<F>(
    list: Vec<(&'static str, ApiFunction)>,
    k: int,
    text: String,
    function: F,
    c: ApiCall<F>,
)
    requires
        call_ensures(api_functions, (), list),
        0 <= k < list@.len(),
        match list@[k].1 {
            ApiFunction::Plain(plain) => call_ensures(plain_call::<F>, (plain,), c),
            ApiFunction::OfText(of) => call_ensures(text_call::<F>, (of, text), c),
            ApiFunction::Naming(naming) => call_ensures(naming_call::<F>, (naming, text, function), c),
            _ => false,
        },
    ensures
        ({
            let name = list@[k].0@;
            &&& name == "focus_next"@ ==> c == ApiCall::<F>::Act(PluginAction::FocusNext)
            &&& name == "focus_prev"@ ==> c == ApiCall::<F>::Act(PluginAction::FocusPrev)
            &&& name == "close_window"@ ==> c == ApiCall::<F>::Act(PluginAction::CloseWindow)
            &&& name == "swap_master"@ ==> c == ApiCall::<F>::Act(PluginAction::SwapMaster)
            &&& name == "toggle_float"@ ==> c == ApiCall::<F>::Act(PluginAction::ToggleFloat)
            &&& name == "toggle_fullscreen"@ ==> c == ApiCall::<F>::Act(PluginAction::ToggleFullscreen)
            &&& name == "log"@ ==> c == ApiCall::<F>::Log(text)
            &&& name == "set_layout"@ ==> c == ApiCall::<F>::Act(PluginAction::SetLayout { name: text })
            &&& name == "register_layout"@ ==> c == (ApiCall::RegisterLayout { name: text, function })
            &&& name == "on"@ ==> c == (ApiCall::On { event: text, function })
        }),
{
    lemma_api_names(list@, k);
}

/// A rule, a program and a keybinding are asked for as they were told.
pub proof fn lemma_wishes_are_told<F>(
    app_id: Option<String>,
    title: Option<String>,
    float: Option<bool>,
    fullscreen: Option<bool>,
    rule: ApiCall<F>,
    cmd: String,
    args: Option<Vec<String>>,
    spawn: ApiCall<F>,
    modifiers: Vec<String>,
    key: String,
    function: F,
    bind: ApiCall<F>,
)
    requires
        call_ensures(rule_call::<F>, (app_id, title, float, fullscreen), rule),
        call_ensures(spawn_call::<F>, (cmd, args), spawn),
        call_ensures(bind_call::<F>, (modifiers, key, function), bind),
    ensures
        rule matches ApiCall::Rule(r) && r.app_id == app_id && r.title == title && (r.float <==> float
            == Some(true)) && (r.fullscreen <==> fullscreen == Some(true)),
        spawn matches ApiCall::Act(PluginAction::Spawn { cmd: c, args: a }) && c == cmd && (args
            is Some ==> a == args->0) && (args is None ==> a@.len() == 0),
        bind matches ApiCall::Bind { modifiers: m, key: k, function: f } && m == modifiers && k == key
            && f == function,
{
}

/// A plugin that is loaded is told of after those before it, with the file that it comes from; one without
/// a file is built in. Where loading fails nothing changes.
pub proof fn lemma_loaded_plugins_are_told_of(
    runtime: &mut LuaRuntime,
    path: &str,
    source: &str,
    from_file: bool,
    r: Result<(), LoadError>,
    infos: Vec<PluginInfo>,
)
    requires
        old(runtime).wf(),
        from_file ==> call_ensures(LuaRuntime::load_plugin_file, (runtime, path, source), r),
        !from_file ==> call_ensures(LuaRuntime::load_plugin_source, (runtime, path, source), r),
        call_ensures(LuaRuntime::plugin_info, (&*final(runtime),), infos),
    ensures
        r is Err ==> *final(runtime) == *old(runtime),
        r is Ok ==> {
            let n = old(runtime).plugins.plugins@.len() as int;
            &&& infos@.len() == n + 1
            &&& from_file ==> infos@[n].source@ == path@
            &&& infos@[n].name == final(runtime).plugins.plugins@[n].manifest.name
            &&& infos@[n].id == final(runtime).plugins.plugins@[n].manifest.id
            &&& infos@[n].version == final(runtime).plugins.plugins@[n].manifest.version
            &&& forall|p: int|
                0 <= p < n ==> (#[trigger] infos@[p]).id == old(runtime).plugins.plugins@[p].manifest.id
        },
{
    if r is Ok {
        let n = old(runtime).plugins.plugins@.len() as int;
        let after = final(runtime).plugins.plugins@;
        assert(after.len() == n + 1);
        assert(infos@[n] == infos@[n]);
        assert forall|p: int| 0 <= p < n implies (#[trigger] infos@[p]).id == old(
            runtime,
        ).plugins.plugins@[p].manifest.id by {
            assert(after.drop_last()[p] == after[p]);
        }
    }
}

proof fn lemma_failures_hold(answers: Seq<Result<String, String>>, p: int)
    requires
        answers.len() <= usize::MAX,
    ensures
        0 <= p < answers.len() && answers[p] is Err && !is_missing_function(answers[p]->Err_0@)
            ==> failures(answers).contains((p as usize, answers[p]->Err_0)),
        forall|k: int|
            0 <= k < failures(answers).len() ==> (#[trigger] failures(answers)[k]).0 < answers.len()
                && answers[failures(answers)[k].0 as int] == Err::<String, String>(
                failures(answers)[k].1,
            ),
    decreases answers.len(),
{
    if answers.len() > 0 {
        let front = answers.drop_last();
        lemma_failures_hold(front, p);
        let all = failures(answers);
        let earlier = failures(front);
        if 0 <= p < front.len() && answers[p] is Err && !is_missing_function(answers[p]->Err_0@) {
            assert(front[p] == answers[p]);
            let k = choose|k: int| 0 <= k < earlier.len() && earlier[k] == (p as usize, answers[p]->Err_0);
            assert(all[k] == earlier[k]);
        }
        if p == front.len() && answers[p] is Err && !is_missing_function(answers[p]->Err_0@) {
            assert(all[all.len() - 1] == (p as usize, answers[p]->Err_0));
        }
        assert forall|k: int| 0 <= k < all.len() implies (#[trigger] all[k]).0 < answers.len()
            && answers[all[k].0 as int] == Err::<String, String>(all[k].1) by {
            if k < earlier.len() {
                assert(all[k] == earlier[k]);
                assert(front[earlier[k].0 as int] == answers[earlier[k].0 as int]);
            }
        }
    }
}

/// Each plugin that fails on an event is told of, by its place and with its reason; one that has no
/// function for the event has not failed.
pub proof fn lemma_failures_are_told(
    answers: &[Result<String, String>],
    r: Vec<(usize, String)>,
    p: int,
    reason: &str,
    missing: bool,
)
    requires
        call_ensures(event_failures, (answers,), r),
        0 <= p < answers@.len() <= usize::MAX,
        call_ensures(missing_function, (reason,), missing),
        answers@[p] matches Err(e) ==> reason@ == e@,
    ensures
        answers@[p] is Err && !missing ==> r@.contains((p as usize, answers@[p]->Err_0)),
        forall|k: int|
            0 <= k < r@.len() ==> (#[trigger] r@[k]).0 < answers@.len() && answers@[r@[k].0 as int]
                == Err::<String, String>(r@[k].1),
{
    lemma_failures_hold(answers@, p);
}

/// Events go by names that say what happened.
pub proof fn lemma_events_have_names(event: &PluginEvent, name: &str)
    requires
        call_ensures(event_name, (event,), name),
    ensures
        *event is WindowOpened ==> name@ == "window_opened"@,
        *event is WindowClosed ==> name@ == "window_closed"@,
        *event is WindowFocused ==> name@ == "window_focused"@,
        *event is LayoutChanged ==> name@ == "layout_changed"@,
        *event is WorkspaceChanged ==> name@ == "workspace_changed"@,
        *event is WindowMovedWorkspace ==> name@ == "window_moved_workspace"@,
{
}

/// The list holds no function of this name.
pub open spec fn has_none<F>(list: Seq<NamedFunction<F>>, name: Seq<char>) -> bool {
    forall|k: int| 0 <= k < list.len() ==> (#[trigger] list[k]).name@ != name
}

/// A plugin that has no handler for an event is left alone by it.
pub proof fn lemma_others_do_not_hear(
    runtime: &mut LuaRuntime,
    event: &PluginEvent,
    name: &str,
    errors: Vec<String>,
    p: int,
)
    requires
        old(runtime).wf(),
        call_ensures(LuaRuntime::on_event, (runtime, event), errors),
        call_ensures(event_name, (event,), name),
        0 <= p < old(runtime).plugins.plugins@.len(),
        has_none(old(runtime).plugins.plugins@[p].event_handlers@, name@),
    ensures
        final(runtime).plugins.plugins@[p] == old(runtime).plugins.plugins@[p],
        final(runtime).machines@[p] == old(runtime).machines@[p],
{
    let outcomes = choose|outcomes: Seq<Option<String>>| #[trigger]
        all_heard(*old(runtime), *final(runtime), *event, outcomes);
    assert(heard_at(*old(runtime), *final(runtime), *event, p, outcomes[p]));
    assert(none_named(old(runtime).plugins.plugins@[p].event_handlers@, name@));
}

/// A callback is called in the first plugin that has it; a plugin that has none of its name, or comes
/// later, is left alone.
pub proof fn lemma_first_callback_is_called(
    runtime: &mut LuaRuntime,
    id: &str,
    error: Option<String>,
    p: int,
    q: int,
    k: int,
)
    requires
        old(runtime).wf(),
        call_ensures(LuaRuntime::invoke_callback, (runtime, id), error),
        0 <= p < old(runtime).plugins.plugins@.len(),
        0 <= q < p ==> 0 <= k < old(runtime).plugins.plugins@[q].callbacks@.len(),
    ensures
        has_none(old(runtime).plugins.plugins@[p].callbacks@, id@) ==> final(runtime).plugins.plugins@[p]
            == old(runtime).plugins.plugins@[p] && final(runtime).machines@[p] == old(runtime).machines@[p],
        0 <= q < p && old(runtime).plugins.plugins@[q].callbacks@[k].name@ == id@ ==> final(runtime).plugins.plugins@[p] == old(runtime).plugins.plugins@[p],
        (forall|j: int|
            0 <= j < old(runtime).plugins.plugins@.len() ==> has_none(
                (#[trigger] old(runtime).plugins.plugins@[j]).callbacks@,
                id@,
            )) ==> error is None,
{
    let before = old(runtime).plugins.plugins@;
    assert(final(runtime).plugins.plugins@[p] == final(runtime).plugins.plugins@[p]);
    if has_none(before[p].callbacks@, id@) {
        assert(none_named(before[p].callbacks@, id@));
        assert(!is_callback_owner(before, id@, p));
        assert(final(runtime).plugins.plugins@[p] == before[p]);
        assert(final(runtime).machines@[p] == old(runtime).machines@[p]);
    }
    if 0 <= q < p && before[q].callbacks@[k].name@ == id@ {
        assert(!none_named(before[q].callbacks@, id@));
        assert(!is_callback_owner(before, id@, p));
    }
    if forall|j: int| 0 <= j < before.len() ==> has_none((#[trigger] before[j]).callbacks@, id@) {
        assert forall|j: int| !(#[trigger] is_callback_owner(before, id@, j)) by {
            if 0 <= j < before.len() {
                assert(has_none(before[j].callbacks@, id@));
                assert(none_named(before[j].callbacks@, id@));
            }
        }
    }
}

} // verus!
