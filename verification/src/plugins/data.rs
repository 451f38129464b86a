//! What one plugin has registered and asked for.

use crate::compositor::event::{PluginAction, PluginEvent, WindowRule};
use crate::plugins::manifest::{KeybindingRequest, RawPluginManifest};
use crate::text::{join, joined_by, same, text3};
use crate::tiling::{Placement, Rect, WindowId};
use vstd::prelude::*;
use vstd::string::*;

verus! {

/// A function of a plugin under a name.
#[derive(Debug)]
pub struct NamedFunction<F> {
    pub name: String,
    pub function: F,
}

/// What a plugin can call.
#[derive(Debug)]
pub enum ApiCall<F> {
    /// `register_layout(name, arrange)`.
    RegisterLayout { name: String, function: F },
    /// `on(event, handler)`.
    On { event: String, function: F },
    /// `bind(modifiers, key, callback)`.
    Bind { modifiers: Vec<String>, key: String, function: F },
    /// `spawn(cmd, args)`, `set_layout(name)`, `focus_next()` and the like.
    Act(PluginAction),
    /// `window_rule{..}`.
    Rule(WindowRule),
    /// `log(message)`.
    Log(String),
}

/// What one plugin has registered and asked for.
#[derive(Debug)]
pub struct PluginData<F> {
    pub manifest: RawPluginManifest,
    /// Layouts, by name.
    pub layouts: Vec<NamedFunction<F>>,
    /// Event handlers, by the event's name.
    pub event_handlers: Vec<NamedFunction<F>>,
    /// Keybindings that nobody has taken yet.
    pub keybinding_requests: Vec<KeybindingRequest>,
    /// Callbacks of keybindings, by their ids.
    pub callbacks: Vec<NamedFunction<F>>,
    /// File that the plugin comes from.
    pub source_path: Option<String>,
    /// Actions that nobody has carried out yet.
    pub action_queue: Vec<PluginAction>,
    /// Window rules that nobody has taken yet.
    pub window_rules: Vec<WindowRule>,
    /// Messages that nobody has written to the log yet.
    pub messages: Vec<String>,
}

/// Entry `i` is the first of this name.
pub open spec fn is_first_named<F>(list: Seq<NamedFunction<F>>, name: Seq<char>, i: int) -> bool {
    &&& 0 <= i < list.len()
    &&& list[i].name@ == name
    &&& forall|j: int| 0 <= j < i ==> (#[trigger] list[j]).name@ != name
}

/// No entry has this name.
pub open spec fn none_named<F>(list: Seq<NamedFunction<F>>, name: Seq<char>) -> bool {
    forall|j: int| 0 <= j < list.len() ==> (#[trigger] list[j]).name@ != name
}

/// The names of a list differ.
pub open spec fn names_differ<F>(list: Seq<NamedFunction<F>>) -> bool {
    forall|i: int, j: int|
        0 <= i < j < list.len() ==> (#[trigger] list[i]).name@ != (#[trigger] list[j]).name@
}

/// The list after a function is put under a name: in place of the one there, else at the end.
pub open spec fn put<F>(
    before: Seq<NamedFunction<F>>,
    after: Seq<NamedFunction<F>>,
    name: Seq<char>,
    function: F,
) -> bool {
    ||| exists|i: int|
        {
            &&& #[trigger] is_first_named(before, name, i)
            &&& after == before.update(i, NamedFunction { function, ..before[i] })
        }
    ||| {
        &&& none_named(before, name)
        &&& after.len() == before.len() + 1
        &&& after.drop_last() == before
        &&& after.last().name@ == name
        &&& after.last().function == function
    }
}

/// The first function of a name.
pub fn find_function<F>(list: &[NamedFunction<F>], name: &str) -> (r: Option<usize>)
    ensures
        match r {
            Some(i) => is_first_named(list@, name@, i as int),
            None => none_named(list@, name@),
        },
{
    let mut i: usize = 0;
    while i < list.len()
        invariant
            i <= list@.len(),
            forall|j: int| 0 <= j < i ==> (#[trigger] list@[j]).name@ != name@,
        decreases list@.len() - i,
    {
        if same(list[i].name.as_str(), name) {
            return Some(i);
        }
        i = i + 1;
    }
    None
}

fn put_function<F>(list: &mut Vec<NamedFunction<F>>, name: String, function: F)
    ensures
        put(old(list)@, final(list)@, name@, function),
        names_differ(old(list)@) ==> names_differ(final(list)@),
{
    match find_function(list, name.as_str()) {
        Some(i) => {
            let ghost before = list@;
            let entry = &mut list[i];
            entry.function = function;
            proof {
                assert(list@ =~= before.update(
                    i as int,
                    NamedFunction { function, ..before[i as int] },
                ));
                assert(is_first_named(before, name@, i as int));
                if names_differ(before) {
                    assert forall|a: int, b: int| 0 <= a < b < list@.len() implies (
                    #[trigger] list@[a]).name@ != (#[trigger] list@[b]).name@ by {
                        assert(before[a].name@ != before[b].name@);
                    }
                }
            }
        },
        None => {
            let ghost before = list@;
            list.push(NamedFunction { name, function });
            assert(list@.drop_last() =~= before);
        },
    }
}

/// The id of a callback: the plugin, the modifiers and the key.
pub open spec fn callback_id_of(
    plugin: Seq<char>,
    modifiers: Seq<Seq<char>>,
    key: Seq<char>,
) -> Seq<char> {
    plugin + ":"@ + joined_by(modifiers, "+"@) + "+"@ + key
}

/// What an API call does to a plugin's data.
pub open spec fn call_done<F>(before: PluginData<F>, after: PluginData<F>, call: ApiCall<F>) -> bool {
    &&& after.manifest == before.manifest
    &&& after.source_path == before.source_path
    &&& match call {
        ApiCall::RegisterLayout { name, function } => put(
            before.layouts@,
            after.layouts@,
            name@,
            function,
        ),
        _ => after.layouts@ == before.layouts@,
    }
    &&& match call {
        ApiCall::On { event, function } => after.event_handlers@ == before.event_handlers@.push(
            NamedFunction { name: event, function },
        ),
        _ => after.event_handlers@ == before.event_handlers@,
    }
    &&& match call {
        ApiCall::Bind { modifiers, key, function } => {
            let id = callback_id_of(
                before.manifest.id@,
                modifiers@.map_values(|s: String| s@),
                key@,
            );
            &&& put(before.callbacks@, after.callbacks@, id, function)
            &&& after.keybinding_requests@.len() == before.keybinding_requests@.len() + 1
            &&& after.keybinding_requests@.drop_last() == before.keybinding_requests@
            &&& after.keybinding_requests@.last().modifiers@ == modifiers@
            &&& after.keybinding_requests@.last().key == key
            &&& after.keybinding_requests@.last().callback_id@ == id
        },
        _ => {
            &&& after.callbacks@ == before.callbacks@
            &&& after.keybinding_requests@ == before.keybinding_requests@
        },
    }
    &&& match call {
        ApiCall::Act(action) => after.action_queue@ == before.action_queue@.push(action),
        _ => after.action_queue@ == before.action_queue@,
    }
    &&& match call {
        ApiCall::Rule(rule) => after.window_rules@ == before.window_rules@.push(rule),
        _ => after.window_rules@ == before.window_rules@,
    }
    &&& match call {
        ApiCall::Log(message) => after.messages@ == before.messages@.push(message),
        _ => after.messages@ == before.messages@,
    }
}

/// What API calls do to a plugin's data, one after the other.
pub open spec fn calls_done<F>(
    before: PluginData<F>,
    after: PluginData<F>,
    calls: Seq<ApiCall<F>>,
) -> bool
    decreases calls.len(),
{
    if calls.len() == 0 {
        after == before
    } else {
        exists|between: PluginData<F>|
            {
                &&& #[trigger] call_done(between, after, calls.last())
                &&& calls_done(before, between, calls.drop_last())
            }
    }
}

impl<F> PluginData<F> {
    /// Layouts and callbacks have different names.
    pub open spec fn wf(&self) -> bool {
        &&& names_differ(self.layouts@)
        &&& names_differ(self.callbacks@)
    }

    /// A plugin that has not done anything yet.
    pub fn new(manifest: RawPluginManifest, source_path: Option<String>) -> (r: Self)
        ensures
            r.wf(),
            r.manifest == manifest,
            r.source_path == source_path,
            r.layouts@.len() == 0,
            r.event_handlers@.len() == 0,
            r.keybinding_requests@.len() == 0,
            r.callbacks@.len() == 0,
            r.action_queue@.len() == 0,
            r.window_rules@.len() == 0,
            r.messages@.len() == 0,
    {
        PluginData {
            manifest,
            layouts: Vec::new(),
            event_handlers: Vec::new(),
            keybinding_requests: Vec::new(),
            callbacks: Vec::new(),
            source_path,
            action_queue: Vec::new(),
            window_rules: Vec::new(),
            messages: Vec::new(),
        }
    }

    /// The plugin called the compositor.
    pub fn call(&mut self, call: ApiCall<F>)
        requires
            old(self).wf(),
        ensures
            final(self).wf(),
            call_done(*old(self), *final(self), call),
    {
        match call {
            ApiCall::RegisterLayout { name, function } => {
                put_function(&mut self.layouts, name, function);
            },
            ApiCall::On { event, function } => {
                self.event_handlers.push(NamedFunction { name: event, function });
            },
            ApiCall::Bind { modifiers, key, function } => {
                let mut id = text3(
                    self.manifest.id.as_str(),
                    ":",
                    join(&modifiers, "+").as_str(),
                );
                id.append("+");
                id.append(key.as_str());
                put_function(&mut self.callbacks, id.clone(), function);
                let ghost before = self.keybinding_requests@;
                self.keybinding_requests.push(
                    KeybindingRequest { modifiers, key, callback_id: id },
                );
                assert(self.keybinding_requests@.drop_last() =~= before);
            },
            ApiCall::Act(action) => {
                self.action_queue.push(action);
            },
            ApiCall::Rule(rule) => {
                self.window_rules.push(rule);
            },
            ApiCall::Log(message) => {
                self.messages.push(message);
            },
        }
    }

    /// The plugin called the compositor, any number of times.
    pub fn call_all(&mut self, calls: Vec<ApiCall<F>>)
        requires
            old(self).wf(),
        ensures
            final(self).wf(),
            calls_done(*old(self), *final(self), calls@),
    {
        let mut calls = calls;
        let ghost all = calls@;
        let ghost mut i: int = 0;
        assert(all.take(0) =~= Seq::<ApiCall<F>>::empty());
        while calls.len() > 0
            invariant
                0 <= i <= all.len(),
                calls@ == all.skip(i),
                self.wf(),
                calls_done(*old(self), *self, all.take(i)),
            decreases calls@.len(),
        {
            let ghost between = *self;
            let next = calls.remove(0);
            assert(next == all[i]);
            assert(calls@ =~= all.skip(i + 1));
            self.call(next);
            proof {
                assert(all.take(i + 1).drop_last() =~= all.take(i));
                assert(call_done(between, *self, all.take(i + 1).last()));
                i = i + 1;
            }
        }
        assert(all.take(i) =~= all);
    }

    /// The function of a layout.
    pub fn layout_function(&self, name: &str) -> (r: Option<&F>)
        ensures
            match r {
                Some(f) => exists|i: int| #[trigger]
                    is_first_named(self.layouts@, name@, i) && *f == self.layouts@[i].function,
                None => none_named(self.layouts@, name@),
            },
    {
        match find_function(&self.layouts, name) {
            Some(i) => Some(&self.layouts[i].function),
            None => None,
        }
    }

    /// The handler that hears of an event: the first that was registered for it.
    pub fn event_handler(&self, event: &str) -> (r: Option<&F>)
        ensures
            match r {
                Some(f) => exists|i: int| #[trigger]
                    is_first_named(self.event_handlers@, event@, i) && *f
                        == self.event_handlers@[i].function,
                None => none_named(self.event_handlers@, event@),
            },
    {
        match find_function(&self.event_handlers, event) {
            Some(i) => Some(&self.event_handlers[i].function),
            None => None,
        }
    }

    /// The function of a callback.
    pub fn callback(&self, id: &str) -> (r: Option<&F>)
        ensures
            match r {
                Some(f) => exists|i: int| #[trigger]
                    is_first_named(self.callbacks@, id@, i) && *f == self.callbacks@[i].function,
                None => none_named(self.callbacks@, id@),
            },
    {
        match find_function(&self.callbacks, id) {
            Some(i) => Some(&self.callbacks[i].function),
            None => None,
        }
    }
}

/// A layout that is registered is found, with the function of the last registration.
pub proof fn lemma_registered_is_found<F>(
    before: PluginData<F>,
    after: PluginData<F>,
    name: String,
    function: F,
    i: int,
)
    requires
        before.wf(),
        call_done(before, after, ApiCall::RegisterLayout { name, function }),
        is_first_named(after.layouts@, name@, i),
    ensures
        after.layouts@[i].function == function,
{
    let list = before.layouts@;
    let next = after.layouts@;
    if none_named(list, name@) {
        if i < list.len() {
            assert(next.drop_last()[i] == list[i]);
            assert(list[i].name@ != name@);
        }
    } else {
        let k = choose|k: int|
            {
                &&& #[trigger] is_first_named(list, name@, k)
                &&& next == list.update(k, NamedFunction { function, ..list[k] })
            };
        if i < k {
            assert(list[i].name@ != name@);
        } else if k < i {
            assert(next[k].name@ != name@);
        }
    }
}

/// The name under which plugins know an event.
pub open spec fn name_of_event(event: PluginEvent) -> Seq<char> {
    match event {
        PluginEvent::WindowOpened { .. } => "window_opened"@,
        PluginEvent::WindowClosed { .. } => "window_closed"@,
        PluginEvent::WindowFocused { .. } => "window_focused"@,
        PluginEvent::LayoutChanged { .. } => "layout_changed"@,
        PluginEvent::WorkspaceChanged { .. } => "workspace_changed"@,
        PluginEvent::WindowMovedWorkspace { .. } => "window_moved_workspace"@,
    }
}

/// The name under which plugins know an event.
pub fn event_name(event: &PluginEvent) -> (r: &'static str)
    ensures
        r@ == name_of_event(*event),
{
    match event {
        PluginEvent::WindowOpened { .. } => "window_opened",
        PluginEvent::WindowClosed { .. } => "window_closed",
        PluginEvent::WindowFocused { .. } => "window_focused",
        PluginEvent::LayoutChanged { .. } => "layout_changed",
        PluginEvent::WorkspaceChanged { .. } => "workspace_changed",
        PluginEvent::WindowMovedWorkspace { .. } => "window_moved_workspace",
    }
}

/// A value that a handler gets.
#[derive(Debug)]
pub enum FieldValue {
    Number(u64),
    Text(String),
}

/// What a handler gets: values by name.
#[derive(Debug)]
pub struct Field {
    pub name: &'static str,
    pub value: FieldValue,
}

/// A field holds this number.
pub open spec fn is_number(f: Field, name: Seq<char>, n: int) -> bool {
    f.name@ == name && (f.value matches FieldValue::Number(m) && m == n)
}

/// A field holds this text.
pub open spec fn is_text(f: Field, name: Seq<char>, text: Seq<char>) -> bool {
    f.name@ == name && (f.value matches FieldValue::Text(t) && t@ == text)
}

/// The fields of an event. What is not known of a window has no field.
pub open spec fn are_fields(event: PluginEvent, fields: Seq<Field>) -> bool {
    match event {
        PluginEvent::WindowOpened { id, app_id, title } => {
            let a: int = if app_id is Some {
                1
            } else {
                0
            };
            let t: int = if title is Some {
                1
            } else {
                0
            };
            &&& fields.len() == 1 + a + t
            &&& is_number(fields[0], "id"@, id as int)
            &&& app_id is Some ==> is_text(fields[1], "app_id"@, app_id->0@)
            &&& title is Some ==> is_text(fields[1 + a], "title"@, title->0@)
        },
        PluginEvent::WindowClosed { id } => fields.len() == 1 && is_number(
            fields[0],
            "id"@,
            id as int,
        ),
        PluginEvent::WindowFocused { id } => fields.len() == 1 && is_number(
            fields[0],
            "id"@,
            id as int,
        ),
        PluginEvent::LayoutChanged { name } => fields.len() == 1 && is_text(
            fields[0],
            "name"@,
            name@,
        ),
        PluginEvent::WorkspaceChanged { workspace } => fields.len() == 1 && is_number(
            fields[0],
            "workspace"@,
            workspace as int,
        ),
        PluginEvent::WindowMovedWorkspace { id, workspace } => fields.len() == 2 && is_number(
            fields[0],
            "id"@,
            id as int,
        ) && is_number(fields[1], "workspace"@, workspace as int),
    }
}

fn number(name: &'static str, n: u64) -> (r: Field)
    ensures
        is_number(r, name@, n as int),
{
    Field { name, value: FieldValue::Number(n) }
}

fn text(name: &'static str, t: &String) -> (r: Field)
    ensures
        is_text(r, name@, t@),
{
    Field { name, value: FieldValue::Text(t.clone()) }
}

/// The fields of an event.
pub fn event_fields(event: &PluginEvent) -> (r: Vec<Field>)
    ensures
        are_fields(*event, r@),
{
    let mut fields: Vec<Field> = Vec::new();
    match event {
        PluginEvent::WindowOpened { id, app_id, title } => {
            fields.push(number("id", *id));
            match app_id {
                Some(t) => {
                    fields.push(text("app_id", t));
                },
                None => {},
            }
            match title {
                Some(t) => {
                    fields.push(text("title", t));
                },
                None => {},
            }
        },
        PluginEvent::WindowClosed { id } => {
            fields.push(number("id", *id));
        },
        PluginEvent::WindowFocused { id } => {
            fields.push(number("id", *id));
        },
        PluginEvent::LayoutChanged { name } => {
            fields.push(text("name", name));
        },
        PluginEvent::WorkspaceChanged { workspace } => {
            fields.push(number("workspace", *workspace as u64));
        },
        PluginEvent::WindowMovedWorkspace { id, workspace } => {
            fields.push(number("id", *id));
            fields.push(number("workspace", *workspace as u64));
        },
    }
    fields
}

/// An entry of what a plugin's layout returns; what is missing or of another kind is `None`.
#[derive(Debug, Clone, Copy)]
pub struct LayoutEntry {
    pub id: Option<u64>,
    pub x: Option<i32>,
    pub y: Option<i32>,
    pub width: Option<i32>,
    pub height: Option<i32>,
}

/// A number, or 0.
pub open spec fn or_zero(n: Option<i32>) -> i32 {
    match n {
        Some(v) => v,
        None => 0,
    }
}

fn number_or_zero(n: Option<i32>) -> (r: i32)
    ensures
        r == or_zero(n),
{
    match n {
        Some(v) => v,
        None => 0,
    }
}

/// The placement of an entry.
pub open spec fn placement_of(e: LayoutEntry) -> Placement {
    Placement {
        id: WindowId(
            match e.id {
                Some(id) => id,
                None => 0,
            },
        ),
        rect: Rect {
            x: or_zero(e.x),
            y: or_zero(e.y),
            width: or_zero(e.width),
            height: or_zero(e.height),
        },
    }
}

/// Where a plugin's layout puts the windows: its entries, but at most one for each window.
pub fn placements_of(entries: &[LayoutEntry], windows: usize) -> (r: Vec<Placement>)
    ensures
        r@ == Seq::new(
            if entries@.len() < windows {
                entries@.len()
            } else {
                windows as nat
            },
            |i: int| placement_of(entries@[i]),
        ),
{
    let mut r: Vec<Placement> = Vec::new();
    let mut i: usize = 0;
    while i < entries.len() && i < windows
        invariant
            i <= entries@.len(),
            i <= windows,
            r@.len() == i,
            forall|k: int| 0 <= k < i ==> r@[k] == placement_of(#[trigger] entries@[k]),
        decreases entries@.len() - i,
    {
        let e = entries[i];
        let id: u64 = match e.id {
            Some(id) => id,
            None => 0,
        };
        r.push(
            Placement {
                id: WindowId(id),
                rect: Rect {
                    x: number_or_zero(e.x),
                    y: number_or_zero(e.y),
                    width: number_or_zero(e.width),
                    height: number_or_zero(e.height),
                },
            },
        );
        i = i + 1;
    }
    assert(r@ =~= Seq::new(
        if entries@.len() < windows {
            entries@.len()
        } else {
            windows as nat
        },
        |i: int| placement_of(entries@[i]),
    ));
    r
}

} // verus!
