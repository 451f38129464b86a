//! All plugins of a runtime.

use crate::compositor::event::{PluginAction, WindowRule};
use crate::compositor::state::PluginKeybinding;
use crate::input::codes::{names_word, parse_modifiers};
use crate::plugins::data::{is_first_named, none_named, NamedFunction, PluginData};
use crate::plugins::manifest::{KeybindingRequest, PluginInfo};
use vstd::prelude::*;
use vstd::string::*;

verus! {

/// The plugins of a runtime, in the order in which they were loaded.
#[derive(Debug)]
pub struct PluginSet<F> {
    pub plugins: Vec<PluginData<F>>,
}

/// The names of a plugin's layouts.
pub open spec fn names_of<F>(list: Seq<NamedFunction<F>>) -> Seq<Seq<char>> {
    list.map_values(|f: NamedFunction<F>| f.name@)
}

/// The layouts of all plugins, one plugin after the other.
pub open spec fn all_layouts<F>(plugins: Seq<PluginData<F>>) -> Seq<Seq<char>>
    decreases plugins.len(),
{
    if plugins.len() == 0 {
        Seq::empty()
    } else {
        all_layouts(plugins.drop_last()) + names_of(plugins.last().layouts@)
    }
}

/// The actions of all plugins, one plugin after the other.
pub open spec fn all_actions<F>(plugins: Seq<PluginData<F>>) -> Seq<PluginAction>
    decreases plugins.len(),
{
    if plugins.len() == 0 {
        Seq::empty()
    } else {
        all_actions(plugins.drop_last()) + plugins.last().action_queue@
    }
}

/// The window rules of all plugins, one plugin after the other.
pub open spec fn all_rules<F>(plugins: Seq<PluginData<F>>) -> Seq<WindowRule>
    decreases plugins.len(),
{
    if plugins.len() == 0 {
        Seq::empty()
    } else {
        all_rules(plugins.drop_last()) + plugins.last().window_rules@
    }
}

/// The keybindings that plugins want, one plugin after the other.
pub open spec fn all_requests<F>(plugins: Seq<PluginData<F>>) -> Seq<KeybindingRequest>
    decreases plugins.len(),
{
    if plugins.len() == 0 {
        Seq::empty()
    } else {
        all_requests(plugins.drop_last()) + plugins.last().keybinding_requests@
    }
}

/// Plugin `p` is the first that has a layout of this name.
pub open spec fn is_layout_owner<F>(plugins: Seq<PluginData<F>>, name: Seq<char>, p: int) -> bool {
    &&& 0 <= p < plugins.len()
    &&& !none_named(plugins[p].layouts@, name)
    &&& forall|q: int| 0 <= q < p ==> none_named((#[trigger] plugins[q]).layouts@, name)
}

/// Plugin `p` is the first that has a callback of this id.
pub open spec fn is_callback_owner<F>(plugins: Seq<PluginData<F>>, id: Seq<char>, p: int) -> bool {
    &&& 0 <= p < plugins.len()
    &&& !none_named(plugins[p].callbacks@, id)
    &&& forall|q: int| 0 <= q < p ==> none_named((#[trigger] plugins[q]).callbacks@, id)
}

/// What is told of a plugin.
pub open spec fn is_info<F>(p: PluginData<F>, info: PluginInfo) -> bool {
    &&& info.id == p.manifest.id
    &&& info.name == p.manifest.name
    &&& info.version == p.manifest.version
    &&& info.source@ == (match p.source_path {
        Some(path) => path@,
        None => "builtin"@,
    })
    &&& info.layouts@.map_values(|s: String| s@) == names_of(p.layouts@)
}

impl<F> PluginSet<F> {
    pub fn new() -> (r: Self)
        ensures
            r.plugins@.len() == 0,
    {
        PluginSet { plugins: Vec::new() }
    }

    /// The names of all layouts that plugins registered.
    pub fn layout_names(&self) -> (r: Vec<String>)
        ensures
            r@.map_values(|s: String| s@) == all_layouts(self.plugins@),
    {
        let mut r: Vec<String> = Vec::new();
        let mut p: usize = 0;
        assert(self.plugins@.take(0) =~= Seq::<PluginData<F>>::empty());
        assert(r@.map_values(|s: String| s@) =~= all_layouts(self.plugins@.take(0)));
        while p < self.plugins.len()
            invariant
                p <= self.plugins@.len(),
                r@.map_values(|s: String| s@) == all_layouts(self.plugins@.take(p as int)),
            decreases self.plugins@.len() - p,
        {
            assert(self.plugins@.take(p + 1).drop_last() =~= self.plugins@.take(p as int));
            let ghost before = r@;
            let mut names = list_names(&self.plugins[p].layouts);
            let ghost added = names@;
            r.append(&mut names);
            assert(r@.map_values(|s: String| s@) =~= before.map_values(|s: String| s@)
                + added.map_values(|s: String| s@));
            p = p + 1;
        }
        assert(self.plugins@.take(p as int) =~= self.plugins@);
        r
    }

    /// The plugin that provides a layout, and its function: the first plugin that has one.
    pub fn find_layout(&self, name: &str) -> (r: Option<(usize, &F)>)
        ensures
            match r {
                Some((p, f)) => is_layout_owner(self.plugins@, name@, p as int) && exists|i: int|
                    #[trigger]
                    is_first_named(self.plugins@[p as int].layouts@, name@, i) && *f
                        == self.plugins@[p as int].layouts@[i].function,
                None => forall|q: int|
                    0 <= q < self.plugins@.len() ==> none_named(
                        (#[trigger] self.plugins@[q]).layouts@,
                        name@,
                    ),
            },
    {
        let mut p: usize = 0;
        while p < self.plugins.len()
            invariant
                p <= self.plugins@.len(),
                forall|q: int|
                    0 <= q < p ==> none_named((#[trigger] self.plugins@[q]).layouts@, name@),
            decreases self.plugins@.len() - p,
        {
            match self.plugins[p].layout_function(name) {
                Some(f) => {
                    return Some((p, f));
                },
                None => {},
            }
            p = p + 1;
        }
        None
    }

    /// The plugin that has a callback, and its function: the first plugin that has one.
    pub fn find_callback(&self, id: &str) -> (r: Option<(usize, &F)>)
        ensures
            match r {
                Some((p, f)) => is_callback_owner(self.plugins@, id@, p as int) && exists|i: int|
                    #[trigger]
                    is_first_named(self.plugins@[p as int].callbacks@, id@, i) && *f
                        == self.plugins@[p as int].callbacks@[i].function,
                None => forall|q: int|
                    0 <= q < self.plugins@.len() ==> none_named(
                        (#[trigger] self.plugins@[q]).callbacks@,
                        id@,
                    ),
            },
    {
        let mut p: usize = 0;
        while p < self.plugins.len()
            invariant
                p <= self.plugins@.len(),
                forall|q: int|
                    0 <= q < p ==> none_named((#[trigger] self.plugins@[q]).callbacks@, id@),
            decreases self.plugins@.len() - p,
        {
            match self.plugins[p].callback(id) {
                Some(f) => {
                    return Some((p, f));
                },
                None => {},
            }
            p = p + 1;
        }
        None
    }

    /// What is told of each plugin.
    pub fn plugin_info(&self) -> (r: Vec<PluginInfo>)
        ensures
            r@.len() == self.plugins@.len(),
            forall|p: int| 0 <= p < r@.len() ==> is_info(self.plugins@[p], #[trigger] r@[p]),
    {
        let mut r: Vec<PluginInfo> = Vec::new();
        let mut p: usize = 0;
        while p < self.plugins.len()
            invariant
                p <= self.plugins@.len(),
                r@.len() == p,
                forall|q: int| 0 <= q < r@.len() ==> is_info(self.plugins@[q], #[trigger] r@[q]),
            decreases self.plugins@.len() - p,
        {
            let plugin = &self.plugins[p];
            let source = match &plugin.source_path {
                Some(path) => path.clone(),
                None => String::from_str("builtin"),
            };
            r.push(
                PluginInfo {
                    id: plugin.manifest.id.clone(),
                    name: plugin.manifest.name.clone(),
                    version: plugin.manifest.version.clone(),
                    source,
                    layouts: list_names(&plugin.layouts),
                },
            );
            p = p + 1;
        }
        r
    }

    /// Takes the actions that plugins have queued.
    pub fn drain_actions(&mut self) -> (r: Vec<PluginAction>)
        ensures
            r@ == all_actions(old(self).plugins@),
            final(self).plugins@.len() == old(self).plugins@.len(),
            forall|p: int|
                0 <= p < final(self).plugins@.len() ==> same_but_actions(
                    old(self).plugins@[p],
                    #[trigger] final(self).plugins@[p],
                ),
    {
        let mut r: Vec<PluginAction> = Vec::new();
        let ghost before = self.plugins@;
        let mut p: usize = 0;
        assert(before.take(0) =~= Seq::<PluginData<F>>::empty());
        while p < self.plugins.len()
            invariant
                p <= before.len(),
                self.plugins@.len() == before.len(),
                r@ =~= all_actions(before.take(p as int)),
                forall|q: int|
                    0 <= q < p ==> same_but_actions(before[q], #[trigger] self.plugins@[q]),
                forall|q: int| p <= q < before.len() ==> self.plugins@[q] == before[q],
            decreases before.len() - p,
        {
            assert(before.take(p + 1).drop_last() =~= before.take(p as int));
            let plugin = &mut self.plugins[p];
            r.append(&mut plugin.action_queue);
            p = p + 1;
        }
        assert(before.take(p as int) =~= before);
        r
    }

    /// Takes the window rules that plugins have registered.
    pub fn drain_window_rules(&mut self) -> (r: Vec<WindowRule>)
        ensures
            r@ == all_rules(old(self).plugins@),
            final(self).plugins@.len() == old(self).plugins@.len(),
            forall|p: int|
                0 <= p < final(self).plugins@.len() ==> same_but_rules(
                    old(self).plugins@[p],
                    #[trigger] final(self).plugins@[p],
                ),
    {
        let mut r: Vec<WindowRule> = Vec::new();
        let ghost before = self.plugins@;
        let mut p: usize = 0;
        assert(before.take(0) =~= Seq::<PluginData<F>>::empty());
        while p < self.plugins.len()
            invariant
                p <= before.len(),
                self.plugins@.len() == before.len(),
                r@ =~= all_rules(before.take(p as int)),
                forall|q: int|
                    0 <= q < p ==> same_but_rules(before[q], #[trigger] self.plugins@[q]),
                forall|q: int| p <= q < before.len() ==> self.plugins@[q] == before[q],
            decreases before.len() - p,
        {
            assert(before.take(p + 1).drop_last() =~= before.take(p as int));
            let plugin = &mut self.plugins[p];
            r.append(&mut plugin.window_rules);
            p = p + 1;
        }
        assert(before.take(p as int) =~= before);
        r
    }

    /// Takes the keybindings that plugins want.
    pub fn drain_keybinding_requests(&mut self) -> (r: Vec<KeybindingRequest>)
        ensures
            r@ == all_requests(old(self).plugins@),
            final(self).plugins@.len() == old(self).plugins@.len(),
            forall|p: int|
                0 <= p < final(self).plugins@.len() ==> same_but_requests(
                    old(self).plugins@[p],
                    #[trigger] final(self).plugins@[p],
                ),
    {
        let mut r: Vec<KeybindingRequest> = Vec::new();
        let ghost before = self.plugins@;
        let mut p: usize = 0;
        assert(before.take(0) =~= Seq::<PluginData<F>>::empty());
        while p < self.plugins.len()
            invariant
                p <= before.len(),
                self.plugins@.len() == before.len(),
                r@ =~= all_requests(before.take(p as int)),
                forall|q: int|
                    0 <= q < p ==> same_but_requests(before[q], #[trigger] self.plugins@[q]),
                forall|q: int| p <= q < before.len() ==> self.plugins@[q] == before[q],
            decreases before.len() - p,
        {
            assert(before.take(p + 1).drop_last() =~= before.take(p as int));
            let plugin = &mut self.plugins[p];
            r.append(&mut plugin.keybinding_requests);
            p = p + 1;
        }
        assert(before.take(p as int) =~= before);
        r
    }
}

/// Two plugins are the same, and the second has no actions queued.
pub open spec fn same_but_actions<F>(a: PluginData<F>, b: PluginData<F>) -> bool {
    &&& b.action_queue@.len() == 0
    &&& b == PluginData { action_queue: b.action_queue, ..a }
}

/// Two plugins are the same, and the second has no window rules left.
pub open spec fn same_but_rules<F>(a: PluginData<F>, b: PluginData<F>) -> bool {
    &&& b.window_rules@.len() == 0
    &&& b == PluginData { window_rules: b.window_rules, ..a }
}

/// Two plugins are the same, and the second has no keybindings left to ask for.
pub open spec fn same_but_requests<F>(a: PluginData<F>, b: PluginData<F>) -> bool {
    &&& b.keybinding_requests@.len() == 0
    &&& b == PluginData { keybinding_requests: b.keybinding_requests, ..a }
}

/// What has been drained does not come again.
pub proof fn lemma_drained_is_empty<F>(plugins: Seq<PluginData<F>>)
    requires
        forall|p: int| 0 <= p < plugins.len() ==> (#[trigger] plugins[p]).action_queue@.len() == 0,
    ensures
        all_actions(plugins).len() == 0,
    decreases plugins.len(),
{
    if plugins.len() > 0 {
        let shorter = plugins.drop_last();
        assert forall|p: int| 0 <= p < shorter.len() implies (
        #[trigger] shorter[p]).action_queue@.len() == 0 by {
            assert(plugins[p].action_queue@.len() == 0);
        }
        lemma_drained_is_empty(shorter);
        assert(plugins.last().action_queue@.len() == 0);
    }
}

fn list_names<F>(list: &Vec<NamedFunction<F>>) -> (r: Vec<String>)
    ensures
        r@.map_values(|s: String| s@) == names_of(list@),
{
    let mut r: Vec<String> = Vec::new();
    let mut i: usize = 0;
    while i < list.len()
        invariant
            i <= list@.len(),
            r@.len() == i,
            forall|k: int| 0 <= k < i ==> (#[trigger] r@[k])@ == list@[k].name@,
        decreases list@.len() - i,
    {
        r.push(list[i].name.clone());
        i = i + 1;
    }
    assert(r@.map_values(|s: String| s@) =~= names_of(list@));
    r
}

/// A key's symbol: by its exact name, else by its name in any case. 0 stands for no symbol.
pub fn choose_keysym(exact: u32, any_case: u32) -> (r: Option<u32>)
    ensures
        r == (if exact != 0 {
            Some(exact)
        } else if any_case != 0 {
            Some(any_case)
        } else {
            None
        }),
{
    if exact != 0 {
        Some(exact)
    } else if any_case != 0 {
        Some(any_case)
    } else {
        None
    }
}

/// A keybinding for a request whose key has this symbol.
pub open spec fn is_binding(request: KeybindingRequest, keysym: u32, b: PluginKeybinding) -> bool {
    let mods = request.modifiers@;
    &&& b.keysym == keysym
    &&& b.callback_id == request.callback_id
    &&& b.alt == (names_word(mods, "alt"@) || names_word(mods, "mod1"@))
    &&& b.ctrl == (names_word(mods, "ctrl"@) || names_word(mods, "control"@))
    &&& b.shift == names_word(mods, "shift"@)
    &&& b.logo == (names_word(mods, "super"@) || names_word(mods, "logo"@) || names_word(
        mods,
        "mod4"@,
    ))
}

/// The requests whose keys have symbols, in order, with the symbols.
pub open spec fn resolved(
    requests: Seq<KeybindingRequest>,
    keysyms: Seq<Option<u32>>,
) -> Seq<(KeybindingRequest, u32)>
    decreases requests.len(),
{
    if requests.len() == 0 {
        Seq::empty()
    } else {
        let before = resolved(requests.drop_last(), keysyms.drop_last());
        match keysyms.last() {
            Some(sym) => before.push((requests.last(), sym)),
            None => before,
        }
    }
}

/// Makes keybindings of the requests; requests for unknown keys are left out.
pub fn register_keybindings(requests: &[KeybindingRequest], keysyms: &[Option<u32>]) -> (r: Vec<
    PluginKeybinding,
>)
    requires
        requests@.len() == keysyms@.len(),
    ensures
        r@.len() == resolved(requests@, keysyms@).len(),
        forall|i: int|
            0 <= i < r@.len() ==> is_binding(
                resolved(requests@, keysyms@)[i].0,
                resolved(requests@, keysyms@)[i].1,
                #[trigger] r@[i],
            ),
{
    let mut r: Vec<PluginKeybinding> = Vec::new();
    let mut i: usize = 0;
    assert(requests@.take(0) =~= Seq::<KeybindingRequest>::empty());
    while i < requests.len()
        invariant
            i <= requests@.len() == keysyms@.len(),
            ({
                let done = resolved(requests@.take(i as int), keysyms@.take(i as int));
                &&& r@.len() == done.len()
                &&& forall|k: int|
                    0 <= k < r@.len() ==> is_binding(done[k].0, done[k].1, #[trigger] r@[k])
            }),
        decreases requests@.len() - i,
    {
        assert(requests@.take(i + 1).drop_last() =~= requests@.take(i as int));
        assert(keysyms@.take(i + 1).drop_last() =~= keysyms@.take(i as int));
        match keysyms[i] {
            Some(keysym) => {
                let mods = parse_modifiers(&requests[i].modifiers);
                r.push(
                    PluginKeybinding {
                        keysym,
                        alt: mods.alt,
                        ctrl: mods.ctrl,
                        shift: mods.shift,
                        logo: mods.logo,
                        callback_id: requests[i].callback_id.clone(),
                    },
                );
            },
            None => {},
        }
        i = i + 1;
    }
    assert(requests@.take(i as int) =~= requests@);
    assert(keysyms@.take(i as int) =~= keysyms@);
    r
}

} // verus!
