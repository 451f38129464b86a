//! Plugins compiled to WebAssembly.

use crate::compositor::lifecycle::text_view;
use crate::plugins::manifest::{PluginInfo, RawPluginManifest};
use crate::text::{contains, contains_text, same, text2};
use crate::tiling::{Placement, Rect, WindowId};
use extism::{Manifest, Plugin, Wasm};
use vstd::prelude::*;
use vstd::string::*;

verus! {

#[verifier::external_type_specification]
#[verifier::external_body]
pub struct ExPlugin(Plugin);

/// `extism::Plugin::new` of a module, without host functions and with WASI: the plugin, or what went
/// wrong. That rests on the module and on the machine, so nothing is said of it.
#[verifier::external_body]
fn start_plugin(module: &[u8]) -> Result<Plugin, String> {
    let manifest = Manifest::new([Wasm::data(module)]);
    Plugin::new(&manifest, [], true).map_err(|e| e.to_string())
}

/// `extism::Plugin::call` of an exported function with a text: the plugin after the call, and the text
/// that comes back, or what went wrong. That rests on the plugin's code, so nothing is said of it.
#[verifier::external_body]
fn ask(plugin: Plugin, function: &str, input: &str) -> (Plugin, Result<String, String>) {
    let mut plugin = plugin;
    let answer = plugin.call::<&str, String>(function, input).map_err(|e| e.to_string());
    (plugin, answer)
}

/// `start_plugin` was handed a module and gave this.
pub closed spec fn started(module: Seq<u8>, r: Result<Plugin, String>) -> bool {
    exists|m: &[u8]| m@ == module && #[trigger] call_ensures(start_plugin, (m,), r)
}

/// `ask` was handed a plugin, the name of a function and a text, and gave the plugin as it is after
/// the call, and the answer.
pub closed spec fn asked(
    before: Plugin,
    after: Plugin,
    function: Seq<char>,
    input: Seq<char>,
    answer: Result<String, String>,
) -> bool {
    exists|f: &str, i: &str|
        {
            &&& f@ == function
            &&& i@ == input
            &&& #[trigger] call_ensures(ask, (before, f, i), (after, answer))
        }
}

/// Every plugin was asked, and gave the answer at its place.
pub open spec fn all_asked(
    before: Seq<Plugin>,
    after: Seq<Plugin>,
    function: Seq<char>,
    input: Seq<char>,
    answers: Seq<Result<String, String>>,
) -> bool {
    &&& after.len() == before.len()
    &&& answers.len() == before.len()
    &&& forall|p: int|
        0 <= p < before.len() ==> asked(
            before[p],
            after[p],
            function,
            input,
            #[trigger] answers[p],
        )
}

/// The plugin was asked, and failed.
pub open spec fn failed(
    before: Plugin,
    after: Plugin,
    function: Seq<char>,
    input: Seq<char>,
) -> bool {
    exists|e: String| #[trigger]
        asked(before, after, function, input, Err::<String, String>(e))
}

/// Plugins were asked in order until one did not fail, which is `r`; the rest were left alone.
pub open spec fn asked_in_turn(
    before: Seq<Plugin>,
    after: Seq<Plugin>,
    function: Seq<char>,
    input: Seq<char>,
    r: Option<usize>,
) -> bool {
    &&& after.len() == before.len()
    &&& match r {
        Some(p) => {
            &&& p < before.len()
            &&& forall|q: int|
                0 <= q < p ==> failed(before[q], #[trigger] after[q], function, input)
            &&& exists|answer: String| #[trigger]
                asked(
                    before[p as int],
                    after[p as int],
                    function,
                    input,
                    Ok::<String, String>(answer),
                )
            &&& forall|q: int| p < q < before.len() ==> #[trigger] after[q] == before[q]
        },
        None => forall|q: int|
            0 <= q < before.len() ==> failed(before[q], #[trigger] after[q], function, input),
    }
}

/// What `serde_json::from_str` reads out of a text as a list of texts.
pub uninterp spec fn json_texts(json: Seq<char>) -> Option<Seq<Seq<char>>>;

/// `serde_json::from_str` into a list of texts. What it gives depends on the text alone.
#[verifier::external_body]
fn parse_texts(json: &str) -> (r: Option<Vec<String>>)
    ensures
        match r {
            Some(list) => json_texts(json@) == Some(texts(list@)),
            None => json_texts(json@) is None,
        },
{
    serde_json::from_str::<Vec<String>>(json).ok()
}

/// What is known of a loaded WASM plugin.
#[derive(Debug)]
pub struct WasmPlugin {
    pub manifest: RawPluginManifest,
    /// Layout names this plugin provides.
    pub layouts: Vec<String>,
    /// Path to the .wasm file.
    pub wasm_path: String,
}

/// The WASM plugins, in the order in which they were loaded.
pub struct WasmRuntime {
    pub instances: Vec<Plugin>,
    pub plugins: Vec<WasmPlugin>,
}

/// Texts as mathematical values.
pub open spec fn texts(list: Seq<String>) -> Seq<Seq<char>> {
    list.map_values(|s: String| s@)
}

/// The layouts of all plugins, one plugin after the other.
pub open spec fn wasm_layouts(plugins: Seq<WasmPlugin>) -> Seq<Seq<char>>
    decreases plugins.len(),
{
    if plugins.len() == 0 {
        Seq::empty()
    } else {
        wasm_layouts(plugins.drop_last()) + texts(plugins.last().layouts@)
    }
}

/// Plugin `p` is the first that has a layout of this name.
pub open spec fn provides_first(plugins: Seq<WasmPlugin>, name: Seq<char>, p: int) -> bool {
    &&& 0 <= p < plugins.len()
    &&& texts(plugins[p].layouts@).contains(name)
    &&& forall|q: int|
        0 <= q < p ==> !texts((#[trigger] plugins[q]).layouts@).contains(name)
}

/// No plugin has a layout of this name.
pub open spec fn provided_by_none(plugins: Seq<WasmPlugin>, name: Seq<char>) -> bool {
    forall|q: int| 0 <= q < plugins.len() ==> !texts((#[trigger] plugins[q]).layouts@).contains(name)
}

/// What is told of a plugin.
pub open spec fn is_wasm_info(p: WasmPlugin, info: PluginInfo) -> bool {
    &&& info.id == p.manifest.id
    &&& info.name == p.manifest.name
    &&& info.version == p.manifest.version
    &&& info.source == p.wasm_path
    &&& texts(info.layouts@) == texts(p.layouts@)
}

fn clone_texts(list: &Vec<String>) -> (r: Vec<String>)
    ensures
        texts(r@) == texts(list@),
{
    let mut r: Vec<String> = Vec::new();
    let mut i: usize = 0;
    while i < list.len()
        invariant
            i <= list@.len(),
            r@.len() == i,
            forall|k: int| 0 <= k < i ==> (#[trigger] r@[k])@ == list@[k]@,
        decreases list@.len() - i,
    {
        r.push(list[i].clone());
        i = i + 1;
    }
    assert(texts(r@) =~= texts(list@));
    r
}

fn holds_text(list: &Vec<String>, text: &str) -> (r: bool)
    ensures
        r == texts(list@).contains(text@),
{
    let mut i: usize = 0;
    while i < list.len()
        invariant
            i <= list@.len(),
            forall|k: int| 0 <= k < i ==> (#[trigger] list@[k])@ != text@,
        decreases list@.len() - i,
    {
        if same(list[i].as_str(), text) {
            assert(texts(list@)[i as int] == text@);
            return true;
        }
        i = i + 1;
    }
    assert forall|k: int| 0 <= k < texts(list@).len() implies texts(list@)[k] != text@ by {
        assert(list@[k]@ != text@);
    }
    false
}

impl WasmRuntime {
    /// There is an instance of each plugin.
    pub open spec fn wf(&self) -> bool {
        self.instances@.len() == self.plugins@.len()
    }

    /// A runtime without plugins.
    pub fn new() -> (r: Self)
        ensures
            r.wf(),
            r.plugins@.len() == 0,
    {
        WasmRuntime { instances: Vec::new(), plugins: Vec::new() }
    }

    /// Forgets every plugin, before they are loaded anew.
    pub fn clear(&mut self)
        ensures
            final(self).wf(),
            final(self).plugins@.len() == 0,
    {
        self.instances.clear();
        self.plugins.clear();
    }

    /// Starts a plugin, asks it which layouts it has, and keeps it. Whether it starts, and what it
    /// answers, rests on its code.
    pub fn load_single_plugin(
        &mut self,
        manifest: RawPluginManifest,
        wasm_bytes: &[u8],
        wasm_path: String,
    ) -> (r: Result<(), String>)
        requires
            old(self).wf(),
        ensures
            final(self).wf(),
            match r {
                Ok(_) => exists|layouts: Vec<String>, fresh: Plugin, answer: Result<String, String>|
                    {
                        &&& #[trigger] is_kept(
                            old(self).plugins@,
                            final(self).plugins@,
                            manifest,
                            layouts,
                            wasm_path,
                        )
                        &&& started(wasm_bytes@, Ok::<Plugin, String>(fresh))
                        &&& #[trigger] asked(
                            fresh,
                            final(self).instances@.last(),
                            "get_layouts"@,
                            ""@,
                            answer,
                        )
                        &&& final(self).instances@.drop_last() == old(self).instances@
                        &&& texts(layouts@) == answered_layouts(answer_text(answer))
                    },
                Err(e) => {
                    &&& *final(self) == *old(self)
                    &&& exists|reason: String|
                        {
                            &&& #[trigger] started(wasm_bytes@, Err::<Plugin, String>(reason))
                            &&& e@ == "failed to create WASM plugin: "@ + reason@
                        }
                },
            },
    {
        let plugin = match start_plugin(wasm_bytes) {
            Ok(plugin) => plugin,
            Err(e) => {
                assert(started(wasm_bytes@, Err::<Plugin, String>(e)));
                return Err(text2("failed to create WASM plugin: ", e.as_str()));
            },
        };
        let ghost fresh = plugin;
        let (plugin, answer) = ask(plugin, "get_layouts", "");
        assert(started(wasm_bytes@, Ok::<Plugin, String>(fresh)));
        assert(asked(fresh, plugin, "get_layouts"@, ""@, answer));
        let ghost given = answer;
        let layouts = query_layouts(&answer_of(answer));
        let ghost before = self.instances@;
        self.instances.push(plugin);
        self.plugins.push(WasmPlugin { manifest, layouts, wasm_path });
        proof {
            assert(self.instances@.drop_last() =~= before);
            assert(is_kept(old(self).plugins@, self.plugins@, manifest, layouts, wasm_path));
            assert(asked(fresh, self.instances@.last(), "get_layouts"@, ""@, given));
        }
        Ok(())
    }

    /// Tells every plugin of an event. Returns which plugins failed, and how; that a plugin has no
    /// function for events is no failure. Whether one fails rests on its code.
    pub fn on_event(&mut self, event_json: &str) -> (errors: Vec<(usize, String)>)
        requires
            old(self).wf(),
        ensures
            final(self).wf(),
            final(self).plugins@ == old(self).plugins@,
            exists|answers: Seq<Result<String, String>>|
                {
                    &&& #[trigger] all_asked(
                        old(self).instances@,
                        final(self).instances@,
                        "on_event"@,
                        event_json@,
                        answers,
                    )
                    &&& errors@ == failures(answers)
                },
    {
        let answers = self.ask_each("on_event", event_json);
        event_failures(&answers)
    }

    /// Calls a function of plugin `p`.
    fn ask_plugin(&mut self, p: usize, function: &str, input: &str) -> (r: Result<String, String>)
        requires
            old(self).wf(),
            p < old(self).plugins@.len(),
        ensures
            final(self).wf(),
            final(self).plugins@ == old(self).plugins@,
            final(self).instances@ == old(self).instances@.update(
                p as int,
                final(self).instances@[p as int],
            ),
            asked(
                old(self).instances@[p as int],
                final(self).instances@[p as int],
                function@,
                input@,
                r,
            ),
    {
        let ghost before = self.instances@;
        let plugin = self.instances.remove(p);
        let (plugin, r) = ask(plugin, function, input);
        assert(asked(before[p as int], plugin, function@, input@, r));
        self.instances.insert(p, plugin);
        assert(self.instances@ =~= before.update(p as int, plugin));
        r
    }

    /// Calls a function of every plugin. There is an answer for each.
    fn ask_each(&mut self, function: &str, input: &str) -> (answers: Vec<Result<String, String>>)
        requires
            old(self).wf(),
        ensures
            final(self).wf(),
            final(self).plugins@ == old(self).plugins@,
            all_asked(
                old(self).instances@,
                final(self).instances@,
                function@,
                input@,
                answers@,
            ),
    {
        let mut answers: Vec<Result<String, String>> = Vec::new();
        let ghost before = self.instances@;
        let mut p: usize = 0;
        while p < self.plugins.len()
            invariant
                before == old(self).instances@,
                before.len() == self.plugins@.len(),
                p <= self.plugins@.len(),
                self.wf(),
                self.plugins@ == old(self).plugins@,
                answers@.len() == p,
                forall|q: int|
                    0 <= q < p ==> asked(
                        before[q],
                        self.instances@[q],
                        function@,
                        input@,
                        #[trigger] answers@[q],
                    ),
                forall|q: int| p <= q < before.len() ==> self.instances@[q] == before[q],
            decreases self.plugins@.len() - p,
        {
            let answer = self.ask_plugin(p, function, input);
            answers.push(answer);
            p = p + 1;
        }
        answers
    }

    /// Asks every plugin for something. There is an answer for each, or none where it failed.
    pub fn ask_all(&mut self, question: Question) -> (answers: Vec<Option<String>>)
        requires
            old(self).wf(),
        ensures
            final(self).wf(),
            final(self).plugins@ == old(self).plugins@,
            exists|given: Seq<Result<String, String>>|
                {
                    &&& #[trigger] all_asked(
                        old(self).instances@,
                        final(self).instances@,
                        name_of_question(question),
                        ""@,
                        given,
                    )
                    &&& answers@.len() == given.len()
                    &&& forall|p: int|
                        0 <= p < given.len() ==> #[trigger] answers@[p] == kept_answer(given[p])
                },
    {
        let given = self.ask_each(question_name(question), "");
        let mut answers: Vec<Option<String>> = Vec::new();
        let mut p: usize = 0;
        while p < given.len()
            invariant
                p <= given@.len(),
                answers@.len() == p,
                forall|q: int| 0 <= q < p ==> #[trigger] answers@[q] == kept_answer(given@[q]),
            decreases given@.len() - p,
        {
            answers.push(
                match &given[p] {
                    Ok(text) => Some(text.clone()),
                    Err(_) => None,
                },
            );
            p = p + 1;
        }
        answers
    }

    /// Invoke a plugin callback by ID (from a keybinding): plugins are asked in order until one has
    /// it. Returns which one.
    pub fn invoke_callback(&mut self, callback_id: &str) -> (r: Option<usize>)
        requires
            old(self).wf(),
        ensures
            final(self).wf(),
            final(self).plugins@ == old(self).plugins@,
            asked_in_turn(
                old(self).instances@,
                final(self).instances@,
                "invoke_callback"@,
                callback_id@,
                r,
            ),
    {
        let ghost before = self.instances@;
        let mut p: usize = 0;
        while p < self.plugins.len()
            invariant
                before == old(self).instances@,
                before.len() == self.plugins@.len(),
                p <= self.plugins@.len(),
                self.wf(),
                self.plugins@ == old(self).plugins@,
                forall|q: int|
                    0 <= q < p ==> failed(
                        before[q],
                        #[trigger] self.instances@[q],
                        "invoke_callback"@,
                        callback_id@,
                    ),
                forall|q: int| p <= q < before.len() ==> self.instances@[q] == before[q],
            decreases self.plugins@.len() - p,
        {
            let ghost earlier = self.instances@;
            match self.ask_plugin(p, "invoke_callback", callback_id) {
                Ok(text) => {
                    assert(asked(
                        before[p as int],
                        self.instances@[p as int],
                        "invoke_callback"@,
                        callback_id@,
                        Ok::<String, String>(text),
                    ));
                    assert forall|q: int| p < q < before.len() implies #[trigger] self.instances@[q]
                        == before[q] by {
                        assert(earlier[q] == before[q]);
                    }
                    assert forall|q: int| 0 <= q < p implies failed(
                        before[q],
                        #[trigger] self.instances@[q],
                        "invoke_callback"@,
                        callback_id@,
                    ) by {
                        assert(self.instances@[q] == earlier[q]);
                    }
                    return Some(p);
                },
                Err(e) => {
                    assert(asked(
                        before[p as int],
                        self.instances@[p as int],
                        "invoke_callback"@,
                        callback_id@,
                        Err::<String, String>(e),
                    ));
                },
            }
            p = p + 1;
        }
        None
    }

    /// The names of all layouts that plugins provide.
    pub fn layout_names(&self) -> (r: Vec<String>)
        ensures
            texts(r@) == wasm_layouts(self.plugins@),
    {
        let mut r: Vec<String> = Vec::new();
        let mut p: usize = 0;
        assert(self.plugins@.take(0) =~= Seq::<WasmPlugin>::empty());
        assert(texts(r@) =~= wasm_layouts(self.plugins@.take(0)));
        while p < self.plugins.len()
            invariant
                p <= self.plugins@.len(),
                texts(r@) == wasm_layouts(self.plugins@.take(p as int)),
            decreases self.plugins@.len() - p,
        {
            assert(self.plugins@.take(p + 1).drop_last() =~= self.plugins@.take(p as int));
            let ghost before = r@;
            let mut names = clone_texts(&self.plugins[p].layouts);
            let ghost more = names@;
            r.append(&mut names);
            assert(texts(r@) =~= texts(before) + texts(more));
            p = p + 1;
        }
        assert(self.plugins@.take(p as int) =~= self.plugins@);
        r
    }

    /// Create a layout instance by name: that of the first plugin that has one.
    pub fn create_layout(&self, name: &str) -> (r: Option<WasmLayout>)
        ensures
            match r {
                Some(layout) => {
                    &&& provides_first(self.plugins@, name@, layout.plugin as int)
                    &&& layout.layout_name@ == name@
                },
                None => forall|q: int|
                    0 <= q < self.plugins@.len() ==> !texts(
                        (#[trigger] self.plugins@[q]).layouts@,
                    ).contains(name@),
            },
            r is None ==> provided_by_none(self.plugins@, name@),
    {
        let mut p: usize = 0;
        while p < self.plugins.len()
            invariant
                p <= self.plugins@.len(),
                forall|q: int|
                    0 <= q < p ==> !texts((#[trigger] self.plugins@[q]).layouts@).contains(name@),
            decreases self.plugins@.len() - p,
        {
            if holds_text(&self.plugins[p].layouts, name) {
                return Some(WasmLayout { plugin: p, layout_name: String::from_str(name) });
            }
            p = p + 1;
        }
        None
    }

    /// Get information about all loaded plugins.
    pub fn plugin_info(&self) -> (r: Vec<PluginInfo>)
        ensures
            r@.len() == self.plugins@.len(),
            forall|p: int| 0 <= p < r@.len() ==> is_wasm_info(self.plugins@[p], #[trigger] r@[p]),
    {
        let mut r: Vec<PluginInfo> = Vec::new();
        let mut p: usize = 0;
        while p < self.plugins.len()
            invariant
                p <= self.plugins@.len(),
                r@.len() == p,
                forall|q: int|
                    0 <= q < r@.len() ==> is_wasm_info(self.plugins@[q], #[trigger] r@[q]),
            decreases self.plugins@.len() - p,
        {
            let plugin = &self.plugins[p];
            r.push(
                PluginInfo {
                    id: plugin.manifest.id.clone(),
                    name: plugin.manifest.name.clone(),
                    version: plugin.manifest.version.clone(),
                    source: plugin.wasm_path.clone(),
                    layouts: clone_texts(&plugin.layouts),
                },
            );
            p = p + 1;
        }
        r
    }
}

/// A plugin was added to those that there were.
pub open spec fn is_kept(
    before: Seq<WasmPlugin>,
    after: Seq<WasmPlugin>,
    manifest: RawPluginManifest,
    layouts: Vec<String>,
    wasm_path: String,
) -> bool {
    after == before.push(WasmPlugin { manifest, layouts, wasm_path })
}

/// An error says that the plugin does not export the function.
pub open spec fn is_missing_function(error: Seq<char>) -> bool {
    contains_text(error, "not found"@) || contains_text(error, "does not exist"@)
}

/// Whether an error says that the plugin does not export the function.
pub fn missing_function(error: &str) -> (r: bool)
    ensures
        r == is_missing_function(error@),
{
    contains(error, "not found") || contains(error, "does not exist")
}

/// The layouts that a plugin's answer names: none where it gave no answer that can be read.
pub open spec fn answered_layouts(answer: Option<Seq<char>>) -> Seq<Seq<char>> {
    match answer {
        Some(text) => match json_texts(text) {
            Some(list) => list,
            None => Seq::empty(),
        },
        None => Seq::empty(),
    }
}

/// What is kept of an answer: its text, unless the plugin failed.
pub open spec fn kept_answer(answer: Result<String, String>) -> Option<String> {
    match answer {
        Ok(text) => Some(text),
        Err(_) => None,
    }
}

/// The text of an answer, unless the plugin failed.
pub open spec fn answer_text(answer: Result<String, String>) -> Option<Seq<char>> {
    text_view(kept_answer(answer))
}

/// What is kept of an answer: its text, unless the plugin failed.
pub fn answer_of(answer: Result<String, String>) -> (r: Option<String>)
    ensures
        r == kept_answer(answer),
{
    match answer {
        Ok(text) => Some(text),
        Err(_) => None,
    }
}

/// Which answers are failures, by place, and how. That a function is missing is none.
pub open spec fn failures(answers: Seq<Result<String, String>>) -> Seq<(usize, String)>
    decreases answers.len(),
{
    if answers.len() == 0 {
        Seq::empty()
    } else {
        let earlier = failures(answers.drop_last());
        match answers.last() {
            Ok(_) => earlier,
            Err(e) => if is_missing_function(e@) {
                earlier
            } else {
                earlier.push(((answers.len() - 1) as usize, e))
            },
        }
    }
}

/// Picks the failures out of the answers to an event.
pub fn event_failures(answers: &[Result<String, String>]) -> (r: Vec<(usize, String)>)
    ensures
        r@ == failures(answers@),
{
    let mut r: Vec<(usize, String)> = Vec::new();
    let mut p: usize = 0;
    assert(answers@.take(0) =~= Seq::<Result<String, String>>::empty());
    while p < answers.len()
        invariant
            p <= answers@.len(),
            r@ == failures(answers@.take(p as int)),
        decreases answers@.len() - p,
    {
        assert(answers@.take(p + 1).drop_last() =~= answers@.take(p as int));
        match &answers[p] {
            Ok(_) => {},
            Err(e) => {
                if !missing_function(e.as_str()) {
                    r.push((p, e.clone()));
                }
            },
        }
        p = p + 1;
    }
    assert(answers@.take(p as int) =~= answers@);
    r
}

/// Reads what a plugin answered when it was asked which layouts it has.
pub fn query_layouts(answer: &Option<String>) -> (r: Vec<String>)
    ensures
        texts(r@) == answered_layouts(text_view(*answer)),
{
    let none: Vec<String> = Vec::new();
    assert(texts(none@) =~= Seq::<Seq<char>>::empty());
    match answer {
        Some(text) => match parse_texts(text.as_str()) {
            Some(list) => list,
            None => none,
        },
        None => none,
    }
}

/// What plugins are asked for.
#[derive(Debug, Clone, Copy, PartialEq, Eq, Structural)]
pub enum Question {
    Keybindings,
    WindowRules,
    Actions,
}

/// The function that a plugin exports for a question.
pub open spec fn name_of_question(question: Question) -> Seq<char> {
    match question {
        Question::Keybindings => "get_keybindings"@,
        Question::WindowRules => "get_window_rules"@,
        Question::Actions => "get_actions"@,
    }
}

/// The function that a plugin exports for a question.
pub fn question_name(question: Question) -> (r: &'static str)
    ensures
        r@ == name_of_question(question),
{
    match question {
        Question::Keybindings => "get_keybindings",
        Question::WindowRules => "get_window_rules",
        Question::Actions => "get_actions",
    }
}

/// What plugins answered, one plugin after the other.
pub open spec fn all_answers<T>(answers: Seq<Option<Vec<T>>>) -> Seq<T>
    decreases answers.len(),
{
    if answers.len() == 0 {
        Seq::empty()
    } else {
        all_answers(answers.drop_last()) + (match answers.last() {
            Some(list) => list@,
            None => Seq::empty(),
        })
    }
}

/// Puts what each plugin answered into one list. A plugin that gave no answer, or none that can be
/// read, adds nothing.
pub fn gather<T>(answers: Vec<Option<Vec<T>>>) -> (r: Vec<T>)
    ensures
        r@ == all_answers(answers@),
{
    let mut answers = answers;
    let ghost given = answers@;
    let mut lists: Vec<Option<Vec<T>>> = Vec::new();
    let mut r: Vec<T> = Vec::new();
    // The last answer first, so that each list can be moved out.
    while answers.len() > 0
        invariant
            answers@.len() <= given.len(),
            answers@ == given.take(answers@.len() as int),
            lists@.len() == given.len() - answers@.len(),
            forall|k: int|
                0 <= k < lists@.len() ==> #[trigger] lists@[k] == given[given.len() - 1 - k],
        decreases answers@.len(),
    {
        match answers.pop() {
            Some(last) => {
                lists.push(last);
            },
            None => {},
        }
        assert(answers@ =~= given.take(answers@.len() as int));
    }
    assert(given.take(0) =~= Seq::<Option<Vec<T>>>::empty());
    while lists.len() > 0
        invariant
            lists@.len() <= given.len(),
            forall|k: int|
                0 <= k < lists@.len() ==> #[trigger] lists@[k] == given[given.len() - 1 - k],
            r@ == all_answers(given.take(given.len() - lists@.len())),
        decreases lists@.len(),
    {
        let ghost done = given.len() - lists@.len();
        assert(given.take(done + 1).drop_last() =~= given.take(done));
        assert(lists@.last() == given[done]);
        match lists.pop() {
            Some(Some(list)) => {
                let mut list = list;
                r.append(&mut list);
            },
            _ => {},
        }
    }
    assert(given.take(given.len() as int) =~= given);
    r
}

/// A layout that a WASM plugin provides.
#[derive(Debug)]
pub struct WasmLayout {
    /// The plugin, by its place.
    pub plugin: usize,
    pub layout_name: String,
}

/// What a plugin is asked: where do these windows go?
#[derive(Debug)]
pub struct ArrangeInput {
    pub layout: String,
    pub windows: Vec<u64>,
    pub area: Rect,
}

/// A place that a plugin answers with.
#[derive(Debug, Clone, Copy, PartialEq, Eq, Structural)]
pub struct PlacementJson {
    pub id: u64,
    pub x: i32,
    pub y: i32,
    pub width: i32,
    pub height: i32,
}

/// The placement that an answer stands for.
pub open spec fn answered(p: PlacementJson) -> Placement {
    Placement {
        id: WindowId(p.id),
        rect: Rect { x: p.x, y: p.y, width: p.width, height: p.height },
    }
}

impl WasmLayout {
    pub fn name(&self) -> (r: &str)
        ensures
            r@ == self.layout_name@,
    {
        self.layout_name.as_str()
    }

    /// What the plugin is asked.
    pub fn request(&self, windows: &[WindowId], area: Rect) -> (r: ArrangeInput)
        ensures
            r.layout@ == self.layout_name@,
            r.windows@ == windows@.map_values(|w: WindowId| w.0),
            r.area == area,
    {
        let mut numbers: Vec<u64> = Vec::new();
        let mut i: usize = 0;
        while i < windows.len()
            invariant
                i <= windows@.len(),
                numbers@.len() == i,
                forall|k: int| 0 <= k < i ==> #[trigger] numbers@[k] == windows@[k].0,
            decreases windows@.len() - i,
        {
            numbers.push(windows[i].0);
            i = i + 1;
        }
        assert(numbers@ =~= windows@.map_values(|w: WindowId| w.0));
        ArrangeInput { layout: self.layout_name.clone(), windows: numbers, area }
    }

    /// Asks the plugin, with a request that was written as JSON. What it answers rests on its code.
    pub fn ask_for_places(&self, runtime: &mut WasmRuntime, request_json: &str) -> (answer: Result<
        String,
        String,
    >)
        requires
            old(runtime).wf(),
            self.plugin < old(runtime).plugins@.len(),
        ensures
            final(runtime).wf(),
            final(runtime).plugins@ == old(runtime).plugins@,
            final(runtime).instances@ == old(runtime).instances@.update(
                self.plugin as int,
                final(runtime).instances@[self.plugin as int],
            ),
            asked(
                old(runtime).instances@[self.plugin as int],
                final(runtime).instances@[self.plugin as int],
                "arrange"@,
                request_json@,
                answer,
            ),
    {
        runtime.ask_plugin(self.plugin, "arrange", request_json)
    }

    /// Where the windows go by the plugin's answer. Without one that can be read, nowhere.
    pub fn arrange(&self, answer: Option<Vec<PlacementJson>>) -> (r: Vec<Placement>)
        ensures
            match answer {
                Some(list) => r@ == list@.map_values(|p: PlacementJson| answered(p)),
                None => r@.len() == 0,
            },
    {
        let mut r: Vec<Placement> = Vec::new();
        match answer {
            Some(list) => {
                let mut i: usize = 0;
                while i < list.len()
                    invariant
                        i <= list@.len(),
                        r@.len() == i,
                        forall|k: int| 0 <= k < i ==> #[trigger] r@[k] == answered(list@[k]),
                    decreases list@.len() - i,
                {
                    let p = list[i];
                    r.push(
                        Placement {
                            id: WindowId(p.id),
                            rect: Rect { x: p.x, y: p.y, width: p.width, height: p.height },
                        },
                    );
                    i = i + 1;
                }
                assert(r@ =~= list@.map_values(|p: PlacementJson| answered(p)));
            },
            None => {},
        }
        r
    }
}

/// A layout that can be created is one of those that are listed, and the other way round.
pub proof fn lemma_listed_can_be_created(plugins: Seq<WasmPlugin>, name: Seq<char>)
    ensures
        wasm_layouts(plugins).contains(name) <==> exists|p: int|
            0 <= p < plugins.len() && texts((#[trigger] plugins[p]).layouts@).contains(name),
    decreases plugins.len(),
{
    if plugins.len() > 0 {
        let shorter = plugins.drop_last();
        let own = texts(plugins.last().layouts@);
        let all = wasm_layouts(plugins);
        lemma_listed_can_be_created(shorter, name);
        assert(all == wasm_layouts(shorter) + own);
        if all.contains(name) {
            let i = choose|i: int| 0 <= i < all.len() && all[i] == name;
            let n = wasm_layouts(shorter).len();
            if i < n {
                assert(wasm_layouts(shorter)[i] == name);
                let p = choose|p: int|
                    0 <= p < shorter.len() && texts((#[trigger] shorter[p]).layouts@).contains(name);
                assert(plugins[p] == shorter[p]);
            } else {
                assert(own[i - n] == name);
                assert(texts(plugins[plugins.len() - 1].layouts@).contains(name));
            }
        }
        if exists|p: int|
            0 <= p < plugins.len() && texts((#[trigger] plugins[p]).layouts@).contains(name) {
            let p = choose|p: int|
                0 <= p < plugins.len() && texts((#[trigger] plugins[p]).layouts@).contains(name);
            if p < shorter.len() {
                assert(shorter[p] == plugins[p]);
                let i = choose|i: int|
                    0 <= i < wasm_layouts(shorter).len() && wasm_layouts(shorter)[i] == name;
                assert(all[i] == name);
            } else {
                let i = choose|i: int| 0 <= i < own.len() && own[i] == name;
                assert(all[wasm_layouts(shorter).len() + i] == name);
            }
        }
    }
}

} // verus!
