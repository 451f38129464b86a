//! Plugins written in Lua.

use crate::compositor::event::{PluginAction, PluginEvent, WindowRule};
use crate::plugins::data::{
    are_fields, call_done, callback_id_of, calls_done, event_fields, event_name, is_first_named,
    name_of_event, none_named, placement_of, placements_of, put, ApiCall, Field, FieldValue,
    LayoutEntry, NamedFunction, PluginData,
};
use crate::plugins::manifest::{
    parse_lua_manifest, source_has_manifest, source_lacks_manifest, KeybindingRequest, PluginInfo,
    RawPluginManifest,
};
use crate::plugins::set::{
    all_actions, all_layouts, all_requests, all_rules, is_callback_owner, is_info, is_layout_owner,
    same_but_actions, same_but_requests, same_but_rules, PluginSet,
};
use crate::text::text3;
use crate::tiling::{Placement, Rect, WindowId};
use mlua::{Function, Lua, StdLib, Table};
use vstd::prelude::*;
use vstd::string::*;

verus! {

/// Memory that a plugin may use, in bytes.
pub const MEMORY_LIMIT: usize = 67_108_864;

/// The last place of a list that Lua's integers can name.
pub const LAST_PLACE: u64 = 0x7fff_ffff_ffff_ffff;

#[verifier::external_type_specification]
#[verifier::external_body]
pub struct ExLua(Lua);

#[verifier::external_type_specification]
#[verifier::external_body]
pub struct ExFunction(Function);

#[verifier::external_type_specification]
#[verifier::external_body]
pub struct ExTable(Table);

#[verifier::external_type_specification]
#[verifier::external_body]
pub struct ExStdLib(StdLib);

/// The standard libraries that plugins may use: none that reaches files or the system.
#[derive(Debug, Clone, Copy, PartialEq, Eq, Structural)]
pub enum Library {
    Tables,
    Strings,
    Mathematics,
    Unicode,
}

/// The bit of a library in a set of libraries.
pub open spec fn library_bit(library: Library) -> u32 {
    match library {
        Library::Tables => 0x02,
        Library::Strings => 0x10,
        Library::Mathematics => 0x80,
        Library::Unicode => 0x20,
    }
}

/// The bit of the library that gives access to the machine itself.
pub const DEBUG_BIT: u32 = 0x8000_0000;

/// The bits of the libraries that plugins may use.
pub const PLUGIN_LIBRARIES: u32 = 0xb2;

/// Which libraries a set holds, a bit for each.
pub uninterp spec fn library_bits(libraries: StdLib) -> u32;

/// The libraries that a machine was made with, a bit for each.
pub uninterp spec fn machine_libraries(lua: Lua) -> u32;

/// The limit of a machine's memory, zero for none. Nothing if its memory cannot be limited.
pub uninterp spec fn memory_limit(lua: Lua) -> Option<usize>;

/// Which machine this is: handles of one machine have one number, those of others another.
pub uninterp spec fn machine_of(lua: Lua) -> int;

/// The machine that a function belongs to. No other machine may be handed it.
pub uninterp spec fn function_machine(function: Function) -> int;

/// The machine that a table belongs to. No other machine may be handed it.
pub uninterp spec fn table_machine(t: Table) -> int;

/// A machine at two moments: it is one machine, with the same libraries and the same limit.
pub open spec fn same_machine(before: Lua, after: Lua) -> bool {
    &&& machine_of(after) == machine_of(before)
    &&& machine_libraries(after) == machine_libraries(before)
    &&& memory_limit(after) == memory_limit(before)
}

/// The function that a call hands over, if any, belongs to a machine.
pub open spec fn call_of_machine(call: ApiCall<Function>, machine: int) -> bool {
    match call {
        ApiCall::RegisterLayout { function, .. } => function_machine(function) == machine,
        ApiCall::On { function, .. } => function_machine(function) == machine,
        ApiCall::Bind { function, .. } => function_machine(function) == machine,
        _ => true,
    }
}

/// The functions of a list belong to a machine.
pub open spec fn list_of_machine(list: Seq<NamedFunction<Function>>, machine: int) -> bool {
    forall|i: int| 0 <= i < list.len() ==> function_machine((#[trigger] list[i]).function) == machine
}

/// The functions of a plugin belong to a machine.
pub open spec fn plugin_of_machine(p: PluginData<Function>, machine: int) -> bool {
    &&& list_of_machine(p.layouts@, machine)
    &&& list_of_machine(p.event_handlers@, machine)
    &&& list_of_machine(p.callbacks@, machine)
}

/// The flag of a library in `mlua::StdLib`: its bit and no other.
#[verifier::external_body]
fn library_flag(library: Library) -> (r: StdLib)
    ensures
        library_bits(r) == library_bit(library),
{
    match library {
        Library::Tables => StdLib::TABLE,
        Library::Strings => StdLib::STRING,
        Library::Mathematics => StdLib::MATH,
        Library::Unicode => StdLib::UTF8,
    }
}

/// The union of two `mlua::StdLib` sets: the bits of either.
#[verifier::external_body]
fn libraries_joined(a: StdLib, b: StdLib) -> (r: StdLib)
    ensures
        library_bits(r) == library_bits(a) | library_bits(b),
{
    a | b
}

/// `mlua::Lua::new_with`, with the default options: a machine with these libraries, whose memory is
/// not limited yet. It is refused exactly if the debug library is among them.
#[verifier::external_body]
fn new_machine(libraries: StdLib) -> (r: Option<Lua>)
    ensures
        match r {
            Some(lua) => {
                &&& library_bits(libraries) & DEBUG_BIT == 0
                &&& machine_libraries(lua) == library_bits(libraries)
                &&& memory_limit(lua) is Some ==> memory_limit(lua) == Some(0usize)
            },
            None => library_bits(libraries) & DEBUG_BIT != 0,
        },
{
    Lua::new_with(libraries, mlua::LuaOptions::default()).ok()
}

/// `mlua::Lua::set_memory_limit`: the machine has this limit if its memory can be limited, and its
/// libraries stay.
#[verifier::external_body]
fn limit_memory(lua: &mut Lua, bytes: usize)
    requires
        bytes <= isize::MAX,
    ensures
        machine_libraries(*final(lua)) == machine_libraries(*old(lua)),
        memory_limit(*final(lua)) == if memory_limit(*old(lua)) is Some {
            Some(bytes)
        } else {
            None
        },
{
    let _ = lua.set_memory_limit(bytes);
}

/// `mlua::Lua::set_app_data` with an empty list of API calls; gives the machine back. Nothing else is
/// said of it.
#[verifier::external_body]
fn start_notes(lua: Lua) -> (r: Lua)
    ensures
        same_machine(lua, r),
{
    let _ = lua.set_app_data::<Vec<ApiCall<Function>>>(Vec::new());
    lua
}

/// Adds an API call to the list that `mlua::Lua::app_data_mut` gives access to. Nothing is said of
/// it.
#[verifier::external_body]
fn note(lua: &Lua, call: ApiCall<Function>)
    requires
        call_of_machine(call, machine_of(*lua)),
{
    if let Some(mut calls) = lua.app_data_mut::<Vec<ApiCall<Function>>>() {
        calls.push(call);
    }
}

/// Takes the list of API calls, with `mlua::Lua::set_app_data` again, and gives the machine back. The
/// functions in the list are those that the machine's own code handed over. Which calls a plugin
/// makes rests on its code, so nothing else is said of them.
#[verifier::external_body]
fn take_notes(lua: Lua) -> (r: (Lua, Vec<ApiCall<Function>>))
    ensures
        same_machine(lua, r.0),
        forall|i: int| 0 <= i < r.1@.len() ==> call_of_machine(#[trigger] r.1@[i], machine_of(lua)),
{
    let calls = lua.set_app_data::<Vec<ApiCall<Function>>>(Vec::new()).unwrap_or_default();
    (lua, calls)
}

/// Which API function a function of a machine is, if it is one: whose calls it notes.
pub uninterp spec fn api_function(function: Function) -> Option<ApiFunction>;

/// A function that was made is this API function.
pub open spec fn is_made(r: Option<Function>, function: ApiFunction) -> bool {
    match r {
        Some(f) => api_function(f) == Some(function),
        None => true,
    }
}

/// API functions that give a function a name.
#[derive(Debug, Clone, Copy, PartialEq, Eq, Structural)]
pub enum Naming {
    RegisterLayout,
    On,
}

/// The call of a function that gives a function a name.
pub fn naming_call<F>(naming: Naming, name: String, function: F) -> (r: ApiCall<F>)
    ensures
        r == (match naming {
            Naming::RegisterLayout => ApiCall::RegisterLayout { name, function },
            Naming::On => ApiCall::On { event: name, function },
        }),
{
    match naming {
        Naming::RegisterLayout => ApiCall::RegisterLayout { name, function },
        Naming::On => ApiCall::On { event: name, function },
    }
}

/// `mlua::Lua::create_function` with a closure of a text and a function, that notes the call: the
/// function that comes back is that API function, of this machine. It can fail, and nothing is said
/// of when.
#[verifier::external_body]
fn naming_function(lua: &Lua, naming: Naming) -> (r: Option<Function>)
    ensures
        is_made(r, ApiFunction::Naming(naming)),
        r is Some ==> function_machine(r->0) == machine_of(*lua),
{
    lua.create_function(move |lua, (name, function): (String, Function)| {
        Ok(note(lua, naming_call(naming, name, function)))
    }).ok()
}

/// The call of `bind`.
pub fn bind_call<F>(modifiers: Vec<String>, key: String, function: F) -> (r: ApiCall<F>)
    ensures
        r == (ApiCall::Bind { modifiers, key, function }),
{
    ApiCall::Bind { modifiers, key, function }
}

/// `mlua::Lua::create_function` with a closure of a list of texts, a text and a function, that notes
/// the call: the function that comes back is `bind`, of this machine. It can fail, and nothing is said
/// of when.
#[verifier::external_body]
fn bind_function(lua: &Lua) -> (r: Option<Function>)
    ensures
        is_made(r, ApiFunction::Bind),
        r is Some ==> function_machine(r->0) == machine_of(*lua),
{
    lua.create_function(|lua, (mods, key, function): (Table, String, Function)| {
        let modifiers = mods.sequence_values::<String>().collect::<mlua::Result<Vec<String>>>()?;
        Ok(note(lua, bind_call(modifiers, key, function)))
    }).ok()
}

/// API functions of one text.
#[derive(Debug, Clone, Copy, PartialEq, Eq, Structural)]
pub enum OfText {
    Log,
    SetLayout,
}

/// The call of a function of one text.
pub fn text_call<F>(function: OfText, text: String) -> (r: ApiCall<F>)
    ensures
        r == (match function {
            OfText::Log => ApiCall::<F>::Log(text),
            OfText::SetLayout => ApiCall::<F>::Act(PluginAction::SetLayout { name: text }),
        }),
{
    match function {
        OfText::Log => ApiCall::Log(text),
        OfText::SetLayout => ApiCall::Act(PluginAction::SetLayout { name: text }),
    }
}

/// `mlua::Lua::create_function` with a closure of a text, that notes the call: the function that
/// comes back is that API function, of this machine. It can fail, and nothing is said of when.
#[verifier::external_body]
fn text_function(lua: &Lua, function: OfText) -> (r: Option<Function>)
    ensures
        is_made(r, ApiFunction::OfText(function)),
        r is Some ==> function_machine(r->0) == machine_of(*lua),
{
    lua.create_function(move |lua, text: String| Ok(note(lua, text_call(function, text)))).ok()
}

/// The call of `spawn`; without a list there are no arguments.
pub fn spawn_call<F>(cmd: String, args: Option<Vec<String>>) -> (r: ApiCall<F>)
    ensures
        match args {
            Some(list) => r == ApiCall::<F>::Act(PluginAction::Spawn { cmd, args: list }),
            None => r matches ApiCall::Act(PluginAction::Spawn { cmd: c, args: a }) && c == cmd
                && a@.len() == 0,
        },
{
    match args {
        Some(list) => ApiCall::Act(PluginAction::Spawn { cmd, args: list }),
        None => ApiCall::Act(PluginAction::Spawn { cmd, args: Vec::new() }),
    }
}

/// `mlua::Lua::create_function` with a closure of a text and an optional list of texts, that notes
/// the call: the function that comes back is `spawn`, of this machine. It can fail, and nothing is
/// said of when.
#[verifier::external_body]
fn spawn_function(lua: &Lua) -> (r: Option<Function>)
    ensures
        is_made(r, ApiFunction::Spawn),
        r is Some ==> function_machine(r->0) == machine_of(*lua),
{
    lua.create_function(|lua, (cmd, list): (String, Option<Table>)| {
        let texts = |t: Table| t.sequence_values::<String>().collect::<mlua::Result<Vec<String>>>();
        let args = list.map(texts).transpose()?;
        Ok(note(lua, spawn_call(cmd, args)))
    }).ok()
}

/// API functions without arguments.
#[derive(Debug, Clone, Copy, PartialEq, Eq, Structural)]
pub enum Plain {
    FocusNext,
    FocusPrev,
    CloseWindow,
    SwapMaster,
    ToggleFloat,
    ToggleFullscreen,
}

/// The call of a function without arguments.
pub fn plain_call<F>(function: Plain) -> (r: ApiCall<F>)
    ensures
        r == ApiCall::<F>::Act(
            match function {
                Plain::FocusNext => PluginAction::FocusNext,
                Plain::FocusPrev => PluginAction::FocusPrev,
                Plain::CloseWindow => PluginAction::CloseWindow,
                Plain::SwapMaster => PluginAction::SwapMaster,
                Plain::ToggleFloat => PluginAction::ToggleFloat,
                Plain::ToggleFullscreen => PluginAction::ToggleFullscreen,
            },
        ),
{
    ApiCall::Act(
        match function {
            Plain::FocusNext => PluginAction::FocusNext,
            Plain::FocusPrev => PluginAction::FocusPrev,
            Plain::CloseWindow => PluginAction::CloseWindow,
            Plain::SwapMaster => PluginAction::SwapMaster,
            Plain::ToggleFloat => PluginAction::ToggleFloat,
            Plain::ToggleFullscreen => PluginAction::ToggleFullscreen,
        },
    )
}

/// `mlua::Lua::create_function` with a closure of nothing, that notes the call: the function that
/// comes back is that API function, of this machine. It can fail, and nothing is said of when.
#[verifier::external_body]
fn plain_function(lua: &Lua, function: Plain) -> (r: Option<Function>)
    ensures
        is_made(r, ApiFunction::Plain(function)),
        r is Some ==> function_machine(r->0) == machine_of(*lua),
{
    lua.create_function(move |lua, ()| Ok(note(lua, plain_call(function)))).ok()
}

/// The call of `window_rule`. Patterns that are no texts match every window; flags that are missing
/// are off.
pub fn rule_call<F>(
    app_id: Option<String>,
    title: Option<String>,
    float: Option<bool>,
    fullscreen: Option<bool>,
) -> (r: ApiCall<F>)
    ensures
        r == ApiCall::<F>::Rule(
            WindowRule {
                app_id,
                title,
                float: float == Some(true),
                fullscreen: fullscreen == Some(true),
            },
        ),
{
    let float: bool = match float {
        Some(b) => b,
        None => false,
    };
    let fullscreen: bool = match fullscreen {
        Some(b) => b,
        None => false,
    };
    ApiCall::Rule(WindowRule { app_id, title, float, fullscreen })
}

/// `mlua::Lua::create_function` with a closure of a table, that notes the call: the function that
/// comes back is `window_rule`, of this machine. It can fail, and nothing is said of when.
#[verifier::external_body]
fn rule_function(lua: &Lua) -> (r: Option<Function>)
    ensures
        is_made(r, ApiFunction::Rule),
        r is Some ==> function_machine(r->0) == machine_of(*lua),
{
    lua.create_function(|lua, t: Table| Ok(note(lua, read_rule(lua, &t)))).ok()
}

/// `mlua::Table::get` of a text, in a table of a machine that is there. Nothing is said of it.
#[verifier::external_body]
fn get_text(lua: &Lua, table: &Table, name: &str) -> Option<String>
    requires
        table_machine(*table) == machine_of(*lua),
{
    table.get(name).ok()
}

/// `mlua::Table::get` of a flag, in a table of a machine that is there. Nothing is said of it.
#[verifier::external_body]
fn get_flag(lua: &Lua, table: &Table, name: &str) -> Option<bool>
    requires
        table_machine(*table) == machine_of(*lua),
{
    table.get(name).ok()
}

/// A table was asked for a text and gave this.
pub closed spec fn got_text(lua: &Lua, t: Table, name: Seq<char>, r: Option<String>) -> bool {
    exists|n: &str| n@ == name && #[trigger] call_ensures(get_text, (lua, &t, n), r)
}

/// A table was asked for a flag and gave this.
pub closed spec fn got_flag(lua: &Lua, t: Table, name: Seq<char>, r: Option<bool>) -> bool {
    exists|n: &str| n@ == name && #[trigger] call_ensures(get_flag, (lua, &t, n), r)
}

/// A window rule that was read from a table: each field under its own name. A pattern that is
/// missing or no text matches every window; a flag that is missing is off.
pub open spec fn rule_read(lua: &Lua, t: Table, rule: WindowRule) -> bool {
    exists|float: Option<bool>, fullscreen: Option<bool>|
        {
            &&& got_text(lua, t, "app_id"@, rule.app_id)
            &&& got_text(lua, t, "title"@, rule.title)
            &&& #[trigger] got_flag(lua, t, "float"@, float)
            &&& rule.float == (float == Some(true))
            &&& #[trigger] got_flag(lua, t, "fullscreen"@, fullscreen)
            &&& rule.fullscreen == (fullscreen == Some(true))
        }
}

/// The call of `window_rule` with a table.
fn read_rule(lua: &Lua, t: &Table) -> (r: ApiCall<Function>)
    requires
        table_machine(*t) == machine_of(*lua),
    ensures
        r matches ApiCall::Rule(rule) && rule_read(lua, *t, rule),
{
    let app_id = get_text(lua, t, "app_id");
    let title = get_text(lua, t, "title");
    let float = get_flag(lua, t, "float");
    let fullscreen = get_flag(lua, t, "fullscreen");
    proof {
        assert(got_text(lua, *t, "app_id"@, app_id));
        assert(got_text(lua, *t, "title"@, title));
        assert(got_flag(lua, *t, "float"@, float));
        assert(got_flag(lua, *t, "fullscreen"@, fullscreen));
    }
    rule_call(app_id, title, float, fullscreen)
}

/// Where a table holds something.
pub enum TableKey {
    Name(Seq<char>),
    Place(int),
}

/// What a table holds there.
pub enum TableEntry {
    Integer(int),
    /// A number beyond Lua's integers. Which float it becomes is left open.
    Float,
    Text(Seq<char>),
    /// A function, and which one of the API it is, if any.
    Function(Option<ApiFunction>),
}

/// What a table holds.
pub uninterp spec fn table_entries(t: Table) -> Map<TableKey, TableEntry>;

/// No plugin has had the table yet, so it has no metatable and nobody else changes it.
pub uninterp spec fn is_own_table(t: Table) -> bool;

/// A table after an entry was set in it, or could not be set.
pub open spec fn entry_set(before: Table, after: Table, k: TableKey, e: TableEntry, ok: bool) -> bool {
    &&& is_own_table(after)
    &&& table_machine(after) == table_machine(before)
    &&& table_entries(after) == if ok {
        table_entries(before).insert(k, e)
    } else {
        table_entries(before)
    }
}

/// How Lua holds an unsigned number.
pub open spec fn number_entry(n: u64) -> TableEntry {
    if n <= i64::MAX {
        TableEntry::Integer(n as int)
    } else {
        TableEntry::Float
    }
}

/// `mlua::Lua::create_table`: an empty table of the machine. It can fail, and nothing is said of when.
#[verifier::external_body]
fn new_table(lua: &Lua) -> (r: Option<Table>)
    ensures
        match r {
            Some(t) => {
                &&& is_own_table(t)
                &&& table_machine(t) == machine_of(*lua)
                &&& table_entries(t) == Map::<TableKey, TableEntry>::empty()
            },
            None => true,
        },
{
    lua.create_table().ok()
}

/// `mlua::Table::set` of a function, in a table of its own machine, which is there: it stands under
/// the name, or, where that fails, the table stays as it was. Nothing is said of when it fails.
#[verifier::external_body]
fn set_function(lua: &Lua, table: &mut Table, name: &str, function: Function) -> (ok: bool)
    requires
        is_own_table(*old(table)),
        table_machine(*old(table)) == machine_of(*lua),
        function_machine(function) == machine_of(*lua),
    ensures
        entry_set(
            *old(table),
            *final(table),
            TableKey::Name(name@),
            TableEntry::Function(api_function(function)),
            ok,
        ),
{
    table.set(name, function).is_ok()
}

/// `mlua::Table::set` of an unsigned number, in a table of a machine that is there: it stands under
/// the name, or, where that fails, the table stays as it was. Nothing is said of when it fails.
#[verifier::external_body]
fn set_number(lua: &Lua, table: &mut Table, name: &str, n: u64) -> (ok: bool)
    requires
        is_own_table(*old(table)),
        table_machine(*old(table)) == machine_of(*lua),
    ensures
        entry_set(*old(table), *final(table), TableKey::Name(name@), number_entry(n), ok),
{
    table.set(name, n).is_ok()
}

/// `mlua::Table::set` of a signed number, in a table of a machine that is there: it stands under the
/// name, or, where that fails, the table stays as it was. Nothing is said of when it fails.
#[verifier::external_body]
fn set_signed(lua: &Lua, table: &mut Table, name: &str, n: i32) -> (ok: bool)
    requires
        is_own_table(*old(table)),
        table_machine(*old(table)) == machine_of(*lua),
    ensures
        entry_set(
            *old(table),
            *final(table),
            TableKey::Name(name@),
            TableEntry::Integer(n as int),
            ok,
        ),
{
    table.set(name, n).is_ok()
}

/// `mlua::Table::set` of a text, in a table of a machine that is there: it stands under the name, or,
/// where that fails, the table stays as it was. Nothing is said of when it fails.
#[verifier::external_body]
fn set_text(lua: &Lua, table: &mut Table, name: &str, text: &str) -> (ok: bool)
    requires
        is_own_table(*old(table)),
        table_machine(*old(table)) == machine_of(*lua),
    ensures
        entry_set(*old(table), *final(table), TableKey::Name(name@), TableEntry::Text(text@), ok),
{
    table.set(name, text).is_ok()
}

/// `mlua::Table::set` of a number in a list, in a table of a machine that is there: it stands at the
/// place, or, where that fails, the table stays as it was. Nothing is said of when it fails.
#[verifier::external_body]
fn set_element(lua: &Lua, table: &mut Table, index: usize, n: u64) -> (ok: bool)
    requires
        is_own_table(*old(table)),
        table_machine(*old(table)) == machine_of(*lua),
        index <= i64::MAX,
    ensures
        entry_set(*old(table), *final(table), TableKey::Place(index as int), number_entry(n), ok),
{
    table.set(index, n).is_ok()
}

/// `mlua::Table::set` of a table of the machine among its globals; gives the machine back, and whether
/// that worked. Nothing is said of when it does.
#[verifier::external_body]
fn set_global(lua: Lua, name: &str, table: Table) -> (r: (Lua, bool))
    requires
        table_machine(table) == machine_of(lua),
    ensures
        same_machine(lua, r.0),
{
    let done = lua.globals().set(name, table).is_ok();
    (lua, done)
}

/// `mlua::Chunk::exec` of a source under a name; gives the machine back, and what went wrong, if
/// anything. That rests on the plugin's code, so nothing is said of it.
#[verifier::external_body]
fn run(lua: Lua, source: &str, name: &str) -> (r: (Lua, Option<String>))
    ensures
        same_machine(lua, r.0),
{
    let error = lua.load(source).set_name(name).exec().err().map(|e| e.to_string());
    (lua, error)
}

/// `mlua::Function::call` of a function of the machine, with a table of the machine or nothing; gives
/// the machine back, and what went wrong, if anything. That rests on the plugin's code, so nothing is
/// said of it.
#[verifier::external_body]
fn call_handler(lua: Lua, function: &Function, event: Option<Table>) -> (r: (Lua, Option<String>))
    requires
        function_machine(*function) == machine_of(lua),
        event is Some ==> table_machine(event->0) == machine_of(lua),
    ensures
        same_machine(lua, r.0),
{
    let error = function.call::<()>(event).err().map(|e| e.to_string());
    (lua, error)
}

/// `mlua::Function::call` of a function of the machine without arguments; gives the machine back, and
/// what went wrong, if anything. That rests on the plugin's code, so nothing is said of it.
#[verifier::external_body]
fn call_plain(lua: Lua, function: &Function) -> (r: (Lua, Option<String>))
    requires
        function_machine(*function) == machine_of(lua),
    ensures
        same_machine(lua, r.0),
{
    let error = function.call::<()>(()).err().map(|e| e.to_string());
    (lua, error)
}

/// `mlua::Function::call` of a function of the machine with two tables of the machine; gives the
/// machine back, and the table that came back, which is of the machine too. What it holds rests on the
/// plugin's code, so nothing is said of it.
#[verifier::external_body]
fn call_layout(lua: Lua, function: &Function, windows: Table, area: Table) -> (r: (
    Lua,
    Option<Table>,
))
    requires
        function_machine(*function) == machine_of(lua),
        table_machine(windows) == machine_of(lua),
        table_machine(area) == machine_of(lua),
    ensures
        same_machine(lua, r.0),
        r.1 is Some ==> table_machine(r.1->0) == machine_of(lua),
{
    let list = function.call::<Table>((windows, area)).ok();
    (lua, list)
}

/// `mlua::Table::get` of a table in a list of the machine; gives the machine back, and the table, which
/// is of the machine too. The list may be one that runs the plugin's code, so nothing else is said of
/// it.
#[verifier::external_body]
fn table_at(lua: Lua, table: &Table, index: usize) -> (r: (Lua, Option<Table>))
    requires
        table_machine(*table) == machine_of(lua),
    ensures
        same_machine(lua, r.0),
        r.1 is Some ==> table_machine(r.1->0) == machine_of(lua),
{
    let found = table.get(index).ok();
    (lua, found)
}

/// `mlua::Table::get` of an unsigned number in a table of the machine; gives the machine back, and the
/// number. The table may be one that runs the plugin's code, so nothing is said of it.
#[verifier::external_body]
fn get_number(lua: Lua, table: &Table, name: &str) -> (r: (Lua, Option<u64>))
    requires
        table_machine(*table) == machine_of(lua),
    ensures
        same_machine(lua, r.0),
{
    let n = table.get(name).ok();
    (lua, n)
}

/// `mlua::Table::get` of a signed number in a table of the machine; gives the machine back, and the
/// number. The table may be one that runs the plugin's code, so nothing is said of it.
#[verifier::external_body]
fn get_signed(lua: Lua, table: &Table, name: &str) -> (r: (Lua, Option<i32>))
    requires
        table_machine(*table) == machine_of(lua),
    ensures
        same_machine(lua, r.0),
{
    let n = table.get(name).ok();
    (lua, n)
}

/// Why a plugin was not loaded.
#[derive(Debug)]
pub enum LoadError {
    /// The source has no manifest header. Says of which plugin.
    NoManifest(String),
    /// The machine could not be made.
    Machine,
    /// The plugin's code failed.
    Script(String),
}

/// The Lua plugins, one machine for each.
pub struct LuaRuntime {
    pub machines: Vec<Lua>,
    pub plugins: PluginSet<Function>,
}

/// A function of the API that plugins call.
#[derive(Debug, Clone, Copy, PartialEq, Eq, Structural)]
pub enum ApiFunction {
    Naming(Naming),
    Bind,
    OfText(OfText),
    Spawn,
    Plain(Plain),
    Rule,
}

/// The functions of the API by name.
pub open spec fn api() -> Seq<(Seq<char>, ApiFunction)> {
    seq![
        ("register_layout"@, ApiFunction::Naming(Naming::RegisterLayout)),
        ("on"@, ApiFunction::Naming(Naming::On)),
        ("bind"@, ApiFunction::Bind),
        ("log"@, ApiFunction::OfText(OfText::Log)),
        ("spawn"@, ApiFunction::Spawn),
        ("set_layout"@, ApiFunction::OfText(OfText::SetLayout)),
        ("focus_next"@, ApiFunction::Plain(Plain::FocusNext)),
        ("focus_prev"@, ApiFunction::Plain(Plain::FocusPrev)),
        ("close_window"@, ApiFunction::Plain(Plain::CloseWindow)),
        ("swap_master"@, ApiFunction::Plain(Plain::SwapMaster)),
        ("toggle_float"@, ApiFunction::Plain(Plain::ToggleFloat)),
        ("toggle_fullscreen"@, ApiFunction::Plain(Plain::ToggleFullscreen)),
        ("window_rule"@, ApiFunction::Rule),
    ]
}

/// A list of names and functions as mathematical values.
pub open spec fn listed(list: Seq<(&'static str, ApiFunction)>) -> Seq<(Seq<char>, ApiFunction)> {
    list.map_values(|f: (&'static str, ApiFunction)| (f.0@, f.1))
}

/// The functions that the `desktopinator` table offers to plugins.
pub fn api_functions() -> (r: Vec<(&'static str, ApiFunction)>)
    ensures
        listed(r@) == api(),
{
    let r: Vec<(&'static str, ApiFunction)> = vec![
        ("register_layout", ApiFunction::Naming(Naming::RegisterLayout)),
        ("on", ApiFunction::Naming(Naming::On)),
        ("bind", ApiFunction::Bind),
        ("log", ApiFunction::OfText(OfText::Log)),
        ("spawn", ApiFunction::Spawn),
        ("set_layout", ApiFunction::OfText(OfText::SetLayout)),
        ("focus_next", ApiFunction::Plain(Plain::FocusNext)),
        ("focus_prev", ApiFunction::Plain(Plain::FocusPrev)),
        ("close_window", ApiFunction::Plain(Plain::CloseWindow)),
        ("swap_master", ApiFunction::Plain(Plain::SwapMaster)),
        ("toggle_float", ApiFunction::Plain(Plain::ToggleFloat)),
        ("toggle_fullscreen", ApiFunction::Plain(Plain::ToggleFullscreen)),
        ("window_rule", ApiFunction::Rule),
    ];
    assert(listed(r@) =~= api());
    r
}

/// A machine was asked for an API function and gave this.
pub closed spec fn made(lua: &Lua, function: ApiFunction, r: Option<Function>) -> bool {
    match function {
        ApiFunction::Naming(naming) => call_ensures(naming_function, (lua, naming), r),
        ApiFunction::Bind => call_ensures(bind_function, (lua,), r),
        ApiFunction::OfText(of) => call_ensures(text_function, (lua, of), r),
        ApiFunction::Spawn => call_ensures(spawn_function, (lua,), r),
        ApiFunction::Plain(plain) => call_ensures(plain_function, (lua, plain), r),
        ApiFunction::Rule => call_ensures(rule_function, (lua,), r),
    }
}

/// A function of the API, for a machine: what the machine gives when it is asked for that function.
fn make_function(lua: &Lua, function: ApiFunction) -> (r: Option<Function>)
    ensures
        made(lua, function, r),
        is_made(r, function),
        r is Some ==> function_machine(r->0) == machine_of(*lua),
{
    match function {
        ApiFunction::Naming(naming) => naming_function(lua, naming),
        ApiFunction::Bind => bind_function(lua),
        ApiFunction::OfText(of) => text_function(lua, of),
        ApiFunction::Spawn => spawn_function(lua),
        ApiFunction::Plain(plain) => plain_function(lua, plain),
        ApiFunction::Rule => rule_function(lua),
    }
}

/// What a table with these functions holds.
pub open spec fn function_entries(list: Seq<(Seq<char>, ApiFunction)>) -> Map<TableKey, TableEntry>
    decreases list.len(),
{
    if list.len() == 0 {
        Map::empty()
    } else {
        function_entries(list.drop_last()).insert(
            TableKey::Name(list.last().0),
            TableEntry::Function(Some(list.last().1)),
        )
    }
}

/// A machine was asked for a table and gave none.
pub closed spec fn table_refused(lua: &Lua) -> bool {
    call_ensures(new_table, (lua,), None::<Table>)
}

/// A table of a machine did not take an API function under a name.
pub closed spec fn function_refused(lua: &Lua, name: Seq<char>, function: ApiFunction) -> bool {
    exists|t: &mut Table, n: &str, f: Function|
        {
            &&& n@ == name
            &&& api_function(f) == Some(function)
            &&& #[trigger] call_ensures(set_function, (lua, t, n, f), false)
        }
}

/// A machine did not give the table of the API, or one of its functions, or the table did not take
/// one.
pub open spec fn api_refused(lua: &Lua) -> bool {
    ||| table_refused(lua)
    ||| exists|i: int|
        {
            &&& 0 <= i < api().len()
            &&& (made(lua, (#[trigger] api()[i]).1, None) || function_refused(
                lua,
                api()[i].0,
                api()[i].1,
            ))
        }
}

/// The `desktopinator` table: every function of the API under its name. There is none only where the
/// machine refuses it.
fn api_table(lua: &Lua) -> (r: Option<Table>)
    ensures
        match r {
            Some(t) => {
                &&& is_own_table(t)
                &&& table_machine(t) == machine_of(*lua)
                &&& table_entries(t) == function_entries(api())
            },
            None => api_refused(lua),
        },
{
    let mut table = match new_table(lua) {
        Some(t) => t,
        None => {
            return None;
        },
    };
    let functions = api_functions();
    let ghost list = listed(functions@);
    assert(list.take(0) =~= Seq::empty());
    let mut i: usize = 0;
    while i < functions.len()
        invariant
            i <= functions@.len(),
            list == listed(functions@),
            list == api(),
            is_own_table(table),
            table_machine(table) == machine_of(*lua),
            table_entries(table) == function_entries(list.take(i as int)),
        decreases functions@.len() - i,
    {
        assert(list[i as int] == (functions@[i as int].0@, functions@[i as int].1));
        let function = match make_function(lua, functions[i].1) {
            Some(f) => f,
            None => {
                assert(made(lua, api()[i as int].1, None));
                return None;
            },
        };
        if !set_function(lua, &mut table, functions[i].0, function) {
            assert(function_refused(lua, api()[i as int].0, api()[i as int].1));
            return None;
        }
        assert(list.take(i + 1).drop_last() =~= list.take(i as int));
        i = i + 1;
    }
    assert(list.take(i as int) =~= list);
    Some(table)
}

/// A list of calls was started on a machine.
pub closed spec fn notes_started(before: Lua, after: Lua) -> bool {
    call_ensures(start_notes, (before,), after)
}

/// A machine was handed the table of the API to keep among its globals, and did or did not.
pub closed spec fn api_handed(before: Lua, after: Lua, done: bool) -> bool {
    exists|t: Table, name: &str|
        {
            &&& name@ == "desktopinator"@
            &&& table_entries(t) == function_entries(api())
            &&& #[trigger] call_ensures(set_global, (before, name, t), (after, done))
        }
}

/// A machine has started a list of calls, and then was handed the table of the API to keep among its
/// globals; `done` says whether it gave the table and kept it.
pub open spec fn api_registered(before: Lua, after: Lua, done: bool) -> bool {
    exists|started: Lua|
        {
            &&& #[trigger] notes_started(before, started)
            &&& (!done && after == started && api_refused(&started)) || api_handed(
                started,
                after,
                done,
            )
        }
}

/// Gives a machine the `desktopinator` table, whose functions note what the plugin calls. Gives the
/// machine back, and whether that worked.
fn register_api(lua: Lua) -> (r: (Lua, bool))
    ensures
        api_registered(lua, r.0, r.1),
        same_machine(lua, r.0),
{
    let ghost before = lua;
    let lua = start_notes(lua);
    let ghost started = lua;
    assert(notes_started(before, started));
    match api_table(&lua) {
        Some(table) => {
            let r = set_global(lua, "desktopinator", table);
            assert(api_handed(started, r.0, r.1));
            r
        },
        None => (lua, false),
    }
}

/// A machine for plugins: it has the libraries that they may use and no other, and a limit of
/// memory if it can have one.
pub open spec fn is_plugin_machine(lua: Lua) -> bool {
    &&& machine_libraries(lua) == PLUGIN_LIBRARIES
    &&& memory_limit(lua) is Some ==> memory_limit(lua) == Some(MEMORY_LIMIT)
}

/// A machine with the libraries that plugins may use and a limit of memory.
fn plugin_machine() -> (r: Option<Lua>)
    ensures
        r is Some,
        is_plugin_machine(r->0),
{
    let libraries = libraries_joined(
        libraries_joined(library_flag(Library::Tables), library_flag(Library::Strings)),
        libraries_joined(library_flag(Library::Mathematics), library_flag(Library::Unicode)),
    );
    proof {
        assert((0x02u32 | 0x10u32) | (0x80u32 | 0x20u32) == 0xb2u32) by (bit_vector);
        assert(0xb2u32 & 0x8000_0000u32 == 0) by (bit_vector);
    }
    match new_machine(libraries) {
        Some(lua) => {
            let mut lua = lua;
            limit_memory(&mut lua, MEMORY_LIMIT);
            Some(lua)
        },
        None => None,
    }
}

/// The list of calls was taken from a machine, and held these.
pub closed spec fn notes_taken(before: Lua, after: Lua, calls: Vec<ApiCall<Function>>) -> bool {
    call_ensures(take_notes, (before,), (after, calls))
}

/// A plugin as it stands after the calls that were taken from its machine.
pub open spec fn has_called(
    machine_before: Lua,
    machine_after: Lua,
    before: PluginData<Function>,
    after: PluginData<Function>,
) -> bool {
    exists|calls: Vec<ApiCall<Function>>|
        {
            &&& #[trigger] notes_taken(machine_before, machine_after, calls)
            &&& calls_done(before, after, calls@)
        }
}

/// A source was run on a machine under a name. Gives what went wrong, if anything.
pub closed spec fn script_run(
    before: Lua,
    after: Lua,
    source: Seq<char>,
    name: Seq<char>,
    error: Option<String>,
) -> bool {
    exists|s: &str, n: &str|
        {
            &&& s@ == source
            &&& n@ == name
            &&& #[trigger] call_ensures(run, (before, s, n), (after, error))
        }
}

/// A machine that was made for plugins got the API and then ran a source under a name. Gives the
/// machine as the run left it, and what went wrong, if anything.
pub open spec fn was_run(
    ran: Lua,
    source: Seq<char>,
    name: Seq<char>,
    error: Option<String>,
) -> bool {
    exists|fresh: Lua, ready: Lua|
        {
            &&& is_plugin_machine(fresh)
            &&& #[trigger] api_registered(fresh, ready, true)
            &&& #[trigger] script_run(ready, ran, source, name, error)
        }
}

/// Why a source was not run: a machine did not take the API, or its code failed.
pub open spec fn not_run(e: LoadError, source: Seq<char>, name: Seq<char>) -> bool {
    match e {
        LoadError::NoManifest(_) => false,
        LoadError::Machine => exists|fresh: Lua, after: Lua|
            is_plugin_machine(fresh) && #[trigger] api_registered(fresh, after, false),
        LoadError::Script(reason) => exists|ran: Lua| #[trigger]
            was_run(ran, source, name, Some(reason)),
    }
}

/// A plugin that was loaded: its source was run without fault on a machine with the API, and it
/// stands as the calls that were taken from the machine after that have made it since it was new.
pub open spec fn is_loaded(
    lua: Lua,
    p: PluginData<Function>,
    manifest: RawPluginManifest,
    source_path: Option<String>,
    source: Seq<char>,
) -> bool {
    exists|ran: Lua, fresh: PluginData<Function>|
        {
            &&& #[trigger] was_run(ran, source, manifest.id@, None)
            &&& #[trigger] is_new(fresh, manifest, source_path)
            &&& has_called(ran, lua, fresh, p)
        }
}

/// A plugin that has not done anything yet.
pub open spec fn is_new(
    p: PluginData<Function>,
    manifest: RawPluginManifest,
    source_path: Option<String>,
) -> bool {
    &&& p.manifest == manifest
    &&& p.source_path == source_path
    &&& p.layouts@.len() == 0
    &&& p.event_handlers@.len() == 0
    &&& p.keybinding_requests@.len() == 0
    &&& p.callbacks@.len() == 0
    &&& p.action_queue@.len() == 0
    &&& p.window_rules@.len() == 0
    &&& p.messages@.len() == 0
}

/// Why a plugin was not loaded: for want of a manifest, exactly if its source holds none, else
/// because it was not run.
pub open spec fn refused(e: LoadError, name: Seq<char>, source: Seq<char>) -> bool {
    match e {
        LoadError::NoManifest(message) => {
            &&& source_lacks_manifest(source)
            &&& message@ == "plugin '"@ + name + "' has no manifest header"@
        },
        _ => {
            &&& !source_lacks_manifest(source)
            &&& exists|m: RawPluginManifest|
                #[trigger] source_has_manifest(source, m) && not_run(e, source, m.id@)
        },
    }
}

/// A plugin on its machine, which was made for plugins: its functions belong to that machine.
pub open spec fn fits(lua: Lua, p: PluginData<Function>) -> bool {
    &&& p.wf()
    &&& is_plugin_machine(lua)
    &&& plugin_of_machine(p, machine_of(lua))
}

/// A layout that a plugin provides.
#[derive(Debug)]
pub struct LuaLayout {
    /// The plugin, by its place.
    pub plugin: usize,
    pub layout_name: String,
}

impl LuaLayout {
    pub fn name(&self) -> (r: &str)
        ensures
            r@ == self.layout_name@,
    {
        self.layout_name.as_str()
    }
}

impl LuaRuntime {
    /// There is a machine for each plugin, and the plugin's functions belong to it.
    pub open spec fn wf(&self) -> bool {
        &&& self.machines@.len() == self.plugins.plugins@.len()
        &&& forall|p: int|
            0 <= p < self.plugins.plugins@.len() ==> fits(
                self.machines@[p],
                #[trigger] self.plugins.plugins@[p],
            )
    }

    /// A runtime without plugins.
    pub fn new() -> (r: Self)
        ensures
            r.wf(),
            r.plugins.plugins@.len() == 0,
    {
        LuaRuntime { machines: Vec::new(), plugins: PluginSet::new() }
    }

    /// Forgets every plugin, before they are loaded anew.
    pub fn clear(&mut self)
        ensures
            final(self).wf(),
            final(self).plugins.plugins@.len() == 0,
    {
        *self = LuaRuntime::new();
    }

    /// Runs a plugin's source in a machine of its own. What the plugin calls meanwhile, and whether
    /// its code fails, rests on that code.
    fn load_single_plugin(
        &mut self,
        manifest: RawPluginManifest,
        source: &str,
        source_path: Option<String>,
    ) -> (r: Result<(), LoadError>)
        requires
            old(self).wf(),
        ensures
            final(self).wf(),
            match r {
                Ok(_) => {
                    let before = old(self).plugins.plugins@;
                    let after = final(self).plugins.plugins@;
                    &&& after.len() == before.len() + 1
                    &&& after.drop_last() == before
                    &&& final(self).machines@.drop_last() == old(self).machines@
                    &&& is_loaded(
                        final(self).machines@.last(),
                        after.last(),
                        manifest,
                        source_path,
                        source@,
                    )
                },
                Err(e) => *final(self) == *old(self) && not_run(e, source@, manifest.id@),
            },
    {
        let lua = match plugin_machine() {
            Some(lua) => lua,
            None => {
                return Err(LoadError::Machine);
            },
        };
        let ghost made = lua;
        let (lua, done) = register_api(lua);
        if !done {
            assert(is_plugin_machine(made) && api_registered(made, lua, false));
            return Err(LoadError::Machine);
        }
        let ghost ready = lua;
        let (lua, error) = run(lua, source, manifest.id.as_str());
        let ghost ran = lua;
        assert(script_run(ready, ran, source@, manifest.id@, error));
        assert(was_run(ran, source@, manifest.id@, error));
        match error {
            Some(error) => {
                let e = LoadError::Script(error);
                assert(was_run(ran, source@, manifest.id@, Some(e->Script_0)));
                return Err(e);
            },
            None => {},
        }
        let mut data = PluginData::new(manifest, source_path);
        let ghost fresh = data;
        assert(is_new(fresh, manifest, source_path));
        let lua = take_calls(lua, &mut data);
        let ghost before = self.plugins.plugins@;
        let ghost machines = self.machines@;
        self.machines.push(lua);
        self.plugins.plugins.push(data);
        assert(self.plugins.plugins@.drop_last() =~= before);
        assert(self.machines@.drop_last() =~= machines);
        Ok(())
    }

    /// Runs a plugin's source under the manifest in its header.
    fn load_with_manifest(&mut self, name: &str, source: &str, source_path: Option<String>) -> (r:
        Result<(), LoadError>)
        requires
            old(self).wf(),
        ensures
            final(self).wf(),
            match r {
                Ok(_) => {
                    let before = old(self).plugins.plugins@;
                    let after = final(self).plugins.plugins@;
                    &&& after.len() == before.len() + 1
                    &&& after.drop_last() == before
                    &&& source_has_manifest(source@, after.last().manifest)
                    &&& after.last().source_path == source_path
                    &&& final(self).machines@.drop_last() == old(self).machines@
                    &&& is_loaded(
                        final(self).machines@.last(),
                        after.last(),
                        after.last().manifest,
                        source_path,
                        source@,
                    )
                },
                Err(e) => {
                    &&& *final(self) == *old(self)
                    &&& refused(e, name@, source@)
                },
            },
    {
        match parse_lua_manifest(source) {
            None => Err(LoadError::NoManifest(text3("plugin '", name, "' has no manifest header"))),
            Some(manifest) => {
                proof {
                    lemma_has_or_lacks(source@, manifest);
                }
                let ghost before = manifest;
                let r = self.load_single_plugin(manifest, source, source_path);
                proof {
                    if r is Ok {
                        let p = self.plugins.plugins@.last();
                        let lua = self.machines@.last();
                        let (ran, fresh) = choose|ran: Lua, fresh: PluginData<Function>|
                            {
                                &&& #[trigger] was_run(ran, source@, before.id@, None)
                                &&& #[trigger] is_new(fresh, before, source_path)
                                &&& has_called(ran, lua, fresh, p)
                            };
                        let calls = choose|calls: Vec<ApiCall<Function>>|
                            {
                                &&& #[trigger] notes_taken(ran, lua, calls)
                                &&& calls_done(fresh, p, calls@)
                            };
                        lemma_calls_keep_manifest(fresh, p, calls@);
                    }
                }
                r
            },
        }
    }

    /// Load a single plugin from source code (for built-in plugins).
    pub fn load_plugin_source(&mut self, name: &str, source: &str) -> (r: Result<(), LoadError>)
        requires
            old(self).wf(),
        ensures
            final(self).wf(),
            match r {
                Ok(_) => {
                    let before = old(self).plugins.plugins@;
                    let after = final(self).plugins.plugins@;
                    &&& after.len() == before.len() + 1
                    &&& after.drop_last() == before
                    &&& source_has_manifest(source@, after.last().manifest)
                    &&& final(self).machines@.drop_last() == old(self).machines@
                    &&& is_loaded(
                        final(self).machines@.last(),
                        after.last(),
                        after.last().manifest,
                        None,
                        source@,
                    )
                },
                Err(e) => {
                    &&& *final(self) == *old(self)
                    &&& refused(e, name@, source@)
                },
            },
    {
        self.load_with_manifest(name, source, None)
    }

    /// Load a plugin from the source of a file.
    pub fn load_plugin_file(&mut self, path: &str, source: &str) -> (r: Result<(), LoadError>)
        requires
            old(self).wf(),
        ensures
            final(self).wf(),
            match r {
                Ok(_) => {
                    let before = old(self).plugins.plugins@;
                    let after = final(self).plugins.plugins@;
                    &&& after.len() == before.len() + 1
                    &&& after.drop_last() == before
                    &&& source_has_manifest(source@, after.last().manifest)
                    &&& after.last().source_path is Some
                    &&& after.last().source_path->0@ == path@
                    &&& final(self).machines@.drop_last() == old(self).machines@
                    &&& is_loaded(
                        final(self).machines@.last(),
                        after.last(),
                        after.last().manifest,
                        after.last().source_path,
                        source@,
                    )
                },
                Err(e) => {
                    &&& *final(self) == *old(self)
                    &&& refused(e, path@, source@)
                },
            },
    {
        self.load_with_manifest(path, source, Some(String::from_str(path)))
    }

    /// Get all layout names registered by plugins.
    pub fn layout_names(&self) -> (r: Vec<String>)
        ensures
            r@.map_values(|s: String| s@) == all_layouts(self.plugins.plugins@),
    {
        self.plugins.layout_names()
    }

    /// Create a layout instance by name: that of the first plugin that has one.
    pub fn create_layout(&self, name: &str) -> (r: Option<LuaLayout>)
        ensures
            match r {
                Some(layout) => {
                    &&& is_layout_owner(self.plugins.plugins@, name@, layout.plugin as int)
                    &&& layout.layout_name@ == name@
                },
                None => forall|q: int|
                    0 <= q < self.plugins.plugins@.len() ==> none_named(
                        (#[trigger] self.plugins.plugins@[q]).layouts@,
                        name@,
                    ),
            },
    {
        match self.plugins.find_layout(name) {
            Some((plugin, _)) => Some(
                LuaLayout { plugin, layout_name: String::from_str(name) },
            ),
            None => None,
        }
    }

    /// Notify plugins of a compositor event: the first handler that each plugin has for it is called.
    /// Returns what went wrong.
    pub fn on_event(&mut self, event: &PluginEvent) -> (errors: Vec<String>)
        requires
            old(self).wf(),
        ensures
            final(self).wf(),
            final(self).plugins.plugins@.len() == old(self).plugins.plugins@.len(),
            exists|outcomes: Seq<Option<String>>|
                {
                    &&& #[trigger] all_heard(*old(self), *final(self), *event, outcomes)
                    &&& errors@ == reasons(outcomes)
                },
    {
        let name = event_name(event);
        let mut errors: Vec<String> = Vec::new();
        let ghost before = *self;
        let ghost mut outcomes: Seq<Option<String>> = Seq::empty();
        let mut p: usize = 0;
        while p < self.plugins.plugins.len()
            invariant
                before.wf(),
                self.wf(),
                name@ == name_of_event(*event),
                self.plugins.plugins@.len() == before.plugins.plugins@.len(),
                p <= self.plugins.plugins@.len(),
                forall|q: int|
                    p <= q < self.plugins.plugins@.len() ==> (#[trigger] self.plugins.plugins@[q])
                        == before.plugins.plugins@[q],
                forall|q: int|
                    p <= q < self.plugins.plugins@.len() ==> (#[trigger] self.machines@[q])
                        == before.machines@[q],
                outcomes.len() == p,
                forall|q: int|
                    0 <= q < p ==> heard_at(before, *self, *event, q, #[trigger] outcomes[q]),
                errors@ == reasons(outcomes),
            decreases before.plugins.plugins@.len() - p,
        {
            let ghost earlier = outcomes;
            let ghost between = *self;
            assert(fits(self.machines@[p as int], self.plugins.plugins@[p as int]));
            match self.plugins.plugins[p].event_handler(name) {
                Some(function) => {
                    let ghost i = choose|i: int| #[trigger]
                        is_first_named(
                            self.plugins.plugins@[p as int].event_handlers@,
                            name@,
                            i,
                        ) && *function
                            == self.plugins.plugins@[p as int].event_handlers@[i].function;
                    let lua = self.machines.remove(p);
                    let ghost asked = lua;
                    let table = event_table(&lua, event);
                    let ghost given = table;
                    let (lua, error) = call_handler(lua, function, table);
                    let ghost called = lua;
                    assert(handler_called(
                        asked,
                        called,
                        between.plugins.plugins@[p as int].event_handlers@[i].function,
                        given,
                        error,
                    ));
                    let taker = &mut self.plugins.plugins[p];
                    let lua = take_calls(lua, taker);
                    self.machines.insert(p, lua);
                    proof {
                        assert(self.machines@ =~= between.machines@.update(p as int, lua));
                        assert(is_event_table(&asked, *event, given));
                        assert(heard_at(before, *self, *event, p as int, error));
                        outcomes = outcomes.push(error);
                    }
                    match error {
                        Some(error) => {
                            errors.push(error);
                        },
                        None => {},
                    }
                },
                None => {
                    proof {
                        outcomes = outcomes.push(None);
                    }
                },
            }
            proof {
                assert(outcomes.drop_last() =~= earlier);
                assert forall|q: int| p < q < self.plugins.plugins@.len() implies (
                #[trigger] self.plugins.plugins@[q]) == before.plugins.plugins@[q] by {
                    assert(between.plugins.plugins@[q] == before.plugins.plugins@[q]);
                }
                assert forall|q: int| p < q < self.plugins.plugins@.len() implies (
                #[trigger] self.machines@[q]) == before.machines@[q] by {
                    assert(between.machines@[q] == before.machines@[q]);
                }
                assert forall|q: int| 0 <= q < p implies heard_at(
                    before,
                    *self,
                    *event,
                    q,
                    #[trigger] outcomes[q],
                ) by {
                    assert(heard_at(before, between, *event, q, earlier[q]));
                }
            }
            p = p + 1;
        }
        assert(all_heard(before, *self, *event, outcomes));
        errors
    }

    /// Invoke a plugin callback by ID (from a keybinding): that of the first plugin that has one.
    /// Returns what went wrong.
    pub fn invoke_callback(&mut self, callback_id: &str) -> (error: Option<String>)
        requires
            old(self).wf(),
        ensures
            final(self).wf(),
            final(self).plugins.plugins@.len() == old(self).plugins.plugins@.len(),
            forall|p: int|
                0 <= p < final(self).plugins.plugins@.len() ==> if is_callback_owner(
                    old(self).plugins.plugins@,
                    callback_id@,
                    p,
                ) {
                    callback_invoked(
                        old(self).machines@[p],
                        final(self).machines@[p],
                        old(self).plugins.plugins@[p],
                        #[trigger] final(self).plugins.plugins@[p],
                        callback_id@,
                        error,
                    )
                } else {
                    &&& final(self).plugins.plugins@[p] == old(self).plugins.plugins@[p]
                    &&& final(self).machines@[p] == old(self).machines@[p]
                },
            (forall|p: int| !(#[trigger] is_callback_owner(old(self).plugins.plugins@, callback_id@, p)))
                ==> error is None,
    {
        let ghost before = *self;
        match self.plugins.find_callback(callback_id) {
            Some((p, function)) => {
                let ghost plugin = self.plugins.plugins@[p as int];
                let ghost i = choose|i: int| #[trigger]
                    is_first_named(plugin.callbacks@, callback_id@, i) && *function
                        == plugin.callbacks@[i].function;
                assert(fits(self.machines@[p as int], plugin));
                let lua = self.machines.remove(p);
                let ghost asked = lua;
                let (lua, error) = call_plain(lua, function);
                let ghost called = lua;
                assert(plain_called(asked, called, plugin.callbacks@[i].function, error));
                let taker = &mut self.plugins.plugins[p];
                    let lua = take_calls(lua, taker);
                self.machines.insert(p, lua);
                proof {
                    assert(self.machines@ =~= before.machines@.update(p as int, lua));
                    assert(callback_invoked(
                        asked,
                        lua,
                        plugin,
                        self.plugins.plugins@[p as int],
                        callback_id@,
                        error,
                    ));
                    assert forall|q: int| 0 <= q < before.plugins.plugins@.len() && q != p
                        implies !is_callback_owner(before.plugins.plugins@, callback_id@, q) by {
                        if q < p {
                            assert(none_named(
                                before.plugins.plugins@[q].callbacks@,
                                callback_id@,
                            ));
                        } else if is_callback_owner(before.plugins.plugins@, callback_id@, q) {
                            assert(none_named(plugin.callbacks@, callback_id@));
                        }
                    }
                }
                error
            },
            None => None,
        }
    }

    /// Drain any pending keybinding registration requests.
    pub fn drain_keybinding_requests(&mut self) -> (r: Vec<KeybindingRequest>)
        requires
            old(self).wf(),
        ensures
            final(self).wf(),
            r@ == all_requests(old(self).plugins.plugins@),
            final(self).plugins.plugins@.len() == old(self).plugins.plugins@.len(),
            forall|p: int|
                0 <= p < final(self).plugins.plugins@.len() ==> same_but_requests(
                    old(self).plugins.plugins@[p],
                    #[trigger] final(self).plugins.plugins@[p],
                ),
    {
        self.plugins.drain_keybinding_requests()
    }

    /// Drain the actions that plugins have queued.
    pub fn drain_actions(&mut self) -> (r: Vec<PluginAction>)
        requires
            old(self).wf(),
        ensures
            final(self).wf(),
            r@ == all_actions(old(self).plugins.plugins@),
            final(self).plugins.plugins@.len() == old(self).plugins.plugins@.len(),
            forall|p: int|
                0 <= p < final(self).plugins.plugins@.len() ==> same_but_actions(
                    old(self).plugins.plugins@[p],
                    #[trigger] final(self).plugins.plugins@[p],
                ),
    {
        self.plugins.drain_actions()
    }

    /// Drain the window rules that plugins have registered.
    pub fn drain_window_rules(&mut self) -> (r: Vec<WindowRule>)
        requires
            old(self).wf(),
        ensures
            final(self).wf(),
            r@ == all_rules(old(self).plugins.plugins@),
            final(self).plugins.plugins@.len() == old(self).plugins.plugins@.len(),
            forall|p: int|
                0 <= p < final(self).plugins.plugins@.len() ==> same_but_rules(
                    old(self).plugins.plugins@[p],
                    #[trigger] final(self).plugins.plugins@[p],
                ),
    {
        self.plugins.drain_window_rules()
    }

    /// Get information about all loaded plugins.
    pub fn plugin_info(&self) -> (r: Vec<PluginInfo>)
        ensures
            r@.len() == self.plugins.plugins@.len(),
            forall|p: int|
                0 <= p < r@.len() ==> is_info(self.plugins.plugins@[p], #[trigger] r@[p]),
    {
        self.plugins.plugin_info()
    }
}

/// The plugin has called; takes what it called, and gives its machine back.
fn take_calls(lua: Lua, plugin: &mut PluginData<Function>) -> (r: Lua)
    requires
        old(plugin).wf(),
        plugin_of_machine(*old(plugin), machine_of(lua)),
    ensures
        final(plugin).wf(),
        plugin_of_machine(*final(plugin), machine_of(lua)),
        same_machine(lua, r),
        has_called(lua, r, *old(plugin), *final(plugin)),
{
    let ghost before = lua;
    let (lua, calls) = take_notes(lua);
    plugin.call_all(calls);
    proof {
        assert(notes_taken(before, lua, calls));
        lemma_calls_keep_machine(*old(plugin), *plugin, calls@, machine_of(before));
    }
    lua
}

/// A handler was called on a machine with an event's table, or with nothing. Gives what went wrong,
/// if anything.
pub closed spec fn handler_called(
    before: Lua,
    after: Lua,
    function: Function,
    table: Option<Table>,
    error: Option<String>,
) -> bool {
    call_ensures(call_handler, (before, &function, table), (after, error))
}

/// A function was called on a machine without arguments. Gives what went wrong, if anything.
pub closed spec fn plain_called(
    before: Lua,
    after: Lua,
    function: Function,
    error: Option<String>,
) -> bool {
    call_ensures(call_plain, (before, &function), (after, error))
}

/// A layout's function was called on a machine with windows and an area, and gave this.
pub closed spec fn layout_called(
    before: Lua,
    after: Lua,
    function: Function,
    windows: Table,
    area: Table,
    r: Option<Table>,
) -> bool {
    call_ensures(call_layout, (before, &function, windows, area), (after, r))
}

/// A plugin and its machine, told of an event: its first handler for it was called with the event's
/// table, and then what it called was taken. Gives what went wrong, if anything. Without a handler,
/// nothing does, and nothing changes.
pub open spec fn heard(
    machine_before: Lua,
    machine_after: Lua,
    before: PluginData<Function>,
    after: PluginData<Function>,
    event: PluginEvent,
    error: Option<String>,
) -> bool {
    if none_named(before.event_handlers@, name_of_event(event)) {
        &&& machine_after == machine_before
        &&& after == before
        &&& error is None
    } else {
        exists|i: int, table: Option<Table>, called: Lua|
            {
                &&& #[trigger] is_first_named(before.event_handlers@, name_of_event(event), i)
                &&& #[trigger] is_event_table(&machine_before, event, table)
                &&& handler_called(
                    machine_before,
                    called,
                    before.event_handlers@[i].function,
                    table,
                    error,
                )
                &&& #[trigger] has_called(called, machine_after, before, after)
            }
    }
}

/// The plugin at a place was told of an event.
pub open spec fn heard_at(
    before: LuaRuntime,
    after: LuaRuntime,
    event: PluginEvent,
    p: int,
    error: Option<String>,
) -> bool {
    heard(
        before.machines@[p],
        after.machines@[p],
        before.plugins.plugins@[p],
        after.plugins.plugins@[p],
        event,
        error,
    )
}

/// Every plugin was told of an event.
pub open spec fn all_heard(
    before: LuaRuntime,
    after: LuaRuntime,
    event: PluginEvent,
    outcomes: Seq<Option<String>>,
) -> bool {
    &&& outcomes.len() == before.plugins.plugins@.len()
    &&& forall|p: int|
        0 <= p < outcomes.len() ==> heard_at(before, after, event, p, #[trigger] outcomes[p])
}

/// What went wrong, of some outcomes.
pub open spec fn reasons(outcomes: Seq<Option<String>>) -> Seq<String>
    decreases outcomes.len(),
{
    if outcomes.len() == 0 {
        Seq::empty()
    } else {
        match outcomes.last() {
            Some(reason) => reasons(outcomes.drop_last()).push(reason),
            None => reasons(outcomes.drop_last()),
        }
    }
}

/// A plugin and its machine after its callback of an id was called, and then what it called was taken.
/// Gives what went wrong, if anything.
pub open spec fn callback_invoked(
    machine_before: Lua,
    machine_after: Lua,
    before: PluginData<Function>,
    after: PluginData<Function>,
    id: Seq<char>,
    error: Option<String>,
) -> bool {
    exists|i: int, called: Lua|
        {
            &&& #[trigger] is_first_named(before.callbacks@, id, i)
            &&& plain_called(machine_before, called, before.callbacks@[i].function, error)
            &&& #[trigger] has_called(called, machine_after, before, after)
        }
}

/// What a table holds after entries were set in it, one after the other; `done` says which were.
pub open spec fn entries_set(entries: Seq<(TableKey, TableEntry)>, done: Seq<bool>) -> Map<
    TableKey,
    TableEntry,
>
    decreases entries.len(),
{
    if entries.len() == 0 {
        Map::empty()
    } else {
        let earlier = entries_set(entries.drop_last(), done.drop_last());
        if done.last() {
            earlier.insert(entries.last().0, entries.last().1)
        } else {
            earlier
        }
    }
}

/// A table holds these entries and no other, but for those that it refused.
pub open spec fn holds(
    t: Table,
    entries: Seq<(TableKey, TableEntry)>,
    refused: spec_fn(int) -> bool,
) -> bool {
    exists|done: Seq<bool>|
        {
            &&& done.len() == entries.len()
            &&& table_entries(t) == #[trigger] entries_set(entries, done)
            &&& forall|i: int| 0 <= i < done.len() && !(#[trigger] done[i]) ==> refused(i)
        }
}

/// A table did not take an unsigned number under a name.
pub closed spec fn number_refused(lua: &Lua, name: Seq<char>, n: u64) -> bool {
    exists|t: &mut Table, k: &str|
        k@ == name && #[trigger] call_ensures(set_number, (lua, t, k, n), false)
}

/// A table did not take a signed number under a name.
pub closed spec fn signed_refused(lua: &Lua, name: Seq<char>, n: i32) -> bool {
    exists|t: &mut Table, k: &str|
        k@ == name && #[trigger] call_ensures(set_signed, (lua, t, k, n), false)
}

/// A table did not take a text under a name.
pub closed spec fn text_refused(lua: &Lua, name: Seq<char>, text: Seq<char>) -> bool {
    exists|t: &mut Table, k: &str, v: &str|
        k@ == name && v@ == text && #[trigger] call_ensures(set_text, (lua, t, k, v), false)
}

/// A table did not take a number at a place.
pub closed spec fn element_refused(lua: &Lua, place: int, n: u64) -> bool {
    exists|t: &mut Table, k: usize|
        k == place && #[trigger] call_ensures(set_element, (lua, t, k, n), false)
}

/// A table did not take a field.
pub open spec fn field_refused(lua: &Lua, f: Field) -> bool {
    match f.value {
        FieldValue::Number(n) => number_refused(lua, f.name@, n),
        FieldValue::Text(t) => text_refused(lua, f.name@, t@),
    }
}

/// The entry of a field.
pub open spec fn field_entry(f: Field) -> (TableKey, TableEntry) {
    (
        TableKey::Name(f.name@),
        match f.value {
            FieldValue::Number(n) => number_entry(n),
            FieldValue::Text(t) => TableEntry::Text(t@),
        },
    )
}

/// The entries of some fields.
pub open spec fn field_entries(fields: Seq<Field>) -> Seq<(TableKey, TableEntry)> {
    fields.map_values(|f: Field| field_entry(f))
}

/// The entries of a list of windows: their numbers, from place one on, up to the last place that
/// there is.
pub open spec fn window_entries(windows: Seq<WindowId>) -> Seq<(TableKey, TableEntry)> {
    Seq::new(
        if windows.len() <= LAST_PLACE {
            windows.len()
        } else {
            LAST_PLACE as nat
        },
        |i: int| (TableKey::Place(i + 1), number_entry(windows[i].0)),
    )
}

/// The entries of an area.
pub open spec fn area_entries(area: Rect) -> Seq<(TableKey, TableEntry)> {
    seq![
        (TableKey::Name("x"@), TableEntry::Integer(area.x as int)),
        (TableKey::Name("y"@), TableEntry::Integer(area.y as int)),
        (TableKey::Name("width"@), TableEntry::Integer(area.width as int)),
        (TableKey::Name("height"@), TableEntry::Integer(area.height as int)),
    ]
}

/// An event's table: it holds the fields of the event, but for those that it refused. There is none
/// only where the machine refused it.
pub open spec fn is_event_table(lua: &Lua, event: PluginEvent, r: Option<Table>) -> bool {
    match r {
        Some(t) => exists|fields: Seq<Field>|
            {
                &&& #[trigger] are_fields(event, fields)
                &&& holds(t, field_entries(fields), |i: int| field_refused(lua, fields[i]))
            },
        None => table_refused(lua),
    }
}

/// A table of windows: it holds their numbers, but for those that it refused. There is none only
/// where the machine refused it.
pub open spec fn is_window_table(lua: &Lua, windows: Seq<WindowId>, r: Option<Table>) -> bool {
    match r {
        Some(t) => holds(
            t,
            window_entries(windows),
            |i: int| element_refused(lua, i + 1, windows[i].0),
        ),
        None => table_refused(lua),
    }
}

/// Whether a table refused the entry of an area at a place of the list of its entries.
pub open spec fn area_refused(lua: &Lua, area: Rect, i: int) -> bool {
    if i == 0 {
        signed_refused(lua, "x"@, area.x)
    } else if i == 1 {
        signed_refused(lua, "y"@, area.y)
    } else if i == 2 {
        signed_refused(lua, "width"@, area.width)
    } else {
        signed_refused(lua, "height"@, area.height)
    }
}

/// A table of an area: it holds its place and size, but for what it refused. There is none only
/// where the machine refused it.
pub open spec fn is_area_table(lua: &Lua, area: Rect, r: Option<Table>) -> bool {
    match r {
        Some(t) => holds(t, area_entries(area), |i: int| area_refused(lua, area, i)),
        None => table_refused(lua),
    }
}

/// One more entry was set, or could not be.
proof fn lemma_entry_set(
    before: Table,
    after: Table,
    entries: Seq<(TableKey, TableEntry)>,
    done: Seq<bool>,
    ok: bool,
)
    requires
        done.len() < entries.len(),
        table_entries(before) == entries_set(entries.take(done.len() as int), done),
        entry_set(
            before,
            after,
            entries[done.len() as int].0,
            entries[done.len() as int].1,
            ok,
        ),
    ensures
        table_entries(after) == entries_set(entries.take(done.len() as int + 1), done.push(ok)),
{
    let more = entries.take(done.len() as int + 1);
    assert(more.drop_last() =~= entries.take(done.len() as int));
    assert(done.push(ok).drop_last() =~= done);
    assert(more.last() == entries[done.len() as int]);
}

/// A table with the fields of an event.
fn event_table(lua: &Lua, event: &PluginEvent) -> (r: Option<Table>)
    ensures
        is_event_table(lua, *event, r),
        r is Some ==> table_machine(r->0) == machine_of(*lua),
{
    let mut table = match new_table(lua) {
        Some(t) => t,
        None => {
            return None;
        },
    };
    let fields = event_fields(event);
    let ghost entries = field_entries(fields@);
    let ghost mut done: Seq<bool> = Seq::empty();
    assert(entries.take(0) =~= Seq::<(TableKey, TableEntry)>::empty());
    let mut i: usize = 0;
    while i < fields.len()
        invariant
            i <= fields@.len(),
            i == done.len(),
            entries == field_entries(fields@),
            is_own_table(table),
            table_machine(table) == machine_of(*lua),
            table_entries(table) == entries_set(entries.take(i as int), done),
            forall|k: int|
                0 <= k < done.len() && !(#[trigger] done[k]) ==> field_refused(lua, fields@[k]),
        decreases fields@.len() - i,
    {
        let ghost before = table;
        let ok = match &fields[i].value {
            FieldValue::Number(n) => {
                let ok = set_number(lua, &mut table, fields[i].name, *n);
                assert(!ok ==> number_refused(lua, fields@[i as int].name@, *n));
                ok
            },
            FieldValue::Text(t) => {
                let ok = set_text(lua, &mut table, fields[i].name, t.as_str());
                assert(!ok ==> text_refused(lua, fields@[i as int].name@, t@));
                ok
            },
        };
        proof {
            lemma_entry_set(before, table, entries, done, ok);
            done = done.push(ok);
        }
        i = i + 1;
    }
    proof {
        assert(entries.take(i as int) =~= entries);
        assert(are_fields(*event, fields@));
        let refused = |k: int| field_refused(lua, fields@[k]);
        assert forall|k: int| 0 <= k < done.len() && !(#[trigger] done[k]) implies refused(k) by {}
        assert(holds(table, entries, refused));
    }
    Some(table)
}

/// A table with the windows' numbers.
fn window_table(lua: &Lua, windows: &[WindowId]) -> (r: Option<Table>)
    ensures
        is_window_table(lua, windows@, r),
        r is Some ==> table_machine(r->0) == machine_of(*lua),
{
    let mut table = match new_table(lua) {
        Some(t) => t,
        None => {
            return None;
        },
    };
    let ghost entries = window_entries(windows@);
    let ghost mut done: Seq<bool> = Seq::empty();
    assert(entries.take(0) =~= Seq::<(TableKey, TableEntry)>::empty());
    let mut i: usize = 0;
    while i < windows.len() && (i as u64) < LAST_PLACE
        invariant
            i <= windows@.len(),
            i <= LAST_PLACE,
            i == done.len(),
            entries == window_entries(windows@),
            is_own_table(table),
            table_machine(table) == machine_of(*lua),
            table_entries(table) == entries_set(entries.take(i as int), done),
            forall|k: int|
                0 <= k < done.len() && !(#[trigger] done[k]) ==> element_refused(
                    lua,
                    k + 1,
                    windows@[k].0,
                ),
        decreases windows@.len() - i,
    {
        let ghost before = table;
        let ok = set_element(lua, &mut table, i + 1, windows[i].0);
        proof {
            assert(!ok ==> element_refused(lua, i + 1, windows@[i as int].0));
            lemma_entry_set(before, table, entries, done, ok);
            done = done.push(ok);
        }
        i = i + 1;
    }
    proof {
        assert(entries.take(i as int) =~= entries);
        let refused = |k: int| element_refused(lua, k + 1, windows@[k].0);
        assert forall|k: int| 0 <= k < done.len() && !(#[trigger] done[k]) implies refused(k) by {}
        assert(holds(table, entries, refused));
    }
    Some(table)
}

/// A table with an area.
fn area_table(lua: &Lua, area: Rect) -> (r: Option<Table>)
    ensures
        is_area_table(lua, area, r),
        r is Some ==> table_machine(r->0) == machine_of(*lua),
{
    let mut table = match new_table(lua) {
        Some(t) => t,
        None => {
            return None;
        },
    };
    let ghost entries = area_entries(area);
    let ghost none = Seq::<bool>::empty();
    assert(entries.take(0) =~= Seq::<(TableKey, TableEntry)>::empty());
    let ghost empty = table;
    let x = set_signed(lua, &mut table, "x", area.x);
    assert(!x ==> area_refused(lua, area, 0));
    proof {
        lemma_entry_set(empty, table, entries, none, x);
    }
    let ghost with_x = table;
    let y = set_signed(lua, &mut table, "y", area.y);
    assert(!y ==> area_refused(lua, area, 1));
    proof {
        lemma_entry_set(with_x, table, entries, none.push(x), y);
    }
    let ghost with_y = table;
    let width = set_signed(lua, &mut table, "width", area.width);
    assert(!width ==> area_refused(lua, area, 2));
    proof {
        lemma_entry_set(with_y, table, entries, none.push(x).push(y), width);
    }
    let ghost with_width = table;
    let height = set_signed(lua, &mut table, "height", area.height);
    assert(!height ==> area_refused(lua, area, 3));
    proof {
        lemma_entry_set(with_width, table, entries, none.push(x).push(y).push(width), height);
        let done = none.push(x).push(y).push(width).push(height);
        assert(entries.take(4) =~= entries);
        let refused = |k: int| area_refused(lua, area, k);
        assert forall|k: int| 0 <= k < done.len() && !(#[trigger] done[k]) implies refused(k) by {}
        assert(table_entries(table) == entries_set(entries, done));
        assert(holds(table, entries, refused));
    }
    Some(table)
}

/// A list was asked for the table at a place and gave this.
pub closed spec fn got_table(
    before: Lua,
    after: Lua,
    list: Table,
    place: int,
    r: Option<Table>,
) -> bool {
    exists|i: usize| i == place && #[trigger] call_ensures(table_at, (before, &list, i), (after, r))
}

/// A table was asked for an unsigned number and gave this.
pub closed spec fn got_number(
    before: Lua,
    after: Lua,
    t: Table,
    name: Seq<char>,
    r: Option<u64>,
) -> bool {
    exists|n: &str| n@ == name && #[trigger] call_ensures(get_number, (before, &t, n), (after, r))
}

/// A table was asked for a signed number and gave this.
pub closed spec fn got_signed(
    before: Lua,
    after: Lua,
    t: Table,
    name: Seq<char>,
    r: Option<i32>,
) -> bool {
    exists|n: &str| n@ == name && #[trigger] call_ensures(get_signed, (before, &t, n), (after, r))
}

/// An entry was read from a table, one field after the other.
pub open spec fn fields_read(before: Lua, after: Lua, t: Table, e: LayoutEntry) -> bool {
    exists|with_id: Lua, with_x: Lua, with_y: Lua, with_width: Lua|
        {
            &&& #[trigger] got_number(before, with_id, t, "id"@, e.id)
            &&& #[trigger] got_signed(with_id, with_x, t, "x"@, e.x)
            &&& #[trigger] got_signed(with_x, with_y, t, "y"@, e.y)
            &&& #[trigger] got_signed(with_y, with_width, t, "width"@, e.width)
            &&& #[trigger] got_signed(with_width, after, t, "height"@, e.height)
        }
}

/// An entry was read from the table at a place of a list.
pub open spec fn entry_read(
    before: Lua,
    after: Lua,
    list: Table,
    place: int,
    e: LayoutEntry,
) -> bool {
    exists|t: Table, found: Lua|
        {
            &&& #[trigger] got_table(before, found, list, place, Some(t))
            &&& fields_read(found, after, t, e)
        }
}

/// Entries were read from a list, from place one on. The machine went through these states.
pub open spec fn steps_read(states: Seq<Lua>, list: Table, entries: Seq<LayoutEntry>) -> bool {
    &&& states.len() == entries.len() + 1
    &&& forall|i: int|
        0 <= i < entries.len() ==> entry_read(
            states[i],
            states[i + 1],
            list,
            i + 1,
            #[trigger] entries[i],
        )
}

/// Entries were read from a list, from place one on, up to the first that is no table, and at most
/// `count`.
pub open spec fn entries_read(
    before: Lua,
    after: Lua,
    list: Table,
    count: int,
    entries: Seq<LayoutEntry>,
) -> bool {
    &&& entries.len() <= count
    &&& exists|states: Seq<Lua>|
        {
            &&& #[trigger] steps_read(states, list, entries)
            &&& states[0] == before
            &&& if entries.len() < count {
                got_table(states.last(), after, list, entries.len() as int + 1, None)
            } else {
                after == states.last()
            }
        }
}

/// The entry that a table holds. Gives the machine back.
fn read_entry(lua: Lua, t: &Table) -> (r: (Lua, LayoutEntry))
    requires
        table_machine(*t) == machine_of(lua),
    ensures
        same_machine(lua, r.0),
        fields_read(lua, r.0, *t, r.1),
{
    let ghost start = lua;
    let (lua, id) = get_number(lua, t, "id");
    let ghost with_id = lua;
    let (lua, x) = get_signed(lua, t, "x");
    let ghost with_x = lua;
    let (lua, y) = get_signed(lua, t, "y");
    let ghost with_y = lua;
    let (lua, width) = get_signed(lua, t, "width");
    let ghost with_width = lua;
    let (lua, height) = get_signed(lua, t, "height");
    proof {
        assert(got_number(start, with_id, *t, "id"@, id));
        assert(got_signed(with_id, with_x, *t, "x"@, x));
        assert(got_signed(with_x, with_y, *t, "y"@, y));
        assert(got_signed(with_y, with_width, *t, "width"@, width));
        assert(got_signed(with_width, lua, *t, "height"@, height));
    }
    (lua, LayoutEntry { id, x, y, width, height })
}

/// The entries of a list up to the first that is no table, and at most `count`. Gives the machine back.
fn read_entries(lua: Lua, list: &Table, count: usize) -> (r: (Lua, Vec<LayoutEntry>))
    requires
        table_machine(*list) == machine_of(lua),
    ensures
        same_machine(lua, r.0),
        entries_read(lua, r.0, *list, count as int, r.1@),
{
    let mut machine = lua;
    let mut r: Vec<LayoutEntry> = Vec::new();
    let ghost mut states: Seq<Lua> = seq![machine];
    while r.len() < count
        invariant
            r@.len() <= count,
            same_machine(lua, machine),
            table_machine(*list) == machine_of(lua),
            steps_read(states, *list, r@),
            states[0] == lua,
            states.last() == machine,
        decreases count - r@.len(),
    {
        let ghost earlier = r@;
        let ghost passed = states;
        let ghost asked = machine;
        let (found, t) = table_at(machine, list, r.len() + 1);
        assert(got_table(asked, found, *list, r@.len() as int + 1, t));
        match t {
            Some(t) => {
                let (next, e) = read_entry(found, &t);
                machine = next;
                r.push(e);
                proof {
                    states = states.push(machine);
                    assert(entry_read(asked, machine, *list, earlier.len() as int + 1, e));
                    assert forall|i: int| 0 <= i < r@.len() implies entry_read(
                        states[i],
                        states[i + 1],
                        *list,
                        i + 1,
                        #[trigger] r@[i],
                    ) by {
                        if i < earlier.len() {
                            assert(earlier[i] == r@[i]);
                            assert(states[i] == passed[i] && states[i + 1] == passed[i + 1]);
                        }
                    }
                }
            },
            None => {
                return (found, r);
            },
        }
    }
    (machine, r)
}

/// Where windows go by a layout's function: it was called with the windows and the area, and the
/// places are those of the entries in the list that it gave. Without tables or a list, nowhere.
pub open spec fn arranged_by(
    before: Lua,
    after: Lua,
    function: Function,
    windows: Seq<WindowId>,
    area: Rect,
    r: Seq<Placement>,
) -> bool {
    exists|list: Option<Table>, rect: Option<Table>|
        {
            &&& #[trigger] is_window_table(&before, windows, list)
            &&& #[trigger] is_area_table(&before, area, rect)
            &&& match (list, rect) {
                (Some(l), Some(a)) => placed_by_call(
                    before,
                    after,
                    function,
                    l,
                    a,
                    windows.len() as int,
                    r,
                ),
                _ => after == before && r.len() == 0,
            }
        }
}

/// The places that the call of a layout's function gives for so many windows.
pub open spec fn placed_by_call(
    before: Lua,
    after: Lua,
    function: Function,
    windows: Table,
    area: Table,
    count: int,
    r: Seq<Placement>,
) -> bool {
    exists|called: Lua, result: Option<Table>|
        {
            &&& #[trigger] layout_called(before, called, function, windows, area, result)
            &&& match result {
                Some(list) => exists|entries: Seq<LayoutEntry>|
                    {
                        &&& #[trigger] entries_read(called, after, list, count, entries)
                        &&& r == Seq::new(entries.len(), |i: int| placement_of(entries[i]))
                    },
                None => after == called && r.len() == 0,
            }
        }
}

/// The places that a layout's function gives. Gives the machine back.
fn ask_layout(lua: Lua, function: &Function, windows: &[WindowId], area: Rect) -> (r: (
    Lua,
    Vec<Placement>,
))
    requires
        function_machine(*function) == machine_of(lua),
    ensures
        same_machine(lua, r.0),
        arranged_by(lua, r.0, *function, windows@, area, r.1@),
{
    let list = window_table(&lua, windows);
    let rect = area_table(&lua, area);
    let ghost start = lua;
    let ghost tables = (list, rect);
    assert(is_window_table(&start, windows@, tables.0));
    assert(is_area_table(&start, area, tables.1));
    match (list, rect) {
        (Some(list), Some(rect)) => {
            let (lua, result) = call_layout(lua, function, list, rect);
            assert(layout_called(start, lua, *function, list, rect, result));
            match result {
                Some(result) => {
                    let (lua, entries) = read_entries(lua, &result, windows.len());
                    let r = placements_of(&entries, windows.len());
                    assert(r@ =~= Seq::new(entries@.len(), |i: int| placement_of(entries@[i])));
                    (lua, r)
                },
                None => (lua, Vec::new()),
            }
        },
        _ => (lua, Vec::new()),
    }
}

/// A plugin and its machine after its layout of a name was asked where windows go, and then what it
/// called was taken.
pub open spec fn layout_asked(
    machine_before: Lua,
    machine_after: Lua,
    before: PluginData<Function>,
    after: PluginData<Function>,
    name: Seq<char>,
    windows: Seq<WindowId>,
    area: Rect,
    r: Seq<Placement>,
) -> bool {
    exists|i: int, asked: Lua|
        {
            &&& #[trigger] is_first_named(before.layouts@, name, i)
            &&& arranged_by(
                machine_before,
                asked,
                before.layouts@[i].function,
                windows,
                area,
                r,
            )
            &&& #[trigger] has_called(asked, machine_after, before, after)
        }
}

impl LuaLayout {
    /// Asks the plugin where the windows go. Which places it gives rests on its code; a plugin that
    /// fails gives none.
    pub fn arrange(&self, runtime: &mut LuaRuntime, windows: &[WindowId], area: Rect) -> (r: Vec<
        Placement,
    >)
        requires
            old(runtime).wf(),
        ensures
            final(runtime).wf(),
            final(runtime).plugins.plugins@.len() == old(runtime).plugins.plugins@.len(),
            forall|q: int|
                0 <= q < final(runtime).plugins.plugins@.len() && q != self.plugin ==> {
                    &&& (#[trigger] final(runtime).plugins.plugins@[q])
                        == old(runtime).plugins.plugins@[q]
                    &&& final(runtime).machines@[q] == old(runtime).machines@[q]
                },
            if self.plugin < old(runtime).plugins.plugins@.len() && !none_named(
                old(runtime).plugins.plugins@[self.plugin as int].layouts@,
                self.layout_name@,
            ) {
                layout_asked(
                    old(runtime).machines@[self.plugin as int],
                    final(runtime).machines@[self.plugin as int],
                    old(runtime).plugins.plugins@[self.plugin as int],
                    final(runtime).plugins.plugins@[self.plugin as int],
                    self.layout_name@,
                    windows@,
                    area,
                    r@,
                )
            } else {
                r@.len() == 0 && *final(runtime) == *old(runtime)
            },
    {
        let p: usize = self.plugin;
        if p >= runtime.plugins.plugins.len() {
            return Vec::new();
        }
        let ghost before = *runtime;
        let ghost plugin = runtime.plugins.plugins@[p as int];
        assert(fits(runtime.machines@[p as int], plugin));
        match runtime.plugins.plugins[p].layout_function(self.layout_name.as_str()) {
            Some(function) => {
                let ghost i = choose|i: int| #[trigger]
                    is_first_named(plugin.layouts@, self.layout_name@, i) && *function
                        == plugin.layouts@[i].function;
                let lua = runtime.machines.remove(p);
                let ghost start = lua;
                let (lua, r) = ask_layout(lua, function, windows, area);
                let ghost asked = lua;
                assert(arranged_by(
                    start,
                    asked,
                    plugin.layouts@[i].function,
                    windows@,
                    area,
                    r@,
                ));
                let taker = &mut runtime.plugins.plugins[p];
                let lua = take_calls(lua, taker);
                runtime.machines.insert(p, lua);
                proof {
                    assert(runtime.machines@ =~= before.machines@.update(p as int, lua));
                    assert(layout_asked(
                        start,
                        lua,
                        plugin,
                        runtime.plugins.plugins@[p as int],
                        self.layout_name@,
                        windows@,
                        area,
                        r@,
                    ));
                }
                r
            },
            None => Vec::new(),
        }
    }
}

/// What a plugin calls on its machine leaves it with functions of that machine.
proof fn lemma_calls_keep_machine(
    before: PluginData<Function>,
    after: PluginData<Function>,
    calls: Seq<ApiCall<Function>>,
    machine: int,
)
    requires
        calls_done(before, after, calls),
        plugin_of_machine(before, machine),
        forall|i: int| 0 <= i < calls.len() ==> call_of_machine(#[trigger] calls[i], machine),
    ensures
        plugin_of_machine(after, machine),
    decreases calls.len(),
{
    if calls.len() > 0 {
        let between = choose|between: PluginData<Function>|
            {
                &&& #[trigger] call_done(between, after, calls.last())
                &&& calls_done(before, between, calls.drop_last())
            };
        lemma_calls_keep_machine(before, between, calls.drop_last(), machine);
        let call = calls.last();
        assert(call_of_machine(calls[calls.len() - 1], machine));
        match call {
            ApiCall::RegisterLayout { name, function } => {
                lemma_put_keeps_machine(between.layouts@, after.layouts@, name@, function, machine);
            },
            ApiCall::Bind { modifiers, key, function } => {
                let id = callback_id_of(
                    between.manifest.id@,
                    modifiers@.map_values(|s: String| s@),
                    key@,
                );
                lemma_put_keeps_machine(between.callbacks@, after.callbacks@, id, function, machine);
            },
            _ => {},
        }
    }
}

/// A function of a machine, put in a list of its functions, leaves functions of the machine.
proof fn lemma_put_keeps_machine(
    before: Seq<NamedFunction<Function>>,
    after: Seq<NamedFunction<Function>>,
    name: Seq<char>,
    function: Function,
    machine: int,
)
    requires
        put(before, after, name, function),
        list_of_machine(before, machine),
        function_machine(function) == machine,
    ensures
        list_of_machine(after, machine),
{
    assert forall|i: int| 0 <= i < after.len() implies function_machine(
        (#[trigger] after[i]).function,
    ) == machine by {
        if i < before.len() {
            assert(function_machine(before[i].function) == machine);
            if none_named(before, name) {
                assert(after.drop_last()[i] == after[i]);
            }
        }
    }
}

/// What a plugin calls leaves its manifest and its path alone.
pub proof fn lemma_calls_keep_manifest(
    before: PluginData<Function>,
    after: PluginData<Function>,
    calls: Seq<ApiCall<Function>>,
)
    requires
        calls_done(before, after, calls),
    ensures
        after.manifest == before.manifest,
        after.source_path == before.source_path,
    decreases calls.len(),
{
    if calls.len() > 0 {
        let between = choose|between: PluginData<Function>|
            {
                &&& #[trigger] call_done(between, after, calls.last())
                &&& calls_done(before, between, calls.drop_last())
            };
        lemma_calls_keep_manifest(before, between, calls.drop_last());
    }
}

proof fn lemma_has_or_lacks(source: Seq<char>, m: RawPluginManifest)
    requires
        source_has_manifest(source, m),
    ensures
        !source_lacks_manifest(source),
{
}

} // verus!
