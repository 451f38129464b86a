//! Plugin files and what they say of themselves.

use crate::text::{chars_of, find_from, same, stands_at, string_of};
use vstd::prelude::*;

verus! {

/// What a plugin says of itself.
#[derive(Debug)]
pub struct RawPluginManifest {
    pub id: String,
    pub name: String,
    pub version: String,
    pub capabilities: Vec<String>,
    pub hooks: Vec<String>,
}

/// A keybinding a plugin wants to register.
#[derive(Debug)]
pub struct KeybindingRequest {
    pub modifiers: Vec<String>,
    pub key: String,
    pub callback_id: String,
}

/// Information about a loaded plugin.
#[derive(Debug)]
pub struct PluginInfo {
    pub id: String,
    pub name: String,
    pub version: String,
    pub source: String,
    pub layouts: Vec<String>,
}

/// `part` stands at `i` of `whole`, and nowhere from `from` to there.
pub open spec fn first_at(whole: Seq<char>, part: Seq<char>, from: int, i: int) -> bool {
    &&& from <= i
    &&& stands_at(whole, part, i)
    &&& forall|j: int| from <= j < i ==> !stands_at(whole, part, j)
}

/// The manifest of a Lua plugin lies from `start` up to `end`: behind the first start mark, and
/// before the first end mark that follows.
pub open spec fn manifest_bounds(source: Seq<char>, start: int, end: int) -> bool {
    let mark = "--[[ [manifest]"@;
    &&& first_at(source, mark, 0, start - mark.len())
    &&& first_at(source, "]]"@, start, end)
}

/// The text of the `--[[ [manifest] ... ]]` header of a Lua plugin.
pub fn lua_manifest_text(source: &str) -> (r: Option<String>)
    ensures
        match r {
            Some(text) => exists|start: int, end: int| #[trigger]
                manifest_bounds(source@, start, end) && text@ == source@.subrange(start, end),
            None => forall|start: int, end: int| !#[trigger] manifest_bounds(source@, start, end),
        },
{
    let s = chars_of(source);
    let mark = chars_of("--[[ [manifest]");
    let end_mark = chars_of("]]");
    let at: usize = match find_from(&s, &mark, 0) {
        Some(i) => i,
        None => {
            assert forall|start: int, end: int| !#[trigger] manifest_bounds(
                source@,
                start,
                end,
            ) by {
                let i = start - mark@.len();
                if manifest_bounds(source@, start, end) {
                    assert(stands_at(s@, mark@, i));
                }
            }
            return None;
        },
    };
    assert(stands_at(s@, mark@, at as int));
    assert(s@.len() == s.len());
    let start: usize = at + mark.len();
    match find_from(&s, &end_mark, start) {
        Some(end) => {
            let mut text: Vec<char> = Vec::new();
            let mut i: usize = start;
            while i < end
                invariant
                    start <= i <= end <= s@.len(),
                    text@ =~= s@.subrange(start as int, i as int),
                decreases end - i,
            {
                text.push(s[i]);
                i = i + 1;
            }
            assert(manifest_bounds(source@, start as int, end as int));
            Some(string_of(&text))
        },
        None => {
            assert forall|a: int, b: int| !#[trigger] manifest_bounds(source@, a, b) by {
                if manifest_bounds(source@, a, b) {
                    let i = a - mark@.len();
                    if i < at {
                        assert(!stands_at(s@, mark@, i));
                    } else if at < i {
                        assert(!stands_at(s@, mark@, at as int));
                    }
                    assert(!stands_at(s@, end_mark@, b));
                }
            }
            None
        },
    }
}

/// A value of a TOML table.
#[derive(Debug)]
pub enum TomlValue {
    Text(String),
    /// An array; what is not a text in it is `None`.
    List(Vec<Option<String>>),
    /// Anything else.
    Other,
}

/// A value of a TOML table, as a mathematical value.
pub enum TomlShape {
    Text(Seq<char>),
    List(Seq<Option<Seq<char>>>),
    Other,
}

impl TomlValue {
    pub open spec fn view(&self) -> TomlShape {
        match *self {
            TomlValue::Text(s) => TomlShape::Text(s@),
            TomlValue::List(list) => TomlShape::List(
                list@.map_values(
                    |e: Option<String>|
                        match e {
                            Some(s) => Some(s@),
                            None => None,
                        },
                ),
            ),
            TomlValue::Other => TomlShape::Other,
        }
    }
}

/// A key of a TOML table and its value.
#[derive(Debug)]
pub struct TomlEntry {
    pub key: String,
    pub value: TomlValue,
}

/// The keys and values of a TOML table, as mathematical values.
pub open spec fn shapes(entries: Seq<TomlEntry>) -> Seq<(Seq<char>, TomlShape)> {
    entries.map_values(|e: TomlEntry| (e.key@, e.value@))
}

/// What `toml::from_str` makes of a text: its top-level keys and values, or nothing if the text is
/// not TOML.
pub uninterp spec fn toml_document(text: Seq<char>) -> Option<Seq<(Seq<char>, TomlShape)>>;

/// `toml::from_str` to a `toml::Table`. The result rests on the text alone; what counts as TOML is
/// left to that crate.
#[verifier::external_body]
fn parse_toml(text: &str) -> (r: Option<Vec<TomlEntry>>)
    ensures
        toml_document(text@) == (match r {
            Some(entries) => Some(shapes(entries@)),
            None => None,
        }),
{
    let item = |v| match v {
        toml::Value::String(s) => Some(s),
        _ => None,
    };
    let value = |v| match v {
        toml::Value::String(s) => TomlValue::Text(s),
        toml::Value::Array(a) => TomlValue::List(a.into_iter().map(item).collect()),
        _ => TomlValue::Other,
    };
    let table: toml::Table = toml::from_str(text).ok()?;
    Some(table.into_iter().map(|(key, v)| TomlEntry { key, value: value(v) }).collect())
}

/// The value of the first entry with this key.
pub open spec fn lookup(doc: Seq<(Seq<char>, TomlShape)>, key: Seq<char>) -> Option<TomlShape>
    decreases doc.len(),
{
    if doc.len() == 0 {
        None
    } else if doc[0].0 == key {
        Some(doc[0].1)
    } else {
        lookup(doc.skip(1), key)
    }
}

/// A text.
pub open spec fn text_in(v: Option<TomlShape>) -> Option<Seq<char>> {
    match v {
        Some(TomlShape::Text(s)) => Some(s),
        _ => None,
    }
}

/// A list of texts; an empty one, if nothing is there.
pub open spec fn list_in(v: Option<TomlShape>) -> Option<Seq<Seq<char>>> {
    match v {
        Some(TomlShape::List(list)) => if forall|i: int|
            0 <= i < list.len() ==> (#[trigger] list[i]) is Some {
            Some(list.map_values(|e: Option<Seq<char>>| e->0))
        } else {
            None
        },
        Some(_) => None,
        None => Some(Seq::empty()),
    }
}

/// The manifest that a document holds: an id, a name and a version, and optional lists of
/// capabilities and hooks. Other keys do not matter.
pub open spec fn is_manifest(doc: Seq<(Seq<char>, TomlShape)>, m: RawPluginManifest) -> bool {
    &&& text_in(lookup(doc, "id"@)) == Some(m.id@)
    &&& text_in(lookup(doc, "name"@)) == Some(m.name@)
    &&& text_in(lookup(doc, "version"@)) == Some(m.version@)
    &&& list_in(lookup(doc, "capabilities"@)) == Some(
        m.capabilities@.map_values(|s: String| s@),
    )
    &&& list_in(lookup(doc, "hooks"@)) == Some(m.hooks@.map_values(|s: String| s@))
}

/// A document holds no manifest.
pub open spec fn no_manifest(doc: Seq<(Seq<char>, TomlShape)>) -> bool {
    ||| text_in(lookup(doc, "id"@)) is None
    ||| text_in(lookup(doc, "name"@)) is None
    ||| text_in(lookup(doc, "version"@)) is None
    ||| list_in(lookup(doc, "capabilities"@)) is None
    ||| list_in(lookup(doc, "hooks"@)) is None
}

fn find_entry<'a>(entries: &'a [TomlEntry], key: &str) -> (r: Option<&'a TomlValue>)
    ensures
        lookup(shapes(entries@), key@) == (match r {
            Some(v) => Some(v@),
            None => None,
        }),
{
    let ghost doc = shapes(entries@);
    let mut i: usize = 0;
    assert(doc.skip(0) =~= doc);
    while i < entries.len()
        invariant
            i <= entries@.len(),
            doc == shapes(entries@),
            lookup(doc, key@) == lookup(doc.skip(i as int), key@),
        decreases entries@.len() - i,
    {
        assert(doc.skip(i as int)[0] == (entries@[i as int].key@, entries@[i as int].value@));
        assert(doc.skip(i as int).skip(1) =~= doc.skip(i + 1));
        if same(entries[i].key.as_str(), key) {
            return Some(&entries[i].value);
        }
        i = i + 1;
    }
    None
}

fn text_of(v: Option<&TomlValue>) -> (r: Option<String>)
    ensures
        ({
            let shape = match v {
                Some(value) => Some(value@),
                None => None,
            };
            match r {
                Some(s) => text_in(shape) == Some(s@),
                None => text_in(shape) is None,
            }
        }),
{
    match v {
        Some(TomlValue::Text(s)) => Some(s.clone()),
        _ => None,
    }
}

fn list_of(v: Option<&TomlValue>) -> (r: Option<Vec<String>>)
    ensures
        ({
            let shape = match v {
                Some(value) => Some(value@),
                None => None,
            };
            match r {
                Some(list) => list_in(shape) == Some(list@.map_values(|s: String| s@)),
                None => list_in(shape) is None,
            }
        }),
{
    let mut r: Vec<String> = Vec::new();
    match v {
        Some(TomlValue::List(list)) => {
            let ghost shape = (TomlValue::List(*list))@->List_0;
            let mut i: usize = 0;
            while i < list.len()
                invariant
                    i <= list@.len(),
                    shape == (TomlValue::List(*list))@->List_0,
                    v is Some,
                    *v->0 == TomlValue::List(*list),
                    r@.len() == i,
                    forall|k: int| 0 <= k < i ==> shape[k] == Some((#[trigger] r@[k])@),
                decreases list@.len() - i,
            {
                match &list[i] {
                    Some(s) => {
                        r.push(s.clone());
                    },
                    None => {
                        assert(shape[i as int] is None);
                        return None;
                    },
                }
                i = i + 1;
            }
            proof {
                assert forall|k: int| 0 <= k < shape.len() implies (#[trigger] shape[k]) is Some by {
                    assert(shape[k] == Some(r@[k]@));
                }
                assert(shape.map_values(|e: Option<Seq<char>>| e->0) =~= r@.map_values(
                    |s: String| s@,
                ));
            }
            Some(r)
        },
        Some(_) => None,
        None => {
            assert(r@.map_values(|s: String| s@) =~= Seq::<Seq<char>>::empty());
            Some(r)
        },
    }
}

/// The manifest that a document holds.
pub fn manifest_of(entries: &[TomlEntry]) -> (r: Option<RawPluginManifest>)
    ensures
        match r {
            Some(m) => is_manifest(shapes(entries@), m),
            None => no_manifest(shapes(entries@)),
        },
{
    let id = text_of(find_entry(entries, "id"));
    let name = text_of(find_entry(entries, "name"));
    let version = text_of(find_entry(entries, "version"));
    let capabilities = list_of(find_entry(entries, "capabilities"));
    let hooks = list_of(find_entry(entries, "hooks"));
    match (id, name, version, capabilities, hooks) {
        (Some(id), Some(name), Some(version), Some(capabilities), Some(hooks)) => Some(
            RawPluginManifest { id, name, version, capabilities, hooks },
        ),
        _ => None,
    }
}

/// A Lua plugin's source holds this manifest.
pub open spec fn source_has_manifest(source: Seq<char>, m: RawPluginManifest) -> bool {
    exists|start: int, end: int|
        {
            &&& #[trigger] manifest_bounds(source, start, end)
            &&& toml_document(source.subrange(start, end)) is Some
            &&& is_manifest(toml_document(source.subrange(start, end))->0, m)
        }
}

/// A Lua plugin's source holds no manifest: no header, none in TOML, or one that lacks something.
pub open spec fn source_lacks_manifest(source: Seq<char>) -> bool {
    forall|start: int, end: int| #[trigger]
        manifest_bounds(source, start, end) ==> {
            let doc = toml_document(source.subrange(start, end));
            doc is None || no_manifest(doc->0)
        }
}

/// Parse the `--[[ [manifest] ... ]]` TOML header from a Lua plugin file.
pub fn parse_lua_manifest(source: &str) -> (r: Option<RawPluginManifest>)
    ensures
        match r {
            Some(m) => source_has_manifest(source@, m),
            None => source_lacks_manifest(source@),
        },
{
    let text = match lua_manifest_text(source) {
        Some(text) => text,
        None => {
            return None;
        },
    };
    let ghost (start, end) = choose|start: int, end: int| #[trigger]
        manifest_bounds(source@, start, end) && text@ == source@.subrange(start, end);
    proof {
        assert forall|a: int, b: int| #[trigger] manifest_bounds(source@, a, b) implies a == start
            && b == end by {
            lemma_bounds_unique(source@, a, b, start, end);
        }
    }
    match parse_toml(text.as_str()) {
        Some(entries) => manifest_of(&entries),
        None => None,
    }
}

/// A source has at most one place for its manifest.
proof fn lemma_bounds_unique(source: Seq<char>, a: int, b: int, c: int, d: int)
    requires
        manifest_bounds(source, a, b),
        manifest_bounds(source, c, d),
    ensures
        a == c,
        b == d,
{
    let mark = "--[[ [manifest]"@;
    if a < c {
        assert(!stands_at(source, mark, a - mark.len()));
    } else if c < a {
        assert(!stands_at(source, mark, c - mark.len()));
    } else if b < d {
        assert(!stands_at(source, "]]"@, b));
    } else if d < b {
        assert(!stands_at(source, "]]"@, d));
    }
}

} // verus!
