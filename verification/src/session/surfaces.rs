//! Surfaces of the graphics channel, and what is kept for each output.

use crate::compositor::state::OutputState;
use crate::gfx::channel::GfxOutputInfo;
use crate::text::same;
use vstd::prelude::*;

verus! {

/// A number cut to sixteen bits.
pub open spec fn low16(n: int) -> u16 {
    (n % 65536) as u16
}

/// A number cut to thirty-two bits.
pub open spec fn low32(n: int) -> u32 {
    (n % 0x1_0000_0000) as u32
}

/// The surface of output `i`.
pub open spec fn is_surface(outputs: Seq<OutputState>, i: int, s: GfxOutputInfo) -> bool {
    let o = outputs[i];
    &&& s.name == o.name
    &&& s.surface_id == low16(i)
    &&& s.x == low32(o.geometry.x as int)
    &&& s.y == low32(o.geometry.y as int)
    &&& s.width == low16(o.geometry.width as int)
    &&& s.height == low16(o.geometry.height as int)
}

fn cut16(n: i32) -> (r: u16)
    ensures
        r == low16(n as int),
{
    let m: i64 = n as i64 + 0x1_0000_0000;
    (m % 65536) as u16
}

fn cut32(n: i32) -> (r: u32)
    ensures
        r == low32(n as int),
{
    let m: i64 = n as i64 + 0x1_0000_0000;
    (m % 0x1_0000_0000) as u32
}

/// One surface for each output, numbered in order.
pub fn gfx_outputs(outputs: &[OutputState]) -> (r: Vec<GfxOutputInfo>)
    ensures
        r@.len() == outputs@.len(),
        forall|i: int| 0 <= i < r@.len() ==> is_surface(outputs@, i, #[trigger] r@[i]),
{
    let mut r: Vec<GfxOutputInfo> = Vec::new();
    let mut i: usize = 0;
    while i < outputs.len()
        invariant
            i <= outputs@.len(),
            r@.len() == i,
            forall|k: int| 0 <= k < r@.len() ==> is_surface(outputs@, k, #[trigger] r@[k]),
        decreases outputs@.len() - i,
    {
        let o = &outputs[i];
        r.push(
            GfxOutputInfo {
                name: o.name.clone(),
                surface_id: (i % 65536) as u16,
                x: cut32(o.geometry.x),
                y: cut32(o.geometry.y),
                width: cut16(o.geometry.width),
                height: cut16(o.geometry.height),
            },
        );
        i = i + 1;
    }
    r
}

/// The number of the first surface of this name; 0 without one.
pub open spec fn is_surface_id(surfaces: Seq<GfxOutputInfo>, name: Seq<char>, id: u16) -> bool {
    ||| exists|i: int|
        {
            &&& 0 <= i < surfaces.len()
            &&& (#[trigger] surfaces[i]).name@ == name
            &&& id == surfaces[i].surface_id
            &&& forall|j: int| 0 <= j < i ==> (#[trigger] surfaces[j]).name@ != name
        }
    ||| {
        &&& id == 0
        &&& forall|j: int| 0 <= j < surfaces.len() ==> (#[trigger] surfaces[j]).name@ != name
    }
}

/// The surface of the output of this name; 0 without one.
pub fn surface_id_for_output(surfaces: &[GfxOutputInfo], name: &str) -> (r: u16)
    ensures
        is_surface_id(surfaces@, name@, r),
{
    let mut i: usize = 0;
    while i < surfaces.len()
        invariant
            i <= surfaces@.len(),
            forall|j: int| 0 <= j < i ==> (#[trigger] surfaces@[j]).name@ != name@,
        decreases surfaces@.len() - i,
    {
        if same(surfaces[i].name.as_str(), name) {
            assert(surfaces@[i as int].name@ == name@);
            return surfaces[i].surface_id;
        }
        i = i + 1;
    }
    0
}

/// Size of the desktop that a new RDP client gets: that of the first output.
pub fn primary_size(outputs: &[OutputState]) -> (r: Option<(u16, u16)>)
    ensures
        r == (if outputs@.len() > 0 {
            Some(
                (
                    low16(outputs@[0].geometry.width as int),
                    low16(outputs@[0].geometry.height as int),
                ),
            )
        } else {
            None
        }),
{
    if outputs.len() > 0 {
        Some((cut16(outputs[0].geometry.width), cut16(outputs[0].geometry.height)))
    } else {
        None
    }
}

/// One of the names is this one.
pub open spec fn listed(names: Seq<String>, name: Seq<char>) -> bool {
    exists|i: int| 0 <= i < names.len() && (#[trigger] names[i])@ == name
}

/// Those of `names` that are not in `others`, in order.
pub open spec fn missing(names: Seq<String>, others: Seq<String>) -> Seq<String>
    decreases names.len(),
{
    if names.len() == 0 {
        Seq::empty()
    } else {
        let before = missing(names.drop_last(), others);
        if listed(others, names.last()@) {
            before
        } else {
            before.push(names.last())
        }
    }
}

fn is_listed(names: &[String], name: &str) -> (r: bool)
    ensures
        r == listed(names@, name@),
{
    let mut i: usize = 0;
    while i < names.len()
        invariant
            i <= names@.len(),
            forall|j: int| 0 <= j < i ==> (#[trigger] names@[j])@ != name@,
        decreases names@.len() - i,
    {
        if same(names[i].as_str(), name) {
            assert(names@[i as int]@ == name@);
            return true;
        }
        i = i + 1;
    }
    false
}

/// Those of `names` that are not in `others`, in order. With the names of what is kept for outputs
/// and of the outputs themselves: what is to be dropped, and the other way round what is to be made.
pub fn missing_from(names: &[String], others: &[String]) -> (r: Vec<String>)
    ensures
        r@ == missing(names@, others@),
{
    let mut r: Vec<String> = Vec::new();
    let mut i: usize = 0;
    assert(names@.take(0) =~= Seq::<String>::empty());
    while i < names.len()
        invariant
            i <= names@.len(),
            r@ == missing(names@.take(i as int), others@),
        decreases names@.len() - i,
    {
        assert(names@.take(i + 1).drop_last() =~= names@.take(i as int));
        if !is_listed(others, names[i].as_str()) {
            r.push(names[i].clone());
        }
        i = i + 1;
    }
    assert(names@.take(i as int) =~= names@);
    r
}

/// A name is missing exactly if it is in the one list and not in the other.
pub proof fn lemma_missing(names: Seq<String>, others: Seq<String>, name: Seq<char>)
    ensures
        listed(missing(names, others), name) <==> listed(names, name) && !listed(others, name),
    decreases names.len(),
{
    if names.len() > 0 {
        let shorter = names.drop_last();
        let before = missing(shorter, others);
        lemma_missing(shorter, others, name);
        if listed(shorter, name) {
            let i = choose|i: int| 0 <= i < shorter.len() && (#[trigger] shorter[i])@ == name;
            assert(names[i]@ == name);
        }
        if listed(names, name) {
            let i = choose|i: int| 0 <= i < names.len() && (#[trigger] names[i])@ == name;
            if i < shorter.len() {
                assert(shorter[i]@ == name);
            }
        }
        if names.last()@ == name {
            assert(names[names.len() - 1]@ == name);
        }
        let all = missing(names, others);
        if listed(before, name) {
            let i = choose|i: int| 0 <= i < before.len() && (#[trigger] before[i])@ == name;
            assert(all[i]@ == name);
        }
        if listed(all, name) {
            let i = choose|i: int| 0 <= i < all.len() && (#[trigger] all[i])@ == name;
            if i < before.len() {
                assert(before[i]@ == name);
            }
        }
        if !listed(others, names.last()@) {
            assert(all[before.len() as int] == names.last());
        }
    }
}

} // verus!
