//! What the display server knows of windows.

use crate::tiling::Rect;
use vstd::prelude::*;

verus! {

/// What the display server knows of a window.
#[derive(Debug)]
pub struct SeenWindow {
    pub id: u64,
    /// Where the window is, while it is on the screen.
    pub geometry: Option<Rect>,
    pub app_id: Option<String>,
    pub title: Option<String>,
}

/// Entry `k` is the first on the window.
pub open spec fn is_first_seen(seen: Seq<SeenWindow>, id: u64, k: int) -> bool {
    &&& 0 <= k < seen.len()
    &&& seen[k].id == id
    &&& forall|j: int| 0 <= j < k ==> (#[trigger] seen[j]).id != id
}

/// The first entry on a window.
pub fn find_seen(seen: &[SeenWindow], id: u64) -> (r: Option<usize>)
    ensures
        match r {
            Some(k) => is_first_seen(seen@, id, k as int),
            None => forall|k: int| 0 <= k < seen@.len() ==> (#[trigger] seen@[k]).id != id,
        },
{
    let mut i: usize = 0;
    while i < seen.len()
        invariant
            i <= seen@.len(),
            forall|k: int| 0 <= k < i ==> (#[trigger] seen@[k]).id != id,
        decreases seen@.len() - i,
    {
        if seen[i].id == id {
            return Some(i);
        }
        i = i + 1;
    }
    None
}

} // verus!
