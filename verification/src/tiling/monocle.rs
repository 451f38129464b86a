//! Monocle layout.

use crate::tiling::{
    all_narrow, arranged, inset, inset_wide, place_in_order, Cell, Layout, Placement, Rect, WideRect, WindowId,
};
use vstd::prelude::*;

verus! {

/// Monocle layout: every window fills the entire output area.
/// Only the focused window is typically visible (the compositor handles z-order).
#[derive(Debug, Clone, Copy, PartialEq, Eq, Structural)]
pub struct MonocleLayout {
    /// Gap in pixels around the edges.
    pub gap: i32,
}

impl Default for MonocleLayout {
    fn default() -> (r: Self)
        ensures
            r.gap == 0,
    {
        MonocleLayout { gap: 0 }
    }
}

impl MonocleLayout {
    /// Where window `k` of `n` goes.
    pub open spec fn cell(&self, n: int, area: Rect, k: int) -> Cell {
        inset(area, self.gap as int)
    }

    fn cells(&self, n: usize, area: Rect) -> (r: Vec<WideRect>)
        ensures
            r@.len() == n,
            forall|k: int| 0 <= k < n ==> (#[trigger] r@[k])@ == self.cell(n as int, area, k),
    {
        let mut r: Vec<WideRect> = Vec::with_capacity(n);
        let mut k: usize = 0;
        while k < n
            invariant
                k <= n,
                r@.len() == k,
                forall|j: int| 0 <= j < k ==> (#[trigger] r@[j])@ == self.cell(n as int, area, j),
            decreases n - k,
        {
            r.push(inset_wide(area, self.gap));
            k = k + 1;
        }
        r
    }

    /// Whether `arrange` may be called for `n` windows in `area`.
    pub fn can_arrange(&self, n: usize, area: Rect) -> (r: bool)
        ensures
            r == self.arrangeable(n as nat, area),
    {
        let cells = self.cells(n, area);
        let r = all_narrow(&cells);
        proof {
            if r {
                assert forall|k: int| 0 <= k < n implies (#[trigger] self.cell(
                    n as int,
                    area,
                    k,
                )).fits() by {
                    assert(cells@[k]@.fits());
                }
            }
        }
        r
    }
}

impl Layout for MonocleLayout {
    open spec fn wf(&self) -> bool {
        true
    }

    open spec fn arrangeable(&self, count: nat, area: Rect) -> bool {
        forall|k: int| 0 <= k < count ==> (#[trigger] self.cell(count as int, area, k)).fits()
    }

    fn name(&self) -> (r: &str)
        ensures
            r@ == "monocle"@,
    {
        "monocle"
    }

    fn arrange(&self, windows: &[WindowId], area: Rect) -> (r: Vec<Placement>)
        ensures
            arranged(
                r@,
                windows@,
                |k: int| k,
                |k: int| self.cell(windows@.len() as int, area, k),
            ),
    {
        let cells = self.cells(windows.len(), area);
        place_in_order(windows, &cells)
    }

    fn set_gap(&mut self, gap: i32) -> (changed: bool)
        ensures
            changed == (old(self).gap != gap),
            final(self).gap == gap,
    {
        if self.gap != gap {
            self.gap = gap;
            true
        } else {
            false
        }
    }

    fn gap(&self) -> (gap: i32)
        ensures
            gap == self.gap,
    {
        self.gap
    }
}

} // verus!
