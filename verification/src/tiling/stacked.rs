//! Stacked layout.

use crate::tiling::{
    all_narrow, arranged, inset, inset_wide, place_in_order, Cell, Layout, Placement, Rect, WideRect, WindowId,
};
use vstd::prelude::*;

verus! {

/// Stacked layout: windows are stacked vertically with title bar slots visible at the top, and
/// the focused (first) window takes the remaining space below.
#[derive(Debug, Clone, Copy, PartialEq, Eq, Structural)]
pub struct StackedLayout {
    /// Height of each title bar slot in pixels.
    pub tab_height: i32,
    /// Gap in pixels around the edges.
    pub gap: i32,
}

impl Default for StackedLayout {
    fn default() -> (r: Self)
        ensures
            r.tab_height == 24,
            r.gap == 4,
    {
        StackedLayout { tab_height: 24, gap: 4 }
    }
}

impl StackedLayout {
    /// Where window `k` of `n` goes.
    pub open spec fn cell(&self, n: int, area: Rect, k: int) -> Cell {
        let g = self.gap as int;
        let tabs = (n - 1) * self.tab_height;
        let rest = area.height - 2 * g - tabs;
        if n == 1 {
            inset(area, g)
        } else if k == 0 {
            Cell {
                x: area.x + g,
                y: area.y + g + tabs,
                width: area.width - 2 * g,
                height: if rest > 1 {
                    rest
                } else {
                    1
                },
            }
        } else {
            Cell {
                x: area.x + g,
                y: area.y + g + (k - 1) * self.tab_height,
                width: area.width - 2 * g,
                height: self.tab_height as int,
            }
        }
    }

    fn cells(&self, n: usize, area: Rect) -> (r: Vec<WideRect>)
        requires
            n <= i32::MAX,
        ensures
            r@.len() == n,
            forall|k: int| 0 <= k < n ==> (#[trigger] r@[k])@ == self.cell(n as int, area, k),
    {
        let mut r: Vec<WideRect> = Vec::with_capacity(n);
        if n == 0 {
            return r;
        }
        let whole: WideRect = inset_wide(area, self.gap);
        if n == 1 {
            r.push(whole);
            return r;
        }
        let slot: i64 = self.tab_height as i64;
        assert(-0x4000_0000_0000_0000 <= (n - 1) * slot <= 0x4000_0000_0000_0000) by (nonlinear_arith)
            requires
                1 <= n <= 0x7fff_ffff,
                -0x8000_0000 <= slot <= 0x7fff_ffff,
        ;
        let tabs: i64 = (n as i64 - 1) * slot;
        let rest: i64 = whole.height - tabs;
        r.push(
            WideRect {
                x: whole.x,
                y: whole.y + tabs,
                width: whole.width,
                height: if rest > 1 {
                    rest
                } else {
                    1
                },
            },
        );
        let mut k: usize = 1;
        while k < n
            invariant
                1 <= k <= n <= i32::MAX,
                2 <= n,
                slot == self.tab_height,
                whole@ == inset(area, self.gap as int),
                r@.len() == k,
                forall|j: int| 0 <= j < k ==> (#[trigger] r@[j])@ == self.cell(n as int, area, j),
            decreases n - k,
        {
            assert(-0x4000_0000_0000_0000 <= (k - 1) * slot <= 0x4000_0000_0000_0000)
                by (nonlinear_arith)
                requires
                    1 <= k <= 0x7fff_ffff,
                    -0x8000_0000 <= slot <= 0x7fff_ffff,
            ;
            r.push(
                WideRect {
                    x: whole.x,
                    y: whole.y + (k as i64 - 1) * slot,
                    width: whole.width,
                    height: slot,
                },
            );
            k = k + 1;
        }
        r
    }

    /// Whether `arrange` may be called for `n` windows in `area`.
    pub fn can_arrange(&self, n: usize, area: Rect) -> (r: bool)
        ensures
            r == self.arrangeable(n as nat, area),
    {
        if n > i32::MAX as usize {
            return false;
        }
        let cells = self.cells(n, area);
        let r = all_narrow(&cells);
        proof {
            if r {
                assert forall|k: int| 0 <= k < n implies (#[trigger] self.cell(
                    n as int,
                    area,
                    k,
                )).fits() by {
                    assert(cells@[k]@.fits());
                }
            }
        }
        r
    }
}

impl Layout for StackedLayout {
    open spec fn wf(&self) -> bool {
        true
    }

    open spec fn arrangeable(&self, count: nat, area: Rect) -> bool {
        &&& count <= i32::MAX
        &&& forall|k: int| 0 <= k < count ==> (#[trigger] self.cell(count as int, area, k)).fits()
    }

    fn name(&self) -> (r: &str)
        ensures
            r@ == "stacked"@,
    {
        "stacked"
    }

    fn arrange(&self, windows: &[WindowId], area: Rect) -> (r: Vec<Placement>)
        ensures
            arranged(
                r@,
                windows@,
                |k: int| k,
                |k: int| self.cell(windows@.len() as int, area, k),
            ),
    {
        let cells = self.cells(windows.len(), area);
        place_in_order(windows, &cells)
    }

    fn set_gap(&mut self, gap: i32) -> (changed: bool)
        ensures
            changed == (old(self).gap != gap),
            final(self).gap == gap,
            final(self).tab_height == old(self).tab_height,
    {
        if self.gap != gap {
            self.gap = gap;
            true
        } else {
            false
        }
    }

    fn gap(&self) -> (gap: i32)
        ensures
            gap == self.gap,
    {
        self.gap
    }
}

} // verus!
