//! Dwindle layout.

use crate::tiling::ratio::{
    grown, lemma_grown_bounds, lemma_shrunk_bounds, scaled, shrunk, RATIO_MAX, RATIO_MIN, Ratio,
};
use crate::tiling::{
    all_narrow, arranged, fits_i32, in_i32, inset, inset_wide, place_in_order, tdiv, truncating_div, Cell, Layout, Placement, Rect,
    WideRect, WindowId,
};
use vstd::prelude::*;

verus! {

/// Dwindle layout: each window splits the remaining space in alternating directions
/// (horizontal, vertical, horizontal, ...). The first window gets the larger portion, each
/// subsequent window subdivides the remainder.
#[derive(Debug, Clone, Copy, PartialEq, Eq, Structural)]
pub struct DwindleLayout {
    pub main_ratio: Ratio,
    pub gap: i32,
}

impl Default for DwindleLayout {
    fn default() -> (r: Self)
        ensures
            r.main_ratio.units == 79263353441720736,
            r.gap == 4,
            r.wf(),
    {
        // 0.55
        DwindleLayout { main_ratio: Ratio { units: 79263353441720736 }, gap: 4 }
    }
}

impl DwindleLayout {
    /// What window `k` takes of an extent: the master ratio for the first, then half.
    pub open spec fn part(&self, k: int, extent: int) -> int {
        if k == 0 {
            scaled(extent, self.main_ratio@)
        } else {
            tdiv(extent, 2)
        }
    }

    /// The space that is left when `k` windows have been placed.
    pub open spec fn rest(&self, area: Rect, k: nat) -> Cell
        decreases k,
    {
        let g = self.gap as int;
        if k == 0 {
            inset(area, g)
        } else {
            let i = (k - 1) as nat;
            let before = self.rest(area, i);
            if i % 2 == 0 {
                let taken = self.part(i as int, before.width) + g;
                Cell { x: before.x + taken, width: before.width - taken, ..before }
            } else {
                let taken = self.part(i as int, before.height) + g;
                Cell { y: before.y + taken, height: before.height - taken, ..before }
            }
        }
    }

    /// Where window `k` of `n` goes: the last one takes all that is left.
    pub open spec fn cell(&self, n: int, area: Rect, k: int) -> Cell {
        let rest = self.rest(area, k as nat);
        if k == n - 1 {
            rest
        } else if k % 2 == 0 {
            Cell { width: self.part(k, rest.width), ..rest }
        } else {
            Cell { height: self.part(k, rest.height), ..rest }
        }
    }

    fn cells(&self, n: usize, area: Rect) -> (r: Vec<WideRect>)
        requires
            self.wf(),
            n >= 2 ==> in_i32(area.width - 2 * self.gap),
        ensures
            r@.len() == n,
            forall|k: int| 0 <= k < n ==> (#[trigger] r@[k])@ == self.cell(n as int, area, k),
    {
        let mut r: Vec<WideRect> = Vec::with_capacity(n);
        let g: i64 = self.gap as i64;
        let whole: WideRect = inset_wide(area, self.gap);
        let mut rest: WideRect = whole;
        let mut k: usize = 0;
        while k < n
            invariant
                self.wf(),
                n >= 2 ==> in_i32(area.width - 2 * self.gap),
                g == self.gap,
                whole@ == inset(area, self.gap as int),
                k <= n,
                r@.len() == k,
                k < n ==> rest@ == self.rest(area, k as nat),
                rest.x + rest.width == whole.x + whole.width,
                rest.y + rest.height == whole.y + whole.height,
                -0x4_0000_0000 <= rest.width <= 0x4_0000_0000,
                -0x4_0000_0000 <= rest.height <= 0x4_0000_0000,
                forall|j: int| 0 <= j < k ==> (#[trigger] r@[j])@ == self.cell(n as int, area, j),
            decreases n - k,
        {
            if k == n - 1 {
                r.push(rest);
            } else if k % 2 == 0 {
                let w: i64 = if k == 0 {
                    self.main_ratio.scale(rest.width as i32) as i64
                } else {
                    truncating_div(rest.width, 2)
                };
                r.push(WideRect { x: rest.x, y: rest.y, width: w, height: rest.height });
                rest = WideRect {
                    x: rest.x + (w + g),
                    y: rest.y,
                    width: rest.width - (w + g),
                    height: rest.height,
                };
            } else {
                let h: i64 = truncating_div(rest.height, 2);
                r.push(WideRect { x: rest.x, y: rest.y, width: rest.width, height: h });
                rest = WideRect {
                    x: rest.x,
                    y: rest.y + (h + g),
                    width: rest.width,
                    height: rest.height - (h + g),
                };
            }
            k = k + 1;
        }
        r
    }

    /// Whether `arrange` may be called for `n` windows in `area`.
    pub fn can_arrange(&self, n: usize, area: Rect) -> (r: bool)
        requires
            self.wf(),
        ensures
            r == self.arrangeable(n as nat, area),
    {
        if n >= 2 && !fits_i32(area.width as i64 - 2 * self.gap as i64) {
            return false;
        }
        let cells = self.cells(n, area);
        let r = all_narrow(&cells);
        proof {
            if r {
                assert forall|k: int| 0 <= k < n implies (#[trigger] self.cell(
                    n as int,
                    area,
                    k,
                )).fits() by {
                    assert(cells@[k]@.fits());
                }
            }
        }
        r
    }
}

impl Layout for DwindleLayout {
    open spec fn wf(&self) -> bool {
        self.main_ratio.wf()
    }

    open spec fn arrangeable(&self, count: nat, area: Rect) -> bool {
        &&& self.wf()
        &&& count >= 2 ==> in_i32(area.width - 2 * self.gap)
        &&& forall|k: int| 0 <= k < count ==> (#[trigger] self.cell(count as int, area, k)).fits()
    }

    fn name(&self) -> (r: &str)
        ensures
            r@ == "dwindle"@,
    {
        "dwindle"
    }

    fn arrange(&self, windows: &[WindowId], area: Rect) -> (r: Vec<Placement>)
        ensures
            arranged(
                r@,
                windows@,
                |k: int| k,
                |k: int| self.cell(windows@.len() as int, area, k),
            ),
    {
        let cells = self.cells(windows.len(), area);
        place_in_order(windows, &cells)
    }

    fn grow_master(&mut self) -> (changed: bool)
        ensures
            changed == (old(self).main_ratio@ < RATIO_MAX),
            final(self).main_ratio@ == if changed {
                grown(old(self).main_ratio@)
            } else {
                old(self).main_ratio@
            },
            changed ==> old(self).main_ratio@ < final(self).main_ratio@ <= RATIO_MAX,
            final(self).gap == old(self).gap,
            final(self).wf(),
    {
        if self.main_ratio.units < RATIO_MAX {
            proof {
                lemma_grown_bounds(self.main_ratio@);
            }
            self.main_ratio = self.main_ratio.grow();
            true
        } else {
            false
        }
    }

    fn shrink_master(&mut self) -> (changed: bool)
        ensures
            changed == (old(self).main_ratio@ > RATIO_MIN),
            final(self).main_ratio@ == if changed {
                shrunk(old(self).main_ratio@)
            } else {
                old(self).main_ratio@
            },
            changed ==> RATIO_MIN <= final(self).main_ratio@ < old(self).main_ratio@,
            final(self).gap == old(self).gap,
            final(self).wf(),
    {
        if self.main_ratio.units > RATIO_MIN {
            proof {
                lemma_shrunk_bounds(self.main_ratio@);
            }
            self.main_ratio = self.main_ratio.shrink();
            true
        } else {
            false
        }
    }

    fn master_ratio(&self) -> (ratio: Option<Ratio>)
        ensures
            ratio == Some(self.main_ratio),
    {
        Some(self.main_ratio)
    }

    fn set_gap(&mut self, gap: i32) -> (changed: bool)
        ensures
            changed == (old(self).gap != gap),
            final(self).gap == gap,
            final(self).main_ratio == old(self).main_ratio,
    {
        if self.gap != gap {
            self.gap = gap;
            true
        } else {
            false
        }
    }

    fn gap(&self) -> (gap: i32)
        ensures
            gap == self.gap,
    {
        self.gap
    }
}

} // verus!
