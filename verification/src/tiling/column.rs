//! Master-stack layout.

use crate::tiling::ratio::{grown, lemma_grown_bounds, lemma_shrunk_bounds, scaled, shrunk, Ratio, RATIO_MAX, RATIO_MIN};
use crate::tiling::{
    all_narrow, arranged, fits_i32, in_i32, inset, inset_wide, place_in_order, push_stack, stack_cell, Cell, Layout, Placement,
    Rect, WideRect, WindowId,
};
use vstd::prelude::*;

verus! {

/// Master-stack layout: the first window takes the left portion, the remaining windows stack
/// vertically on the right.
#[derive(Debug, Clone, Copy, PartialEq, Eq, Structural)]
pub struct ColumnLayout {
    /// Fraction of the output width given to the master window.
    pub main_ratio: Ratio,
    /// Gap in pixels between windows and around the edges.
    pub gap: i32,
}

impl Default for ColumnLayout {
    fn default() -> (r: Self)
        ensures
            r.main_ratio.units == 79263353441720736,
            r.gap == 4,
            r.wf(),
    {
        // 0.55
        ColumnLayout { main_ratio: Ratio { units: 79263353441720736 }, gap: 4 }
    }
}

/// Width shared by the master and the stack.
pub open spec fn column_width(area: Rect, g: int) -> int {
    area.width - 3 * g
}

/// Width of the master window.
pub open spec fn column_main(area: Rect, g: int, units: nat) -> int {
    scaled(column_width(area, g), units)
}

impl ColumnLayout {
    /// Where window `k` of `n` goes.
    pub open spec fn cell(&self, n: int, area: Rect, k: int) -> Cell {
        let g = self.gap as int;
        let main = column_main(area, g, self.main_ratio@);
        if n == 1 {
            inset(area, g)
        } else if k == 0 {
            Cell { x: area.x + g, y: area.y + g, width: main, height: area.height - 2 * g }
        } else {
            stack_cell(
                area,
                g,
                area.x + g + main + g,
                column_width(area, g) - main,
                n - 1,
                k - 1,
            )
        }
    }

    fn cells(&self, n: usize, area: Rect) -> (r: Vec<WideRect>)
        requires
            self.wf(),
            n <= i32::MAX,
            n >= 2 ==> in_i32(column_width(area, self.gap as int)),
        ensures
            r@.len() == n,
            forall|k: int| 0 <= k < n ==> (#[trigger] r@[k])@ == self.cell(n as int, area, k),
    {
        let mut r: Vec<WideRect> = Vec::with_capacity(n);
        if n == 0 {
            return r;
        }
        if n == 1 {
            r.push(inset_wide(area, self.gap));
            return r;
        }
        let g: i64 = self.gap as i64;
        let usable: i64 = area.width as i64 - 3 * g;
        let main: i64 = self.main_ratio.scale(usable as i32) as i64;
        r.push(
            WideRect {
                x: area.x as i64 + g,
                y: area.y as i64 + g,
                width: main,
                height: area.height as i64 - 2 * g,
            },
        );
        push_stack(area, self.gap, area.x as i64 + g + main + g, usable - main, n - 1, &mut r);
        assert forall|k: int| 0 <= k < n implies (#[trigger] r@[k])@ == self.cell(
            n as int,
            area,
            k,
        ) by {
            if k > 0 {
                assert(r@[1 + (k - 1)] == r@[k]);
            }
        }
        r
    }

    /// Whether `arrange` may be called for `n` windows in `area`.
    pub fn can_arrange(&self, n: usize, area: Rect) -> (r: bool)
        requires
            self.wf(),
        ensures
            r == self.arrangeable(n as nat, area),
    {
        if n > i32::MAX as usize {
            return false;
        }
        if n >= 2 && !fits_i32(area.width as i64 - 3 * self.gap as i64) {
            return false;
        }
        let cells = self.cells(n, area);
        let r = all_narrow(&cells);
        proof {
            if r {
                assert forall|k: int| 0 <= k < n implies (#[trigger] self.cell(
                    n as int,
                    area,
                    k,
                )).fits() by {
                    assert(cells@[k]@.fits());
                }
            }
        }
        r
    }
}

impl Layout for ColumnLayout {
    open spec fn wf(&self) -> bool {
        self.main_ratio.wf()
    }

    open spec fn arrangeable(&self, count: nat, area: Rect) -> bool {
        &&& self.wf()
        &&& count <= i32::MAX
        &&& count >= 2 ==> in_i32(column_width(area, self.gap as int))
        &&& forall|k: int| 0 <= k < count ==> (#[trigger] self.cell(count as int, area, k)).fits()
    }

    fn name(&self) -> (r: &str)
        ensures
            r@ == "column"@,
    {
        "column"
    }

    fn arrange(&self, windows: &[WindowId], area: Rect) -> (r: Vec<Placement>)
        ensures
            arranged(
                r@,
                windows@,
                |k: int| k,
                |k: int| self.cell(windows@.len() as int, area, k),
            ),
    {
        let cells = self.cells(windows.len(), area);
        place_in_order(windows, &cells)
    }

    fn grow_master(&mut self) -> (changed: bool)
        ensures
            changed == (old(self).main_ratio@ < RATIO_MAX),
            final(self).main_ratio@ == if changed {
                grown(old(self).main_ratio@)
            } else {
                old(self).main_ratio@
            },
            changed ==> old(self).main_ratio@ < final(self).main_ratio@ <= RATIO_MAX,
            final(self).gap == old(self).gap,
            final(self).wf(),
    {
        if self.main_ratio.units < RATIO_MAX {
            proof {
                lemma_grown_bounds(self.main_ratio@);
            }
            self.main_ratio = self.main_ratio.grow();
            true
        } else {
            false
        }
    }

    fn shrink_master(&mut self) -> (changed: bool)
        ensures
            changed == (old(self).main_ratio@ > RATIO_MIN),
            final(self).main_ratio@ == if changed {
                shrunk(old(self).main_ratio@)
            } else {
                old(self).main_ratio@
            },
            changed ==> RATIO_MIN <= final(self).main_ratio@ < old(self).main_ratio@,
            final(self).gap == old(self).gap,
            final(self).wf(),
    {
        if self.main_ratio.units > RATIO_MIN {
            proof {
                lemma_shrunk_bounds(self.main_ratio@);
            }
            self.main_ratio = self.main_ratio.shrink();
            true
        } else {
            false
        }
    }

    fn master_ratio(&self) -> (ratio: Option<Ratio>)
        ensures
            ratio == Some(self.main_ratio),
    {
        Some(self.main_ratio)
    }

    fn set_gap(&mut self, gap: i32) -> (changed: bool)
        ensures
            changed == (old(self).gap != gap),
            final(self).gap == gap,
            final(self).main_ratio == old(self).main_ratio,
    {
        if self.gap != gap {
            self.gap = gap;
            true
        } else {
            false
        }
    }

    fn gap(&self) -> (gap: i32)
        ensures
            gap == self.gap,
    {
        self.gap
    }
}

} // verus!
