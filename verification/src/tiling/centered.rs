//! Centered master layout.

use crate::tiling::ratio::{grown, lemma_grown_bounds, lemma_shrunk_bounds, scaled, shrunk, Ratio, RATIO_MAX, RATIO_MIN};
use crate::tiling::{
    all_narrow, arranged, fits_i32, in_i32, inset, inset_wide, push_stack, stack_cell, tdiv, truncating_div, Cell, Layout, Placement,
    Rect, WideRect, WindowId,
};
use vstd::prelude::*;

verus! {

/// Centered master layout: the master window in the center, the stack windows split evenly on
/// the left and right sides.
#[derive(Debug, Clone, Copy, PartialEq, Eq, Structural)]
pub struct CenteredMasterLayout {
    pub main_ratio: Ratio,
    pub gap: i32,
}

impl Default for CenteredMasterLayout {
    fn default() -> (r: Self)
        ensures
            r.main_ratio.units == 72057594037927936,
            r.gap == 4,
            r.wf(),
    {
        // 0.50
        CenteredMasterLayout { main_ratio: Ratio { units: 72057594037927936 }, gap: 4 }
    }
}

/// Number of stack windows on the left, for `n` windows in all.
pub open spec fn left_count(n: int) -> int {
    n / 2
}

/// Index of the window in placement `k` of `n`: the master, then the left stack (every second
/// window after the master), then the right stack.
pub open spec fn centered_order(n: int, k: int) -> int {
    if n <= 2 || k == 0 {
        k
    } else if k <= left_count(n) {
        2 * k - 1
    } else {
        2 * (k - left_count(n))
    }
}

impl CenteredMasterLayout {
    /// Width shared by the columns.
    pub open spec fn usable_width(&self, n: int, area: Rect) -> int {
        area.width - (if n <= 2 {
            3
        } else {
            4int
        }) * self.gap
    }

    /// Where placement `k` of `n` lies.
    pub open spec fn cell(&self, n: int, area: Rect, k: int) -> Cell {
        let g = self.gap as int;
        let usable = self.usable_width(n, area);
        let main = scaled(usable, self.main_ratio@);
        let height = area.height - 2 * g;
        let side = tdiv(usable - main, 2);
        let master_x = area.x + g + side + g;
        if n == 1 {
            inset(area, g)
        } else if n == 2 {
            if k == 0 {
                Cell { x: area.x + g, y: area.y + g, width: main, height }
            } else {
                Cell { x: area.x + g + main + g, y: area.y + g, width: usable - main, height }
            }
        } else if k == 0 {
            Cell { x: master_x, y: area.y + g, width: main, height }
        } else if k <= left_count(n) {
            stack_cell(area, g, area.x + g, side, left_count(n), k - 1)
        } else {
            stack_cell(
                area,
                g,
                master_x + main + g,
                side,
                n - 1 - left_count(n),
                k - 1 - left_count(n),
            )
        }
    }

    fn cells(&self, n: usize, area: Rect) -> (r: Vec<WideRect>)
        requires
            self.wf(),
            n <= i32::MAX,
            n >= 2 ==> in_i32(self.usable_width(n as int, area)),
        ensures
            r@.len() == n,
            forall|k: int| 0 <= k < n ==> (#[trigger] r@[k])@ == self.cell(n as int, area, k),
    {
        let mut r: Vec<WideRect> = Vec::with_capacity(n);
        if n == 0 {
            return r;
        }
        let whole: WideRect = inset_wide(area, self.gap);
        if n == 1 {
            r.push(whole);
            return r;
        }
        let g: i64 = self.gap as i64;
        if n == 2 {
            let usable: i64 = area.width as i64 - 3 * g;
            let main: i64 = self.main_ratio.scale(usable as i32) as i64;
            r.push(WideRect { x: whole.x, y: whole.y, width: main, height: whole.height });
            r.push(
                WideRect {
                    x: whole.x + main + g,
                    y: whole.y,
                    width: usable - main,
                    height: whole.height,
                },
            );
            return r;
        }
        let usable: i64 = area.width as i64 - 4 * g;
        let main: i64 = self.main_ratio.scale(usable as i32) as i64;
        let side: i64 = truncating_div(usable - main, 2);
        let master_x: i64 = whole.x + side + g;
        r.push(WideRect { x: master_x, y: whole.y, width: main, height: whole.height });
        let left: usize = n / 2;
        push_stack(area, self.gap, whole.x, side, left, &mut r);
        let ghost half = r@;
        push_stack(area, self.gap, master_x + main + g, side, n - 1 - left, &mut r);
        assert forall|k: int| 0 <= k < n implies (#[trigger] r@[k])@ == self.cell(
            n as int,
            area,
            k,
        ) by {
            if 0 < k <= left {
                assert(half[1 + (k - 1)] == r@[k]);
            } else if k > left {
                assert(r@[half.len() + (k - 1 - left)] == r@[k]);
            }
        }
        r
    }

    /// Whether `arrange` may be called for `n` windows in `area`.
    pub fn can_arrange(&self, n: usize, area: Rect) -> (r: bool)
        requires
            self.wf(),
        ensures
            r == self.arrangeable(n as nat, area),
    {
        if n > i32::MAX as usize {
            return false;
        }
        let gaps: i64 = if n <= 2 {
            3
        } else {
            4
        };
        if n >= 2 && !fits_i32(area.width as i64 - gaps * self.gap as i64) {
            return false;
        }
        let cells = self.cells(n, area);
        let r = all_narrow(&cells);
        proof {
            if r {
                assert forall|k: int| 0 <= k < n implies (#[trigger] self.cell(
                    n as int,
                    area,
                    k,
                )).fits() by {
                    assert(cells@[k]@.fits());
                }
            }
        }
        r
    }
}

impl Layout for CenteredMasterLayout {
    open spec fn wf(&self) -> bool {
        self.main_ratio.wf()
    }

    open spec fn arrangeable(&self, count: nat, area: Rect) -> bool {
        &&& self.wf()
        &&& count <= i32::MAX
        &&& count >= 2 ==> in_i32(self.usable_width(count as int, area))
        &&& forall|k: int| 0 <= k < count ==> (#[trigger] self.cell(count as int, area, k)).fits()
    }

    fn name(&self) -> (r: &str)
        ensures
            r@ == "centered"@,
    {
        "centered"
    }

    fn arrange(&self, windows: &[WindowId], area: Rect) -> (r: Vec<Placement>)
        ensures
            arranged(
                r@,
                windows@,
                |k: int| centered_order(windows@.len() as int, k),
                |k: int| self.cell(windows@.len() as int, area, k),
            ),
    {
        let n: usize = windows.len();
        let cells = self.cells(n, area);
        let mut r: Vec<Placement> = Vec::with_capacity(n);
        let left: usize = n / 2;
        let mut k: usize = 0;
        while k < n
            invariant
                n == windows@.len(),
                left == n / 2,
                cells@.len() == n,
                self.arrangeable(n as nat, area),
                forall|k: int|
                    0 <= k < n ==> (#[trigger] cells@[k])@ == self.cell(n as int, area, k),
                k <= n,
                r@.len() == k,
                forall|j: int|
                    0 <= j < k ==> (#[trigger] r@[j]).id == windows@[centered_order(n as int, j)]
                        && r@[j].rect@ == self.cell(n as int, area, j),
            decreases n - k,
        {
            let index: usize = if n <= 2 || k == 0 {
                k
            } else if k <= left {
                k + (k - 1)
            } else {
                (k - left) + (k - left)
            };
            r.push(Placement { id: windows[index], rect: cells[k].narrow() });
            k = k + 1;
        }
        r
    }

    fn grow_master(&mut self) -> (changed: bool)
        ensures
            changed == (old(self).main_ratio@ < RATIO_MAX),
            final(self).main_ratio@ == if changed {
                grown(old(self).main_ratio@)
            } else {
                old(self).main_ratio@
            },
            changed ==> old(self).main_ratio@ < final(self).main_ratio@ <= RATIO_MAX,
            final(self).gap == old(self).gap,
            final(self).wf(),
    {
        if self.main_ratio.units < RATIO_MAX {
            proof {
                lemma_grown_bounds(self.main_ratio@);
            }
            self.main_ratio = self.main_ratio.grow();
            true
        } else {
            false
        }
    }

    fn shrink_master(&mut self) -> (changed: bool)
        ensures
            changed == (old(self).main_ratio@ > RATIO_MIN),
            final(self).main_ratio@ == if changed {
                shrunk(old(self).main_ratio@)
            } else {
                old(self).main_ratio@
            },
            changed ==> RATIO_MIN <= final(self).main_ratio@ < old(self).main_ratio@,
            final(self).gap == old(self).gap,
            final(self).wf(),
    {
        if self.main_ratio.units > RATIO_MIN {
            proof {
                lemma_shrunk_bounds(self.main_ratio@);
            }
            self.main_ratio = self.main_ratio.shrink();
            true
        } else {
            false
        }
    }

    fn master_ratio(&self) -> (ratio: Option<Ratio>)
        ensures
            ratio == Some(self.main_ratio),
    {
        Some(self.main_ratio)
    }

    fn set_gap(&mut self, gap: i32) -> (changed: bool)
        ensures
            changed == (old(self).gap != gap),
            final(self).gap == gap,
            final(self).main_ratio == old(self).main_ratio,
    {
        if self.gap != gap {
            self.gap = gap;
            true
        } else {
            false
        }
    }

    fn gap(&self) -> (gap: i32)
        ensures
            gap == self.gap,
    {
        self.gap
    }
}

} // verus!
