//! Layout algorithms: where each window of a workspace goes on an output.

pub mod centered;
pub mod column;
pub mod cover;
pub mod dwindle;
pub mod grid;
pub mod laws;
pub mod monocle;
pub mod ratio;
pub mod stacked;

use crate::tiling::ratio::Ratio;
use vstd::prelude::*;

verus! {

/// A rectangle in logical coordinates.
#[derive(Debug, Clone, Copy, PartialEq, Eq, Structural)]
pub struct Rect {
    pub x: i32,
    pub y: i32,
    pub width: i32,
    pub height: i32,
}

/// Identifies a window for layout purposes.
#[derive(Debug, Clone, Copy, PartialEq, Eq, Hash, Structural)]
pub struct WindowId(pub u64);

/// A positioned window: what a layout hands out.
#[derive(Debug, Clone, Copy, PartialEq, Eq, Structural)]
pub struct Placement {
    pub id: WindowId,
    pub rect: Rect,
}

/// A rectangle with coordinates of any size.
pub struct Cell {
    pub x: int,
    pub y: int,
    pub width: int,
    pub height: int,
}

impl Rect {
    pub open spec fn view(&self) -> Cell {
        Cell {
            x: self.x as int,
            y: self.y as int,
            width: self.width as int,
            height: self.height as int,
        }
    }
}

impl Cell {
    /// Every coordinate fits in an `i32`.
    pub open spec fn fits(&self) -> bool {
        &&& in_i32(self.x)
        &&& in_i32(self.y)
        &&& in_i32(self.width)
        &&& in_i32(self.height)
    }

    /// No point lies in both rectangles.
    pub open spec fn disjoint(&self, other: Cell) -> bool {
        ||| self.x + self.width <= other.x
        ||| other.x + other.width <= self.x
        ||| self.y + self.height <= other.y
        ||| other.y + other.height <= self.y
    }

    /// The rectangle lies inside `outer`.
    pub open spec fn inside(&self, outer: Cell) -> bool {
        &&& outer.x <= self.x
        &&& outer.y <= self.y
        &&& self.x + self.width <= outer.x + outer.width
        &&& self.y + self.height <= outer.y + outer.height
    }
}

pub open spec fn in_i32(v: int) -> bool {
    i32::MIN <= v <= i32::MAX
}

/// Division cut off toward zero.
pub open spec fn tdiv(a: int, b: int) -> int {
    if a >= 0 {
        a / b
    } else {
        -((-a) / b)
    }
}

/// The area without a gap of `g` along each edge.
pub open spec fn inset(area: Rect, g: int) -> Cell {
    Cell { x: area.x + g, y: area.y + g, width: area.width - 2 * g, height: area.height - 2 * g }
}

/// Height of each of `count` cells stacked with gaps of `g` in `height`.
pub open spec fn stack_height(height: int, g: int, count: int) -> int {
    tdiv(height - (count - 1) * g, count)
}

/// Cell `i` of `count` cells of one width stacked from the top of the inset area to its bottom.
/// The last one takes what is left.
pub open spec fn stack_cell(area: Rect, g: int, x: int, width: int, count: int, i: int) -> Cell {
    let h = stack_height(area.height - 2 * g, g, count);
    let y = area.y + g + i * (h + g);
    Cell {
        x,
        y,
        width,
        height: if i == count - 1 {
            area.y + area.height - g - y
        } else {
            h
        },
    }
}

/// `r` holds, for each `k`, the window `windows[order(k)]` at `cells(k)`.
pub open spec fn arranged(
    r: Seq<Placement>,
    windows: Seq<WindowId>,
    order: spec_fn(int) -> int,
    cells: spec_fn(int) -> Cell,
) -> bool {
    &&& r.len() == windows.len()
    &&& forall|k: int|
        0 <= k < r.len() ==> (#[trigger] r[k]).id == windows[order(k)] && r[k].rect@ == cells(k)
}

/// Layout algorithms take a list of window ids and an output area, and return where each
/// window should go.
pub trait Layout: Sized {
    /// What holds of the layout's parameters at all times.
    spec fn wf(&self) -> bool;

    /// The numbers of windows and the areas for which `arrange` may be called.
    spec fn arrangeable(&self, count: nat, area: Rect) -> bool;

    /// Layout name for IPC and display purposes.
    fn name(&self) -> &str;

    fn arrange(&self, windows: &[WindowId], area: Rect) -> Vec<Placement>
        requires
            self.arrangeable(windows@.len(), area),
    ;

    /// Increase the master area ratio by a step. Returns true if changed.
    fn grow_master(&mut self) -> (changed: bool)
        requires
            old(self).wf(),
        default_ensures
            !changed,
            *final(self) == *old(self),
    {
        false
    }

    /// Decrease the master area ratio by a step. Returns true if changed.
    fn shrink_master(&mut self) -> (changed: bool)
        requires
            old(self).wf(),
        default_ensures
            !changed,
            *final(self) == *old(self),
    {
        false
    }

    /// Current master ratio, if applicable.
    fn master_ratio(&self) -> (ratio: Option<Ratio>)
        default_ensures
            ratio is None,
    {
        None
    }

    /// Set the gap between windows. Returns true if changed.
    fn set_gap(&mut self, _gap: i32) -> (changed: bool)
        requires
            old(self).wf(),
        default_ensures
            !changed,
            *final(self) == *old(self),
    {
        false
    }

    /// Current gap in pixels.
    fn gap(&self) -> (gap: i32)
        default_ensures
            gap == 0,
    {
        0
    }
}

/// A rectangle with room for every intermediate value of a layout.
#[derive(Debug, Clone, Copy, PartialEq, Eq, Structural)]
pub struct WideRect {
    pub x: i64,
    pub y: i64,
    pub width: i64,
    pub height: i64,
}

impl WideRect {
    pub open spec fn view(&self) -> Cell {
        Cell {
            x: self.x as int,
            y: self.y as int,
            width: self.width as int,
            height: self.height as int,
        }
    }

    /// The rectangle in 32-bit coordinates.
    pub fn narrow(&self) -> (r: Rect)
        requires
            self@.fits(),
        ensures
            r@ == self@,
    {
        Rect {
            x: self.x as i32,
            y: self.y as i32,
            width: self.width as i32,
            height: self.height as i32,
        }
    }

    /// Whether every coordinate fits in an `i32`.
    pub fn is_narrow(&self) -> (r: bool)
        ensures
            r == self@.fits(),
    {
        fits_i32(self.x) && fits_i32(self.y) && fits_i32(self.width) && fits_i32(self.height)
    }
}

/// Whether `v` fits in an `i32`.
pub fn fits_i32(v: i64) -> (r: bool)
    ensures
        r == in_i32(v as int),
{
    i32::MIN as i64 <= v && v <= i32::MAX as i64
}

/// Division cut off toward zero.
pub(crate) fn truncating_div(a: i64, b: i64) -> (r: i64)
    requires
        a > i64::MIN,
        b > 0,
    ensures
        r == tdiv(a as int, b as int),
        a >= 0 ==> 0 <= r <= a,
        a <= 0 ==> a <= r <= 0,
{
    if a >= 0 {
        assert(a as int / b as int <= a) by (nonlinear_arith)
            requires
                a >= 0,
                b > 0,
        ;
        a / b
    } else {
        let m: i64 = -a;
        assert(m as int / b as int <= m) by (nonlinear_arith)
            requires
                m >= 0,
                b > 0,
        ;
        -(m / b)
    }
}

/// The area without a gap of `g` along each edge.
pub(crate) fn inset_wide(area: Rect, g: i32) -> (r: WideRect)
    ensures
        r@ == inset(area, g as int),
{
    let g: i64 = g as i64;
    WideRect {
        x: area.x as i64 + g,
        y: area.y as i64 + g,
        width: area.width as i64 - 2 * g,
        height: area.height as i64 - 2 * g,
    }
}

/// Offsets into a stack stay close to the stack's own size.
pub(crate) proof fn lemma_stack_offset(height: int, g: int, count: int, i: int)
    requires
        1 <= count,
        0 <= i < count,
    ensures
        ({
            let offset = i * (stack_height(height, g, count) + g);
            let bound = (if height + g >= 0 {
                height + g
            } else {
                -(height + g)
            }) + count;
            -bound <= offset <= bound
        }),
{
    let t = height - (count - 1) * g;
    let h = stack_height(height, g, count);
    let bound = (if height + g >= 0 {
        height + g
    } else {
        -(height + g)
    }) + count;
    assert(t - count < count * h < t + count) by {
        if t >= 0 {
            vstd::arithmetic::div_mod::lemma_fundamental_div_mod(t, count);
            vstd::arithmetic::div_mod::lemma_mod_bound(t, count);
        } else {
            vstd::arithmetic::div_mod::lemma_fundamental_div_mod(-t, count);
            vstd::arithmetic::div_mod::lemma_mod_bound(-t, count);
            assert(count * (-((-t) / count)) == -(count * ((-t) / count))) by (nonlinear_arith);
        }
    }
    assert(count * (h + g) == count * h + count * g) by (nonlinear_arith);
    assert((count - 1) * g == count * g - g) by (nonlinear_arith);
    let s = h + g;
    assert(-bound <= count * s <= bound);
    assert(-bound <= i * s <= bound) by (nonlinear_arith)
        requires
            -bound <= count * s <= bound,
            0 <= i < count,
            bound >= 0,
    ;
}

/// Appends the `count` cells of a stack to `out`.
pub(crate) fn push_stack(area: Rect, g: i32, x: i64, width: i64, count: usize, out: &mut Vec<WideRect>)
    requires
        1 <= count <= i32::MAX,
    ensures
        final(out)@.len() == old(out)@.len() + count,
        forall|k: int| 0 <= k < old(out)@.len() ==> final(out)@[k] == old(out)@[k],
        forall|i: int|
            0 <= i < count ==> (#[trigger] final(out)@[old(out)@.len() + i])@ == stack_cell(
                area,
                g as int,
                x as int,
                width as int,
                count as int,
                i,
            ),
{
    let ghost before = out@;
    let wide_g: i64 = g as i64;
    let n: i64 = count as i64;
    let usable: i64 = area.height as i64 - 2 * wide_g;
    assert(-0x4000_0000_0000_0000 <= (n - 1) * wide_g <= 0x4000_0000_0000_0000) by (nonlinear_arith)
        requires
            1 <= n <= 0x7fff_ffff,
            -0x8000_0000 <= wide_g <= 0x7fff_ffff,
    ;
    let h: i64 = truncating_div(usable - (n - 1) * wide_g, n);
    let bottom: i64 = area.y as i64 + area.height as i64 - wide_g;
    let mut i: usize = 0;
    while i < count
        invariant
            1 <= count <= i32::MAX,
            n == count,
            wide_g == g,
            i <= count,
            h == stack_height(area.height - 2 * g, g as int, count as int),
            -0x7fff_0000_0000_0000 < h < 0x7fff_0000_0000_0000,
            bottom == area.y + area.height - g,
            out@.len() == before.len() + i,
            forall|k: int| 0 <= k < before.len() ==> out@[k] == before[k],
            forall|j: int|
                0 <= j < i ==> (#[trigger] out@[before.len() + j])@ == stack_cell(
                    area,
                    g as int,
                    x as int,
                    width as int,
                    count as int,
                    j,
                ),
        decreases count - i,
    {
        proof {
            lemma_stack_offset(area.height - 2 * g, g as int, count as int, i as int);
        }
        let offset: i64 = i as i64 * (h + wide_g);
        let y: i64 = area.y as i64 + wide_g + offset;
        let height: i64 = if i == count - 1 {
            bottom - y
        } else {
            h
        };
        out.push(WideRect { x, y, width, height });
        i = i + 1;
    }
}

/// Pairs each window with the cell of the same index.
pub(crate) fn place_in_order(windows: &[WindowId], cells: &Vec<WideRect>) -> (r: Vec<Placement>)
    requires
        cells@.len() == windows@.len(),
        forall|k: int| 0 <= k < cells@.len() ==> (#[trigger] cells@[k])@.fits(),
    ensures
        arranged(r@, windows@, |k: int| k, |k: int| cells@[k]@),
{
    let mut r: Vec<Placement> = Vec::with_capacity(windows.len());
    let mut k: usize = 0;
    while k < windows.len()
        invariant
            cells@.len() == windows@.len(),
            forall|k: int| 0 <= k < cells@.len() ==> (#[trigger] cells@[k])@.fits(),
            k <= windows@.len(),
            r@.len() == k,
            forall|j: int|
                0 <= j < k ==> (#[trigger] r@[j]).id == windows@[j] && r@[j].rect@ == cells@[j]@,
        decreases windows@.len() - k,
    {
        r.push(Placement { id: windows[k], rect: cells[k].narrow() });
        k = k + 1;
    }
    r
}

/// Whether every cell fits in 32-bit coordinates.
pub(crate) fn all_narrow(cells: &Vec<WideRect>) -> (r: bool)
    ensures
        r == (forall|k: int| 0 <= k < cells@.len() ==> (#[trigger] cells@[k])@.fits()),
{
    let mut k: usize = 0;
    while k < cells.len()
        invariant
            k <= cells@.len(),
            forall|j: int| 0 <= j < k ==> (#[trigger] cells@[j])@.fits(),
        decreases cells@.len() - k,
    {
        if !cells[k].is_narrow() {
            return false;
        }
        k = k + 1;
    }
    true
}

} // verus!
