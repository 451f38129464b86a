//! What the layouts do with the windows and the area that they are given, said of the places that come
//! out: which window gets which part, how large the parts are, and that they meet at the gaps.

use crate::tiling::centered::{centered_order, CenteredMasterLayout};
use crate::tiling::column::ColumnLayout;
use crate::tiling::cover::lemma_rest_ends;
use crate::tiling::dwindle::DwindleLayout;
use crate::tiling::grid;
use crate::tiling::monocle::MonocleLayout;
use crate::tiling::ratio::{lemma_scaled_is_the_share, lemma_scaled_within, lemma_steps_are_twentieths};
use crate::tiling::stacked::StackedLayout;
use crate::tiling::{arranged, inset, stack_cell, stack_height, tdiv, Layout, Placement, Rect, WindowId};
use vstd::prelude::*;

verus! {

/// `part` is the share of `whole` that a number of units of 2^-57 stands for, cut off to whole pixels.
/// Rounding may move the share by 2^-22 of a pixel before that.
pub open spec fn is_share(part: int, whole: int, units: u64) -> bool {
    &&& part * 0x200_0000_0000_0000 <= whole * units + 0x8_0000_0000
    &&& whole * units < (part + 1) * 0x200_0000_0000_0000 + 0x8_0000_0000
}

/// A rectangle that keeps a gap to every edge of an area, and fills what is between.
pub open spec fn fills(r: Rect, area: Rect, gap: int) -> bool {
    &&& r.x == area.x + gap
    &&& r.y == area.y + gap
    &&& r.x + r.width == area.x + area.width - gap
    &&& r.y + r.height == area.y + area.height - gap
}

/// A rectangle that keeps a gap to the upper and the lower edge of an area.
pub open spec fn full_height(r: Rect, area: Rect, gap: int) -> bool {
    &&& r.y == area.y + gap
    &&& r.y + r.height == area.y + area.height - gap
}

/// The places from `first` up to `end` stand one below the other, from the upper to the lower edge of
/// an area, with gaps around and between them. They are equally high, but for the last, which has the
/// pixels that are left over.
pub open spec fn is_column(r: Seq<Placement>, area: Rect, gap: int, first: int, end: int) -> bool {
    &&& r[first].rect.y == area.y + gap
    &&& r[end - 1].rect.y + r[end - 1].rect.height == area.y + area.height - gap
    &&& forall|k: int|
        first < k < end ==> (#[trigger] r[k]).rect.y == r[k - 1].rect.y + r[k - 1].rect.height + gap
    &&& forall|k: int|
        first < k < end - 1 ==> (#[trigger] r[k]).rect.height == r[first].rect.height
    &&& area.height - (end - first + 1) * gap >= 0 ==> r[first].rect.height <= r[end - 1].rect.height
        < r[first].rect.height + (end - first)
}

/// The cells of a stack make a column.
proof fn lemma_stack_is_column(
    r: Seq<Placement>,
    area: Rect,
    gap: int,
    x: int,
    width: int,
    first: int,
    count: int,
)
    requires
        0 <= first,
        1 <= count,
        first + count <= r.len(),
        forall|i: int|
            0 <= i < count ==> (#[trigger] r[first + i]).rect@ == stack_cell(
                area,
                gap,
                x,
                width,
                count,
                i,
            ),
    ensures
        is_column(r, area, gap, first, first + count),
        forall|k: int|
            first <= k < first + count ==> (#[trigger] r[k]).rect.x == x && r[k].rect.width == width,
{
    let h = stack_height(area.height - 2 * gap, gap, count);
    let s = h + gap;
    let end = first + count;
    assert forall|k: int| first <= k < end implies {
        &&& (#[trigger] r[k]).rect.x == x
        &&& r[k].rect.width == width
        &&& r[k].rect.y == area.y + gap + (k - first) * s
        &&& k < end - 1 ==> r[k].rect.height == h
        &&& k == end - 1 ==> r[k].rect.y + r[k].rect.height == area.y + area.height - gap
    } by {
        assert(r[first + (k - first)].rect@ == stack_cell(
            area,
            gap,
            x,
            width,
            count,
            k - first,
        ));
    }
    assert forall|k: int| first < k < end implies (#[trigger] r[k]).rect.y == r[k - 1].rect.y
        + r[k - 1].rect.height + gap by {
        assert(r[k - 1].rect.height == h);
        assert((k - first) * s == (k - 1 - first) * s + s) by (nonlinear_arith);
    }
    assert(r[first].rect.y == area.y + gap + 0 * s);
    let t = area.height - 2 * gap - (count - 1) * gap;
    assert((count - 1) * gap + 2 * gap == (count + 1) * gap) by (nonlinear_arith);
    if t >= 0 {
        vstd::arithmetic::div_mod::lemma_fundamental_div_mod(t, count);
        vstd::arithmetic::div_mod::lemma_mod_bound(t, count);
        let last = r[end - 1].rect;
        assert((count - 1) * s == (count - 1) * h + (count - 1) * gap) by (nonlinear_arith)
            requires
                s == h + gap,
        ;
        assert((count - 1) * h == count * h - h) by (nonlinear_arith);
        assert(last.height == t - count * h + h);
    }
}

/// Master and stack: the first window stands on the left, over the whole height, and is as wide as the
/// master ratio says of the width without the gaps. The others share the rest in one column on the
/// right, in their order. A window that is alone fills the area.
pub open spec fn column_places(
    layout: ColumnLayout,
    windows: Seq<WindowId>,
    area: Rect,
    r: Seq<Placement>,
) -> bool {
    &&& r.len() == windows.len()
    &&& forall|k: int| 0 <= k < windows.len() ==> (#[trigger] r[k]).id == windows[k]
    &&& windows.len() == 1 ==> fills(r[0].rect, area, layout.gap as int)
    &&& windows.len() >= 2 ==> {
        let g = layout.gap as int;
        let master = r[0].rect;
        &&& master.x == area.x + g
        &&& full_height(master, area, g)
        &&& area.width >= 3 * g ==> is_share(
            master.width as int,
            area.width - 3 * g,
            layout.main_ratio.units,
        )
        &&& is_column(r, area, g, 1, windows.len() as int)
        &&& forall|k: int|
            1 <= k < windows.len() ==> {
                &&& (#[trigger] r[k]).rect.x == master.x + master.width + g
                &&& r[k].rect.x + r[k].rect.width == area.x + area.width - g
            }
    }
}

pub(crate) proof fn lemma_column_places(
    layout: ColumnLayout,
    windows: Seq<WindowId>,
    area: Rect,
    r: Seq<Placement>,
)
    requires
        layout.arrangeable(windows.len(), area),
        arranged(
            r,
            windows,
            |k: int| k,
            |k: int| layout.cell(windows.len() as int, area, k),
        ),
    ensures
        column_places(layout, windows, area, r),
{
    let n = windows.len() as int;
    let g = layout.gap as int;
    assert forall|k: int| 0 <= k < n implies (#[trigger] r[k]).id == windows[k] && r[k].rect@
        == layout.cell(n, area, k) by {}
    if n >= 2 {
        let usable = area.width - 3 * g;
        let main = r[0].rect.width as int;
        if usable >= 0 {
            lemma_scaled_is_the_share(usable, layout.main_ratio@);
        }
        assert forall|i: int| 0 <= i < n - 1 implies (#[trigger] r[1 + i]).rect@
            == stack_cell(area, g, area.x + g + main + g, usable - main, n - 1, i) by {
            assert(r[1 + i].rect@ == layout.cell(n, area, 1 + i));
        }
        lemma_stack_is_column(r, area, g, area.x + g + main + g, usable - main, 1, n - 1);
    }
}

/// Master and stack arranges windows so.
pub proof fn lemma_column_arranges(
    layout: ColumnLayout,
    windows: &[WindowId],
    area: Rect,
    r: Vec<Placement>,
)
    requires
        layout.arrangeable(windows@.len(), area),
        call_ensures(<ColumnLayout as Layout>::arrange, (&layout, windows, area), r),
    ensures
        column_places(layout, windows@, area, r@),
{
    lemma_column_places(layout, windows@, area, r@);
}

/// Dwindle: the first window takes the master ratio of the width between the outer gaps, over the
/// whole height; each further one takes half of what is left, in turn of the height and of the width;
/// the last takes all that is left.
pub open spec fn dwindle_places(
    layout: DwindleLayout,
    windows: Seq<WindowId>,
    area: Rect,
    r: Seq<Placement>,
) -> bool {
    &&& r.len() == windows.len()
    &&& forall|k: int| 0 <= k < windows.len() ==> (#[trigger] r[k]).id == windows[k]
    &&& windows.len() == 1 ==> fills(r[0].rect, area, layout.gap as int)
    &&& windows.len() >= 2 ==> {
        let g = layout.gap as int;
        let n = windows.len() as int;
        let right = area.x + area.width - g;
        let bottom = area.y + area.height - g;
        &&& r[0].rect.x == area.x + g
        &&& r[0].rect.y == area.y + g
        &&& area.width >= 2 * g ==> is_share(
            r[0].rect.width as int,
            area.width - 2 * g,
            layout.main_ratio.units,
        )
        &&& forall|k: int|
            0 <= k < n - 1 && k % 2 == 0 ==> {
                &&& (#[trigger] r[k]).rect.y + r[k].rect.height == bottom
                &&& r[k + 1].rect.x == r[k].rect.x + r[k].rect.width + g
                &&& r[k + 1].rect.y == r[k].rect.y
                &&& k > 0 && right >= r[k].rect.x ==> 2 * r[k].rect.width <= right - r[k].rect.x
                    <= 2 * r[k].rect.width + 1
            }
        &&& forall|k: int|
            0 <= k < n - 1 && k % 2 == 1 ==> {
                &&& (#[trigger] r[k]).rect.x + r[k].rect.width == right
                &&& r[k + 1].rect.x == r[k].rect.x
                &&& r[k + 1].rect.y == r[k].rect.y + r[k].rect.height + g
                &&& bottom >= r[k].rect.y ==> 2 * r[k].rect.height <= bottom - r[k].rect.y <= 2
                    * r[k].rect.height + 1
            }
        &&& r[n - 1].rect.x + r[n - 1].rect.width == right
        &&& r[n - 1].rect.y + r[n - 1].rect.height == bottom
    }
}

pub(crate) proof fn lemma_dwindle_places(
    layout: DwindleLayout,
    windows: Seq<WindowId>,
    area: Rect,
    r: Seq<Placement>,
)
    requires
        layout.arrangeable(windows.len(), area),
        arranged(
            r,
            windows,
            |k: int| k,
            |k: int| layout.cell(windows.len() as int, area, k),
        ),
    ensures
        dwindle_places(layout, windows, area, r),
{
    let n = windows.len() as int;
    let g = layout.gap as int;
    assert forall|k: int| 0 <= k < n implies (#[trigger] r[k]).id == windows[k] && r[k].rect@
        == layout.cell(n, area, k) by {}
    if n >= 1 {
        lemma_rest_ends(layout, area, (n - 1) as nat);
    }
    if n >= 2 {
        if area.width >= 2 * g {
            lemma_scaled_is_the_share(area.width - 2 * g, layout.main_ratio@);
        }
        assert(layout.rest(area, 0) == inset(area, g));
        assert forall|k: int| 0 <= k < n - 1 implies {
            &&& (#[trigger] r[k]).rect@ == layout.cell(n, area, k)
            &&& r[k + 1].rect.x == layout.rest(area, (k + 1) as nat).x
            &&& r[k + 1].rect.y == layout.rest(area, (k + 1) as nat).y
            &&& layout.rest(area, k as nat).x + layout.rest(area, k as nat).width == area.x
                + area.width - g
            &&& layout.rest(area, k as nat).y + layout.rest(area, k as nat).height == area.y
                + area.height - g
        } by {
            lemma_rest_ends(layout, area, k as nat);
            assert(r[k + 1].rect@ == layout.cell(n, area, k + 1));
        }
    }
}

/// Dwindle arranges windows so.
pub proof fn lemma_dwindle_arranges(
    layout: DwindleLayout,
    windows: &[WindowId],
    area: Rect,
    r: Vec<Placement>,
)
    requires
        layout.arrangeable(windows@.len(), area),
        call_ensures(<DwindleLayout as Layout>::arrange, (&layout, windows, area), r),
    ensures
        dwindle_places(layout, windows@, area, r@),
{
    lemma_dwindle_places(layout, windows@, area, r@);
}

/// Centered master: from three windows on, the first stands in the middle, over the whole height, and
/// is as wide as the master ratio says of the width without the gaps. The columns at its sides are
/// equally wide. The second, fourth, sixth window and so on stand on the left, the third, fifth and so
/// on on the right, each column in the order of the windows.
pub open spec fn centered_places(
    layout: CenteredMasterLayout,
    windows: Seq<WindowId>,
    area: Rect,
    r: Seq<Placement>,
) -> bool {
            let n = windows.len() as int;
            let g = layout.gap as int;
            let left = n / 2;
            let master = r[0].rect;
            &&& r.len() == n
            &&& r[0].id == windows[0]
            &&& full_height(master, area, g)
            &&& area.width >= 4 * g ==> is_share(
                master.width as int,
                area.width - 4 * g,
                layout.main_ratio.units,
            )
            &&& forall|k: int|
                1 <= k <= left ==> {
                    &&& (#[trigger] r[k]).id == windows[2 * k - 1]
                    &&& r[k].rect.x == area.x + g
                    &&& r[k].rect.x + r[k].rect.width + g == master.x
                }
            &&& forall|k: int|
                left < k < n ==> {
                    &&& (#[trigger] r[k]).id == windows[2 * (k - left)]
                    &&& r[k].rect.x == master.x + master.width + g
                    &&& r[k].rect.width == r[1].rect.width
                }
            &&& area.width >= 4 * g ==> {
                let over = area.width - 4 * g - master.width - 2 * r[1].rect.width;
                0 <= over <= 1
            }
            &&& is_column(r, area, g, 1, left + 1)
            &&& is_column(r, area, g, left + 1, n)
}

pub(crate) proof fn lemma_centered_places(
    layout: CenteredMasterLayout,
    windows: Seq<WindowId>,
    area: Rect,
    r: Seq<Placement>,
)
    requires
        layout.arrangeable(windows.len(), area),
        windows.len() >= 3,
        arranged(
            r,
            windows,
            |k: int| centered_order(windows.len() as int, k),
            |k: int| layout.cell(windows.len() as int, area, k),
        ),
    ensures
        centered_places(layout, windows, area, r),
{
    let n = windows.len() as int;
    let g = layout.gap as int;
    let left = n / 2;
    assert forall|k: int| 0 <= k < n implies (#[trigger] r[k]).rect@ == layout.cell(n, area, k) by {}
    let usable = area.width - 4 * g;
    let main = r[0].rect.width as int;
    if usable >= 0 {
        lemma_scaled_is_the_share(usable, layout.main_ratio@);
        lemma_scaled_within(usable, layout.main_ratio@);
    }
    let side = tdiv(usable - main, 2);
    assert forall|i: int| 0 <= i < left implies (#[trigger] r[1 + i]).rect@
        == stack_cell(area, g, area.x + g, side, left, i) by {
        assert(r[1 + i].rect@ == layout.cell(n, area, 1 + i));
    }
    lemma_stack_is_column(r, area, g, area.x + g, side, 1, left);
    let x = area.x + g + side + g + main + g;
    assert forall|i: int| 0 <= i < n - 1 - left implies (#[trigger] r[left + 1 + i]).rect@
        == stack_cell(area, g, x, side, n - 1 - left, i) by {
        assert(r[left + 1 + i].rect@ == layout.cell(n, area, left + 1 + i));
    }
    lemma_stack_is_column(r, area, g, x, side, left + 1, n - 1 - left);
}

/// Centered master, from three windows on, arranges windows so.
pub proof fn lemma_centered_arranges(
    layout: CenteredMasterLayout,
    windows: &[WindowId],
    area: Rect,
    r: Vec<Placement>,
)
    requires
        layout.arrangeable(windows@.len(), area),
        windows@.len() >= 3,
        call_ensures(<CenteredMasterLayout as Layout>::arrange, (&layout, windows, area), r),
    ensures
        centered_places(layout, windows@, area, r@),
{
    lemma_centered_places(layout, windows@, area, r@);
}

/// Centered master: two windows stand side by side, the first as wide as the master ratio says; one
/// fills the area.
pub open spec fn centered_few_places(
    layout: CenteredMasterLayout,
    windows: Seq<WindowId>,
    area: Rect,
    r: Seq<Placement>,
) -> bool {
    &&& r.len() == windows.len()
    &&& r[0].id == windows[0]
    &&& windows.len() == 1 ==> fills(r[0].rect, area, layout.gap as int)
    &&& windows.len() == 2 ==> {
        let g = layout.gap as int;
        let master = r[0].rect;
        let other = r[1].rect;
        &&& r[1].id == windows[1]
        &&& master.x == area.x + g
        &&& full_height(master, area, g)
        &&& full_height(other, area, g)
        &&& other.x == master.x + master.width + g
        &&& other.x + other.width == area.x + area.width - g
        &&& area.width >= 3 * g ==> is_share(
            master.width as int,
            area.width - 3 * g,
            layout.main_ratio.units,
        )
    }
}

pub(crate) proof fn lemma_centered_few_places(
    layout: CenteredMasterLayout,
    windows: Seq<WindowId>,
    area: Rect,
    r: Seq<Placement>,
)
    requires
        layout.arrangeable(windows.len(), area),
        1 <= windows.len() <= 2,
        arranged(
            r,
            windows,
            |k: int| centered_order(windows.len() as int, k),
            |k: int| layout.cell(windows.len() as int, area, k),
        ),
    ensures
        centered_few_places(layout, windows, area, r),
{
    let n = windows.len() as int;
    let g = layout.gap as int;
    assert(r[0].rect@ == layout.cell(n, area, 0));
    if n == 2 {
        assert(r[1].rect@ == layout.cell(n, area, 1));
        if area.width >= 3 * g {
            lemma_scaled_is_the_share(area.width - 3 * g, layout.main_ratio@);
        }
    }
}

/// Centered master, with one or two windows, arranges windows so.
pub proof fn lemma_centered_arranges_few(
    layout: CenteredMasterLayout,
    windows: &[WindowId],
    area: Rect,
    r: Vec<Placement>,
)
    requires
        layout.arrangeable(windows@.len(), area),
        1 <= windows@.len() <= 2,
        call_ensures(<CenteredMasterLayout as Layout>::arrange, (&layout, windows, area), r),
    ensures
        centered_few_places(layout, windows@, area, r@),
{
    lemma_centered_few_places(layout, windows@, area, r@);
}

/// Monocle: every window fills the area.
pub open spec fn monocle_places(
    layout: MonocleLayout,
    windows: Seq<WindowId>,
    area: Rect,
    r: Seq<Placement>,
) -> bool {
    &&& r.len() == windows.len()
    &&& forall|k: int|
            0 <= k < windows.len() ==> (#[trigger] r[k]).id == windows[k] && fills(
                r[k].rect,
                area,
                layout.gap as int,
            )
}

pub(crate) proof fn lemma_monocle_places(
    layout: MonocleLayout,
    windows: Seq<WindowId>,
    area: Rect,
    r: Seq<Placement>,
)
    requires
        layout.arrangeable(windows.len(), area),
        arranged(
            r,
            windows,
            |k: int| k,
            |k: int| layout.cell(windows.len() as int, area, k),
        ),
    ensures
        monocle_places(layout, windows, area, r),
{
    assert forall|k: int| 0 <= k < windows.len() implies (#[trigger] r[k]).id == windows[k]
        && fills(r[k].rect, area, layout.gap as int) by {
        assert(r[k].rect@ == layout.cell(windows.len() as int, area, k));
    }
}

/// Monocle arranges windows so.
pub proof fn lemma_monocle_arranges(
    layout: MonocleLayout,
    windows: &[WindowId],
    area: Rect,
    r: Vec<Placement>,
)
    requires
        layout.arrangeable(windows@.len(), area),
        call_ensures(<MonocleLayout as Layout>::arrange, (&layout, windows, area), r),
    ensures
        monocle_places(layout, windows@, area, r@),
{
    lemma_monocle_places(layout, windows@, area, r@);
}

/// Stacked: the windows after the first have a title bar each, one right below the other from the
/// upper edge on; below the last one the first window has the rest. One window fills the area.
pub open spec fn stacked_places(
    layout: StackedLayout,
    windows: Seq<WindowId>,
    area: Rect,
    r: Seq<Placement>,
) -> bool {
    &&& r.len() == windows.len()
    &&& forall|k: int|
            0 <= k < windows.len() ==> {
                &&& (#[trigger] r[k]).id == windows[k]
                &&& r[k].rect.x == area.x + layout.gap
                &&& r[k].rect.x + r[k].rect.width == area.x + area.width - layout.gap
            }
    &&& windows.len() == 1 ==> fills(r[0].rect, area, layout.gap as int)
    &&& windows.len() >= 2 ==> {
        let n = windows.len() as int;
        &&& r[1].rect.y == area.y + layout.gap
        &&& forall|k: int|
            1 <= k < n ==> (#[trigger] r[k]).rect.height == layout.tab_height
        &&& forall|k: int|
            2 <= k < n ==> (#[trigger] r[k]).rect.y == r[k - 1].rect.y + layout.tab_height
        &&& r[0].rect.y == r[n - 1].rect.y + layout.tab_height
        &&& r[0].rect.height >= 1
        &&& r[0].rect.y < area.y + area.height - layout.gap ==> r[0].rect.y + r[0].rect.height
            == area.y + area.height - layout.gap
        &&& r[0].rect.y >= area.y + area.height - layout.gap ==> r[0].rect.height == 1
    }
}

pub(crate) proof fn lemma_stacked_places(
    layout: StackedLayout,
    windows: Seq<WindowId>,
    area: Rect,
    r: Seq<Placement>,
)
    requires
        layout.arrangeable(windows.len(), area),
        arranged(
            r,
            windows,
            |k: int| k,
            |k: int| layout.cell(windows.len() as int, area, k),
        ),
    ensures
        stacked_places(layout, windows, area, r),
{
    let n = windows.len() as int;
    let t = layout.tab_height as int;
    assert forall|k: int| 0 <= k < n implies (#[trigger] r[k]).id == windows[k] && r[k].rect@
        == layout.cell(n, area, k) by {}
    if n >= 2 {
        assert forall|k: int| 2 <= k < n implies (#[trigger] r[k]).rect.y == r[k - 1].rect.y + t by {
            assert((k - 1) * t == (k - 1 - 1) * t + t) by (nonlinear_arith);
            assert(r[k - 1].rect@ == layout.cell(n, area, k - 1));
        }
        assert((1 - 1) * t == 0);
        assert((n - 1) * t == (n - 1 - 1) * t + t) by (nonlinear_arith);
    }
}

/// Stacked arranges windows so.
pub proof fn lemma_stacked_arranges(
    layout: StackedLayout,
    windows: &[WindowId],
    area: Rect,
    r: Vec<Placement>,
)
    requires
        layout.arrangeable(windows@.len(), area),
        call_ensures(<StackedLayout as Layout>::arrange, (&layout, windows, area), r),
    ensures
        stacked_places(layout, windows@, area, r@),
{
    lemma_stacked_places(layout, windows@, area, r@);
}

/// Grid: row by row, with as many columns as the square root of the number of windows, rounded up. A
/// row starts a gap from the left edge; its windows are equally wide, stand side by side with gaps of
/// four pixels, and end less than a pixel each before the right edge. All rows are equally high.
pub proof fn lemma_grid_arranges(
    windows: &[WindowId],
    area: Rect,
    r: Vec<Placement>,
    c: int,
)
    requires
        grid::grid_arrangeable(windows@.len(), area),
        windows@.len() >= 2,
        call_ensures(grid::arrange, (windows, area), r),
        1 <= c,
        c * c >= windows@.len(),
        (c - 1) * (c - 1) < windows@.len(),
    ensures
        ({
            let n = windows@.len() as int;
            &&& r@.len() == n
            &&& forall|k: int| 0 <= k < n ==> (#[trigger] r@[k]).id == windows@[k]
            &&& r@[0].rect.y == area.y + 4
            &&& forall|k: int|
                0 <= k < n && k % c == 0 ==> (#[trigger] r@[k]).rect.x == area.x + 4
            &&& forall|k: int|
                0 < k < n && k % c != 0 ==> {
                    &&& (#[trigger] r@[k]).rect.x == r@[k - 1].rect.x + r@[k - 1].rect.width + 4
                    &&& r@[k].rect.y == r@[k - 1].rect.y
                    &&& r@[k].rect.width == r@[k - 1].rect.width
                }
            &&& forall|k: int|
                c <= k < n ==> (#[trigger] r@[k]).rect.y == r@[k - c].rect.y + r@[k - c].rect.height + 4
            &&& forall|k: int| 0 <= k < n ==> (#[trigger] r@[k]).rect.height == r@[0].rect.height
            &&& area.width >= 4 * (c + 1) ==> forall|k: int|
                0 <= k < n && (k == n - 1 || k % c == c - 1) ==> {
                    let over = area.x + area.width - 4 - ((#[trigger] r@[k]).rect.x + r@[k].rect.width);
                    0 <= over <= k % c
                }
            &&& area.height >= 4 * (c + 1) ==> {
                let over = area.y + area.height - 4 - (r@[n - 1].rect.y + r@[n - 1].rect.height);
                0 <= over < c
            }
        }),
{
    let n = windows@.len() as int;
    assert(r@.len() == n);
    grid::lemma_grid_holds_all(n);
    grid::lemma_one_root(n, c);
    assert forall|k: int| 0 <= k < n implies (#[trigger] r@[k]).id == windows@[k] && r@[k].rect@
        == grid::grid_cell(n, area, k) by {}
    assert(r@[0].rect.y == area.y + 4) by {
        assert(0int / c == 0) by (nonlinear_arith)
            requires
                1 <= c,
        ;
        assert(0 * (r@[0].rect.height + 4) == 0);
    }
    assert forall|k: int| 0 <= k < n implies (#[trigger] r@[k]).rect.height == r@[0].rect.height by {
        assert(r@[0].rect@ == grid::grid_cell(n, area, 0));
    }
    assert forall|k: int| 0 <= k < n && k % c == 0 implies (#[trigger] r@[k]).rect.x == area.x + 4 by {
        assert(0 * (r@[k].rect.width + 4) == 0);
    }
    assert forall|k: int| 0 < k < n && k % c != 0 implies {
        &&& (#[trigger] r@[k]).rect.x == r@[k - 1].rect.x + r@[k - 1].rect.width + 4
        &&& r@[k].rect.y == r@[k - 1].rect.y
        &&& r@[k].rect.width == r@[k - 1].rect.width
    } by {
        grid::lemma_next_in_row(k, c);
        assert(r@[k - 1].rect@ == grid::grid_cell(n, area, k - 1));
        let s = r@[k].rect.width + 4;
        assert((k % c) * s == (k % c - 1) * s + s) by (nonlinear_arith);
    }
    assert forall|k: int| c <= k < n implies (#[trigger] r@[k]).rect.y == r@[k - c].rect.y
        + r@[k - c].rect.height + 4 by {
        grid::lemma_next_row(k, c);
        assert(r@[k - c].rect@ == grid::grid_cell(n, area, k - c));
        let s = r@[k].rect.height + 4;
        assert((k / c) * s == (k / c - 1) * s + s) by (nonlinear_arith);
    }
    if area.width >= 4 * (c + 1) {
        assert forall|k: int| 0 <= k < n && (k == n - 1 || k % c == c - 1) implies ({
            let over = area.x + area.width - 4 - ((#[trigger] r@[k]).rect.x + r@[k].rect.width);
            0 <= over <= k % c
        }) by {
            grid::lemma_row_end(n, k);
            grid::lemma_share_rest(area.width as int, k % c + 1);
        }
    }
    if area.height >= 4 * (c + 1) {
        grid::lemma_row_end(n, n - 1);
        grid::lemma_share_rest(area.height as int, grid::rows(n));
    }
}

/// One window of a grid keeps four pixels from every edge.
pub proof fn lemma_grid_arranges_one(windows: &[WindowId], area: Rect, r: Vec<Placement>)
    requires
        grid::grid_arrangeable(windows@.len(), area),
        windows@.len() == 1,
        call_ensures(grid::arrange, (windows, area), r),
    ensures
        r@.len() == 1,
        r@[0].id == windows@[0],
        fills(r@[0].rect, area, 4),
{
    assert(r@[0].rect@ == grid::grid_cell(1, area, 0));
}

/// Growing the master adds a twentieth to its ratio, up to four fifths, and tells whether anything
/// changed; shrinking takes one away, down to one fifth. The gap stays.
pub proof fn lemma_column_master_steps(layout: &mut ColumnLayout, changed: bool)
    requires
        old(layout).wf(),
    ensures
        call_ensures(<ColumnLayout as Layout>::grow_master, (layout,), changed) ==> {
            &&& is_step_up(old(layout).main_ratio.units, final(layout).main_ratio.units, changed)
            &&& final(layout).gap == old(layout).gap
        },
        call_ensures(<ColumnLayout as Layout>::shrink_master, (layout,), changed) ==> {
            &&& is_step_down(old(layout).main_ratio.units, final(layout).main_ratio.units, changed)
            &&& final(layout).gap == old(layout).gap
        },
{
    lemma_steps_are_twentieths(old(layout).main_ratio@);
}

/// The same for dwindle.
pub proof fn lemma_dwindle_master_steps(layout: &mut DwindleLayout, changed: bool)
    requires
        old(layout).wf(),
    ensures
        call_ensures(<DwindleLayout as Layout>::grow_master, (layout,), changed) ==> {
            &&& is_step_up(old(layout).main_ratio.units, final(layout).main_ratio.units, changed)
            &&& final(layout).gap == old(layout).gap
        },
        call_ensures(<DwindleLayout as Layout>::shrink_master, (layout,), changed) ==> {
            &&& is_step_down(old(layout).main_ratio.units, final(layout).main_ratio.units, changed)
            &&& final(layout).gap == old(layout).gap
        },
{
    lemma_steps_are_twentieths(old(layout).main_ratio@);
}

/// The same for the centered master.
pub proof fn lemma_centered_master_steps(layout: &mut CenteredMasterLayout, changed: bool)
    requires
        old(layout).wf(),
    ensures
        call_ensures(<CenteredMasterLayout as Layout>::grow_master, (layout,), changed) ==> {
            &&& is_step_up(old(layout).main_ratio.units, final(layout).main_ratio.units, changed)
            &&& final(layout).gap == old(layout).gap
        },
        call_ensures(<CenteredMasterLayout as Layout>::shrink_master, (layout,), changed) ==> {
            &&& is_step_down(old(layout).main_ratio.units, final(layout).main_ratio.units, changed)
            &&& final(layout).gap == old(layout).gap
        },
{
    lemma_steps_are_twentieths(old(layout).main_ratio@);
}

/// A ratio after a step of a twentieth up, in units of 2^-57, up to rounding.
pub open spec fn is_step_up(before: u64, after: u64, changed: bool) -> bool {
    &&& changed == (before < 115292150460684704)
    &&& !changed ==> after == before
    &&& changed ==> before < after <= 115292150460684704
    &&& changed && before + 7205759403792794 < 115292150460684704 - 16 ==> -16 <= after - before
        - 7205759403792794 <= 16
    &&& changed && before + 7205759403792794 >= 115292150460684704 + 16 ==> after
        == 115292150460684704
}

/// A ratio after a step of a twentieth down, in units of 2^-57, up to rounding.
pub open spec fn is_step_down(before: u64, after: u64, changed: bool) -> bool {
    &&& changed == (before > 28823037615171176)
    &&& !changed ==> after == before
    &&& changed ==> 28823037615171176 <= after < before
    &&& changed && before > 28823037615171176 + 7205759403792794 + 16 ==> -16 <= before - after
        - 7205759403792794 <= 16
    &&& changed && before < 28823037615171176 + 7205759403792794 - 16 ==> after == 28823037615171176
}

/// Setting a gap leaves the layout with that gap and nothing else changed, and tells whether it had
/// another one.
pub proof fn lemma_gap_is_set(
    column: &mut ColumnLayout,
    dwindle: &mut DwindleLayout,
    centered: &mut CenteredMasterLayout,
    stacked: &mut StackedLayout,
    monocle: &mut MonocleLayout,
    gap: i32,
    changed: bool,
)
    ensures
        call_ensures(<ColumnLayout as Layout>::set_gap, (column, gap), changed) ==> *final(column) == (
        ColumnLayout { gap, ..*old(column) }) && changed == (old(column).gap != gap),
        call_ensures(<DwindleLayout as Layout>::set_gap, (dwindle, gap), changed) ==> *final(dwindle)
            == (DwindleLayout { gap, ..*old(dwindle) }) && changed == (old(dwindle).gap != gap),
        call_ensures(<CenteredMasterLayout as Layout>::set_gap, (centered, gap), changed)
            ==> *final(centered) == (CenteredMasterLayout { gap, ..*old(centered) }) && changed == (
        old(centered).gap != gap),
        call_ensures(<StackedLayout as Layout>::set_gap, (stacked, gap), changed) ==> *final(stacked)
            == (StackedLayout { gap, ..*old(stacked) }) && changed == (old(stacked).gap != gap),
        call_ensures(<MonocleLayout as Layout>::set_gap, (monocle, gap), changed) ==> *final(monocle)
            == (MonocleLayout { gap }) && changed == (old(monocle).gap != gap),
{
}

} // verus!
