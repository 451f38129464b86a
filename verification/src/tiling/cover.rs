//! What the layouts promise of the places they give: they lie in the area, apart from each other, and
//! every window has one.

use crate::tiling::centered::{centered_order, left_count, CenteredMasterLayout};
use crate::tiling::column::{column_main, column_width, ColumnLayout};
use crate::tiling::dwindle::DwindleLayout;
use crate::tiling::ratio::{lemma_scaled_within, scaled};
use crate::tiling::stacked::StackedLayout;
use crate::tiling::{stack_cell, stack_height, Layout, Rect};
use vstd::prelude::*;

verus! {

/// Cells of a stack with room for its gaps lie between its top and its bottom, one below the other.
proof fn lemma_stack(area: Rect, g: int, x: int, width: int, count: int, i: int, j: int)
    requires
        0 <= g,
        0 <= i <= j < count,
        (count - 1) * g <= area.height - 2 * g,
    ensures
        ({
            let a = stack_cell(area, g, x, width, count, i);
            let b = stack_cell(area, g, x, width, count, j);
            &&& area.y + g <= a.y
            &&& 0 <= a.height
            &&& a.y + a.height <= area.y + area.height - g
            &&& i < j ==> a.y + a.height + g <= b.y
        }),
{
    let room = area.height - 2 * g;
    let h = stack_height(room, g, count);
    let t = room - (count - 1) * g;
    vstd::arithmetic::div_mod::lemma_fundamental_div_mod(t, count);
    vstd::arithmetic::div_mod::lemma_mod_bound(t, count);
    assert(0 <= h) by (nonlinear_arith)
        requires
            0 <= t,
            t == count * h + t % count,
            t % count < count,
            0 < count,
    ;
    let s = h + g;
    assert(0 <= i * s && i * s <= (count - 1) * s && 0 <= j * s <= (count - 1) * s)
        by (nonlinear_arith)
        requires
            0 <= i <= j < count,
            0 <= s,
    ;
    assert((count - 1) * s + h == count * h + (count - 1) * g) by (nonlinear_arith)
        requires
            s == h + g,
    ;
    if i < j {
        assert(i * s + s <= j * s) by (nonlinear_arith)
            requires
                i < j,
                0 <= s,
        ;
    }
}

/// Master and stack: with room for the gaps, every window lies inside the area, and no two overlap.
pub proof fn lemma_column_is_a_tiling(layout: ColumnLayout, n: int, area: Rect, i: int, j: int)
    requires
        layout.wf(),
        0 <= layout.gap,
        2 <= n,
        0 <= i < j < n,
        3 * layout.gap <= area.width,
        (n - 2) * layout.gap <= area.height - 2 * layout.gap,
    ensures
        layout.cell(n, area, i).inside(area@),
        layout.cell(n, area, j).inside(area@),
        layout.cell(n, area, i).disjoint(layout.cell(n, area, j)),
{
    let g = layout.gap as int;
    let usable = column_width(area, g);
    let main = column_main(area, g, layout.main_ratio@);
    lemma_scaled_within(usable, layout.main_ratio@);
    let x = area.x + g + main + g;
    let width = usable - main;
    assert(0 <= (n - 2) * g) by (nonlinear_arith)
        requires
            2 <= n,
            0 <= g,
    ;
    lemma_stack(area, g, x, width, n - 1, j - 1, j - 1);
    if i > 0 {
        lemma_stack(area, g, x, width, n - 1, i - 1, j - 1);
    }
}

/// The space left for further windows ends where the area does, less a gap.
pub(crate) proof fn lemma_rest_ends(layout: DwindleLayout, area: Rect, k: nat)
    ensures
        ({
            let r = layout.rest(area, k);
            &&& r.x + r.width == area.x + area.width - layout.gap
            &&& r.y + r.height == area.y + area.height - layout.gap
        }),
    decreases k,
{
    if k > 0 {
        lemma_rest_ends(layout, area, (k - 1) as nat);
    }
}

/// Space is left for each of `n` windows.
pub open spec fn dwindle_has_room(layout: DwindleLayout, n: int, area: Rect) -> bool {
    forall|m: nat|
        m < n ==> 0 <= (#[trigger] layout.rest(area, m)).width && 0 <= layout.rest(area, m).height
}

/// A window takes no more than the space that is left.
proof fn lemma_dwindle_part(layout: DwindleLayout, n: int, area: Rect, k: nat)
    requires
        layout.wf(),
        0 <= layout.gap,
        dwindle_has_room(layout, n, area),
        k < n,
    ensures
        ({
            let r = layout.rest(area, k);
            &&& 0 <= layout.part(k as int, r.width) <= r.width
            &&& k > 0 ==> 0 <= layout.part(k as int, r.height) <= r.height
        }),
{
    let r = layout.rest(area, k);
    assert(0 <= r.width && 0 <= r.height);
    if k == 0 {
        lemma_scaled_within(r.width, layout.main_ratio@);
    }
}

/// The window at `i` lies before the space that is left for those behind it.
proof fn lemma_rest_apart(layout: DwindleLayout, n: int, area: Rect, i: nat, k: nat)
    requires
        layout.wf(),
        0 <= layout.gap,
        dwindle_has_room(layout, n, area),
        i < k < n,
    ensures
        ({
            let c = layout.cell(n, area, i as int);
            let r = layout.rest(area, k);
            &&& layout.rest(area, i).x <= r.x
            &&& layout.rest(area, i).y <= r.y
            &&& c.x + c.width <= r.x || c.y + c.height <= r.y
        }),
    decreases k,
{
    let before = (k - 1) as nat;
    lemma_dwindle_part(layout, n, area, before);
    if i < before {
        lemma_rest_apart(layout, n, area, i, before);
    }
}

proof fn lemma_dwindle_inside(layout: DwindleLayout, n: int, area: Rect, k: int)
    requires
        layout.wf(),
        0 <= layout.gap,
        dwindle_has_room(layout, n, area),
        0 <= k < n,
    ensures
        layout.cell(n, area, k).inside(area@),
{
    lemma_rest_ends(layout, area, k as nat);
    lemma_dwindle_part(layout, n, area, k as nat);
    if k > 0 {
        lemma_rest_apart(layout, n, area, 0, k as nat);
    }
}

/// Dwindle: while space is left, every window lies inside the area, and no two overlap.
pub proof fn lemma_dwindle_is_a_tiling(layout: DwindleLayout, n: int, area: Rect, i: int, j: int)
    requires
        layout.wf(),
        0 <= layout.gap,
        dwindle_has_room(layout, n, area),
        0 <= i < j < n,
    ensures
        layout.cell(n, area, i).inside(area@),
        layout.cell(n, area, j).inside(area@),
        layout.cell(n, area, i).disjoint(layout.cell(n, area, j)),
{
    lemma_rest_apart(layout, n, area, i as nat, j as nat);
    lemma_dwindle_inside(layout, n, area, i);
    lemma_dwindle_inside(layout, n, area, j);
}

/// Centered master: with room for the gaps, every window lies inside the area, and no two overlap.
pub proof fn lemma_centered_is_a_tiling(
    layout: CenteredMasterLayout,
    n: int,
    area: Rect,
    i: int,
    j: int,
)
    requires
        layout.wf(),
        0 <= layout.gap,
        2 <= n,
        0 <= i < j < n,
        4 * layout.gap <= area.width,
        n * layout.gap <= area.height,
    ensures
        layout.cell(n, area, i).inside(area@),
        layout.cell(n, area, j).inside(area@),
        layout.cell(n, area, i).disjoint(layout.cell(n, area, j)),
{
    let g = layout.gap as int;
    let usable = layout.usable_width(n, area);
    let main = scaled(usable, layout.main_ratio@);
    lemma_scaled_within(usable, layout.main_ratio@);
    assert(2 * g <= n * g) by (nonlinear_arith)
        requires
            2 <= n,
            0 <= g,
    ;
    if n > 2 {
        let side = (usable - main) / 2;
        let left = left_count(n);
        let right = n - 1 - left;
        let right_x = area.x + g + side + g + main + g;
        assert((left - 1) * g <= area.height - 2 * g && (right - 1) * g <= area.height - 2 * g)
            by (nonlinear_arith)
            requires
                n * g <= area.height,
                0 <= g,
                left + 1 <= n,
                right + 1 <= n,
        ;
        if 0 < i <= left {
            lemma_stack(area, g, area.x + g, side, left, i - 1, i - 1);
        }
        if 0 < j <= left {
            lemma_stack(area, g, area.x + g, side, left, j - 1, j - 1);
            if 0 < i {
                lemma_stack(area, g, area.x + g, side, left, i - 1, j - 1);
            }
        }
        if left < i {
            lemma_stack(area, g, right_x, side, right, i - 1 - left, j - 1 - left);
        }
        if left < j {
            lemma_stack(area, g, right_x, side, right, j - 1 - left, j - 1 - left);
        }
    }
}

/// Centered master: every window has exactly one place.
pub proof fn lemma_centered_places_all(n: int, window: int)
    requires
        0 <= window < n,
    ensures
        exists|k: int| 0 <= k < n && #[trigger] centered_order(n, k) == window,
        forall|a: int, b: int|
            0 <= a < n && 0 <= b < n && #[trigger] centered_order(n, a) == #[trigger] centered_order(
                n,
                b,
            ) ==> a == b,
{
    let k = if n <= 2 || window == 0 {
        window
    } else if window % 2 == 1 {
        (window + 1) / 2
    } else {
        window / 2 + left_count(n)
    };
    assert(centered_order(n, k) == window);
}

/// Stacked: while there is room below the title bars, every window lies inside the area, and no two
/// overlap.
pub proof fn lemma_stacked_is_a_tiling(layout: StackedLayout, n: int, area: Rect, i: int, j: int)
    requires
        0 <= layout.gap,
        0 <= layout.tab_height,
        2 <= n,
        0 <= i < j < n,
        2 * layout.gap <= area.width,
        2 * layout.gap + (n - 1) * layout.tab_height < area.height,
    ensures
        layout.cell(n, area, i).inside(area@),
        layout.cell(n, area, j).inside(area@),
        layout.cell(n, area, i).disjoint(layout.cell(n, area, j)),
{
    let t = layout.tab_height as int;
    assert(0 <= (j - 1) * t && (j - 1) * t + t <= (n - 1) * t) by (nonlinear_arith)
        requires
            1 <= j < n,
            0 <= t,
    ;
    if i > 0 {
        assert(0 <= (i - 1) * t && (i - 1) * t + t <= (j - 1) * t) by (nonlinear_arith)
            requires
                1 <= i < j,
                0 <= t,
        ;
    }
}

} // verus!
