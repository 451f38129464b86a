//! Grid layout.

use crate::tiling::{
    all_narrow, arranged, inset, inset_wide, place_in_order, tdiv, truncating_div, Cell, Placement,
    Rect, WideRect, WindowId,
};
use vstd::prelude::*;

verus! {

/// Gap in pixels between and around the windows.
pub const GRID_GAP: i32 = 4;

/// The least number from `c` on whose square is at least `n`.
pub open spec fn root_from(n: int, c: int) -> int
    decreases n - c,
{
    if c >= n || c * c >= n {
        c
    } else {
        root_from(n, c + 1)
    }
}

/// Number of columns for `n` windows: the square root, rounded up.
pub open spec fn columns(n: int) -> int {
    root_from(n, 1)
}

/// Number of rows for `n` windows.
pub open spec fn rows(n: int) -> int {
    (n + columns(n) - 1) / columns(n)
}

/// Number of windows in a row: as many as columns, or those that are left in the last row.
pub open spec fn row_len(n: int, row: int) -> int {
    if row == rows(n) - 1 && n - row * columns(n) < columns(n) {
        n - row * columns(n)
    } else {
        columns(n)
    }
}

/// Extent of each of `count` cells with gaps between and around them.
pub open spec fn share(extent: int, count: int) -> int {
    tdiv(extent - (count + 1) * GRID_GAP, count)
}

/// Where window `k` of `n` goes: row by row, each row shared out evenly.
pub open spec fn grid_cell(n: int, area: Rect, k: int) -> Cell {
    if n == 1 {
        inset(area, GRID_GAP as int)
    } else {
        let row = k / columns(n);
        let col = k % columns(n);
        let width = share(area.width as int, row_len(n, row));
        let height = share(area.height as int, rows(n));
        Cell {
            x: area.x + GRID_GAP + col * (width + GRID_GAP),
            y: area.y + GRID_GAP + row * (height + GRID_GAP),
            width,
            height,
        }
    }
}

/// The numbers of windows and the areas for which `arrange` may be called.
pub open spec fn grid_arrangeable(count: nat, area: Rect) -> bool {
    &&& count <= i32::MAX
    &&& forall|k: int| 0 <= k < count ==> (#[trigger] grid_cell(count as int, area, k)).fits()
}

proof fn lemma_root(n: int, c: int)
    requires
        1 <= c,
        1 <= n,
        c == 1 || (c - 1) * (c - 1) < n,
        c <= n,
    ensures
        ({
            let r = root_from(n, c);
            &&& c <= r <= n
            &&& n <= r * r
            &&& r == 1 || (r - 1) * (r - 1) < n
        }),
    decreases n - c,
{
    if c >= n || c * c >= n {
        assert(n <= c * c) by (nonlinear_arith)
            requires
                c >= n || c * c >= n,
                1 <= c,
                1 <= n,
        ;
    } else {
        lemma_root(n, c + 1);
    }
}

/// The columns are the fewest whose square holds all windows, and the rows just hold them.
pub proof fn lemma_grid_holds_all(n: int)
    requires
        1 <= n,
    ensures
        1 <= columns(n) <= n,
        n <= columns(n) * columns(n),
        columns(n) == 1 || (columns(n) - 1) * (columns(n) - 1) < n,
        1 <= rows(n) <= columns(n),
        (rows(n) - 1) * columns(n) < n <= rows(n) * columns(n),
{
    lemma_root(n, 1);
    let c = columns(n);
    let r = rows(n);
    vstd::arithmetic::div_mod::lemma_fundamental_div_mod(n + c - 1, c);
    vstd::arithmetic::div_mod::lemma_mod_bound(n + c - 1, c);
    assert(c * r == r * c) by (nonlinear_arith);
    assert((r - 1) * c == r * c - c) by (nonlinear_arith);
    assert(1 <= r) by (nonlinear_arith)
        requires
            1 <= c,
            n <= r * c,
            1 <= n,
    ;
    assert(r <= c) by (nonlinear_arith)
        requires
            1 <= c,
            r * c - c < n,
            n <= c * c,
    ;
}

/// The place of a window in the grid.
proof fn lemma_grid_place(n: int, k: int)
    requires
        1 <= n,
        0 <= k < n,
    ensures
        0 <= k / columns(n) < rows(n),
        0 <= k % columns(n) < row_len(n, k / columns(n)) <= columns(n),
        k == (k / columns(n)) * columns(n) + k % columns(n),
{
    lemma_grid_holds_all(n);
    let c = columns(n);
    let row = k / c;
    vstd::arithmetic::div_mod::lemma_fundamental_div_mod(k, c);
    vstd::arithmetic::div_mod::lemma_mod_bound(k, c);
    assert(c * row == row * c) by (nonlinear_arith);
    assert(0 <= row) by (nonlinear_arith)
        requires
            0 <= k,
            k == row * c + k % c,
            k % c < c,
            1 <= c,
    ;
    assert(row < rows(n)) by (nonlinear_arith)
        requires
            k == row * c + k % c,
            0 <= k % c,
            k < n,
            n <= rows(n) * c,
            1 <= c,
    ;
}

fn grid_columns(n: i64) -> (r: i64)
    requires
        1 <= n <= i32::MAX,
    ensures
        r == columns(n as int),
        r <= 46341,
{
    let mut c: i64 = 1;
    while c < n && c * c < n
        invariant
            1 <= c <= n <= i32::MAX,
            c <= 46341,
            c * c <= 46341 * 46341,
            columns(n as int) == root_from(n as int, c as int),
        decreases n - c,
    {
        assert(c < 46341) by (nonlinear_arith)
            requires
                c * c < n,
                n <= 0x7fff_ffff,
                1 <= c,
        ;
        c = c + 1;
        assert(c * c <= 46341 * 46341) by (nonlinear_arith)
            requires
                1 <= c <= 46341,
        ;
    }
    c
}

fn shared(extent: i32, count: i64) -> (r: i64)
    requires
        1 <= count <= i32::MAX,
    ensures
        r == share(extent as int, count as int),
        -0x4_0000_0000 <= r <= 0x4_0000_0000,
{
    let gap: i64 = GRID_GAP as i64;
    assert((count + 1) * gap == 4 * (count + 1)) by (nonlinear_arith)
        requires
            gap == 4,
    ;
    truncating_div(extent as i64 - (count + 1) * gap, count)
}

fn grid_cells(n: usize, area: Rect) -> (r: Vec<WideRect>)
    requires
        n <= i32::MAX,
    ensures
        r@.len() == n,
        forall|k: int| 0 <= k < n ==> (#[trigger] r@[k])@ == grid_cell(n as int, area, k),
{
    let mut r: Vec<WideRect> = Vec::with_capacity(n);
    if n == 0 {
        return r;
    }
    if n == 1 {
        r.push(inset_wide(area, GRID_GAP));
        return r;
    }
    let count: i64 = n as i64;
    let c: i64 = grid_columns(count);
    proof {
        lemma_grid_holds_all(n as int);
    }
    let rows: i64 = (count + c - 1) / c;
    let height: i64 = shared(area.height, rows);
    let gap: i64 = GRID_GAP as i64;
    let mut k: usize = 0;
    while k < n
        invariant
            k <= n,
            2 <= n <= i32::MAX,
            count == n,
            c == columns(n as int),
            1 <= c <= 46341,
            rows == self::rows(n as int),
            1 <= rows <= c,
            gap == GRID_GAP,
            height == share(area.height as int, rows as int),
            -0x4_0000_0000 <= height <= 0x4_0000_0000,
            r@.len() == k,
            forall|j: int| 0 <= j < k ==> (#[trigger] r@[j])@ == grid_cell(n as int, area, j),
        decreases n - k,
    {
        proof {
            lemma_grid_place(n as int, k as int);
        }
        let row: i64 = k as i64 / c;
        let col: i64 = k as i64 % c;
        assert(0 <= row * c <= 46341 * 46341) by (nonlinear_arith)
            requires
                0 <= row < 46341,
                1 <= c <= 46341,
        ;
        let left: i64 = count - row * c;
        let in_row: i64 = if row == rows - 1 && left < c {
            left
        } else {
            c
        };
        assert(in_row == row_len(n as int, row as int));
        let width: i64 = shared(area.width, in_row);
        assert(-0x10_0000_0000_0000 <= col * (width + gap) <= 0x10_0000_0000_0000) by (nonlinear_arith)
            requires
                0 <= col < 46341,
                -0x4_0000_0004 <= width + gap <= 0x4_0000_0004,
        ;
        assert(-0x10_0000_0000_0000 <= row * (height + gap) <= 0x10_0000_0000_0000)
            by (nonlinear_arith)
            requires
                0 <= row < 46341,
                -0x4_0000_0004 <= height + gap <= 0x4_0000_0004,
        ;
        r.push(
            WideRect {
                x: area.x as i64 + gap + col * (width + gap),
                y: area.y as i64 + gap + row * (height + gap),
                width,
                height,
            },
        );
        k = k + 1;
    }
    r
}

/// Whether `arrange` may be called for `n` windows in `area`.
pub fn can_arrange(n: usize, area: Rect) -> (r: bool)
    ensures
        r == grid_arrangeable(n as nat, area),
{
    if n > i32::MAX as usize {
        return false;
    }
    let cells = grid_cells(n, area);
    let r = all_narrow(&cells);
    proof {
        if r {
            assert forall|k: int| 0 <= k < n implies (#[trigger] grid_cell(
                n as int,
                area,
                k,
            )).fits() by {
                assert(cells@[k]@.fits());
            }
        }
    }
    r
}

/// Arrange windows in a grid.
pub fn arrange(windows: &[WindowId], area: Rect) -> (r: Vec<Placement>)
    requires
        grid_arrangeable(windows@.len(), area),
    ensures
        arranged(
            r@,
            windows@,
            |k: int| k,
            |k: int| grid_cell(windows@.len() as int, area, k),
        ),
{
    let cells = grid_cells(windows.len(), area);
    place_in_order(windows, &cells)
}

/// Shares with their gaps stay within the extent.
proof fn lemma_shares_fit(extent: int, count: int, i: int)
    requires
        0 <= i < count,
        (count + 1) * GRID_GAP <= extent,
    ensures
        0 <= share(extent, count),
        GRID_GAP + i * (share(extent, count) + GRID_GAP) + share(extent, count) + GRID_GAP <= extent,
        0 <= i * (share(extent, count) + GRID_GAP),
{
    let s = share(extent, count);
    let usable = extent - (count + 1) * GRID_GAP;
    vstd::arithmetic::div_mod::lemma_fundamental_div_mod(usable, count);
    vstd::arithmetic::div_mod::lemma_mod_bound(usable, count);
    assert(0 <= s) by (nonlinear_arith)
        requires
            0 <= usable,
            usable == count * s + usable % count,
            usable % count < count,
            0 < count,
    ;
    assert((i + 1) * (s + 4) <= count * (s + 4)) by (nonlinear_arith)
        requires
            0 <= i < count,
            0 <= s,
    ;
    assert((i + 1) * (s + 4) == i * (s + 4) + s + 4) by (nonlinear_arith);
    assert(count * (s + 4) == count * s + 4 * count) by (nonlinear_arith);
    assert(0 <= i * (s + 4)) by (nonlinear_arith)
        requires
            0 <= i,
            0 <= s,
    ;
}

/// In an area with room for the gaps, every window lies inside the area, and no two overlap.
pub proof fn lemma_grid_is_a_tiling(n: int, area: Rect, i: int, j: int)
    requires
        2 <= n,
        0 <= i < j < n,
        (columns(n) + 1) * GRID_GAP <= area.width,
        (rows(n) + 1) * GRID_GAP <= area.height,
    ensures
        grid_cell(n, area, i).inside(area@),
        grid_cell(n, area, j).inside(area@),
        grid_cell(n, area, i).disjoint(grid_cell(n, area, j)),
{
    lemma_grid_holds_all(n);
    lemma_grid_place(n, i);
    lemma_grid_place(n, j);
    let c = columns(n);
    let (ri, ci) = (i / c, i % c);
    let (rj, cj) = (j / c, j % c);
    let h = share(area.height as int, rows(n));
    lemma_shares_fit(area.height as int, rows(n), ri);
    lemma_shares_fit(area.height as int, rows(n), rj);
    let wi = share(area.width as int, row_len(n, ri));
    let wj = share(area.width as int, row_len(n, rj));
    lemma_shares_fit(area.width as int, row_len(n, ri), ci);
    lemma_shares_fit(area.width as int, row_len(n, rj), cj);
    assert(ri <= rj) by (nonlinear_arith)
        requires
            i < j,
            i == ri * c + ci,
            j == rj * c + cj,
            0 <= ci < c,
            0 <= cj < c,
    ;
    if ri < rj {
        assert(ri * (h + 4) + h + 4 <= rj * (h + 4)) by (nonlinear_arith)
            requires
                ri < rj,
                0 <= h,
        ;
    } else {
        assert(ci < cj);
        assert(ci * (wi + 4) + wi + 4 <= cj * (wi + 4)) by (nonlinear_arith)
            requires
                ci < cj,
                0 <= wi,
        ;
    }
}

/// No other number is the square root, rounded up.
pub proof fn lemma_one_root(n: int, c: int)
    requires
        1 <= n,
        1 <= c,
        n <= c * c,
        (c - 1) * (c - 1) < n,
    ensures
        c == columns(n),
{
    lemma_grid_holds_all(n);
    let d = columns(n);
    if d == 1 {
        assert(c == 1) by (nonlinear_arith)
            requires
                n == 1,
                1 <= c,
                (c - 1) * (c - 1) < n,
        ;
    } else {
        assert(c >= d) by (nonlinear_arith)
            requires
                n <= c * c,
                (d - 1) * (d - 1) < n,
                1 <= c,
                1 <= d,
        ;
        assert(d >= c) by (nonlinear_arith)
            requires
                n <= d * d,
                (c - 1) * (c - 1) < n,
                1 <= c,
                1 <= d,
        ;
    }
}

/// The window before one that does not start a row stands in the same row.
pub proof fn lemma_next_in_row(k: int, c: int)
    requires
        0 < k,
        1 <= c,
        k % c != 0,
    ensures
        (k - 1) / c == k / c,
        (k - 1) % c == k % c - 1,
{
    vstd::arithmetic::div_mod::lemma_fundamental_div_mod(k, c);
    vstd::arithmetic::div_mod::lemma_mod_bound(k, c);
    let q = k / c;
    assert(c * q == q * c) by (nonlinear_arith);
    vstd::arithmetic::div_mod::lemma_fundamental_div_mod_converse(k - 1, c, q, k % c - 1);
}

/// The window a row above another.
pub proof fn lemma_next_row(k: int, c: int)
    requires
        1 <= c <= k,
    ensures
        (k - c) / c == k / c - 1,
        (k - c) % c == k % c,
{
    vstd::arithmetic::div_mod::lemma_fundamental_div_mod(k, c);
    vstd::arithmetic::div_mod::lemma_mod_bound(k, c);
    let q = k / c;
    assert(c * (q - 1) == c * q - c) by (nonlinear_arith);
    assert(c * (q - 1) == (q - 1) * c) by (nonlinear_arith);
    vstd::arithmetic::div_mod::lemma_fundamental_div_mod_converse(k - c, c, q - 1, k % c);
}

/// The last window of a row.
pub proof fn lemma_row_end(n: int, k: int)
    requires
        1 <= n,
        0 <= k < n,
        k == n - 1 || k % columns(n) == columns(n) - 1,
    ensures
        row_len(n, k / columns(n)) == k % columns(n) + 1,
        k == n - 1 ==> k / columns(n) == rows(n) - 1,
{
    lemma_grid_holds_all(n);
    lemma_grid_place(n, k);
    let c = columns(n);
    let row = k / c;
    let last = rows(n) - 1;
    if k == n - 1 {
        assert(row >= last) by (nonlinear_arith)
            requires
                last * c < n,
                n - 1 == row * c + k % c,
                k % c < c,
                1 <= c,
        ;
    }
}

/// What is left over when an extent is shared out, and where the last share ends.
pub proof fn lemma_share_rest(extent: int, count: int)
    requires
        1 <= count,
        (count + 1) * 4 <= extent,
    ensures
        ({
            let s = share(extent, count);
            let over = extent - 4 - (4 + (count - 1) * (s + 4) + s);
            0 <= over < count
        }),
{
    let s = share(extent, count);
    let usable = extent - (count + 1) * GRID_GAP;
    vstd::arithmetic::div_mod::lemma_fundamental_div_mod(usable, count);
    vstd::arithmetic::div_mod::lemma_mod_bound(usable, count);
    assert((count - 1) * (s + 4) == count * s - s + 4 * count - 4) by (nonlinear_arith);
}

} // verus!
