//! What is drawn over and behind the windows of an output.

use crate::compositor::state::geometry_ok;
use crate::compositor::tabs::{StackedTabs, Tab};
use crate::tiling::{in_i32, Rect};
use vstd::prelude::*;
use vstd::string::*;

verus! {

/// Width of the border around the focused window.
pub const FOCUS_BORDER: i32 = 2;

/// Width of the strips along the edges of a floating window.
pub const FLOAT_EDGE: i32 = 3;

/// Floating windows up to this extent have no strips.
pub const SMALL_WINDOW: i32 = 10;

/// Width of the stripe at the left of a title bar.
pub const TAB_STRIPE: i32 = 3;

/// Space before the text of a title bar.
pub const TAB_PADDING: i32 = 12;

/// What the text of a title bar leaves free.
pub const TAB_MARGIN: i32 = 20;

/// Width of an output whose mode is not known.
pub const DEFAULT_WIDTH: i32 = 1920;

/// Extent of the pointer.
pub const CURSOR_SIZE: i32 = 8;

/// Number of bands that make up a gradient.
pub const BANDS: i32 = 64;

/// What is drawn.
#[derive(Debug, Clone, Copy, PartialEq, Eq, Structural)]
pub enum Shape {
    /// Border behind the focused window.
    FocusBorder,
    /// Strip along an edge of a floating window.
    FloatEdge,
    /// Title bar.
    TabBackground { focused: bool },
    /// Stripe at the left of a title bar.
    TabStripe { focused: bool },
    /// Line below a title bar.
    TabSeparator,
    /// Text of title bar `tab`, at most as wide as the rectangle.
    TabLabel { tab: usize },
    /// Pointer.
    Cursor,
    /// Band of a gradient, counted from the top.
    Band { index: i32 },
}

/// Something drawn, in coordinates of the output.
#[derive(Debug, Clone, Copy, PartialEq, Eq, Structural)]
pub struct Item {
    pub shape: Shape,
    pub rect: Rect,
}

/// What is drawn besides the windows.
#[derive(Debug)]
pub struct Overlay {
    /// Over the windows, the lowest first.
    pub above: Vec<Item>,
    /// Behind the windows, the highest first.
    pub below: Vec<Item>,
}

/// Two rectangles have a point in common.
pub open spec fn overlap(a: Rect, b: Rect) -> bool {
    &&& a.x < b.x + b.width
    &&& b.x < a.x + a.width
    &&& a.y < b.y + b.height
    &&& b.y < a.y + a.height
}

fn is_overlap(a: Rect, b: Rect) -> (r: bool)
    ensures
        r == overlap(a, b),
{
    (a.x as i64) < b.x as i64 + b.width as i64 && (b.x as i64) < a.x as i64 + a.width as i64 && (
    a.y as i64) < b.y as i64 + b.height as i64 && (b.y as i64) < a.y as i64 + a.height as i64
}

/// The edges of a window that the output shows can be written down in the output's coordinates,
/// with a border around.
pub open spec fn drawable(area: Rect, r: Rect) -> bool {
    overlap(area, r) ==> {
        &&& 0 <= r.width <= i32::MAX - 2 * FOCUS_BORDER
        &&& 0 <= r.height <= i32::MAX - 2 * FOCUS_BORDER
        &&& in_i32(r.x - FOCUS_BORDER - area.x)
        &&& in_i32(r.y - FOCUS_BORDER - area.y)
        &&& in_i32(r.x + r.width - area.x)
        &&& in_i32(r.y + r.height - area.y)
    }
}

fn fits(n: i64) -> (r: bool)
    ensures
        r == in_i32(n as int),
{
    i32::MIN as i64 <= n && n <= i32::MAX as i64
}

/// Whether the edges of a window that the output shows can be written down in the output's
/// coordinates.
pub fn can_draw(area: Rect, r: Rect) -> (ok: bool)
    ensures
        ok == drawable(area, r),
{
    if !is_overlap(area, r) {
        return true;
    }
    0 <= r.width && r.width <= i32::MAX - 2 * FOCUS_BORDER && 0 <= r.height && r.height <= i32::MAX
        - 2 * FOCUS_BORDER && fits(r.x as i64 - FOCUS_BORDER as i64 - area.x as i64) && fits(
        r.y as i64 - FOCUS_BORDER as i64 - area.y as i64,
    ) && fits(r.x as i64 + r.width as i64 - area.x as i64) && fits(
        r.y as i64 + r.height as i64 - area.y as i64,
    )
}

/// The border behind the focused window, on the output that shows the window.
pub open spec fn focus_items(area: Rect, focused: Option<Rect>) -> Seq<Item> {
    match focused {
        Some(r) => if overlap(area, r) {
            seq![
                Item {
                    shape: Shape::FocusBorder,
                    rect: Rect {
                        x: (r.x - FOCUS_BORDER - area.x) as i32,
                        y: (r.y - FOCUS_BORDER - area.y) as i32,
                        width: (r.width + 2 * FOCUS_BORDER) as i32,
                        height: (r.height + 2 * FOCUS_BORDER) as i32,
                    },
                },
            ]
        } else {
            Seq::empty()
        },
        None => Seq::empty(),
    }
}

/// A strip at a place.
pub open spec fn edge(x: int, y: int, width: int, height: int) -> Item {
    Item {
        shape: Shape::FloatEdge,
        rect: Rect { x: x as i32, y: y as i32, width: width as i32, height: height as i32 },
    }
}

/// The strips along the edges of one floating window: top, bottom, left, right.
pub open spec fn window_edges(area: Rect, r: Rect) -> Seq<Item> {
    let x = r.x - area.x;
    let y = r.y - area.y;
    if overlap(area, r) && r.width > SMALL_WINDOW && r.height > SMALL_WINDOW {
        seq![
            edge(x, y, r.width as int, FLOAT_EDGE as int),
            edge(x, y + r.height - FLOAT_EDGE, r.width as int, FLOAT_EDGE as int),
            edge(x, y, FLOAT_EDGE as int, r.height as int),
            edge(x + r.width - FLOAT_EDGE, y, FLOAT_EDGE as int, r.height as int),
        ]
    } else {
        Seq::empty()
    }
}

/// The strips along the edges of the floating windows.
pub open spec fn float_items(area: Rect, floats: Seq<Rect>) -> Seq<Item>
    decreases floats.len(),
{
    if floats.len() == 0 {
        Seq::empty()
    } else {
        float_items(area, floats.drop_last()) + window_edges(area, floats.last())
    }
}

/// Part of a title bar.
pub open spec fn tab_part(shape: Shape, x: int, y: int, width: int, height: int) -> Item {
    Item {
        shape,
        rect: Rect { x: x as i32, y: y as i32, width: width as i32, height: height as i32 },
    }
}

/// What one title bar is made of.
pub open spec fn one_tab(tab: Tab, i: int, height: int, gap: int, width: int) -> Seq<Item> {
    let y = gap + i * height;
    let inner = width - 2 * gap;
    seq![
        tab_part(Shape::TabBackground { focused: tab.focused }, gap, y, inner, height),
        tab_part(Shape::TabStripe { focused: tab.focused }, gap, y, TAB_STRIPE as int, height),
        tab_part(Shape::TabSeparator, gap, y + height - 1, inner, 1),
    ] + (if tab.title@.len() > 0 || tab.app_id@.len() > 0 {
        seq![
            tab_part(
                Shape::TabLabel { tab: i as usize },
                gap + TAB_PADDING,
                y,
                inner - TAB_MARGIN,
                height,
            ),
        ]
    } else {
        Seq::empty()
    })
}

/// The title bars of the first `n` windows.
pub open spec fn tab_items(t: StackedTabs, n: int, width: int) -> Seq<Item>
    decreases n,
{
    if n <= 0 {
        Seq::empty()
    } else {
        tab_items(t, n - 1, width) + one_tab(
            t.tabs@[n - 1],
            n - 1,
            t.tab_height as int,
            t.gap as int,
            width,
        )
    }
}

/// All title bars of an output.
pub open spec fn all_tabs(tabs: Option<StackedTabs>, width: int) -> Seq<Item> {
    match tabs {
        Some(t) => tab_items(t, t.tabs@.len() as int, width),
        None => Seq::empty(),
    }
}

/// Every coordinate of the title bars can be written down.
pub open spec fn tabs_fit(t: StackedTabs, width: int) -> bool {
    &&& in_i32(width - 2 * t.gap)
    &&& in_i32(width - 2 * t.gap - TAB_MARGIN)
    &&& in_i32(t.gap + TAB_PADDING)
    &&& 0 <= t.tab_height
    &&& in_i32(t.gap + t.tabs@.len() * t.tab_height)
    &&& t.gap > i32::MIN
}

/// Whether every coordinate of the title bars can be written down.
pub fn can_draw_tabs(t: &StackedTabs, width: i32) -> (ok: bool)
    ensures
        ok == tabs_fit(*t, width as int),
{
    let inner: i64 = width as i64 - 2 * t.gap as i64;
    let n: usize = t.tabs.len();
    if t.tab_height < 0 || !fits(inner) || !fits(inner - TAB_MARGIN as i64) || !fits(
        t.gap as i64 + TAB_PADDING as i64,
    ) || t.gap == i32::MIN {
        return false;
    }
    assert(0 <= n * t.tab_height <= 0xffff_ffff_ffff_ffff * 0x7fff_ffff) by (nonlinear_arith)
        requires
            0 <= n <= 0xffff_ffff_ffff_ffff,
            0 <= t.tab_height <= 0x7fff_ffff,
    ;
    let total: i128 = n as i128 * t.tab_height as i128;
    i32::MIN as i128 <= t.gap as i128 + total && t.gap as i128 + total <= i32::MAX as i128
}

/// The pointer, on the output that shows it.
pub open spec fn cursor_items(area: Rect, cursor: Option<(i32, i32)>) -> Seq<Item> {
    match cursor {
        Some((x, y)) => if overlap(
            area,
            Rect { x, y, width: CURSOR_SIZE, height: CURSOR_SIZE },
        ) {
            seq![
                Item {
                    shape: Shape::Cursor,
                    rect: Rect {
                        x: (x - area.x) as i32,
                        y: (y - area.y) as i32,
                        width: CURSOR_SIZE,
                        height: CURSOR_SIZE,
                    },
                },
            ]
        } else {
            Seq::empty()
        },
        None => Seq::empty(),
    }
}

/// Height of a band of a gradient.
pub open spec fn band_height(height: int) -> int {
    (height + BANDS - 1) / BANDS as int
}

/// Number of bands that a gradient needs.
pub open spec fn band_count(height: int) -> int {
    if height <= 0 {
        0
    } else {
        (height + band_height(height) - 1) / band_height(height)
    }
}

/// Band `i` of a gradient.
pub open spec fn band(width: int, height: int, i: int) -> Item {
    let y = i * band_height(height);
    let rest = height - y;
    Item {
        shape: Shape::Band { index: i as i32 },
        rect: Rect {
            x: 0,
            y: y as i32,
            width: width as i32,
            height: (if band_height(height) < rest {
                band_height(height)
            } else {
                rest
            }) as i32,
        },
    }
}

/// The bands of a gradient, from the top.
pub open spec fn gradient_items(size: Option<(i32, i32)>) -> Seq<Item> {
    match size {
        Some((width, height)) => Seq::new(
            band_count(height as int) as nat,
            |i: int| band(width as int, height as int, i),
        ),
        None => Seq::empty(),
    }
}

/// Facts on the size and number of bands.
pub(crate) proof fn lemma_bands(height: int)
    requires
        0 < height <= i32::MAX,
    ensures
        1 <= band_height(height) <= height,
        1 <= band_count(height) <= BANDS,
        band_count(height) * band_height(height) >= height,
        (band_count(height) - 1) * band_height(height) < height,
{
    let b = band_height(height);
    let n = band_count(height);
    assert(b * BANDS >= height && 1 <= b <= height);
    assert(b * n <= height + b - 1 < b * n + b) by (nonlinear_arith)
        requires
            n == (height + b - 1) / b,
            b > 0,
    ;
    assert((n - 1) * b == n * b - b) by (nonlinear_arith);
    assert(n <= BANDS) by (nonlinear_arith)
        requires
            n * b - b < height <= b * BANDS,
            b > 0,
    ;
    assert(n >= 1) by (nonlinear_arith)
        requires
            n * b >= height > 0,
            b > 0,
    ;
}

/// The bands of a gradient start at the top, each where the one above ends, and end at the bottom:
/// they cover the output once.
pub proof fn lemma_gradient_covers(width: i32, height: i32, i: int)
    requires
        0 < height,
        0 <= i < gradient_items(Some((width, height))).len(),
    ensures
        ({
            let items = gradient_items(Some((width, height)));
            let r = items[i].rect;
            &&& r.x == 0 && r.width == width
            &&& r.height > 0
            &&& items[0].rect.y == 0
            &&& r.y + r.height == (if i + 1 < items.len() {
                items[i + 1].rect.y as int
            } else {
                height as int
            })
        }),
{
    lemma_bands(height as int);
    let b = band_height(height as int);
    let n = band_count(height as int);
    assert((i + 1) * b == i * b + b) by (nonlinear_arith);
    assert(0 <= i * b <= (n - 1) * b) by (nonlinear_arith)
        requires
            0 <= i <= n - 1,
            b > 0,
    ;
    if i + 1 < n {
        assert((i + 1) * b <= (n - 1) * b) by (nonlinear_arith)
            requires
                i + 1 <= n - 1,
                b > 0,
        ;
    }
    assert(0 * b == 0);
}

/// Everything over the windows.
pub open spec fn above_items(
    area: Rect,
    floats: Seq<Rect>,
    tabs: Option<StackedTabs>,
    width: int,
    cursor: Option<(i32, i32)>,
) -> Seq<Item> {
    float_items(area, floats) + all_tabs(tabs, width) + cursor_items(area, cursor)
}

/// Everything behind the windows.
pub open spec fn below_items(
    area: Rect,
    focused: Option<Rect>,
    gradient: bool,
    size: Option<(i32, i32)>,
) -> Seq<Item> {
    focus_items(area, focused) + (if gradient {
        gradient_items(size)
    } else {
        Seq::empty()
    })
}

/// Width of an output by its mode.
pub open spec fn mode_width(size: Option<(i32, i32)>) -> int {
    match size {
        Some((w, _)) => w as int,
        None => DEFAULT_WIDTH as int,
    }
}

fn push_focus(area: Rect, focused: Option<Rect>, items: &mut Vec<Item>)
    requires
        focused is Some ==> drawable(area, focused->0),
    ensures
        final(items)@ == old(items)@ + focus_items(area, focused),
{
    match focused {
        Some(r) => {
            if is_overlap(area, r) {
                items.push(
                    Item {
                        shape: Shape::FocusBorder,
                        rect: Rect {
                            x: (r.x as i64 - FOCUS_BORDER as i64 - area.x as i64) as i32,
                            y: (r.y as i64 - FOCUS_BORDER as i64 - area.y as i64) as i32,
                            width: r.width + 2 * FOCUS_BORDER,
                            height: r.height + 2 * FOCUS_BORDER,
                        },
                    },
                );
            }
        },
        None => {},
    }
    assert(items@ =~= old(items)@ + focus_items(area, focused));
}

fn push_edges(area: Rect, r: Rect, items: &mut Vec<Item>)
    requires
        drawable(area, r),
    ensures
        final(items)@ == old(items)@ + window_edges(area, r),
{
    if is_overlap(area, r) && r.width > SMALL_WINDOW && r.height > SMALL_WINDOW {
        let x: i32 = (r.x as i64 - area.x as i64) as i32;
        let y: i32 = (r.y as i64 - area.y as i64) as i32;
        let w: i32 = r.width;
        let h: i32 = r.height;
        let e: i32 = FLOAT_EDGE;
        items.push(Item { shape: Shape::FloatEdge, rect: Rect { x, y, width: w, height: e } });
        items.push(
            Item { shape: Shape::FloatEdge, rect: Rect { x, y: y + h - e, width: w, height: e } },
        );
        items.push(Item { shape: Shape::FloatEdge, rect: Rect { x, y, width: e, height: h } });
        items.push(
            Item { shape: Shape::FloatEdge, rect: Rect { x: x + w - e, y, width: e, height: h } },
        );
    }
    assert(items@ =~= old(items)@ + window_edges(area, r));
}

fn push_tab(t: &StackedTabs, i: usize, width: i32, items: &mut Vec<Item>)
    requires
        tabs_fit(*t, width as int),
        i < t.tabs@.len(),
    ensures
        final(items)@ == old(items)@ + one_tab(
            t.tabs@[i as int],
            i as int,
            t.tab_height as int,
            t.gap as int,
            width as int,
        ),
{
    let h: i32 = t.tab_height;
    let gap: i32 = t.gap;
    assert(0 <= i * h <= t.tabs@.len() * h - h) by (nonlinear_arith)
        requires
            i < t.tabs@.len(),
            0 <= h,
    ;
    let y: i32 = (gap as i64 + (i as i128 * h as i128) as i64) as i32;
    let inner: i32 = (width as i64 - 2 * gap as i64) as i32;
    let tab = &t.tabs[i];
    items.push(
        Item {
            shape: Shape::TabBackground { focused: tab.focused },
            rect: Rect { x: gap, y, width: inner, height: h },
        },
    );
    items.push(
        Item {
            shape: Shape::TabStripe { focused: tab.focused },
            rect: Rect { x: gap, y, width: TAB_STRIPE, height: h },
        },
    );
    items.push(
        Item {
            shape: Shape::TabSeparator,
            rect: Rect { x: gap, y: (y as i64 + h as i64 - 1) as i32, width: inner, height: 1 },
        },
    );
    if tab.title.as_str().unicode_len() > 0 || tab.app_id.as_str().unicode_len() > 0 {
        items.push(
            Item {
                shape: Shape::TabLabel { tab: i },
                rect: Rect { x: gap + TAB_PADDING, y, width: inner - TAB_MARGIN, height: h },
            },
        );
    }
    assert(items@ =~= old(items)@ + one_tab(
        t.tabs@[i as int],
        i as int,
        t.tab_height as int,
        t.gap as int,
        width as int,
    ));
}

fn push_gradient(width: i32, height: i32, items: &mut Vec<Item>)
    ensures
        final(items)@ == old(items)@ + gradient_items(Some((width, height))),
{
    let ghost before = items@;
    if height <= 0 {
        assert(items@ =~= before + gradient_items(Some((width, height))));
        return;
    }
    proof {
        lemma_bands(height as int);
    }
    let b: i32 = ((height as i64 + BANDS as i64 - 1) / BANDS as i64) as i32;
    let ghost n = band_count(height as int);
    let mut i: i32 = 0;
    let mut y: i64 = 0;
    assert(0 * b as int == 0);
    while y < height as i64
        invariant
            0 < height,
            b == band_height(height as int),
            1 <= b <= height,
            n == band_count(height as int),
            0 <= i <= n <= BANDS,
            n * b >= height,
            (n - 1) * b < height,
            y == i * b,
            0 <= y,
            items@ =~= before + gradient_items(Some((width, height))).take(i as int),
        decreases n - i,
    {
        assert(i < n) by (nonlinear_arith)
            requires
                i * b < height <= n * b,
                b > 0,
        ;
        let rest: i32 = (height as i64 - y) as i32;
        items.push(
            Item {
                shape: Shape::Band { index: i },
                rect: Rect {
                    x: 0,
                    y: y as i32,
                    width,
                    height: if b < rest {
                        b
                    } else {
                        rest
                    },
                },
            },
        );
        assert((i + 1) * b == i * b + b) by (nonlinear_arith);
        i = i + 1;
        y = y + b as i64;
    }
    assert(i == n) by (nonlinear_arith)
        requires
            i * b >= height,
            (n - 1) * b < height,
            i <= n,
            b > 0,
    ;
    assert(gradient_items(Some((width, height))).take(i as int) =~= gradient_items(
        Some((width, height)),
    ));
}

/// What is drawn besides the windows: a border behind the focused window, strips along the edges
/// of floating windows, title bars, the pointer, and the bands of a gradient behind everything.
/// `area` is the output in the compositor's space, `size` its mode, `floats` are the floating
/// windows, and `cursor` is the pointer where it is drawn.
pub fn build_overlay(
    area: Rect,
    size: Option<(i32, i32)>,
    focused: Option<Rect>,
    floats: &[Rect],
    tabs: &Option<StackedTabs>,
    cursor: Option<(i32, i32)>,
    gradient: bool,
) -> (r: Overlay)
    requires
        geometry_ok(area),
        focused is Some ==> drawable(area, focused->0),
        forall|i: int| 0 <= i < floats@.len() ==> drawable(area, #[trigger] floats@[i]),
        *tabs is Some ==> tabs_fit(tabs->0, mode_width(size)),
    ensures
        r.above@ == above_items(area, floats@, *tabs, mode_width(size), cursor),
        r.below@ == below_items(area, focused, gradient, size),
{
    let mut below: Vec<Item> = Vec::new();
    push_focus(area, focused, &mut below);
    if gradient {
        match size {
            Some((width, height)) => {
                push_gradient(width, height, &mut below);
            },
            None => {},
        }
    }
    assert(below@ =~= below_items(area, focused, gradient, size));
    let mut above: Vec<Item> = Vec::new();
    let mut i: usize = 0;
    while i < floats.len()
        invariant
            i <= floats@.len(),
            forall|k: int| 0 <= k < floats@.len() ==> drawable(area, #[trigger] floats@[k]),
            above@ =~= float_items(area, floats@.take(i as int)),
        decreases floats@.len() - i,
    {
        assert(floats@.take(i + 1).drop_last() =~= floats@.take(i as int));
        push_edges(area, floats[i], &mut above);
        i = i + 1;
    }
    assert(floats@.take(i as int) =~= floats@);
    let width: i32 = match size {
        Some((w, _)) => w,
        None => DEFAULT_WIDTH,
    };
    match tabs {
        Some(t) => {
            let mut k: usize = 0;
            while k < t.tabs.len()
                invariant
                    k <= t.tabs@.len(),
                    tabs_fit(*t, width as int),
                    above@ =~= float_items(area, floats@) + tab_items(*t, k as int, width as int),
                decreases t.tabs@.len() - k,
            {
                push_tab(t, k, width, &mut above);
                k = k + 1;
            }
        },
        None => {},
    }
    assert(above@ =~= float_items(area, floats@) + all_tabs(*tabs, width as int));
    match cursor {
        Some((x, y)) => {
            if is_overlap(area, Rect { x, y, width: CURSOR_SIZE, height: CURSOR_SIZE }) {
                above.push(
                    Item {
                        shape: Shape::Cursor,
                        rect: Rect {
                            x: (x as i64 - area.x as i64) as i32,
                            y: (y as i64 - area.y as i64) as i32,
                            width: CURSOR_SIZE,
                            height: CURSOR_SIZE,
                        },
                    },
                );
            }
        },
        None => {},
    }
    assert(above@ =~= above_items(area, floats@, *tabs, width as int, cursor));
    Overlay { above, below }
}

} // verus!
