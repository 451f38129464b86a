//! What is drawn: colours, what lies over and behind the windows, labels and pointers.

use crate::background::{
    lemma_two_colors_are_a_gradient, parse_background, parse_color, parts_colors, Background, Color,
};
use crate::compositor::state::geometry_ok;
use crate::compositor::tabs::StackedTabs;
use crate::cursors::{
    alias_added, alias_names, aliases_added, cursor_size, image_ok, shape_named, CursorCache,
    CursorData, CursorEntry, CursorImage,
};
use crate::encode::planes::{lemma_grid_index, lemma_row_col};
use crate::label::{alpha_at, covered, label_fits, origin, render_glyphs, Glyph};
use crate::overlay::{
    all_tabs, build_overlay, cursor_items, drawable, float_items, focus_items, gradient_items,
    lemma_gradient_covers, mode_width, one_tab, tab_items, tabs_fit, window_edges, Item, Overlay,
    Shape,
};
use crate::text::{
    decimal, is_digit, is_real, is_space, lemma_decimal_reads_back, split_on, trimmed,
};
use crate::tiling::Rect;
use vstd::prelude::*;

verus! {

/// A character is the hexadecimal digit of a value, in either case.
pub open spec fn writes(c: char, v: int) -> bool {
    ||| 0 <= v < 10 && c as int == '0' as int + v
    ||| 10 <= v < 16 && c as int == 'a' as int + (v - 10)
    ||| 10 <= v < 16 && c as int == 'A' as int + (v - 10)
}

/// No character of a text is white space or one of two others.
pub open spec fn is_word(s: Seq<char>) -> bool {
    forall|k: int| 0 <= k < s.len() ==> !is_space(#[trigger] s[k]) && s[k] != ',' && s[k] != '#'
}

proof fn lemma_word_is_trimmed(s: Seq<char>)
    requires
        s.len() > 0,
        !is_space(s[0]),
        !is_space(s.last()),
    ensures
        trimmed(s) == s,
{
}

/// Six hexadecimal digits after a number sign are the red, green and blue of a colour, two digits each,
/// the higher first.
pub proof fn lemma_hex_colors_are_read(text: &[char], v: Seq<int>, r: Option<Color>)
    requires
        text@.len() == 7,
        v.len() == 6,
        text@[0] == '#',
        forall|k: int| 0 <= k < 6 ==> writes(text@[k + 1], #[trigger] v[k]),
        call_ensures(parse_color, (text,), r),
    ensures
        r matches Some(Color::Hex(red, green, blue)) && red == 16 * v[0] + v[1] && green == 16 * v[2]
            + v[3] && blue == 16 * v[4] + v[5],
{
    let s = text@;
    assert(writes(s[1], v[0]) && writes(s[2], v[1]) && writes(s[3], v[2]));
    assert(writes(s[4], v[3]) && writes(s[5], v[4]) && writes(s[6], v[5]));
    lemma_word_is_trimmed(s);
    let hex = s.skip(1);
    assert(hex.len() == 6);
    assert(hex[0] == s[1] && hex[1] == s[2] && hex[2] == s[3] && hex[3] == s[4] && hex[4] == s[5]
        && hex[5] == s[6]);
}

proof fn lemma_split_more(a: Seq<char>, b: Seq<char>)
    requires
        forall|k: int| 0 <= k < b.len() ==> #[trigger] b[k] != ',',
    ensures
        split_on(a + seq![','] + b, ',') == split_on(a, ',').push(b),
    decreases b.len(),
{
    let s = a + seq![','] + b;
    if b.len() == 0 {
        assert(s.drop_last() =~= a);
        assert(b =~= Seq::<char>::empty());
    } else {
        let front = b.drop_last();
        lemma_split_more(a, front);
        assert(s.drop_last() =~= a + seq![','] + front);
        assert(s.last() == b.last() && b.last() == b[b.len() - 1]);
        assert(front.push(b.last()) =~= b);
        assert(split_on(s, ',') =~= split_on(a, ',').push(b));
    }
}

proof fn lemma_split_none(s: Seq<char>)
    requires
        forall|k: int| 0 <= k < s.len() ==> #[trigger] s[k] != ',',
    ensures
        split_on(s, ',') == seq![s],
    decreases s.len(),
{
    if s.len() > 0 {
        let front = s.drop_last();
        assert(forall|k: int| 0 <= k < front.len() ==> #[trigger] front[k] == s[k]);
        lemma_split_none(front);
        assert(s[s.len() - 1] != ',');
        assert(front.push(s.last()) =~= s);
        assert(split_on(s, ',') =~= seq![s]);
    } else {
        assert(s =~= Seq::<char>::empty());
        assert(split_on(s, ',') =~= seq![s]);
    }
}

/// Three numbers with commas between are the red, green and blue of a colour.
pub proof fn lemma_number_colors_are_read(
    text: &[char],
    red: Seq<char>,
    green: Seq<char>,
    blue: Seq<char>,
    r: Option<Color>,
)
    requires
        red.len() > 0 && green.len() > 0 && blue.len() > 0,
        is_word(red) && is_word(green) && is_word(blue),
        is_real(red) && is_real(green) && is_real(blue),
        text@ == red + seq![','] + green + seq![','] + blue,
        call_ensures(parse_color, (text,), r),
    ensures
        r matches Some(Color::Numbers { red: a, green: b, blue: c }) && a@ == red && b@ == green && c@
            == blue,
{
    let s = text@;
    assert(s[0] == red[0]);
    assert(s.last() == blue[blue.len() - 1]);
    assert(green[0] == green[0] && blue[0] == blue[0]);
    assert(red.last() == red[red.len() - 1] && green.last() == green[green.len() - 1]);
    lemma_word_is_trimmed(s);
    lemma_split_none(red);
    lemma_split_more(red, green);
    lemma_split_more(red + seq![','] + green, blue);
    let parts = split_on(s, ',');
    assert(parts =~= seq![red, green, blue]);
    lemma_word_is_trimmed(red);
    lemma_word_is_trimmed(green);
    lemma_word_is_trimmed(blue);
}

/// One colour is a background of this colour; two with a minus sign between, a gradient from the first at
/// the top to the second at the bottom.
pub proof fn lemma_backgrounds_are_read(
    text: &str,
    first: &[char],
    second: &[char],
    a: Option<Color>,
    b: Option<Color>,
    r: Option<Background>,
)
    requires
        !first@.contains('-'),
        call_ensures(parse_color, (first,), a),
        call_ensures(parse_color, (second,), b),
        call_ensures(parse_background, (text,), r),
    ensures
        text@ == first@ ==> (a is Some <==> r is Some),
        text@ == first@ && a is Some ==> (r->0 matches Background::Solid(c) && c@ == a->0@),
        text@ == first@ + seq!['-'] + second@ && a is Some && b is Some ==> r is Some && (
        r->0 matches Background::Gradient { top, bottom } && top@ == a->0@ && bottom@ == b->0@),
{
    if text@ == first@ {
        lemma_no_parting(text@, 0);
    }
    if a is Some && b is Some {
        lemma_two_colors_are_a_gradient(first@, second@);
    }
}

proof fn lemma_no_parting(s: Seq<char>, i: int)
    requires
        0 <= i <= s.len(),
        !s.contains('-'),
    ensures
        crate::background::first_parting(s, i) == s.len(),
    decreases s.len() - i,
{
    if i < s.len() {
        assert(s.contains(s[i]));
        assert(!parts_colors(s, i));
        lemma_no_parting(s, i + 1);
    }
}

/// A rectangle of an output lies so in the space of all outputs.
pub open spec fn lies(rect: Rect, area: Rect, left: int, top: int, right: int, bottom: int) -> bool {
    &&& area.x + rect.x == left
    &&& area.y + rect.y == top
    &&& area.x + rect.x + rect.width == right
    &&& area.y + rect.y + rect.height == bottom
}

/// An output shows part of a rectangle.
pub open spec fn shows(area: Rect, r: Rect) -> bool {
    &&& area.x < r.x + r.width && r.x < area.x + area.width
    &&& area.y < r.y + r.height && r.y < area.y + area.height
}

/// Behind the windows, before all else, comes the border of the focused window, two pixels wider on each
/// side, where the output shows it. A gradient comes in bands that start at the top, one below the other,
/// each as wide as the output, and end at the bottom. There are at most 64, and they are equally high but
/// for the last.
pub proof fn lemma_what_lies_behind(
    area: Rect,
    size: Option<(i32, i32)>,
    focused: Option<Rect>,
    floats: &[Rect],
    tabs: &Option<StackedTabs>,
    cursor: Option<(i32, i32)>,
    gradient: bool,
    r: Overlay,
)
    requires
        geometry_ok(area),
        focused matches Some(f) ==> drawable(area, f),
        call_ensures(build_overlay, (area, size, focused, floats, tabs, cursor, gradient), r),
    ensures
        ({
            let bordered = focused is Some && shows(area, focused->0);
            let from: int = if bordered {
                1
            } else {
                0
            };
            let n = r.below@.len();
            &&& bordered ==> {
                let f = focused->0;
                &&& n >= 1
                &&& r.below@[0].shape is FocusBorder
                &&& lies(r.below@[0].rect, area, f.x - 2, f.y - 2, f.x + f.width + 2, f.y + f.height + 2)
            }
            &&& !gradient || size is None ==> n == from
            &&& gradient ==> (size matches Some(wh) ==> (wh.1 > 0 ==> {
                &&& n > from
                &&& r.below@[from].rect.y == 0
                &&& r.below@[n - 1].rect.y + r.below@[n - 1].rect.height == wh.1
                &&& forall|k: int|
                    from <= k < n ==> {
                        &&& (#[trigger] r.below@[k]).shape == Shape::Band { index: (k - from) as i32 }
                        &&& r.below@[k].rect.x == 0 && r.below@[k].rect.width == wh.0
                        &&& r.below@[k].rect.height > 0
                    }
                &&& forall|k: int|
                    from < k < n ==> (#[trigger] r.below@[k]).rect.y == r.below@[k - 1].rect.y
                        + r.below@[k - 1].rect.height
                &&& n - from <= 64
                &&& forall|k: int|
                    from <= k < n - 1 ==> wh.1 <= 64 * (#[trigger] r.below@[k]).rect.height < wh.1 + 64
            }))
        }),
{
    let head = focus_items(area, focused);
    let from = head.len() as int;
    let (width, height) = match size {
        Some(wh) => wh,
        None => (0i32, 0i32),
    };
    if gradient && size is Some && height > 0 {
        let bands = gradient_items(Some((width, height)));
        crate::overlay::lemma_bands(height as int);
        assert(r.below@ =~= head + bands);
        assert forall|k: int| from <= k < r.below@.len() implies #[trigger] r.below@[k] == bands[k
            - from] by {}
        lemma_gradient_covers(width, height, 0);
        lemma_gradient_covers(width, height, bands.len() - 1);
        assert forall|k: int| from <= k < r.below@.len() implies {
            &&& (#[trigger] r.below@[k]).shape == Shape::Band { index: (k - from) as i32 }
            &&& r.below@[k].rect.x == 0 && r.below@[k].rect.width == width
            &&& r.below@[k].rect.height > 0
        } by {
            lemma_gradient_covers(width, height, k - from);
            assert(r.below@[k] == bands[k - from]);
        }
        assert forall|k: int| from < k < r.below@.len() implies (#[trigger] r.below@[k]).rect.y
            == r.below@[k - 1].rect.y + r.below@[k - 1].rect.height by {
            lemma_gradient_covers(width, height, k - 1 - from);
            assert(r.below@[k] == bands[k - from]);
            assert(r.below@[k - 1] == bands[k - 1 - from]);
        }
        assert forall|k: int| from <= k < r.below@.len() - 1 implies height <= 64 * (
        #[trigger] r.below@[k]).rect.height < height + 64 by {
            lemma_gradient_covers(width, height, k - from);
            assert(r.below@[k] == bands[k - from]);
            let b = crate::overlay::band_height(height as int);
            let n = bands.len() as int;
            let i = k - from;
            assert((i + 1) * b == i * b + b) by (nonlinear_arith);
            assert((i + 1) * b <= (n - 1) * b) by (nonlinear_arith)
                requires
                    i + 1 <= n - 1,
                    b > 0,
            ;
        }
    }
}

/// Four strips of three pixels run along the top, the bottom, the left and the right of a window.
pub open spec fn are_strips(items: Seq<Item>, j: int, area: Rect, f: Rect) -> bool {
    let right = f.x + f.width;
    let bottom = f.y + f.height;
    &&& 0 <= j && j + 4 <= items.len()
    &&& items[j].shape is FloatEdge && items[j + 1].shape is FloatEdge
    &&& items[j + 2].shape is FloatEdge && items[j + 3].shape is FloatEdge
    &&& lies(items[j].rect, area, f.x as int, f.y as int, right, f.y + 3)
    &&& lies(items[j + 1].rect, area, f.x as int, bottom - 3, right, bottom)
    &&& lies(items[j + 2].rect, area, f.x as int, f.y as int, f.x + 3, bottom)
    &&& lies(items[j + 3].rect, area, right - 3, f.y as int, right, bottom)
}

proof fn lemma_strips(area: Rect, floats: Seq<Rect>, k: int) -> (j: int)
    requires
        0 <= k < floats.len(),
        drawable(area, floats[k]),
        shows(area, floats[k]),
        floats[k].width > 10 && floats[k].height > 10,
    ensures
        are_strips(float_items(area, floats), j, area, floats[k]),
    decreases floats.len(),
{
    let front = floats.drop_last();
    let before = float_items(area, front);
    if k == floats.len() - 1 {
        let j = before.len() as int;
        let strips = window_edges(area, floats[k]);
        assert(float_items(area, floats)[j] == strips[0]);
        assert(float_items(area, floats)[j + 1] == strips[1]);
        assert(float_items(area, floats)[j + 2] == strips[2]);
        assert(float_items(area, floats)[j + 3] == strips[3]);
        j
    } else {
        let j = lemma_strips(area, front, k);
        assert(float_items(area, floats)[j] == before[j]);
        assert(float_items(area, floats)[j + 1] == before[j + 1]);
        assert(float_items(area, floats)[j + 2] == before[j + 2]);
        assert(float_items(area, floats)[j + 3] == before[j + 3]);
        j
    }
}

/// A floating window of more than ten pixels that the output shows has strips along its edges, over the
/// windows.
pub proof fn lemma_floating_windows_are_framed(
    area: Rect,
    size: Option<(i32, i32)>,
    focused: Option<Rect>,
    floats: &[Rect],
    tabs: &Option<StackedTabs>,
    cursor: Option<(i32, i32)>,
    gradient: bool,
    r: Overlay,
    k: int,
)
    requires
        geometry_ok(area),
        0 <= k < floats@.len(),
        drawable(area, floats@[k]),
        shows(area, floats@[k]),
        floats@[k].width > 10 && floats@[k].height > 10,
        call_ensures(build_overlay, (area, size, focused, floats, tabs, cursor, gradient), r),
    ensures
        exists|j: int| #[trigger] are_strips(r.above@, j, area, floats@[k]),
{
    let j = lemma_strips(area, floats@, k);
    let strips = float_items(area, floats@);
    assert(r.above@[j] == strips[j]);
    assert(r.above@[j + 1] == strips[j + 1]);
    assert(r.above@[j + 2] == strips[j + 2]);
    assert(r.above@[j + 3] == strips[j + 3]);
    assert(are_strips(r.above@, j, area, floats@[k]));
}

/// The pointer is drawn over all else, at its place, on the output that shows it; on another one it is
/// not drawn.
pub proof fn lemma_pointer_is_on_top(
    area: Rect,
    size: Option<(i32, i32)>,
    focused: Option<Rect>,
    floats: &[Rect],
    tabs: &Option<StackedTabs>,
    x: i32,
    y: i32,
    gradient: bool,
    r: Overlay,
)
    requires
        geometry_ok(area),
        call_ensures(build_overlay, (area, size, focused, floats, tabs, Some((x, y)), gradient), r),
    ensures
        area.x < x + 8 && x < area.x + area.width && area.y < y + 8 && y < area.y + area.height ==> {
            &&& r.above@.len() > 0
            &&& r.above@.last().shape is Cursor
            &&& lies(r.above@.last().rect, area, x as int, y as int, x + 8, y + 8)
        },
        !(area.x < x + 8 && x < area.x + area.width && area.y < y + 8 && y < area.y + area.height)
            && floats@.len() == 0 && *tabs is None ==> r.above@.len() == 0,
{
    let drawn = cursor_items(area, Some((x, y)));
    if drawn.len() > 0 {
        assert(r.above@.last() == drawn[0]);
    }
}

/// The title bar of one window: its ground, a stripe of three pixels at its left, a line at its bottom,
/// and the name of the window, where it has one.
pub open spec fn is_title_bar(items: Seq<Item>, j: int, t: StackedTabs, k: int, width: int) -> bool {
    let top = t.gap + k * t.tab_height;
    let bottom = top + t.tab_height;
    let right = width - t.gap;
    let ground = items[j].rect;
    let stripe = items[j + 1].rect;
    let line = items[j + 2].rect;
    let label = items[j + 3].rect;
    &&& 0 <= j && j + 3 <= items.len()
    &&& items[j].shape == Shape::TabBackground { focused: t.tabs@[k].focused }
    &&& items[j + 1].shape == Shape::TabStripe { focused: t.tabs@[k].focused }
    &&& items[j + 2].shape == Shape::TabSeparator
    &&& ground.x == t.gap && ground.x + ground.width == right
    &&& ground.y == top && ground.y + ground.height == bottom
    &&& stripe.x == t.gap && stripe.width == 3 && stripe.y == top && stripe.height == t.tab_height
    &&& line.x == t.gap && line.x + line.width == right
    &&& line.y + line.height == bottom && line.height == 1
    &&& t.tabs@[k].title@.len() > 0 || t.tabs@[k].app_id@.len() > 0 ==> {
        &&& j + 4 <= items.len()
        &&& items[j + 3].shape == Shape::TabLabel { tab: k as usize }
        &&& label.x == t.gap + 12 && label.x + label.width == right - 8
        &&& label.y == top && label.height == t.tab_height
    }
}

proof fn lemma_title_bar(t: StackedTabs, n: int, width: int, k: int) -> (j: int)
    requires
        0 <= k < n <= t.tabs@.len(),
        tabs_fit(t, width),
    ensures
        is_title_bar(tab_items(t, n, width), j, t, k, width),
    decreases n,
{
    let before = tab_items(t, n - 1, width);
    let all = tab_items(t, n, width);
    let bar = one_tab(t.tabs@[n - 1], n - 1, t.tab_height as int, t.gap as int, width);
    assert(all =~= before + bar);
    if k == n - 1 {
        let j = before.len() as int;
        assert(0 <= k * t.tab_height && k * t.tab_height + t.tab_height <= t.tabs@.len() * t.tab_height)
            by (nonlinear_arith)
            requires
                0 <= k < t.tabs@.len(),
                0 <= t.tab_height,
        ;
        assert(all[j] == bar[0] && all[j + 1] == bar[1] && all[j + 2] == bar[2]);
        if t.tabs@[k].title@.len() > 0 || t.tabs@[k].app_id@.len() > 0 {
            assert(all[j + 3] == bar[3]);
        }
        j
    } else {
        let j = lemma_title_bar(t, n - 1, width, k);
        assert(all[j] == before[j] && all[j + 1] == before[j + 1] && all[j + 2] == before[j + 2]);
        if t.tabs@[k].title@.len() > 0 || t.tabs@[k].app_id@.len() > 0 {
            assert(all[j + 3] == before[j + 3]);
        }
        j
    }
}

/// The title bars of a stack come one below the other from the top of the output, which is 1920 pixels wide
/// where its mode is not known.
pub proof fn lemma_title_bars_are_drawn(
    area: Rect,
    size: Option<(i32, i32)>,
    width: int,
    focused: Option<Rect>,
    floats: &[Rect],
    tabs: &Option<StackedTabs>,
    cursor: Option<(i32, i32)>,
    gradient: bool,
    r: Overlay,
    k: int,
)
    requires
        geometry_ok(area),
        *tabs is Some,
        width == (match size {
            Some(wh) => wh.0 as int,
            None => 1920,
        }),
        tabs_fit(tabs->0, width),
        0 <= k < tabs->0.tabs@.len(),
        call_ensures(build_overlay, (area, size, focused, floats, tabs, cursor, gradient), r),
    ensures
        exists|j: int| #[trigger] is_title_bar(r.above@, j, tabs->0, k, width),
{
    let t = tabs->0;
    let j = lemma_title_bar(t, t.tabs@.len() as int, width, k);
    let before = float_items(area, floats@);
    let bars = all_tabs(*tabs, width);
    let at = before.len() + j;
    assert(mode_width(size) == width);
    assert(r.above@[at] == bars[j]);
    assert(r.above@[at + 1] == bars[j + 1]);
    assert(r.above@[at + 2] == bars[j + 2]);
    if t.tabs@[k].title@.len() > 0 || t.tabs@[k].app_id@.len() > 0 {
        assert(r.above@[at + 3] == bars[j + 3]);
    }
    assert(is_title_bar(r.above@, at, t, k, width));
}

/// How far the first `k` characters reach.
pub open spec fn reach(glyphs: Seq<Glyph>, k: int) -> int
    decreases k,
{
    if k <= 0 {
        0
    } else {
        reach(glyphs, k - 1) + glyphs[k - 1].advance
    }
}

/// How much of a point at double size one character covers. It starts where those before it end, and its
/// bitmap lies above the baseline by its own distance.
pub open spec fn ink(glyphs: Seq<Glyph>, k: int, baseline: int, px: int, py: int) -> int {
    let g = glyphs[k];
    let column = px - reach(glyphs, k) - g.xmin;
    let up = baseline - g.ymin - py;
    if 0 <= column < g.width && 0 < up <= g.height {
        g.bitmap@[(g.height - up) * g.width + column] as int
    } else {
        0
    }
}

/// The point is covered this much by the character that covers it most.
pub open spec fn is_darkest(glyphs: Seq<Glyph>, baseline: int, px: int, py: int, c: int) -> bool {
    &&& c >= 0
    &&& forall|k: int| 0 <= k < glyphs.len() ==> #[trigger] ink(glyphs, k, baseline, px, py) <= c
    &&& c == 0 || exists|k: int|
        0 <= k < glyphs.len() && #[trigger] ink(glyphs, k, baseline, px, py) == c
}

proof fn lemma_reach(glyphs: Seq<Glyph>, k: int)
    ensures
        reach(glyphs, k) == origin(glyphs, k),
    decreases k,
{
    if k > 0 {
        lemma_reach(glyphs, k - 1);
    }
}

proof fn lemma_all_are_drawn(glyphs: Seq<Glyph>, limit: int, k: int)
    requires
        0 <= k <= glyphs.len(),
        forall|j: int| 0 <= j < glyphs.len() ==> (#[trigger] glyphs[j]).advance >= 0,
        reach(glyphs, glyphs.len() as int) < limit,
    ensures
        reach(glyphs, k) < limit,
        crate::label::drawn_from(glyphs, limit, k) == glyphs.len(),
    decreases glyphs.len() - k,
{
    if k < glyphs.len() {
        lemma_all_are_drawn(glyphs, limit, k + 1);
        lemma_reach(glyphs, k + 1);
        assert(glyphs[k].advance >= 0);
    }
}

proof fn lemma_darkest(glyphs: Seq<Glyph>, baseline: int, n: int, px: int, py: int)
    requires
        0 <= n <= glyphs.len(),
    ensures
        forall|k: int|
            0 <= k < n ==> #[trigger] ink(glyphs, k, baseline, px, py) <= covered(
                glyphs,
                baseline,
                n,
                px,
                py,
            ),
        covered(glyphs, baseline, n, px, py) == 0 || exists|k: int|
            0 <= k < n && #[trigger] ink(glyphs, k, baseline, px, py) == covered(
                glyphs,
                baseline,
                n,
                px,
                py,
            ),
    decreases n,
{
    if n > 0 {
        lemma_darkest(glyphs, baseline, n - 1, px, py);
        lemma_reach(glyphs, n - 1);
        let g = glyphs[n - 1];
        let row = py - (baseline - g.height - g.ymin);
        assert(g.height - (baseline - g.ymin - py) == row);
        assert(ink(glyphs, n - 1, baseline, px, py) == g.coverage(
            origin(glyphs, n - 1) + g.xmin,
            baseline - g.height - g.ymin,
            px,
            py,
        ));
        let before = covered(glyphs, baseline, n - 1, px, py);
        let c = covered(glyphs, baseline, n, px, py);
        if c != 0 && c == before {
            let k = choose|k: int|
                0 <= k < n - 1 && #[trigger] ink(glyphs, k, baseline, px, py) == before;
            assert(ink(glyphs, k, baseline, px, py) == c);
        }
    }
}

/// A label that fits is half as wide as its characters reach at double size. Each of its pixels is as
/// opaque as the four points that it stands for are covered on average, and holds blue, green and red in
/// proportion to that.
pub proof fn lemma_labels_show_their_text(
    glyphs: &[Glyph],
    baseline: i32,
    color: (u8, u8, u8),
    max_width: i32,
    height: i32,
    r: (Vec<u8>, i32, i32),
    x: int,
    y: int,
    c: (int, int, int, int),
)
    requires
        label_fits(glyphs@, baseline as int, max_width as int, height as int),
        forall|j: int| 0 <= j < glyphs@.len() ==> (#[trigger] glyphs@[j]).advance >= 0,
        2 <= reach(glyphs@, glyphs@.len() as int) < 2 * max_width,
        call_ensures(render_glyphs, (glyphs, baseline, color, max_width, height), r),
        0 <= x < r.1,
        0 <= y < height,
        is_darkest(glyphs@, baseline as int, 2 * x, 2 * y, c.0),
        is_darkest(glyphs@, baseline as int, 2 * x + 1, 2 * y, c.1),
        is_darkest(glyphs@, baseline as int, 2 * x, 2 * y + 1, c.2),
        is_darkest(glyphs@, baseline as int, 2 * x + 1, 2 * y + 1, c.3),
    ensures
        r.1 == reach(glyphs@, glyphs@.len() as int) / 2,
        r.2 == height,
        r.0@.len() == 4 * (r.1 * r.2),
        ({
            let at = 4 * (y * r.1 + x);
            let opaque = r.0@[at + 3];
            &&& 0 <= at && at + 3 < r.0@.len()
            &&& 4 * opaque <= c.0 + c.1 + c.2 + c.3 < 4 * opaque + 4
            &&& 255 * r.0@[at] <= color.2 * opaque < 255 * r.0@[at] + 255
            &&& 255 * r.0@[at + 1] <= color.1 * opaque < 255 * r.0@[at + 1] + 255
            &&& 255 * r.0@[at + 2] <= color.0 * opaque < 255 * r.0@[at + 2] + 255
        }),
{
    let n = glyphs@.len() as int;
    let b = baseline as int;
    lemma_reach(glyphs@, n);
    lemma_all_are_drawn(glyphs@, 2 * max_width, 0);
    let w = r.1 as int;
    let i = y * w + x;
    let at = 4 * i;
    lemma_grid_index(y, x, w, height as int);
    lemma_row_col(i, y, x, w);
    assert(w * height == height * w) by (nonlinear_arith);
    assert(0 <= y * w) by (nonlinear_arith)
        requires
            0 <= y,
            0 < w,
    ;
    lemma_darkest(glyphs@, b, n, 2 * x, 2 * y);
    lemma_darkest(glyphs@, b, n, 2 * x + 1, 2 * y);
    lemma_darkest(glyphs@, b, n, 2 * x, 2 * y + 1);
    lemma_darkest(glyphs@, b, n, 2 * x + 1, 2 * y + 1);
    assert(c.0 == covered(glyphs@, b, n, 2 * x, 2 * y));
    assert(c.1 == covered(glyphs@, b, n, 2 * x + 1, 2 * y));
    assert(c.2 == covered(glyphs@, b, n, 2 * x, 2 * y + 1));
    assert(c.3 == covered(glyphs@, b, n, 2 * x + 1, 2 * y + 1));
    let a = alpha_at(glyphs@, b, max_width as int, x, y);
    assert(0 <= a <= 255);
    assert(at / 4 == i && at % 4 == 0);
    assert((at + 1) / 4 == i && (at + 1) % 4 == 1);
    assert((at + 2) / 4 == i && (at + 2) % 4 == 2);
    assert((at + 3) / 4 == i && (at + 3) % 4 == 3);
    assert(0 <= color.0 * a <= 255 * 255 && 0 <= color.1 * a <= 255 * 255 && 0 <= color.2 * a <= 255
        * 255) by (nonlinear_arith)
        requires
            0 <= a <= 255,
            0 <= color.0 <= 255,
            0 <= color.1 <= 255,
            0 <= color.2 <= 255,
    ;
}

/// How far two sizes are apart.
pub open spec fn apart(a: u32, b: u32) -> int {
    if a >= b {
        a - b
    } else {
        b - a
    }
}

/// A pointer is a picture with its rows in the opposite order, and points where the picture does.
pub open spec fn is_upside_down(data: CursorData, image: CursorImage) -> bool {
    &&& data.width == image.width && data.height == image.height
    &&& data.hot_x == image.xhot && data.hot_y == image.yhot
    &&& data.rgba@.len() == image.pixels@.len()
    &&& forall|x: int, y: int|
        0 <= x < 4 * image.width && 0 <= y < image.height ==> data.rgba@[#[trigger] byte_at(
            x,
            image.height - 1 - y,
            image.width as int,
        )] == image.pixels@[byte_at(x, y, image.width as int)]
}

/// Where a byte of a picture lies.
pub open spec fn byte_at(x: int, y: int, width: int) -> int {
    y * (4 * width) + x
}

/// Of the pictures of a pointer, the first of the size nearest to the one that is asked for is taken, and is
/// found by its name from then on. What other names stand for stays. A name that has a picture keeps it.
pub proof fn lemma_pointers_are_found(
    cache: &mut CursorCache,
    name: &str,
    images: Option<Vec<CursorImage>>,
    size: u32,
    other: &str,
    before: Option<&CursorData>,
    after: Option<&CursorData>,
    other_before: Option<&CursorData>,
    other_after: Option<&CursorData>,
)
    requires
        images matches Some(list) ==> forall|i: int|
            0 <= i < list@.len() ==> image_ok(#[trigger] list@[i]),
        images matches Some(list) ==> forall|i: int|
            0 <= i < list@.len() ==> (#[trigger] list@[i]).size <= i32::MAX,
        size <= i32::MAX,
        other@ != name@,
        call_ensures(CursorCache::add_cursor, (cache, name, &images, size), ()),
        call_ensures(CursorCache::load_named_cursor, (&*old(cache), name), before),
        call_ensures(CursorCache::load_named_cursor, (&*final(cache), name), after),
        call_ensures(CursorCache::load_named_cursor, (&*old(cache), other), other_before),
        call_ensures(CursorCache::load_named_cursor, (&*final(cache), other), other_after),
    ensures
        other_before is Some <==> other_after is Some,
        other_before is Some ==> other_before->0@ == other_after->0@,
        before is Some ==> after is Some && after->0@ == before->0@,
        before is None && (images is None || images->0@.len() == 0) ==> after is None,
        before is None && images is Some && images->0@.len() > 0 ==> after is Some && exists|i: int|
            {
                &&& 0 <= i < images->0@.len()
                &&& is_upside_down(*after->0, #[trigger] images->0@[i])
                &&& forall|j: int|
                    0 <= j < images->0@.len() ==> apart(images->0@[i].size, size) <= apart(
                        (#[trigger] images->0@[j]).size,
                        size,
                    )
                &&& forall|j: int|
                    0 <= j < i ==> apart(images->0@[i].size, size) < apart(
                        (#[trigger] images->0@[j]).size,
                        size,
                    )
            },
{
    if before is None && images is Some && images->0@.len() > 0 {
        let list = images->0@;
        let all = crate::cursors::models(list);
        let shape = choose|shape: crate::cursors::ShapeModel| #[trigger]
            crate::cursors::is_shape_for(all, size, shape) && crate::cursors::added(
                old(cache).entries@,
                final(cache).entries@,
                name@,
                shape,
            );
        crate::cursors::lemma_added_is_found(
            old(cache).entries@,
            final(cache).entries@,
            name@,
            shape,
            other@,
        );
        let i = choose|i: int| #[trigger]
            crate::cursors::is_nearest(all, size, i) && shape == crate::cursors::shape_of(all[i]);
        assert(all[i] == list[i]@);
        assert(image_ok(list[i]));
        let w = 4 * list[i].width;
        let h = list[i].height as int;
        assert(w * h == 4 * (list[i].width * list[i].height)) by (nonlinear_arith)
            requires
                w == 4 * list[i].width,
                h == list[i].height,
        ;
        assert forall|x: int, y: int| 0 <= x < w && 0 <= y < h implies after->0.rgba@[
            #[trigger] byte_at(x, h - 1 - y, list[i].width as int)] == list[i].pixels@[byte_at(
            x,
            y,
            list[i].width as int,
        )] by {
            let up = h - 1 - y;
            lemma_grid_index(up, x, w, h);
            lemma_row_col(up * w + x, up, x, w);
            assert(w * h == h * w) by (nonlinear_arith);
            assert(0 <= up * w) by (nonlinear_arith)
                requires
                    0 <= up,
                    0 < w,
            ;
        }
        assert(is_upside_down(*after->0, list[i]));
        assert forall|j: int| 0 <= j < list.len() implies apart(list[i].size, size) <= apart(
            (#[trigger] list[j]).size,
            size,
        ) by {
            assert(all[j] == list[j]@);
        }
        assert forall|j: int| 0 <= j < i implies apart(list[i].size, size) < apart(
            (#[trigger] list[j]).size,
            size,
        ) by {
            assert(all[j] == list[j]@);
        }
    }
}

/// Pointers have the size that is asked for, else 24.
pub proof fn lemma_pointers_have_a_size(n: u32, text: &str, given: u32, without: u32)
    requires
        call_ensures(cursor_size, (Some(text),), given),
        call_ensures(cursor_size, (None,), without),
    ensures
        text@ == decimal(n as nat) ==> given == n,
        text@.len() == 0 ==> given == 24,
        text@.len() > 0 && 'a' <= text@[0] <= 'z' ==> given == 24,
        without == 24,
{
    lemma_decimal_reads_back(n as nat, u32::MAX as nat);
    if text@.len() > 0 && 'a' <= text@[0] <= 'z' {
        assert(!is_digit(text@[0]));
    }
}

proof fn lemma_shapes_stay(
    before: Seq<CursorEntry>,
    after: Seq<CursorEntry>,
    list: Seq<(Seq<char>, Seq<char>)>,
    name: Seq<char>,
)
    requires
        aliases_added(before, after, list),
        shape_named(before, name) is Some,
    ensures
        shape_named(after, name) == shape_named(before, name),
    decreases list.len(),
{
    if list.len() > 0 {
        let between = choose|between: Seq<CursorEntry>|
            {
                &&& #[trigger] alias_added(between, after, list.last().0, list.last().1)
                &&& aliases_added(before, between, list.drop_last())
            };
        lemma_shapes_stay(before, between, list.drop_last(), name);
        if after != between {
            assert(after.drop_last() == between);
        }
    }
}

/// A name that has a pointer keeps it when other names are given to pointers.
pub proof fn lemma_names_keep_their_pointers(
    cache: &mut CursorCache,
    name: &str,
    before: Option<&CursorData>,
    after: Option<&CursorData>,
)
    requires
        call_ensures(CursorCache::add_aliases, (cache,), ()),
        call_ensures(CursorCache::load_named_cursor, (&*old(cache), name), before),
        call_ensures(CursorCache::load_named_cursor, (&*final(cache), name), after),
    ensures
        before is Some ==> after is Some && after->0@ == before->0@,
{
    if before is Some {
        lemma_shapes_stay(old(cache).entries@, final(cache).entries@, alias_names(), name@);
    }
}

} // verus!
