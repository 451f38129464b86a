//! Pointer shapes of a cursor theme.

use crate::encode::planes::{lemma_grid_index, lemma_row_col};
use crate::text::{parse_unsigned, same, unsigned_value};
use crate::wire::{push_bytes, signed, to_signed};
use vstd::prelude::*;
use vstd::string::*;

verus! {

/// Nominal size of the shapes where none is asked for.
pub const DEFAULT_SIZE: u32 = 24;

/// A picture out of a cursor file.
#[derive(Debug)]
pub struct CursorImage {
    /// Nominal size.
    pub size: u32,
    pub width: u32,
    pub height: u32,
    pub xhot: u32,
    pub yhot: u32,
    /// Four bytes a pixel, row by row.
    pub pixels: Vec<u8>,
}

/// A picture as mathematical values.
pub struct CursorModel {
    pub size: u32,
    pub width: u32,
    pub height: u32,
    pub xhot: u32,
    pub yhot: u32,
    pub pixels: Seq<u8>,
}

impl View for CursorImage {
    type V = CursorModel;

    open spec fn view(&self) -> CursorModel {
        CursorModel {
            size: self.size,
            width: self.width,
            height: self.height,
            xhot: self.xhot,
            yhot: self.yhot,
            pixels: self.pixels@,
        }
    }
}

/// The pictures in a cursor file, if it is one.
pub uninterp spec fn parsed_cursor(file: Seq<u8>) -> Option<Seq<CursorModel>>;

/// Pictures as mathematical values.
pub open spec fn models(images: Seq<CursorImage>) -> Seq<CursorModel> {
    images.map_values(|i: CursorImage| i@)
}

/// `xcursor::parser::parse_xcursor` reads the pictures of a cursor file. What it gives depends on
/// the file alone. A picture is at least one and at most 32767 pixels wide and high, the hotspot
/// lies in it or at its edge, and there are four bytes for each pixel.
#[verifier::external_body]
fn parse_cursor(file: &[u8]) -> (r: Option<Vec<CursorImage>>)
    ensures
        match r {
            Some(images) => {
                &&& parsed_cursor(file@) == Some(models(images@))
                &&& forall|i: int|
                    0 <= i < images@.len() ==> image_ok(#[trigger] images@[i])
            },
            None => parsed_cursor(file@) is None,
        },
{
    let images = xcursor::parser::parse_xcursor(file)?;
    let convert = |i: xcursor::parser::Image| CursorImage {
        size: i.size,
        width: i.width,
        height: i.height,
        xhot: i.xhot,
        yhot: i.yhot,
        pixels: i.pixels_rgba,
    };
    Some(images.into_iter().map(convert).collect())
}

/// A picture has a size, a hotspot, and all its pixels.
pub open spec fn image_ok(i: CursorImage) -> bool {
    &&& 0 < i.width <= 0x7fff
    &&& 0 < i.height <= 0x7fff
    &&& i.xhot <= i.width
    &&& i.yhot <= i.height
    &&& i.pixels@.len() == 4 * (i.width * i.height)
}

/// A pointer shape.
#[derive(Debug)]
pub struct CursorData {
    pub width: u16,
    pub height: u16,
    pub hot_x: u16,
    pub hot_y: u16,
    /// Four bytes a pixel, row by row.
    pub rgba: Vec<u8>,
}

/// A pointer shape as mathematical values.
pub struct ShapeModel {
    pub width: u16,
    pub height: u16,
    pub hot_x: u16,
    pub hot_y: u16,
    pub rgba: Seq<u8>,
}

impl View for CursorData {
    type V = ShapeModel;

    open spec fn view(&self) -> ShapeModel {
        ShapeModel {
            width: self.width,
            height: self.height,
            hot_x: self.hot_x,
            hot_y: self.hot_y,
            rgba: self.rgba@,
        }
    }
}

/// How far a picture is from the size that is asked for.
pub open spec fn distance(image: u32, size: u32) -> int {
    let d = signed(image) - signed(size);
    if d < 0 {
        -d
    } else {
        d
    }
}

fn size_distance(image: u32, size: u32) -> (r: i64)
    ensures
        r == distance(image, size),
{
    let d: i64 = to_signed(image) as i64 - to_signed(size) as i64;
    if d < 0 {
        -d
    } else {
        d
    }
}

/// Picture `i` is the first of those whose size is nearest.
pub open spec fn is_nearest(images: Seq<CursorModel>, size: u32, i: int) -> bool {
    &&& 0 <= i < images.len()
    &&& forall|j: int|
        0 <= j < images.len() ==> distance(images[i].size, size) <= distance(
            (#[trigger] images[j]).size,
            size,
        )
    &&& forall|j: int|
        0 <= j < i ==> distance(images[i].size, size) < distance((#[trigger] images[j]).size, size)
}

/// Rows in the opposite order.
pub open spec fn flipped(pixels: Seq<u8>, row: int, rows: int) -> Seq<u8> {
    Seq::new((row * rows) as nat, |i: int| pixels[(rows - 1 - i / row) * row + i % row])
}

/// The shape of a picture.
pub open spec fn shape_of(image: CursorModel) -> ShapeModel {
    ShapeModel {
        width: image.width as u16,
        height: image.height as u16,
        hot_x: image.xhot as u16,
        hot_y: image.yhot as u16,
        rgba: flipped(image.pixels, 4 * image.width, image.height as int),
    }
}

/// The shape for a size out of the pictures of a file.
pub open spec fn is_shape_for(images: Seq<CursorModel>, size: u32, shape: ShapeModel) -> bool {
    exists|i: int| #[trigger] is_nearest(images, size, i) && shape == shape_of(images[i])
}

fn nearest(images: &[CursorImage], size: u32) -> (r: usize)
    requires
        images@.len() > 0,
    ensures
        is_nearest(models(images@), size, r as int),
{
    let mut best: usize = 0;
    let mut i: usize = 1;
    while i < images.len()
        invariant
            best < i <= images@.len(),
            forall|j: int|
                0 <= j < i ==> distance(images@[best as int].size, size) <= distance(
                    (#[trigger] images@[j]).size,
                    size,
                ),
            forall|j: int|
                0 <= j < best ==> distance(images@[best as int].size, size) < distance(
                    (#[trigger] images@[j]).size,
                    size,
                ),
        decreases images@.len() - i,
    {
        if size_distance(images[i].size, size) < size_distance(images[best].size, size) {
            best = i;
        }
        i = i + 1;
    }
    assert forall|j: int| 0 <= j < models(images@).len() implies distance(
        models(images@)[best as int].size,
        size,
    ) <= distance((#[trigger] models(images@)[j]).size, size) by {
        assert(images@[j].size == models(images@)[j].size);
    }
    assert forall|j: int| 0 <= j < best implies distance(models(images@)[best as int].size, size)
        < distance((#[trigger] models(images@)[j]).size, size) by {
        assert(images@[j].size == models(images@)[j].size);
    }
    best
}

fn flip(pixels: &[u8], row: usize, rows: usize) -> (r: Vec<u8>)
    requires
        0 < row,
        row * rows == pixels@.len(),
    ensures
        r@ == flipped(pixels@, row as int, rows as int),
{
    let ghost all = flipped(pixels@, row as int, rows as int);
    let mut r: Vec<u8> = Vec::with_capacity(pixels.len());
    let mut y: usize = 0;
    assert(0 * row as int == 0);
    while y < rows
        invariant
            0 < row,
            row * rows == pixels@.len(),
            all == flipped(pixels@, row as int, rows as int),
            y <= rows,
            r@.len() == y * row,
            forall|i: int| 0 <= i < r@.len() ==> r@[i] == #[trigger] all[i],
        decreases rows - y,
    {
        let mut x: usize = 0;
        let up: usize = rows - 1 - y;
        while x < row
            invariant
                0 < row,
                row * rows == pixels@.len(),
                all == flipped(pixels@, row as int, rows as int),
                y < rows,
                up == rows - 1 - y,
                x <= row,
                r@.len() == y * row + x,
                forall|i: int| 0 <= i < r@.len() ==> r@[i] == #[trigger] all[i],
            decreases row - x,
        {
            proof {
                lemma_grid_index(up as int, x as int, row as int, rows as int);
                lemma_grid_index(y as int, x as int, row as int, rows as int);
                lemma_row_col(y * row + x, y as int, x as int, row as int);
                assert(pixels@.len() == pixels.len());
                assert(0 <= up * row) by (nonlinear_arith)
                    requires
                        0 <= up,
                        0 < row,
                ;
            }
            r.push(pixels[up * row + x]);
            x = x + 1;
        }
        assert((y + 1) * row == y * row + row) by (nonlinear_arith);
        y = y + 1;
    }
    assert(rows * row == row * rows) by (nonlinear_arith);
    assert(r@ =~= all);
    r
}

/// Flipping twice gives back the picture.
pub proof fn lemma_flip_twice(pixels: Seq<u8>, row: int, rows: int)
    requires
        0 < row,
        0 <= rows,
        pixels.len() == row * rows,
    ensures
        flipped(flipped(pixels, row, rows), row, rows) == pixels,
{
    let once = flipped(pixels, row, rows);
    let twice = flipped(once, row, rows);
    assert(0 <= row * rows) by (nonlinear_arith)
        requires
            0 < row,
            0 <= rows,
    ;
    assert forall|i: int| 0 <= i < pixels.len() implies twice[i] == pixels[i] by {
        vstd::arithmetic::div_mod::lemma_fundamental_div_mod(i, row);
        vstd::arithmetic::div_mod::lemma_mod_bound(i, row);
        let y = i / row;
        let x = i % row;
        assert(row * y == y * row) by (nonlinear_arith);
        assert(0 <= y < rows) by (nonlinear_arith)
            requires
                i == y * row + x,
                0 <= x < row,
                0 <= i < row * rows,
        ;
        let up = rows - 1 - y;
        lemma_grid_index(up, x, row, rows);
        lemma_row_col(up * row + x, up, x, row);
    }
    assert(twice =~= pixels);
}

/// A named shape.
#[derive(Debug)]
pub struct CursorEntry {
    pub name: String,
    pub data: CursorData,
}

/// Shapes by name.
#[derive(Debug)]
pub struct CursorCache {
    pub entries: Vec<CursorEntry>,
}

/// The first shape of a name.
pub open spec fn shape_named(entries: Seq<CursorEntry>, name: Seq<char>) -> Option<ShapeModel>
    decreases entries.len(),
{
    if entries.len() == 0 {
        None
    } else {
        match shape_named(entries.drop_last(), name) {
            Some(s) => Some(s),
            None => if entries.last().name@ == name {
                Some(entries.last().data@)
            } else {
                None
            },
        }
    }
}

/// The names of the shapes that are loaded.
pub open spec fn shape_names() -> Seq<Seq<char>> {
    seq![
        "default"@,
        "left_ptr"@,
        "text"@,
        "xterm"@,
        "pointer"@,
        "hand2"@,
        "grab"@,
        "grabbing"@,
        "crosshair"@,
        "move"@,
        "fleur"@,
        "not-allowed"@,
        "crossed_circle"@,
        "n-resize"@,
        "top_side"@,
        "s-resize"@,
        "bottom_side"@,
        "e-resize"@,
        "right_side"@,
        "w-resize"@,
        "left_side"@,
        "ne-resize"@,
        "top_right_corner"@,
        "nw-resize"@,
        "top_left_corner"@,
        "se-resize"@,
        "bottom_right_corner"@,
        "sw-resize"@,
        "bottom_left_corner"@,
        "ns-resize"@,
        "sb_v_double_arrow"@,
        "ew-resize"@,
        "sb_h_double_arrow"@,
        "nesw-resize"@,
        "nwse-resize"@,
        "col-resize"@,
        "row-resize"@,
        "wait"@,
        "watch"@,
        "progress"@,
        "left_ptr_watch"@,
        "help"@,
        "question_arrow"@,
        "context-menu"@,
        "all-scroll"@,
        "zoom-in"@,
        "zoom-out"@,
    ]
}

/// Names that stand for other shapes where they have none of their own.
pub open spec fn alias_names() -> Seq<(Seq<char>, Seq<char>)> {
    seq![
        ("default"@, "left_ptr"@),
        ("text"@, "xterm"@),
        ("pointer"@, "hand2"@),
        ("move"@, "fleur"@),
        ("not-allowed"@, "crossed_circle"@),
        ("wait"@, "watch"@),
        ("progress"@, "left_ptr_watch"@),
        ("help"@, "question_arrow"@),
        ("n-resize"@, "top_side"@),
        ("s-resize"@, "bottom_side"@),
        ("e-resize"@, "right_side"@),
        ("w-resize"@, "left_side"@),
        ("ne-resize"@, "top_right_corner"@),
        ("nw-resize"@, "top_left_corner"@),
        ("se-resize"@, "bottom_right_corner"@),
        ("sw-resize"@, "bottom_left_corner"@),
        ("ns-resize"@, "sb_v_double_arrow"@),
        ("ew-resize"@, "sb_h_double_arrow"@),
    ]
}

/// The names of the shapes that are loaded.
pub fn cursor_names() -> (r: Vec<&'static str>)
    ensures
        r@.map_values(|s: &'static str| s@) == shape_names(),
{
    let mut r: Vec<&'static str> = Vec::new();
    r.push("default");
    r.push("left_ptr");
    r.push("text");
    r.push("xterm");
    r.push("pointer");
    r.push("hand2");
    r.push("grab");
    r.push("grabbing");
    r.push("crosshair");
    r.push("move");
    r.push("fleur");
    r.push("not-allowed");
    r.push("crossed_circle");
    r.push("n-resize");
    r.push("top_side");
    r.push("s-resize");
    r.push("bottom_side");
    r.push("e-resize");
    r.push("right_side");
    r.push("w-resize");
    r.push("left_side");
    r.push("ne-resize");
    r.push("top_right_corner");
    r.push("nw-resize");
    r.push("top_left_corner");
    r.push("se-resize");
    r.push("bottom_right_corner");
    r.push("sw-resize");
    r.push("bottom_left_corner");
    r.push("ns-resize");
    r.push("sb_v_double_arrow");
    r.push("ew-resize");
    r.push("sb_h_double_arrow");
    r.push("nesw-resize");
    r.push("nwse-resize");
    r.push("col-resize");
    r.push("row-resize");
    r.push("wait");
    r.push("watch");
    r.push("progress");
    r.push("left_ptr_watch");
    r.push("help");
    r.push("question_arrow");
    r.push("context-menu");
    r.push("all-scroll");
    r.push("zoom-in");
    r.push("zoom-out");
    assert(r@.map_values(|s: &'static str| s@) =~= shape_names());
    r
}

fn cursor_aliases() -> (r: Vec<(&'static str, &'static str)>)
    ensures
        r@.map_values(|a: (&'static str, &'static str)| (a.0@, a.1@)) == alias_names(),
{
    let mut r: Vec<(&'static str, &'static str)> = Vec::new();
    r.push(("default", "left_ptr"));
    r.push(("text", "xterm"));
    r.push(("pointer", "hand2"));
    r.push(("move", "fleur"));
    r.push(("not-allowed", "crossed_circle"));
    r.push(("wait", "watch"));
    r.push(("progress", "left_ptr_watch"));
    r.push(("help", "question_arrow"));
    r.push(("n-resize", "top_side"));
    r.push(("s-resize", "bottom_side"));
    r.push(("e-resize", "right_side"));
    r.push(("w-resize", "left_side"));
    r.push(("ne-resize", "top_right_corner"));
    r.push(("nw-resize", "top_left_corner"));
    r.push(("se-resize", "bottom_right_corner"));
    r.push(("sw-resize", "bottom_left_corner"));
    r.push(("ns-resize", "sb_v_double_arrow"));
    r.push(("ew-resize", "sb_h_double_arrow"));
    assert(r@.map_values(|a: (&'static str, &'static str)| (a.0@, a.1@)) =~= alias_names());
    r
}

/// What a cache gives for each name.
pub open spec fn added(
    before: Seq<CursorEntry>,
    after: Seq<CursorEntry>,
    name: Seq<char>,
    shape: ShapeModel,
) -> bool {
    &&& after.len() == before.len() + 1
    &&& after.drop_last() == before
    &&& after.last().name@ == name
    &&& after.last().data@ == shape
}

/// What a cache gives for each name after an alias: the alias has the shape that it stands for, if
/// it had none and there is one.
pub open spec fn alias_added(
    before: Seq<CursorEntry>,
    after: Seq<CursorEntry>,
    alias: Seq<char>,
    target: Seq<char>,
) -> bool {
    match (shape_named(before, alias), shape_named(before, target)) {
        (None, Some(shape)) => added(before, after, alias, shape),
        _ => after == before,
    }
}

/// What a cache holds after a list of aliases, one after the other.
pub open spec fn aliases_added(
    before: Seq<CursorEntry>,
    after: Seq<CursorEntry>,
    aliases: Seq<(Seq<char>, Seq<char>)>,
) -> bool
    decreases aliases.len(),
{
    if aliases.len() == 0 {
        after == before
    } else {
        exists|between: Seq<CursorEntry>|
            {
                &&& #[trigger] alias_added(between, after, aliases.last().0, aliases.last().1)
                &&& aliases_added(before, between, aliases.drop_last())
            }
    }
}

impl CursorCache {
    pub fn new() -> (r: Self)
        ensures
            r.entries@.len() == 0,
    {
        CursorCache { entries: Vec::new() }
    }

    fn place(&self, name: &str) -> (r: Option<usize>)
        ensures
            match r {
                Some(i) => i < self.entries@.len() && shape_named(self.entries@, name@) == Some(
                    self.entries@[i as int].data@,
                ),
                None => shape_named(self.entries@, name@) is None,
            },
    {
        let mut i: usize = 0;
        assert(self.entries@.take(0) =~= Seq::<CursorEntry>::empty());
        while i < self.entries.len()
            invariant
                i <= self.entries@.len(),
                shape_named(self.entries@.take(i as int), name@) is None,
            decreases self.entries@.len() - i,
        {
            assert(self.entries@.take(i + 1).drop_last() =~= self.entries@.take(i as int));
            if same(self.entries[i].name.as_str(), name) {
                proof {
                    lemma_shape_stays(self.entries@, name@, i + 1);
                }
                return Some(i);
            }
            i = i + 1;
        }
        assert(self.entries@.take(i as int) =~= self.entries@);
        None
    }

    /// The shape of a name.
    pub fn load_named_cursor(&self, name: &str) -> (r: Option<&CursorData>)
        ensures
            match r {
                Some(data) => shape_named(self.entries@, name@) == Some(data@),
                None => shape_named(self.entries@, name@) is None,
            },
    {
        match self.place(name) {
            Some(i) => Some(&self.entries[i].data),
            None => None,
        }
    }

    /// Adds the shape for a size out of the pictures of a cursor file, unless the name has one.
    pub fn add_cursor(&mut self, name: &str, images: &Option<Vec<CursorImage>>, size: u32)
        requires
            *images is Some ==> forall|i: int|
                0 <= i < images->0@.len() ==> image_ok(#[trigger] images->0@[i]),
        ensures
            if shape_named(old(self).entries@, name@) is None && *images is Some
                && images->0@.len() > 0 {
                exists|shape: ShapeModel| #[trigger]
                    is_shape_for(models(images->0@), size, shape) && added(
                        old(self).entries@,
                        final(self).entries@,
                        name@,
                        shape,
                    )
            } else {
                final(self).entries@ == old(self).entries@
            },
    {
        if self.place(name).is_some() {
            return;
        }
        match images {
            Some(list) => {
                if list.len() == 0 {
                    return;
                }
                let i: usize = nearest(list, size);
                let image = &list[i];
                assert(image_ok(list@[i as int]));
                assert(models(list@)[i as int] == list@[i as int]@);
                assert((4 * image.width) * image.height == 4 * (image.width * image.height))
                    by (nonlinear_arith);
                let data = CursorData {
                    width: image.width as u16,
                    height: image.height as u16,
                    hot_x: image.xhot as u16,
                    hot_y: image.yhot as u16,
                    rgba: flip(&image.pixels, (4 * image.width) as usize, image.height as usize),
                };
                let ghost shape = data@;
                assert(shape == shape_of(models(list@)[i as int]));
                assert(is_shape_for(models(list@), size, shape));
                let ghost before = self.entries@;
                self.entries.push(CursorEntry { name: String::from_str(name), data });
                assert(self.entries@.drop_last() =~= before);
            },
            None => {},
        }
    }

    /// Adds the shape for a size out of a cursor file, unless the name has one.
    pub fn add_cursor_file(&mut self, name: &str, file: &[u8], size: u32)
        ensures
            match parsed_cursor(file@) {
                Some(images) => if shape_named(old(self).entries@, name@) is None && images.len()
                    > 0 {
                    exists|shape: ShapeModel| #[trigger]
                        is_shape_for(images, size, shape) && added(
                            old(self).entries@,
                            final(self).entries@,
                            name@,
                            shape,
                        )
                } else {
                    final(self).entries@ == old(self).entries@
                },
                None => final(self).entries@ == old(self).entries@,
            },
    {
        let images = parse_cursor(file);
        self.add_cursor(name, &images, size);
    }

    /// Adds the names that stand for other shapes.
    pub fn add_aliases(&mut self)
        ensures
            aliases_added(old(self).entries@, final(self).entries@, alias_names()),
    {
        let aliases = cursor_aliases();
        let ghost all = alias_names();
        let ghost start = self.entries@;
        let mut i: usize = 0;
        assert(all.take(0) =~= Seq::<(Seq<char>, Seq<char>)>::empty());
        while i < aliases.len()
            invariant
                aliases@.map_values(|a: (&'static str, &'static str)| (a.0@, a.1@)) == all,
                i <= aliases@.len(),
                aliases_added(start, self.entries@, all.take(i as int)),
            decreases aliases@.len() - i,
        {
            let (alias, target) = aliases[i];
            assert(aliases@.map_values(
                |a: (&'static str, &'static str)| (a.0@, a.1@),
            )[i as int] == (alias@, target@));
            let ghost next = all.take(i + 1);
            assert(next.drop_last() =~= all.take(i as int));
            let ghost between = self.entries@;
            if self.place(alias).is_none() {
                match self.place(target) {
                    Some(k) => {
                        let data = copy_data(&self.entries[k].data);
                        self.entries.push(CursorEntry { name: String::from_str(alias), data });
                        assert(self.entries@.drop_last() =~= between);
                    },
                    None => {},
                }
            }
            assert(alias_added(between, self.entries@, next.last().0, next.last().1));
            assert(aliases_added(start, between, next.drop_last()));
            i = i + 1;
        }
        assert(all.take(i as int) =~= all);
    }
}

fn copy_data(data: &CursorData) -> (r: CursorData)
    ensures
        r@ == data@,
{
    let mut rgba: Vec<u8> = Vec::new();
    push_bytes(&mut rgba, &data.rgba);
    assert(rgba@ =~= data.rgba@);
    CursorData {
        width: data.width,
        height: data.height,
        hot_x: data.hot_x,
        hot_y: data.hot_y,
        rgba,
    }
}

/// A shape that is found among the first entries is the shape of its name.
proof fn lemma_shape_stays(entries: Seq<CursorEntry>, name: Seq<char>, n: int)
    requires
        0 <= n <= entries.len(),
        shape_named(entries.take(n), name) is Some,
    ensures
        shape_named(entries, name) == shape_named(entries.take(n), name),
    decreases entries.len() - n,
{
    if n < entries.len() {
        assert(entries.take(n + 1).drop_last() =~= entries.take(n));
        lemma_shape_stays(entries, name, n + 1);
    } else {
        assert(entries.take(n) =~= entries);
    }
}

/// A shape that is added is found, and the others stay.
pub proof fn lemma_added_is_found(
    before: Seq<CursorEntry>,
    after: Seq<CursorEntry>,
    name: Seq<char>,
    shape: ShapeModel,
    other: Seq<char>,
)
    requires
        shape_named(before, name) is None,
        added(before, after, name, shape),
    ensures
        shape_named(after, name) == Some(shape),
        other != name ==> shape_named(after, other) == shape_named(before, other),
{
}

/// Nominal size of the shapes: what is asked for, else the default.
pub fn cursor_size(text: Option<&str>) -> (r: u32)
    ensures
        r == (match text {
            Some(t) => match unsigned_value(t@, u32::MAX as nat) {
                Some(n) => n as u32,
                None => DEFAULT_SIZE,
            },
            None => DEFAULT_SIZE,
        }),
{
    match text {
        Some(t) => match parse_unsigned(t, u32::MAX as u64) {
            Some(n) => n as u32,
            None => DEFAULT_SIZE,
        },
        None => DEFAULT_SIZE,
    }
}

/// Shapes that applications ask for by name.
#[derive(Debug, Clone, Copy, PartialEq, Eq, Structural)]
pub enum CursorIcon {
    Default,
    ContextMenu,
    Help,
    Pointer,
    Progress,
    Wait,
    Cell,
    Crosshair,
    Text,
    VerticalText,
    Alias,
    Copy,
    Move,
    NoDrop,
    NotAllowed,
    Grab,
    Grabbing,
    EResize,
    NResize,
    NeResize,
    NwResize,
    SResize,
    SeResize,
    SwResize,
    WResize,
    EwResize,
    NsResize,
    NeswResize,
    NwseResize,
    ColResize,
    RowResize,
    AllScroll,
    ZoomIn,
    ZoomOut,
    /// Any other.
    Other,
}

/// The theme's name of a shape.
pub open spec fn icon_name(icon: CursorIcon) -> Seq<char> {
    match icon {
        CursorIcon::Default => "default"@,
        CursorIcon::ContextMenu => "context-menu"@,
        CursorIcon::Help => "help"@,
        CursorIcon::Pointer => "pointer"@,
        CursorIcon::Progress => "progress"@,
        CursorIcon::Wait => "wait"@,
        CursorIcon::Cell => "cell"@,
        CursorIcon::Crosshair => "crosshair"@,
        CursorIcon::Text => "text"@,
        CursorIcon::VerticalText => "vertical-text"@,
        CursorIcon::Alias => "alias"@,
        CursorIcon::Copy => "copy"@,
        CursorIcon::Move => "move"@,
        CursorIcon::NoDrop => "no-drop"@,
        CursorIcon::NotAllowed => "not-allowed"@,
        CursorIcon::Grab => "grab"@,
        CursorIcon::Grabbing => "grabbing"@,
        CursorIcon::EResize => "e-resize"@,
        CursorIcon::NResize => "n-resize"@,
        CursorIcon::NeResize => "ne-resize"@,
        CursorIcon::NwResize => "nw-resize"@,
        CursorIcon::SResize => "s-resize"@,
        CursorIcon::SeResize => "se-resize"@,
        CursorIcon::SwResize => "sw-resize"@,
        CursorIcon::WResize => "w-resize"@,
        CursorIcon::EwResize => "ew-resize"@,
        CursorIcon::NsResize => "ns-resize"@,
        CursorIcon::NeswResize => "nesw-resize"@,
        CursorIcon::NwseResize => "nwse-resize"@,
        CursorIcon::ColResize => "col-resize"@,
        CursorIcon::RowResize => "row-resize"@,
        CursorIcon::AllScroll => "all-scroll"@,
        CursorIcon::ZoomIn => "zoom-in"@,
        CursorIcon::ZoomOut => "zoom-out"@,
        CursorIcon::Other => "default"@,
    }
}

/// Map CursorIcon names to xcursor theme names.
pub fn cursor_icon_to_name(icon: CursorIcon) -> (r: &'static str)
    ensures
        r@ == icon_name(icon),
{
    match icon {
        CursorIcon::Default => "default",
        CursorIcon::ContextMenu => "context-menu",
        CursorIcon::Help => "help",
        CursorIcon::Pointer => "pointer",
        CursorIcon::Progress => "progress",
        CursorIcon::Wait => "wait",
        CursorIcon::Cell => "cell",
        CursorIcon::Crosshair => "crosshair",
        CursorIcon::Text => "text",
        CursorIcon::VerticalText => "vertical-text",
        CursorIcon::Alias => "alias",
        CursorIcon::Copy => "copy",
        CursorIcon::Move => "move",
        CursorIcon::NoDrop => "no-drop",
        CursorIcon::NotAllowed => "not-allowed",
        CursorIcon::Grab => "grab",
        CursorIcon::Grabbing => "grabbing",
        CursorIcon::EResize => "e-resize",
        CursorIcon::NResize => "n-resize",
        CursorIcon::NeResize => "ne-resize",
        CursorIcon::NwResize => "nw-resize",
        CursorIcon::SResize => "s-resize",
        CursorIcon::SeResize => "se-resize",
        CursorIcon::SwResize => "sw-resize",
        CursorIcon::WResize => "w-resize",
        CursorIcon::EwResize => "ew-resize",
        CursorIcon::NsResize => "ns-resize",
        CursorIcon::NeswResize => "nesw-resize",
        CursorIcon::NwseResize => "nwse-resize",
        CursorIcon::ColResize => "col-resize",
        CursorIcon::RowResize => "row-resize",
        CursorIcon::AllScroll => "all-scroll",
        CursorIcon::ZoomIn => "zoom-in",
        CursorIcon::ZoomOut => "zoom-out",
        CursorIcon::Other => "default",
    }
}

} // verus!
