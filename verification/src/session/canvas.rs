//! All outputs in one picture, for clients that see a single screen.

use crate::compositor::state::{geometry_ok, OutputState};
use vstd::prelude::*;

verus! {

/// The pixels of one output and where they go.
#[derive(Debug)]
pub struct DirtyOutput {
    pub x: usize,
    pub y: usize,
    pub width: u16,
    pub height: u16,
    /// Four bytes a pixel, red first, row by row.
    pub pixels: Vec<u8>,
}

/// A picture that holds all outputs.
#[derive(Debug)]
pub struct Canvas {
    pub width: u16,
    pub height: u16,
    /// Four bytes a pixel, red first, row by row.
    pub buffer: Vec<u8>,
}

/// The largest right and lower edge of the outputs, at least 0.
pub open spec fn extent(outputs: Seq<OutputState>) -> (int, int)
    decreases outputs.len(),
{
    if outputs.len() == 0 {
        (0, 0)
    } else {
        let before = extent(outputs.drop_last());
        let g = outputs.last().geometry;
        (
            if g.x + g.width > before.0 {
                g.x + g.width
            } else {
                before.0
            },
            if g.y + g.height > before.1 {
                g.y + g.height
            } else {
                before.1
            },
        )
    }
}

/// An edge as a size: at least one pixel, and cut to sixteen bits.
pub open spec fn as_size(edge: int) -> u16 {
    (if edge > 1 {
        edge % 65536
    } else {
        1
    }) as u16
}

fn to_size(edge: i32) -> (r: u16)
    ensures
        r == as_size(edge as int),
{
    if edge > 1 {
        (edge % 65536) as u16
    } else {
        1
    }
}

/// Size of the picture: the bounding box of all outputs from the origin.
pub fn composite_size(outputs: &[OutputState]) -> (r: (u16, u16))
    requires
        forall|i: int| 0 <= i < outputs@.len() ==> geometry_ok((#[trigger] outputs@[i]).geometry),
    ensures
        r.0 == as_size(extent(outputs@).0),
        r.1 == as_size(extent(outputs@).1),
{
    let mut max_x: i32 = 0;
    let mut max_y: i32 = 0;
    let mut i: usize = 0;
    assert(outputs@.take(0) =~= Seq::<OutputState>::empty());
    while i < outputs.len()
        invariant
            forall|k: int|
                0 <= k < outputs@.len() ==> geometry_ok((#[trigger] outputs@[k]).geometry),
            i <= outputs@.len(),
            max_x == extent(outputs@.take(i as int)).0,
            max_y == extent(outputs@.take(i as int)).1,
        decreases outputs@.len() - i,
    {
        assert(outputs@.take(i + 1).drop_last() =~= outputs@.take(i as int));
        let g = outputs[i].geometry;
        assert(geometry_ok(outputs@[i as int].geometry));
        if g.x + g.width > max_x {
            max_x = g.x + g.width;
        }
        if g.y + g.height > max_y {
            max_y = g.y + g.height;
        }
        i = i + 1;
    }
    assert(outputs@.take(i as int) =~= outputs@);
    (to_size(max_x), to_size(max_y))
}

/// Every output lies left of and above the edges of the bounding box.
pub proof fn lemma_extent_bounds(outputs: Seq<OutputState>, i: int)
    requires
        0 <= i < outputs.len(),
    ensures
        outputs[i].geometry.x + outputs[i].geometry.width <= extent(outputs).0,
        outputs[i].geometry.y + outputs[i].geometry.height <= extent(outputs).1,
    decreases outputs.len(),
{
    if i < outputs.len() - 1 {
        lemma_extent_bounds(outputs.drop_last(), i);
    }
}

/// Bytes with those from `start` on replaced.
pub open spec fn overwritten(buffer: Seq<u8>, start: int, row: Seq<u8>) -> Seq<u8> {
    buffer.take(start) + row + buffer.skip(start + row.len())
}

/// The picture after the first `rows` rows of an output have been copied. A row that the output
/// does not hold, or that does not fit, is left out.
pub open spec fn blitted(
    buffer: Seq<u8>,
    width: int,
    x: int,
    y: int,
    output_width: int,
    pixels: Seq<u8>,
    rows: int,
) -> Seq<u8>
    decreases rows,
{
    if rows <= 0 {
        buffer
    } else {
        let before = blitted(buffer, width, x, y, output_width, pixels, rows - 1);
        let len = 4 * output_width;
        let from = (rows - 1) * len;
        let to = (y + rows - 1) * (4 * width) + 4 * x;
        if from + len <= pixels.len() && to + len <= before.len() {
            overwritten(before, to, pixels.subrange(from, from + len))
        } else {
            before
        }
    }
}

/// The picture stays as large as it is.
pub proof fn lemma_blit_keeps_size(
    buffer: Seq<u8>,
    width: int,
    x: int,
    y: int,
    output_width: int,
    pixels: Seq<u8>,
    rows: int,
)
    requires
        0 <= width,
        0 <= x,
        0 <= y,
        0 <= output_width,
    ensures
        blitted(buffer, width, x, y, output_width, pixels, rows).len() == buffer.len(),
    decreases rows,
{
    if rows > 0 {
        lemma_blit_keeps_size(buffer, width, x, y, output_width, pixels, rows - 1);
        assert(0 <= (y + rows - 1) * (4 * width)) by (nonlinear_arith)
            requires
                0 <= y,
                0 < rows,
                0 <= width,
        ;
        assert(0 <= (rows - 1) * (4 * output_width)) by (nonlinear_arith)
            requires
                0 < rows,
                0 <= output_width,
        ;
    }
}

/// An output that lies within the picture appears there unchanged: column `col` of row `row` of the
/// output, byte `c` of the pixel.
pub proof fn lemma_blit_shows_output(
    buffer: Seq<u8>,
    width: int,
    height: int,
    x: int,
    y: int,
    output_width: int,
    pixels: Seq<u8>,
    rows: int,
    row: int,
    col: int,
    c: int,
)
    requires
        0 <= x,
        0 <= y,
        x + output_width <= width,
        y + rows <= height,
        buffer.len() == 4 * (width * height),
        pixels.len() == 4 * (output_width * rows),
        0 <= row < rows,
        0 <= col < output_width,
        0 <= c < 4,
    ensures
        blitted(buffer, width, x, y, output_width, pixels, rows)[4 * ((y + row) * width + (x + col))
            + c] == pixels[4 * (row * output_width + col) + c],
{
    lemma_blit_rows(
        buffer,
        width,
        height,
        x,
        y,
        output_width,
        pixels,
        rows,
        rows,
        row,
        col,
        c,
    );
}

proof fn lemma_blit_rows(
    buffer: Seq<u8>,
    width: int,
    height: int,
    x: int,
    y: int,
    output_width: int,
    pixels: Seq<u8>,
    rows: int,
    n: int,
    row: int,
    col: int,
    c: int,
)
    requires
        0 <= x,
        0 <= y,
        x + output_width <= width,
        y + rows <= height,
        buffer.len() == 4 * (width * height),
        pixels.len() == 4 * (output_width * rows),
        0 <= row < n <= rows,
        0 <= col < output_width,
        0 <= c < 4,
    ensures
        blitted(buffer, width, x, y, output_width, pixels, n)[4 * ((y + row) * width + (x + col))
            + c] == pixels[4 * (row * output_width + col) + c],
    decreases n,
{
    let before = blitted(buffer, width, x, y, output_width, pixels, n - 1);
    let len = 4 * output_width;
    let from = (n - 1) * len;
    let to = (y + n - 1) * (4 * width) + 4 * x;
    lemma_blit_keeps_size(buffer, width, x, y, output_width, pixels, n - 1);
    assert(0 <= from && from + len <= 4 * (output_width * rows)) by (nonlinear_arith)
        requires
            from == (n - 1) * len,
            len == 4 * output_width,
            1 <= n <= rows,
            0 <= output_width,
    ;
    assert(0 <= to && to + len <= 4 * (width * height)) by (nonlinear_arith)
        requires
            to == (y + n - 1) * (4 * width) + 4 * x,
            len == 4 * output_width,
            0 <= x,
            x + output_width <= width,
            0 <= y,
            1 <= n,
            y + n <= height,
            0 <= output_width,
    ;
    let i = 4 * ((y + row) * width + (x + col)) + c;
    if row == n - 1 {
        assert(i == to + 4 * col + c) by (nonlinear_arith)
            requires
                i == 4 * ((y + row) * width + (x + col)) + c,
                to == (y + n - 1) * (4 * width) + 4 * x,
                row == n - 1,
        ;
        assert(4 * (row * output_width + col) + c == from + 4 * col + c) by (nonlinear_arith)
            requires
                from == (n - 1) * len,
                len == 4 * output_width,
                row == n - 1,
        ;
    } else {
        lemma_blit_rows(
            buffer,
            width,
            height,
            x,
            y,
            output_width,
            pixels,
            rows,
            n - 1,
            row,
            col,
            c,
        );
        assert(0 <= i < to) by (nonlinear_arith)
            requires
                i == 4 * ((y + row) * width + (x + col)) + c,
                to == (y + n - 1) * (4 * width) + 4 * x,
                0 <= row < n - 1,
                0 <= col < output_width,
                0 <= c < 4,
                0 <= x,
                x + output_width <= width,
                0 <= y,
        ;
    }
}

/// Pixels with red and blue exchanged. Bytes behind the last whole pixel stay.
pub open spec fn swapped(pixels: Seq<u8>) -> Seq<u8> {
    Seq::new(
        pixels.len(),
        |i: int|
            if i - i % 4 + 4 > pixels.len() {
                pixels[i]
            } else if i % 4 == 0 {
                pixels[i + 2]
            } else if i % 4 == 2 {
                pixels[i - 2]
            } else {
                pixels[i]
            },
    )
}

/// Exchanging red and blue twice gives back the picture.
pub proof fn lemma_swap_twice(pixels: Seq<u8>)
    ensures
        swapped(swapped(pixels)) == pixels,
{
    assert(swapped(swapped(pixels)) =~= pixels);
}

/// A copy with red and blue exchanged.
pub fn swap_red_blue(pixels: &[u8]) -> (r: Vec<u8>)
    ensures
        r@ == swapped(pixels@),
{
    let mut r: Vec<u8> = Vec::with_capacity(pixels.len());
    let mut i: usize = 0;
    while i < pixels.len()
        invariant
            i <= pixels@.len(),
            i % 4 == 0 || i == pixels@.len(),
            r@ =~= swapped(pixels@).take(i as int),
        decreases pixels@.len() - i,
    {
        if pixels.len() - i >= 4 {
            r.push(pixels[i + 2]);
            r.push(pixels[i + 1]);
            r.push(pixels[i]);
            r.push(pixels[i + 3]);
            i = i + 4;
        } else {
            let ghost from = i;
            while i < pixels.len()
                invariant
                    from <= i <= pixels@.len(),
                    from % 4 == 0,
                    from + 4 > pixels@.len(),
                    r@ =~= swapped(pixels@).take(i as int),
                decreases pixels@.len() - i,
            {
                r.push(pixels[i]);
                i = i + 1;
            }
        }
    }
    assert(swapped(pixels@).take(i as int) =~= swapped(pixels@));
    r
}

impl Canvas {
    /// The buffer has four bytes for each pixel.
    pub open spec fn wf(&self) -> bool {
        self.buffer@.len() == 4 * (self.width * self.height)
    }

    /// A black picture.
    pub fn new(width: u16, height: u16) -> (r: Self)
        requires
            4 * (width * height) <= usize::MAX,
        ensures
            r.wf(),
            r.width == width,
            r.height == height,
            r.buffer@ == Seq::new((4 * (width * height)) as nat, |i: int| 0u8),
    {
        assert(0 <= width * height) by (nonlinear_arith);
        let size: usize = 4 * (width as usize * height as usize);
        let mut buffer: Vec<u8> = Vec::with_capacity(size);
        while buffer.len() < size
            invariant
                buffer@.len() <= size,
                forall|i: int| 0 <= i < buffer@.len() ==> buffer@[i] == 0,
            decreases size - buffer@.len(),
        {
            buffer.push(0);
        }
        assert(buffer@ =~= Seq::new((4 * (width * height)) as nat, |i: int| 0u8));
        Canvas { width, height, buffer }
    }

    /// Gives the picture another size, if it is another one, and clears it then. Returns whether it
    /// changed.
    pub fn resize(&mut self, width: u16, height: u16) -> (changed: bool)
        requires
            old(self).wf(),
            4 * (width * height) <= usize::MAX,
        ensures
            final(self).wf(),
            changed == (width != old(self).width || height != old(self).height),
            final(self).width == width,
            final(self).height == height,
            final(self).buffer@ == (if changed {
                Seq::new((4 * (width * height)) as nat, |i: int| 0u8)
            } else {
                old(self).buffer@
            }),
    {
        if width != self.width || height != self.height {
            *self = Canvas::new(width, height);
            true
        } else {
            false
        }
    }

    /// Copies an output into the picture, row by row.
    pub fn blit(&mut self, d: &DirtyOutput)
        requires
            old(self).wf(),
            d.y + d.height <= usize::MAX,
            (d.y + d.height) * (4 * old(self).width) + 4 * d.x + 4 * d.width <= usize::MAX,
            d.height * (4 * d.width) <= usize::MAX,
        ensures
            final(self).wf(),
            final(self).width == old(self).width,
            final(self).height == old(self).height,
            final(self).buffer@ == blitted(
                old(self).buffer@,
                old(self).width as int,
                d.x as int,
                d.y as int,
                d.width as int,
                d.pixels@,
                d.height as int,
            ),
    {
        let len: usize = d.width as usize * 4;
        let stride: usize = self.width as usize * 4;
        let ghost before = self.buffer@;
        let mut row: usize = 0;
        while row < d.height as usize
            invariant
                self.wf(),
                self.width == old(self).width,
                self.height == old(self).height,
                row <= d.height,
                len == 4 * d.width,
                stride == 4 * self.width,
                d.y + d.height <= usize::MAX,
                (d.y + d.height) * stride + 4 * d.x + len <= usize::MAX,
                d.height * len <= usize::MAX,
                self.buffer@.len() == before.len(),
                self.buffer@ == blitted(
                    before,
                    self.width as int,
                    d.x as int,
                    d.y as int,
                    d.width as int,
                    d.pixels@,
                    row as int,
                ),
            decreases d.height - row,
        {
            proof {
                assert((d.y + row) * stride <= (d.y + d.height) * stride) by (nonlinear_arith)
                    requires
                        row <= d.height,
                        0 <= stride,
                ;
                assert(0 <= row * len && row * len + len <= d.height * len) by (nonlinear_arith)
                    requires
                        row + 1 <= d.height,
                        0 <= len,
                ;
                assert(0 <= (d.y + row) * stride) by (nonlinear_arith);
            }
            let from: usize = row * len;
            let to: usize = (d.y + row) * stride + d.x * 4;
            if from + len <= d.pixels.len() && to + len <= self.buffer.len() {
                let ghost held = self.buffer@;
                let mut k: usize = 0;
                while k < len
                    invariant
                        self.width == old(self).width,
                        self.height == old(self).height,
                        k <= len,
                        from + len <= d.pixels@.len() <= usize::MAX,
                        to + len <= held.len() <= usize::MAX,
                        self.buffer@.len() == held.len(),
                        forall|i: int|
                            0 <= i < held.len() ==> #[trigger] self.buffer@[i] == (if to <= i < to
                                + k {
                                d.pixels@[from + i - to]
                            } else {
                                held[i]
                            }),
                    decreases len - k,
                {
                    self.buffer.set(to + k, d.pixels[from + k]);
                    k = k + 1;
                }
                assert(self.buffer@ =~= overwritten(
                    held,
                    to as int,
                    d.pixels@.subrange(from as int, from + len),
                ));
            }
            row = row + 1;
        }
    }
}

} // verus!
