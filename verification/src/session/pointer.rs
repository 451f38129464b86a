//! The pointer as remote clients draw it.

use crate::encode::planes::{lemma_grid_index, lemma_row_col};
use vstd::prelude::*;

verus! {

/// How an application wants the pointer to look.
#[derive(Debug, Clone, Copy, PartialEq, Eq, Structural)]
pub enum CursorStatus {
    Hidden,
    /// One of the named shapes.
    Named,
    /// A picture of the application's own.
    Surface,
}

/// What the client is told of the pointer's look.
#[derive(Debug, Clone, Copy, PartialEq, Eq, Structural)]
pub enum PointerUpdate {
    Hide,
    /// The client's default pointer.
    Default,
    /// The application's picture, if it can be read, else the default pointer.
    Picture,
}

/// What the client has been told of the pointer.
#[derive(Debug, Clone, Copy, PartialEq, Eq, Structural)]
pub struct PointerFeed {
    pub hidden: bool,
    pub x: u16,
    pub y: u16,
}

impl PointerFeed {
    /// The pointer starts hidden at the origin.
    pub fn new() -> (r: Self)
        ensures
            r == (PointerFeed { hidden: true, x: 0, y: 0 }),
    {
        PointerFeed { hidden: true, x: 0, y: 0 }
    }

    /// The pointer looks different.
    pub fn set_shape(&mut self, status: CursorStatus) -> (r: PointerUpdate)
        ensures
            *final(self) == (PointerFeed { hidden: status == CursorStatus::Hidden, ..*old(self) }),
            r == (match status {
                CursorStatus::Hidden => PointerUpdate::Hide,
                CursorStatus::Named => PointerUpdate::Default,
                CursorStatus::Surface => PointerUpdate::Picture,
            }),
    {
        match status {
            CursorStatus::Hidden => {
                self.hidden = true;
                PointerUpdate::Hide
            },
            CursorStatus::Named => {
                self.hidden = false;
                PointerUpdate::Default
            },
            CursorStatus::Surface => {
                self.hidden = false;
                PointerUpdate::Picture
            },
        }
    }

    /// The pointer is here. Returns whether the client is to be told: only while the pointer is
    /// shown, and only if it moved.
    pub fn moved(&mut self, x: u16, y: u16) -> (tell: bool)
        ensures
            tell == (!old(self).hidden && (x != old(self).x || y != old(self).y)),
            *final(self) == (if tell {
                PointerFeed { x, y, ..*old(self) }
            } else {
                *old(self)
            }),
    {
        if self.hidden || (x == self.x && y == self.y) {
            false
        } else {
            self.x = x;
            self.y = y;
            true
        }
    }
}

/// Byte of a buffer that byte `c` of a pixel with red first comes from.
pub open spec fn source_channel(c: int) -> int {
    if c == 0 {
        2
    } else if c == 2 {
        0
    } else {
        c
    }
}

/// A picture of `w` by `h` pixels with red first, out of rows of `stride` bytes with blue first. What
/// the buffer does not hold is transparent.
pub open spec fn rgba_pixels(data: Seq<u8>, w: int, h: int, stride: int) -> Seq<u8> {
    Seq::new(
        (4 * (w * h)) as nat,
        |i: int|
            {
                let at = (i / 4) / w * stride + 4 * ((i / 4) % w);
                if at + 4 <= data.len() {
                    data[at + source_channel(i % 4)]
                } else {
                    0u8
                }
            },
    )
}

/// Takes the pointer's picture out of an application's buffer.
pub fn cursor_pixels(data: &[u8], w: usize, h: usize, stride: usize) -> (r: Vec<u8>)
    requires
        4 * (w * h) <= usize::MAX,
        h * stride + 4 * w + 4 <= usize::MAX,
    ensures
        r@ == rgba_pixels(data@, w as int, h as int, stride as int),
{
    let ghost pixels = rgba_pixels(data@, w as int, h as int, stride as int);
    let mut r: Vec<u8> = Vec::new();
    let mut y: usize = 0;
    assert(4 * (0 * w as int) == 0);
    while y < h
        invariant
            4 * (w * h) <= usize::MAX,
            h * stride + 4 * w + 4 <= usize::MAX,
            pixels == rgba_pixels(data@, w as int, h as int, stride as int),
            y <= h,
            r@.len() == 4 * (y * w),
            forall|i: int| 0 <= i < r@.len() ==> r@[i] == #[trigger] pixels[i],
        decreases h - y,
    {
        let mut x: usize = 0;
        assert(0 <= y * stride && y * stride + stride <= h * stride) by (nonlinear_arith)
            requires
                y + 1 <= h,
                0 <= stride,
        ;
        while x < w
            invariant
                4 * (w * h) <= usize::MAX,
                0 <= y * stride,
                y * stride + 4 * w + 4 <= usize::MAX,
                pixels == rgba_pixels(data@, w as int, h as int, stride as int),
                y < h,
                x <= w,
                r@.len() == 4 * (y * w + x),
                forall|i: int| 0 <= i < r@.len() ==> r@[i] == #[trigger] pixels[i],
            decreases w - x,
        {
            let at: usize = y * stride + x * 4;
            let ghost before = r@;
            let ghost q = y * w + x;
            proof {
                lemma_grid_index(y as int, x as int, w as int, h as int);
                lemma_row_col(q, y as int, x as int, w as int);
                assert forall|c: int| 0 <= c < 4 implies #[trigger] pixels[4 * q + c] == (if at + 4
                    <= data@.len() {
                    data@[at + source_channel(c)]
                } else {
                    0u8
                }) by {
                    assert((4 * q + c) / 4 == q && (4 * q + c) % 4 == c);
                }
            }
            if at + 4 <= data.len() {
                r.push(data[at + 2]);
                r.push(data[at + 1]);
                r.push(data[at]);
                r.push(data[at + 3]);
            } else {
                r.push(0);
                r.push(0);
                r.push(0);
                r.push(0);
            }
            proof {
                assert forall|i: int| 0 <= i < r@.len() implies r@[i] == #[trigger] pixels[i] by {
                    if i >= before.len() {
                        let c = i - 4 * q;
                        assert(pixels[4 * q + c] == (if at + 4 <= data@.len() {
                            data@[at + source_channel(c)]
                        } else {
                            0u8
                        }));
                    } else {
                        assert(r@[i] == before[i]);
                    }
                }
            }
            x = x + 1;
        }
        assert((y + 1) * w == y * w + w) by (nonlinear_arith);
        y = y + 1;
    }
    proof {
        assert(h * w == w * h) by (nonlinear_arith);
        assert(r@ =~= pixels);
    }
    r
}

} // verus!
