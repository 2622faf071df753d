//! The drawing surface: a pixel-write history and a recording canvas.

use vstd::prelude::*;
use crate::color::Color;

verus! {

/// One pixel write: a position and the color written there.
#[derive(Clone, Copy, PartialEq, Eq, Structural, Debug)]
pub struct PixelWrite {
    pub x: i32,
    pub y: i32,
    pub color: Color,
}

impl PixelWrite {
    /// The position of this write as a pair of mathematical integers.
    pub open spec fn pos(self) -> (int, int) {
        (self.x as int, self.y as int)
    }
}

/// The positions of a sequence of pixel writes, in order.
pub open spec fn positions_of(s: Seq<PixelWrite>) -> Seq<(int, int)> {
    s.map_values(|w: PixelWrite| w.pos())
}

/// An image buffer that shapes draw into, one pixel at a time.
///
/// `pixels()` is the history of writes the buffer has received, in order;
/// `display` appends exactly one write to it. How a buffer stores the pixels,
/// and what it does with out-of-range positions, is the buffer's own policy;
/// the drawing contracts speak only about the history of writes.
pub trait Displayable {
    spec fn pixels(&self) -> Seq<PixelWrite>;

    fn display(&mut self, x: i32, y: i32, color: Color)
        ensures
            final(self).pixels() == old(self).pixels().push(
                PixelWrite { x: x, y: y, color: color },
            ),
    ;
}

/// A canvas that records every pixel write it receives, in order.
pub struct Canvas {
    pub writes: Vec<PixelWrite>,
}

impl Canvas {
    pub fn new() -> (c: Canvas)
        ensures
            c.pixels() == Seq::<PixelWrite>::empty(),
    {
        Canvas { writes: Vec::new() }
    }

    /// The number of pixel writes recorded so far.
    pub fn len(&self) -> (n: usize)
        ensures
            n == self.pixels().len(),
    {
        self.writes.len()
    }

    /// The `i`-th recorded pixel write.
    pub fn get(&self, i: usize) -> (w: PixelWrite)
        requires
            i < self.pixels().len(),
        ensures
            w == self.pixels()[i as int],
    {
        self.writes[i]
    }
}

impl Displayable for Canvas {
    open spec fn pixels(&self) -> Seq<PixelWrite> {
        self.writes@
    }

    fn display(&mut self, x: i32, y: i32, color: Color) {
        self.writes.push(PixelWrite { x: x, y: y, color: color });
    }
}

} // verus!
