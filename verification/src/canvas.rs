//! A frame buffer with a depth buffer, addressed with y growing upwards.
//! Depths are integers that grow towards the viewer: a pixel takes a new
//! colour only from a larger depth, and a fresh or cleared depth buffer
//! holds the smallest depth, `isize::MIN`.

use vstd::prelude::*;

verus! {

/// An RGBA colour.
#[derive(Clone, Copy, Debug, PartialEq, Eq, Structural)]
pub struct Color {
    pub r: u8,
    pub g: u8,
    pub b: u8,
    pub a: u8,
}

/// `width` by `height` pixels, each with a colour and a depth, stored row
/// by row from the top row down.
pub struct Canvas {
    pub width: usize,
    pub height: usize,
    pub buffer: Vec<Color>,
    pub zbuffer: Vec<isize>,
}

/// One colour and one depth per pixel.
pub open spec fn canvas_well_formed(c: &Canvas) -> bool {
    &&& c.buffer@.len() == c.width * c.height
    &&& c.zbuffer@.len() == c.width * c.height
}

/// Where the pixel at `(x, y)` is stored: row `height - 1 - y`, column `x`.
pub open spec fn pixel_index(width: int, height: int, x: int, y: int) -> int {
    x + (height - 1 - y) * width
}

proof fn lemma_pixel_in_range(width: int, height: int, x: int, y: int)
    requires
        0 <= x < width,
        0 <= y < height,
    ensures
        0 <= pixel_index(width, height, x, y) < width * height,
        0 <= (height - 1 - y) * width <= pixel_index(width, height, x, y),
{
    let row = height - 1 - y;
    assert(0 <= row * width) by (nonlinear_arith)
        requires 0 <= row, 0 <= width;
    assert(row * width + x < width * height) by (nonlinear_arith)
        requires 0 <= row < height, 0 <= x < width;
}

impl Canvas {
    /// A canvas with every pixel `color` and as far away as possible.
    pub fn new(width: usize, height: usize, color: Color) -> (c: Canvas)
        requires
            width * height <= usize::MAX,
        ensures
            canvas_well_formed(&c),
            c.width == width,
            c.height == height,
            c.buffer@ == Seq::new((width * height) as nat, |i: int| color),
            c.zbuffer@ == Seq::new((width * height) as nat, |i: int| isize::MIN),
    {
        let n = width * height;
        let mut buffer: Vec<Color> = Vec::new();
        let mut zbuffer: Vec<isize> = Vec::new();
        let mut i: usize = 0;
        while i < n
            invariant
                i <= n,
                buffer@ == Seq::new(i as nat, |k: int| color),
                zbuffer@ == Seq::new(i as nat, |k: int| isize::MIN),
            decreases n - i,
        {
            buffer.push(color);
            zbuffer.push(isize::MIN);
            proof {
                assert(buffer@ =~= Seq::new((i + 1) as nat, |k: int| color));
                assert(zbuffer@ =~= Seq::new((i + 1) as nat, |k: int| isize::MIN));
            }
            i = i + 1;
        }
        Canvas { width, height, buffer, zbuffer }
    }

    /// Paints the pixel at `(x, y)` with `color` if it lies on the canvas
    /// and `depth` is nearer than what it shows; the pixel then takes that
    /// depth.
    pub fn set_with_depth(&mut self, x: usize, y: usize, depth: isize, color: &Color)
        requires
            canvas_well_formed(old(self)),
        ensures
            canvas_well_formed(final(self)),
            final(self).width == old(self).width,
            final(self).height == old(self).height,
            ({
                let i = pixel_index(old(self).width as int, old(self).height as int, x as int, y as int);
                if x < old(self).width && y < old(self).height && old(self).zbuffer@[i] < depth {
                    &&& final(self).buffer@ == old(self).buffer@.update(i, *color)
                    &&& final(self).zbuffer@ == old(self).zbuffer@.update(i, depth)
                } else {
                    &&& final(self).buffer@ == old(self).buffer@
                    &&& final(self).zbuffer@ == old(self).zbuffer@
                }
            }),
    {
        if x < self.width && y < self.height {
            let n = self.buffer.len();
            proof {
                lemma_pixel_in_range(self.width as int, self.height as int, x as int, y as int);
                assert(n == self.width * self.height);
            }
            let index = x + (self.height - 1 - y) * self.width;
            if self.zbuffer[index] < depth {
                self.zbuffer.set(index, depth);
                self.buffer.set(index, *color);
            }
        }
    }

    /// Paints the pixel at `(x, y)` with `color` if it lies on the canvas.
    pub fn set(&mut self, x: usize, y: usize, color: &Color)
        requires
            canvas_well_formed(old(self)),
        ensures
            canvas_well_formed(final(self)),
            final(self).width == old(self).width,
            final(self).height == old(self).height,
            final(self).zbuffer@ == old(self).zbuffer@,
            final(self).buffer@ == if x < old(self).width && y < old(self).height {
                old(self).buffer@.update(
                    pixel_index(old(self).width as int, old(self).height as int, x as int, y as int),
                    *color,
                )
            } else {
                old(self).buffer@
            },
    {
        if x < self.width && y < self.height {
            let n = self.buffer.len();
            proof {
                lemma_pixel_in_range(self.width as int, self.height as int, x as int, y as int);
                assert(n == self.width * self.height);
            }
            self.buffer.set(x + (self.height - 1 - y) * self.width, *color);
        }
    }

    /// Paints every pixel with `color`; the depths stay.
    pub fn clear(&mut self, color: &Color)
        requires
            canvas_well_formed(old(self)),
        ensures
            canvas_well_formed(final(self)),
            final(self).width == old(self).width,
            final(self).height == old(self).height,
            final(self).zbuffer@ == old(self).zbuffer@,
            final(self).buffer@ == Seq::new(old(self).buffer@.len(), |i: int| *color),
    {
        let n = self.buffer.len();
        let mut i: usize = 0;
        while i < n
            invariant
                i <= n,
                n == old(self).buffer@.len(),
                self.width == old(self).width,
                self.height == old(self).height,
                self.zbuffer@ == old(self).zbuffer@,
                self.buffer@.len() == n,
                forall|k: int| 0 <= k < i ==> #[trigger] self.buffer@[k] == *color,
            decreases n - i,
        {
            self.buffer.set(i, *color);
            i = i + 1;
        }
        proof {
            assert(self.buffer@ =~= Seq::new(n as nat, |k: int| *color));
        }
    }

    /// Moves every pixel as far away as possible.
    pub fn clear_zbuffer(&mut self)
        requires
            canvas_well_formed(old(self)),
        ensures
            canvas_well_formed(final(self)),
            final(self).width == old(self).width,
            final(self).height == old(self).height,
            final(self).buffer@ == old(self).buffer@,
            final(self).zbuffer@ == Seq::new((old(self).width * old(self).height) as nat, |i: int| isize::MIN),
    {
        let n = self.zbuffer.len();
        let mut zbuffer: Vec<isize> = Vec::new();
        let mut i: usize = 0;
        while i < n
            invariant
                i <= n,
                zbuffer@ == Seq::new(i as nat, |k: int| isize::MIN),
            decreases n - i,
        {
            zbuffer.push(isize::MIN);
            proof {
                assert(zbuffer@ =~= Seq::new((i + 1) as nat, |k: int| isize::MIN));
            }
            i = i + 1;
        }
        self.zbuffer = zbuffer;
    }
}

} // verus!
