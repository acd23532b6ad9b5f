//! The pixel buffer: a fixed grid that drops writes which miss it, and its
//! export as bytes or packed words.

use super::canvas::{lemma_with_pixel, Canvas};
use super::color::Color;
use super::draw::Draw;
use vstd::prelude::*;

verus! {

/// A cell of the pixel grid, or a displacement between two cells. `x` grows
/// to the right and `y` downwards; the top-left cell is `(0, 0)`.
#[derive(Debug, Clone, Copy, PartialEq, Eq, Structural)]
pub struct Point {
    pub x: i32,
    pub y: i32,
}

/// An extent in cells.
#[derive(Debug, Clone, Copy, PartialEq, Eq, Structural)]
pub struct Size {
    pub width: u32,
    pub height: u32,
}

impl Point {
    pub fn new(x: i32, y: i32) -> (p: Point)
        ensures
            p.x == x,
            p.y == y,
    {
        Point { x, y }
    }
}

impl Size {
    pub fn new(width: u32, height: u32) -> (s: Size)
        ensures
            s.width == width,
            s.height == height,
    {
        Size { width, height }
    }
}

/// A fixed-size grid of pixels. Writes outside the grid are dropped: shapes
/// may reach beyond the screen.
#[derive(Debug)]
pub struct FrameBuffer {
    buffer: Vec<Color>,
    size: Size,
}

impl Clone for FrameBuffer {
    fn clone(&self) -> (copy: Self)
        ensures
            copy@ == self@,
    {
        proof {
            use_type_invariant(self);
        }
        let n: usize = self.buffer.len();
        let mut buffer: Vec<Color> = Vec::with_capacity(n);
        let mut i: usize = 0;
        while i < n
            invariant
                i <= n,
                n == self.buffer@.len(),
                buffer@ == self.buffer@.subrange(0, i as int),
            decreases n - i,
        {
            buffer.push(self.buffer[i]);
            assert(buffer@ =~= self.buffer@.subrange(0, i + 1));
            i += 1;
        }
        assert(buffer@ =~= self.buffer@);
        FrameBuffer { buffer, size: self.size }
    }
}

impl View for FrameBuffer {
    type V = Canvas;

    closed spec fn view(&self) -> Canvas {
        Canvas {
            width: self.size.width as nat,
            height: self.size.height as nat,
            pixels: self.buffer@,
        }
    }
}

/// Channel `j` of a pixel as it is exported: red, green, blue, then a
/// constant opaque alpha.
pub open spec fn channel(c: Color, j: int) -> u8 {
    if j == 0 {
        c.r
    } else if j == 1 {
        c.g
    } else if j == 2 {
        c.b
    } else {
        255
    }
}

/// The pixels as interleaved bytes, three per pixel, or four with alpha.
pub open spec fn interleaved(pixels: Seq<Color>, with_alpha: bool) -> Seq<u8> {
    let k: int = if with_alpha {
        4
    } else {
        3
    };
    Seq::new((pixels.len() * k) as nat, |i: int| channel(pixels[i / k], i % k))
}

/// The pixels as one packed word each.
pub open spec fn packed_words(pixels: Seq<Color>) -> Seq<u32> {
    Seq::new(pixels.len(), |i: int| pixels[i].packed() as u32)
}

impl FrameBuffer {
    /// The buffer holds one colour per cell of its extent.
    #[verifier::type_invariant]
    pub closed spec fn inv(&self) -> bool {
        self.buffer@.len() == self.size.width * self.size.height
    }

    /// Every buffer shows a well-formed grid.
    pub proof fn lemma_view_wf(&self)
        requires
            self.inv(),
        ensures
            self@.wf(),
    {
    }

    /// A black buffer of the given extent.
    pub fn new(size: Size) -> (fb: FrameBuffer)
        requires
            size.width * size.height <= usize::MAX,
        ensures
            fb@ == Canvas::blank(size.width as nat, size.height as nat),
    {
        let w: usize = size.width as usize;
        let h: usize = size.height as usize;
        assert(w * h == size.width * size.height);
        let n: usize = w * h;
        let mut buffer: Vec<Color> = Vec::with_capacity(n);
        let mut i: usize = 0;
        while i < n
            invariant
                i <= n,
                buffer@.len() == i,
                forall|j: int| 0 <= j < i ==> buffer@[j] == (Color { r: 0, g: 0, b: 0 }),
            decreases n - i,
        {
            buffer.push(Color::new(0, 0, 0));
            i += 1;
        }
        let fb = FrameBuffer { buffer, size };
        assert(fb@.pixels =~= Canvas::blank(size.width as nat, size.height as nat).pixels);
        fb
    }

    pub fn buffer(&self) -> (pixels: &Vec<Color>)
        ensures
            pixels@ == self@.pixels,
            self@.wf(),
    {
        proof {
            use_type_invariant(self);
        }
        &self.buffer
    }

    pub fn size(&self) -> (size: &Size)
        ensures
            size.width == self@.width,
            size.height == self@.height,
    {
        &self.size
    }

    /// Whether the cell lies on the grid.
    pub fn contains_point(&self, p: Point) -> (inside: bool)
        ensures
            inside == self@.contains(p.x as int, p.y as int),
    {
        p.x >= 0 && (p.x as i64) < (self.size.width as i64) && p.y >= 0 && (p.y as i64) < (
        self.size.height as i64)
    }

    /// Writes one cell; a cell off the grid is silently dropped.
    pub fn set_pixel(&mut self, p: Point, color: Color)
        ensures
            final(self)@ == old(self)@.with_pixel(p.x as int, p.y as int, color),
    {
        self.plot(p.x as i64, p.y as i64, color);
    }

    /// `set_pixel` on coordinates wide enough for sums of a position and an
    /// extent.
    pub fn plot(&mut self, x: i64, y: i64, color: Color)
        ensures
            final(self)@ == old(self)@.with_pixel(x as int, y as int, color),
            old(self)@.wf(),
            final(self)@.is_painting_of(old(self)@, set![(x as int, y as int)], color),
    {
        proof {
            use_type_invariant(&*self);
            lemma_with_pixel(self@, x as int, y as int, color);
        }
        let len: usize = self.buffer.len();
        if x >= 0 && x < (self.size.width as i64) && y >= 0 && y < (self.size.height as i64) {
            let w: usize = self.size.width as usize;
            let xu: usize = x as usize;
            let yu: usize = y as usize;
            assert(0 <= yu * w && yu * w + xu < w * self.size.height) by (nonlinear_arith)
                requires
                    0 <= xu < w,
                    0 <= yu < self.size.height,
            ;
            assert(w * self.size.height == len);
            let i: usize = yu * w + xu;
            self.buffer[i] = color;
        }
    }

    /// Paints a filled shape onto the buffer.
    pub fn draw<D: Draw>(&mut self, object: &D)
        ensures
            final(self)@ == old(self)@.paint(object.cells(), object.ink()),
    {
        object.draw(self);
    }

    /// Paints a shape's outline onto the buffer.
    pub fn draw_outline<D: Draw>(&mut self, object: &D)
        ensures
            final(self)@ == old(self)@.paint(object.outline_cells(), object.ink()),
    {
        object.draw_outline(self);
    }

    /// The pixels row by row as interleaved bytes: red, green, blue and,
    /// with `transparency`, a fourth byte of 255.
    pub fn to_vec_u8(&self, transparency: bool) -> (bytes: Vec<u8>)
        requires
            interleaved(self@.pixels, transparency).len() <= usize::MAX,
        ensures
            bytes@ == interleaved(self@.pixels, transparency),
    {
        let n: usize = self.buffer.len();
        let ghost k: int = if transparency {
            4
        } else {
            3
        };
        let mut bytes: Vec<u8> = Vec::new();
        let mut i: usize = 0;
        while i < n
            invariant
                i <= n,
                n == self.buffer@.len(),
                k == if transparency {
                    4int
                } else {
                    3int
                },
                bytes@.len() == i * k,
                forall|j: int| 0 <= j < i * k ==> bytes@[j] == channel(self.buffer@[j / k], j % k),
            decreases n - i,
        {
            let c: Color = self.buffer[i];
            bytes.push(c.r);
            bytes.push(c.g);
            bytes.push(c.b);
            if transparency {
                bytes.push(255);
            }
            i += 1;
        }
        assert(bytes@ =~= interleaved(self@.pixels, transparency));
        bytes
    }

    /// The pixels row by row, one packed word each.
    pub fn to_vec_u32(&self) -> (words: Vec<u32>)
        ensures
            words@ == packed_words(self@.pixels),
    {
        let n: usize = self.buffer.len();
        let mut words: Vec<u32> = Vec::with_capacity(n);
        let mut i: usize = 0;
        while i < n
            invariant
                i <= n,
                n == self.buffer@.len(),
                words@.len() == i,
                forall|j: int| 0 <= j < i ==> words@[j] == self.buffer@[j].packed() as u32,
            decreases n - i,
        {
            let c: Color = self.buffer[i];
            words.push(c.to_u32());
            i += 1;
        }
        assert(words@ =~= packed_words(self@.pixels));
        words
    }
}

} // verus!
