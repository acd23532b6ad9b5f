//! The mathematical picture of a pixel buffer, and what painting does to
//! it. The contracts of everything that draws are stated over this model.

use super::color::Color;
use vstd::arithmetic::div_mod::{
    lemma_div_pos_is_pos, lemma_fundamental_div_mod, lemma_fundamental_div_mod_converse,
    lemma_mod_pos_bound, lemma_multiply_divide_lt,
};
use vstd::prelude::*;

verus! {

/// What a pixel buffer shows: a grid of `width` by `height` colours, stored
/// row by row, the top-left cell first.
pub struct Canvas {
    pub width: nat,
    pub height: nat,
    pub pixels: Seq<Color>,
}

impl Canvas {
    /// There is exactly one stored colour per cell.
    pub open spec fn wf(self) -> bool {
        self.pixels.len() == self.width * self.height
    }

    /// Cell `(x, y)` lies on the grid.
    pub open spec fn contains(self, x: int, y: int) -> bool {
        0 <= x < self.width && 0 <= y < self.height
    }

    /// The place of cell `(x, y)` in `pixels`.
    pub open spec fn index_of(self, x: int, y: int) -> int {
        y * self.width + x
    }

    /// The colour of cell `(x, y)`.
    pub open spec fn at(self, x: int, y: int) -> Color
        recommends
            self.wf(),
            self.contains(x, y),
    {
        self.pixels[self.index_of(x, y)]
    }

    /// A grid of the given extent with every cell black.
    pub open spec fn blank(width: nat, height: nat) -> Canvas {
        Canvas {
            width,
            height,
            pixels: Seq::new(width * height, |i: int| Color { r: 0, g: 0, b: 0 }),
        }
    }

    /// The grid after one write: cell `(x, y)` takes `color` if it lies on
    /// the grid, and nothing changes if it does not.
    pub open spec fn with_pixel(self, x: int, y: int, color: Color) -> Canvas {
        if self.contains(x, y) {
            Canvas { pixels: self.pixels.update(self.index_of(x, y), color), ..self }
        } else {
            self
        }
    }

    /// The grid after every cell of `cells` that lies on it has taken
    /// `color`; cells of `cells` off the grid are dropped.
    pub open spec fn paint(self, cells: Set<(int, int)>, color: Color) -> Canvas {
        Canvas {
            pixels: Seq::new(
                self.pixels.len(),
                |i: int|
                    if self.width > 0 && cells.contains(
                        (i % (self.width as int), i / (self.width as int)),
                    ) {
                        color
                    } else {
                        self.pixels[i]
                    },
            ),
            ..self
        }
    }

    /// Both grids have the same extent.
    pub open spec fn same_extent(self, other: Canvas) -> bool {
        self.width == other.width && self.height == other.height
    }

    /// `self` is `before` with the cells of `cells` set to `color`, stated
    /// cell by cell.
    pub open spec fn is_painting_of(self, before: Canvas, cells: Set<(int, int)>, color: Color) -> bool {
        &&& self.wf()
        &&& self.same_extent(before)
        &&& forall|x: int, y: int|
            before.contains(x, y) ==> #[trigger] self.at(x, y) == if cells.contains((x, y)) {
                color
            } else {
                before.at(x, y)
            }
    }
}

/// A cell on the grid has a place in `pixels`, and no other cell shares it.
pub proof fn lemma_index_of(c: Canvas, x: int, y: int)
    requires
        c.wf(),
        c.contains(x, y),
    ensures
        0 <= c.index_of(x, y) < c.pixels.len(),
        c.index_of(x, y) % (c.width as int) == x,
        c.index_of(x, y) / (c.width as int) == y,
{
    let w = c.width as int;
    let h = c.height as int;
    assert(y * w + x < w * h) by (nonlinear_arith)
        requires
            0 <= x < w,
            0 <= y < h,
    ;
    assert(0 <= y * w + x) by (nonlinear_arith)
        requires
            0 <= x < w,
            0 <= y < h,
    ;
    lemma_fundamental_div_mod_converse(y * w + x, w, y, x);
}

/// Every place in `pixels` belongs to one cell on the grid.
pub proof fn lemma_cell_of(c: Canvas, i: int)
    requires
        c.wf(),
        0 <= i < c.pixels.len(),
    ensures
        c.width > 0,
        c.contains(i % (c.width as int), i / (c.width as int)),
        c.index_of(i % (c.width as int), i / (c.width as int)) == i,
{
    let w = c.width as int;
    let h = c.height as int;
    assert(w > 0) by (nonlinear_arith)
        requires
            0 <= w,
            0 <= h,
            0 <= i < w * h,
    ;
    lemma_mod_pos_bound(i, w);
    lemma_div_pos_is_pos(i, w);
    lemma_multiply_divide_lt(i, w, h);
    lemma_fundamental_div_mod(i, w);
    assert(w * (i / w) == (i / w) * w) by (nonlinear_arith);
}

/// Two grids of one extent that agree on every cell are the same grid.
pub proof fn lemma_canvas_ext(a: Canvas, b: Canvas)
    requires
        a.wf(),
        b.wf(),
        a.same_extent(b),
        forall|x: int, y: int| a.contains(x, y) ==> #[trigger] a.at(x, y) == b.at(x, y),
    ensures
        a == b,
{
    assert forall|i: int| 0 <= i < a.pixels.len() implies a.pixels[i] == b.pixels[i] by {
        lemma_cell_of(a, i);
        let w = a.width as int;
        assert(a.at(i % w, i / w) == b.at(i % w, i / w));
    }
    assert(a.pixels =~= b.pixels);
}

/// What one write does, cell by cell.
pub proof fn lemma_with_pixel(c: Canvas, x: int, y: int, color: Color)
    requires
        c.wf(),
    ensures
        c.with_pixel(x, y, color).is_painting_of(c, set![(x, y)], color),
        c.with_pixel(x, y, color) == c.paint(set![(x, y)], color),
{
    let d = c.with_pixel(x, y, color);
    if c.contains(x, y) {
        lemma_index_of(c, x, y);
    }
    assert forall|u: int, v: int| c.contains(u, v) implies #[trigger] d.at(u, v) == if set![
        (x, y),
    ].contains((u, v)) {
        color
    } else {
        c.at(u, v)
    } by {
        lemma_index_of(c, u, v);
    }
    lemma_painting(c, d, set![(x, y)], color);
}

/// What painting does, cell by cell.
pub proof fn lemma_paint(c: Canvas, cells: Set<(int, int)>, color: Color)
    requires
        c.wf(),
    ensures
        c.paint(cells, color).is_painting_of(c, cells, color),
{
    let d = c.paint(cells, color);
    assert forall|x: int, y: int| c.contains(x, y) implies #[trigger] d.at(x, y) == if cells.contains(
        (x, y),
    ) {
        color
    } else {
        c.at(x, y)
    } by {
        lemma_index_of(c, x, y);
    }
}

/// A grid that is `before` with the cells of `cells` recoloured, cell by
/// cell, is `before.paint(cells, color)`.
pub proof fn lemma_painting(before: Canvas, after: Canvas, cells: Set<(int, int)>, color: Color)
    requires
        before.wf(),
        after.is_painting_of(before, cells, color),
    ensures
        after == before.paint(cells, color),
{
    let p = before.paint(cells, color);
    lemma_paint(before, cells, color);
    assert forall|x: int, y: int| after.contains(x, y) implies #[trigger] after.at(x, y) == p.at(
        x,
        y,
    ) by {
        assert(before.contains(x, y));
    }
    lemma_canvas_ext(after, p);
}

/// Painting with one colour twice is painting the union once.
pub proof fn lemma_paint_union(c: Canvas, a: Set<(int, int)>, b: Set<(int, int)>, color: Color)
    requires
        c.wf(),
    ensures
        c.paint(a, color).paint(b, color) == c.paint(a.union(b), color),
{
    let once = c.paint(a, color);
    let twice = once.paint(b, color);
    lemma_paint(c, a, color);
    lemma_paint(once, b, color);
    assert forall|x: int, y: int| c.contains(x, y) implies #[trigger] twice.at(x, y) == if a.union(
        b,
    ).contains((x, y)) {
        color
    } else {
        c.at(x, y)
    } by {
        assert(once.contains(x, y));
        assert(once.at(x, y) == if a.contains((x, y)) {
            color
        } else {
            c.at(x, y)
        });
    }
    lemma_painting(c, twice, a.union(b), color);
}

/// Only the cells on the grid matter: two sets that agree there paint the
/// same picture.
pub proof fn lemma_paint_clipped(c: Canvas, a: Set<(int, int)>, b: Set<(int, int)>, color: Color)
    requires
        c.wf(),
        forall|x: int, y: int| c.contains(x, y) ==> (a.contains((x, y)) <==> b.contains((x, y))),
    ensures
        c.paint(a, color) == c.paint(b, color),
{
    let pa = c.paint(a, color);
    lemma_paint(c, a, color);
    assert forall|x: int, y: int| c.contains(x, y) implies #[trigger] pa.at(x, y) == if b.contains(
        (x, y),
    ) {
        color
    } else {
        c.at(x, y)
    } by {}
    lemma_painting(c, pa, b, color);
}

/// A set with no cell on the grid paints nothing.
pub proof fn lemma_paint_nothing(c: Canvas, cells: Set<(int, int)>, color: Color)
    requires
        c.wf(),
        forall|x: int, y: int| c.contains(x, y) ==> !cells.contains((x, y)),
    ensures
        c.paint(cells, color) == c,
{
    lemma_painting(c, c, cells, color);
}

} // verus!
