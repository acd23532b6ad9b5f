//! Axis-aligned rectangles, filled and as four edges.

use super::canvas::{lemma_paint, lemma_paint_union, lemma_painting, Canvas};
use super::color::Color;
use super::draw::{
    extent_of, extent_scaled, magnitude, point_scaled, point_shifted, scale_extent, scale_point,
    shift_point, Draw,
};
use super::frame_buffer::{FrameBuffer, Point, Size};
use super::line::{draw_segment, lemma_level_segment, lemma_upright_segment, segment_cells};
use vstd::prelude::*;

verus! {

/// An axis-aligned rectangle: the corner with the smallest coordinates and
/// an extent.
#[derive(Debug, Clone, Copy, PartialEq, Eq, Structural)]
pub struct Rect {
    pub pos: Point,
    pub size: Size,
    pub color: Color,
    pub z_index: u32,
}

/// The cells of the filled rectangle: `width` columns from `x` on and
/// `height` rows from `y` on, the far edges excluded.
pub open spec fn rect_cells(x: int, y: int, width: int, height: int) -> Set<(int, int)> {
    Set::new(|c: (int, int)| x <= c.0 < x + width && y <= c.1 < y + height)
}

/// The cells on the rectangle's four edges. The edges run from corner to
/// corner, so the far ones lie one cell beyond the filled area.
pub open spec fn rect_border(x: int, y: int, width: int, height: int) -> Set<(int, int)> {
    Set::new(
        |c: (int, int)|
            (x <= c.0 <= x + width && (c.1 == y || c.1 == y + height)) || (y <= c.1 <= y + height
                && (c.0 == x || c.0 == x + width)),
    )
}

/// The first `rows` full rows of the filled rectangle and the first `cols`
/// cells of the row after them.
spec fn rect_progress(x: int, y: int, width: int, rows: int, cols: int) -> Set<(int, int)> {
    Set::new(
        |c: (int, int)|
            x <= c.0 < x + width && (y <= c.1 < y + rows || (c.1 == y + rows && c.0 < x + cols)),
    )
}

impl Rect {
    /// A rectangle at `pos`. The extent is taken without its signs.
    pub fn new(pos: Point, size: Point, z_index: u32, color: Color) -> (rect: Rect)
        ensures
            rect.pos == pos,
            rect.size.width == magnitude(size.x as int),
            rect.size.height == magnitude(size.y as int),
            rect.z_index == z_index,
            rect.color == color,
    {
        Rect {
            pos,
            size: Size { width: extent_of(size.x), height: extent_of(size.y) },
            color,
            z_index,
        }
    }

    pub fn pos(&self) -> (p: &Point)
        ensures
            *p == self.pos,
    {
        &self.pos
    }

    pub fn size(&self) -> (s: &Size)
        ensures
            *s == self.size,
    {
        &self.size
    }

    pub fn color(&self) -> (c: &Color)
        ensures
            *c == self.color,
    {
        &self.color
    }

    /// Replaces the extent, taken without its signs.
    pub fn set_size(&mut self, val: Point)
        ensures
            final(self).size.width == magnitude(val.x as int),
            final(self).size.height == magnitude(val.y as int),
            final(self).pos == old(self).pos,
            final(self).color == old(self).color,
            final(self).z_index == old(self).z_index,
    {
        self.size = Size { width: extent_of(val.x), height: extent_of(val.y) }
    }

    pub fn set_pos(&mut self, val: Point)
        ensures
            *final(self) == (Rect { pos: val, ..*old(self) }),
    {
        self.pos = val
    }

    pub fn set_color(&mut self, val: Color)
        ensures
            *final(self) == (Rect { color: val, ..*old(self) }),
    {
        self.color = val
    }
}

impl Draw for Rect {
    open spec fn cells(&self) -> Set<(int, int)> {
        rect_cells(
            self.pos.x as int,
            self.pos.y as int,
            self.size.width as int,
            self.size.height as int,
        )
    }

    open spec fn outline_cells(&self) -> Set<(int, int)> {
        rect_border(
            self.pos.x as int,
            self.pos.y as int,
            self.size.width as int,
            self.size.height as int,
        )
    }

    open spec fn ink(&self) -> Color {
        self.color
    }

    open spec fn order(&self) -> u32 {
        self.z_index
    }

    open spec fn shifted(&self, by: Point) -> Rect {
        Rect { pos: point_shifted(self.pos, by), ..*self }
    }

    open spec fn scaled(&self, times: i32) -> Rect {
        Rect {
            pos: point_scaled(self.pos, times),
            size: Size {
                width: extent_scaled(self.size.width, times),
                height: extent_scaled(self.size.height, times),
            },
            ..*self
        }
    }

    open spec fn reordered(&self, z: u32) -> Rect {
        Rect { z_index: z, ..*self }
    }

    fn draw(&self, frame_buffer: &mut FrameBuffer) {
        let px: i64 = self.pos.x as i64;
        let py: i64 = self.pos.y as i64;
        let w: i64 = self.size.width as i64;
        let h: i64 = self.size.height as i64;
        let color: Color = self.color;
        let ghost before: Canvas = frame_buffer@;
        proof {
            use_type_invariant(&*frame_buffer);
            frame_buffer.lemma_view_wf();
        }
        let mut y: i64 = 0;
        while y < h
            invariant
                0 <= y <= h,
                before.wf(),
                px == self.pos.x,
                py == self.pos.y,
                w == self.size.width,
                h == self.size.height,
                frame_buffer@.is_painting_of(
                    before,
                    rect_progress(px as int, py as int, w as int, y as int, 0),
                    color,
                ),
            decreases h - y,
        {
            let mut x: i64 = 0;
            while x < w
                invariant
                    0 <= x <= w,
                    0 <= y < h,
                    before.wf(),
                    px == self.pos.x,
                    py == self.pos.y,
                    w == self.size.width,
                    h == self.size.height,
                    frame_buffer@.is_painting_of(
                        before,
                        rect_progress(px as int, py as int, w as int, y as int, x as int),
                        color,
                    ),
                decreases w - x,
            {
                let ghost shown: Canvas = frame_buffer@;
                frame_buffer.plot(px + x, py + y, color);
                proof {
                    let next = rect_progress(px as int, py as int, w as int, y as int, x + 1);
                    assert forall|u: int, v: int| before.contains(u, v) implies #[trigger]
                        frame_buffer@.at(u, v) == if next.contains((u, v)) {
                        color
                    } else {
                        before.at(u, v)
                    } by {
                        assert(shown.contains(u, v));
                        assert(frame_buffer@.at(u, v) == if set![(px + x, py + y)].contains((u, v)) {
                            color
                        } else {
                            shown.at(u, v)
                        });
                    }
                }
                x += 1;
            }
            proof {
                assert(rect_progress(px as int, py as int, w as int, y as int, w as int)
                    =~= rect_progress(px as int, py as int, w as int, y + 1, 0));
            }
            y += 1;
        }
        proof {
            assert(rect_progress(px as int, py as int, w as int, h as int, 0) =~= self.cells());
            lemma_painting(before, frame_buffer@, self.cells(), color);
        }
    }

    fn draw_outline(&self, frame_buffer: &mut FrameBuffer) {
        let px: i64 = self.pos.x as i64;
        let py: i64 = self.pos.y as i64;
        let qx: i64 = px + self.size.width as i64;
        let qy: i64 = py + self.size.height as i64;
        let color: Color = self.color;
        let ghost before: Canvas = frame_buffer@;
        let ghost top = segment_cells(px as int, py as int, qx as int, py as int);
        let ghost left = segment_cells(px as int, py as int, px as int, qy as int);
        let ghost right = segment_cells(qx as int, py as int, qx as int, qy as int);
        let ghost bottom = segment_cells(px as int, qy as int, qx as int, qy as int);
        proof {
            use_type_invariant(&*frame_buffer);
            frame_buffer.lemma_view_wf();
        }
        draw_segment(frame_buffer, px, py, qx, py, color);
        draw_segment(frame_buffer, px, py, px, qy, color);
        draw_segment(frame_buffer, qx, py, qx, qy, color);
        draw_segment(frame_buffer, px, qy, qx, qy, color);
        proof {
            let c1 = before.paint(top, color);
            let c2 = c1.paint(left, color);
            let c3 = c2.paint(right, color);
            lemma_paint(before, top, color);
            lemma_paint_union(before, top, left, color);
            lemma_paint(before, top.union(left), color);
            lemma_paint_union(before, top.union(left), right, color);
            lemma_paint(before, top.union(left).union(right), color);
            lemma_paint_union(before, top.union(left).union(right), bottom, color);
            let all = top.union(left).union(right).union(bottom);
            assert forall|c: (int, int)| all.contains(c) <==> self.outline_cells().contains(c) by {
                lemma_level_segment(px as int, qx as int, py as int, c.0, c.1);
                lemma_level_segment(px as int, qx as int, qy as int, c.0, c.1);
                lemma_upright_segment(px as int, py as int, qy as int, c.0, c.1);
                lemma_upright_segment(qx as int, py as int, qy as int, c.0, c.1);
            }
            assert(all =~= self.outline_cells());
        }
    }

    fn offset(&self, offset_by: Point) -> (moved: Rect) {
        Rect { pos: shift_point(self.pos, offset_by), ..*self }
    }

    fn scale(&self, times: i32) -> (scaled: Rect) {
        Rect {
            pos: scale_point(self.pos, times),
            size: Size {
                width: scale_extent(self.size.width, times),
                height: scale_extent(self.size.height, times),
            },
            ..*self
        }
    }

    fn z_index(&self) -> (z: u32) {
        self.z_index
    }

    fn set_z_index(&mut self, val: u32) {
        self.z_index = val
    }
}

} // verus!
