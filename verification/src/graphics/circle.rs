//! Circles: the filled disc by a scan of its bounding square, the outline
//! by a walk along one octant that is mirrored into the other seven.

use super::canvas::{lemma_paint_nothing, lemma_painting, lemma_with_pixel, Canvas};
use super::color::Color;
use super::draw::{
    extent_of, extent_scaled, magnitude, point_scaled, point_shifted, scale_extent, scale_point,
    shift_point, Draw,
};
use super::frame_buffer::{FrameBuffer, Point};
use vstd::prelude::*;

verus! {

/// A circle: a centre and a radius in cells.
#[derive(Debug, Clone, Copy, PartialEq, Eq, Structural)]
pub struct Circle {
    pub pos: Point,
    pub radius: u32,
    pub color: Color,
    pub z_index: u32,
}

/// The cells of the filled circle: the cells of the square of side
/// `2 * r` about the centre, the far edges excluded, that lie within `r` of
/// the centre.
pub open spec fn disc_cells(cx: int, cy: int, r: int) -> Set<(int, int)> {
    Set::new(
        |c: (int, int)|
            {
                let dx = c.0 - cx;
                let dy = c.1 - cy;
                -r <= dx < r && -r <= dy < r && dx * dx + dy * dy <= r * r
            },
    )
}

/// The rows of the filled circle before row `cy + row`, and the cells of
/// that row before column `cx + col`.
spec fn disc_progress(cx: int, cy: int, r: int, row: int, col: int) -> Set<(int, int)> {
    Set::new(
        |c: (int, int)|
            disc_cells(cx, cy, r).contains(c) && (c.1 - cy < row || (c.1 - cy == row && c.0 - cx
                < col)),
    )
}

/// The walk along one octant of a circle of radius `r`, from the point
/// `(0, r)` towards the diagonal: after `k` steps it stands in column `k`,
/// and the result is its row and its decision value there. A positive
/// decision value makes the next step go one row inwards.
pub open spec fn arc_walk(r: int, k: nat) -> (int, int)
    decreases k,
{
    if k == 0 {
        (r, 3 - 2 * r)
    } else {
        let (y, d) = arc_walk(r, (k - 1) as nat);
        if d > 0 {
            (y - 1, d + 4 * (k - (y - 1)) + 10)
        } else {
            (y, d + 4 * k + 6)
        }
    }
}

/// The row of the octant walk in column `k`.
pub open spec fn arc_row(r: int, k: int) -> int {
    arc_walk(r, k as nat).0
}

/// Whether the octant walk gets as far as column `k`: it goes on for as long
/// as the row it stands in is not less than the column.
pub open spec fn arc_reaches(r: int, k: int) -> bool {
    k == 0 || (k > 0 && arc_row(r, k - 1) >= k - 1)
}

/// Whether the walk passes through column `k` at `w` rows from the centre,
/// on either side of it.
pub open spec fn on_arc(r: int, k: int, w: int) -> bool {
    arc_reaches(r, k) && (w == arc_row(r, k) || w == -arc_row(r, k))
}

/// The cells of the circle's outline for a radius of at least two: the
/// octant walk mirrored into all eight octants about the centre.
pub open spec fn ring_cells(cx: int, cy: int, r: int) -> Set<(int, int)> {
    Set::new(
        |c: (int, int)|
            {
                let dx = c.0 - cx;
                let dy = c.1 - cy;
                on_arc(r, magnitude(dx), dy) || on_arc(r, magnitude(dy), dx)
            },
    )
}

/// The cells of the outline that the walk's columns up to `n` give.
spec fn ring_progress(cx: int, cy: int, r: int, n: int) -> Set<(int, int)> {
    Set::new(
        |c: (int, int)|
            {
                let dx = c.0 - cx;
                let dy = c.1 - cy;
                (magnitude(dx) <= n && on_arc(r, magnitude(dx), dy)) || (magnitude(dy) <= n
                    && on_arc(r, magnitude(dy), dx))
            },
    )
}

/// The eight images of the offset `(x, y)` about a centre.
pub open spec fn mirrored_cells(cx: int, cy: int, x: int, y: int) -> Set<(int, int)> {
    Set::new(
        |c: (int, int)|
            {
                let dx = c.0 - cx;
                let dy = c.1 - cy;
                ((dx == x || dx == -x) && (dy == y || dy == -y)) || ((dx == y || dx == -y) && (dy
                    == x || dy == -x))
            },
    )
}

/// The walk never moves outwards.
proof fn lemma_arc_row_falls(r: int, m: int, n: int)
    requires
        0 <= m <= n,
    ensures
        arc_row(r, n) <= arc_row(r, m),
    decreases n - m,
{
    if m < n {
        lemma_arc_row_falls(r, m, n - 1);
    }
}

/// Once the walk has stopped, no later column is reached.
proof fn lemma_arc_stops(r: int, n: int, k: int)
    requires
        0 <= n < k,
        arc_row(r, n) < n,
    ensures
        !arc_reaches(r, k),
{
    lemma_arc_row_falls(r, n, k - 1);
}

/// A column that the walk reaches comes after columns that it reaches.
proof fn lemma_arc_reaches_before(r: int, k: int)
    requires
        0 <= k,
        arc_reaches(r, k + 1),
    ensures
        arc_reaches(r, k),
{
    if k > 0 {
        lemma_arc_row_falls(r, k - 1, k);
    }
}

/// What holds at every column `k` that the walk reaches, with `y` its row
/// and `d` its decision value there: `d` is a polynomial in `k` and `y`;
/// the row is at most two below the column; and the walk is close to the
/// circle.
spec fn arc_invariant(r: int, k: int) -> bool {
    let (y, d) = arc_walk(r, k as nat);
    let off = k * k + y * y - r * r;
    &&& d == 2 * off + 8 * k - 6 * y + 3 + 4 * r
    &&& k - 2 <= y <= r
    &&& k <= r + 1
    &&& off >= y - 2 * k - 2 * r
    &&& off <= r + (if y < k {
        2int
    } else {
        0int
    })
}

proof fn lemma_arc_invariant(r: int, k: int)
    requires
        r >= 0,
        0 <= k,
        arc_reaches(r, k),
    ensures
        arc_invariant(r, k),
    decreases k,
{
    if k == 0 {
        assert(0 * 0 + r * r - r * r == 0) by (nonlinear_arith);
    } else {
        let j = k - 1;
        lemma_arc_reaches_before(r, j);
        lemma_arc_invariant(r, j);
        let (y0, d0) = arc_walk(r, j as nat);
        let (y, d) = arc_walk(r, k as nat);
        let off0 = j * j + y0 * y0 - r * r;
        let off = k * k + y * y - r * r;
        assert(y0 >= j);
        assert(k * k == j * j + 2 * j + 1) by (nonlinear_arith)
            requires
                k == j + 1,
        ;
        if d0 > 0 {
            assert(y * y == y0 * y0 - 2 * y0 + 1) by (nonlinear_arith)
                requires
                    y == y0 - 1,
            ;
        }
    }
}

/// The walk stays close to the circle: at every column that it reaches,
/// the squared distance of its cell from the centre differs from the
/// squared radius by a few radii at most.
pub proof fn lemma_arc_near_circle(r: int, k: int)
    requires
        r >= 0,
        0 <= k,
        arc_reaches(r, k),
    ensures
        r * r - 3 * r - 3 <= k * k + arc_row(r, k) * arc_row(r, k) <= r * r + r + 2,
{
    lemma_arc_invariant(r, k);
}

/// Every cell of a circle's outline lies close to the circle: its squared
/// distance from the centre differs from the squared radius by a few radii
/// at most.
pub proof fn lemma_ring_near_circle(cx: int, cy: int, r: int, x: int, y: int)
    requires
        r >= 0,
        ring_cells(cx, cy, r).contains((x, y)),
    ensures
        r * r - 3 * r - 3 <= (x - cx) * (x - cx) + (y - cy) * (y - cy) <= r * r + r + 2,
{
    let dx = x - cx;
    let dy = y - cy;
    if on_arc(r, magnitude(dx), dy) {
        let k = magnitude(dx);
        let row = arc_row(r, k);
        lemma_arc_near_circle(r, k);
        assert(dx * dx == k * k) by (nonlinear_arith)
            requires
                dx == k || dx == -k,
        ;
        assert(dy * dy == row * row) by (nonlinear_arith)
            requires
                dy == row || dy == -row,
        ;
    } else {
        let k = magnitude(dy);
        let row = arc_row(r, k);
        lemma_arc_near_circle(r, k);
        assert(dy * dy == k * k) by (nonlinear_arith)
            requires
                dy == k || dy == -k,
        ;
        assert(dx * dx == row * row) by (nonlinear_arith)
            requires
                dx == row || dx == -row,
        ;
    }
}

/// Paints the eight images of one offset about a centre.
fn plot_mirrored(fb: &mut FrameBuffer, cx: i64, cy: i64, x: i64, y: i64, color: Color)
    requires
        -0x1_0000_0000 <= cx <= 0x1_0000_0000,
        -0x1_0000_0000 <= cy <= 0x1_0000_0000,
        -0x2_0000_0000 <= x <= 0x2_0000_0000,
        -0x2_0000_0000 <= y <= 0x2_0000_0000,
    ensures
        final(fb)@.is_painting_of(
            old(fb)@,
            mirrored_cells(cx as int, cy as int, x as int, y as int),
            color,
        ),
        old(fb)@.wf(),
{
    let ghost c0 = fb@;
    fb.plot(cx + x, cy + y, color);
    let ghost c1 = fb@;
    fb.plot(cx - x, cy + y, color);
    let ghost c2 = fb@;
    fb.plot(cx + x, cy - y, color);
    let ghost c3 = fb@;
    fb.plot(cx - x, cy - y, color);
    let ghost c4 = fb@;
    fb.plot(cx + y, cy + x, color);
    let ghost c5 = fb@;
    fb.plot(cx - y, cy + x, color);
    let ghost c6 = fb@;
    fb.plot(cx + y, cy - x, color);
    let ghost c7 = fb@;
    fb.plot(cx - y, cy - x, color);
    proof {
        let all = mirrored_cells(cx as int, cy as int, x as int, y as int);
        assert forall|u: int, v: int| c0.contains(u, v) implies #[trigger] fb@.at(u, v) == if all.contains(
            (u, v),
        ) {
            color
        } else {
            c0.at(u, v)
        } by {
            assert(c1.at(u, v) == if set![(cx + x, cy + y)].contains((u, v)) {
                color
            } else {
                c0.at(u, v)
            });
            assert(c1.contains(u, v));
            assert(c2.at(u, v) == if set![(cx - x, cy + y)].contains((u, v)) {
                color
            } else {
                c1.at(u, v)
            });
            assert(c2.contains(u, v));
            assert(c3.at(u, v) == if set![(cx + x, cy - y)].contains((u, v)) {
                color
            } else {
                c2.at(u, v)
            });
            assert(c3.contains(u, v));
            assert(c4.at(u, v) == if set![(cx - x, cy - y)].contains((u, v)) {
                color
            } else {
                c3.at(u, v)
            });
            assert(c4.contains(u, v));
            assert(c5.at(u, v) == if set![(cx + y, cy + x)].contains((u, v)) {
                color
            } else {
                c4.at(u, v)
            });
            assert(c5.contains(u, v));
            assert(c6.at(u, v) == if set![(cx - y, cy + x)].contains((u, v)) {
                color
            } else {
                c5.at(u, v)
            });
            assert(c6.contains(u, v));
            assert(c7.at(u, v) == if set![(cx + y, cy - x)].contains((u, v)) {
                color
            } else {
                c6.at(u, v)
            });
            assert(c7.contains(u, v));
            assert(fb@.at(u, v) == if set![(cx - y, cy - x)].contains((u, v)) {
                color
            } else {
                c7.at(u, v)
            });
        }
    }
}

impl Circle {
    /// A circle about `pos`. The radius is taken without its sign.
    pub fn new(pos: Point, radius: i32, z_index: u32, color: Color) -> (circle: Circle)
        ensures
            circle.pos == pos,
            circle.radius == magnitude(radius as int),
            circle.z_index == z_index,
            circle.color == color,
    {
        Circle { pos, radius: extent_of(radius), color, z_index }
    }

    pub fn pos(&self) -> (p: &Point)
        ensures
            *p == self.pos,
    {
        &self.pos
    }

    pub fn radius(&self) -> (r: &u32)
        ensures
            *r == self.radius,
    {
        &self.radius
    }

    pub fn color(&self) -> (c: &Color)
        ensures
            *c == self.color,
    {
        &self.color
    }

    /// Replaces the radius, taken without its sign.
    pub fn set_radius(&mut self, val: i32)
        ensures
            final(self).radius == magnitude(val as int),
            final(self).pos == old(self).pos,
            final(self).color == old(self).color,
            final(self).z_index == old(self).z_index,
    {
        self.radius = extent_of(val)
    }

    pub fn set_pos(&mut self, val: Point)
        ensures
            *final(self) == (Circle { pos: val, ..*old(self) }),
    {
        self.pos = val
    }

    /// Replaces the colour.
    pub fn color_mut(&mut self, val: Color)
        ensures
            *final(self) == (Circle { color: val, ..*old(self) }),
    {
        self.color = val
    }
}

impl Draw for Circle {
    open spec fn cells(&self) -> Set<(int, int)> {
        disc_cells(self.pos.x as int, self.pos.y as int, self.radius as int)
    }

    /// A circle too small to have a ring is one cell at its centre.
    open spec fn outline_cells(&self) -> Set<(int, int)> {
        if self.radius < 2 {
            set![(self.pos.x as int, self.pos.y as int)]
        } else {
            ring_cells(self.pos.x as int, self.pos.y as int, self.radius as int)
        }
    }

    open spec fn ink(&self) -> Color {
        self.color
    }

    open spec fn order(&self) -> u32 {
        self.z_index
    }

    open spec fn shifted(&self, by: Point) -> Circle {
        Circle { pos: point_shifted(self.pos, by), ..*self }
    }

    open spec fn scaled(&self, times: i32) -> Circle {
        Circle {
            pos: point_scaled(self.pos, times),
            radius: extent_scaled(self.radius, times),
            ..*self
        }
    }

    open spec fn reordered(&self, z: u32) -> Circle {
        Circle { z_index: z, ..*self }
    }

    fn draw(&self, frame_buffer: &mut FrameBuffer) {
        let cx: i64 = self.pos.x as i64;
        let cy: i64 = self.pos.y as i64;
        let r: i64 = self.radius as i64;
        let color: Color = self.color;
        let width: i64 = frame_buffer.size().width as i64;
        let height: i64 = frame_buffer.size().height as i64;
        let ghost before: Canvas = frame_buffer@;
        proof {
            use_type_invariant(&*frame_buffer);
            frame_buffer.lemma_view_wf();
        }
        if cx + r >= 0 && cx - r <= width && cy + r >= 0 && cy - r <= height {
            assert(0 <= r * r <= 0x1_0000_0000_0000_0000) by (nonlinear_arith)
                requires
                    0 <= r <= 0x1_0000_0000,
            ;
            let rr: i128 = (r as i128) * (r as i128);
            let mut y: i64 = -r;
            while y < r
                invariant
                    -r <= y <= r,
                    before.wf(),
                    cx == self.pos.x,
                    cy == self.pos.y,
                    r == self.radius,
                    rr == r * r,
                    frame_buffer@.is_painting_of(
                        before,
                        disc_progress(cx as int, cy as int, r as int, y as int, -r as int),
                        color,
                    ),
                decreases r - y,
            {
                let mut x: i64 = -r;
                while x < r
                    invariant
                        -r <= x <= r,
                        -r <= y < r,
                        before.wf(),
                        cx == self.pos.x,
                        cy == self.pos.y,
                        r == self.radius,
                        rr == r * r,
                        frame_buffer@.is_painting_of(
                            before,
                            disc_progress(cx as int, cy as int, r as int, y as int, x as int),
                            color,
                        ),
                    decreases r - x,
                {
                    let ghost shown: Canvas = frame_buffer@;
                    assert(0 <= x * x <= 0x1_0000_0000_0000_0000 && 0 <= y * y
                        <= 0x1_0000_0000_0000_0000) by (nonlinear_arith)
                        requires
                            -0x1_0000_0000 <= x <= 0x1_0000_0000,
                            -0x1_0000_0000 <= y <= 0x1_0000_0000,
                    ;
                    let inside: bool = (x as i128) * (x as i128) + (y as i128) * (y as i128) <= rr;
                    if inside {
                        frame_buffer.plot(cx + x, cy + y, color);
                    }
                    proof {
                        let next = disc_progress(cx as int, cy as int, r as int, y as int, x + 1);
                        assert forall|u: int, v: int| before.contains(u, v) implies #[trigger]
                            frame_buffer@.at(u, v) == if next.contains((u, v)) {
                            color
                        } else {
                            before.at(u, v)
                        } by {
                            assert(shown.contains(u, v));
                            if inside {
                                assert(frame_buffer@.at(u, v) == if set![
                                    (cx + x, cy + y),
                                ].contains((u, v)) {
                                    color
                                } else {
                                    shown.at(u, v)
                                });
                            }
                            if u - cx == x && v - cy == y {
                                assert((u - cx) * (u - cx) == x * x);
                                assert((v - cy) * (v - cy) == y * y);
                            }
                        }
                    }
                    x += 1;
                }
                proof {
                    assert(disc_progress(cx as int, cy as int, r as int, y as int, r as int)
                        =~= disc_progress(cx as int, cy as int, r as int, y + 1, -r as int));
                }
                y += 1;
            }
            proof {
                assert(disc_progress(cx as int, cy as int, r as int, r as int, -r as int)
                    =~= self.cells());
                lemma_painting(before, frame_buffer@, self.cells(), color);
            }
        } else {
            proof {
                // The circle lies wholly off the grid.
                lemma_paint_nothing(before, self.cells(), color);
            }
        }
    }

    fn draw_outline(&self, frame_buffer: &mut FrameBuffer) {
        let cx: i64 = self.pos.x as i64;
        let cy: i64 = self.pos.y as i64;
        let color: Color = self.color;
        let ghost before: Canvas = frame_buffer@;
        proof {
            use_type_invariant(&*frame_buffer);
            frame_buffer.lemma_view_wf();
        }
        if self.radius < 2 {
            frame_buffer.plot(cx, cy, color);
            proof {
                lemma_with_pixel(before, cx as int, cy as int, color);
            }
        } else {
            let r: i64 = self.radius as i64;
            let mut x: i64 = 0;
            let mut y: i64 = r;
            let mut d: i64 = 3 - 2 * r;
            plot_mirrored(frame_buffer, cx, cy, x, y, color);
            proof {
                let first = ring_progress(cx as int, cy as int, r as int, 0);
                assert forall|u: int, v: int| before.contains(u, v) implies #[trigger]
                    frame_buffer@.at(u, v) == if first.contains((u, v)) {
                    color
                } else {
                    before.at(u, v)
                } by {
                    assert(mirrored_cells(cx as int, cy as int, 0, r as int).contains((u, v))
                        <==> first.contains((u, v)));
                }
            }
            while y >= x
                invariant
                    before.wf(),
                    cx == self.pos.x,
                    cy == self.pos.y,
                    r == self.radius,
                    r >= 2,
                    0 <= x <= r + 1,
                    -1 <= y <= r,
                    y == arc_row(r as int, x as int),
                    d == arc_walk(r as int, x as nat).1,
                    -4 * r - 10 <= d <= 22 * x + 6,
                    arc_reaches(r as int, x as int),
                    frame_buffer@.is_painting_of(
                        before,
                        ring_progress(cx as int, cy as int, r as int, x as int),
                        color,
                    ),
                decreases r + 2 - x,
            {
                let ghost shown: Canvas = frame_buffer@;
                x += 1;
                if d > 0 {
                    y -= 1;
                    d += 4 * (x - y) + 10;
                } else {
                    d += 4 * x + 6;
                }
                plot_mirrored(frame_buffer, cx, cy, x, y, color);
                proof {
                    assert(arc_reaches(r as int, x as int));
                    let next = ring_progress(cx as int, cy as int, r as int, x as int);
                    let previous = ring_progress(cx as int, cy as int, r as int, x - 1);
                    assert forall|u: int, v: int| before.contains(u, v) implies #[trigger]
                        frame_buffer@.at(u, v) == if next.contains((u, v)) {
                        color
                    } else {
                        before.at(u, v)
                    } by {
                        assert(shown.contains(u, v));
                        assert(shown.at(u, v) == if previous.contains((u, v)) {
                            color
                        } else {
                            before.at(u, v)
                        });
                        assert(next.contains((u, v)) <==> (previous.contains((u, v))
                            || mirrored_cells(cx as int, cy as int, x as int, y as int).contains(
                            (u, v),
                        )));
                    }
                }
            }
            proof {
                let done = ring_progress(cx as int, cy as int, r as int, x as int);
                let ring = ring_cells(cx as int, cy as int, r as int);
                assert forall|c: (int, int)| ring.contains(c) implies done.contains(c) by {
                    let dx = c.0 - cx;
                    let dy = c.1 - cy;
                    if magnitude(dx) > x {
                        lemma_arc_stops(r as int, x as int, magnitude(dx));
                    }
                    if magnitude(dy) > x {
                        lemma_arc_stops(r as int, x as int, magnitude(dy));
                    }
                }
                assert(done =~= ring);
                lemma_painting(before, frame_buffer@, ring, color);
            }
        }
    }

    fn offset(&self, offset_by: Point) -> (moved: Circle) {
        Circle { pos: shift_point(self.pos, offset_by), ..*self }
    }

    fn scale(&self, times: i32) -> (scaled: Circle) {
        Circle {
            pos: scale_point(self.pos, times),
            radius: scale_extent(self.radius, times),
            ..*self
        }
    }

    fn z_index(&self) -> (z: u32) {
        self.z_index
    }

    fn set_z_index(&mut self, val: u32) {
        self.z_index = val
    }
}

} // verus!
