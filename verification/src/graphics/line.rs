//! Straight segments. The set of cells of a rasterised segment is given in
//! closed form, and the error-accumulation walk is proved to paint exactly
//! that set.

use super::canvas::{lemma_painting, Canvas};
use super::color::Color;
use super::draw::{point_scaled, point_shifted, scale_point, shift_point, Draw};
use super::frame_buffer::{FrameBuffer, Point};
use vstd::arithmetic::div_mod::{
    lemma_fundamental_div_mod, lemma_fundamental_div_mod_converse, lemma_mod_bound,
};
use vstd::prelude::*;

verus! {

/// The distance between two coordinates.
pub open spec fn span(p: int, q: int) -> int {
    if p <= q {
        q - p
    } else {
        p - q
    }
}

/// The coordinate `t` steps away from `p` in the direction of `q`.
pub open spec fn toward(p: int, q: int, t: int) -> int {
    if p <= q {
        p + t
    } else {
        p - t
    }
}

/// How many steps from `p` in the direction of `q` the coordinate `c` lies.
pub open spec fn steps_from(p: int, q: int, c: int) -> int {
    if p <= q {
        c - p
    } else {
        p - c
    }
}

/// How far a segment has moved across after `t` steps along: the exact
/// quotient `minor * t / major` rounded to the nearest integer, a half
/// rounded up. `major` is the segment's longer extent, `minor` the shorter.
pub open spec fn minor_advance(major: int, minor: int, t: int) -> int {
    if major <= 0 {
        0
    } else {
        (2 * minor * t + major) / (2 * major)
    }
}

/// Whether the rasterised segment from `(x0, y0)` to `(x1, y1)` holds the
/// cell `(x, y)`. The segment has one cell for each step along its longer
/// extent, the ends included; across, the cell is the one nearest to the
/// ideal line.
pub open spec fn segment_covers(x0: int, y0: int, x1: int, y1: int, x: int, y: int) -> bool {
    let a = span(x0, x1);
    let b = span(y0, y1);
    if a >= b {
        let t = steps_from(x0, x1, x);
        0 <= t <= a && y == toward(y0, y1, minor_advance(a, b, t))
    } else {
        let t = steps_from(y0, y1, y);
        0 <= t <= b && x == toward(x0, x1, minor_advance(b, a, t))
    }
}

/// The cells of the rasterised segment from `(x0, y0)` to `(x1, y1)`.
pub open spec fn segment_cells(x0: int, y0: int, x1: int, y1: int) -> Set<(int, int)> {
    Set::new(|c: (int, int)| segment_covers(x0, y0, x1, y1, c.0, c.1))
}

/// The step along the longer extent at which the segment would reach the
/// cell `(x, y)`.
pub open spec fn major_step(x0: int, y0: int, x1: int, y1: int, x: int, y: int) -> int {
    if span(x0, x1) >= span(y0, y1) {
        steps_from(x0, x1, x)
    } else {
        steps_from(y0, y1, y)
    }
}

/// The cells of the segment that come before step `t`.
pub open spec fn segment_prefix(x0: int, y0: int, x1: int, y1: int, t: int) -> Set<(int, int)> {
    Set::new(
        |c: (int, int)|
            segment_covers(x0, y0, x1, y1, c.0, c.1) && major_step(x0, y0, x1, y1, c.0, c.1) < t,
    )
}

/// The largest coordinate, in absolute value, that `draw_segment` accepts.
pub const SEGMENT_REACH: i64 = 0x100_0000_0000;

/// The coordinate is within `SEGMENT_REACH` of the origin.
pub open spec fn within_reach(v: i64) -> bool {
    -SEGMENT_REACH <= v <= SEGMENT_REACH
}

/// `s` steps across go with `t` steps along: `s` is `minor * t / major`
/// rounded to nearest, stated without division.
pub open spec fn tracks(major: int, minor: int, t: int, s: int) -> bool {
    if major == 0 {
        s == 0
    } else {
        2 * (major * s) <= 2 * (minor * t) + major < 2 * (major * s) + 2 * major
    }
}

proof fn lemma_tracks(major: int, minor: int, t: int, s: int)
    requires
        0 <= minor <= major,
        tracks(major, minor, t, s),
    ensures
        minor_advance(major, minor, t) == s,
{
    if major > 0 {
        let n = 2 * minor * t + major;
        let d = 2 * major;
        let r = n - 2 * (major * s);
        assert(n == 2 * (minor * t) + major) by (nonlinear_arith)
            requires
                n == 2 * minor * t + major,
        ;
        assert(n == s * d + r) by (nonlinear_arith)
            requires
                d == 2 * major,
                r == n - 2 * (major * s),
        ;
        lemma_fundamental_div_mod_converse(n, d, s, r);
    }
}

/// At the last step along, the segment has also come all the way across.
proof fn lemma_tracks_end(major: int, minor: int, s: int)
    requires
        0 <= minor <= major,
        tracks(major, minor, major, s),
    ensures
        s == minor,
{
    if major > 0 {
        assert(s == minor) by (nonlinear_arith)
            requires
                0 <= minor <= major,
                0 < major,
                2 * (major * s) <= 2 * (minor * major) + major < 2 * (major * s) + 2 * major,
        ;
    }
}

/// The one cell of the segment at step `t` along is the cell `t` steps
/// along and `s` steps across from the start.
proof fn lemma_cell_at_step(x0: int, y0: int, x1: int, y1: int, i: int, j: int, u: int, v: int)
    requires
        0 <= i <= span(x0, x1),
        0 <= j <= span(y0, y1),
        span(x0, x1) >= span(y0, y1) ==> tracks(span(x0, x1), span(y0, y1), i, j),
        span(x0, x1) < span(y0, y1) ==> tracks(span(y0, y1), span(x0, x1), j, i),
    ensures
        (segment_covers(x0, y0, x1, y1, u, v) && major_step(x0, y0, x1, y1, u, v) == (if span(
            x0,
            x1,
        ) >= span(y0, y1) {
            i
        } else {
            j
        })) <==> (u == toward(x0, x1, i) && v == toward(y0, y1, j)),
{
    let a = span(x0, x1);
    let b = span(y0, y1);
    if a >= b {
        lemma_tracks(a, b, i, j);
    } else {
        lemma_tracks(b, a, j, i);
    }
}

/// The rounded quotient goes with its step: the converse of `lemma_tracks`.
proof fn lemma_minor_advance_tracks(major: int, minor: int, t: int)
    requires
        0 <= minor <= major,
    ensures
        tracks(major, minor, t, minor_advance(major, minor, t)),
{
    if major > 0 {
        let n = 2 * minor * t + major;
        let d = 2 * major;
        let s = n / d;
        lemma_fundamental_div_mod(n, d);
        lemma_mod_bound(n, d);
        assert(n == 2 * (minor * t) + major) by (nonlinear_arith)
            requires
                n == 2 * minor * t + major,
        ;
        assert(d * s == 2 * (major * s)) by (nonlinear_arith)
            requires
                d == 2 * major,
        ;
    }
}

/// The longer of a segment's two extents: the number of steps it takes.
pub open spec fn segment_steps(x0: int, y0: int, x1: int, y1: int) -> int {
    if span(x0, x1) >= span(y0, y1) {
        span(x0, x1)
    } else {
        span(y0, y1)
    }
}

/// The cell of the segment at step `t` along its longer extent.
pub open spec fn segment_cell(x0: int, y0: int, x1: int, y1: int, t: int) -> (int, int) {
    let a = span(x0, x1);
    let b = span(y0, y1);
    if a >= b {
        (toward(x0, x1, t), toward(y0, y1, minor_advance(a, b, t)))
    } else {
        (toward(x0, x1, minor_advance(b, a, t)), toward(y0, y1, t))
    }
}

/// The segment holds one cell for each of its steps, and no other cell.
pub proof fn lemma_segment_by_steps(x0: int, y0: int, x1: int, y1: int, x: int, y: int)
    ensures
        segment_covers(x0, y0, x1, y1, x, y) <==> (0 <= major_step(x0, y0, x1, y1, x, y)
            <= segment_steps(x0, y0, x1, y1) && (x, y) == segment_cell(
            x0,
            y0,
            x1,
            y1,
            major_step(x0, y0, x1, y1, x, y),
        )),
        forall|t: int|
            0 <= t <= segment_steps(x0, y0, x1, y1) ==> segment_covers(
                x0,
                y0,
                x1,
                y1,
                (#[trigger] segment_cell(x0, y0, x1, y1, t)).0,
                segment_cell(x0, y0, x1, y1, t).1,
            ),
{
}

/// The segment starts at its first end and stops at its second.
pub proof fn lemma_segment_ends(x0: int, y0: int, x1: int, y1: int)
    ensures
        segment_cell(x0, y0, x1, y1, 0) == (x0, y0),
        segment_cell(x0, y0, x1, y1, segment_steps(x0, y0, x1, y1)) == (x1, y1),
        segment_covers(x0, y0, x1, y1, x0, y0),
        segment_covers(x0, y0, x1, y1, x1, y1),
{
    let a = span(x0, x1);
    let b = span(y0, y1);
    if a >= b {
        assert(tracks(a, b, 0, 0)) by (nonlinear_arith)
            requires
                0 <= b <= a,
        ;
        lemma_tracks(a, b, 0, 0);
        assert(tracks(a, b, a, b)) by (nonlinear_arith)
            requires
                0 <= b <= a,
        ;
        lemma_tracks(a, b, a, b);
    } else {
        assert(tracks(b, a, 0, 0)) by (nonlinear_arith)
            requires
                0 <= a <= b,
        ;
        lemma_tracks(b, a, 0, 0);
        assert(tracks(b, a, b, a)) by (nonlinear_arith)
            requires
                0 <= a <= b,
        ;
        lemma_tracks(b, a, b, a);
    }
}

/// From one step to the next the segment moves one cell along and at most
/// one cell across: its cells touch, at least at a corner.
pub proof fn lemma_segment_connected(x0: int, y0: int, x1: int, y1: int, t: int)
    requires
        0 <= t < segment_steps(x0, y0, x1, y1),
    ensures
        ({
            let here = segment_cell(x0, y0, x1, y1, t);
            let next = segment_cell(x0, y0, x1, y1, t + 1);
            &&& span(here.0, next.0) <= 1
            &&& span(here.1, next.1) <= 1
            &&& here != next
        }),
{
    let a = span(x0, x1);
    let b = span(y0, y1);
    let (major, minor) = if a >= b {
        (a, b)
    } else {
        (b, a)
    };
    let s0 = minor_advance(major, minor, t);
    let s1 = minor_advance(major, minor, t + 1);
    lemma_minor_advance_tracks(major, minor, t);
    lemma_minor_advance_tracks(major, minor, t + 1);
    assert(s0 <= s1 <= s0 + 1) by (nonlinear_arith)
        requires
            0 <= minor <= major,
            0 < major,
            2 * (major * s0) <= 2 * (minor * t) + major < 2 * (major * s0) + 2 * major,
            2 * (major * s1) <= 2 * (minor * (t + 1)) + major < 2 * (major * s1) + 2 * major,
    ;
}

/// How far the cell `(x, y)` lies off the straight line through the two
/// ends, as twice the area of the triangle that the three points span.
pub open spec fn off_line(x0: int, y0: int, x1: int, y1: int, x: int, y: int) -> int {
    (x - x0) * (y1 - y0) - (y - y0) * (x1 - x0)
}

/// Every cell of the segment lies within half a cell of the straight line
/// through the two ends, measured across the segment's longer extent.
pub proof fn lemma_segment_near_line(x0: int, y0: int, x1: int, y1: int, x: int, y: int)
    requires
        segment_covers(x0, y0, x1, y1, x, y),
    ensures
        -segment_steps(x0, y0, x1, y1) <= 2 * off_line(x0, y0, x1, y1, x, y) <= segment_steps(
            x0,
            y0,
            x1,
            y1,
        ),
{
    let a = span(x0, x1);
    let b = span(y0, y1);
    if a >= b {
        let t = steps_from(x0, x1, x);
        let s = minor_advance(a, b, t);
        lemma_minor_advance_tracks(a, b, t);
        if a > 0 {
            let dx = x - x0;
            let dy = y - y0;
            let ex = x1 - x0;
            let ey = y1 - y0;
            assert(dx * ey - dy * ex == b * t - a * s || dx * ey - dy * ex == a * s - b * t)
                by (nonlinear_arith)
                requires
                    (dx == t && ex == a) || (dx == -t && ex == -a),
                    (dy == s && ey == b) || (dy == -s && ey == -b),
            ;
        } else {
            assert(off_line(x0, y0, x1, y1, x, y) == 0) by (nonlinear_arith)
                requires
                    x == x0,
                    y == y0,
            ;
        }
    } else {
        let t = steps_from(y0, y1, y);
        let s = minor_advance(b, a, t);
        lemma_minor_advance_tracks(b, a, t);
        let dx = x - x0;
        let dy = y - y0;
        let ex = x1 - x0;
        let ey = y1 - y0;
        assert(dx * ey - dy * ex == b * s - a * t || dx * ey - dy * ex == a * t - b * s)
            by (nonlinear_arith)
            requires
                (dx == s && ex == a) || (dx == -s && ex == -a),
                (dy == t && ey == b) || (dy == -t && ey == -b),
        ;
    }
}

/// A level segment covers the cells of its row between its two ends.
pub proof fn lemma_level_segment(x0: int, x1: int, y: int, u: int, v: int)
    ensures
        segment_covers(x0, y, x1, y, u, v) <==> (v == y && (x0 <= u <= x1 || x1 <= u <= x0)),
{
    let a = span(x0, x1);
    let t = steps_from(x0, x1, u);
    if 0 <= t <= a {
        assert(tracks(a, 0, t, 0)) by (nonlinear_arith)
            requires
                0 <= a,
        ;
        lemma_tracks(a, 0, t, 0);
    }
}

/// An upright segment covers the cells of its column between its two ends.
pub proof fn lemma_upright_segment(x: int, y0: int, y1: int, u: int, v: int)
    ensures
        segment_covers(x, y0, x, y1, u, v) <==> (u == x && (y0 <= v <= y1 || y1 <= v <= y0)),
{
    let b = span(y0, y1);
    let t = steps_from(y0, y1, v);
    if b > 0 && 0 <= t <= b {
        assert(tracks(b, 0, t, 0)) by (nonlinear_arith)
            requires
                0 <= b,
        ;
        lemma_tracks(b, 0, t, 0);
    }
}

/// Rasterises the segment between two cells with the integer
/// error-accumulation walk: one cell per step along the longer extent,
/// the accumulated error deciding when to step across.
pub fn draw_segment(fb: &mut FrameBuffer, x0: i64, y0: i64, x1: i64, y1: i64, color: Color)
    requires
        within_reach(x0),
        within_reach(y0),
        within_reach(x1),
        within_reach(y1),
    ensures
        final(fb)@ == old(fb)@.paint(
            segment_cells(x0 as int, y0 as int, x1 as int, y1 as int),
            color,
        ),
{
    let dx: i64 = if x1 >= x0 {
        x1 - x0
    } else {
        x0 - x1
    };
    let dy: i64 = if y1 >= y0 {
        y0 - y1
    } else {
        y1 - y0
    };
    let sx: i64 = if x0 < x1 {
        1
    } else {
        -1
    };
    let sy: i64 = if y0 < y1 {
        1
    } else {
        -1
    };
    let mut x: i64 = x0;
    let mut y: i64 = y0;
    let mut error: i64 = dx + dy;

    let ghost a: int = dx as int;
    let ghost b: int = -dy as int;
    let ghost before: Canvas = fb@;
    let ghost mut i: int = 0;
    let ghost mut j: int = 0;
    let ghost mut aj: int = 0;
    let ghost mut bi: int = 0;
    proof {
        use_type_invariant(&*fb);
        fb.lemma_view_wf();
        assert(fb@.is_painting_of(
            before,
            segment_prefix(x0 as int, y0 as int, x1 as int, y1 as int, 0),
            color,
        ));
    }
    loop
        invariant_except_break
            0 <= i <= a,
            0 <= j <= b,
            aj == a * j,
            bi == b * i,
            error == a - b - bi + aj,
            x == toward(x0 as int, x1 as int, i),
            y == toward(y0 as int, y1 as int, j),
            a >= b ==> tracks(a, b, i, j),
            a < b ==> tracks(b, a, j, i),
            fb@.is_painting_of(
                before,
                segment_prefix(
                    x0 as int,
                    y0 as int,
                    x1 as int,
                    y1 as int,
                    if a >= b {
                        i
                    } else {
                        j
                    },
                ),
                color,
            ),
        invariant
            before.wf(),
            a == span(x0 as int, x1 as int),
            b == span(y0 as int, y1 as int),
            a == dx,
            b == -dy,
            0 <= a <= 2 * SEGMENT_REACH,
            0 <= b <= 2 * SEGMENT_REACH,
            sx == if x0 < x1 {
                1int
            } else {
                -1int
            },
            sy == if y0 < y1 {
                1int
            } else {
                -1int
            },
            within_reach(x0),
            within_reach(y0),
            within_reach(x1),
            within_reach(y1),
        ensures
            fb@.is_painting_of(
                before,
                segment_cells(x0 as int, y0 as int, x1 as int, y1 as int),
                color,
            ),
        decreases (a - i) + (b - j),
    {
        let ghost shown: Canvas = fb@;
        let ghost t: int = if a >= b {
            i
        } else {
            j
        };
        fb.plot(x, y, color);
        proof {
            let next = segment_prefix(x0 as int, y0 as int, x1 as int, y1 as int, t + 1);
            assert forall|u: int, v: int| before.contains(u, v) implies #[trigger] fb@.at(u, v)
                == if next.contains((u, v)) {
                color
            } else {
                before.at(u, v)
            } by {
                lemma_cell_at_step(x0 as int, y0 as int, x1 as int, y1 as int, i, j, u, v);
                assert(shown.contains(u, v));
                assert(fb@.at(u, v) == if set![(x as int, y as int)].contains((u, v)) {
                    color
                } else {
                    shown.at(u, v)
                });
            }
            assert(fb@.is_painting_of(before, next, color));
        }
        if x == x1 && y == y1 {
            proof {
                assert(i == a);
                assert(j == b);
                assert(segment_prefix(x0 as int, y0 as int, x1 as int, y1 as int, t + 1)
                    =~= segment_cells(x0 as int, y0 as int, x1 as int, y1 as int));
            }
            break ;
        }
        proof {
            // Away from the far end there is a step along still to take.
            if a >= b {
                if i == a {
                    lemma_tracks_end(a, b, j);
                }
                assert(i < a);
            } else {
                if j == b {
                    lemma_tracks_end(b, a, i);
                }
                assert(j < b);
            }
        }
        let e2: i64 = 2 * error;
        if e2 >= dy {
            proof {
                if a < b {
                    // A step across in a steep segment: not after the last.
                    if i == a {
                        assert(a * j <= a * b - a) by (nonlinear_arith)
                            requires
                                0 <= a,
                                j <= b - 1,
                        ;
                        assert(b * i == a * b) by (nonlinear_arith)
                            requires
                                i == a,
                        ;
                    }
                }
                assert(i < a);
                assert(b * (i + 1) == b * i + b) by (nonlinear_arith);
                bi = bi + b;
                i = i + 1;
            }
            error += dy;
            x += sx;
        }
        if e2 <= dx {
            proof {
                if a >= b {
                    // A step across in a flat segment: not after the last.
                    if j == b {
                        let i0 = i - 1;
                        assert(b * i0 <= a * b - b) by (nonlinear_arith)
                            requires
                                0 <= b,
                                i0 <= a - 1,
                        ;
                        assert(a * j == a * b) by (nonlinear_arith)
                            requires
                                j == b,
                        ;
                    }
                }
                assert(j < b);
                assert(a * (j + 1) == a * j + a) by (nonlinear_arith);
                aj = aj + a;
                j = j + 1;
            }
            error += dx;
            y += sy;
        }
        proof {
            assert(a >= b ==> tracks(a, b, i, j));
            assert(a < b ==> tracks(b, a, j, i));
        }
    }
    proof {
        lemma_painting(
            before,
            fb@,
            segment_cells(x0 as int, y0 as int, x1 as int, y1 as int),
            color,
        );
    }
}

/// A straight segment between two cells.
#[derive(Debug, Clone, Copy, PartialEq, Eq, Structural)]
pub struct Line {
    pub pos_1: Point,
    pub pos_2: Point,
    pub color: Color,
    pub z_index: u32,
}

impl Line {
    pub fn new(pos_1: Point, pos_2: Point, z_index: u32, color: Color) -> (line: Line)
        ensures
            line == (Line { pos_1, pos_2, color, z_index }),
    {
        Line { pos_1, pos_2, color, z_index }
    }

    pub fn pos_1(&self) -> (p: &Point)
        ensures
            *p == self.pos_1,
    {
        &self.pos_1
    }

    pub fn pos_2(&self) -> (p: &Point)
        ensures
            *p == self.pos_2,
    {
        &self.pos_2
    }

    pub fn color(&self) -> (c: &Color)
        ensures
            *c == self.color,
    {
        &self.color
    }

    pub fn set_pos_1(&mut self, val: Point)
        ensures
            *final(self) == (Line { pos_1: val, ..*old(self) }),
    {
        self.pos_1 = val
    }

    pub fn set_pos_2(&mut self, val: Point)
        ensures
            *final(self) == (Line { pos_2: val, ..*old(self) }),
    {
        self.pos_2 = val
    }

    pub fn set_color(&mut self, val: Color)
        ensures
            *final(self) == (Line { color: val, ..*old(self) }),
    {
        self.color = val
    }
}

impl Draw for Line {
    open spec fn cells(&self) -> Set<(int, int)> {
        segment_cells(
            self.pos_1.x as int,
            self.pos_1.y as int,
            self.pos_2.x as int,
            self.pos_2.y as int,
        )
    }

    /// A segment has no interior: its outline is the segment.
    open spec fn outline_cells(&self) -> Set<(int, int)> {
        self.cells()
    }

    open spec fn ink(&self) -> Color {
        self.color
    }

    open spec fn order(&self) -> u32 {
        self.z_index
    }

    open spec fn shifted(&self, by: Point) -> Line {
        Line {
            pos_1: point_shifted(self.pos_1, by),
            pos_2: point_shifted(self.pos_2, by),
            ..*self
        }
    }

    open spec fn scaled(&self, times: i32) -> Line {
        Line {
            pos_1: point_scaled(self.pos_1, times),
            pos_2: point_scaled(self.pos_2, times),
            ..*self
        }
    }

    open spec fn reordered(&self, z: u32) -> Line {
        Line { z_index: z, ..*self }
    }

    fn draw(&self, frame_buffer: &mut FrameBuffer) {
        draw_segment(
            frame_buffer,
            self.pos_1.x as i64,
            self.pos_1.y as i64,
            self.pos_2.x as i64,
            self.pos_2.y as i64,
            self.color,
        );
    }

    fn draw_outline(&self, frame_buffer: &mut FrameBuffer) {
        self.draw(frame_buffer);
    }

    fn offset(&self, offset_by: Point) -> (moved: Line) {
        Line::new(
            shift_point(self.pos_1, offset_by),
            shift_point(self.pos_2, offset_by),
            self.z_index,
            self.color,
        )
    }

    fn scale(&self, times: i32) -> (scaled: Line) {
        Line::new(
            scale_point(self.pos_1, times),
            scale_point(self.pos_2, times),
            self.z_index,
            self.color,
        )
    }

    fn z_index(&self) -> (z: u32) {
        self.z_index
    }

    fn set_z_index(&mut self, val: u32) {
        self.z_index = val
    }
}

} // verus!
