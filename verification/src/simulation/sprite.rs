//! The shapes that show a body on the pixel grid.

use crate::graphics::circle::Circle;
use crate::graphics::color::Color;
use crate::graphics::frame_buffer::Point;
use crate::graphics::line::Line;
use crate::graphics::shape::Shape;
use vstd::prelude::*;

verus! {

/// The draw order of trail segments: beneath everything else.
pub const TRAIL_ORDER: u32 = 0;

/// The draw order of a body's disc.
pub const BODY_ORDER: u32 = 1;

/// The draw order of a momentum indicator: on top.
pub const MOMENTUM_ORDER: u32 = 2;

/// How a body appears on the pixel grid: its disc, the indicator of its
/// momentum and the path it has taken.
#[derive(Debug, PartialEq, Eq)]
pub struct Sprite {
    /// The centre of the disc.
    pub center: Point,
    /// The radius of the disc.
    pub radius: u32,
    /// The colour of the disc and of the trail.
    pub color: Color,
    /// Where the momentum indicator starts: at the body.
    pub momentum_from: Point,
    /// Where the momentum indicator ends.
    pub momentum_to: Point,
    /// The body's earlier positions, the oldest first.
    pub trail: Vec<Point>,
}

/// The colour of every momentum indicator.
pub open spec fn indicator_color() -> Color {
    Color { r: 255, g: 255, b: 255 }
}

/// The segment between the trail positions `i` and `i + 1`.
pub open spec fn trail_segment(trail: Seq<Point>, color: Color, i: int) -> Shape {
    Shape::Line(Line { pos_1: trail[i], pos_2: trail[i + 1], color, z_index: TRAIL_ORDER })
}

/// The segments that join each trail position to the next.
pub open spec fn trail_shapes(trail: Seq<Point>, color: Color) -> Seq<Shape> {
    if trail.len() < 2 {
        Seq::empty()
    } else {
        Seq::new((trail.len() - 1) as nat, |i: int| trail_segment(trail, color, i))
    }
}

/// The shapes that show one body: its disc, its momentum indicator, then
/// its trail.
pub open spec fn sprite_shapes(sprite: Sprite) -> Seq<Shape> {
    seq![
        Shape::Circle(
            Circle {
                pos: sprite.center,
                radius: sprite.radius,
                color: sprite.color,
                z_index: BODY_ORDER,
            },
        ),
        Shape::Line(
            Line {
                pos_1: sprite.momentum_from,
                pos_2: sprite.momentum_to,
                color: indicator_color(),
                z_index: MOMENTUM_ORDER,
            },
        ),
    ] + trail_shapes(sprite.trail@, sprite.color)
}

/// The shapes of all the bodies, body after body.
pub open spec fn all_shapes(sprites: Seq<Sprite>) -> Seq<Shape>
    decreases sprites.len(),
{
    if sprites.len() == 0 {
        Seq::empty()
    } else {
        all_shapes(sprites.drop_last()) + sprite_shapes(sprites.last())
    }
}

impl Sprite {
    /// The shapes that show this body: the disc at `BODY_ORDER`, the
    /// momentum indicator at `MOMENTUM_ORDER`, and one segment at
    /// `TRAIL_ORDER` between each two neighbouring trail positions.
    pub fn shape(&self) -> (out: Vec<Shape>)
        ensures
            out@ == sprite_shapes(*self),
    {
        let mut out: Vec<Shape> = Vec::new();
        out.push(
            Shape::Circle(
                Circle {
                    pos: self.center,
                    radius: self.radius,
                    color: self.color,
                    z_index: BODY_ORDER,
                },
            ),
        );
        out.push(
            Shape::Line(
                Line::new(
                    self.momentum_from,
                    self.momentum_to,
                    MOMENTUM_ORDER,
                    Color::new(255, 255, 255),
                ),
            ),
        );
        let ghost head = out@;
        let n: usize = self.trail.len();
        let mut i: usize = 1;
        while i < n
            invariant
                1 <= i,
                n == self.trail@.len(),
                i <= n || i == 1,
                out@.len() == 2 + (i - 1),
                out@.subrange(0, 2) == head,
                forall|k: int|
                    0 <= k < i - 1 ==> out@[2 + k] == trail_segment(self.trail@, self.color, k),
            decreases n - i,
        {
            out.push(
                Shape::Line(Line::new(self.trail[i - 1], self.trail[i], TRAIL_ORDER, self.color)),
            );
            assert(out@.subrange(0, 2) =~= head);
            i += 1;
        }
        proof {
            let want = sprite_shapes(*self);
            let tail = trail_shapes(self.trail@, self.color);
            assert(head.len() == 2);
            assert(want == head + tail);
            assert(out@.len() == want.len());
            assert forall|k: int| 0 <= k < out@.len() implies out@[k] == want[k] by {
                if k < 2 {
                    assert(out@[k] == out@.subrange(0, 2)[k]);
                } else {
                    assert(want[k] == tail[k - 2]);
                }
            }
            assert(out@ =~= want);
        }
        out
    }
}

/// The shapes of all the bodies, in the order of the bodies.
pub fn shapes(sprites: &Vec<Sprite>) -> (out: Vec<Shape>)
    ensures
        out@ == all_shapes(sprites@),
{
    let mut out: Vec<Shape> = Vec::new();
    let n: usize = sprites.len();
    let mut i: usize = 0;
    while i < n
        invariant
            i <= n,
            n == sprites@.len(),
            out@ == all_shapes(sprites@.subrange(0, i as int)),
        decreases n - i,
    {
        let mut one: Vec<Shape> = sprites[i].shape();
        let ghost before = out@;
        out.append(&mut one);
        proof {
            let upto = sprites@.subrange(0, i + 1);
            assert(upto.drop_last() =~= sprites@.subrange(0, i as int));
            assert(upto.last() == sprites@[i as int]);
        }
        i += 1;
    }
    assert(sprites@.subrange(0, n as int) =~= sprites@);
    out
}

} // verus!
