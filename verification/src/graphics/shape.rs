//! The closed set of shapes that a display list can hold.

use super::circle::Circle;
use super::color::Color;
use super::draw::Draw;
use super::frame_buffer::{FrameBuffer, Point};
use super::line::Line;
use super::rect::Rect;
use vstd::prelude::*;

verus! {

/// Any one of the drawable shapes.
#[derive(Debug, Clone, Copy, PartialEq, Eq, Structural)]
pub enum Shape {
    Line(Line),
    Rect(Rect),
    Circle(Circle),
}

impl Draw for Shape {
    open spec fn cells(&self) -> Set<(int, int)> {
        match *self {
            Shape::Line(s) => s.cells(),
            Shape::Rect(s) => s.cells(),
            Shape::Circle(s) => s.cells(),
        }
    }

    open spec fn outline_cells(&self) -> Set<(int, int)> {
        match *self {
            Shape::Line(s) => s.outline_cells(),
            Shape::Rect(s) => s.outline_cells(),
            Shape::Circle(s) => s.outline_cells(),
        }
    }

    open spec fn ink(&self) -> Color {
        match *self {
            Shape::Line(s) => s.ink(),
            Shape::Rect(s) => s.ink(),
            Shape::Circle(s) => s.ink(),
        }
    }

    open spec fn order(&self) -> u32 {
        match *self {
            Shape::Line(s) => s.order(),
            Shape::Rect(s) => s.order(),
            Shape::Circle(s) => s.order(),
        }
    }

    open spec fn shifted(&self, by: Point) -> Shape {
        match *self {
            Shape::Line(s) => Shape::Line(s.shifted(by)),
            Shape::Rect(s) => Shape::Rect(s.shifted(by)),
            Shape::Circle(s) => Shape::Circle(s.shifted(by)),
        }
    }

    open spec fn scaled(&self, times: i32) -> Shape {
        match *self {
            Shape::Line(s) => Shape::Line(s.scaled(times)),
            Shape::Rect(s) => Shape::Rect(s.scaled(times)),
            Shape::Circle(s) => Shape::Circle(s.scaled(times)),
        }
    }

    open spec fn reordered(&self, z: u32) -> Shape {
        match *self {
            Shape::Line(s) => Shape::Line(s.reordered(z)),
            Shape::Rect(s) => Shape::Rect(s.reordered(z)),
            Shape::Circle(s) => Shape::Circle(s.reordered(z)),
        }
    }

    fn draw(&self, frame_buffer: &mut FrameBuffer) {
        match self {
            Shape::Line(s) => s.draw(frame_buffer),
            Shape::Rect(s) => s.draw(frame_buffer),
            Shape::Circle(s) => s.draw(frame_buffer),
        }
    }

    fn draw_outline(&self, frame_buffer: &mut FrameBuffer) {
        match self {
            Shape::Line(s) => s.draw_outline(frame_buffer),
            Shape::Rect(s) => s.draw_outline(frame_buffer),
            Shape::Circle(s) => s.draw_outline(frame_buffer),
        }
    }

    fn offset(&self, offset_by: Point) -> (moved: Shape) {
        match self {
            Shape::Line(s) => Shape::Line(s.offset(offset_by)),
            Shape::Rect(s) => Shape::Rect(s.offset(offset_by)),
            Shape::Circle(s) => Shape::Circle(s.offset(offset_by)),
        }
    }

    fn scale(&self, times: i32) -> (scaled: Shape) {
        match self {
            Shape::Line(s) => Shape::Line(s.scale(times)),
            Shape::Rect(s) => Shape::Rect(s.scale(times)),
            Shape::Circle(s) => Shape::Circle(s.scale(times)),
        }
    }

    fn z_index(&self) -> (z: u32) {
        match self {
            Shape::Line(s) => s.z_index(),
            Shape::Rect(s) => s.z_index(),
            Shape::Circle(s) => s.z_index(),
        }
    }

    fn set_z_index(&mut self, val: u32) {
        match self {
            Shape::Line(s) => s.set_z_index(val),
            Shape::Rect(s) => s.set_z_index(val),
            Shape::Circle(s) => s.set_z_index(val),
        }
    }
}

} // verus!
