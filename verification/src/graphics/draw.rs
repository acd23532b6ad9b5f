//! The capability that all shapes share, and the arithmetic of moving and
//! scaling on a grid of machine integers.

use super::color::Color;
use super::frame_buffer::{FrameBuffer, Point};
use vstd::prelude::*;

verus! {

/// `v` brought into the range of `i32`.
pub open spec fn clamp_i32(v: int) -> i32 {
    if v < i32::MIN {
        i32::MIN
    } else if v > i32::MAX {
        i32::MAX
    } else {
        v as i32
    }
}

/// `v` brought into the range of `u32`.
pub open spec fn clamp_u32(v: int) -> u32 {
    if v < 0 {
        0
    } else if v > u32::MAX {
        u32::MAX
    } else {
        v as u32
    }
}

/// The absolute value.
pub open spec fn magnitude(v: int) -> int {
    if v < 0 {
        -v
    } else {
        v
    }
}

/// The point moved by a displacement, each coordinate kept within `i32`.
pub open spec fn point_shifted(p: Point, by: Point) -> Point {
    Point { x: clamp_i32(p.x + by.x), y: clamp_i32(p.y + by.y) }
}

/// The point with both coordinates multiplied, each kept within `i32`.
pub open spec fn point_scaled(p: Point, times: i32) -> Point {
    Point { x: clamp_i32(p.x * times), y: clamp_i32(p.y * times) }
}

/// An extent multiplied by a factor whose sign is dropped, kept within
/// `u32`.
pub open spec fn extent_scaled(e: u32, times: i32) -> u32 {
    clamp_u32(e * magnitude(times as int))
}

pub fn saturate_i32(v: i64) -> (r: i32)
    ensures
        r == clamp_i32(v as int),
{
    if v < i32::MIN as i64 {
        i32::MIN
    } else if v > i32::MAX as i64 {
        i32::MAX
    } else {
        v as i32
    }
}

/// The absolute value of a signed extent.
pub fn extent_of(v: i32) -> (r: u32)
    ensures
        r == magnitude(v as int),
{
    if v >= 0 {
        v as u32
    } else {
        (-(v as i64)) as u32
    }
}

pub fn shift_point(p: Point, by: Point) -> (r: Point)
    ensures
        r == point_shifted(p, by),
{
    Point { x: saturate_i32(p.x as i64 + by.x as i64), y: saturate_i32(p.y as i64 + by.y as i64) }
}

pub fn scale_point(p: Point, times: i32) -> (r: Point)
    ensures
        r == point_scaled(p, times),
{
    assert(i64::MIN <= p.x * times <= i64::MAX && i64::MIN <= p.y * times <= i64::MAX)
        by (nonlinear_arith)
        requires
            i32::MIN <= p.x <= i32::MAX,
            i32::MIN <= p.y <= i32::MAX,
            i32::MIN <= times <= i32::MAX,
    ;
    Point { x: saturate_i32(p.x as i64 * times as i64), y: saturate_i32(p.y as i64 * times as i64) }
}

pub fn scale_extent(e: u32, times: i32) -> (r: u32)
    ensures
        r == extent_scaled(e, times),
{
    let k: u64 = extent_of(times) as u64;
    assert(0 <= e * k <= u64::MAX) by (nonlinear_arith)
        requires
            0 <= e <= u32::MAX,
            0 <= k <= 0x8000_0000,
    ;
    let v: u64 = e as u64 * k;
    if v > u32::MAX as u64 {
        u32::MAX
    } else {
        v as u32
    }
}

/// A shape that can rasterise itself, filled or as an outline, and give
/// moved and scaled copies of itself. Shapes are drawn in ascending order of
/// their draw-order key, so a higher key paints over a lower one.
pub trait Draw: Sized {
    /// The cells that the filled shape covers.
    spec fn cells(&self) -> Set<(int, int)>;

    /// The cells that the shape's outline covers.
    spec fn outline_cells(&self) -> Set<(int, int)>;

    /// The colour that the shape is drawn in.
    spec fn ink(&self) -> Color;

    /// The draw-order key.
    spec fn order(&self) -> u32;

    /// The shape moved by a displacement.
    spec fn shifted(&self, by: Point) -> Self;

    /// The shape with positions and extents multiplied by a factor.
    spec fn scaled(&self, times: i32) -> Self;

    /// The shape with another draw-order key.
    spec fn reordered(&self, z: u32) -> Self;

    /// Paints the filled shape.
    fn draw(&self, frame_buffer: &mut FrameBuffer)
        ensures
            final(frame_buffer)@ == old(frame_buffer)@.paint(self.cells(), self.ink()),
    ;

    /// Paints the shape's outline.
    fn draw_outline(&self, frame_buffer: &mut FrameBuffer)
        ensures
            final(frame_buffer)@ == old(frame_buffer)@.paint(self.outline_cells(), self.ink()),
    ;

    /// A copy moved by `offset_by`; colour and draw order pass through.
    fn offset(&self, offset_by: Point) -> (moved: Self)
        ensures
            moved == self.shifted(offset_by),
    ;

    /// A copy with positions and extents multiplied by `times`; colour and
    /// draw order pass through.
    fn scale(&self, times: i32) -> (scaled: Self)
        ensures
            scaled == self.scaled(times),
    ;

    fn z_index(&self) -> (z: u32)
        ensures
            z == self.order(),
    ;

    fn set_z_index(&mut self, val: u32)
        ensures
            *final(self) == old(self).reordered(val),
    ;
}

} // verus!
