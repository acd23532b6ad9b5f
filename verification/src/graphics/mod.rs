//! The rendering side: colours, the pixel buffer, the drawable shapes and
//! the display list that composites them.

pub mod canvas;
pub mod circle;
pub mod color;
pub mod draw;
pub mod frame_buffer;
pub mod line;
pub mod rect;
pub mod scene;
pub mod shape;

pub use canvas::Canvas;
pub use circle::Circle;
pub use color::Color;
pub use draw::Draw;
pub use frame_buffer::{FrameBuffer, Point, Size};
pub use line::Line;
pub use rect::Rect;
pub use scene::Scene;
pub use shape::Shape;
