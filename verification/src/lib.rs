//! Rasterization of simple geometric primitives (points, lines, triangles,
//! rectangles, circles) onto a 2D pixel canvas, with verified pixel-exact
//! contracts for every drawing algorithm.

pub mod canvas;
pub mod circle_path;
pub mod geometrical_shapes;
pub mod laws;
pub mod line_path;
pub mod color;
mod rng;
pub mod trunc_div;

pub use canvas::Canvas;
pub use canvas::Displayable;
pub use canvas::PixelWrite;
pub use color::Color;
pub use geometrical_shapes::Circle;
pub use geometrical_shapes::Drawable;
pub use geometrical_shapes::Line;
pub use geometrical_shapes::Point;
pub use geometrical_shapes::Rectangle;
pub use geometrical_shapes::Triangle;
