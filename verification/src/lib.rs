//! Integer rasterization of geometric primitives onto a discrete pixel grid.
//!
//! Shapes (points, lines, rectangles, triangles, circles) decompose into a
//! finite, ordered sequence of pixel writes against an abstract pixel sink.
//! All stepping is integer-only: lines use the Bresenham algorithm and
//! circles use the midpoint algorithm, so there is no floating-point drift.

pub mod color;
mod entropy;
pub mod sink;
pub mod line;
pub mod circle;
pub mod rect;
pub mod shapes;

pub use color::Color;
pub use sink::{Canvas, Displayable};
pub use shapes::{Circle, Drawable, Line, Point, Rectangle, Triangle};
