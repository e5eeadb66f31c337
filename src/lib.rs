//! Rasterization of simple vector shapes (points, lines, rectangles,
//! triangles, circles and wireframe cubes) onto a `raster::Image`.

pub mod canvas;
pub mod palette;
pub mod segment;
pub mod midpoint;
pub mod shapes;

pub use canvas::Displayable;
pub use shapes::{Circle, Cube, Drawable, Line, Point, Rectangle, Triangle};
