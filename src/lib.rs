//! A point quadtree over the integer plane: axis-aligned rectangles with
//! strict-interior containment, and a capacity-bounded tree that splits a
//! full cell into four quadrants that tile it.

pub mod geometry;
pub mod tree;

pub use geometry::{Point, Quadrant, Rectangle};
pub use tree::{QuadTree, DEFAULT_CAPACITY};
