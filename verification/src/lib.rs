//! A quadtree: a spatial index over a bounded two-dimensional region.
//!
//! Axis-aligned rectangular objects are inserted into a tree of nodes whose
//! regions subdivide lazily into four quadrants, and region-overlap queries
//! collect stored objects without scanning every one of them.

pub mod geom;
pub mod model;
pub mod quadtree;

pub use crate::geom::Boundable;
pub use crate::geom::Rect;
pub use crate::geom::Rectangle;
pub use crate::geom::fits_within;
pub use crate::geom::overlaps;
pub use crate::model::NodeModel;
pub use crate::quadtree::Quadtree;
pub use crate::quadtree::QuadtreeError;
