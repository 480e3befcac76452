//! A small box layout engine: a tree of nodes, each stacking its children
//! along one axis, is resolved into a flat buffer of rectangles.

pub mod geometry;
pub mod laws;
pub mod model;
pub mod node;
pub mod sample;
pub mod sums;

pub use geometry::{DynLen, Layout, LayoutError, Rect};
pub use node::Node;
pub use sample::setup_nodes;
