//! A retained-mode UI scene graph: a tree of visual nodes, each bound to a
//! behavior (an Element), with a two-pass measure/layout algorithm and a
//! command-list rendering pipeline driven by a viewport-transform stack.

pub mod commands;
pub mod events;
pub mod geometry;
pub mod layout;
pub mod msg;
pub mod property;
pub mod render;
pub mod tree;

pub use geometry::Color;
pub use geometry::Point;
pub use geometry::Rect;
pub use geometry::Size;
pub use geometry::Thickness;
