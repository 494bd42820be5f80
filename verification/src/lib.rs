//! A small 2D tile-map library: an in-memory grid of tile indices organised
//! in layers, a text codec that persists the grid together with the tileset
//! image path, and a render selector that turns a clamped viewport range into
//! an ordered list of draw directives.

pub mod codec;
pub mod digits;
pub mod grid;
pub mod selector;
pub mod session;
pub mod text;
pub mod views;
