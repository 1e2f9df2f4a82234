//! A terminal dashboard renderer: a layout engine that partitions a
//! rectangular region by sizing constraints, a selection model for list-like
//! widgets, a set of cell-writing widgets, and a braille-resolution
//! projection canvas for plotting geographic points and lines.

pub mod geometry;
pub mod layout;
pub mod selection;
pub mod nav;
pub mod style;
pub mod buffer;
pub mod widgets;
pub mod canvas;
pub mod paragraph;
pub mod frame;

pub use geometry::Rect;
