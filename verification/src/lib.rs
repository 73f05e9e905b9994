//! An immediate-mode layout and interaction engine.
//!
//! Every frame the caller declares a tree of nodes through nested
//! `begin`/`end` calls. The engine gives each node a size (fixed, fitted to
//! its content, or grown into leftover space) and a position, derives the
//! pointer interaction of each registered node from the geometry of the
//! frame before, and hands out a flat list of positioned rectangles.
//!
//! All geometry is kept in whole layout units: declared lengths are 32-bit,
//! resolved sizes and positions are 64-bit and saturate at the ends of that
//! range.

pub mod color;
pub mod error;
pub mod frame;
pub mod fxmap;
pub mod geom;
pub mod grow;
pub mod id;
pub mod input_recorder;
pub mod laws;
pub mod layout;
pub mod node;
pub mod signal;
pub mod sizing;
pub mod store;
pub mod tabbar;
pub mod tracker;
pub mod tree;
pub mod ui;
pub mod ui_items;

pub use color::RGBA;
pub use geom::{Axis, Point, Rect, Size};
pub use id::{id_from_label, Id};
pub use input_recorder::{ButtonState, MouseButton, MouseState, PerButton};
pub use node::{Node, Outline, Padding, SizingMode, Style};
pub use error::UiError;
pub use signal::{ButtonSignal, Signal};
pub use store::NodeStore;
pub use tabbar::{TabBar, TabItem};
pub use ui::{Context, CursorIcon, DrawRect, Theme};
