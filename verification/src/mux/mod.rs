//! The terminal multiplexer: tabs, panes, split trees and their layout.

pub mod model;
pub mod ops;
pub mod grow;
pub mod close;
pub mod layout;
pub mod resize;
pub mod nav;
pub mod view;
pub mod json;
pub mod undo;
pub mod tiling;
pub mod owned;
pub mod counts;
