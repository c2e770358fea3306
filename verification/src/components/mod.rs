//! The panes of the viewer: their state and how each message changes it.
pub mod hier_nav;
pub mod icon_bar;
pub mod menu_bar;
pub mod module_nav;
pub mod shared;
pub mod signals;
pub mod sigwindow;
