//! The logic of the custom widgets: context-menu entry trees, cell
//! selection, the signal window's time axis, color parsing and the
//! interfaces widgets require.
pub mod cell;
pub mod cell2;
pub mod cell_list;
pub mod signal_window;
pub mod styles;
pub mod traits;
pub mod utils;
