//! The appearance states of the custom widgets.
pub mod cell2;
