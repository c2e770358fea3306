//! The canvas wave window: its cursor, visible range and header.
pub mod display_wave;
pub mod wavewindow;
