//! Verified core of the wave2 waveform viewer: VCD signal storage, the
//! state of its panes and how each message changes it, the selection logic
//! of its widgets and the integer arithmetic behind the wave window.
pub mod application;
pub mod backend;
pub mod components;
pub mod widgets;
