//! The wave window pane: the time axis of the signal window widget.
use super::Message;
use crate::widgets::signal_window;
use crate::widgets::signal_window::clamp_zoom;
use vstd::prelude::*;

verus! {

/// The state of the wave window pane.
pub struct WaveWindowState {
    pub widget_state: signal_window::State,
}

impl Default for WaveWindowState {
    fn default() -> (r: Self)
        ensures
            r.widget_state.wf(),
            r.widget_state.start_time == 0,
            r.widget_state.end_time == 4,
            r.widget_state.cursor_location == 0,
            r.widget_state.zoom == 0,
    {
        WaveWindowState { widget_state: signal_window::State::new() }
    }
}

/// The time axis after the wave window handles `message`: new bounds, a new
/// cursor, one zoom step in or out; any other message leaves it as it was.
pub open spec fn wavewindow_next(s: signal_window::State, message: Message) -> signal_window::State {
    match message {
        Message::InitBounds(bounds) => signal_window::State { start_time: bounds.0, end_time: bounds.1, ..s },
        Message::UpdateCursor(loc) => signal_window::State { cursor_location: loc, ..s },
        Message::ZoomIn => {
            let z = clamp_zoom(s.zoom - 1);
            signal_window::State {
                zoom: z as i32,
                ns_per_frame: signal_window::frame_ns(z as nat) as u64,
                ..s
            }
        },
        Message::ZoomOut => {
            let z = clamp_zoom(s.zoom + 1);
            signal_window::State {
                zoom: z as i32,
                ns_per_frame: signal_window::frame_ns(z as nat) as u64,
                ..s
            }
        },
        _ => s,
    }
}

impl WaveWindowState {
    /// Handles a message of the signal panes (see [`wavewindow_next`]).
    pub fn update(&mut self, message: Message)
        requires
            old(self).widget_state.wf(),
        ensures
            final(self).widget_state.wf(),
            final(self).widget_state == wavewindow_next(old(self).widget_state, message),
    {
        match message {
            Message::InitBounds(bounds) => {
                self.widget_state.init_bounds(bounds);
            },
            Message::UpdateCursor(cursor_loc) => {
                self.widget_state.cursor_location = cursor_loc;
            },
            Message::ZoomIn => {
                self.widget_state.calczoom(-1);
            },
            Message::ZoomOut => {
                self.widget_state.calczoom(1);
            },
            _ => {},
        }
    }
}

} // verus!
