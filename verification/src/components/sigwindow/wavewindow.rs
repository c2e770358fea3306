//! The cursor and visible time range of the canvas wave window, and where
//! its header puts a timestamp.
use vstd::prelude::*;

verus! {

/// At most this many timestamps go in the header.
pub const MAX_NUM_TEXT_HEADERS: u32 = 30;

/// The cursor position and the visible time range.
#[derive(Debug, Clone, Copy)]
pub struct CursorState {
    pub cursor_location: u32,
    pub view_range: (u32, u32),
}

impl Default for CursorState {
    fn default() -> (r: Self)
        ensures
            r == (CursorState { cursor_location: 10, view_range: (0, 800) }),
    {
        CursorState { cursor_location: 10, view_range: (0, 800) }
    }
}

/// The messages of the canvas wave window.
#[derive(Debug, Clone, Copy)]
pub enum Message {
    /// A click moved the cursor.
    UpdateCursor(CursorState),
}

/// The state of the canvas wave window: the cursor and visible range, and
/// where the simulation ends.
#[derive(Debug, Clone, Copy)]
pub struct WaveWindowState {
    pub cursor_state: CursorState,
    pub end_sim_time: u32,
}

impl Default for WaveWindowState {
    fn default() -> (r: Self)
        ensures
            r.cursor_state.cursor_location == 10,
            r.cursor_state.view_range == (0u32, 800u32),
            r.end_sim_time == 600,
    {
        WaveWindowState { cursor_state: CursorState::default(), end_sim_time: 600 }
    }
}

impl WaveWindowState {
    /// Takes the cursor a click reported.
    pub fn update(&mut self, message: Message)
        ensures
            final(self).end_sim_time == old(self).end_sim_time,
            match message {
                Message::UpdateCursor(cs) => final(self).cursor_state.cursor_location == cs.cursor_location
                    && final(self).cursor_state.view_range == cs.view_range,
            },
    {
        match message {
            Message::UpdateCursor(cursor_state) => {
                self.cursor_state = cursor_state;
            },
        }
    }

    /// The end of the drawn waves (see [`CursorState::end_window_time`]).
    pub fn end_window_time(&self) -> (r: u32)
        ensures
            r == (if self.cursor_state.view_range.1 < self.end_sim_time {
                self.cursor_state.view_range.1
            } else {
                self.end_sim_time
            }),
    {
        self.cursor_state.end_window_time(self.end_sim_time)
    }
}

/// The spacing of header timestamps for a window `width` ns wide: the
/// smallest power of ten that leaves fewer than 30 steps.
pub open spec fn tick_step(width: nat) -> nat
    decreases width,
{
    if width < 30 {
        1
    } else {
        10 * tick_step(width / 10)
    }
}

/// A window spans fewer than `MAX_NUM_TEXT_HEADERS` steps of its header.
pub proof fn lemma_fewer_than_max_steps(width: nat)
    ensures
        width < MAX_NUM_TEXT_HEADERS * tick_step(width),
    decreases width,
{
    if width >= 30 {
        let t = tick_step(width / 10);
        lemma_fewer_than_max_steps(width / 10);
        assert(width < 30 * (10 * t)) by (nonlinear_arith)
            requires
                width / 10 < 30 * t,
                width >= 0,
        ;
    }
}

/// The first header timestamp for a window starting at `start`.
pub open spec fn first_tick(start: nat, step: nat) -> nat {
    start + start % step
}

impl CursorState {
    /// The end of the drawn waves: the end of the window, or of the
    /// simulation if that comes first.
    pub fn end_window_time(&self, end_sim_time: u32) -> (r: u32)
        ensures
            r == (if self.view_range.1 < end_sim_time {
                self.view_range.1
            } else {
                end_sim_time
            }),
    {
        if self.view_range.1 < end_sim_time {
            return self.view_range.1;
        }
        end_sim_time
    }

    /// The timestamps the header marks, and their spacing: every `step` ns
    /// from the first tick up to the end of the window.
    pub fn header_ticks(&self) -> (r: (u32, Vec<u32>))
        requires
            self.view_range.0 <= self.view_range.1,
            first_tick(
                self.view_range.0 as nat,
                tick_step((self.view_range.1 - self.view_range.0) as nat),
            ) <= u32::MAX,
        ensures
            r.0 == tick_step((self.view_range.1 - self.view_range.0) as nat),
            forall|i: int|
                0 <= i < r.1@.len() ==> #[trigger] r.1@[i] == first_tick(self.view_range.0 as nat, r.0 as nat)
                    + i * r.0,
            forall|i: int| 0 <= i < r.1@.len() ==> #[trigger] r.1@[i] < self.view_range.1,
            first_tick(self.view_range.0 as nat, r.0 as nat) + r.1@.len() * r.0 >= self.view_range.1,
    {
        let start = self.view_range.0;
        let end = self.view_range.1;
        let mut window_width: u32 = end - start;
        let mut ts_width: u32 = 1;
        while window_width >= MAX_NUM_TEXT_HEADERS
            invariant
                ts_width * tick_step(window_width as nat) == tick_step((end - start) as nat),
                ts_width >= 1,
                ts_width * window_width <= end - start,
            decreases window_width,
        {
            proof {
                assert(ts_width * window_width == ts_width * 10 * (window_width / 10) + ts_width * (
                window_width % 10)) by (nonlinear_arith)
                    requires
                        ts_width >= 1,
                ;
                assert(ts_width * (window_width % 10) >= 0) by (nonlinear_arith)
                    requires
                        ts_width >= 1,
                ;
                assert(ts_width * 10 * (window_width / 10) >= ts_width * 10 * 3) by (nonlinear_arith)
                    requires
                        ts_width >= 1,
                        window_width >= 30,
                ;
                assert(ts_width * (10 * tick_step((window_width / 10) as nat)) == (ts_width * 10)
                    * tick_step((window_width / 10) as nat)) by (nonlinear_arith);
            }
            window_width = window_width / 10;
            ts_width = ts_width * 10;
        }
        proof {
            assert(tick_step(window_width as nat) == 1);
            assert(ts_width * 1 == ts_width);
        }
        let starting_ts: u32 = start + start % ts_width;
        let mut ticks: Vec<u32> = Vec::new();
        let mut ts: u32 = starting_ts;
        let mut done: bool = starting_ts >= end;
        proof {
            assert(0 * ts_width == 0);
        }
        while !done
            invariant
                ts_width >= 1,
                !done ==> ts as int == starting_ts + ticks@.len() * ts_width,
                forall|i: int| 0 <= i < ticks@.len() ==> #[trigger] ticks@[i] == starting_ts + i * ts_width,
                forall|i: int| 0 <= i < ticks@.len() ==> #[trigger] ticks@[i] < end,
                done ==> starting_ts + ticks@.len() * ts_width >= end,
                !done ==> ts < end,
            decreases (if done { 0int } else { end - ts + 1 }),
        {
            let ghost len = ticks@.len();
            ticks.push(ts);
            proof {
                assert(len * ts_width + ts_width == (len + 1) * ts_width) by (nonlinear_arith);
            }
            match ts.checked_add(ts_width) {
                Some(next) => {
                    ts = next;
                    if ts >= end {
                        done = true;
                    }
                },
                None => {
                    done = true;
                },
            }
        }
        (ts_width, ticks)
    }
}

} // verus!
