//! The time axis of the signal window: bounds and cursor in simulation time,
//! the zoom level, and how many nanoseconds one frame of the header spans.
//!
//! Zooming mirrors GtkWave's `calczoom`: at zoom level `z` a frame spans
//! `2^z` ns; past level 3 that span is rounded to the nearest power of ten.
use vstd::prelude::*;

verus! {

/// The coarsest zoom level.
pub const MAX_ZOOM: i32 = 63;

/// Two to the power `n`.
pub open spec fn two_pow(n: nat) -> nat
    decreases n,
{
    if n == 0 {
        1
    } else {
        2 * two_pow((n - 1) as nat)
    }
}

/// Ten to the power `n`.
pub open spec fn ten_pow(n: nat) -> nat
    decreases n,
{
    if n == 0 {
        1
    } else {
        10 * ten_pow((n - 1) as nat)
    }
}

/// The number of decimal digits of `n` minus one: `floor(log10(n))` for
/// `n >= 1`.
pub open spec fn log10_floor(n: nat) -> nat
    decreases n,
{
    if n < 10 {
        0
    } else {
        1 + log10_floor(n / 10)
    }
}

/// `round(log10(x))`: the `k` with `10^(2k-1) <= x^2 < 10^(2k+1)` (see
/// [`lemma_frame_ns_is_nearest_decade`]).
pub open spec fn log10_round(x: nat) -> nat {
    ((log10_floor(x * x) + 1) / 2) as nat
}

/// A zoom level after adding a step: kept within `0..=MAX_ZOOM`.
pub open spec fn clamp_zoom(z: int) -> int {
    if z < 0 {
        0
    } else if z > 63 {
        63
    } else {
        z
    }
}

/// The nanoseconds one frame spans at `zoom`: `2^zoom` up to level 3, the
/// power of ten nearest to `2^zoom` beyond.
pub open spec fn frame_ns(zoom: nat) -> nat {
    if zoom <= 3 {
        two_pow(zoom)
    } else {
        ten_pow(log10_round(two_pow(zoom)))
    }
}

/// The local state of the signal window's time axis. The zoom level and the
/// frame span move together (see [`State::wf`]); change them through
/// [`State::calczoom`].
#[derive(Debug, Clone)]
pub struct State {
    pub start_time: u32,
    pub end_time: u32,
    pub cursor_location: u32,
    pub zoom: i32,
    pub ns_per_frame: u64,
}

impl State {
    /// The zoom level is in range and the frame span belongs to it.
    pub open spec fn wf(&self) -> bool {
        &&& 0 <= self.zoom <= MAX_ZOOM
        &&& self.ns_per_frame == frame_ns(self.zoom as nat)
    }

    /// The initial axis: `0..4`, cursor at 0, zoom level 0, one ns per frame.
    pub fn new() -> (r: Self)
        ensures
            r.wf(),
            r.start_time == 0,
            r.end_time == 4,
            r.cursor_location == 0,
            r.zoom == 0,
            r.ns_per_frame == 1,
    {
        State { start_time: 0, end_time: 4, cursor_location: 0, zoom: 0, ns_per_frame: 1 }
    }

    /// Sets the start and end of the simulated time range.
    pub fn init_bounds(&mut self, bounds: (u32, u32))
        ensures
            *final(self) == (State { start_time: bounds.0, end_time: bounds.1, ..*old(self) }),
    {
        self.start_time = bounds.0;
        self.end_time = bounds.1;
    }

    /// Moves the zoom level by `zoom_factor` (negative zooms in), keeps it in
    /// `0..=MAX_ZOOM`, and recomputes the span of a frame.
    pub fn calczoom(&mut self, zoom_factor: i32)
        requires
            old(self).wf(),
            i32::MIN <= old(self).zoom + zoom_factor <= i32::MAX,
        ensures
            final(self).wf(),
            final(self).zoom == clamp_zoom(old(self).zoom + zoom_factor),
            final(self).ns_per_frame == frame_ns(final(self).zoom as nat),
            final(self).start_time == old(self).start_time,
            final(self).end_time == old(self).end_time,
            final(self).cursor_location == old(self).cursor_location,
    {
        let mut zoom = self.zoom + zoom_factor;
        if zoom < 0 {
            zoom = 0;
        }
        if zoom > MAX_ZOOM {
            zoom = MAX_ZOOM;
        }
        self.zoom = zoom;
        self.ns_per_frame = frame_ns_exec(zoom as u32);
    }
}

impl Default for State {
    fn default() -> (r: Self)
        ensures
            r.wf(),
            r.start_time == 0,
            r.end_time == 4,
            r.cursor_location == 0,
            r.zoom == 0,
            r.ns_per_frame == 1,
    {
        State::new()
    }
}

proof fn lemma_two_pow_pos(n: nat)
    ensures
        1 <= two_pow(n),
    decreases n,
{
    if n > 0 {
        lemma_two_pow_pos((n - 1) as nat);
    }
}

proof fn lemma_two_pow_mono(a: nat, b: nat)
    requires
        a <= b,
    ensures
        1 <= two_pow(a) <= two_pow(b),
    decreases b,
{
    lemma_two_pow_pos(a);
    if b > a {
        lemma_two_pow_mono(a, (b - 1) as nat);
    }
}

proof fn lemma_ten_pow_pos(n: nat)
    ensures
        1 <= ten_pow(n),
    decreases n,
{
    if n > 0 {
        lemma_ten_pow_pos((n - 1) as nat);
    }
}

proof fn lemma_ten_pow_mono(a: nat, b: nat)
    requires
        a <= b,
    ensures
        1 <= ten_pow(a) <= ten_pow(b),
    decreases b,
{
    lemma_ten_pow_pos(a);
    if b > a {
        lemma_ten_pow_mono(a, (b - 1) as nat);
    }
}

/// `floor(log10(n))` brackets `n` between consecutive powers of ten.
pub proof fn lemma_log10_floor_bounds(n: nat)
    requires
        n >= 1,
    ensures
        ten_pow(log10_floor(n)) <= n < ten_pow(log10_floor(n) + 1),
    decreases n,
{
    if n >= 10 {
        lemma_log10_floor_bounds(n / 10);
    }
}

proof fn lemma_log10_floor_below(n: nat, m: nat)
    requires
        n < ten_pow(m),
    ensures
        log10_floor(n) < m || n == 0,
{
    if n >= 1 {
        lemma_log10_floor_bounds(n);
        if log10_floor(n) >= m {
            lemma_ten_pow_mono(m, log10_floor(n));
        }
    }
}

proof fn lemma_pow_values()
    ensures
        two_pow(4) == 16,
        two_pow(63) == 0x8000_0000_0000_0000,
        ten_pow(1) == 10,
        ten_pow(3) == 1000,
        ten_pow(19) == 10_000_000_000_000_000_000,
        ten_pow(39) == 1_000_000_000_000_000_000_000_000_000_000_000_000_000,
{
    reveal_with_fuel(two_pow, 64);
    reveal_with_fuel(ten_pow, 40);
}

fn two_pow_exec(n: u32) -> (r: u64)
    requires
        n <= 63,
    ensures
        r == two_pow(n as nat),
{
    let mut p: u64 = 1;
    let mut i: u32 = 0;
    while i < n
        invariant
            i <= n <= 63,
            p == two_pow(i as nat),
        decreases n - i,
    {
        proof {
            lemma_two_pow_mono((i + 1) as nat, 63);
            lemma_pow_values();
        }
        p = p * 2;
        i = i + 1;
    }
    p
}

fn ten_pow_exec(n: u32) -> (r: u64)
    requires
        n <= 19,
    ensures
        r == ten_pow(n as nat),
{
    let mut p: u64 = 1;
    let mut i: u32 = 0;
    while i < n
        invariant
            i <= n <= 19,
            p == ten_pow(i as nat),
        decreases n - i,
    {
        proof {
            lemma_ten_pow_mono((i + 1) as nat, 19);
            lemma_pow_values();
        }
        p = p * 10;
        i = i + 1;
    }
    p
}

fn log10_floor_exec(n: u128) -> (r: u32)
    ensures
        r == log10_floor(n as nat),
{
    proof {
        lemma_pow_values();
        lemma_log10_floor_below(n as nat, 39);
    }
    let mut m: u128 = n;
    let mut d: u32 = 0;
    while m >= 10
        invariant
            d + log10_floor(m as nat) == log10_floor(n as nat),
            log10_floor(n as nat) < 39,
        decreases m,
    {
        m = m / 10;
        d = d + 1;
    }
    d
}

fn frame_ns_exec(zoom: u32) -> (r: u64)
    requires
        zoom <= 63,
    ensures
        r == frame_ns(zoom as nat),
{
    let lnspf = two_pow_exec(zoom);
    if zoom <= 3 {
        lnspf
    } else {
        let x: u128 = lnspf as u128;
        proof {
            lemma_two_pow_mono(zoom as nat, 63);
            lemma_pow_values();
            assert(x * x <= 0x8000_0000_0000_0000u128 * 0x8000_0000_0000_0000u128) by (nonlinear_arith)
                requires
                    x <= 0x8000_0000_0000_0000u128,
            ;
        }
        let digits = log10_floor_exec(x * x);
        proof {
            lemma_log10_floor_below((x * x) as nat, 39);
            lemma_pow_values();
        }
        ten_pow_exec((digits + 1) / 2)
    }
}

/// Zooming in one step and back out again restores the zoom level (and with
/// it the frame span), from every level but the finest.
pub proof fn lemma_zoom_in_then_out(zoom: int)
    requires
        0 < zoom <= MAX_ZOOM,
    ensures
        clamp_zoom(clamp_zoom(zoom - 1) + 1) == zoom,
        frame_ns(clamp_zoom(clamp_zoom(zoom - 1) + 1) as nat) == frame_ns(zoom as nat),
{
}

/// Zooming out one step and back in again restores the zoom level, from every
/// level but the coarsest.
pub proof fn lemma_zoom_out_then_in(zoom: int)
    requires
        0 <= zoom < MAX_ZOOM,
    ensures
        clamp_zoom(clamp_zoom(zoom + 1) - 1) == zoom,
{
}

/// Beyond level 3 a frame spans the power of ten `10^k` nearest to `2^zoom`:
/// `10^(2k-1) <= (2^zoom)^2 < 10^(2k+1)`.
pub proof fn lemma_frame_ns_is_nearest_decade(zoom: nat)
    requires
        3 < zoom <= 63,
    ensures
        frame_ns(zoom) == ten_pow(log10_round(two_pow(zoom))),
        log10_round(two_pow(zoom)) >= 1,
        ten_pow((2 * log10_round(two_pow(zoom)) - 1) as nat) <= two_pow(zoom) * two_pow(zoom),
        two_pow(zoom) * two_pow(zoom) < ten_pow(2 * log10_round(two_pow(zoom)) + 1),
{
    let x = two_pow(zoom);
    lemma_two_pow_mono(4, zoom);
    lemma_pow_values();
    assert(x * x >= 256) by (nonlinear_arith)
        requires
            x >= 16,
    ;
    lemma_log10_floor_bounds(x * x);
    let f = log10_floor(x * x);
    if f == 0 {
        assert(false);
    }
    let k = log10_round(x);
    if f % 2 == 0 {
        // f = 2k: no power of two squared has an odd decade count here, but
        // the bracket holds either way.
        assert(2 * k - 1 <= f);
        lemma_ten_pow_mono((2 * k - 1) as nat, f);
        lemma_ten_pow_mono(f + 1, 2 * k + 1);
    } else {
        assert(2 * k - 1 == f);
        assert(f + 1 == 2 * k);
        lemma_ten_pow_mono(f + 1, 2 * k + 1);
    }
}

} // verus!
