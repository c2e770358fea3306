//! The drawing state of a wave: whether its trace is low, high or unknown.
use vstd::prelude::*;

verus! {

/// Wave state for single bit signals.
///
/// Used when iterating across an in memory wave to decide coloring state.
#[derive(Clone, Copy, Debug, PartialEq, Eq, Structural)]
pub enum SBWaveState {
    Beginning,
    Low,
    High,
    X,
    Z,
}

/// Whether a single-bit trace in `state` can take a change to `bit`: its
/// first value, or a value other than the one it holds.
pub open spec fn sb_change_ok(state: SBWaveState, bit: u8) -> bool {
    match state {
        SBWaveState::Beginning => bit == 0 || bit == 1,
        SBWaveState::High => bit == 0,
        SBWaveState::Low => bit == 1,
        _ => false,
    }
}

/// The state of a single-bit trace after a change to `bit`, and how many
/// wave heights the trace moves down (negative: up).
pub open spec fn sb_change(state: SBWaveState, bit: u8) -> (SBWaveState, int) {
    match (state, bit) {
        (SBWaveState::Beginning, 0) => (SBWaveState::Low, 1),
        (SBWaveState::Beginning, _) => (SBWaveState::High, 0),
        (SBWaveState::High, _) => (SBWaveState::Low, 1),
        (_, _) => (SBWaveState::High, -1),
    }
}

impl SBWaveState {
    /// Takes the change of a single-bit trace to the low bit of
    /// `payload_byte` (see [`sb_change`]).
    pub fn single_bit_change(self, payload_byte: u8) -> (r: (SBWaveState, i8))
        requires
            sb_change_ok(self, payload_byte & 1),
        ensures
            r.0 == sb_change(self, payload_byte & 1).0,
            r.1 == sb_change(self, payload_byte & 1).1,
    {
        let bit = payload_byte & 1;
        match (self, bit) {
            (SBWaveState::Beginning, 0) => (SBWaveState::Low, 1),
            (SBWaveState::Beginning, _) => (SBWaveState::High, 0),
            (SBWaveState::High, _) => (SBWaveState::Low, 1),
            (_, _) => (SBWaveState::High, -1),
        }
    }

    /// The coloring state of a vector value: unknown when any bit is X or Z.
    pub fn of_vector(is_zx: bool) -> (r: SBWaveState)
        ensures
            r == (if is_zx {
                SBWaveState::X
            } else {
                SBWaveState::High
            }),
    {
        if is_zx {
            SBWaveState::X
        } else {
            SBWaveState::High
        }
    }
}

/// Along a single-bit trace that starts at its first value and alternates,
/// the trace returns to the height it started from after a rise and a fall:
/// two changes move it `+1` then `-1` or `-1` then `+1`.
pub proof fn lemma_alternating_changes_return(state: SBWaveState, bit: u8)
    requires
        state is High || state is Low,
        sb_change_ok(state, bit),
    ensures
        sb_change_ok(sb_change(state, bit).0, if bit == 0 { 1u8 } else { 0u8 }),
        sb_change(state, bit).1 + sb_change(sb_change(state, bit).0, if bit == 0 { 1u8 } else { 0u8 }).1 == 0,
        sb_change(sb_change(state, bit).0, if bit == 0 { 1u8 } else { 0u8 }).0 == state,
{
}

} // verus!
