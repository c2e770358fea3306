//! The signal panes: the list of added waves and the wave window beside it,
//! driven by one message type.
use crate::backend::errors::Waverr;
use crate::backend::InMemWave;
use std::sync::Arc;
use vstd::prelude::*;

pub mod beach;
pub mod sigwindow;
pub mod wavewindow;

verus! {

/// The messages of the signal panes.
#[derive(Debug)]
pub enum Message {
    /// A wave was loaded, or failed to load.
    AddWave(Result<Arc<InMemWave>, Arc<Waverr>>),
    /// The cell at this offset was clicked.
    SelectedWave(usize),
    ClearWaves,
    RemoveSelected,
    /// Moves the cursor to this time.
    UpdateCursor(u32),
    UpdateBounds((u32, u32)),
    /// Sets the simulated time range of the wave window.
    InitBounds((u32, u32)),
    /// The value of a signal (by id) under the cursor.
    UpdateWaveValues(Option<(u32, String)>),
    CellListPlaceholder,
    ZoomIn,
    ZoomOut,
    GoToStart,
    GoToEnd,
    Next,
    Prev,
    TIUpdate(Bound, String),
    BoundsUpdate(Bound),
    Noop,
}

/// A side of the time range.
#[derive(Debug, Clone, Copy, PartialEq, Eq, Structural)]
pub enum Bound {
    Left,
    Right,
}

} // verus!
