//! The states a cell is drawn in.
use vstd::prelude::*;

verus! {

/// The state of the style.
#[derive(Debug, Clone, Copy, PartialEq, Eq, Structural, Hash, PartialOrd, Ord)]
pub enum StyleState {
    /// Use the active style
    Active,
    /// Use the selected style
    Selected,
    /// Use the hovered style
    Hovered,
    /// Use the focused style
    Focused,
    /// Use the disabled style
    Disabled,
}

/// The default appearance of a cell.
#[derive(Clone, Copy, Debug)]
pub struct Default;

} // verus!
